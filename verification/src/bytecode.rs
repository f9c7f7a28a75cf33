//! The instruction set, the chunk that holds one compiled unit, and the image
//! that is handed from the compiler to the machine.

use vstd::prelude::*;
use crate::value::{heap_view, HeapObject, ObjectView, Value};

verus! {

/// The arithmetic operators.
#[derive(Clone, Copy, PartialEq, Eq, Structural, Debug)]
pub enum ArithOp {
    Add,
    Sub,
    Mul,
    Div,
    Rem,
}

/// The relational operators.
#[derive(Clone, Copy, PartialEq, Eq, Structural, Debug)]
pub enum Relation {
    Eq,
    Ne,
    Lt,
    Le,
    Gt,
    Ge,
}

/// One instruction: an opcode and its operand, if it has one.
///
/// Jump operands are absolute offsets into the code of the chunk that holds the
/// instruction.  Slot operands are relative to the base of the running frame.
#[derive(Clone, Copy, PartialEq, Eq, Structural, Debug)]
pub enum Instruction {
    /// Push the constant at this index of the pool.
    Constant(usize),
    Unit,
    True,
    False,
    Pop,
    GetLocal(usize),
    SetLocal(usize),
    GetUpvalue(usize),
    SetUpvalue(usize),
    IntArith(ArithOp),
    IntCompare(Relation),
    FloatArith(ArithOp),
    FloatCompare(Relation),
    Equal,
    NotEqual,
    Negate,
    FloatNegate,
    Not,
    Jump(usize),
    /// Pop a boolean and jump if it is `false`.
    JumpIfFalse(usize),
    /// Create a closure from the prototype at this index of the pool.
    Closure(usize),
    /// Call the value that lies below this many arguments.
    Call(usize),
    Return,
    /// Pop this many values and build an aggregate from them.
    NewStruct(usize),
    /// Pop an index and an aggregate and push the field at that index.
    Index,
}

/// A compiled unit: instructions, a constant pool, and one source line for each
/// instruction.
#[derive(Clone, PartialEq, Eq, Debug)]
pub struct Chunk {
    pub code: Vec<Instruction>,
    pub constants: Vec<Value>,
    pub lines: Vec<u32>,
}

/// What the compiler hands to the machine: the chunk of the top-level code, and
/// the objects (string data and function prototypes) that constant pools refer to.
#[derive(Clone, PartialEq, Eq, Debug)]
pub struct Image {
    pub chunk: Chunk,
    pub objects: Vec<HeapObject>,
}

/// The mathematical content of a chunk.
pub struct ChunkView {
    pub code: Seq<Instruction>,
    pub constants: Seq<Value>,
    pub lines: Seq<u32>,
}

/// The mathematical content of an image.
pub struct ImageView {
    pub chunk: ChunkView,
    pub objects: Seq<ObjectView>,
}

impl View for Chunk {
    type V = ChunkView;

    open spec fn view(&self) -> ChunkView {
        ChunkView { code: self.code@, constants: self.constants@, lines: self.lines@ }
    }
}

impl View for Image {
    type V = ImageView;

    open spec fn view(&self) -> ImageView {
        ImageView { chunk: self.chunk@, objects: heap_view(self.objects@) }
    }
}

impl ChunkView {
    /// An instruction is resolved when its jump target lies within the code, or one
    /// past its end, and its pool index lies within the pool.
    pub open spec fn resolved(self, instruction: Instruction) -> bool {
        match instruction {
            Instruction::Jump(target) => target <= self.code.len(),
            Instruction::JumpIfFalse(target) => target <= self.code.len(),
            Instruction::Constant(index) => index < self.constants.len(),
            Instruction::Closure(index) => index < self.constants.len()
                && self.constants[index as int] is Function,
            _ => true,
        }
    }

    /// No value occurs twice in the pool.
    pub open spec fn pool_distinct(self) -> bool {
        forall|i: int, j: int|
            0 <= i < j < self.constants.len() ==> #[trigger] self.constants[i]
                != #[trigger] self.constants[j]
    }

    /// Every instruction is resolved and has a source line.
    pub open spec fn well_formed(self) -> bool {
        &&& self.lines.len() == self.code.len()
        &&& forall|i: int| 0 <= i < self.code.len() ==> self.resolved(#[trigger] self.code[i])
    }
}

/// A constant may be a primitive, a string among the objects or a prototype among
/// them.  Closures and aggregates exist only while a program runs.
pub open spec fn constant_ok(objects: Seq<ObjectView>, value: Value) -> bool {
    match value {
        Value::Str(handle) => handle < objects.len() && objects[handle as int] is StringData,
        Value::Function(handle) => handle < objects.len() && objects[handle as int] is FunctionProto,
        Value::Closure(_) => false,
        Value::Struct(_) => false,
        _ => true,
    }
}

/// The chunk is well formed and its pool refers only to the objects.
pub open spec fn chunk_ok(objects: Seq<ObjectView>, chunk: ChunkView) -> bool {
    &&& chunk.well_formed()
    &&& forall|k: int|
        0 <= k < chunk.constants.len() ==> constant_ok(objects, #[trigger] chunk.constants[k])
}

/// An object of an image is string data, or a prototype whose chunk is in order.
pub open spec fn object_ok(objects: Seq<ObjectView>, object: ObjectView) -> bool {
    match object {
        ObjectView::StringData(_) => true,
        ObjectView::FunctionProto(proto) => chunk_ok(objects, proto.chunk),
        ObjectView::ClosureData { .. } => false,
        ObjectView::StructInstance { .. } => false,
    }
}

/// Every object is in order.
pub open spec fn objects_ok(objects: Seq<ObjectView>) -> bool {
    forall|h: int| 0 <= h < objects.len() ==> object_ok(objects, #[trigger] objects[h])
}

/// No string occurs twice among the objects, and no pool of a prototype holds a
/// value twice.
pub open spec fn objects_distinct(objects: Seq<ObjectView>) -> bool {
    &&& forall|h: int|
        0 <= h < objects.len() ==> ((#[trigger] objects[h]) matches ObjectView::FunctionProto(
            proto,
        ) ==> proto.chunk.pool_distinct())
    &&& forall|g: int, h: int|
        0 <= g < h < objects.len() && (#[trigger] objects[g]) is StringData
            ==> objects[g] != #[trigger] objects[h]
}

impl ImageView {
    /// Every literal and every prototype has one entry where it is used, and one
    /// object: nothing is stored twice.
    pub open spec fn deduplicated(self) -> bool {
        &&& self.chunk.pool_distinct()
        &&& objects_distinct(self.objects)
    }

    /// The image is fully resolved: what the machine asks of it before it runs.
    pub open spec fn well_formed(self) -> bool {
        &&& chunk_ok(self.objects, self.chunk)
        &&& objects_ok(self.objects)
    }

    /// Whether the handle names a prototype of the image.
    pub open spec fn is_function(self, handle: usize) -> bool {
        handle < self.objects.len() && self.objects[handle as int] is FunctionProto
    }

    /// The chunk that a frame runs: the top-level chunk, or that of a prototype.
    pub open spec fn chunk_of(self, function: Option<usize>) -> ChunkView {
        match function {
            Some(handle) => match self.objects[handle as int] {
                ObjectView::FunctionProto(proto) => proto.chunk,
                _ => self.chunk,
            },
            None => self.chunk,
        }
    }
}

impl Chunk {
    /// A chunk without instructions and without constants.
    pub fn new() -> (chunk: Chunk)
        ensures
            chunk@.code == Seq::<Instruction>::empty(),
            chunk@.constants == Seq::<Value>::empty(),
            chunk@.lines == Seq::<u32>::empty(),
            chunk@.well_formed(),
    {
        Chunk { code: Vec::new(), constants: Vec::new(), lines: Vec::new() }
    }

    /// Decides whether one instruction is resolved.
    pub fn is_resolved(&self, instruction: Instruction) -> (ok: bool)
        ensures
            ok == self@.resolved(instruction),
    {
        match instruction {
            Instruction::Jump(target) => target <= self.code.len(),
            Instruction::JumpIfFalse(target) => target <= self.code.len(),
            Instruction::Constant(index) => index < self.constants.len(),
            Instruction::Closure(index) => {
                if index < self.constants.len() {
                    match self.constants[index] {
                        Value::Function(_) => true,
                        _ => false,
                    }
                } else {
                    false
                }
            },
            _ => true,
        }
    }

    /// Decides whether the chunk is well formed.
    pub fn validate(&self) -> (ok: bool)
        ensures
            ok == self@.well_formed(),
    {
        if self.lines.len() != self.code.len() {
            return false;
        }
        let mut i: usize = 0;
        while i < self.code.len()
            invariant
                i <= self.code.len(),
                self.lines.len() == self.code.len(),
                forall|j: int| 0 <= j < i ==> self@.resolved(#[trigger] self@.code[j]),
            decreases self.code.len() - i,
        {
            if !self.is_resolved(self.code[i]) {
                assert(!self@.resolved(self@.code[i as int]));
                return false;
            }
            i = i + 1;
        }
        true
    }
}

impl Image {
    /// Decides whether a constant is in order.
    pub fn check_constant(&self, value: Value) -> (ok: bool)
        ensures
            ok == constant_ok(self@.objects, value),
    {
        match value {
            Value::Str(handle) => {
                if handle < self.objects.len() {
                    match &self.objects[handle] {
                        HeapObject::StringData(_) => true,
                        _ => false,
                    }
                } else {
                    false
                }
            },
            Value::Function(handle) => {
                if handle < self.objects.len() {
                    match &self.objects[handle] {
                        HeapObject::FunctionProto(_) => true,
                        _ => false,
                    }
                } else {
                    false
                }
            },
            Value::Closure(_) => false,
            Value::Struct(_) => false,
            _ => true,
        }
    }

    /// Decides whether a chunk is in order with respect to this image.
    pub fn check_chunk(&self, chunk: &Chunk) -> (ok: bool)
        ensures
            ok == chunk_ok(self@.objects, chunk@),
    {
        if !chunk.validate() {
            return false;
        }
        let mut k: usize = 0;
        while k < chunk.constants.len()
            invariant
                k <= chunk.constants.len(),
                chunk@.well_formed(),
                forall|j: int|
                    0 <= j < k ==> constant_ok(self@.objects, #[trigger] chunk@.constants[j]),
            decreases chunk.constants.len() - k,
        {
            if !self.check_constant(chunk.constants[k]) {
                assert(!constant_ok(self@.objects, chunk@.constants[k as int]));
                return false;
            }
            k = k + 1;
        }
        true
    }

    /// Decides whether the image is well formed.
    pub fn validate(&self) -> (ok: bool)
        ensures
            ok == self@.well_formed(),
    {
        if !self.check_chunk(&self.chunk) {
            return false;
        }
        let mut h: usize = 0;
        while h < self.objects.len()
            invariant
                h <= self.objects.len(),
                chunk_ok(self@.objects, self@.chunk),
                forall|j: int|
                    0 <= j < h ==> object_ok(self@.objects, #[trigger] self@.objects[j]),
            decreases self.objects.len() - h,
        {
            let ok = match &self.objects[h] {
                HeapObject::StringData(_) => true,
                HeapObject::FunctionProto(proto) => self.check_chunk(&proto.chunk),
                HeapObject::ClosureData(_) => false,
                HeapObject::StructInstance(_) => false,
            };
            if !ok {
                assert(!object_ok(self@.objects, self@.objects[h as int]));
                return false;
            }
            h = h + 1;
        }
        true
    }
}

} // verus!
