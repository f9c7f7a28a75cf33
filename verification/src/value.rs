//! Runtime values, heap objects and the faults a program can raise.

use vstd::prelude::*;
use crate::bytecode::{Chunk, ChunkView};

verus! {

/// A runtime value: a closed tagged union.
///
/// The primitive variants hold their payload directly.  A float is held as its
/// IEEE-754 bit pattern.  The reference variants hold a handle: `Str` and
/// `Function` index the objects of the image, `Closure` and `Struct` index the
/// heap of the machine that created them.
#[derive(Clone, Copy, PartialEq, Eq, Structural, Debug)]
pub enum Value {
    Unit,
    Bool(bool),
    Int(i64),
    Float(u64),
    Str(usize),
    Function(usize),
    Closure(usize),
    Struct(usize),
}

/// A condition that can only be detected while a program runs.
#[derive(Clone, Copy, PartialEq, Eq, Structural, Debug)]
pub enum RuntimeFault {
    DivisionByZero,
    /// The index that was asked for, and the length of the aggregate.
    IndexOutOfBounds(i64, usize),
    /// The arity of the callee, and the number of arguments that were passed.
    ArityMismatch(usize, usize),
    StackOverflow,
    NullDeref,
}

/// A variable captured by a closure.
///
/// While the declaring frame is live the variable stays in its stack slot and the
/// upvalue is `Open` on that slot.  When the slot dies the value is copied out and
/// the upvalue is `Closed` over it.
#[derive(Clone, Copy, PartialEq, Eq, Structural, Debug)]
pub enum Upvalue {
    Open(usize),
    Closed(Value),
}

/// Where a closure finds one of its captured variables at the moment it is created.
#[derive(Clone, Copy, PartialEq, Eq, Structural, Debug)]
pub struct Capture {
    /// `true`: a local slot of the frame that creates the closure.
    /// `false`: an upvalue of the closure that runs in that frame.
    pub from_local: bool,
    pub index: usize,
}

/// The compiled form of one function.
#[derive(Clone, PartialEq, Eq, Debug)]
pub struct FunctionProto {
    pub name: String,
    pub arity: usize,
    pub captures: Vec<Capture>,
    pub chunk: Chunk,
}

/// A function prototype together with the upvalues it was closed over.
#[derive(Clone, PartialEq, Eq, Debug)]
pub struct ClosureData {
    /// Handle of the prototype among the objects of the image.
    pub function: usize,
    /// Indices into the upvalue table of the machine, one for each capture.
    pub upvalues: Vec<usize>,
}

/// An aggregate of values, addressed by position.
#[derive(Clone, PartialEq, Eq, Debug)]
pub struct StructInstance {
    pub fields: Vec<Value>,
}

/// An object that values refer to by handle.
#[derive(Clone, PartialEq, Eq, Debug)]
pub enum HeapObject {
    StringData(String),
    FunctionProto(FunctionProto),
    ClosureData(ClosureData),
    StructInstance(StructInstance),
}

/// The mathematical content of a function prototype.
pub struct ProtoView {
    pub name: Seq<char>,
    pub arity: usize,
    pub captures: Seq<Capture>,
    pub chunk: ChunkView,
}

impl View for FunctionProto {
    type V = ProtoView;

    open spec fn view(&self) -> ProtoView {
        ProtoView {
            name: self.name@,
            arity: self.arity,
            captures: self.captures@,
            chunk: self.chunk@,
        }
    }
}

/// The mathematical content of a heap object.
pub enum ObjectView {
    StringData(Seq<char>),
    FunctionProto(ProtoView),
    ClosureData { function: usize, upvalues: Seq<usize> },
    StructInstance { fields: Seq<Value> },
}

impl View for HeapObject {
    type V = ObjectView;

    open spec fn view(&self) -> ObjectView {
        match self {
            HeapObject::StringData(s) => ObjectView::StringData(s@),
            HeapObject::FunctionProto(p) => ObjectView::FunctionProto(p@),
            HeapObject::ClosureData(c) => ObjectView::ClosureData {
                function: c.function,
                upvalues: c.upvalues@,
            },
            HeapObject::StructInstance(s) => ObjectView::StructInstance { fields: s.fields@ },
        }
    }
}

/// The contents of a heap, object by object.
pub open spec fn heap_view(heap: Seq<HeapObject>) -> Seq<ObjectView> {
    Seq::new(heap.len(), |i: int| heap[i]@)
}

} // verus!
