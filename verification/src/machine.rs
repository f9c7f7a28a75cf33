//! The abstract machine: what one instruction does to the state of a run.
//!
//! Everything here is mathematics.  The executable machine in `vm` is proved to
//! follow it step by step.

use vstd::prelude::*;
use crate::bytecode::{ArithOp, ChunkView, ImageView, Instruction, Relation};
use crate::value::{Capture, ObjectView, RuntimeFault, Upvalue, Value};

verus! {

/// The bounds of a run.
#[derive(Clone, Copy, Debug)]
pub struct Limits {
    /// The greatest number of call frames: the recursion limit.
    pub max_frames: usize,
    /// The greatest number of values on the operand stack.
    pub max_stack: usize,
}

/// The record of one active invocation.
#[derive(Clone, Copy, Debug)]
pub struct CallFrame {
    /// The next instruction of this frame.  In a frame that waits for a callee
    /// this is the instruction to return to.
    pub ip: usize,
    /// The stack slot at which the locals of the frame start.
    pub base: usize,
    /// The prototype whose chunk the frame runs; `None` for the top-level chunk.
    pub function: Option<usize>,
    /// The closure that was called, if the callee was one.
    pub closure: Option<usize>,
}

/// A way in which a chunk can break what the compiler guarantees.
#[derive(Clone, Copy, PartialEq, Eq, Structural, Debug)]
pub enum Violation {
    /// An instruction needed more operands than its frame holds.
    StackUnderflow,
    /// An operand names a slot, an upvalue or an object that does not exist.
    BadOperand,
    /// An operand has a variant that the instruction does not take.
    TypeMismatch,
}

/// A floating-point operation.
#[derive(Clone, Copy, PartialEq, Eq, Structural, Debug)]
pub enum FloatOp {
    Arith(ArithOp),
    Compare(Relation),
    Negate,
}

/// A floating-point operation that the machine hands to its host, with the bit
/// patterns of the operands.  `Negate` has one operand, `lhs`.
#[derive(Clone, Copy, PartialEq, Eq, Structural, Debug)]
pub struct FloatRequest {
    pub op: FloatOp,
    pub lhs: u64,
    pub rhs: u64,
}

/// Where a run stands.
#[derive(Clone, Copy, PartialEq, Eq, Structural, Debug)]
pub enum Status {
    Running,
    /// The host owes the result of a floating-point operation.
    Awaiting(FloatRequest),
    /// The outermost frame returned this value.
    Done(Value),
    Faulted(RuntimeFault),
    Invalid(Violation),
}

/// The state of a run.
pub struct State {
    pub image: ImageView,
    pub limits: Limits,
    pub stack: Seq<Value>,
    pub frames: Seq<CallFrame>,
    pub heap: Seq<ObjectView>,
    pub upvalues: Seq<Upvalue>,
    pub status: Status,
    /// The source line of the instruction that was fetched last.
    pub line: u32,
}

/// The absolute value.
pub open spec fn magnitude(x: int) -> int {
    if x < 0 {
        -x
    } else {
        x
    }
}

/// The quotient rounded towards zero.
pub open spec fn truncated_quotient(a: int, b: int) -> int {
    let q = magnitude(a) / magnitude(b);
    if (a < 0) != (b < 0) {
        -q
    } else {
        q
    }
}

/// The remainder that goes with the truncated quotient: it has the sign of `a`.
pub open spec fn truncated_remainder(a: int, b: int) -> int {
    let r = magnitude(a) % magnitude(b);
    if a < 0 {
        -r
    } else {
        r
    }
}

/// The 64-bit two's complement value that is congruent to `x`.
pub open spec fn wrap(x: int) -> i64 {
    let m = x % 0x1_0000_0000_0000_0000;
    if m > i64::MAX {
        (m - 0x1_0000_0000_0000_0000) as i64
    } else {
        m as i64
    }
}

/// Integer arithmetic wraps; dividing by zero is a fault.
pub open spec fn int_arith(op: ArithOp, a: i64, b: i64) -> Result<i64, RuntimeFault> {
    match op {
        ArithOp::Add => Ok(wrap(a + b)),
        ArithOp::Sub => Ok(wrap(a - b)),
        ArithOp::Mul => Ok(wrap(a * b)),
        ArithOp::Div => if b == 0 {
            Err(RuntimeFault::DivisionByZero)
        } else {
            Ok(wrap(truncated_quotient(a as int, b as int)))
        },
        ArithOp::Rem => if b == 0 {
            Err(RuntimeFault::DivisionByZero)
        } else {
            Ok(wrap(truncated_remainder(a as int, b as int)))
        },
    }
}

/// Whether a relation holds between two integers.
pub open spec fn relation_holds(relation: Relation, a: int, b: int) -> bool {
    match relation {
        Relation::Eq => a == b,
        Relation::Ne => a != b,
        Relation::Lt => a < b,
        Relation::Le => a <= b,
        Relation::Gt => a > b,
        Relation::Ge => a >= b,
    }
}

/// Whether a value can be the result of a floating-point operation.
pub open spec fn answers(op: FloatOp, value: Value) -> bool {
    match op {
        FloatOp::Compare(_) => value is Bool,
        _ => value is Float,
    }
}

/// The upvalue that is open on a slot, if there is one.
pub open spec fn open_at(upvalues: Seq<Upvalue>, slot: usize) -> Option<int> {
    if exists|id: int| 0 <= id < upvalues.len() && upvalues[id] == Upvalue::Open(slot) {
        Some(choose|id: int| 0 <= id < upvalues.len() && upvalues[id] == Upvalue::Open(slot))
    } else {
        None
    }
}

impl ImageView {
    /// The contents of a string of the image.
    pub open spec fn string_at(self, handle: usize) -> Seq<char> {
        match self.objects[handle as int] {
            ObjectView::StringData(s) => s,
            _ => Seq::empty(),
        }
    }

    /// Whether the handle names a string of the image.
    pub open spec fn is_string(self, handle: usize) -> bool {
        handle < self.objects.len() && self.objects[handle as int] is StringData
    }

    /// Equality as the `Equal` instruction sees it: strings by their contents,
    /// everything else by variant and payload.
    pub open spec fn same(self, a: Value, b: Value) -> bool {
        match (a, b) {
            (Value::Str(x), Value::Str(y)) => if self.is_string(x) && self.is_string(y) {
                self.string_at(x) == self.string_at(y)
            } else {
                x == y
            },
            _ => a == b,
        }
    }
}

impl State {
    /// The state in which a run starts.
    pub open spec fn initial(image: ImageView, limits: Limits) -> State {
        State {
            image,
            limits,
            stack: Seq::empty(),
            frames: if limits.max_frames == 0 {
                Seq::empty()
            } else {
                seq![CallFrame { ip: 0, base: 0, function: None, closure: None }]
            },
            heap: Seq::empty(),
            upvalues: Seq::empty(),
            status: if limits.max_frames == 0 {
                Status::Faulted(RuntimeFault::StackOverflow)
            } else {
                Status::Running
            },
            line: 0,
        }
    }

    /// A frame runs a chunk of the image, its instruction pointer lies within that
    /// chunk or one past its end, and its base lies within the stack.
    pub open spec fn frame_ok(self, frame: CallFrame) -> bool {
        &&& frame.function matches Some(handle) ==> self.image.is_function(handle)
        &&& frame.ip <= self.image.chunk_of(frame.function).code.len()
        &&& frame.base <= self.stack.len()
    }

    /// What holds of every state that a run reaches.
    pub open spec fn inv(self) -> bool {
        &&& self.image.well_formed()
        &&& self.stack.len() <= self.limits.max_stack
        &&& self.frames.len() <= self.limits.max_frames
        &&& (self.status is Running || self.status is Awaiting) <==> self.frames.len() > 0
        &&& forall|i: int| 0 <= i < self.frames.len() ==> self.frame_ok(#[trigger] self.frames[i])
        &&& forall|i: int, j: int|
            0 <= i <= j < self.frames.len() ==> (#[trigger] self.frames[i]).base <= (
            #[trigger] self.frames[j]).base
        &&& forall|id: int|
            0 <= id < self.upvalues.len() ==> ((#[trigger] self.upvalues[id]) matches Upvalue::Open(
                slot,
            ) ==> slot < self.stack.len())
        &&& forall|i: int, j: int|
            0 <= i < j < self.upvalues.len() && (#[trigger] self.upvalues[i]) is Open
                ==> self.upvalues[i] != #[trigger] self.upvalues[j]
    }

    /// Stop the run: the call frames are unwound at once.
    pub open spec fn halt(self, status: Status) -> State {
        State { frames: Seq::empty(), status, ..self }
    }

    /// End the run with a fault.
    pub open spec fn fault(self, fault: RuntimeFault) -> State {
        self.halt(Status::Faulted(fault))
    }

    /// End the run because the image broke what the compiler guarantees.
    pub open spec fn invalid(self, violation: Violation) -> State {
        self.halt(Status::Invalid(violation))
    }

    /// The running frame.
    pub open spec fn frame(self) -> CallFrame {
        self.frames.last()
    }

    /// The chunk of the running frame.
    pub open spec fn chunk(self) -> ChunkView {
        self.image.chunk_of(self.frame().function)
    }

    /// The number of values that the running frame holds.
    pub open spec fn depth(self) -> int {
        self.stack.len() - self.frame().base
    }

    /// The value that lies `k` below the top of the stack.
    pub open spec fn top(self, k: int) -> Value {
        self.stack[self.stack.len() - 1 - k]
    }

    /// Push a value.  A push onto a full stack is a stack overflow.
    pub open spec fn push(self, value: Value) -> State {
        if self.stack.len() >= self.limits.max_stack {
            self.fault(RuntimeFault::StackOverflow)
        } else {
            State { stack: self.stack.push(value), ..self }
        }
    }

    /// The upvalue table once the slots from `len` on have died: each upvalue that
    /// was open on one of them is closed over the value that the slot held.
    pub open spec fn closed_above(self, len: int) -> Seq<Upvalue> {
        Seq::new(
            self.upvalues.len(),
            |id: int|
                match self.upvalues[id] {
                    Upvalue::Open(slot) => if slot >= len {
                        Upvalue::Closed(self.stack[slot as int])
                    } else {
                        Upvalue::Open(slot)
                    },
                    Upvalue::Closed(value) => Upvalue::Closed(value),
                },
        )
    }

    /// Cut the stack down to `len` values.
    pub open spec fn shrink(self, len: int) -> State {
        State { stack: self.stack.take(len), upvalues: self.closed_above(len), ..self }
    }

    /// Drop the topmost `k` values.
    pub open spec fn drop(self, k: int) -> State {
        self.shrink(self.stack.len() - k)
    }

    /// Set the instruction pointer of the running frame.
    pub open spec fn goto(self, target: usize) -> State {
        State {
            frames: self.frames.update(
                self.frames.len() - 1,
                CallFrame { ip: target, ..self.frame() },
            ),
            ..self
        }
    }

    /// Suspend the run until the host has done a floating-point operation.
    pub open spec fn wait_for(self, request: FloatRequest) -> State {
        State { status: Status::Awaiting(request), ..self }
    }

    /// What an upvalue holds at this moment.
    pub open spec fn read_upvalue(self, id: int) -> Value {
        match self.upvalues[id] {
            Upvalue::Open(slot) => self.stack[slot as int],
            Upvalue::Closed(value) => value,
        }
    }

    /// Write through an upvalue: to its slot while it is open, to its own copy of
    /// the value once it is closed.
    pub open spec fn write_upvalue(self, id: int, value: Value) -> State {
        match self.upvalues[id] {
            Upvalue::Open(slot) => State { stack: self.stack.update(slot as int, value), ..self },
            Upvalue::Closed(_) => State {
                upvalues: self.upvalues.update(id, Upvalue::Closed(value)),
                ..self
            },
        }
    }

    /// The upvalues of the closure that runs in this frame.
    pub open spec fn frame_upvalues(self) -> Option<Seq<usize>> {
        match self.frame().closure {
            Some(c) => if c < self.heap.len() {
                match self.heap[c as int] {
                    ObjectView::ClosureData { function, upvalues } => Some(upvalues),
                    _ => None,
                }
            } else {
                None
            },
            None => None,
        }
    }

    /// The `i`-th upvalue of the running closure, as an index into the table.
    pub open spec fn upvalue_id(self, i: usize) -> Option<usize> {
        match self.frame_upvalues() {
            Some(ids) => if i < ids.len() && ids[i as int] < self.upvalues.len() {
                Some(ids[i as int])
            } else {
                None
            },
            None => None,
        }
    }

    /// Whether the running frame can supply what a capture asks for.
    pub open spec fn capture_ok(self, capture: Capture) -> bool {
        if capture.from_local {
            self.frame().base + capture.index < self.stack.len()
        } else {
            self.upvalue_id(capture.index) is Some
        }
    }

    /// The upvalue for a slot: the one that is already open on it, or a new one.
    pub open spec fn capture_slot(self, slot: usize) -> (State, usize) {
        match open_at(self.upvalues, slot) {
            Some(id) => (self, id as usize),
            None => (
                State { upvalues: self.upvalues.push(Upvalue::Open(slot)), ..self },
                self.upvalues.len() as usize,
            ),
        }
    }

    /// The upvalue that a capture asks for: one that is open on a slot of the
    /// running frame, or one of the upvalues of the running closure.
    pub open spec fn capture_one(self, capture: Capture) -> (State, usize) {
        if capture.from_local {
            self.capture_slot((self.frame().base + capture.index) as usize)
        } else {
            (self, self.upvalue_id(capture.index).unwrap())
        }
    }

    /// Resolve the first `n` captures, in order.
    pub open spec fn capture_all(self, captures: Seq<Capture>, n: nat) -> (State, Seq<usize>)
        decreases n,
    {
        if n == 0 {
            (self, Seq::empty())
        } else {
            let (before, ids) = self.capture_all(captures, (n - 1) as nat);
            let (after, id) = before.capture_one(captures[n - 1]);
            (after, ids.push(id))
        }
    }

    /// Put an object on the heap and push the value that refers to it.
    pub open spec fn allocate(self, object: ObjectView) -> State {
        let handle = self.heap.len() as usize;
        let grown = State { heap: self.heap.push(object), ..self };
        match object {
            ObjectView::ClosureData { .. } => grown.push(Value::Closure(handle)),
            _ => grown.push(Value::Struct(handle)),
        }
    }

    /// Create a closure of a prototype: its captures are resolved in the running
    /// frame, so that every execution creates a closure of its own.
    pub open spec fn make_closure(self, handle: usize) -> State {
        match self.image.objects[handle as int] {
            ObjectView::FunctionProto(proto) => {
                let captures = proto.captures;
                if forall|j: int| 0 <= j < captures.len() ==> self.capture_ok(#[trigger] captures[j]) {
                    let (captured, ids) = self.capture_all(captures, captures.len());
                    captured.allocate(ObjectView::ClosureData { function: handle, upvalues: ids })
                } else {
                    self.invalid(Violation::BadOperand)
                }
            },
            _ => self.invalid(Violation::BadOperand),
        }
    }

    /// Enter a prototype with `argc` arguments on the stack.
    pub open spec fn enter(self, handle: usize, closure: Option<usize>, argc: usize) -> State {
        match self.image.objects[handle as int] {
            ObjectView::FunctionProto(proto) => if proto.arity != argc {
                self.fault(RuntimeFault::ArityMismatch(proto.arity, argc))
            } else if self.frames.len() >= self.limits.max_frames {
                self.fault(RuntimeFault::StackOverflow)
            } else {
                State {
                    frames: self.frames.push(
                        CallFrame {
                            ip: 0,
                            base: (self.stack.len() - 1 - argc) as usize,
                            function: Some(handle),
                            closure,
                        },
                    ),
                    ..self
                }
            },
            _ => self.invalid(Violation::BadOperand),
        }
    }

    /// Call the value that lies below `argc` arguments: a function of the image or
    /// a closure.  A call of unit is a null dereference.
    pub open spec fn call(self, argc: usize) -> State {
        if self.depth() < argc + 1 {
            self.invalid(Violation::StackUnderflow)
        } else {
            match self.top(argc as int) {
                Value::Function(handle) => if self.image.is_function(handle) {
                    self.enter(handle, None, argc)
                } else {
                    self.invalid(Violation::BadOperand)
                },
                Value::Closure(c) => if c < self.heap.len() {
                    match self.heap[c as int] {
                        ObjectView::ClosureData { function, upvalues } => if self.image.is_function(
                            function,
                        ) {
                            self.enter(function, Some(c), argc)
                        } else {
                            self.invalid(Violation::BadOperand)
                        },
                        _ => self.invalid(Violation::BadOperand),
                    }
                } else {
                    self.invalid(Violation::BadOperand)
                },
                Value::Unit => self.fault(RuntimeFault::NullDeref),
                _ => self.invalid(Violation::TypeMismatch),
            }
        }
    }

    /// Leave the running frame with a result.  The result takes the place of the
    /// callee in the frame below; from the outermost frame it is the result of the run.
    pub open spec fn finish(self, result: Value) -> State {
        let cut = self.shrink(self.frame().base as int);
        if self.frames.len() == 1 {
            State { frames: Seq::empty(), status: Status::Done(result), ..cut }
        } else {
            State { frames: self.frames.drop_last(), ..cut }.push(result)
        }
    }

    /// Return the value on top of the stack.
    pub open spec fn ret(self) -> State {
        if self.depth() < 1 {
            self.invalid(Violation::StackUnderflow)
        } else {
            self.finish(self.top(0))
        }
    }

    /// The instruction stream of the running frame is exhausted.
    pub open spec fn exhausted(self) -> State {
        if self.depth() < 1 {
            self.finish(Value::Unit)
        } else {
            self.finish(self.top(0))
        }
    }

    /// Push the value of a slot of the running frame.
    pub open spec fn get_local(self, index: usize) -> State {
        let slot = self.frame().base + index;
        if slot < self.stack.len() {
            self.push(self.stack[slot])
        } else {
            self.invalid(Violation::BadOperand)
        }
    }

    /// Pop a value into a slot of the running frame.
    pub open spec fn set_local(self, index: usize) -> State {
        let slot = self.frame().base + index;
        if self.depth() < 1 {
            self.invalid(Violation::StackUnderflow)
        } else if slot < self.stack.len() - 1 {
            let popped = self.drop(1);
            State { stack: popped.stack.update(slot, self.top(0)), ..popped }
        } else {
            self.invalid(Violation::BadOperand)
        }
    }

    /// Push what an upvalue of the running closure holds.
    pub open spec fn get_upvalue(self, index: usize) -> State {
        match self.upvalue_id(index) {
            Some(id) => self.push(self.read_upvalue(id as int)),
            None => self.invalid(Violation::BadOperand),
        }
    }

    /// Pop a value into an upvalue of the running closure.
    pub open spec fn set_upvalue(self, index: usize) -> State {
        if self.depth() < 1 {
            self.invalid(Violation::StackUnderflow)
        } else {
            match self.upvalue_id(index) {
                Some(id) => self.drop(1).write_upvalue(id as int, self.top(0)),
                None => self.invalid(Violation::BadOperand),
            }
        }
    }

    /// Drop the value on top of the stack.
    pub open spec fn pop(self) -> State {
        if self.depth() < 1 {
            self.invalid(Violation::StackUnderflow)
        } else {
            self.drop(1)
        }
    }

    /// Integer arithmetic on the two topmost values.
    pub open spec fn int_binary(self, op: ArithOp) -> State {
        if self.depth() < 2 {
            self.invalid(Violation::StackUnderflow)
        } else {
            match (self.top(1), self.top(0)) {
                (Value::Int(a), Value::Int(b)) => match int_arith(op, a, b) {
                    Ok(v) => self.drop(2).push(Value::Int(v)),
                    Err(fault) => self.fault(fault),
                },
                _ => self.invalid(Violation::TypeMismatch),
            }
        }
    }

    /// An integer comparison of the two topmost values.
    pub open spec fn int_compare(self, relation: Relation) -> State {
        if self.depth() < 2 {
            self.invalid(Violation::StackUnderflow)
        } else {
            match (self.top(1), self.top(0)) {
                (Value::Int(a), Value::Int(b)) => self.drop(2).push(
                    Value::Bool(relation_holds(relation, a as int, b as int)),
                ),
                _ => self.invalid(Violation::TypeMismatch),
            }
        }
    }

    /// A floating-point operation on the two topmost values: the operands are
    /// taken from the stack and the operation is handed to the host.
    pub open spec fn float_binary(self, op: FloatOp) -> State {
        if self.depth() < 2 {
            self.invalid(Violation::StackUnderflow)
        } else {
            match (self.top(1), self.top(0)) {
                (Value::Float(x), Value::Float(y)) => self.drop(2).wait_for(
                    FloatRequest { op, lhs: x, rhs: y },
                ),
                _ => self.invalid(Violation::TypeMismatch),
            }
        }
    }

    /// Equality, or with `negate` inequality, of the two topmost values.  Floats
    /// are not compared here: their equality is a floating-point operation.
    pub open spec fn equal(self, negate: bool) -> State {
        if self.depth() < 2 {
            self.invalid(Violation::StackUnderflow)
        } else if self.top(1) is Float || self.top(0) is Float {
            self.invalid(Violation::TypeMismatch)
        } else {
            self.drop(2).push(Value::Bool(self.image.same(self.top(1), self.top(0)) != negate))
        }
    }

    /// Integer negation, which wraps.
    pub open spec fn negate(self) -> State {
        if self.depth() < 1 {
            self.invalid(Violation::StackUnderflow)
        } else {
            match self.top(0) {
                Value::Int(a) => self.drop(1).push(Value::Int(wrap(-a))),
                _ => self.invalid(Violation::TypeMismatch),
            }
        }
    }

    /// Floating-point negation, handed to the host.
    pub open spec fn float_negate(self) -> State {
        if self.depth() < 1 {
            self.invalid(Violation::StackUnderflow)
        } else {
            match self.top(0) {
                Value::Float(x) => self.drop(1).wait_for(
                    FloatRequest { op: FloatOp::Negate, lhs: x, rhs: 0 },
                ),
                _ => self.invalid(Violation::TypeMismatch),
            }
        }
    }

    /// Boolean negation.
    pub open spec fn not(self) -> State {
        if self.depth() < 1 {
            self.invalid(Violation::StackUnderflow)
        } else {
            match self.top(0) {
                Value::Bool(b) => self.drop(1).push(Value::Bool(!b)),
                _ => self.invalid(Violation::TypeMismatch),
            }
        }
    }

    /// Pop a boolean and jump if it is `false`.
    pub open spec fn jump_if_false(self, target: usize) -> State {
        if self.depth() < 1 {
            self.invalid(Violation::StackUnderflow)
        } else {
            match self.top(0) {
                Value::Bool(b) => if b {
                    self.drop(1)
                } else {
                    self.drop(1).goto(target)
                },
                _ => self.invalid(Violation::TypeMismatch),
            }
        }
    }

    /// Build an aggregate from the `count` topmost values, the lowest first.
    pub open spec fn new_struct(self, count: usize) -> State {
        if self.depth() < count {
            self.invalid(Violation::StackUnderflow)
        } else {
            let fields = self.stack.skip(self.stack.len() - count);
            self.drop(count as int).allocate(ObjectView::StructInstance { fields })
        }
    }

    /// Push the field of an aggregate at an index.  An index outside of the
    /// aggregate is a fault, and so is indexing unit, a null dereference.
    pub open spec fn index(self) -> State {
        if self.depth() < 2 {
            self.invalid(Violation::StackUnderflow)
        } else {
            match (self.top(1), self.top(0)) {
                (Value::Struct(handle), Value::Int(i)) => if handle < self.heap.len() {
                    match self.heap[handle as int] {
                        ObjectView::StructInstance { fields } => if 0 <= i < fields.len() {
                            self.drop(2).push(fields[i as int])
                        } else {
                            self.fault(RuntimeFault::IndexOutOfBounds(i, fields.len() as usize))
                        },
                        _ => self.invalid(Violation::BadOperand),
                    }
                } else {
                    self.invalid(Violation::BadOperand)
                },
                (Value::Unit, Value::Int(_)) => self.fault(RuntimeFault::NullDeref),
                _ => self.invalid(Violation::TypeMismatch),
            }
        }
    }

    /// The effect of one instruction, the instruction pointer having moved past it.
    pub open spec fn execute(self, instruction: Instruction) -> State {
        match instruction {
            Instruction::Constant(index) => self.push(self.chunk().constants[index as int]),
            Instruction::Unit => self.push(Value::Unit),
            Instruction::True => self.push(Value::Bool(true)),
            Instruction::False => self.push(Value::Bool(false)),
            Instruction::Pop => self.pop(),
            Instruction::GetLocal(index) => self.get_local(index),
            Instruction::SetLocal(index) => self.set_local(index),
            Instruction::GetUpvalue(index) => self.get_upvalue(index),
            Instruction::SetUpvalue(index) => self.set_upvalue(index),
            Instruction::IntArith(op) => self.int_binary(op),
            Instruction::IntCompare(relation) => self.int_compare(relation),
            Instruction::FloatArith(op) => self.float_binary(FloatOp::Arith(op)),
            Instruction::FloatCompare(relation) => self.float_binary(FloatOp::Compare(relation)),
            Instruction::Equal => self.equal(false),
            Instruction::NotEqual => self.equal(true),
            Instruction::Negate => self.negate(),
            Instruction::FloatNegate => self.float_negate(),
            Instruction::Not => self.not(),
            Instruction::Jump(target) => self.goto(target),
            Instruction::JumpIfFalse(target) => self.jump_if_false(target),
            Instruction::Closure(index) => match self.chunk().constants[index as int] {
                Value::Function(handle) => self.make_closure(handle),
                _ => self.invalid(Violation::BadOperand),
            },
            Instruction::Call(argc) => self.call(argc),
            Instruction::Return => self.ret(),
            Instruction::NewStruct(count) => self.new_struct(count),
            Instruction::Index => self.index(),
        }
    }

    /// One cycle: fetch the instruction at the instruction pointer, move the
    /// pointer past it, and perform it.  A state that is not running stays as it is.
    pub open spec fn step(self) -> State {
        if !(self.status is Running) {
            self
        } else if self.frame().ip >= self.chunk().code.len() {
            self.exhausted()
        } else {
            let ip = self.frame().ip;
            State { line: self.chunk().lines[ip as int], ..self }.goto((ip + 1) as usize).execute(
                self.chunk().code[ip as int],
            )
        }
    }

    /// At most `fuel` cycles.
    pub open spec fn run(self, fuel: nat) -> State
        decreases fuel,
    {
        if fuel == 0 || !(self.status is Running) {
            self
        } else {
            self.step().run((fuel - 1) as nat)
        }
    }

    /// The host hands in the result of the floating-point operation that the run
    /// waits for.
    pub open spec fn resume(self, value: Value) -> State {
        match self.status {
            Status::Awaiting(request) => if answers(request.op, value) {
                State { status: Status::Running, ..self }.push(value)
            } else {
                self.invalid(Violation::TypeMismatch)
            },
            _ => self,
        }
    }
}

} // verus!
