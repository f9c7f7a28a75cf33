//! The virtual machine: an executable state that follows the abstract machine
//! cycle by cycle.

use vstd::prelude::*;
use crate::bytecode::{
    chunk_ok, constant_ok, object_ok, ArithOp, Chunk, Image, Instruction, Relation,
};
use crate::machine::{
    int_arith, open_at, relation_holds, truncated_quotient, truncated_remainder, wrap,
    CallFrame, FloatOp, FloatRequest, Limits, State, Status, Violation,
};
use crate::value::{
    heap_view, Capture, ClosureData, HeapObject, ObjectView, RuntimeFault, StructInstance, Upvalue,
    Value,
};

verus! {

/// The state of one run.
///
/// The operand stack is shared by all frames.  The objects of the image and the
/// objects that the run creates live as long as the machine does.  `heap` holds the closures and
/// aggregates that the run has created.  `open` lists the upvalues that are still
/// open, ordered by the slot they are open on, so that the death of the topmost
/// slots is noticed at the end of the list.
pub struct Vm {
    pub image: Image,
    pub limits: Limits,
    pub stack: Vec<Value>,
    pub frames: Vec<CallFrame>,
    pub heap: Vec<HeapObject>,
    pub upvalues: Vec<Upvalue>,
    pub open: Vec<usize>,
    pub status: Status,
    pub line: u32,
}

impl View for Vm {
    type V = State;

    open spec fn view(&self) -> State {
        State {
            image: self.image@,
            limits: self.limits,
            stack: self.stack@,
            frames: self.frames@,
            heap: heap_view(self.heap@),
            upvalues: self.upvalues@,
            status: self.status,
            line: self.line,
        }
    }
}

/// The slot that the `k`-th listed upvalue is open on.
pub open spec fn listed_slot(upvalues: Seq<Upvalue>, open: Seq<usize>, k: int) -> usize {
    match upvalues[open[k] as int] {
        Upvalue::Open(slot) => slot,
        Upvalue::Closed(_) => 0,
    }
}

/// The list names exactly the open upvalues, in ascending order of their slots.
pub open spec fn open_list_ok(upvalues: Seq<Upvalue>, open: Seq<usize>) -> bool {
    &&& forall|k: int|
        0 <= k < open.len() ==> (#[trigger] open[k]) < upvalues.len() && upvalues[open[k] as int] is Open
    &&& forall|k: int, l: int|
        0 <= k < l < open.len() ==> #[trigger] listed_slot(upvalues, open, k) < #[trigger] listed_slot(
            upvalues,
            open,
            l,
        )
    &&& forall|id: int|
        0 <= id < upvalues.len() && (#[trigger] upvalues[id]) is Open ==> open.contains(id as usize)
}

/// Integer arithmetic, as the abstract machine defines it.
pub fn compute_int(op: ArithOp, a: i64, b: i64) -> (result: Result<i64, RuntimeFault>)
    ensures
        result == int_arith(op, a, b),
{
    match op {
        ArithOp::Add => {
            let r: i64 = a.wrapping_add(b);
            assert(r == wrap(a + b));
            Ok(r)
        },
        ArithOp::Sub => {
            let r: i64 = a.wrapping_sub(b);
            assert(r == wrap(a - b));
            Ok(r)
        },
        ArithOp::Mul => {
            let r: i64 = a.wrapping_mul(b);
            assert(r == wrap(a * b));
            Ok(r)
        },
        ArithOp::Div => {
            if b == 0 {
                Err(RuntimeFault::DivisionByZero)
            } else {
                let r: i64 = match a.checked_div(b) {
                    Some(q) => q,
                    None => i64::MIN,
                };
                assert(r == wrap(truncated_quotient(a as int, b as int)));
                Ok(r)
            }
        },
        ArithOp::Rem => {
            if b == 0 {
                Err(RuntimeFault::DivisionByZero)
            } else {
                let r: i64 = match a.checked_rem(b) {
                    Some(r) => r,
                    None => 0,
                };
                assert(r == wrap(truncated_remainder(a as int, b as int)));
                Ok(r)
            }
        },
    }
}

/// Decides a relation between two integers.
pub fn compare_int(relation: Relation, a: i64, b: i64) -> (result: bool)
    ensures
        result == relation_holds(relation, a as int, b as int),
{
    match relation {
        Relation::Eq => a == b,
        Relation::Ne => a != b,
        Relation::Lt => a < b,
        Relation::Le => a <= b,
        Relation::Gt => a > b,
        Relation::Ge => a >= b,
    }
}

impl Vm {
    /// The state satisfies the invariant of the abstract machine, and the list of
    /// open upvalues is in order.
    pub open spec fn wf(&self) -> bool {
        &&& self@.inv()
        &&& open_list_ok(self.upvalues@, self.open@)
    }

    /// Whether a cycle can be performed.
    pub open spec fn running(&self) -> bool {
        self.wf() && self.status is Running
    }

    /// A machine that is about to run the top-level chunk of the image.
    pub fn new(image: Image, limits: Limits) -> (vm: Vm)
        requires
            image@.well_formed(),
        ensures
            vm@ == State::initial(image@, limits),
            vm.wf(),
    {
        let mut frames: Vec<CallFrame> = Vec::new();
        let status = if limits.max_frames == 0 {
            Status::Faulted(RuntimeFault::StackOverflow)
        } else {
            frames.push(CallFrame { ip: 0, base: 0, function: None, closure: None });
            Status::Running
        };
        let vm = Vm {
            image,
            limits,
            stack: Vec::new(),
            frames,
            heap: Vec::new(),
            upvalues: Vec::new(),
            open: Vec::new(),
            status,
            line: 0,
        };
        assert(vm@.frames =~= State::initial(vm.image@, limits).frames);
        assert(vm@.heap =~= State::initial(vm.image@, limits).heap);
        vm
    }

    /// Stop the run and unwind the call frames.
    fn halt(&mut self, status: Status)
        requires
            old(self).wf(),
            !(status is Running),
            !(status is Awaiting),
        ensures
            final(self)@ == old(self)@.halt(status),
            final(self).wf(),
    {
        self.frames.clear();
        self.status = status;
    }

    fn fault(&mut self, fault: RuntimeFault)
        requires
            old(self).wf(),
        ensures
            final(self)@ == old(self)@.fault(fault),
            final(self).wf(),
    {
        self.halt(Status::Faulted(fault));
    }

    fn invalid(&mut self, violation: Violation)
        requires
            old(self).wf(),
        ensures
            final(self)@ == old(self)@.invalid(violation),
            final(self).wf(),
    {
        self.halt(Status::Invalid(violation));
    }

    fn push(&mut self, value: Value)
        requires
            old(self).wf(),
        ensures
            final(self)@ == old(self)@.push(value),
            final(self).wf(),
    {
        if self.stack.len() >= self.limits.max_stack {
            self.fault(RuntimeFault::StackOverflow);
        } else {
            self.stack.push(value);
        }
    }

    /// The running frame.
    fn frame(&self) -> (frame: CallFrame)
        requires
            self.frames.len() > 0,
        ensures
            frame == self@.frame(),
    {
        self.frames[self.frames.len() - 1]
    }

    /// The chunk of the running frame.
    fn chunk(&self) -> (chunk: &Chunk)
        requires
            self.wf(),
            self.frames.len() > 0,
        ensures
            chunk@ == self@.chunk(),
            chunk_ok(self@.image.objects, chunk@),
    {
        let frame = self.frame();
        assert(self@.frame_ok(self@.frames[self.frames.len() - 1]));
        match frame.function {
            Some(handle) => {
                assert(object_ok(self@.image.objects, self@.image.objects[handle as int]));
                match &self.image.objects[handle] {
                    HeapObject::FunctionProto(proto) => &proto.chunk,
                    _ => &self.image.chunk,
                }
            },
            None => &self.image.chunk,
        }
    }

    /// The number of values that the running frame holds.
    fn depth(&self) -> (depth: usize)
        requires
            self.wf(),
            self.frames.len() > 0,
        ensures
            depth == self@.depth(),
    {
        assert(self@.frame_ok(self@.frames[self.frames.len() - 1]));
        self.stack.len() - self.frame().base
    }

    /// The value that lies `k` below the top of the stack.
    fn top(&self, k: usize) -> (value: Value)
        requires
            k < self.stack.len(),
        ensures
            value == self@.top(k as int),
    {
        self.stack[self.stack.len() - 1 - k]
    }

    /// Cut the stack down to `len` values, closing the upvalues that are open on
    /// the slots that die.
    fn shrink(&mut self, len: usize)
        requires
            old(self).wf(),
            len <= old(self).stack.len(),
            forall|i: int| 0 <= i < old(self).frames.len() ==> old(self).frames[i].base <= len,
        ensures
            final(self)@ == old(self)@.shrink(len as int),
            final(self).wf(),
    {
        let mut done: bool = false;
        while !done
            invariant
                self.image == old(self).image,
                self.limits == old(self).limits,
                self.stack == old(self).stack,
                self.frames == old(self).frames,
                self.heap == old(self).heap,
                self.status == old(self).status,
                self.line == old(self).line,
                old(self).wf(),
                len <= self.stack.len(),
                self.upvalues.len() == old(self).upvalues.len(),
                open_list_ok(self.upvalues@, self.open@),
                forall|id: int|
                    0 <= id < self.upvalues.len() ==> #[trigger] self.upvalues[id] == (match old(
                        self,
                    ).upvalues[id] {
                        Upvalue::Open(slot) => if slot >= len && !self.open@.contains(id as usize) {
                            Upvalue::Closed(self.stack[slot as int])
                        } else {
                            Upvalue::Open(slot)
                        },
                        Upvalue::Closed(value) => Upvalue::Closed(value),
                    }),
                done ==> forall|k: int|
                    0 <= k < self.open.len() ==> #[trigger] listed_slot(self.upvalues@, self.open@, k)
                        < len,
            decreases self.open.len() + (if done { 0int } else { 1int }),
        {
            if self.open.len() == 0 {
                done = true;
            } else {
                let last: usize = self.open.len() - 1;
                let id: usize = self.open[last];
                let ghost listed = self.open@;
                let ghost table = self.upvalues@;
                assert(listed.contains(id));
                match self.upvalues[id] {
                    Upvalue::Open(slot) => {
                        if slot < len {
                            assert(listed_slot(table, listed, last as int) == slot);
                            done = true;
                        } else {
                            assert(old(self)@.upvalues[id as int] == Upvalue::Open(slot));
                            let value = self.stack[slot];
                            self.upvalues.set(id, Upvalue::Closed(value));
                            self.open.pop();
                            assert(self.open@ == listed.drop_last());
                            assert forall|other: usize| #[trigger]
                                self.open@.contains(other) <==> (listed.contains(other) && other
                                    != id) by {
                                if self.open@.contains(other) {
                                    let k = choose|k: int|
                                        0 <= k < self.open@.len() && self.open@[k] == other;
                                    assert(listed[k] == other);
                                    assert(listed_slot(table, listed, k) < listed_slot(
                                        table,
                                        listed,
                                        last as int,
                                    ));
                                }
                                if listed.contains(other) && other != id {
                                    let k = choose|k: int| 0 <= k < listed.len() && listed[k] == other;
                                    assert(self.open@[k] == other);
                                }
                            }
                            assert forall|k: int| 0 <= k < self.open.len() implies (
                            #[trigger] self.open@[k]) < self.upvalues.len()
                                && self.upvalues@[self.open@[k] as int] is Open by {
                                assert(listed[k] == self.open@[k]);
                                assert(listed_slot(table, listed, k) < listed_slot(
                                    table,
                                    listed,
                                    last as int,
                                ));
                            }
                            assert forall|other: int|
                                0 <= other < self.upvalues.len() && (
                                #[trigger] self.upvalues@[other]) is Open implies self.open@.contains(
                                other as usize,
                            ) by {
                                assert(table[other] is Open);
                                assert(listed.contains(other as usize));
                            }
                            assert forall|k: int, l: int| 0 <= k < l < self.open.len() implies #[trigger]
                                listed_slot(self.upvalues@, self.open@, k) < #[trigger] listed_slot(
                                self.upvalues@,
                                self.open@,
                                l,
                            ) by {
                                assert(listed_slot(table, listed, k) < listed_slot(table, listed, l));
                                assert(listed_slot(table, listed, k) < listed_slot(
                                    table,
                                    listed,
                                    last as int,
                                ));
                                assert(listed_slot(table, listed, l) < listed_slot(
                                    table,
                                    listed,
                                    last as int,
                                ));
                            }
                        }
                    },
                    // Not reached: the list names open upvalues only.
                    Upvalue::Closed(_) => {
                        done = true;
                    },
                }
            }
        }
        proof {
            let goal = old(self)@.closed_above(len as int);
            assert forall|id: int| 0 <= id < self.upvalues.len() implies self.upvalues@[id]
                == goal[id] by {
                if let Upvalue::Open(slot) = old(self).upvalues[id] {
                    if slot >= len && self.open@.contains(id as usize) {
                        let k = choose|k: int| 0 <= k < self.open@.len() && self.open@[k] == id;
                        assert(listed_slot(self.upvalues@, self.open@, k) < len);
                    }
                }
            }
            assert(self.upvalues@ =~= goal);
        }
        self.stack.truncate(len);
        proof {
            assert(self.stack@ =~= old(self).stack@.take(len as int));
            assert forall|i: int| 0 <= i < self@.frames.len() implies self@.frame_ok(
                #[trigger] self@.frames[i],
            ) by {
                assert(old(self)@.frame_ok(old(self)@.frames[i]));
            }
        }
    }

    /// Drop the topmost `k` values of the running frame.
    fn drop(&mut self, k: usize)
        requires
            old(self).wf(),
            old(self).frames.len() > 0,
            k <= old(self)@.depth(),
        ensures
            final(self)@ == old(self)@.drop(k as int),
            final(self).wf(),
    {
        proof {
            let last = self.frames.len() - 1;
            assert(self@.frame_ok(self@.frames[last]));
            assert forall|i: int| 0 <= i < self.frames.len() implies self.frames[i].base
                <= self.stack.len() - k by {
                assert(self@.frames[i].base <= self@.frames[last].base);
            }
        }
        let len: usize = self.stack.len() - k;
        self.shrink(len);
    }

    /// Set the instruction pointer of the running frame.
    fn goto(&mut self, target: usize)
        requires
            old(self).wf(),
            old(self).frames.len() > 0,
            target <= old(self)@.chunk().code.len(),
        ensures
            final(self)@ == old(self)@.goto(target),
            final(self).wf(),
    {
        let last: usize = self.frames.len() - 1;
        let frame = self.frames[last];
        self.frames.set(last, CallFrame { ip: target, ..frame });
        proof {
            assert forall|i: int| 0 <= i < self@.frames.len() implies self@.frame_ok(
                #[trigger] self@.frames[i],
            ) by {
                assert(old(self)@.frame_ok(old(self)@.frames[i]));
            }
            assert forall|i: int, j: int| 0 <= i <= j < self@.frames.len() implies (
            #[trigger] self@.frames[i]).base <= (#[trigger] self@.frames[j]).base by {
                assert(old(self)@.frames[i].base <= old(self)@.frames[j].base);
            }
        }
    }

    fn pop(&mut self)
        requires
            old(self).running(),
        ensures
            final(self)@ == old(self)@.pop(),
            final(self).wf(),
    {
        if self.depth() < 1 {
            self.invalid(Violation::StackUnderflow);
        } else {
            self.drop(1);
        }
    }

    fn get_local(&mut self, index: usize)
        requires
            old(self).running(),
        ensures
            final(self)@ == old(self)@.get_local(index),
            final(self).wf(),
    {
        let depth = self.depth();
        if index < depth {
            let slot: usize = self.frame().base + index;
            let value = self.stack[slot];
            self.push(value);
        } else {
            self.invalid(Violation::BadOperand);
        }
    }

    fn set_local(&mut self, index: usize)
        requires
            old(self).running(),
        ensures
            final(self)@ == old(self)@.set_local(index),
            final(self).wf(),
    {
        let depth = self.depth();
        if depth < 1 {
            self.invalid(Violation::StackUnderflow);
        } else if index < depth - 1 {
            let slot: usize = self.frame().base + index;
            let value = self.top(0);
            self.drop(1);
            self.stack.set(slot, value);
            proof {
                assert forall|i: int| 0 <= i < self@.frames.len() implies self@.frame_ok(
                    #[trigger] self@.frames[i],
                ) by {
                    assert(old(self)@.frame_ok(old(self)@.frames[i]));
                }
            }
        } else {
            self.invalid(Violation::BadOperand);
        }
    }

    /// The `index`-th upvalue of the running closure, as an index into the table.
    fn upvalue_id(&self, index: usize) -> (id: Option<usize>)
        requires
            self.wf(),
            self.frames.len() > 0,
        ensures
            id == self@.upvalue_id(index),
    {
        match self.frame().closure {
            Some(c) => {
                if c < self.heap.len() {
                    match &self.heap[c] {
                        HeapObject::ClosureData(data) => {
                            if index < data.upvalues.len() && data.upvalues[index]
                                < self.upvalues.len() {
                                Some(data.upvalues[index])
                            } else {
                                None
                            }
                        },
                        _ => None,
                    }
                } else {
                    None
                }
            },
            None => None,
        }
    }

    fn get_upvalue(&mut self, index: usize)
        requires
            old(self).running(),
        ensures
            final(self)@ == old(self)@.get_upvalue(index),
            final(self).wf(),
    {
        match self.upvalue_id(index) {
            Some(id) => {
                let value = match self.upvalues[id] {
                    Upvalue::Open(slot) => self.stack[slot],
                    Upvalue::Closed(value) => value,
                };
                self.push(value);
            },
            None => {
                self.invalid(Violation::BadOperand);
            },
        }
    }

    fn set_upvalue(&mut self, index: usize)
        requires
            old(self).running(),
        ensures
            final(self)@ == old(self)@.set_upvalue(index),
            final(self).wf(),
    {
        if self.depth() < 1 {
            self.invalid(Violation::StackUnderflow);
        } else {
            match self.upvalue_id(index) {
                Some(id) => {
                    let value = self.top(0);
                    self.drop(1);
                    let ghost dropped = *self;
                    match self.upvalues[id] {
                        Upvalue::Open(slot) => {
                            self.stack.set(slot, value);
                            proof {
                                assert forall|i: int| 0 <= i < self@.frames.len() implies self@.frame_ok(
                                    #[trigger] self@.frames[i],
                                ) by {
                                    assert(dropped@.frame_ok(dropped@.frames[i]));
                                }
                            }
                        },
                        Upvalue::Closed(_) => {
                            self.upvalues.set(id, Upvalue::Closed(value));
                            proof {
                                assert forall|k: int| 0 <= k < self.open.len() implies listed_slot(
                                    self.upvalues@,
                                    self.open@,
                                    k,
                                ) == listed_slot(dropped.upvalues@, dropped.open@, k) by {
                                    assert(dropped.open@[k] != id);
                                }
                                assert forall|k: int, l: int|
                                    0 <= k < l < self.open.len() implies #[trigger] listed_slot(
                                    self.upvalues@,
                                    self.open@,
                                    k,
                                ) < #[trigger] listed_slot(self.upvalues@, self.open@, l) by {
                                    assert(listed_slot(dropped.upvalues@, dropped.open@, k)
                                        < listed_slot(dropped.upvalues@, dropped.open@, l));
                                }
                                assert forall|other: int|
                                    0 <= other < self.upvalues.len() && (
                                    #[trigger] self.upvalues@[other]) is Open implies self.open@.contains(
                                    other as usize,
                                ) by {
                                    assert(dropped.upvalues@[other] is Open);
                                }
                                assert forall|i: int, j: int|
                                    0 <= i < j < self.upvalues.len() && (
                                    #[trigger] self.upvalues@[i]) is Open implies self.upvalues@[i]
                                    != #[trigger] self.upvalues@[j] by {
                                    assert(dropped.upvalues@[i] is Open);
                                    if j != id {
                                        assert(dropped.upvalues@[i] != dropped.upvalues@[j]);
                                    }
                                }
                            }
                        },
                    }
                },
                None => {
                    self.invalid(Violation::BadOperand);
                },
            }
        }
    }

    fn int_binary(&mut self, op: ArithOp)
        requires
            old(self).running(),
        ensures
            final(self)@ == old(self)@.int_binary(op),
            final(self).wf(),
    {
        if self.depth() < 2 {
            self.invalid(Violation::StackUnderflow);
        } else {
            match (self.top(1), self.top(0)) {
                (Value::Int(a), Value::Int(b)) => match compute_int(op, a, b) {
                    Ok(v) => {
                        self.drop(2);
                        self.push(Value::Int(v));
                    },
                    Err(fault) => {
                        self.fault(fault);
                    },
                },
                _ => {
                    self.invalid(Violation::TypeMismatch);
                },
            }
        }
    }

    fn int_compare(&mut self, relation: Relation)
        requires
            old(self).running(),
        ensures
            final(self)@ == old(self)@.int_compare(relation),
            final(self).wf(),
    {
        if self.depth() < 2 {
            self.invalid(Violation::StackUnderflow);
        } else {
            match (self.top(1), self.top(0)) {
                (Value::Int(a), Value::Int(b)) => {
                    self.drop(2);
                    self.push(Value::Bool(compare_int(relation, a, b)));
                },
                _ => {
                    self.invalid(Violation::TypeMismatch);
                },
            }
        }
    }

    fn wait_for(&mut self, request: FloatRequest)
        requires
            old(self).running(),
        ensures
            final(self)@ == old(self)@.wait_for(request),
            final(self).wf(),
    {
        self.status = Status::Awaiting(request);
    }

    fn float_binary(&mut self, op: FloatOp)
        requires
            old(self).running(),
        ensures
            final(self)@ == old(self)@.float_binary(op),
            final(self).wf(),
    {
        if self.depth() < 2 {
            self.invalid(Violation::StackUnderflow);
        } else {
            match (self.top(1), self.top(0)) {
                (Value::Float(x), Value::Float(y)) => {
                    self.drop(2);
                    self.wait_for(FloatRequest { op, lhs: x, rhs: y });
                },
                _ => {
                    self.invalid(Violation::TypeMismatch);
                },
            }
        }
    }

    /// Equality as the `Equal` instruction sees it.
    fn same(&self, a: Value, b: Value) -> (result: bool)
        ensures
            result == self@.image.same(a, b),
    {
        match (a, b) {
            (Value::Str(x), Value::Str(y)) => {
                if x < self.image.objects.len() && y < self.image.objects.len() {
                    match (&self.image.objects[x], &self.image.objects[y]) {
                        (HeapObject::StringData(s), HeapObject::StringData(t)) => *s == *t,
                        _ => x == y,
                    }
                } else {
                    x == y
                }
            },
            _ => a == b,
        }
    }

    fn equal(&mut self, negate: bool)
        requires
            old(self).running(),
        ensures
            final(self)@ == old(self)@.equal(negate),
            final(self).wf(),
    {
        if self.depth() < 2 {
            self.invalid(Violation::StackUnderflow);
        } else {
            let a = self.top(1);
            let b = self.top(0);
            let float = match (a, b) {
                (Value::Float(_), _) => true,
                (_, Value::Float(_)) => true,
                _ => false,
            };
            if float {
                self.invalid(Violation::TypeMismatch);
            } else {
                let result = self.same(a, b) != negate;
                self.drop(2);
                self.push(Value::Bool(result));
            }
        }
    }

    fn negate(&mut self)
        requires
            old(self).running(),
        ensures
            final(self)@ == old(self)@.negate(),
            final(self).wf(),
    {
        if self.depth() < 1 {
            self.invalid(Violation::StackUnderflow);
        } else {
            match self.top(0) {
                Value::Int(a) => {
                    let r: i64 = 0i64.wrapping_sub(a);
                    assert(r == wrap(-a));
                    self.drop(1);
                    self.push(Value::Int(r));
                },
                _ => {
                    self.invalid(Violation::TypeMismatch);
                },
            }
        }
    }

    fn float_negate(&mut self)
        requires
            old(self).running(),
        ensures
            final(self)@ == old(self)@.float_negate(),
            final(self).wf(),
    {
        if self.depth() < 1 {
            self.invalid(Violation::StackUnderflow);
        } else {
            match self.top(0) {
                Value::Float(x) => {
                    self.drop(1);
                    self.wait_for(FloatRequest { op: FloatOp::Negate, lhs: x, rhs: 0 });
                },
                _ => {
                    self.invalid(Violation::TypeMismatch);
                },
            }
        }
    }

    fn not(&mut self)
        requires
            old(self).running(),
        ensures
            final(self)@ == old(self)@.not(),
            final(self).wf(),
    {
        if self.depth() < 1 {
            self.invalid(Violation::StackUnderflow);
        } else {
            match self.top(0) {
                Value::Bool(b) => {
                    self.drop(1);
                    self.push(Value::Bool(!b));
                },
                _ => {
                    self.invalid(Violation::TypeMismatch);
                },
            }
        }
    }

    fn jump_if_false(&mut self, target: usize)
        requires
            old(self).running(),
            target <= old(self)@.chunk().code.len(),
        ensures
            final(self)@ == old(self)@.jump_if_false(target),
            final(self).wf(),
    {
        if self.depth() < 1 {
            self.invalid(Violation::StackUnderflow);
        } else {
            match self.top(0) {
                Value::Bool(b) => {
                    self.drop(1);
                    if !b {
                        self.goto(target);
                    }
                },
                _ => {
                    self.invalid(Violation::TypeMismatch);
                },
            }
        }
    }

    /// The upvalue for a slot: the one that is already open on it, or a new one.
    fn capture_slot(&mut self, slot: usize) -> (id: usize)
        requires
            old(self).running(),
            slot < old(self).stack.len(),
        ensures
            (final(self)@, id) == old(self)@.capture_slot(slot),
            final(self).running(),
    {
        let mut k: usize = 0;
        let mut found: Option<usize> = None;
        let mut done: bool = false;
        while !done
            invariant
                *self == *old(self),
                self.running(),
                k <= self.open.len(),
                found is Some ==> done,
                forall|j: int|
                    0 <= j < k ==> #[trigger] listed_slot(self.upvalues@, self.open@, j) < slot,
                done ==> (k == self.open.len() || listed_slot(self.upvalues@, self.open@, k as int)
                    >= slot),
                done ==> found == (if k < self.open.len() && listed_slot(
                    self.upvalues@,
                    self.open@,
                    k as int,
                ) == slot {
                    Some(self.open@[k as int])
                } else {
                    None
                }),
            decreases self.open.len() - k + (if done { 0int } else { 1int }),
        {
            if k == self.open.len() {
                done = true;
            } else {
                let id: usize = self.open[k];
                match self.upvalues[id] {
                    Upvalue::Open(listed) => {
                        if listed < slot {
                            k = k + 1;
                        } else {
                            if listed == slot {
                                found = Some(id);
                            }
                            done = true;
                        }
                    },
                    // Not reached: the list names open upvalues only.
                    Upvalue::Closed(_) => {
                        done = true;
                    },
                }
            }
        }
        let ghost table = self.upvalues@;
        let ghost listed = self.open@;
        match found {
            Some(id) => {
                proof {
                    assert(table[id as int] == Upvalue::Open(slot));
                    let chosen = open_at(table, slot).unwrap();
                    assert(table[chosen] == Upvalue::Open(slot));
                    if chosen < id {
                        assert(table[chosen] != table[id as int]);
                    }
                    if id < chosen {
                        assert(table[id as int] != table[chosen]);
                    }
                }
                id
            },
            None => {
                proof {
                    assert forall|x: int| 0 <= x < table.len() implies table[x] != Upvalue::Open(
                        slot,
                    ) by {
                        if table[x] == Upvalue::Open(slot) {
                            assert(x < self.upvalues.len());
                            assert(table[x] is Open);
                            assert(listed.contains(x as usize));
                            let j = choose|j: int| 0 <= j < listed.len() && listed[j] == x as usize;
                            assert(listed_slot(table, listed, j) == slot);
                            if j > k {
                                assert(listed_slot(table, listed, k as int) < listed_slot(
                                    table,
                                    listed,
                                    j,
                                ));
                            }
                        }
                    }
                }
                let id: usize = self.upvalues.len();
                self.upvalues.push(Upvalue::Open(slot));
                self.open.insert(k, id);
                proof {
                    let grown = self.upvalues@;
                    let relisted = self.open@;
                    assert forall|x: int| 0 <= x < relisted.len() implies #[trigger] relisted[x] == (if x
                        < k {
                        listed[x]
                    } else if x == k {
                        id
                    } else {
                        listed[x - 1]
                    }) by {}
                    assert forall|x: int| 0 <= x < relisted.len() implies #[trigger] listed_slot(
                        grown,
                        relisted,
                        x,
                    ) == (if x < k {
                        listed_slot(table, listed, x)
                    } else if x == k {
                        slot
                    } else {
                        listed_slot(table, listed, x - 1)
                    }) by {
                        assert(relisted[x] == (if x < k {
                            listed[x]
                        } else if x == k {
                            id
                        } else {
                            listed[x - 1]
                        }));
                    }
                    assert forall|x: int, y: int| 0 <= x < y < relisted.len() implies #[trigger]
                        listed_slot(grown, relisted, x) < #[trigger] listed_slot(grown, relisted, y) by {
                        if y < k {
                            assert(listed_slot(table, listed, x) < listed_slot(table, listed, y));
                        } else if y == k {
                            assert(listed_slot(table, listed, x) < slot);
                        } else if x < k {
                            assert(listed_slot(table, listed, x) < listed_slot(table, listed, y - 1));
                        } else if x == k {
                            if y - 1 > k {
                                assert(listed_slot(table, listed, k as int) < listed_slot(
                                    table,
                                    listed,
                                    y - 1,
                                ));
                            }
                            assert(listed_slot(table, listed, y - 1) != slot) by {
                                assert(table[listed[y - 1] as int] != Upvalue::Open(slot));
                            }
                        } else {
                            assert(listed_slot(table, listed, x - 1) < listed_slot(
                                table,
                                listed,
                                y - 1,
                            ));
                        }
                    }
                    assert forall|x: int| 0 <= x < relisted.len() implies (#[trigger] relisted[x])
                        < grown.len() && grown[relisted[x] as int] is Open by {
                        assert(relisted[x] == (if x < k {
                            listed[x]
                        } else if x == k {
                            id
                        } else {
                            listed[x - 1]
                        }));
                    }
                    assert forall|other: int|
                        0 <= other < grown.len() && (#[trigger] grown[other]) is Open implies relisted.contains(
                        other as usize,
                    ) by {
                        if other == id {
                            assert(relisted[k as int] == id);
                        } else {
                            assert(table[other] is Open);
                            assert(listed.contains(other as usize));
                            let j = choose|j: int| 0 <= j < listed.len() && listed[j] == other;
                            if j < k {
                                assert(relisted[j] == other);
                            } else {
                                assert(relisted[j + 1] == other);
                            }
                        }
                    }
                    assert forall|i: int, j: int|
                        0 <= i < j < grown.len() && (#[trigger] grown[i]) is Open implies grown[i]
                        != #[trigger] grown[j] by {
                        if j < table.len() {
                            assert(table[i] != table[j]);
                        } else {
                            assert(table[i] != Upvalue::Open(slot));
                        }
                    }
                    assert forall|i: int| 0 <= i < self@.frames.len() implies self@.frame_ok(
                        #[trigger] self@.frames[i],
                    ) by {
                        assert(old(self)@.frame_ok(old(self)@.frames[i]));
                    }
                }
                id
            },
        }
    }

    /// Whether the running frame can supply what a capture asks for.
    fn capture_is_ok(&self, capture: Capture) -> (ok: bool)
        requires
            self.running(),
        ensures
            ok == self@.capture_ok(capture),
    {
        if capture.from_local {
            capture.index < self.depth()
        } else {
            self.upvalue_id(capture.index).is_some()
        }
    }

    fn capture_one(&mut self, capture: Capture) -> (id: usize)
        requires
            old(self).running(),
            old(self)@.capture_ok(capture),
        ensures
            (final(self)@, id) == old(self)@.capture_one(capture),
            final(self).running(),
    {
        if capture.from_local {
            let slot: usize = self.frame().base + capture.index;
            self.capture_slot(slot)
        } else {
            match self.upvalue_id(capture.index) {
                Some(id) => id,
                // Not reached: the capture is in order.
                None => 0,
            }
        }
    }

    /// The arity of a prototype.
    fn arity(&self, handle: usize) -> (arity: usize)
        requires
            self@.image.is_function(handle),
        ensures
            self@.image.objects[handle as int] matches ObjectView::FunctionProto(proto)
                && arity == proto.arity,
    {
        match &self.image.objects[handle] {
            HeapObject::FunctionProto(proto) => proto.arity,
            // Not reached: the handle names a prototype.
            _ => 0,
        }
    }

    /// The number of variables that a prototype captures.
    fn capture_count(&self, handle: usize) -> (count: usize)
        requires
            self@.image.is_function(handle),
        ensures
            self@.image.objects[handle as int] matches ObjectView::FunctionProto(proto)
                && count == proto.captures.len(),
    {
        match &self.image.objects[handle] {
            HeapObject::FunctionProto(proto) => proto.captures.len(),
            // Not reached: the handle names a prototype.
            _ => 0,
        }
    }

    /// One capture of a prototype.
    fn capture_at(&self, handle: usize, j: usize) -> (capture: Capture)
        requires
            self@.image.is_function(handle),
            self@.image.objects[handle as int] matches ObjectView::FunctionProto(proto) && j
                < proto.captures.len(),
        ensures
            self@.image.objects[handle as int] matches ObjectView::FunctionProto(proto)
                && capture == proto.captures[j as int],
    {
        match &self.image.objects[handle] {
            HeapObject::FunctionProto(proto) => proto.captures[j],
            // Not reached: the handle names a prototype.
            _ => Capture { from_local: false, index: 0 },
        }
    }

    /// Put an object on the heap and push the value that refers to it.
    fn allocate(&mut self, object: HeapObject)
        requires
            old(self).running(),
            object is ClosureData || object is StructInstance,
        ensures
            final(self)@ == old(self)@.allocate(object@),
            final(self).wf(),
    {
        let handle: usize = self.heap.len();
        let value = match &object {
            HeapObject::ClosureData(_) => Value::Closure(handle),
            _ => Value::Struct(handle),
        };
        self.heap.push(object);
        assert(heap_view(self.heap@) =~= heap_view(old(self).heap@).push(object@));
        proof {
            assert forall|i: int| 0 <= i < self@.frames.len() implies self@.frame_ok(
                #[trigger] self@.frames[i],
            ) by {
                assert(old(self)@.frame_ok(old(self)@.frames[i]));
            }
        }
        self.push(value);
    }

    fn make_closure(&mut self, handle: usize)
        requires
            old(self).running(),
            old(self)@.image.is_function(handle),
        ensures
            final(self)@ == old(self)@.make_closure(handle),
            final(self).wf(),
    {
        let count: usize = self.capture_count(handle);
        let ghost captures = match self@.image.objects[handle as int] {
            ObjectView::FunctionProto(proto) => proto.captures,
            _ => Seq::empty(),
        };
        let mut j: usize = 0;
        while j < count
            invariant
                *self == *old(self),
                self.running(),
                self@.image.is_function(handle),
                self@.image.objects[handle as int] matches ObjectView::FunctionProto(proto)
                    && captures == proto.captures,
                count == captures.len(),
                j <= count,
                forall|i: int| 0 <= i < j ==> self@.capture_ok(#[trigger] captures[i]),
            decreases count - j,
        {
            let capture = self.capture_at(handle, j);
            if !self.capture_is_ok(capture) {
                self.invalid(Violation::BadOperand);
                return ;
            }
            j = j + 1;
        }
        let mut ids: Vec<usize> = Vec::new();
        j = 0;
        while j < count
            invariant
                self.running(),
                self@.image == old(self)@.image,
                self@.frames == old(self)@.frames,
                self@.stack == old(self)@.stack,
                self@.heap == old(self)@.heap,
                self@.upvalues.len() >= old(self)@.upvalues.len(),
                self@.image.is_function(handle),
                self@.image.objects[handle as int] matches ObjectView::FunctionProto(proto)
                    && captures == proto.captures,
                count == captures.len(),
                j <= count,
                forall|i: int| 0 <= i < count ==> old(self)@.capture_ok(#[trigger] captures[i]),
                (self@, ids@) == old(self)@.capture_all(captures, j as nat),
            decreases count - j,
        {
            let capture = self.capture_at(handle, j);
            let ghost before = self@;
            let ghost listed = ids@;
            assert(old(self)@.capture_ok(captures[j as int]));
            assert(self@.capture_ok(capture));
            let id = self.capture_one(capture);
            ids.push(id);
            assert(old(self)@.capture_all(captures, (j + 1) as nat) == (self@, ids@)) by {
                assert(old(self)@.capture_all(captures, j as nat) == (before, listed));
            }
            j = j + 1;
        }
        self.allocate(HeapObject::ClosureData(ClosureData { function: handle, upvalues: ids }));
    }

    /// Enter a prototype with `argc` arguments on the stack.
    fn enter(&mut self, handle: usize, closure: Option<usize>, argc: usize)
        requires
            old(self).running(),
            old(self)@.image.is_function(handle),
            argc + 1 <= old(self)@.depth(),
        ensures
            final(self)@ == old(self)@.enter(handle, closure, argc),
            final(self).wf(),
    {
        let arity = self.arity(handle);
        if arity != argc {
            self.fault(RuntimeFault::ArityMismatch(arity, argc));
        } else if self.frames.len() >= self.limits.max_frames {
            self.fault(RuntimeFault::StackOverflow);
        } else {
            let base: usize = self.stack.len() - 1 - argc;
            let frame = CallFrame { ip: 0, base, function: Some(handle), closure };
            self.frames.push(frame);
            proof {
                let last = old(self).frames.len() - 1;
                assert(old(self)@.frame_ok(old(self)@.frames[last]));
                assert forall|i: int| 0 <= i < self@.frames.len() implies self@.frame_ok(
                    #[trigger] self@.frames[i],
                ) by {
                    if i <= last {
                        assert(old(self)@.frame_ok(old(self)@.frames[i]));
                    }
                }
                assert forall|i: int, j: int| 0 <= i <= j < self@.frames.len() implies (
                #[trigger] self@.frames[i]).base <= (#[trigger] self@.frames[j]).base by {
                    if j <= last {
                        assert(old(self)@.frames[i].base <= old(self)@.frames[j].base);
                    } else if i <= last {
                        assert(old(self)@.frames[i].base <= old(self)@.frames[last].base);
                    }
                }
            }
        }
    }

    fn call(&mut self, argc: usize)
        requires
            old(self).running(),
        ensures
            final(self)@ == old(self)@.call(argc),
            final(self).wf(),
    {
        if self.depth() <= argc {
            self.invalid(Violation::StackUnderflow);
        } else {
            match self.top(argc) {
                Value::Function(handle) => {
                    if self.is_function(handle) {
                        self.enter(handle, None, argc);
                    } else {
                        self.invalid(Violation::BadOperand);
                    }
                },
                Value::Closure(c) => {
                    if c < self.heap.len() {
                        let function = match &self.heap[c] {
                            HeapObject::ClosureData(data) => Some(data.function),
                            _ => None,
                        };
                        match function {
                            Some(handle) => {
                                if self.is_function(handle) {
                                    self.enter(handle, Some(c), argc);
                                } else {
                                    self.invalid(Violation::BadOperand);
                                }
                            },
                            None => {
                                self.invalid(Violation::BadOperand);
                            },
                        }
                    } else {
                        self.invalid(Violation::BadOperand);
                    }
                },
                Value::Unit => {
                    self.fault(RuntimeFault::NullDeref);
                },
                _ => {
                    self.invalid(Violation::TypeMismatch);
                },
            }
        }
    }

    /// Whether the handle names a prototype of the image.
    fn is_function(&self, handle: usize) -> (result: bool)
        ensures
            result == self@.image.is_function(handle),
    {
        if handle < self.image.objects.len() {
            match &self.image.objects[handle] {
                HeapObject::FunctionProto(_) => true,
                _ => false,
            }
        } else {
            false
        }
    }

    /// Leave the running frame with a result.
    fn finish(&mut self, result: Value)
        requires
            old(self).running(),
        ensures
            final(self)@ == old(self)@.finish(result),
            final(self).wf(),
    {
        let frame = self.frame();
        proof {
            let last = self.frames.len() - 1;
            assert(self@.frame_ok(self@.frames[last]));
            assert forall|i: int| 0 <= i < self.frames.len() implies self.frames[i].base
                <= frame.base by {
                assert(self@.frames[i].base <= self@.frames[last].base);
            }
        }
        self.shrink(frame.base);
        let ghost cut = *self;
        self.frames.pop();
        proof {
            assert forall|i: int| 0 <= i < self@.frames.len() implies self@.frame_ok(
                #[trigger] self@.frames[i],
            ) by {
                assert(cut@.frame_ok(cut@.frames[i]));
            }
            assert forall|i: int, j: int| 0 <= i <= j < self@.frames.len() implies (
            #[trigger] self@.frames[i]).base <= (#[trigger] self@.frames[j]).base by {
                assert(cut@.frames[i].base <= cut@.frames[j].base);
            }
        }
        if self.frames.len() == 0 {
            self.status = Status::Done(result);
            assert(self@.frames =~= Seq::<CallFrame>::empty());
        } else {
            self.push(result);
        }
    }

    fn ret(&mut self)
        requires
            old(self).running(),
        ensures
            final(self)@ == old(self)@.ret(),
            final(self).wf(),
    {
        if self.depth() < 1 {
            self.invalid(Violation::StackUnderflow);
        } else {
            let result = self.top(0);
            self.finish(result);
        }
    }

    /// The instruction stream of the running frame is exhausted.
    fn exhausted(&mut self)
        requires
            old(self).running(),
        ensures
            final(self)@ == old(self)@.exhausted(),
            final(self).wf(),
    {
        if self.depth() < 1 {
            self.finish(Value::Unit);
        } else {
            let result = self.top(0);
            self.finish(result);
        }
    }

    fn new_struct(&mut self, count: usize)
        requires
            old(self).running(),
        ensures
            final(self)@ == old(self)@.new_struct(count),
            final(self).wf(),
    {
        if self.depth() < count {
            self.invalid(Violation::StackUnderflow);
        } else {
            let start: usize = self.stack.len() - count;
            let mut fields: Vec<Value> = Vec::new();
            let mut i: usize = 0;
            while i < count
                invariant
                    *self == *old(self),
                    start + count == self.stack.len(),
                    i <= count,
                    fields@ == self.stack@.subrange(start as int, start + i),
                decreases count - i,
            {
                fields.push(self.stack[start + i]);
                assert(fields@ =~= self.stack@.subrange(start as int, start + i + 1));
                i = i + 1;
            }
            assert(fields@ =~= self.stack@.skip(self.stack.len() - count));
            self.drop(count);
            self.allocate(HeapObject::StructInstance(StructInstance { fields }));
        }
    }

    fn index(&mut self)
        requires
            old(self).running(),
        ensures
            final(self)@ == old(self)@.index(),
            final(self).wf(),
    {
        if self.depth() < 2 {
            self.invalid(Violation::StackUnderflow);
        } else {
            match (self.top(1), self.top(0)) {
                (Value::Struct(handle), Value::Int(i)) => {
                    if handle < self.heap.len() {
                        let field: Option<Result<Value, usize>> = match &self.heap[handle] {
                            HeapObject::StructInstance(data) => {
                                if 0 <= i && (i as u64) < (data.fields.len() as u64) {
                                    Some(Ok(data.fields[i as usize]))
                                } else {
                                    Some(Err(data.fields.len()))
                                }
                            },
                            _ => None,
                        };
                        match field {
                            Some(Ok(value)) => {
                                self.drop(2);
                                self.push(value);
                            },
                            Some(Err(len)) => {
                                self.fault(RuntimeFault::IndexOutOfBounds(i, len));
                            },
                            None => {
                                self.invalid(Violation::BadOperand);
                            },
                        }
                    } else {
                        self.invalid(Violation::BadOperand);
                    }
                },
                (Value::Unit, Value::Int(_)) => {
                    self.fault(RuntimeFault::NullDeref);
                },
                _ => {
                    self.invalid(Violation::TypeMismatch);
                },
            }
        }
    }

    /// Perform one instruction, the instruction pointer having moved past it.
    fn execute(&mut self, instruction: Instruction)
        requires
            old(self).running(),
            old(self)@.chunk().resolved(instruction),
        ensures
            final(self)@ == old(self)@.execute(instruction),
            final(self).wf(),
    {
        match instruction {
            Instruction::Constant(index) => {
                let value = self.chunk().constants[index];
                self.push(value);
            },
            Instruction::Unit => self.push(Value::Unit),
            Instruction::True => self.push(Value::Bool(true)),
            Instruction::False => self.push(Value::Bool(false)),
            Instruction::Pop => self.pop(),
            Instruction::GetLocal(index) => self.get_local(index),
            Instruction::SetLocal(index) => self.set_local(index),
            Instruction::GetUpvalue(index) => self.get_upvalue(index),
            Instruction::SetUpvalue(index) => self.set_upvalue(index),
            Instruction::IntArith(op) => self.int_binary(op),
            Instruction::IntCompare(relation) => self.int_compare(relation),
            Instruction::FloatArith(op) => self.float_binary(FloatOp::Arith(op)),
            Instruction::FloatCompare(relation) => self.float_binary(FloatOp::Compare(relation)),
            Instruction::Equal => self.equal(false),
            Instruction::NotEqual => self.equal(true),
            Instruction::Negate => self.negate(),
            Instruction::FloatNegate => self.float_negate(),
            Instruction::Not => self.not(),
            Instruction::Jump(target) => self.goto(target),
            Instruction::JumpIfFalse(target) => self.jump_if_false(target),
            Instruction::Closure(index) => {
                let value = self.chunk().constants[index];
                match value {
                    Value::Function(handle) => {
                        assert(constant_ok(self@.image.objects, self@.chunk().constants[index as int]));
                        self.make_closure(handle);
                    },
                    _ => {
                        self.invalid(Violation::BadOperand);
                    },
                }
            },
            Instruction::Call(argc) => self.call(argc),
            Instruction::Return => self.ret(),
            Instruction::NewStruct(count) => self.new_struct(count),
            Instruction::Index => self.index(),
        }
    }

    /// One cycle of the machine.  A machine that is not running stays as it is.
    pub fn step(&mut self) -> (status: Status)
        requires
            old(self).wf(),
        ensures
            final(self)@ == old(self)@.step(),
            final(self).wf(),
            status == final(self).status,
    {
        match self.status {
            Status::Running => {},
            _ => {
                return self.status;
            },
        }
        let frame = self.frame();
        let chunk = self.chunk();
        if frame.ip >= chunk.code.len() {
            self.exhausted();
            return self.status;
        }
        let instruction = chunk.code[frame.ip];
        let line = chunk.lines[frame.ip];
        assert(chunk@.resolved(chunk@.code[frame.ip as int]));
        self.line = line;
        self.goto(frame.ip + 1);
        self.execute(instruction);
        self.status
    }

    /// At most `fuel` cycles: the machine stops early when it is no longer running.
    pub fn run(&mut self, fuel: u64) -> (status: Status)
        requires
            old(self).wf(),
        ensures
            final(self)@ == old(self)@.run(fuel as nat),
            final(self).wf(),
            status == final(self).status,
    {
        let mut left: u64 = fuel;
        let mut status = self.status;
        while left > 0 && status == Status::Running
            invariant
                self.wf(),
                status == self.status,
                self@.run(left as nat) == old(self)@.run(fuel as nat),
            decreases left,
        {
            status = self.step();
            left = left - 1;
        }
        status
    }

    /// Hand in the result of the floating-point operation that the machine waits
    /// for.  A machine that waits for nothing stays as it is.
    pub fn resume(&mut self, value: Value) -> (status: Status)
        requires
            old(self).wf(),
        ensures
            final(self)@ == old(self)@.resume(value),
            final(self).wf(),
            status == final(self).status,
    {
        match self.status {
            Status::Awaiting(request) => {
                let fits = match (request.op, value) {
                    (FloatOp::Compare(_), Value::Bool(_)) => true,
                    (FloatOp::Compare(_), _) => false,
                    (_, Value::Float(_)) => true,
                    _ => false,
                };
                if fits {
                    self.status = Status::Running;
                    self.push(value);
                } else {
                    self.invalid(Violation::TypeMismatch);
                }
            },
            _ => {},
        }
        self.status
    }

    /// A machine for an image that may not be well formed: `None` where it is not.
    pub fn load(image: Image, limits: Limits) -> (loaded: Option<Vm>)
        ensures
            image@.well_formed() <==> loaded is Some,
            loaded matches Some(vm) ==> vm@ == State::initial(image@, limits) && vm.wf(),
    {
        if image.validate() {
            Some(Vm::new(image, limits))
        } else {
            None
        }
    }

    /// The fields of the aggregate that a value refers to; `None` where the value
    /// is not an aggregate of this machine.
    pub fn fields(&self, value: Value) -> (fields: Option<&Vec<Value>>)
        ensures
            match fields {
                Some(found) => value matches Value::Struct(handle) && handle < self@.heap.len()
                    && self@.heap[handle as int] == (ObjectView::StructInstance {
                    fields: found@,
                }),
                None => !(value matches Value::Struct(handle) && handle < self@.heap.len()
                    && self@.heap[handle as int] is StructInstance),
            },
    {
        match value {
            Value::Struct(handle) => {
                if handle < self.heap.len() {
                    match &self.heap[handle] {
                        HeapObject::StructInstance(data) => Some(&data.fields),
                        _ => None,
                    }
                } else {
                    None
                }
            },
            _ => None,
        }
    }

    /// The string that a value refers to; `None` where the value is not a string
    /// of the image.
    pub fn text(&self, value: Value) -> (text: Option<&String>)
        ensures
            match text {
                Some(found) => value matches Value::Str(handle) && self@.image.is_string(handle)
                    && self@.image.string_at(handle) == found@,
                None => !(value matches Value::Str(handle) && self@.image.is_string(handle)),
            },
    {
        match value {
            Value::Str(handle) => {
                if handle < self.image.objects.len() {
                    match &self.image.objects[handle] {
                        HeapObject::StringData(data) => Some(data),
                        _ => None,
                    }
                } else {
                    None
                }
            },
            _ => None,
        }
    }
}

/// Run the top-level chunk of an image for at most `fuel` cycles, and say where
/// the run stands then.
///
/// `Done` carries the result of the program and `Faulted` the fault that ended
/// it.  `Running` says that the fuel ran out, `Awaiting` that the program needs
/// a floating-point operation from its host, and `Invalid` that the image broke
/// what the compiler guarantees: a host that wants to go on from those keeps a
/// `Vm` of its own.
pub fn execute(image: Image, limits: Limits, fuel: u64) -> (status: Status)
    requires
        image@.well_formed(),
    ensures
        status == State::initial(image@, limits).run(fuel as nat).status,
{
    let mut vm = Vm::new(image, limits);
    vm.run(fuel)
}

} // verus!
