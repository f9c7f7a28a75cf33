//! The invariant of the abstract machine holds of every state that a run
//! reaches: the limits are kept, every frame lies within the stack and within
//! its chunk, and no upvalue is open on a slot that is gone.

use vstd::prelude::*;
use crate::bytecode::{chunk_ok, object_ok, ImageView, Instruction};
use crate::machine::{open_at, Limits, State, Status};
use crate::value::{Capture, ObjectView, Upvalue, Value};

verus! {

/// Two states that differ at most in their stack and their upvalues, the second
/// no lower than the first, have the same frames in order.
proof fn lemma_frames_stay_ok(before: State, after: State)
    requires
        before.inv(),
        after.image == before.image,
        after.frames == before.frames,
        forall|i: int| 0 <= i < before.frames.len() ==> before.frames[i].base <= after.stack.len(),
    ensures
        forall|i: int| 0 <= i < after.frames.len() ==> after.frame_ok(#[trigger] after.frames[i]),
{
    assert forall|i: int| 0 <= i < after.frames.len() implies after.frame_ok(
        #[trigger] after.frames[i],
    ) by {
        assert(before.frame_ok(before.frames[i]));
    }
}

proof fn lemma_halt_keeps_invariant(state: State, status: Status)
    requires
        state.inv(),
        !(status is Running),
        !(status is Awaiting),
    ensures
        state.halt(status).inv(),
{
}

proof fn lemma_push_keeps_invariant(state: State, value: Value)
    requires
        state.inv(),
    ensures
        state.push(value).inv(),
{
    if state.stack.len() < state.limits.max_stack {
        let after = state.push(value);
        assert forall|i: int| 0 <= i < state.frames.len() implies state.frames[i].base
            <= after.stack.len() by {
            assert(state.frame_ok(state.frames[i]));
        }
        lemma_frames_stay_ok(state, after);
    }
}

proof fn lemma_shrink_keeps_invariant(state: State, len: int)
    requires
        state.inv(),
        0 <= len <= state.stack.len(),
        forall|i: int| 0 <= i < state.frames.len() ==> state.frames[i].base <= len,
    ensures
        state.shrink(len).inv(),
{
    let after = state.shrink(len);
    lemma_frames_stay_ok(state, after);
    assert forall|i: int, j: int|
        0 <= i < j < after.upvalues.len() && (#[trigger] after.upvalues[i]) is Open implies after.upvalues[i]
        != #[trigger] after.upvalues[j] by {
        assert(state.upvalues[i] is Open);
        assert(state.upvalues[i] != state.upvalues[j]);
    }
}

proof fn lemma_drop_keeps_invariant(state: State, k: int)
    requires
        state.inv(),
        state.frames.len() > 0,
        0 <= k <= state.depth(),
    ensures
        state.drop(k).inv(),
        state.drop(k).frames == state.frames,
        state.drop(k).status == state.status,
        state.drop(k).stack.len() == state.stack.len() - k,
{
    let last = state.frames.len() - 1;
    assert(state.frame_ok(state.frames[last]));
    assert forall|i: int| 0 <= i < state.frames.len() implies state.frames[i].base
        <= state.stack.len() - k by {
        assert(state.frames[i].base <= state.frames[last].base);
    }
    lemma_shrink_keeps_invariant(state, state.stack.len() - k);
}

proof fn lemma_goto_keeps_invariant(state: State, target: usize)
    requires
        state.inv(),
        state.frames.len() > 0,
        target <= state.chunk().code.len(),
    ensures
        state.goto(target).inv(),
{
    let after = state.goto(target);
    assert forall|i: int| 0 <= i < after.frames.len() implies after.frame_ok(
        #[trigger] after.frames[i],
    ) by {
        assert(state.frame_ok(state.frames[i]));
    }
    assert forall|i: int, j: int| 0 <= i <= j < after.frames.len() implies (
    #[trigger] after.frames[i]).base <= (#[trigger] after.frames[j]).base by {
        assert(state.frames[i].base <= state.frames[j].base);
    }
}

proof fn lemma_update_keeps_invariant(state: State, slot: int, value: Value)
    requires
        state.inv(),
        0 <= slot < state.stack.len(),
    ensures
        (State { stack: state.stack.update(slot, value), ..state }).inv(),
{
    let after = State { stack: state.stack.update(slot, value), ..state };
    assert forall|i: int| 0 <= i < state.frames.len() implies state.frames[i].base
        <= after.stack.len() by {
        assert(state.frame_ok(state.frames[i]));
    }
    lemma_frames_stay_ok(state, after);
}

proof fn lemma_write_keeps_invariant(state: State, id: int, value: Value)
    requires
        state.inv(),
        0 <= id < state.upvalues.len(),
    ensures
        state.write_upvalue(id, value).inv(),
{
    match state.upvalues[id] {
        Upvalue::Open(slot) => {
            lemma_update_keeps_invariant(state, slot as int, value);
        },
        Upvalue::Closed(_) => {
            let after = state.write_upvalue(id, value);
            lemma_frames_stay_ok(state, after);
            assert forall|i: int, j: int|
                0 <= i < j < after.upvalues.len() && (
                #[trigger] after.upvalues[i]) is Open implies after.upvalues[i]
                != #[trigger] after.upvalues[j] by {
                assert(state.upvalues[i] is Open);
                if j != id {
                    assert(state.upvalues[i] != state.upvalues[j]);
                }
            }
        },
    }
}

/// What a capture leaves as it is.
pub open spec fn captured(before: State, after: State) -> bool {
    &&& after.inv()
    &&& after.image == before.image
    &&& after.limits == before.limits
    &&& after.stack == before.stack
    &&& after.frames == before.frames
    &&& after.heap == before.heap
    &&& after.status == before.status
    &&& after.line == before.line
    &&& after.upvalues.len() >= before.upvalues.len()
}

proof fn lemma_capture_slot_keeps_invariant(state: State, slot: usize)
    requires
        state.inv(),
        slot < state.stack.len(),
    ensures
        captured(state, state.capture_slot(slot).0),
        state.capture_slot(slot).1 < state.capture_slot(slot).0.upvalues.len(),
{
    let after = state.capture_slot(slot).0;
    if open_at(state.upvalues, slot) is None {
        lemma_frames_stay_ok(state, after);
        assert forall|i: int, j: int|
            0 <= i < j < after.upvalues.len() && (#[trigger] after.upvalues[i]) is Open implies after.upvalues[i]
            != #[trigger] after.upvalues[j] by {
            if j < state.upvalues.len() {
                assert(state.upvalues[i] != state.upvalues[j]);
            } else {
                assert(state.upvalues[i] != Upvalue::Open(slot));
            }
        }
    }
}

proof fn lemma_capture_all_keeps_invariant(state: State, captures: Seq<Capture>, n: nat)
    requires
        state.inv(),
        state.frames.len() > 0,
        n <= captures.len(),
        forall|j: int| 0 <= j < captures.len() ==> state.capture_ok(#[trigger] captures[j]),
    ensures
        captured(state, state.capture_all(captures, n).0),
    decreases n,
{
    if n > 0 {
        lemma_capture_all_keeps_invariant(state, captures, (n - 1) as nat);
        let (before, ids) = state.capture_all(captures, (n - 1) as nat);
        let capture = captures[n - 1];
        assert(state.capture_ok(capture));
        if capture.from_local {
            lemma_capture_slot_keeps_invariant(
                before,
                (before.frame().base + capture.index) as usize,
            );
        }
    }
}

proof fn lemma_allocate_keeps_invariant(state: State, object: ObjectView)
    requires
        state.inv(),
    ensures
        state.allocate(object).inv(),
{
    let grown = State { heap: state.heap.push(object), ..state };
    lemma_frames_stay_ok(state, grown);
    assert(grown.inv());
    match object {
        ObjectView::ClosureData { .. } => {
            lemma_push_keeps_invariant(grown, Value::Closure(state.heap.len() as usize));
        },
        _ => {
            lemma_push_keeps_invariant(grown, Value::Struct(state.heap.len() as usize));
        },
    }
}

proof fn lemma_make_closure_keeps_invariant(state: State, handle: usize)
    requires
        state.inv(),
        state.frames.len() > 0,
    ensures
        state.make_closure(handle).inv(),
{
    match state.image.objects[handle as int] {
        ObjectView::FunctionProto(proto) => {
            let captures = proto.captures;
            if forall|j: int| 0 <= j < captures.len() ==> state.capture_ok(#[trigger] captures[j]) {
                lemma_capture_all_keeps_invariant(state, captures, captures.len());
                let (after, ids) = state.capture_all(captures, captures.len());
                lemma_allocate_keeps_invariant(
                    after,
                    ObjectView::ClosureData { function: handle, upvalues: ids },
                );
            }
        },
        _ => {},
    }
}

proof fn lemma_enter_keeps_invariant(
    state: State,
    handle: usize,
    closure: Option<usize>,
    argc: usize,
)
    requires
        state.inv(),
        state.frames.len() > 0,
        state.image.is_function(handle),
        state.depth() >= argc + 1,
    ensures
        state.enter(handle, closure, argc).inv(),
{
    let after = state.enter(handle, closure, argc);
    let last = state.frames.len() - 1;
    assert(state.frame_ok(state.frames[last]));
    if after.frames.len() > state.frames.len() {
        assert forall|i: int| 0 <= i < after.frames.len() implies after.frame_ok(
            #[trigger] after.frames[i],
        ) by {
            if i <= last {
                assert(state.frame_ok(state.frames[i]));
            }
        }
        assert forall|i: int, j: int| 0 <= i <= j < after.frames.len() implies (
        #[trigger] after.frames[i]).base <= (#[trigger] after.frames[j]).base by {
            if j <= last {
                assert(state.frames[i].base <= state.frames[j].base);
            } else if i <= last {
                assert(state.frames[i].base <= state.frames[last].base);
            }
        }
    }
}

proof fn lemma_call_keeps_invariant(state: State, argc: usize)
    requires
        state.inv(),
        state.frames.len() > 0,
    ensures
        state.call(argc).inv(),
{
    if state.depth() >= argc + 1 {
        match state.top(argc as int) {
            Value::Function(handle) => {
                if state.image.is_function(handle) {
                    lemma_enter_keeps_invariant(state, handle, None, argc);
                }
            },
            Value::Closure(c) => {
                if c < state.heap.len() {
                    match state.heap[c as int] {
                        ObjectView::ClosureData { function, upvalues } => {
                            if state.image.is_function(function) {
                                lemma_enter_keeps_invariant(state, function, Some(c), argc);
                            }
                        },
                        _ => {},
                    }
                }
            },
            _ => {},
        }
    }
}

proof fn lemma_finish_keeps_invariant(state: State, result: Value)
    requires
        state.inv(),
        state.frames.len() > 0,
        state.status is Running,
    ensures
        state.finish(result).inv(),
{
    let last = state.frames.len() - 1;
    assert(state.frame_ok(state.frames[last]));
    assert forall|i: int| 0 <= i < state.frames.len() implies state.frames[i].base
        <= state.frame().base by {
        assert(state.frames[i].base <= state.frames[last].base);
    }
    let cut = state.shrink(state.frame().base as int);
    lemma_shrink_keeps_invariant(state, state.frame().base as int);
    if state.frames.len() > 1 {
        let left = State { frames: state.frames.drop_last(), ..cut };
        assert forall|i: int| 0 <= i < left.frames.len() implies left.frame_ok(
            #[trigger] left.frames[i],
        ) by {
            assert(cut.frame_ok(cut.frames[i]));
        }
        assert forall|i: int, j: int| 0 <= i <= j < left.frames.len() implies (
        #[trigger] left.frames[i]).base <= (#[trigger] left.frames[j]).base by {
            assert(cut.frames[i].base <= cut.frames[j].base);
        }
        assert(left.inv());
        lemma_push_keeps_invariant(left, result);
    }
}

/// One instruction keeps the invariant.
proof fn lemma_execute_keeps_invariant(state: State, instruction: Instruction)
    requires
        state.inv(),
        state.status is Running,
        state.chunk().resolved(instruction),
    ensures
        state.execute(instruction).inv(),
{
    let depth = state.depth();
    let last = state.frames.len() - 1;
    assert(state.frame_ok(state.frames[last]));
    match instruction {
        Instruction::Constant(index) => {
            lemma_push_keeps_invariant(state, state.chunk().constants[index as int]);
        },
        Instruction::Unit => {
            lemma_push_keeps_invariant(state, Value::Unit);
        },
        Instruction::True => {
            lemma_push_keeps_invariant(state, Value::Bool(true));
        },
        Instruction::False => {
            lemma_push_keeps_invariant(state, Value::Bool(false));
        },
        Instruction::Pop => {
            if depth >= 1 {
                lemma_drop_keeps_invariant(state, 1);
            }
        },
        Instruction::GetLocal(index) => {
            if state.frame().base + index < state.stack.len() {
                lemma_push_keeps_invariant(state, state.stack[state.frame().base + index]);
            }
        },
        Instruction::SetLocal(index) => {
            if depth >= 1 && state.frame().base + index < state.stack.len() - 1 {
                lemma_drop_keeps_invariant(state, 1);
                lemma_update_keeps_invariant(
                    state.drop(1),
                    state.frame().base + index,
                    state.top(0),
                );
            }
        },
        Instruction::GetUpvalue(index) => {
            if let Some(id) = state.upvalue_id(index) {
                lemma_push_keeps_invariant(state, state.read_upvalue(id as int));
            }
        },
        Instruction::SetUpvalue(index) => {
            if depth >= 1 {
                if let Some(id) = state.upvalue_id(index) {
                    lemma_drop_keeps_invariant(state, 1);
                    lemma_write_keeps_invariant(state.drop(1), id as int, state.top(0));
                }
            }
        },
        Instruction::IntArith(op) => {
            if depth >= 2 {
                lemma_drop_keeps_invariant(state, 2);
                if let (Value::Int(a), Value::Int(b)) = (state.top(1), state.top(0)) {
                    if let Ok(v) = crate::machine::int_arith(op, a, b) {
                        lemma_push_keeps_invariant(state.drop(2), Value::Int(v));
                    }
                }
            }
        },
        Instruction::IntCompare(relation) => {
            if depth >= 2 {
                lemma_drop_keeps_invariant(state, 2);
                if let (Value::Int(a), Value::Int(b)) = (state.top(1), state.top(0)) {
                    lemma_push_keeps_invariant(
                        state.drop(2),
                        Value::Bool(crate::machine::relation_holds(relation, a as int, b as int)),
                    );
                }
            }
        },
        Instruction::FloatArith(op) => {
            if depth >= 2 {
                lemma_drop_keeps_invariant(state, 2);
            }
        },
        Instruction::FloatCompare(relation) => {
            if depth >= 2 {
                lemma_drop_keeps_invariant(state, 2);
            }
        },
        Instruction::Equal => {
            if depth >= 2 {
                lemma_drop_keeps_invariant(state, 2);
                lemma_push_keeps_invariant(
                    state.drop(2),
                    Value::Bool(state.image.same(state.top(1), state.top(0)) != false),
                );
            }
        },
        Instruction::NotEqual => {
            if depth >= 2 {
                lemma_drop_keeps_invariant(state, 2);
                lemma_push_keeps_invariant(
                    state.drop(2),
                    Value::Bool(state.image.same(state.top(1), state.top(0)) != true),
                );
            }
        },
        Instruction::Negate => {
            if depth >= 1 {
                lemma_drop_keeps_invariant(state, 1);
                if let Value::Int(a) = state.top(0) {
                    lemma_push_keeps_invariant(state.drop(1), Value::Int(crate::machine::wrap(-a)));
                }
            }
        },
        Instruction::FloatNegate => {
            if depth >= 1 {
                lemma_drop_keeps_invariant(state, 1);
            }
        },
        Instruction::Not => {
            if depth >= 1 {
                lemma_drop_keeps_invariant(state, 1);
                if let Value::Bool(b) = state.top(0) {
                    lemma_push_keeps_invariant(state.drop(1), Value::Bool(!b));
                }
            }
        },
        Instruction::Jump(target) => {
            lemma_goto_keeps_invariant(state, target);
        },
        Instruction::JumpIfFalse(target) => {
            if depth >= 1 {
                lemma_drop_keeps_invariant(state, 1);
                assert(state.drop(1).chunk() == state.chunk());
                lemma_goto_keeps_invariant(state.drop(1), target);
            }
        },
        Instruction::Closure(index) => {
            if let Value::Function(handle) = state.chunk().constants[index as int] {
                lemma_make_closure_keeps_invariant(state, handle);
            }
        },
        Instruction::Call(argc) => {
            lemma_call_keeps_invariant(state, argc);
        },
        Instruction::Return => {
            if depth >= 1 {
                lemma_finish_keeps_invariant(state, state.top(0));
            }
        },
        Instruction::NewStruct(count) => {
            if depth >= count {
                lemma_drop_keeps_invariant(state, count as int);
                lemma_allocate_keeps_invariant(
                    state.drop(count as int),
                    ObjectView::StructInstance {
                        fields: state.stack.skip(state.stack.len() - count),
                    },
                );
            }
        },
        Instruction::Index => {
            if depth >= 2 {
                lemma_drop_keeps_invariant(state, 2);
                if let (Value::Struct(handle), Value::Int(i)) = (state.top(1), state.top(0)) {
                    if handle < state.heap.len() {
                        if let ObjectView::StructInstance { fields } = state.heap[handle as int] {
                            if 0 <= i < fields.len() {
                                lemma_push_keeps_invariant(state.drop(2), fields[i as int]);
                            }
                        }
                    }
                }
            }
        },
    }
}

/// Safety of a cycle: the invariant of the machine survives every cycle.
pub proof fn law_step_keeps_invariant(state: State)
    requires
        state.inv(),
    ensures
        state.step().inv(),
{
    if state.status is Running {
        let last = state.frames.len() - 1;
        assert(state.frame_ok(state.frames[last]));
        if state.frame().ip >= state.chunk().code.len() {
            if state.depth() < 1 {
                lemma_finish_keeps_invariant(state, Value::Unit);
            } else {
                lemma_finish_keeps_invariant(state, state.top(0));
            }
        } else {
            let ip = state.frame().ip;
            let chunk = state.chunk();
            let fetched = State { line: chunk.lines[ip as int], ..state };
            assert(fetched.inv()) by {
                lemma_frames_stay_ok(state, fetched);
            }
            lemma_goto_keeps_invariant(fetched, (ip + 1) as usize);
            let moved = fetched.goto((ip + 1) as usize);
            assert(moved.chunk() == chunk);
            assert(chunk_ok(state.image.objects, chunk)) by {
                if let Some(handle) = state.frame().function {
                    assert(object_ok(state.image.objects, state.image.objects[handle as int]));
                }
            }
            assert(chunk.resolved(chunk.code[ip as int]));
            lemma_execute_keeps_invariant(moved, chunk.code[ip as int]);
        }
    }
}

/// Safety of a run: the state in which a run starts has the invariant wherever
/// the image is well formed, and every state that the run reaches has it too.
/// So the number of frames and the height of the stack never pass their limits,
/// and no upvalue is ever open on a slot that is gone.
pub proof fn law_run_keeps_invariant(state: State, fuel: nat)
    requires
        state.inv(),
    ensures
        state.run(fuel).inv(),
        state.run(fuel).frames.len() <= state.limits.max_frames,
        state.run(fuel).stack.len() <= state.limits.max_stack,
    decreases fuel,
{
    if fuel > 0 && state.status is Running {
        law_step_keeps_invariant(state);
        law_run_keeps_invariant(state.step(), (fuel - 1) as nat);
        law_limits_never_change(state);
    }
}

/// A cycle never changes the limits or the image of a run.
pub proof fn law_limits_never_change(state: State)
    requires
        state.inv(),
    ensures
        state.step().limits == state.limits,
        state.step().image == state.image,
{
    if state.status is Running && state.frame().ip < state.chunk().code.len() {
        let ip = state.frame().ip;
        let chunk = state.chunk();
        let moved = (State { line: chunk.lines[ip as int], ..state }).goto((ip + 1) as usize);
        match chunk.code[ip as int] {
            Instruction::Closure(index) => {
                if let Value::Function(handle) = moved.chunk().constants[index as int] {
                    if let ObjectView::FunctionProto(proto) = moved.image.objects[handle as int] {
                        lemma_captures_keep_the_rest(moved, proto.captures, proto.captures.len());
                    }
                }
            },
            _ => {},
        }
    }
}

/// Captures change the upvalue table and nothing else.
proof fn lemma_captures_keep_the_rest(state: State, captures: Seq<Capture>, n: nat)
    ensures
        state.capture_all(captures, n).0.limits == state.limits,
        state.capture_all(captures, n).0.image == state.image,
    decreases n,
{
    if n > 0 {
        lemma_captures_keep_the_rest(state, captures, (n - 1) as nat);
    }
}

/// The state in which a run of a well-formed image starts has the invariant.
pub proof fn law_initial_state_has_invariant(image: ImageView, limits: Limits)
    requires
        image.well_formed(),
    ensures
        State::initial(image, limits).inv(),
{
}

/// Every state that a run of a well-formed image reaches keeps the limits of the
/// run: the frames never outnumber the frame limit and the operand stack never
/// outgrows the stack limit, however long the run goes on.
pub proof fn law_every_run_keeps_its_limits(image: ImageView, limits: Limits, fuel: nat)
    requires
        image.well_formed(),
    ensures
        State::initial(image, limits).run(fuel).inv(),
        State::initial(image, limits).run(fuel).frames.len() <= limits.max_frames,
        State::initial(image, limits).run(fuel).stack.len() <= limits.max_stack,
{
    law_initial_state_has_invariant(image, limits);
    law_run_keeps_invariant(State::initial(image, limits), fuel);
}

/// An answer of the host keeps the invariant.
pub proof fn law_resume_keeps_invariant(state: State, value: Value)
    requires
        state.inv(),
    ensures
        state.resume(value).inv(),
{
    if let Status::Awaiting(request) = state.status {
        if crate::machine::answers(request.op, value) {
            let running = State { status: Status::Running, ..state };
            lemma_frames_stay_ok(state, running);
            assert(running.inv());
            lemma_push_keeps_invariant(running, value);
        }
    }
}

} // verus!
