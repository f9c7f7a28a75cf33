//! Laws: what holds of the compiler and of the machine for every input.

use vstd::prelude::*;
use crate::ast::TypedProgram;
use crate::bytecode::{ArithOp, Image, ImageView, Instruction};
use crate::ast::Stmt;
use crate::compiler::{
    compile_block, compile_expr, compile_program, compile_stmt, compile_stmts, interned_at,
    CompilerView,
};
use crate::machine::{int_arith, FloatOp, FloatRequest, Limits, State, Status};
use crate::scope::{
    first_at, innermost_at, position, retarget, CompileError, FunctionView, MAX_CONSTANTS,
    MAX_LOCALS,
};
use crate::value::{ObjectView, RuntimeFault, Upvalue, Value};

verus! {

/// Compiling and running are functions of their inputs: two images that were
/// compiled from one program are equal, and so are the states that two runs of
/// them reach on the same limits and the same fuel.
pub proof fn law_round_trip_is_deterministic(
    program: &TypedProgram,
    first: Image,
    second: Image,
    limits: Limits,
    fuel: nat,
)
    requires
        compile_program(program) == Ok::<ImageView, CompileError>(first@),
        compile_program(program) == Ok::<ImageView, CompileError>(second@),
    ensures
        first@ == second@,
        State::initial(first@, limits).run(fuel) == State::initial(second@, limits).run(fuel),
{
}

/// The function state in which `name` has been declared again in a scope that
/// was opened inside `outer`.
pub open spec fn redeclared(outer: FunctionView, name: String, line: u32) -> FunctionView {
    outer.begin_scope().declare(name, line).unwrap()
}

/// Shadowing.  Where a name of an outer scope is declared again in a nested
/// scope, the declaration is accepted and takes the next free slot; inside the
/// nested scope the name resolves to that inner slot; once the nested scope has
/// closed, the name resolves to the outer declaration again, and the table of
/// locals is what it was.
pub proof fn law_inner_declaration_shadows(
    outer: FunctionView,
    name: String,
    line: u32,
    closing: u32,
)
    requires
        outer.locals.len() < MAX_LOCALS,
        outer.resolve_local(name@) is Some,
    ensures
        outer.begin_scope().declare(name, line) is Ok,
        redeclared(outer, name, line).resolve_local(name@) == Some(outer.locals.len() as int),
        redeclared(outer, name, line).locals[outer.locals.len() as int].slot
            == outer.locals.len(),
        redeclared(outer, name, line).end_scope(closing).locals == outer.locals,
        redeclared(outer, name, line).end_scope(closing).scopes == outer.scopes,
        redeclared(outer, name, line).end_scope(closing).resolve_local(name@)
            == outer.resolve_local(name@),
{
    let nested = outer.begin_scope();
    let fresh = outer.locals.len() as int;
    assert(nested.scope_start() == fresh);
    assert(!nested.declares(name@));
    let inner = redeclared(outer, name, line);
    assert(inner.locals[fresh].name@ == name@);
    assert(innermost_at(inner.locals, name@, fresh));
    let chosen = inner.resolve_local(name@).unwrap();
    assert(innermost_at(inner.locals, name@, chosen));
    assert(inner.scope_start() == fresh);
    assert(inner.end_scope(closing).locals =~= outer.locals);
    assert(inner.end_scope(closing).scopes =~= outer.scopes);
}

/// Within the innermost scope every name is declared once.
pub proof fn law_names_are_unique_in_the_innermost_scope(function: FunctionView, i: int, j: int)
    requires
        function.scoped(),
        function.scope_start() <= i < j < function.locals.len(),
    ensures
        function.locals[i].name@ != function.locals[j].name@,
{
    if function.scopes.len() > 0 {
        let last = function.scopes.len() - 1;
        assert(function.scopes[last] <= function.locals.len());
        assert(function.scopes[last] <= i <==> last < function.locals[i].depth);
        assert(function.scopes[last] <= j <==> last < function.locals[j].depth);
    }
    assert(function.locals[i].depth <= function.scopes.len());
    assert(function.locals[j].depth <= function.scopes.len());
}

/// The declaration of one name leaves the resolution of every other name as it is.
pub proof fn law_declaration_keeps_other_names(
    function: FunctionView,
    declared: String,
    line: u32,
    name: Seq<char>,
)
    requires
        declared@ != name,
        function.declare(declared, line) is Ok,
    ensures
        function.declare(declared, line).unwrap().resolve_local(name) == function.resolve_local(
            name,
        ),
{
    let after = function.declare(declared, line).unwrap();
    assert forall|i: int| innermost_at(after.locals, name, i) <==> innermost_at(
        function.locals,
        name,
        i,
    ) by {
        if innermost_at(after.locals, name, i) {
            assert(i < function.locals.len());
            assert forall|j: int| i < j < function.locals.len() implies function.locals[j].name@
                != name by {
                assert(after.locals[j].name@ != name);
            }
        }
        if innermost_at(function.locals, name, i) {
            assert forall|j: int| i < j < after.locals.len() implies after.locals[j].name@
                != name by {
                if j < function.locals.len() {
                    assert(function.locals[j].name@ != name);
                }
            }
        }
    }
}

/// The arity of the value that a call of `argc` arguments finds as its callee,
/// where that value is a function of the image or a closure of one.
pub open spec fn callee_arity(state: State, argc: usize) -> Option<usize> {
    let handle = match state.top(argc as int) {
        Value::Function(handle) => Some(handle),
        Value::Closure(c) => if c < state.heap.len() {
            match state.heap[c as int] {
                ObjectView::ClosureData { function, upvalues } => Some(function),
                _ => None,
            }
        } else {
            None
        },
        _ => None,
    };
    match handle {
        Some(h) => if state.image.is_function(h) {
            match state.image.objects[h as int] {
                ObjectView::FunctionProto(proto) => Some(proto.arity),
                _ => None,
            }
        } else {
            None
        },
        None => None,
    }
}

/// Arity enforcement.  A call that passes another number of arguments than the
/// callee takes ends the run with `ArityMismatch`, whatever the callee is; the
/// operand stack is left exactly as it was, and every frame is unwound.
pub proof fn law_arity_is_enforced(state: State, argc: usize, arity: usize)
    requires
        state.depth() >= argc + 1,
        callee_arity(state, argc) == Some(arity),
        arity != argc,
    ensures
        state.call(argc).status == Status::Faulted(RuntimeFault::ArityMismatch(arity, argc)),
        state.call(argc).stack == state.stack,
        state.call(argc).frames.len() == 0,
{
}

/// A call with the right number of arguments, below the frame limit, enters the
/// callee: one frame more, which starts at the slot of the callee, so that the
/// arguments are its first locals, consumed in place.
pub proof fn law_call_enters_the_callee(state: State, argc: usize)
    requires
        state.depth() >= argc + 1,
        callee_arity(state, argc) == Some(argc),
        state.frames.len() < state.limits.max_frames,
        state.stack.len() <= state.limits.max_stack,
    ensures
        state.call(argc).status == state.status,
        state.call(argc).stack == state.stack,
        state.call(argc).frames.len() == state.frames.len() + 1,
        state.call(argc).frame().base == state.stack.len() - 1 - argc,
        state.call(argc).frame().ip == 0,
{
}

/// The stack-overflow guard.  A call never takes the number of frames past the
/// limit: at the limit, a call that would enter its callee ends the run with
/// `StackOverflow` instead.
pub proof fn law_frame_limit_is_enforced(state: State, argc: usize)
    requires
        state.frames.len() <= state.limits.max_frames,
    ensures
        state.call(argc).frames.len() <= state.limits.max_frames,
        state.depth() >= argc + 1 && callee_arity(state, argc) == Some(argc) && state.frames.len()
            == state.limits.max_frames ==> state.call(argc).status == Status::Faulted(
            RuntimeFault::StackOverflow,
        ),
{
}

/// A push never takes the operand stack past its limit: at the limit it ends
/// the run with `StackOverflow` instead.
pub proof fn law_stack_limit_is_enforced(state: State, value: Value)
    requires
        state.stack.len() <= state.limits.max_stack,
    ensures
        state.push(value).stack.len() <= state.limits.max_stack,
        state.stack.len() == state.limits.max_stack ==> state.push(value).status
            == Status::Faulted(RuntimeFault::StackOverflow),
{
}

/// Integer division and remainder by zero are faults, whatever the dividend.
pub proof fn law_integer_division_by_zero(state: State, op: ArithOp, dividend: i64)
    requires
        op == ArithOp::Div || op == ArithOp::Rem,
        state.depth() >= 2,
        state.top(1) == Value::Int(dividend),
        state.top(0) == Value::Int(0),
    ensures
        int_arith(op, dividend, 0) == Err::<i64, RuntimeFault>(RuntimeFault::DivisionByZero),
        state.int_binary(op).status == Status::Faulted(RuntimeFault::DivisionByZero),
{
}

/// A floating-point operation is never a fault of the machine: the operands are
/// taken from the stack and handed to the host, which owes the result.
pub proof fn law_float_operations_are_requests(state: State, op: FloatOp, lhs: u64, rhs: u64)
    requires
        state.depth() >= 2,
        state.top(1) == Value::Float(lhs),
        state.top(0) == Value::Float(rhs),
    ensures
        state.float_binary(op).status == Status::Awaiting((FloatRequest { op, lhs, rhs })),
        state.float_binary(op).stack == state.stack.take(state.stack.len() - 2),
        state.float_binary(op).frames == state.frames,
{
}

/// Closure capture.  Cutting the stack down never changes what an upvalue holds:
/// an upvalue that was open on a slot that dies is closed over the value that
/// the slot held, and afterwards no upvalue is open on a slot that is gone.
pub proof fn law_shrinking_keeps_captured_values(state: State, len: int, id: int)
    requires
        0 <= len <= state.stack.len(),
        0 <= id < state.upvalues.len(),
        state.upvalues[id] matches Upvalue::Open(slot) ==> slot < state.stack.len(),
    ensures
        state.shrink(len).read_upvalue(id) == state.read_upvalue(id),
        state.shrink(len).upvalues[id] matches Upvalue::Open(slot) ==> slot < len,
{
}

/// Closure capture across a return.  When a frame returns, every upvalue holds
/// what it held before, whether or not it was open on a slot of that frame.
pub proof fn law_return_keeps_captured_values(state: State, result: Value, id: int)
    requires
        state.inv(),
        state.status is Running,
        0 <= id < state.upvalues.len(),
    ensures
        state.finish(result).read_upvalue(id) == state.read_upvalue(id),
        state.finish(result).upvalues[id] matches Upvalue::Open(slot) ==> slot
            < state.frame().base,
{
    let last = state.frames.len() - 1;
    assert(state.frame_ok(state.frames[last]));
    law_shrinking_keeps_captured_values(state, state.frame().base as int, id);
}

/// The function state of a loop that has been closed: the jump back to its
/// start is its last instruction, and every exit has been pointed past it.
pub open spec fn closed_loop(function: FunctionView, line: u32) -> FunctionView {
    function.emit(Instruction::Jump(function.loops.last().start), line).end_loop()
}

/// Control-flow patching.  When a loop is closed, its last instruction is the
/// jump back to its start, and every jump that was noted as an exit of the loop
/// lands exactly one instruction past that jump.  Nothing else changes.
pub proof fn law_exits_land_past_the_loop(function: FunctionView, line: u32, site: int)
    requires
        function.loops.len() > 0,
        0 <= site < function.chunk.code.len(),
        function.chunk.code.len() < usize::MAX,
        forall|k: int|
            0 <= k < function.loops.last().exits.len() ==> function.loops.last().exits[k]
                < function.chunk.code.len(),
    ensures
        closed_loop(function, line).chunk.code.len() == function.chunk.code.len() + 1,
        closed_loop(function, line).chunk.code[function.chunk.code.len() as int]
            == Instruction::Jump(function.loops.last().start),
        function.loops.last().exits.contains(site as usize) ==> closed_loop(
            function,
            line,
        ).chunk.code[site] == retarget(
            function.chunk.code[site],
            (function.chunk.code.len() + 1) as usize,
        ),
        !function.loops.last().exits.contains(site as usize) ==> closed_loop(
            function,
            line,
        ).chunk.code[site] == function.chunk.code[site],
        closed_loop(function, line).loops == function.loops.drop_last(),
{
    let jumped = function.emit(Instruction::Jump(function.loops.last().start), line);
    assert(jumped.loops == function.loops);
    assert(jumped.chunk.code[site] == function.chunk.code[site]);
    let exits = function.loops.last().exits;
    let end = function.chunk.code.len() as usize;
    if exits.contains(end) {
        let k = choose|k: int| 0 <= k < exits.len() && exits[k] == end;
        assert(exits[k] < function.chunk.code.len());
    }
}

/// A `break` inside a loop is a jump that is noted as an exit of the innermost
/// loop, after the locals that were declared since the loop was entered have
/// been dropped.
pub proof fn law_break_is_an_exit(state: CompilerView, line: u32)
    requires
        state.current.loops.len() > 0,
    ensures
        state.leave_loop(line) is Ok,
        state.leave_loop(line).unwrap().current.chunk.code.len() == state.current.chunk.code.len()
            + state.current.loop_locals() + 1,
        state.leave_loop(line).unwrap().current.chunk.code.last() == Instruction::Jump(0),
        state.leave_loop(line).unwrap().current.loops.last().exits.last() == (
        state.current.chunk.code.len() + state.current.loop_locals()) as usize,
        state.leave_loop(line).unwrap().current.loops.len() == state.current.loops.len(),
{
}

/// A reference to a name that is declared in the current function reads the slot
/// of its innermost declaration.
pub proof fn law_reference_reads_the_innermost_slot(
    state: CompilerView,
    name: String,
    line: u32,
    i: int,
)
    requires
        innermost_at(state.current.locals, name@, i),
    ensures
        state.load(name, line) == Ok::<CompilerView, CompileError>(
            state.emit(Instruction::GetLocal(state.current.locals[i].slot), line),
        ),
        state.store(name, line) == Ok::<CompilerView, CompileError>(
            state.emit(Instruction::SetLocal(state.current.locals[i].slot), line),
        ),
{
    let chosen = state.current.resolve_local(name@).unwrap();
    assert(innermost_at(state.current.locals, name@, chosen));
}

/// The state in which the body of a loop statement has been compiled.
pub open spec fn loop_body_compiled(state: CompilerView, stmt: &Stmt) -> CompilerView
    recommends
        stmt is While,
{
    match stmt {
        Stmt::While { cond, body, line } => {
            let tested = compile_expr(state.with(state.current.begin_loop()), cond).unwrap();
            compile_block(
                tested.with(
                    tested.current.emit(Instruction::JumpIfFalse(0), *line).add_exit(
                        tested.current.here(),
                    ),
                ),
                body,
                *line,
            ).unwrap()
        },
        _ => state,
    }
}

/// The line of a loop statement.
pub open spec fn loop_line(stmt: &Stmt) -> u32
    recommends
        stmt is While,
{
    match stmt {
        Stmt::While { cond, body, line } => *line,
        _ => 0,
    }
}

/// A loop statement is compiled to its test, its body and a closed loop: the
/// jump back to the test is the last instruction of the loop, and the exits of
/// the loop, the failed test and every `break` of the body, land past it.
pub proof fn law_loop_statement_closes_its_loop(state: CompilerView, stmt: &Stmt)
    requires
        stmt is While,
        compile_stmt(state, stmt) is Ok,
    ensures
        compile_stmt(state, stmt).unwrap() == loop_body_compiled(state, stmt).with(
            closed_loop(loop_body_compiled(state, stmt).current, loop_line(stmt)),
        ),
{
}

/// Constant interning.  A value that is put into a pool a second time gets the
/// index that it got the first time, and the pool stays as it is.
pub proof fn law_constants_are_interned(function: FunctionView, value: Value, line: u32)
    requires
        function.chunk.constants.len() <= MAX_CONSTANTS,
        function.add_constant(value, line) is Ok,
    ensures
        function.add_constant(value, line).unwrap().0.add_constant(value, line)
            == function.add_constant(value, line),
        function.add_constant(value, line).unwrap().0.chunk.constants[function.add_constant(
            value,
            line,
        ).unwrap().1 as int] == value,
{
    let (after, index) = function.add_constant(value, line).unwrap();
    let pool = function.chunk.constants;
    if position(pool, value) is None {
        assert(first_at(after.chunk.constants, value, pool.len() as int)) by {
            assert forall|j: int| 0 <= j < pool.len() implies after.chunk.constants[j]
                != value by {
                if pool[j] == value {
                    // Some position is then the first one that holds the value.
                    lemma_a_first_position_exists(pool, value, j);
                }
            }
        }
        let chosen = position(after.chunk.constants, value).unwrap();
        assert(first_at(after.chunk.constants, value, chosen));
    } else {
        let found = position(pool, value).unwrap();
        assert(first_at(pool, value, found));
    }
}

/// Where a pool holds a value at all, it holds it at a first position.
proof fn lemma_a_first_position_exists(pool: Seq<Value>, value: Value, at: int)
    requires
        0 <= at < pool.len(),
        pool[at] == value,
    ensures
        exists|i: int| first_at(pool, value, i),
    decreases at,
{
    if exists|j: int| 0 <= j < at && pool[j] == value {
        let j = choose|j: int| 0 <= j < at && pool[j] == value;
        lemma_a_first_position_exists(pool, value, j);
    } else {
        assert(first_at(pool, value, at));
    }
}

/// String interning.  A string that is interned a second time gets the handle
/// that it got the first time, and no object is added.
pub proof fn law_strings_are_interned(state: CompilerView, content: Seq<char>)
    requires
        state.objects.len() < usize::MAX,
    ensures
        state.intern(content).0.intern(content) == state.intern(content),
        state.intern(content).0.objects[state.intern(content).1 as int]
            == ObjectView::StringData(content),
{
    let (after, handle) = state.intern(content);
    let object = ObjectView::StringData(content);
    if exists|i: int| interned_at(state.objects, content, i) {
        let found = choose|i: int| interned_at(state.objects, content, i);
        assert(interned_at(state.objects, content, found));
    } else {
        assert forall|j: int| 0 <= j < state.objects.len() implies state.objects[j] != object by {
            if state.objects[j] == object {
                lemma_a_first_object_exists(state.objects, content, j);
            }
        }
        assert(interned_at(after.objects, content, state.objects.len() as int));
        let chosen = choose|i: int| interned_at(after.objects, content, i);
        assert(interned_at(after.objects, content, chosen));
    }
}

/// Where the objects hold a string at all, they hold it at a first position.
proof fn lemma_a_first_object_exists(objects: Seq<ObjectView>, content: Seq<char>, at: int)
    requires
        0 <= at < objects.len(),
        objects[at] == ObjectView::StringData(content),
    ensures
        exists|i: int| interned_at(objects, content, i),
    decreases at,
{
    if exists|j: int| 0 <= j < at && objects[j] == ObjectView::StringData(content) {
        let j = choose|j: int| 0 <= j < at && objects[j] == ObjectView::StringData(content);
        lemma_a_first_object_exists(objects, content, j);
    } else {
        assert(interned_at(objects, content, at));
    }
}

/// A `break` or a `continue` outside of every loop of its function is rejected
/// when it is compiled, with the line of the statement.
pub proof fn law_jump_outside_a_loop_is_rejected(state: CompilerView, line: u32)
    requires
        state.current.loops.len() == 0,
    ensures
        compile_stmt(state, &Stmt::Break { line }) == Err::<CompilerView, CompileError>(
            CompileError::InvalidControlFlow { line },
        ),
        compile_stmt(state, &Stmt::Continue { line }) == Err::<CompilerView, CompileError>(
            CompileError::InvalidControlFlow { line },
        ),
{
}

/// Compilation fails fast: the first statement that is in error ends the
/// compilation of the statements with its error.
pub proof fn law_the_first_error_ends_compilation(
    state: CompilerView,
    stmts: Seq<Stmt>,
    from: nat,
)
    requires
        from < stmts.len(),
        compile_stmt(state, &stmts[from as int]) is Err,
    ensures
        compile_stmts(state, stmts, from) == compile_stmt(state, &stmts[from as int]),
{
}

/// A return from a callee puts the result where the callee was, on top of what
/// the caller had put on the stack before the call, and goes on in the caller.
pub proof fn law_return_replaces_the_callee(state: State, result: Value)
    requires
        state.frames.len() > 1,
        state.frame().base <= state.stack.len(),
        state.frame().base < state.limits.max_stack,
    ensures
        state.finish(result).stack == state.stack.take(state.frame().base as int).push(result),
        state.finish(result).frames == state.frames.drop_last(),
        state.finish(result).status == state.status,
{
}

/// A return from the outermost frame ends the run with the value returned.
pub proof fn law_outermost_return_ends_the_run(state: State, result: Value)
    requires
        state.frames.len() == 1,
    ensures
        state.finish(result).status == Status::Done(result),
        state.finish(result).frames.len() == 0,
{
}

/// Where the instruction stream of the outermost frame is exhausted, the run
/// ends with the value on top of the stack, or with unit where the stack is empty.
pub proof fn law_exhausted_stream_ends_the_run(state: State)
    requires
        state.status is Running,
        state.frames.len() == 1,
        state.frame().base == 0,
        state.frame().ip >= state.chunk().code.len(),
    ensures
        state.step().status == Status::Done(
            if state.stack.len() > 0 {
                state.stack.last()
            } else {
                Value::Unit
            },
        ),
{
}

/// Fuel adds up: a run that is cut into two pieces reaches the state that the
/// whole run reaches.
pub proof fn law_fuel_adds_up(state: State, first: nat, second: nat)
    ensures
        state.run(first).run(second) == state.run(first + second),
    decreases first,
{
    if first == 0 || !(state.status is Running) {
        if !(state.status is Running) {
            assert(state.run(second) == state);
            assert(state.run(first + second) == state);
        }
    } else {
        law_fuel_adds_up(state.step(), (first - 1) as nat, second);
    }
}

} // verus!
