//! The state of one function while it is being compiled: the chunk that grows,
//! the table of locals, the captured variables and the open loops.

use vstd::prelude::*;
use crate::bytecode::{chunk_ok, Chunk, ChunkView, Instruction};
use crate::value::{Capture, ObjectView, Value};

verus! {

/// The greatest number of local slots of one function.
pub const MAX_LOCALS: usize = 256;

/// The greatest number of entries of one constant pool.
pub const MAX_CONSTANTS: usize = 256;

/// The greatest number of variables that one function captures.
pub const MAX_CAPTURES: usize = 256;

/// A structural error found while a program is lowered.  Each carries the source
/// line of the construct that caused it.
#[derive(Clone, PartialEq, Eq, Debug)]
pub enum CompileError {
    UndefinedName { name: String, line: u32 },
    /// The name is declared twice in the scope at this depth.
    DuplicateDeclaration { name: String, scope: usize, line: u32 },
    InvalidControlFlow { line: u32 },
    TooManyLocals { line: u32 },
    TooManyConstants { line: u32 },
}

/// A declared variable: its name, the depth of the scope that declares it, and
/// its stack slot relative to the base of the frame.
#[derive(Clone, PartialEq, Eq, Debug)]
pub struct Local {
    pub name: String,
    pub depth: usize,
    pub slot: usize,
}

/// An open loop: where it starts, how many locals were declared when it was
/// entered, and the jumps that have to be pointed at its exit.
#[derive(Clone, PartialEq, Eq, Debug)]
pub struct LoopScope {
    pub start: usize,
    pub locals: usize,
    pub exits: Vec<usize>,
}

/// The mathematical content of an open loop.
pub struct LoopView {
    pub start: usize,
    pub locals: usize,
    pub exits: Seq<usize>,
}

impl View for LoopScope {
    type V = LoopView;

    open spec fn view(&self) -> LoopView {
        LoopView { start: self.start, locals: self.locals, exits: self.exits@ }
    }
}

/// The state of one function under compilation.
///
/// `scopes` holds, for each open scope, the number of locals that were declared
/// when it was opened.
pub struct FunctionState {
    pub name: String,
    pub arity: usize,
    pub chunk: Chunk,
    pub locals: Vec<Local>,
    pub scopes: Vec<usize>,
    pub captures: Vec<Capture>,
    pub loops: Vec<LoopScope>,
}

/// The mathematical content of a function state.
pub struct FunctionView {
    pub name: Seq<char>,
    pub arity: usize,
    pub chunk: ChunkView,
    pub locals: Seq<Local>,
    pub scopes: Seq<usize>,
    pub captures: Seq<Capture>,
    pub loops: Seq<LoopView>,
}

impl View for FunctionState {
    type V = FunctionView;

    open spec fn view(&self) -> FunctionView {
        FunctionView {
            name: self.name@,
            arity: self.arity,
            chunk: self.chunk@,
            locals: self.locals@,
            scopes: self.scopes@,
            captures: self.captures@,
            loops: Seq::new(self.loops.len() as nat, |i: int| self.loops[i]@),
        }
    }
}

/// The same jump with another target; any other instruction as it is.
pub open spec fn retarget(instruction: Instruction, target: usize) -> Instruction {
    match instruction {
        Instruction::Jump(_) => Instruction::Jump(target),
        Instruction::JumpIfFalse(_) => Instruction::JumpIfFalse(target),
        other => other,
    }
}

/// `i` is the first position at which the pool holds `value`.
pub open spec fn first_at(pool: Seq<Value>, value: Value, i: int) -> bool {
    &&& 0 <= i < pool.len()
    &&& pool[i] == value
    &&& forall|j: int| 0 <= j < i ==> pool[j] != value
}

/// The first position at which the pool holds `value`, if it holds it at all.
pub open spec fn position(pool: Seq<Value>, value: Value) -> Option<int> {
    if exists|i: int| first_at(pool, value, i) {
        Some(choose|i: int| first_at(pool, value, i))
    } else {
        None
    }
}

/// `i` is the last local that has this name: the innermost declaration.
pub open spec fn innermost_at(locals: Seq<Local>, name: Seq<char>, i: int) -> bool {
    &&& 0 <= i < locals.len()
    &&& locals[i].name@ == name
    &&& forall|j: int| i < j < locals.len() ==> locals[j].name@ != name
}

/// `i` is the first position at which the list holds this capture.
pub open spec fn captured_at(captures: Seq<Capture>, capture: Capture, i: int) -> bool {
    &&& 0 <= i < captures.len()
    &&& captures[i] == capture
    &&& forall|j: int| 0 <= j < i ==> captures[j] != capture
}

impl FunctionView {
    /// The state of a function of which nothing has been compiled yet.
    pub open spec fn fresh(name: Seq<char>, arity: usize) -> FunctionView {
        FunctionView {
            name,
            arity,
            chunk: ChunkView { code: Seq::empty(), constants: Seq::empty(), lines: Seq::empty() },
            locals: Seq::empty(),
            scopes: Seq::empty(),
            captures: Seq::empty(),
            loops: Seq::empty(),
        }
    }

    /// What holds of a function state throughout compilation, with respect to the
    /// objects that have been created so far.
    pub open spec fn inv(self, objects: Seq<ObjectView>) -> bool {
        &&& chunk_ok(objects, self.chunk)
        &&& self.chunk.pool_distinct()
        &&& self.chunk.constants.len() <= MAX_CONSTANTS
        &&& self.locals.len() <= MAX_LOCALS
        &&& self.captures.len() <= MAX_CAPTURES
        &&& forall|i: int| 0 <= i < self.locals.len() ==> (#[trigger] self.locals[i]).slot == i
        &&& self.scoped()
        &&& forall|i: int|
            0 <= i < self.loops.len() ==> (#[trigger] self.loops[i]).start <= self.chunk.code.len()
        &&& forall|i: int, j: int|
            0 <= i < self.loops.len() && 0 <= j < self.loops[i].exits.len() ==> (
            #[trigger] self.loops[i].exits[j]) < self.chunk.code.len()
    }

    /// The table of locals is laid out scope by scope: every open scope starts
    /// within the table, the depth of a local is the number of the scopes that
    /// were open when it was declared, which are the scopes that start at or below
    /// it, and no scope declares a name twice.
    pub open spec fn scoped(self) -> bool {
        &&& self.scopes.len() <= usize::MAX
        &&& forall|k: int|
            0 <= k < self.scopes.len() ==> (#[trigger] self.scopes[k]) <= self.locals.len()
        &&& forall|i: int|
            0 <= i < self.locals.len() ==> (#[trigger] self.locals[i]).depth <= self.scopes.len()
        &&& forall|i: int, k: int|
            0 <= i < self.locals.len() && 0 <= k < self.scopes.len() ==> ((
            #[trigger] self.scopes[k]) <= i <==> k < (#[trigger] self.locals[i]).depth)
        &&& forall|i: int, j: int|
            0 <= i < j < self.locals.len() && (#[trigger] self.locals[i]).depth == (
            #[trigger] self.locals[j]).depth ==> self.locals[i].name@ != self.locals[j].name@
    }

    /// The offset of the next instruction.
    pub open spec fn here(self) -> usize {
        self.chunk.code.len() as usize
    }

    /// Append one instruction.
    pub open spec fn emit(self, instruction: Instruction, line: u32) -> FunctionView {
        FunctionView {
            chunk: ChunkView {
                code: self.chunk.code.push(instruction),
                lines: self.chunk.lines.push(line),
                ..self.chunk
            },
            ..self
        }
    }

    /// Append `count` instructions that each drop one value.
    pub open spec fn emit_pops(self, count: nat, line: u32) -> FunctionView {
        FunctionView {
            chunk: ChunkView {
                code: self.chunk.code + Seq::new(count, |i: int| Instruction::Pop),
                lines: self.chunk.lines + Seq::new(count, |i: int| line),
                ..self.chunk
            },
            ..self
        }
    }

    /// Point every listed jump at `target`.
    pub open spec fn patch_all(self, sites: Seq<usize>, target: usize) -> FunctionView {
        FunctionView {
            chunk: ChunkView {
                code: Seq::new(
                    self.chunk.code.len(),
                    |i: int|
                        if sites.contains(i as usize) {
                            retarget(self.chunk.code[i], target)
                        } else {
                            self.chunk.code[i]
                        },
                ),
                ..self.chunk
            },
            ..self
        }
    }

    /// The pool index of a constant: that of an equal entry if there is one, else
    /// that of a new entry.
    pub open spec fn add_constant(self, value: Value, line: u32) -> Result<
        (FunctionView, usize),
        CompileError,
    > {
        match position(self.chunk.constants, value) {
            Some(i) => Ok((self, i as usize)),
            None => if self.chunk.constants.len() >= MAX_CONSTANTS {
                Err(CompileError::TooManyConstants { line })
            } else {
                Ok(
                    (
                        FunctionView {
                            chunk: ChunkView {
                                constants: self.chunk.constants.push(value),
                                ..self.chunk
                            },
                            ..self
                        },
                        self.chunk.constants.len() as usize,
                    ),
                )
            },
        }
    }

    /// The innermost local of this name.
    pub open spec fn resolve_local(self, name: Seq<char>) -> Option<int> {
        if exists|i: int| innermost_at(self.locals, name, i) {
            Some(choose|i: int| innermost_at(self.locals, name, i))
        } else {
            None
        }
    }

    /// The number of locals that were declared when the innermost scope was opened.
    pub open spec fn scope_start(self) -> int {
        if self.scopes.len() == 0 {
            0
        } else {
            self.scopes.last() as int
        }
    }

    /// Whether the innermost scope declares this name.
    pub open spec fn declares(self, name: Seq<char>) -> bool {
        exists|i: int|
            self.scope_start() <= i < self.locals.len() && (#[trigger] self.locals[i]).name@ == name
    }

    /// Declare a local in the innermost scope; its slot is the next free one.
    pub open spec fn declare(self, name: String, line: u32) -> Result<FunctionView, CompileError> {
        if self.declares(name@) {
            Err(
                CompileError::DuplicateDeclaration {
                    name,
                    scope: self.scopes.len() as usize,
                    line,
                },
            )
        } else if self.locals.len() >= MAX_LOCALS {
            Err(CompileError::TooManyLocals { line })
        } else {
            Ok(
                FunctionView {
                    locals: self.locals.push(
                        Local {
                            name,
                            depth: self.scopes.len() as usize,
                            slot: self.locals.len() as usize,
                        },
                    ),
                    ..self
                },
            )
        }
    }

    /// Open a scope: it starts where the table of locals ends.
    pub open spec fn begin_scope(self) -> FunctionView {
        FunctionView { scopes: self.scopes.push(self.locals.len() as usize), ..self }
    }

    /// Close the innermost scope: its locals are dropped from the stack and from
    /// the table, and their slots are free again.
    pub open spec fn end_scope(self, line: u32) -> FunctionView {
        if self.scopes.len() == 0 {
            self
        } else {
            let start = self.scope_start();
            let popped = self.emit_pops((self.locals.len() - start) as nat, line);
            FunctionView {
                locals: self.locals.take(start),
                scopes: self.scopes.drop_last(),
                ..popped
            }
        }
    }

    /// The index of a capture among the captures of the function.
    pub open spec fn add_capture(self, capture: Capture, line: u32) -> Result<
        (FunctionView, usize),
        CompileError,
    > {
        if exists|i: int| captured_at(self.captures, capture, i) {
            Ok((self, (choose|i: int| captured_at(self.captures, capture, i)) as usize))
        } else if self.captures.len() >= MAX_CAPTURES {
            Err(CompileError::TooManyLocals { line })
        } else {
            Ok(
                (
                    FunctionView { captures: self.captures.push(capture), ..self },
                    self.captures.len() as usize,
                ),
            )
        }
    }

    /// Open a loop that starts at the next instruction.
    pub open spec fn begin_loop(self) -> FunctionView {
        FunctionView {
            loops: self.loops.push(
                LoopView {
                    start: self.here(),
                    locals: self.locals.len() as usize,
                    exits: Seq::empty(),
                },
            ),
            ..self
        }
    }

    /// Note that the jump at `site` leaves the innermost loop.
    pub open spec fn add_exit(self, site: usize) -> FunctionView {
        let innermost = self.loops.last();
        FunctionView {
            loops: self.loops.update(
                self.loops.len() - 1,
                LoopView { exits: innermost.exits.push(site), ..innermost },
            ),
            ..self
        }
    }

    /// Close the innermost loop: every jump that leaves it is pointed at the
    /// offset of the next instruction.
    pub open spec fn end_loop(self) -> FunctionView {
        let patched = self.patch_all(self.loops.last().exits, self.here());
        FunctionView { loops: self.loops.drop_last(), ..patched }
    }

    /// The number of locals that a jump out of the innermost loop has to drop.
    pub open spec fn loop_locals(self) -> nat {
        let entered = self.loops.last().locals;
        if entered <= self.locals.len() {
            (self.locals.len() - entered) as nat
        } else {
            0
        }
    }
}

/// Opening a scope keeps the layout of the table.
pub proof fn lemma_begin_scope_keeps_layout(function: FunctionView)
    requires
        function.scoped(),
        function.locals.len() <= MAX_LOCALS,
        function.scopes.len() < usize::MAX,
    ensures
        function.begin_scope().scoped(),
{
    let after = function.begin_scope();
    let last = function.scopes.len() as int;
    assert forall|i: int, k: int|
        0 <= i < after.locals.len() && 0 <= k < after.scopes.len() implies ((
    #[trigger] after.scopes[k]) <= i <==> k < (#[trigger] after.locals[i]).depth) by {
        if k < last {
            assert(function.scopes[k] <= i <==> k < function.locals[i].depth);
        } else {
            assert(function.locals[i].depth <= function.scopes.len());
        }
    }
}

/// Closing a scope keeps the layout of the table.
pub proof fn lemma_end_scope_keeps_layout(function: FunctionView, line: u32)
    requires
        function.scoped(),
    ensures
        function.end_scope(line).scoped(),
{
    if function.scopes.len() > 0 {
        let after = function.end_scope(line);
        let last = function.scopes.len() - 1;
        let start = function.scope_start();
        assert(function.scopes[last] <= function.locals.len());
        assert(start == function.scopes[last]);
        assert forall|k: int| 0 <= k < after.scopes.len() implies (#[trigger] after.scopes[k])
            <= after.locals.len() by {
            lemma_marks_ascend(function, k, last);
        }
        assert forall|i: int| 0 <= i < after.locals.len() implies (#[trigger] after.locals[i]).depth
            <= after.scopes.len() by {
            assert(function.scopes[last] <= i <==> last < function.locals[i].depth);
        }
        assert forall|i: int, k: int|
            0 <= i < after.locals.len() && 0 <= k < after.scopes.len() implies ((
        #[trigger] after.scopes[k]) <= i <==> k < (#[trigger] after.locals[i]).depth) by {
            assert(function.scopes[k] <= i <==> k < function.locals[i].depth);
        }
        assert forall|i: int, j: int|
            0 <= i < j < after.locals.len() && (#[trigger] after.locals[i]).depth == (
            #[trigger] after.locals[j]).depth implies after.locals[i].name@
            != after.locals[j].name@ by {
            assert(function.locals[i].depth == function.locals[j].depth);
        }
    }
}

/// The scopes that are open start in the order in which they were opened.
pub proof fn lemma_marks_ascend(function: FunctionView, k: int, l: int)
    requires
        function.scoped(),
        0 <= k <= l < function.scopes.len(),
    ensures
        function.scopes[k] <= function.scopes[l],
{
    let upper = function.scopes[l] as int;
    assert(upper <= function.locals.len());
    if upper < function.locals.len() {
        assert(function.scopes[l] <= upper <==> l < function.locals[upper].depth);
        assert(function.scopes[k] <= upper <==> k < function.locals[upper].depth);
    } else {
        assert(function.scopes[k] <= function.locals.len());
    }
}

/// A declaration that is accepted keeps the layout of the table.
pub proof fn lemma_declare_keeps_layout(function: FunctionView, name: String, line: u32)
    requires
        function.scoped(),
        function.declare(name, line) is Ok,
    ensures
        function.declare(name, line).unwrap().scoped(),
{
    let after = function.declare(name, line).unwrap();
    let fresh = function.locals.len() as int;
    assert forall|i: int, k: int|
        0 <= i < after.locals.len() && 0 <= k < after.scopes.len() implies ((
    #[trigger] after.scopes[k]) <= i <==> k < (#[trigger] after.locals[i]).depth) by {
        if i < fresh {
            assert(function.scopes[k] <= i <==> k < function.locals[i].depth);
        } else {
            assert(function.scopes[k] <= function.locals.len());
        }
    }
    assert forall|i: int, j: int|
        0 <= i < j < after.locals.len() && (#[trigger] after.locals[i]).depth == (
        #[trigger] after.locals[j]).depth implies after.locals[i].name@
        != after.locals[j].name@ by {
        if j < fresh {
            assert(function.locals[i].depth == function.locals[j].depth);
        } else {
            // A local of this depth lies in the innermost scope, which does not
            // declare the name yet.
            if function.scopes.len() > 0 {
                let last = function.scopes.len() - 1;
                assert(function.scopes[last] <= i <==> last < function.locals[i].depth);
                assert(function.scopes[last] <= function.locals.len());
            }
            assert(function.scope_start() <= i);
            assert(!function.declares(name@));
        }
    }
}

} // verus!
