//! The compiler: lowers a checked syntax tree to an image.
//!
//! Each function of the tree is compiled into a chunk of its own.  The state of
//! the function that is being compiled is `current`; the states of the functions
//! that enclose it wait in `enclosing`, outermost first.

use vstd::prelude::*;
use crate::ast::{BinaryOp, Expr, ExprKind, Function, Stmt, Ty, TypedProgram, UnaryOp};
use crate::bytecode::{
    chunk_ok, constant_ok, object_ok, objects_distinct, objects_ok, Chunk, ChunkView, Image, ImageView,
    Instruction, Relation,
};
use crate::scope::{
    captured_at, first_at, innermost_at, lemma_begin_scope_keeps_layout,
    lemma_declare_keeps_layout, lemma_end_scope_keeps_layout, position, retarget, CompileError,
    FunctionState,
    FunctionView, Local, LoopScope, LoopView, MAX_CAPTURES, MAX_CONSTANTS, MAX_LOCALS,
};
use crate::value::{heap_view, Capture, FunctionProto, HeapObject, ObjectView, ProtoView, Value};

verus! {

/// The state of a compilation.
pub struct Compiler {
    pub enclosing: Vec<FunctionState>,
    pub current: FunctionState,
    pub objects: Vec<HeapObject>,
}

/// The mathematical content of the state of a compilation.
pub struct CompilerView {
    pub enclosing: Seq<FunctionView>,
    pub current: FunctionView,
    pub objects: Seq<ObjectView>,
}

impl View for Compiler {
    type V = CompilerView;

    open spec fn view(&self) -> CompilerView {
        CompilerView {
            enclosing: Seq::new(self.enclosing.len() as nat, |i: int| self.enclosing[i]@),
            current: self.current@,
            objects: heap_view(self.objects@),
        }
    }
}

/// `i` is the first object that is string data with these contents.
pub open spec fn interned_at(objects: Seq<ObjectView>, content: Seq<char>, i: int) -> bool {
    &&& 0 <= i < objects.len()
    &&& objects[i] == ObjectView::StringData(content)
    &&& forall|j: int| 0 <= j < i ==> objects[j] != ObjectView::StringData(content)
}

impl CompilerView {
    /// What holds of the state throughout a compilation.
    pub open spec fn inv(self) -> bool {
        &&& objects_ok(self.objects)
        &&& objects_distinct(self.objects)
        &&& self.current.inv(self.objects)
        &&& forall|i: int|
            0 <= i < self.enclosing.len() ==> (#[trigger] self.enclosing[i]).inv(self.objects)
    }

    /// The state with another current function.
    pub open spec fn with(self, current: FunctionView) -> CompilerView {
        CompilerView { current, ..self }
    }

    /// The state with one more object.
    pub open spec fn grow(self, object: ObjectView) -> CompilerView {
        CompilerView { objects: self.objects.push(object), ..self }
    }

    /// Append one instruction to the current function.
    pub open spec fn emit(self, instruction: Instruction, line: u32) -> CompilerView {
        self.with(self.current.emit(instruction, line))
    }

    /// The function at a level of the chain: the enclosing functions, outermost
    /// first, and then the current one.
    pub open spec fn function_at(self, level: int) -> FunctionView {
        if level == self.enclosing.len() {
            self.current
        } else {
            self.enclosing[level]
        }
    }

    /// The state with another function at a level of the chain.
    pub open spec fn with_function(self, level: int, function: FunctionView) -> CompilerView {
        if level == self.enclosing.len() {
            self.with(function)
        } else {
            CompilerView { enclosing: self.enclosing.update(level, function), ..self }
        }
    }

    /// Add a capture to the function at a level.
    pub open spec fn capture_in(self, level: int, capture: Capture, line: u32) -> Result<
        (CompilerView, Option<usize>),
        CompileError,
    > {
        match self.function_at(level).add_capture(capture, line) {
            Ok((function, index)) => Ok((self.with_function(level, function), Some(index))),
            Err(error) => Err(error),
        }
    }

    /// Find a name among the variables of the functions that enclose the one at
    /// `level`, and thread it inwards as a capture of each function on the way.
    /// The result is the index of the capture in the function at `level`.
    pub open spec fn capture(self, level: nat, name: Seq<char>, line: u32) -> Result<
        (CompilerView, Option<usize>),
        CompileError,
    >
        decreases level,
    {
        if level == 0 || level > self.enclosing.len() {
            Ok((self, None))
        } else {
            let outer = self.function_at(level - 1);
            match outer.resolve_local(name) {
                Some(i) => self.capture_in(
                    level as int,
                    Capture { from_local: true, index: outer.locals[i].slot },
                    line,
                ),
                None => match self.capture((level - 1) as nat, name, line) {
                    Err(error) => Err(error),
                    Ok((state, None)) => Ok((state, None)),
                    Ok((state, Some(index))) => state.capture_in(
                        level as int,
                        Capture { from_local: false, index },
                        line,
                    ),
                },
            }
        }
    }

    /// Read a variable: a local of the current function, or else a capture.
    pub open spec fn load(self, name: String, line: u32) -> Result<CompilerView, CompileError> {
        match self.current.resolve_local(name@) {
            Some(i) => Ok(self.emit(Instruction::GetLocal(self.current.locals[i].slot), line)),
            None => match self.capture(self.enclosing.len(), name@, line) {
                Err(error) => Err(error),
                Ok((state, Some(index))) => Ok(state.emit(Instruction::GetUpvalue(index), line)),
                Ok((state, None)) => Err(CompileError::UndefinedName { name, line }),
            },
        }
    }

    /// Write the value on top of the stack to a variable.
    pub open spec fn store(self, name: String, line: u32) -> Result<CompilerView, CompileError> {
        match self.current.resolve_local(name@) {
            Some(i) => Ok(self.emit(Instruction::SetLocal(self.current.locals[i].slot), line)),
            None => match self.capture(self.enclosing.len(), name@, line) {
                Err(error) => Err(error),
                Ok((state, Some(index))) => Ok(state.emit(Instruction::SetUpvalue(index), line)),
                Ok((state, None)) => Err(CompileError::UndefinedName { name, line }),
            },
        }
    }

    /// Leave the innermost loop from here.
    pub open spec fn leave_loop(self, line: u32) -> Result<CompilerView, CompileError> {
        if self.current.loops.len() == 0 {
            Err(CompileError::InvalidControlFlow { line })
        } else {
            let popped = self.current.emit_pops(self.current.loop_locals(), line);
            Ok(self.with(popped.emit(Instruction::Jump(0), line).add_exit(popped.here())))
        }
    }

    /// Go back to the start of the innermost loop from here.
    pub open spec fn repeat_loop(self, line: u32) -> Result<CompilerView, CompileError> {
        if self.current.loops.len() == 0 {
            Err(CompileError::InvalidControlFlow { line })
        } else {
            let popped = self.current.emit_pops(self.current.loop_locals(), line);
            Ok(self.with(popped.emit(Instruction::Jump(self.current.loops.last().start), line)))
        }
    }

    /// The state in which a compilation starts: the top level is the current
    /// function, and nothing encloses it.
    pub open spec fn initial() -> CompilerView {
        CompilerView {
            enclosing: Seq::empty(),
            current: FunctionView::fresh(Seq::empty(), 0),
            objects: Seq::empty(),
        }
    }

    /// Push a constant: an entry of the pool and the instruction that loads it.
    pub open spec fn constant(self, value: Value, line: u32) -> Result<CompilerView, CompileError> {
        match self.current.add_constant(value, line) {
            Ok((function, index)) => Ok(
                self.with(function).emit(Instruction::Constant(index), line),
            ),
            Err(error) => Err(error),
        }
    }

    /// Point the jump at `site` at `target`.
    pub open spec fn patch(self, site: usize, target: usize) -> CompilerView {
        self.with(self.current.patch_all(seq![site], target))
    }

    /// Start a function.  Slot 0 of a function holds the function itself, under
    /// its own name; the parameters follow in a scope of their own.
    pub open spec fn begin_function(self, name: String, arity: usize) -> CompilerView {
        let fresh = FunctionView::fresh(name@, arity);
        CompilerView {
            enclosing: self.enclosing.push(self.current),
            current: FunctionView {
                locals: seq![Local { name, depth: 0, slot: 0 }],
                scopes: seq![1usize],
                ..fresh
            },
            ..self
        }
    }

    /// Declare the names from `from` on, in order.
    pub open spec fn declare_all(self, names: Seq<String>, from: nat, line: u32) -> Result<
        CompilerView,
        CompileError,
    >
        decreases names.len() - from,
    {
        if from >= names.len() {
            Ok(self)
        } else {
            match self.current.declare(names[from as int], line) {
                Ok(function) => self.with(function).declare_all(names, from + 1, line),
                Err(error) => Err(error),
            }
        }
    }

    /// Finish the current function: it returns unit where its body falls through,
    /// its prototype becomes an object, and the enclosing function pushes the
    /// function itself, or a closure of it where it captures anything.
    pub open spec fn end_function(self, line: u32) -> Result<CompilerView, CompileError> {
        let done = self.current.emit(Instruction::Unit, line).emit(Instruction::Return, line);
        let proto = ProtoView {
            name: done.name,
            arity: done.arity,
            captures: done.captures,
            chunk: done.chunk,
        };
        let handle = self.objects.len() as usize;
        let outer = CompilerView {
            enclosing: self.enclosing.drop_last(),
            current: self.enclosing.last(),
            objects: self.objects.push(ObjectView::FunctionProto(proto)),
        };
        match outer.current.add_constant(Value::Function(handle), line) {
            Ok((function, index)) => Ok(
                outer.with(function).emit(
                    if done.captures.len() == 0 {
                        Instruction::Constant(index)
                    } else {
                        Instruction::Closure(index)
                    },
                    line,
                ),
            ),
            Err(error) => Err(error),
        }
    }

    /// The handle of a string: that of an equal string if there is one, else that
    /// of a new object.
    pub open spec fn intern(self, content: Seq<char>) -> (CompilerView, usize) {
        if exists|i: int| interned_at(self.objects, content, i) {
            (self, (choose|i: int| interned_at(self.objects, content, i)) as usize)
        } else {
            (self.grow(ObjectView::StringData(content)), self.objects.len() as usize)
        }
    }
}

/// The instruction for a unary operator on an operand of a given type.
pub open spec fn unary_instruction(op: UnaryOp, ty: Ty) -> Instruction {
    match op {
        UnaryOp::Neg => if ty == Ty::Float {
            Instruction::FloatNegate
        } else {
            Instruction::Negate
        },
        UnaryOp::Not => Instruction::Not,
    }
}

/// The instruction for a binary operator on operands of a given type.
pub open spec fn binary_instruction(op: BinaryOp, ty: Ty) -> Instruction {
    match op {
        BinaryOp::Arith(arith) => if ty == Ty::Float {
            Instruction::FloatArith(arith)
        } else {
            Instruction::IntArith(arith)
        },
        BinaryOp::Compare(relation) => if ty == Ty::Float {
            Instruction::FloatCompare(relation)
        } else if ty == Ty::Int {
            Instruction::IntCompare(relation)
        } else if relation == Relation::Eq {
            Instruction::Equal
        } else if relation == Relation::Ne {
            Instruction::NotEqual
        } else {
            Instruction::IntCompare(relation)
        },
    }
}

/// The code of an expression: it leaves the value of the expression on the stack.
pub open spec fn compile_expr(state: CompilerView, expr: &Expr) -> Result<
    CompilerView,
    CompileError,
>
    decreases expr,
{
    match &expr.kind {
        ExprKind::Unit => Ok(state.emit(Instruction::Unit, expr.line)),
        ExprKind::Bool(b) => Ok(
            state.emit(
                if *b {
                    Instruction::True
                } else {
                    Instruction::False
                },
                expr.line,
            ),
        ),
        ExprKind::Int(i) => state.constant(Value::Int(*i), expr.line),
        ExprKind::Float(bits) => state.constant(Value::Float(*bits), expr.line),
        ExprKind::Str(s) => {
            let (interned, handle) = state.intern(s@);
            interned.constant(Value::Str(handle), expr.line)
        },
        ExprKind::Var(name) => state.load(*name, expr.line),
        ExprKind::Unary(op, operand) => match compile_expr(state, operand) {
            Ok(after) => Ok(after.emit(unary_instruction(*op, operand.ty), expr.line)),
            Err(error) => Err(error),
        },
        ExprKind::Binary(op, lhs, rhs) => match compile_expr(state, lhs) {
            Ok(first) => match compile_expr(first, rhs) {
                Ok(second) => Ok(second.emit(binary_instruction(*op, lhs.ty), expr.line)),
                Err(error) => Err(error),
            },
            Err(error) => Err(error),
        },
        ExprKind::Call(callee, args) => match compile_expr(state, callee) {
            Ok(first) => match compile_exprs(first, args@, 0) {
                Ok(second) => Ok(second.emit(Instruction::Call(args.len()), expr.line)),
                Err(error) => Err(error),
            },
            Err(error) => Err(error),
        },
        ExprKind::Lambda(function) => compile_function(state, function),
        ExprKind::Aggregate(fields) => match compile_exprs(state, fields@, 0) {
            Ok(after) => Ok(after.emit(Instruction::NewStruct(fields.len()), expr.line)),
            Err(error) => Err(error),
        },
        ExprKind::Index(target, index) => match compile_expr(state, target) {
            Ok(first) => match compile_expr(first, index) {
                Ok(second) => Ok(second.emit(Instruction::Index, expr.line)),
                Err(error) => Err(error),
            },
            Err(error) => Err(error),
        },
    }
}

/// The code of the expressions from `from` on, in order.
pub open spec fn compile_exprs(state: CompilerView, exprs: Seq<Expr>, from: nat) -> Result<
    CompilerView,
    CompileError,
>
    decreases exprs, exprs.len() - from,
{
    if from >= exprs.len() {
        Ok(state)
    } else {
        match compile_expr(state, &exprs[from as int]) {
            Ok(after) => compile_exprs(after, exprs, from + 1),
            Err(error) => Err(error),
        }
    }
}

/// The code of a function: a chunk of its own, and in the enclosing function the
/// code that pushes the function.
pub open spec fn compile_function(state: CompilerView, function: &Function) -> Result<
    CompilerView,
    CompileError,
>
    decreases function,
{
    let entered = state.begin_function(function.name, function.params.len());
    match entered.declare_all(function.params@, 0, function.line) {
        Ok(declared) => match compile_stmts(
            declared.with(declared.current.begin_scope()),
            function.body@,
            0,
        ) {
            Ok(after) => after.end_function(function.line),
            Err(error) => Err(error),
        },
        Err(error) => Err(error),
    }
}

/// The code of a block: its statements in a scope of their own.
pub open spec fn compile_block(state: CompilerView, body: &Vec<Stmt>, line: u32) -> Result<
    CompilerView,
    CompileError,
>
    decreases body,
{
    match compile_stmts(state.with(state.current.begin_scope()), body@, 0) {
        Ok(after) => Ok(after.with(after.current.end_scope(line))),
        Err(error) => Err(error),
    }
}

/// The code of a statement: it leaves the stack as high as the locals reach.
pub open spec fn compile_stmt(state: CompilerView, stmt: &Stmt) -> Result<
    CompilerView,
    CompileError,
>
    decreases stmt,
{
    match stmt {
        Stmt::Let { name, init, line } => match compile_expr(state, init) {
            Ok(after) => match after.current.declare(*name, *line) {
                Ok(function) => Ok(after.with(function)),
                Err(error) => Err(error),
            },
            Err(error) => Err(error),
        },
        Stmt::Assign { name, value, line } => match compile_expr(state, value) {
            Ok(after) => after.store(*name, *line),
            Err(error) => Err(error),
        },
        Stmt::Expr(expr) => match compile_expr(state, expr) {
            Ok(after) => Ok(after.emit(Instruction::Pop, expr.line)),
            Err(error) => Err(error),
        },
        Stmt::If { cond, consequent, alternative, line } => match compile_expr(state, cond) {
            Ok(tested) => match compile_block(
                tested.emit(Instruction::JumpIfFalse(0), *line),
                consequent,
                *line,
            ) {
                Ok(first) => {
                    let skipped = first.emit(Instruction::Jump(0), *line);
                    match compile_block(
                        skipped.patch(tested.current.here(), skipped.current.here()),
                        alternative,
                        *line,
                    ) {
                        Ok(second) => Ok(
                            second.patch(first.current.here(), second.current.here()),
                        ),
                        Err(error) => Err(error),
                    }
                },
                Err(error) => Err(error),
            },
            Err(error) => Err(error),
        },
        Stmt::While { cond, body, line } => match compile_expr(
            state.with(state.current.begin_loop()),
            cond,
        ) {
            Ok(tested) => match compile_block(
                tested.with(
                    tested.current.emit(Instruction::JumpIfFalse(0), *line).add_exit(
                        tested.current.here(),
                    ),
                ),
                body,
                *line,
            ) {
                Ok(after) => Ok(
                    after.with(
                        after.current.emit(
                            Instruction::Jump(after.current.loops.last().start),
                            *line,
                        ).end_loop(),
                    ),
                ),
                Err(error) => Err(error),
            },
            Err(error) => Err(error),
        },
        Stmt::Break { line } => state.leave_loop(*line),
        Stmt::Continue { line } => state.repeat_loop(*line),
        Stmt::Return { result, line } => match result {
            Some(expr) => match compile_expr(state, expr) {
                Ok(after) => Ok(after.emit(Instruction::Return, *line)),
                Err(error) => Err(error),
            },
            None => Ok(state.emit(Instruction::Unit, *line).emit(Instruction::Return, *line)),
        },
        Stmt::Block { body, line } => compile_block(state, body, *line),
        Stmt::Fn(function) => match compile_function(state, function) {
            Ok(after) => match after.current.declare(function.name, function.line) {
                Ok(declared) => Ok(after.with(declared)),
                Err(error) => Err(error),
            },
            Err(error) => Err(error),
        },
    }
}

/// The code of the statements from `from` on, in order.
pub open spec fn compile_stmts(state: CompilerView, stmts: Seq<Stmt>, from: nat) -> Result<
    CompilerView,
    CompileError,
>
    decreases stmts, stmts.len() - from,
{
    if from >= stmts.len() {
        Ok(state)
    } else {
        match compile_stmt(state, &stmts[from as int]) {
            Ok(after) => compile_stmts(after, stmts, from + 1),
            Err(error) => Err(error),
        }
    }
}

/// The image of a program: the code of its statements, ended by a return of
/// unit, and the objects that were created on the way.
pub open spec fn compile_program(program: &TypedProgram) -> Result<ImageView, CompileError> {
    match compile_stmts(CompilerView::initial(), program.body@, 0) {
        Ok(state) => Ok(
            ImageView {
                chunk: state.current.emit(Instruction::Unit, 0).emit(Instruction::Return, 0).chunk,
                objects: state.objects,
            },
        ),
        Err(error) => Err(error),
    }
}

/// Between two states no function was entered or left for good, no loop was
/// opened or closed for good, and no code of the current function was taken back.
pub open spec fn balanced(before: CompilerView, after: CompilerView) -> bool {
    &&& after.enclosing.len() == before.enclosing.len()
    &&& after.current.loops.len() == before.current.loops.len()
    &&& after.current.chunk.code.len() >= before.current.chunk.code.len()
    &&& forall|i: int|
        0 <= i < before.enclosing.len() ==> (#[trigger] after.enclosing[i]).loops.len()
            == before.enclosing[i].loops.len() && after.enclosing[i].chunk.code.len()
            >= before.enclosing[i].chunk.code.len()
}

/// What a step of the compiler owes: on success the state that the model gives,
/// with its invariant, and on failure the error that the model gives.
pub open spec fn agrees(
    result: Result<(), CompileError>,
    before: CompilerView,
    after: CompilerView,
    model: Result<CompilerView, CompileError>,
) -> bool {
    match model {
        Ok(expected) => result is Ok && after == expected && after.inv() && balanced(before, after),
        Err(error) => result == Err::<(), CompileError>(error),
    }
}

/// Objects are only ever added, so a constant that is in order stays in order.
pub proof fn lemma_constant_stays_ok(objects: Seq<ObjectView>, object: ObjectView, value: Value)
    requires
        constant_ok(objects, value),
    ensures
        constant_ok(objects.push(object), value),
{
}

/// A chunk that is in order stays in order when an object is added.
pub proof fn lemma_chunk_stays_ok(objects: Seq<ObjectView>, object: ObjectView, chunk: ChunkView)
    requires
        chunk_ok(objects, chunk),
    ensures
        chunk_ok(objects.push(object), chunk),
{
    assert forall|k: int| 0 <= k < chunk.constants.len() implies constant_ok(
        objects.push(object),
        #[trigger] chunk.constants[k],
    ) by {
        lemma_constant_stays_ok(objects, object, chunk.constants[k]);
    }
}

/// The invariant of a compilation survives a new object that is in order and
/// that repeats nothing.
pub proof fn lemma_inv_grows(state: CompilerView, object: ObjectView)
    requires
        state.inv(),
        object_ok(state.objects.push(object), object),
        object matches ObjectView::FunctionProto(proto) ==> proto.chunk.pool_distinct(),
        object is StringData ==> forall|h: int|
            0 <= h < state.objects.len() ==> #[trigger] state.objects[h] != object,
    ensures
        state.grow(object).inv(),
{
    let grown = state.objects.push(object);
    assert forall|h: int| 0 <= h < grown.len() implies object_ok(grown, #[trigger] grown[h]) by {
        if h < state.objects.len() {
            assert(object_ok(state.objects, state.objects[h]));
            if let ObjectView::FunctionProto(proto) = state.objects[h] {
                lemma_chunk_stays_ok(state.objects, object, proto.chunk);
            }
        }
    }
    lemma_chunk_stays_ok(state.objects, object, state.current.chunk);
    assert forall|i: int| 0 <= i < state.enclosing.len() implies (#[trigger] state.enclosing[i]).inv(
        grown,
    ) by {
        lemma_chunk_stays_ok(state.objects, object, state.enclosing[i].chunk);
    }
}

impl FunctionState {
    /// A state for a function of this name and arity, with nothing compiled yet.
    pub fn new(name: String, arity: usize) -> (state: FunctionState)
        ensures
            state@ == FunctionView::fresh(name@, arity),
    {
        let state = FunctionState {
            name,
            arity,
            chunk: Chunk::new(),
            locals: Vec::new(),
            scopes: Vec::new(),
            captures: Vec::new(),
            loops: Vec::new(),
        };
        assert(state@.loops =~= Seq::<LoopView>::empty());
        state
    }

    /// The innermost local of this name.
    pub fn resolve_local(&self, name: &String) -> (found: Option<usize>)
        ensures
            match found {
                Some(i) => self@.resolve_local(name@) == Some(i as int),
                None => self@.resolve_local(name@) is None,
            },
    {
        let mut i: usize = self.locals.len();
        while i > 0
            invariant
                i <= self.locals.len(),
                forall|j: int| i <= j < self.locals.len() ==> self.locals[j].name@ != name@,
            decreases i,
        {
            i = i - 1;
            if self.locals[i].name == *name {
                assert(innermost_at(self@.locals, name@, i as int));
                let ghost chosen = self@.resolve_local(name@).unwrap();
                assert(innermost_at(self@.locals, name@, chosen));
                return Some(i);
            }
        }
        None
    }

    /// The index of a capture among the captures of the function.
    pub fn add_capture(&mut self, capture: Capture, line: u32) -> (result: Result<
        usize,
        CompileError,
    >)
        requires
            old(self)@.captures.len() <= MAX_CAPTURES,
        ensures
            match old(self)@.add_capture(capture, line) {
                Ok((after, index)) => result == Ok::<usize, CompileError>(index) && final(self)@
                    == after,
                Err(error) => result == Err::<usize, CompileError>(error) && final(self)@ == old(
                    self,
                )@,
            },
    {
        let mut i: usize = 0;
        while i < self.captures.len()
            invariant
                *self == *old(self),
                i <= self.captures.len(),
                forall|j: int| 0 <= j < i ==> self.captures[j] != capture,
            decreases self.captures.len() - i,
        {
            if self.captures[i] == capture {
                assert(captured_at(self@.captures, capture, i as int));
                let ghost chosen = choose|c: int| captured_at(self@.captures, capture, c);
                assert(captured_at(self@.captures, capture, chosen));
                return Ok(i);
            }
            i = i + 1;
        }
        if self.captures.len() >= MAX_CAPTURES {
            return Err(CompileError::TooManyLocals { line });
        }
        self.captures.push(capture);
        Ok(i)
    }
}

impl Compiler {
    /// Append one instruction to the current function; returns its offset.
    pub fn emit(&mut self, instruction: Instruction, line: u32) -> (at: usize)
        requires
            old(self)@.inv(),
            old(self)@.current.emit(instruction, line).chunk.resolved(instruction),
        ensures
            final(self)@ == old(self)@.emit(instruction, line),
            final(self)@.inv(),
            at == old(self)@.current.here(),
    {
        let at: usize = self.current.chunk.code.len();
        self.current.chunk.code.push(instruction);
        self.current.chunk.lines.push(line);
        proof {
            let before = old(self)@.current.chunk;
            let after = self@.current.chunk;
            assert forall|i: int| 0 <= i < after.code.len() implies after.resolved(
                #[trigger] after.code[i],
            ) by {
                if i < before.code.len() {
                    assert(before.resolved(before.code[i]));
                }
            }
            assert(self@.enclosing =~= old(self)@.enclosing);
            assert(self@.current.loops =~= old(self)@.current.loops);
        }
        at
    }

    /// Append `count` instructions that each drop one value.
    pub fn emit_pops(&mut self, count: usize, line: u32)
        requires
            old(self)@.inv(),
        ensures
            final(self)@ == old(self)@.with(old(self)@.current.emit_pops(count as nat, line)),
            final(self)@.inv(),
    {
        let mut i: usize = 0;
        while i < count
            invariant
                i <= count,
                self@ == old(self)@.with(old(self)@.current.emit_pops(i as nat, line)),
                self@.inv(),
            decreases count - i,
        {
            self.emit(Instruction::Pop, line);
            proof {
                let start = old(self)@.current;
                assert(self@.current.chunk.code =~= start.emit_pops((i + 1) as nat, line).chunk.code);
                assert(self@.current.chunk.lines =~= start.emit_pops(
                    (i + 1) as nat,
                    line,
                ).chunk.lines);
            }
            i = i + 1;
        }
        proof {
            let start = old(self)@.current;
            if count == 0 {
                assert(start.emit_pops(0, line).chunk.code =~= start.chunk.code);
                assert(start.emit_pops(0, line).chunk.lines =~= start.chunk.lines);
            }
        }
    }

    /// The pool index of a constant in the current function.
    pub fn add_constant(&mut self, value: Value, line: u32) -> (result: Result<usize, CompileError>)
        requires
            old(self)@.inv(),
            constant_ok(old(self)@.objects, value),
        ensures
            final(self)@.inv(),
            match old(self)@.current.add_constant(value, line) {
                Ok((after, index)) => result == Ok::<usize, CompileError>(index) && final(self)@
                    == old(self)@.with(after) && index < after.chunk.constants.len()
                    && after.chunk.constants[index as int] == value,
                Err(error) => result == Err::<usize, CompileError>(error),
            },
    {
        let mut i: usize = 0;
        while i < self.current.chunk.constants.len()
            invariant
                *self == *old(self),
                self@.inv(),
                i <= self.current.chunk.constants.len(),
                forall|j: int| 0 <= j < i ==> self.current.chunk.constants[j] != value,
            decreases self.current.chunk.constants.len() - i,
        {
            if self.current.chunk.constants[i] == value {
                assert(first_at(self@.current.chunk.constants, value, i as int));
                let ghost chosen = position(self@.current.chunk.constants, value).unwrap();
                assert(first_at(self@.current.chunk.constants, value, chosen));
                return Ok(i);
            }
            i = i + 1;
        }
        if self.current.chunk.constants.len() >= MAX_CONSTANTS {
            return Err(CompileError::TooManyConstants { line });
        }
        self.current.chunk.constants.push(value);
        proof {
            let before = old(self)@.current.chunk;
            let after = self@.current.chunk;
            assert forall|k: int| 0 <= k < after.code.len() implies after.resolved(
                #[trigger] after.code[k],
            ) by {
                assert(before.resolved(before.code[k]));
            }
            assert forall|k: int| 0 <= k < after.constants.len() implies constant_ok(
                self@.objects,
                #[trigger] after.constants[k],
            ) by {
                if k < before.constants.len() {
                    assert(constant_ok(self@.objects, before.constants[k]));
                }
            }
            assert(self@.enclosing =~= old(self)@.enclosing);
            assert(self@.current.loops =~= old(self)@.current.loops);
        }
        Ok(i)
    }

    /// The handle of a string among the objects.
    pub fn intern(&mut self, content: &String) -> (handle: usize)
        requires
            old(self)@.inv(),
        ensures
            (final(self)@, handle) == old(self)@.intern(content@),
            final(self)@.inv(),
            constant_ok(final(self)@.objects, Value::Str(handle)),
    {
        let mut i: usize = 0;
        while i < self.objects.len()
            invariant
                *self == *old(self),
                self@.inv(),
                i <= self.objects.len(),
                forall|j: int|
                    0 <= j < i ==> (#[trigger] self@.objects[j]) != ObjectView::StringData(content@),
            decreases self.objects.len() - i,
        {
            let same = match &self.objects[i] {
                HeapObject::StringData(s) => *s == *content,
                _ => false,
            };
            if same {
                assert(interned_at(self@.objects, content@, i as int));
                let ghost chosen = choose|c: int| interned_at(self@.objects, content@, c);
                assert(interned_at(self@.objects, content@, chosen));
                return i;
            }
            assert(self@.objects[i as int] != ObjectView::StringData(content@));
            i = i + 1;
        }
        self.objects.push(HeapObject::StringData(content.clone()));
        proof {
            let object = ObjectView::StringData(content@);
            assert forall|h: int| 0 <= h < old(self)@.objects.len() implies (
            #[trigger] old(self)@.objects[h]) != object by {
                assert(self@.objects[h] != object);
            }
            assert(self@.objects =~= old(self)@.objects.push(object));
            assert(self@.enclosing =~= old(self)@.enclosing);
            lemma_inv_grows(old(self)@, object);
        }
        i
    }

    /// Declare a local in the innermost scope of the current function.
    pub fn declare(&mut self, name: &String, line: u32) -> (result: Result<(), CompileError>)
        requires
            old(self)@.inv(),
        ensures
            final(self)@.inv(),
            match old(self)@.current.declare(*name, line) {
                Ok(after) => result is Ok && final(self)@ == old(self)@.with(after),
                Err(error) => result == Err::<(), CompileError>(error),
            },
    {
        let scopes: usize = self.current.scopes.len();
        let start: usize = if scopes == 0 {
            0
        } else {
            self.current.scopes[scopes - 1]
        };
        assert(start <= self.current.locals.len()) by {
            if scopes > 0 {
                assert(self@.current.scopes[scopes - 1] <= self@.current.locals.len());
            }
        }
        let mut i: usize = start;
        while i < self.current.locals.len()
            invariant
                *self == *old(self),
                self@.inv(),
                scopes == self.current.scopes.len(),
                start == self@.current.scope_start(),
                start <= i <= self.current.locals.len(),
                forall|j: int| start <= j < i ==> self.current.locals[j].name@ != name@,
            decreases self.current.locals.len() - i,
        {
            if self.current.locals[i].name == *name {
                assert(self@.current.locals[i as int].name@ == name@);
                assert(self@.current.declares(name@));
                return Err(
                    CompileError::DuplicateDeclaration { name: name.clone(), scope: scopes, line },
                );
            }
            i = i + 1;
        }
        if self.current.locals.len() >= MAX_LOCALS {
            return Err(CompileError::TooManyLocals { line });
        }
        let slot: usize = self.current.locals.len();
        self.current.locals.push(Local { name: name.clone(), depth: scopes, slot });
        proof {
            lemma_declare_keeps_layout(old(self)@.current, *name, line);
            assert(self@.enclosing =~= old(self)@.enclosing);
            assert(self@.current.loops =~= old(self)@.current.loops);
        }
        Ok(())
    }

    /// Open a scope in the current function.
    pub fn begin_scope(&mut self)
        requires
            old(self)@.inv(),
        ensures
            final(self)@ == old(self)@.with(old(self)@.current.begin_scope()),
            final(self)@.inv(),
    {
        let mark: usize = self.current.locals.len();
        self.current.scopes.push(mark);
        proof {
            assert(self.current.scopes.len() == old(self)@.current.scopes.len() + 1);
            lemma_begin_scope_keeps_layout(old(self)@.current);
            assert(self@.enclosing =~= old(self)@.enclosing);
            assert(self@.current.loops =~= old(self)@.current.loops);
        }
    }

    /// Close the innermost scope of the current function.
    pub fn end_scope(&mut self, line: u32)
        requires
            old(self)@.inv(),
        ensures
            final(self)@ == old(self)@.with(old(self)@.current.end_scope(line)),
            final(self)@.inv(),
    {
        let scopes: usize = self.current.scopes.len();
        if scopes == 0 {
            return ;
        }
        let start: usize = self.current.scopes[scopes - 1];
        assert(self@.current.scopes[scopes - 1] <= self@.current.locals.len());
        let count: usize = self.current.locals.len() - start;
        self.emit_pops(count, line);
        self.current.locals.truncate(start);
        self.current.scopes.pop();
        proof {
            lemma_end_scope_keeps_layout(old(self)@.current, line);
            assert(self@.enclosing =~= old(self)@.enclosing);
            assert(self@.current.loops =~= old(self)@.current.loops);
            assert(self@.current.locals =~= old(self)@.current.locals.take(start as int));
            assert(self@.current == old(self)@.current.end_scope(line));
        }
    }

    /// Open a loop in the current function; it starts at the next instruction.
    pub fn begin_loop(&mut self)
        requires
            old(self)@.inv(),
        ensures
            final(self)@ == old(self)@.with(old(self)@.current.begin_loop()),
            final(self)@.inv(),
    {
        let entered = LoopScope {
            start: self.current.chunk.code.len(),
            locals: self.current.locals.len(),
            exits: Vec::new(),
        };
        self.current.loops.push(entered);
        proof {
            assert(self@.current.locals == old(self)@.current.locals);
            assert(self@.current.scopes == old(self)@.current.scopes);
            assert(old(self)@.current.scoped());
            assert(self@.enclosing =~= old(self)@.enclosing);
            assert(self@.current.loops =~= old(self)@.current.loops.push(entered@));
            assert forall|i: int, j: int|
                0 <= i < self@.current.loops.len() && 0 <= j < self@.current.loops[i].exits.len() implies (
            #[trigger] self@.current.loops[i].exits[j]) < self@.current.chunk.code.len() by {
                assert(old(self)@.current.loops[i].exits[j] < self@.current.chunk.code.len());
            }
        }
    }

    /// Note that the jump at `site` leaves the innermost loop.
    fn add_exit(&mut self, site: usize)
        requires
            old(self)@.inv(),
            old(self)@.current.loops.len() > 0,
            site < old(self)@.current.chunk.code.len(),
        ensures
            final(self)@ == old(self)@.with(old(self)@.current.add_exit(site)),
            final(self)@.inv(),
    {
        let mut innermost = self.current.loops.pop().unwrap();
        let ghost before = innermost@;
        innermost.exits.push(site);
        self.current.loops.push(innermost);
        proof {
            assert(self@.enclosing =~= old(self)@.enclosing);
            assert(self@.current.loops =~= old(self)@.current.add_exit(site).loops);
            assert forall|i: int, j: int|
                0 <= i < self@.current.loops.len() && 0 <= j < self@.current.loops[i].exits.len() implies (
            #[trigger] self@.current.loops[i].exits[j]) < self@.current.chunk.code.len() by {
                if i < self@.current.loops.len() - 1 || j < before.exits.len() {
                    assert(old(self)@.current.loops[i].exits[j] < self@.current.chunk.code.len());
                }
            }
            assert forall|i: int| 0 <= i < self@.current.loops.len() implies (
            #[trigger] self@.current.loops[i]).start <= self@.current.chunk.code.len() by {
                assert(old(self)@.current.loops[i].start <= self@.current.chunk.code.len());
            }
        }
    }

    /// The number of locals that a jump out of the innermost loop has to drop.
    fn loop_locals(&self) -> (count: usize)
        requires
            self.current.loops.len() > 0,
        ensures
            count == self@.current.loop_locals(),
    {
        let entered: usize = self.current.loops[self.current.loops.len() - 1].locals;
        if entered <= self.current.locals.len() {
            self.current.locals.len() - entered
        } else {
            0
        }
    }

    /// Leave the innermost loop from here: a `break`.
    pub fn leave_loop(&mut self, line: u32) -> (result: Result<(), CompileError>)
        requires
            old(self)@.inv(),
        ensures
            final(self)@.inv(),
            match old(self)@.leave_loop(line) {
                Ok(after) => result is Ok && final(self)@ == after,
                Err(error) => result == Err::<(), CompileError>(error),
            },
    {
        if self.current.loops.len() == 0 {
            return Err(CompileError::InvalidControlFlow { line });
        }
        let count = self.loop_locals();
        self.emit_pops(count, line);
        let site = self.emit(Instruction::Jump(0), line);
        self.add_exit(site);
        Ok(())
    }

    /// Go back to the start of the innermost loop from here: a `continue`.
    pub fn repeat_loop(&mut self, line: u32) -> (result: Result<(), CompileError>)
        requires
            old(self)@.inv(),
        ensures
            final(self)@.inv(),
            match old(self)@.repeat_loop(line) {
                Ok(after) => result is Ok && final(self)@ == after,
                Err(error) => result == Err::<(), CompileError>(error),
            },
    {
        if self.current.loops.len() == 0 {
            return Err(CompileError::InvalidControlFlow { line });
        }
        let count = self.loop_locals();
        let start: usize = self.current.loops[self.current.loops.len() - 1].start;
        assert(old(self)@.current.loops[old(self)@.current.loops.len() - 1].start == start);
        self.emit_pops(count, line);
        self.emit(Instruction::Jump(start), line);
        Ok(())
    }

    /// Close the innermost loop: every jump that leaves it is pointed at the
    /// offset of the next instruction.
    pub fn end_loop(&mut self)
        requires
            old(self)@.inv(),
            old(self)@.current.loops.len() > 0,
        ensures
            final(self)@ == old(self)@.with(old(self)@.current.end_loop()),
            final(self)@.inv(),
    {
        let innermost = self.current.loops.pop().unwrap();
        let target: usize = self.current.chunk.code.len();
        let ghost unpatched = old(self)@.current.chunk;
        proof {
            let last = old(self)@.current.loops.len() - 1;
            assert(innermost@ == old(self)@.current.loops[last]);
            assert forall|k: int| 0 <= k < innermost.exits.len() implies innermost.exits[k]
                < target by {
                assert(old(self)@.current.loops[last].exits[k] < target);
            }
        }
        let mut j: usize = 0;
        while j < innermost.exits.len()
            invariant
                j <= innermost.exits.len(),
                self.enclosing == old(self).enclosing,
                self.objects == old(self).objects,
                self.current.name == old(self).current.name,
                self.current.arity == old(self).current.arity,
                self.current.locals == old(self).current.locals,
                self.current.scopes == old(self).current.scopes,
                self.current.captures == old(self).current.captures,
                old(self).current.loops.len() > 0,
                self.current.loops@ == old(self).current.loops@.drop_last(),
                self.current.chunk.constants == old(self).current.chunk.constants,
                self.current.chunk.lines == old(self).current.chunk.lines,
                self.current.chunk.code.len() == unpatched.code.len(),
                target == unpatched.code.len(),
                forall|k: int| 0 <= k < innermost.exits.len() ==> innermost.exits[k] < target,
                forall|i: int|
                    0 <= i < unpatched.code.len() ==> #[trigger] self.current.chunk.code[i] == (
                    if innermost.exits@.take(j as int).contains(i as usize) {
                        retarget(unpatched.code[i], target)
                    } else {
                        unpatched.code[i]
                    }),
            decreases innermost.exits.len() - j,
        {
            let site: usize = innermost.exits[j];
            let patched = match self.current.chunk.code[site] {
                Instruction::Jump(_) => Instruction::Jump(target),
                Instruction::JumpIfFalse(_) => Instruction::JumpIfFalse(target),
                other => other,
            };
            let ghost done = innermost.exits@.take(j as int);
            let ghost next = innermost.exits@.take(j + 1);
            self.current.chunk.code.set(site, patched);
            proof {
                assert(next =~= done.push(site));
                assert forall|i: int| 0 <= i < unpatched.code.len() implies #[trigger]
                    self.current.chunk.code[i] == (if next.contains(i as usize) {
                    retarget(unpatched.code[i], target)
                } else {
                    unpatched.code[i]
                }) by {
                    if i == site {
                        assert(next[j as int] == site);
                    } else {
                        if next.contains(i as usize) {
                            let k = choose|k: int| 0 <= k < next.len() && next[k] == i as usize;
                            assert(done[k] == i as usize);
                        }
                        if done.contains(i as usize) {
                            let k = choose|k: int| 0 <= k < done.len() && done[k] == i as usize;
                            assert(next[k] == i as usize);
                        }
                    }
                }
            }
            j = j + 1;
        }
        proof {
            let goal = old(self)@.current.end_loop();
            assert(innermost.exits@.take(innermost.exits.len() as int) =~= innermost.exits@);
            assert(self@.current.chunk.code =~= goal.chunk.code);
            assert(self@.current.loops =~= goal.loops);
            assert(self@.enclosing =~= old(self)@.enclosing);
            let after = self@.current.chunk;
            assert forall|i: int| 0 <= i < after.code.len() implies after.resolved(
                #[trigger] after.code[i],
            ) by {
                assert(unpatched.resolved(unpatched.code[i]));
            }
            assert forall|i: int| 0 <= i < self@.current.loops.len() implies (
            #[trigger] self@.current.loops[i]).start <= self@.current.chunk.code.len() by {
                assert(old(self)@.current.loops[i].start <= unpatched.code.len());
            }
            assert forall|i: int, k: int|
                0 <= i < self@.current.loops.len() && 0 <= k < self@.current.loops[i].exits.len() implies (
            #[trigger] self@.current.loops[i].exits[k]) < self@.current.chunk.code.len() by {
                assert(old(self)@.current.loops[i].exits[k] < unpatched.code.len());
            }
        }
    }

    /// Add a capture to the function at a level of the chain.
    fn capture_in(&mut self, level: usize, capture: Capture, line: u32) -> (result: Result<
        Option<usize>,
        CompileError,
    >)
        requires
            old(self)@.inv(),
            level <= old(self).enclosing.len(),
        ensures
            final(self)@.inv(),
            balanced(old(self)@, final(self)@),
            match old(self)@.capture_in(level as int, capture, line) {
                Ok((after, index)) => result == Ok::<Option<usize>, CompileError>(index)
                    && final(self)@ == after,
                Err(error) => result == Err::<Option<usize>, CompileError>(error),
            },
    {
        if level == self.enclosing.len() {
            match self.current.add_capture(capture, line) {
                Ok(index) => {
                    proof {
                        assert(self@.enclosing =~= old(self)@.enclosing);
                        assert(self@.current.loops =~= old(self)@.current.loops);
                    }
                    Ok(Some(index))
                },
                Err(error) => Err(error),
            }
        } else {
            assert(old(self)@.enclosing[level as int].inv(old(self)@.objects));
            match self.enclosing[level].add_capture(capture, line) {
                Ok(index) => {
                    proof {
                        let after = self.enclosing[level as int]@;
                        assert(self@.enclosing =~= old(self)@.enclosing.update(level as int, after));
                        assert forall|i: int| 0 <= i < self@.enclosing.len() implies (
                        #[trigger] self@.enclosing[i]).inv(self@.objects) by {
                            if i != level {
                                assert(old(self)@.enclosing[i].inv(self@.objects));
                            }
                        }
                    }
                    Ok(Some(index))
                },
                Err(error) => {
                    proof {
                        assert forall|i: int| 0 <= i < self@.enclosing.len() implies (
                        #[trigger] self@.enclosing[i]).inv(self@.objects) by {
                            if i != level {
                                assert(old(self)@.enclosing[i].inv(self@.objects));
                            }
                        }
                    }
                    Err(error)
                },
            }
        }
    }

    /// Find a name among the variables of the functions that enclose the one at
    /// `level`, and thread it inwards as a capture.
    fn capture(&mut self, level: usize, name: &String, line: u32) -> (result: Result<
        Option<usize>,
        CompileError,
    >)
        requires
            old(self)@.inv(),
            level <= old(self).enclosing.len(),
        ensures
            final(self)@.inv(),
            balanced(old(self)@, final(self)@),
            match old(self)@.capture(level as nat, name@, line) {
                Ok((after, index)) => result == Ok::<Option<usize>, CompileError>(index)
                    && final(self)@ == after,
                Err(error) => result == Err::<Option<usize>, CompileError>(error),
            },
        decreases level,
    {
        if level == 0 {
            return Ok(None);
        }
        match self.enclosing[level - 1].resolve_local(name) {
            Some(i) => {
                let slot: usize = self.enclosing[level - 1].locals[i].slot;
                self.capture_in(level, Capture { from_local: true, index: slot }, line)
            },
            None => match self.capture(level - 1, name, line) {
                Err(error) => Err(error),
                Ok(None) => Ok(None),
                Ok(Some(index)) => self.capture_in(
                    level,
                    Capture { from_local: false, index },
                    line,
                ),
            },
        }
    }

    /// Read a variable: emits the instruction that pushes its value.
    pub fn load(&mut self, name: &String, line: u32) -> (result: Result<(), CompileError>)
        requires
            old(self)@.inv(),
        ensures
            final(self)@.inv(),
            balanced(old(self)@, final(self)@),
            match old(self)@.load(*name, line) {
                Ok(after) => result is Ok && final(self)@ == after,
                Err(error) => result == Err::<(), CompileError>(error),
            },
    {
        match self.current.resolve_local(name) {
            Some(i) => {
                let slot: usize = self.current.locals[i].slot;
                self.emit(Instruction::GetLocal(slot), line);
                Ok(())
            },
            None => {
                let level: usize = self.enclosing.len();
                match self.capture(level, name, line) {
                    Err(error) => Err(error),
                    Ok(Some(index)) => {
                        self.emit(Instruction::GetUpvalue(index), line);
                        Ok(())
                    },
                    Ok(None) => Err(CompileError::UndefinedName { name: name.clone(), line }),
                }
            },
        }
    }

    /// Write a variable: emits the instruction that pops a value into it.
    pub fn store(&mut self, name: &String, line: u32) -> (result: Result<(), CompileError>)
        requires
            old(self)@.inv(),
        ensures
            final(self)@.inv(),
            balanced(old(self)@, final(self)@),
            match old(self)@.store(*name, line) {
                Ok(after) => result is Ok && final(self)@ == after,
                Err(error) => result == Err::<(), CompileError>(error),
            },
    {
        match self.current.resolve_local(name) {
            Some(i) => {
                let slot: usize = self.current.locals[i].slot;
                self.emit(Instruction::SetLocal(slot), line);
                Ok(())
            },
            None => {
                let level: usize = self.enclosing.len();
                match self.capture(level, name, line) {
                    Err(error) => Err(error),
                    Ok(Some(index)) => {
                        self.emit(Instruction::SetUpvalue(index), line);
                        Ok(())
                    },
                    Ok(None) => Err(CompileError::UndefinedName { name: name.clone(), line }),
                }
            },
        }
    }

    /// A compiler that has compiled nothing yet.
    pub fn new() -> (compiler: Compiler)
        ensures
            compiler@ == CompilerView::initial(),
            compiler@.inv(),
    {
        let compiler = Compiler {
            enclosing: Vec::new(),
            current: FunctionState::new(String::new(), 0),
            objects: Vec::new(),
        };
        assert(compiler@.enclosing =~= Seq::<FunctionView>::empty());
        assert(compiler@.objects =~= Seq::<ObjectView>::empty());
        compiler
    }

    /// Push a constant: an entry of the pool and the instruction that loads it.
    pub fn constant(&mut self, value: Value, line: u32) -> (result: Result<(), CompileError>)
        requires
            old(self)@.inv(),
            constant_ok(old(self)@.objects, value),
        ensures
            agrees(result, old(self)@, final(self)@, old(self)@.constant(value, line)),
    {
        match self.add_constant(value, line) {
            Ok(index) => {
                self.emit(Instruction::Constant(index), line);
                Ok(())
            },
            Err(error) => Err(error),
        }
    }

    /// Point the jump at `site` at `target`.
    pub fn patch(&mut self, site: usize, target: usize)
        requires
            old(self)@.inv(),
            site < old(self)@.current.chunk.code.len(),
            target <= old(self)@.current.chunk.code.len(),
        ensures
            final(self)@ == old(self)@.patch(site, target),
            final(self)@.inv(),
    {
        let patched = match self.current.chunk.code[site] {
            Instruction::Jump(_) => Instruction::Jump(target),
            Instruction::JumpIfFalse(_) => Instruction::JumpIfFalse(target),
            other => other,
        };
        self.current.chunk.code.set(site, patched);
        proof {
            let before = old(self)@.current.chunk;
            let after = self@.current.chunk;
            let sites = seq![site];
            assert(sites[0] == site);
            assert forall|x: usize| #[trigger] sites.contains(x) implies x == site by {
                let k = choose|k: int| 0 <= k < sites.len() && sites[k] == x;
                assert(sites[k] == site);
            }
            let goal = old(self)@.patch(site, target).current.chunk.code;
            assert(sites.contains(site));
            assert forall|i: int| 0 <= i < after.code.len() implies after.code[i] == goal[i] by {
                assert(i < self.current.chunk.code.len());
                if i != site {
                    assert(!sites.contains(i as usize));
                }
            }
            assert(after.code =~= goal);
            assert forall|i: int| 0 <= i < after.code.len() implies after.resolved(
                #[trigger] after.code[i],
            ) by {
                assert(before.resolved(before.code[i]));
            }
            assert(self@.enclosing =~= old(self)@.enclosing);
            assert(self@.current.loops =~= old(self)@.current.loops);
        }
    }

    /// Start a function of this name and arity.
    pub fn begin_function(&mut self, name: &String, arity: usize)
        requires
            old(self)@.inv(),
        ensures
            final(self)@ == old(self)@.begin_function(*name, arity),
            final(self)@.inv(),
    {
        let mut fresh = FunctionState::new(name.clone(), arity);
        fresh.locals.push(Local { name: name.clone(), depth: 0, slot: 0 });
        fresh.scopes.push(1);
        core::mem::swap(&mut self.current, &mut fresh);
        self.enclosing.push(fresh);
        proof {
            let goal = old(self)@.begin_function(*name, arity);
            assert(self@.enclosing =~= goal.enclosing);
            assert(self@.current.locals =~= goal.current.locals);
            assert(self@.current.scopes =~= goal.current.scopes);
            assert(self@.current.loops =~= goal.current.loops);
            assert forall|i: int| 0 <= i < self@.enclosing.len() implies (
            #[trigger] self@.enclosing[i]).inv(self@.objects) by {
                if i < old(self)@.enclosing.len() {
                    assert(old(self)@.enclosing[i].inv(self@.objects));
                }
            }
        }
    }

    /// Declare the parameters of the current function.
    pub fn declare_all(&mut self, names: &Vec<String>, line: u32) -> (result: Result<
        (),
        CompileError,
    >)
        requires
            old(self)@.inv(),
        ensures
            agrees(result, old(self)@, final(self)@, old(self)@.declare_all(names@, 0, line)),
    {
        let mut i: usize = 0;
        while i < names.len()
            invariant
                i <= names.len(),
                self@.inv(),
                balanced(old(self)@, self@),
                old(self)@.declare_all(names@, 0, line) == self@.declare_all(names@, i as nat, line),
            decreases names.len() - i,
        {
            match self.declare(&names[i], line) {
                Ok(()) => {},
                Err(error) => {
                    return Err(error);
                },
            }
            i = i + 1;
        }
        Ok(())
    }

    /// Finish the current function and push it in the enclosing one.
    pub fn end_function(&mut self, line: u32) -> (result: Result<(), CompileError>)
        requires
            old(self)@.inv(),
            old(self)@.enclosing.len() > 0,
        ensures
            match old(self)@.end_function(line) {
                Ok(expected) => result is Ok && final(self)@ == expected && final(self)@.inv(),
                Err(error) => result == Err::<(), CompileError>(error),
            },
    {
        self.emit(Instruction::Unit, line);
        self.emit(Instruction::Return, line);
        let ghost finished = self@;
        let mut done = self.enclosing.pop().unwrap();
        core::mem::swap(&mut self.current, &mut done);
        let bare: bool = done.captures.len() == 0;
        let handle: usize = self.objects.len();
        let proto = FunctionProto {
            name: done.name,
            arity: done.arity,
            captures: done.captures,
            chunk: done.chunk,
        };
        let object = HeapObject::FunctionProto(proto);
        proof {
            let left = self@;
            assert(left.enclosing =~= finished.enclosing.drop_last());
            assert(left.current == finished.enclosing.last());
            assert(left.current.inv(left.objects)) by {
                assert(finished.enclosing[finished.enclosing.len() - 1].inv(finished.objects));
            }
            assert forall|i: int| 0 <= i < left.enclosing.len() implies (
            #[trigger] left.enclosing[i]).inv(left.objects) by {
                assert(finished.enclosing[i].inv(finished.objects));
            }
            lemma_chunk_stays_ok(left.objects, object@, finished.current.chunk);
            lemma_inv_grows(left, object@);
        }
        let ghost left = self@;
        self.objects.push(object);
        proof {
            assert(self@.objects =~= left.objects.push(object@));
            assert(self@.enclosing =~= left.enclosing);
            assert(self@ == left.grow(object@));
        }
        match self.add_constant(Value::Function(handle), line) {
            Ok(index) => {
                self.emit(
                    if bare {
                        Instruction::Constant(index)
                    } else {
                        Instruction::Closure(index)
                    },
                    line,
                );
                Ok(())
            },
            Err(error) => Err(error),
        }
    }

    /// Compile an expression.
    pub fn compile_expr(&mut self, expr: &Expr) -> (result: Result<(), CompileError>)
        requires
            old(self)@.inv(),
        ensures
            agrees(result, old(self)@, final(self)@, compile_expr(old(self)@, expr)),
        decreases expr, 0nat,
    {
        match &expr.kind {
            ExprKind::Unit => {
                self.emit(Instruction::Unit, expr.line);
                Ok(())
            },
            ExprKind::Bool(b) => {
                self.emit(
                    if *b {
                        Instruction::True
                    } else {
                        Instruction::False
                    },
                    expr.line,
                );
                Ok(())
            },
            ExprKind::Int(i) => self.constant(Value::Int(*i), expr.line),
            ExprKind::Float(bits) => self.constant(Value::Float(*bits), expr.line),
            ExprKind::Str(s) => {
                let handle = self.intern(s);
                self.constant(Value::Str(handle), expr.line)
            },
            ExprKind::Var(name) => self.load(name, expr.line),
            ExprKind::Unary(op, operand) => {
                match self.compile_expr(operand) {
                    Ok(()) => {},
                    Err(error) => {
                        return Err(error);
                    },
                }
                self.emit(select_unary(*op, operand.ty), expr.line);
                Ok(())
            },
            ExprKind::Binary(op, lhs, rhs) => {
                match self.compile_expr(lhs) {
                    Ok(()) => {},
                    Err(error) => {
                        return Err(error);
                    },
                }
                match self.compile_expr(rhs) {
                    Ok(()) => {},
                    Err(error) => {
                        return Err(error);
                    },
                }
                self.emit(select_binary(*op, lhs.ty), expr.line);
                Ok(())
            },
            ExprKind::Call(callee, args) => {
                match self.compile_expr(callee) {
                    Ok(()) => {},
                    Err(error) => {
                        return Err(error);
                    },
                }
                match self.compile_exprs(args) {
                    Ok(()) => {},
                    Err(error) => {
                        return Err(error);
                    },
                }
                self.emit(Instruction::Call(args.len()), expr.line);
                Ok(())
            },
            ExprKind::Lambda(function) => self.compile_function(function),
            ExprKind::Aggregate(fields) => {
                match self.compile_exprs(fields) {
                    Ok(()) => {},
                    Err(error) => {
                        return Err(error);
                    },
                }
                self.emit(Instruction::NewStruct(fields.len()), expr.line);
                Ok(())
            },
            ExprKind::Index(target, index) => {
                match self.compile_expr(target) {
                    Ok(()) => {},
                    Err(error) => {
                        return Err(error);
                    },
                }
                match self.compile_expr(index) {
                    Ok(()) => {},
                    Err(error) => {
                        return Err(error);
                    },
                }
                self.emit(Instruction::Index, expr.line);
                Ok(())
            },
        }
    }

    /// Compile expressions in order.
    pub fn compile_exprs(&mut self, exprs: &Vec<Expr>) -> (result: Result<(), CompileError>)
        requires
            old(self)@.inv(),
        ensures
            agrees(result, old(self)@, final(self)@, compile_exprs(old(self)@, exprs@, 0)),
        decreases exprs, 0nat,
    {
        let mut i: usize = 0;
        while i < exprs.len()
            invariant
                i <= exprs.len(),
                self@.inv(),
                balanced(old(self)@, self@),
                compile_exprs(old(self)@, exprs@, 0) == compile_exprs(self@, exprs@, i as nat),
            decreases exprs.len() - i,
        {
            match self.compile_expr(&exprs[i]) {
                Ok(()) => {},
                Err(error) => {
                    return Err(error);
                },
            }
            i = i + 1;
        }
        Ok(())
    }

    /// Compile a function into a chunk of its own.
    pub fn compile_function(&mut self, function: &Function) -> (result: Result<(), CompileError>)
        requires
            old(self)@.inv(),
        ensures
            agrees(result, old(self)@, final(self)@, compile_function(old(self)@, function)),
        decreases function, 0nat,
    {
        self.begin_function(&function.name, function.params.len());
        match self.declare_all(&function.params, function.line) {
            Ok(()) => {},
            Err(error) => {
                return Err(error);
            },
        }
        self.begin_scope();
        match self.compile_stmts(&function.body) {
            Ok(()) => {},
            Err(error) => {
                return Err(error);
            },
        }
        self.end_function(function.line)
    }

    /// Compile statements in a scope of their own.
    pub fn compile_block(&mut self, body: &Vec<Stmt>, line: u32) -> (result: Result<
        (),
        CompileError,
    >)
        requires
            old(self)@.inv(),
        ensures
            agrees(result, old(self)@, final(self)@, compile_block(old(self)@, body, line)),
        decreases body, 1nat,
    {
        self.begin_scope();
        match self.compile_stmts(body) {
            Ok(()) => {},
            Err(error) => {
                return Err(error);
            },
        }
        self.end_scope(line);
        Ok(())
    }

    /// Compile a statement.
    pub fn compile_stmt(&mut self, stmt: &Stmt) -> (result: Result<(), CompileError>)
        requires
            old(self)@.inv(),
        ensures
            agrees(result, old(self)@, final(self)@, compile_stmt(old(self)@, stmt)),
        decreases stmt, 1nat,
    {
        match stmt {
            Stmt::Let { name, init, line } => {
                match self.compile_expr(init) {
                    Ok(()) => {},
                    Err(error) => {
                        return Err(error);
                    },
                }
                self.declare(name, *line)
            },
            Stmt::Assign { name, value, line } => {
                match self.compile_expr(value) {
                    Ok(()) => {},
                    Err(error) => {
                        return Err(error);
                    },
                }
                self.store(name, *line)
            },
            Stmt::Expr(expr) => {
                match self.compile_expr(expr) {
                    Ok(()) => {},
                    Err(error) => {
                        return Err(error);
                    },
                }
                self.emit(Instruction::Pop, expr.line);
                Ok(())
            },
            Stmt::If { .. } => self.compile_if(stmt),
            Stmt::While { .. } => self.compile_while(stmt),
            Stmt::Break { line } => self.leave_loop(*line),
            Stmt::Continue { line } => self.repeat_loop(*line),
            Stmt::Return { result, line } => {
                match result {
                    Some(expr) => {
                        match self.compile_expr(expr) {
                            Ok(()) => {},
                            Err(error) => {
                                return Err(error);
                            },
                        }
                    },
                    None => {
                        self.emit(Instruction::Unit, *line);
                    },
                }
                self.emit(Instruction::Return, *line);
                Ok(())
            },
            Stmt::Block { body, line } => self.compile_block(body, *line),
            Stmt::Fn(function) => {
                match self.compile_function(function) {
                    Ok(()) => {},
                    Err(error) => {
                        return Err(error);
                    },
                }
                self.declare(&function.name, function.line)
            },
        }
    }

    /// Compile a conditional: a jump over the first branch where the condition is
    /// false, and a jump over the second branch at the end of the first.
    fn compile_if(&mut self, stmt: &Stmt) -> (result: Result<(), CompileError>)
        requires
            old(self)@.inv(),
            stmt is If,
        ensures
            agrees(result, old(self)@, final(self)@, compile_stmt(old(self)@, stmt)),
        decreases stmt, 0nat,
    {
        match stmt {
            Stmt::If { cond, consequent, alternative, line } => {
                let ghost start = self@;
                match self.compile_expr(cond) {
                    Ok(()) => {},
                    Err(error) => {
                        return Err(error);
                    },
                }
                let ghost tested = self@;
                assert(compile_expr(start, cond) == Ok::<CompilerView, CompileError>(tested));
                let test: usize = self.emit(Instruction::JumpIfFalse(0), *line);
                let ghost branching = self@;
                match self.compile_block(consequent, *line) {
                    Ok(()) => {},
                    Err(error) => {
                        return Err(error);
                    },
                }
                let ghost first = self@;
                assert(compile_block(branching, consequent, *line) == Ok::<
                    CompilerView,
                    CompileError,
                >(first));
                let skip: usize = self.emit(Instruction::Jump(0), *line);
                let ghost skipped = self@;
                let here: usize = self.current.chunk.code.len();
                assert(test < here);
                self.patch(test, here);
                let ghost joined = self@;
                assert(joined == skipped.patch(tested.current.here(), skipped.current.here()));
                match self.compile_block(alternative, *line) {
                    Ok(()) => {},
                    Err(error) => {
                        return Err(error);
                    },
                }
                let ghost second = self@;
                assert(compile_block(joined, alternative, *line) == Ok::<
                    CompilerView,
                    CompileError,
                >(second));
                let end: usize = self.current.chunk.code.len();
                assert(skip < end);
                self.patch(skip, end);
                assert(self@ == second.patch(first.current.here(), second.current.here()));
                assert(balanced(start, self@));
                Ok(())
            },
            // Not reached: the statement is of the kind that was asked for.
            _ => Ok(()),
        }
    }

    /// Compile a loop: the test, a jump out where it fails, the body, and a jump
    /// back to the test.  Every jump out is pointed at the instruction that
    /// follows the jump back.
    fn compile_while(&mut self, stmt: &Stmt) -> (result: Result<(), CompileError>)
        requires
            old(self)@.inv(),
            stmt is While,
        ensures
            agrees(result, old(self)@, final(self)@, compile_stmt(old(self)@, stmt)),
        decreases stmt, 0nat,
    {
        match stmt {
            Stmt::While { cond, body, line } => {
                self.begin_loop();
                match self.compile_expr(cond) {
                    Ok(()) => {},
                    Err(error) => {
                        return Err(error);
                    },
                }
                let test: usize = self.emit(Instruction::JumpIfFalse(0), *line);
                self.add_exit(test);
                match self.compile_block(body, *line) {
                    Ok(()) => {},
                    Err(error) => {
                        return Err(error);
                    },
                }
                let start: usize = self.current.loops[self.current.loops.len() - 1].start;
                assert(self@.current.loops[self@.current.loops.len() - 1].start == start);
                self.emit(Instruction::Jump(start), *line);
                self.end_loop();
                Ok(())
            },
            // Not reached: the statement is of the kind that was asked for.
            _ => Ok(()),
        }
    }

    /// Compile statements in order.
    pub fn compile_stmts(&mut self, stmts: &Vec<Stmt>) -> (result: Result<(), CompileError>)
        requires
            old(self)@.inv(),
        ensures
            agrees(result, old(self)@, final(self)@, compile_stmts(old(self)@, stmts@, 0)),
        decreases stmts, 0nat,
    {
        let mut i: usize = 0;
        while i < stmts.len()
            invariant
                i <= stmts.len(),
                self@.inv(),
                balanced(old(self)@, self@),
                compile_stmts(old(self)@, stmts@, 0) == compile_stmts(self@, stmts@, i as nat),
            decreases stmts.len() - i,
        {
            match self.compile_stmt(&stmts[i]) {
                Ok(()) => {},
                Err(error) => {
                    return Err(error);
                },
            }
            i = i + 1;
        }
        Ok(())
    }
}

/// The instruction for a unary operator on an operand of a given type.
pub fn select_unary(op: UnaryOp, ty: Ty) -> (instruction: Instruction)
    ensures
        instruction == unary_instruction(op, ty),
{
    match op {
        UnaryOp::Neg => match ty {
            Ty::Float => Instruction::FloatNegate,
            _ => Instruction::Negate,
        },
        UnaryOp::Not => Instruction::Not,
    }
}

/// The instruction for a binary operator on operands of a given type.
pub fn select_binary(op: BinaryOp, ty: Ty) -> (instruction: Instruction)
    ensures
        instruction == binary_instruction(op, ty),
{
    match op {
        BinaryOp::Arith(arith) => match ty {
            Ty::Float => Instruction::FloatArith(arith),
            _ => Instruction::IntArith(arith),
        },
        BinaryOp::Compare(relation) => match ty {
            Ty::Float => Instruction::FloatCompare(relation),
            Ty::Int => Instruction::IntCompare(relation),
            _ => match relation {
                Relation::Eq => Instruction::Equal,
                Relation::Ne => Instruction::NotEqual,
                _ => Instruction::IntCompare(relation),
            },
        },
    }
}

/// Lower a checked program to an image.
///
/// The result is the image that `compile_program` describes.  It is well formed:
/// every jump is resolved and every pool index is in bounds.  It is
/// deduplicated: no pool holds a value twice and no string is stored twice.  The
/// compilation stops at the first structural error.
pub fn compile(program: &TypedProgram) -> (result: Result<Image, CompileError>)
    ensures
        match compile_program(program) {
            Ok(expected) => result matches Ok(image) && image@ == expected
                && image@.well_formed() && image@.deduplicated(),
            Err(error) => result == Err::<Image, CompileError>(error),
        },
{
    let mut compiler = Compiler::new();
    match compiler.compile_stmts(&program.body) {
        Ok(()) => {},
        Err(error) => {
            return Err(error);
        },
    }
    compiler.emit(Instruction::Unit, 0);
    compiler.emit(Instruction::Return, 0);
    let Compiler { enclosing, current, objects } = compiler;
    Ok(Image { chunk: current.chunk, objects })
}

} // verus!
