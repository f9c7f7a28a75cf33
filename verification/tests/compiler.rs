use rusty::ast::{BinaryOp, Ty, UnaryOp};
use rusty::bytecode::{ArithOp, Instruction, Relation};
use rusty::compiler::{select_binary, select_unary, Compiler};
use rusty::scope::{CompileError, FunctionState, Local, MAX_CAPTURES, MAX_CONSTANTS, MAX_LOCALS};
use rusty::value::{Capture, HeapObject, Value};

fn name(text: &str) -> String {
    text.to_string()
}

#[test]
fn limits_of_a_function() {
    assert_eq!(MAX_LOCALS, 256);
    assert_eq!(MAX_CONSTANTS, 256);
    assert_eq!(MAX_CAPTURES, 256);
}

#[test]
fn a_new_compiler_is_empty() {
    let compiler = Compiler::new();
    assert!(compiler.enclosing.is_empty());
    assert!(compiler.objects.is_empty());
    assert!(compiler.current.chunk.code.is_empty());
    assert!(compiler.current.locals.is_empty());
    assert_eq!(compiler.current.arity, 0);
}

#[test]
fn a_new_function_state_is_empty() {
    let state = FunctionState::new(name("f"), 2);
    assert_eq!(state.name, "f");
    assert_eq!(state.arity, 2);
    assert!(state.chunk.code.is_empty());
    assert!(state.locals.is_empty());
    assert!(state.scopes.is_empty());
    assert!(state.captures.is_empty());
    assert!(state.loops.is_empty());
}

#[test]
fn slots_are_dense_and_in_order() {
    let mut compiler = Compiler::new();
    compiler.declare(&name("a"), 1).unwrap();
    compiler.declare(&name("b"), 1).unwrap();
    compiler.begin_scope();
    compiler.declare(&name("c"), 1).unwrap();
    assert_eq!(
        compiler.current.locals,
        vec![
            Local { name: name("a"), depth: 0, slot: 0 },
            Local { name: name("b"), depth: 0, slot: 1 },
            Local { name: name("c"), depth: 1, slot: 2 },
        ]
    );
}

#[test]
fn the_innermost_declaration_wins() {
    let mut compiler = Compiler::new();
    compiler.declare(&name("x"), 1).unwrap();
    compiler.declare(&name("y"), 1).unwrap();
    assert_eq!(compiler.current.resolve_local(&name("x")), Some(0));
    compiler.begin_scope();
    compiler.declare(&name("x"), 2).unwrap();
    assert_eq!(compiler.current.resolve_local(&name("x")), Some(2));
    assert_eq!(compiler.current.resolve_local(&name("y")), Some(1));
    compiler.end_scope(3);
    assert_eq!(compiler.current.resolve_local(&name("x")), Some(0));
    assert_eq!(compiler.current.resolve_local(&name("z")), None);
}

#[test]
fn closing_a_scope_drops_its_locals() {
    let mut compiler = Compiler::new();
    compiler.declare(&name("a"), 1).unwrap();
    compiler.begin_scope();
    compiler.declare(&name("b"), 1).unwrap();
    compiler.declare(&name("c"), 1).unwrap();
    compiler.end_scope(9);
    assert_eq!(compiler.current.chunk.code, vec![Instruction::Pop, Instruction::Pop]);
    assert_eq!(compiler.current.chunk.lines, vec![9, 9]);
    assert_eq!(compiler.current.locals.len(), 1);
    assert!(compiler.current.scopes.is_empty());
    // Without an open scope there is nothing to close.
    compiler.end_scope(9);
    assert_eq!(compiler.current.chunk.code.len(), 2);
    assert_eq!(compiler.current.locals.len(), 1);
}

#[test]
fn a_duplicate_is_found_in_the_innermost_scope_only() {
    let mut compiler = Compiler::new();
    compiler.declare(&name("a"), 1).unwrap();
    assert_eq!(
        compiler.declare(&name("a"), 2),
        Err(CompileError::DuplicateDeclaration { name: name("a"), scope: 0, line: 2 })
    );
    compiler.begin_scope();
    assert_eq!(compiler.declare(&name("a"), 3), Ok(()));
    assert_eq!(
        compiler.declare(&name("a"), 4),
        Err(CompileError::DuplicateDeclaration { name: name("a"), scope: 1, line: 4 })
    );
}

#[test]
fn the_table_of_locals_is_bounded() {
    let mut compiler = Compiler::new();
    for i in 0..256 {
        compiler.declare(&format!("v{}", i), 1).unwrap();
    }
    assert_eq!(
        compiler.declare(&name("one_more"), 5),
        Err(CompileError::TooManyLocals { line: 5 })
    );
    // A duplicate is reported before the full table is.
    assert_eq!(
        compiler.declare(&name("v0"), 6),
        Err(CompileError::DuplicateDeclaration { name: name("v0"), scope: 0, line: 6 })
    );
}

#[test]
fn constants_are_pooled_by_value() {
    let mut compiler = Compiler::new();
    assert_eq!(compiler.add_constant(Value::Int(1), 1), Ok(0));
    assert_eq!(compiler.add_constant(Value::Int(2), 1), Ok(1));
    assert_eq!(compiler.add_constant(Value::Int(1), 1), Ok(0));
    assert_eq!(compiler.add_constant(Value::Bool(true), 1), Ok(2));
    assert_eq!(compiler.add_constant(Value::Float(1), 1), Ok(3));
    assert_eq!(
        compiler.current.chunk.constants,
        vec![Value::Int(1), Value::Int(2), Value::Bool(true), Value::Float(1)]
    );
}

#[test]
fn the_pool_is_bounded() {
    let mut compiler = Compiler::new();
    for i in 0..256 {
        assert_eq!(compiler.add_constant(Value::Int(i), 1), Ok(i as usize));
    }
    assert_eq!(
        compiler.add_constant(Value::Int(256), 8),
        Err(CompileError::TooManyConstants { line: 8 })
    );
    // A value that is in the pool is still found.
    assert_eq!(compiler.add_constant(Value::Int(255), 8), Ok(255));
}

#[test]
fn constant_emits_the_load() {
    let mut compiler = Compiler::new();
    compiler.constant(Value::Int(5), 3).unwrap();
    compiler.constant(Value::Int(5), 4).unwrap();
    assert_eq!(
        compiler.current.chunk.code,
        vec![Instruction::Constant(0), Instruction::Constant(0)]
    );
    assert_eq!(compiler.current.chunk.lines, vec![3, 4]);
}

#[test]
fn strings_are_interned_by_contents() {
    let mut compiler = Compiler::new();
    assert_eq!(compiler.intern(&name("a")), 0);
    assert_eq!(compiler.intern(&name("b")), 1);
    assert_eq!(compiler.intern(&name("a")), 0);
    assert_eq!(
        compiler.objects,
        vec![HeapObject::StringData(name("a")), HeapObject::StringData(name("b"))]
    );
}

#[test]
fn emit_returns_the_offset() {
    let mut compiler = Compiler::new();
    assert_eq!(compiler.emit(Instruction::Unit, 1), 0);
    assert_eq!(compiler.emit(Instruction::Pop, 2), 1);
    compiler.emit_pops(3, 7);
    assert_eq!(compiler.current.chunk.code.len(), 5);
    assert_eq!(compiler.current.chunk.lines, vec![1, 2, 7, 7, 7]);
}

#[test]
fn patch_points_a_jump_and_nothing_else() {
    let mut compiler = Compiler::new();
    compiler.emit(Instruction::JumpIfFalse(0), 1);
    compiler.emit(Instruction::Jump(0), 1);
    compiler.emit(Instruction::Pop, 1);
    compiler.patch(0, 3);
    compiler.patch(1, 2);
    compiler.patch(2, 1);
    assert_eq!(
        compiler.current.chunk.code,
        vec![Instruction::JumpIfFalse(3), Instruction::Jump(2), Instruction::Pop]
    );
}

#[test]
fn a_loop_points_its_exits_past_the_jump_back() {
    let mut compiler = Compiler::new();
    compiler.emit(Instruction::Unit, 1);
    compiler.begin_loop();
    compiler.declare(&name("inside"), 1).unwrap();
    compiler.leave_loop(1).unwrap();
    compiler.repeat_loop(1).unwrap();
    compiler.emit(Instruction::Jump(1), 1);
    compiler.end_loop();
    assert_eq!(
        compiler.current.chunk.code,
        vec![
            Instruction::Unit,
            // break: the local of the loop is dropped, then the jump out
            Instruction::Pop,
            Instruction::Jump(6),
            // continue: the same, then the jump back
            Instruction::Pop,
            Instruction::Jump(1),
            Instruction::Jump(1),
        ]
    );
    assert!(compiler.current.loops.is_empty());
}

#[test]
fn leaving_without_a_loop_is_an_error() {
    let mut compiler = Compiler::new();
    assert_eq!(compiler.leave_loop(3), Err(CompileError::InvalidControlFlow { line: 3 }));
    assert_eq!(compiler.repeat_loop(4), Err(CompileError::InvalidControlFlow { line: 4 }));
}

#[test]
fn a_local_is_loaded_from_its_slot() {
    let mut compiler = Compiler::new();
    compiler.declare(&name("a"), 1).unwrap();
    compiler.declare(&name("b"), 1).unwrap();
    compiler.load(&name("b"), 2).unwrap();
    compiler.store(&name("a"), 3).unwrap();
    assert_eq!(
        compiler.current.chunk.code,
        vec![Instruction::GetLocal(1), Instruction::SetLocal(0)]
    );
    assert_eq!(
        compiler.load(&name("c"), 4),
        Err(CompileError::UndefinedName { name: name("c"), line: 4 })
    );
    assert_eq!(
        compiler.store(&name("c"), 5),
        Err(CompileError::UndefinedName { name: name("c"), line: 5 })
    );
}

#[test]
fn a_function_starts_with_itself_in_slot_zero() {
    let mut compiler = Compiler::new();
    compiler.begin_function(&name("f"), 1);
    assert_eq!(compiler.enclosing.len(), 1);
    assert_eq!(
        compiler.current.locals,
        vec![Local { name: name("f"), depth: 0, slot: 0 }]
    );
    compiler.declare_all(&vec![name("a")], 1).unwrap();
    assert_eq!(compiler.current.locals[1], Local { name: name("a"), depth: 1, slot: 1 });
    compiler.load(&name("f"), 1).unwrap();
    assert_eq!(compiler.current.chunk.code, vec![Instruction::GetLocal(0)]);
}

#[test]
fn a_variable_of_an_enclosing_function_is_captured() {
    let mut compiler = Compiler::new();
    compiler.declare(&name("outer"), 1).unwrap();
    compiler.declare(&name("other"), 1).unwrap();
    compiler.begin_function(&name("f"), 0);
    compiler.begin_function(&name("g"), 0);
    compiler.load(&name("other"), 1).unwrap();
    compiler.load(&name("outer"), 1).unwrap();
    compiler.store(&name("other"), 1).unwrap();
    assert_eq!(
        compiler.current.chunk.code,
        vec![
            Instruction::GetUpvalue(0),
            Instruction::GetUpvalue(1),
            Instruction::SetUpvalue(0)
        ]
    );
    // `g` takes both from the upvalues of `f`, which takes them from the top level.
    assert_eq!(
        compiler.current.captures,
        vec![
            Capture { from_local: false, index: 0 },
            Capture { from_local: false, index: 1 }
        ]
    );
    assert_eq!(
        compiler.enclosing[1].captures,
        vec![
            Capture { from_local: true, index: 1 },
            Capture { from_local: true, index: 0 }
        ]
    );
    assert!(compiler.enclosing[0].captures.is_empty());
}

#[test]
fn a_capture_is_listed_once() {
    let mut state = FunctionState::new(name("f"), 0);
    let first = Capture { from_local: true, index: 3 };
    let second = Capture { from_local: false, index: 3 };
    assert_eq!(state.add_capture(first, 1), Ok(0));
    assert_eq!(state.add_capture(second, 1), Ok(1));
    assert_eq!(state.add_capture(first, 1), Ok(0));
    assert_eq!(state.captures, vec![first, second]);
}

#[test]
fn the_captures_of_a_function_are_bounded() {
    let mut state = FunctionState::new(name("f"), 0);
    for index in 0..256 {
        assert_eq!(state.add_capture(Capture { from_local: true, index }, 1), Ok(index));
    }
    assert_eq!(
        state.add_capture(Capture { from_local: true, index: 256 }, 6),
        Err(CompileError::TooManyLocals { line: 6 })
    );
    assert_eq!(state.captures.len(), 256);
}

#[test]
fn finishing_a_function_makes_a_prototype() {
    let mut compiler = Compiler::new();
    compiler.declare(&name("k"), 1).unwrap();
    compiler.begin_function(&name("f"), 0);
    compiler.load(&name("k"), 2).unwrap();
    compiler.end_function(3).unwrap();
    assert!(compiler.enclosing.is_empty());
    assert_eq!(compiler.current.chunk.code, vec![Instruction::Closure(0)]);
    assert_eq!(compiler.current.chunk.constants, vec![Value::Function(0)]);
    match &compiler.objects[0] {
        HeapObject::FunctionProto(proto) => {
            assert_eq!(proto.name, "f");
            assert_eq!(proto.captures, vec![Capture { from_local: true, index: 0 }]);
            assert_eq!(
                proto.chunk.code,
                vec![Instruction::GetUpvalue(0), Instruction::Unit, Instruction::Return]
            );
            assert_eq!(proto.chunk.lines, vec![2, 3, 3]);
        }
        other => panic!("not a prototype: {:?}", other),
    }
}

#[test]
fn instructions_follow_the_type_of_the_operands() {
    let add = BinaryOp::Arith(ArithOp::Add);
    assert_eq!(select_binary(add, Ty::Int), Instruction::IntArith(ArithOp::Add));
    assert_eq!(select_binary(add, Ty::Float), Instruction::FloatArith(ArithOp::Add));
    assert_eq!(select_binary(add, Ty::Str), Instruction::IntArith(ArithOp::Add));
    let less = BinaryOp::Compare(Relation::Lt);
    assert_eq!(select_binary(less, Ty::Int), Instruction::IntCompare(Relation::Lt));
    assert_eq!(select_binary(less, Ty::Float), Instruction::FloatCompare(Relation::Lt));
    assert_eq!(select_binary(less, Ty::Bool), Instruction::IntCompare(Relation::Lt));
    let equal = BinaryOp::Compare(Relation::Eq);
    assert_eq!(select_binary(equal, Ty::Int), Instruction::IntCompare(Relation::Eq));
    assert_eq!(select_binary(equal, Ty::Float), Instruction::FloatCompare(Relation::Eq));
    assert_eq!(select_binary(equal, Ty::Str), Instruction::Equal);
    assert_eq!(select_binary(equal, Ty::Bool), Instruction::Equal);
    let differ = BinaryOp::Compare(Relation::Ne);
    assert_eq!(select_binary(differ, Ty::Struct), Instruction::NotEqual);
    assert_eq!(select_unary(UnaryOp::Neg, Ty::Int), Instruction::Negate);
    assert_eq!(select_unary(UnaryOp::Neg, Ty::Float), Instruction::FloatNegate);
    assert_eq!(select_unary(UnaryOp::Not, Ty::Bool), Instruction::Not);
}
