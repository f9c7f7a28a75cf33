use rusty::ast::{BinaryOp, Expr, ExprKind, Function, Stmt, Ty, TypedProgram, UnaryOp};
use rusty::bytecode::{ArithOp, Image, Instruction, Relation};
use rusty::compiler::compile;
use rusty::machine::{FloatOp, FloatRequest, Limits, Status};
use rusty::scope::CompileError;
use rusty::value::{HeapObject, RuntimeFault, Value};
use rusty::vm::Vm;

fn expr(kind: ExprKind, ty: Ty) -> Expr {
    Expr { kind, ty, line: 1 }
}

fn lit(value: i64) -> Expr {
    expr(ExprKind::Int(value), Ty::Int)
}

fn decimal(value: f64) -> Expr {
    expr(ExprKind::Float(value.to_bits()), Ty::Float)
}

fn text(value: &str) -> Expr {
    expr(ExprKind::Str(value.to_string()), Ty::Str)
}

fn truth(value: bool) -> Expr {
    expr(ExprKind::Bool(value), Ty::Bool)
}

fn var(name: &str) -> Expr {
    expr(ExprKind::Var(name.to_string()), Ty::Int)
}

fn arith(op: ArithOp, lhs: Expr, rhs: Expr) -> Expr {
    let ty = lhs.ty;
    expr(ExprKind::Binary(BinaryOp::Arith(op), Box::new(lhs), Box::new(rhs)), ty)
}

fn compare(relation: Relation, lhs: Expr, rhs: Expr) -> Expr {
    expr(ExprKind::Binary(BinaryOp::Compare(relation), Box::new(lhs), Box::new(rhs)), Ty::Bool)
}

fn call(callee: Expr, args: Vec<Expr>) -> Expr {
    expr(ExprKind::Call(Box::new(callee), args), Ty::Int)
}

fn function(name: &str, params: &[&str], body: Vec<Stmt>) -> Function {
    Function {
        name: name.to_string(),
        params: params.iter().map(|p| p.to_string()).collect(),
        body,
        line: 1,
    }
}

fn lambda(params: &[&str], body: Vec<Stmt>) -> Expr {
    expr(ExprKind::Lambda(Box::new(function("", params, body))), Ty::Function)
}

fn aggregate(fields: Vec<Expr>) -> Expr {
    expr(ExprKind::Aggregate(fields), Ty::Struct)
}

fn index(target: Expr, at: Expr) -> Expr {
    expr(ExprKind::Index(Box::new(target), Box::new(at)), Ty::Int)
}

fn bind(name: &str, init: Expr) -> Stmt {
    Stmt::Let { name: name.to_string(), init, line: 1 }
}

fn assign(name: &str, value: Expr) -> Stmt {
    Stmt::Assign { name: name.to_string(), value, line: 1 }
}

fn give(value: Expr) -> Stmt {
    Stmt::Return { result: Some(value), line: 1 }
}

fn when(cond: Expr, consequent: Vec<Stmt>, alternative: Vec<Stmt>) -> Stmt {
    Stmt::If { cond, consequent, alternative, line: 1 }
}

fn repeat(cond: Expr, body: Vec<Stmt>) -> Stmt {
    Stmt::While { cond, body, line: 1 }
}

fn program(body: Vec<Stmt>) -> TypedProgram {
    TypedProgram { body }
}

fn limits() -> Limits {
    Limits { max_frames: 64, max_stack: 1024 }
}

fn float_result(request: FloatRequest) -> Value {
    let lhs = f64::from_bits(request.lhs);
    let rhs = f64::from_bits(request.rhs);
    match request.op {
        FloatOp::Arith(ArithOp::Add) => Value::Float((lhs + rhs).to_bits()),
        FloatOp::Arith(ArithOp::Sub) => Value::Float((lhs - rhs).to_bits()),
        FloatOp::Arith(ArithOp::Mul) => Value::Float((lhs * rhs).to_bits()),
        FloatOp::Arith(ArithOp::Div) => Value::Float((lhs / rhs).to_bits()),
        FloatOp::Arith(ArithOp::Rem) => Value::Float((lhs % rhs).to_bits()),
        FloatOp::Compare(Relation::Eq) => Value::Bool(lhs == rhs),
        FloatOp::Compare(Relation::Ne) => Value::Bool(lhs != rhs),
        FloatOp::Compare(Relation::Lt) => Value::Bool(lhs < rhs),
        FloatOp::Compare(Relation::Le) => Value::Bool(lhs <= rhs),
        FloatOp::Compare(Relation::Gt) => Value::Bool(lhs > rhs),
        FloatOp::Compare(Relation::Ge) => Value::Bool(lhs >= rhs),
        FloatOp::Negate => Value::Float((-lhs).to_bits()),
    }
}

/// Runs a machine to its end, doing the floating-point work that it asks for.
fn finish(vm: &mut Vm) -> Status {
    let mut rounds = 0;
    loop {
        let status = match vm.run(10_000) {
            Status::Awaiting(request) => vm.resume(float_result(request)),
            other => other,
        };
        rounds += 1;
        match status {
            Status::Running if rounds < 1_000 => {}
            Status::Awaiting(_) if rounds < 1_000 => {}
            other => return other,
        }
    }
}

fn run(body: Vec<Stmt>) -> (Status, Vm) {
    let image = compile(&program(body)).unwrap();
    assert!(image.validate());
    let mut vm = Vm::new(image, limits());
    let status = finish(&mut vm);
    (status, vm)
}

fn fields_of(vm: &Vm, value: Value) -> Vec<Value> {
    match value {
        Value::Struct(handle) => match &vm.heap[handle] {
            HeapObject::StructInstance(data) => data.fields.clone(),
            other => panic!("not an aggregate: {:?}", other),
        },
        other => panic!("not an aggregate: {:?}", other),
    }
}

fn result_fields(body: Vec<Stmt>) -> Vec<Value> {
    let (status, vm) = run(body);
    match status {
        Status::Done(value) => fields_of(&vm, value),
        other => panic!("the run ended with {:?}", other),
    }
}

fn sum_with_break() -> Vec<Stmt> {
    vec![
        bind("sum", lit(0)),
        bind("i", lit(0)),
        repeat(
            compare(Relation::Lt, var("i"), lit(5)),
            vec![
                when(
                    compare(Relation::Eq, var("i"), lit(3)),
                    vec![Stmt::Break { line: 1 }],
                    vec![],
                ),
                assign("sum", arith(ArithOp::Add, var("sum"), var("i"))),
                assign("i", arith(ArithOp::Add, var("i"), lit(1))),
            ],
        ),
        give(var("sum")),
    ]
}

#[test]
fn arithmetic_follows_precedence_of_the_tree() {
    let body = vec![give(arith(
        ArithOp::Add,
        lit(2),
        arith(ArithOp::Mul, lit(5), lit(8)),
    ))];
    assert_eq!(run(body).0, Status::Done(Value::Int(42)));
}

#[test]
fn integer_division_truncates_towards_zero() {
    assert_eq!(
        run(vec![give(arith(ArithOp::Div, lit(-7), lit(2)))]).0,
        Status::Done(Value::Int(-3))
    );
    assert_eq!(
        run(vec![give(arith(ArithOp::Rem, lit(-7), lit(2)))]).0,
        Status::Done(Value::Int(-1))
    );
    assert_eq!(
        run(vec![give(arith(ArithOp::Div, lit(7), lit(-2)))]).0,
        Status::Done(Value::Int(-3))
    );
    assert_eq!(
        run(vec![give(arith(ArithOp::Rem, lit(7), lit(-2)))]).0,
        Status::Done(Value::Int(1))
    );
}

#[test]
fn integer_arithmetic_wraps() {
    assert_eq!(
        run(vec![give(arith(ArithOp::Add, lit(i64::MAX), lit(1)))]).0,
        Status::Done(Value::Int(i64::MIN))
    );
    assert_eq!(
        run(vec![give(arith(ArithOp::Sub, lit(i64::MIN), lit(1)))]).0,
        Status::Done(Value::Int(i64::MAX))
    );
    assert_eq!(
        run(vec![give(arith(ArithOp::Mul, lit(i64::MAX), lit(2)))]).0,
        Status::Done(Value::Int(-2))
    );
    assert_eq!(
        run(vec![give(arith(ArithOp::Div, lit(i64::MIN), lit(-1)))]).0,
        Status::Done(Value::Int(i64::MIN))
    );
    assert_eq!(
        run(vec![give(arith(ArithOp::Rem, lit(i64::MIN), lit(-1)))]).0,
        Status::Done(Value::Int(0))
    );
    let negated = expr(ExprKind::Unary(UnaryOp::Neg, Box::new(lit(i64::MIN))), Ty::Int);
    assert_eq!(run(vec![give(negated)]).0, Status::Done(Value::Int(i64::MIN)));
}

#[test]
fn integer_division_by_zero_is_a_fault() {
    assert_eq!(
        run(vec![give(arith(ArithOp::Div, lit(10), lit(0)))]).0,
        Status::Faulted(RuntimeFault::DivisionByZero)
    );
    assert_eq!(
        run(vec![give(arith(ArithOp::Rem, lit(10), lit(0)))]).0,
        Status::Faulted(RuntimeFault::DivisionByZero)
    );
}

#[test]
fn float_division_by_zero_is_infinity() {
    let status = run(vec![give(arith(ArithOp::Div, decimal(10.0), decimal(0.0)))]).0;
    assert_eq!(status, Status::Done(Value::Float(f64::INFINITY.to_bits())));
}

#[test]
fn float_operations_are_handed_to_the_host() {
    let image = compile(&program(vec![give(arith(ArithOp::Add, decimal(1.5), decimal(2.25)))])).unwrap();
    let mut vm = Vm::new(image, limits());
    let request = FloatRequest {
        op: FloatOp::Arith(ArithOp::Add),
        lhs: 1.5f64.to_bits(),
        rhs: 2.25f64.to_bits(),
    };
    assert_eq!(vm.run(100), Status::Awaiting(request));
    assert_eq!(vm.step(), Status::Awaiting(request));
    assert_eq!(vm.resume(Value::Float(3.75f64.to_bits())), Status::Running);
    assert_eq!(vm.run(100), Status::Done(Value::Float(3.75f64.to_bits())));
}

#[test]
fn float_comparison_and_negation() {
    let less = compare(Relation::Lt, decimal(1.0), decimal(2.0));
    assert_eq!(run(vec![give(less)]).0, Status::Done(Value::Bool(true)));
    let nan = compare(Relation::Eq, decimal(f64::NAN), decimal(f64::NAN));
    assert_eq!(run(vec![give(nan)]).0, Status::Done(Value::Bool(false)));
    let negated = expr(ExprKind::Unary(UnaryOp::Neg, Box::new(decimal(2.5))), Ty::Float);
    assert_eq!(
        run(vec![give(negated)]).0,
        Status::Done(Value::Float((-2.5f64).to_bits()))
    );
}

#[test]
fn a_wrong_answer_to_a_float_request_is_a_violation() {
    let image = compile(&program(vec![give(arith(ArithOp::Add, decimal(1.0), decimal(2.0)))])).unwrap();
    let mut vm = Vm::new(image, limits());
    assert!(matches!(vm.run(100), Status::Awaiting(_)));
    assert_eq!(
        vm.resume(Value::Bool(true)),
        Status::Invalid(rusty::machine::Violation::TypeMismatch)
    );
}

#[test]
fn loop_with_break_sums_up_to_three() {
    assert_eq!(run(sum_with_break()).0, Status::Done(Value::Int(3)));
}

#[test]
fn break_jumps_one_past_the_back_edge() {
    let image = compile(&program(sum_with_break())).unwrap();
    let code = &image.chunk.code;
    let back_edge = code
        .iter()
        .enumerate()
        .filter_map(|(at, instruction)| match instruction {
            Instruction::Jump(target) if *target < at => Some(at),
            _ => None,
        })
        .last()
        .unwrap();
    let exits: Vec<usize> = code
        .iter()
        .filter_map(|instruction| match instruction {
            Instruction::Jump(target) | Instruction::JumpIfFalse(target)
                if *target == back_edge + 1 =>
            {
                Some(*target)
            }
            _ => None,
        })
        .collect();
    // The failed test of the loop and the `break` both leave the loop.
    assert_eq!(exits, vec![back_edge + 1, back_edge + 1]);
    for instruction in code.iter() {
        match instruction {
            Instruction::Jump(target) | Instruction::JumpIfFalse(target) => {
                assert!(*target <= code.len());
            }
            _ => {}
        }
    }
}

#[test]
fn continue_skips_the_rest_of_the_body() {
    // Sums the odd numbers below 6.
    let body = vec![
        bind("sum", lit(0)),
        bind("i", lit(0)),
        repeat(
            compare(Relation::Lt, var("i"), lit(6)),
            vec![
                assign("i", arith(ArithOp::Add, var("i"), lit(1))),
                bind("odd", arith(ArithOp::Rem, var("i"), lit(2))),
                when(
                    compare(Relation::Eq, var("odd"), lit(0)),
                    vec![Stmt::Continue { line: 1 }],
                    vec![],
                ),
                assign("sum", arith(ArithOp::Add, var("sum"), var("i"))),
            ],
        ),
        give(var("sum")),
    ];
    assert_eq!(run(body).0, Status::Done(Value::Int(9)));
}

#[test]
fn break_leaves_only_the_inner_loop() {
    let body = vec![
        bind("count", lit(0)),
        bind("i", lit(0)),
        repeat(
            compare(Relation::Lt, var("i"), lit(3)),
            vec![
                bind("j", lit(0)),
                repeat(
                    truth(true),
                    vec![
                        when(
                            compare(Relation::Ge, var("j"), lit(2)),
                            vec![Stmt::Break { line: 1 }],
                            vec![],
                        ),
                        assign("j", arith(ArithOp::Add, var("j"), lit(1))),
                        assign("count", arith(ArithOp::Add, var("count"), lit(1))),
                    ],
                ),
                assign("i", arith(ArithOp::Add, var("i"), lit(1))),
            ],
        ),
        give(var("count")),
    ];
    assert_eq!(run(body).0, Status::Done(Value::Int(6)));
}

#[test]
fn inner_declaration_shadows_the_outer_one() {
    let body = vec![
        bind("x", lit(1)),
        bind("inside", lit(0)),
        Stmt::Block {
            body: vec![bind("x", lit(2)), assign("inside", var("x"))],
            line: 1,
        },
        give(aggregate(vec![var("inside"), var("x")])),
    ];
    assert_eq!(result_fields(body), vec![Value::Int(2), Value::Int(1)]);
}

#[test]
fn shadowing_resolves_to_the_inner_slot() {
    let body = vec![
        bind("x", lit(1)),
        Stmt::Block {
            body: vec![bind("x", lit(2)), Stmt::Expr(var("x"))],
            line: 1,
        },
        Stmt::Expr(var("x")),
    ];
    let image = compile(&program(body)).unwrap();
    let loads: Vec<usize> = image
        .chunk
        .code
        .iter()
        .filter_map(|instruction| match instruction {
            Instruction::GetLocal(slot) => Some(*slot),
            _ => None,
        })
        .collect();
    assert_eq!(loads, vec![1, 0]);
}

#[test]
fn a_slot_is_used_again_after_its_scope_closes() {
    let body = vec![
        Stmt::Block { body: vec![bind("a", lit(1))], line: 1 },
        bind("b", lit(2)),
        Stmt::Expr(var("b")),
    ];
    let image = compile(&program(body)).unwrap();
    assert!(image.chunk.code.contains(&Instruction::GetLocal(0)));
}

fn counter() -> Vec<Stmt> {
    vec![
        Stmt::Fn(function(
            "make_counter",
            &[],
            vec![
                bind("count", lit(0)),
                give(lambda(
                    &[],
                    vec![
                        assign("count", arith(ArithOp::Add, var("count"), lit(1))),
                        give(var("count")),
                    ],
                )),
            ],
        )),
        bind("next", call(var("make_counter"), vec![])),
        bind("a", call(var("next"), vec![])),
        bind("b", call(var("next"), vec![])),
        bind("c", call(var("next"), vec![])),
        give(aggregate(vec![var("a"), var("b"), var("c")])),
    ]
}

#[test]
fn a_counter_closure_counts_one_two_three() {
    assert_eq!(
        result_fields(counter()),
        vec![Value::Int(1), Value::Int(2), Value::Int(3)]
    );
}

#[test]
fn each_call_makes_a_closure_of_its_own() {
    let mut body = counter();
    body.pop();
    body.push(bind("other", call(var("make_counter"), vec![])));
    body.push(bind("d", call(var("other"), vec![])));
    body.push(give(aggregate(vec![var("c"), var("d")])));
    assert_eq!(result_fields(body), vec![Value::Int(3), Value::Int(1)]);
}

#[test]
fn two_closures_share_one_variable() {
    let body = vec![
        Stmt::Fn(function(
            "make",
            &[],
            vec![
                bind("shared", lit(10)),
                bind(
                    "bump",
                    lambda(&[], vec![assign(
                        "shared",
                        arith(ArithOp::Add, var("shared"), lit(1)),
                    )]),
                ),
                bind("read", lambda(&[], vec![give(var("shared"))])),
                give(aggregate(vec![var("bump"), var("read")])),
            ],
        )),
        bind("pair", call(var("make"), vec![])),
        bind("bump", index(var("pair"), lit(0))),
        bind("read", index(var("pair"), lit(1))),
        Stmt::Expr(call(var("bump"), vec![])),
        Stmt::Expr(call(var("bump"), vec![])),
        give(call(var("read"), vec![])),
    ];
    assert_eq!(run(body).0, Status::Done(Value::Int(12)));
}

#[test]
fn a_capture_is_threaded_through_two_functions() {
    let body = vec![
        bind("base", lit(100)),
        Stmt::Fn(function(
            "outer",
            &["a"],
            vec![give(lambda(
                &["b"],
                vec![give(arith(
                    ArithOp::Add,
                    arith(ArithOp::Add, var("base"), var("a")),
                    var("b"),
                ))],
            ))],
        )),
        bind("inner", call(var("outer"), vec![lit(20)])),
        give(call(var("inner"), vec![lit(3)])),
    ];
    assert_eq!(run(body).0, Status::Done(Value::Int(123)));
}

#[test]
fn a_function_calls_itself_by_name() {
    let body = vec![
        Stmt::Fn(function(
            "factorial",
            &["n"],
            vec![
                when(
                    compare(Relation::Le, var("n"), lit(1)),
                    vec![give(lit(1))],
                    vec![],
                ),
                give(arith(
                    ArithOp::Mul,
                    var("n"),
                    call(var("factorial"), vec![arith(ArithOp::Sub, var("n"), lit(1))]),
                )),
            ],
        )),
        give(call(var("factorial"), vec![lit(10)])),
    ];
    assert_eq!(run(body).0, Status::Done(Value::Int(3_628_800)));
}

fn two_parameters(captures: bool, args: Vec<Expr>) -> Vec<Stmt> {
    let result = if captures {
        arith(ArithOp::Add, var("a"), var("k"))
    } else {
        var("a")
    };
    vec![
        bind("k", lit(1)),
        Stmt::Fn(function("two", &["a", "b"], vec![give(result)])),
        give(call(var("two"), args)),
    ]
}

#[test]
fn a_closure_of_arity_two_rejects_one_or_three_arguments() {
    assert_eq!(
        run(two_parameters(true, vec![lit(1)])).0,
        Status::Faulted(RuntimeFault::ArityMismatch(2, 1))
    );
    assert_eq!(
        run(two_parameters(true, vec![lit(1), lit(2), lit(3)])).0,
        Status::Faulted(RuntimeFault::ArityMismatch(2, 3))
    );
    assert_eq!(
        run(two_parameters(true, vec![lit(1), lit(2)])).0,
        Status::Done(Value::Int(2))
    );
}

#[test]
fn a_plain_function_checks_its_arity_too() {
    assert_eq!(
        run(two_parameters(false, vec![])).0,
        Status::Faulted(RuntimeFault::ArityMismatch(2, 0))
    );
    assert_eq!(
        run(two_parameters(false, vec![lit(7), lit(8)])).0,
        Status::Done(Value::Int(7))
    );
}

#[test]
fn a_function_without_captures_is_a_constant() {
    let image = compile(&program(two_parameters(false, vec![lit(1), lit(2)]))).unwrap();
    assert!(!image.chunk.code.iter().any(|i| matches!(i, Instruction::Closure(_))));
    let image = compile(&program(two_parameters(true, vec![lit(1), lit(2)]))).unwrap();
    assert!(image.chunk.code.iter().any(|i| matches!(i, Instruction::Closure(_))));
}

#[test]
fn a_fault_unwinds_every_frame() {
    let (status, vm) = run(two_parameters(true, vec![lit(1)]));
    assert_eq!(status, Status::Faulted(RuntimeFault::ArityMismatch(2, 1)));
    assert!(vm.frames.is_empty());
}

#[test]
fn unbounded_recursion_overflows_the_frame_stack() {
    let body = vec![
        Stmt::Fn(function("forever", &[], vec![give(call(var("forever"), vec![]))])),
        give(call(var("forever"), vec![])),
    ];
    let image = compile(&program(body)).unwrap();
    let mut vm = Vm::new(image, Limits { max_frames: 16, max_stack: 1024 });
    let mut deepest = 0;
    let mut status = Status::Running;
    while status == Status::Running {
        status = vm.step();
        deepest = deepest.max(vm.frames.len());
        assert!(vm.stack.len() <= 1024);
    }
    assert_eq!(status, Status::Faulted(RuntimeFault::StackOverflow));
    assert_eq!(deepest, 16);
}

#[test]
fn the_operand_stack_is_bounded() {
    let body = vec![give(aggregate(vec![lit(1), lit(2), lit(3), lit(4)]))];
    let image = compile(&program(body)).unwrap();
    let mut vm = Vm::new(image, Limits { max_frames: 4, max_stack: 3 });
    assert_eq!(vm.run(100), Status::Faulted(RuntimeFault::StackOverflow));
}

#[test]
fn a_machine_without_frames_cannot_start() {
    let image = compile(&program(vec![])).unwrap();
    let mut vm = Vm::new(image, Limits { max_frames: 0, max_stack: 8 });
    assert_eq!(vm.step(), Status::Faulted(RuntimeFault::StackOverflow));
}

#[test]
fn a_program_without_return_gives_unit() {
    assert_eq!(run(vec![bind("x", lit(1))]).0, Status::Done(Value::Unit));
    assert_eq!(run(vec![]).0, Status::Done(Value::Unit));
    assert_eq!(
        run(vec![Stmt::Return { result: None, line: 1 }]).0,
        Status::Done(Value::Unit)
    );
}

#[test]
fn a_function_that_falls_through_gives_unit() {
    let body = vec![
        Stmt::Fn(function("nothing", &[], vec![])),
        give(call(var("nothing"), vec![])),
    ];
    assert_eq!(run(body).0, Status::Done(Value::Unit));
}

#[test]
fn strings_compare_by_contents() {
    let same = compare(Relation::Eq, text("abc"), text("abc"));
    assert_eq!(run(vec![give(same)]).0, Status::Done(Value::Bool(true)));
    let other = compare(Relation::Eq, text("abc"), text("abd"));
    assert_eq!(run(vec![give(other)]).0, Status::Done(Value::Bool(false)));
    let differ = compare(Relation::Ne, text("abc"), text("abd"));
    assert_eq!(run(vec![give(differ)]).0, Status::Done(Value::Bool(true)));
}

#[test]
fn equal_literals_share_one_constant() {
    let body = vec![
        Stmt::Expr(lit(7)),
        Stmt::Expr(lit(7)),
        Stmt::Expr(text("seven")),
        Stmt::Expr(text("seven")),
        Stmt::Expr(decimal(7.0)),
        Stmt::Expr(decimal(7.0)),
        Stmt::Expr(lit(8)),
    ];
    let image = compile(&program(body)).unwrap();
    assert_eq!(
        image.chunk.constants,
        vec![
            Value::Int(7),
            Value::Str(0),
            Value::Float(7.0f64.to_bits()),
            Value::Int(8)
        ]
    );
    assert_eq!(image.objects, vec![HeapObject::StringData("seven".to_string())]);
}

#[test]
fn a_string_is_stored_once_for_all_functions() {
    let body = vec![
        Stmt::Expr(text("shared")),
        Stmt::Fn(function("f", &[], vec![give(text("shared"))])),
    ];
    let image = compile(&program(body)).unwrap();
    let strings = image
        .objects
        .iter()
        .filter(|object| matches!(object, HeapObject::StringData(_)))
        .count();
    assert_eq!(strings, 1);
}

#[test]
fn every_function_has_a_chunk_of_its_own() {
    let body = vec![
        Stmt::Fn(function("f", &["a"], vec![give(lit(5))])),
        give(lit(6)),
    ];
    let image = compile(&program(body)).unwrap();
    match &image.objects[0] {
        HeapObject::FunctionProto(proto) => {
            assert_eq!(proto.name, "f");
            assert_eq!(proto.arity, 1);
            assert_eq!(proto.chunk.constants, vec![Value::Int(5)]);
            assert_eq!(proto.chunk.lines.len(), proto.chunk.code.len());
        }
        other => panic!("not a prototype: {:?}", other),
    }
    assert_eq!(image.chunk.constants, vec![Value::Function(0), Value::Int(6)]);
    assert_eq!(image.chunk.lines.len(), image.chunk.code.len());
}

#[test]
fn aggregates_are_indexed_by_position() {
    let body = vec![
        bind("point", aggregate(vec![lit(3), lit(4)])),
        give(arith(
            ArithOp::Add,
            index(var("point"), lit(0)),
            index(var("point"), lit(1)),
        )),
    ];
    assert_eq!(run(body).0, Status::Done(Value::Int(7)));
}

#[test]
fn an_index_out_of_bounds_is_a_fault() {
    let body = vec![
        bind("point", aggregate(vec![lit(3), lit(4)])),
        give(index(var("point"), lit(2))),
    ];
    assert_eq!(
        run(body).0,
        Status::Faulted(RuntimeFault::IndexOutOfBounds(2, 2))
    );
    let body = vec![
        bind("point", aggregate(vec![lit(3), lit(4)])),
        give(index(var("point"), lit(-1))),
    ];
    assert_eq!(
        run(body).0,
        Status::Faulted(RuntimeFault::IndexOutOfBounds(-1, 2))
    );
}

#[test]
fn using_unit_as_an_object_is_a_null_dereference() {
    let unit = || expr(ExprKind::Unit, Ty::Unit);
    assert_eq!(
        run(vec![give(index(unit(), lit(0)))]).0,
        Status::Faulted(RuntimeFault::NullDeref)
    );
    assert_eq!(
        run(vec![give(call(unit(), vec![]))]).0,
        Status::Faulted(RuntimeFault::NullDeref)
    );
}

#[test]
fn logical_not() {
    let negated = expr(ExprKind::Unary(UnaryOp::Not, Box::new(truth(false))), Ty::Bool);
    assert_eq!(run(vec![give(negated)]).0, Status::Done(Value::Bool(true)));
}

#[test]
fn compiling_and_running_twice_gives_the_same() {
    let first = compile(&program(counter())).unwrap();
    let second = compile(&program(counter())).unwrap();
    assert_eq!(first, second);
    let mut one = Vm::new(first, limits());
    let mut two = Vm::new(second, limits());
    let a = one.run(100_000);
    let b = two.run(100_000);
    assert_eq!(a, b);
    assert_eq!(one.stack, two.stack);
    assert_eq!(one.heap, two.heap);
    assert_eq!(one.upvalues, two.upvalues);
}

#[test]
fn fuel_bounds_the_number_of_cycles() {
    let image = compile(&program(sum_with_break())).unwrap();
    let mut whole = Vm::new(image.clone(), limits());
    let expected = whole.run(100_000);
    let mut pieces = Vm::new(image, limits());
    assert_eq!(pieces.run(0), Status::Running);
    assert_eq!(pieces.run(3), Status::Running);
    assert_eq!(pieces.stack.len(), 3);
    let mut status = Status::Running;
    while status == Status::Running {
        status = pieces.run(1);
    }
    assert_eq!(status, expected);
    assert_eq!(pieces.run(10), expected);
}

#[test]
fn an_endless_loop_runs_out_of_fuel() {
    let body = vec![repeat(truth(true), vec![])];
    let image = compile(&program(body)).unwrap();
    let mut vm = Vm::new(image, limits());
    assert_eq!(vm.run(10_000), Status::Running);
}

#[test]
fn the_line_of_a_fault_is_kept() {
    let body = vec![
        Stmt::Let { name: "x".to_string(), init: lit(1), line: 3 },
        Stmt::Return {
            result: Some(Expr {
                kind: ExprKind::Binary(
                    BinaryOp::Arith(ArithOp::Div),
                    Box::new(var("x")),
                    Box::new(lit(0)),
                ),
                ty: Ty::Int,
                line: 7,
            }),
            line: 8,
        },
    ];
    let image = compile(&program(body)).unwrap();
    let mut vm = Vm::new(image, limits());
    assert_eq!(vm.run(100), Status::Faulted(RuntimeFault::DivisionByZero));
    assert_eq!(vm.line, 7);
}

#[test]
fn an_undefined_name_is_rejected() {
    assert_eq!(
        compile(&program(vec![Stmt::Expr(Expr {
            kind: ExprKind::Var("ghost".to_string()),
            ty: Ty::Int,
            line: 12
        })])),
        Err(CompileError::UndefinedName { name: "ghost".to_string(), line: 12 })
    );
    assert_eq!(
        compile(&program(vec![Stmt::Assign {
            name: "ghost".to_string(),
            value: lit(1),
            line: 13
        }])),
        Err(CompileError::UndefinedName { name: "ghost".to_string(), line: 13 })
    );
}

#[test]
fn a_name_is_not_visible_after_its_scope() {
    let body = vec![
        Stmt::Block { body: vec![bind("inner", lit(1))], line: 1 },
        Stmt::Expr(var("inner")),
    ];
    assert_eq!(
        compile(&program(body)),
        Err(CompileError::UndefinedName { name: "inner".to_string(), line: 1 })
    );
}

#[test]
fn a_duplicate_declaration_is_rejected() {
    let body = vec![
        bind("x", lit(1)),
        Stmt::Let { name: "x".to_string(), init: lit(2), line: 5 },
    ];
    assert_eq!(
        compile(&program(body)),
        Err(CompileError::DuplicateDeclaration { name: "x".to_string(), scope: 0, line: 5 })
    );
    let body = vec![Stmt::Block {
        body: vec![
            bind("y", lit(1)),
            Stmt::Let { name: "y".to_string(), init: lit(2), line: 6 },
        ],
        line: 1,
    }];
    assert_eq!(
        compile(&program(body)),
        Err(CompileError::DuplicateDeclaration { name: "y".to_string(), scope: 1, line: 6 })
    );
    let twice = Function {
        name: "f".to_string(),
        params: vec!["a".to_string(), "a".to_string()],
        body: vec![],
        line: 9,
    };
    assert_eq!(
        compile(&program(vec![Stmt::Fn(twice)])),
        Err(CompileError::DuplicateDeclaration { name: "a".to_string(), scope: 1, line: 9 })
    );
}

#[test]
fn break_outside_a_loop_is_rejected() {
    assert_eq!(
        compile(&program(vec![Stmt::Break { line: 4 }])),
        Err(CompileError::InvalidControlFlow { line: 4 })
    );
    assert_eq!(
        compile(&program(vec![Stmt::Continue { line: 5 }])),
        Err(CompileError::InvalidControlFlow { line: 5 })
    );
    // A loop of the enclosing function is not a loop of the function literal.
    let body = vec![repeat(
        truth(true),
        vec![Stmt::Expr(lambda(&[], vec![Stmt::Break { line: 6 }]))],
    )];
    assert_eq!(
        compile(&program(body)),
        Err(CompileError::InvalidControlFlow { line: 6 })
    );
}

#[test]
fn too_many_locals_are_rejected() {
    assert!(compile(&program(many_locals(256))).is_ok());
    let mut body = many_locals(256);
    body.push(Stmt::Let { name: "last".to_string(), init: lit(0), line: 99 });
    assert_eq!(
        compile(&program(body)),
        Err(CompileError::TooManyLocals { line: 99 })
    );
}

fn many_locals(count: usize) -> Vec<Stmt> {
    (0..count).map(|i| bind(&format!("v{}", i), lit(0))).collect()
}

#[test]
fn too_many_constants_are_rejected() {
    let within: Vec<Stmt> = (0..256).map(|i| Stmt::Expr(lit(i))).collect();
    assert!(compile(&program(within)).is_ok());
    let mut body: Vec<Stmt> = (0..256).map(|i| Stmt::Expr(lit(i))).collect();
    body.push(Stmt::Expr(Expr { kind: ExprKind::Int(1000), ty: Ty::Int, line: 77 }));
    assert_eq!(
        compile(&program(body)),
        Err(CompileError::TooManyConstants { line: 77 })
    );
}

#[test]
fn compilation_stops_at_the_first_error() {
    let body = vec![
        Stmt::Expr(Expr { kind: ExprKind::Var("first".to_string()), ty: Ty::Int, line: 1 }),
        Stmt::Break { line: 2 },
    ];
    assert_eq!(
        compile(&program(body)),
        Err(CompileError::UndefinedName { name: "first".to_string(), line: 1 })
    );
}

#[test]
fn compiled_images_are_well_formed() {
    for body in [sum_with_break(), counter(), two_parameters(true, vec![lit(1)])] {
        let image: Image = compile(&program(body)).unwrap();
        assert!(image.validate());
    }
}

#[test]
fn each_iteration_captures_a_variable_of_its_own() {
    let body = vec![
        bind("keep", expr(ExprKind::Unit, Ty::Unit)),
        bind("i", lit(0)),
        repeat(
            compare(Relation::Lt, var("i"), lit(3)),
            vec![
                bind("k", arith(ArithOp::Mul, var("i"), lit(10))),
                bind("f", lambda(&[], vec![give(var("k"))])),
                when(
                    compare(Relation::Eq, var("i"), lit(1)),
                    vec![assign("keep", var("f"))],
                    vec![],
                ),
                assign("i", arith(ArithOp::Add, var("i"), lit(1))),
            ],
        ),
        give(call(var("keep"), vec![])),
    ];
    assert_eq!(run(body).0, Status::Done(Value::Int(10)));
}

#[test]
fn break_drops_the_locals_of_the_loop() {
    let body = vec![
        bind("a", lit(1)),
        repeat(
            truth(true),
            vec![
                bind("b", lit(2)),
                Stmt::Block {
                    body: vec![bind("c", lit(3)), Stmt::Break { line: 1 }],
                    line: 1,
                },
            ],
        ),
        bind("d", lit(4)),
        give(aggregate(vec![var("a"), var("d")])),
    ];
    let (status, vm) = run(body);
    match status {
        Status::Done(value) => {
            assert_eq!(fields_of(&vm, value), vec![Value::Int(1), Value::Int(4)]);
        }
        other => panic!("the run ended with {:?}", other),
    }
}

#[test]
fn continue_drops_the_locals_of_the_iteration() {
    let body = vec![
        bind("total", lit(0)),
        bind("i", lit(0)),
        repeat(
            compare(Relation::Lt, var("i"), lit(4)),
            vec![
                assign("i", arith(ArithOp::Add, var("i"), lit(1))),
                bind("twice", arith(ArithOp::Mul, var("i"), lit(2))),
                Stmt::Block {
                    body: vec![
                        bind("skip", compare(Relation::Eq, var("i"), lit(2))),
                        when(var("skip"), vec![Stmt::Continue { line: 1 }], vec![]),
                    ],
                    line: 1,
                },
                assign("total", arith(ArithOp::Add, var("total"), var("twice"))),
            ],
        ),
        give(var("total")),
    ];
    // 2 + 6 + 8: the second iteration is skipped.
    assert_eq!(run(body).0, Status::Done(Value::Int(16)));
}

#[test]
fn a_return_leaves_the_loops_of_its_function() {
    let body = vec![
        Stmt::Fn(function(
            "first_above",
            &["limit"],
            vec![
                bind("i", lit(0)),
                repeat(
                    truth(true),
                    vec![
                        bind("square", arith(ArithOp::Mul, var("i"), var("i"))),
                        when(
                            compare(Relation::Gt, var("square"), var("limit")),
                            vec![give(var("i"))],
                            vec![],
                        ),
                        assign("i", arith(ArithOp::Add, var("i"), lit(1))),
                    ],
                ),
            ],
        )),
        give(call(var("first_above"), vec![lit(50)])),
    ];
    assert_eq!(run(body).0, Status::Done(Value::Int(8)));
}

#[test]
fn a_closure_sees_later_writes_to_an_open_variable() {
    let body = vec![
        bind("x", lit(1)),
        Stmt::Fn(function("get", &[], vec![give(var("x"))])),
        assign("x", lit(5)),
        give(call(var("get"), vec![])),
    ];
    assert_eq!(run(body).0, Status::Done(Value::Int(5)));
}

#[test]
fn arguments_are_passed_in_order() {
    let body = vec![
        Stmt::Fn(function(
            "minus",
            &["a", "b"],
            vec![give(arith(ArithOp::Sub, var("a"), var("b")))],
        )),
        give(call(var("minus"), vec![lit(10), lit(3)])),
    ];
    assert_eq!(run(body).0, Status::Done(Value::Int(7)));
}

#[test]
fn functions_are_values() {
    let body = vec![
        Stmt::Fn(function(
            "twice",
            &["f", "x"],
            vec![give(call(var("f"), vec![call(var("f"), vec![var("x")])]))],
        )),
        bind("step", lit(3)),
        give(call(
            var("twice"),
            vec![
                lambda(&["n"], vec![give(arith(ArithOp::Add, var("n"), var("step")))]),
                lit(10),
            ],
        )),
    ];
    assert_eq!(run(body).0, Status::Done(Value::Int(16)));
}

#[test]
fn recursion_within_the_limit_is_fine() {
    let body = vec![
        Stmt::Fn(function(
            "fib",
            &["n"],
            vec![
                when(
                    compare(Relation::Lt, var("n"), lit(2)),
                    vec![give(var("n"))],
                    vec![],
                ),
                give(arith(
                    ArithOp::Add,
                    call(var("fib"), vec![arith(ArithOp::Sub, var("n"), lit(1))]),
                    call(var("fib"), vec![arith(ArithOp::Sub, var("n"), lit(2))]),
                )),
            ],
        )),
        give(call(var("fib"), vec![lit(15)])),
    ];
    assert_eq!(run(body).0, Status::Done(Value::Int(610)));
}

#[test]
fn a_string_result_can_be_read() {
    let (status, vm) = run(vec![bind("s", text("hello")), give(var("s"))]);
    match status {
        Status::Done(value) => assert_eq!(vm.text(value), Some(&"hello".to_string())),
        other => panic!("the run ended with {:?}", other),
    }
}

#[test]
fn a_parameter_may_be_shadowed_in_the_body() {
    let body = vec![
        Stmt::Fn(function(
            "f",
            &["a"],
            vec![bind("a", arith(ArithOp::Add, var("a"), lit(1))), give(var("a"))],
        )),
        give(call(var("f"), vec![lit(1)])),
    ];
    assert_eq!(run(body).0, Status::Done(Value::Int(2)));
}

#[test]
fn too_many_captures_are_rejected() {
    // The innermost function refers to 300 variables of the functions around it.
    let outer: Vec<Stmt> = (0..150).map(|i| bind(&format!("a{}", i), lit(0))).collect();
    let mut middle: Vec<Stmt> = (0..150).map(|i| bind(&format!("b{}", i), lit(0))).collect();
    let mut inner: Vec<Stmt> = Vec::new();
    for i in 0..150 {
        inner.push(Stmt::Expr(Expr {
            kind: ExprKind::Var(format!("a{}", i)),
            ty: Ty::Int,
            line: 2000 + i,
        }));
        inner.push(Stmt::Expr(Expr {
            kind: ExprKind::Var(format!("b{}", i)),
            ty: Ty::Int,
            line: 1000 + i,
        }));
    }
    middle.push(Stmt::Fn(function("inner", &[], inner)));
    let mut body = outer;
    body.push(Stmt::Fn(function("middle", &[], middle)));
    // 128 of each fit: the 257th capture of the innermost function is one too many.
    assert_eq!(
        compile(&program(body)),
        Err(CompileError::TooManyLocals { line: 2128 })
    );
}
