use rusty::bytecode::{ArithOp, Chunk, Image, Instruction, Relation};
use rusty::machine::{CallFrame, FloatOp, FloatRequest, Limits, Status, Violation};
use rusty::value::{Capture, ClosureData, FunctionProto, HeapObject, RuntimeFault, Upvalue, Value};
use rusty::vm::{compare_int, compute_int, execute, Vm};

fn chunk(code: Vec<Instruction>, constants: Vec<Value>) -> Chunk {
    let lines = vec![1; code.len()];
    Chunk { code, constants, lines }
}

fn image(code: Vec<Instruction>, constants: Vec<Value>) -> Image {
    Image { chunk: chunk(code, constants), objects: vec![] }
}

fn roomy() -> Limits {
    Limits { max_frames: 8, max_stack: 64 }
}

fn outcome(code: Vec<Instruction>, constants: Vec<Value>) -> Status {
    let image = image(code, constants);
    assert!(image.validate());
    execute(image, roomy(), 1_000)
}

#[test]
fn compute_int_gives_exact_values() {
    assert_eq!(compute_int(ArithOp::Add, 2, 3), Ok(5));
    assert_eq!(compute_int(ArithOp::Sub, 2, 3), Ok(-1));
    assert_eq!(compute_int(ArithOp::Mul, -4, 3), Ok(-12));
    assert_eq!(compute_int(ArithOp::Div, 7, 2), Ok(3));
    assert_eq!(compute_int(ArithOp::Div, -7, 2), Ok(-3));
    assert_eq!(compute_int(ArithOp::Rem, -7, 2), Ok(-1));
    assert_eq!(compute_int(ArithOp::Rem, 7, -2), Ok(1));
    assert_eq!(compute_int(ArithOp::Add, i64::MAX, 1), Ok(i64::MIN));
    assert_eq!(compute_int(ArithOp::Mul, i64::MIN, -1), Ok(i64::MIN));
    assert_eq!(compute_int(ArithOp::Div, i64::MIN, -1), Ok(i64::MIN));
    assert_eq!(compute_int(ArithOp::Rem, i64::MIN, -1), Ok(0));
    assert_eq!(compute_int(ArithOp::Div, 10, 0), Err(RuntimeFault::DivisionByZero));
    assert_eq!(compute_int(ArithOp::Rem, 0, 0), Err(RuntimeFault::DivisionByZero));
}

#[test]
fn compare_int_decides_each_relation() {
    assert!(compare_int(Relation::Eq, 3, 3));
    assert!(!compare_int(Relation::Eq, 3, 4));
    assert!(compare_int(Relation::Ne, 3, 4));
    assert!(compare_int(Relation::Lt, -1, 0));
    assert!(!compare_int(Relation::Lt, 0, 0));
    assert!(compare_int(Relation::Le, 0, 0));
    assert!(compare_int(Relation::Gt, 1, 0));
    assert!(!compare_int(Relation::Gt, 0, 0));
    assert!(compare_int(Relation::Ge, 0, 0));
    assert!(!compare_int(Relation::Ge, -1, 0));
}

#[test]
fn a_constant_is_returned() {
    assert_eq!(
        outcome(vec![Instruction::Constant(0), Instruction::Return], vec![Value::Int(5)]),
        Status::Done(Value::Int(5))
    );
}

#[test]
fn an_exhausted_stream_gives_the_top_of_the_stack() {
    assert_eq!(
        outcome(vec![Instruction::Constant(0)], vec![Value::Int(5)]),
        Status::Done(Value::Int(5))
    );
    assert_eq!(outcome(vec![], vec![]), Status::Done(Value::Unit));
    assert_eq!(
        outcome(vec![Instruction::True, Instruction::Pop], vec![]),
        Status::Done(Value::Unit)
    );
}

#[test]
fn a_jump_to_the_end_exhausts_the_stream() {
    assert_eq!(
        outcome(vec![Instruction::False, Instruction::Jump(3), Instruction::True], vec![]),
        Status::Done(Value::Bool(false))
    );
}

#[test]
fn a_conditional_jump_pops_its_condition() {
    let code = vec![
        Instruction::Constant(0),
        Instruction::False,
        Instruction::JumpIfFalse(4),
        Instruction::Constant(1),
        Instruction::Return,
    ];
    assert_eq!(
        outcome(code, vec![Value::Int(1), Value::Int(2)]),
        Status::Done(Value::Int(1))
    );
    let code = vec![
        Instruction::Constant(0),
        Instruction::True,
        Instruction::JumpIfFalse(4),
        Instruction::Constant(1),
        Instruction::Return,
    ];
    assert_eq!(
        outcome(code, vec![Value::Int(1), Value::Int(2)]),
        Status::Done(Value::Int(2))
    );
}

#[test]
fn missing_operands_are_a_violation() {
    assert_eq!(
        outcome(vec![Instruction::Pop], vec![]),
        Status::Invalid(Violation::StackUnderflow)
    );
    assert_eq!(
        outcome(vec![Instruction::True, Instruction::IntArith(ArithOp::Add)], vec![]),
        Status::Invalid(Violation::StackUnderflow)
    );
    assert_eq!(
        outcome(vec![Instruction::Return], vec![]),
        Status::Invalid(Violation::StackUnderflow)
    );
    assert_eq!(
        outcome(vec![Instruction::True, Instruction::Call(1)], vec![]),
        Status::Invalid(Violation::StackUnderflow)
    );
    assert_eq!(
        outcome(vec![Instruction::True, Instruction::NewStruct(2)], vec![]),
        Status::Invalid(Violation::StackUnderflow)
    );
}

#[test]
fn mismatched_operands_are_a_violation() {
    assert_eq!(
        outcome(vec![Instruction::True, Instruction::Negate], vec![]),
        Status::Invalid(Violation::TypeMismatch)
    );
    assert_eq!(
        outcome(
            vec![Instruction::Constant(0), Instruction::True, Instruction::IntArith(ArithOp::Add)],
            vec![Value::Int(1)]
        ),
        Status::Invalid(Violation::TypeMismatch)
    );
    assert_eq!(
        outcome(
            vec![Instruction::Constant(0), Instruction::Constant(0), Instruction::FloatArith(ArithOp::Add)],
            vec![Value::Int(1)]
        ),
        Status::Invalid(Violation::TypeMismatch)
    );
    assert_eq!(
        outcome(
            vec![Instruction::Constant(0), Instruction::Constant(0), Instruction::Equal],
            vec![Value::Float(0)]
        ),
        Status::Invalid(Violation::TypeMismatch)
    );
    assert_eq!(
        outcome(vec![Instruction::Constant(0), Instruction::JumpIfFalse(0)], vec![Value::Int(1)]),
        Status::Invalid(Violation::TypeMismatch)
    );
    assert_eq!(
        outcome(vec![Instruction::True, Instruction::Call(0)], vec![]),
        Status::Invalid(Violation::TypeMismatch)
    );
    assert_eq!(
        outcome(vec![Instruction::True, Instruction::True, Instruction::Index], vec![]),
        Status::Invalid(Violation::TypeMismatch)
    );
}

#[test]
fn operands_that_name_nothing_are_a_violation() {
    assert_eq!(
        outcome(vec![Instruction::GetLocal(5)], vec![]),
        Status::Invalid(Violation::BadOperand)
    );
    assert_eq!(
        outcome(vec![Instruction::True, Instruction::SetLocal(0)], vec![]),
        Status::Invalid(Violation::BadOperand)
    );
    assert_eq!(
        outcome(vec![Instruction::GetUpvalue(0)], vec![]),
        Status::Invalid(Violation::BadOperand)
    );
    assert_eq!(
        outcome(vec![Instruction::True, Instruction::SetUpvalue(0)], vec![]),
        Status::Invalid(Violation::BadOperand)
    );
}

#[test]
fn equality_compares_variant_and_payload() {
    let equal = |a: Value, b: Value| {
        outcome(
            vec![Instruction::Constant(0), Instruction::Constant(1), Instruction::Equal],
            vec![a, b],
        )
    };
    assert_eq!(equal(Value::Int(1), Value::Bool(true)), Status::Done(Value::Bool(false)));
    assert_eq!(equal(Value::Unit, Value::Bool(false)), Status::Done(Value::Bool(false)));
    assert_eq!(
        outcome(vec![Instruction::Unit, Instruction::Unit, Instruction::Equal], vec![]),
        Status::Done(Value::Bool(true))
    );
    assert_eq!(
        outcome(vec![Instruction::Unit, Instruction::Unit, Instruction::NotEqual], vec![]),
        Status::Done(Value::Bool(false))
    );
}

#[test]
fn set_local_writes_the_slot_and_pops() {
    let code = vec![
        Instruction::Constant(0),
        Instruction::Constant(1),
        Instruction::SetLocal(0),
        Instruction::Return,
    ];
    assert_eq!(
        outcome(code, vec![Value::Int(1), Value::Int(2)]),
        Status::Done(Value::Int(2))
    );
}

#[test]
fn a_float_request_carries_the_operands() {
    let image = image(
        vec![
            Instruction::Constant(0),
            Instruction::Constant(1),
            Instruction::FloatCompare(Relation::Lt),
            Instruction::Return,
        ],
        vec![Value::Float(1.0f64.to_bits()), Value::Float(2.0f64.to_bits())],
    );
    let mut vm = Vm::new(image, roomy());
    let request = FloatRequest {
        op: FloatOp::Compare(Relation::Lt),
        lhs: 1.0f64.to_bits(),
        rhs: 2.0f64.to_bits(),
    };
    assert_eq!(vm.run(10), Status::Awaiting(request));
    assert!(vm.stack.is_empty());
    assert_eq!(vm.resume(Value::Float(0)), Status::Invalid(Violation::TypeMismatch));
}

#[test]
fn resume_does_nothing_where_nothing_is_awaited() {
    let image = image(vec![Instruction::True, Instruction::Return], vec![]);
    let mut vm = Vm::new(image, roomy());
    assert_eq!(vm.resume(Value::Bool(false)), Status::Running);
    assert!(vm.stack.is_empty());
    assert_eq!(vm.run(10), Status::Done(Value::Bool(true)));
    assert_eq!(vm.resume(Value::Bool(false)), Status::Done(Value::Bool(true)));
}

#[test]
fn a_machine_that_has_stopped_stays_as_it_is() {
    let image = image(vec![Instruction::True, Instruction::Return], vec![]);
    let mut vm = Vm::new(image, roomy());
    assert_eq!(vm.run(10), Status::Done(Value::Bool(true)));
    assert_eq!(vm.step(), Status::Done(Value::Bool(true)));
    assert_eq!(vm.run(10), Status::Done(Value::Bool(true)));
    assert!(vm.frames.is_empty());
}

fn adder() -> Image {
    // The prototype adds its two arguments; the top level calls it with 3 and 4.
    let proto = FunctionProto {
        name: "add".to_string(),
        arity: 2,
        captures: vec![],
        chunk: chunk(
            vec![
                Instruction::GetLocal(1),
                Instruction::GetLocal(2),
                Instruction::IntArith(ArithOp::Add),
                Instruction::Return,
            ],
            vec![],
        ),
    };
    Image {
        chunk: chunk(
            vec![
                Instruction::Constant(0),
                Instruction::Constant(1),
                Instruction::Constant(2),
                Instruction::Call(2),
                Instruction::Return,
            ],
            vec![Value::Function(0), Value::Int(3), Value::Int(4)],
        ),
        objects: vec![HeapObject::FunctionProto(proto)],
    }
}

#[test]
fn arguments_are_the_first_locals_of_the_callee() {
    let image = adder();
    assert!(image.validate());
    let mut vm = Vm::new(image, roomy());
    for _ in 0..4 {
        assert_eq!(vm.step(), Status::Running);
    }
    assert_eq!(vm.frames.len(), 2);
    let callee: CallFrame = vm.frames[1];
    assert_eq!(callee.base, 0);
    assert_eq!(callee.ip, 0);
    assert_eq!(callee.function, Some(0));
    assert_eq!(callee.closure, None);
    assert_eq!(vm.stack, vec![Value::Function(0), Value::Int(3), Value::Int(4)]);
    assert_eq!(vm.run(100), Status::Done(Value::Int(7)));
}

#[test]
fn a_return_puts_the_result_where_the_callee_was() {
    let image = adder();
    let mut vm = Vm::new(image, roomy());
    for _ in 0..8 {
        assert_eq!(vm.step(), Status::Running);
    }
    assert_eq!(vm.frames.len(), 1);
    assert_eq!(vm.frames[0].ip, 4);
    assert_eq!(vm.stack, vec![Value::Int(7)]);
}

#[test]
fn the_frame_limit_is_checked_before_the_push() {
    let image = adder();
    let mut vm = Vm::new(image, Limits { max_frames: 1, max_stack: 64 });
    assert_eq!(vm.run(100), Status::Faulted(RuntimeFault::StackOverflow));
    assert!(vm.frames.is_empty());
}

fn capturing() -> Image {
    // The top level holds 10 in slot 0, closes a function over it, overwrites
    // the slot with 11 and calls the closure, which returns the captured variable.
    let proto = FunctionProto {
        name: "get".to_string(),
        arity: 0,
        captures: vec![Capture { from_local: true, index: 0 }],
        chunk: chunk(vec![Instruction::GetUpvalue(0), Instruction::Return], vec![]),
    };
    Image {
        chunk: chunk(
            vec![
                Instruction::Constant(0),
                Instruction::Closure(1),
                Instruction::Constant(2),
                Instruction::SetLocal(0),
                Instruction::Call(0),
                Instruction::Return,
            ],
            vec![Value::Int(10), Value::Function(0), Value::Int(11)],
        ),
        objects: vec![HeapObject::FunctionProto(proto)],
    }
}

#[test]
fn an_open_upvalue_sees_the_slot() {
    let image = capturing();
    assert!(image.validate());
    let mut vm = Vm::new(image, roomy());
    assert_eq!(vm.step(), Status::Running);
    assert_eq!(vm.step(), Status::Running);
    assert_eq!(vm.upvalues, vec![Upvalue::Open(0)]);
    assert_eq!(vm.open, vec![0]);
    assert_eq!(
        vm.heap,
        vec![HeapObject::ClosureData(ClosureData { function: 0, upvalues: vec![0] })]
    );
    assert_eq!(vm.run(100), Status::Done(Value::Int(11)));
}

#[test]
fn an_upvalue_is_closed_when_its_slot_dies() {
    let image = capturing();
    let mut vm = Vm::new(image, roomy());
    assert_eq!(vm.run(100), Status::Done(Value::Int(11)));
    assert_eq!(vm.upvalues, vec![Upvalue::Closed(Value::Int(11))]);
    assert!(vm.open.is_empty());
    assert!(vm.stack.is_empty());
}

#[test]
fn one_slot_has_one_upvalue() {
    let proto = FunctionProto {
        name: "get".to_string(),
        arity: 0,
        captures: vec![Capture { from_local: true, index: 0 }],
        chunk: chunk(vec![Instruction::GetUpvalue(0), Instruction::Return], vec![]),
    };
    let image = Image {
        chunk: chunk(
            vec![
                Instruction::Constant(0),
                Instruction::Closure(1),
                Instruction::Closure(1),
                Instruction::Return,
            ],
            vec![Value::Int(10), Value::Function(0)],
        ),
        objects: vec![HeapObject::FunctionProto(proto)],
    };
    let mut vm = Vm::new(image, roomy());
    for _ in 0..3 {
        assert_eq!(vm.step(), Status::Running);
    }
    assert_eq!(vm.upvalues, vec![Upvalue::Open(0)]);
    assert_eq!(vm.heap.len(), 2);
}

#[test]
fn a_capture_of_a_missing_slot_is_a_violation() {
    let proto = FunctionProto {
        name: "get".to_string(),
        arity: 0,
        captures: vec![Capture { from_local: true, index: 3 }],
        chunk: chunk(vec![Instruction::Return], vec![]),
    };
    let image = Image {
        chunk: chunk(vec![Instruction::Closure(0)], vec![Value::Function(0)]),
        objects: vec![HeapObject::FunctionProto(proto)],
    };
    assert!(image.validate());
    assert_eq!(execute(image, roomy(), 10), Status::Invalid(Violation::BadOperand));
}

#[test]
fn validate_accepts_resolved_images() {
    assert!(image(vec![], vec![]).validate());
    assert!(image(vec![Instruction::Jump(1)], vec![]).validate());
    assert!(adder().validate());
    assert!(capturing().validate());
}

#[test]
fn validate_rejects_unresolved_images() {
    assert!(!image(vec![Instruction::Jump(2)], vec![]).validate());
    assert!(!image(vec![Instruction::JumpIfFalse(5)], vec![]).validate());
    assert!(!image(vec![Instruction::Constant(0)], vec![]).validate());
    assert!(!image(vec![Instruction::Closure(0)], vec![Value::Int(1)]).validate());
    assert!(!image(vec![], vec![Value::Str(0)]).validate());
    assert!(!image(vec![], vec![Value::Function(0)]).validate());
    assert!(!image(vec![], vec![Value::Closure(0)]).validate());
    assert!(!image(vec![], vec![Value::Struct(0)]).validate());
    let mut lines_missing = image(vec![Instruction::Unit], vec![]);
    lines_missing.chunk.lines.clear();
    assert!(!lines_missing.validate());
    let mut bad_proto = adder();
    if let HeapObject::FunctionProto(proto) = &mut bad_proto.objects[0] {
        proto.chunk.code.push(Instruction::Jump(99));
        proto.chunk.lines.push(1);
    }
    assert!(!bad_proto.validate());
    let runtime_object = Image {
        chunk: chunk(vec![], vec![]),
        objects: vec![HeapObject::ClosureData(ClosureData { function: 0, upvalues: vec![] })],
    };
    assert!(!runtime_object.validate());
    let string_as_function = Image {
        chunk: chunk(vec![], vec![Value::Function(0)]),
        objects: vec![HeapObject::StringData("f".to_string())],
    };
    assert!(!string_as_function.validate());
}

#[test]
fn chunk_validation_checks_each_instruction() {
    let good = chunk(vec![Instruction::Constant(0), Instruction::Jump(2)], vec![Value::Unit]);
    assert!(good.validate());
    assert!(good.is_resolved(Instruction::Jump(2)));
    assert!(!good.is_resolved(Instruction::Jump(3)));
    assert!(good.is_resolved(Instruction::Constant(0)));
    assert!(!good.is_resolved(Instruction::Constant(1)));
    assert!(!good.is_resolved(Instruction::Closure(0)));
    assert!(good.is_resolved(Instruction::GetLocal(1000)));
    let empty = Chunk::new();
    assert!(empty.code.is_empty() && empty.constants.is_empty() && empty.lines.is_empty());
    assert!(empty.validate());
}

#[test]
fn load_refuses_what_validate_refuses() {
    assert!(Vm::load(image(vec![Instruction::Jump(2)], vec![]), roomy()).is_none());
    let mut vm = Vm::load(adder(), roomy()).unwrap();
    assert_eq!(vm.run(100), Status::Done(Value::Int(7)));
}

#[test]
fn fields_and_text_read_what_values_refer_to() {
    let image = Image {
        chunk: chunk(
            vec![
                Instruction::Constant(0),
                Instruction::Constant(1),
                Instruction::NewStruct(2),
                Instruction::Return,
            ],
            vec![Value::Str(0), Value::Int(9)],
        ),
        objects: vec![HeapObject::StringData("nine".to_string())],
    };
    let mut vm = Vm::new(image, roomy());
    let result = match vm.run(100) {
        Status::Done(value) => value,
        other => panic!("the run ended with {:?}", other),
    };
    assert_eq!(result, Value::Struct(0));
    assert_eq!(vm.fields(result), Some(&vec![Value::Str(0), Value::Int(9)]));
    assert_eq!(vm.fields(Value::Struct(1)), None);
    assert_eq!(vm.fields(Value::Int(0)), None);
    assert_eq!(vm.text(Value::Str(0)), Some(&"nine".to_string()));
    assert_eq!(vm.text(Value::Str(1)), None);
    assert_eq!(vm.text(Value::Int(0)), None);
}
