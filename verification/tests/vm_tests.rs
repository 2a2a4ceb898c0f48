use lib::chunk_values::{Chunk, DisplayText, OpCode, Values};
use lib::vm::{
    binary_value, comparison_value, int_pow, logical_value, unary_value, BinaryOp, CompileOutcome,
    ComparisonOp, ExecOutcome, FloatReply, FloatRequest, InterpretResult, LogicalOp, ReplyKind,
    RuntimeErrorKind, Step, UnaryOp, VM, outcome_of, TWO_53,
};

fn float_of(v: &Values) -> f64 {
    match v {
        Values::Int(i) => *i as f64,
        Values::Float(b) => f64::from_bits(*b),
        other => panic!("not a number: {:?}", other),
    }
}

fn answer(request: &FloatRequest) -> FloatReply {
    match request {
        FloatRequest::Binary(op, x, y) => {
            if let (Values::Int(a), Values::Int(b)) = (x, y) {
                return FloatReply::Value(Values::Int(((a / b) as f64).floor() as i64));
            }
            let (a, b) = (float_of(x), float_of(y));
            let r = match op {
                BinaryOp::Add => a + b,
                BinaryOp::Subtract => a - b,
                BinaryOp::Divide => a / b,
                BinaryOp::Multiply => a * b,
                BinaryOp::Mod => a % b,
                BinaryOp::Pow => a.powf(b),
                BinaryOp::DivideDivide => (a / b).floor(),
            };
            FloatReply::Value(Values::Float(r.to_bits()))
        }
        FloatRequest::Unary(op, x) => {
            let a = float_of(x);
            let r = match op {
                UnaryOp::Negate => -a,
                UnaryOp::Sqrt => a.sqrt(),
                UnaryOp::Abs => a.abs(),
                UnaryOp::Floor => a.floor(),
                UnaryOp::Ceil => a.ceil(),
                UnaryOp::Sin => a.sin(),
                UnaryOp::Cos => a.cos(),
                UnaryOp::Tan => a.tan(),
                UnaryOp::Not => panic!("not is no float work"),
            };
            FloatReply::Value(Values::Float(r.to_bits()))
        }
        FloatRequest::Comparison(op, x, y) => {
            let (a, b) = (float_of(x), float_of(y));
            let r = match op {
                ComparisonOp::EqEq => a == b,
                ComparisonOp::NotEq => a != b,
                ComparisonOp::Gt => a > b,
                ComparisonOp::Lt => a < b,
                ComparisonOp::Gte => a >= b,
                ComparisonOp::Lte => a <= b,
            };
            FloatReply::Value(Values::Bool(r))
        }
        FloatRequest::Text(bits) => FloatReply::Text(f64::from_bits(*bits).to_string()),
    }
}

fn shown(v: &Values) -> String {
    match v.display_text() {
        DisplayText::Text(t) => t,
        DisplayText::FloatBits(bits) => f64::from_bits(bits).to_string(),
        DisplayText::Unprintable => "<nil>".to_string(),
    }
}

/// Runs the machine to its end; gives what it printed and how it ended.
fn run(vm: &mut VM) -> (Vec<String>, String) {
    let mut out = Vec::new();
    let mut step = vm.step();
    loop {
        match step {
            Step::Continue => step = vm.step(),
            Step::Print(v) => {
                out.push(shown(&v));
                step = vm.step();
            }
            Step::Float(request) => {
                assert!(vm.is_waiting());
                let reply = answer(&request);
                step = vm.resume(reply);
            }
            Step::Done(InterpretResult::InterpretOK) => return (out, "ok".to_string()),
            Step::Done(_) => return (out, "done".to_string()),
            Step::UnknownOp(b) => return (out, format!("unknown {}", b)),
            Step::RuntimeError(kind, line, name) => {
                return (out, format!("{} [line {}] {:?}", kind.message(), line, name))
            }
            Step::Trap => return (out, "trap".to_string()),
        }
    }
}

fn run_source(source: &str) -> (Vec<String>, String) {
    let mut vm = VM::new_vm(Chunk::new_chunk());
    match vm.interpret(source) {
        CompileOutcome::Compiled(literals) => {
            for lit in literals {
                let bits = lit.text.trim().parse::<f64>().unwrap().to_bits();
                vm.set_float_literal(lit.index, bits);
            }
        }
        other => panic!("does not compile: {:?}", other),
    }
    run(&mut vm)
}

fn strs(v: &[&str]) -> Vec<String> {
    v.iter().map(|s| s.to_string()).collect()
}

#[test]
fn runs_arithmetic() {
    assert_eq!(run_source("print 1 + 2;"), (strs(&["3"]), "ok".to_string()));
    assert_eq!(run_source("print 10 - 4 * 2;").0, strs(&["2"]));
    assert_eq!(run_source("print 7 / 2;").0, strs(&["3"]));
    assert_eq!(run_source("print -7 % 3;").0, strs(&["-1"]));
    assert_eq!(run_source("print 2 ^ 10;").0, strs(&["1024"]));
    assert_eq!(run_source("print 7 // 2;").0, strs(&["3"]));
    assert_eq!(run_source("print -2 ^ 63;").0, strs(&["-9223372036854775808"]));
}

#[test]
fn integer_faults_trap() {
    assert_eq!(run_source("print 9223372036854775807 + 1;").1, "trap");
    assert_eq!(run_source("print 1 / 0;").1, "trap");
    assert_eq!(run_source("print 1 % 0;").1, "trap");
    assert_eq!(run_source("print 2 ^ 63;").1, "trap");
    assert_eq!(run_source("print 1 // 0;").1, "trap");
}

#[test]
fn runs_float_arithmetic_through_requests() {
    assert_eq!(run_source("print 1.5 + 1;").0, strs(&["2.5"]));
    assert_eq!(run_source("print -1.5;").0, strs(&["-1.5"]));
    assert_eq!(run_source("print 7.0 // 2;").0, strs(&["3"]));
    assert_eq!(run_source("print 1 < 2.5;").0, strs(&["true"]));
}

#[test]
fn runs_strings_and_booleans() {
    assert_eq!(run_source("print \"a\" + \"b\";").0, strs(&["ab"]));
    assert_eq!(run_source("print \"a\" == \"a\";").0, strs(&["true"]));
    assert_eq!(run_source("print true != false;").0, strs(&["true"]));
    assert_eq!(run_source("print !true;").0, strs(&["false"]));
}

#[test]
fn runs_variables() {
    assert_eq!(run_source("set x = 2; print x * x;").0, strs(&["4"]));
    assert_eq!(run_source("set x = 1; x = 5; print x;").0, strs(&["5"]));
    assert_eq!(run_source("{ set a = 1; set b = a + 1; print b; }").0, strs(&["2"]));
    assert_eq!(run_source("{ set a = 1; a = 3; print a; }").0, strs(&["3"]));
}

#[test]
fn runs_if() {
    assert_eq!(run_source("if true print 1; print 2;").0, strs(&["1", "2"]));
    assert_eq!(run_source("if false print 1; print 2;").0, strs(&["2"]));
    assert_eq!(run_source("if 0 print 1; print 3;").0, strs(&["3"]));
}

#[test]
fn runtime_errors_name_line_and_variable() {
    assert_eq!(
        run_source("print 1;\nprint y;"),
        (strs(&["1"]), "Undefined variable [line 2] Some(\"y\")".to_string())
    );
    assert_eq!(run_source("x = 1;").1, "Undefined variable [line 1] Some(\"x\")");
    assert_eq!(run_source("print true + 1;").1, "Operands must be numbers. [line 1] None");
    assert_eq!(
        run_source("print \"a\" - \"b\";").1,
        "Unsupported operation for strings. [line 1] None"
    );
    assert_eq!(run_source("print !1;").1, "Operand must be a bool. [line 1] None");
    assert_eq!(run_source("print -true;").1, "Operand must be a bool. [line 1] None");
    assert_eq!(run_source("print -\"s\";").1, "Operand must be a number. [line 1] None");
    assert_eq!(run_source("print true < false;").1, "Unsupported compression operator [line 1] None");
    assert_eq!(
        run_source("print \"a\" < \"b\";").1,
        "Unsupported compression operation for strings. [line 1] None"
    );
    assert_eq!(run_source("print 1 == true;").1, "Unsupported compression operation. [line 1] None");
}

#[test]
fn runtime_error_clears_the_stack() {
    let mut vm = VM::new_vm(Chunk::new_chunk());
    assert!(matches!(vm.interpret("print 1 + (2 + y);"), CompileOutcome::Compiled(_)));
    let code = vm.chunk.code.clone();
    let lines = vm.chunk.line.clone();
    let (_, end) = run(&mut vm);
    assert!(end.starts_with("Undefined variable"));
    assert!(vm.stack.is_empty());
    assert_eq!(vm.chunk.code, code);
    assert_eq!(vm.chunk.line, lines);
}

#[test]
fn compile_failure_leaves_the_machine() {
    let mut vm = VM::new_vm(Chunk::new_chunk());
    match vm.interpret("print ;") {
        CompileOutcome::CompileFailed(errors) => {
            assert_eq!(errors.len(), 1);
            assert_eq!(errors[0].message, "Expect expression.");
        }
        other => panic!("unexpected {:?}", other),
    }
    assert!(vm.chunk.code.is_empty());
    assert_eq!(vm.ip, 0);
}

#[test]
fn oversized_literal_is_a_fault() {
    let mut vm = VM::new_vm(Chunk::new_chunk());
    assert!(matches!(vm.interpret("print 99999999999999999999;"), CompileOutcome::Fault(_)));
    assert!(vm.chunk.code.is_empty());
}

#[test]
fn a_second_program_is_appended_and_run_from_the_start() {
    let mut vm = VM::new_vm(Chunk::new_chunk());
    assert!(matches!(vm.interpret("set g = 41;"), CompileOutcome::Compiled(_)));
    assert_eq!(run(&mut vm).1, "ok");
    assert!(matches!(vm.interpret("print g + 1;"), CompileOutcome::Compiled(_)));
    assert_eq!(vm.ip, 0);
    assert_eq!(vm.chunk.code.len(), 5 + 7);
    // The return that ends the first program comes first again.
    let (out, end) = run(&mut vm);
    assert!(out.is_empty());
    assert_eq!(end, "ok");
    assert_eq!(vm.globals.get_value(&"g".to_string()).unwrap().0.as_int(), Some(41));
}

fn chunk_of(code: &[u8], constants: Vec<Values>) -> Chunk {
    let mut chunk = Chunk::new_chunk();
    for c in constants {
        chunk.add_constant(c);
    }
    for (i, b) in code.iter().enumerate() {
        chunk.write_chunk(*b, i + 1);
    }
    chunk
}

fn op(o: OpCode) -> u8 {
    o.to_byte()
}

#[test]
fn immutable_global_cannot_be_reassigned() {
    let chunk = chunk_of(
        &[
            op(OpCode::OpC), 1, op(OpCode::OpDefFixed), 0, op(OpCode::OpC), 1,
            op(OpCode::OpSetGlobal), 0,
        ],
        vec![Values::Str("k".to_string()), Values::Int(1)],
    );
    let mut vm = VM::new_vm(chunk);
    assert_eq!(run(&mut vm).1, "Cannot reassign immutable variable. [line 8] None");
}

#[test]
fn fixed_local_cannot_be_reassigned() {
    let chunk = chunk_of(&[op(OpCode::OpSetLocalFixed), 0], vec![]);
    let mut vm = VM::new_vm(chunk);
    assert_eq!(run(&mut vm).1, "Cannot reassign immutable variable. [line 2] None");
}

#[test]
fn unknown_bytes_stop_the_machine() {
    let mut vm = VM::new_vm(chunk_of(&[200], vec![]));
    assert_eq!(run(&mut vm).1, "unknown 200");
    let mut vm = VM::new_vm(chunk_of(&[op(OpCode::OpEq)], vec![]));
    assert_eq!(run(&mut vm).1, format!("unknown {}", op(OpCode::OpEq)));
}

#[test]
fn logical_operators() {
    let chunk = chunk_of(
        &[op(OpCode::OpC), 0, op(OpCode::OpC), 1, op(OpCode::OpAnd), op(OpCode::OpPrint),
          op(OpCode::OpC), 0, op(OpCode::OpC), 1, op(OpCode::OpOr), op(OpCode::OpPrint),
          op(OpCode::OpC), 0, op(OpCode::OpC), 2, op(OpCode::OpOr)],
        vec![Values::Bool(true), Values::Bool(false), Values::Int(1)],
    );
    let mut vm = VM::new_vm(chunk);
    let (out, end) = run(&mut vm);
    assert_eq!(out, strs(&["false", "true"]));
    assert_eq!(end, "Operands must be booleans. [line 17] None");
}

#[test]
fn end_of_code_ends_the_program() {
    let mut vm = VM::new_vm(Chunk::new_chunk());
    assert!(matches!(vm.step(), Step::Done(InterpretResult::InterpretOK)));
    let mut vm = VM::new_vm(chunk_of(&[op(OpCode::OpR), 200], vec![]));
    assert!(matches!(vm.step(), Step::Done(InterpretResult::InterpretOK)));
}

#[test]
fn stack_underflow_traps() {
    let mut vm = VM::new_vm(chunk_of(&[op(OpCode::OpAdd)], vec![]));
    assert!(matches!(vm.step(), Step::Trap));
    let mut vm = VM::new_vm(chunk_of(&[op(OpCode::OpC), 5], vec![]));
    assert!(matches!(vm.step(), Step::Trap));
}

#[test]
fn float_named_global_asks_for_its_text() {
    let bits = 1.5f64.to_bits();
    let chunk = chunk_of(
        &[op(OpCode::OpC), 1, op(OpCode::OpDefGlobal), 0, op(OpCode::OpGetGlobal), 0,
          op(OpCode::OpPrint)],
        vec![Values::Float(bits), Values::Int(9)],
    );
    let mut vm = VM::new_vm(chunk);
    assert!(matches!(vm.step(), Step::Continue));
    match vm.step() {
        Step::Float(FloatRequest::Text(b)) => assert_eq!(b, bits),
        other => panic!("unexpected {:?}", other),
    }
    assert!(vm.is_waiting());
    assert!(matches!(vm.resume(FloatReply::Text("1.5".to_string())), Step::Continue));
    assert!(!vm.is_waiting());
    let found = vm.globals.get_value(&"1.5".to_string()).unwrap();
    assert_eq!(found.0.as_int(), Some(9));
    assert!(found.1);
}

#[test]
fn float_work_then_resume_pushes_the_answer() {
    let chunk = chunk_of(
        &[op(OpCode::OpC), 0, op(OpCode::OpSqrt)],
        vec![Values::Int(16)],
    );
    let mut vm = VM::new_vm(chunk);
    assert!(matches!(vm.step(), Step::Continue));
    match vm.step() {
        Step::Float(FloatRequest::Unary(UnaryOp::Sqrt, Values::Int(16))) => {}
        other => panic!("unexpected {:?}", other),
    }
    assert!(vm.stack.is_empty());
    let step = vm.resume(FloatReply::Value(Values::Float(4.0f64.to_bits())));
    assert!(matches!(step, Step::Continue));
    assert_eq!(vm.stack.len(), 1);
    assert_eq!(vm.stack[0].as_float(), Some(4.0f64.to_bits()));
}

#[test]
fn resume_with_the_wrong_reply_traps() {
    let mut vm = VM::new_vm(Chunk::new_chunk());
    assert!(matches!(vm.resume(FloatReply::Value(Values::Int(1))), Step::Trap));
}

#[test]
fn int_pow_values() {
    assert_eq!(int_pow(2, 10), Some(1024));
    assert_eq!(int_pow(0, 0), Some(1));
    assert_eq!(int_pow(0, 5), Some(0));
    assert_eq!(int_pow(-1, 7), Some(-1));
    assert_eq!(int_pow(-1, u32::MAX), Some(-1));
    assert_eq!(int_pow(-2, 63), Some(i64::MIN));
    assert_eq!(int_pow(2, 63), None);
    assert_eq!(int_pow(3, 39), Some(4052555153018976267));
    assert_eq!(int_pow(3, 40), None);
}

#[test]
fn operator_values() {
    match binary_value(BinaryOp::Add, &Values::Int(2), &Values::Int(3)) {
        ExecOutcome::Value(Values::Int(5)) => {}
        other => panic!("unexpected {:?}", other),
    }
    assert!(matches!(binary_value(BinaryOp::Mod, &Values::Int(2), &Values::Int(0)), ExecOutcome::Trap));
    assert!(matches!(
        binary_value(BinaryOp::Pow, &Values::Int(2), &Values::Float(0)),
        ExecOutcome::Float(ReplyKind::Float)
    ));
    assert!(matches!(
        binary_value(BinaryOp::Multiply, &Values::Str("a".to_string()), &Values::Str("b".to_string())),
        ExecOutcome::Error(RuntimeErrorKind::UnsupportedStringOperation)
    ));
    assert!(matches!(
        unary_value(UnaryOp::Abs, &Values::Int(-4)),
        ExecOutcome::Value(Values::Int(4))
    ));
    assert!(matches!(unary_value(UnaryOp::Negate, &Values::Int(i64::MIN)), ExecOutcome::Trap));
    match unary_value(UnaryOp::Abs, &Values::Float((-2.0f64).to_bits())) {
        ExecOutcome::Value(Values::Float(b)) => assert_eq!(f64::from_bits(b), 2.0),
        other => panic!("unexpected {:?}", other),
    }
    assert!(matches!(
        unary_value(UnaryOp::Floor, &Values::Int(3)),
        ExecOutcome::Float(ReplyKind::Float)
    ));
    assert!(matches!(
        comparison_value(ComparisonOp::Gte, &Values::Int(3), &Values::Int(3)),
        ExecOutcome::Value(Values::Bool(true))
    ));
    assert!(matches!(
        comparison_value(ComparisonOp::NotEq, &Values::Str("a".to_string()), &Values::Str("b".to_string())),
        ExecOutcome::Value(Values::Bool(true))
    ));
    assert!(matches!(
        comparison_value(ComparisonOp::EqEq, &Values::Nil, &Values::Nil),
        ExecOutcome::Error(RuntimeErrorKind::UnsupportedComparison)
    ));
    assert!(matches!(
        logical_value(LogicalOp::Or, &Values::Bool(false), &Values::Bool(false)),
        ExecOutcome::Value(Values::Bool(false))
    ));
}

#[test]
fn comparisons_agree_on_integers() {
    for (a, b) in [(1i64, 2i64), (2, 2), (3, -1)] {
        let lt = comparison_value(ComparisonOp::Lt, &Values::Int(a), &Values::Int(b));
        let gt = comparison_value(ComparisonOp::Gt, &Values::Int(b), &Values::Int(a));
        match (lt, gt) {
            (ExecOutcome::Value(Values::Bool(x)), ExecOutcome::Value(Values::Bool(y))) => {
                assert_eq!(x, y)
            }
            other => panic!("unexpected {:?}", other),
        }
    }
}

#[test]
fn error_messages() {
    assert_eq!(RuntimeErrorKind::UndefinedVariable.message(), "Undefined variable");
    assert_eq!(RuntimeErrorKind::OperandsMustBeBooleans.message(), "Operands must be booleans.");
}

#[test]
fn blank_program_compiles_to_a_return() {
    let mut vm = VM::new_vm(Chunk::new_chunk());
    match vm.interpret("  # only a comment\n\t") {
        CompileOutcome::Compiled(literals) => assert!(literals.is_empty()),
        other => panic!("unexpected {:?}", other),
    }
    assert_eq!(vm.chunk.code, vec![op(OpCode::OpR)]);
    assert!(vm.chunk.constant.values.is_empty());
}

#[test]
fn error_token_never_compiles() {
    let mut vm = VM::new_vm(Chunk::new_chunk());
    assert!(!matches!(vm.interpret("print 1; print $;"), CompileOutcome::Compiled(_)));
    let mut vm = VM::new_vm(Chunk::new_chunk());
    assert!(!matches!(vm.interpret("print \"open"), CompileOutcome::Compiled(_)));
}

#[test]
fn error_messages_for_each_kind() {
    assert_eq!(RuntimeErrorKind::ImmutableVariable.message(), "Cannot reassign immutable variable.");
    assert_eq!(RuntimeErrorKind::UnsupportedComparison.message(), "Unsupported compression operation.");
}

#[test]
fn compile_error_without_error_token_is_not_compiled() {
    let mut vm = VM::new_vm(Chunk::new_chunk());
    match vm.interpret("print 1 +;") {
        CompileOutcome::CompileFailed(errors) => assert_eq!(errors[0].message, "Expect expression."),
        other => panic!("unexpected {:?}", other),
    }
    assert!(vm.chunk.code.is_empty());
    assert!(vm.stack.is_empty());
}

#[test]
fn negating_a_boolean_is_a_runtime_error() {
    assert_eq!(run_source("print -true;").1, "Operand must be a bool. [line 1] None");
    assert_eq!(run_source("print 1 + 2;"), (strs(&["3"]), "ok".to_string()));
}

#[test]
fn floor_division_of_integers() {
    let div = |a: i64, b: i64| binary_value(BinaryOp::DivideDivide, &Values::Int(a), &Values::Int(b));
    assert!(matches!(div(7, 2), ExecOutcome::Value(Values::Int(3))));
    assert!(matches!(div(-7, 2), ExecOutcome::Value(Values::Int(-3))));
    assert!(matches!(div(7, -2), ExecOutcome::Value(Values::Int(-3))));
    assert!(matches!(div(6, 3), ExecOutcome::Value(Values::Int(2))));
    assert!(matches!(div(7, 0), ExecOutcome::Trap));
    assert!(matches!(div(i64::MIN, -1), ExecOutcome::Trap));
    match div(TWO_53, 1) {
        ExecOutcome::Value(Values::Int(q)) => assert_eq!(q, 9007199254740992),
        other => panic!("unexpected {:?}", other),
    }
    match div(-TWO_53, 1) {
        ExecOutcome::Value(Values::Int(q)) => assert_eq!(q, -9007199254740992),
        other => panic!("unexpected {:?}", other),
    }
    assert!(matches!(div(TWO_53 + 1, 1), ExecOutcome::Float(ReplyKind::Int)));
    assert!(matches!(div(i64::MAX, 1), ExecOutcome::Float(ReplyKind::Int)));
    assert!(matches!(
        comparison_value(ComparisonOp::Lt, &Values::Int(1), &Values::Float(2.0f64.to_bits())),
        ExecOutcome::Float(ReplyKind::Bool)
    ));
}

fn machine_with(stack: Vec<Values>) -> VM {
    let mut vm = VM::new_vm(chunk_of(&[0], vec![]));
    vm.ip = 1;
    vm.stack = stack;
    vm
}

fn top_int(vm: &VM) -> Option<i64> {
    assert_eq!(vm.stack.len(), 1);
    vm.stack[0].as_int()
}

#[test]
fn binary_op_on_two_integers() {
    let cases = [
        (BinaryOp::Add, 9),
        (BinaryOp::Subtract, 5),
        (BinaryOp::Multiply, 14),
        (BinaryOp::Divide, 3),
        (BinaryOp::Mod, 1),
        (BinaryOp::Pow, 49),
        (BinaryOp::DivideDivide, 3),
    ];
    for (op, expected) in cases {
        let mut vm = machine_with(vec![Values::Int(7), Values::Int(2)]);
        assert!(matches!(vm.binary_op(op), Step::Continue));
        assert_eq!(top_int(&vm), Some(expected));
        assert!(!vm.is_waiting());
    }
}

#[test]
fn binary_op_on_mismatched_operands_fails() {
    let mut vm = machine_with(vec![Values::Int(7), Values::Str("a".to_string())]);
    match vm.binary_op(BinaryOp::Add) {
        Step::RuntimeError(RuntimeErrorKind::OperandsMustBeNumbers, 1, None) => {}
        other => panic!("unexpected {:?}", other),
    }
    assert!(vm.stack.is_empty());
}

#[test]
fn comparison_op_swaps_with_its_mirror() {
    for (a, b) in [(1i64, 2i64), (2, 2), (5, -3)] {
        let mut gt = machine_with(vec![Values::Int(a), Values::Int(b)]);
        let mut lt = machine_with(vec![Values::Int(b), Values::Int(a)]);
        assert!(matches!(gt.comparison_op(ComparisonOp::Gt), Step::Continue));
        assert!(matches!(lt.comparison_op(ComparisonOp::Lt), Step::Continue));
        assert_eq!(gt.stack[0].as_bool(), lt.stack[0].as_bool());
        assert_eq!(gt.stack[0].as_bool(), Some(a > b));
    }
    let mut vm = machine_with(vec![Values::Int(1), Values::Str("a".to_string())]);
    assert!(matches!(
        vm.comparison_op(ComparisonOp::EqEq),
        Step::RuntimeError(RuntimeErrorKind::UnsupportedComparison, 1, None)
    ));
}

#[test]
fn unary_op_negates() {
    let mut vm = machine_with(vec![Values::Int(4)]);
    assert!(matches!(vm.unary_op(UnaryOp::Negate), Step::Continue));
    assert_eq!(top_int(&vm), Some(-4));
}

#[test]
fn large_floor_division_asks_for_an_integer() {
    let mut vm = machine_with(vec![Values::Int(i64::MAX), Values::Int(1)]);
    match vm.binary_op(BinaryOp::DivideDivide) {
        Step::Float(FloatRequest::Binary(BinaryOp::DivideDivide, Values::Int(a), Values::Int(1))) => {
            assert_eq!(a, i64::MAX)
        }
        other => panic!("unexpected {:?}", other),
    }
    assert!(vm.is_waiting());
    assert!(matches!(vm.resume(FloatReply::Value(Values::Float(1))), Step::Trap));
    assert!(matches!(vm.resume(FloatReply::Value(Values::Bool(true))), Step::Trap));
    assert!(matches!(vm.resume(FloatReply::Value(Values::Int(i64::MAX))), Step::Continue));
    assert_eq!(top_int(&vm), Some(i64::MAX));
}

#[test]
fn comparison_reply_must_be_a_boolean() {
    let mut vm = machine_with(vec![Values::Int(1), Values::Float(2.0f64.to_bits())]);
    assert!(matches!(vm.comparison_op(ComparisonOp::Lt), Step::Float(_)));
    assert!(matches!(vm.resume(FloatReply::Value(Values::Int(1))), Step::Trap));
    assert!(matches!(vm.resume(FloatReply::Value(Values::Bool(true))), Step::Continue));
    assert_eq!(vm.stack[0].as_bool(), Some(true));
}

#[test]
fn outcome_of_steps() {
    assert!(matches!(
        outcome_of(&Step::Done(InterpretResult::InterpretOK)),
        Some(InterpretResult::InterpretOK)
    ));
    assert!(matches!(outcome_of(&Step::UnknownOp(250)), Some(InterpretResult::InterpretCompileErr)));
    assert!(matches!(
        outcome_of(&Step::RuntimeError(RuntimeErrorKind::OperandMustBeNumber, 3, None)),
        Some(InterpretResult::InterpretRunTimeErr)
    ));
    assert!(outcome_of(&Step::Continue).is_none());
    assert!(outcome_of(&Step::Trap).is_none());
    assert!(outcome_of(&Step::Print(Values::Int(1))).is_none());
}
