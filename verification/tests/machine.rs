use hiwkhao::isa::Arith;
use hiwkhao::{
    generate_assembly, generate_code, parse_iloc, tokenize, Demand, Expr, Fault, Parser, Real,
    Step, Token, Value, VM,
};

fn number(x: f64) -> Real {
    Real::new(x.to_bits(), format!("{}", x), format!("{:.1}", x))
}

fn learn_reals(parser: &mut Parser, tokens: &[Token]) {
    for token in tokens {
        if let Token::REAL(lexeme) = token {
            if let Ok(x) = lexeme.parse::<f64>() {
                parser.define_real(lexeme.clone(), number(x));
            }
        }
    }
}

fn answer(demand: &Demand) -> Real {
    match demand {
        Demand::Read(text) => number(text.parse::<f64>().unwrap()),
        Demand::Combine(op, a, b) => {
            let x = f64::from_bits(a.bits);
            let y = f64::from_bits(b.bits);
            number(match op {
                Arith::Add => x + y,
                Arith::Sub => x - y,
                Arith::Mul => x * y,
                Arith::Div => x / y,
            })
        }
    }
}

fn run_to_end(vm: &mut VM) -> Step {
    let mut step = vm.run();
    loop {
        match step {
            Step::Awaits(demand) => match vm.resume(answer(&demand)) {
                Step::Done => step = vm.run(),
                other => step = other,
            },
            other => return other,
        }
    }
}

fn lines(program: &[&str]) -> Vec<String> {
    program.iter().map(|l| l.to_string()).collect()
}

fn run_program(program: &[&str]) -> (VM, Step) {
    let mut vm = VM::new(1024);
    vm.load_program(lines(program));
    let step = run_to_end(&mut vm);
    (vm, step)
}

fn output_of(program: &[&str]) -> Vec<String> {
    let (vm, step) = run_program(program);
    assert!(matches!(step, Step::Halted), "{:?}", step);
    vm.get_output().clone()
}

fn run_source(source: &str) -> Vec<String> {
    let tokens = tokenize(source);
    let mut parser = Parser::new(vec![]);
    learn_reals(&mut parser, &tokens);
    let parsed = parser.parse_tokens(tokens);
    let code = generate_code(parsed);
    let mut vm = VM::new(1024);
    vm.load_program(code);
    let step = run_to_end(&mut vm);
    assert!(matches!(step, Step::Halted), "{:?}", step);
    vm.get_output().clone()
}

#[test]
fn adds_two_integers() {
    let expr = Expr::BinaryOp(Box::new(Expr::Int(23)), String::from("+"), Box::new(Expr::Int(8)));
    let program = generate_assembly(&expr);
    assert_eq!(program, vec!["LD R0 #23", "LD R1 #8", "ADD.i R2 R0 R1", "ST @print R2"]);
    let mut vm = VM::new(1024);
    vm.load_program(program);
    assert!(matches!(vm.run(), Step::Halted));
    assert_eq!(vm.get_output(), &vec![String::from("31")]);
}

#[test]
fn sum_of_two_literals_is_printed() {
    assert_eq!(run_source("23+8"), vec!["31"]);
}

#[test]
fn variable_is_read_after_assignment() {
    assert_eq!(run_source("x=5\n10*x"), vec!["50"]);
}

#[test]
fn division_by_literal_zero_runs_nothing() {
    let tokens = tokenize("1/0");
    let mut parser = Parser::new(vec![]);
    let parsed = parser.parse_tokens(tokens);
    assert_eq!(parsed.len(), 1);
    assert!(matches!(parsed[0], Err(hiwkhao::ParseError::DivisionByZero(_))));
    let code = generate_code(parsed);
    assert_eq!(code, vec!["ERROR", ""]);
    let mut vm = VM::new(64);
    vm.load_program(code);
    assert!(vm.get_program().is_empty());
    assert!(matches!(vm.step(), Step::Halted));
    assert!(vm.get_output().is_empty());
}

#[test]
fn list_element_is_written_and_read() {
    assert_eq!(run_source("x = list[2]\nx[0] = 5\nx[0]"), vec!["5"]);
}

fn native(op: &str, a: i32, b: i32) -> i32 {
    match op {
        "+" => a.wrapping_add(b),
        "-" => a.wrapping_sub(b),
        "*" => a.wrapping_mul(b),
        "/" => a.wrapping_div(b),
        "==" => (a == b) as i32,
        "!=" => (a != b) as i32,
        "<" => (a < b) as i32,
        ">" => (a > b) as i32,
        "<=" => (a <= b) as i32,
        ">=" => (a >= b) as i32,
        _ => unreachable!(),
    }
}

#[test]
fn integer_operations_print_their_value() {
    let values = [0, 1, -1, 2, 7, -7, 23, 8, 100, -100, 46341, i32::MAX, i32::MIN, i32::MAX - 1];
    let ops = ["+", "-", "*", "/", "==", "!=", "<", ">", "<=", ">="];
    for op in ops {
        for a in values {
            for b in values {
                if op == "/" && b == 0 {
                    continue;
                }
                let expr = Expr::BinaryOp(
                    Box::new(Expr::Int(a as i64)),
                    String::from(op),
                    Box::new(Expr::Int(b as i64)),
                );
                let mut vm = VM::new(16);
                vm.load_program(generate_assembly(&expr));
                assert!(matches!(vm.run(), Step::Halted));
                assert_eq!(vm.get_output(), &vec![native(op, a, b).to_string()], "{} {} {}", a, op, b);
            }
        }
    }
}

#[test]
fn integer_literal_outside_32_bits_is_malformed() {
    let expr = Expr::BinaryOp(
        Box::new(Expr::Int(2147483648)),
        String::from("+"),
        Box::new(Expr::Int(1)),
    );
    let mut vm = VM::new(16);
    vm.load_program(generate_assembly(&expr));
    assert!(matches!(vm.run(), Step::Fault(Fault::Malformed)));
    assert!(vm.get_output().is_empty());
}

#[test]
fn fresh_machine_is_empty() {
    let vm = VM::new(8);
    let (registers, memory, pc) = vm.get_state();
    assert_eq!(registers.len(), 0);
    assert_eq!(memory, &vec![0u8; 8]);
    assert_eq!(pc, 0);
    assert!(vm.get_program().is_empty());
    assert!(vm.get_output().is_empty());
}

#[test]
fn step_past_the_end_does_nothing() {
    let mut vm = VM::new(8);
    assert!(matches!(vm.step(), Step::Halted));
    vm.load_program(lines(&["LD R0 #1"]));
    assert!(matches!(vm.step(), Step::Done));
    assert!(matches!(vm.step(), Step::Halted));
    assert!(matches!(vm.step(), Step::Halted));
    let (_, _, pc) = vm.get_state();
    assert_eq!(pc, 1);
}

#[test]
fn loader_skips_marks_comments_and_blank_lines() {
    let mut vm = VM::new(8);
    vm.load_program(lines(&["", "  ", "// a comment", "ERROR", "LD R0 #1", "  ERROR  ", "ST @print R0"]));
    assert_eq!(vm.get_program(), vec!["LD R0 #1", "ST @print R0"]);
    assert!(matches!(vm.run(), Step::Halted));
    assert_eq!(vm.get_output(), &vec![String::from("1")]);
}

#[test]
fn reloading_starts_the_program_again() {
    let mut vm = VM::new(8);
    vm.load_program(lines(&["LD R0 #1", "ST @print R0"]));
    assert!(matches!(vm.run(), Step::Halted));
    vm.load_program(lines(&["ST @print R0"]));
    let (_, _, pc) = vm.get_state();
    assert_eq!(pc, 0);
    assert!(matches!(vm.run(), Step::Halted));
    assert_eq!(vm.get_output(), &vec![String::from("1"), String::from("1")]);
    vm.clear_output();
    assert!(vm.get_output().is_empty());
}

#[test]
fn unknown_opcode_is_fatal() {
    let (vm, step) = run_program(&["LD R0 #1", "MOV R1 R0", "ST @print R0"]);
    assert!(matches!(step, Step::Fault(Fault::UnknownOpcode)));
    let (_, _, pc) = vm.get_state();
    assert_eq!(pc, 1);
    assert!(vm.get_output().is_empty());
}

#[test]
fn a_fault_stays() {
    let mut vm = VM::new(8);
    vm.load_program(lines(&["ADD R0 R1 R2"]));
    assert_eq!(vm.fault(), Some(Fault::UnknownOpcode));
    assert!(matches!(vm.run(), Step::Fault(Fault::UnknownOpcode)));
    assert_eq!(vm.fault(), Some(Fault::UnknownOpcode));
    assert!(matches!(vm.run(), Step::Fault(Fault::UnknownOpcode)));
    let (_, _, pc) = vm.get_state();
    assert_eq!(pc, 0);
}

#[test]
fn a_fault_is_told_before_the_step() {
    let mut vm = VM::new(8);
    assert_eq!(vm.fault(), None);
    vm.load_program(lines(&["LD R0 #6", "LD R1 #0", "DIV.i R2 R0 R1", "ST @print R2"]));
    assert_eq!(vm.fault(), None);
    assert!(matches!(vm.step(), Step::Done));
    assert_eq!(vm.fault(), None);
    assert!(matches!(vm.step(), Step::Done));
    assert_eq!(vm.fault(), Some(Fault::DivisionByZero));
    let (registers, memory, pc) = vm.get_state();
    assert_eq!(registers.len(), 2);
    assert_eq!(memory, &vec![0u8; 8]);
    assert_eq!(pc, 2);
    assert!(vm.get_output().is_empty());
    assert_eq!(vm.get_program().len(), 4);

    let mut vm = VM::new(16);
    vm.load_program(lines(&["ST @print R0"]));
    assert_eq!(vm.fault(), Some(Fault::UnwrittenRegister));
    assert!(vm.get_output().is_empty());

    let mut vm = VM::new(16);
    vm.load_program(lines(&["LD R0 #6", "LD R1 #0", "DIV.f R2 R0 R1"]));
    assert!(matches!(vm.step(), Step::Done));
    assert!(matches!(vm.step(), Step::Done));
    assert_eq!(vm.fault(), Some(Fault::DivisionByZero));

    let mut vm = VM::new(2);
    vm.load_program(lines(&["LD R0 #6", "ST @x R0"]));
    assert!(matches!(vm.step(), Step::Done));
    assert_eq!(vm.fault(), Some(Fault::OutOfBounds));

    let mut vm = VM::new(8);
    vm.load_program(lines(&["LD R0 #2.5", "ADD.f R1 R0 R0", "ST @print R1"]));
    assert_eq!(vm.fault(), None);
    assert!(matches!(vm.step(), Step::Awaits(Demand::Read(_))));
    assert_eq!(vm.fault(), None);
    assert!(matches!(vm.resume(number(2.5)), Step::Done));
    assert_eq!(vm.fault(), None);
    assert!(matches!(vm.step(), Step::Awaits(Demand::Combine(Arith::Add, _, _))));
    assert!(matches!(vm.resume(number(5.0)), Step::Done));
    assert_eq!(vm.fault(), None);
    assert!(matches!(vm.step(), Step::Done));
    assert_eq!(vm.fault(), None);
    assert!(matches!(vm.step(), Step::Halted));
    assert_eq!(vm.get_output(), &vec![String::from("5")]);
}

#[test]
fn missing_operand_is_malformed() {
    assert!(matches!(run_program(&["LD R0"]).1, Step::Fault(Fault::Malformed)));
    assert!(matches!(run_program(&["ST @print"]).1, Step::Fault(Fault::Malformed)));
    assert!(matches!(run_program(&["LD R0 #1", "ADD.i R1 R0"]).1, Step::Fault(Fault::Malformed)));
    assert!(matches!(run_program(&["LD R0 #x"]).1, Step::Fault(Fault::Malformed)));
    assert!(matches!(run_program(&["LD R0 #"]).1, Step::Fault(Fault::Malformed)));
    assert!(matches!(run_program(&["LD R0 #2147483648"]).1, Step::Fault(Fault::Malformed)));
}

#[test]
fn unwritten_register_is_fatal() {
    assert!(matches!(run_program(&["ST @print R0"]).1, Step::Fault(Fault::UnwrittenRegister)));
    assert!(matches!(run_program(&["LD R1 R0"]).1, Step::Fault(Fault::UnwrittenRegister)));
    assert!(matches!(
        run_program(&["LD R0 #1", "ADD.i R2 R0 R1"]).1,
        Step::Fault(Fault::UnwrittenRegister)
    ));
    assert!(matches!(run_program(&["EQ.i R2 R0 R1"]).1, Step::Fault(Fault::UnwrittenRegister)));
    assert!(matches!(run_program(&["FL.i R1 R0"]).1, Step::Fault(Fault::UnwrittenRegister)));
    assert!(matches!(run_program(&["NEG.i R1 R0"]).1, Step::Fault(Fault::UnwrittenRegister)));
    assert!(matches!(run_program(&["print R0"]).1, Step::Fault(Fault::UnwrittenRegister)));
    assert!(matches!(
        run_program(&["LD R0 #1", "ST R1 R0"]).1,
        Step::Fault(Fault::UnwrittenRegister)
    ));
}

#[test]
fn division_by_zero_is_fatal() {
    let (vm, step) = run_program(&["LD R0 #1", "LD R1 #0", "DIV.i R2 R0 R1", "ST @print R2"]);
    assert!(matches!(step, Step::Fault(Fault::DivisionByZero)));
    assert!(vm.get_output().is_empty());
    let (_, step) = run_program(&["LD R0 #1.5", "LD R1 #0.0", "DIV.f R2 R0 R1"]);
    assert!(matches!(step, Step::Fault(Fault::DivisionByZero)));
    let (_, step) = run_program(&["LD R0 #1.5", "LD R1 #-0.0", "DIV.f R2 R0 R1"]);
    assert!(matches!(step, Step::Fault(Fault::DivisionByZero)));
    let (_, step) = run_program(&["LD R0 #1.5", "LD R1 #0", "DIV.f R2 R0 R1"]);
    assert!(matches!(step, Step::Fault(Fault::DivisionByZero)));
}

#[test]
fn memory_outside_is_fatal() {
    let mut vm = VM::new(8);
    vm.load_program(lines(&["LD R0 #5", "LD R1 @6"]));
    assert!(matches!(vm.run(), Step::Fault(Fault::OutOfBounds)));
    let mut vm = VM::new(8);
    vm.load_program(lines(&["LD R0 #5", "ST R0 R0"]));
    assert!(matches!(vm.run(), Step::Fault(Fault::OutOfBounds)));
    let mut vm = VM::new(8);
    vm.load_program(lines(&["LD R0 #-4", "ST R0 R0"]));
    assert!(matches!(vm.run(), Step::Fault(Fault::OutOfBounds)));
    let mut vm = VM::new(8);
    vm.load_program(lines(&["LD R0 #4", "ST R0 R0", "LD R1 R0"]));
    assert!(matches!(vm.run(), Step::Halted));
    let mut vm = VM::new(3);
    vm.load_program(lines(&["LD R0 #0", "ST @x R0"]));
    assert!(matches!(vm.run(), Step::Fault(Fault::OutOfBounds)));
    let (_, memory, pc) = vm.get_state();
    assert_eq!(memory, &vec![0u8; 3]);
    assert_eq!(pc, 1);
}

#[test]
fn integer_arithmetic_wraps() {
    assert_eq!(
        output_of(&["LD R0 #2147483647", "LD R1 #1", "ADD.i R2 R0 R1", "ST @print R2"]),
        vec!["-2147483648"]
    );
    assert_eq!(
        output_of(&["LD R0 #-2147483648", "LD R1 #1", "SUB.i R2 R0 R1", "ST @print R2"]),
        vec!["2147483647"]
    );
    assert_eq!(
        output_of(&["LD R0 #65536", "LD R1 #65536", "MUL.i R2 R0 R1", "ST @print R2"]),
        vec!["0"]
    );
    assert_eq!(
        output_of(&["LD R0 #-2147483648", "LD R1 #-1", "DIV.i R2 R0 R1", "ST @print R2"]),
        vec!["-2147483648"]
    );
    assert_eq!(
        output_of(&["LD R0 #-7", "LD R1 #2", "DIV.i R2 R0 R1", "ST @print R2"]),
        vec!["-3"]
    );
    assert_eq!(
        output_of(&["LD R0 #-2147483648", "NEG.i R1 R0", "ST @print R1"]),
        vec!["-2147483648"]
    );
}

#[test]
fn immediates_are_integers_or_reals() {
    assert_eq!(output_of(&["LD R0 #42", "ST @print R0"]), vec!["42"]);
    assert_eq!(output_of(&["LD R0 #+42", "ST @print R0"]), vec!["42"]);
    assert_eq!(output_of(&["LD R0 #-42", "ST @print R0"]), vec!["-42"]);
    assert_eq!(output_of(&["LD R0 #3.14", "ST @print R0"]), vec!["3.14"]);
    assert_eq!(output_of(&["LD R0 #2.0", "ST @print R0"]), vec!["2"]);
    assert_eq!(output_of(&["LD R0 #-0.5", "ST @print R0"]), vec!["-0.5"]);
}

#[test]
fn a_real_literal_is_asked_for() {
    let mut vm = VM::new(8);
    vm.load_program(lines(&["LD R0 #2.5", "ST @print R0"]));
    match vm.step() {
        Step::Awaits(Demand::Read(text)) => assert_eq!(text, "2.5"),
        other => panic!("{:?}", other),
    }
    let (registers, _, pc) = vm.get_state();
    assert_eq!(registers.len(), 0);
    assert_eq!(pc, 0);
    assert!(matches!(vm.run(), Step::Awaits(Demand::Read(_))));
    assert!(matches!(vm.resume(number(2.5)), Step::Done));
    assert!(matches!(vm.run(), Step::Halted));
    assert_eq!(vm.get_output(), &vec![String::from("2.5")]);
}

#[test]
fn real_arithmetic_is_asked_for() {
    let mut vm = VM::new(8);
    vm.load_program(lines(&["LD R0 #7", "LD R1 #2", "SUB.f R2 R0 R1", "ST @print R2"]));
    match vm.run() {
        Step::Awaits(Demand::Combine(op, a, b)) => {
            assert_eq!(op, Arith::Sub);
            assert_eq!(a.bits, 7.0f64.to_bits());
            assert_eq!(a.text, "7");
            assert_eq!(a.fixed, "7.0");
            assert_eq!(b.bits, 2.0f64.to_bits());
        }
        other => panic!("{:?}", other),
    }
    assert!(matches!(vm.resume(number(5.0)), Step::Done));
    assert!(matches!(vm.run(), Step::Halted));
    assert_eq!(vm.get_output(), &vec![String::from("5")]);
}

#[test]
fn an_answer_nobody_asked_for_is_ignored() {
    let mut vm = VM::new(8);
    vm.load_program(lines(&["LD R0 #7", "ST @print R0"]));
    assert!(matches!(vm.resume(number(1.5)), Step::Done));
    assert!(matches!(vm.resume(number(1.5)), Step::Done));
    assert!(matches!(vm.resume(number(1.5)), Step::Halted));
    assert_eq!(vm.get_output(), &vec![String::from("7")]);
}

#[test]
fn real_arithmetic() {
    assert_eq!(
        output_of(&["LD R0 #1.5", "LD R1 #2.25", "ADD.f R2 R0 R1", "ST @print R2"]),
        vec!["3.75"]
    );
    assert_eq!(
        output_of(&["LD R0 #1", "LD R1 #4", "DIV.f R2 R0 R1", "ST @print R2"]),
        vec!["0.25"]
    );
    assert_eq!(
        output_of(&["LD R0 #2.5", "LD R1 #0", "FL.i R1 R1", "MUL.f R2 R0 R1", "ST @print R2"]),
        vec!["0"]
    );
    assert_eq!(
        output_of(&["LD R0 #7.9", "LD R1 #2.9", "ADD.i R2 R0 R1", "ST @print R2"]),
        vec!["9"]
    );
}

#[test]
fn comparisons_need_values_of_their_kind() {
    assert_eq!(output_of(&["LD R0 #1", "LD R1 #2", "LT.i R2 R0 R1", "ST @print R2"]), vec!["1"]);
    assert_eq!(output_of(&["LD R0 #1", "LD R1 #2", "GT.i R2 R0 R1", "ST @print R2"]), vec!["0"]);
    assert_eq!(output_of(&["LD R0 #1", "LD R1 #2", "LT.f R2 R0 R1", "ST @print R2"]), vec!["0"]);
    assert_eq!(
        output_of(&["LD R0 #1.5", "LD R1 #2.5", "LT.f R2 R0 R1", "ST @print R2"]),
        vec!["1"]
    );
    assert_eq!(
        output_of(&["LD R0 #1.5", "LD R1 #2.5", "LT.i R2 R0 R1", "ST @print R2"]),
        vec!["0"]
    );
    assert_eq!(
        output_of(&["LD R0 #1", "LD R1 #2.5", "LE.f R2 R0 R1", "ST @print R2"]),
        vec!["0"]
    );
    assert_eq!(
        output_of(&["LD R0 #1", "LD R1 #2.5", "FL.i R0 R0", "LE.f R2 R0 R1", "ST @print R2"]),
        vec!["1"]
    );
    assert_eq!(
        output_of(&["LD R0 #2.5", "LD R1 #2.5", "NE.f R2 R0 R1", "ST @print R2"]),
        vec!["0"]
    );
    assert_eq!(
        output_of(&["LD R0 #2.5", "LD R1 #2.5", "GE.f R2 R0 R1", "ST @print R2"]),
        vec!["1"]
    );
    assert_eq!(
        output_of(&["LD R0 #5", "LD R1 #5", "EQ.i R2 R0 R1", "ST @print R2"]),
        vec!["1"]
    );
}

#[test]
fn conversions_and_negations() {
    assert_eq!(output_of(&["LD R0 #5", "FL.i R1 R0", "ST @print R1"]), vec!["5"]);
    assert_eq!(output_of(&["LD R0 #2.5", "FL.i R1 R0", "ST @print R1"]), vec!["2.5"]);
    assert_eq!(output_of(&["LD R0 #5", "NEG.i R1 R0", "ST @print R1"]), vec!["-5"]);
    assert_eq!(output_of(&["LD R0 #2.9", "NEG.i R1 R0", "ST @print R1"]), vec!["-2"]);
    assert_eq!(output_of(&["LD R0 #5", "NEG.f R1 R0", "ST @print R1"]), vec!["-5"]);
    assert_eq!(output_of(&["LD R0 #0", "NEG.f R1 R0", "ST @print R1"]), vec!["-0"]);
    assert_eq!(output_of(&["LD R0 #-2.5", "NEG.f R1 R0", "ST @print R1"]), vec!["2.5"]);
}

#[test]
fn values_show_themselves() {
    assert_eq!(Value::Int(-3).to_string(), "-3");
    assert_eq!(Value::Float(number(0.1)).to_string(), "0.1");
    assert_eq!(Value::Int(7).as_int(), 7);
    assert_eq!(Value::Float(number(7.9)).as_int(), 7);
    assert_eq!(Value::Float(number(-7.9)).as_int(), -7);
    assert_eq!(Value::Float(number(1e20)).as_int(), i32::MAX);
    assert_eq!(Value::Float(number(f64::NAN)).as_int(), 0);
    assert_eq!(Value::Int(7).as_float().bits, 7.0f64.to_bits());
    assert_eq!(Value::Float(number(7.5)).as_float().bits, 7.5f64.to_bits());
    assert!(matches!(Value::Int(7).copy(), Value::Int(7)));
}

#[test]
fn names_are_bound_on_their_first_store() {
    let (vm, step) = run_program(&[
        "LD R0 #1",
        "ST @a R0",
        "LD R1 #3",
        "ST @b R1",
        "LD R2 #-9",
        "ST @c R2",
        "LD R3 #2.5",
        "ST @d R3",
        "LD R4 #7",
        "ST @a R4",
    ]);
    assert!(matches!(step, Step::Halted));
    let (_, memory, _) = vm.get_state();
    // a: four bytes at 0; b: twelve bytes at 4; c: four bytes at 16; d: four bytes at 20
    assert_eq!(&memory[0..4], &7i32.to_le_bytes());
    assert_eq!(&memory[4..8], &3i32.to_le_bytes());
    assert_eq!(&memory[8..16], &[0u8; 8]);
    assert_eq!(&memory[16..20], &(-9i32).to_le_bytes());
    assert_eq!(&memory[20..24], &[0u8; 4]);
    assert_eq!(&memory[20..24], &2.5f64.to_le_bytes()[0..4]);
    assert_eq!(&memory[24..28], &[0u8; 4]);
}

#[test]
fn a_real_number_is_stored_as_the_low_half_of_its_pattern() {
    let (vm, step) = run_program(&["LD R0 #0.1", "ST @x R0", "LD R1 #-7.9", "ST @y R1"]);
    assert!(matches!(step, Step::Halted));
    let (_, memory, _) = vm.get_state();
    assert_eq!(&memory[0..4], &[0x9a, 0x99, 0x99, 0x99]);
    assert_eq!(&memory[0..4], &0.1f64.to_le_bytes()[0..4]);
    assert_eq!(&memory[4..8], &(-7.9f64).to_le_bytes()[0..4]);
    assert_eq!(&memory[8..12], &[0u8; 4]);
    assert_eq!(Value::Float(number(2.5)).as_word(), 0);
    assert_eq!(Value::Float(number(0.1)).as_word(), 0x9999999au32 as i32);
    assert_eq!(Value::Float(number(0.1)).as_word(), -1717986918);
    assert_eq!(Value::Float(number(1.0e-320)).as_word(), 2024);
    assert_eq!(Value::Int(-7).as_word(), -7);
    assert_eq!(Value::Int(i32::MIN).as_word(), i32::MIN);
}

#[test]
fn the_last_store_is_read() {
    assert_eq!(
        output_of(&[
            "LD R0 #5",
            "ST @x R0",
            "LD R0 #-6",
            "ST @x R0",
            "LD R1 @x",
            "ST @print R1",
        ]),
        vec!["-6"]
    );
    assert_eq!(
        output_of(&["LD R0 #7.9", "ST @x R0", "LD R1 @x", "ST @print R1"]),
        vec!["-1717986918"]
    );
    assert_eq!(
        output_of(&["LD R0 #2.5", "ST @x R0", "LD R1 @x", "ST @print R1"]),
        vec!["0"]
    );
}

#[test]
fn a_block_is_cleared_when_it_is_bound() {
    let (vm, step) = run_program(&[
        "LD R0 #4",
        "LD R1 #99",
        "ST R0 R1",
        "LD R2 #2",
        "ST @x R2",
    ]);
    assert!(matches!(step, Step::Halted));
    let (_, memory, _) = vm.get_state();
    assert_eq!(&memory[0..4], &2i32.to_le_bytes());
    assert_eq!(&memory[4..8], &[0u8; 4]);
}

#[test]
fn a_load_from_a_register_goes_through_its_address() {
    assert_eq!(
        output_of(&[
            "LD R0 #8",
            "LD R1 #77",
            "ST R0 R1",
            "LD R2 R0",
            "ST @print R2",
            "LD R3 @8",
            "ST @print R3",
        ]),
        vec!["77", "77"]
    );
    assert_eq!(output_of(&["LD R0 #-8", "LD R1 R0", "ST @print R1"]), vec!["-8"]);
    assert_eq!(output_of(&["LD R0 #1.5", "LD R1 R0", "ST @print R1"]), vec!["1.5"]);
    assert_eq!(output_of(&["LD R1 @nowhere", "ST @print R1"]), vec!["0"]);
}

#[test]
fn print_reads_its_register_only() {
    let (vm, step) = run_program(&["LD R0 #1", "print R0"]);
    assert!(matches!(step, Step::Halted));
    assert!(vm.get_output().is_empty());
}

#[test]
fn words_behind_the_operands_are_not_read() {
    assert_eq!(output_of(&["LD R0 #1 and more", "  ST   @print \t R0  "]), vec!["1"]);
}

#[test]
fn program_text_is_read_into_lines() {
    let text = "LD R0 #42\n\n  // comment\n   ST @print R0   \nERROR\n//x\n";
    assert_eq!(parse_iloc(text), Ok(lines(&["LD R0 #42", "ST @print R0", "ERROR"])));
    assert_eq!(parse_iloc(""), Ok(vec![]));
    assert_eq!(parse_iloc("\n\n"), Ok(vec![]));
    assert_eq!(parse_iloc("a\r\nb"), Ok(lines(&["a", "b"])));
    assert_eq!(parse_iloc("/ /"), Ok(lines(&["/ /"])));
}

#[test]
fn listing_puts_empty_lines_between_statements() {
    let tokens = tokenize("23+8\nx=y\nz=w\nx=5\n1 2\n10*x");
    let mut parser = Parser::new(vec![]);
    let parsed = parser.parse_tokens(tokens);
    assert_eq!(parsed.len(), 6);
    let code = generate_code(parsed);
    assert_eq!(
        code,
        vec![
            "LD R0 #23",
            "LD R1 #8",
            "ADD.i R2 R0 R1",
            "ST @print R2",
            "",
            "ERROR",
            "",
            "ERROR",
            "",
            "LD R0 #5",
            "ST @x R0",
            "",
            "ERROR",
            "",
            "LD R0 #10",
            "LD R1 @x",
            "MUL.i R2 R0 R1",
            "ST @print R2",
            "",
        ]
    );
    assert_eq!(generate_code(vec![]), vec![""]);
}

#[test]
fn real_numbers_run_through_the_whole_pipeline() {
    assert_eq!(run_source("2.5 * 4"), vec!["10"]);
    assert_eq!(run_source("1 / 4.0"), vec!["0.25"]);
    assert_eq!(run_source("x = 5\nx != 5"), vec!["0"]);
    assert_eq!(run_source("x = 5\nx != 6"), vec!["1"]);
    assert_eq!(run_source("x = 5\n-x < 0"), vec!["1"]);
}
