use moa_vm::{
    int_div, int_rem, push_decimal, read_le, render, render_report, to_signed, ByteCursor, ErrorData, Fault,
    FloatWork, RunState, Step, VirtualMachine,
};

fn float_result(w: FloatWork) -> (bool, i64, u64) {
    match w {
        FloatWork::FromInt(a) => (true, 0, (a as f64).to_bits()),
        FloatWork::Add(a, b) => (true, 0, (f64::from_bits(a) + f64::from_bits(b)).to_bits()),
        FloatWork::Sub(a, b) => (true, 0, (f64::from_bits(a) - f64::from_bits(b)).to_bits()),
        FloatWork::Mul(a, b) => (true, 0, (f64::from_bits(a) * f64::from_bits(b)).to_bits()),
        FloatWork::Div(a, b) => (true, 0, (f64::from_bits(a) / f64::from_bits(b)).to_bits()),
        FloatWork::ToInt(a) => (false, f64::from_bits(a) as i64, 0),
    }
}

/// Runs to the end, doing the float work and collecting the diagnostics.
fn run_all(vm: &mut VirtualMachine) -> (Result<(), Fault>, String) {
    let mut out = String::new();
    loop {
        match vm.run() {
            Ok(Step::Done) => return (Ok(()), out),
            Ok(Step::Report(text)) => out.push_str(&text),
            Ok(Step::Float(w)) => {
                let (is_float, i, f) = float_result(w);
                if is_float {
                    vm.push_float(f);
                } else {
                    vm.push_int(i);
                }
            }
            Err(f) => return (Err(f), out),
        }
    }
}

fn record(kind: &str, line: u32, col: u16, span: u16, lexeme: &str, file: &str) -> Vec<u8> {
    let mut v = vec![0x10, kind.len() as u8];
    v.extend_from_slice(kind.as_bytes());
    v.extend_from_slice(&line.to_le_bytes());
    v.extend_from_slice(&col.to_le_bytes());
    v.extend_from_slice(&span.to_le_bytes());
    v.extend_from_slice(&(lexeme.len() as u16).to_le_bytes());
    v.extend_from_slice(lexeme.as_bytes());
    v.extend_from_slice(&(file.len() as u16).to_le_bytes());
    v.extend_from_slice(file.as_bytes());
    v
}

fn int_push(a: i64) -> Vec<u8> {
    let mut v = vec![0x01];
    v.extend_from_slice(&a.to_le_bytes());
    v
}

fn float_push(x: f64) -> Vec<u8> {
    let mut v = vec![0x09];
    v.extend_from_slice(&x.to_le_bytes());
    v
}

fn program(parts: &[Vec<u8>]) -> Vec<u8> {
    parts.concat()
}

#[test]
fn new_machine_is_running_and_empty() {
    let vm = VirtualMachine::new(vec![0x00]);
    assert_eq!(vm.cursor.pos, 0);
    assert_eq!(vm.state, RunState::Running);
    assert!(vm.int_stack.is_empty() && vm.float_stack.is_empty() && vm.error_stack.is_empty());
}

#[test]
fn error_data_new_keeps_fields() {
    let e = ErrorData::new("Kind".to_string(), 3, 4, 5, "lex".to_string(), "f.moa".to_string());
    assert_eq!(e.error_type, "Kind");
    assert_eq!((e.line, e.pos, e.len), (3, 4, 5));
    assert_eq!(e.lexeme, "lex");
    assert_eq!(e.file, "f.moa");
}

#[test]
fn guarded_division_leaves_quotient_and_record_depth() {
    let code = program(&[
        record("Keep", 9, 0, 1, "k", "t"),
        record("Div", 1, 0, 1, "/", "t"),
        int_push(-7),
        int_push(2),
        vec![0x05],
    ]);
    let mut vm = VirtualMachine::new(code);
    let (r, out) = run_all(&mut vm);
    assert_eq!(r, Ok(()));
    assert_eq!(vm.int_stack, vec![-3]);
    assert_eq!(vm.error_stack.len(), 1);
    assert_eq!(vm.error_stack[0].error_type, "Keep");
    assert_eq!(out, "");
}

#[test]
fn division_by_zero_halts_with_report() {
    let code = program(&[
        record("DivisionByZero", 1, 0, 1, "x", "t"),
        int_push(5),
        int_push(0),
        vec![0x05],
        int_push(99),
    ]);
    let mut vm = VirtualMachine::new(code);
    let (r, out) = run_all(&mut vm);
    assert_eq!(r, Ok(()));
    assert_eq!(vm.state, RunState::Halted);
    assert!(vm.is_halted());
    assert!(vm.int_stack.is_empty());
    assert!(vm.error_stack.is_empty());
    assert!(out.contains("DivisionByZero"));
    assert_eq!(
        out,
        "Error in \"t\" for the reason:\n    |\n  1 | x\n    | ^\n[DivisionByZero] Division by zero\n"
    );
}

#[test]
fn subtraction_takes_first_pushed_minus_second() {
    let mut vm = VirtualMachine::new(program(&[int_push(10), int_push(3), vec![0x03]]));
    assert_eq!(run_all(&mut vm).0, Ok(()));
    assert_eq!(vm.int_stack, vec![7]);
}

#[test]
fn unknown_opcode_is_inert() {
    let mut vm = VirtualMachine::new(vec![0xFF]);
    assert!(matches!(vm.execute(), Ok(Step::Done)));
    assert_eq!(vm.cursor.pos, 1);
    assert!(vm.int_stack.is_empty() && vm.float_stack.is_empty() && vm.error_stack.is_empty());
    assert_eq!(vm.state, RunState::Running);
}

#[test]
fn float_literal_round_trips() {
    let mut vm = VirtualMachine::new(float_push(18.0));
    assert_eq!(run_all(&mut vm).0, Ok(()));
    assert_eq!(vm.float_stack, vec![18.0f64.to_bits()]);
    assert_eq!(f64::from_bits(vm.float_stack[0]), 18.0);
}

#[test]
fn full_program_ends_in_a_fault() {
    let code: Vec<u8> = vec![
        0x01, 10, 0, 0, 0, 0, 0, 0, 0, 0x08, 0x01, 8, 0, 0, 0, 0, 0, 0, 0, 0x09, 0, 0, 0, 0, 0,
        0, 36, 64, 0x0A, 0x01, 7, 0, 0, 0, 0, 0, 0, 0, 0x0D,
    ];
    let last = code.len() - 1;
    let mut vm = VirtualMachine::new(code);
    let (r, _) = run_all(&mut vm);
    assert_eq!(r, Err(Fault::FloatUnderflow));
    assert_eq!(vm.cursor.pos, last);
    assert_eq!(vm.int_stack, vec![8, 7]);
    assert_eq!(vm.float_stack, vec![20.0f64.to_bits()]);
}

#[test]
fn float_division_without_record_is_a_fault() {
    let code = program(&[float_push(10.0), float_push(26.0), vec![0x0D]]);
    let mut vm = VirtualMachine::new(code);
    assert_eq!(run_all(&mut vm).0, Err(Fault::NoDiagnostic));
    assert_eq!(vm.cursor.pos, 18);
    assert_eq!(vm.float_stack, vec![10.0f64.to_bits(), 26.0f64.to_bits()]);
}

#[test]
fn integer_operators() {
    let cases: [(i64, i64, u8, i64); 6] = [
        (2, 3, 0x02, 5),
        (2, 3, 0x04, 6),
        (-7, 2, 0x06, -1),
        (7, -2, 0x06, 1),
        (i64::MAX, 1, 0x02, i64::MIN),
        (i64::MIN, 1, 0x03, i64::MAX),
    ];
    for (a, b, op, want) in cases {
        let mut vm = VirtualMachine::new(program(&[int_push(a), int_push(b), vec![op]]));
        assert_eq!(run_all(&mut vm).0, Ok(()));
        assert_eq!(vm.int_stack, vec![want]);
    }
}

#[test]
fn negation_wraps_at_the_smallest_value() {
    let mut vm = VirtualMachine::new(program(&[int_push(5), vec![0x07], int_push(i64::MIN), vec![0x07]]));
    assert_eq!(run_all(&mut vm).0, Ok(()));
    assert_eq!(vm.int_stack, vec![-5, i64::MIN]);
}

#[test]
fn division_of_smallest_by_minus_one_wraps() {
    assert_eq!(int_div(i64::MIN, -1), i64::MIN);
    assert_eq!(int_div(-7, 2), -3);
    assert_eq!(int_div(7, -2), -3);
    assert_eq!(int_div(-8, -2), 4);
    assert_eq!(int_rem(i64::MIN, -1), 0);
    assert_eq!(int_rem(-7, -2), -1);
}

#[test]
fn remainder_by_zero_is_a_fault() {
    let mut vm = VirtualMachine::new(program(&[int_push(5), int_push(0), vec![0x06]]));
    assert_eq!(run_all(&mut vm).0, Err(Fault::RemainderByZero));
    assert_eq!(vm.int_stack, vec![5, 0]);
    assert_eq!(vm.cursor.pos, 18);
}

#[test]
fn stack_underflow_faults() {
    let mut vm = VirtualMachine::new(program(&[int_push(1), vec![0x02]]));
    assert_eq!(run_all(&mut vm).0, Err(Fault::IntUnderflow));
    assert_eq!(vm.int_stack, vec![1]);
    let mut vm = VirtualMachine::new(vec![0x0E]);
    assert_eq!(run_all(&mut vm).0, Err(Fault::FloatUnderflow));
}

#[test]
fn truncated_literal_faults() {
    let mut vm = VirtualMachine::new(vec![0x01, 1, 2, 3]);
    assert_eq!(run_all(&mut vm).0, Err(Fault::Truncated));
    assert_eq!(vm.cursor.pos, 0);
    let mut vm = VirtualMachine::new(vec![0x10, 0]);
    assert_eq!(run_all(&mut vm).0, Err(Fault::Truncated));
    assert!(vm.error_stack.is_empty());
}

#[test]
fn float_arithmetic_and_conversions() {
    let code = program(&[
        float_push(1.5),
        float_push(2.0),
        vec![0x0C],
        vec![0x0E],
        float_push(0.5),
        vec![0x0B],
        vec![0x0F],
    ]);
    let mut vm = VirtualMachine::new(code);
    assert_eq!(run_all(&mut vm).0, Ok(()));
    assert_eq!(vm.int_stack, vec![-3]);
    assert!(vm.float_stack.is_empty());
}

#[test]
fn float_division_by_negative_zero_raises() {
    let code = program(&[
        record("DivisionByZero", 12, 2, 3, "a / b", "main.moa"),
        float_push(1.0),
        float_push(-0.0),
        vec![0x0D],
    ]);
    let mut vm = VirtualMachine::new(code);
    let (r, out) = run_all(&mut vm);
    assert_eq!(r, Ok(()));
    assert!(vm.is_halted());
    assert!(vm.float_stack.is_empty());
    assert_eq!(
        out,
        "Error in \"main.moa\" for the reason:\n     |\n  12 | a / b\n     |   ^^^\n[DivisionByZero] Division by zero\n"
    );
}

#[test]
fn float_division_consumes_its_record() {
    let code = program(&[record("D", 1, 0, 1, "/", "t"), float_push(3.0), float_push(2.0), vec![0x0D]]);
    let mut vm = VirtualMachine::new(code);
    assert_eq!(run_all(&mut vm).0, Ok(()));
    assert_eq!(vm.float_stack, vec![1.5f64.to_bits()]);
    assert!(vm.error_stack.is_empty());
}

#[test]
fn text_fetch_guards_its_bounds() {
    let mut c = ByteCursor { bytes: vec![b'h', b'i', 0xFF], pos: 0 };
    assert_eq!(c.utf8_fetch(5), "");
    assert_eq!(c.pos, 0);
    assert_eq!(c.utf8_fetch(3), "hi\u{FFFD}");
    assert_eq!(c.pos, 3);
}

#[test]
fn fixed_width_fetches() {
    let mut c = ByteCursor { bytes: vec![0x34, 0x12, 0x78, 0x56, 0x34, 0x12, 9], pos: 0 };
    assert_eq!(c.u16_fetch(), Some(0x1234));
    assert_eq!(c.u32_fetch(), Some(0x1234_5678));
    assert_eq!(c.u16_fetch(), None);
    assert_eq!(c.pos, 6);
    assert_eq!(c.u8_fetch(), Some(9));
    assert_eq!(c.u8_fetch(), None);
    assert_eq!(read_le(&vec![0xFF; 8], 0, 8), u64::MAX);
    assert_eq!(to_signed(u64::MAX), -1);
    assert_eq!(to_signed(1 << 63), i64::MIN);
}

#[test]
fn record_fetch_decodes_fields() {
    let mut c = ByteCursor { bytes: record("K", 70000, 3, 4, "lx", "f")[1..].to_vec(), pos: 0 };
    let e = c.error_fetch().unwrap();
    assert_eq!(e.error_type, "K");
    assert_eq!((e.line, e.pos, e.len), (70000, 3, 4));
    assert_eq!(e.lexeme, "lx");
    assert_eq!(e.file, "f");
    assert_eq!(c.pos, c.bytes.len());
}

#[test]
fn decimal_and_render() {
    let mut s = String::from("n=");
    push_decimal(&mut s, 4_294_967_295);
    assert_eq!(s, "n=4294967295");
    let e = ErrorData::new("T".to_string(), 0, 0, 0, "".to_string(), "a\"b".to_string());
    assert_eq!(render(&e, "m"), "Error in \"a\\\"b\" for the reason:\n    |\n  0 | \n    | \n[T] m\n");
}

#[test]
fn report_layout_from_shown_file_name() {
    let e = ErrorData::new("Kind".to_string(), 105, 1, 2, "x + y".to_string(), "m".to_string());
    assert_eq!(
        render_report(&e, "<m>", "why"),
        "Error in <m> for the reason:\n      |\n  105 | x + y\n      |  ^^\n[Kind] why\n"
    );
}
