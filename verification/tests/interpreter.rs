//! End-to-end tests: token programs through the decoder and the machine.
//!
//! Programs are written with `S`, `T` and `L` standing for space, tab and
//! line feed; any other character is insignificant to the decoder and
//! doubles as a comment.

use albus::decode::parse;
use albus::num::Number;
use albus::store::heap_entries;
use albus::vm::{Event, Vm, VmError};

fn toks(s: &str) -> Vec<u8> {
    s.bytes()
        .map(|b| match b {
            b'S' => b' ',
            b'T' => b'\t',
            b'L' => b'\n',
            other => other,
        })
        .collect()
}

fn arg(v: i64) -> String {
    let mut s = String::new();
    s.push(if v < 0 { 'T' } else { 'S' });
    let mag = v.unsigned_abs();
    if mag > 0 {
        for c in format!("{:b}", mag).chars() {
            s.push(if c == '1' { 'T' } else { 'S' });
        }
    }
    s.push('L');
    s
}

fn push(v: i64) -> String {
    format!("SS{}", arg(v))
}

fn run_program(text: &str) -> (Vm, Event) {
    let src = toks(text);
    let (insns, labels) = parse(&src);
    let mut vm = Vm::new();
    let ev = loop {
        match vm.run(&insns, &labels, 100_000) {
            Event::More => continue,
            other => break other,
        }
    };
    (vm, ev)
}

fn num_i64(n: &Number) -> i64 {
    let mag: i64 = match n.limbs.len() {
        0 => 0,
        1 => n.limbs[0] as i64,
        _ => panic!("value too large for this test"),
    };
    if n.neg { -mag } else { mag }
}

#[test]
fn push_only_program_leaves_pushed_values_in_order() {
    let (vm, ev) = run_program(&format!("{}{}{}LLL", push(1), push(2), push(3)));
    assert!(matches!(ev, Event::Done));
    let got: Vec<i64> = vm.stack.iter().map(num_i64).collect();
    assert_eq!(got, vec![1, 2, 3]);
}

#[test]
fn truncated_final_instruction_is_dropped() {
    // A Push whose argument never reaches its terminator decodes to nothing.
    let (vm, ev) = run_program("SSSTT");
    assert!(matches!(ev, Event::Done));
    assert_eq!(vm.stack.len(), 0);
    assert_eq!(vm.count, 0);
}

#[test]
fn comment_characters_are_insignificant() {
    let (vm, ev) = run_program("push.SS.one.STL.then.exit.LLL");
    assert!(matches!(ev, Event::Done));
    let got: Vec<i64> = vm.stack.iter().map(num_i64).collect();
    assert_eq!(got, vec![1]);
}

#[test]
fn negative_zero_argument_is_zero() {
    let (vm, ev) = run_program("SSTLLLL");
    assert!(matches!(ev, Event::Done));
    assert!(!vm.stack[0].neg);
    assert_eq!(vm.stack[0].limbs, Vec::<u32>::new());
}

#[test]
fn dup_then_add_doubles_the_top() {
    let (vm, ev) = run_program(&format!("{}SLSTSSSLLL", push(7)));
    assert!(matches!(ev, Event::Done));
    let got: Vec<i64> = vm.stack.iter().map(num_i64).collect();
    assert_eq!(got, vec![14]);
}

#[test]
fn dup_then_add_doubles_a_huge_value() {
    // 2^70 + 3 exceeds any native integer width the machine could fall
    // back to; doubling must still be exact.
    let huge: u128 = (1u128 << 70) + 3;
    let mut text = String::from("SSS");
    for c in format!("{:b}", huge).chars() {
        text.push(if c == '1' { 'T' } else { 'S' });
    }
    text.push('L');
    // Dup, Add, PrintNumber, Exit.
    text.push_str("SLSTSSSTLSTLLL");
    let (vm, ev) = run_program(&text);
    assert!(matches!(ev, Event::Done));
    assert_eq!(vm.out, format!("{}", 2 * huge).into_bytes());
    assert_eq!(vm.stack.len(), 0);
}

#[test]
fn sub_takes_the_top_from_the_second() {
    let (vm, ev) = run_program(&format!("{}{}TSSTLLL", push(5), push(3)));
    assert!(matches!(ev, Event::Done));
    let got: Vec<i64> = vm.stack.iter().map(num_i64).collect();
    assert_eq!(got, vec![2]);
}

#[test]
fn mul_multiplies_the_top_two() {
    let (vm, ev) = run_program(&format!("{}{}TSSLTLSTLLL", push(6), push(-7)));
    assert!(matches!(ev, Event::Done));
    assert_eq!(vm.out, b"-42".to_vec());
}

#[test]
fn swap_exchanges_the_top_two() {
    let (vm, ev) = run_program(&format!("{}{}SLTLLL", push(1), push(2)));
    assert!(matches!(ev, Event::Done));
    let got: Vec<i64> = vm.stack.iter().map(num_i64).collect();
    assert_eq!(got, vec![2, 1]);
}

#[test]
fn copy_appends_without_touching_the_rest() {
    let (vm, ev) = run_program(&format!("{}{}{}STS{}LLL", push(1), push(2), push(3), arg(1)));
    assert!(matches!(ev, Event::Done));
    let got: Vec<i64> = vm.stack.iter().map(num_i64).collect();
    assert_eq!(got, vec![1, 2, 3, 2]);
}

#[test]
fn slide_reduces_depth_by_n_and_keeps_the_top() {
    let (vm, ev) = run_program(&format!("{}{}{}STL{}LLL", push(1), push(2), push(3), arg(2)));
    assert!(matches!(ev, Event::Done));
    let got: Vec<i64> = vm.stack.iter().map(num_i64).collect();
    assert_eq!(got, vec![3]);
}

#[test]
fn copy_beyond_depth_is_stack_underflow() {
    let (_, ev) = run_program(&format!("{}STS{}LLL", push(1), arg(4)));
    assert!(matches!(ev, Event::Fatal(VmError::StackUnderflow)));
}

#[test]
fn jump_resolves_to_the_later_label_definition() {
    // Jump 1; Label 1; Push 1; Exit; Label 1; Push 2; Exit.
    let text = format!(
        "LSL{}LSS{}{}LLLLSS{}{}LLL",
        arg(1),
        arg(1),
        push(1),
        arg(1),
        push(2)
    );
    let (vm, ev) = run_program(&text);
    assert!(matches!(ev, Event::Done));
    let got: Vec<i64> = vm.stack.iter().map(num_i64).collect();
    assert_eq!(got, vec![2]);
}

#[test]
fn jump_to_an_undefined_label_reports_the_value() {
    let (_, ev) = run_program(&format!("LSL{}LLL", arg(7)));
    match ev {
        Event::Fatal(VmError::UndefinedLabel(n)) => assert_eq!(num_i64(&n), 7),
        other => panic!("expected an undefined label, got {:?}", kind_of(&other)),
    }
}

#[test]
fn division_truncates_toward_zero() {
    // 7 / -2 is -3 under truncation (flooring would give -4).
    let (vm, ev) = run_program(&format!("{}{}TSTSTLSTLLL", push(7), push(-2)));
    assert!(matches!(ev, Event::Done));
    assert_eq!(vm.out, b"-3".to_vec());
}

#[test]
fn negative_dividend_truncates_and_remainder_follows_it() {
    // (-7) / 2 is -3 with remainder -1.
    let (vm, ev) = run_program(&format!("{}{}TSTSTLSTLLL", push(-7), push(2)));
    assert!(matches!(ev, Event::Done));
    assert_eq!(vm.out, b"-3".to_vec());
    let (vm2, ev2) = run_program(&format!("{}{}TSTTTLSTLLL", push(-7), push(2)));
    assert!(matches!(ev2, Event::Done));
    assert_eq!(vm2.out, b"-1".to_vec());
}

#[test]
fn division_by_zero_is_arithmetic_error_with_no_output() {
    let (vm, ev) = run_program(&format!("{}{}TSTSLLL", push(1), push(0)));
    assert!(matches!(ev, Event::Fatal(VmError::ArithmeticError)));
    assert_eq!(vm.out, Vec::<u8>::new());
}

#[test]
fn modulo_by_zero_is_arithmetic_error_with_no_output() {
    let (vm, ev) = run_program(&format!("{}{}TSTTLLL", push(5), push(0)));
    assert!(matches!(ev, Event::Fatal(VmError::ArithmeticError)));
    assert_eq!(vm.out, Vec::<u8>::new());
}

#[test]
fn adding_one_and_two_prints_three_and_empties_the_stack() {
    let (vm, ev) = run_program(&format!("{}{}TSSSTLSTLLL", push(1), push(2)));
    assert!(matches!(ev, Event::Done));
    assert_eq!(vm.out, b"3".to_vec());
    assert_eq!(vm.stack.len(), 0);
}

#[test]
fn call_and_return_count_only_executed_instructions() {
    // Call 1; Exit; Push 9 (never reached); Label 1; Return.
    // Executed: Call, Return, Exit — three instructions, labels not counted.
    let text = format!("LST{}LLL{}LSS{}LTL", arg(1), push(9), arg(1));
    let (vm, ev) = run_program(&text);
    assert!(matches!(ev, Event::Done));
    assert_eq!(vm.count, 3);
}

#[test]
fn heap_load_of_an_unset_key_is_missing_heap_key() {
    let (_, ev) = run_program(&format!("{}TTTLLL", push(5)));
    assert!(matches!(ev, Event::Fatal(VmError::MissingHeapKey)));
}

#[test]
fn heap_store_then_load_returns_the_stored_value() {
    // Push 9; Push 9; Push 42; Store; Load; PrintNumber; Exit.
    let text = format!("{}{}{}TTSTTTTLSTLLL", push(9), push(9), push(42));
    let (vm, ev) = run_program(&text);
    assert!(matches!(ev, Event::Done));
    assert_eq!(vm.out, b"42".to_vec());
    let entries = heap_entries(&vm.heap);
    assert_eq!(entries.len(), 1);
    assert_eq!(num_i64(&entries[0].0), 9);
    assert_eq!(num_i64(&entries[0].1), 42);
}

#[test]
fn pop_on_an_empty_stack_is_stack_underflow() {
    let (_, ev) = run_program("SLLLLL");
    assert!(matches!(ev, Event::Fatal(VmError::StackUnderflow)));
}

#[test]
fn return_without_a_call_is_empty_call_stack() {
    let (_, ev) = run_program("LTLLLL");
    assert!(matches!(ev, Event::Fatal(VmError::EmptyCallStack)));
}

#[test]
fn print_char_emits_the_byte() {
    let (vm, ev) = run_program(&format!("{}TLSSLLL", push(72)));
    assert!(matches!(ev, Event::Done));
    assert_eq!(vm.out, b"H".to_vec());
}

#[test]
fn print_char_of_a_non_byte_value_is_fatal() {
    let (vm, ev) = run_program(&format!("{}TLSSLLL", push(300)));
    assert!(matches!(ev, Event::Fatal(VmError::CharRangeError)));
    assert_eq!(vm.out, Vec::<u8>::new());
}

#[test]
fn read_char_stores_the_byte_at_the_popped_key() {
    // Push 5; ReadChar; Push 5; HeapLoad; PrintNumber; Exit.
    let text = format!("{}TLTS{}TTTTLSTLLL", push(5), push(5));
    let src = toks(&text);
    let (insns, labels) = parse(&src);
    let mut vm = Vm::new();
    assert!(matches!(vm.run(&insns, &labels, 100_000), Event::NeedChar));
    vm.supply_char(&insns, 65);
    assert!(matches!(vm.run(&insns, &labels, 100_000), Event::Done));
    assert_eq!(vm.out, b"65".to_vec());
}

#[test]
fn read_number_parses_the_line() {
    // Push 5; ReadNumber; Push 5; HeapLoad; PrintNumber; Exit.
    let text = format!("{}TLTT{}TTTTLSTLLL", push(5), push(5));
    let src = toks(&text);
    let (insns, labels) = parse(&src);
    let mut vm = Vm::new();
    assert!(matches!(vm.run(&insns, &labels, 100_000), Event::NeedLine));
    assert!(vm.supply_line(&insns, &b"-45\n".to_vec()).is_none());
    assert!(matches!(vm.run(&insns, &labels, 100_000), Event::Done));
    assert_eq!(vm.out, b"-45".to_vec());
}

#[test]
fn read_number_rejects_a_line_that_is_no_integer() {
    let text = format!("{}TLTTLLL", push(5));
    let src = toks(&text);
    let (insns, labels) = parse(&src);
    let mut vm = Vm::new();
    assert!(matches!(vm.run(&insns, &labels, 100_000), Event::NeedLine));
    let r = vm.supply_line(&insns, &b"4x\n".to_vec());
    assert!(matches!(r, Some(VmError::InputParseError)));
}

fn kind_of(ev: &Event) -> &'static str {
    match ev {
        Event::Done => "done",
        Event::NeedChar => "need a character",
        Event::NeedLine => "need a line",
        Event::Fatal(_) => "another fatal error",
        Event::More => "more",
    }
}
