use turing_adder::convert::to_dec;
use turing_adder::machine::{RunOutcome, State, TuringMachine};

fn run_to_end(input: &str) -> (TuringMachine, usize) {
    let mut m = TuringMachine::new(input);
    let out = m.run(500).expect("the run hit an unexpected symbol");
    match out {
        RunOutcome::Halted { steps } => (m, steps),
        RunOutcome::BudgetExhausted => panic!("the run did not halt within the budget"),
    }
}

#[test]
fn scenario_111_and_11() {
    let (m, steps) = run_to_end("111 11");
    let result = m.get_result();
    assert_eq!(result, "1010");
    assert_eq!(to_dec(&result), 10);
    assert!(steps < 500);
}

#[test]
fn scenario_101_and_11() {
    let (m, steps) = run_to_end("101 11");
    let result = m.get_result();
    assert_eq!(result, "1000");
    assert_eq!(to_dec(&result), 8);
    assert!(steps < 500);
}

#[test]
fn scenario_1_and_1() {
    let (m, steps) = run_to_end("1 1");
    let result = m.get_result();
    assert_eq!(result, "10");
    assert_eq!(to_dec(&result), 2);
    assert!(steps < 500);
}

#[test]
fn scenario_1111_and_1() {
    let (m, steps) = run_to_end("1111 1");
    let result = m.get_result();
    assert_eq!(result, "10000");
    assert_eq!(to_dec(&result), 16);
    assert!(steps < 500);
}

#[test]
fn every_small_operand_pair_adds_exactly() {
    for a in 0..16usize {
        for b in 0..16usize {
            let input = format!("{:b} {:b}", a, b);
            let (m, steps) = run_to_end(&input);
            let result = m.get_result();
            assert!(result.chars().all(|c| c == '0' || c == '1'));
            assert_eq!(to_dec(&result), a + b, "input {:?} gave {:?}", input, result);
            assert!(steps < 500);
        }
    }
}

#[test]
fn single_digits_add_correctly() {
    for (input, expected) in [("1 0", "1"), ("0 1", "1"), ("0 0", "0"), ("1 1", "10")] {
        let (m, _) = run_to_end(input);
        assert_eq!(m.get_result(), expected);
    }
}

#[test]
fn empty_tape_extracts_to_zero() {
    let m = TuringMachine::new("");
    assert_eq!(m.get_result(), "0");
}

#[test]
fn result_extraction_is_idempotent() {
    let (m, _) = run_to_end("111 11");
    let first = m.get_result();
    let second = m.get_result();
    assert_eq!(first, second);
}

#[test]
fn no_blank_is_ever_stored() {
    let (m, _) = run_to_end("1111 1");
    assert!(m.tape.values().all(|&c| c != '_'));
    let mut fresh = TuringMachine::new("10 1");
    fresh.write('_');
    assert!(fresh.tape.values().all(|&c| c != '_'));
    assert!(!fresh.tape.contains_key(&0));
}

#[test]
fn write_then_read_round_trip() {
    let mut m = TuringMachine::new("01");
    assert_eq!(m.read(), '0');
    m.write('X');
    assert_eq!(m.read(), 'X');
    m.write('_');
    assert_eq!(m.read(), '_');
    assert!(!m.tape.contains_key(&0));
}

#[test]
fn unexpected_symbol_aborts_in_add_digits() {
    let mut m = TuringMachine::new("1q 1");
    let err = m.run(500).expect_err("an unexpected symbol must abort the run");
    assert_eq!(err.symbol, 'q');
    assert_eq!(err.state, State::AddDigits);
}

#[test]
fn unexpected_symbol_aborts_in_mark_right_digit() {
    let mut m = TuringMachine::new("z");
    let err = m.run(500).expect_err("an unexpected symbol must abort the run");
    assert_eq!(err.symbol, 'z');
    assert_eq!(err.state, State::MarkRightDigit);
}

#[test]
fn budget_exhaustion_is_a_normal_outcome() {
    let mut m = TuringMachine::new("111 11");
    let out = m.run(5).expect("no unexpected symbol within five steps");
    assert_eq!(out, RunOutcome::BudgetExhausted);
}

#[test]
fn halted_engine_stays_halted() {
    let (mut m, _) = run_to_end("1 1");
    assert_eq!(m.state, State::Halt);
    let again = m.run(100).expect("a halted engine cannot fail");
    assert_eq!(again, RunOutcome::Halted { steps: 0 });
}

#[test]
fn single_steps_follow_the_table() {
    let mut m = TuringMachine::new("1 1");
    assert_eq!(m.state, State::ScanRight);
    assert_eq!(m.position, 0);
    m.step().unwrap();
    assert_eq!(m.position, 1);
    assert_eq!(m.state, State::ScanRight);
    m.step().unwrap();
    m.step().unwrap();
    assert_eq!(m.position, 3);
    m.step().unwrap();
    // the blank past the input turns the head around
    assert_eq!(m.position, 2);
    assert_eq!(m.state, State::MarkRightDigit);
    m.step().unwrap();
    // the right digit is recorded and marked consumed
    assert_eq!(m.right_digit, 1);
    assert_eq!(m.tape.get(&2), Some(&'X'));
    assert_eq!(m.state, State::FindSpaceGoingLeft);
}

#[test]
fn add_digits_column_is_exact() {
    let mut m = TuringMachine::new("1 1");
    for _ in 0..6 {
        m.step().unwrap();
    }
    assert_eq!(m.state, State::AddDigits);
    m.step().unwrap();
    // 1 + 1 + 0 is 10 in binary: marked digit 0 written, carry 1 kept
    assert_eq!(m.tape.get(&0), Some(&'a'));
    assert_eq!(m.carry, 1);
    assert_eq!(m.left_digit, 1);
    assert_eq!(m.state, State::ReturnRight);
}

#[test]
fn mid_run_tape_extracts_as_written() {
    let mut m = TuringMachine::new("1 1");
    let out = m.run(5).expect("no unexpected symbol within five steps");
    assert_eq!(out, RunOutcome::BudgetExhausted);
    assert_eq!(m.get_result(), "1 X");
}
