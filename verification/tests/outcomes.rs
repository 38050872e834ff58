//! Tests of the per-command answers, the literal forms the parser accepts,
//! and the stated properties on concrete values.

use rpn_calc::rpncalc::calculator::{self, Outcome};
use rpn_calc::rpncalc::cli::{CliCmd, CliOperation};
use rpn_calc::rpncalc::RpnCalc;

fn feed(calc: &mut RpnCalc, line: &str) {
    let mut cli = RpnCalc::cli();
    calc.process(cli.read_new_command(line));
}

fn stack_f64(calc: &RpnCalc) -> Vec<f64> {
    calc.stack().iter().map(|b| f64::from_bits(*b)).collect()
}

#[test]
fn divide_by_zero_answers_diagnostic() {
    let mut calc = RpnCalc::new();
    feed(&mut calc, "10 0");
    let out = calculator::process(&mut calc, &CliCmd::new_divide_command());
    assert_eq!(out, Outcome::DivideByZero);
    assert_eq!(stack_f64(&calc), [10.0, 0.0]);
}

#[test]
fn divide_by_negative_zero_answers_diagnostic() {
    let mut calc = RpnCalc::new();
    feed(&mut calc, "10 -0");
    let out = calculator::process(&mut calc, &CliCmd::new_divide_command());
    assert_eq!(out, Outcome::DivideByZero);
    assert_eq!(stack_f64(&calc).len(), 2);
}

#[test]
fn negative_root_answers_diagnostic() {
    let mut calc = RpnCalc::new();
    feed(&mut calc, "-9");
    let out = calculator::process(&mut calc, &CliCmd::new_square_root_command());
    assert_eq!(out, Outcome::NegativeRoot);
    assert_eq!(stack_f64(&calc), [-9.0]);
}

#[test]
fn successful_addition_answers_new_top() {
    let mut calc = RpnCalc::new();
    feed(&mut calc, "1 2");
    let out = calculator::process(&mut calc, &CliCmd::new_add_command());
    assert_eq!(out, Outcome::NewTop(3.0f64.to_bits()));
}

#[test]
fn list_answers_listing() {
    let mut calc = RpnCalc::new();
    feed(&mut calc, "1 2 3");
    let out = calculator::process(&mut calc, &CliCmd::new_list_command());
    assert_eq!(out, Outcome::Listing);
    assert_eq!(stack_f64(&calc), [1.0, 2.0, 3.0]);
}

#[test]
fn underflow_is_silent() {
    let mut calc = RpnCalc::new();
    let out = calculator::process(&mut calc, &CliCmd::new_add_command());
    assert_eq!(out, Outcome::Silent);
    let out = calculator::process(&mut calc, &CliCmd::new_square_root_command());
    assert_eq!(out, Outcome::Silent);
    assert_eq!(stack_f64(&calc), []);
}

#[test]
fn push_is_silent() {
    let mut calc = RpnCalc::new();
    let out = calculator::process(&mut calc, &CliCmd::new_push_command(2.5f64.to_bits()));
    assert_eq!(out, Outcome::Silent);
    assert_eq!(stack_f64(&calc), [2.5]);
}

#[test]
fn clear_twice_equals_clear_once() {
    let mut calc = RpnCalc::new();
    feed(&mut calc, "1 2 3");
    feed(&mut calc, "c");
    assert_eq!(stack_f64(&calc), []);
    feed(&mut calc, "c");
    assert_eq!(stack_f64(&calc), []);
}

#[test]
fn sum_all_of_negative_zero_is_positive_zero() {
    // The sum of the whole stack starts from +0.0, so summing a lone -0.0
    // gives +0.0 exactly.
    let mut calc = RpnCalc::new();
    feed(&mut calc, "-0 ++");
    assert_eq!(calc.stack(), &vec![0u64]);
}

#[test]
fn multi_token_line_equals_single_token_lines() {
    let mut one_line = RpnCalc::new();
    feed(&mut one_line, "1 2 3 4 5 + a A add");
    let mut many_lines = RpnCalc::new();
    for line in ["1", "2", "3", "4", "5", "+", "a", "A", "add"] {
        feed(&mut many_lines, line);
    }
    assert_eq!(one_line.stack(), many_lines.stack());
    assert_eq!(stack_f64(&one_line), [15.0]);
}

#[test]
fn blank_line_is_one_empty_command() {
    let mut cli = RpnCalc::cli();
    let cmds = cli.read_new_command("\n");
    assert_eq!(cmds.len(), 1);
    assert_eq!(cmds[0].oper, CliOperation::Empty);
    assert_eq!(cli.keep_running(), true);
}

#[test]
fn empty_command_leaves_stack_alone() {
    let mut calc = RpnCalc::new();
    feed(&mut calc, "4 2");
    feed(&mut calc, "   \n");
    assert_eq!(stack_f64(&calc), [4.0, 2.0]);
}

#[test]
fn quit_any_case_stops_the_session() {
    let mut cli = RpnCalc::cli();
    cli.read_new_command("QUIT");
    assert_eq!(cli.keep_running(), false);
    let mut cli = RpnCalc::cli();
    cli.read_new_command("Q");
    assert_eq!(cli.keep_running(), false);
}

#[test]
fn quit_after_other_tokens_keeps_running() {
    // Only the first command of a line is a control signal.
    let mut cli = RpnCalc::cli();
    let cmds = cli.read_new_command("1 q");
    assert_eq!(cmds.len(), 2);
    assert_eq!(cli.keep_running(), true);
}

#[test]
fn mnemonics_match_any_case() {
    assert_eq!(
        CliCmd::parse_individual_raw_command("SQRT").oper,
        CliOperation::SquareRoot
    );
    assert_eq!(CliCmd::parse_individual_raw_command("Add").oper, CliOperation::Add);
    assert_eq!(CliCmd::parse_individual_raw_command("SUB").oper, CliOperation::Subtract);
    assert_eq!(CliCmd::parse_individual_raw_command("Mul").oper, CliOperation::Multiply);
    assert_eq!(CliCmd::parse_individual_raw_command("DIV").oper, CliOperation::Divide);
    assert_eq!(CliCmd::parse_individual_raw_command("Cls").oper, CliOperation::ClearScreen);
    assert_eq!(CliCmd::parse_individual_raw_command("Print").oper, CliOperation::List);
    assert_eq!(CliCmd::parse_individual_raw_command("Help").oper, CliOperation::Help);
    assert_eq!(CliCmd::parse_individual_raw_command("AA").oper, CliOperation::AddAll);
    assert_eq!(CliCmd::parse_individual_raw_command("XX").oper, CliOperation::MultAll);
    assert_eq!(CliCmd::parse_individual_raw_command("Clear").oper, CliOperation::Clear);
}

#[test]
fn literal_forms_parse_exactly() {
    for (text, value) in [
        ("1", 1.0f64),
        ("-1.5e1", -15.0),
        (".5", 0.5),
        ("+4", 4.0),
        ("5.", 5.0),
        ("1.e2", 100.0),
        ("1e-3", 0.001),
        ("0.1", 0.1),
        ("9007199254740993", 9007199254740992.0),
    ] {
        match CliCmd::parse_individual_raw_command(text).oper {
            CliOperation::Push(bits) => assert_eq!(bits, value.to_bits(), "{}", text),
            _ => panic!("{} did not parse as a number", text),
        }
    }
}

#[test]
fn infinity_and_nan_words_are_numbers() {
    match CliCmd::parse_individual_raw_command("inf").oper {
        CliOperation::Push(bits) => assert_eq!(bits, f64::INFINITY.to_bits()),
        _ => panic!("inf did not parse as a number"),
    }
    match CliCmd::parse_individual_raw_command("-Infinity").oper {
        CliOperation::Push(bits) => assert_eq!(bits, f64::NEG_INFINITY.to_bits()),
        _ => panic!("-Infinity did not parse as a number"),
    }
    match CliCmd::parse_individual_raw_command("NaN").oper {
        CliOperation::Push(bits) => assert_eq!(bits, 0x7FF8_0000_0000_0000),
        _ => panic!("NaN did not parse as a number"),
    }
}

#[test]
fn near_literals_are_unknown() {
    for text in ["1e", "1.2.3", "1,1", "++1", "10-1", "infin", "nans", "e5", "."] {
        assert_eq!(
            CliCmd::parse_individual_raw_command(text).oper,
            CliOperation::Unknown,
            "{}",
            text
        );
    }
}

#[test]
fn end_of_input_parses_to_quit_alone() {
    let cmds = CliCmd::from_raw_command(String::new());
    assert_eq!(cmds.len(), 1);
    assert_eq!(cmds[0].oper, CliOperation::Quit);
}

#[test]
fn division_is_correctly_rounded() {
    // 1 / 3 has no finite binary representation; the wrapper must round to
    // the nearest binary64 number, as the division operator does.
    let mut calc = RpnCalc::new();
    feed(&mut calc, "1 3 /");
    assert_eq!(calc.stack(), &vec![(1.0f64 / 3.0f64).to_bits()]);
}

#[test]
fn square_root_is_correctly_rounded() {
    let mut calc = RpnCalc::new();
    feed(&mut calc, "2 sqrt");
    assert_eq!(calc.stack(), &vec![2.0f64.sqrt().to_bits()]);
}

#[test]
fn subtraction_orders_operands() {
    // The top of the stack is the subtrahend.
    let mut calc = RpnCalc::new();
    feed(&mut calc, "3 10 -");
    assert_eq!(stack_f64(&calc), [-7.0]);
}

#[test]
fn division_orders_operands() {
    // The top of the stack is the divisor.
    let mut calc = RpnCalc::new();
    feed(&mut calc, "2 8 /");
    assert_eq!(stack_f64(&calc), [0.25]);
}

#[test]
fn sum_is_correctly_rounded() {
    // 0.1 + 0.2 in binary64 is not 0.3; the wrapper must give the rounded
    // sum bit for bit.
    let mut calc = RpnCalc::new();
    feed(&mut calc, "0.1 0.2 +");
    assert_eq!(calc.stack(), &vec![(0.1f64 + 0.2f64).to_bits()]);
}

#[test]
fn product_is_correctly_rounded() {
    let mut calc = RpnCalc::new();
    feed(&mut calc, "0.1 0.3 *");
    assert_eq!(calc.stack(), &vec![(0.1f64 * 0.3f64).to_bits()]);
}
