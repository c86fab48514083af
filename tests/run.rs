use amm::interpreter::{Interpreter, Output};
use amm::parser::Parser;
use amm::scanner::Scanner;
use amm::token::{Diagnostic, ErrorKind};
use amm::value::FloatArith;

struct HostFloats;

impl FloatArith for HostFloats {
    fn parse(&self, text: &String) -> u64 {
        text.parse::<f64>().unwrap().to_bits()
    }

    fn add(&self, a: u64, b: u64) -> u64 {
        (f64::from_bits(a) + f64::from_bits(b)).to_bits()
    }

    fn sub(&self, a: u64, b: u64) -> u64 {
        (f64::from_bits(a) - f64::from_bits(b)).to_bits()
    }

    fn mul(&self, a: u64, b: u64) -> u64 {
        (f64::from_bits(a) * f64::from_bits(b)).to_bits()
    }

    fn div(&self, a: u64, b: u64) -> u64 {
        (f64::from_bits(a) / f64::from_bits(b)).to_bits()
    }

    fn less(&self, a: u64, b: u64) -> bool {
        f64::from_bits(a) < f64::from_bits(b)
    }

    fn less_equal(&self, a: u64, b: u64) -> bool {
        f64::from_bits(a) <= f64::from_bits(b)
    }

    fn render(&self, a: u64) -> String {
        f64::from_bits(a).to_string()
    }
}

/// Scans, parses and runs a program to completion; returns the printed lines
/// and every diagnostic, scanner's and parser's first.
fn run(src: &str) -> (Vec<String>, Vec<Diagnostic>) {
    let mut scanner = Scanner::new(src);
    let tokens = scanner.scan_tokens().clone();
    let mut diagnostics = scanner.errors().clone();
    let mut parser = Parser::new(tokens);
    let stmts = parser.parse();
    diagnostics.extend(parser.errors().iter().cloned());
    let mut interpreter = Interpreter::new();
    interpreter.interpret(stmts);
    assert!(interpreter.run(&HostFloats, 1_000_000));
    let mut lines = Vec::new();
    for o in interpreter.take_output() {
        match o {
            Output::Line(l) => lines.push(l),
            Output::Error(d) => diagnostics.push(d),
        }
    }
    (lines, diagnostics)
}

fn printed(src: &str) -> Vec<String> {
    let (lines, diagnostics) = run(src);
    assert_eq!(diagnostics, vec![]);
    lines
}

#[test]
fn scenario_precedence() {
    assert_eq!(printed("print 1 + 2 * 3;"), vec!["7"]);
}

#[test]
fn scenario_string_concatenation() {
    assert_eq!(printed("var a = \"foo\"; var b = \"bar\"; print a + b;"), vec!["foobar"]);
}

#[test]
fn scenario_block_shadowing() {
    assert_eq!(printed("var x = 1;\n{ var x = 2; print x; }\nprint x;"), vec!["2", "1"]);
}

#[test]
fn scenario_if_else() {
    assert_eq!(printed("if (1 < 2) print \"y\"; else print \"n\";"), vec!["y"]);
}

#[test]
fn scenario_while_loop() {
    assert_eq!(printed("var i = 0;\nwhile (i < 3) { print i; i = i + 1; }"), vec!["0", "1", "2"]);
}

#[test]
fn scenario_logical_values() {
    assert_eq!(printed("print true and \"hi\"; print false or 0;"), vec!["hi", "0"]);
}

#[test]
fn or_with_truthy_left_skips_right() {
    assert_eq!(printed("var x = 1; print true or (x = 2); print x;"), vec!["true", "1"]);
}

#[test]
fn and_with_falsy_left_skips_right() {
    assert_eq!(printed("var x = 1; print 0 and (x = 2); print x;"), vec!["0", "1"]);
}

#[test]
fn or_with_falsy_left_evaluates_right() {
    assert_eq!(printed("var x = 1; print nil or (x = 2); print x;"), vec!["2", "2"]);
}

#[test]
fn block_variable_not_visible_after_block() {
    let (lines, diagnostics) = run("{ var inner = 5; } print inner;");
    assert_eq!(lines, vec!["nil"]);
    assert_eq!(diagnostics, vec![]);
}

#[test]
fn outer_variable_visible_in_block() {
    assert_eq!(printed("var outer = 3; { print outer; }"), vec!["3"]);
}

#[test]
fn assignment_in_block_updates_outer() {
    assert_eq!(printed("var x = 1; { x = 2; { x = x + 1; } } print x;"), vec!["3"]);
}

#[test]
fn assignment_to_undefined_reports_and_yields_value() {
    let (lines, diagnostics) = run("print y = 4;");
    assert_eq!(lines, vec!["4"]);
    assert_eq!(
        diagnostics,
        vec![Diagnostic { line: 1, kind: ErrorKind::UndefinedVariable("y".to_string()) }]
    );
    assert_eq!(diagnostics[0].kind.message(), "Undefined variable 'y'");
}

#[test]
fn undefined_variable_reads_as_nil() {
    assert_eq!(printed("print missing;"), vec!["nil"]);
}

#[test]
fn redefinition_replaces_in_same_scope() {
    assert_eq!(printed("var a = 1; var a = 2; print a;"), vec!["2"]);
}

#[test]
fn var_without_initializer_is_nil() {
    assert_eq!(printed("var a; print a;"), vec!["nil"]);
}

#[test]
fn integer_division_truncates_toward_zero() {
    assert_eq!(printed("print 7 / 2; print -7 / 2; print 7 / -2;"), vec!["3", "-3", "-3"]);
}

#[test]
fn integer_division_by_zero_is_nil() {
    assert_eq!(printed("print 1 / 0;"), vec!["nil"]);
}

#[test]
fn integer_arithmetic_wraps() {
    assert_eq!(printed("print 2147483647 + 1;"), vec!["-2147483648"]);
}

#[test]
fn subtraction_and_unary_minus() {
    assert_eq!(printed("print 10 - 4 - 3; print -(2 * 3);"), vec!["3", "-6"]);
}

#[test]
fn mismatched_operands_give_nil() {
    assert_eq!(printed("print 1 + \"a\"; print \"a\" - \"b\"; print !1;"), vec!["nil", "nil", "nil"]);
}

#[test]
fn equality_operators_give_nil() {
    assert_eq!(printed("print 1 == 1; print 1 != 2;"), vec!["nil", "nil"]);
}

#[test]
fn comparisons_on_integers() {
    assert_eq!(
        printed("print 1 < 2; print 2 <= 2; print 3 > 4; print 4 >= 5; print !true;"),
        vec!["true", "true", "false", "false", "false"]
    );
}

#[test]
fn float_arithmetic_uses_host() {
    assert_eq!(printed("print 1.5 + 2.25; print 1.5 < 2.5; print -2.5;"), vec!["3.75", "true", "-2.5"]);
}

#[test]
fn float_zero_is_falsy() {
    assert_eq!(printed("if (0.0) print \"a\"; else print \"b\"; if (-0.0) print \"c\"; else print \"d\";"), vec!["b", "d"]);
}

#[test]
fn truthiness_of_values() {
    assert_eq!(
        printed("if (\"\") print 1; else print 2; if (\"x\") print 3; if (nil) print 4; else print 5;"),
        vec!["2", "3", "5"]
    );
}

#[test]
fn while_body_may_declare() {
    assert_eq!(printed("var i = 0; while (i < 2) var j = i = i + 1; print i;"), vec!["2"]);
}

#[test]
fn parse_error_keeps_earlier_statements_and_recovers() {
    let (lines, diagnostics) = run("print 1; print 2 print 3; print 4;");
    assert_eq!(lines, vec!["1", "4"]);
    assert_eq!(diagnostics, vec![Diagnostic { line: 1, kind: ErrorKind::ExpectSemicolonAfterValue }]);
}

#[test]
fn invalid_assignment_target_reported() {
    let (lines, diagnostics) = run("1 = 2; print 5;");
    assert_eq!(lines, vec!["5"]);
    assert_eq!(diagnostics, vec![Diagnostic { line: 1, kind: ErrorKind::InvalidAssignmentTarget }]);
}

#[test]
fn missing_expression_reported() {
    let (_, diagnostics) = run("print ;");
    assert_eq!(diagnostics, vec![Diagnostic { line: 1, kind: ErrorKind::ExpectExpression }]);
}

#[test]
fn step_runs_one_statement_at_a_time() {
    let mut scanner = Scanner::new("print 1; print 2;");
    let tokens = scanner.scan_tokens().clone();
    let stmts = Parser::new(tokens).parse();
    let mut interpreter = Interpreter::new();
    interpreter.interpret(stmts);
    assert!(interpreter.is_running());
    assert!(interpreter.step(&HostFloats));
    assert_eq!(interpreter.take_output(), vec![Output::Line("1".to_string())]);
    assert!(interpreter.step(&HostFloats));
    assert!(!interpreter.is_running());
    assert!(!interpreter.step(&HostFloats));
    assert_eq!(interpreter.take_output(), vec![Output::Line("2".to_string())]);
}

#[test]
fn run_stops_when_fuel_runs_out() {
    let mut scanner = Scanner::new("while (true) print 1;");
    let tokens = scanner.scan_tokens().clone();
    let stmts = Parser::new(tokens).parse();
    let mut interpreter = Interpreter::new();
    interpreter.interpret(stmts);
    assert!(!interpreter.run(&HostFloats, 10));
    assert!(interpreter.is_running());
    assert_eq!(interpreter.take_output().len(), 5);
}

#[test]
fn state_persists_across_programs() {
    let mut interpreter = Interpreter::new();
    for (src, want) in [("var a = 40;", vec![]), ("print a + 2;", vec![Output::Line("42".to_string())])] {
        let mut scanner = Scanner::new(src);
        let tokens = scanner.scan_tokens().clone();
        interpreter.interpret(Parser::new(tokens).parse());
        assert!(interpreter.run(&HostFloats, 100));
        assert_eq!(interpreter.take_output(), want);
    }
}
