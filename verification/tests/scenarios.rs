use rustic::messages::Diagnostic;
use rustic::ast::Operator;
use rustic::pipeline::{analyze, run};
use rustic::parser::parse;
use rustic::visitors::constprop::evaluate;

fn rendered(source: &str, constprop: bool) -> String {
    match run(source, constprop) {
        Ok(text) => text,
        Err(diagnostic) => panic!("unexpected failure: {}", diagnostic.message()),
    }
}

fn failure(source: &str, constprop: bool) -> Diagnostic {
    match run(source, constprop) {
        Ok(text) => panic!("unexpected success: {}", text),
        Err(diagnostic) => diagnostic,
    }
}

#[test]
fn undefined_variable_is_reported_before_folding() {
    // The second statement would overflow, but the first one fails the scope
    // check, which runs first.
    let source = "fn f() { let a = b; let c = 250u8 + 10u8; }";
    assert_eq!(failure(source, true), Diagnostic::UndefinedVariable("b".to_string()));
    assert_eq!(failure(source, false), Diagnostic::UndefinedVariable("b".to_string()));
}

#[test]
fn undefined_variable_after_an_overflow_is_still_reported() {
    let source = "fn f() { let c = 250u8 + 10u8; let a = b; }";
    assert_eq!(failure(source, true), Diagnostic::UndefinedVariable("b".to_string()));
}

#[test]
fn overflow_is_ignored_without_constant_propagation() {
    let source = "fn f() { let c = 250u8 + 10u8; }";
    assert_eq!(rendered(source, false), "fn f() {\n    let c = (250u8) + 10u8;\n}\n");
}

#[test]
fn addition_overflow_cites_operands() {
    let diagnostic = failure("fn f() { let a = 250u8 + 10u8; }", true);
    assert_eq!(diagnostic, Diagnostic::ArithmeticOverflow(250, Operator::Add, 10));
    assert_eq!(
        diagnostic.message(),
        "Constant evaluation resulted in value greater than 255: 250 + 10"
    );
}

#[test]
fn subtraction_underflow_cites_operands() {
    let diagnostic = failure("fn f() { let a = 5u8 - 10u8; }", true);
    assert_eq!(diagnostic, Diagnostic::ArithmeticUnderflow(5, Operator::Subtract, 10));
    assert_eq!(diagnostic.message(), "Constant evaluation resulted in negative value: 5 - 10");
}

#[test]
fn division_by_zero_cites_operands() {
    let diagnostic = failure("fn f() { let a = 10u8 / 0u8; }", true);
    assert_eq!(diagnostic, Diagnostic::DivisionByZero(10, 0));
    assert_eq!(diagnostic.message(), "Constant evaluation resulted in division by zero: 10 / 0");
}

#[test]
fn inexact_division_cites_operands() {
    let diagnostic = failure("fn f() { let a = 10u8 / 3u8; }", true);
    assert_eq!(diagnostic, Diagnostic::InexactDivision(10, 3));
    assert_eq!(
        diagnostic.message(),
        "Constant evaluation resulted in non-integer division: 10 / 3"
    );
}

#[test]
fn multiplication_overflow_cites_operands() {
    let diagnostic = failure("fn f() { let a = 40u8 * 7u8; }", true);
    assert_eq!(diagnostic, Diagnostic::ArithmeticOverflow(40, Operator::Multiply, 7));
    assert_eq!(
        diagnostic.message(),
        "Constant evaluation resulted in value greater than 255: 40 * 7"
    );
}

#[test]
fn evaluate_at_the_edges() {
    assert_eq!(evaluate(Operator::Add, 255, 0), Ok(255));
    assert_eq!(evaluate(Operator::Add, 200, 55), Ok(255));
    assert_eq!(
        evaluate(Operator::Add, 200, 56),
        Err(Diagnostic::ArithmeticOverflow(200, Operator::Add, 56))
    );
    assert_eq!(
        evaluate(Operator::Add, 255, 255),
        Err(Diagnostic::ArithmeticOverflow(255, Operator::Add, 255))
    );
    assert_eq!(evaluate(Operator::Subtract, 7, 7), Ok(0));
    assert_eq!(evaluate(Operator::Subtract, 255, 1), Ok(254));
    assert_eq!(
        evaluate(Operator::Subtract, 0, 1),
        Err(Diagnostic::ArithmeticUnderflow(0, Operator::Subtract, 1))
    );
    assert_eq!(evaluate(Operator::Multiply, 15, 17), Ok(255));
    assert_eq!(evaluate(Operator::Multiply, 0, 255), Ok(0));
    assert_eq!(
        evaluate(Operator::Multiply, 16, 16),
        Err(Diagnostic::ArithmeticOverflow(16, Operator::Multiply, 16))
    );
    assert_eq!(
        evaluate(Operator::Multiply, 255, 255),
        Err(Diagnostic::ArithmeticOverflow(255, Operator::Multiply, 255))
    );
    assert_eq!(evaluate(Operator::Divide, 255, 5), Ok(51));
    assert_eq!(evaluate(Operator::Divide, 0, 9), Ok(0));
    assert_eq!(evaluate(Operator::Divide, 0, 0), Err(Diagnostic::DivisionByZero(0, 0)));
    assert_eq!(evaluate(Operator::Divide, 1, 2), Err(Diagnostic::InexactDivision(1, 2)));
}

#[test]
fn division_by_zero_comes_before_inexact_division() {
    assert_eq!(evaluate(Operator::Divide, 7, 0), Err(Diagnostic::DivisionByZero(7, 0)));
}

#[test]
fn unknown_input_is_left_unfolded() {
    let source = "fn f(a: u8) { let c = a + 2u8; }";
    assert_eq!(rendered(source, true), rendered(source, false));
    assert_eq!(rendered(source, true), "fn f(a: u8) {\n    let c = (a) + 2u8;\n}\n");
}

#[test]
fn constants_chain_through_names() {
    let source = "fn f() { let x = 1u8 - 1u8; let y = 29u8 + x; }";
    assert_eq!(rendered(source, true), "fn f() {\n    let x = 0u8;\n    let y = 29u8;\n}\n");
}

#[test]
fn nested_parentheses_stay_where_nothing_folds() {
    let source = "fn f(i: u8, j: u8) { let result = ((i + 3u8)) * ((j + 2u8)) - 8u8; }";
    let expected =
        "fn f(i: u8, j: u8) {\n    let result = (((((i) + 3u8))) * (((j) + 2u8))) - 8u8;\n}\n";
    assert_eq!(rendered(source, false), expected);
    assert_eq!(rendered(source, true), expected);
}

#[test]
fn folding_stops_at_the_first_failure() {
    let source = "fn f() { let a = 10u8 / 4u8; let b = 1u8 - 2u8; }";
    assert_eq!(failure(source, true), Diagnostic::InexactDivision(10, 4));
}

#[test]
fn left_operand_fails_before_right_operand() {
    let source = "fn f() { let a = (1u8 - 2u8) + (3u8 / 0u8); }";
    assert_eq!(
        failure(source, true),
        Diagnostic::ArithmeticUnderflow(1, Operator::Subtract, 2)
    );
}

#[test]
fn a_name_is_defined_within_its_own_statement() {
    // The target is defined before the right-hand side is checked.
    let source = "fn f() { let a = a + 1u8; }";
    assert_eq!(rendered(source, true), "fn f() {\n    let a = (a) + 1u8;\n}\n");
}

#[test]
fn analyze_leaves_the_tree_alone_without_constant_propagation() {
    let source = "fn f(a: u8) { let b = (1u8 + 2u8) * a; }";
    let mut program = parse(source).unwrap();
    let before = parse(source).unwrap();
    assert_eq!(analyze(&mut program, false), Ok(()));
    assert_eq!(program, before);
}

#[test]
fn parse_failure_is_reported() {
    let diagnostic = failure("fn f() { let a = ; }", true);
    assert_eq!(diagnostic, Diagnostic::ParseFailure);
    assert_eq!(diagnostic.message(), "unsuccessful parse");
}

#[test]
fn redefinition_messages() {
    assert_eq!(
        Diagnostic::RedefinedInput("x".to_string()).message(),
        "Redefinition of input variable 'x'."
    );
    assert_eq!(
        Diagnostic::RedefinedVariable("total_1".to_string()).message(),
        "Redefinition of variable 'total_1'."
    );
    assert_eq!(
        Diagnostic::UndefinedVariable("y".to_string()).message(),
        "Use of undefined variable 'y'."
    );
}

#[test]
fn numbers_in_messages_are_decimal() {
    assert_eq!(
        Diagnostic::ArithmeticOverflow(0, Operator::Add, 9).message(),
        "Constant evaluation resulted in value greater than 255: 0 + 9"
    );
    assert_eq!(
        Diagnostic::ArithmeticOverflow(10, Operator::Multiply, 99).message(),
        "Constant evaluation resulted in value greater than 255: 10 * 99"
    );
    assert_eq!(
        Diagnostic::ArithmeticUnderflow(100, Operator::Subtract, 255).message(),
        "Constant evaluation resulted in negative value: 100 - 255"
    );
    assert_eq!(
        Diagnostic::InexactDivision(109, 200).message(),
        "Constant evaluation resulted in non-integer division: 109 / 200"
    );
}

#[test]
fn a_failure_leaves_what_was_folded_before_it() {
    let source =
        "fn f() { let a = 1u8 + 1u8; let b = (2u8 + 3u8) - (1u8 / 0u8); let c = 1u8 + 1u8; }";
    let mut program = parse(source).unwrap();
    assert_eq!(analyze(&mut program, true), Err(Diagnostic::DivisionByZero(1, 0)));
    assert_eq!(
        program.render(),
        "fn f() {\n    let a = 2u8;\n    let b = 5u8 - (1u8 / 0u8);\n    let c = (1u8) + 1u8;\n}\n"
    );
}

#[test]
fn a_failed_scope_check_leaves_the_program_alone() {
    let source = "fn f() { let a = 1u8 + 1u8; let b = c; }";
    let mut program = parse(source).unwrap();
    assert_eq!(
        analyze(&mut program, true),
        Err(Diagnostic::UndefinedVariable("c".to_string()))
    );
    assert_eq!(program, parse(source).unwrap());
}
