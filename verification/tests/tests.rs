use rustic::ast::Program;
use rustic::messages::Diagnostic;
use rustic::parser::parse;
use rustic::visitors::constprop::ConstantPropagation;
use rustic::visitors::variable_checker::VariableChecker;
use rustic::visitors::visitor::NodeAccept;

const ALL_GRAMMAR_FEATS: &str = "// every construct of the language
fn main(a: u8, b: u8, c: u8) {
    /* a block comment */
    let d = a + b - c;
    let e = a * b / c;
    let f = (a + 1u8) * (b - 2u8) / (c + 3u8);
    let g = ((d)) + 255u8; // a trailing comment
    let h = 0u8;
}
";

const BINOPS: &str = "fn main() {
    let a = 1u8 + 1u8;
    let b = 1u8 - 1u8;
    let c = 1u8 * 1u8;
    let d = 1u8 / 1u8;
}
";

const COMMENTS: &str = "// a comment before the function
fn main(/* no inputs */) {
    // a comment on a line of its own
    let a = 1u8; // a comment behind a statement
    /* a comment
       over two lines */
    let b = a /* inside an expression */ + 2u8;
}
// a comment at the end";

const INPUTS: &str = "fn main(a: u8, b: u8, c: u8) {
    let d = a + b + c;
}
";

const PAREN: &str = "fn main(a: u8) {
    let b = (a);
    let c = ((a + 1u8));
    let d = (a + (b * (c - 1u8)));
}
";

const SINGLE_DEF: &str = "fn main() {
    let a = 1u8;
}
";

const REDECL: &str = "fn main() {
    let a = 1u8;
    let a = 2u8;
}
";

const INPUT_REDECL: &str = "fn main(a: u8, a: u8) {
    let b = 1u8;
}
";

const INPUT_REDECL_2: &str = "fn main(a: u8) {
    let a = 1u8;
}
";

const OUT_OF_ORDER: &str = "fn main() {
    let b = a + 1u8;
    let a = 1u8;
}
";

const UNDEFINED: &str = "fn main(a: u8) {
    let c = a + b;
}
";

const UNFOLDABLE: &str = "fn main(a: u8, b: u8) {
    let c = a + 2u8;
    let d = b * 3u8;
}
";

const NESTED_2: &str = "fn main(i: u8, j: u8) {
    let result = (i + 3u8) * (j + 2u8) - 8u8;
}
";

const NESTED_3: &str = "fn main() {
    let x = (2u8 - 1u8) * 1u8;
    let y = (30u8 - (x * 1u8));
}
";

const MIXED: &str = "fn main(x: u8) {
    let m = x + 5u8 - 2u8;
    let n = 3u8 + x;
}
";

const CONSTPROP_PAREN: &str = "fn main() {
    let m = (1u8 + 2u8) * 7u8;
    let n = (10u8 - 6u8) / 2u8;
}
";

const OVERFLOW: &str = "fn main() {
    let a = 250u8 + 10u8;
}
";

const OVERFLOW_2: &str = "fn main() {
    let a = 40u8 * 7u8;
}
";

const COMPLEX_2: &str = "fn main(a: u8, b: u8) {
    let x = (1u8 + 1u8) + a;
    let y = (3u8 * 4u8) + b;
    let z = (x * y) + 3u8;
}
";

const DIV_NON_EXACT: &str = "fn main() {
    let a = 10u8 / 3u8;
}
";

const DIV0: &str = "fn main() {
    let a = 10u8 / 0u8;
}
";

const COMPLEX: &str = "fn main() {
    let p = 2u8 * (3u8 + 4u8);
    let q = (p + 1u8) / 5u8;
}
";

const MIXED_2: &str = "fn main(x: u8, y: u8) {
    let a = 3u8 + 4u8;
    let b = a + x;
    let c = y * 2u8;
    let d = c - 1u8;
}
";

const NESTED: &str = "fn main() {
    let x = ((3u8 + 4u8));
    let y = ((x + 3u8) * 2u8);
}
";

const UNFOLDABLE_2: &str = "fn main(a: u8, b: u8) {
    let x = (a + 1u8) * 2u8;
    let y = (b - 1u8) / 2u8;
    let z = (a + 2u8) * (b - 1u8) + 3u8;
}
";

const UNDERFLOW: &str = "fn main() {
    let a = 5u8 - 10u8;
}
";

const IDENTS: &str = "fn main() {
    let a = 10u8;
    let b = 5u8;
    let c = a + b;
    let d = c - b;
}
";

// The source text that stands for a snippet file.
fn snippet(file_name: &str) -> &'static str {
    match file_name {
        "parser/all_grammar_feats.rs" => ALL_GRAMMAR_FEATS,
        "parser/binops.rs" => BINOPS,
        "parser/comments.rs" => COMMENTS,
        "parser/inputs.rs" => INPUTS,
        "parser/paren.rs" => PAREN,
        "parser/single_def.rs" => SINGLE_DEF,
        "errors/redecl.rs" => REDECL,
        "errors/input_redecl.rs" => INPUT_REDECL,
        "errors/input_redecl_2.rs" => INPUT_REDECL_2,
        "errors/out_of_order.rs" => OUT_OF_ORDER,
        "errors/undefined.rs" => UNDEFINED,
        "constprop/unfoldable.rs" => UNFOLDABLE,
        "constprop/nested_2.rs" => NESTED_2,
        "constprop/nested_3.rs" => NESTED_3,
        "constprop/mixed.rs" => MIXED,
        "constprop/paren.rs" => CONSTPROP_PAREN,
        "constprop/overflow.rs" => OVERFLOW,
        "constprop/overflow_2.rs" => OVERFLOW_2,
        "constprop/complex_2.rs" => COMPLEX_2,
        "constprop/div_non_exact.rs" => DIV_NON_EXACT,
        "constprop/div0.rs" => DIV0,
        "constprop/complex.rs" => COMPLEX,
        "constprop/mixed_2.rs" => MIXED_2,
        "constprop/nested.rs" => NESTED,
        "constprop/unfoldable_2.rs" => UNFOLDABLE_2,
        "constprop/underflow.rs" => UNDERFLOW,
        "constprop/idents.rs" => IDENTS,
        _ => panic!("no such snippet: {}", file_name),
    }
}

// What one run of the program leaves behind.
struct Output {
    success: bool,
    stdout: String,
    stderr: String,
}

fn passes(program: &mut Program, constprop: bool) -> Result<(), Diagnostic> {
    let mut variable_checker = VariableChecker::new();
    program.accept(&mut variable_checker)?;
    if constprop {
        let mut constant_propagation = ConstantPropagation::new();
        program.accept(&mut constant_propagation)?;
    }
    Ok(())
}

// Runs the pipeline on the given snippet as the command line program does:
// the source is echoed, then the resulting program or the error is written.
fn run_program(file_name: &str, constprop: bool) -> Output {
    let source = snippet(file_name);
    let mut stdout = format!("Unparsed file:\n{:?}\n\n", source);
    let outcome = parse(source).and_then(|mut program| {
        passes(&mut program, constprop)?;
        Ok(program)
    });
    match outcome {
        Ok(program) => {
            stdout.push_str(&format!("Resulting program:\n\n{}\n", program.render()));
            Output { success: true, stdout, stderr: String::new() }
        }
        Err(diagnostic) => Output {
            success: false,
            stdout,
            stderr: format!("Error: {}\n", diagnostic.message()),
        },
    }
}

// Check that a run succeeds and that the output contains the expected strings.
fn runs_ok(file_name: &str, constprop: bool, expected: &[&str]) {
    let output = run_program(file_name, constprop);
    assert!(output.success, "Failed: {:?}", output.stderr);
    for line in expected {
        assert!(output.stdout.contains(line));
    }
}

// Check that a run fails and that the output contains the expected strings.
fn runs_err(file_name: &str, constprop: bool, expected: &[&str]) {
    let output = run_program(file_name, constprop);
    assert!(!output.success, "Failed: {:?}", output.stdout);
    for line in expected {
        assert!(output.stderr.contains(line));
    }
}

#[test]
fn test_all_grammar_feats() {
    runs_ok("parser/all_grammar_feats.rs", false, &vec![]);
}

#[test]
fn test_binops() {
    runs_ok("parser/binops.rs", false, &vec![
        "let a = 1u8 + 1u8;",
        "let b = 1u8 - 1u8;",
        "let c = 1u8 * 1u8;",
        "let d = 1u8 / 1u8;"
    ]);
}

#[test]
fn test_binops_constprop() {
    runs_ok("parser/binops.rs", true, &vec![
        "let a = 2u8;",
        "let b = 0u8;",
        "let c = 1u8;",
        "let d = 1u8;"
    ]);
}

#[test]
fn test_comments() {
    runs_ok("parser/comments.rs", false, &vec![]);
}

#[test]
fn test_inputs() {
    runs_ok("parser/inputs.rs", false, &vec![]);
}

#[test]
fn test_paren() {
    runs_ok("parser/paren.rs", false, &vec![]);
}

#[test]
fn single_def() {
    runs_ok("parser/single_def.rs", false, &vec![]);
}

#[test]
fn test_redecl() {
    runs_err("errors/redecl.rs", false, &vec![
        "Error: Redefinition of variable 'a'."
    ]);
}

#[test]
fn test_input_redecl() {
    runs_err("errors/input_redecl.rs", false, &vec![
        "Error: Redefinition of input variable 'a'."
    ]);
}

#[test]
fn test_input_redecl_2() {
    runs_err("errors/input_redecl_2.rs", false, &vec![
        "Error: Redefinition of variable 'a'."
    ]);
}

#[test]
fn test_out_of_order() {
    runs_err("errors/out_of_order.rs", false, &vec![
        "Error: Use of undefined variable 'a'."
    ]);
}

#[test]
fn test_undefined() {
    runs_err("errors/undefined.rs", false, &vec![
        "Error: Use of undefined variable 'b'."
    ]);
}

#[test]
fn test_constprop_unfoldable() {
    runs_ok("constprop/unfoldable.rs", true, &vec![
        "let c = a + 2u8;",
        "let d = b * 3u8;"
    ]);
}

#[test]
fn test_constprop_nested_2() {
    runs_ok("constprop/nested_2.rs", true, &vec![
        "let result = ((((i) + 3u8)) * ((j) + 2u8)) - 8u8;"
    ]);
}

#[test]
fn test_constprop_nested_3() {
    runs_ok("constprop/nested_3.rs", true, &vec![
        "let x = 1u8;",
        "let y = 29u8;"
    ]);
}

#[test]
fn test_constprop_mixed() {
    runs_ok("constprop/mixed.rs", true, &vec![
        "let m = ((x) + 5u8) - 2u8;",
        "let n = 3u8 + x"
    ]);
}

#[test]
fn test_constprop_paren() {
    runs_ok("constprop/paren.rs", true, &vec![
        "let m = 21u8;",
        "let n = 2u8;"
    ]);
}

#[test]
fn test_constprop_overflow() {
    runs_err("constprop/overflow.rs", true, &vec![
        "Error: Constant evaluation resulted in value greater than 255: 250 + 10"
    ]);
}

#[test]
fn test_constprop_overflow_2() {
    runs_err("constprop/overflow_2.rs", true, &vec![
        "Error: Constant evaluation resulted in value greater than 255: 40 * 7"
    ]);
}

#[test]
fn test_constprop_complex_2() {
    runs_ok("constprop/complex_2.rs", true, &vec![
        "let x = 2u8 + a;",
        "let y = 12u8 + b;",
        "let z = (((x) * y)) + 3u8;"
    ]);
}

#[test]
fn test_constprop_div_non_exact() {
    runs_err("constprop/div_non_exact.rs", true, &vec![
        "Error: Constant evaluation resulted in non-integer division: 10 / 3"
    ]);
}

#[test]
fn test_constprop_div0() {
    runs_err("constprop/div0.rs", true, &vec![
        "Error: Constant evaluation resulted in division by zero: 10 / 0"
    ]);
}

#[test]
fn test_constprop_complex() {
    runs_ok("constprop/complex.rs", true, &vec![
        "let p = 14u8;",
        "let q = 3u8;"
    ]);
}

#[test]
fn test_constprop_mixed_2() {
    runs_ok("constprop/mixed_2.rs", true, &vec![
        "let a = 7u8;",
        "let b = 7u8 + x;",
        "let c = y * 2u8;",
        "let d = c - 1u8;"
    ]);
}

#[test]
fn test_constprop_nested() {
    runs_ok("constprop/nested.rs", true, &vec![
        "let x = 7u8;",
        "let y = 20u8;"
    ]);
}

#[test]
fn test_constprop_unfoldable_2() {
    runs_ok("constprop/unfoldable_2.rs", true, &vec![
        "let x = (a + 1u8) * 2u8;",
        "let y = (b - 1u8) / 2u8;",
        "let z = (a + 2u8) * (b - 1u8) + 3u8;"
    ]);
}

#[test]
fn test_constprop_underflow() {
    runs_err("constprop/underflow.rs", true, &vec![
        "Error: Constant evaluation resulted in negative value: 5 - 10"
    ]);
}

#[test]
fn test_constprop_idents() {
    runs_ok("constprop/idents.rs", true, &vec![
        "let a = 10u8;",
        "let b = 5u8;",
        "let c = 15u8;",
        "let d = 10u8;"
    ]);
}
