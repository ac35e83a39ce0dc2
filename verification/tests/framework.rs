use rustic::ast::{Expression, Input, Operator, Program, Statement, Type, Value};
use rustic::messages::Diagnostic;
use rustic::visitors::constprop::{as_constant, ConstantPropagation};
use rustic::visitors::variable_checker::VariableChecker;
use rustic::visitors::visitor::{NodeAccept, Visitor};

// A pass that records which operation each node reaches, and rewrites the
// node so that the change shows.
struct Recorder {
    calls: Vec<&'static str>,
}

impl Visitor for Recorder {
    fn visit_program(&mut self, program: &mut Program) -> Result<(), Diagnostic> {
        self.calls.push("program");
        program.name = "seen".to_string();
        Ok(())
    }

    fn visit_input(&mut self, input: &mut Input) -> Result<(), Diagnostic> {
        self.calls.push("input");
        input.name = "seen".to_string();
        Ok(())
    }

    fn visit_statement(&mut self, statement: &mut Statement) -> Result<(), Diagnostic> {
        self.calls.push("statement");
        match statement {
            Statement::Assign { variable, .. } => *variable = "seen".to_string(),
        }
        Ok(())
    }

    fn visit_expression(&mut self, expression: &mut Expression) -> Result<(), Diagnostic> {
        self.calls.push("expression");
        *expression = Expression::Value(Box::new(Value::Integer(1)));
        Ok(())
    }

    fn visit_value(&mut self, value: &mut Value) -> Result<(), Diagnostic> {
        self.calls.push("value");
        *value = Value::Integer(2);
        Err(Diagnostic::UndefinedVariable("value".to_string()))
    }

    fn visit_operator(&mut self, operator: &mut Operator) -> Result<(), Diagnostic> {
        self.calls.push("operator");
        *operator = Operator::Divide;
        Ok(())
    }
}

#[test]
fn each_node_reaches_its_own_operation() {
    let mut recorder = Recorder { calls: vec![] };

    let mut program = Program { name: "f".to_string(), inputs: vec![], statements: vec![] };
    assert_eq!(program.accept(&mut recorder), Ok(()));
    assert_eq!(program.name, "seen");

    let mut input = Input { name: "a".to_string(), input_type: Type::U8 };
    assert_eq!(input.accept(&mut recorder), Ok(()));
    assert_eq!(input.name, "seen");

    let mut statement = Statement::Assign {
        variable: "a".to_string(),
        expression: Expression::Value(Box::new(Value::Integer(0))),
    };
    assert_eq!(statement.accept(&mut recorder), Ok(()));
    assert_eq!(
        statement,
        Statement::Assign {
            variable: "seen".to_string(),
            expression: Expression::Value(Box::new(Value::Integer(0))),
        }
    );

    let mut expression = Expression::Value(Box::new(Value::Integer(0)));
    assert_eq!(expression.accept(&mut recorder), Ok(()));
    assert_eq!(expression, Expression::Value(Box::new(Value::Integer(1))));

    let mut value = Value::Integer(0);
    assert_eq!(
        value.accept(&mut recorder),
        Err(Diagnostic::UndefinedVariable("value".to_string()))
    );
    assert_eq!(value, Value::Integer(2));

    let mut operator = Operator::Add;
    assert_eq!(operator.accept(&mut recorder), Ok(()));
    assert_eq!(operator, Operator::Divide);

    assert_eq!(
        recorder.calls,
        vec!["program", "input", "statement", "expression", "value", "operator"]
    );
}

#[test]
fn passes_ignore_operators() {
    let mut operator = Operator::Multiply;
    assert_eq!(operator.accept(&mut ConstantPropagation::new()), Ok(()));
    assert_eq!(operator, Operator::Multiply);
    assert_eq!(operator.accept(&mut VariableChecker::new()), Ok(()));
    assert_eq!(operator, Operator::Multiply);
}

#[test]
fn constant_propagation_ignores_inputs() {
    let mut input = Input { name: "a".to_string(), input_type: Type::U8 };
    assert_eq!(input.accept(&mut ConstantPropagation::new()), Ok(()));
    assert_eq!(input, Input { name: "a".to_string(), input_type: Type::U8 });
}

#[test]
fn a_statement_records_its_constant() {
    let mut pass = ConstantPropagation::new();
    let mut first = Statement::Assign {
        variable: "a".to_string(),
        expression: Expression::Binary {
            left: Value::Integer(2),
            operator: Operator::Multiply,
            right: Box::new(Expression::Value(Box::new(Value::Integer(21)))),
        },
    };
    assert_eq!(first.accept(&mut pass), Ok(()));
    assert_eq!(
        first,
        Statement::Assign {
            variable: "a".to_string(),
            expression: Expression::Value(Box::new(Value::Integer(42))),
        }
    );
    let mut value = Value::Identifier("a".to_string());
    assert_eq!(value.accept(&mut pass), Ok(()));
    assert_eq!(value, Value::Integer(42));
    let mut unknown = Value::Identifier("b".to_string());
    assert_eq!(unknown.accept(&mut pass), Ok(()));
    assert_eq!(unknown, Value::Identifier("b".to_string()));
}

#[test]
fn a_binary_node_folds_only_with_both_sides_known() {
    let mut pass = ConstantPropagation::new();
    let mut known_left = Expression::Binary {
        left: Value::Integer(2),
        operator: Operator::Add,
        right: Box::new(Expression::Value(Box::new(Value::Identifier("x".to_string())))),
    };
    assert_eq!(known_left.accept(&mut pass), Ok(()));
    assert_eq!(known_left.render(), "2u8 + x");
    let mut known_right = Expression::Binary {
        left: Value::Identifier("x".to_string()),
        operator: Operator::Add,
        right: Box::new(Expression::Value(Box::new(Value::Integer(2)))),
    };
    assert_eq!(known_right.accept(&mut pass), Ok(()));
    assert_eq!(known_right.render(), "x + 2u8");
}

#[test]
fn a_scope_check_defines_as_it_goes() {
    let mut scope_check = VariableChecker::new();
    let mut value = Value::Identifier("a".to_string());
    assert_eq!(
        value.accept(&mut scope_check),
        Err(Diagnostic::UndefinedVariable("a".to_string()))
    );
    let mut input = Input { name: "a".to_string(), input_type: Type::U8 };
    assert_eq!(input.accept(&mut scope_check), Ok(()));
    assert_eq!(value.accept(&mut scope_check), Ok(()));
    assert_eq!(input.accept(&mut scope_check), Err(Diagnostic::RedefinedInput("a".to_string())));
    let mut statement = Statement::Assign {
        variable: "b".to_string(),
        expression: Expression::Value(Box::new(Value::Identifier("b".to_string()))),
    };
    assert_eq!(statement.accept(&mut scope_check), Ok(()));
    assert_eq!(
        statement.accept(&mut scope_check),
        Err(Diagnostic::RedefinedVariable("b".to_string()))
    );
}

#[test]
fn constants_of_expressions() {
    assert_eq!(as_constant(&Expression::Value(Box::new(Value::Integer(5)))), Some(5));
    assert_eq!(
        as_constant(&Expression::Value(Box::new(Value::Identifier("a".to_string())))),
        None
    );
    assert_eq!(
        as_constant(&Expression::Value(Box::new(Value::Expression(Box::new(
            Expression::Value(Box::new(Value::Integer(5)))
        ))))),
        None
    );
    assert_eq!(
        as_constant(&Expression::Binary {
            left: Value::Integer(1),
            operator: Operator::Add,
            right: Box::new(Expression::Value(Box::new(Value::Integer(5)))),
        }),
        None
    );
}
