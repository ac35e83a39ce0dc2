//! The syntax tree and its mathematical model.
//!
//! Every node type has a view in which names are sequences of characters and
//! collections are sequences; the contracts of the crate are stated over
//! these views.

use vstd::prelude::*;
use vstd::string::*;
use crate::text::{decimal, push_decimal, push_name};

verus! {

/// The type of an input. The language has a single one.
#[derive(Clone, Copy, Debug, PartialEq, Eq)]
pub enum Type {
    U8,
}

/// A binary arithmetic operator.
#[derive(Clone, Copy, Debug, PartialEq, Eq)]
pub enum Operator {
    Add,
    Subtract,
    Multiply,
    Divide,
}

/// An operand: a literal, a name, or a parenthesized expression.
#[derive(Debug, PartialEq, Eq)]
pub enum Value {
    Integer(u8),
    Identifier(String),
    Expression(Box<Expression>),
}

/// An expression. The left operand of a binary node is a [`Value`]: a chain
/// `a + b + c` is held as `((a + b)) + c`, the earlier part wrapped in
/// [`Value::Expression`].
#[derive(Debug, PartialEq, Eq)]
pub enum Expression {
    Value(Box<Value>),
    Binary { left: Value, operator: Operator, right: Box<Expression> },
}

/// A statement of the function body.
#[derive(Debug, PartialEq, Eq)]
pub enum Statement {
    Assign { variable: String, expression: Expression },
}

/// A parameter of the function.
#[derive(Debug, PartialEq, Eq)]
pub struct Input {
    pub name: String,
    pub input_type: Type,
}

/// A whole program: one function with its inputs and its statements in
/// evaluation order.
#[derive(Debug, PartialEq, Eq)]
pub struct Program {
    pub name: String,
    pub inputs: Vec<Input>,
    pub statements: Vec<Statement>,
}

/// The model of a [`Value`].
pub ghost enum ValueView {
    Integer(u8),
    Identifier(Seq<char>),
    Expression(Box<ExpressionView>),
}

/// The model of an [`Expression`].
pub ghost enum ExpressionView {
    Value(Box<ValueView>),
    Binary { left: ValueView, operator: Operator, right: Box<ExpressionView> },
}

/// The model of a [`Statement`].
pub ghost enum StatementView {
    Assign { variable: Seq<char>, expression: ExpressionView },
}

/// The model of an [`Input`].
pub ghost struct InputView {
    pub name: Seq<char>,
    pub input_type: Type,
}

/// The model of a [`Program`].
pub ghost struct ProgramView {
    pub name: Seq<char>,
    pub inputs: Seq<InputView>,
    pub statements: Seq<StatementView>,
}

/// The model of a value, by recursion on the tree.
pub open spec fn value_view(value: Value) -> ValueView
    decreases value,
{
    match value {
        Value::Integer(n) => ValueView::Integer(n),
        Value::Identifier(name) => ValueView::Identifier(name@),
        Value::Expression(e) => ValueView::Expression(Box::new(expression_view(*e))),
    }
}

/// The model of an expression, by recursion on the tree.
pub open spec fn expression_view(expression: Expression) -> ExpressionView
    decreases expression,
{
    match expression {
        Expression::Value(v) => ExpressionView::Value(Box::new(value_view(*v))),
        Expression::Binary { left, operator, right } => ExpressionView::Binary {
            left: value_view(left),
            operator,
            right: Box::new(expression_view(*right)),
        },
    }
}

impl View for Value {
    type V = ValueView;

    open spec fn view(&self) -> ValueView {
        value_view(*self)
    }
}

impl View for Expression {
    type V = ExpressionView;

    open spec fn view(&self) -> ExpressionView {
        expression_view(*self)
    }
}

impl View for Statement {
    type V = StatementView;

    open spec fn view(&self) -> StatementView {
        match *self {
            Statement::Assign { variable, expression } => StatementView::Assign {
                variable: variable@,
                expression: expression@,
            },
        }
    }
}

impl View for Input {
    type V = InputView;

    open spec fn view(&self) -> InputView {
        InputView { name: self.name@, input_type: self.input_type }
    }
}

/// The models of a sequence of inputs.
pub open spec fn input_views(inputs: Seq<Input>) -> Seq<InputView> {
    inputs.map_values(|input: Input| input@)
}

/// The models of a sequence of statements.
pub open spec fn statement_views(statements: Seq<Statement>) -> Seq<StatementView> {
    statements.map_values(|statement: Statement| statement@)
}

impl View for Program {
    type V = ProgramView;

    open spec fn view(&self) -> ProgramView {
        ProgramView {
            name: self.name@,
            inputs: input_views(self.inputs@),
            statements: statement_views(self.statements@),
        }
    }
}

impl StatementView {
    /// The name that the statement assigns.
    pub open spec fn variable(self) -> Seq<char> {
        match self {
            StatementView::Assign { variable, .. } => variable,
        }
    }

    /// The right-hand side of the statement.
    pub open spec fn expression(self) -> ExpressionView {
        match self {
            StatementView::Assign { expression, .. } => expression,
        }
    }
}

/// The symbol of an operator.
pub open spec fn operator_symbol(operator: Operator) -> Seq<char> {
    match operator {
        Operator::Add => seq!['+'],
        Operator::Subtract => seq!['-'],
        Operator::Multiply => seq!['*'],
        Operator::Divide => seq!['/'],
    }
}

/// A value in source syntax: a literal with its suffix, a name, or an
/// expression in parentheses. The parentheses are written wherever the tree
/// holds a [`ValueView::Expression`], also around a single name or literal.
pub open spec fn value_text(value: ValueView) -> Seq<char>
    decreases value,
{
    match value {
        ValueView::Integer(n) => decimal(n as nat) + "u8"@,
        ValueView::Identifier(name) => name,
        ValueView::Expression(inner) => "("@ + expression_text(*inner) + ")"@,
    }
}

/// An expression in source syntax, the operator between single spaces.
pub open spec fn expression_text(expression: ExpressionView) -> Seq<char>
    decreases expression,
{
    match expression {
        ExpressionView::Value(value) => value_text(*value),
        ExpressionView::Binary { left, operator, right } => value_text(left) + " "@
            + operator_symbol(operator) + " "@ + expression_text(*right),
    }
}

/// A statement in source syntax, without indentation or line end.
pub open spec fn statement_text(statement: StatementView) -> Seq<char> {
    "let "@ + statement.variable() + " = "@ + expression_text(statement.expression()) + ";"@
}

/// An input in source syntax.
pub open spec fn input_text(input: InputView) -> Seq<char> {
    input.name + ": u8"@
}

/// The first `count` inputs, separated by a comma and a space.
pub open spec fn inputs_text(inputs: Seq<InputView>, count: nat) -> Seq<char>
    decreases count,
{
    if count == 0 {
        Seq::empty()
    } else if count == 1 {
        input_text(inputs[0])
    } else {
        inputs_text(inputs, (count - 1) as nat) + ", "@ + input_text(inputs[count - 1])
    }
}

/// The first `count` statements, each on a line of its own, indented by four
/// spaces.
pub open spec fn statements_text(statements: Seq<StatementView>, count: nat) -> Seq<char>
    decreases count,
{
    if count == 0 {
        Seq::empty()
    } else {
        statements_text(statements, (count - 1) as nat) + "    "@ + statement_text(
            statements[count - 1],
        ) + "\n"@
    }
}

/// A program in source syntax: the header, the statements line by line, and
/// the closing brace on a line of its own.
pub open spec fn program_text(program: ProgramView) -> Seq<char> {
    "fn "@ + program.name + "("@ + inputs_text(program.inputs, program.inputs.len()) + ") {\n"@
        + statements_text(program.statements, program.statements.len()) + "}\n"@
}

/// Appends the symbol of `operator` to `out`.
pub fn push_operator(out: &mut String, operator: Operator)
    ensures
        final(out)@ == old(out)@ + operator_symbol(operator),
{
    match operator {
        Operator::Add => out.append("+"),
        Operator::Subtract => out.append("-"),
        Operator::Multiply => out.append("*"),
        Operator::Divide => out.append("/"),
    }
    proof {
        reveal_strlit("+");
        reveal_strlit("-");
        reveal_strlit("*");
        reveal_strlit("/");
    }
    assert(out@ =~= old(out)@ + operator_symbol(operator));
}

/// Appends a value in source syntax to `out`.
pub fn push_value(out: &mut String, value: &Value)
    ensures
        final(out)@ == old(out)@ + value_text(value@),
    decreases value,
{
    match value {
        Value::Integer(n) => {
            push_decimal(out, *n);
            out.append("u8");
        },
        Value::Identifier(name) => {
            push_name(out, name);
        },
        Value::Expression(inner) => {
            out.append("(");
            push_expression(out, inner);
            out.append(")");
        },
    }
    assert(out@ =~= old(out)@ + value_text(value@));
}

/// Appends an expression in source syntax to `out`.
pub fn push_expression(out: &mut String, expression: &Expression)
    ensures
        final(out)@ == old(out)@ + expression_text(expression@),
    decreases expression,
{
    match expression {
        Expression::Value(value) => {
            push_value(out, value);
        },
        Expression::Binary { left, operator, right } => {
            push_value(out, left);
            out.append(" ");
            push_operator(out, *operator);
            out.append(" ");
            push_expression(out, right);
        },
    }
    assert(out@ =~= old(out)@ + expression_text(expression@));
}

impl Value {
    /// The value in source syntax.
    pub fn render(&self) -> (text: String)
        ensures
            text@ == value_text(self@),
    {
        let mut text = String::new();
        push_value(&mut text, self);
        assert(text@ =~= value_text(self@));
        text
    }
}

impl Expression {
    /// The expression in source syntax.
    pub fn render(&self) -> (text: String)
        ensures
            text@ == expression_text(self@),
    {
        let mut text = String::new();
        push_expression(&mut text, self);
        assert(text@ =~= expression_text(self@));
        text
    }
}

impl Statement {
    /// The statement in source syntax, without indentation or line end.
    pub fn render(&self) -> (text: String)
        ensures
            text@ == statement_text(self@),
    {
        match self {
            Statement::Assign { variable, expression } => {
                let mut text = String::from_str("let ");
                push_name(&mut text, variable);
                text.append(" = ");
                push_expression(&mut text, expression);
                text.append(";");
                text
            },
        }
    }
}

impl Input {
    /// The input in source syntax.
    pub fn render(&self) -> (text: String)
        ensures
            text@ == input_text(self@),
    {
        let mut text = self.name.clone();
        text.append(": u8");
        text
    }
}

impl Program {
    /// The program in source syntax.
    pub fn render(&self) -> (text: String)
        ensures
            text@ == program_text(self@),
    {
        let mut text = String::from_str("fn ");
        push_name(&mut text, &self.name);
        text.append("(");
        let ghost head = text@;
        let mut index: usize = 0;
        while index < self.inputs.len()
            invariant
                index <= self.inputs.len(),
                text@ == head + inputs_text(self@.inputs, index as nat),
            decreases self.inputs.len() - index,
        {
            if index > 0 {
                text.append(", ");
            }
            let input = self.inputs[index].render();
            push_name(&mut text, &input);
            index += 1;
            assert(text@ =~= head + inputs_text(self@.inputs, index as nat));
        }
        text.append(") {\n");
        let ghost head = text@;
        let mut index: usize = 0;
        while index < self.statements.len()
            invariant
                index <= self.statements.len(),
                text@ == head + statements_text(self@.statements, index as nat),
            decreases self.statements.len() - index,
        {
            text.append("    ");
            let statement = self.statements[index].render();
            push_name(&mut text, &statement);
            text.append("\n");
            index += 1;
            assert(text@ =~= head + statements_text(self@.statements, index as nat));
        }
        text.append("}\n");
        assert(text@ =~= program_text(self@));
        text
    }
}

} // verus!
