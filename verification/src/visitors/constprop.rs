//! Constant propagation: folds arithmetic on known values and replaces names
//! whose value is known by that value.
//!
//! The pass relies on single assignment, which the scope check establishes: a
//! name is bound once, so a value recorded for it stays valid.
//!
//! The pass rewrites the tree in place and stops at the first operation that
//! has no value in 8 bits. What it has folded until then stays folded.

use vstd::prelude::*;
use vstd::hash_map::StringHashMap;
use crate::ast::{
    expression_view, Expression, ExpressionView, Input, Operator, Program, ProgramView, Statement,
    StatementView, Value, ValueView,
};
use crate::messages::{Diagnostic, DiagnosticView};
use crate::visitors::visitor::{carries_out, complete, Rewrite, Visitor};

verus! {

/// The values known so far, by name.
pub type Constants = Map<Seq<char>, u8>;

/// The value of `l operator r`, or the reason it has none in 8 bits.
pub open spec fn evaluate_spec(operator: Operator, l: u8, r: u8) -> Result<u8, DiagnosticView> {
    match operator {
        Operator::Add => if l + r > 255 {
            Err(DiagnosticView::ArithmeticOverflow(l, operator, r))
        } else {
            Ok((l + r) as u8)
        },
        Operator::Subtract => if l < r {
            Err(DiagnosticView::ArithmeticUnderflow(l, operator, r))
        } else {
            Ok((l - r) as u8)
        },
        Operator::Multiply => if l * r > 255 {
            Err(DiagnosticView::ArithmeticOverflow(l, operator, r))
        } else {
            Ok((l * r) as u8)
        },
        Operator::Divide => if r == 0 {
            Err(DiagnosticView::DivisionByZero(l, r))
        } else if l % r != 0 {
            Err(DiagnosticView::InexactDivision(l, r))
        } else {
            Ok((l / r) as u8)
        },
    }
}

/// The integer that an expression is, if it is a single integer.
pub open spec fn constant_of(expression: ExpressionView) -> Option<u8> {
    match expression {
        ExpressionView::Value(value) => match *value {
            ValueView::Integer(n) => Some(n),
            _ => None,
        },
        _ => None,
    }
}

/// What folding makes of a value: a known name becomes its value, and a
/// parenthesized expression that folds to a single integer becomes that
/// integer. Where folding the expression fails, the parentheses stay around
/// what is left of it.
pub open spec fn fold_value(value: ValueView, constants: Constants) -> Rewrite<ValueView>
    decreases value,
{
    match value {
        ValueView::Integer(_) => complete(value),
        ValueView::Identifier(name) => if constants.contains_key(name) {
            complete(ValueView::Integer(constants[name]))
        } else {
            complete(value)
        },
        ValueView::Expression(inner) => {
            let folded = fold_expression(*inner, constants);
            match (folded.failure, constant_of(folded.node)) {
                (None, Some(n)) => complete(ValueView::Integer(n)),
                _ => Rewrite {
                    node: ValueView::Expression(Box::new(folded.node)),
                    failure: folded.failure,
                },
            }
        },
    }
}

/// What folding makes of an expression: both sides are folded, the left one
/// first, and a binary node whose sides are then integers becomes the value
/// of the operation. The first failure stops the folding: the sides stay as
/// they are by then.
pub open spec fn fold_expression(expression: ExpressionView, constants: Constants) -> Rewrite<
    ExpressionView,
>
    decreases expression,
{
    match expression {
        ExpressionView::Value(value) => {
            let folded = fold_value(*value, constants);
            Rewrite { node: ExpressionView::Value(Box::new(folded.node)), failure: folded.failure }
        },
        ExpressionView::Binary { left, operator, right } => {
            let folded_left = fold_value(left, constants);
            if folded_left.failure is Some {
                Rewrite {
                    node: ExpressionView::Binary { left: folded_left.node, operator, right },
                    failure: folded_left.failure,
                }
            } else {
                let folded_right = fold_expression(*right, constants);
                let sides = ExpressionView::Binary {
                    left: folded_left.node,
                    operator,
                    right: Box::new(folded_right.node),
                };
                if folded_right.failure is Some {
                    Rewrite { node: sides, failure: folded_right.failure }
                } else {
                    match (folded_left.node, constant_of(folded_right.node)) {
                        (ValueView::Integer(l), Some(r)) => match evaluate_spec(operator, l, r) {
                            Ok(n) => complete(ExpressionView::Value(Box::new(ValueView::Integer(n)))),
                            Err(diagnostic) => Rewrite { node: sides, failure: Some(diagnostic) },
                        },
                        _ => complete(sides),
                    }
                }
            }
        },
    }
}

/// What folding makes of a statement: its right-hand side is folded.
pub open spec fn fold_statement(statement: StatementView, constants: Constants) -> Rewrite<
    StatementView,
> {
    let folded = fold_expression(statement.expression(), constants);
    Rewrite {
        node: StatementView::Assign { variable: statement.variable(), expression: folded.node },
        failure: folded.failure,
    }
}

/// The values known after a statement: the assigned name is recorded if the
/// right-hand side folds to a single integer.
pub open spec fn record(statement: StatementView, constants: Constants) -> Constants {
    let folded = fold_expression(statement.expression(), constants);
    match (folded.failure, constant_of(folded.node)) {
        (None, Some(n)) => constants.insert(statement.variable(), n),
        _ => constants,
    }
}

/// What folding the first `count` statements in order makes of a sequence of
/// statements, starting with nothing known, and the values known after it.
/// The first failure stops the folding.
pub open spec fn fold_statements(statements: Seq<StatementView>, count: nat) -> (
    Rewrite<Seq<StatementView>>,
    Constants,
)
    decreases count,
{
    if count == 0 {
        (complete(statements), Map::empty())
    } else {
        let (before, constants) = fold_statements(statements, (count - 1) as nat);
        if before.failure is Some {
            (before, constants)
        } else {
            let folded = fold_statement(statements[count - 1], constants);
            (
                Rewrite { node: before.node.update(count - 1, folded.node), failure: folded.failure },
                record(statements[count - 1], constants),
            )
        }
    }
}

/// What constant propagation makes of a program.
pub open spec fn fold_program(program: ProgramView) -> Rewrite<ProgramView> {
    let folded = fold_statements(program.statements, program.statements.len()).0;
    Rewrite {
        node: ProgramView { name: program.name, inputs: program.inputs, statements: folded.node },
        failure: folded.failure,
    }
}

/// The values known after constant propagation on a program.
pub open spec fn known_after(program: ProgramView) -> Constants {
    fold_statements(program.statements, program.statements.len()).1
}

/// Once folding has failed, there is no more folding.
pub proof fn lemma_fold_statements_failure(
    statements: Seq<StatementView>,
    count: nat,
    more: nat,
)
    requires
        count <= more,
        fold_statements(statements, count).0.failure is Some,
    ensures
        fold_statements(statements, more) == fold_statements(statements, count),
    decreases more,
{
    if count < more {
        lemma_fold_statements_failure(statements, count, (more - 1) as nat);
    }
}

/// Folding the first `count` statements keeps the number of statements and
/// leaves the others as they are.
pub proof fn lemma_fold_statements_rest(statements: Seq<StatementView>, count: nat)
    requires
        count <= statements.len(),
    ensures
        fold_statements(statements, count).0.node.len() == statements.len(),
        forall|i: int|
            count <= i < statements.len() ==> fold_statements(statements, count).0.node[i]
                == statements[i],
    decreases count,
{
    if count > 0 {
        lemma_fold_statements_rest(statements, (count - 1) as nat);
    }
}

/// Where the first `more` statements fold, so do the first `count` of them,
/// into the same statements.
pub proof fn lemma_fold_statements_prefix(statements: Seq<StatementView>, count: nat, more: nat)
    requires
        count <= more <= statements.len(),
        fold_statements(statements, more).0.failure is None,
    ensures
        fold_statements(statements, count).0.failure is None,
        forall|i: int|
            0 <= i < count ==> fold_statements(statements, count).0.node[i] == fold_statements(
                statements,
                more,
            ).0.node[i],
    decreases more,
{
    if count < more {
        lemma_fold_statements_prefix(statements, count, (more - 1) as nat);
        lemma_fold_statements_rest(statements, (more - 1) as nat);
    }
}

/// Where the first `more` statements fold, each of them is what folding makes
/// of it with the values known before it.
pub proof fn lemma_folded_statement(statements: Seq<StatementView>, index: int, more: nat)
    requires
        0 <= index < more <= statements.len(),
        fold_statements(statements, more).0.failure is None,
    ensures
        fold_statements(statements, index as nat).0.failure is None,
        fold_statement(statements[index], fold_statements(statements, index as nat).1).failure
            is None,
        fold_statements(statements, more).0.node[index] == fold_statement(
            statements[index],
            fold_statements(statements, index as nat).1,
        ).node,
{
    lemma_fold_statements_prefix(statements, index as nat, more);
    lemma_fold_statements_prefix(statements, (index + 1) as nat, more);
    lemma_fold_statements_rest(statements, index as nat);
}

/// Folding a folded value again, with the same values known, changes nothing.
pub proof fn lemma_fold_value_idempotent(value: ValueView, constants: Constants)
    requires
        fold_value(value, constants).failure is None,
    ensures
        fold_value(fold_value(value, constants).node, constants) == fold_value(value, constants),
    decreases value,
{
    match value {
        ValueView::Expression(inner) => {
            lemma_fold_expression_idempotent(*inner, constants);
        },
        _ => {},
    }
}

/// Folding a folded expression again, with the same values known, changes
/// nothing.
pub proof fn lemma_fold_expression_idempotent(expression: ExpressionView, constants: Constants)
    requires
        fold_expression(expression, constants).failure is None,
    ensures
        fold_expression(fold_expression(expression, constants).node, constants) == fold_expression(
            expression,
            constants,
        ),
    decreases expression,
{
    match expression {
        ExpressionView::Value(value) => {
            lemma_fold_value_idempotent(*value, constants);
        },
        ExpressionView::Binary { left, operator, right } => {
            lemma_fold_value_idempotent(left, constants);
            lemma_fold_expression_idempotent(*right, constants);
            let folded_left = fold_value(left, constants).node;
            let folded_right = fold_expression(*right, constants).node;
            let folded = fold_expression(expression, constants).node;
            if folded_left is Integer && constant_of(folded_right) is Some {
                let n = constant_of(folded)->Some_0;
                assert(fold_value(ValueView::Integer(n), constants) == complete(
                    ValueView::Integer(n),
                ));
            }
        },
    }
}

/// Folding the first `count` statements of a folded program again changes
/// nothing, and the same values are known after it.
proof fn lemma_fold_statements_idempotent(statements: Seq<StatementView>, count: nat)
    requires
        count <= statements.len(),
        fold_statements(statements, statements.len()).0.failure is None,
    ensures
        fold_statements(fold_statements(statements, statements.len()).0.node, count) == (
            fold_statements(statements, statements.len()).0,
            fold_statements(statements, count).1,
        ),
    decreases count,
{
    let folded = fold_statements(statements, statements.len()).0.node;
    lemma_fold_statements_rest(statements, statements.len());
    if count > 0 {
        let index = count - 1;
        lemma_fold_statements_idempotent(statements, index as nat);
        lemma_folded_statement(statements, index, statements.len());
        let constants = fold_statements(statements, index as nat).1;
        lemma_fold_expression_idempotent(statements[index].expression(), constants);
        assert(folded.update(index, folded[index]) =~= folded);
    }
}

/// Constant propagation is idempotent: applied to its own result, it gives
/// that result again.
pub proof fn lemma_fold_program_idempotent(program: ProgramView)
    requires
        fold_program(program).failure is None,
    ensures
        fold_program(fold_program(program).node) == fold_program(program),
{
    lemma_fold_statements_rest(program.statements, program.statements.len());
    lemma_fold_statements_idempotent(program.statements, program.statements.len());
}

/// Nothing is left to fold in a value: it holds no known name, no
/// parentheses around a single integer and no operation on two integers.
pub open spec fn value_settled(value: ValueView, constants: Constants) -> bool
    decreases value,
{
    match value {
        ValueView::Integer(_) => true,
        ValueView::Identifier(name) => !constants.contains_key(name),
        ValueView::Expression(inner) => expression_settled(*inner, constants) && constant_of(
            *inner,
        ) is None,
    }
}

/// Nothing is left to fold in an expression.
pub open spec fn expression_settled(expression: ExpressionView, constants: Constants) -> bool
    decreases expression,
{
    match expression {
        ExpressionView::Value(value) => value_settled(*value, constants),
        ExpressionView::Binary { left, right, .. } => value_settled(left, constants)
            && expression_settled(*right, constants) && !(left is Integer && constant_of(*right)
            is Some),
    }
}

/// In a folded value nothing is left to fold.
pub proof fn lemma_folded_value_settled(value: ValueView, constants: Constants)
    requires
        fold_value(value, constants).failure is None,
    ensures
        value_settled(fold_value(value, constants).node, constants),
    decreases value,
{
    match value {
        ValueView::Expression(inner) => {
            lemma_folded_expression_settled(*inner, constants);
        },
        _ => {},
    }
}

/// In a folded expression nothing is left to fold.
pub proof fn lemma_folded_expression_settled(expression: ExpressionView, constants: Constants)
    requires
        fold_expression(expression, constants).failure is None,
    ensures
        expression_settled(fold_expression(expression, constants).node, constants),
    decreases expression,
{
    match expression {
        ExpressionView::Value(value) => {
            lemma_folded_value_settled(*value, constants);
        },
        ExpressionView::Binary { left, operator, right } => {
            lemma_folded_value_settled(left, constants);
            lemma_folded_expression_settled(*right, constants);
            let folded = fold_expression(expression, constants).node;
            if let Some(n) = constant_of(folded) {
                assert(value_settled(ValueView::Integer(n), constants));
            }
        },
    }
}

/// A value in which nothing is left to fold folds to itself.
pub proof fn lemma_settled_value_fixed(value: ValueView, constants: Constants)
    requires
        value_settled(value, constants),
    ensures
        fold_value(value, constants) == complete(value),
    decreases value,
{
    match value {
        ValueView::Expression(inner) => {
            lemma_settled_expression_fixed(*inner, constants);
        },
        _ => {},
    }
}

/// An expression in which nothing is left to fold folds to itself.
pub proof fn lemma_settled_expression_fixed(expression: ExpressionView, constants: Constants)
    requires
        expression_settled(expression, constants),
    ensures
        fold_expression(expression, constants) == complete(expression),
    decreases expression,
{
    match expression {
        ExpressionView::Value(value) => {
            lemma_settled_value_fixed(*value, constants);
        },
        ExpressionView::Binary { left, operator, right } => {
            lemma_settled_value_fixed(left, constants);
            lemma_settled_expression_fixed(*right, constants);
        },
    }
}

/// After constant propagation nothing is left to fold in any statement, given
/// the values known before it.
pub proof fn lemma_folded_program_settled(program: ProgramView, index: int)
    requires
        fold_program(program).failure is None,
        0 <= index < program.statements.len(),
    ensures
        fold_program(program).node.statements.len() == program.statements.len(),
        expression_settled(
            fold_program(program).node.statements[index].expression(),
            fold_statements(program.statements, index as nat).1,
        ),
{
    let count = program.statements.len();
    lemma_fold_statements_rest(program.statements, count);
    lemma_folded_statement(program.statements, index, count);
    let constants = fold_statements(program.statements, index as nat).1;
    lemma_folded_expression_settled(program.statements[index].expression(), constants);
}

/// The integer that an expression is, if it is a single integer literal in
/// any number of parentheses.
pub open spec fn literal_of(expression: ExpressionView) -> Option<u8>
    decreases expression,
{
    match expression {
        ExpressionView::Value(value) => match *value {
            ValueView::Integer(n) => Some(n),
            ValueView::Identifier(_) => None,
            ValueView::Expression(inner) => literal_of(*inner),
        },
        ExpressionView::Binary { .. } => None,
    }
}

/// A statement whose right-hand side is a literal, without the parentheses
/// around the literal.
pub open spec fn unwrapped(statement: StatementView) -> StatementView {
    StatementView::Assign {
        variable: statement.variable(),
        expression: ExpressionView::Value(
            Box::new(ValueView::Integer(literal_of(statement.expression())->Some_0)),
        ),
    }
}

/// A literal in parentheses folds to the literal, whatever is known.
pub proof fn lemma_fold_literal(expression: ExpressionView, constants: Constants)
    requires
        literal_of(expression) is Some,
    ensures
        fold_expression(expression, constants) == complete(
            ExpressionView::Value(Box::new(ValueView::Integer(literal_of(expression)->Some_0))),
        ),
    decreases expression,
{
    match expression {
        ExpressionView::Value(value) => match *value {
            ValueView::Expression(inner) => {
                lemma_fold_literal(*inner, constants);
                assert(fold_value(*value, constants) == complete(
                    ValueView::Integer(literal_of(expression)->Some_0),
                ));
            },
            _ => {},
        },
        _ => {},
    }
}

/// The first `count` statements of a program of literals fold without
/// failure, each to itself without the parentheses around its literal.
proof fn lemma_fold_literal_statements(statements: Seq<StatementView>, count: nat)
    requires
        count <= statements.len(),
        forall|i: int|
            0 <= i < statements.len() ==> literal_of(#[trigger] statements[i].expression()) is Some,
    ensures
        fold_statements(statements, count).0.failure is None,
        fold_statements(statements, count).0.node.len() == statements.len(),
        forall|i: int|
            0 <= i < count ==> fold_statements(statements, count).0.node[i] == unwrapped(
                statements[i],
            ),
    decreases count,
{
    lemma_fold_statements_rest(statements, count);
    if count > 0 {
        lemma_fold_literal_statements(statements, (count - 1) as nat);
        let constants = fold_statements(statements, (count - 1) as nat).1;
        lemma_fold_literal(statements[count - 1].expression(), constants);
    }
}

/// Constant propagation on a program whose right-hand sides are all single
/// integer literals, in parentheses or not, succeeds and changes nothing but
/// to drop those parentheses.
pub proof fn lemma_fold_program_of_literals(program: ProgramView)
    requires
        forall|i: int|
            0 <= i < program.statements.len() ==> literal_of(
                #[trigger] program.statements[i].expression(),
            ) is Some,
    ensures
        fold_program(program) == complete(
            ProgramView {
                name: program.name,
                inputs: program.inputs,
                statements: program.statements.map_values(
                    |statement: StatementView| unwrapped(statement),
                ),
            },
        ),
{
    lemma_fold_literal_statements(program.statements, program.statements.len());
    assert(fold_statements(program.statements, program.statements.len()).0.node
        =~= program.statements.map_values(|statement: StatementView| unwrapped(statement)));
}

/// Computes `l operator r` in 8 bits: a sum or product above 255, a negative
/// difference, a division by zero and a division with a remainder fail.
pub fn evaluate(operator: Operator, l: u8, r: u8) -> (outcome: Result<u8, Diagnostic>)
    ensures
        match evaluate_spec(operator, l, r) {
            Ok(n) => outcome == Ok::<u8, Diagnostic>(n),
            Err(diagnostic) => outcome is Err && outcome->Err_0@ == diagnostic,
        },
{
    match operator {
        Operator::Add => {
            let sum: u16 = l as u16 + r as u16;
            if sum > 255 {
                Err(Diagnostic::ArithmeticOverflow(l, operator, r))
            } else {
                Ok(sum as u8)
            }
        },
        Operator::Subtract => {
            if l < r {
                Err(Diagnostic::ArithmeticUnderflow(l, operator, r))
            } else {
                Ok(l - r)
            }
        },
        Operator::Multiply => {
            assert(l * r <= 255 * 255) by (nonlinear_arith)
                requires
                    l <= 255,
                    r <= 255,
            ;
            let product: u16 = l as u16 * r as u16;
            if product > 255 {
                Err(Diagnostic::ArithmeticOverflow(l, operator, r))
            } else {
                Ok(product as u8)
            }
        },
        Operator::Divide => {
            if r == 0 {
                Err(Diagnostic::DivisionByZero(l, r))
            } else if l % r != 0 {
                Err(Diagnostic::InexactDivision(l, r))
            } else {
                Ok(l / r)
            }
        },
    }
}

/// The integer that `expression` is, if it is a single integer.
pub fn as_constant(expression: &Expression) -> (constant: Option<u8>)
    ensures
        constant == constant_of(expression@),
{
    reveal_with_fuel(expression_view, 2);
    match expression {
        Expression::Value(value) => match &**value {
            Value::Integer(n) => Some(*n),
            _ => None,
        },
        _ => None,
    }
}

/// The constant propagation pass. It holds the values known so far.
pub struct ConstantPropagation {
    constants: StringHashMap<u8>,
}

impl View for ConstantPropagation {
    type V = Constants;

    closed spec fn view(&self) -> Constants {
        self.constants@
    }
}

impl ConstantPropagation {
    /// A pass that knows no value yet.
    pub fn new() -> (pass: Self)
        ensures
            pass@ == Map::<Seq<char>, u8>::empty(),
    {
        ConstantPropagation { constants: StringHashMap::new() }
    }
}

impl Visitor for ConstantPropagation {
    /// The program is folded statement by statement, starting with nothing
    /// known, whatever the pass knew before.
    open spec fn program_step(
        pre: Self,
        post: Self,
        before: Program,
        after: Program,
        outcome: Result<(), Diagnostic>,
    ) -> bool {
        post@ == known_after(before@) && carries_out(fold_program(before@), after, outcome)
    }

    /// The statement is folded with what the pass knows, and the pass then
    /// knows the assigned name if the right-hand side became an integer.
    open spec fn statement_step(
        pre: Self,
        post: Self,
        before: Statement,
        after: Statement,
        outcome: Result<(), Diagnostic>,
    ) -> bool {
        post@ == record(before@, pre@) && carries_out(fold_statement(before@, pre@), after, outcome)
    }

    /// The expression is folded with what the pass knows.
    open spec fn expression_step(
        pre: Self,
        post: Self,
        before: Expression,
        after: Expression,
        outcome: Result<(), Diagnostic>,
    ) -> bool {
        post@ == pre@ && carries_out(fold_expression(before@, pre@), after, outcome)
    }

    /// The value is folded with what the pass knows.
    open spec fn value_step(
        pre: Self,
        post: Self,
        before: Value,
        after: Value,
        outcome: Result<(), Diagnostic>,
    ) -> bool {
        post@ == pre@ && carries_out(fold_value(before@, pre@), after, outcome)
    }

    fn visit_program(&mut self, program: &mut Program) -> (outcome: Result<(), Diagnostic>) {
        self.constants.clear();
        let count = program.statements.len();
        let mut index: usize = 0;
        while index < count
            invariant
                index <= count,
                count == program.statements.len(),
                count == old(program).statements.len(),
                program.name == old(program).name,
                program.inputs == old(program).inputs,
                fold_statements(old(program)@.statements, index as nat) == (
                    complete(program@.statements),
                    self@,
                ),
            decreases count - index,
        {
            proof {
                lemma_fold_statements_rest(old(program)@.statements, index as nat);
            }
            let ghost before = program@.statements;
            let outcome = self.visit_statement(&mut program.statements[index]);
            assert(program@.statements =~= before.update(
                index as int,
                program.statements[index as int]@,
            ));
            match outcome {
                Err(diagnostic) => {
                    proof {
                        lemma_fold_statements_failure(
                            old(program)@.statements,
                            (index + 1) as nat,
                            count as nat,
                        );
                    }
                    return Err(diagnostic);
                },
                Ok(()) => {},
            }
            index += 1;
        }
        Ok(())
    }

    fn visit_input(&mut self, input: &mut Input) -> (outcome: Result<(), Diagnostic>) {
        Ok(())
    }

    fn visit_statement(&mut self, statement: &mut Statement) -> (outcome: Result<(), Diagnostic>) {
        match statement {
            Statement::Assign { variable, expression } => {
                match self.visit_expression(expression) {
                    Err(diagnostic) => {
                        return Err(diagnostic);
                    },
                    Ok(()) => {},
                }
                match as_constant(expression) {
                    Some(n) => {
                        self.constants.insert(variable.clone(), n);
                    },
                    None => {},
                }
                Ok(())
            },
        }
    }

    fn visit_expression(&mut self, expression: &mut Expression) -> (outcome: Result<
        (),
        Diagnostic,
    >)
        decreases *old(expression),
    {
        match expression {
            Expression::Binary { left, operator, right } => {
                match self.visit_value(left) {
                    Err(diagnostic) => {
                        return Err(diagnostic);
                    },
                    Ok(()) => {},
                }
                match self.visit_expression(&mut **right) {
                    Err(diagnostic) => {
                        return Err(diagnostic);
                    },
                    Ok(()) => {},
                }
                match (&*left, as_constant(&**right)) {
                    (Value::Integer(l), Some(r)) => {
                        match evaluate(*operator, *l, r) {
                            Err(diagnostic) => {
                                return Err(diagnostic);
                            },
                            Ok(n) => {
                                *expression = Expression::Value(Box::new(Value::Integer(n)));
                                proof {
                                    reveal_with_fuel(expression_view, 2);
                                }
                            },
                        }
                    },
                    _ => {},
                }
                Ok(())
            },
            Expression::Value(value) => self.visit_value(&mut **value),
        }
    }

    fn visit_value(&mut self, value: &mut Value) -> (outcome: Result<(), Diagnostic>)
        decreases *old(value),
    {
        match value {
            Value::Identifier(name) => {
                match self.constants.get(name.as_str()) {
                    Some(known) => {
                        let n = *known;
                        *value = Value::Integer(n);
                    },
                    None => {},
                }
                Ok(())
            },
            Value::Expression(inner) => {
                match self.visit_expression(&mut **inner) {
                    Err(diagnostic) => {
                        return Err(diagnostic);
                    },
                    Ok(()) => {},
                }
                match as_constant(&**inner) {
                    Some(n) => {
                        *value = Value::Integer(n);
                    },
                    None => {},
                }
                Ok(())
            },
            Value::Integer(_) => Ok(()),
        }
    }

    fn visit_operator(&mut self, operator: &mut Operator) -> (outcome: Result<(), Diagnostic>) {
        Ok(())
    }
}

} // verus!
