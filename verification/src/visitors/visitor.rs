//! The rewrite framework: a pass offers one operation per kind of node, and
//! every node hands itself to the operation of its kind.
//!
//! The framework dispatches and does not recurse: a pass that rewrites the
//! children of a node visits them itself, in the order it chooses. Within a
//! pass an operation reaches a child through the operation of the same pass
//! for the child's kind, which is what [`NodeAccept::accept`] would call.

use vstd::prelude::*;
use crate::ast::{Expression, Input, Operator, Program, Statement, Value};
use crate::messages::{Diagnostic, DiagnosticView};

verus! {

/// What an operation that ignores its node does: the pass and the node stay as
/// they are, and the operation succeeds.
pub open spec fn untouched<P, N>(
    pre: P,
    post: P,
    before: N,
    after: N,
    outcome: Result<(), Diagnostic>,
) -> bool {
    post == pre && after == before && outcome is Ok
}

/// What an operation makes of a node: the node as the operation leaves it, and
/// the failure that stopped the operation, if one did.
pub ghost struct Rewrite<N> {
    pub node: N,
    pub failure: Option<DiagnosticView>,
}

/// The rewrite that went through and left `node`.
pub open spec fn complete<N>(node: N) -> Rewrite<N> {
    Rewrite { node, failure: None }
}

/// `outcome` reports `failure`: it is a success where there is none, and
/// else holds its diagnostic.
pub open spec fn reports(failure: Option<DiagnosticView>, outcome: Result<(), Diagnostic>) -> bool {
    match failure {
        None => outcome is Ok,
        Some(diagnostic) => outcome is Err && outcome->Err_0@ == diagnostic,
    }
}

/// The node `after` and the outcome are those of `rewrite`.
pub open spec fn carries_out<N: View>(
    rewrite: Rewrite<N::V>,
    after: N,
    outcome: Result<(), Diagnostic>,
) -> bool {
    after@ == rewrite.node && reports(rewrite.failure, outcome)
}

/// A pass over the tree. Each operation may rewrite the node it is given in
/// place, may change the state of the pass, and may fail; a failure ends the
/// pass.
///
/// For each operation a pass states a relation between the pass and the node
/// before the call, both after it, and the outcome. A relation that a pass
/// does not state is [`untouched`]: the operation then has to leave the pass
/// and the node as they are.
pub trait Visitor: Sized {
    /// What [`Visitor::visit_program`] does.
    open spec fn program_step(
        pre: Self,
        post: Self,
        before: Program,
        after: Program,
        outcome: Result<(), Diagnostic>,
    ) -> bool {
        untouched(pre, post, before, after, outcome)
    }

    /// What [`Visitor::visit_input`] does.
    open spec fn input_step(
        pre: Self,
        post: Self,
        before: Input,
        after: Input,
        outcome: Result<(), Diagnostic>,
    ) -> bool {
        untouched(pre, post, before, after, outcome)
    }

    /// What [`Visitor::visit_statement`] does.
    open spec fn statement_step(
        pre: Self,
        post: Self,
        before: Statement,
        after: Statement,
        outcome: Result<(), Diagnostic>,
    ) -> bool {
        untouched(pre, post, before, after, outcome)
    }

    /// What [`Visitor::visit_expression`] does.
    open spec fn expression_step(
        pre: Self,
        post: Self,
        before: Expression,
        after: Expression,
        outcome: Result<(), Diagnostic>,
    ) -> bool {
        untouched(pre, post, before, after, outcome)
    }

    /// What [`Visitor::visit_value`] does.
    open spec fn value_step(
        pre: Self,
        post: Self,
        before: Value,
        after: Value,
        outcome: Result<(), Diagnostic>,
    ) -> bool {
        untouched(pre, post, before, after, outcome)
    }

    /// What [`Visitor::visit_operator`] does.
    open spec fn operator_step(
        pre: Self,
        post: Self,
        before: Operator,
        after: Operator,
        outcome: Result<(), Diagnostic>,
    ) -> bool {
        untouched(pre, post, before, after, outcome)
    }

    /// The operation of the pass on a program.
    fn visit_program(&mut self, program: &mut Program) -> (outcome: Result<(), Diagnostic>)
        ensures
            Self::program_step(*old(self), *final(self), *old(program), *final(program), outcome),
    ;

    /// The operation of the pass on an input.
    fn visit_input(&mut self, input: &mut Input) -> (outcome: Result<(), Diagnostic>)
        ensures
            Self::input_step(*old(self), *final(self), *old(input), *final(input), outcome),
    ;

    /// The operation of the pass on a statement.
    fn visit_statement(&mut self, statement: &mut Statement) -> (outcome: Result<(), Diagnostic>)
        ensures
            Self::statement_step(
                *old(self),
                *final(self),
                *old(statement),
                *final(statement),
                outcome,
            ),
    ;

    /// The operation of the pass on an expression.
    fn visit_expression(&mut self, expression: &mut Expression) -> (outcome: Result<
        (),
        Diagnostic,
    >)
        ensures
            Self::expression_step(
                *old(self),
                *final(self),
                *old(expression),
                *final(expression),
                outcome,
            ),
    ;

    /// The operation of the pass on a value.
    fn visit_value(&mut self, value: &mut Value) -> (outcome: Result<(), Diagnostic>)
        ensures
            Self::value_step(*old(self), *final(self), *old(value), *final(value), outcome),
    ;

    /// The operation of the pass on an operator.
    fn visit_operator(&mut self, operator: &mut Operator) -> (outcome: Result<(), Diagnostic>)
        ensures
            Self::operator_step(
                *old(self),
                *final(self),
                *old(operator),
                *final(operator),
                outcome,
            ),
    ;
}

/// A node that a pass of type `V` can visit.
pub trait NodeAccept<V: Visitor>: Sized {
    /// What [`NodeAccept::accept`] does: what the operation of the pass for
    /// this kind of node does.
    spec fn accepted(
        pre: V,
        post: V,
        before: Self,
        after: Self,
        outcome: Result<(), Diagnostic>,
    ) -> bool;

    /// Hands the node to the operation of `visitor` for this kind of node.
    fn accept(&mut self, visitor: &mut V) -> (outcome: Result<(), Diagnostic>)
        ensures
            Self::accepted(*old(visitor), *final(visitor), *old(self), *final(self), outcome),
    ;
}

impl<V: Visitor> NodeAccept<V> for Program {
    open spec fn accepted(
        pre: V,
        post: V,
        before: Self,
        after: Self,
        outcome: Result<(), Diagnostic>,
    ) -> bool {
        V::program_step(pre, post, before, after, outcome)
    }

    fn accept(&mut self, visitor: &mut V) -> (outcome: Result<(), Diagnostic>) {
        visitor.visit_program(self)
    }
}

impl<V: Visitor> NodeAccept<V> for Input {
    open spec fn accepted(
        pre: V,
        post: V,
        before: Self,
        after: Self,
        outcome: Result<(), Diagnostic>,
    ) -> bool {
        V::input_step(pre, post, before, after, outcome)
    }

    fn accept(&mut self, visitor: &mut V) -> (outcome: Result<(), Diagnostic>) {
        visitor.visit_input(self)
    }
}

impl<V: Visitor> NodeAccept<V> for Statement {
    open spec fn accepted(
        pre: V,
        post: V,
        before: Self,
        after: Self,
        outcome: Result<(), Diagnostic>,
    ) -> bool {
        V::statement_step(pre, post, before, after, outcome)
    }

    fn accept(&mut self, visitor: &mut V) -> (outcome: Result<(), Diagnostic>) {
        visitor.visit_statement(self)
    }
}

impl<V: Visitor> NodeAccept<V> for Expression {
    open spec fn accepted(
        pre: V,
        post: V,
        before: Self,
        after: Self,
        outcome: Result<(), Diagnostic>,
    ) -> bool {
        V::expression_step(pre, post, before, after, outcome)
    }

    fn accept(&mut self, visitor: &mut V) -> (outcome: Result<(), Diagnostic>) {
        visitor.visit_expression(self)
    }
}

impl<V: Visitor> NodeAccept<V> for Value {
    open spec fn accepted(
        pre: V,
        post: V,
        before: Self,
        after: Self,
        outcome: Result<(), Diagnostic>,
    ) -> bool {
        V::value_step(pre, post, before, after, outcome)
    }

    fn accept(&mut self, visitor: &mut V) -> (outcome: Result<(), Diagnostic>) {
        visitor.visit_value(self)
    }
}

impl<V: Visitor> NodeAccept<V> for Operator {
    open spec fn accepted(
        pre: V,
        post: V,
        before: Self,
        after: Self,
        outcome: Result<(), Diagnostic>,
    ) -> bool {
        V::operator_step(pre, post, before, after, outcome)
    }

    fn accept(&mut self, visitor: &mut V) -> (outcome: Result<(), Diagnostic>) {
        visitor.visit_operator(self)
    }
}

} // verus!
