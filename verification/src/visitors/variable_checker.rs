//! The scope check: every name is defined once, and before it is used.
//!
//! A program that passes is in single-assignment form, which constant
//! propagation relies on. The check reads the tree and leaves it as it is; it
//! stops at the first violation.

use vstd::prelude::*;
use vstd::hash_set::StringHashSet;
use crate::ast::{
    Expression, ExpressionView, Input, InputView, Operator, Program, ProgramView, Statement,
    StatementView, Value, ValueView,
};
use crate::messages::{Diagnostic, DiagnosticView};
use crate::visitors::visitor::{reports, Visitor};

verus! {

/// The names defined so far.
pub type Defined = Set<Seq<char>>;

/// What a check comes to: the names defined when it ends, and the violation
/// that stopped it, if one did.
pub ghost struct Checked {
    pub defined: Defined,
    pub failure: Option<DiagnosticView>,
}

/// The first name in a value that is not defined, reading from left to right,
/// as a diagnostic.
pub open spec fn check_value(value: ValueView, defined: Defined) -> Option<DiagnosticView>
    decreases value,
{
    match value {
        ValueView::Integer(_) => None,
        ValueView::Identifier(name) => if defined.contains(name) {
            None
        } else {
            Some(DiagnosticView::UndefinedVariable(name))
        },
        ValueView::Expression(inner) => check_expression(*inner, defined),
    }
}

/// The first name in an expression that is not defined, reading from left to
/// right, as a diagnostic.
pub open spec fn check_expression(expression: ExpressionView, defined: Defined) -> Option<
    DiagnosticView,
>
    decreases expression,
{
    match expression {
        ExpressionView::Value(value) => check_value(*value, defined),
        ExpressionView::Binary { left, right, .. } => match check_value(left, defined) {
            Some(diagnostic) => Some(diagnostic),
            None => check_expression(*right, defined),
        },
    }
}

/// The check of an input: its name must be new, and is defined from then on.
pub open spec fn check_input(input: InputView, defined: Defined) -> Checked {
    if defined.contains(input.name) {
        Checked { defined, failure: Some(DiagnosticView::RedefinedInput(input.name)) }
    } else {
        Checked { defined: defined.insert(input.name), failure: None }
    }
}

/// The check of a statement: the assigned name must be new, and is defined
/// from then on, the statement's own right-hand side included.
pub open spec fn check_statement(statement: StatementView, defined: Defined) -> Checked {
    if defined.contains(statement.variable()) {
        Checked { defined, failure: Some(DiagnosticView::RedefinedVariable(statement.variable())) }
    } else {
        Checked {
            defined: defined.insert(statement.variable()),
            failure: check_expression(
                statement.expression(),
                defined.insert(statement.variable()),
            ),
        }
    }
}

/// The check of the first `count` inputs in order, starting with no name
/// defined. The first violation stops it.
pub open spec fn check_inputs(inputs: Seq<InputView>, count: nat) -> Checked
    decreases count,
{
    if count == 0 {
        Checked { defined: Set::empty(), failure: None }
    } else {
        let before = check_inputs(inputs, (count - 1) as nat);
        if before.failure is Some {
            before
        } else {
            check_input(inputs[count - 1], before.defined)
        }
    }
}

/// The check of all the inputs and then of the first `count` statements in
/// order. The first violation stops it.
pub open spec fn check_statements(program: ProgramView, count: nat) -> Checked
    decreases count,
{
    if count == 0 {
        check_inputs(program.inputs, program.inputs.len())
    } else {
        let before = check_statements(program, (count - 1) as nat);
        if before.failure is Some {
            before
        } else {
            check_statement(program.statements[count - 1], before.defined)
        }
    }
}

/// The scope check of a program: the names that it defines, and the first
/// violation, if there is one.
pub open spec fn check_program(program: ProgramView) -> Checked {
    check_statements(program, program.statements.len())
}

/// Once the check of the inputs has failed, there is no more checking.
pub proof fn lemma_check_inputs_failure(inputs: Seq<InputView>, count: nat, more: nat)
    requires
        count <= more,
        check_inputs(inputs, count).failure is Some,
    ensures
        check_inputs(inputs, more) == check_inputs(inputs, count),
    decreases more,
{
    if count < more {
        lemma_check_inputs_failure(inputs, count, (more - 1) as nat);
    }
}

/// Once the check of the statements has failed, there is no more checking.
pub proof fn lemma_check_statements_failure(program: ProgramView, count: nat, more: nat)
    requires
        count <= more,
        check_statements(program, count).failure is Some,
    ensures
        check_statements(program, more) == check_statements(program, count),
    decreases more,
{
    if count < more {
        lemma_check_statements_failure(program, count, (more - 1) as nat);
    }
}

/// Whether a value mentions a name.
pub open spec fn value_uses(value: ValueView, name: Seq<char>) -> bool
    decreases value,
{
    match value {
        ValueView::Integer(_) => false,
        ValueView::Identifier(used) => used == name,
        ValueView::Expression(inner) => expression_uses(*inner, name),
    }
}

/// Whether an expression mentions a name.
pub open spec fn expression_uses(expression: ExpressionView, name: Seq<char>) -> bool
    decreases expression,
{
    match expression {
        ExpressionView::Value(value) => value_uses(*value, name),
        ExpressionView::Binary { left, right, .. } => value_uses(left, name) || expression_uses(
            *right,
            name,
        ),
    }
}

/// Whether one of the first `count` inputs has this name.
pub open spec fn input_defines(program: ProgramView, count: int, name: Seq<char>) -> bool {
    exists|i: int| 0 <= i < count && (#[trigger] program.inputs[i]).name == name
}

/// The names of the first `count` inputs.
pub open spec fn input_names(program: ProgramView, count: int) -> Defined {
    Set::new(|name: Seq<char>| input_defines(program, count, name))
}

/// Whether one of the first `count` statements assigns this name.
pub open spec fn statement_defines(program: ProgramView, count: int, name: Seq<char>) -> bool {
    exists|j: int| 0 <= j < count && (#[trigger] program.statements[j]).variable() == name
}

/// The names defined before the statement at `index`: those of the inputs and
/// those that earlier statements assign.
pub open spec fn defined_before(program: ProgramView, index: int) -> Defined {
    Set::new(
        |name: Seq<char>|
            input_defines(program, program.inputs.len() as int, name) || statement_defines(
                program,
                index,
                name,
            ),
    )
}

/// No two of the first `count` inputs share a name.
pub open spec fn distinct_inputs(program: ProgramView, count: int) -> bool {
    forall|i: int, j: int|
        0 <= i < j < count ==> (#[trigger] program.inputs[i]).name != (
        #[trigger] program.inputs[j]).name
}

/// The statement at `index` assigns a name that nothing before it defines.
pub open spec fn fresh_target(program: ProgramView, index: int) -> bool {
    !defined_before(program, index).contains(program.statements[index].variable())
}

/// Every name that the statement at `index` uses is defined by an input, by an
/// earlier statement or by the statement itself.
pub open spec fn uses_defined(program: ProgramView, index: int) -> bool {
    forall|name: Seq<char>| #[trigger]
        expression_uses(program.statements[index].expression(), name) ==> defined_before(
            program,
            index + 1,
        ).contains(name)
}

/// The statement at `index` obeys single assignment and definition before
/// use.
pub open spec fn statement_in_scope(program: ProgramView, index: int) -> bool {
    fresh_target(program, index) && uses_defined(program, index)
}

/// The first `count` statements and all the inputs obey single assignment and
/// definition before use.
pub open spec fn in_scope_until(program: ProgramView, count: int) -> bool {
    &&& distinct_inputs(program, program.inputs.len() as int)
    &&& forall|index: int| 0 <= index < count ==> statement_in_scope(program, index)
}

/// Single assignment and definition before use: no name is declared or
/// assigned twice, and every name used is defined at the point of use.
pub open spec fn well_scoped(program: ProgramView) -> bool {
    in_scope_until(program, program.statements.len() as int)
}

/// A value passes exactly if the names it mentions are all defined; a failure
/// names one that it mentions and that is not.
pub proof fn lemma_check_value(value: ValueView, defined: Defined)
    ensures
        check_value(value, defined) is None <==> forall|name: Seq<char>| #[trigger]
            value_uses(value, name) ==> defined.contains(name),
        check_value(value, defined) matches Some(diagnostic) ==> diagnostic
            matches DiagnosticView::UndefinedVariable(name) && value_uses(value, name)
            && !defined.contains(name),
    decreases value,
{
    match value {
        ValueView::Integer(_) => {},
        ValueView::Identifier(used) => {
            assert(value_uses(value, used));
        },
        ValueView::Expression(inner) => {
            lemma_check_expression(*inner, defined);
            assert forall|name: Seq<char>| value_uses(value, name) == expression_uses(
                *inner,
                name,
            ) by {}
        },
    }
}

/// An expression passes exactly if the names it mentions are all defined; a
/// failure names one that it mentions and that is not.
pub proof fn lemma_check_expression(expression: ExpressionView, defined: Defined)
    ensures
        check_expression(expression, defined) is None <==> forall|name: Seq<char>| #[trigger]
            expression_uses(expression, name) ==> defined.contains(name),
        check_expression(expression, defined) matches Some(diagnostic) ==> diagnostic
            matches DiagnosticView::UndefinedVariable(name) && expression_uses(expression, name)
            && !defined.contains(name),
    decreases expression,
{
    match expression {
        ExpressionView::Value(value) => {
            lemma_check_value(*value, defined);
            assert forall|name: Seq<char>| expression_uses(expression, name) == value_uses(
                *value,
                name,
            ) by {}
        },
        ExpressionView::Binary { left, right, .. } => {
            lemma_check_value(left, defined);
            lemma_check_expression(*right, defined);
            assert forall|name: Seq<char>| expression_uses(expression, name) == (value_uses(
                left,
                name,
            ) || expression_uses(*right, name)) by {}
        },
    }
}

/// The first `count` inputs pass exactly if their names differ; the names
/// defined are then theirs, and a failure is a redefined input.
pub proof fn lemma_check_inputs(program: ProgramView, count: nat)
    requires
        count <= program.inputs.len(),
    ensures
        check_inputs(program.inputs, count).failure is None <==> distinct_inputs(
            program,
            count as int,
        ),
        check_inputs(program.inputs, count).failure is None ==> check_inputs(
            program.inputs,
            count,
        ).defined == input_names(program, count as int),
        check_inputs(program.inputs, count).failure matches Some(diagnostic)
            ==> diagnostic is RedefinedInput,
    decreases count,
{
    if count == 0 {
        assert(input_names(program, 0) =~= Set::empty());
    } else {
        let shorter = (count - 1) as nat;
        lemma_check_inputs(program, shorter);
        let last = program.inputs[count - 1];
        let before = check_inputs(program.inputs, shorter);
        if before.failure is None {
            let defined = before.defined;
            if defined.contains(last.name) {
                let i = choose|i: int|
                    0 <= i < shorter && (#[trigger] program.inputs[i]).name == last.name;
                assert(program.inputs[i].name == program.inputs[count - 1].name);
            } else {
                let after = defined.insert(last.name);
                assert forall|name: Seq<char>| after.contains(name) <==> input_defines(
                    program,
                    count as int,
                    name,
                ) by {
                    if name == last.name {
                        assert(program.inputs[count - 1].name == name);
                    }
                    if input_defines(program, shorter as int, name) {
                        let i = choose|i: int|
                            0 <= i < shorter && (#[trigger] program.inputs[i]).name == name;
                        assert(program.inputs[i].name == name);
                    }
                    if input_defines(program, count as int, name) {
                        let i = choose|i: int|
                            0 <= i < count && (#[trigger] program.inputs[i]).name == name;
                        if i < shorter {
                            assert(input_defines(program, shorter as int, name));
                        }
                    }
                }
                assert(after =~= input_names(program, count as int));
                assert forall|i: int, j: int| 0 <= i < j < count implies (
                #[trigger] program.inputs[i]).name != (#[trigger] program.inputs[j]).name by {
                    if j == count - 1 {
                        assert(input_defines(program, shorter as int, program.inputs[i].name));
                    }
                }
            }
        }
    }
}

/// The names defined before a statement, with the one it assigns, are those
/// defined before the next.
pub proof fn lemma_defined_before_next(program: ProgramView, index: int)
    requires
        0 <= index < program.statements.len(),
    ensures
        defined_before(program, index + 1) == defined_before(program, index).insert(
            program.statements[index].variable(),
        ),
{
    let variable = program.statements[index].variable();
    let next = defined_before(program, index + 1);
    let extended = defined_before(program, index).insert(variable);
    assert forall|name: Seq<char>| next.contains(name) <==> extended.contains(name) by {
        if statement_defines(program, index + 1, name) {
            let j = choose|j: int|
                0 <= j < index + 1 && (#[trigger] program.statements[j]).variable() == name;
            if j < index {
                assert(statement_defines(program, index, name));
            }
        }
        if statement_defines(program, index, name) {
            let j = choose|j: int|
                0 <= j < index && (#[trigger] program.statements[j]).variable() == name;
            assert(program.statements[j].variable() == name);
        }
        if name == variable {
            assert(program.statements[index].variable() == name);
        }
    }
    assert(next =~= extended);
}

/// The inputs and the first `count` statements pass exactly if they obey
/// single assignment and definition before use; the names defined are then
/// those of the inputs and of these statements.
pub proof fn lemma_check_statements(program: ProgramView, count: nat)
    requires
        count <= program.statements.len(),
    ensures
        check_statements(program, count).failure is None <==> in_scope_until(
            program,
            count as int,
        ),
        check_statements(program, count).failure is None ==> check_statements(
            program,
            count,
        ).defined == defined_before(program, count as int),
    decreases count,
{
    if count == 0 {
        lemma_check_inputs(program, program.inputs.len());
        let checked = check_inputs(program.inputs, program.inputs.len());
        if checked.failure is None {
            assert forall|name: Seq<char>| !statement_defines(program, 0, name) by {}
            assert(checked.defined =~= defined_before(program, 0));
        }
    } else {
        let index = count - 1;
        lemma_check_statements(program, index as nat);
        let before = check_statements(program, index as nat);
        if before.failure is None {
            let statement = program.statements[index];
            lemma_defined_before_next(program, index);
            lemma_check_expression(
                statement.expression(),
                before.defined.insert(statement.variable()),
            );
            assert(check_statements(program, count).failure is None <==> statement_in_scope(
                program,
                index,
            ));
        }
        assert(in_scope_until(program, count as int) <==> in_scope_until(program, index)
            && statement_in_scope(program, index)) by {
            if in_scope_until(program, index) && statement_in_scope(program, index) {
                assert forall|k: int| 0 <= k < count implies statement_in_scope(program, k) by {}
            }
        }
    }
}

/// The scope check passes exactly the programs that obey single assignment and
/// definition before use, and then defines the names of all the inputs and
/// statements.
pub proof fn lemma_check_program(program: ProgramView)
    ensures
        check_program(program).failure is None <==> well_scoped(program),
        check_program(program).failure is None ==> check_program(program).defined
            == defined_before(program, program.statements.len() as int),
{
    lemma_check_statements(program, program.statements.len());
}

/// A program in which two inputs share a name fails the scope check.
pub proof fn lemma_repeated_input_fails(program: ProgramView, first: int, second: int)
    requires
        0 <= first < second < program.inputs.len(),
        program.inputs[first].name == program.inputs[second].name,
    ensures
        check_program(program).failure is Some,
{
    lemma_check_program(program);
}

/// A program in which a statement assigns a name that an input or an earlier
/// statement defines fails the scope check.
pub proof fn lemma_reassigned_name_fails(program: ProgramView, index: int)
    requires
        0 <= index < program.statements.len(),
        !fresh_target(program, index),
    ensures
        check_program(program).failure is Some,
{
    lemma_check_program(program);
    assert(!statement_in_scope(program, index));
}

/// A program in which a statement uses a name that is defined only later, or
/// not at all, fails the scope check.
pub proof fn lemma_early_use_fails(program: ProgramView, index: int, name: Seq<char>)
    requires
        0 <= index < program.statements.len(),
        expression_uses(program.statements[index].expression(), name),
        !defined_before(program, index + 1).contains(name),
    ensures
        check_program(program).failure is Some,
{
    lemma_check_program(program);
    assert(!statement_in_scope(program, index));
}

/// Where the inputs before the one at `index` have different names and that
/// one repeats one of them, the check fails and names it.
pub proof fn lemma_redefined_input(program: ProgramView, index: int)
    requires
        0 <= index < program.inputs.len(),
        distinct_inputs(program, index),
        input_defines(program, index, program.inputs[index].name),
    ensures
        check_program(program).failure == Some(
            DiagnosticView::RedefinedInput(program.inputs[index].name),
        ),
{
    lemma_check_inputs(program, index as nat);
    lemma_check_inputs_failure(program.inputs, (index + 1) as nat, program.inputs.len());
    lemma_check_statements_failure(program, 0, program.statements.len());
}

/// Where all is in order before the statement at `index` and that statement
/// assigns a name that an input or an earlier statement defines, the check
/// fails and names it.
pub proof fn lemma_redefined_variable(program: ProgramView, index: int)
    requires
        0 <= index < program.statements.len(),
        in_scope_until(program, index),
        !fresh_target(program, index),
    ensures
        check_program(program).failure == Some(
            DiagnosticView::RedefinedVariable(program.statements[index].variable()),
        ),
{
    lemma_check_statements(program, index as nat);
    lemma_check_statements_failure(program, (index + 1) as nat, program.statements.len());
}

/// Where all is in order before the statement at `index`, whose target is
/// new, and that statement uses a name that is defined only later or not at
/// all, the check fails with an undefined variable: a name that the statement
/// uses and that is not defined there.
pub proof fn lemma_undefined_variable(program: ProgramView, index: int, name: Seq<char>)
    requires
        0 <= index < program.statements.len(),
        in_scope_until(program, index),
        fresh_target(program, index),
        expression_uses(program.statements[index].expression(), name),
        !defined_before(program, index + 1).contains(name),
    ensures
        check_program(program).failure matches Some(diagnostic) && diagnostic
            matches DiagnosticView::UndefinedVariable(reported) && expression_uses(
            program.statements[index].expression(),
            reported,
        ) && !defined_before(program, index + 1).contains(reported),
{
    let statement = program.statements[index];
    lemma_check_statements(program, index as nat);
    let defined = check_statements(program, index as nat).defined;
    lemma_defined_before_next(program, index);
    lemma_check_expression(statement.expression(), defined.insert(statement.variable()));
    lemma_check_statements_failure(program, (index + 1) as nat, program.statements.len());
}

/// The scope check. It holds the names defined so far.
pub struct VariableChecker {
    defined_variables: StringHashSet,
}

impl View for VariableChecker {
    type V = Defined;

    closed spec fn view(&self) -> Defined {
        self.defined_variables@
    }
}

/// The pass holds the names and the outcome reports the failure of `checked`.
pub open spec fn concludes(
    checked: Checked,
    post: VariableChecker,
    outcome: Result<(), Diagnostic>,
) -> bool {
    post@ == checked.defined && reports(checked.failure, outcome)
}

impl VariableChecker {
    /// A check in which no name is defined yet.
    pub fn new() -> (pass: Self)
        ensures
            pass@ == Set::<Seq<char>>::empty(),
    {
        VariableChecker { defined_variables: StringHashSet::new() }
    }
}

impl Visitor for VariableChecker {
    /// The program is checked starting with no name defined, whatever the pass
    /// held before, and is left as it was.
    open spec fn program_step(
        pre: Self,
        post: Self,
        before: Program,
        after: Program,
        outcome: Result<(), Diagnostic>,
    ) -> bool {
        &&& after.name == before.name
        &&& after.inputs@ == before.inputs@
        &&& after.statements@ == before.statements@
        &&& concludes(check_program(before@), post, outcome)
    }

    /// The input is checked against the names that the pass holds.
    open spec fn input_step(
        pre: Self,
        post: Self,
        before: Input,
        after: Input,
        outcome: Result<(), Diagnostic>,
    ) -> bool {
        after == before && concludes(check_input(before@, pre@), post, outcome)
    }

    /// The statement is checked against the names that the pass holds.
    open spec fn statement_step(
        pre: Self,
        post: Self,
        before: Statement,
        after: Statement,
        outcome: Result<(), Diagnostic>,
    ) -> bool {
        after == before && concludes(check_statement(before@, pre@), post, outcome)
    }

    /// The expression is checked against the names that the pass holds.
    open spec fn expression_step(
        pre: Self,
        post: Self,
        before: Expression,
        after: Expression,
        outcome: Result<(), Diagnostic>,
    ) -> bool {
        &&& after == before
        &&& post@ == pre@
        &&& reports(check_expression(before@, pre@), outcome)
    }

    /// The value is checked against the names that the pass holds.
    open spec fn value_step(
        pre: Self,
        post: Self,
        before: Value,
        after: Value,
        outcome: Result<(), Diagnostic>,
    ) -> bool {
        &&& after == before
        &&& post@ == pre@
        &&& reports(check_value(before@, pre@), outcome)
    }

    fn visit_program(&mut self, program: &mut Program) -> (outcome: Result<(), Diagnostic>) {
        self.defined_variables.clear();

        let input_count = program.inputs.len();
        let mut index: usize = 0;
        while index < input_count
            invariant
                index <= input_count,
                input_count == program.inputs.len(),
                program.name == old(program).name,
                program.inputs@ == old(program).inputs@,
                program.statements@ == old(program).statements@,
                check_inputs(old(program)@.inputs, index as nat) == (Checked {
                    defined: self@,
                    failure: None,
                }),
            decreases input_count - index,
        {
            let outcome = self.visit_input(&mut program.inputs[index]);
            assert(program.inputs@ =~= old(program).inputs@);
            match outcome {
                Err(diagnostic) => {
                    proof {
                        lemma_check_inputs_failure(
                            old(program)@.inputs,
                            (index + 1) as nat,
                            input_count as nat,
                        );
                        lemma_check_statements_failure(
                            old(program)@,
                            0,
                            old(program)@.statements.len(),
                        );
                    }
                    return Err(diagnostic);
                },
                Ok(()) => {},
            }
            index += 1;
        }

        let statement_count = program.statements.len();
        let mut index: usize = 0;
        while index < statement_count
            invariant
                index <= statement_count,
                statement_count == program.statements.len(),
                program.name == old(program).name,
                program.inputs@ == old(program).inputs@,
                program.statements@ == old(program).statements@,
                check_statements(old(program)@, index as nat) == (Checked {
                    defined: self@,
                    failure: None,
                }),
            decreases statement_count - index,
        {
            let outcome = self.visit_statement(&mut program.statements[index]);
            assert(program.statements@ =~= old(program).statements@);
            match outcome {
                Err(diagnostic) => {
                    proof {
                        lemma_check_statements_failure(
                            old(program)@,
                            (index + 1) as nat,
                            statement_count as nat,
                        );
                    }
                    return Err(diagnostic);
                },
                Ok(()) => {},
            }
            index += 1;
        }
        Ok(())
    }

    fn visit_input(&mut self, input: &mut Input) -> (outcome: Result<(), Diagnostic>) {
        if !self.defined_variables.insert(input.name.clone()) {
            assert(self@ =~= old(self)@);
            return Err(Diagnostic::RedefinedInput(input.name.clone()));
        }
        Ok(())
    }

    fn visit_statement(&mut self, statement: &mut Statement) -> (outcome: Result<(), Diagnostic>) {
        match statement {
            Statement::Assign { variable, expression } => {
                if !self.defined_variables.insert(variable.clone()) {
                    assert(self@ =~= old(self)@);
                    return Err(Diagnostic::RedefinedVariable(variable.clone()));
                }
                self.visit_expression(expression)
            },
        }
    }

    fn visit_expression(&mut self, expression: &mut Expression) -> (outcome: Result<
        (),
        Diagnostic,
    >)
        decreases *old(expression),
    {
        match expression {
            Expression::Binary { left, right, .. } => {
                match self.visit_value(left) {
                    Err(diagnostic) => {
                        return Err(diagnostic);
                    },
                    Ok(()) => {},
                }
                self.visit_expression(&mut **right)
            },
            Expression::Value(value) => self.visit_value(&mut **value),
        }
    }

    fn visit_value(&mut self, value: &mut Value) -> (outcome: Result<(), Diagnostic>)
        decreases *old(value),
    {
        match value {
            Value::Identifier(name) => {
                if !self.defined_variables.contains(name.as_str()) {
                    return Err(Diagnostic::UndefinedVariable(name.clone()));
                }
                Ok(())
            },
            Value::Expression(inner) => self.visit_expression(&mut **inner),
            Value::Integer(_) => Ok(()),
        }
    }

    fn visit_operator(&mut self, operator: &mut Operator) -> (outcome: Result<(), Diagnostic>) {
        Ok(())
    }
}

} // verus!
