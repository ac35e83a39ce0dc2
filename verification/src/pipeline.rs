//! The pipeline: parse, check scopes, propagate constants if asked, render.
//!
//! The scope check always runs before constant propagation, which relies on
//! it; the first failure of any stage is the outcome.

use vstd::prelude::*;
use crate::ast::{program_text, Program, ProgramView};
use crate::messages::{Diagnostic, DiagnosticView};
use crate::parser::{parse, program_in};
use crate::visitors::constprop::{fold_program, ConstantPropagation};
use crate::visitors::variable_checker::{check_program, VariableChecker};
use crate::visitors::visitor::{carries_out, complete, NodeAccept, Rewrite};

verus! {

/// What the analysis makes of a program: the scope check comes first and
/// changes nothing, and constant propagation follows only where the check
/// passes and `constprop` asks for it.
pub open spec fn analysis(program: ProgramView, constprop: bool) -> Rewrite<ProgramView> {
    match check_program(program).failure {
        Some(diagnostic) => Rewrite { node: program, failure: Some(diagnostic) },
        None => if constprop {
            fold_program(program)
        } else {
            complete(program)
        },
    }
}

/// What the pipeline makes of a source text: the analysed program in source
/// syntax, or the first failure.
pub open spec fn compilation(source: Seq<char>, constprop: bool) -> Result<
    Seq<char>,
    DiagnosticView,
> {
    match program_in(source) {
        None => Err(DiagnosticView::ParseFailure),
        Some(program) => match analysis(program, constprop).failure {
            Some(diagnostic) => Err(diagnostic),
            None => Ok(program_text(analysis(program, constprop).node)),
        },
    }
}

/// A program that fails the scope check fails the analysis in the same way
/// and stays as it is, whether constant propagation is asked for or not.
pub proof fn lemma_scope_check_first(program: ProgramView, constprop: bool)
    requires
        check_program(program).failure is Some,
    ensures
        analysis(program, constprop) == (Rewrite {
            node: program,
            failure: check_program(program).failure,
        }),
{
}

/// Checks the scopes of `program` and then, if `constprop` is set, propagates
/// its constants in place.
pub fn analyze(program: &mut Program, constprop: bool) -> (outcome: Result<(), Diagnostic>)
    ensures
        carries_out(analysis(old(program)@, constprop), *final(program), outcome),
{
    let mut variable_checker = VariableChecker::new();
    let checked = program.accept(&mut variable_checker);
    assert(program@ == old(program)@);
    match checked {
        Err(diagnostic) => {
            return Err(diagnostic);
        },
        Ok(()) => {},
    }
    if constprop {
        let mut constant_propagation = ConstantPropagation::new();
        program.accept(&mut constant_propagation)
    } else {
        Ok(())
    }
}

/// Runs the whole pipeline on a source text and gives the resulting program
/// in source syntax.
pub fn run(source: &str, constprop: bool) -> (outcome: Result<String, Diagnostic>)
    ensures
        match compilation(source@, constprop) {
            Ok(text) => outcome is Ok && outcome->Ok_0@ == text,
            Err(diagnostic) => outcome is Err && outcome->Err_0@ == diagnostic,
        },
{
    let mut program = match parse(source) {
        Err(diagnostic) => {
            return Err(diagnostic);
        },
        Ok(program) => program,
    };
    match analyze(&mut program, constprop) {
        Err(diagnostic) => Err(diagnostic),
        Ok(()) => Ok(program.render()),
    }
}

} // verus!
