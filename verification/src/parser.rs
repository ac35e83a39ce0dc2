//! The parser: from source text to the syntax tree.
//!
//! A program is one function header and a body of `let` statements:
//!
//! ```text
//! program        = "fn" name "(" [ input { "," input } ] ")" "{" { statement } "}"
//! input          = name ":" "u8"
//! statement      = "let" name "=" expression ";"
//! expression     = multiplication { ("+" | "-") multiplication }
//! multiplication = value { ("*" | "/") value }
//! value          = integer | name | "(" expression ")"
//! ```
//!
//! The text is first split into tokens (see [`crate::lexer`]): `fn`, `let`
//! and `u8` are words like any name, and a name may be spelled like them.
//!
//! Operators of one level associate to the left. A chain is built by wrapping
//! what was read so far as the left operand of the next node, so `a + b + c`
//! becomes `((a) + b) + c` in the tree: every left operand of a binary node is
//! a [`Value::Expression`].

use vstd::prelude::*;
use vstd::string::*;
use crate::ast::{
    expression_view, input_views, statement_views, Expression, ExpressionView, Input, InputView,
    Operator, Program, ProgramView, Statement, StatementView, Type, Value, ValueView,
};
use crate::lexer::{token_views, tokenize, tokens_of, Token, TokenView};
use crate::messages::Diagnostic;

verus! {

/// The token at `pos`, if there is one.
pub open spec fn token_at(tokens: Seq<TokenView>, pos: int) -> Option<TokenView> {
    if 0 <= pos < tokens.len() {
        Some(tokens[pos])
    } else {
        None
    }
}

/// Whether the token at `pos` is the symbol `c`.
pub open spec fn is_symbol_at(tokens: Seq<TokenView>, pos: int, c: char) -> bool {
    token_at(tokens, pos) == Some(TokenView::Symbol(c))
}

/// Whether the token at `pos` is the word `word`.
pub open spec fn is_word_at(tokens: Seq<TokenView>, pos: int, word: Seq<char>) -> bool {
    token_at(tokens, pos) == Some(TokenView::Identifier(word))
}

/// The operator that a symbol denotes.
pub open spec fn operator_of(c: char) -> Option<Operator> {
    if c == '+' {
        Some(Operator::Add)
    } else if c == '-' {
        Some(Operator::Subtract)
    } else if c == '*' {
        Some(Operator::Multiply)
    } else if c == '/' {
        Some(Operator::Divide)
    } else {
        None
    }
}

/// The operator of the given level at `pos`: `+` and `-` are additive, `*` and
/// `/` are not.
pub open spec fn operator_at(tokens: Seq<TokenView>, pos: int, additive: bool) -> Option<
    Operator,
> {
    match token_at(tokens, pos) {
        Some(TokenView::Symbol(c)) => if additive == (c == '+' || c == '-') {
            operator_of(c)
        } else {
            None
        },
        _ => None,
    }
}

/// The node that continues a chain: what was read so far becomes, wrapped,
/// the left operand.
pub open spec fn chain(left: ExpressionView, operator: Operator, right: ExpressionView) -> ExpressionView {
    ExpressionView::Binary {
        left: ValueView::Expression(Box::new(left)),
        operator,
        right: Box::new(right),
    }
}

/// The value that starts at `pos`, and where it ends.
///
/// In the definitions of chains a test that the position moved forward and
/// stayed within the tokens makes the recursion well-founded. It never fails
/// (see [`lemma_value_advances`] and the lemmas that follow it).
pub open spec fn value_at(tokens: Seq<TokenView>, pos: int) -> Option<(ValueView, int)>
    decreases tokens.len() - pos, 0nat,
{
    match token_at(tokens, pos) {
        Some(TokenView::Integer(n)) => Some((ValueView::Integer(n), pos + 1)),
        Some(TokenView::Identifier(name)) => Some((ValueView::Identifier(name), pos + 1)),
        Some(TokenView::Symbol(c)) => if c == '(' {
            match expression_at(tokens, pos + 1) {
                Some((inner, next)) => if is_symbol_at(tokens, next, ')') {
                    Some((ValueView::Expression(Box::new(inner)), next + 1))
                } else {
                    None
                },
                None => None,
            }
        } else {
            None
        },
        None => None,
    }
}

/// The rest of a chain of `*` and `/` whose part before `pos` is `left`.
pub open spec fn multiplication_rest(tokens: Seq<TokenView>, pos: int, left: ExpressionView) -> Option<
    (ExpressionView, int),
>
    decreases tokens.len() - pos, 1nat,
{
    match operator_at(tokens, pos, false) {
        Some(operator) => match value_at(tokens, pos + 1) {
            Some((right, next)) => if pos < next <= tokens.len() {
                multiplication_rest(
                    tokens,
                    next,
                    chain(left, operator, ExpressionView::Value(Box::new(right))),
                )
            } else {
                None
            },
            None => None,
        },
        None => Some((left, pos)),
    }
}

/// The chain of `*` and `/` that starts at `pos`, and where it ends.
pub open spec fn multiplication_at(tokens: Seq<TokenView>, pos: int) -> Option<
    (ExpressionView, int),
>
    decreases tokens.len() - pos, 2nat,
{
    match value_at(tokens, pos) {
        Some((first, next)) => if pos < next <= tokens.len() {
            multiplication_rest(tokens, next, ExpressionView::Value(Box::new(first)))
        } else {
            None
        },
        None => None,
    }
}

/// The rest of a chain of `+` and `-` whose part before `pos` is `left`.
pub open spec fn addition_rest(tokens: Seq<TokenView>, pos: int, left: ExpressionView) -> Option<
    (ExpressionView, int),
>
    decreases tokens.len() - pos, 3nat,
{
    match operator_at(tokens, pos, true) {
        Some(operator) => match multiplication_at(tokens, pos + 1) {
            Some((right, next)) => if pos < next <= tokens.len() {
                addition_rest(tokens, next, chain(left, operator, right))
            } else {
                None
            },
            None => None,
        },
        None => Some((left, pos)),
    }
}

/// The chain of `+` and `-` that starts at `pos`, and where it ends.
pub open spec fn addition_at(tokens: Seq<TokenView>, pos: int) -> Option<(ExpressionView, int)>
    decreases tokens.len() - pos, 4nat,
{
    match multiplication_at(tokens, pos) {
        Some((first, next)) => if pos < next <= tokens.len() {
            addition_rest(tokens, next, first)
        } else {
            None
        },
        None => None,
    }
}

/// The expression that starts at `pos`, and where it ends.
pub open spec fn expression_at(tokens: Seq<TokenView>, pos: int) -> Option<(ExpressionView, int)>
    decreases tokens.len() - pos, 5nat,
{
    addition_at(tokens, pos)
}

/// The input that starts at `pos`, and where it ends.
pub open spec fn input_at(tokens: Seq<TokenView>, pos: int) -> Option<(InputView, int)> {
    match token_at(tokens, pos) {
        Some(TokenView::Identifier(name)) => if is_symbol_at(tokens, pos + 1, ':') && is_word_at(
            tokens,
            pos + 2,
            "u8"@,
        ) {
            Some((InputView { name, input_type: Type::U8 }, pos + 3))
        } else {
            None
        },
        _ => None,
    }
}

/// The rest of a list of inputs whose part before `pos` is `inputs`.
pub open spec fn inputs_rest(tokens: Seq<TokenView>, pos: int, inputs: Seq<InputView>) -> Option<
    (Seq<InputView>, int),
>
    decreases tokens.len() - pos,
{
    if is_symbol_at(tokens, pos, ',') {
        match input_at(tokens, pos + 1) {
            Some((input, next)) => inputs_rest(tokens, next, inputs.push(input)),
            None => None,
        }
    } else {
        Some((inputs, pos))
    }
}

/// The list of inputs that starts at `pos`, which may be empty, and where it
/// ends.
pub open spec fn inputs_at(tokens: Seq<TokenView>, pos: int) -> Option<(Seq<InputView>, int)> {
    match input_at(tokens, pos) {
        Some((first, next)) => inputs_rest(tokens, next, seq![first]),
        None => Some((Seq::empty(), pos)),
    }
}

/// The statement that starts at `pos`, and where it ends.
pub open spec fn statement_at(tokens: Seq<TokenView>, pos: int) -> Option<(StatementView, int)> {
    match token_at(tokens, pos + 1) {
        Some(TokenView::Identifier(variable)) => if is_word_at(tokens, pos, "let"@) && is_symbol_at(
            tokens,
            pos + 2,
            '=',
        ) {
            match expression_at(tokens, pos + 3) {
                Some((expression, next)) => if is_symbol_at(tokens, next, ';') {
                    Some((StatementView::Assign { variable, expression }, next + 1))
                } else {
                    None
                },
                None => None,
            }
        } else {
            None
        },
        _ => None,
    }
}

/// The rest of a body whose statements before `pos` are `done`: statements
/// follow as long as the next word is `let`.
pub open spec fn statements_rest(tokens: Seq<TokenView>, pos: int, done: Seq<StatementView>) -> Option<
    (Seq<StatementView>, int),
>
    decreases tokens.len() - pos,
{
    if is_word_at(tokens, pos, "let"@) {
        match statement_at(tokens, pos) {
            Some((statement, next)) => if pos < next <= tokens.len() {
                statements_rest(tokens, next, done.push(statement))
            } else {
                None
            },
            None => None,
        }
    } else {
        Some((done, pos))
    }
}

/// The program that the tokens spell, if they spell one and nothing else.
pub open spec fn program_of(tokens: Seq<TokenView>) -> Option<ProgramView> {
    match token_at(tokens, 1) {
        Some(TokenView::Identifier(name)) => if is_word_at(tokens, 0, "fn"@) && is_symbol_at(
            tokens,
            2,
            '(',
        ) {
            match inputs_at(tokens, 3) {
                Some((inputs, next)) => if is_symbol_at(tokens, next, ')') && is_symbol_at(
                    tokens,
                    next + 1,
                    '{',
                ) {
                    match statements_rest(tokens, next + 2, Seq::empty()) {
                        Some((statements, end)) => if is_symbol_at(tokens, end, '}') && end + 1
                            == tokens.len() {
                            Some(ProgramView { name, inputs, statements })
                        } else {
                            None
                        },
                        None => None,
                    }
                } else {
                    None
                },
                None => None,
            }
        } else {
            None
        },
        _ => None,
    }
}

/// The program that a source text spells, if it spells one.
pub open spec fn program_in(text: Seq<char>) -> Option<ProgramView> {
    match tokens_of(text) {
        Some(tokens) => program_of(tokens),
        None => None,
    }
}

/// A value ends behind where it starts, within the tokens.
pub proof fn lemma_value_advances(tokens: Seq<TokenView>, pos: int)
    ensures
        value_at(tokens, pos) matches Some((_, next)) ==> pos < next <= tokens.len(),
    decreases tokens.len() - pos, 0nat,
{
    if token_at(tokens, pos) matches Some(TokenView::Symbol(c)) && c == '(' {
        lemma_expression_advances(tokens, pos + 1);
    }
}

/// The rest of a chain of `*` and `/` ends at or behind where it starts,
/// within the tokens.
pub proof fn lemma_multiplication_rest_advances(
    tokens: Seq<TokenView>,
    pos: int,
    left: ExpressionView,
)
    requires
        pos <= tokens.len(),
    ensures
        multiplication_rest(tokens, pos, left) matches Some((_, next)) ==> pos <= next
            <= tokens.len(),
    decreases tokens.len() - pos, 1nat,
{
    if let Some(operator) = operator_at(tokens, pos, false) {
        lemma_value_advances(tokens, pos + 1);
        if let Some((right, next)) = value_at(tokens, pos + 1) {
            lemma_multiplication_rest_advances(
                tokens,
                next,
                chain(left, operator, ExpressionView::Value(Box::new(right))),
            );
        }
    }
}

/// A chain of `*` and `/` ends behind where it starts, within the tokens.
pub proof fn lemma_multiplication_advances(tokens: Seq<TokenView>, pos: int)
    ensures
        multiplication_at(tokens, pos) matches Some((_, next)) ==> pos < next <= tokens.len(),
    decreases tokens.len() - pos, 2nat,
{
    lemma_value_advances(tokens, pos);
    if let Some((first, next)) = value_at(tokens, pos) {
        lemma_multiplication_rest_advances(tokens, next, ExpressionView::Value(Box::new(first)));
    }
}

/// The rest of a chain of `+` and `-` ends at or behind where it starts,
/// within the tokens.
pub proof fn lemma_addition_rest_advances(tokens: Seq<TokenView>, pos: int, left: ExpressionView)
    requires
        pos <= tokens.len(),
    ensures
        addition_rest(tokens, pos, left) matches Some((_, next)) ==> pos <= next <= tokens.len(),
    decreases tokens.len() - pos, 3nat,
{
    if let Some(operator) = operator_at(tokens, pos, true) {
        lemma_multiplication_advances(tokens, pos + 1);
        if let Some((right, next)) = multiplication_at(tokens, pos + 1) {
            lemma_addition_rest_advances(tokens, next, chain(left, operator, right));
        }
    }
}

/// An expression ends behind where it starts, within the tokens.
pub proof fn lemma_expression_advances(tokens: Seq<TokenView>, pos: int)
    ensures
        expression_at(tokens, pos) matches Some((_, next)) ==> pos < next <= tokens.len(),
    decreases tokens.len() - pos, 5nat,
{
    lemma_multiplication_advances(tokens, pos);
    if let Some((first, next)) = multiplication_at(tokens, pos) {
        lemma_addition_rest_advances(tokens, next, first);
    }
}

/// The shape that the parser gives to a value: every left operand of a binary
/// node below it is a wrapped expression.
pub open spec fn value_leans_left(value: ValueView) -> bool
    decreases value,
{
    match value {
        ValueView::Expression(inner) => expression_leans_left(*inner),
        _ => true,
    }
}

/// The shape that the parser gives to an expression: every left operand of a
/// binary node in it is a wrapped expression.
pub open spec fn expression_leans_left(expression: ExpressionView) -> bool
    decreases expression,
{
    match expression {
        ExpressionView::Value(value) => value_leans_left(*value),
        ExpressionView::Binary { left, right, .. } => left is Expression && value_leans_left(left)
            && expression_leans_left(*right),
    }
}

/// A value that is read leans left.
pub proof fn lemma_value_leans_left(tokens: Seq<TokenView>, pos: int)
    ensures
        value_at(tokens, pos) matches Some((value, _)) ==> value_leans_left(value),
    decreases tokens.len() - pos, 0nat,
{
    if token_at(tokens, pos) matches Some(TokenView::Symbol(c)) && c == '(' {
        lemma_expression_leans_left(tokens, pos + 1);
    }
}

/// A chain of `*` and `/` that continues one that leans left leans left.
pub proof fn lemma_multiplication_rest_leans_left(
    tokens: Seq<TokenView>,
    pos: int,
    left: ExpressionView,
)
    requires
        expression_leans_left(left),
    ensures
        multiplication_rest(tokens, pos, left) matches Some((expression, _))
            ==> expression_leans_left(expression),
    decreases tokens.len() - pos, 1nat,
{
    if let Some(operator) = operator_at(tokens, pos, false) {
        lemma_value_leans_left(tokens, pos + 1);
        if let Some((right, next)) = value_at(tokens, pos + 1) {
            if pos < next <= tokens.len() {
                let longer = chain(left, operator, ExpressionView::Value(Box::new(right)));
                assert(expression_leans_left(longer)) by {
                    reveal_with_fuel(expression_leans_left, 3);
                }
                lemma_multiplication_rest_leans_left(tokens, next, longer);
            }
        }
    }
}

/// A chain of `*` and `/` that is read leans left.
pub proof fn lemma_multiplication_leans_left(tokens: Seq<TokenView>, pos: int)
    ensures
        multiplication_at(tokens, pos) matches Some((expression, _)) ==> expression_leans_left(
            expression,
        ),
    decreases tokens.len() - pos, 2nat,
{
    lemma_value_leans_left(tokens, pos);
    if let Some((first, next)) = value_at(tokens, pos) {
        if pos < next <= tokens.len() {
            lemma_multiplication_rest_leans_left(
                tokens,
                next,
                ExpressionView::Value(Box::new(first)),
            );
        }
    }
}

/// A chain of `+` and `-` that continues one that leans left leans left.
pub proof fn lemma_addition_rest_leans_left(tokens: Seq<TokenView>, pos: int, left: ExpressionView)
    requires
        expression_leans_left(left),
    ensures
        addition_rest(tokens, pos, left) matches Some((expression, _)) ==> expression_leans_left(
            expression,
        ),
    decreases tokens.len() - pos, 3nat,
{
    if let Some(operator) = operator_at(tokens, pos, true) {
        lemma_multiplication_leans_left(tokens, pos + 1);
        if let Some((right, next)) = multiplication_at(tokens, pos + 1) {
            if pos < next <= tokens.len() {
                let longer = chain(left, operator, right);
                assert(expression_leans_left(longer)) by {
                    reveal_with_fuel(expression_leans_left, 3);
                }
                lemma_addition_rest_leans_left(tokens, next, longer);
            }
        }
    }
}

/// An expression that is read leans left.
pub proof fn lemma_expression_leans_left(tokens: Seq<TokenView>, pos: int)
    ensures
        expression_at(tokens, pos) matches Some((expression, _)) ==> expression_leans_left(
            expression,
        ),
    decreases tokens.len() - pos, 5nat,
{
    lemma_multiplication_leans_left(tokens, pos);
    if let Some((first, next)) = multiplication_at(tokens, pos) {
        if pos < next <= tokens.len() {
            lemma_addition_rest_leans_left(tokens, next, first);
        }
    }
}

/// The statements that continue a body whose right-hand sides lean left have
/// right-hand sides that lean left.
pub proof fn lemma_statements_lean_left(
    tokens: Seq<TokenView>,
    pos: int,
    done: Seq<StatementView>,
)
    requires
        forall|i: int| 0 <= i < done.len() ==> expression_leans_left(#[trigger] done[i].expression()),
    ensures
        statements_rest(tokens, pos, done) matches Some((statements, _)) ==> forall|i: int|
            0 <= i < statements.len() ==> expression_leans_left(
                #[trigger] statements[i].expression(),
            ),
    decreases tokens.len() - pos,
{
    if is_word_at(tokens, pos, "let"@) {
        if let Some((statement, next)) = statement_at(tokens, pos) {
            if pos < next <= tokens.len() {
                lemma_expression_leans_left(tokens, pos + 3);
                lemma_statements_lean_left(tokens, next, done.push(statement));
            }
        }
    }
}

/// In a program that is read, every left operand of a binary node is a
/// wrapped expression: chains lean left.
pub proof fn lemma_program_leans_left(text: Seq<char>, index: int)
    requires
        program_in(text) is Some,
        0 <= index < program_in(text)->Some_0.statements.len(),
    ensures
        expression_leans_left(program_in(text)->Some_0.statements[index].expression()),
{
    let tokens = tokens_of(text)->Some_0;
    let next = inputs_at(tokens, 3)->Some_0.1;
    lemma_statements_lean_left(tokens, next + 2, Seq::empty());
}

/// `found` is the node and the end that `expected` gives, or nothing where it
/// gives nothing.
pub open spec fn parsed<T: View>(expected: Option<(T::V, int)>, found: Option<(T, usize)>) -> bool {
    match expected {
        Some((model, next)) => found is Some && found->Some_0.0@ == model && found->Some_0.1
            == next,
        None => found is None,
    }
}

/// Whether the token at `pos` is the symbol `c`.
pub fn symbol_at(tokens: &Vec<Token>, pos: usize, c: char) -> (b: bool)
    ensures
        b == is_symbol_at(token_views(tokens@), pos as int, c),
{
    if pos >= tokens.len() {
        return false;
    }
    match &tokens[pos] {
        Token::Symbol(found) => *found == c,
        _ => false,
    }
}

/// Whether the token at `pos` is the word `word`.
pub fn word_at(tokens: &Vec<Token>, pos: usize, word: &str) -> (b: bool)
    ensures
        b == is_word_at(token_views(tokens@), pos as int, word@),
{
    if pos >= tokens.len() {
        return false;
    }
    match &tokens[pos] {
        Token::Identifier(name) => {
            let expected = String::from_str(word);
            *name == expected
        },
        _ => false,
    }
}

/// The name at `pos`, if the token there is a word.
pub fn name_at(tokens: &Vec<Token>, pos: usize) -> (name: Option<String>)
    ensures
        match token_at(token_views(tokens@), pos as int) {
            Some(TokenView::Identifier(word)) => name is Some && name->Some_0@ == word,
            _ => name is None,
        },
{
    if pos >= tokens.len() {
        return None;
    }
    match &tokens[pos] {
        Token::Identifier(name) => Some(name.clone()),
        _ => None,
    }
}

/// The operator that a symbol denotes.
pub fn parse_operator(c: char) -> (operator: Option<Operator>)
    ensures
        operator == operator_of(c),
{
    if c == '+' {
        Some(Operator::Add)
    } else if c == '-' {
        Some(Operator::Subtract)
    } else if c == '*' {
        Some(Operator::Multiply)
    } else if c == '/' {
        Some(Operator::Divide)
    } else {
        None
    }
}

/// The operator of the given level at `pos`.
fn level_operator(tokens: &Vec<Token>, pos: usize, additive: bool) -> (operator: Option<Operator>)
    ensures
        operator == operator_at(token_views(tokens@), pos as int, additive),
        operator is Some ==> pos < tokens.len(),
{
    if pos >= tokens.len() {
        return None;
    }
    match &tokens[pos] {
        Token::Symbol(c) => {
            if additive == (*c == '+' || *c == '-') {
                parse_operator(*c)
            } else {
                None
            }
        },
        _ => None,
    }
}

/// The type that the word at `pos` names. The language has one, `u8`.
pub fn parse_type(tokens: &Vec<Token>, pos: usize) -> (input_type: Option<Type>)
    ensures
        input_type == (if is_word_at(token_views(tokens@), pos as int, "u8"@) {
            Some(Type::U8)
        } else {
            None
        }),
{
    if word_at(tokens, pos, "u8") {
        Some(Type::U8)
    } else {
        None
    }
}

/// Reads the value that starts at `pos`.
pub fn parse_value(tokens: &Vec<Token>, pos: usize) -> (found: Option<(Value, usize)>)
    ensures
        parsed(value_at(token_views(tokens@), pos as int), found),
        found matches Some((_, next)) ==> pos < next <= tokens.len(),
    decreases tokens.len() - pos, 0nat,
{
    if pos >= tokens.len() {
        return None;
    }
    match &tokens[pos] {
        Token::Integer(n) => Some((Value::Integer(*n), pos + 1)),
        Token::Identifier(name) => Some((Value::Identifier(name.clone()), pos + 1)),
        Token::Symbol(c) => {
            if *c != '(' {
                return None;
            }
            match parse_expression(tokens, pos + 1) {
                None => None,
                Some((inner, next)) => {
                    if symbol_at(tokens, next, ')') {
                        Some((Value::Expression(Box::new(inner)), next + 1))
                    } else {
                        None
                    }
                },
            }
        },
    }
}

/// Reads the chain of `*` and `/` that starts at `pos`.
pub fn parse_multiplication(tokens: &Vec<Token>, pos: usize) -> (found: Option<
    (Expression, usize),
>)
    ensures
        parsed(multiplication_at(token_views(tokens@), pos as int), found),
        found matches Some((_, next)) ==> pos < next <= tokens.len(),
    decreases tokens.len() - pos, 2nat,
{
    let (first, start) = match parse_value(tokens, pos) {
        None => {
            return None;
        },
        Some(read) => read,
    };
    let mut expression = Expression::Value(Box::new(first));
    let mut at = start;
    loop
        invariant
            pos < at <= tokens.len(),
            multiplication_at(token_views(tokens@), pos as int) == multiplication_rest(
                token_views(tokens@),
                at as int,
                expression@,
            ),
        decreases tokens.len() - at,
    {
        let operator = match level_operator(tokens, at, false) {
            None => {
                return Some((expression, at));
            },
            Some(operator) => operator,
        };
        match parse_value(tokens, at + 1) {
            None => {
                return None;
            },
            Some((right, next)) => {
                let ghost left = expression@;
                expression =
                Expression::Binary {
                    left: Value::Expression(Box::new(expression)),
                    operator,
                    right: Box::new(Expression::Value(Box::new(right))),
                };
                assert(expression@ == chain(left, operator, ExpressionView::Value(Box::new(right@))))
                    by {
                    reveal_with_fuel(expression_view, 3);
                }
                at = next;
            },
        }
    }
}

/// Reads the chain of `+` and `-` that starts at `pos`.
pub fn parse_addition(tokens: &Vec<Token>, pos: usize) -> (found: Option<(Expression, usize)>)
    ensures
        parsed(addition_at(token_views(tokens@), pos as int), found),
        found matches Some((_, next)) ==> pos < next <= tokens.len(),
    decreases tokens.len() - pos, 4nat,
{
    let (first, start) = match parse_multiplication(tokens, pos) {
        None => {
            return None;
        },
        Some(read) => read,
    };
    let mut expression = first;
    let mut at = start;
    loop
        invariant
            pos < at <= tokens.len(),
            addition_at(token_views(tokens@), pos as int) == addition_rest(
                token_views(tokens@),
                at as int,
                expression@,
            ),
        decreases tokens.len() - at,
    {
        let operator = match level_operator(tokens, at, true) {
            None => {
                return Some((expression, at));
            },
            Some(operator) => operator,
        };
        match parse_multiplication(tokens, at + 1) {
            None => {
                return None;
            },
            Some((right, next)) => {
                let ghost left = expression@;
                expression =
                Expression::Binary {
                    left: Value::Expression(Box::new(expression)),
                    operator,
                    right: Box::new(right),
                };
                assert(expression@ == chain(left, operator, right@)) by {
                    reveal_with_fuel(expression_view, 3);
                }
                at = next;
            },
        }
    }
}

/// Reads the expression that starts at `pos`.
pub fn parse_expression(tokens: &Vec<Token>, pos: usize) -> (found: Option<(Expression, usize)>)
    ensures
        parsed(expression_at(token_views(tokens@), pos as int), found),
        found matches Some((_, next)) ==> pos < next <= tokens.len(),
    decreases tokens.len() - pos, 5nat,
{
    parse_addition(tokens, pos)
}

/// Reads the input that starts at `pos`.
pub fn parse_single_input(tokens: &Vec<Token>, pos: usize) -> (found: Option<(Input, usize)>)
    ensures
        parsed(input_at(token_views(tokens@), pos as int), found),
        found matches Some((_, next)) ==> next == pos + 3 && next <= tokens.len(),
{
    let name = match name_at(tokens, pos) {
        None => {
            return None;
        },
        Some(name) => name,
    };
    if tokens.len() - pos <= 2 || !symbol_at(tokens, pos + 1, ':') {
        return None;
    }
    match parse_type(tokens, pos + 2) {
        None => None,
        Some(input_type) => Some((Input { name, input_type }, pos + 3)),
    }
}

/// Reads the statement that starts at `pos`.
pub fn parse_statement(tokens: &Vec<Token>, pos: usize) -> (found: Option<(Statement, usize)>)
    ensures
        parsed(statement_at(token_views(tokens@), pos as int), found),
        found matches Some((_, next)) ==> pos < next <= tokens.len(),
{
    if pos >= tokens.len() || tokens.len() - pos <= 3 || !word_at(tokens, pos, "let") {
        return None;
    }
    let variable = match name_at(tokens, pos + 1) {
        None => {
            return None;
        },
        Some(name) => name,
    };
    if !symbol_at(tokens, pos + 2, '=') {
        return None;
    }
    match parse_expression(tokens, pos + 3) {
        None => None,
        Some((expression, next)) => {
            if symbol_at(tokens, next, ';') {
                Some((Statement::Assign { variable, expression }, next + 1))
            } else {
                None
            }
        },
    }
}

/// Reads the list of inputs that starts at `pos`.
fn parse_inputs(tokens: &Vec<Token>, pos: usize) -> (found: Option<(Vec<Input>, usize)>)
    requires
        pos <= tokens.len(),
    ensures
        match inputs_at(token_views(tokens@), pos as int) {
            Some((inputs, next)) => found is Some && input_views(found->Some_0.0@) == inputs
                && found->Some_0.1 == next && pos <= next <= tokens.len(),
            None => found is None,
        },
{
    let mut inputs: Vec<Input> = Vec::new();
    let mut at = match parse_single_input(tokens, pos) {
        None => {
            assert(input_views(inputs@) =~= Seq::empty());
            return Some((inputs, pos));
        },
        Some((first, next)) => {
            inputs.push(first);
            assert(input_views(inputs@) =~= seq![first@]);
            next
        },
    };
    loop
        invariant
            pos <= at <= tokens.len(),
            inputs_at(token_views(tokens@), pos as int) == inputs_rest(
                token_views(tokens@),
                at as int,
                input_views(inputs@),
            ),
        decreases tokens.len() - at,
    {
        if !symbol_at(tokens, at, ',') {
            return Some((inputs, at));
        }
        match parse_single_input(tokens, at + 1) {
            None => {
                return None;
            },
            Some((input, next)) => {
                let ghost before = input_views(inputs@);
                inputs.push(input);
                assert(input_views(inputs@) =~= before.push(input@));
                at = next;
            },
        }
    }
}

/// Reads the statements that start at `pos`, as long as the next word is
/// `let`.
fn parse_statements(tokens: &Vec<Token>, pos: usize) -> (found: Option<(Vec<Statement>, usize)>)
    requires
        pos <= tokens.len(),
    ensures
        match statements_rest(token_views(tokens@), pos as int, Seq::empty()) {
            Some((statements, next)) => found is Some && statement_views(found->Some_0.0@)
                == statements && found->Some_0.1 == next && pos <= next <= tokens.len(),
            None => found is None,
        },
{
    let mut statements: Vec<Statement> = Vec::new();
    let mut at = pos;
    assert(statement_views(statements@) =~= Seq::empty());
    loop
        invariant
            pos <= at <= tokens.len(),
            statements_rest(token_views(tokens@), pos as int, Seq::empty()) == statements_rest(
                token_views(tokens@),
                at as int,
                statement_views(statements@),
            ),
        decreases tokens.len() - at,
    {
        if !word_at(tokens, at, "let") {
            return Some((statements, at));
        }
        match parse_statement(tokens, at) {
            None => {
                return None;
            },
            Some((statement, next)) => {
                let ghost before = statement_views(statements@);
                statements.push(statement);
                assert(statement_views(statements@) =~= before.push(statement@));
                at = next;
            },
        }
    }
}

/// The parser: the tokens of a source text, from which the program is read.
pub struct RustParser {
    pub tokens: Vec<Token>,
}

impl View for RustParser {
    type V = Seq<TokenView>;

    open spec fn view(&self) -> Seq<TokenView> {
        token_views(self.tokens@)
    }
}

impl RustParser {
    /// A parser for a source text, if the text splits into tokens.
    pub fn new(source: &str) -> (outcome: Result<RustParser, Diagnostic>)
        ensures
            match tokens_of(source@) {
                Some(tokens) => outcome is Ok && outcome->Ok_0@ == tokens,
                None => outcome == Err::<RustParser, Diagnostic>(Diagnostic::ParseFailure),
            },
    {
        match tokenize(source) {
            Ok(tokens) => Ok(RustParser { tokens }),
            Err(diagnostic) => Err(diagnostic),
        }
    }

    /// Reads the program that the tokens spell. Fails where they spell none,
    /// or more than one program.
    pub fn parse(&self) -> (outcome: Result<Program, Diagnostic>)
        ensures
            match program_of(self@) {
                Some(program) => outcome is Ok && outcome->Ok_0@ == program,
                None => outcome == Err::<Program, Diagnostic>(Diagnostic::ParseFailure),
            },
    {
        let tokens = &self.tokens;
        if !word_at(tokens, 0, "fn") {
            return Err(Diagnostic::ParseFailure);
        }
        let name = match name_at(tokens, 1) {
            None => {
                return Err(Diagnostic::ParseFailure);
            },
            Some(name) => name,
        };
        if !symbol_at(tokens, 2, '(') {
            return Err(Diagnostic::ParseFailure);
        }
        let (inputs, next) = match parse_inputs(tokens, 3) {
            None => {
                return Err(Diagnostic::ParseFailure);
            },
            Some(read) => read,
        };
        if !symbol_at(tokens, next, ')') || !symbol_at(tokens, next + 1, '{') {
            return Err(Diagnostic::ParseFailure);
        }
        let (statements, end) = match parse_statements(tokens, next + 2) {
            None => {
                return Err(Diagnostic::ParseFailure);
            },
            Some(read) => read,
        };
        if !symbol_at(tokens, end, '}') || end + 1 != tokens.len() {
            return Err(Diagnostic::ParseFailure);
        }
        Ok(Program { name, inputs, statements })
    }
}

/// Reads a program from its source text.
///
/// Fails with [`Diagnostic::ParseFailure`] exactly where the text is no
/// program of the language.
pub fn parse(source: &str) -> (outcome: Result<Program, Diagnostic>)
    ensures
        match program_in(source@) {
            Some(program) => outcome is Ok && outcome->Ok_0@ == program,
            None => outcome == Err::<Program, Diagnostic>(Diagnostic::ParseFailure),
        },
{
    match RustParser::new(source) {
        Ok(parser) => parser.parse(),
        Err(diagnostic) => Err(diagnostic),
    }
}

} // verus!
