//! The lexer: from source text to tokens.
//!
//! A token is a word, an integer literal or a symbol. A word is a letter or
//! `_` followed by letters, digits and `_`. A literal is decimal digits
//! followed by `u8`, and denotes at most 255. Blanks, line comments (`//` to
//! the end of the line) and block comments (`/*` to the next `*/`) separate
//! tokens and are otherwise ignored.

use vstd::prelude::*;
use vstd::string::*;
use crate::messages::Diagnostic;

verus! {

/// A token of the source text.
#[derive(Debug, PartialEq, Eq)]
pub enum Token {
    /// A name or a keyword.
    Identifier(String),
    /// An integer literal, without its suffix.
    Integer(u8),
    /// A punctuation mark or an operator.
    Symbol(char),
}

/// The model of a [`Token`].
pub ghost enum TokenView {
    Identifier(Seq<char>),
    Integer(u8),
    Symbol(char),
}

impl View for Token {
    type V = TokenView;

    open spec fn view(&self) -> TokenView {
        match *self {
            Token::Identifier(name) => TokenView::Identifier(name@),
            Token::Integer(n) => TokenView::Integer(n),
            Token::Symbol(c) => TokenView::Symbol(c),
        }
    }
}

/// The models of a sequence of tokens.
pub open spec fn token_views(tokens: Seq<Token>) -> Seq<TokenView> {
    tokens.map_values(|token: Token| token@)
}

/// A blank: a space, a tab or a line break.
pub open spec fn is_blank(c: char) -> bool {
    c == ' ' || c == '\t' || c == '\n' || c == '\r'
}

/// A decimal digit.
pub open spec fn is_digit(c: char) -> bool {
    '0' <= c && c <= '9'
}

/// A character that may start a name: an ASCII letter or `_`.
pub open spec fn is_letter(c: char) -> bool {
    ('a' <= c && c <= 'z') || ('A' <= c && c <= 'Z') || c == '_'
}

/// A character that may continue a name or a literal.
pub open spec fn is_word(c: char) -> bool {
    is_letter(c) || is_digit(c)
}

/// A punctuation mark or an operator.
pub open spec fn is_symbol(c: char) -> bool {
    c == '(' || c == ')' || c == '{' || c == '}' || c == ',' || c == ':' || c == ';' || c == '='
        || c == '+' || c == '-' || c == '*' || c == '/'
}

/// Where the word that holds `pos` ends: the first position from `pos` on
/// that holds no word character.
pub open spec fn word_end(text: Seq<char>, pos: int) -> int
    decreases text.len() - pos,
{
    if 0 <= pos < text.len() && is_word(text[pos]) {
        word_end(text, pos + 1)
    } else {
        pos
    }
}

/// Where the line that holds `pos` ends: the first line break from `pos` on,
/// or the end of the text.
pub open spec fn line_end(text: Seq<char>, pos: int) -> int
    decreases text.len() - pos,
{
    if 0 <= pos < text.len() && text[pos] != '\n' {
        line_end(text, pos + 1)
    } else {
        pos
    }
}

/// Where a block comment whose body starts at `pos` ends: behind the first
/// `*/` from `pos` on, if there is one.
pub open spec fn block_end(text: Seq<char>, pos: int) -> Option<int>
    decreases text.len() - pos,
{
    if 0 <= pos && pos + 1 < text.len() {
        if text[pos] == '*' && text[pos + 1] == '/' {
            Some(pos + 2)
        } else {
            block_end(text, pos + 1)
        }
    } else {
        None
    }
}

/// The number that a sequence of digits denotes.
pub open spec fn digits_value(digits: Seq<char>) -> nat
    decreases digits.len(),
{
    if digits.len() == 0 {
        0
    } else {
        digits_value(digits.drop_last()) * 10 + (digits.last() as nat - 48) as nat
    }
}

/// The value of a literal: the word is digits, at least one, and then `u8`,
/// and the digits denote at most 255.
pub open spec fn literal_value(word: Seq<char>) -> Option<u8> {
    let digits = word.take(word.len() - 2);
    if word.len() >= 3 && word[word.len() - 2] == 'u' && word[word.len() - 1] == '8' && (forall|
        i: int,
    |
        0 <= i < digits.len() ==> is_digit(#[trigger] digits[i])) && digits_value(digits) <= 255 {
        Some(digits_value(digits) as u8)
    } else {
        None
    }
}

/// `rest` with `token` in front.
pub open spec fn after(token: TokenView, rest: Option<Seq<TokenView>>) -> Option<Seq<TokenView>> {
    match rest {
        Some(tokens) => Some(seq![token] + tokens),
        None => None,
    }
}

/// A word never ends before it starts, nor behind the text.
pub proof fn lemma_word_end(text: Seq<char>, pos: int)
    requires
        0 <= pos <= text.len(),
    ensures
        pos <= word_end(text, pos) <= text.len(),
        forall|i: int| pos <= i < word_end(text, pos) ==> is_word(#[trigger] text[i]),
        word_end(text, pos) < text.len() ==> !is_word(text[word_end(text, pos)]),
    decreases text.len() - pos,
{
    if pos < text.len() && is_word(text[pos]) {
        lemma_word_end(text, pos + 1);
    }
}

/// A line never ends before a position on it, nor behind the text.
pub proof fn lemma_line_end(text: Seq<char>, pos: int)
    requires
        0 <= pos <= text.len(),
    ensures
        pos <= line_end(text, pos) <= text.len(),
    decreases text.len() - pos,
{
    if pos < text.len() && text[pos] != '\n' {
        lemma_line_end(text, pos + 1);
    }
}

/// A block comment ends behind where its body starts, within the text.
pub proof fn lemma_block_end(text: Seq<char>, pos: int)
    requires
        0 <= pos <= text.len(),
    ensures
        block_end(text, pos) matches Some(end) ==> pos + 2 <= end <= text.len(),
    decreases text.len() - pos,
{
    if pos + 1 < text.len() && !(text[pos] == '*' && text[pos + 1] == '/') {
        lemma_block_end(text, pos + 1);
    }
}

/// The tokens of the text from `pos` on, or nothing where the text holds a
/// character or a literal that the language does not have, or a block
/// comment that does not end.
pub open spec fn tokens_from(text: Seq<char>, pos: int) -> Option<Seq<TokenView>>
    decreases text.len() - pos,
{
    if pos < 0 || pos >= text.len() {
        Some(Seq::empty())
    } else if is_blank(text[pos]) {
        tokens_from(text, pos + 1)
    } else if text[pos] == '/' && pos + 1 < text.len() && text[pos + 1] == '/' {
        proof {
            lemma_line_end(text, pos + 2);
        }
        tokens_from(text, line_end(text, pos + 2))
    } else if text[pos] == '/' && pos + 1 < text.len() && text[pos + 1] == '*' {
        proof {
            lemma_block_end(text, pos + 2);
        }
        match block_end(text, pos + 2) {
            Some(end) => tokens_from(text, end),
            None => None,
        }
    } else if is_letter(text[pos]) {
        proof {
            lemma_word_end(text, pos + 1);
        }
        let end = word_end(text, pos + 1);
        after(TokenView::Identifier(text.subrange(pos, end)), tokens_from(text, end))
    } else if is_digit(text[pos]) {
        proof {
            lemma_word_end(text, pos + 1);
        }
        let end = word_end(text, pos + 1);
        match literal_value(text.subrange(pos, end)) {
            Some(n) => after(TokenView::Integer(n), tokens_from(text, end)),
            None => None,
        }
    } else if is_symbol(text[pos]) {
        after(TokenView::Symbol(text[pos]), tokens_from(text, pos + 1))
    } else {
        None
    }
}

/// The tokens of a source text.
pub open spec fn tokens_of(text: Seq<char>) -> Option<Seq<TokenView>> {
    tokens_from(text, 0)
}

/// The tokens read so far, followed by those still to come.
pub open spec fn joined(done: Seq<TokenView>, rest: Option<Seq<TokenView>>) -> Option<
    Seq<TokenView>,
> {
    match rest {
        Some(tokens) => Some(done + tokens),
        None => None,
    }
}

/// Reading one more token moves it from those to come to those read.
proof fn lemma_joined_after(done: Seq<TokenView>, token: TokenView, rest: Option<Seq<TokenView>>)
    ensures
        joined(done, after(token, rest)) == joined(done.push(token), rest),
{
    match rest {
        Some(tokens) => {
            assert(done + (seq![token] + tokens) =~= done.push(token) + tokens);
        },
        None => {},
    }
}

/// The digits read so far denote no more than all of them.
proof fn lemma_digits_value_grows(digits: Seq<char>, count: int)
    requires
        0 <= count <= digits.len(),
    ensures
        digits_value(digits.take(count)) <= digits_value(digits),
    decreases digits.len(),
{
    if count < digits.len() {
        lemma_digits_value_grows(digits.drop_last(), count);
        assert(digits.drop_last().take(count) =~= digits.take(count));
    } else {
        assert(digits.take(count) =~= digits);
    }
}

/// The characters of a text.
pub fn characters(source: &str) -> (text: Vec<char>)
    ensures
        text@ == source@,
{
    let mut text: Vec<char> = Vec::new();
    for c in iter: source.chars()
        invariant
            iter.seq() == source@,
            text@ == iter.seq().take(iter.index() as int),
    {
        text.push(c);
        assert(iter.seq().take(iter.index() + 1) =~= iter.seq().take(iter.index() as int).push(c));
    }
    assert(source@.take(source@.len() as int) =~= source@);
    text
}

/// Whether `c` is a blank.
pub fn blank(c: char) -> (b: bool)
    ensures
        b == is_blank(c),
{
    c == ' ' || c == '\t' || c == '\n' || c == '\r'
}

/// Whether `c` is a decimal digit.
pub fn digit(c: char) -> (b: bool)
    ensures
        b == is_digit(c),
{
    '0' <= c && c <= '9'
}

/// Whether `c` may start a name.
pub fn letter(c: char) -> (b: bool)
    ensures
        b == is_letter(c),
{
    ('a' <= c && c <= 'z') || ('A' <= c && c <= 'Z') || c == '_'
}

/// Whether `c` is a punctuation mark or an operator.
pub fn symbol(c: char) -> (b: bool)
    ensures
        b == is_symbol(c),
{
    c == '(' || c == ')' || c == '{' || c == '}' || c == ',' || c == ':' || c == ';' || c == '='
        || c == '+' || c == '-' || c == '*' || c == '/'
}

/// The end of the word that holds `pos`.
fn scan_word(text: &Vec<char>, pos: usize) -> (end: usize)
    requires
        pos <= text.len(),
    ensures
        end == word_end(text@, pos as int),
        pos <= end <= text.len(),
{
    let mut end = pos;
    while end < text.len() && (letter(text[end]) || digit(text[end]))
        invariant
            pos <= end <= text.len(),
            word_end(text@, pos as int) == word_end(text@, end as int),
        decreases text.len() - end,
    {
        end += 1;
    }
    end
}

/// The end of the line that holds `pos`.
fn scan_line(text: &Vec<char>, pos: usize) -> (end: usize)
    requires
        pos <= text.len(),
    ensures
        end == line_end(text@, pos as int),
        pos <= end <= text.len(),
{
    let mut end = pos;
    while end < text.len() && text[end] != '\n'
        invariant
            pos <= end <= text.len(),
            line_end(text@, pos as int) == line_end(text@, end as int),
        decreases text.len() - end,
    {
        end += 1;
    }
    end
}

/// The end of the block comment whose body starts at `pos`, if it ends.
fn scan_block(text: &Vec<char>, pos: usize) -> (end: Option<usize>)
    requires
        pos <= text.len(),
    ensures
        match block_end(text@, pos as int) {
            Some(e) => end == Some(e as usize) && pos + 2 <= e <= text.len(),
            None => end is None,
        },
{
    let mut at = pos;
    while text.len() - at >= 2
        invariant
            pos <= at <= text.len(),
            block_end(text@, pos as int) == block_end(text@, at as int),
        decreases text.len() - at,
    {
        if text[at] == '*' && text[at + 1] == '/' {
            return Some(at + 2);
        }
        at += 1;
    }
    None
}

/// The characters from `start` to `end` as a string.
fn collect(text: &Vec<char>, start: usize, end: usize) -> (word: String)
    requires
        start <= end <= text.len(),
    ensures
        word@ == text@.subrange(start as int, end as int),
{
    let mut word = String::new();
    let mut at = start;
    while at < end
        invariant
            start <= at <= end <= text.len(),
            word@ == text@.subrange(start as int, at as int),
        decreases end - at,
    {
        word.push(text[at]);
        at += 1;
        assert(word@ =~= text@.subrange(start as int, at as int));
    }
    word
}

/// The value of the literal that the characters from `start` to `end` spell.
fn read_literal(text: &Vec<char>, start: usize, end: usize) -> (value: Option<u8>)
    requires
        start <= end <= text.len(),
    ensures
        value == literal_value(text@.subrange(start as int, end as int)),
{
    let ghost word = text@.subrange(start as int, end as int);
    let ghost digits = word.take(word.len() - 2);
    if end - start < 3 || text[end - 2] != 'u' || text[end - 1] != '8' {
        return None;
    }
    let stop = end - 2;
    assert(digits =~= text@.subrange(start as int, stop as int));
    let mut number: u16 = 0;
    let mut at = start;
    while at < stop
        invariant
            start <= at <= stop,
            stop + 2 == end <= text.len(),
            word == text@.subrange(start as int, end as int),
            digits == word.take(word.len() - 2),
            digits == text@.subrange(start as int, stop as int),
            number == digits_value(text@.subrange(start as int, at as int)),
            number <= 255,
            forall|i: int| 0 <= i < at - start ==> is_digit(#[trigger] digits[i]),
        decreases stop - at,
    {
        let c = text[at];
        if !digit(c) {
            assert(!is_digit(digits[at - start]));
            return None;
        }
        let ghost read = text@.subrange(start as int, at + 1);
        assert(read.drop_last() =~= text@.subrange(start as int, at as int));
        assert(read.last() == c);
        number = number * 10 + (c as u16 - 48);
        if number > 255 {
            proof {
                assert(digits.take(at + 1 - start) =~= read);
                lemma_digits_value_grows(digits, at + 1 - start);
            }
            return None;
        }
        at += 1;
    }
    assert(text@.subrange(start as int, at as int) =~= digits);
    Some(number as u8)
}

/// Splits a source text into its tokens.
///
/// Fails where the text holds a character that no token has, a word that
/// starts with a digit and is no literal of at most 255, or a block comment
/// that does not end.
pub fn tokenize(source: &str) -> (outcome: Result<Vec<Token>, Diagnostic>)
    ensures
        match tokens_of(source@) {
            Some(tokens) => outcome is Ok && token_views(outcome->Ok_0@) == tokens,
            None => outcome == Err::<Vec<Token>, Diagnostic>(Diagnostic::ParseFailure),
        },
{
    let text = characters(source);
    let mut tokens: Vec<Token> = Vec::new();
    let mut pos: usize = 0;
    assert(token_views(tokens@) + tokens_from(text@, 0)->Some_0 =~= tokens_from(text@, 0)->Some_0);
    while pos < text.len()
        invariant
            pos <= text.len(),
            text@ == source@,
            tokens_of(text@) == joined(token_views(tokens@), tokens_from(text@, pos as int)),
        decreases text.len() - pos,
    {
        let c = text[pos];
        let ghost done = token_views(tokens@);
        if blank(c) {
            pos += 1;
        } else if c == '/' && pos + 1 < text.len() && text[pos + 1] == '/' {
            pos = scan_line(&text, pos + 2);
        } else if c == '/' && pos + 1 < text.len() && text[pos + 1] == '*' {
            match scan_block(&text, pos + 2) {
                Some(end) => {
                    pos = end;
                },
                None => {
                    return Err(Diagnostic::ParseFailure);
                },
            }
        } else if letter(c) {
            let end = scan_word(&text, pos + 1);
            let name = collect(&text, pos, end);
            let token = Token::Identifier(name);
            proof {
                lemma_joined_after(done, token@, tokens_from(text@, end as int));
            }
            tokens.push(token);
            assert(token_views(tokens@) =~= done.push(token@));
            pos = end;
        } else if digit(c) {
            let end = scan_word(&text, pos + 1);
            match read_literal(&text, pos, end) {
                Some(n) => {
                    let token = Token::Integer(n);
                    proof {
                        lemma_joined_after(done, token@, tokens_from(text@, end as int));
                    }
                    tokens.push(token);
                    assert(token_views(tokens@) =~= done.push(token@));
                    pos = end;
                },
                None => {
                    return Err(Diagnostic::ParseFailure);
                },
            }
        } else if symbol(c) {
            let token = Token::Symbol(c);
            proof {
                lemma_joined_after(done, token@, tokens_from(text@, pos + 1));
            }
            tokens.push(token);
            assert(token_views(tokens@) =~= done.push(token@));
            pos += 1;
        } else {
            return Err(Diagnostic::ParseFailure);
        }
    }
    assert(token_views(tokens@) + Seq::<TokenView>::empty() =~= token_views(tokens@));
    Ok(tokens)
}

} // verus!
