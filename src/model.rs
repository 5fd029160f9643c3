//! The mathematical model of scanning: what the lexer produces for a
//! sequence of characters, stated one token at a time.
use vstd::prelude::*;
use vstd::utf8::{char_is_scalar, encode_scalar, encode_utf8};

use crate::error::Error;
use crate::lexer::{Keyword, Operator, Pos, Span};

verus! {

/// A token kind as a mathematical value; an identifier holds its characters.
pub enum KindView {
    Keyword(Keyword),
    Operator(Operator),
    Id(Seq<char>),
    Bool(bool),
    Int(i32),
    Char(char),
    Newline,
    Unknown,
}

/// A token as a mathematical value.
pub struct TokenView {
    pub kind: KindView,
    pub span: Span,
}

/// What one scanning step does at the current character.
pub enum Step {
    /// Emit a token and continue at the given character index.
    Emit(TokenView, nat),
    /// Discard one blank character.
    Skip,
    /// Consume a newline: the line number grows and columns restart.
    Newline,
    /// Stop with an error.
    Fail(Error),
}

/// Number of bytes in the UTF-8 encoding of `c`.
pub open spec fn char_width(c: char) -> nat {
    if (c as u32) < 0x80 {
        1
    } else if (c as u32) < 0x800 {
        2
    } else if (c as u32) < 0x10000 {
        3
    } else {
        4
    }
}

/// Byte offset of character `i` of `s`: the UTF-8 length of the first `i` characters.
pub open spec fn byte_offset(s: Seq<char>, i: nat) -> nat
    decreases i,
{
    if i == 0 {
        0
    } else {
        byte_offset(s, (i - 1) as nat) + char_width(s[i - 1 as int])
    }
}

/// The single-line span from byte offset `from` to byte offset `to` on a
/// line that starts at byte offset `line_start`.
pub open spec fn span_of(line: nat, line_start: nat, from: nat, to: nat) -> Span {
    Span {
        start: Pos { line: line as usize, col: (from - line_start) as usize },
        end: Pos { line: line as usize, col: (to - line_start) as usize },
    }
}

pub open spec fn is_punct(c: char) -> bool {
    c == '(' || c == ')' || c == '{' || c == '}' || c == ',' || c == ';' || c == ':' || c == '.'
}

/// The operator a single punctuation character stands for.
pub open spec fn punct_op(c: char) -> Operator {
    if c == '(' {
        Operator::LeftParen
    } else if c == ')' {
        Operator::RightParen
    } else if c == '{' {
        Operator::LeftBrace
    } else if c == '}' {
        Operator::RightBrace
    } else if c == ',' {
        Operator::Comma
    } else if c == ';' {
        Operator::Semicolon
    } else if c == ':' {
        Operator::Colon
    } else {
        Operator::Dot
    }
}

/// Characters that start an operator which a following `=` extends.
pub open spec fn is_leader(c: char) -> bool {
    c == '+' || c == '-' || c == '*' || c == '/' || c == '<' || c == '>' || c == '!' || c == '='
}

/// The operator a leader stands for alone.
pub open spec fn single_op(c: char) -> Operator {
    if c == '+' {
        Operator::Add
    } else if c == '-' {
        Operator::Sub
    } else if c == '*' {
        Operator::Mul
    } else if c == '/' {
        Operator::Div
    } else if c == '<' {
        Operator::Lt
    } else if c == '>' {
        Operator::Gt
    } else if c == '!' {
        Operator::Not
    } else {
        Operator::Eq
    }
}

/// The operator a leader stands for when `=` follows it.
pub open spec fn compound_op(c: char) -> Operator {
    if c == '+' {
        Operator::AddAssign
    } else if c == '-' {
        Operator::SubAssign
    } else if c == '*' {
        Operator::MulAssign
    } else if c == '/' {
        Operator::DivAssign
    } else if c == '<' {
        Operator::Le
    } else if c == '>' {
        Operator::Ge
    } else if c == '!' {
        Operator::Neq
    } else {
        Operator::Eqq
    }
}

pub open spec fn is_blank(c: char) -> bool {
    c == ' ' || c == '\r' || c == '\t'
}

pub open spec fn is_digit(c: char) -> bool {
    '0' <= c && c <= '9'
}

pub open spec fn is_letter(c: char) -> bool {
    ('a' <= c && c <= 'z') || ('A' <= c && c <= 'Z')
}

pub open spec fn is_word_char(c: char) -> bool {
    is_letter(c) || is_digit(c) || c == '_'
}

pub open spec fn is_ascii_char(c: char) -> bool {
    (c as u32) < 0x80
}

/// The character an escape letter stands for, if it names an escape.
pub open spec fn escape_value(c: char) -> Option<char> {
    if c == 'n' {
        Some('\n')
    } else if c == 'r' {
        Some('\r')
    } else if c == 't' {
        Some('\t')
    } else if c == '\\' || c == '0' || c == '\'' || c == '"' {
        Some(c)
    } else {
        None
    }
}

/// Length of the run of digits that starts at index `i`.
pub open spec fn digit_run(s: Seq<char>, i: nat) -> nat
    decreases s.len() - i,
{
    if i < s.len() && is_digit(s[i as int]) {
        1 + digit_run(s, i + 1)
    } else {
        0
    }
}

/// Length of the run of identifier characters that starts at index `i`.
pub open spec fn word_run(s: Seq<char>, i: nat) -> nat
    decreases s.len() - i,
{
    if i < s.len() && is_word_char(s[i as int]) {
        1 + word_run(s, i + 1)
    } else {
        0
    }
}

/// The numeric value of a sequence of decimal digits.
pub open spec fn digits_value(t: Seq<char>) -> nat
    decreases t.len(),
{
    if t.len() == 0 {
        0
    } else {
        digits_value(t.drop_last()) * 10 + ((t.last() as u32) - ('0' as u32)) as nat
    }
}

/// The value an integer literal holds: its digits before any `.`, and
/// `i32::MAX` for a value that does not fit.
pub open spec fn int_value(t: Seq<char>) -> i32 {
    if digits_value(t) > i32::MAX {
        i32::MAX
    } else {
        digits_value(t) as i32
    }
}

/// The spellings that are reserved: the keywords and the two boolean literals.
pub open spec fn is_reserved(w: Seq<char>) -> bool {
    !(word_kind(w) is Id)
}

/// What an identifier-shaped word stands for.
pub open spec fn word_kind(w: Seq<char>) -> KindView {
    if w == "const"@ {
        KindView::Keyword(Keyword::Const)
    } else if w == "void"@ {
        KindView::Keyword(Keyword::Void)
    } else if w == "bool"@ {
        KindView::Keyword(Keyword::Bool)
    } else if w == "true"@ {
        KindView::Bool(true)
    } else if w == "false"@ {
        KindView::Bool(false)
    } else if w == "char"@ {
        KindView::Keyword(Keyword::Char)
    } else if w == "int"@ {
        KindView::Keyword(Keyword::Int)
    } else if w == "if"@ {
        KindView::Keyword(Keyword::If)
    } else if w == "else"@ {
        KindView::Keyword(Keyword::Else)
    } else if w == "for"@ {
        KindView::Keyword(Keyword::For)
    } else if w == "while"@ {
        KindView::Keyword(Keyword::While)
    } else if w == "do"@ {
        KindView::Keyword(Keyword::Do)
    } else if w == "continue"@ {
        KindView::Keyword(Keyword::Continue)
    } else if w == "break"@ {
        KindView::Keyword(Keyword::Break)
    } else if w == "return"@ {
        KindView::Keyword(Keyword::Return)
    } else {
        KindView::Id(w)
    }
}

/// The token for a character literal whose value `v` is read at index `k`,
/// when the closing quote is due at index `q`; `bad` is the span reported
/// when that quote is missing.
pub open spec fn close_literal(
    s: Seq<char>,
    line: nat,
    ls: nat,
    k: nat,
    q: nat,
    v: char,
    bad: Span,
) -> Step {
    if q < s.len() && s[q as int] == '\'' {
        Step::Emit(
            TokenView {
                kind: KindView::Char(v),
                span: span_of(line, ls, byte_offset(s, k), byte_offset(s, k + 1)),
            },
            q + 1,
        )
    } else {
        Step::Fail(Error::CharNotTerminated(bad))
    }
}

/// Scanning a character literal whose opening quote is at index `i`.
pub open spec fn literal_step(s: Seq<char>, i: nat, line: nat, ls: nat) -> Step {
    if i + 1 >= s.len() {
        Step::Fail(Error::CharExpected(span_of(line, ls, byte_offset(s, i + 1), byte_offset(s, i + 1) + 1)))
    } else if s[i as int + 1] == '\\' {
        if i + 2 >= s.len() {
            Step::Fail(Error::UnexpectedEndOfInput)
        } else {
            let esc = span_of(line, ls, byte_offset(s, i + 1), byte_offset(s, i + 3));
            match escape_value(s[i as int + 2]) {
                Some(v) => close_literal(s, line, ls, i + 1, i + 3, v, esc),
                None => Step::Fail(Error::InvalidEscape(esc)),
            }
        }
    } else if s[i as int + 1] == '\'' {
        Step::Fail(Error::EmptyChar(span_of(line, ls, byte_offset(s, i + 1), byte_offset(s, i + 2))))
    } else if !is_ascii_char(s[i as int + 1]) {
        Step::Fail(Error::CharNotAscii(span_of(line, ls, byte_offset(s, i + 1), byte_offset(s, i + 2))))
    } else {
        close_literal(s, line, ls, i + 1, i + 2, s[i as int + 1], span_of(line, ls, byte_offset(s, i + 1), byte_offset(s, i + 2)))
    }
}

/// Emitting a token of kind `kind` that spans characters `i` up to `j`.
pub open spec fn emit(s: Seq<char>, line: nat, ls: nat, i: nat, kind: KindView, j: nat) -> Step {
    Step::Emit(TokenView { kind, span: span_of(line, ls, byte_offset(s, i), byte_offset(s, j)) }, j)
}

/// One step of scanning at index `i < s.len()`, on line `line`, whose first
/// byte is at offset `ls`.
pub open spec fn step(s: Seq<char>, i: nat, line: nat, ls: nat) -> Step {
    let c = s[i as int];
    if is_punct(c) {
        emit(s, line, ls, i, KindView::Operator(punct_op(c)), i + 1)
    } else if is_leader(c) {
        if i + 1 < s.len() && s[i as int + 1] == '=' {
            emit(s, line, ls, i, KindView::Operator(compound_op(c)), i + 2)
        } else {
            emit(s, line, ls, i, KindView::Operator(single_op(c)), i + 1)
        }
    } else if is_blank(c) {
        Step::Skip
    } else if c == '\n' {
        Step::Newline
    } else if c == '\'' {
        literal_step(s, i, line, ls)
    } else if is_digit(c) {
        let d = i + 1 + digit_run(s, i + 1);
        let value = int_value(s.subrange(i as int, d as int));
        if d < s.len() && s[d as int] == '.' {
            emit(s, line, ls, i, KindView::Int(value), d + 1 + digit_run(s, d + 1))
        } else {
            emit(s, line, ls, i, KindView::Int(value), d)
        }
    } else if is_letter(c) {
        let e = i + 1 + word_run(s, i + 1);
        emit(s, line, ls, i, word_kind(s.subrange(i as int, e as int)), e)
    } else {
        emit(s, line, ls, i, KindView::Unknown, i + 1)
    }
}

/// Scanning from index `i` with the tokens `acc` already emitted.
pub open spec fn scan(s: Seq<char>, i: nat, line: nat, ls: nat, acc: Seq<TokenView>) -> Result<
    Seq<TokenView>,
    Error,
>
    decreases s.len() - i,
{
    if i >= s.len() {
        Ok(acc)
    } else {
        match step(s, i, line, ls) {
            // A step never runs past the end; the test only bounds the recursion.
            Step::Emit(t, j) => if j <= s.len() {
                scan(s, j, line, ls, acc.push(t))
            } else {
                Ok(acc.push(t))
            },
            Step::Skip => scan(s, i + 1, line, ls, acc),
            Step::Newline => scan(s, i + 1, line + 1, byte_offset(s, i + 1), acc),
            Step::Fail(e) => Err(e),
        }
    }
}

/// The result of scanning the whole of `s`: every token in source order, or
/// the first error.
pub open spec fn lex(s: Seq<char>) -> Result<Seq<TokenView>, Error> {
    scan(s, 0, 1, 0, Seq::empty())
}

/// Each character takes at least one byte, so offsets grow at least as fast
/// as indices.
pub proof fn lemma_offset_grows(s: Seq<char>, i: nat, j: nat)
    requires
        i <= j,
    ensures
        byte_offset(s, i) + (j - i) <= byte_offset(s, j),
    decreases j - i,
{
    if i < j {
        lemma_offset_grows(s, i, (j - 1) as nat);
    }
}

/// `char_width` is the length of the UTF-8 encoding of the character.
proof fn lemma_width_is_encoding(c: char)
    ensures
        encode_scalar(c as u32).len() == char_width(c),
{
    broadcast use char_is_scalar;

}

/// The UTF-8 encoding of characters `j` up to `n` takes as many bytes as
/// the offsets say.
pub proof fn lemma_offset_is_encoding(s: Seq<char>, j: nat, n: nat)
    requires
        j <= n <= s.len(),
    ensures
        encode_utf8(s.subrange(j as int, n as int)).len() + byte_offset(s, j) == byte_offset(
            s,
            n,
        ),
    decreases n - j,
{
    let t = s.subrange(j as int, n as int);
    if j < n {
        lemma_offset_is_encoding(s, j + 1, n);
        assert(t.drop_first() =~= s.subrange(j as int + 1, n as int));
        lemma_width_is_encoding(s[j as int]);
        lemma_offset_grows(s, j, j + 1);
    } else {
        assert(t.len() == 0);
    }
}

} // verus!
