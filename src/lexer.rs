use vstd::prelude::*;
use vstd::std_specs::iter::IteratorSpec;
use vstd::string::*;

use crate::error::Error;
use crate::model::{
    byte_offset, char_width, digit_run, int_value, is_ascii_char, is_blank, is_digit, is_leader,
    is_letter, is_punct, is_word_char, lemma_offset_grows, lemma_offset_is_encoding, lex,
    literal_step, scan, span_of, step, word_kind, word_run, KindView, Step, TokenView,
};

verus! {

/// Reserved words. `True` and `False` are part of the set of reserved
/// spellings, though scanning turns those two into `TokenKind::Bool`.
#[derive(Clone, Copy, Debug, PartialEq, Eq, Structural)]
pub enum Keyword {
    Const,
    Void,
    Bool,
    True,
    False,
    Char,
    Int,
    If,
    Else,
    For,
    While,
    Do,
    Continue,
    Break,
    Return,
}

/// Punctuation and operators, the compound forms included.
#[derive(Clone, Copy, Debug, PartialEq, Eq, Structural)]
pub enum Operator {
    LeftParen,
    RightParen,
    LeftBrace,
    RightBrace,
    Comma,
    Semicolon,
    Colon,
    Dot,
    Lt,
    Le,
    Gt,
    Ge,
    Eq,
    Eqq,
    Neq,
    Not,
    Add,
    Sub,
    Mul,
    Div,
    AddAssign,
    SubAssign,
    MulAssign,
    DivAssign,
}

/// What a token is, with its payload.
#[derive(Clone, Debug, PartialEq)]
pub enum TokenKind {
    Keyword(Keyword),
    Operator(Operator),
    Id(String),
    Bool(bool),
    Int(i32),
    Char(char),
    Newline,
    Unknown,
}

/// A line (from 1) and a column (bytes from the start of the line, from 0).
#[derive(Clone, Copy, Debug, PartialEq, Eq, Structural)]
pub struct Pos {
    pub line: usize,
    pub col: usize,
}

/// The half-open extent `[start, end)` of a token on one line.
#[derive(Clone, Copy, Debug, PartialEq, Eq, Structural)]
pub struct Span {
    pub start: Pos,
    pub end: Pos,
}

/// A token: what it is and where it stands in the source.
#[derive(Clone, Debug, PartialEq)]
pub struct Token {
    pub kind: TokenKind,
    pub span: Span,
}

impl View for TokenKind {
    type V = KindView;

    open spec fn view(&self) -> KindView {
        match self {
            TokenKind::Keyword(k) => KindView::Keyword(*k),
            TokenKind::Operator(o) => KindView::Operator(*o),
            TokenKind::Id(name) => KindView::Id(name@),
            TokenKind::Bool(b) => KindView::Bool(*b),
            TokenKind::Int(n) => KindView::Int(*n),
            TokenKind::Char(c) => KindView::Char(*c),
            TokenKind::Newline => KindView::Newline,
            TokenKind::Unknown => KindView::Unknown,
        }
    }
}

impl View for Token {
    type V = TokenView;

    open spec fn view(&self) -> TokenView {
        TokenView { kind: self.kind@, span: self.span }
    }
}

/// The views of a sequence of tokens.
pub open spec fn views(ts: Seq<Token>) -> Seq<TokenView> {
    ts.map_values(|t: Token| t@)
}

impl Token {
    /// The token of kind `kind` over `span`.
    pub fn new(kind: TokenKind, span: Span) -> (r: Self)
        ensures
            r.kind == kind,
            r.span == span,
    {
        Self { kind, span }
    }

    /// Whether the token is an identifier.
    pub fn is_id(&self) -> (r: bool)
        ensures
            r == (self.kind is Id),
    {
        matches!(self.kind, TokenKind::Id(_))
    }

    /// The text of an identifier; asking it of any other token is a
    /// contract violation.
    pub fn id_name(&self) -> (r: String)
        requires
            self.kind is Id,
        ensures
            r@ == self.kind->Id_0@,
    {
        match &self.kind {
            TokenKind::Id(name) => name.clone(),
            _ => String::new(),
        }
    }
}

/// Relies on `String::push`: appends `c` to the end of `s`.
#[verifier::external_body]
fn push_char(s: &mut String, c: char)
    ensures
        final(s)@ == old(s)@.push(c),
{
    s.push(c)
}

/// The number of bytes `c` takes in UTF-8.
fn width_of(c: char) -> (w: usize)
    ensures
        w == char_width(c),
{
    let u = c as u32;
    if u < 0x80 {
        1
    } else if u < 0x800 {
        2
    } else if u < 0x10000 {
        3
    } else {
        4
    }
}

fn is_digit_char(c: char) -> (r: bool)
    ensures
        r == is_digit(c),
{
    '0' <= c && c <= '9'
}

fn is_letter_char(c: char) -> (r: bool)
    ensures
        r == is_letter(c),
{
    ('a' <= c && c <= 'z') || ('A' <= c && c <= 'Z')
}

fn is_word_char_exec(c: char) -> (r: bool)
    ensures
        r == is_word_char(c),
{
    is_letter_char(c) || is_digit_char(c) || c == '_'
}

/// Whether `word` is spelled `text`.
fn spelled(word: &String, text: &str) -> (r: bool)
    ensures
        r == (word@ == text@),
{
    *word == String::from_str(text)
}

/// The token kind of an identifier-shaped word: the reserved word or
/// boolean literal it spells, or an identifier holding it.
pub fn lookup_word(word: String) -> (k: TokenKind)
    ensures
        k@ == word_kind(word@),
{
    if spelled(&word, "const") {
        TokenKind::Keyword(Keyword::Const)
    } else if spelled(&word, "void") {
        TokenKind::Keyword(Keyword::Void)
    } else if spelled(&word, "bool") {
        TokenKind::Keyword(Keyword::Bool)
    } else if spelled(&word, "true") {
        TokenKind::Bool(true)
    } else if spelled(&word, "false") {
        TokenKind::Bool(false)
    } else if spelled(&word, "char") {
        TokenKind::Keyword(Keyword::Char)
    } else if spelled(&word, "int") {
        TokenKind::Keyword(Keyword::Int)
    } else if spelled(&word, "if") {
        TokenKind::Keyword(Keyword::If)
    } else if spelled(&word, "else") {
        TokenKind::Keyword(Keyword::Else)
    } else if spelled(&word, "for") {
        TokenKind::Keyword(Keyword::For)
    } else if spelled(&word, "while") {
        TokenKind::Keyword(Keyword::While)
    } else if spelled(&word, "do") {
        TokenKind::Keyword(Keyword::Do)
    } else if spelled(&word, "continue") {
        TokenKind::Keyword(Keyword::Continue)
    } else if spelled(&word, "break") {
        TokenKind::Keyword(Keyword::Break)
    } else if spelled(&word, "return") {
        TokenKind::Keyword(Keyword::Return)
    } else {
        TokenKind::Id(word)
    }
}


/// A copy of `k`.
fn copy_kind(k: &TokenKind) -> (r: TokenKind)
    ensures
        r@ == k@,
{
    match k {
        TokenKind::Keyword(w) => TokenKind::Keyword(*w),
        TokenKind::Operator(o) => TokenKind::Operator(*o),
        TokenKind::Id(name) => TokenKind::Id(name.clone()),
        TokenKind::Bool(b) => TokenKind::Bool(*b),
        TokenKind::Int(n) => TokenKind::Int(*n),
        TokenKind::Char(c) => TokenKind::Char(*c),
        TokenKind::Newline => TokenKind::Newline,
        TokenKind::Unknown => TokenKind::Unknown,
    }
}

/// A copy of `ts`.
fn copy_tokens(ts: &Vec<Token>) -> (r: Vec<Token>)
    ensures
        views(r@) == views(ts@),
{
    let mut out: Vec<Token> = Vec::new();
    let mut k: usize = 0;
    while k < ts.len()
        invariant
            k <= ts.len(),
            out@.len() == k,
            forall|j: int| 0 <= j < k ==> #[trigger] out@[j]@ == ts@[j]@,
        decreases ts.len() - k,
    {
        let t = &ts[k];
        out.push(Token::new(copy_kind(&t.kind), t.span));
        k += 1;
    }
    assert(views(out@) =~= views(ts@));
    out
}

/// The scanning engine. It holds the input as characters, a cursor into
/// them, the current line and the byte offset where that line starts, and
/// the tokens emitted so far.
pub struct Lexer<'a> {
    input: &'a str,
    chars: Vec<char>,
    /// Index of the next character.
    pos: usize,
    /// Byte offset of the next character.
    byte: usize,
    tokens: Vec<Token>,
    line: usize,
    /// The column computed last.
    col: usize,
    /// Byte offset of the first character of the current line.
    start: usize,
}

impl<'a> Lexer<'a> {
    /// The text being scanned.
    pub closed spec fn source(&self) -> Seq<char> {
        self.input@
    }

    /// The cursor agrees with the characters, and every offset fits in `isize`.
    pub closed spec fn wf(&self) -> bool {
        &&& self.chars@ == self.input@
        &&& self.pos <= self.chars.len()
        &&& self.byte == byte_offset(self.chars@, self.pos as nat)
        &&& self.byte <= byte_offset(self.chars@, self.chars.len() as nat)
        &&& byte_offset(self.chars@, self.chars.len() as nat) <= isize::MAX
        &&& self.start <= self.byte
        &&& 1 <= self.line <= self.pos + 1
    }

    /// What scanning the rest of the input yields after the tokens emitted
    /// so far: all tokens of the input, or its first error.
    pub closed spec fn outcome(&self) -> Result<Seq<TokenView>, Error> {
        scan(self.chars@, self.pos as nat, self.line as nat, self.start as nat, views(self.tokens@))
    }

    /// The step that scanning takes at the cursor.
    closed spec fn current(&self) -> Step {
        step(self.chars@, self.pos as nat, self.line as nat, self.start as nat)
    }

    /// `next` is `self` with only the column and the cursor moved.
    closed spec fn same_line(&self, next: Self) -> bool {
        &&& next.input == self.input
        &&& next.chars@ == self.chars@
        &&& next.tokens@ == self.tokens@
        &&& next.line == self.line
        &&& next.start == self.start
    }

    /// `next` is `self` after the step at the cursor emitted a token.
    closed spec fn emitted(&self, next: Self) -> bool {
        &&& next.wf()
        &&& next.input == self.input
        &&& next.chars@ == self.chars@
        &&& next.line == self.line
        &&& next.start == self.start
        &&& self.current() matches Step::Emit(t, j) && j == next.pos && views(next.tokens@)
            == views(self.tokens@).push(t)
    }

    /// `next` is `self` after scanning a character literal, whose result
    /// `r` is the one that step `st` prescribes.
    closed spec fn literal_done(&self, next: Self, r: Result<Token, Error>, st: Step) -> bool {
        &&& next.wf()
        &&& next.input == self.input
        &&& next.chars@ == self.chars@
        &&& next.tokens@ == self.tokens@
        &&& next.line == self.line
        &&& next.start == self.start
        &&& match r {
            Ok(t) => st == Step::Emit(t@, next.pos as nat),
            Err(e) => st == Step::Fail(e),
        }
    }

    /// The span from byte offset `from` to `to` on the current line.
    closed spec fn span_bytes(&self, from: nat, to: nat) -> Span {
        span_of(self.line as nat, self.start as nat, from, to)
    }

    /// A lexer at the start of `input`. Every `str` meets the requirement:
    /// no Rust value spans more than `isize::MAX` bytes.
    pub fn new(input: &'a str) -> (r: Self)
        requires
            input.spec_bytes().len() <= isize::MAX,
        ensures
            r.wf(),
            r.source() == input@,
            r.outcome() == lex(input@),
    {
        broadcast use vstd::string::group_string_axioms;

        let mut chars: Vec<char> = Vec::new();
        let mut it = input.chars();
        loop
            invariant
                chars@ + it.remaining() == input@,
                it.decrease() is Some,
            ensures
                chars@ == input@,
            decreases it.decrease()->0,
        {
            let ghost before = it;
            match it.next() {
                Some(c) => chars.push(c),
                None => {
                    assert(chars@ =~= input@);
                    break;
                },
            }
        }
        proof {
            lemma_offset_is_encoding(input@, 0, input@.len());
            assert(input@.subrange(0, input@.len() as int) =~= input@);
        }
        proof {
            lemma_offset_grows(input@, 0, input@.len());
        }
        let r = Self { input, chars, pos: 0, byte: 0, tokens: Vec::new(), line: 1, col: 0, start: 0 };
        assert(views(r.tokens@) =~= Seq::empty());
        r
    }

    /// Takes the next character, with its byte offset.
    fn bump(&mut self) -> (r: (usize, char))
        requires
            old(self).wf(),
            old(self).pos < old(self).chars.len(),
        ensures
            final(self).wf(),
            old(self).same_line(*final(self)),
            final(self).pos == old(self).pos + 1,
            r == (old(self).byte, old(self).chars@[old(self).pos as int]),
    {
        let c = self.chars[self.pos];
        let at = self.byte;
        proof {
            lemma_offset_grows(self.chars@, (self.pos + 1) as nat, self.chars.len() as nat);
        }
        self.byte = self.byte + width_of(c);
        self.pos = self.pos + 1;
        (at, c)
    }

    /// The column of byte offset `start`, which is also kept as the last column.
    fn col(&mut self, start: usize) -> (r: usize)
        requires
            old(self).start <= start,
        ensures
            r == start - old(self).start,
            final(self).col == r,
            *final(self) == (Self { col: r, ..*old(self) }),
    {
        self.col = start - self.start;
        self.col
    }

    /// Starts a new line after the newline character at byte offset `ind`.
    fn new_line(&mut self, ind: usize)
        requires
            ind < usize::MAX,
            old(self).line < usize::MAX,
        ensures
            *final(self) == (Self { line: (old(self).line + 1) as usize, start: (ind + 1) as usize, ..*old(self) }),
    {
        self.line += 1;
        self.start = ind + 1;
    }

    /// The span of `len` bytes from byte offset `start`, on the current line.
    fn new_span(&mut self, start: usize, len: usize) -> (r: Span)
        requires
            old(self).start <= start,
            start + len <= usize::MAX,
        ensures
            r == old(self).span_bytes(start as nat, (start + len) as nat),
            *final(self) == (Self { col: final(self).col, ..*old(self) }),
    {
        Span {
            start: Pos { line: self.line, col: self.col(start) },
            end: Pos { line: self.line, col: self.col(start + len) },
        }
    }

    /// Emits the punctuation character at the cursor.
    fn consume_single_token(&mut self)
        requires
            old(self).wf(),
            old(self).pos < old(self).chars.len(),
            is_punct(old(self).chars@[old(self).pos as int]),
        ensures
            old(self).emitted(*final(self)),
    {
        let (start, c) = self.bump();
        let op = match c {
            '(' => Operator::LeftParen,
            ')' => Operator::RightParen,
            '{' => Operator::LeftBrace,
            '}' => Operator::RightBrace,
            ',' => Operator::Comma,
            ':' => Operator::Colon,
            ';' => Operator::Semicolon,
            _ => Operator::Dot,
        };
        let span = self.new_span(start, width_of(c));
        let token = Token::new(TokenKind::Operator(op), span);
        self.tokens.push(token);
        assert(views(self.tokens@) =~= views(old(self).tokens@).push(token@));
    }

    /// Emits the operator that starts at the cursor: the compound form when
    /// `=` follows the leading character, the single form otherwise.
    fn consume_double_token(&mut self)
        requires
            old(self).wf(),
            old(self).pos < old(self).chars.len(),
            is_leader(old(self).chars@[old(self).pos as int]),
        ensures
            old(self).emitted(*final(self)),
    {
        let (start, c) = self.bump();
        let len = width_of(c);
        let token = match c {
            '+' => self.check_eq_op(
                start,
                len,
                TokenKind::Operator(Operator::AddAssign),
                TokenKind::Operator(Operator::Add),
            ),
            '-' => self.check_eq_op(
                start,
                len,
                TokenKind::Operator(Operator::SubAssign),
                TokenKind::Operator(Operator::Sub),
            ),
            '*' => self.check_eq_op(
                start,
                len,
                TokenKind::Operator(Operator::MulAssign),
                TokenKind::Operator(Operator::Mul),
            ),
            '/' => self.check_eq_op(
                start,
                len,
                TokenKind::Operator(Operator::DivAssign),
                TokenKind::Operator(Operator::Div),
            ),
            '<' => self.check_eq_op(
                start,
                len,
                TokenKind::Operator(Operator::Le),
                TokenKind::Operator(Operator::Lt),
            ),
            '>' => self.check_eq_op(
                start,
                len,
                TokenKind::Operator(Operator::Ge),
                TokenKind::Operator(Operator::Gt),
            ),
            '!' => self.check_eq_op(
                start,
                len,
                TokenKind::Operator(Operator::Neq),
                TokenKind::Operator(Operator::Not),
            ),
            _ => self.check_eq_op(
                start,
                len,
                TokenKind::Operator(Operator::Eqq),
                TokenKind::Operator(Operator::Eq),
            ),
        };
        self.tokens.push(token);
        assert(views(self.tokens@) =~= views(old(self).tokens@).push(token@));
    }

    /// The token of a character that started at byte offset `start` and
    /// took `len` bytes: `double` when `expected` comes next, which is then
    /// taken too, and `single` otherwise.
    fn consume_next_char(
        &mut self,
        start: usize,
        len: usize,
        double: TokenKind,
        single: TokenKind,
        expected: char,
    ) -> (r: Token)
        requires
            old(self).wf(),
            old(self).start <= start,
            start + len == old(self).byte,
        ensures
            final(self).wf(),
            old(self).same_line(*final(self)),
            ({
                let s = old(self).chars@;
                let i = old(self).pos;
                if i < s.len() && s[i as int] == expected {
                    &&& final(self).pos == i + 1
                    &&& r == Token {
                        kind: double,
                        span: old(self).span_bytes(
                            start as nat,
                            byte_offset(s, (i + 1) as nat),
                        ),
                    }
                } else {
                    &&& final(self).pos == i
                    &&& r == Token { kind: single, span: old(self).span_bytes(start as nat, old(self).byte as nat) }
                }
            }),
    {
        if self.pos < self.chars.len() && self.chars[self.pos] == expected {
            let (_, ch) = self.bump();
            Token::new(double, self.new_span(start, len + width_of(ch)))
        } else {
            Token::new(single, self.new_span(start, len))
        }
    }

    /// [`Self::consume_next_char`] with `=` as the character that extends the operator.
    fn check_eq_op(&mut self, start: usize, len: usize, double: TokenKind, single: TokenKind) -> (r:
        Token)
        requires
            old(self).wf(),
            old(self).start <= start,
            start + len == old(self).byte,
        ensures
            final(self).wf(),
            old(self).same_line(*final(self)),
            ({
                let s = old(self).chars@;
                let i = old(self).pos;
                if i < s.len() && s[i as int] == '=' {
                    &&& final(self).pos == i + 1
                    &&& r == Token {
                        kind: double,
                        span: old(self).span_bytes(
                            start as nat,
                            byte_offset(s, (i + 1) as nat),
                        ),
                    }
                } else {
                    &&& final(self).pos == i
                    &&& r == Token { kind: single, span: old(self).span_bytes(start as nat, old(self).byte as nat) }
                }
            }),
    {
        self.consume_next_char(start, len, double, single, '=')
    }

    /// Emits an `Unknown` token for the character `c` at the cursor, which
    /// starts at byte offset `start` and belongs to no other class.
    fn consume_unknown(&mut self, start: usize, c: char)
        requires
            old(self).wf(),
            old(self).pos < old(self).chars.len(),
            old(self).chars@[old(self).pos as int] == c,
            start == old(self).byte,
            !is_punct(c) && !is_leader(c) && !is_blank(c) && c != '\n' && c != '\'',
            !is_digit(c) && !is_letter(c),
        ensures
            old(self).emitted(*final(self)),
    {
        self.bump();
        let span = self.new_span(start, width_of(c));
        let token = Token::new(TokenKind::Unknown, span);
        self.tokens.push(token);
        assert(views(self.tokens@) =~= views(old(self).tokens@).push(token@));
    }

    /// Ends a character literal whose value `c` was read at byte offset
    /// `start`: the closing quote must come next. `len` is the length of the
    /// text reported when it does not.
    fn finish(&mut self, start: usize, c: char, len: usize) -> (r: Result<Token, Error>)
        requires
            old(self).wf(),
            old(self).start <= start,
            start + len <= isize::MAX,
            start + char_width(c) <= isize::MAX,
        ensures
            final(self).wf(),
            old(self).same_line(*final(self)),
            ({
                let s = old(self).chars@;
                let i = old(self).pos;
                if i < s.len() && s[i as int] == '\'' {
                    &&& final(self).pos == i + 1
                    &&& r == Ok::<Token, Error>(
                        Token {
                            kind: TokenKind::Char(c),
                            span: old(self).span_bytes(start as nat, (start + char_width(c)) as nat),
                        },
                    )
                } else {
                    &&& final(self).pos == i
                    &&& r == Err::<Token, Error>(
                        Error::CharNotTerminated(
                            old(self).span_bytes(start as nat, (start + len) as nat),
                        ),
                    )
                }
            }),
    {
        if self.pos < self.chars.len() && self.chars[self.pos] == '\'' {
            self.bump();
            Ok(Token::new(TokenKind::Char(c), self.new_span(start, width_of(c))))
        } else {
            return Err(Error::CharNotTerminated(self.new_span(start, len)));
        }
    }

    /// Rejects a raw literal character `c`, read at byte offset `start`,
    /// that is a quote (the literal is empty) or is not ASCII.
    fn check_valid(&mut self, start: usize, c: char) -> (r: Result<(), Error>)
        requires
            old(self).start <= start,
            start + char_width(c) <= isize::MAX,
        ensures
            *final(self) == (Self { col: final(self).col, ..*old(self) }),
            r == if c == '\'' {
                Err::<(), Error>(Error::EmptyChar(old(self).span_bytes(start as nat, (start + 1) as nat)))
            } else if !is_ascii_char(c) {
                Err(Error::CharNotAscii(old(self).span_bytes(start as nat, (start + char_width(c)) as nat)))
            } else {
                Ok(())
            },
    {
        if c == '\'' {
            Err(Error::EmptyChar(self.new_span(start, width_of('\''))))
        } else if !((c as u32) < 0x80) {
            Err(Error::CharNotAscii(self.new_span(start, width_of(c))))
        } else {
            Ok(())
        }
    }

    /// Scans a literal whose value is the raw character at the cursor.
    fn scan_char(&mut self) -> (r: Result<Token, Error>)
        requires
            old(self).wf(),
            1 <= old(self).pos < old(self).chars.len(),
            old(self).chars@[old(self).pos - 1] == '\'',
            old(self).chars@[old(self).pos as int] != '\\',
        ensures
            old(self).literal_done(
                *final(self),
                r,
                literal_step(
                    old(self).chars@,
                    (old(self).pos - 1) as nat,
                    old(self).line as nat,
                    old(self).start as nat,
                ),
            ),
    {
        let (start, c) = self.bump();
        match self.check_valid(start, c) {
            Ok(()) => {},
            Err(e) => return Err(e),
        }
        self.finish(start, c, width_of(c))
    }

    /// Scans a literal whose value is the escape sequence at the cursor.
    fn scan_esc(&mut self) -> (r: Result<Token, Error>)
        requires
            old(self).wf(),
            1 <= old(self).pos < old(self).chars.len(),
            old(self).chars@[old(self).pos - 1] == '\'',
            old(self).chars@[old(self).pos as int] == '\\',
        ensures
            old(self).literal_done(
                *final(self),
                r,
                literal_step(
                    old(self).chars@,
                    (old(self).pos - 1) as nat,
                    old(self).line as nat,
                    old(self).start as nat,
                ),
            ),
    {
        let (start, _) = self.bump();
        if self.pos >= self.chars.len() {
            return Err(Error::UnexpectedEndOfInput);
        }
        let (_, c) = self.bump();
        let character = match c {
            'n' => '\n',
            'r' => '\r',
            't' => '\t',
            '\\' | '0' | '\'' | '\"' => c,
            _ => return Err(Error::InvalidEscape(self.new_span(start, 1 + width_of(c)))),
        };
        self.finish(start, character, 2)
    }

    /// Scans the character literal whose opening quote is at the cursor.
    fn consume_char(&mut self) -> (r: Result<Token, Error>)
        requires
            old(self).wf(),
            old(self).pos < old(self).chars.len(),
            old(self).chars@[old(self).pos as int] == '\'',
        ensures
            old(self).literal_done(*final(self), r, old(self).current()),
    {
        let (start, _) = self.bump();
        if self.pos < self.chars.len() {
            if self.chars[self.pos] == '\\' {
                self.scan_esc()
            } else {
                self.scan_char()
            }
        } else {
            Err(Error::CharExpected(self.new_span(start + 1, 1)))
        }
    }

    /// Emits the integer literal that starts at the cursor, at byte offset
    /// `start`: its digits and, when a `.` follows them, the `.` and the
    /// digits after it.
    fn consume_int(&mut self, start: usize)
        requires
            old(self).wf(),
            old(self).pos < old(self).chars.len(),
            is_digit(old(self).chars@[old(self).pos as int]),
            start == old(self).byte,
        ensures
            old(self).emitted(*final(self)),
    {
        let ghost s = self.chars@;
        let ghost i = self.pos as nat;
        let mut value: i32 = 0;
        while self.pos < self.chars.len() && is_digit_char(self.chars[self.pos])
            invariant
                self.wf(),
                old(self).same_line(*self),
                s == self.chars@,
                i <= self.pos,
                self.pos + digit_run(s, self.pos as nat) == i + digit_run(s, i),
                self.byte == start + (self.pos - i),
                value == int_value(s.subrange(i as int, self.pos as int)),
            decreases self.chars.len() - self.pos,
        {
            let (_, c) = self.bump();
            let digit = (c as u32 - '0' as u32) as i64;
            let next = value as i64 * 10 + digit;
            value = if next > i32::MAX as i64 {
                i32::MAX
            } else {
                next as i32
            };
            assert(s.subrange(i as int, self.pos as int).drop_last() =~= s.subrange(
                i as int,
                self.pos - 1,
            ));
        }
        let ghost d = self.pos;
        if self.pos < self.chars.len() && self.chars[self.pos] == '.' {
            self.bump();
            while self.pos < self.chars.len() && is_digit_char(self.chars[self.pos])
                invariant
                    self.wf(),
                    old(self).same_line(*self),
                    s == self.chars@,
                    d + 1 <= self.pos,
                    self.pos + digit_run(s, self.pos as nat) == d + 1 + digit_run(s, (d + 1) as nat),
                    self.byte == start + (self.pos - i),
                decreases self.chars.len() - self.pos,
            {
                self.bump();
            }
        }
        let span = self.new_span(start, self.byte - start);
        let token = Token::new(TokenKind::Int(value), span);
        self.tokens.push(token);
        assert(views(self.tokens@) =~= views(old(self).tokens@).push(token@));
    }

    /// Emits the identifier, keyword or boolean literal that starts at the
    /// cursor, at byte offset `start`.
    fn consume_id(&mut self, start: usize)
        requires
            old(self).wf(),
            old(self).pos < old(self).chars.len(),
            is_letter(old(self).chars@[old(self).pos as int]),
            start == old(self).byte,
        ensures
            old(self).emitted(*final(self)),
    {
        let ghost s = self.chars@;
        let ghost i = self.pos as nat;
        let mut lexeme = String::new();
        while self.pos < self.chars.len() && is_word_char_exec(self.chars[self.pos])
            invariant
                self.wf(),
                old(self).same_line(*self),
                s == self.chars@,
                i <= self.pos,
                self.pos + word_run(s, self.pos as nat) == i + word_run(s, i),
                self.byte == start + (self.pos - i),
                lexeme@ == s.subrange(i as int, self.pos as int),
            decreases self.chars.len() - self.pos,
        {
            let (_, c) = self.bump();
            push_char(&mut lexeme, c);
            assert(lexeme@ =~= s.subrange(i as int, self.pos as int));
        }
        let len = self.byte - start;
        let span = self.new_span(start, len);
        let kind = lookup_word(lexeme);
        let token = Token::new(kind, span);
        self.tokens.push(token);
        assert(views(self.tokens@) =~= views(old(self).tokens@).push(token@));
    }

    /// Scans the rest of the input. The result is every token of the input
    /// in source order, or the first lexical error; nothing is returned
    /// beside an error.
    pub fn scanner(&mut self) -> (r: Result<Vec<Token>, Error>)
        requires
            old(self).wf(),
        ensures
            final(self).wf(),
            final(self).source() == old(self).source(),
            match r {
                Ok(ts) => old(self).outcome() == Ok::<Seq<TokenView>, Error>(views(ts@)),
                Err(e) => old(self).outcome() == Err::<Seq<TokenView>, Error>(e),
            },
    {
        proof {
            lemma_offset_grows(self.chars@, 0, self.chars.len() as nat);
        }
        while self.pos < self.chars.len()
            invariant
                self.wf(),
                self.input == old(self).input,
                self.chars@ == old(self).chars@,
                self.outcome() == old(self).outcome(),
                self.chars.len() <= byte_offset(self.chars@, self.chars.len() as nat),
            decreases self.chars.len() - self.pos,
        {
            let ghost prev = *self;
            let start = self.byte;
            let c = self.chars[self.pos];
            match c {
                '(' | ')' | '{' | '}' | ',' | ':' | ';' | '.' => self.consume_single_token(),
                '+' | '-' | '*' | '/' | '<' | '>' | '!' | '=' => self.consume_double_token(),
                ' ' | '\r' | '\t' => {
                    self.bump();
                },
                '\n' => {
                    let (ind, _) = self.bump();
                    self.new_line(ind);
                },
                '\'' => {
                    match self.consume_char() {
                        Ok(token) => {
                            self.tokens.push(token);
                            assert(views(self.tokens@) =~= views(prev.tokens@).push(token@));
                        },
                        Err(e) => return Err(e),
                    }
                },
                _ => {
                    if is_digit_char(c) {
                        self.consume_int(start)
                    } else if is_letter_char(c) {
                        self.consume_id(start)
                    } else {
                        self.consume_unknown(start, c)
                    }
                },
            }
        }
        Ok(copy_tokens(&self.tokens))
    }
}

} // verus!
