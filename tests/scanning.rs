use bearbones::error::Error;
use bearbones::lexer::{lookup_word, Keyword, Lexer, Operator, Pos, Span, Token, TokenKind};
use bearbones::types::{Spanned, TypeKind};

fn scan(src: &str) -> Result<Vec<Token>, Error> {
    Lexer::new(src).scanner()
}

fn kinds(src: &str) -> Vec<TokenKind> {
    scan(src).unwrap().into_iter().map(|t| t.kind).collect()
}

fn span(line: usize, from: usize, to: usize) -> Span {
    Span { start: Pos { line, col: from }, end: Pos { line, col: to } }
}

fn op(o: Operator) -> TokenKind {
    TokenKind::Operator(o)
}

#[test]
fn punctuation_gives_one_token_per_character() {
    let got = kinds("( ) {\n} ,\t; :\r\n.");
    assert_eq!(
        got,
        vec![
            op(Operator::LeftParen),
            op(Operator::RightParen),
            op(Operator::LeftBrace),
            op(Operator::RightBrace),
            op(Operator::Comma),
            op(Operator::Semicolon),
            op(Operator::Colon),
            op(Operator::Dot),
        ]
    );
}

#[test]
fn blank_input_gives_no_tokens() {
    assert_eq!(kinds(""), vec![]);
    assert_eq!(kinds(" \t\r\n\n "), vec![]);
}

#[test]
fn main_function_with_any_spacing() {
    let expected = vec![
        TokenKind::Keyword(Keyword::Int),
        TokenKind::Id("main".into()),
        op(Operator::LeftParen),
        op(Operator::RightParen),
        op(Operator::LeftBrace),
        TokenKind::Keyword(Keyword::Return),
        TokenKind::Int(0),
        op(Operator::Semicolon),
        op(Operator::RightBrace),
    ];
    assert_eq!(kinds("int main() { return 0; }"), expected);
    assert_eq!(kinds("int main(){return 0;}"), expected);
    assert_eq!(kinds("int\tmain ( )\r\n{\n\n return   0 ;\n}\n"), expected);
}

#[test]
fn leaders_alone_and_with_equals() {
    let cases = [
        ("=", Operator::Eq, "==", Operator::Eqq),
        ("+", Operator::Add, "+=", Operator::AddAssign),
        ("-", Operator::Sub, "-=", Operator::SubAssign),
        ("*", Operator::Mul, "*=", Operator::MulAssign),
        ("/", Operator::Div, "/=", Operator::DivAssign),
        ("<", Operator::Lt, "<=", Operator::Le),
        (">", Operator::Gt, ">=", Operator::Ge),
        ("!", Operator::Not, "!=", Operator::Neq),
    ];
    for (single, single_op, double, double_op) in cases {
        assert_eq!(kinds(single), vec![op(single_op)]);
        assert_eq!(kinds(double), vec![op(double_op)]);
    }
}

#[test]
fn compound_operator_spans_both_characters() {
    let tokens = scan("a==b").unwrap();
    assert_eq!(tokens[1].kind, op(Operator::Eqq));
    assert_eq!(tokens[1].span, span(1, 1, 3));
    assert_eq!(tokens[2].span, span(1, 3, 4));
}

#[test]
fn three_equals_is_compound_then_single() {
    assert_eq!(kinds("==="), vec![op(Operator::Eqq), op(Operator::Eq)]);
    assert_eq!(kinds("= ="), vec![op(Operator::Eq), op(Operator::Eq)]);
}

#[test]
fn escapes_map_to_their_characters() {
    let cases = [
        ("'\\n'", '\n'),
        ("'\\r'", '\r'),
        ("'\\t'", '\t'),
        ("'\\\\'", '\\'),
        ("'\\0'", '0'),
        ("'\\''", '\''),
        ("'\\\"'", '"'),
    ];
    for (src, value) in cases {
        assert_eq!(kinds(src), vec![TokenKind::Char(value)]);
    }
}

#[test]
fn character_literal_spans_its_value() {
    let tokens = scan("x = 'a';").unwrap();
    assert_eq!(tokens[2].kind, TokenKind::Char('a'));
    assert_eq!(tokens[2].span, span(1, 5, 6));
    let tokens = scan("'\\n'").unwrap();
    assert_eq!(tokens[0].span, span(1, 1, 2));
}

#[test]
fn invalid_escape_spans_backslash_and_letter() {
    assert_eq!(scan("'\\q'"), Err(Error::InvalidEscape(span(1, 1, 3))));
    assert_eq!(scan("  '\\z"), Err(Error::InvalidEscape(span(1, 3, 5))));
}

#[test]
fn every_literal_error() {
    assert_eq!(scan("''"), Err(Error::EmptyChar(span(1, 1, 2))));
    assert_eq!(scan("'  '"), Err(Error::CharNotTerminated(span(1, 1, 2))));
    assert_eq!(scan("'ab'"), Err(Error::CharNotTerminated(span(1, 1, 2))));
    assert_eq!(scan("'\\n"), Err(Error::CharNotTerminated(span(1, 1, 3))));
    assert_eq!(scan("'"), Err(Error::CharExpected(span(1, 1, 2))));
    assert_eq!(scan("'\\"), Err(Error::UnexpectedEndOfInput));
    assert_eq!(scan("'é'"), Err(Error::CharNotAscii(span(1, 1, 3))));
}

#[test]
fn first_error_stops_the_scan() {
    assert_eq!(scan("int x;\n''\n'"), Err(Error::EmptyChar(span(2, 1, 2))));
}

#[test]
fn entry_function_error_is_a_distinct_variant() {
    assert_ne!(Error::MainNotFound, Error::UnexpectedEndOfInput);
}

#[test]
fn spans_of_const_declaration_are_contiguous_byte_columns() {
    let tokens = scan("const x = 5;").unwrap();
    let spans: Vec<Span> = tokens.iter().map(|t| t.span).collect();
    assert_eq!(
        spans,
        vec![span(1, 0, 5), span(1, 6, 7), span(1, 8, 9), span(1, 10, 11), span(1, 11, 12)]
    );
}

#[test]
fn newline_resets_column_and_counts_line() {
    let tokens = scan("a\n  bc\n\nd").unwrap();
    assert_eq!(tokens[0].span, span(1, 0, 1));
    assert_eq!(tokens[1].span, span(2, 2, 4));
    assert_eq!(tokens[2].span, span(4, 0, 1));
}

#[test]
fn columns_count_bytes_not_characters() {
    let tokens = scan("é x").unwrap();
    assert_eq!(tokens[0].kind, TokenKind::Unknown);
    assert_eq!(tokens[0].span, span(1, 0, 2));
    assert_eq!(tokens[1].span, span(1, 3, 4));
}

#[test]
fn scanning_twice_gives_the_same_tokens() {
    let src = "int f(char c) { if (c != 'x') { return 1; } else { return 2.5; } }";
    assert_eq!(scan(src), scan(src));
    let mut lexer = Lexer::new(src);
    let first = lexer.scanner();
    assert_eq!(first, scan(src));
}

#[test]
fn reserved_spellings_never_become_identifiers() {
    assert_eq!(kinds("true"), vec![TokenKind::Bool(true)]);
    assert_eq!(kinds("false"), vec![TokenKind::Bool(false)]);
    let words = [
        ("const", Keyword::Const),
        ("void", Keyword::Void),
        ("bool", Keyword::Bool),
        ("char", Keyword::Char),
        ("int", Keyword::Int),
        ("if", Keyword::If),
        ("else", Keyword::Else),
        ("for", Keyword::For),
        ("while", Keyword::While),
        ("do", Keyword::Do),
        ("continue", Keyword::Continue),
        ("break", Keyword::Break),
        ("return", Keyword::Return),
    ];
    for (w, k) in words {
        assert_eq!(kinds(w), vec![TokenKind::Keyword(k)]);
    }
}

#[test]
fn near_reserved_spellings_are_identifiers() {
    assert_eq!(kinds("truex"), vec![TokenKind::Id("truex".into())]);
    assert_eq!(kinds("True"), vec![TokenKind::Id("True".into())]);
    assert_eq!(kinds("if2"), vec![TokenKind::Id("if2".into())]);
    assert_eq!(kinds("in"), vec![TokenKind::Id("in".into())]);
}

#[test]
fn identifiers_take_letters_digits_and_underscores() {
    let tokens = scan("abc_9x+y").unwrap();
    assert_eq!(tokens[0].kind, TokenKind::Id("abc_9x".into()));
    assert_eq!(tokens[0].span, span(1, 0, 6));
    assert_eq!(tokens[1].kind, op(Operator::Add));
    assert_eq!(tokens[2].kind, TokenKind::Id("y".into()));
}

#[test]
fn underscore_cannot_start_an_identifier() {
    assert_eq!(kinds("_x"), vec![TokenKind::Unknown, TokenKind::Id("x".into())]);
}

#[test]
fn integers_and_fractions() {
    assert_eq!(kinds("123"), vec![TokenKind::Int(123)]);
    assert_eq!(kinds("007"), vec![TokenKind::Int(7)]);
    let tokens = scan("5.25;").unwrap();
    assert_eq!(tokens[0].kind, TokenKind::Int(5));
    assert_eq!(tokens[0].span, span(1, 0, 4));
    assert_eq!(tokens[1].kind, op(Operator::Semicolon));
    let tokens = scan("1.").unwrap();
    assert_eq!(tokens[0].kind, TokenKind::Int(1));
    assert_eq!(tokens[0].span, span(1, 0, 2));
}

#[test]
fn integers_beyond_range_saturate() {
    assert_eq!(kinds("2147483647"), vec![TokenKind::Int(i32::MAX)]);
    assert_eq!(kinds("2147483648"), vec![TokenKind::Int(i32::MAX)]);
    assert_eq!(kinds("99999999999999999999"), vec![TokenKind::Int(i32::MAX)]);
}

#[test]
fn digits_then_letters_split() {
    assert_eq!(kinds("12ab"), vec![TokenKind::Int(12), TokenKind::Id("ab".into())]);
}

#[test]
fn other_characters_are_unknown_tokens() {
    let tokens = scan("@ #").unwrap();
    assert_eq!(tokens.len(), 2);
    assert_eq!(tokens[0].kind, TokenKind::Unknown);
    assert_eq!(tokens[0].span, span(1, 0, 1));
    assert_eq!(tokens[1].span, span(1, 2, 3));
}

#[test]
fn identifier_queries() {
    let tokens = scan("name 1").unwrap();
    assert!(tokens[0].is_id());
    assert_eq!(tokens[0].id_name(), "name");
    assert!(!tokens[1].is_id());
    let t = Token::new(TokenKind::Id("v".into()), span(3, 4, 5));
    assert_eq!(t.kind, TokenKind::Id("v".into()));
    assert_eq!(t.span, span(3, 4, 5));
}

#[test]
fn word_lookup() {
    assert_eq!(lookup_word("while".to_string()), TokenKind::Keyword(Keyword::While));
    assert_eq!(lookup_word("false".to_string()), TokenKind::Bool(false));
    assert_eq!(lookup_word("whiles".to_string()), TokenKind::Id("whiles".into()));
}

#[test]
fn type_tree_holds_spans() {
    let inner = Spanned { node: TypeKind::Int, span: span(1, 0, 3) };
    let outer = Spanned { node: TypeKind::Array(Box::new(inner)), span: span(1, 0, 5) };
    assert_eq!(outer.span, span(1, 0, 5));
    assert!(matches!(outer.node, TypeKind::Array(_)));
}
