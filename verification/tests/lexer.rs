use dek::compiler::lexer::Lexer as SourceLexer;
use dek::compiler::source::lexer::{number_or_invalid, parse_number, Lexer, Token, TokenError};
use dek::compiler::source::{Source, SourceContext, SourceLoader, SourceMap};
use malachite::Rational;

/// What one item of the token stream is, in a form that can be compared.
#[derive(Debug, PartialEq)]
enum Seen {
    Assign,
    Equals,
    Plus,
    Dash,
    Star,
    Slash,
    Dot,
    LParen,
    RParen,
    LBrace,
    RBrace,
    LBracket,
    RBracket,
    Let,
    In,
    Number(Rational),
    Identifier(String),
    Unexpected,
    Invalid,
}

fn seen(value: Result<Token<'_>, TokenError>) -> Seen {
    match value {
        Ok(Token::Assign) => Seen::Assign,
        Ok(Token::Equals) => Seen::Equals,
        Ok(Token::Plus) => Seen::Plus,
        Ok(Token::Dash) => Seen::Dash,
        Ok(Token::Star) => Seen::Star,
        Ok(Token::Slash) => Seen::Slash,
        Ok(Token::Dot) => Seen::Dot,
        Ok(Token::LParen) => Seen::LParen,
        Ok(Token::RParen) => Seen::RParen,
        Ok(Token::LBrace) => Seen::LBrace,
        Ok(Token::RBrace) => Seen::RBrace,
        Ok(Token::LBracket) => Seen::LBracket,
        Ok(Token::RBracket) => Seen::RBracket,
        Ok(Token::Let) => Seen::Let,
        Ok(Token::In) => Seen::In,
        Ok(Token::Number(value)) => Seen::Number(value),
        Ok(Token::Identifier(name)) => Seen::Identifier(name.to_string()),
        Err(TokenError::UnexpectedToken) => Seen::Unexpected,
        Err(TokenError::InvalidNumber) => Seen::Invalid,
    }
}

fn drain(mut lexer: Lexer<'_>) -> Vec<(u32, u32, Seen)> {
    let mut items = Vec::new();
    while let Some(item) = lexer.next() {
        let span = item.span();
        items.push((span.lo().offset(), span.hi().offset(), seen(item.into_value())));
    }
    assert!(lexer.next().is_none());
    items
}

fn lex(text: &str) -> Vec<(u32, u32, Seen)> {
    drain(Lexer::new(0, text))
}

fn kinds(text: &str) -> Vec<Seen> {
    lex(text).into_iter().map(|(_, _, seen)| seen).collect()
}

fn whole(value: i64) -> Seen {
    Seen::Number(Rational::from(value))
}

fn ratio(numerator: i64, denominator: i64) -> Seen {
    Seen::Number(Rational::from_signeds(numerator, denominator))
}

fn word(name: &str) -> Seen {
    Seen::Identifier(name.to_string())
}

struct Texts;

impl SourceLoader for Texts {
    type Error = String;

    fn resolve(&mut self, _cx: &SourceContext, name: &str) -> Result<String, String> {
        Ok(name.to_string())
    }

    fn load(&mut self, _cx: &SourceContext, key: &str) -> Result<Source, String> {
        Ok(Source::new(key.to_string()))
    }
}

#[test]
fn empty_and_blank_texts_have_no_tokens() {
    assert!(lex("").is_empty());
    assert!(lex(" ").is_empty());
    assert!(lex(" \t\r\n\u{c} \n").is_empty());
}

#[test]
fn punctuation_is_read_one_by_one() {
    assert_eq!(
        kinds("= == + - * / . ( ) { } [ ]"),
        vec![
            Seen::Assign,
            Seen::Equals,
            Seen::Plus,
            Seen::Dash,
            Seen::Star,
            Seen::Slash,
            Seen::Dot,
            Seen::LParen,
            Seen::RParen,
            Seen::LBrace,
            Seen::RBrace,
            Seen::LBracket,
            Seen::RBracket,
        ]
    );
    assert_eq!(
        kinds("(){}[]*/."),
        vec![
            Seen::LParen,
            Seen::RParen,
            Seen::LBrace,
            Seen::RBrace,
            Seen::LBracket,
            Seen::RBracket,
            Seen::Star,
            Seen::Slash,
            Seen::Dot,
        ]
    );
}

#[test]
fn equality_is_the_longest_match() {
    assert_eq!(kinds("="), vec![Seen::Assign]);
    assert_eq!(kinds("=="), vec![Seen::Equals]);
    assert_eq!(kinds("==="), vec![Seen::Equals, Seen::Assign]);
    assert_eq!(kinds("= ="), vec![Seen::Assign, Seen::Assign]);
    assert_eq!(kinds("===="), vec![Seen::Equals, Seen::Equals]);
}

#[test]
fn keywords_are_exact_and_lower_case() {
    assert_eq!(kinds("let in"), vec![Seen::Let, Seen::In]);
    assert_eq!(kinds("LET In"), vec![word("LET"), word("In")]);
    assert_eq!(kinds("letx lets inn i l"), vec![
        word("letx"),
        word("lets"),
        word("inn"),
        word("i"),
        word("l"),
    ]);
    assert_eq!(kinds("let_ _in"), vec![word("let_"), word("_in")]);
}

#[test]
fn identifiers_are_letters_digits_and_underscores() {
    assert_eq!(kinds("x"), vec![word("x")]);
    assert_eq!(kinds("_"), vec![word("_")]);
    assert_eq!(kinds("_a1 B_2z Zz09"), vec![word("_a1"), word("B_2z"), word("Zz09")]);
    assert_eq!(kinds("a.b"), vec![word("a"), Seen::Dot, word("b")]);
    assert_eq!(kinds("a-b"), vec![word("a"), Seen::Dash, word("b")]);
}

#[test]
fn an_identifier_does_not_start_with_a_digit() {
    assert_eq!(kinds("1x"), vec![whole(1), word("x")]);
    assert_eq!(kinds("9_a"), vec![whole(9), word("a")]);
}

#[test]
fn numbers_keep_their_exact_value() {
    assert_eq!(kinds("0x1F"), vec![whole(31)]);
    assert_eq!(kinds("0b1010"), vec![whole(10)]);
    assert_eq!(kinds("0o17"), vec![whole(15)]);
    assert_eq!(kinds("1_000.5"), vec![ratio(2001, 2)]);
    assert_eq!(kinds("1e3"), vec![whole(1000)]);
    assert_eq!(kinds("0.1"), vec![ratio(1, 10)]);
    assert_eq!(kinds("0.333"), vec![ratio(333, 1000)]);
    assert_eq!(kinds("1.5e-3"), vec![ratio(3, 2000)]);
    assert_eq!(kinds("12E+2"), vec![whole(1200)]);
    assert_eq!(kinds("0"), vec![whole(0)]);
    assert_eq!(kinds("007"), vec![whole(7)]);
}

#[test]
fn prefixes_and_hex_digits_ignore_case() {
    assert_eq!(kinds("0B11"), vec![whole(3)]);
    assert_eq!(kinds("0O17"), vec![whole(15)]);
    assert_eq!(kinds("0XfF"), vec![whole(255)]);
    assert_eq!(kinds("0xabcdef"), vec![whole(0xabcdef)]);
    assert_eq!(kinds("0x1e5"), vec![whole(0x1e5)]);
}

#[test]
fn underscores_separate_digits() {
    assert_eq!(kinds("1_000_000"), vec![whole(1_000_000)]);
    assert_eq!(kinds("0b1_0_1"), vec![whole(5)]);
    assert_eq!(kinds("0xff_ff"), vec![whole(0xffff)]);
    assert_eq!(kinds("0o7_7"), vec![whole(63)]);
    assert_eq!(kinds("1_.5_"), vec![ratio(3, 2)]);
    assert_eq!(kinds("1e1_0"), vec![whole(10_000_000_000)]);
    assert_eq!(kinds("1_e2"), vec![whole(100)]);
    assert_eq!(kinds("1._"), vec![whole(1)]);
}

#[test]
fn a_sign_before_a_digit_belongs_to_the_number() {
    assert_eq!(kinds("-5"), vec![whole(-5)]);
    assert_eq!(kinds("+5"), vec![whole(5)]);
    assert_eq!(kinds("-0.5"), vec![ratio(-1, 2)]);
    assert_eq!(kinds("- 5"), vec![Seen::Dash, whole(5)]);
    assert_eq!(kinds("1+2"), vec![whole(1), whole(2)]);
    assert_eq!(kinds("1 + 2"), vec![whole(1), Seen::Plus, whole(2)]);
    assert_eq!(kinds("x-y"), vec![word("x"), Seen::Dash, word("y")]);
    assert_eq!(kinds("+0x1F"), vec![whole(0), word("x1F")]);
    assert_eq!(kinds("--1"), vec![Seen::Dash, whole(-1)]);
}

#[test]
fn an_incomplete_prefix_is_a_decimal_zero() {
    assert_eq!(kinds("0b2"), vec![whole(0), word("b2")]);
    assert_eq!(kinds("0b102"), vec![whole(2), whole(2)]);
    assert_eq!(kinds("0o8"), vec![whole(0), word("o8")]);
    assert_eq!(kinds("0xg"), vec![whole(0), word("xg")]);
    assert_eq!(kinds("0x"), vec![whole(0), word("x")]);
    assert_eq!(kinds("0b_1"), vec![whole(0), word("b_1")]);
}

#[test]
fn a_point_or_an_exponent_needs_what_follows_it() {
    assert_eq!(kinds("1."), vec![whole(1), Seen::Dot]);
    assert_eq!(kinds("1.e5"), vec![whole(1), Seen::Dot, word("e5")]);
    assert_eq!(kinds("1.x"), vec![whole(1), Seen::Dot, word("x")]);
    assert_eq!(kinds("1e"), vec![whole(1), word("e")]);
    assert_eq!(kinds("1e+"), vec![whole(1), word("e"), Seen::Plus]);
    assert_eq!(kinds("1ex"), vec![whole(1), word("ex")]);
    assert_eq!(kinds(".5"), vec![Seen::Dot, whole(5)]);
    assert_eq!(kinds("1.2.3"), vec![ratio(6, 5), Seen::Dot, whole(3)]);
}

#[test]
fn digits_without_a_value_are_an_invalid_number() {
    assert_eq!(lex("1e_"), vec![(0, 3, Seen::Invalid)]);
    assert_eq!(lex("1e+_"), vec![(0, 4, Seen::Invalid)]);
    assert_eq!(
        lex("x 2e_ y"),
        vec![(0, 1, word("x")), (2, 5, Seen::Invalid), (6, 7, word("y"))]
    );
    assert_eq!(kinds("1e99999999999999999999"), vec![Seen::Invalid]);
}

#[test]
fn spans_are_byte_ranges_of_the_lexemes() {
    assert_eq!(
        lex("let x = 0x1F + y_2"),
        vec![
            (0, 3, Seen::Let),
            (4, 5, word("x")),
            (6, 7, Seen::Assign),
            (8, 12, whole(31)),
            (13, 14, Seen::Plus),
            (15, 18, word("y_2")),
        ]
    );
    assert_eq!(
        lex("\n  a==b\t"),
        vec![(3, 4, word("a")), (4, 6, Seen::Equals), (6, 7, word("b"))]
    );
}

#[test]
fn an_unexpected_character_is_one_error_and_lexing_goes_on() {
    assert_eq!(
        lex("a # b"),
        vec![(0, 1, word("a")), (2, 3, Seen::Unexpected), (4, 5, word("b"))]
    );
    assert_eq!(
        lex("let x=1;in x"),
        vec![
            (0, 3, Seen::Let),
            (4, 5, word("x")),
            (5, 6, Seen::Assign),
            (6, 7, whole(1)),
            (7, 8, Seen::Unexpected),
            (8, 10, Seen::In),
            (11, 12, word("x")),
        ]
    );
    assert_eq!(
        lex("@@"),
        vec![(0, 1, Seen::Unexpected), (1, 2, Seen::Unexpected)]
    );
}

#[test]
fn an_unexpected_character_of_several_bytes_is_one_error() {
    assert_eq!(
        lex("a \u{e9} b"),
        vec![(0, 1, word("a")), (2, 4, Seen::Unexpected), (5, 6, word("b"))]
    );
    assert_eq!(
        lex("\u{20ac}1\u{1f600}x"),
        vec![
            (0, 3, Seen::Unexpected),
            (3, 4, whole(1)),
            (4, 8, Seen::Unexpected),
            (8, 9, word("x")),
        ]
    );
    assert_eq!(lex("\u{e9}"), vec![(0, 2, Seen::Unexpected)]);
}

#[test]
fn spans_are_moved_by_the_offset_of_the_lexer() {
    assert_eq!(
        drain(Lexer::new(100, "a b")),
        vec![(100, 101, word("a")), (102, 103, word("b"))]
    );
    assert_eq!(
        drain(Lexer::new(u32::MAX - 3, "a b")),
        vec![(u32::MAX - 3, u32::MAX - 2, word("a")), (u32::MAX - 1, u32::MAX, word("b"))]
    );
}

#[test]
fn spans_of_a_later_source_lie_behind_those_of_an_earlier_one() {
    let mut map = SourceMap::new(Texts);
    let cx = SourceContext::new();
    map.load(&cx, "ab cd").unwrap();
    map.load(&cx, "x = y").unwrap();
    let first = drain(map.get(0).unwrap().lexer());
    let second = drain(map.get(1).unwrap().lexer());
    assert_eq!(first, vec![(0, 2, word("ab")), (3, 5, word("cd"))]);
    assert_eq!(
        second,
        vec![(5, 6, word("x")), (7, 8, Seen::Assign), (9, 10, word("y"))]
    );
    for (lo_a, hi_a, _) in &first {
        for (lo_b, hi_b, _) in &second {
            assert!(hi_a <= lo_b);
            assert!(lo_a < lo_b);
            assert!(hi_a < hi_b);
        }
    }
    let start = map.get(1).unwrap().start_pos().offset();
    let local: Vec<(u32, u32)> = second.iter().map(|(lo, hi, _)| (lo - start, hi - start)).collect();
    assert_eq!(local, vec![(0, 1), (2, 3), (4, 5)]);
}

#[test]
fn parse_number_drops_underscores_and_reads_in_the_base() {
    assert_eq!(parse_number("1_0", 2).unwrap(), Rational::from(2));
    assert_eq!(parse_number("_1_000_", 10).unwrap(), Rational::from(1000));
    assert_eq!(parse_number("zz", 36).unwrap(), Rational::from(1295));
    assert_eq!(parse_number("-1.5", 10).unwrap(), Rational::from_signeds(-3, 2));
    assert_eq!(parse_number("0.1", 2).unwrap(), Rational::from_signeds(1, 2));
}

#[test]
fn parse_number_rejects_what_has_no_value() {
    assert_eq!(parse_number("", 10), Err(TokenError::InvalidNumber));
    assert_eq!(parse_number("_", 10), Err(TokenError::InvalidNumber));
    assert_eq!(parse_number("9", 8), Err(TokenError::InvalidNumber));
    assert_eq!(parse_number("2", 2), Err(TokenError::InvalidNumber));
    assert_eq!(parse_number("1e", 10), Err(TokenError::InvalidNumber));
    assert_eq!(parse_number("g", 16), Err(TokenError::InvalidNumber));
}

#[test]
fn number_or_invalid_maps_no_value_to_the_error() {
    assert_eq!(number_or_invalid(None), Err(TokenError::InvalidNumber));
    assert_eq!(
        number_or_invalid(Some(Rational::from(7))),
        Ok(Rational::from(7))
    );
}

#[test]
fn token_errors_compare_by_variant() {
    assert_eq!(TokenError::default(), TokenError::UnexpectedToken);
    assert_eq!(TokenError::InvalidNumber, TokenError::InvalidNumber);
    assert_ne!(TokenError::InvalidNumber, TokenError::UnexpectedToken);
}

#[test]
fn lex_gives_all_tokens_of_a_source_at_once() {
    let mut map = SourceMap::new(Texts);
    let cx = SourceContext::new();
    map.load(&cx, "let").unwrap();
    map.load(&cx, "f(x) = 0b11 ? 2e_").unwrap();
    let source = map.get(1).unwrap();
    let items: Vec<(u32, u32, Seen)> = SourceLexer::new()
        .lex(source)
        .into_iter()
        .map(|item| {
            let span = item.span();
            (span.lo().offset(), span.hi().offset(), seen(item.into_value()))
        })
        .collect();
    assert_eq!(
        items,
        vec![
            (3, 4, word("f")),
            (4, 5, Seen::LParen),
            (5, 6, word("x")),
            (6, 7, Seen::RParen),
            (8, 9, Seen::Assign),
            (10, 14, whole(3)),
            (15, 16, Seen::Unexpected),
            (17, 20, Seen::Invalid),
        ]
    );
    assert_eq!(items, drain(source.lexer()));
    assert!(SourceLexer::default().lex(map.get(0).unwrap()).len() == 1);
}

#[test]
fn lex_of_a_blank_source_is_empty() {
    let mut map = SourceMap::new(Texts);
    let cx = SourceContext::new();
    let source = map.load(&cx, " \n\t ").unwrap();
    assert!(SourceLexer::new().lex(source).is_empty());
}

#[test]
fn a_source_is_its_text() {
    let source = Source::new("a b".to_string());
    let text: &str = source.as_ref();
    assert_eq!(text, "a b");
}

#[test]
fn a_token_can_be_cloned() {
    let mut lexer = Lexer::new(0, "0x1F name");
    let number = lexer.next().unwrap().into_value().unwrap();
    let name = lexer.next().unwrap().into_value().unwrap();
    assert_eq!(seen(Ok(number.clone())), whole(31));
    assert_eq!(seen(Ok(number)), whole(31));
    assert_eq!(seen(Ok(name.clone())), word("name"));
}

#[test]
fn one_unexpected_character_between_two_texts_costs_one_error_only() {
    let firsts = ["", "let x = 1", "a.b ", "0x1F+", "1e", "x =", "  f(1_0.5e-2)\n"];
    let bads = ["#", "$", "?", "\u{e9}", "\u{20ac}", "\u{1f600}"];
    let seconds = ["", "in y", " == 2", "e5", ".5", "=", "_1 0b11 -3"];
    for first in firsts {
        for bad in bads {
            for second in seconds {
                let whole = format!("{}{}{}", first, bad, second);
                let at = first.len() as u32;
                let behind = at + bad.len() as u32;
                let mut expected = lex(first);
                expected.push((at, behind, Seen::Unexpected));
                for (lo, hi, seen) in lex(second) {
                    expected.push((lo + behind, hi + behind, seen));
                }
                assert_eq!(lex(&whole), expected, "{:?}", whole);
            }
        }
    }
}
