//! Tokens, and the lexer that reads them from the text of a source.

use super::grammar::{
    digits_of, lemma_lexeme_at, lemma_run_end, lexeme_at, run_end, scan, scan_run, Class, Kind,
    Radix,
};
use super::text::{ascii_text, is_ascii_bytes, slice_ascii};
use super::{byte_len, Span, Spanned, MAX_OFFSET};
use malachite::num::conversion::string::options::FromSciStringOptions;
use malachite::num::conversion::traits::FromSciString;
use malachite::Rational;
use vstd::prelude::*;
use vstd::string::StringSliceAdditionalSpecFns;

verus! {

/// A lexeme of the language, with what it carries.
#[derive(Debug, Clone)]
pub enum Token<'s> {
    /// `=`
    Assign,
    /// `==`
    Equals,
    /// `+`
    Plus,
    /// `-`
    Dash,
    /// `*`
    Star,
    /// `/`
    Slash,
    /// `.`
    Dot,
    /// `(`
    LParen,
    /// `)`
    RParen,
    /// `{`
    LBrace,
    /// `}`
    RBrace,
    /// `[`
    LBracket,
    /// `]`
    RBracket,
    /// `let`
    Let,
    /// `in`
    In,
    /// A numeric literal, with its exact value.
    Number(Rational),
    /// A word that is no keyword, as it is spelled in the source.
    Identifier(&'s str),
}

/// Why a piece of text is no token.
#[derive(Debug, Clone, Copy, PartialEq, Eq, Structural)]
pub enum TokenError {
    /// No lexeme starts with this character.
    UnexpectedToken,
    /// The text has the shape of a numeric literal and no value.
    InvalidNumber,
}

impl Default for TokenError {
    fn default() -> (error: TokenError)
        ensures
            error == TokenError::UnexpectedToken,
    {
        TokenError::UnexpectedToken
    }
}

/// `Rational` of `malachite`: an exact rational number, carried as it is.
#[verifier::external_type_specification]
#[verifier::external_body]
pub struct ExRational(Rational);

/// `Rational::clone` from `malachite`, which the crate derives: the clone is
/// the number that was cloned.
pub assume_specification[ <Rational as Clone>::clone ](number: &Rational) -> (cloned: Rational)
    ensures
        cloned == *number,
;

/// The value that `Rational::from_sci_string_with_options` of `malachite`
/// reads from `digits` in base `base`, or `None` where it reads none.
pub uninterp spec fn parsed_rational(digits: Seq<char>, base: u8) -> Option<Rational>;

/// `Rational::from_sci_string_with_options` from `malachite`, with options
/// that are the default but for the base. What it returns depends on `digits`
/// and `base` alone. It takes `base` from 2 to 36. Its time and memory grow
/// with the size of the exponent that `digits` holds: a literal with a very
/// large exponent asks for a number that the machine cannot hold.
#[verifier::external_body]
fn rational_from_sci(digits: &str, base: u8) -> (value: Option<Rational>)
    requires
        2 <= base <= 36,
    ensures
        value == parsed_rational(digits@, base),
{
    let mut options = FromSciStringOptions::default();
    options.set_base(base);
    Rational::from_sci_string_with_options(digits, options)
}

/// `text` without its underscores.
pub open spec fn stripped(text: Seq<char>) -> Seq<char> {
    text.filter(|c: char| c != '_')
}

/// `text` with `with` in the place of each `from`.
pub open spec fn replaced(text: Seq<char>, from: char, with: Seq<char>) -> Seq<char>
    decreases text.len(),
{
    if text.len() == 0 {
        text
    } else {
        replaced(text.drop_last(), from, with) + if text.last() == from {
            with
        } else {
            seq![text.last()]
        }
    }
}

/// `str::replace` of std, with a character as the pattern: every `from` of
/// the text gives way to `with`, and the other characters stay, in their
/// order.
#[verifier::external_body]
fn replace_char(text: &str, from: char, with: &str) -> (out: String)
    ensures
        out@ == replaced(text@, from, with@),
{
    text.replace(from, with)
}

/// To put nothing in the place of each underscore is to strip them.
pub proof fn lemma_stripped(text: Seq<char>)
    ensures
        replaced(text, '_', Seq::<char>::empty()) == stripped(text),
    decreases text.len(),
{
    reveal(Seq::filter);
    if text.len() > 0 {
        lemma_stripped(text.drop_last());
        assert(replaced(text, '_', Seq::<char>::empty()) =~= stripped(text));
    }
}

/// What a numeric literal is worth, given what its digits were read as: the
/// value, or [`TokenError::InvalidNumber`] where none was read.
pub open spec fn number_value(parsed: Option<Rational>) -> Result<Rational, TokenError> {
    match parsed {
        Some(value) => Ok(value),
        None => Err(TokenError::InvalidNumber),
    }
}

/// What a numeric literal is worth, given what its digits were read as.
pub fn number_or_invalid(parsed: Option<Rational>) -> (value: Result<Rational, TokenError>)
    ensures
        value == number_value(parsed),
{
    match parsed {
        Some(value) => Ok(value),
        None => Err(TokenError::InvalidNumber),
    }
}

/// Reads the digits of a numeric literal in base `base`: the underscores are
/// dropped, and what is left is read as an exact rational number.
pub fn parse_number(number: &str, base: u8) -> (value: Result<Rational, TokenError>)
    requires
        2 <= base <= 36,
    ensures
        value == number_value(parsed_rational(stripped(number@), base)),
{
    let bare = replace_char(number, '_', "");
    proof {
        reveal_strlit("");
        assert(""@ =~= Seq::<char>::empty());
        lemma_stripped(number@);
    }
    number_or_invalid(rational_from_sci(bare.as_str(), base))
}

/// Whether `value` is what the lexeme `lexeme` of kind `kind` reads as.
pub open spec fn reads_as(
    value: Result<Token<'_>, TokenError>,
    kind: Kind,
    lexeme: Seq<u8>,
) -> bool {
    match kind {
        Kind::Assign => value matches Ok(Token::Assign),
        Kind::Equals => value matches Ok(Token::Equals),
        Kind::Plus => value matches Ok(Token::Plus),
        Kind::Dash => value matches Ok(Token::Dash),
        Kind::Star => value matches Ok(Token::Star),
        Kind::Slash => value matches Ok(Token::Slash),
        Kind::Dot => value matches Ok(Token::Dot),
        Kind::LParen => value matches Ok(Token::LParen),
        Kind::RParen => value matches Ok(Token::RParen),
        Kind::LBrace => value matches Ok(Token::LBrace),
        Kind::RBrace => value matches Ok(Token::RBrace),
        Kind::LBracket => value matches Ok(Token::LBracket),
        Kind::RBracket => value matches Ok(Token::RBracket),
        Kind::Let => value matches Ok(Token::Let),
        Kind::In => value matches Ok(Token::In),
        Kind::Word => value matches Ok(Token::Identifier(name)) && name@ == ascii_text(lexeme),
        Kind::Number(radix) => match number_value(
            parsed_rational(stripped(ascii_text(digits_of(lexeme, radix))), radix.base()),
        ) {
            Ok(number) => value matches Ok(Token::Number(n)) && n == number,
            Err(error) => value matches Err(e) && e == error,
        },
        Kind::Unexpected => value matches Err(TokenError::UnexpectedToken),
    }
}

/// Reads tokens from the text of one source, from left to right. Every span
/// that it gives is moved by the offset at which the source starts.
pub struct Lexer<'s> {
    span_offset: u32,
    source: &'s str,
    position: usize,
}

impl<'s> Lexer<'s> {
    #[verifier::type_invariant]
    spec fn inv(self) -> bool {
        &&& self.position <= self.source.spec_bytes().len()
        &&& self.span_offset + self.source.spec_bytes().len() <= MAX_OFFSET
    }

    /// The offset by which the spans are moved.
    pub closed spec fn offset(&self) -> nat {
        self.span_offset as nat
    }

    /// The bytes of the text that is read.
    pub closed spec fn bytes(&self) -> Seq<u8> {
        self.source.spec_bytes()
    }

    /// How many bytes of the text have been read.
    pub closed spec fn position(&self) -> nat {
        self.position as nat
    }

    /// A lexer at the start of `source`, whose spans are moved by
    /// `span_offset`. The moved text has to lie inside the shared space.
    pub fn new(span_offset: u32, source: &'s str) -> (lexer: Lexer<'s>)
        requires
            span_offset + byte_len(source@) <= MAX_OFFSET,
        ensures
            lexer.offset() == span_offset,
            lexer.bytes() == source.spec_bytes(),
            lexer.position() == 0,
    {
        Lexer { span_offset, source, position: 0 }
    }

    /// Reads the next token, or the next error, with its span.
    ///
    /// Blanks before it are skipped. Where only blanks are left, the result
    /// is `None` and the lexer stands at the end of the text. Otherwise the
    /// lexeme that starts at the first byte that is not blank is read, the
    /// lexer stands at its end, and the span is that of the lexeme, moved by
    /// the offset. An error takes the place of its lexeme only: the next call
    /// reads on behind it.
    pub fn next(&mut self) -> (item: Option<Spanned<Result<Token<'s>, TokenError>>>)
        ensures
            final(self).offset() == old(self).offset(),
            final(self).bytes() == old(self).bytes(),
            old(self).position() <= final(self).position() <= old(self).bytes().len(),
            old(self).offset() + old(self).bytes().len() <= MAX_OFFSET,
            ({
                let bytes = old(self).bytes();
                let start = run_end(bytes, old(self).position() as int, Class::Blank);
                if start >= bytes.len() {
                    item.is_none() && final(self).position() == bytes.len()
                } else {
                    let lexeme = lexeme_at(bytes, start);
                    &&& start < lexeme.end <= bytes.len()
                    &&& final(self).position() == lexeme.end
                    &&& item matches Some(read)
                    &&& read.spec_span() == (
                        old(self).offset() + start,
                        old(self).offset() + lexeme.end,
                    )
                    &&& reads_as(read.spec_value(), lexeme.kind, bytes.subrange(start, lexeme.end))
                }
            }),
    {
        proof {
            use_type_invariant(&*self);
        }
        let source: &'s str = self.source;
        let bytes = source.as_bytes();
        let start = scan_run(bytes, self.position, Class::Blank);
        proof {
            lemma_run_end(bytes@, self.position as int, Class::Blank);
        }
        if start >= bytes.len() {
            self.position = start;
            return None;
        }
        let (kind, end) = scan(bytes, start);
        proof {
            lemma_lexeme_at(bytes@, start as int);
        }
        self.position = end;
        let ghost lexeme = bytes@.subrange(start as int, end as int);
        let value = match kind {
            Kind::Assign => Ok(Token::Assign),
            Kind::Equals => Ok(Token::Equals),
            Kind::Plus => Ok(Token::Plus),
            Kind::Dash => Ok(Token::Dash),
            Kind::Star => Ok(Token::Star),
            Kind::Slash => Ok(Token::Slash),
            Kind::Dot => Ok(Token::Dot),
            Kind::LParen => Ok(Token::LParen),
            Kind::RParen => Ok(Token::RParen),
            Kind::LBrace => Ok(Token::LBrace),
            Kind::RBrace => Ok(Token::RBrace),
            Kind::LBracket => Ok(Token::LBracket),
            Kind::RBracket => Ok(Token::RBracket),
            Kind::Let => Ok(Token::Let),
            Kind::In => Ok(Token::In),
            Kind::Word => {
                assert(is_ascii_bytes(lexeme));
                Ok(Token::Identifier(slice_ascii(source, start, end)))
            },
            Kind::Number(radix) => {
                let first = match radix {
                    Radix::Decimal => start,
                    _ => start + 2,
                };
                proof {
                    let digits = bytes@.subrange(first as int, end as int);
                    assert(digits == digits_of(lexeme, radix));
                    assert forall|i: int| 0 <= i < digits.len() implies #[trigger] digits[i]
                        < 0x80 by {
                        assert(digits[i] == bytes@[first + i]);
                    }
                }
                match parse_number(slice_ascii(source, first, end), radix.number()) {
                    Ok(number) => Ok(Token::Number(number)),
                    Err(error) => Err(error),
                }
            },
            Kind::Unexpected => Err(TokenError::UnexpectedToken),
        };
        let span = Span::between(self.span_offset + start as u32, self.span_offset + end as u32);
        Some(Spanned::new(value, span))
    }
}

} // verus!
