//! The lexer as one step: from a source to all of its tokens.

use super::source::grammar::{
    lemma_lexeme_at, lemma_run_end, lexeme_at, lexemes, run_end, Class, Kind,
};
use super::source::lexer::reads_as;
use super::source::{Source, Spanned};
use vstd::prelude::*;
use vstd::utf8::encode_utf8;

pub use super::source::lexer::{Token, TokenError};

verus! {

/// Whether `items` are the tokens and errors of all the lexemes of `bytes`,
/// in their order, each with the span of its lexeme moved by `offset`.
pub open spec fn reads_all(
    items: Seq<Spanned<Result<Token<'_>, TokenError>>>,
    bytes: Seq<u8>,
    offset: nat,
) -> bool {
    let expected = lexemes(bytes, 0);
    &&& items.len() == expected.len()
    &&& forall|i: int|
        0 <= i < items.len() ==> {
            &&& (#[trigger] items[i]).spec_span() == (
                offset + expected[i].0,
                offset + expected[i].1,
            )
            &&& reads_as(
                items[i].spec_value(),
                expected[i].2,
                bytes.subrange(expected[i].0, expected[i].1),
            )
        }
}

/// Reads whole sources.
pub struct Lexer {
    _priv: (),
}

impl Lexer {
    /// A lexer.
    pub fn new() -> (lexer: Lexer) {
        Lexer { _priv: () }
    }

    /// All the tokens of `source`, errors among them, in the order of the
    /// text. The source has to be placed: the spans lie in its slice of the
    /// shared space.
    pub fn lex<'s>(&self, source: &'s Source) -> (items: Vec<
        Spanned<Result<Token<'s>, TokenError>>,
    >)
        requires
            source.placed(),
        ensures
            reads_all(items@, encode_utf8(source.text()), source.start()),
    {
        let ghost bytes = encode_utf8(source.text());
        let ghost offset = source.start();
        let mut lexer = source.lexer();
        let mut items: Vec<Spanned<Result<Token<'s>, TokenError>>> = Vec::new();
        let ghost mut seen: Seq<(int, int, Kind)> = Seq::empty();
        loop
            invariant_except_break
                lexer.bytes() == bytes,
                lexer.offset() == offset,
                0 <= lexer.position() <= bytes.len(),
                lexemes(bytes, 0) =~= seen + lexemes(bytes, lexer.position() as int),
                items@.len() == seen.len(),
                forall|i: int|
                    0 <= i < items@.len() ==> {
                        &&& (#[trigger] items@[i]).spec_span() == (
                            offset + seen[i].0,
                            offset + seen[i].1,
                        )
                        &&& reads_as(
                            items@[i].spec_value(),
                            seen[i].2,
                            bytes.subrange(seen[i].0, seen[i].1),
                        )
                    },
            ensures
                reads_all(items@, bytes, offset),
            decreases bytes.len() - lexer.position(),
        {
            let ghost at = lexer.position() as int;
            proof {
                lemma_run_end(bytes, at, Class::Blank);
            }
            match lexer.next() {
                None => {
                    assert(lexemes(bytes, at) =~= Seq::<(int, int, Kind)>::empty());
                    assert(lexemes(bytes, 0) =~= seen);
                    break ;
                },
                Some(item) => {
                    proof {
                        let start = run_end(bytes, at, Class::Blank);
                        lemma_lexeme_at(bytes, start);
                        let lexeme = lexeme_at(bytes, start);
                        let this = (start, lexeme.end, lexeme.kind);
                        assert(lexemes(bytes, at) =~= seq![this] + lexemes(bytes, lexeme.end));
                        seen = seen.push(this);
                    }
                    items.push(item);
                },
            }
        }
        items
    }
}

impl Default for Lexer {
    fn default() -> Lexer {
        Lexer::new()
    }
}

} // verus!
