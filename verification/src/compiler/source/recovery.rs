//! Error recovery: what one unexpected character does to the lexemes of the
//! texts around it. It costs one error between them and nothing else.

use super::grammar::{
    byte_at, decimal_end, digit_follows, exponent_digits, exponent_end, fraction_end,
    is_decimal_digit, is_word_start, lemma_lexeme_at, lemma_run_end, lexeme_at, lexemes,
    prefixed, punctuation, run_end, Class, Kind, Radix, EQUAL, LOWER_E, MINUS, PLUS, POINT,
    UPPER_E,
};
use vstd::prelude::*;

verus! {

/// Whether `b` is the first byte of a character that starts no lexeme and is
/// no blank.
pub open spec fn starts_no_lexeme(b: u8) -> bool {
    &&& !Class::Blank.has(b)
    &&& !Class::Word.has(b)
    &&& !Class::Continuation.has(b)
    &&& b != EQUAL
    &&& punctuation(b).is_none()
}

/// Whether `c` is one character that starts no lexeme: its first byte does
/// not, and the bytes after it continue the character.
pub open spec fn is_unexpected_character(c: Seq<u8>) -> bool {
    &&& c.len() >= 1
    &&& starts_no_lexeme(c[0])
    &&& forall|i: int| 1 <= i < c.len() ==> Class::Continuation.has(#[trigger] c[i])
}

/// Whether a text can follow a character: it is empty, or starts with a byte
/// that continues none.
pub open spec fn starts_a_character(t: Seq<u8>) -> bool {
    t.len() == 0 || !Class::Continuation.has(t[0])
}

/// `items`, each moved `by` bytes further on.
pub open spec fn moved(items: Seq<(int, int, Kind)>, by: int) -> Seq<(int, int, Kind)> {
    Seq::new(items.len(), |i: int| (items[i].0 + by, items[i].1 + by, items[i].2))
}

/// A run inside a text ends where it ends in the text alone, if what follows
/// the text does not go on with the run.
proof fn lemma_run_end_before(a: Seq<u8>, rest: Seq<u8>, from: int, class: Class)
    requires
        0 <= from <= a.len(),
        rest.len() == 0 || !class.has(rest[0]),
    ensures
        run_end(a + rest, from, class) == run_end(a, from, class),
    decreases a.len() - from,
{
    let s = a + rest;
    if from < a.len() {
        assert(s[from] == a[from]);
        if class.has(a[from]) {
            lemma_run_end_before(a, rest, from + 1, class);
        }
    } else if rest.len() > 0 {
        assert(s[from] == rest[0]);
    }
}

/// A run behind a text ends where it ends in what follows the text alone,
/// moved by the length of the text.
proof fn lemma_run_end_behind(p: Seq<u8>, t: Seq<u8>, i: int, class: Class)
    requires
        0 <= i <= t.len(),
    ensures
        run_end(p + t, p.len() + i, class) == p.len() + run_end(t, i, class),
    decreases t.len() - i,
{
    let s = p + t;
    if i < t.len() {
        assert(s[p.len() + i] == t[i]);
        if class.has(t[i]) {
            lemma_run_end_behind(p, t, i + 1, class);
        }
    }
}

/// A byte that starts no lexeme is none of the bytes that the grammar looks
/// ahead for.
proof fn lemma_starts_no_lexeme(b: u8)
    requires
        starts_no_lexeme(b),
    ensures
        b != POINT && b != PLUS && b != MINUS && b != EQUAL && b != LOWER_E && b != UPPER_E,
        !is_decimal_digit(b) && !is_word_start(b),
        forall|radix: Radix| !(#[trigger] radix.marks(b)),
        forall|radix: Radix| !(#[trigger] radix.has_digit(b)),
        forall|radix: Radix| !(#[trigger] Class::Digits(radix).has(b)),
{
    assert(punctuation(b).is_none());
}

/// Inside a text, a byte is the byte that it is in any longer text; behind
/// it, the text alone has no byte, and a longer text has the first of what
/// follows.
proof fn lemma_byte_before(a: Seq<u8>, rest: Seq<u8>, i: int)
    requires
        0 <= i <= a.len(),
        rest.len() == 0 || starts_no_lexeme(rest[0]),
    ensures
        i < a.len() ==> byte_at(a + rest, i) == byte_at(a, i),
        i == a.len() ==> byte_at(a, i).is_none(),
        i == a.len() ==> byte_at(a + rest, i) == byte_at(rest, 0),
{
    let s = a + rest;
    if i < a.len() {
        assert(s[i] == a[i]);
    } else if rest.len() > 0 {
        assert(s[i] == rest[0]);
    }
}

/// A fraction inside a text ends where it ends in the text alone.
proof fn lemma_fraction_before(a: Seq<u8>, rest: Seq<u8>, at: int)
    requires
        0 <= at <= a.len(),
        rest.len() == 0 || starts_no_lexeme(rest[0]),
    ensures
        fraction_end(a + rest, at) == fraction_end(a, at),
        at <= fraction_end(a, at) <= a.len(),
{
    let s = a + rest;
    if rest.len() > 0 {
        lemma_starts_no_lexeme(rest[0]);
    }
    let digits = Class::Digits(Radix::Decimal);
    lemma_byte_before(a, rest, at);
    if at < a.len() {
        lemma_byte_before(a, rest, at + 1);
        if at + 1 < a.len() {
            lemma_run_end(a, at + 2, digits);
            lemma_run_end_before(a, rest, at + 2, digits);
        }
    }
}

/// An exponent inside a text ends where it ends in the text alone.
proof fn lemma_exponent_before(a: Seq<u8>, rest: Seq<u8>, at: int)
    requires
        0 <= at <= a.len(),
        rest.len() == 0 || starts_no_lexeme(rest[0]),
    ensures
        exponent_end(a + rest, at) == exponent_end(a, at),
        at <= exponent_end(a, at) <= a.len(),
{
    let s = a + rest;
    if rest.len() > 0 {
        lemma_starts_no_lexeme(rest[0]);
    }
    let digits = Class::Digits(Radix::Decimal);
    lemma_byte_before(a, rest, at);
    if at < a.len() {
        lemma_byte_before(a, rest, at + 1);
        assert(exponent_digits(s, at) == exponent_digits(a, at));
        let first = exponent_digits(a, at);
        if first <= a.len() {
            lemma_byte_before(a, rest, first);
            if first < a.len() {
                lemma_run_end(a, first + 1, digits);
                lemma_run_end_before(a, rest, first + 1, digits);
            }
        } else {
            // A sign is the last byte of the text: no digit follows it.
            assert(byte_at(a, first).is_none());
            assert(byte_at(s, at + 1) == byte_at(a, at + 1));
        }
    }
}

/// A decimal literal inside a text ends where it ends in the text alone, if
/// what follows the text starts no lexeme.
proof fn lemma_decimal_before(a: Seq<u8>, rest: Seq<u8>, at: int)
    requires
        0 <= at < a.len(),
        rest.len() == 0 || starts_no_lexeme(rest[0]),
    ensures
        decimal_end(a + rest, at) == decimal_end(a, at),
{
    let digits = Class::Digits(Radix::Decimal);
    if rest.len() > 0 {
        lemma_starts_no_lexeme(rest[0]);
    }
    lemma_run_end(a, at + 1, digits);
    lemma_run_end_before(a, rest, at + 1, digits);
    let whole = run_end(a, at + 1, digits);
    lemma_fraction_before(a, rest, whole);
    lemma_exponent_before(a, rest, fraction_end(a, whole));
}

/// A prefix of a base inside a text is one in any longer text, and none
/// other.
proof fn lemma_prefixed_before(a: Seq<u8>, rest: Seq<u8>, at: int, radix: Radix)
    requires
        0 <= at < a.len(),
        rest.len() == 0 || starts_no_lexeme(rest[0]),
    ensures
        prefixed(a + rest, at, radix) == prefixed(a, at, radix),
        prefixed(a, at, radix) ==> at + 3 <= a.len(),
{
    let s = a + rest;
    if rest.len() > 0 {
        lemma_starts_no_lexeme(rest[0]);
    }
    lemma_byte_before(a, rest, at);
    lemma_byte_before(a, rest, at + 1);
    if at + 1 < a.len() {
        lemma_byte_before(a, rest, at + 2);
    }
}

/// A lexeme inside a text is the lexeme that it is in the text alone, if what
/// follows the text starts no lexeme.
pub proof fn lemma_lexeme_before(a: Seq<u8>, rest: Seq<u8>, at: int)
    requires
        0 <= at < a.len(),
        rest.len() == 0 || starts_no_lexeme(rest[0]),
    ensures
        lexeme_at(a + rest, at) == lexeme_at(a, at),
{
    let s = a + rest;
    let b = a[at];
    assert(s[at] == b);
    if rest.len() > 0 {
        lemma_starts_no_lexeme(rest[0]);
    }
    lemma_lexeme_at(a, at);
    lemma_byte_before(a, rest, at + 1);
    if is_word_start(b) {
        lemma_run_end_before(a, rest, at + 1, Class::Word);
        let end = run_end(a, at + 1, Class::Word);
        assert(s.subrange(at, end) =~= a.subrange(at, end));
    } else if is_decimal_digit(b) {
        lemma_prefixed_before(a, rest, at, Radix::Binary);
        lemma_prefixed_before(a, rest, at, Radix::Octal);
        lemma_prefixed_before(a, rest, at, Radix::Hexadecimal);
        if prefixed(a, at, Radix::Binary) {
            lemma_run_end_before(a, rest, at + 3, Class::Digits(Radix::Binary));
        } else if prefixed(a, at, Radix::Octal) {
            lemma_run_end_before(a, rest, at + 3, Class::Digits(Radix::Octal));
        } else if prefixed(a, at, Radix::Hexadecimal) {
            lemma_run_end_before(a, rest, at + 3, Class::Digits(Radix::Hexadecimal));
        } else {
            lemma_decimal_before(a, rest, at);
        }
    } else if (b == PLUS || b == MINUS) && digit_follows(a, at) {
        lemma_decimal_before(a, rest, at + 1);
    } else if b == EQUAL {
    } else {
        match punctuation(b) {
            Some(_) => {},
            None => {
                lemma_run_end_before(a, rest, at + 1, Class::Continuation);
            },
        }
    }
}

/// Behind a text, a byte is the byte that it is in what follows the text
/// alone.
proof fn lemma_byte_behind(p: Seq<u8>, t: Seq<u8>, i: int)
    requires
        0 <= i,
    ensures
        byte_at(p + t, p.len() + i) == byte_at(t, i),
{
    let s = p + t;
    if i < t.len() {
        assert(s[p.len() + i] == t[i]);
    }
}

/// A decimal literal behind a text ends where it ends in what follows the
/// text alone, moved by the length of the text.
proof fn lemma_decimal_behind(p: Seq<u8>, t: Seq<u8>, at: int)
    requires
        0 <= at < t.len(),
    ensures
        decimal_end(p + t, p.len() + at) == p.len() + decimal_end(t, at),
{
    let s = p + t;
    let n = p.len() as int;
    let digits = Class::Digits(Radix::Decimal);
    lemma_run_end(t, at + 1, digits);
    lemma_run_end_behind(p, t, at + 1, digits);
    let whole = run_end(t, at + 1, digits);
    lemma_byte_behind(p, t, whole);
    lemma_byte_behind(p, t, whole + 1);
    if whole + 2 <= t.len() {
        lemma_run_end(t, whole + 2, digits);
        lemma_run_end_behind(p, t, whole + 2, digits);
    }
    assert(fraction_end(s, n + whole) == n + fraction_end(t, whole));
    let fraction = fraction_end(t, whole);
    lemma_byte_behind(p, t, fraction);
    lemma_byte_behind(p, t, fraction + 1);
    lemma_byte_behind(p, t, fraction + 2);
    assert(exponent_digits(s, n + fraction) == n + exponent_digits(t, fraction));
    let first = exponent_digits(t, fraction);
    if first + 1 <= t.len() {
        lemma_run_end(t, first + 1, digits);
        lemma_run_end_behind(p, t, first + 1, digits);
    }
    assert(exponent_end(s, n + fraction) == n + exponent_end(t, fraction));
}

/// A lexeme behind a text is the lexeme that it is in what follows the text
/// alone, moved by the length of the text.
pub proof fn lemma_lexeme_behind(p: Seq<u8>, t: Seq<u8>, at: int)
    requires
        0 <= at < t.len(),
    ensures
        lexeme_at(p + t, p.len() + at).kind == lexeme_at(t, at).kind,
        lexeme_at(p + t, p.len() + at).end == p.len() + lexeme_at(t, at).end,
{
    let s = p + t;
    let n = p.len() as int;
    let b = t[at];
    assert(s[n + at] == b);
    lemma_lexeme_at(t, at);
    lemma_byte_behind(p, t, at);
    lemma_byte_behind(p, t, at + 1);
    lemma_byte_behind(p, t, at + 2);
    if is_word_start(b) {
        lemma_run_end_behind(p, t, at + 1, Class::Word);
        let end = run_end(t, at + 1, Class::Word);
        assert(s.subrange(n + at, n + end) =~= t.subrange(at, end));
    } else if is_decimal_digit(b) {
        assert(forall|radix: Radix| prefixed(s, n + at, radix) == prefixed(t, at, radix));
        if prefixed(t, at, Radix::Binary) {
            lemma_run_end_behind(p, t, at + 3, Class::Digits(Radix::Binary));
        } else if prefixed(t, at, Radix::Octal) {
            lemma_run_end_behind(p, t, at + 3, Class::Digits(Radix::Octal));
        } else if prefixed(t, at, Radix::Hexadecimal) {
            lemma_run_end_behind(p, t, at + 3, Class::Digits(Radix::Hexadecimal));
        } else {
            lemma_decimal_behind(p, t, at);
        }
    } else if (b == PLUS || b == MINUS) && digit_follows(t, at) {
        lemma_decimal_behind(p, t, at + 1);
    } else if b == EQUAL {
    } else {
        match punctuation(b) {
            Some(_) => {},
            None => {
                lemma_run_end_behind(p, t, at + 1, Class::Continuation);
            },
        }
    }
}

/// The lexemes inside a text are its lexemes in the text alone, and those of
/// what follows come after them, if what follows starts no lexeme.
pub proof fn lemma_lexemes_before(a: Seq<u8>, rest: Seq<u8>, from: int)
    requires
        0 <= from <= a.len(),
        rest.len() == 0 || starts_no_lexeme(rest[0]),
    ensures
        lexemes(a + rest, from) == lexemes(a, from) + lexemes(a + rest, a.len() as int),
    decreases a.len() - from,
{
    let s = a + rest;
    let n = a.len() as int;
    lemma_run_end(a, from, Class::Blank);
    lemma_run_end_before(a, rest, from, Class::Blank);
    lemma_run_end_before(a, rest, n, Class::Blank);
    let start = run_end(a, from, Class::Blank);
    if start < n {
        lemma_lexeme_at(a, start);
        lemma_lexeme_before(a, rest, start);
        let lexeme = lexeme_at(a, start);
        lemma_lexemes_before(a, rest, lexeme.end);
        let this = seq![(start, lexeme.end, lexeme.kind)];
        assert(lexemes(s, from) == this + lexemes(s, lexeme.end));
        assert(lexemes(a, from) == this + lexemes(a, lexeme.end));
        assert(this + (lexemes(a, lexeme.end) + lexemes(s, n)) =~= (this + lexemes(a, lexeme.end))
            + lexemes(s, n));
    } else {
        assert(lexemes(a, from) =~= Seq::<(int, int, Kind)>::empty());
        assert(run_end(s, n, Class::Blank) == n);
        assert(lexemes(s, from) =~= lexemes(s, n));
    }
}

/// The lexemes behind a text are the lexemes of what follows the text alone,
/// moved by the length of the text.
pub proof fn lemma_lexemes_behind(p: Seq<u8>, t: Seq<u8>, from: int)
    requires
        0 <= from <= t.len(),
    ensures
        lexemes(p + t, p.len() + from) == moved(lexemes(t, from), p.len() as int),
    decreases t.len() - from,
{
    let s = p + t;
    let n = p.len() as int;
    lemma_run_end(t, from, Class::Blank);
    lemma_run_end_behind(p, t, from, Class::Blank);
    let start = run_end(t, from, Class::Blank);
    if start < t.len() {
        lemma_lexeme_at(t, start);
        lemma_lexeme_behind(p, t, start);
        let lexeme = lexeme_at(t, start);
        lemma_lexemes_behind(p, t, lexeme.end);
        let this = seq![(start, lexeme.end, lexeme.kind)];
        assert(lexemes(t, from) == this + lexemes(t, lexeme.end));
        assert(lexemes(s, n + from) == seq![(n + start, n + lexeme.end, lexeme.kind)] + lexemes(
            s,
            n + lexeme.end,
        ));
        assert(lexemes(s, n + from) =~= moved(lexemes(t, from), n));
    } else {
        assert(lexemes(t, from) =~= Seq::<(int, int, Kind)>::empty());
        assert(lexemes(s, n + from) =~= Seq::<(int, int, Kind)>::empty());
    }
}

/// A run of bytes that are all of one class ends where the text ends.
proof fn lemma_run_to_the_end(s: Seq<u8>, from: int, class: Class)
    requires
        0 <= from <= s.len(),
        forall|i: int| from <= i < s.len() ==> class.has(#[trigger] s[i]),
    ensures
        run_end(s, from, class) == s.len(),
    decreases s.len() - from,
{
    if from < s.len() {
        lemma_run_to_the_end(s, from + 1, class);
    }
}

/// Every lexeme of a text lies inside the text, behind the place from which
/// the text was read, and has at least one byte.
pub proof fn lemma_lexemes_within(s: Seq<u8>, from: int, i: int)
    requires
        0 <= from,
        0 <= i < lexemes(s, from).len(),
    ensures
        from <= lexemes(s, from)[i].0 < lexemes(s, from)[i].1 <= s.len(),
    decreases s.len() - from,
{
    let start = run_end(s, from, Class::Blank);
    let lexeme = lexeme_at(s, start);
    if i > 0 {
        assert(lexemes(s, from)[i] == lexemes(s, lexeme.end)[i - 1]);
        lemma_lexemes_within(s, lexeme.end, i - 1);
    }
}

/// Behind a text, an unexpected character is one lexeme, and reading goes on
/// behind it.
proof fn lemma_unexpected_behind(a: Seq<u8>, c: Seq<u8>, b: Seq<u8>)
    requires
        is_unexpected_character(c),
        starts_a_character(b),
    ensures
        lexemes(a + (c + b), a.len() as int) == seq![
            (a.len() as int, (a.len() + c.len()) as int, Kind::Unexpected),
        ] + lexemes(a + (c + b), (a.len() + c.len()) as int),
{
    let rest = c + b;
    let s = a + rest;
    let n = a.len() as int;
    assert(rest[0] == c[0]);
    assert(s[n] == c[0]);
    assert(run_end(s, n, Class::Blank) == n);
    assert(lexeme_at(rest, 0).kind == Kind::Unexpected && lexeme_at(rest, 0).end == c.len()) by {
        lemma_starts_no_lexeme(c[0]);
        lemma_run_end_before(c, b, 1, Class::Continuation);
        lemma_run_to_the_end(c, 1, Class::Continuation);
    }
    lemma_lexeme_behind(a, rest, 0);
}

/// The bytes of a lexeme of a text are its bytes in any longer text.
proof fn lemma_bytes_before(a: Seq<u8>, rest: Seq<u8>, i: int)
    requires
        0 <= i < lexemes(a, 0).len(),
    ensures
        (a + rest).subrange(lexemes(a, 0)[i].0, lexemes(a, 0)[i].1) == a.subrange(
            lexemes(a, 0)[i].0,
            lexemes(a, 0)[i].1,
        ),
{
    lemma_lexemes_within(a, 0, i);
    let lo = lexemes(a, 0)[i].0;
    let hi = lexemes(a, 0)[i].1;
    assert((a + rest).subrange(lo, hi) =~= a.subrange(lo, hi));
}

/// The bytes of a lexeme of a text are its bytes behind any other text,
/// moved by the length of that text.
proof fn lemma_bytes_behind(p: Seq<u8>, t: Seq<u8>, i: int)
    requires
        0 <= i < lexemes(t, 0).len(),
    ensures
        (p + t).subrange(p.len() + lexemes(t, 0)[i].0, p.len() + lexemes(t, 0)[i].1) == t.subrange(
            lexemes(t, 0)[i].0,
            lexemes(t, 0)[i].1,
        ),
{
    lemma_lexemes_within(t, 0, i);
    let lo = lexemes(t, 0)[i].0;
    let hi = lexemes(t, 0)[i].1;
    assert((p + t).subrange(p.len() + lo, p.len() + hi) =~= t.subrange(lo, hi));
}

/// Error recovery. One unexpected character between two texts costs one
/// error and nothing else. The lexemes of the whole are the lexemes of the
/// first text, then one unexpected character at its own span, then the
/// lexemes of the second text, moved behind it; and each lexeme of the two
/// texts is made of the bytes that it was made of, so it reads as the token
/// that it was. No token is lost or altered, and lexing goes on behind the
/// error.
pub proof fn lemma_one_error_between(a: Seq<u8>, c: Seq<u8>, b: Seq<u8>)
    requires
        is_unexpected_character(c),
        starts_a_character(b),
    ensures
        lexemes(a + c + b, 0) == lexemes(a, 0) + seq![
            (a.len() as int, (a.len() + c.len()) as int, Kind::Unexpected),
        ] + moved(lexemes(b, 0), (a.len() + c.len()) as int),
        forall|i: int|
            0 <= i < lexemes(a, 0).len() ==> (a + c + b).subrange(
                (#[trigger] lexemes(a, 0)[i]).0,
                lexemes(a, 0)[i].1,
            ) == a.subrange(lexemes(a, 0)[i].0, lexemes(a, 0)[i].1),
        forall|i: int|
            0 <= i < lexemes(b, 0).len() ==> (a + c + b).subrange(
                a.len() + c.len() + (#[trigger] lexemes(b, 0)[i]).0,
                a.len() + c.len() + lexemes(b, 0)[i].1,
            ) == b.subrange(lexemes(b, 0)[i].0, lexemes(b, 0)[i].1),
{
    let s = a + c + b;
    let rest = c + b;
    let m = (a.len() + c.len()) as int;
    assert(s =~= a + rest);
    assert(rest[0] == c[0]);
    lemma_lexemes_before(a, rest, 0);
    lemma_unexpected_behind(a, c, b);
    lemma_lexemes_behind(a + c, b, 0);
    assert forall|i: int| 0 <= i < lexemes(a, 0).len() implies s.subrange(
        (#[trigger] lexemes(a, 0)[i]).0,
        lexemes(a, 0)[i].1,
    ) == a.subrange(lexemes(a, 0)[i].0, lexemes(a, 0)[i].1) by {
        lemma_bytes_before(a, rest, i);
    }
    assert forall|i: int| 0 <= i < lexemes(b, 0).len() implies s.subrange(
        m + (#[trigger] lexemes(b, 0)[i]).0,
        m + lexemes(b, 0)[i].1,
    ) == b.subrange(lexemes(b, 0)[i].0, lexemes(b, 0)[i].1) by {
        lemma_bytes_behind(a + c, b, i);
    }
}

} // verus!
