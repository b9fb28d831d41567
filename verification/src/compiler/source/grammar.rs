//! The lexical grammar: which run of bytes, at a position of a text, is one
//! lexeme, and of what kind. Each lexeme is the longest that any rule allows.

use vstd::prelude::*;

verus! {

// The ASCII bytes that the grammar names.
pub const TAB: u8 = 0x09;
pub const LF: u8 = 0x0a;
pub const FORM_FEED: u8 = 0x0c;
pub const CR: u8 = 0x0d;
pub const SPACE: u8 = 0x20;
pub const L_PAREN: u8 = 0x28;
pub const R_PAREN: u8 = 0x29;
pub const STAR: u8 = 0x2a;
pub const PLUS: u8 = 0x2b;
pub const MINUS: u8 = 0x2d;
pub const POINT: u8 = 0x2e;
pub const SLASH: u8 = 0x2f;
pub const DIGIT_0: u8 = 0x30;
pub const DIGIT_1: u8 = 0x31;
pub const DIGIT_7: u8 = 0x37;
pub const DIGIT_9: u8 = 0x39;
pub const EQUAL: u8 = 0x3d;
pub const UPPER_A: u8 = 0x41;
pub const UPPER_B: u8 = 0x42;
pub const UPPER_E: u8 = 0x45;
pub const UPPER_F: u8 = 0x46;
pub const UPPER_O: u8 = 0x4f;
pub const UPPER_X: u8 = 0x58;
pub const UPPER_Z: u8 = 0x5a;
pub const L_BRACKET: u8 = 0x5b;
pub const R_BRACKET: u8 = 0x5d;
pub const UNDERSCORE: u8 = 0x5f;
pub const LOWER_A: u8 = 0x61;
pub const LOWER_B: u8 = 0x62;
pub const LOWER_E: u8 = 0x65;
pub const LOWER_F: u8 = 0x66;
pub const LOWER_I: u8 = 0x69;
pub const LOWER_L: u8 = 0x6c;
pub const LOWER_N: u8 = 0x6e;
pub const LOWER_O: u8 = 0x6f;
pub const LOWER_T: u8 = 0x74;
pub const LOWER_X: u8 = 0x78;
pub const LOWER_Z: u8 = 0x7a;
pub const L_BRACE: u8 = 0x7b;
pub const R_BRACE: u8 = 0x7d;

/// The base of a numeric literal.
#[derive(Debug, Clone, Copy, PartialEq, Eq, Structural)]
pub enum Radix {
    /// `0b`, digits `0` and `1`.
    Binary,
    /// `0o`, digits `0` to `7`.
    Octal,
    /// No prefix, digits `0` to `9`.
    Decimal,
    /// `0x`, digits `0` to `9` and `a` to `f` in either case.
    Hexadecimal,
}

/// Whether `b` is one of `0` to `9`.
pub open spec fn is_decimal_digit(b: u8) -> bool {
    DIGIT_0 <= b <= DIGIT_9
}

/// Whether `b` is an ASCII letter or the underscore: what a word starts with.
pub open spec fn is_word_start(b: u8) -> bool {
    LOWER_A <= b <= LOWER_Z || UPPER_A <= b <= UPPER_Z || b == UNDERSCORE
}

impl Radix {
    /// The base as a number.
    pub open spec fn base(self) -> u8 {
        match self {
            Radix::Binary => 2,
            Radix::Octal => 8,
            Radix::Decimal => 10,
            Radix::Hexadecimal => 16,
        }
    }

    /// Whether `b` is a digit of this base.
    pub open spec fn has_digit(self, b: u8) -> bool {
        match self {
            Radix::Binary => b == DIGIT_0 || b == DIGIT_1,
            Radix::Octal => DIGIT_0 <= b <= DIGIT_7,
            Radix::Decimal => is_decimal_digit(b),
            Radix::Hexadecimal => is_decimal_digit(b) || LOWER_A <= b <= LOWER_F || UPPER_A <= b
                <= UPPER_F,
        }
    }

    /// Whether `b` is the letter that follows `0` in the prefix of this base.
    /// The decimal base has no prefix.
    pub open spec fn marks(self, b: u8) -> bool {
        match self {
            Radix::Binary => b == LOWER_B || b == UPPER_B,
            Radix::Octal => b == LOWER_O || b == UPPER_O,
            Radix::Decimal => false,
            Radix::Hexadecimal => b == LOWER_X || b == UPPER_X,
        }
    }

    /// The base as a number.
    pub fn number(self) -> (base: u8)
        ensures
            base == self.base(),
            2 <= base <= 36,
    {
        match self {
            Radix::Binary => 2,
            Radix::Octal => 8,
            Radix::Decimal => 10,
            Radix::Hexadecimal => 16,
        }
    }

    /// Whether `b` is a digit of this base.
    pub fn is_digit(self, b: u8) -> (r: bool)
        ensures
            r == self.has_digit(b),
    {
        match self {
            Radix::Binary => b == DIGIT_0 || b == DIGIT_1,
            Radix::Octal => DIGIT_0 <= b && b <= DIGIT_7,
            Radix::Decimal => DIGIT_0 <= b && b <= DIGIT_9,
            Radix::Hexadecimal => (DIGIT_0 <= b && b <= DIGIT_9) || (LOWER_A <= b && b <= LOWER_F)
                || (UPPER_A <= b && b <= UPPER_F),
        }
    }

    /// Whether `b` is the letter of the prefix of this base.
    pub fn is_mark(self, b: u8) -> (r: bool)
        ensures
            r == self.marks(b),
    {
        match self {
            Radix::Binary => b == LOWER_B || b == UPPER_B,
            Radix::Octal => b == LOWER_O || b == UPPER_O,
            Radix::Decimal => false,
            Radix::Hexadecimal => b == LOWER_X || b == UPPER_X,
        }
    }
}

/// A set of bytes that a run is made of.
#[derive(Debug, Clone, Copy)]
pub enum Class {
    /// Space, tab, carriage return, line feed and form feed.
    Blank,
    /// ASCII letters, digits and the underscore.
    Word,
    /// The digits of a base, and the underscore that may separate them.
    Digits(Radix),
    /// The bytes that continue a character of more than one byte.
    Continuation,
}

impl Class {
    /// Whether `b` belongs to the class.
    pub open spec fn has(self, b: u8) -> bool {
        match self {
            Class::Blank => b == SPACE || b == TAB || b == CR || b == LF || b == FORM_FEED,
            Class::Word => is_word_start(b) || is_decimal_digit(b),
            Class::Digits(radix) => radix.has_digit(b) || b == UNDERSCORE,
            Class::Continuation => 0x80 <= b <= 0xbf,
        }
    }

    /// Whether `b` belongs to the class.
    pub fn holds(self, b: u8) -> (r: bool)
        ensures
            r == self.has(b),
    {
        match self {
            Class::Blank => b == SPACE || b == TAB || b == CR || b == LF || b == FORM_FEED,
            Class::Word => (LOWER_A <= b && b <= LOWER_Z) || (UPPER_A <= b && b <= UPPER_Z) || b
                == UNDERSCORE || (DIGIT_0 <= b && b <= DIGIT_9),
            Class::Digits(radix) => radix.is_digit(b) || b == UNDERSCORE,
            Class::Continuation => 0x80 <= b && b <= 0xbf,
        }
    }
}

/// The end of the longest run of bytes of `class` that starts at `from`.
pub open spec fn run_end(s: Seq<u8>, from: int, class: Class) -> int
    decreases s.len() - from,
{
    if 0 <= from < s.len() && class.has(s[from]) {
        run_end(s, from + 1, class)
    } else {
        from
    }
}

/// The byte at `i`, if the text is that long.
pub open spec fn byte_at(s: Seq<u8>, i: int) -> Option<u8> {
    if 0 <= i < s.len() {
        Some(s[i])
    } else {
        None
    }
}

/// What a lexeme is.
#[derive(Debug, Clone, Copy, PartialEq, Eq, Structural)]
pub enum Kind {
    /// `=`
    Assign,
    /// `==`
    Equals,
    /// `+`
    Plus,
    /// `-`
    Dash,
    /// `*`
    Star,
    /// `/`
    Slash,
    /// `.`
    Dot,
    /// `(`
    LParen,
    /// `)`
    RParen,
    /// `{`
    LBrace,
    /// `}`
    RBrace,
    /// `[`
    LBracket,
    /// `]`
    RBracket,
    /// The word `let`.
    Let,
    /// The word `in`.
    In,
    /// Any other word.
    Word,
    /// A numeric literal of the given base.
    Number(Radix),
    /// A character that starts no lexeme.
    Unexpected,
}

/// A lexeme that starts at a known position: its kind and where it ends.
pub struct Lexeme {
    /// What the lexeme is.
    pub kind: Kind,
    /// The position just past its last byte.
    pub end: int,
}

/// The kind of the one-byte punctuation `b`, if it is one. `=` is not among
/// them: it may start `==`.
pub open spec fn punctuation(b: u8) -> Option<Kind> {
    if b == PLUS {
        Some(Kind::Plus)
    } else if b == MINUS {
        Some(Kind::Dash)
    } else if b == STAR {
        Some(Kind::Star)
    } else if b == SLASH {
        Some(Kind::Slash)
    } else if b == POINT {
        Some(Kind::Dot)
    } else if b == L_PAREN {
        Some(Kind::LParen)
    } else if b == R_PAREN {
        Some(Kind::RParen)
    } else if b == L_BRACE {
        Some(Kind::LBrace)
    } else if b == R_BRACE {
        Some(Kind::RBrace)
    } else if b == L_BRACKET {
        Some(Kind::LBracket)
    } else if b == R_BRACKET {
        Some(Kind::RBracket)
    } else {
        None
    }
}

/// The kind of a word: a keyword where it is spelled exactly so, in lower
/// case, else a plain word.
pub open spec fn word_kind(word: Seq<u8>) -> Kind {
    if word == seq![LOWER_L, LOWER_E, LOWER_T] {
        Kind::Let
    } else if word == seq![LOWER_I, LOWER_N] {
        Kind::In
    } else {
        Kind::Word
    }
}

/// Whether a literal with the prefix of `radix` starts at `at`: `0`, the
/// letter of the base, and at least one digit of the base.
pub open spec fn prefixed(s: Seq<u8>, at: int, radix: Radix) -> bool {
    &&& byte_at(s, at) == Some(DIGIT_0)
    &&& byte_at(s, at + 1) matches Some(mark) && radix.marks(mark)
    &&& byte_at(s, at + 2) matches Some(digit) && radix.has_digit(digit)
}

/// Where the fraction of a decimal literal ends whose integer part ends at
/// `at`: a point and at least one digit or underscore, or nothing.
pub open spec fn fraction_end(s: Seq<u8>, at: int) -> int {
    if byte_at(s, at) == Some(POINT) && (byte_at(s, at + 1) matches Some(d) && Class::Digits(
        Radix::Decimal,
    ).has(d)) {
        run_end(s, at + 2, Class::Digits(Radix::Decimal))
    } else {
        at
    }
}

/// Where the digits of an exponent start that is marked at `at`: after the
/// sign, where there is one.
pub open spec fn exponent_digits(s: Seq<u8>, at: int) -> int {
    if byte_at(s, at + 1) == Some(PLUS) || byte_at(s, at + 1) == Some(MINUS) {
        at + 2
    } else {
        at + 1
    }
}

/// Where the exponent of a decimal literal ends whose fraction ends at `at`:
/// `e` or `E`, a sign or none, and at least one digit or underscore, or
/// nothing.
pub open spec fn exponent_end(s: Seq<u8>, at: int) -> int {
    if (byte_at(s, at) == Some(LOWER_E) || byte_at(s, at) == Some(UPPER_E)) && (byte_at(
        s,
        exponent_digits(s, at),
    ) matches Some(d) && Class::Digits(Radix::Decimal).has(d)) {
        run_end(s, exponent_digits(s, at) + 1, Class::Digits(Radix::Decimal))
    } else {
        at
    }
}

/// Where the decimal literal ends whose first digit is at `at`.
pub open spec fn decimal_end(s: Seq<u8>, at: int) -> int {
    exponent_end(s, fraction_end(s, run_end(s, at + 1, Class::Digits(Radix::Decimal))))
}

/// The numeric literal whose first digit is at `at`. A prefix of a base wins
/// where it is complete; else the literal is decimal.
pub open spec fn number_at(s: Seq<u8>, at: int) -> Lexeme {
    if prefixed(s, at, Radix::Binary) {
        Lexeme {
            kind: Kind::Number(Radix::Binary),
            end: run_end(s, at + 3, Class::Digits(Radix::Binary)),
        }
    } else if prefixed(s, at, Radix::Octal) {
        Lexeme {
            kind: Kind::Number(Radix::Octal),
            end: run_end(s, at + 3, Class::Digits(Radix::Octal)),
        }
    } else if prefixed(s, at, Radix::Hexadecimal) {
        Lexeme {
            kind: Kind::Number(Radix::Hexadecimal),
            end: run_end(s, at + 3, Class::Digits(Radix::Hexadecimal)),
        }
    } else {
        Lexeme { kind: Kind::Number(Radix::Decimal), end: decimal_end(s, at) }
    }
}

/// Whether a digit follows the byte at `at`: then a sign there belongs to a
/// decimal literal.
pub open spec fn digit_follows(s: Seq<u8>, at: int) -> bool {
    byte_at(s, at + 1) matches Some(d) && is_decimal_digit(d)
}

/// The lexeme that starts at `at`, where the byte at `at` is not blank.
pub open spec fn lexeme_at(s: Seq<u8>, at: int) -> Lexeme
    recommends
        0 <= at < s.len(),
{
    let b = s[at];
    if is_word_start(b) {
        let end = run_end(s, at + 1, Class::Word);
        Lexeme { kind: word_kind(s.subrange(at, end)), end }
    } else if is_decimal_digit(b) {
        number_at(s, at)
    } else if (b == PLUS || b == MINUS) && digit_follows(s, at) {
        Lexeme { kind: Kind::Number(Radix::Decimal), end: decimal_end(s, at + 1) }
    } else if b == EQUAL {
        if byte_at(s, at + 1) == Some(EQUAL) {
            Lexeme { kind: Kind::Equals, end: at + 2 }
        } else {
            Lexeme { kind: Kind::Assign, end: at + 1 }
        }
    } else {
        match punctuation(b) {
            Some(kind) => Lexeme { kind, end: at + 1 },
            None => Lexeme { kind: Kind::Unexpected, end: run_end(s, at + 1, Class::Continuation) },
        }
    }
}

/// The lexemes of the text from `from` on, in their order, each as its start,
/// its end and its kind. Blanks lie between them and belong to none.
pub open spec fn lexemes(s: Seq<u8>, from: int) -> Seq<(int, int, Kind)>
    decreases s.len() - from,
{
    let start = run_end(s, from, Class::Blank);
    let lexeme = lexeme_at(s, start);
    if 0 <= from <= start < s.len() && start < lexeme.end <= s.len() {
        seq![(start, lexeme.end, lexeme.kind)] + lexemes(s, lexeme.end)
    } else {
        Seq::empty()
    }
}

/// The digits of a numeric literal: all of a decimal literal, sign included,
/// and what follows the two bytes of the prefix of any other.
pub open spec fn digits_of(lexeme: Seq<u8>, radix: Radix) -> Seq<u8> {
    match radix {
        Radix::Decimal => lexeme,
        _ => lexeme.skip(2),
    }
}

/// A run ends between where it starts and the end of the text, and every byte
/// of it is of the class; the byte after it, if there is one, is not.
pub proof fn lemma_run_end(s: Seq<u8>, from: int, class: Class)
    requires
        0 <= from <= s.len(),
    ensures
        from <= run_end(s, from, class) <= s.len(),
        forall|i: int| from <= i < run_end(s, from, class) ==> class.has(#[trigger] s[i]),
        run_end(s, from, class) < s.len() ==> !class.has(s[run_end(s, from, class)]),
    decreases s.len() - from,
{
    if from < s.len() && class.has(s[from]) {
        lemma_run_end(s, from + 1, class);
    }
}

/// A decimal literal ends after its first digit and inside the text, and is
/// made of ASCII bytes.
pub proof fn lemma_decimal_end(s: Seq<u8>, at: int)
    requires
        0 <= at < s.len(),
    ensures
        at < decimal_end(s, at) <= s.len(),
        s[at] < 0x80 ==> forall|i: int| at <= i < decimal_end(s, at) ==> #[trigger] s[i] < 0x80,
{
    let digits = Class::Digits(Radix::Decimal);
    let whole = run_end(s, at + 1, digits);
    lemma_run_end(s, at + 1, digits);
    let fraction = fraction_end(s, whole);
    if fraction != whole {
        lemma_run_end(s, whole + 2, digits);
    }
    if exponent_end(s, fraction) != fraction {
        lemma_run_end(s, exponent_digits(s, fraction) + 1, digits);
    }
}

/// Every lexeme is at least one byte long and ends inside the text. Unless
/// it is an unexpected character it is made of ASCII bytes, and a literal
/// with a prefix has at least one byte after the prefix. An unexpected
/// character ends where the next character starts.
pub proof fn lemma_lexeme_at(s: Seq<u8>, at: int)
    requires
        0 <= at < s.len(),
    ensures
        at < lexeme_at(s, at).end <= s.len(),
        lexeme_at(s, at).kind != Kind::Unexpected ==> forall|i: int|
            at <= i < lexeme_at(s, at).end ==> #[trigger] s[i] < 0x80,
        lexeme_at(s, at).kind matches Kind::Number(radix) && radix != Radix::Decimal ==> at + 2
            < lexeme_at(s, at).end,
        lexeme_at(s, at).kind == Kind::Unexpected && lexeme_at(s, at).end < s.len()
            ==> !Class::Continuation.has(s[lexeme_at(s, at).end]),
{
    let b = s[at];
    if is_word_start(b) {
        lemma_run_end(s, at + 1, Class::Word);
    } else if is_decimal_digit(b) {
        if prefixed(s, at, Radix::Binary) {
            lemma_run_end(s, at + 3, Class::Digits(Radix::Binary));
        } else if prefixed(s, at, Radix::Octal) {
            lemma_run_end(s, at + 3, Class::Digits(Radix::Octal));
        } else if prefixed(s, at, Radix::Hexadecimal) {
            lemma_run_end(s, at + 3, Class::Digits(Radix::Hexadecimal));
        } else {
            lemma_decimal_end(s, at);
        }
    } else if (b == PLUS || b == MINUS) && digit_follows(s, at) {
        lemma_decimal_end(s, at + 1);
    } else if b == EQUAL {
    } else {
        match punctuation(b) {
            Some(_) => {},
            None => {
                lemma_run_end(s, at + 1, Class::Continuation);
            },
        }
    }
}

/// The end of the longest run of bytes of `class` that starts at `from`.
pub fn scan_run(bytes: &[u8], from: usize, class: Class) -> (end: usize)
    requires
        from <= bytes@.len(),
    ensures
        end == run_end(bytes@, from as int, class),
        from <= end <= bytes@.len(),
{
    let mut end = from;
    while end < bytes.len() && class.holds(bytes[end])
        invariant
            from <= end <= bytes@.len(),
            run_end(bytes@, from as int, class) == run_end(bytes@, end as int, class),
        decreases bytes@.len() - end,
    {
        end += 1;
    }
    end
}

/// Whether the byte at `i` exists and is `b`.
fn is_at(bytes: &[u8], i: usize, b: u8) -> (r: bool)
    ensures
        r == (byte_at(bytes@, i as int) == Some(b)),
{
    i < bytes.len() && bytes[i] == b
}

/// Whether the byte at `i` exists and is a digit of `radix` or an underscore.
fn digit_or_mark_at(bytes: &[u8], i: usize, radix: Radix) -> (r: bool)
    ensures
        r == (byte_at(bytes@, i as int) matches Some(d) && Class::Digits(radix).has(d)),
{
    i < bytes.len() && Class::Digits(radix).holds(bytes[i])
}

/// Whether a literal with the prefix of `radix` starts at `at`.
fn scan_prefix(bytes: &[u8], at: usize, radix: Radix) -> (r: bool)
    requires
        at < bytes@.len(),
    ensures
        r == prefixed(bytes@, at as int, radix),
        bytes@.len() <= usize::MAX,
{
    bytes[at] == DIGIT_0 && bytes.len() - at > 2 && radix.is_mark(bytes[at + 1]) && radix.is_digit(
        bytes[at + 2],
    )
}

/// Where the decimal literal ends whose first digit is at `at`.
fn scan_decimal(bytes: &[u8], at: usize) -> (end: usize)
    requires
        at < bytes@.len(),
    ensures
        end == decimal_end(bytes@, at as int),
        at < end <= bytes@.len(),
{
    let digits = Class::Digits(Radix::Decimal);
    let len = bytes.len();
    let whole = scan_run(bytes, at + 1, digits);
    let fraction = if is_at(bytes, whole, POINT) && len - whole > 1 && digits.holds(
        bytes[whole + 1],
    ) {
        scan_run(bytes, whole + 2, digits)
    } else {
        whole
    };
    if is_at(bytes, fraction, LOWER_E) || is_at(bytes, fraction, UPPER_E) {
        let signed = len - fraction > 1 && (bytes[fraction + 1] == PLUS || bytes[fraction
            + 1] == MINUS);
        let first = if signed {
            fraction + 2
        } else {
            fraction + 1
        };
        if digit_or_mark_at(bytes, first, Radix::Decimal) {
            scan_run(bytes, first + 1, digits)
        } else {
            fraction
        }
    } else {
        fraction
    }
}

/// The numeric literal whose first digit is at `at`.
fn scan_number(bytes: &[u8], at: usize) -> (found: (Kind, usize))
    requires
        at < bytes@.len(),
        is_decimal_digit(bytes@[at as int]),
    ensures
        found.0 == number_at(bytes@, at as int).kind,
        found.1 == number_at(bytes@, at as int).end,
        at < found.1 <= bytes@.len(),
{
    if scan_prefix(bytes, at, Radix::Binary) {
        (Kind::Number(Radix::Binary), scan_run(bytes, at + 3, Class::Digits(Radix::Binary)))
    } else if scan_prefix(bytes, at, Radix::Octal) {
        (Kind::Number(Radix::Octal), scan_run(bytes, at + 3, Class::Digits(Radix::Octal)))
    } else if scan_prefix(bytes, at, Radix::Hexadecimal) {
        (
            Kind::Number(Radix::Hexadecimal),
            scan_run(bytes, at + 3, Class::Digits(Radix::Hexadecimal)),
        )
    } else {
        (Kind::Number(Radix::Decimal), scan_decimal(bytes, at))
    }
}

/// The kind of the word that lies at `[at, end)`.
fn scan_word_kind(bytes: &[u8], at: usize, end: usize) -> (kind: Kind)
    requires
        at <= end <= bytes@.len(),
    ensures
        kind == word_kind(bytes@.subrange(at as int, end as int)),
{
    let ghost word = bytes@.subrange(at as int, end as int);
    let ghost word_let = seq![LOWER_L, LOWER_E, LOWER_T];
    let ghost word_in = seq![LOWER_I, LOWER_N];
    proof {
        assert(word_let.len() == 3 && word_let[0] == LOWER_L && word_let[1] == LOWER_E
            && word_let[2] == LOWER_T);
        assert(word_in.len() == 2 && word_in[0] == LOWER_I && word_in[1] == LOWER_N);
        assert(forall|i: int| 0 <= i < word.len() ==> word[i] == bytes@[at + i]);
    }
    if end - at == 3 && bytes[at] == LOWER_L && bytes[at + 1] == LOWER_E && bytes[at + 2]
        == LOWER_T {
        assert(word =~= word_let);
        Kind::Let
    } else if end - at == 2 && bytes[at] == LOWER_I && bytes[at + 1] == LOWER_N {
        assert(word =~= word_in);
        Kind::In
    } else {
        Kind::Word
    }
}

/// The kind of the one-byte punctuation `b`, if it is one.
fn scan_punctuation(b: u8) -> (kind: Option<Kind>)
    ensures
        kind == punctuation(b),
{
    if b == PLUS {
        Some(Kind::Plus)
    } else if b == MINUS {
        Some(Kind::Dash)
    } else if b == STAR {
        Some(Kind::Star)
    } else if b == SLASH {
        Some(Kind::Slash)
    } else if b == POINT {
        Some(Kind::Dot)
    } else if b == L_PAREN {
        Some(Kind::LParen)
    } else if b == R_PAREN {
        Some(Kind::RParen)
    } else if b == L_BRACE {
        Some(Kind::LBrace)
    } else if b == R_BRACE {
        Some(Kind::RBrace)
    } else if b == L_BRACKET {
        Some(Kind::LBracket)
    } else if b == R_BRACKET {
        Some(Kind::RBracket)
    } else {
        None
    }
}

/// The lexeme that starts at `at`: its kind and its end.
pub fn scan(bytes: &[u8], at: usize) -> (found: (Kind, usize))
    requires
        at < bytes@.len(),
    ensures
        found.0 == lexeme_at(bytes@, at as int).kind,
        found.1 == lexeme_at(bytes@, at as int).end,
        at < found.1 <= bytes@.len(),
{
    let b = bytes[at];
    if (LOWER_A <= b && b <= LOWER_Z) || (UPPER_A <= b && b <= UPPER_Z) || b == UNDERSCORE {
        let end = scan_run(bytes, at + 1, Class::Word);
        (scan_word_kind(bytes, at, end), end)
    } else if DIGIT_0 <= b && b <= DIGIT_9 {
        scan_number(bytes, at)
    } else if (b == PLUS || b == MINUS) && bytes.len() - at > 1 && DIGIT_0 <= bytes[at + 1]
        && bytes[at + 1] <= DIGIT_9 {
        (Kind::Number(Radix::Decimal), scan_decimal(bytes, at + 1))
    } else if b == EQUAL {
        if is_at(bytes, at + 1, EQUAL) {
            (Kind::Equals, at + 2)
        } else {
            (Kind::Assign, at + 1)
        }
    } else {
        match scan_punctuation(b) {
            Some(kind) => (kind, at + 1),
            None => (Kind::Unexpected, scan_run(bytes, at + 1, Class::Continuation)),
        }
    }
}

} // verus!
