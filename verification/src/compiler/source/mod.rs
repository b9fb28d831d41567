//! Positions in the shared offset space, and the sources that own slices of it.

mod file_loader;
pub mod grammar;
pub mod lexer;
pub mod recovery;
mod source_map;
pub mod text;

pub use file_loader::{joined_path, parent_path, resolve_base, FileLoader, FileLoaderError};

pub use source_map::{
    after_insert, answered, asks_to_load, cached_at, laid_out, lemma_cached_stays,
    lemma_insert_idempotent, load_result,
    lemma_offsets_chain,
    lemma_offsets_increase, lemma_one_source_contains, lemma_overflow_rejected, next_start,
    placement, Placement, SourceMap,
};

use self::lexer::Lexer;
use type_map::concurrent::TypeMap;
use vstd::prelude::*;
use vstd::utf8::encode_utf8;

verus! {

/// The largest offset of the shared space. A source of length `n` that starts
/// at `s` is taken in only if `s + n` does not pass it.
pub const MAX_OFFSET: u32 = 0xffff_ffff;

/// An absolute byte offset into the shared space.
#[derive(Debug, Clone, Copy, PartialEq, Eq, Structural, PartialOrd, Ord, Hash)]
pub struct BytePos(u32);

impl View for BytePos {
    type V = nat;

    closed spec fn view(&self) -> nat {
        self.0 as nat
    }
}

impl BytePos {
    /// The position `offset` bytes into the shared space.
    pub fn new(offset: u32) -> (pos: BytePos)
        ensures
            pos@ == offset,
    {
        BytePos(offset)
    }

    /// The offset that this position stands for.
    pub fn offset(&self) -> (offset: u32)
        ensures
            offset == self@,
    {
        self.0
    }

    /// The position `len` bytes further on, or `None` where that would leave
    /// the shared space.
    pub fn checked_add(&self, len: u32) -> (moved: Option<BytePos>)
        ensures
            self@ + len <= MAX_OFFSET ==> (moved matches Some(pos) && pos@ == self@ + len),
            self@ + len > MAX_OFFSET ==> moved.is_none(),
    {
        match self.0.checked_add(len) {
            Some(offset) => Some(BytePos(offset)),
            None => None,
        }
    }

    /// The position `len` bytes further on, for a length of any size, or
    /// `None` where that would leave the shared space.
    pub fn checked_advance(&self, len: usize) -> (moved: Option<BytePos>)
        ensures
            self@ + len <= MAX_OFFSET ==> (moved matches Some(pos) && pos@ == self@ + len),
            self@ + len > MAX_OFFSET ==> moved.is_none(),
    {
        if len > (MAX_OFFSET - self.0) as usize {
            None
        } else {
            Some(BytePos(self.0 + len as u32))
        }
    }

    /// Whether this position comes at or before `other`.
    pub fn at_or_before(&self, other: &BytePos) -> (b: bool)
        ensures
            b == (self@ <= other@),
    {
        self.0 <= other.0
    }
}

/// A half-open range `[lo, hi)` of the shared space, with `lo <= hi`.
#[derive(Debug, Clone, Copy, PartialEq, Eq, Structural)]
pub struct Span {
    lo: BytePos,
    hi: BytePos,
}

impl View for Span {
    type V = (int, int);

    closed spec fn view(&self) -> (int, int) {
        (self.lo@ as int, self.hi@ as int)
    }
}

impl Span {
    #[verifier::type_invariant]
    spec fn ordered(self) -> bool {
        self.lo@ <= self.hi@
    }

    /// The span from `lo` up to `hi`, or `None` where `hi` comes before `lo`.
    pub fn new(lo: BytePos, hi: BytePos) -> (span: Option<Span>)
        ensures
            lo@ <= hi@ ==> span.is_some() && span.unwrap()@ == (lo@ as int, hi@ as int),
            lo@ > hi@ ==> span.is_none(),
    {
        if lo.0 <= hi.0 {
            Some(Span { lo, hi })
        } else {
            None
        }
    }

    /// The span from `lo` up to `hi`.
    pub(crate) fn between(lo: u32, hi: u32) -> (span: Span)
        requires
            lo <= hi,
        ensures
            span@ == (lo as int, hi as int),
    {
        Span { lo: BytePos(lo), hi: BytePos(hi) }
    }

    /// The first position of the span.
    pub fn lo(&self) -> (lo: BytePos)
        ensures
            lo@ == self@.0,
            lo@ <= self@.1,
    {
        proof {
            use_type_invariant(self);
        }
        self.lo
    }

    /// The position just past the span.
    pub fn hi(&self) -> (hi: BytePos)
        ensures
            hi@ == self@.1,
            self@.0 <= hi@,
    {
        proof {
            use_type_invariant(self);
        }
        self.hi
    }

    /// The number of bytes that the span covers.
    pub fn len(&self) -> (len: u32)
        ensures
            len == self@.1 - self@.0,
    {
        proof {
            use_type_invariant(self);
        }
        self.hi.0 - self.lo.0
    }

    /// Whether `pos` lies inside the span.
    pub fn contains(&self, pos: BytePos) -> (b: bool)
        ensures
            b == (self@.0 <= pos@ < self@.1),
    {
        self.lo.0 <= pos.0 && pos.0 < self.hi.0
    }
}

/// A value together with the span of text that it was read from.
#[derive(Debug, PartialEq, Eq)]
pub struct Spanned<T> {
    value: T,
    span: Span,
}

impl<T> Spanned<T> {
    /// The value read.
    pub closed spec fn spec_value(&self) -> T {
        self.value
    }

    /// The span it was read from, as `(lo, hi)`.
    pub closed spec fn spec_span(&self) -> (int, int) {
        self.span@
    }

    /// Attaches `span` to `value`.
    pub fn new(value: T, span: Span) -> (spanned: Spanned<T>)
        ensures
            spanned.spec_value() == value,
            spanned.spec_span() == span@,
    {
        Spanned { value, span }
    }

    /// The value read.
    pub fn value(&self) -> (value: &T)
        ensures
            *value == self.spec_value(),
    {
        &self.value
    }

    /// The span that the value was read from.
    pub fn span(&self) -> (span: Span)
        ensures
            span@ == self.spec_span(),
    {
        self.span
    }

    /// Gives up the span and hands out the value.
    pub fn into_value(self) -> (value: T)
        ensures
            value == self.spec_value(),
    {
        self.value
    }
}

/// The hint that a source is the entry point of the session.
#[derive(Debug, Clone, Copy)]
pub struct EntryContext;

/// The hint that a source is loaded from inside the file at `path`.
#[derive(Debug)]
pub struct FileContext {
    path: String,
}

impl View for FileContext {
    type V = Seq<char>;

    closed spec fn view(&self) -> Seq<char> {
        self.path@
    }
}

impl FileContext {
    /// The hint for sources that the file at `path` asks for.
    pub fn new(path: String) -> (hint: FileContext)
        ensures
            hint@ == path@,
    {
        FileContext { path }
    }

    /// The path of the file that asks.
    pub fn path(&self) -> (path: &str)
        ensures
            path@ == self@,
    {
        self.path.as_str()
    }
}

/// `TypeMap` of `type_map::concurrent`, of which nothing is known but what
/// the functions below say.
#[verifier::external_type_specification]
#[verifier::external_body]
pub struct ExTypeMap(TypeMap);

/// Whether a registry of hints holds an [`EntryContext`].
pub uninterp spec fn holds_entry(hints: TypeMap) -> bool;

/// The path of the [`FileContext`] that a registry of hints holds, if it
/// holds one.
pub uninterp spec fn held_file(hints: TypeMap) -> Option<Seq<char>>;

/// `TypeMap::new` from `type_map::concurrent`: the registry it makes holds no
/// value of any type, so neither hint.
#[verifier::external_body]
fn hints_new() -> (hints: TypeMap)
    ensures
        !holds_entry(hints),
        held_file(hints).is_none(),
{
    TypeMap::new()
}

/// `TypeMap::get` from `type_map::concurrent`, asked for an [`EntryContext`]:
/// it hands out the stored value exactly when one is stored.
#[verifier::external_body]
fn hints_entry(hints: &TypeMap) -> (hint: Option<&EntryContext>)
    ensures
        hint.is_some() == holds_entry(*hints),
{
    hints.get::<EntryContext>()
}

/// `TypeMap::get` from `type_map::concurrent`, asked for a [`FileContext`]: it
/// hands out the stored value exactly when one is stored.
#[verifier::external_body]
fn hints_file(hints: &TypeMap) -> (hint: Option<&FileContext>)
    ensures
        match hint {
            Some(file) => held_file(*hints) == Some(file@),
            None => held_file(*hints).is_none(),
        },
{
    hints.get::<FileContext>()
}

/// `TypeMap::insert` from `type_map::concurrent`, given an [`EntryContext`]:
/// the registry then holds it, whatever it held of that type before, which the
/// call returns. Values of other types stay.
#[verifier::external_body]
fn hints_insert_entry(hints: &mut TypeMap, hint: EntryContext) -> (before: Option<EntryContext>)
    ensures
        holds_entry(*final(hints)),
        held_file(*final(hints)) == held_file(*old(hints)),
        before.is_some() == holds_entry(*old(hints)),
{
    hints.insert(hint)
}

/// `TypeMap::insert` from `type_map::concurrent`, given a [`FileContext`]: the
/// registry then holds it, whatever it held of that type before, which the
/// call returns. Values of other types stay.
#[verifier::external_body]
fn hints_insert_file(hints: &mut TypeMap, hint: FileContext) -> (before: Option<FileContext>)
    ensures
        held_file(*final(hints)) == Some(hint@),
        holds_entry(*final(hints)) == holds_entry(*old(hints)),
        match before {
            Some(file) => held_file(*old(hints)) == Some(file@),
            None => held_file(*old(hints)).is_none(),
        },
{
    hints.insert(hint)
}

/// The hints under which a source is resolved and loaded: a registry that
/// holds at most one value of each type.
#[derive(Debug)]
pub struct SourceContext(TypeMap);

impl SourceContext {
    /// Whether the context says that the source is the entry point.
    pub closed spec fn is_entry(&self) -> bool {
        holds_entry(self.0)
    }

    /// The path of the file that asks for the source, where the context names
    /// one.
    pub closed spec fn relative_to(&self) -> Option<Seq<char>> {
        held_file(self.0)
    }

    /// A context without hints.
    pub fn new() -> (cx: SourceContext)
        ensures
            !cx.is_entry(),
            cx.relative_to().is_none(),
    {
        SourceContext(hints_new())
    }

    /// The registry of hints, to read.
    pub fn extensions(&self) -> (hints: &TypeMap)
        ensures
            holds_entry(*hints) == self.is_entry(),
            held_file(*hints) == self.relative_to(),
    {
        &self.0
    }

    /// The registry of hints, to insert into or remove from.
    pub fn extensions_mut(&mut self) -> (hints: &mut TypeMap)
        ensures
            holds_entry(*hints) == old(self).is_entry(),
            held_file(*hints) == old(self).relative_to(),
            final(self).is_entry() == holds_entry(*final(hints)),
            final(self).relative_to() == held_file(*final(hints)),
    {
        &mut self.0
    }

    /// Puts the entry hint into the context and hands out the one that it
    /// held, if it held one.
    pub fn insert_entry(&mut self, hint: EntryContext) -> (before: Option<EntryContext>)
        ensures
            final(self).is_entry(),
            final(self).relative_to() == old(self).relative_to(),
            before.is_some() == old(self).is_entry(),
    {
        hints_insert_entry(&mut self.0, hint)
    }

    /// Puts a file hint into the context, in the place of the one that it
    /// held, which is handed out.
    pub fn insert_file(&mut self, hint: FileContext) -> (before: Option<FileContext>)
        ensures
            final(self).relative_to() == Some(hint@),
            final(self).is_entry() == old(self).is_entry(),
            match before {
                Some(file) => old(self).relative_to() == Some(file@),
                None => old(self).relative_to().is_none(),
            },
    {
        hints_insert_file(&mut self.0, hint)
    }

    /// Whether the context holds the entry hint.
    pub fn has_entry(&self) -> (b: bool)
        ensures
            b == self.is_entry(),
    {
        hints_entry(&self.0).is_some()
    }

    /// The path of the file hint, where the context holds one.
    pub fn file_path(&self) -> (path: Option<&str>)
        ensures
            match path {
                Some(p) => self.relative_to() == Some(p@),
                None => self.relative_to().is_none(),
            },
    {
        match hints_file(&self.0) {
            Some(file) => Some(file.path()),
            None => None,
        }
    }
}

impl Default for SourceContext {
    fn default() -> (cx: SourceContext)
        ensures
            !cx.is_entry(),
            cx.relative_to().is_none(),
    {
        SourceContext::new()
    }
}

/// Why a load did not give a source.
#[derive(Debug)]
pub enum SourceError<E> {
    /// The source would not fit into what is left of the shared space.
    SourceTooLarge,
    /// The loader failed, with its own error.
    Loader(E),
}

/// The number of bytes that `text` takes in the shared space.
pub open spec fn byte_len(text: Seq<char>) -> nat {
    encode_utf8(text).len()
}

/// The text of one loaded source, with the place it has in the shared space.
#[derive(Debug)]
pub struct Source {
    /// The contents of the source.
    contents: String,
    /// The starting position for measuring spans.
    start_pos: BytePos,
    /// The context this source was loaded under.
    context: SourceContext,
}

impl Source {
    /// The text of the source.
    pub closed spec fn text(&self) -> Seq<char> {
        self.contents@
    }

    /// The offset at which the source starts.
    pub closed spec fn start(&self) -> nat {
        self.start_pos@
    }

    /// The hints that the source carries.
    pub closed spec fn hints(&self) -> SourceContext {
        self.context
    }

    /// The offset just past the source.
    pub open spec fn end(&self) -> int {
        self.start() as int + byte_len(self.text())
    }

    /// Whether the source lies inside the shared space.
    pub open spec fn placed(&self) -> bool {
        self.end() <= MAX_OFFSET
    }

    /// This source, moved to start at `start`.
    pub closed spec fn placed_at(self, start: int) -> Source {
        Source { contents: self.contents, start_pos: BytePos(start as u32), context: self.context }
    }

    /// What [`Source::placed_at`] changes and what it keeps.
    pub proof fn lemma_placed_at(self, start: int)
        requires
            0 <= start <= MAX_OFFSET,
        ensures
            self.placed_at(start).text() == self.text(),
            self.placed_at(start).start() == start,
            self.placed_at(start).hints() == self.hints(),
            self.start() == start ==> self.placed_at(start) == self,
    {
    }

    /// A source that holds `contents` and has no place yet: it starts at
    /// [`MAX_OFFSET`] until a [`SourceMap`] takes it in, and carries no hints.
    pub fn new(contents: String) -> (source: Source)
        ensures
            source.text() == contents@,
            source.start() == MAX_OFFSET,
            !source.hints().is_entry(),
            source.hints().relative_to().is_none(),
    {
        Source { contents, start_pos: BytePos(MAX_OFFSET), context: SourceContext::new() }
    }

    /// The hints that the source carries.
    pub fn context(&self) -> (cx: &SourceContext)
        ensures
            *cx == self.hints(),
    {
        &self.context
    }

    /// The hints that the source carries, to change.
    pub fn context_mut(&mut self) -> (cx: &mut SourceContext)
        ensures
            *cx == old(self).hints(),
            final(self).hints() == *final(cx),
            final(self).text() == old(self).text(),
            final(self).start() == old(self).start(),
    {
        &mut self.context
    }

    /// The text of the source.
    pub fn contents(&self) -> (text: &str)
        ensures
            text@ == self.text(),
    {
        self.contents.as_str()
    }

    /// The position at which the source starts.
    pub fn start_pos(&self) -> (pos: BytePos)
        ensures
            pos@ == self.start(),
    {
        self.start_pos
    }

    /// The number of bytes that the text takes.
    pub fn byte_len(&self) -> (len: usize)
        ensures
            len == byte_len(self.text()),
    {
        self.contents.as_str().as_bytes().len()
    }

    /// The offset just past the source.
    pub fn end_pos(&self) -> (pos: BytePos)
        requires
            self.placed(),
        ensures
            pos@ == self.end(),
    {
        let len = self.byte_len();
        BytePos(self.start_pos.0 + len as u32)
    }

    /// A lexer over the text of the source, whose spans lie in the slice of
    /// the shared space that the source has. The source has to be placed.
    pub fn lexer(&self) -> (lexer: Lexer<'_>)
        requires
            self.placed(),
        ensures
            lexer.offset() == self.start(),
            lexer.bytes() == encode_utf8(self.text()),
            lexer.position() == 0,
    {
        Lexer::new(self.start_pos.0, self.contents.as_str())
    }

    /// Moves the source to `start`.
    pub(crate) fn place(self, start: BytePos) -> (source: Source)
        ensures
            source == self.placed_at(start@ as int),
    {
        Source { contents: self.contents, start_pos: start, context: self.context }
    }
}

impl AsRef<str> for Source {
    fn as_ref(&self) -> (text: &str)
        ensures
            text@ == self.text(),
    {
        self.contents()
    }
}

/// The span `local` of the text of `source`, moved into the slice of the
/// shared space that the source has.
pub open spec fn rebased(source: Source, local: (int, int)) -> (int, int) {
    (source.start() + local.0, source.start() + local.1)
}

/// Spans of different sources never share a range. Where one source was loaded
/// before another, every span of a lexeme of the first lies wholly before
/// every span of a lexeme of the second, once both are moved into the shared
/// space; and a moved span, less the start of its source, is the span it was.
pub proof fn lemma_rebased_spans_apart(
    sources: Seq<(Seq<char>, Source)>,
    i: int,
    j: int,
    a: (int, int),
    b: (int, int),
)
    requires
        laid_out(sources),
        0 <= i < j < sources.len(),
        0 <= a.0 < a.1 <= byte_len(sources[i].1.text()),
        0 <= b.0 < b.1 <= byte_len(sources[j].1.text()),
    ensures
        rebased(sources[i].1, a).1 <= rebased(sources[j].1, b).0,
        rebased(sources[i].1, a).0 < rebased(sources[j].1, b).0,
        rebased(sources[i].1, a).1 < rebased(sources[j].1, b).1,
        rebased(sources[j].1, b).1 <= MAX_OFFSET,
        rebased(sources[j].1, b).0 - sources[j].1.start() == b.0,
        rebased(sources[j].1, b).1 - sources[j].1.start() == b.1,
{
    lemma_offsets_increase(sources, i, j);
}

/// A backend that finds sources by name and fetches their text.
///
/// An implementation may say which answers it gives and how it stands after
/// them, in `resolves` and in `loads`; one that says nothing may give any
/// answer and stand in any way. A [`SourceMap`] states its results over those
/// answers. For the cache to be of use, `resolve` should give the same key
/// whenever it is given the same hints and name.
pub trait SourceLoader {
    /// What the backend reports when it fails.
    type Error;

    /// Whether `resolve` may answer `key` when it is asked for `name` under
    /// `cx`, and stand as `after` once it has. Any answer and any standing,
    /// unless an implementation says which.
    open spec fn resolves(
        &self,
        cx: &SourceContext,
        name: Seq<char>,
        key: Result<Seq<char>, Self::Error>,
        after: &Self,
    ) -> bool {
        true
    }

    /// Whether `load` may answer `loaded` when it is asked for `key` under
    /// `cx`, and stand as `after` once it has. Any answer and any standing,
    /// unless an implementation says which.
    open spec fn loads(
        &self,
        cx: &SourceContext,
        key: Seq<char>,
        loaded: Result<Source, Self::Error>,
        after: &Self,
    ) -> bool {
        true
    }

    /// Turns the name of a source into the key under which it is cached.
    fn resolve(&mut self, cx: &SourceContext, name: &str) -> (key: Result<String, Self::Error>)
        ensures
            old(self).resolves(cx, name@, key_text(key), final(self)),
    ;

    /// Fetches the source that `key` stands for.
    fn load(&mut self, cx: &SourceContext, key: &str) -> (loaded: Result<Source, Self::Error>)
        ensures
            old(self).loads(cx, key@, loaded, final(self)),
    ;
}

/// An answer of `resolve`, with the key as its characters.
pub open spec fn key_text<E>(key: Result<String, E>) -> Result<Seq<char>, E> {
    match key {
        Ok(text) => Ok(text@),
        Err(error) => Err(error),
    }
}

} // verus!
