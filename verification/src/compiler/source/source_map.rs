//! The sources of one session, each with its own slice of the shared space.

use super::{byte_len, BytePos, Source, SourceContext, SourceError, SourceLoader, MAX_OFFSET};
use indexmap::IndexMap;
use vstd::prelude::*;

verus! {

/// `IndexMap` of `indexmap`, of which nothing is known but what the functions
/// below say.
#[verifier::external_type_specification]
#[verifier::external_body]
#[verifier::reject_recursive_types(K)]
#[verifier::reject_recursive_types(V)]
#[verifier::reject_recursive_types(S)]
pub struct ExIndexMap<K, V, S>(IndexMap<K, V, S>);

/// The key-value pairs that an `IndexMap` from keys to sources holds, in the
/// order of the map, each key by its characters.
pub uninterp spec fn map_entries(map: IndexMap<String, Source>) -> Seq<(Seq<char>, Source)>;

/// The index under which `key` is cached, if it is.
pub open spec fn cached_at(sources: Seq<(Seq<char>, Source)>, key: Seq<char>) -> Option<int> {
    if exists|i: int| 0 <= i < sources.len() && (#[trigger] sources[i]).0 == key {
        Some(choose|i: int| 0 <= i < sources.len() && (#[trigger] sources[i]).0 == key)
    } else {
        None
    }
}

/// `IndexMap::new` from `indexmap`: the map it makes holds no pair.
#[verifier::external_body]
fn entries_new() -> (map: IndexMap<String, Source>)
    ensures
        map_entries(map) == Seq::<(Seq<char>, Source)>::empty(),
{
    IndexMap::new()
}

/// `IndexMap::len` from `indexmap`: the number of pairs in the map.
#[verifier::external_body]
fn entries_len(map: &IndexMap<String, Source>) -> (len: usize)
    ensures
        len == map_entries(*map).len(),
{
    map.len()
}

/// `IndexMap::get_index_of` from `indexmap`: the index of the pair whose key
/// equals `key`, or `None` where no pair has that key.
#[verifier::external_body]
fn entries_index_of(map: &IndexMap<String, Source>, key: &str) -> (index: Option<usize>)
    ensures
        match index {
            Some(i) => i < map_entries(*map).len() && map_entries(*map)[i as int].0 == key@,
            None => cached_at(map_entries(*map), key@).is_none(),
        },
{
    map.get_index_of(key)
}

/// `IndexMap::get_index` from `indexmap`: the pair at `index`, or `None` where
/// the map holds no more than `index` pairs.
#[verifier::external_body]
fn entries_get(map: &IndexMap<String, Source>, index: usize) -> (pair: Option<(&String, &Source)>)
    ensures
        match pair {
            Some((key, source)) => {
                &&& index < map_entries(*map).len()
                &&& key@ == map_entries(*map)[index as int].0
                &&& *source == map_entries(*map)[index as int].1
            },
            None => index >= map_entries(*map).len(),
        },
{
    map.get_index(index)
}

/// `IndexMap::last` from `indexmap`: the pair that is last in the order of the
/// map, or `None` where the map is empty.
#[verifier::external_body]
fn entries_last(map: &IndexMap<String, Source>) -> (pair: Option<(&String, &Source)>)
    ensures
        match pair {
            Some((key, source)) => {
                &&& map_entries(*map).len() > 0
                &&& key@ == map_entries(*map).last().0
                &&& *source == map_entries(*map).last().1
            },
            None => map_entries(*map).len() == 0,
        },
{
    map.last()
}

/// `IndexMap::insert_full` from `indexmap`. Where a pair has a key equal to
/// `key`, that pair keeps its key and its place, takes `source` as its value,
/// and the call returns its index with the value it had. Where none has, the
/// new pair goes to the end and the call returns its index with `None`.
#[verifier::external_body]
fn entries_insert(map: &mut IndexMap<String, Source>, key: String, source: Source) -> (res: (
    usize,
    Option<Source>,
))
    ensures
        match res.1 {
            Some(before) => {
                &&& res.0 < map_entries(*old(map)).len()
                &&& map_entries(*old(map))[res.0 as int] == (key@, before)
                &&& map_entries(*final(map)) == map_entries(*old(map)).update(
                    res.0 as int,
                    (key@, source),
                )
            },
            None => {
                &&& res.0 == map_entries(*old(map)).len()
                &&& cached_at(map_entries(*old(map)), key@).is_none()
                &&& map_entries(*final(map)) == map_entries(*old(map)).push((key@, source))
            },
        },
{
    map.insert_full(key, source)
}

/// The offset at which the next source starts: 0 before the first source, and
/// after that the end of the source that came last.
pub open spec fn next_start(sources: Seq<(Seq<char>, Source)>) -> int {
    if sources.len() == 0 {
        0
    } else {
        sources.last().1.end()
    }
}

/// What holds of the sources of a map: no key occurs twice, every source
/// starts where the one before it ends, the first at 0, and every source ends
/// inside the shared space.
pub open spec fn laid_out(sources: Seq<(Seq<char>, Source)>) -> bool {
    &&& forall|i: int, j: int|
        0 <= i < j < sources.len() ==> (#[trigger] sources[i]).0 != (#[trigger] sources[j]).0
    &&& forall|i: int|
        0 <= i < sources.len() ==> (#[trigger] sources[i]).1.start() == next_start(sources.take(i))
    &&& forall|i: int| 0 <= i < sources.len() ==> (#[trigger] sources[i]).1.placed()
}

/// What becomes of a source that is offered to a map.
pub enum Placement {
    /// The key is cached already, at this index: the map stays as it is.
    Cached(int),
    /// The source goes to the end of the map and starts at this offset.
    Placed(int),
    /// The source does not fit into what is left of the shared space.
    TooLarge,
}

/// What becomes of a source with text `text` that is offered under `key`.
pub open spec fn placement(
    sources: Seq<(Seq<char>, Source)>,
    key: Seq<char>,
    text: Seq<char>,
) -> Placement {
    match cached_at(sources, key) {
        Some(i) => Placement::Cached(i),
        None => if next_start(sources) + byte_len(text) <= MAX_OFFSET {
            Placement::Placed(next_start(sources))
        } else {
            Placement::TooLarge
        },
    }
}

/// The sources of a map after `source` was offered under `key`.
pub open spec fn after_insert(
    sources: Seq<(Seq<char>, Source)>,
    key: Seq<char>,
    source: Source,
) -> Seq<(Seq<char>, Source)> {
    match placement(sources, key, source.text()) {
        Placement::Placed(start) => sources.push((key, source.placed_at(start))),
        _ => sources,
    }
}

/// Whether a load has to ask the loader for the source: where the name was
/// resolved to a key that is not cached.
pub open spec fn asks_to_load<E>(
    sources: Seq<(Seq<char>, Source)>,
    resolved: Result<Seq<char>, E>,
) -> bool {
    resolved matches Ok(key) && cached_at(sources, key).is_none()
}

/// What a load leaves in the map and what it gives, as a pair, where the
/// loader answered `resolved` when it was asked to resolve the name, and
/// `loaded` when it was asked to load the key. It is asked to load only where
/// [`asks_to_load`] holds: elsewhere `loaded` counts for nothing.
///
/// An error of the loader is handed on as it is and the map stays. A key
/// that is cached gives the cached source and the map stays. A source that
/// was loaded is placed at the end of the last one and appended, or, where it
/// would pass the end of the shared space, rejected, and the map stays.
pub open spec fn load_result<E>(
    sources: Seq<(Seq<char>, Source)>,
    resolved: Result<Seq<char>, E>,
    loaded: Result<Source, E>,
) -> (Seq<(Seq<char>, Source)>, Result<Source, SourceError<E>>) {
    match resolved {
        Err(error) => (sources, Err(SourceError::Loader(error))),
        Ok(key) => match cached_at(sources, key) {
            Some(i) => (sources, Ok(sources[i].1)),
            None => match loaded {
                Err(error) => (sources, Err(SourceError::Loader(error))),
                Ok(source) => (
                    after_insert(sources, key, source),
                    match placement(sources, key, source.text()) {
                        Placement::Placed(start) => Ok(source.placed_at(start)),
                        _ => Err(SourceError::SourceTooLarge),
                    },
                ),
            },
        },
    }
}

/// Whether `resolved` and `loaded` are answers that the loader may have given
/// to one load of `name` under `cx`, and `after` is how it stood at the end.
/// The loader, `loader` at first, was asked to resolve `name`, answered
/// `resolved` and stood as `mid`. Where the source had to be loaded, it was
/// then asked to load the key that `resolved` holds, answered `loaded` and
/// stood as `after`. Where it had not, it was asked nothing more: it stood at
/// the end as resolving left it.
pub open spec fn answered<L: SourceLoader>(
    loader: L,
    mid: L,
    after: L,
    cx: &SourceContext,
    name: Seq<char>,
    sources: Seq<(Seq<char>, Source)>,
    resolved: Result<Seq<char>, L::Error>,
    loaded: Result<Source, L::Error>,
) -> bool {
    &&& loader.resolves(cx, name, resolved, &mid)
    &&& asks_to_load(sources, resolved) ==> mid.loads(cx, resolved->Ok_0, loaded, &after)
    &&& !asks_to_load(sources, resolved) ==> after == mid
}

/// The loaded sources of one session, in the order in which they were loaded,
/// with the loader that fetches them.
pub struct SourceMap<L> {
    /// The loaded sources, by key, in load order.
    sources: IndexMap<String, Source>,
    /// The method for loading sources.
    source_loader: L,
}

impl<L> SourceMap<L> {
    /// The cached sources with their keys, in load order.
    pub closed spec fn entries(&self) -> Seq<(Seq<char>, Source)> {
        map_entries(self.sources)
    }

    /// The loader of the map, as it stands.
    pub closed spec fn loader(&self) -> L {
        self.source_loader
    }

    /// Whether the sources of the map are laid out as [`laid_out`] says. A new
    /// map is, and every method keeps it so.
    pub open spec fn wf(&self) -> bool {
        laid_out(self.entries())
    }

    /// An empty map that loads through `source_loader`.
    pub fn new(source_loader: L) -> (map: SourceMap<L>)
        ensures
            map.wf(),
            map.entries().len() == 0,
            map.loader() == source_loader,
    {
        let sources = entries_new();
        SourceMap { sources, source_loader }
    }

    /// The number of sources loaded so far.
    pub fn len(&self) -> (len: usize)
        ensures
            len == self.entries().len(),
    {
        entries_len(&self.sources)
    }

    /// The index of the source cached under `key`, if there is one.
    pub fn position(&self, key: &str) -> (index: Option<usize>)
        requires
            self.wf(),
        ensures
            match index {
                Some(i) => cached_at(self.entries(), key@) == Some(i as int),
                None => cached_at(self.entries(), key@).is_none(),
            },
    {
        entries_index_of(&self.sources, key)
    }

    /// The source that was loaded as number `index`, counting from 0.
    pub fn get(&self, index: usize) -> (source: Option<&Source>)
        ensures
            match source {
                Some(s) => index < self.entries().len() && *s == self.entries()[index as int].1,
                None => index >= self.entries().len(),
            },
    {
        match entries_get(&self.sources, index) {
            Some((_, source)) => Some(source),
            None => None,
        }
    }
}

impl<L: SourceLoader> SourceMap<L> {
    /// Offers `source` to the map under `key`.
    ///
    /// Where `key` is cached, the map stays as it is and the cached source is
    /// returned; `source` is dropped. Where it is not, `source` is moved to
    /// the end of the last source and appended, unless it would pass the end
    /// of the shared space: then the map stays as it is.
    pub fn insert(&mut self, key: String, source: Source) -> (res: Result<
        &Source,
        SourceError<L::Error>,
    >)
        requires
            old(self).wf(),
        ensures
            final(self).wf(),
            final(self).loader() == old(self).loader(),
            final(self).entries() == after_insert(old(self).entries(), key@, source),
            match placement(old(self).entries(), key@, source.text()) {
                Placement::Cached(i) => res matches Ok(s) && *s == old(self).entries()[i].1,
                Placement::Placed(start) => res matches Ok(s) && *s == source.placed_at(start)
                    && s.start() == start && s.text() == source.text() && s.hints()
                    == source.hints(),
                Placement::TooLarge => res matches Err(SourceError::SourceTooLarge),
            },
    {
        let ghost before = self.entries();
        if let Some(index) = entries_index_of(&self.sources, key.as_str()) {
            return Ok(entries_get(&self.sources, index).unwrap().1);
        }
        let start = match entries_last(&self.sources) {
            Some((_, last)) => last.end_pos(),
            None => BytePos::new(0),
        };
        if start.checked_advance(source.byte_len()).is_none() {
            return Err(SourceError::SourceTooLarge);
        }
        let ghost offered = source;
        let source = source.place(start);
        proof {
            offered.lemma_placed_at(start@ as int);
            lemma_laid_out_push(before, key@, source);
        }
        let (index, _) = entries_insert(&mut self.sources, key, source);
        Ok(entries_get(&self.sources, index).unwrap().1)
    }

    /// Loads the source that `name` stands for under `context`.
    ///
    /// The loader is asked to resolve `name`. Where it fails, its error is
    /// handed on. Where the key that it gives is cached, the cached source
    /// is returned and the loader is asked nothing more. Otherwise the loader
    /// is asked to load that key; its error is handed on, and its source is
    /// taken in as [`SourceMap::insert`] says. The first clause after the
    /// well-formedness says so over the answers that the loader gave, as
    /// [`load_result`] spells out, and says with [`answered`] how the loader
    /// stands afterwards: on a cached key, as resolving left it, for it was
    /// not asked to load. The clauses after it say what follows for
    /// every answer: an error leaves the map as it was, and a success either
    /// found a cached source or appended exactly the source returned, under a
    /// key that was not cached, at the end of the last one.
    pub fn load(&mut self, context: &SourceContext, name: &str) -> (res: Result<
        &Source,
        SourceError<L::Error>,
    >)
        requires
            old(self).wf(),
        ensures
            final(self).wf(),
            exists|resolved: Result<Seq<char>, L::Error>, mid: L, loaded: Result<Source, L::Error>|
                {
                    &&& #[trigger] answered(
                        old(self).loader(),
                        mid,
                        final(self).loader(),
                        context,
                        name@,
                        old(self).entries(),
                        resolved,
                        loaded,
                    )
                    &&& final(self).entries() == load_result(
                        old(self).entries(),
                        resolved,
                        loaded,
                    ).0
                    &&& match load_result(old(self).entries(), resolved, loaded).1 {
                        Ok(source) => res matches Ok(s) && *s == source,
                        Err(error) => res matches Err(e) && e == error,
                    }
                },
            match res {
                Ok(source) => {
                    ||| {
                        &&& final(self).entries() == old(self).entries()
                        &&& exists|i: int|
                            0 <= i < old(self).entries().len() && (#[trigger] old(
                                self,
                            ).entries()[i]).1 == *source
                    }
                    ||| {
                        &&& source.start() == next_start(old(self).entries())
                        &&& exists|key: Seq<char>|
                            {
                                &&& cached_at(old(self).entries(), key).is_none()
                                &&& final(self).entries() == #[trigger] old(self).entries().push(
                                    (key, *source),
                                )
                            }
                    }
                },
                Err(_) => final(self).entries() == old(self).entries(),
            },
    {
        let ghost before = self.entries();
        let ghost loader = self.loader();
        let key = match self.source_loader.resolve(context, name) {
            Ok(key) => key,
            Err(err) => {
                proof {
                    let mid = self.loader();
                    let resolved: Result<Seq<char>, L::Error> = Err(err);
                    let loaded: Result<Source, L::Error> = Err(err);
                    assert(answered(loader, mid, mid, context, name@, before, resolved, loaded));
                }
                return Err(SourceError::Loader(err));
            },
        };
        let ghost mid = self.loader();
        let ghost resolved: Result<Seq<char>, L::Error> = Ok(key@);
        if let Some(index) = entries_index_of(&self.sources, key.as_str()) {
            proof {
                let loaded: Result<Source, L::Error> = Ok(before[index as int].1);
                assert(cached_at(before, key@) == Some(index as int));
                assert(answered(loader, mid, mid, context, name@, before, resolved, loaded));
            }
            return Ok(entries_get(&self.sources, index).unwrap().1);
        }
        let source = match self.source_loader.load(context, key.as_str()) {
            Ok(source) => source,
            Err(err) => {
                proof {
                    let after = self.loader();
                    let loaded: Result<Source, L::Error> = Err(err);
                    assert(answered(loader, mid, after, context, name@, before, resolved, loaded));
                }
                return Err(SourceError::Loader(err));
            },
        };
        proof {
            let after = self.loader();
            let loaded: Result<Source, L::Error> = Ok(source);
            assert(answered(loader, mid, after, context, name@, before, resolved, loaded));
            if next_start(before) + byte_len(source.text()) <= MAX_OFFSET {
                source.lemma_placed_at(next_start(before));
            }
        }
        self.insert(key, source)
    }
}

/// A placed source with a new key, put where the last source ends, keeps the
/// sources laid out.
proof fn lemma_laid_out_push(sources: Seq<(Seq<char>, Source)>, key: Seq<char>, source: Source)
    requires
        laid_out(sources),
        cached_at(sources, key).is_none(),
        source.start() == next_start(sources),
        source.placed(),
    ensures
        laid_out(sources.push((key, source))),
{
    let after = sources.push((key, source));
    assert forall|i: int| 0 <= i < after.len() implies (#[trigger] after[i]).1.start()
        == next_start(after.take(i)) by {
        if i < sources.len() {
            assert(after.take(i) == sources.take(i));
            assert(after[i] == sources[i]);
        } else {
            assert(after.take(i) == sources);
        }
    }
    assert forall|i: int, j: int| 0 <= i < j < after.len() implies (#[trigger] after[i]).0 != (
    #[trigger] after[j]).0 by {
        if j < sources.len() {
            assert(after[i] == sources[i]);
            assert(after[j] == sources[j]);
        } else {
            assert(after[i] == sources[i]);
        }
    }
}

/// Every source but the first starts exactly where the one before it ends,
/// and the first starts at 0.
pub proof fn lemma_offsets_chain(sources: Seq<(Seq<char>, Source)>, i: int)
    requires
        laid_out(sources),
        0 <= i < sources.len(),
    ensures
        i == 0 ==> sources[i].1.start() == 0,
        i > 0 ==> sources[i].1.start() == sources[i - 1].1.start() + byte_len(
            sources[i - 1].1.text(),
        ),
{
    if i > 0 {
        assert(sources.take(i).last() == sources[i - 1]);
    }
}

/// Sources that were loaded earlier lie wholly before those loaded later: the
/// slices of the shared space do not overlap.
pub proof fn lemma_offsets_increase(sources: Seq<(Seq<char>, Source)>, i: int, j: int)
    requires
        laid_out(sources),
        0 <= i < j < sources.len(),
    ensures
        sources[i].1.end() <= sources[j].1.start(),
    decreases j - i,
{
    lemma_offsets_chain(sources, j);
    if i < j - 1 {
        lemma_offsets_increase(sources, i, j - 1);
    }
}

/// An offset of the shared space lies in the slice of one source at most: it
/// can be traced back to the source that it came from.
pub proof fn lemma_one_source_contains(
    sources: Seq<(Seq<char>, Source)>,
    i: int,
    j: int,
    offset: int,
)
    requires
        laid_out(sources),
        0 <= i < sources.len(),
        0 <= j < sources.len(),
        sources[i].1.start() <= offset < sources[i].1.end(),
        sources[j].1.start() <= offset < sources[j].1.end(),
    ensures
        i == j,
{
    if i < j {
        lemma_offsets_increase(sources, i, j);
    } else if j < i {
        lemma_offsets_increase(sources, j, i);
    }
}

/// Loading is idempotent. Once a source was taken in under a key, whatever is
/// offered under that key again finds the source that the first load
/// returned, with its start and its text, and leaves the map as it is.
pub proof fn lemma_insert_idempotent(
    sources: Seq<(Seq<char>, Source)>,
    key: Seq<char>,
    first: Source,
    again: Source,
)
    requires
        laid_out(sources),
        placement(sources, key, first.text()) != Placement::TooLarge,
    ensures
        ({
            let after = after_insert(sources, key, first);
            &&& laid_out(after)
            &&& after_insert(after, key, again) == after
            &&& placement(after, key, again.text()) matches Placement::Cached(i)
            &&& 0 <= i < after.len()
            &&& after[i].0 == key
            &&& match placement(sources, key, first.text()) {
                Placement::Cached(h) => i == h && after[i] == sources[h],
                Placement::Placed(start) => after[i].1 == first.placed_at(start),
                Placement::TooLarge => false,
            }
        }),
{
    let after = after_insert(sources, key, first);
    match placement(sources, key, first.text()) {
        Placement::Placed(start) => {
            first.lemma_placed_at(start);
            lemma_laid_out_push(sources, key, first.placed_at(start));
            assert(after[sources.len() as int].0 == key);
        },
        _ => {},
    }
}

/// What is cached stays cached. Whatever is offered to the map later, under
/// whatever key, a source that the map holds keeps its index, its key, its
/// start and its text: the map only grows at its end.
pub proof fn lemma_cached_stays(
    sources: Seq<(Seq<char>, Source)>,
    key: Seq<char>,
    later_key: Seq<char>,
    later: Source,
)
    requires
        laid_out(sources),
        cached_at(sources, key).is_some(),
    ensures
        ({
            let after = after_insert(sources, later_key, later);
            let at = cached_at(sources, key).unwrap();
            &&& sources.len() <= after.len() <= sources.len() + 1
            &&& forall|i: int| 0 <= i < sources.len() ==> #[trigger] after[i] == sources[i]
            &&& cached_at(after, key) == Some(at)
            &&& laid_out(after)
        }),
{
    let after = after_insert(sources, later_key, later);
    let at = cached_at(sources, key).unwrap();
    match placement(sources, later_key, later.text()) {
        Placement::Placed(start) => {
            later.lemma_placed_at(start);
            lemma_laid_out_push(sources, later_key, later.placed_at(start));
        },
        _ => {},
    }
    assert(after[at] == sources[at]);
    assert(after[at].0 == key);
}

/// A source that would pass the end of the shared space is rejected, and the
/// sources of the map, their number and their order stay as they were.
pub proof fn lemma_overflow_rejected(
    sources: Seq<(Seq<char>, Source)>,
    key: Seq<char>,
    source: Source,
)
    requires
        cached_at(sources, key).is_none(),
        next_start(sources) + byte_len(source.text()) > MAX_OFFSET,
    ensures
        placement(sources, key, source.text()) == Placement::TooLarge,
        after_insert(sources, key, source) == sources,
{
}

} // verus!
