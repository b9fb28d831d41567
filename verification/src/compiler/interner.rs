//! A table that gives every distinct text one index, in the order in which
//! the texts are first seen.

use ahash::AHasher;
use indexmap::IndexSet;
use std::hash::BuildHasher;
use vstd::prelude::*;

verus! {

/// `AHasher` of `ahash`: a hasher, of which nothing is known.
#[verifier::external_type_specification]
#[verifier::external_body]
pub struct ExAHasher(AHasher);

/// `IndexSet` of `indexmap`, of which nothing is known but what the functions
/// below say.
#[verifier::external_type_specification]
#[verifier::external_body]
#[verifier::reject_recursive_types(T)]
#[verifier::reject_recursive_types(S)]
pub struct ExIndexSet<T, S>(IndexSet<T, S>);

/// Builds the hashers of the table: `AHasher`s that all hash alike within one
/// process. The order of the table does not depend on what they compute.
pub struct AHashBuilder;

impl BuildHasher for AHashBuilder {
    type Hasher = AHasher;

    /// `AHasher::default` from `ahash`: a hasher with the keys that every
    /// such hasher of the process has. They are drawn once, at first use, so
    /// another process may have others. Nothing is stated of the hasher.
    #[verifier::external_body]
    fn build_hasher(&self) -> AHasher {
        AHasher::default()
    }
}

/// The items that an `IndexSet` of texts holds, in the order of the set, each
/// by its characters.
pub uninterp spec fn set_items(set: IndexSet<String, AHashBuilder>) -> Seq<Seq<char>>;

/// Whether no text occurs twice in `values`.
pub open spec fn distinct(values: Seq<Seq<char>>) -> bool {
    forall|i: int, j: int|
        0 <= i < j < values.len() ==> #[trigger] values[i] != #[trigger] values[j]
}

/// The index at which `value` stands in `values`, if it does.
pub open spec fn index_of(values: Seq<Seq<char>>, value: Seq<char>) -> Option<int> {
    if exists|i: int| 0 <= i < values.len() && #[trigger] values[i] == value {
        Some(choose|i: int| 0 <= i < values.len() && #[trigger] values[i] == value)
    } else {
        None
    }
}

/// `IndexSet::with_hasher` from `indexmap`: the set it makes holds no item.
#[verifier::external_body]
fn items_new() -> (set: IndexSet<String, AHashBuilder>)
    ensures
        set_items(set) == Seq::<Seq<char>>::empty(),
{
    IndexSet::with_hasher(AHashBuilder)
}

/// `IndexSet::insert_full` from `indexmap`. Where the set holds an item equal
/// to `value`, it stays as it is and the call returns the index of that item
/// with `false`. Where it holds none, `value` goes to the end and the call
/// returns its index with `true`.
#[verifier::external_body]
fn items_insert(set: &mut IndexSet<String, AHashBuilder>, value: String) -> (res: (usize, bool))
    ensures
        res.1 ==> {
            &&& res.0 == set_items(*old(set)).len()
            &&& index_of(set_items(*old(set)), value@).is_none()
            &&& set_items(*final(set)) == set_items(*old(set)).push(value@)
        },
        !res.1 ==> {
            &&& res.0 < set_items(*old(set)).len()
            &&& set_items(*old(set))[res.0 as int] == value@
            &&& set_items(*final(set)) == set_items(*old(set))
        },
{
    set.insert_full(value)
}

/// `IndexSet::get_index` from `indexmap`: the item at `index`, or `None` where
/// the set holds no more than `index` items.
#[verifier::external_body]
fn items_get(set: &IndexSet<String, AHashBuilder>, index: usize) -> (item: Option<&String>)
    ensures
        match item {
            Some(value) => index < set_items(*set).len() && value@ == set_items(*set)[index as int],
            None => index >= set_items(*set).len(),
        },
{
    set.get_index(index)
}

/// The index that interning `value` gives: that of the equal text that was
/// interned before, or the number of texts so far.
pub open spec fn interned_index(values: Seq<Seq<char>>, value: Seq<char>) -> int {
    match index_of(values, value) {
        Some(i) => i,
        None => values.len() as int,
    }
}

/// The texts of the table after `value` was interned: one more only where
/// `value` is new.
pub open spec fn after_intern(values: Seq<Seq<char>>, value: Seq<char>) -> Seq<Seq<char>> {
    match index_of(values, value) {
        Some(_) => values,
        None => values.push(value),
    }
}

/// A handle for an interned text: its index in the table that gave it.
#[derive(Debug, Clone, Copy, PartialEq, Eq, Structural, Hash)]
pub struct Interned {
    index: usize,
}

impl View for Interned {
    type V = nat;

    closed spec fn view(&self) -> nat {
        self.index as nat
    }
}

impl Interned {
    /// The index that the handle stands for.
    pub fn index(&self) -> (index: usize)
        ensures
            index == self@,
    {
        self.index
    }
}

/// The table of interned texts. Nothing ever leaves it.
pub struct Interner {
    map: IndexSet<String, AHashBuilder>,
}

impl Interner {
    /// The interned texts, in the order in which they were first seen.
    pub closed spec fn values(&self) -> Seq<Seq<char>> {
        set_items(self.map)
    }

    /// Whether no text stands twice in the table. It does not in a new table,
    /// and [`Interner::intern`] keeps it so.
    pub open spec fn wf(&self) -> bool {
        distinct(self.values())
    }

    /// An empty table.
    pub fn new() -> (interner: Interner)
        ensures
            interner.wf(),
            interner.values().len() == 0,
    {
        Interner { map: items_new() }
    }

    /// Interns `value`: gives the handle of the equal text that was interned
    /// before, or appends `value` and gives the handle of its new index, which
    /// is the number of texts that the table held.
    pub fn intern(&mut self, value: String) -> (handle: Interned)
        requires
            old(self).wf(),
        ensures
            final(self).wf(),
            final(self).values() == after_intern(old(self).values(), value@),
            handle@ == interned_index(old(self).values(), value@),
            0 <= handle@ < final(self).values().len(),
            final(self).values()[handle@ as int] == value@,
    {
        let ghost before = self.values();
        let (index, _) = items_insert(&mut self.map, value);
        proof {
            lemma_after_intern(before, value@);
        }
        Interned { index }
    }

    /// The text that `interned` stands for, or `None` where the table holds
    /// no text at its index.
    pub fn try_lookup(&self, interned: Interned) -> (value: Option<&String>)
        ensures
            match value {
                Some(text) => interned@ < self.values().len() && text@
                    == self.values()[interned@ as int],
                None => interned@ >= self.values().len(),
            },
    {
        items_get(&self.map, interned.index)
    }

    /// The text that `interned` stands for. The handle has to come from this
    /// table.
    pub fn lookup(&self, interned: Interned) -> (value: &String)
        requires
            interned@ < self.values().len(),
        ensures
            value@ == self.values()[interned@ as int],
    {
        self.try_lookup(interned).unwrap()
    }
}

impl Default for Interner {
    fn default() -> (interner: Interner)
        ensures
            interner.wf(),
            interner.values().len() == 0,
    {
        Interner::new()
    }
}

/// Interning keeps the texts distinct and puts the text at the index given.
pub proof fn lemma_after_intern(values: Seq<Seq<char>>, value: Seq<char>)
    requires
        distinct(values),
    ensures
        distinct(after_intern(values, value)),
        0 <= interned_index(values, value) < after_intern(values, value).len(),
        after_intern(values, value)[interned_index(values, value)] == value,
        forall|i: int|
            0 <= i < values.len() ==> #[trigger] after_intern(values, value)[i] == values[i],
{
    if index_of(values, value).is_none() {
        let after = values.push(value);
        assert forall|i: int, j: int| 0 <= i < j < after.len() implies #[trigger] after[i]
            != #[trigger] after[j] by {
            assert(after[i] == values[i]);
            if j < values.len() {
                assert(after[j] == values[j]);
            }
        }
    }
}

/// Interning removes duplicates. Two equal texts get the same index, whatever
/// was interned between them; and of two distinct texts that are both new,
/// the one interned first gets the smaller index: the indices grow in the
/// order in which the texts are first seen.
pub proof fn lemma_intern_dedup(values: Seq<Seq<char>>, first: Seq<char>, second: Seq<char>)
    requires
        distinct(values),
    ensures
        ({
            let between = after_intern(values, first);
            let after = after_intern(between, second);
            &&& first == second ==> interned_index(between, second) == interned_index(
                values,
                first,
            ) && after == between
            &&& interned_index(after, first) == interned_index(values, first)
            &&& first != second && index_of(values, first).is_none() && index_of(
                values,
                second,
            ).is_none() ==> interned_index(values, first) == values.len() && interned_index(
                between,
                second,
            ) == values.len() + 1
        }),
{
    let between = after_intern(values, first);
    let after = after_intern(between, second);
    lemma_after_intern(values, first);
    lemma_after_intern(between, second);
    let at = interned_index(values, first);
    assert(between[at] == first);
    assert(after[at] == first);
    if first != second && index_of(values, first).is_none() && index_of(values, second).is_none() {
        if index_of(between, second).is_some() {
            let k = index_of(between, second).unwrap();
            if k < values.len() {
                assert(values[k] == second);
            }
        }
    }
}

} // verus!
