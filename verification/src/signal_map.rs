//! A mapping from signal names to values that keeps its entries in the order
//! in which the names first arrived.
//!
//! The order carries no meaning of its own, but every stage of the pipeline
//! walks its input front to back, and sums that round depend on the order of
//! their terms. Keeping the order in the model lets a contract say which sum
//! was computed.

use vstd::hash_map::StringHashMap;
use vstd::prelude::*;

verus! {

/// The names of `entries`, in order.
pub open spec fn names<V>(entries: Seq<(Seq<char>, V)>) -> Seq<Seq<char>> {
    Seq::new(entries.len(), |i: int| entries[i].0)
}

/// The values of `entries`, in order.
pub open spec fn values<V>(entries: Seq<(Seq<char>, V)>) -> Seq<V> {
    Seq::new(entries.len(), |i: int| entries[i].1)
}

/// No name occurs twice.
pub open spec fn distinct_names<V>(entries: Seq<(Seq<char>, V)>) -> bool {
    forall|i: int, j: int| 0 <= i < j < entries.len() ==> entries[i].0 != entries[j].0
}

/// Index of the first entry called `name`, if there is one.
pub open spec fn position<V>(entries: Seq<(Seq<char>, V)>, name: Seq<char>) -> Option<int>
    decreases entries.len(),
{
    if entries.len() == 0 {
        None
    } else if entries[0].0 == name {
        Some(0)
    } else {
        match position(entries.drop_first(), name) {
            Some(i) => Some(i + 1),
            None => None,
        }
    }
}

/// The value stored under `name`, if there is one.
pub open spec fn lookup<V>(entries: Seq<(Seq<char>, V)>, name: Seq<char>) -> Option<V> {
    match position(entries, name) {
        Some(i) => Some(entries[i].1),
        None => None,
    }
}

/// `entries` after storing `value` under `name`: an entry of that name is
/// overwritten in place, a new name goes to the end.
pub open spec fn inserted<V>(entries: Seq<(Seq<char>, V)>, name: Seq<char>, value: V) -> Seq<
    (Seq<char>, V),
> {
    match position(entries, name) {
        Some(i) => entries.update(i, (name, value)),
        None => entries.push((name, value)),
    }
}

/// The entries that carry the names of `labels`, in their order, with the
/// values of `values`.
pub open spec fn relabeled<W, V>(labels: Seq<(Seq<char>, W)>, values: Seq<V>) -> Seq<
    (Seq<char>, V),
> {
    Seq::new(labels.len(), |i: int| (labels[i].0, values[i]))
}

/// The first entry called `name` is where `position` says.
pub proof fn lemma_position_first<V>(entries: Seq<(Seq<char>, V)>, name: Seq<char>, at: int)
    requires
        0 <= at < entries.len(),
        entries[at].0 == name,
        forall|k: int| 0 <= k < at ==> entries[k].0 != name,
    ensures
        position(entries, name) == Some(at),
    decreases at,
{
    if at > 0 {
        lemma_position_first(entries.drop_first(), name, at - 1);
    }
}

/// `position` finds nothing exactly when no entry is called `name`; what it
/// finds is an entry of that name with none before it.
pub proof fn lemma_position_sound<V>(entries: Seq<(Seq<char>, V)>, name: Seq<char>)
    ensures
        match position(entries, name) {
            Some(at) => 0 <= at < entries.len() && entries[at].0 == name && forall|k: int|
                0 <= k < at ==> entries[k].0 != name,
            None => forall|k: int| 0 <= k < entries.len() ==> entries[k].0 != name,
        },
    decreases entries.len(),
{
    if entries.len() > 0 && entries[0].0 != name {
        let rest = entries.drop_first();
        lemma_position_sound(rest, name);
        match position(rest, name) {
            Some(at) => {
                assert forall|k: int| 0 <= k < at + 1 implies entries[k].0 != name by {
                    if k > 0 {
                        assert(entries[k] == rest[k - 1]);
                    }
                }
            },
            None => {
                assert forall|k: int| 0 <= k < entries.len() implies entries[k].0 != name by {
                    if k > 0 {
                        assert(entries[k] == rest[k - 1]);
                    }
                }
            },
        }
    }
}

/// In a mapping without repeated names, every entry is found under its name.
pub proof fn lemma_lookup_entry<V>(entries: Seq<(Seq<char>, V)>, at: int)
    requires
        distinct_names(entries),
        0 <= at < entries.len(),
    ensures
        position(entries, entries[at].0) == Some(at),
        lookup(entries, entries[at].0) == Some(entries[at].1),
{
    lemma_position_first(entries, entries[at].0, at);
}

/// Storing a value keeps names distinct, and the stored value is found.
pub proof fn lemma_inserted<V>(entries: Seq<(Seq<char>, V)>, name: Seq<char>, value: V)
    requires
        distinct_names(entries),
    ensures
        distinct_names(inserted(entries, name, value)),
        lookup(inserted(entries, name, value), name) == Some(value),
        forall|other: Seq<char>|
            other != name ==> lookup(inserted(entries, name, value), other) == lookup(
                entries,
                other,
            ),
{
    let after = inserted(entries, name, value);
    lemma_position_sound(entries, name);
    match position(entries, name) {
        Some(at) => {
            lemma_position_first(after, name, at);
        },
        None => {
            lemma_position_first(after, name, entries.len() as int);
        },
    }
    assert forall|other: Seq<char>| other != name implies lookup(after, other) == lookup(
        entries,
        other,
    ) by {
        lemma_position_sound(entries, other);
        match position(entries, other) {
            Some(at) => {
                lemma_position_first(after, other, at);
            },
            None => {
                lemma_position_sound(after, other);
            },
        }
    }
}

/// An insertion-ordered mapping from signal names to values of type `V`.
/// No name occurs twice. The entries lie in a vector; a hash index from each
/// name to its place finds an entry without walking them.
pub struct SignalMap<V> {
    entries: Vec<(String, V)>,
    index: StringHashMap<usize>,
}

/// What stored entries mean: each name by its characters.
spec fn entries_view<V>(entries: Seq<(String, V)>) -> Seq<(Seq<char>, V)> {
    Seq::new(entries.len(), |i: int| (entries[i].0@, entries[i].1))
}

/// `index` knows every name of `entries` with its place, and nothing else.
spec fn indexes<V>(index: Map<Seq<char>, usize>, entries: Seq<(Seq<char>, V)>) -> bool {
    &&& forall|i: int|
        0 <= i < entries.len() ==> index.contains_key(#[trigger] entries[i].0)
            && index[entries[i].0] == i
    &&& forall|name: Seq<char>| #[trigger]
        index.contains_key(name) ==> index[name] < entries.len()
            && entries[index[name] as int].0 == name
}

/// An index allows no name twice, and finds what `position` finds.
proof fn lemma_indexed<V>(index: Map<Seq<char>, usize>, entries: Seq<(Seq<char>, V)>)
    requires
        indexes(index, entries),
    ensures
        distinct_names(entries),
        forall|name: Seq<char>|
            #![trigger position(entries, name)]
            position(entries, name) == if index.contains_key(name) {
                Some(index[name] as int)
            } else {
                None
            },
{
    assert forall|i: int, j: int| 0 <= i < j < entries.len() implies entries[i].0
        != entries[j].0 by {
        assert(index[entries[i].0] == i);
        assert(index[entries[j].0] == j);
    }
    assert forall|name: Seq<char>| #![trigger position(entries, name)]
        position(entries, name) == if index.contains_key(name) {
            Some(index[name] as int)
        } else {
            None
        } by {
        if index.contains_key(name) {
            lemma_lookup_entry(entries, index[name] as int);
        } else {
            lemma_position_sound(entries, name);
            if position(entries, name) is Some {
                let at = position(entries, name)->0;
                assert(index.contains_key(entries[at].0));
            }
        }
    }
}

impl<V> View for SignalMap<V> {
    type V = Seq<(Seq<char>, V)>;

    closed spec fn view(&self) -> Seq<(Seq<char>, V)> {
        entries_view(self.entries@)
    }
}

impl<V> SignalMap<V> {
    #[verifier::type_invariant]
    spec fn index_is_true(&self) -> bool {
        indexes(self.index@, self@)
    }
}

impl<V: Copy> SignalMap<V> {
    /// The empty mapping.
    pub fn new() -> (r: Self)
        ensures
            r@ == Seq::<(Seq<char>, V)>::empty(),
    {
        SignalMap { entries: Vec::new(), index: StringHashMap::new() }
    }

    /// Number of entries; no two of them share a name.
    pub fn len(&self) -> (r: usize)
        ensures
            r == self@.len(),
            distinct_names(self@),
    {
        proof {
            use_type_invariant(self);
            lemma_indexed(self.index@, self@);
        }
        self.entries.len()
    }

    /// Whether the mapping has no entry.
    pub fn is_empty(&self) -> (r: bool)
        ensures
            r == (self@.len() == 0),
    {
        self.entries.len() == 0
    }

    /// Name of the entry at `index`.
    pub fn name(&self, index: usize) -> (r: &String)
        requires
            index < self@.len(),
        ensures
            r@ == self@[index as int].0,
    {
        &self.entries[index].0
    }

    /// Value of the entry at `index`.
    pub fn value(&self, index: usize) -> (r: V)
        requires
            index < self@.len(),
        ensures
            r == self@[index as int].1,
    {
        self.entries[index].1
    }

    /// The value stored under `name`.
    pub fn get(&self, name: &String) -> (r: Option<V>)
        ensures
            r == lookup(self@, name@),
    {
        proof {
            use_type_invariant(self);
            lemma_indexed(self.index@, self@);
        }
        match self.index.get(name.as_str()) {
            Some(at) => Some(self.entries[*at].1),
            None => None,
        }
    }

    /// Stores `value` under `name`, in place of the value that the name had.
    pub fn insert(&mut self, name: String, value: V)
        ensures
            final(self)@ == inserted(old(self)@, name@, value),
    {
        proof {
            use_type_invariant(&*self);
            lemma_indexed(self.index@, self@);
        }
        let ghost before = self@;
        let mut taken: SignalMap<V> = SignalMap::new();
        core::mem::swap(&mut taken, self);
        let SignalMap { mut entries, mut index } = taken;
        assert(before =~= entries_view(entries@));
        let found: Option<usize> = match index.get(name.as_str()) {
            Some(at) => Some(*at),
            None => None,
        };
        match found {
            Some(at) => {
                entries.set(at, (name, value));
            },
            None => {
                index.insert(name.clone(), entries.len());
                entries.push((name, value));
            },
        }
        assert(entries_view(entries@) =~= inserted(before, name@, value));
        *self = SignalMap { entries, index };
    }

    /// The mapping that gives the names of `labels`, in their order, the
    /// values of `values`.
    pub fn relabel<W: Copy>(labels: &SignalMap<W>, values: Vec<V>) -> (r: Self)
        requires
            values@.len() == labels@.len(),
        ensures
            r@ == relabeled(labels@, values@),
    {
        let n: usize = labels.len();
        let mut entries: Vec<(String, V)> = Vec::new();
        let mut index: StringHashMap<usize> = StringHashMap::new();
        let mut i: usize = 0;
        while i < n
            invariant
                i <= n == values@.len() == labels@.len(),
                distinct_names(labels@),
                entries@.len() == i,
                forall|k: int|
                    #![trigger entries@[k]]
                    0 <= k < i ==> entries@[k].0@ == labels@[k].0 && entries@[k].1 == values@[k],
                indexes(index@, entries_view(entries@)),
            decreases n - i,
        {
            let name: &String = labels.name(i);
            let ghost shorter = entries_view(entries@);
            proof {
                if index@.contains_key(name@) {
                    let at = index@[name@] as int;
                    assert(shorter[at].0 == name@);
                    assert(entries@[at].0@ == labels@[at].0);
                }
            }
            index.insert(name.clone(), i);
            entries.push((name.clone(), values[i]));
            proof {
                let longer = entries_view(entries@);
                assert forall|k: int| 0 <= k < longer.len() implies index@.contains_key(
                    #[trigger] longer[k].0,
                ) && index@[longer[k].0] == k by {
                    if k < i {
                        assert(longer[k] == shorter[k]);
                    }
                }
                assert forall|other: Seq<char>| #[trigger]
                    index@.contains_key(other) implies index@[other] < longer.len()
                    && longer[index@[other] as int].0 == other by {
                    if other != name@ {
                        assert(longer[index@[other] as int] == shorter[index@[other] as int]);
                    }
                }
            }
            i += 1;
        }
        assert(entries_view(entries@) =~= relabeled(labels@, values@));
        SignalMap { entries, index }
    }
}

impl<V: Copy> Clone for SignalMap<V> {
    fn clone(&self) -> (r: Self)
        ensures
            r@ == self@,
    {
        let n: usize = self.len();
        let mut copied: Vec<V> = Vec::new();
        let mut i: usize = 0;
        while i < n
            invariant
                i <= n == self@.len(),
                copied@.len() == i,
                forall|k: int| #![trigger copied@[k]] 0 <= k < i ==> copied@[k] == self@[k].1,
            decreases n - i,
        {
            copied.push(self.value(i));
            i += 1;
        }
        let r: SignalMap<V> = SignalMap::relabel(self, copied);
        assert(r@ =~= self@);
        r
    }
}

} // verus!
