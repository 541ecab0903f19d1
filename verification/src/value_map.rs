//! Maps from strings to values: the metadata, parameters and routing context that
//! messages carry.
use vstd::prelude::*;

use crate::packstream::{find_key, keys_distinct, map_insert};
use crate::roundtrip::{lemma_find_key_absent, lemma_find_key_skip};
use crate::value::{copy_value, BoltValue, ValueModel};

verus! {

/// A map from strings to values, held as its entries in order. Maps built through
/// [`ValueMap::insert`] never hold two entries with equal keys.
#[derive(Debug)]
pub struct ValueMap {
    pub value: Vec<(String, BoltValue)>,
}

/// Metadata of a message.
pub type Metadata = ValueMap;

/// Parameters of a query.
pub type Params = ValueMap;

/// Routing context of a `ROUTE` message.
pub type RoutingContext = ValueMap;

/// The entries of a string-keyed map as the entries of a dictionary value.
pub open spec fn string_entries(e: Seq<(String, BoltValue)>) -> Seq<(ValueModel, ValueModel)>
    decreases e.len(),
{
    if e.len() == 0 {
        Seq::empty()
    } else {
        string_entries(e.drop_last()).push((ValueModel::String(e.last().0@), e.last().1@))
    }
}

impl View for ValueMap {
    type V = Seq<(ValueModel, ValueModel)>;

    open spec fn view(&self) -> Seq<(ValueModel, ValueModel)> {
        string_entries(self.value@)
    }
}

/// `string_entries` maps each entry to its key as a string value and its value.
pub proof fn lemma_string_entries(e: Seq<(String, BoltValue)>)
    ensures
        string_entries(e).len() == e.len(),
        forall|i: int|
            0 <= i < e.len() ==> #[trigger] string_entries(e)[i] == (
                ValueModel::String(e[i].0@),
                e[i].1@,
            ),
    decreases e.len(),
{
    if e.len() > 0 {
        lemma_string_entries(e.drop_last());
    }
}

/// The entries of a string-keyed map built by inserting the given entries in order.
pub open spec fn insert_all_strings(e: Seq<(String, BoltValue)>) -> Seq<(ValueModel, ValueModel)>
    decreases e.len(),
{
    if e.len() == 0 {
        Seq::empty()
    } else {
        map_insert(
            insert_all_strings(e.drop_last()),
            ValueModel::String(e.last().0@),
            e.last().1@,
        )
    }
}

impl ValueMap {
    /// A well-formed map holds no two entries with equal keys. Every map that this
    /// library builds or decodes is well formed.
    pub open spec fn wf(self) -> bool {
        keys_distinct(self@)
    }

    /// An empty map.
    pub fn new() -> (m: ValueMap)
        ensures
            m.wf(),
            m@ == Seq::<(ValueModel, ValueModel)>::empty(),
    {
        ValueMap { value: Vec::new() }
    }

    /// The number of entries.
    pub fn len(&self) -> (n: usize)
        ensures
            n == self@.len(),
    {
        proof {
            lemma_string_entries(self.value@);
        }
        self.value.len()
    }

    /// Whether the map has no entries.
    pub fn is_empty(&self) -> (b: bool)
        ensures
            b == (self@.len() == 0),
    {
        self.len() == 0
    }

    /// The index of the first entry whose key is `key`.
    fn position(&self, key: &str) -> (res: Option<usize>)
        ensures
            match res {
                Some(i) => {
                    &&& find_key(self@, ValueModel::String(key@), 0) == Some(i as int)
                    &&& i < self.value.len()
                    &&& self@[i as int].0 == ValueModel::String(key@)
                },
                None => find_key(self@, ValueModel::String(key@), 0) is None,
            },
    {
        proof {
            lemma_string_entries(self.value@);
        }
        let owned = key.to_owned();
        let ghost k = ValueModel::String(key@);
        let mut i: usize = 0;
        while i < self.value.len()
            invariant
                owned@ == key@,
                k == ValueModel::String(key@),
                i <= self.value.len(),
                self@.len() == self.value.len(),
                forall|j: int|
                    0 <= j < self.value.len() ==> #[trigger] self@[j] == (
                        ValueModel::String(self.value@[j].0@),
                        self.value@[j].1@,
                    ),
                forall|j: int| 0 <= j < i ==> #[trigger] self@[j].0 != k,
            decreases self.value.len() - i,
        {
            if self.value[i].0 == owned {
                proof {
                    lemma_find_key_skip(self@, k, i as int);
                }
                return Some(i);
            }
            i = i + 1;
        }
        proof {
            lemma_find_key_absent(self@, k, 0);
        }
        None
    }

    /// The value of `key`, if the map holds it.
    pub fn get(&self, key: &str) -> (res: Option<&BoltValue>)
        ensures
            match find_key(self@, ValueModel::String(key@), 0) {
                Some(i) => res matches Some(v) && v@ == self@[i].1,
                None => res is None,
            },
    {
        proof {
            lemma_string_entries(self.value@);
        }
        match self.position(key) {
            Some(i) => Some(&self.value[i].1),
            None => None,
        }
    }

    /// Removes `key` and returns its value, if the map holds it.
    pub fn remove(&mut self, key: &str) -> (res: Option<BoltValue>)
        ensures
            match find_key(old(self)@, ValueModel::String(key@), 0) {
                Some(i) => {
                    &&& res matches Some(v) && v@ == old(self)@[i].1
                    &&& final(self)@ == old(self)@.remove(i)
                },
                None => res is None && final(self)@ == old(self)@,
            },
            old(self).wf() ==> final(self).wf(),
    {
        proof {
            lemma_string_entries(self.value@);
        }
        match self.position(key) {
            Some(i) => {
                let ghost before = self.value@;
                let (_, v) = self.value.remove(i);
                proof {
                    lemma_string_entries(before);
                    lemma_string_entries(self.value@);
                    assert forall|j: int| 0 <= j < self.value@.len() implies string_entries(
                        self.value@,
                    )[j] == string_entries(before).remove(i as int)[j] by {
                        if j < i {
                            assert(self.value@[j] == before[j]);
                        } else {
                            assert(self.value@[j] == before[j + 1]);
                        }
                    }
                    assert(string_entries(self.value@) =~= string_entries(before).remove(i as int));
                    let e0 = string_entries(before);
                    if keys_distinct(e0) {
                        assert forall|a: int, b: int|
                            0 <= a < b < e0.remove(i as int).len() implies #[trigger] e0.remove(
                            i as int,
                        )[a].0 != #[trigger] e0.remove(i as int)[b].0 by {
                            let a0 = if a < i { a } else { a + 1 };
                            let b0 = if b < i { b } else { b + 1 };
                            assert(e0.remove(i as int)[a] == e0[a0]);
                            assert(e0.remove(i as int)[b] == e0[b0]);
                            assert(e0[a0].0 != e0[b0].0);
                        }
                    }
                }
                Some(v)
            },
            None => None,
        }
    }

    /// Inserts an entry: the first entry with an equal key has its value replaced, a
    /// new key is appended.
    pub fn insert(&mut self, key: String, value: BoltValue)
        ensures
            final(self)@ == map_insert(old(self)@, ValueModel::String(key@), value@),
            old(self).wf() ==> final(self).wf(),
    {
        proof {
            lemma_string_entries(self.value@);
        }
        let ghost e0 = self@;
        let ghost k = ValueModel::String(key@);
        match self.position(key.as_str()) {
            Some(i) => {
                self.value.set(i, (key, value));
                proof {
                    lemma_string_entries(self.value@);
                    assert(self@ =~= e0.update(i as int, (k, value@)));
                    if keys_distinct(e0) {
                        assert forall|a: int, b: int|
                            0 <= a < b < self@.len() implies #[trigger] self@[a].0
                            != #[trigger] self@[b].0 by {
                            assert(e0[a].0 != e0[b].0);
                        }
                    }
                }
            },
            None => {
                self.value.push((key, value));
                proof {
                    lemma_string_entries(self.value@);
                    assert(self@ =~= e0.push((k, value@)));
                    if keys_distinct(e0) {
                        assert forall|a: int, b: int|
                            0 <= a < b < self@.len() implies #[trigger] self@[a].0
                            != #[trigger] self@[b].0 by {
                            if b < e0.len() {
                                assert(e0[a].0 != e0[b].0);
                            } else {
                                if e0[a].0 == k {
                                    crate::value_map::lemma_find_key_some(e0, k, a);
                                }
                            }
                        }
                    }
                }
            },
        }
    }

    /// The map built by inserting the given entries in order; later entries replace the
    /// values of earlier ones with equal keys.
    pub fn from_entries(entries: Vec<(String, BoltValue)>) -> (m: ValueMap)
        ensures
            m@ == insert_all_strings(entries@),
            m.wf(),
    {
        let ghost orig = entries@;
        let mut m = ValueMap::new();
        let mut rest = entries;
        let mut i: usize = 0;
        let n = rest.len();
        while rest.len() > 0
            invariant
                orig.len() == n,
                i + rest.len() == n,
                rest@ == orig.skip(i as int),
                m@ == insert_all_strings(orig.take(i as int)),
                keys_distinct(m@),
            decreases rest.len(),
        {
            let ghost before = rest@;
            let (k, v) = rest.remove(0);
            proof {
                assert(orig.skip(i as int)[0] == orig[i as int]);
                assert(orig.take(i + 1).drop_last() =~= orig.take(i as int));
                assert(orig.take(i + 1).last() == orig[i as int]);
                assert forall|j: int| 0 <= j < rest@.len() implies rest@[j] == orig.skip(i + 1)[j] by {
                    assert(rest@[j] == before[j + 1]);
                    assert(orig.skip(i as int)[j + 1] == orig[i + 1 + j]);
                    assert(orig.skip(i + 1)[j] == orig[i + 1 + j]);
                }
                assert(rest@ =~= orig.skip(i + 1));
            }
            m.insert(k, v);
            i = i + 1;
        }
        assert(orig.take(n as int) =~= orig);
        m
    }
}

/// A key found from `i` on is held at the index found.
pub proof fn lemma_find_key_some(entries: Seq<(ValueModel, ValueModel)>, k: ValueModel, a: int)
    requires
        0 <= a < entries.len(),
        entries[a].0 == k,
    ensures
        find_key(entries, k, 0) is Some,
{
    if find_key(entries, k, 0) is None {
        lemma_find_key_none_absent(entries, k, 0);
    }
}

/// A key that is not found from `i` on is held by no entry from `i` on.
pub proof fn lemma_find_key_none_absent(entries: Seq<(ValueModel, ValueModel)>, k: ValueModel, i: int)
    requires
        0 <= i,
        find_key(entries, k, i) is None,
    ensures
        forall|j: int| i <= j < entries.len() ==> #[trigger] entries[j].0 != k,
    decreases entries.len() - i,
{
    if i < entries.len() {
        lemma_find_key_none_absent(entries, k, i + 1);
    }
}


/// The value that a map holds for `k`: that of the first entry with key `k`.
pub open spec fn lookup(entries: Seq<(ValueModel, ValueModel)>, k: ValueModel) -> Option<ValueModel> {
    match find_key(entries, k, 0) {
        Some(i) => Some(entries[i].1),
        None => None,
    }
}

/// Two sequences of entries whose keys equal `k` at the same positions find `k` at the
/// same position.
proof fn lemma_find_key_same(
    a: Seq<(ValueModel, ValueModel)>,
    b: Seq<(ValueModel, ValueModel)>,
    k: ValueModel,
    i: int,
)
    requires
        0 <= i,
        a.len() == b.len(),
        forall|j: int| 0 <= j < a.len() ==> (#[trigger] a[j].0 == k <==> #[trigger] b[j].0 == k),
    ensures
        find_key(a, k, i) == find_key(b, k, i),
    decreases a.len() - i,
{
    if i < a.len() {
        lemma_find_key_same(a, b, k, i + 1);
    }
}

/// Appending an entry with another key does not change where `k` is found.
proof fn lemma_find_key_push_other(
    a: Seq<(ValueModel, ValueModel)>,
    x: (ValueModel, ValueModel),
    k: ValueModel,
    i: int,
)
    requires
        0 <= i,
        x.0 != k,
    ensures
        find_key(a.push(x), k, i) == find_key(a, k, i),
    decreases a.len() + 1 - i,
{
    if i < a.len() {
        assert(a.push(x)[i] == a[i]);
        lemma_find_key_push_other(a, x, k, i + 1);
    } else if i == a.len() {
        assert(a.push(x)[i] == x);
        assert(find_key(a.push(x), k, i + 1) is None);
    }
}

/// Where `k` is found, it is held there and by no earlier entry.
proof fn lemma_find_key_found(entries: Seq<(ValueModel, ValueModel)>, k: ValueModel, i: int, f: int)
    requires
        0 <= i,
        find_key(entries, k, i) == Some(f),
    ensures
        i <= f < entries.len(),
        entries[f].0 == k,
        forall|j: int| i <= j < f ==> #[trigger] entries[j].0 != k,
    decreases entries.len() - i,
{
    if i < entries.len() && entries[i].0 != k {
        lemma_find_key_found(entries, k, i + 1, f);
    }
}

/// Reading a key back after inserting it gives the inserted value; every other key
/// reads as before.
pub proof fn law_lookup_after_insert(
    entries: Seq<(ValueModel, ValueModel)>,
    k: ValueModel,
    v: ValueModel,
    other: ValueModel,
)
    requires
        other != k,
    ensures
        lookup(map_insert(entries, k, v), k) == Some(v),
        lookup(map_insert(entries, k, v), other) == lookup(entries, other),
{
    let after = map_insert(entries, k, v);
    match find_key(entries, k, 0) {
        Some(f) => {
            lemma_find_key_found(entries, k, 0, f);
            assert(after == entries.update(f, (k, v)));
            assert forall|j: int| 0 <= j < f implies #[trigger] after[j].0 != k by {
                assert(after[j] == entries[j]);
            }
            lemma_find_key_skip(after, k, f);
            assert(find_key(after, k, f) == Some(f));
            assert forall|j: int| 0 <= j < entries.len() implies (#[trigger] entries[j].0 == other
                <==> #[trigger] after[j].0 == other) by {
                if j != f {
                    assert(after[j] == entries[j]);
                }
            }
            lemma_find_key_same(entries, after, other, 0);
            match find_key(entries, other, 0) {
                Some(g) => {
                    lemma_find_key_found(entries, other, 0, g);
                    assert(after[g] == entries[g]);
                },
                None => {},
            }
        },
        None => {
            lemma_find_key_none_absent(entries, k, 0);
            assert(after == entries.push((k, v)));
            assert forall|j: int| 0 <= j < entries.len() implies #[trigger] after[j].0 != k by {
                assert(after[j] == entries[j]);
            }
            lemma_find_key_skip(after, k, entries.len() as int);
            assert(find_key(after, k, entries.len() as int) == Some(entries.len() as int));
            lemma_find_key_push_other(entries, (k, v), other, 0);
            match find_key(entries, other, 0) {
                Some(g) => {
                    lemma_find_key_found(entries, other, 0, g);
                    assert(after[g] == entries[g]);
                },
                None => {},
            }
        },
    }
}

impl Clone for ValueMap {
    /// A copy with the same entries.
    fn clone(&self) -> (r: ValueMap)
        ensures
            r@ == self@,
    {
        let mut entries: Vec<(String, BoltValue)> = Vec::new();
        let mut i: usize = 0;
        while i < self.value.len()
            invariant
                i <= self.value.len(),
                entries.len() == i,
                forall|j: int|
                    0 <= j < i ==> (#[trigger] entries@[j]).0@ == self.value@[j].0@
                        && entries@[j].1@ == self.value@[j].1@,
            decreases self.value.len() - i,
        {
            let k = self.value[i].0.clone();
            let v = copy_value(&self.value[i].1);
            entries.push((k, v));
            i = i + 1;
        }
        proof {
            lemma_string_entries(entries@);
            lemma_string_entries(self.value@);
            assert forall|j: int| 0 <= j < entries.len() implies string_entries(entries@)[j]
                == string_entries(self.value@)[j] by {
                assert(entries@[j].0@ == self.value@[j].0@);
            }
            assert(string_entries(entries@) =~= string_entries(self.value@));
        }
        ValueMap { value: entries }
    }
}

impl Default for ValueMap {
    /// An empty map.
    fn default() -> (m: ValueMap)
        ensures
            m@ == Seq::<(ValueModel, ValueModel)>::empty(),
    {
        ValueMap::new()
    }
}

/// In a map whose keys are distinct, a removed key reads as absent afterwards, and
/// every other key reads as before.
pub proof fn law_lookup_after_remove(
    entries: Seq<(ValueModel, ValueModel)>,
    k: ValueModel,
    other: ValueModel,
)
    requires
        keys_distinct(entries),
        find_key(entries, k, 0) is Some,
        other != k,
    ensures
        lookup(entries.remove(find_key(entries, k, 0)->0), k) is None,
        lookup(entries.remove(find_key(entries, k, 0)->0), other) == lookup(entries, other),
{
    let f = find_key(entries, k, 0)->0;
    lemma_find_key_found(entries, k, 0, f);
    let after = entries.remove(f);
    assert forall|j: int| 0 <= j < after.len() implies #[trigger] after[j].0 != k by {
        if j < f {
            assert(after[j] == entries[j]);
        } else {
            assert(after[j] == entries[j + 1]);
            assert(entries[f].0 != entries[j + 1].0);
        }
    }
    lemma_find_key_absent(after, k, 0);
    match find_key(entries, other, 0) {
        Some(g) => {
            lemma_find_key_found(entries, other, 0, g);
            assert(g != f);
            if g < f {
                assert forall|j: int| 0 <= j < g implies #[trigger] after[j].0 != other by {
                    assert(after[j] == entries[j]);
                }
                assert(after[g] == entries[g]);
                lemma_find_key_skip(after, other, g);
            } else {
                assert forall|j: int| 0 <= j < g - 1 implies #[trigger] after[j].0 != other by {
                    if j < f {
                        assert(after[j] == entries[j]);
                    } else {
                        assert(after[j] == entries[j + 1]);
                    }
                }
                assert(after[g - 1] == entries[g]);
                lemma_find_key_skip(after, other, g - 1);
            }
        },
        None => {
            lemma_find_key_none_absent(entries, other, 0);
            assert forall|j: int| 0 <= j < after.len() implies #[trigger] after[j].0 != other by {
                if j < f {
                    assert(after[j] == entries[j]);
                } else {
                    assert(after[j] == entries[j + 1]);
                }
            }
            lemma_find_key_absent(after, other, 0);
        },
    }
}
} // verus!
