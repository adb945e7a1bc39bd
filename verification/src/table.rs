//! A table keyed by text, kept in the byte order of its keys.

use vstd::prelude::*;
use vstd::utf8::*;

use crate::text;

verus! {

/// Byte strings in dictionary order.
pub open spec fn bytes_before(a: Seq<u8>, b: Seq<u8>) -> bool
    decreases a.len(),
{
    if b.len() == 0 {
        false
    } else if a.len() == 0 {
        true
    } else if a[0] != b[0] {
        a[0] < b[0]
    } else {
        bytes_before(a.drop_first(), b.drop_first())
    }
}

/// Texts in the order of their bytes.
pub open spec fn text_before(a: Seq<char>, b: Seq<char>) -> bool {
    bytes_before(encode_utf8(a), encode_utf8(b))
}

proof fn lemma_before_transitive(a: Seq<u8>, b: Seq<u8>, c: Seq<u8>)
    requires
        bytes_before(a, b),
        bytes_before(b, c),
    ensures
        bytes_before(a, c),
    decreases a.len(),
{
    if a.len() > 0 && a[0] == b[0] && b[0] == c[0] {
        lemma_before_transitive(a.drop_first(), b.drop_first(), c.drop_first());
    }
}

proof fn lemma_before_irreflexive(a: Seq<u8>)
    ensures
        !bytes_before(a, a),
    decreases a.len(),
{
    if a.len() > 0 {
        lemma_before_irreflexive(a.drop_first());
    }
}

proof fn lemma_before_total(a: Seq<u8>, b: Seq<u8>)
    ensures
        a == b || bytes_before(a, b) || bytes_before(b, a),
    decreases a.len(),
{
    if a.len() == 0 {
        if b.len() == 0 {
            assert(a =~= b);
        }
    } else if b.len() > 0 && a[0] == b[0] {
        lemma_before_total(a.drop_first(), b.drop_first());
        if a.drop_first() == b.drop_first() {
            assert(a =~= seq![a[0]] + a.drop_first());
            assert(b =~= seq![b[0]] + b.drop_first());
        }
    }
}

/// If `a` comes before `b` and `c` does not, then `a` comes before `c`.
pub proof fn lemma_bytes_chain(a: Seq<u8>, b: Seq<u8>, c: Seq<u8>)
    requires
        bytes_before(a, b),
        !bytes_before(c, b),
    ensures
        bytes_before(a, c),
{
    lemma_before_total(b, c);
    if bytes_before(b, c) {
        lemma_before_transitive(a, b, c);
    }
}

/// Of two byte strings at most one comes before the other.
pub proof fn lemma_bytes_strict(a: Seq<u8>, b: Seq<u8>)
    ensures
        !(bytes_before(a, b) && bytes_before(b, a)),
{
    if bytes_before(a, b) && bytes_before(b, a) {
        lemma_before_transitive(a, b, a);
        lemma_before_irreflexive(a);
    }
}

/// The same of texts.
pub proof fn lemma_order_chain(a: Seq<char>, b: Seq<char>, c: Seq<char>)
    requires
        text_before(a, b),
        !text_before(c, b),
    ensures
        text_before(a, c),
{
    lemma_bytes_chain(encode_utf8(a), encode_utf8(b), encode_utf8(c));
}

/// Of two texts at most one comes before the other.
pub proof fn lemma_order_strict(a: Seq<char>, b: Seq<char>)
    ensures
        !(text_before(a, b) && text_before(b, a)),
{
    lemma_bytes_strict(encode_utf8(a), encode_utf8(b));
}

/// Texts with the same bytes are the same.
pub proof fn lemma_same_bytes(a: Seq<char>, b: Seq<char>)
    requires
        encode_utf8(a) == encode_utf8(b),
    ensures
        a == b,
{
    encode_utf8_decode_utf8(a);
    encode_utf8_decode_utf8(b);
}

/// Does `a` come before `b`?
pub fn comes_before(a: &str, b: &str) -> (r: bool)
    ensures
        r == text_before(a@, b@),
{
    bytes_come_before(a.as_bytes(), b.as_bytes())
}

pub fn bytes_come_before(x: &[u8], y: &[u8]) -> (r: bool)
    ensures
        r == bytes_before(x@, y@),
{
    let mut i: usize = 0;
    proof {
        assert(x@.skip(0) =~= x@);
        assert(y@.skip(0) =~= y@);
    }
    while i < x.len() && i < y.len()
        invariant
            i <= x@.len(),
            i <= y@.len(),
            bytes_before(x@, y@) == bytes_before(x@.skip(i as int), y@.skip(i as int)),
        decreases x@.len() - i,
    {
        if x[i] != y[i] {
            return x[i] < y[i];
        }
        proof {
            assert(x@.skip(i as int).drop_first() =~= x@.skip(i + 1));
            assert(y@.skip(i as int).drop_first() =~= y@.skip(i + 1));
        }
        i = i + 1;
    }
    i < y.len()
}

/// A key with its value.
#[derive(Debug)]
pub struct Entry<V> {
    pub key: String,
    pub value: V,
}

pub open spec fn keys_ascend<V>(entries: Seq<Entry<V>>) -> bool {
    forall|i: int, j: int|
        0 <= i < j < entries.len() ==> text_before(
            (#[trigger] entries[i]).key@,
            (#[trigger] entries[j]).key@,
        )
}

/// The map that a list of entries with distinct keys stands for.
pub open spec fn entries_map<V>(entries: Seq<Entry<V>>) -> Map<Seq<char>, V>
    decreases entries.len(),
{
    if entries.len() == 0 {
        Map::empty()
    } else {
        entries_map(entries.drop_last()).insert(entries.last().key@, entries.last().value)
    }
}

/// Texts with values; its view is the map, and `list` gives the order.
#[derive(Debug)]
pub struct Table<V> {
    entries: Vec<Entry<V>>,
}

impl<V> View for Table<V> {
    type V = Map<Seq<char>, V>;

    closed spec fn view(&self) -> Map<Seq<char>, V> {
        entries_map(self.entries@)
    }
}

proof fn lemma_key_apart<V>(entries: Seq<Entry<V>>, i: int, j: int)
    requires
        keys_ascend(entries),
        0 <= i < entries.len(),
        0 <= j < entries.len(),
        entries[i].key@ == entries[j].key@,
    ensures
        i == j,
{
    lemma_before_irreflexive(encode_utf8(entries[i].key@));
}

proof fn lemma_ascend_shorter<V>(entries: Seq<Entry<V>>)
    requires
        keys_ascend(entries),
        entries.len() > 0,
    ensures
        keys_ascend(entries.drop_last()),
{
}

/// What the map holds at the key of an entry.
proof fn lemma_map_at<V>(entries: Seq<Entry<V>>, i: int)
    requires
        keys_ascend(entries),
        0 <= i < entries.len(),
    ensures
        entries_map(entries).contains_key(entries[i].key@),
        entries_map(entries)[entries[i].key@] == entries[i].value,
    decreases entries.len(),
{
    if i < entries.len() - 1 {
        lemma_ascend_shorter(entries);
        lemma_map_at(entries.drop_last(), i);
        if entries[i].key@ == entries.last().key@ {
            lemma_key_apart(entries, i, entries.len() - 1);
        }
    }
}

/// Every key of the map is the key of an entry.
proof fn lemma_map_key<V>(entries: Seq<Entry<V>>, key: Seq<char>) -> (i: int)
    requires
        entries_map(entries).contains_key(key),
    ensures
        0 <= i < entries.len(),
        entries[i].key@ == key,
    decreases entries.len(),
{
    if entries.last().key@ == key {
        entries.len() - 1
    } else {
        lemma_map_key(entries.drop_last(), key)
    }
}

/// Two lists stand for the same map where the one has an entry for each of the
/// other's, but for `key`.
proof fn lemma_map_insert<V>(old: Seq<Entry<V>>, new: Seq<Entry<V>>, p: int)
    requires
        keys_ascend(old),
        keys_ascend(new),
        0 <= p < new.len(),
        forall|j: int|
            0 <= j < old.len() ==> old[j].key@ == new[p].key@ || exists|k: int|
                0 <= k < new.len() && new[k].key@ == (#[trigger] old[j]).key@ && new[k].value
                    == old[j].value,
        forall|k: int|
            0 <= k < new.len() && k != p ==> exists|j: int|
                0 <= j < old.len() && old[j].key@ == (#[trigger] new[k]).key@ && new[k].value
                    == old[j].value,
    ensures
        entries_map(new) == entries_map(old).insert(new[p].key@, new[p].value),
{
    let a = entries_map(new);
    let b = entries_map(old).insert(new[p].key@, new[p].value);
    assert forall|key: Seq<char>| a.contains_key(key) implies #[trigger] b.contains_key(key) && a[key]
        == b[key] by {
        let k = lemma_map_key(new, key);
        lemma_map_at(new, k);
        if k != p {
            let j = choose|j: int|
                0 <= j < old.len() && old[j].key@ == new[k].key@ && new[k].value == old[j].value;
            lemma_map_at(old, j);
            if new[k].key@ == new[p].key@ {
                lemma_key_apart(new, k, p);
            }
        }
    }
    assert forall|key: Seq<char>| #[trigger] b.contains_key(key) implies a.contains_key(key) by {
        if key == new[p].key@ {
            lemma_map_at(new, p);
        } else {
            let j = lemma_map_key(old, key);
            let k = choose|k: int|
                0 <= k < new.len() && new[k].key@ == old[j].key@ && new[k].value == old[j].value;
            lemma_map_at(new, k);
        }
    }
    assert(a =~= b);
}

proof fn lemma_map_remove<V>(old: Seq<Entry<V>>, p: int)
    requires
        keys_ascend(old),
        0 <= p < old.len(),
    ensures
        keys_ascend(old.remove(p)),
        entries_map(old.remove(p)) == entries_map(old).remove(old[p].key@),
{
    let new = old.remove(p);
    assert forall|i: int, j: int| 0 <= i < j < new.len() implies text_before(
        (#[trigger] new[i]).key@,
        (#[trigger] new[j]).key@,
    ) by {
        let i0 = if i < p { i } else { i + 1 };
        let j0 = if j < p { j } else { j + 1 };
        assert(new[i] == old[i0] && new[j] == old[j0]);
    }
    let a = entries_map(new);
    let b = entries_map(old).remove(old[p].key@);
    assert forall|key: Seq<char>| a.contains_key(key) implies #[trigger] b.contains_key(key) && a[key]
        == b[key] by {
        let k = lemma_map_key(new, key);
        lemma_map_at(new, k);
        let k0 = if k < p { k } else { k + 1 };
        assert(new[k] == old[k0]);
        lemma_map_at(old, k0);
        if old[k0].key@ == old[p].key@ {
            lemma_key_apart(old, k0, p);
        }
    }
    assert forall|key: Seq<char>| #[trigger] b.contains_key(key) implies a.contains_key(key) by {
        let j = lemma_map_key(old, key);
        let k = if j < p { j } else { j - 1 };
        assert(new[k] == old[j]);
        lemma_map_at(new, k);
    }
    assert(a =~= b);
}

impl<V> Table<V> {
    #[verifier::type_invariant]
    spec fn well_formed(self) -> bool {
        keys_ascend(self.entries@)
    }

    /// The keys in order.
    pub closed spec fn keys(&self) -> Seq<Seq<char>> {
        self.entries@.map_values(|e: Entry<V>| e.key@)
    }

    pub fn new() -> (table: Table<V>)
        ensures
            table@ == Map::<Seq<char>, V>::empty(),
            table.keys() == Seq::<Seq<char>>::empty(),
    {
        let table = Table { entries: Vec::new() };
        assert(table.keys() =~= Seq::<Seq<char>>::empty());
        table
    }

    /// The number of entries. The keys ascend, and are those of the map.
    pub fn len(&self) -> (n: usize)
        ensures
            n == self.keys().len(),
            n == self@.dom().len(),
            self@.dom() == self.keys().to_set(),
            self@.dom().finite(),
            self.keys().no_duplicates(),
            forall|i: int, j: int|
                0 <= i < j < self.keys().len() ==> text_before(
                    #[trigger] self.keys()[i],
                    #[trigger] self.keys()[j],
                ),
            forall|i: int|
                0 <= i < self.keys().len() ==> self@.contains_key(#[trigger] self.keys()[i]),
            forall|key: Seq<char>| #[trigger]
                self@.contains_key(key) ==> self.keys().contains(key),
    {
        proof {
            use_type_invariant(self);
            let e = self.entries@;
            assert forall|i: int| 0 <= i < self.keys().len() implies self@.contains_key(
                #[trigger] self.keys()[i],
            ) by {
                lemma_map_at(e, i);
            }
            assert forall|key: Seq<char>| #[trigger]
                self@.contains_key(key) implies self.keys().contains(key) by {
                let i = lemma_map_key(e, key);
                assert(self.keys()[i] == key);
            }
            assert forall|i: int, j: int|
                0 <= i < self.keys().len() && 0 <= j < self.keys().len() && i
                    != j implies #[trigger] self.keys()[i] != #[trigger] self.keys()[j] by {
                if e[i].key@ == e[j].key@ {
                    lemma_key_apart(e, i, j);
                }
            }
            assert(self@.dom() =~= self.keys().to_set());
            self.keys().unique_seq_to_set();
        }
        self.entries.len()
    }

    /// The first position whose key does not come before `key`.
    fn place(&self, key: &str) -> (i: usize)
        ensures
            i <= self.entries@.len(),
            forall|k: int| 0 <= k < i ==> text_before((#[trigger] self.entries@[k]).key@, key@),
            i < self.entries@.len() ==> !text_before(self.entries@[i as int].key@, key@),
    {
        let mut i: usize = 0;
        while i < self.entries.len() && comes_before(self.entries[i].key.as_str(), key)
            invariant
                i <= self.entries@.len(),
                forall|k: int|
                    0 <= k < i ==> text_before((#[trigger] self.entries@[k]).key@, key@),
            decreases self.entries@.len() - i,
        {
            i = i + 1;
        }
        i
    }

    /// Where the key stands, if it does.
    fn find(&self, key: &str) -> (i: Option<usize>)
        ensures
            i is Some == self@.contains_key(key@),
            i is Some ==> {
                &&& i->0 < self.entries@.len()
                &&& self.entries@[i->0 as int].key@ == key@
                &&& self@[key@] == self.entries@[i->0 as int].value
            },
    {
        let i: usize = self.place(key);
        proof {
            use_type_invariant(self);
        }
        if i < self.entries.len() && text::same_text(self.entries[i].key.as_str(), key) {
            proof {
                lemma_map_at(self.entries@, i as int);
            }
            return Some(i);
        }
        proof {
            if self@.contains_key(key@) {
                let k = lemma_map_key(self.entries@, key@);
                lemma_before_irreflexive(encode_utf8(key@));
                if k > i {
                    lemma_before_transitive(
                        encode_utf8(self.entries@[i as int].key@),
                        encode_utf8(self.entries@[k].key@),
                        encode_utf8(key@),
                    );
                }
            }
        }
        None
    }

    pub fn contains(&self, key: &str) -> (r: bool)
        ensures
            r == self@.contains_key(key@),
    {
        self.find(key).is_some()
    }

    pub fn get(&self, key: &str) -> (value: Option<&V>)
        ensures
            value is Some == self@.contains_key(key@),
            value is Some ==> *value->0 == self@[key@],
    {
        match self.find(key) {
            None => None,
            Some(i) => Some(&self.entries[i].value),
        }
    }

    #[verifier::rlimit(40)]
    pub fn insert(&mut self, key: String, value: V)
        ensures
            final(self)@ == old(self)@.insert(key@, value),
    {
        proof {
            use_type_invariant(&*self);
        }
        let found = self.find(key.as_str());
        let i: usize = self.place(key.as_str());
        let ghost before = self.entries@;
        let mut entries: Vec<Entry<V>> = Vec::new();
        std::mem::swap(&mut entries, &mut self.entries);
        let ghost text = key@;
        match found {
            Some(at) => {
                let _ = entries.remove(at);
                entries.insert(at, Entry { key, value });
                proof {
                    assert(entries@ =~= before.update(at as int, entries@[at as int]));
                    assert(keys_ascend(entries@));
                    assert forall|j: int| 0 <= j < before.len() implies before[j].key@
                        == entries@[at as int].key@ || exists|k: int|
                        0 <= k < entries@.len() && entries@[k].key@ == (#[trigger] before[j]).key@
                            && entries@[k].value == before[j].value by {
                        if j != at {
                            assert(entries@[j] == before[j]);
                        }
                    }
                    assert forall|k: int| 0 <= k < entries@.len() && k != at implies exists|j: int|
                        0 <= j < before.len() && before[j].key@ == (#[trigger] entries@[k]).key@
                            && entries@[k].value == before[j].value by {
                        assert(entries@[k] == before[k]);
                    }
                    lemma_map_insert(before, entries@, at as int);
                }
            },
            None => {
                entries.insert(i, Entry { key, value });
                proof {
                    let new = entries@;
                    assert forall|a: int, b: int| 0 <= a < b < new.len() implies text_before(
                        (#[trigger] new[a]).key@,
                        (#[trigger] new[b]).key@,
                    ) by {
                        if i < before.len() {
                            lemma_before_total(encode_utf8(before[i as int].key@), encode_utf8(text));
                            if encode_utf8(before[i as int].key@) == encode_utf8(text) {
                                lemma_same_bytes(before[i as int].key@, text);
                                lemma_map_at(before, i as int);
                            }
                        }
                        if a == i && b > i + 1 {
                            lemma_before_transitive(
                                encode_utf8(text),
                                encode_utf8(before[i as int].key@),
                                encode_utf8(before[b - 1].key@),
                            );
                        }
                    }
                    assert forall|j: int| 0 <= j < before.len() implies before[j].key@
                        == new[i as int].key@ || exists|k: int|
                        0 <= k < new.len() && new[k].key@ == (#[trigger] before[j]).key@
                            && new[k].value == before[j].value by {
                        let k = if j < i { j } else { j + 1 };
                        assert(new[k] == before[j]);
                    }
                    assert forall|k: int| 0 <= k < new.len() && k != i implies exists|j: int|
                        0 <= j < before.len() && before[j].key@ == (#[trigger] new[k]).key@
                            && new[k].value == before[j].value by {
                        let j = if k < i { k } else { k - 1 };
                        assert(new[k] == before[j]);
                    }
                    lemma_map_insert(before, new, i as int);
                }
            },
        }
        self.entries = entries;
    }

    pub fn remove(&mut self, key: &str) -> (value: Option<V>)
        ensures
            final(self)@ == old(self)@.remove(key@),
            value is Some == old(self)@.contains_key(key@),
            value is Some ==> value->0 == old(self)@[key@],
    {
        proof {
            use_type_invariant(&*self);
        }
        match self.find(key) {
            None => {
                proof {
                    assert(self@.remove(key@) =~= self@);
                }
                None
            },
            Some(i) => {
                let mut entries: Vec<Entry<V>> = Vec::new();
                std::mem::swap(&mut entries, &mut self.entries);
                proof {
                    lemma_map_remove(entries@, i as int);
                }
                let entry = entries.remove(i);
                self.entries = entries;
                Some(entry.value)
            },
        }
    }

    /// Takes out the entry at a position; those behind it move up.
    pub fn remove_at(&mut self, i: usize) -> (value: V)
        requires
            i < old(self).keys().len(),
        ensures
            final(self)@ == old(self)@.remove(old(self).keys()[i as int]),
            final(self).keys() == old(self).keys().remove(i as int),
            old(self)@.contains_key(old(self).keys()[i as int]),
            value == old(self)@[old(self).keys()[i as int]],
    {
        proof {
            use_type_invariant(&*self);
            lemma_map_at(self.entries@, i as int);
        }
        let mut entries: Vec<Entry<V>> = Vec::new();
        std::mem::swap(&mut entries, &mut self.entries);
        proof {
            lemma_map_remove(entries@, i as int);
        }
        let entry = entries.remove(i);
        self.entries = entries;
        proof {
            assert(self.keys() =~= old(self).keys().remove(i as int));
        }
        entry.value
    }

    /// The key at a position.
    pub fn key_at(&self, i: usize) -> (key: &String)
        requires
            i < self.keys().len(),
        ensures
            key@ == self.keys()[i as int],
            self@.contains_key(key@),
    {
        proof {
            use_type_invariant(self);
            lemma_map_at(self.entries@, i as int);
        }
        &self.entries[i].key
    }

    /// The value at a position.
    pub fn value_at(&self, i: usize) -> (value: &V)
        requires
            i < self.keys().len(),
        ensures
            *value == self@[self.keys()[i as int]],
    {
        proof {
            use_type_invariant(self);
            lemma_map_at(self.entries@, i as int);
        }
        &self.entries[i].value
    }
}

/// Bytes come before others exactly when, behind a beginning that both share, they end
/// first or go on with the smaller byte.
pub proof fn bytes_are_ordered_by_the_first_that_differs(a: Seq<u8>, b: Seq<u8>)
    ensures
        bytes_before(a, b) <==> exists|n: int| #[trigger] parts_at(a, b, n),
    decreases a.len(),
{
    if b.len() > 0 && a.len() > 0 {
        let x = a.drop_first();
        let y = b.drop_first();
        bytes_are_ordered_by_the_first_that_differs(x, y);
        if a[0] != b[0] {
            if a[0] < b[0] {
                assert(parts_at(a, b, 0));
            }
            if exists|n: int| #[trigger] parts_at(a, b, n) {
                let n = choose|n: int| #[trigger] parts_at(a, b, n);
                if n > 0 {
                    assert(a[0] == b[0]);
                }
            }
        } else {
            if bytes_before(x, y) {
                let n = choose|n: int| #[trigger] parts_at(x, y, n);
                assert forall|i: int| 0 <= i < n + 1 implies #[trigger] a[i] == b[i] by {
                    if i > 0 {
                        assert(x[i - 1] == y[i - 1]);
                    }
                }
                assert(parts_at(a, b, n + 1));
            }
            if exists|n: int| #[trigger] parts_at(a, b, n) {
                let n = choose|n: int| #[trigger] parts_at(a, b, n);
                assert forall|i: int| 0 <= i < n - 1 implies #[trigger] x[i] == y[i] by {
                    assert(a[i + 1] == b[i + 1]);
                }
                assert(parts_at(x, y, n - 1));
            }
        }
    } else if b.len() > 0 {
        assert(parts_at(a, b, 0));
    } else {
        assert forall|n: int| !(#[trigger] parts_at(a, b, n)) by {}
    }
}

/// The first differs from the second at a place, where it ends or goes on with the smaller
/// byte, and not before.
pub open spec fn parts_at(a: Seq<u8>, b: Seq<u8>, n: int) -> bool {
    &&& 0 <= n <= a.len()
    &&& n < b.len()
    &&& forall|i: int| 0 <= i < n ==> #[trigger] a[i] == b[i]
    &&& n == a.len() || a[n] < b[n]
}

} // verus!
