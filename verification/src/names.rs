//! A map keyed by strings, kept in key order.

use crate::text;
use vstd::prelude::*;

verus! {

/// The keys stand in strictly increasing order.
pub open spec fn keys_ordered<V>(entries: Seq<(String, V)>) -> bool {
    forall|i: int, j: int|
        0 <= i < j < entries.len() ==> text::lex_lt(#[trigger] entries[i].0@, #[trigger] entries[j].0@)
}

/// The mapping that a list of entries stands for.
pub open spec fn mapping<V>(entries: Seq<(String, V)>) -> Map<Seq<char>, V>
    decreases entries.len(),
{
    if entries.len() == 0 {
        Map::empty()
    } else {
        mapping(entries.drop_last()).insert(entries.last().0@, entries.last().1)
    }
}

/// A map from names to values. Its entries stand in the order of their names, each name once.
pub struct NameMap<V> {
    entries: Vec<(String, V)>,
}

impl<V> View for NameMap<V> {
    type V = Map<Seq<char>, V>;

    closed spec fn view(&self) -> Map<Seq<char>, V> {
        mapping(self.entries@)
    }
}

/// What a list of entries maps a key to stands in one of the entries.
proof fn lemma_mapping_has<V>(entries: Seq<(String, V)>, k: Seq<char>)
    ensures
        mapping(entries).contains_key(k) <==> exists|i: int|
            0 <= i < entries.len() && (#[trigger] entries[i]).0@ == k,
    decreases entries.len(),
{
    if entries.len() > 0 {
        let rest = entries.drop_last();
        lemma_mapping_has(rest, k);
        if mapping(rest).contains_key(k) {
            let i = choose|i: int| 0 <= i < rest.len() && (#[trigger] rest[i]).0@ == k;
            assert(entries[i].0@ == k);
        }
        assert(entries[entries.len() - 1] == entries.last());
        assert forall|i: int| 0 <= i < entries.len() && (#[trigger] entries[i]).0@ == k implies mapping(
            entries,
        ).contains_key(k) by {
            if i < rest.len() {
                assert(rest[i].0@ == k);
            }
        }
    }
}

/// In an ordered list each entry is what the mapping holds under its key.
proof fn lemma_mapping_at<V>(entries: Seq<(String, V)>, i: int)
    requires
        keys_ordered(entries),
        0 <= i < entries.len(),
    ensures
        mapping(entries).contains_key(entries[i].0@),
        mapping(entries)[entries[i].0@] == entries[i].1,
    decreases entries.len(),
{
    let rest = entries.drop_last();
    if i < rest.len() {
        assert(keys_ordered(rest)) by {
            assert forall|a: int, b: int| 0 <= a < b < rest.len() implies text::lex_lt(
                #[trigger] rest[a].0@,
                #[trigger] rest[b].0@,
            ) by {
                assert(text::lex_lt(entries[a].0@, entries[b].0@));
            }
        }
        lemma_mapping_at(rest, i);
        assert(rest[i] == entries[i]);
        assert(text::lex_lt(entries[i].0@, entries[entries.len() - 1].0@));
        text::lemma_lex_irreflexive(entries[i].0@);
    }
}

impl<V> NameMap<V> {
    #[verifier::type_invariant]
    closed spec fn ordered(self) -> bool {
        keys_ordered(self.entries@)
    }

    /// The map with no entry.
    pub fn new() -> (r: Self)
        ensures
            r@ == Map::<Seq<char>, V>::empty(),
    {
        NameMap { entries: Vec::new() }
    }

    /// The number of entries.
    pub fn len(&self) -> (r: usize)
        ensures
            r == self@.len(),
    {
        proof {
            use_type_invariant(self);
            lemma_mapping_len(self.entries@);
        }
        self.entries.len()
    }

    /// The position of the first entry whose key is not before `key`.
    fn slot(&self, key: &str) -> (r: usize)
        ensures
            r <= self.entries.len(),
            forall|i: int| 0 <= i < r ==> text::lex_lt((#[trigger] self.entries@[i]).0@, key@),
            r < self.entries.len() ==> !text::lex_lt(self.entries@[r as int].0@, key@),
    {
        let mut i: usize = 0;
        while i < self.entries.len() && text::comes_before(self.entries[i].0.as_str(), key)
            invariant
                i <= self.entries.len(),
                forall|j: int| 0 <= j < i ==> text::lex_lt((#[trigger] self.entries@[j]).0@, key@),
            decreases self.entries.len() - i,
        {
            i += 1;
        }
        i
    }

    /// The value under `key`.
    pub fn get(&self, key: &str) -> (r: Option<&V>)
        ensures
            match r {
                Some(v) => self@.contains_key(key@) && *v == self@[key@],
                None => !self@.contains_key(key@),
            },
    {
        let i = self.slot(key);
        proof {
            use_type_invariant(self);
            lemma_mapping_has(self.entries@, key@);
            text::lemma_lex_irreflexive(key@);
        }
        if i < self.entries.len() && text::same(self.entries[i].0.as_str(), key) {
            proof {
                lemma_mapping_at(self.entries@, i as int);
            }
            Some(&self.entries[i].1)
        } else {
            proof {
                assert forall|j: int| 0 <= j < self.entries@.len() implies (
                #[trigger] self.entries@[j]).0@ != key@ by {
                    if j > i {
                        text::lemma_lex_total(self.entries@[i as int].0@, key@);
                        text::lemma_lex_transitive(key@, self.entries@[i as int].0@, self.entries@[j].0@);
                    }
                }
            }
            None
        }
    }
}

/// An ordered list has as many entries as its mapping.
proof fn lemma_mapping_len<V>(entries: Seq<(String, V)>)
    requires
        keys_ordered(entries),
    ensures
        mapping(entries).dom().finite(),
        mapping(entries).len() == entries.len(),
    decreases entries.len(),
{
    if entries.len() > 0 {
        let rest = entries.drop_last();
        assert forall|a: int, b: int| 0 <= a < b < rest.len() implies text::lex_lt(
            #[trigger] rest[a].0@,
            #[trigger] rest[b].0@,
        ) by {
            assert(text::lex_lt(entries[a].0@, entries[b].0@));
        }
        lemma_mapping_len(rest);
        lemma_mapping_has(rest, entries.last().0@);
        if mapping(rest).contains_key(entries.last().0@) {
            let i = choose|i: int| 0 <= i < rest.len() && (#[trigger] rest[i]).0@ == entries.last().0@;
            assert(text::lex_lt(entries[i].0@, entries[entries.len() - 1].0@));
            text::lemma_lex_irreflexive(entries[i].0@);
        }
        assert(mapping(entries).dom() == mapping(rest).dom().insert(entries.last().0@));
    }
}

/// `ks` lists the members of `dom` in order, each once.
pub open spec fn lists_keys(ks: Seq<Seq<char>>, dom: Set<Seq<char>>) -> bool {
    &&& forall|i: int, j: int|
        0 <= i < j < ks.len() ==> text::lex_lt(#[trigger] ks[i], #[trigger] ks[j])
    &&& forall|k: Seq<char>| #[trigger] dom.contains(k) <==> ks.contains(k)
}

/// The members of `dom` in order.
pub open spec fn key_list(dom: Set<Seq<char>>) -> Seq<Seq<char>> {
    choose|ks: Seq<Seq<char>>| lists_keys(ks, dom)
}

/// Only one sequence lists the members of a set in order.
pub proof fn lemma_key_list_unique(a: Seq<Seq<char>>, b: Seq<Seq<char>>, dom: Set<Seq<char>>)
    requires
        lists_keys(a, dom),
        lists_keys(b, dom),
    ensures
        a == b,
    decreases a.len(),
{
    if a.len() == 0 {
        if b.len() > 0 {
            assert(b.contains(b[0]));
            assert(dom.contains(b[0]));
        }
        assert(a =~= b);
    } else {
        assert(a.contains(a.last()));
        assert(dom.contains(a.last()));
        assert(b.contains(a.last()));
        let i = choose|i: int| 0 <= i < b.len() && b[i] == a.last();
        assert(b.contains(b.last()));
        assert(dom.contains(b.last()));
        assert(a.contains(b.last()));
        let j = choose|j: int| 0 <= j < a.len() && a[j] == b.last();
        if i < b.len() - 1 {
            assert(text::lex_lt(b[i], b[b.len() - 1]));
            if j < a.len() - 1 {
                assert(text::lex_lt(a[j], a[a.len() - 1]));
                text::lemma_lex_transitive(a[j], b[i], b.last());
                text::lemma_lex_irreflexive(a[j]);
            } else {
                text::lemma_lex_irreflexive(b[i]);
            }
        }
        assert(a.last() == b.last());
        let last = a.last();
        let d = dom.remove(last);
        lemma_drop_last_key(a, dom);
        lemma_drop_last_key(b, dom);
        lemma_key_list_unique(a.drop_last(), b.drop_last(), d);
        assert(a =~= a.drop_last().push(last));
        assert(b =~= b.drop_last().push(last));
    }
}

/// Without its last key a list lists the other members.
proof fn lemma_drop_last_key(a: Seq<Seq<char>>, dom: Set<Seq<char>>)
    requires
        a.len() > 0,
        lists_keys(a, dom),
    ensures
        lists_keys(a.drop_last(), dom.remove(a.last())),
{
    let t = a.drop_last();
    assert forall|k: Seq<char>| #[trigger] dom.remove(a.last()).contains(k) <==> t.contains(k) by {
        if t.contains(k) {
            let i = choose|i: int| 0 <= i < t.len() && t[i] == k;
            assert(a[i] == k);
            assert(a.contains(k));
            assert(dom.contains(k));
            assert(text::lex_lt(a[i], a[a.len() - 1]));
            text::lemma_lex_irreflexive(k);
        }
        if dom.contains(k) && k != a.last() {
            assert(a.contains(k));
            let i = choose|i: int| 0 <= i < a.len() && a[i] == k;
            assert(t[i] == k);
        }
    }
    assert forall|i: int, j: int| 0 <= i < j < t.len() implies text::lex_lt(
        #[trigger] t[i],
        #[trigger] t[j],
    ) by {
        assert(text::lex_lt(a[i], a[j]));
    }
}

/// Membership in a list with one more entry.
pub proof fn lemma_push_contains(t: Seq<Seq<char>>, x: Seq<char>)
    ensures
        forall|k: Seq<char>| #[trigger] t.push(x).contains(k) <==> t.contains(k) || k == x,
{
    assert forall|k: Seq<char>| #[trigger] t.push(x).contains(k) <==> t.contains(k) || k == x by {
        if t.contains(k) {
            let j = choose|j: int| 0 <= j < t.len() && t[j] == k;
            assert(t.push(x)[j] == k);
        }
        if k == x {
            assert(t.push(x)[t.len() as int] == k);
        }
        if t.push(x).contains(k) && k != x {
            let j = choose|j: int| 0 <= j < t.push(x).len() && t.push(x)[j] == k;
            assert(t[j] == k);
        }
    }
}

/// The keys of a list of entries.
pub open spec fn entry_keys<V>(entries: Seq<(String, V)>) -> Seq<Seq<char>> {
    entries.map_values(|e: (String, V)| e.0@)
}

/// The keys of an ordered list are the key list of its mapping.
proof fn lemma_entry_keys<V>(entries: Seq<(String, V)>)
    requires
        keys_ordered(entries),
    ensures
        lists_keys(entry_keys(entries), mapping(entries).dom()),
        entry_keys(entries) == key_list(mapping(entries).dom()),
{
    let ks = entry_keys(entries);
    let dom = mapping(entries).dom();
    assert forall|k: Seq<char>| #[trigger] dom.contains(k) <==> ks.contains(k) by {
        lemma_mapping_has(entries, k);
        if dom.contains(k) {
            let i = choose|i: int| 0 <= i < entries.len() && (#[trigger] entries[i]).0@ == k;
            assert(ks[i] == k);
        }
        if ks.contains(k) {
            let i = choose|i: int| 0 <= i < ks.len() && ks[i] == k;
            assert(entries[i].0@ == k);
        }
    }
    assert forall|i: int, j: int| 0 <= i < j < ks.len() implies text::lex_lt(
        #[trigger] ks[i],
        #[trigger] ks[j],
    ) by {
        assert(text::lex_lt(entries[i].0@, entries[j].0@));
    }
    assert(lists_keys(ks, dom));
    lemma_key_list_unique(ks, key_list(dom), dom);
}

/// Putting an entry where its key belongs in an ordered list.
proof fn lemma_insert_entry<V>(entries: Seq<(String, V)>, i: int, e: (String, V))
    requires
        keys_ordered(entries),
        0 <= i <= entries.len(),
        forall|j: int| 0 <= j < i ==> text::lex_lt((#[trigger] entries[j]).0@, e.0@),
        forall|j: int| i <= j < entries.len() ==> text::lex_lt(e.0@, (#[trigger] entries[j]).0@),
    ensures
        keys_ordered(entries.insert(i, e)),
        mapping(entries.insert(i, e)) == mapping(entries).insert(e.0@, e.1),
{
    let after = entries.insert(i, e);
    assert forall|a: int, b: int| 0 <= a < b < after.len() implies text::lex_lt(
        #[trigger] after[a].0@,
        #[trigger] after[b].0@,
    ) by {
        let a1 = if a > i { a - 1 } else { a };
        let b1 = if b > i { b - 1 } else { b };
        if a != i && b != i {
            assert(text::lex_lt(entries[a1].0@, entries[b1].0@));
        } else if a == i {
            assert(text::lex_lt(e.0@, entries[b1].0@));
        } else {
            assert(text::lex_lt(entries[a1].0@, e.0@));
        }
    }
    let m = mapping(entries).insert(e.0@, e.1);
    assert forall|j: int| 0 <= j < after.len() implies m.contains_key((#[trigger] after[j]).0@)
        && m[after[j].0@] == after[j].1 by {
        if j != i {
            let j1 = if j > i { j - 1 } else { j };
            assert(after[j] == entries[j1]);
            lemma_mapping_at(entries, j1);
            text::lemma_lex_irreflexive(e.0@);
        }
    }
    assert forall|k: Seq<char>| m.contains_key(k) implies exists|j: int|
        0 <= j < after.len() && (#[trigger] after[j]).0@ == k by {
        if k == e.0@ {
            assert(after[i].0@ == k);
        } else {
            lemma_mapping_has(entries, k);
            let j = choose|j: int| 0 <= j < entries.len() && (#[trigger] entries[j]).0@ == k;
            let j1 = if j >= i { j + 1 } else { j };
            assert(after[j1] == entries[j]);
        }
    }
    lemma_mapping_is(after, m);
}

/// Giving an entry of an ordered list another value.
proof fn lemma_update_entry<V>(entries: Seq<(String, V)>, i: int, e: (String, V))
    requires
        keys_ordered(entries),
        0 <= i < entries.len(),
        entries[i].0@ == e.0@,
    ensures
        keys_ordered(entries.update(i, e)),
        mapping(entries.update(i, e)) == mapping(entries).insert(e.0@, e.1),
{
    let after = entries.update(i, e);
    assert forall|a: int, b: int| 0 <= a < b < after.len() implies text::lex_lt(
        #[trigger] after[a].0@,
        #[trigger] after[b].0@,
    ) by {
        assert(text::lex_lt(entries[a].0@, entries[b].0@));
    }
    let m = mapping(entries).insert(e.0@, e.1);
    assert forall|j: int| 0 <= j < after.len() implies m.contains_key((#[trigger] after[j]).0@)
        && m[after[j].0@] == after[j].1 by {
        lemma_mapping_at(entries, j);
        text::lemma_lex_irreflexive(e.0@);
        if j < i {
            assert(text::lex_lt(entries[j].0@, entries[i].0@));
        } else if j > i {
            assert(text::lex_lt(entries[i].0@, entries[j].0@));
        }
    }
    assert forall|k: Seq<char>| m.contains_key(k) implies exists|j: int|
        0 <= j < after.len() && (#[trigger] after[j]).0@ == k by {
        if k == e.0@ {
            assert(after[i].0@ == k);
        } else {
            lemma_mapping_has(entries, k);
            let j = choose|j: int| 0 <= j < entries.len() && (#[trigger] entries[j]).0@ == k;
            assert(after[j] == entries[j]);
        }
    }
    lemma_mapping_is(after, m);
}

/// Taking an entry out of an ordered list.
proof fn lemma_remove_entry<V>(entries: Seq<(String, V)>, i: int)
    requires
        keys_ordered(entries),
        0 <= i < entries.len(),
    ensures
        keys_ordered(entries.remove(i)),
        mapping(entries.remove(i)) == mapping(entries).remove(entries[i].0@),
{
    let after = entries.remove(i);
    assert forall|a: int, b: int| 0 <= a < b < after.len() implies text::lex_lt(
        #[trigger] after[a].0@,
        #[trigger] after[b].0@,
    ) by {
        let a1 = if a >= i { a + 1 } else { a };
        let b1 = if b >= i { b + 1 } else { b };
        assert(text::lex_lt(entries[a1].0@, entries[b1].0@));
    }
    let m = mapping(entries).remove(entries[i].0@);
    assert forall|j: int| 0 <= j < after.len() implies m.contains_key((#[trigger] after[j]).0@)
        && m[after[j].0@] == after[j].1 by {
        let j1 = if j >= i { j + 1 } else { j };
        assert(after[j] == entries[j1]);
        lemma_mapping_at(entries, j1);
        text::lemma_lex_irreflexive(entries[i].0@);
        if j1 < i {
            assert(text::lex_lt(entries[j1].0@, entries[i].0@));
        } else {
            assert(text::lex_lt(entries[i].0@, entries[j1].0@));
        }
    }
    assert forall|k: Seq<char>| m.contains_key(k) implies exists|j: int|
        0 <= j < after.len() && (#[trigger] after[j]).0@ == k by {
        lemma_mapping_has(entries, k);
        let j = choose|j: int| 0 <= j < entries.len() && (#[trigger] entries[j]).0@ == k;
        let j1 = if j > i { j - 1 } else { j };
        assert(after[j1] == entries[j]);
    }
    lemma_mapping_is(after, m);
}

/// An ordered list stands for the map that holds its entries and nothing else.
proof fn lemma_mapping_is<V>(entries: Seq<(String, V)>, m: Map<Seq<char>, V>)
    requires
        keys_ordered(entries),
        forall|i: int|
            0 <= i < entries.len() ==> m.contains_key((#[trigger] entries[i]).0@)
                && m[entries[i].0@] == entries[i].1,
        forall|k: Seq<char>| #[trigger]
            m.contains_key(k) ==> exists|i: int|
                0 <= i < entries.len() && (#[trigger] entries[i]).0@ == k,
    ensures
        mapping(entries) == m,
{
    assert forall|k: Seq<char>| #[trigger] mapping(entries).contains_key(k) == m.contains_key(k) by {
        lemma_mapping_has(entries, k);
        if mapping(entries).contains_key(k) {
            let i = choose|i: int| 0 <= i < entries.len() && (#[trigger] entries[i]).0@ == k;
            assert(m.contains_key(entries[i].0@));
        }
    }
    assert forall|k: Seq<char>| mapping(entries).contains_key(k) implies #[trigger] mapping(
        entries,
    )[k] == m[k] by {
        lemma_mapping_has(entries, k);
        let i = choose|i: int| 0 <= i < entries.len() && (#[trigger] entries[i]).0@ == k;
        lemma_mapping_at(entries, i);
    }
    assert(mapping(entries) =~= m);
}

impl<V> NameMap<V> {
    /// Whether the map holds `key`.
    pub fn contains_key(&self, key: &str) -> (r: bool)
        ensures
            r == self@.contains_key(key@),
    {
        self.get(key).is_some()
    }

    /// Puts `value` under `key`.
    pub fn insert(&mut self, key: String, value: V)
        ensures
            final(self)@ == old(self)@.insert(key@, value),
    {
        let i = self.slot(key.as_str());
        proof {
            use_type_invariant(&*self);
        }
        let mut entries: Vec<(String, V)> = Vec::new();
        std::mem::swap(&mut entries, &mut self.entries);
        let ghost before = entries@;
        if i < entries.len() && text::same(entries[i].0.as_str(), key.as_str()) {
            proof {
                lemma_update_entry(before, i as int, (key, value));
            }
            entries.set(i, (key, value));
        } else {
            proof {
                assert forall|j: int| i <= j < before.len() implies text::lex_lt(
                    key@,
                    (#[trigger] before[j]).0@,
                ) by {
                    text::lemma_lex_total(before[i as int].0@, key@);
                    if j > i {
                        assert(text::lex_lt(before[i as int].0@, before[j].0@));
                        text::lemma_lex_transitive(key@, before[i as int].0@, before[j].0@);
                    }
                }
                lemma_insert_entry(before, i as int, (key, value));
            }
            entries.insert(i, (key, value));
        }
        self.entries = entries;
    }

    /// Takes out what stands under `key`.
    pub fn remove(&mut self, key: &str) -> (r: Option<V>)
        ensures
            final(self)@ == old(self)@.remove(key@),
            match r {
                Some(v) => old(self)@.contains_key(key@) && v == old(self)@[key@],
                None => !old(self)@.contains_key(key@),
            },
    {
        let found = self.get(key).is_some();
        if !found {
            assert(self@.remove(key@) =~= self@);
            return None;
        }
        let i = self.slot(key);
        proof {
            use_type_invariant(&*self);
            self.lemma_slot_hit(i as int, key@);
        }
        let mut entries: Vec<(String, V)> = Vec::new();
        std::mem::swap(&mut entries, &mut self.entries);
        proof {
            lemma_mapping_at(entries@, i as int);
            lemma_remove_entry(entries@, i as int);
        }
        let (_, v) = entries.remove(i);
        self.entries = entries;
        Some(v)
    }

    /// Where the map holds `key`, the first entry not before it is its own.
    proof fn lemma_slot_hit(&self, i: int, key: Seq<char>)
        requires
            keys_ordered(self.entries@),
            self@.contains_key(key),
            0 <= i <= self.entries@.len(),
            forall|j: int| 0 <= j < i ==> text::lex_lt((#[trigger] self.entries@[j]).0@, key),
            i < self.entries@.len() ==> !text::lex_lt(self.entries@[i].0@, key),
        ensures
            i < self.entries@.len(),
            self.entries@[i].0@ == key,
    {
        lemma_mapping_has(self.entries@, key);
        let j = choose|j: int|
            0 <= j < self.entries@.len() && (#[trigger] self.entries@[j]).0@ == key;
        text::lemma_lex_irreflexive(key);
        if j > i {
            assert(text::lex_lt(self.entries@[i].0@, self.entries@[j].0@));
        }
    }

    /// The keys in order.
    pub fn keys(&self) -> (r: Vec<String>)
        ensures
            text::views(r@) == key_list(self@.dom()),
            lists_keys(text::views(r@), self@.dom()),
            r@.len() == self@.len(),
    {
        let mut out: Vec<String> = Vec::new();
        let mut i: usize = 0;
        proof {
            use_type_invariant(self);
            lemma_entry_keys(self.entries@);
            lemma_mapping_len(self.entries@);
        }
        let ghost ks = entry_keys(self.entries@);
        while i < self.entries.len()
            invariant
                i <= self.entries.len(),
                ks == entry_keys(self.entries@),
                text::views(out@) == ks.take(i as int),
            decreases self.entries.len() - i,
        {
            let ghost before = out@;
            out.push(self.entries[i].0.clone());
            assert(text::views(out@) == text::views(before).push(self.entries@[i as int].0@));
            assert(ks.take(i + 1) == ks.take(i as int).push(ks[i as int]));
            i += 1;
        }
        assert(ks.take(self.entries@.len() as int) == ks);
        assert(text::views(out@).len() == out@.len());
        out
    }
}

impl NameMap<String> {
    /// The entries in the order of their keys.
    pub fn pairs(&self) -> (r: Vec<(String, String)>)
        ensures
            mapping(r@) == self@,
            keys_ordered(r@),
            entry_keys(r@) == key_list(self@.dom()),
    {
        proof {
            use_type_invariant(self);
            lemma_entry_keys(self.entries@);
        }
        let mut out: Vec<(String, String)> = Vec::new();
        let mut i: usize = 0;
        while i < self.entries.len()
            invariant
                i <= self.entries.len(),
                out@ == self.entries@.take(i as int),
            decreases self.entries.len() - i,
        {
            out.push((self.entries[i].0.clone(), self.entries[i].1.clone()));
            assert(self.entries@.take(i + 1) == self.entries@.take(i as int).push(
                self.entries@[i as int],
            ));
            i += 1;
        }
        assert(self.entries@.take(self.entries@.len() as int) == self.entries@);
        out
    }

    /// The map that holds the given pairs, a later pair replacing an earlier one with its key.
    pub fn from_pairs(pairs: &[(String, String)]) -> (r: Self)
        ensures
            r@ == mapping(pairs@),
    {
        let mut out: NameMap<String> = NameMap::new();
        let mut i: usize = 0;
        while i < pairs.len()
            invariant
                i <= pairs.len(),
                out@ == mapping(pairs@.take(i as int)),
            decreases pairs.len() - i,
        {
            out.insert(pairs[i].0.clone(), pairs[i].1.clone());
            assert(pairs@.take(i + 1).drop_last() == pairs@.take(i as int));
            i += 1;
        }
        assert(pairs@.take(pairs@.len() as int) == pairs@);
        out
    }

    /// A copy of the map.
    pub fn copied(&self) -> (r: Self)
        ensures
            r@ == self@,
    {
        let p = self.pairs();
        NameMap { entries: p }
    }
}

/// Entries one after another map what either of them maps, and the later one decides; a single entry
/// maps its own name.
pub proof fn law_later_entries_decide<V>(
    a: Seq<(String, V)>,
    b: Seq<(String, V)>,
    key: String,
    value: V,
)
    ensures
        mapping(a + b) == mapping(a).union_prefer_right(mapping(b)),
        mapping(a.push((key, value))) == mapping(a).insert(key@, value),
        mapping(Seq::<(String, V)>::empty()) == Map::<Seq<char>, V>::empty(),
    decreases b.len(),
{
    assert(a.push((key, value)).drop_last() =~= a);
    if b.len() == 0 {
        assert(a + b =~= a);
        assert(mapping(a).union_prefer_right(mapping(b)) =~= mapping(a));
    } else {
        law_later_entries_decide(a, b.drop_last(), key, value);
        assert((a + b).drop_last() =~= a + b.drop_last());
        assert((a + b).last() == b.last());
        assert(mapping(a + b) =~= mapping(a).union_prefer_right(mapping(b)));
    }
}

/// A list of keys holds every member once, in order, and nothing else.
pub proof fn law_keys_are_listed_once(ks: Seq<Seq<char>>, dom: Set<Seq<char>>, i: int, j: int)
    requires
        lists_keys(ks, dom),
        0 <= i < ks.len(),
        0 <= j < ks.len(),
    ensures
        dom.contains(ks[i]),
        ks[i] == ks[j] <==> i == j,
        i < j ==> text::lex_lt(ks[i], ks[j]),
        forall|k: Seq<char>| #[trigger] dom.contains(k) ==> ks.contains(k),
        key_list(dom) == ks,
{
    assert(ks.contains(ks[i]));
    text::lemma_lex_irreflexive(ks[i]);
    lemma_key_list_unique(ks, key_list(dom), dom);
}

} // verus!
