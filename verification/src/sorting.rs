//! Stable sorting of named values by their names.

use crate::text;
use vstd::multiset::Multiset;
use vstd::prelude::*;

verus! {

/// `s`, in order, with `e` put behind everything that does not come after it.
pub open spec fn placed<T>(s: Seq<(String, T)>, e: (String, T)) -> Seq<(String, T)>
    decreases s.len(),
{
    if s.len() > 0 && text::lex_lt(e.0@, s.last().0@) {
        placed(s.drop_last(), e).push(s.last())
    } else {
        s.push(e)
    }
}

/// The entries in the order of their names; entries of one name keep the order they came in.
pub open spec fn by_name<T>(s: Seq<(String, T)>) -> Seq<(String, T)>
    decreases s.len(),
{
    if s.len() == 0 {
        s
    } else {
        placed(by_name(s.drop_last()), s.last())
    }
}

/// No entry comes before one that stands in front of it.
pub open spec fn in_order<T>(s: Seq<(String, T)>) -> bool {
    forall|i: int, j: int|
        0 <= i < j < s.len() ==> !text::lex_lt(#[trigger] s[j].0@, #[trigger] s[i].0@)
}

proof fn lemma_placed<T>(s: Seq<(String, T)>, e: (String, T))
    requires
        in_order(s),
    ensures
        in_order(placed(s, e)),
        placed(s, e).len() == s.len() + 1,
        placed(s, e).to_multiset() == s.to_multiset().insert(e),
        placed(s, e).last() == e || s.len() > 0 && placed(s, e).last() == s.last(),
    decreases s.len(),
{
    broadcast use vstd::seq_lib::group_to_multiset_ensures;

    let p = placed(s, e);
    if s.len() > 0 && text::lex_lt(e.0@, s.last().0@) {
        let rest = s.drop_last();
        let last = s.last();
        assert(in_order(rest)) by {
            assert forall|i: int, j: int| 0 <= i < j < rest.len() implies !text::lex_lt(
                #[trigger] rest[j].0@,
                #[trigger] rest[i].0@,
            ) by {
                assert(!text::lex_lt(s[j].0@, s[i].0@));
            }
        }
        lemma_placed(rest, e);
        let q = placed(rest, e);
        lemma_same_members(q, rest.to_multiset().insert(e));
        assert(s =~= rest.push(last));
        assert(p.to_multiset() =~= s.to_multiset().insert(e));
        assert forall|i: int, j: int| 0 <= i < j < p.len() implies !text::lex_lt(
            #[trigger] p[j].0@,
            #[trigger] p[i].0@,
        ) by {
            if j < q.len() {
                assert(p[i] == q[i] && p[j] == q[j]);
            } else {
                assert(p[j] == last && p[i] == q[i]);
                assert(q.to_multiset().contains(q[i]));
                if q[i] != e {
                    assert(rest.to_multiset().contains(q[i]));
                    assert(rest.contains(q[i]));
                    let k = choose|k: int| 0 <= k < rest.len() && rest[k] == q[i];
                    assert(!text::lex_lt(s[s.len() - 1].0@, s[k].0@));
                } else if text::lex_lt(last.0@, e.0@) {
                    text::lemma_lex_transitive(last.0@, e.0@, last.0@);
                    text::lemma_lex_irreflexive(last.0@);
                }
            }
        }
    } else {
        assert forall|i: int, j: int| 0 <= i < j < p.len() implies !text::lex_lt(
            #[trigger] p[j].0@,
            #[trigger] p[i].0@,
        ) by {
            if j < s.len() {
                assert(!text::lex_lt(s[j].0@, s[i].0@));
            } else {
                let last = s.last();
                if text::lex_lt(e.0@, s[i].0@) {
                    if i < s.len() - 1 {
                        assert(!text::lex_lt(s[s.len() - 1].0@, s[i].0@));
                        text::lemma_lex_total(s[i].0@, last.0@);
                        if text::lex_lt(s[i].0@, last.0@) {
                            text::lemma_lex_transitive(e.0@, s[i].0@, last.0@);
                        }
                    }
                }
            }
        }
    }
}

proof fn lemma_same_members<T>(s: Seq<(String, T)>, m: Multiset<(String, T)>)
    requires
        s.to_multiset() == m,
    ensures
        forall|i: int| 0 <= i < s.len() ==> m.contains(#[trigger] s[i]),
{
    broadcast use vstd::seq_lib::group_to_multiset_ensures;

    assert forall|i: int| 0 <= i < s.len() implies m.contains(#[trigger] s[i]) by {
        assert(s.contains(s[i]));
    }
}

/// Sorting by name gives the same entries, in the order of their names.
pub proof fn law_sorted_by_name<T>(s: Seq<(String, T)>)
    ensures
        in_order(by_name(s)),
        by_name(s).len() == s.len(),
        by_name(s).to_multiset() == s.to_multiset(),
    decreases s.len(),
{
    broadcast use vstd::seq_lib::group_to_multiset_ensures;

    if s.len() > 0 {
        law_sorted_by_name(s.drop_last());
        lemma_placed(by_name(s.drop_last()), s.last());
        assert(s =~= s.drop_last().push(s.last()));
    }
}

/// Puts `e` into `v` behind everything that does not come after it.
fn place<T>(v: &mut Vec<(String, T)>, e: (String, T))
    ensures
        final(v)@ == placed(old(v)@, e),
{
    let mut k: usize = v.len();
    let ghost s = v@;
    proof {
        assert(s.take(s.len() as int) == s);
        assert(s.skip(s.len() as int).len() == 0);
        assert(placed(s, e) + Seq::empty() == placed(s, e));
    }
    while k > 0 && text::comes_before(e.0.as_str(), v[k - 1].0.as_str())
        invariant
            k <= v.len(),
            v@ == s,
            placed(s, e) == placed(s.take(k as int), e) + s.skip(k as int),
        decreases k,
    {
        proof {
            assert(s.take(k as int).drop_last() == s.take(k - 1));
            assert(placed(s.take(k - 1), e).push(s[k - 1]) + s.skip(k as int) == placed(
                s.take(k - 1),
                e,
            ) + s.skip(k - 1));
        }
        k -= 1;
    }
    assert(s.insert(k as int, e) == s.take(k as int).push(e) + s.skip(k as int));
    v.insert(k, e);
}

/// Sorts the entries by name; entries of one name keep the order they came in.
pub fn sort_by_name<T>(entries: Vec<(String, T)>) -> (r: Vec<(String, T)>)
    ensures
        r@ == by_name(entries@),
{
    let mut out: Vec<(String, T)> = Vec::new();
    let mut rest = entries;
    let ghost all = rest@;
    let ghost mut done: int = 0;
    assert(all.skip(0) == all);
    assert(by_name(all.take(0)) == Seq::<(String, T)>::empty());
    while rest.len() > 0
        invariant
            0 <= done <= all.len(),
            rest@ == all.skip(done),
            out@ == by_name(all.take(done)),
        decreases rest.len(),
    {
        let e = rest.remove(0);
        proof {
            assert(all.take(done + 1).drop_last() == all.take(done));
            assert(all.skip(done).remove(0) == all.skip(done + 1));
            done = done + 1;
        }
        place(&mut out, e);
    }
    assert(all.take(done) == all);
    out
}

/// The entries of a name.
pub open spec fn named<T>(s: Seq<(String, T)>, name: Seq<char>) -> Seq<(String, T)> {
    s.filter(|e: (String, T)| e.0@ == name)
}

/// Entries of one name keep the order they came in.
pub proof fn law_equal_names_keep_their_order<T>(s: Seq<(String, T)>, name: Seq<char>)
    ensures
        named(by_name(s), name) == named(s, name),
    decreases s.len(),
{
    if s.len() > 0 {
        law_equal_names_keep_their_order(s.drop_last(), name);
        lemma_placed_keeps(by_name(s.drop_last()), s.last(), name);
        lemma_named_push(by_name(s.drop_last()), s.last(), name);
        lemma_named_push(s.drop_last(), s.last(), name);
        assert(s =~= s.drop_last().push(s.last()));
    }
}

/// One entry more is one of its name more.
proof fn lemma_named_push<T>(s: Seq<(String, T)>, e: (String, T), name: Seq<char>)
    ensures
        named(s.push(e), name) == (if e.0@ == name {
            named(s, name).push(e)
        } else {
            named(s, name)
        }),
{
    reveal(Seq::filter);
    assert(s.push(e).drop_last() =~= s);
}

/// An entry is put behind those of its name.
proof fn lemma_placed_keeps<T>(s: Seq<(String, T)>, e: (String, T), name: Seq<char>)
    ensures
        named(placed(s, e), name) == named(s.push(e), name),
    decreases s.len(),
{
    if s.len() > 0 && text::lex_lt(e.0@, s.last().0@) {
        let rest = s.drop_last();
        let last = s.last();
        lemma_placed_keeps(rest, e, name);
        lemma_named_push(placed(rest, e), last, name);
        lemma_named_push(rest, e, name);
        lemma_named_push(rest, last, name);
        lemma_named_push(s, e, name);
        assert(s =~= rest.push(last));
        text::lemma_lex_irreflexive(e.0@);
    }
}

} // verus!
