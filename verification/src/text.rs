//! Text operations on `str` and slices of `char`, each tied to a model over `Seq<char>`.

use vstd::prelude::*;
use vstd::slice::slice_subrange;
use vstd::string::*;
use vstd::utf8::*;

verus! {

/// `String::push` appends one character.
pub assume_specification[ String::push ](s: &mut String, c: char)
    ensures
        final(s)@ == old(s)@.push(c),
;

/// The Unicode `White_Space` characters: what `str::trim` removes.
pub open spec fn is_space(c: char) -> bool {
    ||| '\u{9}' <= c <= '\u{d}'
    ||| c == ' '
    ||| c == '\u{85}'
    ||| c == '\u{a0}'
    ||| c == '\u{1680}'
    ||| '\u{2000}' <= c <= '\u{200a}'
    ||| c == '\u{2028}'
    ||| c == '\u{2029}'
    ||| c == '\u{202f}'
    ||| c == '\u{205f}'
    ||| c == '\u{3000}'
}

/// The characters that a trim removes.
#[derive(Clone, Copy)]
pub enum Class {
    /// Unicode white space.
    Space,
    /// One given character.
    Only(char),
}

impl Class {
    pub open spec fn has(self, c: char) -> bool {
        match self {
            Class::Space => is_space(c),
            Class::Only(d) => c == d,
        }
    }

    /// Whether `c` belongs to the class.
    pub fn contains(self, c: char) -> (r: bool)
        ensures
            r == self.has(c),
    {
        match self {
            Class::Space => {
                ('\u{9}' <= c && c <= '\u{d}') || c == ' ' || c == '\u{85}' || c == '\u{a0}'
                    || c == '\u{1680}' || ('\u{2000}' <= c && c <= '\u{200a}') || c == '\u{2028}'
                    || c == '\u{2029}' || c == '\u{202f}' || c == '\u{205f}' || c == '\u{3000}'
            },
            Class::Only(d) => c == d,
        }
    }
}

/// `s` without its longest prefix of characters of `k`.
pub open spec fn trim_front(s: Seq<char>, k: Class) -> Seq<char>
    decreases s.len(),
{
    if s.len() > 0 && k.has(s[0]) {
        trim_front(s.drop_first(), k)
    } else {
        s
    }
}

/// `s` without its longest suffix of characters of `k`.
pub open spec fn trim_back(s: Seq<char>, k: Class) -> Seq<char>
    decreases s.len(),
{
    if s.len() > 0 && k.has(s.last()) {
        trim_back(s.drop_last(), k)
    } else {
        s
    }
}

/// `s` without the characters of `k` at either end.
pub open spec fn trim_both(s: Seq<char>, k: Class) -> Seq<char> {
    trim_back(trim_front(s, k), k)
}

/// `s` without white space at either end.
pub open spec fn trim(s: Seq<char>) -> Seq<char> {
    trim_both(s, Class::Space)
}

/// What a trim leaves neither starts nor ends with a character of the class.
pub proof fn lemma_trimmed_ends(s: Seq<char>, k: Class)
    ensures
        trim_both(s, k).len() > 0 ==> !k.has(trim_both(s, k)[0]) && !k.has(trim_both(s, k).last()),
{
    lemma_front_end(s, k);
    lemma_back_end(trim_front(s, k), k);
}

proof fn lemma_front_end(s: Seq<char>, k: Class)
    ensures
        trim_front(s, k).len() > 0 ==> !k.has(trim_front(s, k)[0]),
    decreases s.len(),
{
    if s.len() > 0 && k.has(s[0]) {
        lemma_front_end(s.drop_first(), k);
    }
}

proof fn lemma_back_end(s: Seq<char>, k: Class)
    ensures
        trim_back(s, k).len() > 0 ==> {
            &&& !k.has(trim_back(s, k).last())
            &&& s.len() > 0
            &&& trim_back(s, k)[0] == s[0]
        },
    decreases s.len(),
{
    if s.len() > 0 && k.has(s.last()) {
        lemma_back_end(s.drop_last(), k);
    }
}

/// A text that neither starts nor ends with a character of the class is left alone by a trim.
pub proof fn lemma_trim_fixed(s: Seq<char>, k: Class)
    requires
        s.len() > 0 ==> !k.has(s[0]) && !k.has(s.last()),
    ensures
        trim_both(s, k) == s,
{
    assert(trim_front(s, k) == s);
    assert(trim_back(s, k) == s);
}

/// A trim takes away all that stands around a text and belongs to the class, and nothing of the
/// text itself, whose ends do not belong to it.
pub proof fn law_trim_leaves_the_middle(a: Seq<char>, m: Seq<char>, b: Seq<char>, k: Class)
    requires
        forall|i: int| 0 <= i < a.len() ==> k.has(#[trigger] a[i]),
        forall|i: int| 0 <= i < b.len() ==> k.has(#[trigger] b[i]),
        m.len() > 0 ==> !k.has(m[0]) && !k.has(m.last()),
    ensures
        trim_both(a + m + b, k) == m,
        trim_front(a + m, k) == m,
        trim_back(m + b, k) == m,
{
    lemma_front_taken(a, m, k);
    lemma_back_taken(m, b, k);
    if m.len() > 0 {
        assert((m + b)[0] == m[0]);
        assert(a + (m + b) =~= a + m + b);
        lemma_front_taken(a, m + b, k);
    } else {
        let all = a + m + b;
        assert forall|i: int| 0 <= i < all.len() implies k.has(#[trigger] all[i]) by {
            if i < a.len() {
                assert(all[i] == a[i]);
            } else {
                assert(all[i] == b[i - a.len()]);
            }
        }
        assert(all + m =~= all);
        lemma_front_taken(all, m, k);
    }
}

/// What belongs to the class is taken from the front.
proof fn lemma_front_taken(a: Seq<char>, m: Seq<char>, k: Class)
    requires
        forall|i: int| 0 <= i < a.len() ==> k.has(#[trigger] a[i]),
        m.len() > 0 ==> !k.has(m[0]),
    ensures
        trim_front(a + m, k) == m,
    decreases a.len(),
{
    if a.len() == 0 {
        assert(a + m =~= m);
    } else {
        assert((a + m)[0] == a[0]);
        assert((a + m).drop_first() =~= a.drop_first() + m);
        assert forall|i: int| 0 <= i < a.drop_first().len() implies k.has(
            #[trigger] a.drop_first()[i],
        ) by {
            assert(k.has(a[i + 1]));
        }
        lemma_front_taken(a.drop_first(), m, k);
    }
}

/// What belongs to the class is taken from the back.
pub proof fn lemma_back_taken(m: Seq<char>, b: Seq<char>, k: Class)
    requires
        forall|i: int| 0 <= i < b.len() ==> k.has(#[trigger] b[i]),
        m.len() > 0 ==> !k.has(m.last()),
    ensures
        trim_back(m + b, k) == m,
    decreases b.len(),
{
    if b.len() == 0 {
        assert(m + b =~= m);
    } else {
        assert((m + b).last() == b.last());
        assert((m + b).drop_last() =~= m + b.drop_last());
        assert forall|i: int| 0 <= i < b.drop_last().len() implies k.has(
            #[trigger] b.drop_last()[i],
        ) by {
            assert(k.has(b[i]));
        }
        lemma_back_taken(m, b.drop_last(), k);
    }
}

/// White space in front of a text does not change what a trim leaves of it.
pub proof fn lemma_trim_skips_space(c: char, s: Seq<char>)
    requires
        is_space(c),
    ensures
        trim(seq![c] + s) == trim(s),
{
    assert((seq![c] + s).drop_first() =~= s);
}

/// The characters that are white space, by their code points.
pub proof fn law_white_space(c: char)
    ensures
        is_space(c) == seq![
            9u32,
            10,
            11,
            12,
            13,
            32,
            133,
            160,
            5760,
            8192,
            8193,
            8194,
            8195,
            8196,
            8197,
            8198,
            8199,
            8200,
            8201,
            8202,
            8232,
            8233,
            8239,
            8287,
            12288,
        ].contains(c as u32),
{
    let all = seq![
        9u32,
        10,
        11,
        12,
        13,
        32,
        133,
        160,
        5760,
        8192,
        8193,
        8194,
        8195,
        8196,
        8197,
        8198,
        8199,
        8200,
        8201,
        8202,
        8232,
        8233,
        8239,
        8287,
        12288,
    ];
    let n = c as u32;
    if is_space(c) {
        let i: int = if n <= 13 {
            n - 9
        } else if n == 32 {
            5
        } else if n == 133 {
            6
        } else if n == 160 {
            7
        } else if n == 5760 {
            8
        } else if n <= 8202 {
            n - 8192 + 9
        } else if n == 8232 {
            20
        } else if n == 8233 {
            21
        } else if n == 8239 {
            22
        } else if n == 8287 {
            23
        } else {
            24
        };
        assert(all[i] == n);
    }
}

/// Whether every character of `s` is white space.
pub open spec fn is_blank(s: Seq<char>) -> bool {
    trim(s).len() == 0
}

/// `pat` stands in `s` at position `i`.
pub open spec fn occurs_at(s: Seq<char>, pat: Seq<char>, i: int) -> bool {
    0 <= i && i + pat.len() <= s.len() && s.subrange(i, i + pat.len()) == pat
}

/// `pat` stands somewhere in `s`.
pub open spec fn contains(s: Seq<char>, pat: Seq<char>) -> bool {
    exists|i: int| occurs_at(s, pat, i)
}

/// The first position of `pat` in `s` that is not before `from`.
pub open spec fn find_from(s: Seq<char>, pat: Seq<char>, from: int) -> Option<int>
    decreases s.len() - from + 1,
{
    if from + pat.len() > s.len() {
        None
    } else if occurs_at(s, pat, from) {
        Some(from)
    } else {
        find_from(s, pat, from + 1)
    }
}

/// The first position of `pat` in `s`.
pub open spec fn find(s: Seq<char>, pat: Seq<char>) -> Option<int> {
    find_from(s, pat, 0)
}

/// What `find_from` finds is an occurrence, and the first one.
pub proof fn lemma_find_from(s: Seq<char>, pat: Seq<char>, from: int)
    requires
        0 <= from,
    ensures
        match find_from(s, pat, from) {
            Some(i) => from <= i && occurs_at(s, pat, i) && forall|j: int|
                from <= j < i ==> !occurs_at(s, pat, j),
            None => forall|j: int| from <= j ==> !occurs_at(s, pat, j),
        },
    decreases s.len() - from + 1,
{
    if from + pat.len() <= s.len() && !occurs_at(s, pat, from) {
        lemma_find_from(s, pat, from + 1);
    }
}

/// A place where `pat` stands, with none before it, is the one that is found.
pub proof fn lemma_find_is(s: Seq<char>, pat: Seq<char>, i: int)
    requires
        occurs_at(s, pat, i),
        forall|j: int| 0 <= j < i ==> !occurs_at(s, pat, j),
    ensures
        find(s, pat) == Some(i),
{
    lemma_find_from(s, pat, 0);
    if let Some(k) = find(s, pat) {
        if k < i {
            assert(!occurs_at(s, pat, k));
        } else if i < k {
            assert(!occurs_at(s, pat, i));
        }
    }
}

/// A text that does not hold `pat` has no place of it.
pub proof fn lemma_find_none(s: Seq<char>, pat: Seq<char>)
    ensures
        find(s, pat) is None == !contains(s, pat),
{
    lemma_find_from(s, pat, 0);
}

/// Whether `pat` stands at a place depends on the text there alone.
pub proof fn lemma_occurs_in_front(a: Seq<char>, b: Seq<char>, pat: Seq<char>, j: int)
    requires
        j + pat.len() <= a.len(),
    ensures
        occurs_at(a + b, pat, j) == occurs_at(a, pat, j),
{
    if 0 <= j {
        assert((a + b).subrange(j, j + pat.len()) =~= a.subrange(j, j + pat.len()));
    }
}

/// Whether `pat` stands at a place depends on the text there alone.
pub proof fn lemma_occurs_behind(a: Seq<char>, b: Seq<char>, pat: Seq<char>, j: int)
    requires
        0 <= j,
    ensures
        occurs_at(a + b, pat, a.len() + j) == occurs_at(b, pat, j),
{
    if j + pat.len() <= b.len() {
        assert((a + b).subrange(a.len() + j, a.len() + j + pat.len()) =~= b.subrange(
            j,
            j + pat.len(),
        ));
    }
}

/// A text that is put together holds each of its parts.
pub proof fn lemma_holds_the_middle(a: Seq<char>, m: Seq<char>, b: Seq<char>)
    ensures
        occurs_at(a + m + b, m, a.len() as int),
        contains(a + m + b, m),
{
    assert((a + m + b).subrange(a.len() as int, (a.len() + m.len()) as int) =~= m);
}

/// What a part holds the whole holds.
pub proof fn lemma_holds_what_a_part_holds(a: Seq<char>, m: Seq<char>, b: Seq<char>, pat: Seq<char>)
    requires
        contains(m, pat),
    ensures
        contains(a + m + b, pat),
{
    let i = choose|i: int| occurs_at(m, pat, i);
    lemma_occurs_behind(a, m, pat, i);
    lemma_occurs_in_front(a + m, b, pat, a.len() + i);
}

/// A list of texts that is joined holds each of them.
pub proof fn lemma_join_holds_each(parts: Seq<Seq<char>>, sep: Seq<char>, k: int)
    requires
        0 <= k < parts.len(),
    ensures
        contains(join(parts, sep), parts[k]),
    decreases parts.len(),
{
    let none = Seq::<char>::empty();
    if parts.len() == 1 {
        lemma_holds_the_middle(none, parts[0], none);
        assert(none + parts[0] + none =~= parts[0]);
    } else if k == parts.len() - 1 {
        lemma_holds_the_middle(join(parts.drop_last(), sep) + sep, parts.last(), none);
        assert(join(parts.drop_last(), sep) + sep + parts.last() + none =~= join(parts, sep));
    } else {
        lemma_join_holds_each(parts.drop_last(), sep, k);
        lemma_holds_what_a_part_holds(
            none,
            join(parts.drop_last(), sep),
            sep + parts.last(),
            parts[k],
        );
        assert(none + join(parts.drop_last(), sep) + (sep + parts.last()) =~= join(parts, sep));
    }
}

/// `pat` first stands in `a + pat` at the end of `a`: none starts within `a`.
pub open spec fn ends_first(a: Seq<char>, pat: Seq<char>) -> bool {
    forall|j: int| 0 <= j < a.len() ==> !occurs_at(a + pat, pat, j)
}

/// Where no `pat` starts within `a`, the first `pat` of `a + pat + b` is the one behind `a`.
pub proof fn lemma_find_behind(a: Seq<char>, pat: Seq<char>, b: Seq<char>)
    requires
        ends_first(a, pat),
    ensures
        find(a + pat + b, pat) == Some(a.len() as int),
{
    let s = a + pat + b;
    lemma_occurs_in_front(a + pat, b, pat, a.len() as int);
    assert((a + pat).subrange(a.len() as int, (a + pat).len() as int) =~= pat);
    assert forall|j: int| 0 <= j < a.len() implies !occurs_at(s, pat, j) by {
        lemma_occurs_in_front(a + pat, b, pat, j);
    }
    lemma_find_is(s, pat, a.len() as int);
}

/// The first place of a character is behind a text that does not hold it; such a text has none.
pub proof fn lemma_find_behind_char(a: Seq<char>, c: char, b: Seq<char>)
    requires
        !a.contains(c),
    ensures
        find(a + seq![c] + b, seq![c]) == Some(a.len() as int),
        find(a, seq![c]) is None,
{
    let sep = seq![c];
    assert forall|j: int| 0 <= j < a.len() implies !occurs_at(a + sep, sep, j) by {
        if occurs_at(a + sep, sep, j) {
            assert((a + sep).subrange(j, j + 1)[0] == a[j]);
            assert(a.contains(c));
        }
    }
    lemma_find_behind(a, sep, b);
    assert forall|j: int| !occurs_at(a, sep, j) by {
        if occurs_at(a, sep, j) {
            assert(a.subrange(j, j + 1)[0] == a[j]);
            assert(a.contains(c));
        }
    }
    lemma_find_none(a, sep);
}

/// `s` starts with `p`.
pub open spec fn starts_with(s: Seq<char>, p: Seq<char>) -> bool {
    occurs_at(s, p, 0)
}

/// `s` with every occurrence of the non-empty `pat`, taken from the left without overlap,
/// replaced by `with`.
pub open spec fn replace_all(s: Seq<char>, pat: Seq<char>, with: Seq<char>) -> Seq<char>
    decreases s.len(),
{
    match find(s, pat) {
        Some(i) if pat.len() > 0 => {
            proof {
                lemma_find_from(s, pat, 0);
            }
            s.take(i) + with + replace_all(s.skip(i + pat.len()), pat, with)
        },
        _ => s,
    }
}

/// The pieces of `s` between the occurrences of the character `c`.
pub open spec fn split_on(s: Seq<char>, c: char) -> Seq<Seq<char>>
    decreases s.len(),
{
    match find(s, seq![c]) {
        Some(i) => {
            proof {
                lemma_find_from(s, seq![c], 0);
            }
            seq![s.take(i)] + split_on(s.skip(i + 1), c)
        },
        None => seq![s],
    }
}

/// The pieces that are not blank, each without white space at its ends.
pub open spec fn kept(pieces: Seq<Seq<char>>) -> Seq<Seq<char>>
    decreases pieces.len(),
{
    if pieces.len() == 0 {
        Seq::empty()
    } else if is_blank(pieces.last()) {
        kept(pieces.drop_last())
    } else {
        kept(pieces.drop_last()).push(trim(pieces.last()))
    }
}

/// The parts one after another, `sep` between neighbours.
pub open spec fn join(parts: Seq<Seq<char>>, sep: Seq<char>) -> Seq<char>
    decreases parts.len(),
{
    if parts.len() == 0 {
        Seq::empty()
    } else if parts.len() == 1 {
        parts[0]
    } else {
        join(parts.drop_last(), sep) + sep + parts.last()
    }
}

/// The first `n` characters of `s`, or all of it where it has fewer.
pub open spec fn first(s: Seq<char>, n: nat) -> Seq<char> {
    if s.len() <= n {
        s
    } else {
        s.take(n as int)
    }
}

/// The decimal digit `d`.
pub open spec fn digit(d: nat) -> char {
    (48 + d) as char
}

/// `n` in decimal.
pub open spec fn decimal(n: nat) -> Seq<char>
    decreases n,
{
    if n < 10 {
        seq![digit(n)]
    } else {
        decimal(n / 10).push(digit(n % 10))
    }
}

/// The views of a list of strings.
pub open spec fn views(v: Seq<String>) -> Seq<Seq<char>> {
    v.map_values(|s: String| s@)
}

/// The view of an optional string slice.
pub open spec fn opt_str(s: Option<&str>) -> Option<Seq<char>> {
    match s {
        Some(t) => Some(t@),
        None => None,
    }
}

/// The view of an optional string.
pub open spec fn opt_string(s: Option<String>) -> Option<Seq<char>> {
    match s {
        Some(t) => Some(t@),
        None => None,
    }
}

/// The characters of `s`.
pub fn chars_of(s: &str) -> (r: Vec<char>)
    ensures
        r@ == s@,
{
    let mut r: Vec<char> = Vec::new();
    for c in it: s.chars()
        invariant
            it.seq() == s@,
            r@ == s@.take(it.index() as int),
    {
        r.push(c);
    }
    assert(s@.take(s@.len() as int) == s@);
    r
}

/// The string with the characters of `v`.
pub fn string_of(v: &[char]) -> (r: String)
    ensures
        r@ == v@,
{
    let mut r = String::new();
    let mut i: usize = 0;
    while i < v.len()
        invariant
            i <= v.len(),
            r@ == v@.take(i as int),
        decreases v.len() - i,
    {
        r.push(v[i]);
        assert(v@.take(i + 1) == v@.take(i as int).push(v@[i as int]));
        i += 1;
    }
    assert(v@.take(v@.len() as int) == v@);
    r
}

/// `s` without its longest prefix of characters of `k`.
pub fn skip_front(s: &[char], k: Class) -> (r: &[char])
    ensures
        r@ == trim_front(s@, k),
{
    let mut i: usize = 0;
    assert(s@.skip(0) == s@);
    while i < s.len() && k.contains(s[i])
        invariant
            i <= s.len(),
            trim_front(s@, k) == trim_front(s@.skip(i as int), k),
        decreases s.len() - i,
    {
        assert(s@.skip(i as int).drop_first() == s@.skip(i + 1));
        i += 1;
    }
    slice_subrange(s, i, s.len())
}

/// `s` without its longest suffix of characters of `k`.
pub fn skip_back(s: &[char], k: Class) -> (r: &[char])
    ensures
        r@ == trim_back(s@, k),
{
    let mut n: usize = s.len();
    assert(s@.take(s@.len() as int) == s@);
    while n > 0 && k.contains(s[n - 1])
        invariant
            n <= s.len(),
            trim_back(s@, k) == trim_back(s@.take(n as int), k),
        decreases n,
    {
        assert(s@.take(n as int).drop_last() == s@.take(n - 1));
        n -= 1;
    }
    slice_subrange(s, 0, n)
}

/// `s` without the characters of `k` at either end.
pub fn skip_both(s: &[char], k: Class) -> (r: &[char])
    ensures
        r@ == trim_both(s@, k),
{
    skip_back(skip_front(s, k), k)
}

/// `s` without white space at either end.
pub fn trimmed(s: &str) -> (r: String)
    ensures
        r@ == trim(s@),
{
    let v = chars_of(s);
    string_of(skip_both(v.as_slice(), Class::Space))
}

/// Whether `s` holds nothing but white space.
pub fn blank(s: &str) -> (r: bool)
    ensures
        r == is_blank(s@),
{
    let v = chars_of(s);
    skip_both(v.as_slice(), Class::Space).len() == 0
}

/// The first `n` characters of `s`, or all of it where it has fewer.
pub fn first_chars(s: &[char], n: usize) -> (r: &[char])
    ensures
        r@ == first(s@, n as nat),
{
    if s.len() <= n {
        s
    } else {
        slice_subrange(s, 0, n)
    }
}

/// Whether `pat` stands in `s` at `i`.
pub fn matches_at(s: &[char], pat: &[char], i: usize) -> (r: bool)
    ensures
        r == occurs_at(s@, pat@, i as int),
{
    if i > s.len() || pat.len() > s.len() - i {
        return false;
    }
    let mut j: usize = 0;
    while j < pat.len()
        invariant
            j <= pat.len(),
            i + pat.len() <= s.len(),
            forall|l: int| 0 <= l < j ==> s@[i + l] == pat@[l],
        decreases pat.len() - j,
    {
        if s[i + j] != pat[j] {
            assert(s@.subrange(i as int, i + pat@.len())[j as int] == s@[i + j]);
            return false;
        }
        j += 1;
    }
    assert(s@.subrange(i as int, i + pat@.len()) =~= pat@);
    true
}

/// The first position of `pat` in `s` that is not before `from`.
pub fn position_from(s: &[char], pat: &[char], from: usize) -> (r: Option<usize>)
    requires
        from <= s.len(),
    ensures
        match r {
            Some(i) => find_from(s@, pat@, from as int) == Some(i as int),
            None => find_from(s@, pat@, from as int) is None,
        },
{
    let mut i: usize = from;
    while pat.len() <= s.len() - i
        invariant
            from <= i <= s.len(),
            find_from(s@, pat@, from as int) == find_from(s@, pat@, i as int),
        decreases s.len() - i,
    {
        if matches_at(s, pat, i) {
            return Some(i);
        }
        if i == s.len() {
            assert(s@.subrange(i as int, i as int) =~= pat@);
            return None;
        }
        i += 1;
    }
    None
}

/// The first position of `pat` in `s`.
pub fn position(s: &[char], pat: &[char]) -> (r: Option<usize>)
    ensures
        match r {
            Some(i) => find(s@, pat@) == Some(i as int) && i + pat.len() <= s.len(),
            None => find(s@, pat@) is None,
        },
{
    proof {
        lemma_find_from(s@, pat@, 0);
    }
    position_from(s, pat, 0)
}

/// Whether `pat` stands somewhere in `s`.
pub fn has_text(s: &str, pat: &str) -> (r: bool)
    ensures
        r == contains(s@, pat@),
{
    let v = chars_of(s);
    let p = chars_of(pat);
    proof {
        lemma_find_from(s@, pat@, 0);
    }
    position(v.as_slice(), p.as_slice()).is_some()
}

/// Whether `s` starts with `p`.
pub fn has_prefix(s: &str, p: &str) -> (r: bool)
    ensures
        r == starts_with(s@, p@),
{
    let v = chars_of(s);
    let w = chars_of(p);
    matches_at(v.as_slice(), w.as_slice(), 0)
}

/// Appends the characters of `v` to `out`.
pub fn push_chars(out: &mut Vec<char>, v: &[char])
    ensures
        final(out)@ == old(out)@ + v@,
{
    let ghost start = out@;
    let mut i: usize = 0;
    while i < v.len()
        invariant
            i <= v.len(),
            out@ == start + v@.take(i as int),
        decreases v.len() - i,
    {
        out.push(v[i]);
        assert(start + v@.take(i + 1) == (start + v@.take(i as int)).push(v@[i as int]));
        i += 1;
    }
    assert(v@.take(v@.len() as int) == v@);
}

/// `s` with every occurrence of the non-empty `pat`, taken from the left without overlap,
/// replaced by `with`.
pub fn replaced(s: &[char], pat: &[char], with: &[char]) -> (r: Vec<char>)
    requires
        pat.len() > 0,
    ensures
        r@ == replace_all(s@, pat@, with@),
{
    let mut out: Vec<char> = Vec::new();
    let mut rest: &[char] = s;
    loop
        invariant
            pat.len() > 0,
            replace_all(s@, pat@, with@) == out@ + replace_all(rest@, pat@, with@),
        decreases rest.len(),
    {
        match position(rest, pat) {
            Some(i) => {
                push_chars(&mut out, slice_subrange(rest, 0, i));
                push_chars(&mut out, with);
                rest = slice_subrange(rest, i + pat.len(), rest.len());
            },
            None => {
                push_chars(&mut out, rest);
                return out;
            },
        }
    }
}

/// `s` with every occurrence of the non-empty `pat` replaced by `with`.
pub fn replace_text(s: &str, pat: &str, with: &str) -> (r: String)
    requires
        pat@.len() > 0,
    ensures
        r@ == replace_all(s@, pat@, with@),
{
    let v = chars_of(s);
    let p = chars_of(pat);
    let w = chars_of(with);
    string_of(replaced(v.as_slice(), p.as_slice(), w.as_slice()).as_slice())
}

/// `a` comes before `b` in the order of their characters, as strings are sorted.
pub open spec fn lex_lt(a: Seq<char>, b: Seq<char>) -> bool
    decreases a.len(),
{
    if b.len() == 0 {
        false
    } else if a.len() == 0 {
        true
    } else if a[0] == b[0] {
        lex_lt(a.drop_first(), b.drop_first())
    } else {
        a[0] < b[0]
    }
}

/// No string comes before itself.
pub proof fn lemma_lex_irreflexive(a: Seq<char>)
    ensures
        !lex_lt(a, a),
    decreases a.len(),
{
    if a.len() > 0 {
        lemma_lex_irreflexive(a.drop_first());
    }
}

/// The order is transitive.
pub proof fn lemma_lex_transitive(a: Seq<char>, b: Seq<char>, c: Seq<char>)
    requires
        lex_lt(a, b),
        lex_lt(b, c),
    ensures
        lex_lt(a, c),
    decreases a.len(),
{
    if a.len() > 0 && a[0] == b[0] && b[0] == c[0] {
        lemma_lex_transitive(a.drop_first(), b.drop_first(), c.drop_first());
    }
}

/// Of two different strings one comes before the other.
pub proof fn lemma_lex_total(a: Seq<char>, b: Seq<char>)
    ensures
        lex_lt(a, b) || lex_lt(b, a) || a == b,
    decreases a.len(),
{
    if a.len() == 0 || b.len() == 0 {
        if a.len() == b.len() {
            assert(a =~= b);
        }
    } else if a[0] == b[0] {
        lemma_lex_total(a.drop_first(), b.drop_first());
        if a.drop_first() == b.drop_first() {
            assert(a =~= seq![a[0]] + a.drop_first());
            assert(b =~= seq![b[0]] + b.drop_first());
        }
    }
}

/// Whether `a` comes before `b`.
pub fn comes_before(a: &str, b: &str) -> (r: bool)
    ensures
        r == lex_lt(a@, b@),
{
    let x = chars_of(a);
    let y = chars_of(b);
    let mut i: usize = 0;
    assert(x@.skip(0) == x@);
    assert(y@.skip(0) == y@);
    while i < x.len() && i < y.len()
        invariant
            i <= x.len(),
            i <= y.len(),
            x@ == a@,
            y@ == b@,
            lex_lt(a@, b@) == lex_lt(x@.skip(i as int), y@.skip(i as int)),
        decreases x.len() - i,
    {
        if x[i] != y[i] {
            return x[i] < y[i];
        }
        assert(x@.skip(i as int).drop_first() == x@.skip(i + 1));
        assert(y@.skip(i as int).drop_first() == y@.skip(i + 1));
        i += 1;
    }
    i < y.len()
}

/// Whether `a` and `b` hold the same characters.
pub fn same(a: &str, b: &str) -> (r: bool)
    ensures
        r == (a@ == b@),
{
    let x = chars_of(a);
    let y = chars_of(b);
    x.len() == y.len() && {
        let r = matches_at(x.as_slice(), y.as_slice(), 0);
        assert(x@.subrange(0, x@.len() as int) == x@);
        r
    }
}

/// Appends `n` in decimal to `out`.
pub fn push_decimal(out: &mut String, n: u64)
    ensures
        final(out)@ == old(out)@ + decimal(n as nat),
    decreases n,
{
    if n >= 10 {
        push_decimal(out, n / 10);
    }
    let d: u8 = 48 + (n % 10) as u8;
    out.push(d as char);
    assert(out@ == old(out)@ + decimal(n as nat));
}

/// `n` in decimal.
pub fn decimal_of(n: u64) -> (r: String)
    ensures
        r@ == decimal(n as nat),
{
    let mut out = String::new();
    push_decimal(&mut out, n);
    assert(out@ == decimal(n as nat));
    out
}

/// The parts one after another, `sep` between neighbours.
pub fn joined(parts: &[String], sep: &str) -> (r: String)
    ensures
        r@ == join(views(parts@), sep@),
{
    let mut out = String::new();
    let mut i: usize = 0;
    let ghost all = views(parts@);
    while i < parts.len()
        invariant
            i <= parts.len(),
            all == views(parts@),
            out@ == join(all.take(i as int), sep@),
        decreases parts.len() - i,
    {
        if i > 0 {
            out.append(sep);
        }
        out.append(parts[i].as_str());
        assert(all.take(i + 1).drop_last() == all.take(i as int));
        assert(all.take(i + 1).last() == parts@[i as int]@);
        assert(out@ == join(all.take(i + 1), sep@));
        i += 1;
    }
    assert(all.take(parts@.len() as int) == all);
    out
}

/// The pieces of `s` between the occurrences of the character `c`.
pub fn pieces(s: &[char], c: char) -> (r: Vec<&[char]>)
    ensures
        r@.map_values(|p: &[char]| p@) == split_on(s@, c),
{
    let mut out: Vec<&[char]> = Vec::new();
    let mut rest: &[char] = s;
    let pat: [char; 1] = [c];
    assert(pat@ == seq![c]);
    loop
        invariant
            pat@ == seq![c],
            split_on(s@, c) == out@.map_values(|p: &[char]| p@) + split_on(rest@, c),
        decreases rest.len(),
    {
        let ghost before = out@;
        match position(rest, pat.as_slice()) {
            Some(i) => {
                let head = slice_subrange(rest, 0, i);
                out.push(head);
                rest = slice_subrange(rest, i + 1, rest.len());
                assert(out@.map_values(|p: &[char]| p@) == before.map_values(|p: &[char]| p@).push(head@));
            },
            None => {
                out.push(rest);
                assert(out@.map_values(|p: &[char]| p@) == before.map_values(|p: &[char]| p@).push(rest@));
                return out;
            },
        }
    }
}

/// The pieces of `s` between the occurrences of `c` that are not blank, trimmed.
pub fn kept_pieces(s: &str, c: char) -> (r: Vec<String>)
    ensures
        views(r@) == kept(split_on(s@, c)),
{
    let v = chars_of(s);
    let parts = pieces(v.as_slice(), c);
    let ghost all = split_on(s@, c);
    let mut out: Vec<String> = Vec::new();
    let mut i: usize = 0;
    assert(views(out@) == Seq::<Seq<char>>::empty());
    while i < parts.len()
        invariant
            i <= parts.len(),
            all == parts@.map_values(|p: &[char]| p@),
            views(out@) == kept(all.take(i as int)),
        decreases parts.len() - i,
    {
        let part = skip_both(parts[i], Class::Space);
        assert(all.take(i + 1).drop_last() == all.take(i as int));
        assert(all.take(i + 1).last() == parts@[i as int]@);
        let ghost before = out@;
        if part.len() > 0 {
            out.push(string_of(part));
            assert(views(out@) == views(before).push(part@));
        }
        i += 1;
    }
    assert(all.take(all.len() as int) == all);
    out
}

/// The number of bytes of `c` in UTF-8.
pub open spec fn width(c: char) -> nat {
    encode_scalar(c as u32).len()
}

/// The number of bytes of `s` in UTF-8.
pub open spec fn utf8_len(s: Seq<char>) -> nat {
    encode_utf8(s).len()
}

/// The encoding of a concatenation is the concatenation of the encodings.
pub proof fn lemma_encode_concat(a: Seq<char>, b: Seq<char>)
    ensures
        encode_utf8(a + b) == encode_utf8(a) + encode_utf8(b),
    decreases a.len(),
{
    if a.len() == 0 {
        assert(a + b =~= b);
        assert(encode_utf8(a) + encode_utf8(b) =~= encode_utf8(b));
    } else {
        lemma_encode_concat(a.drop_first(), b);
        assert((a + b).drop_first() =~= a.drop_first() + b);
        assert(encode_utf8(a + b) =~= encode_utf8(a) + encode_utf8(b));
    }
}

/// A prefix that is one character longer has the bytes of that character more, and no prefix
/// has more bytes than the whole.
pub proof fn lemma_utf8_prefix(s: Seq<char>, k: int)
    requires
        0 <= k <= s.len(),
    ensures
        utf8_len(s.take(k)) <= utf8_len(s),
        k < s.len() ==> utf8_len(s.take(k + 1)) == utf8_len(s.take(k)) + width(s[k]),
{
    assert(s.take(k) + s.skip(k) =~= s);
    lemma_encode_concat(s.take(k), s.skip(k));
    if k < s.len() {
        let one = seq![s[k]];
        assert(s.take(k + 1) =~= s.take(k) + one);
        lemma_encode_concat(s.take(k), one);
        assert(encode_utf8(one.drop_first()).len() == 0);
        assert(encode_utf8(one) =~= encode_scalar(s[k] as u32));
    }
}

/// The number of characters in the first `n` bytes of `s`; `None` where `n` is past the end or
/// inside a character.
pub open spec fn cut(s: Seq<char>, n: int) -> Option<int>
    decreases s.len(),
{
    if n == 0 {
        Some(0)
    } else if s.len() == 0 || n < width(s[0]) {
        None
    } else {
        match cut(s.drop_first(), n - width(s[0])) {
            Some(k) => Some(k + 1),
            None => None,
        }
    }
}

/// `cut` gives the one prefix that has `n` bytes.
pub proof fn lemma_cut(s: Seq<char>, n: int)
    requires
        0 <= n,
    ensures
        match cut(s, n) {
            Some(k) => 0 <= k <= s.len() && utf8_len(s.take(k)) == n,
            None => forall|k: int| 0 <= k <= s.len() ==> utf8_len(#[trigger] s.take(k)) != n,
        },
    decreases s.len(),
{
    if n == 0 {
        assert(encode_utf8(s.take(0)).len() == 0);
    } else if s.len() > 0 {
        let t = s.drop_first();
        if n >= width(s[0]) {
            lemma_cut(t, n - width(s[0]));
        }
        assert forall|k: int| 0 < k <= s.len() implies utf8_len(#[trigger] s.take(k)) == width(s[0])
            + utf8_len(t.take(k - 1)) by {
            assert(s.take(k).drop_first() =~= t.take(k - 1));
        }
        assert(encode_utf8(s.take(0)).len() == 0);
        if cut(s, n) is None {
            assert forall|k: int| 0 <= k <= s.len() implies utf8_len(#[trigger] s.take(k)) != n by {
                if k > 0 {
                    let _ = t.take(k - 1);
                }
            }
        } else {
            let k = cut(s, n)->Some_0;
            assert(s.take(k).drop_first() =~= t.take(k - 1));
        }
    } else {
        assert forall|k: int| 0 <= k <= s.len() implies utf8_len(#[trigger] s.take(k)) != n by {
            assert(encode_utf8(s.take(k)).len() == 0);
        }
    }
}

/// Prefixes with as many bytes are the same.
pub proof fn lemma_same_bytes(s: Seq<char>, j: int, k: int)
    requires
        0 <= j <= s.len(),
        0 <= k <= s.len(),
        utf8_len(s.take(j)) == utf8_len(s.take(k)),
    ensures
        j == k,
{
    if j < k {
        lemma_more_bytes(s, j, k);
    } else if k < j {
        lemma_more_bytes(s, k, j);
    }
}

/// A longer prefix has more bytes.
proof fn lemma_more_bytes(s: Seq<char>, j: int, k: int)
    requires
        0 <= j < k <= s.len(),
    ensures
        utf8_len(s.take(j)) < utf8_len(s.take(k)),
    decreases k - j,
{
    lemma_utf8_prefix(s, k - 1);
    if j < k - 1 {
        lemma_more_bytes(s, j, k - 1);
    }
}

/// A text is cut behind a part of it by the bytes of that part.
pub proof fn lemma_cut_behind(head: Seq<char>, more: Seq<char>)
    ensures
        cut(head + more, utf8_len(head) as int) == Some(head.len() as int),
        more.len() > 0 ==> utf8_len(head + more) > utf8_len(head),
{
    let s = head + more;
    let n = utf8_len(head) as int;
    assert(s.take(head.len() as int) =~= head);
    lemma_cut(s, n);
    let _ = s.take(head.len() as int);
    let k = cut(s, n)->Some_0;
    lemma_same_bytes(s, k, head.len() as int);
    if more.len() > 0 {
        lemma_more_bytes(s, head.len() as int, s.len() as int);
        assert(s.take(s.len() as int) =~= s);
    }
}

/// The number of bytes of `c` in UTF-8.
pub fn width_of(c: char) -> (r: usize)
    ensures
        r == width(c),
        1 <= r <= 4,
{
    let u: u32 = c as u32;
    if u <= 0x7f {
        1
    } else if u <= 0x7ff {
        2
    } else if u <= 0xffff {
        3
    } else {
        4
    }
}

/// The number of bytes of `s` in UTF-8.
pub fn byte_len(s: &str) -> (r: usize)
    ensures
        r == utf8_len(s@),
{
    s.as_bytes().len()
}

/// The number of bytes of the first `k` characters of `s`.
pub fn prefix_bytes(s: &[char], k: usize) -> (r: usize)
    requires
        k <= s.len(),
        utf8_len(s@) <= usize::MAX,
    ensures
        r == utf8_len(s@.take(k as int)),
{
    let mut i: usize = 0;
    let mut n: usize = 0;
    assert(encode_utf8(s@.take(0)).len() == 0);
    while i < k
        invariant
            i <= k <= s.len(),
            utf8_len(s@) <= usize::MAX,
            n == utf8_len(s@.take(i as int)),
        decreases k - i,
    {
        proof {
            lemma_utf8_prefix(s@, i as int);
            lemma_utf8_prefix(s@, i + 1);
        }
        n += width_of(s[i]);
        i += 1;
    }
    n
}

/// The number of characters in the first `n` bytes of `s`.
pub fn cut_at(s: &[char], n: usize) -> (r: Option<usize>)
    ensures
        match r {
            Some(k) => cut(s@, n as int) == Some(k as int) && k <= s.len(),
            None => cut(s@, n as int) is None,
        },
{
    let mut i: usize = 0;
    let mut left: usize = n;
    assert(s@.skip(0) == s@);
    while left > 0
        invariant
            i <= s.len(),
            cut(s@, n as int) == (match cut(s@.skip(i as int), left as int) {
                Some(k) => Some(k + i),
                None => None,
            }),
        decreases left,
    {
        if i == s.len() {
            return None;
        }
        let w: usize = width_of(s[i]);
        if left < w {
            return None;
        }
        assert(s@.skip(i as int).drop_first() == s@.skip(i + 1));
        left -= w;
        i += 1;
    }
    Some(i)
}

/// `str::to_lowercase`: the lower case of the whole string by the Unicode tables.
pub uninterp spec fn lowercase(s: Seq<char>) -> Seq<char>;

/// `str::to_lowercase`: its result depends on the string alone.
pub assume_specification[ str::to_lowercase ](s: &str) -> (r: String)
    ensures
        r@ == lowercase(s@),
;

/// `c` in ASCII lower case.
pub open spec fn ascii_lower(c: char) -> char {
    if 'A' <= c <= 'Z' {
        (c as u32 + 32) as char
    } else {
        c
    }
}

/// Whether every character of `s` is one of the 128 of ASCII.
pub open spec fn is_ascii(s: Seq<char>) -> bool {
    forall|i: int| 0 <= i < s.len() ==> (#[trigger] s[i]) as u32 <= 0x7f
}

/// `s` with its ASCII letters in lower case.
pub open spec fn lowered(s: Seq<char>) -> Seq<char> {
    s.map_values(|c: char| ascii_lower(c))
}

/// An ASCII text has one byte for each character.
pub proof fn lemma_ascii_bytes(s: Seq<char>)
    requires
        is_ascii(s),
    ensures
        utf8_len(s) == s.len(),
    decreases s.len(),
{
    if s.len() > 0 {
        let rest = s.drop_first();
        assert forall|i: int| 0 <= i < rest.len() implies (#[trigger] rest[i]) as u32 <= 0x7f by {
            assert(rest[i] == s[i + 1]);
        }
        lemma_ascii_bytes(rest);
        assert(s[0] as u32 <= 0x7f);
    }
}

/// The first bytes of an ASCII text are its first characters.
pub proof fn lemma_ascii_cut(s: Seq<char>, n: int)
    requires
        is_ascii(s),
        0 <= n <= s.len(),
    ensures
        cut(s, n) == Some(n),
{
    lemma_cut(s, n);
    assert forall|k: int| 0 <= k <= s.len() implies utf8_len(#[trigger] s.take(k)) == k by {
        assert forall|i: int| 0 <= i < s.take(k).len() implies (#[trigger] s.take(k)[i]) as u32
            <= 0x7f by {
            assert(s.take(k)[i] == s[i]);
        }
        lemma_ascii_bytes(s.take(k));
    }
    let _ = s.take(n);
}

/// `c` in ASCII lower case.
pub fn lower_char(c: char) -> (r: char)
    ensures
        r == ascii_lower(c),
{
    if 'A' <= c && c <= 'Z' {
        let u: u8 = c as u8;
        (u + 32) as char
    } else {
        c
    }
}

/// Whether `a` and `b` are the same but for the case of ASCII letters.
pub fn same_ignoring_case(a: &[char], b: &[char]) -> (r: bool)
    ensures
        r == (a@.map_values(|c: char| ascii_lower(c)) == b@.map_values(|c: char| ascii_lower(c))),
{
    let ghost x = a@.map_values(|c: char| ascii_lower(c));
    let ghost y = b@.map_values(|c: char| ascii_lower(c));
    if a.len() != b.len() {
        assert(x.len() != y.len());
        return false;
    }
    let mut i: usize = 0;
    while i < a.len()
        invariant
            i <= a.len(),
            a.len() == b.len(),
            x == a@.map_values(|c: char| ascii_lower(c)),
            y == b@.map_values(|c: char| ascii_lower(c)),
            forall|j: int| 0 <= j < i ==> x[j] == y[j],
        decreases a.len() - i,
    {
        if lower_char(a[i]) != lower_char(b[i]) {
            assert(x[i as int] != y[i as int]);
            return false;
        }
        i += 1;
    }
    assert(x =~= y);
    true
}

/// Whether `c` is an ASCII letter or digit.
pub open spec fn is_alnum(c: char) -> bool {
    'a' <= c <= 'z' || 'A' <= c <= 'Z' || '0' <= c <= '9'
}

/// Whether `c` is an ASCII letter or digit.
pub fn alnum(c: char) -> (r: bool)
    ensures
        r == is_alnum(c),
{
    ('a' <= c && c <= 'z') || ('A' <= c && c <= 'Z') || ('0' <= c && c <= '9')
}

/// Parts joined by one text come apart at it again and are joined by another: a replacement takes
/// every occurrence, and leaves everything between them.
pub proof fn law_replacing_rejoins(parts: Seq<Seq<char>>, pat: Seq<char>, with: Seq<char>)
    requires
        parts.len() > 0,
        pat.len() > 0,
        forall|i: int| 0 <= i < parts.len() - 1 ==> ends_first(#[trigger] parts[i], pat),
        !contains(parts.last(), pat),
    ensures
        replace_all(join(parts, pat), pat, with) == join(parts, with),
    decreases parts.len(),
{
    if parts.len() == 1 {
        lemma_find_none(parts[0], pat);
    } else {
        let rest = parts.drop_first();
        lemma_join_front(parts, pat);
        lemma_join_front(parts, with);
        assert(ends_first(parts[0], pat));
        assert forall|i: int| 0 <= i < rest.len() - 1 implies ends_first(
            #[trigger] rest[i],
            pat,
        ) by {
            assert(ends_first(parts[i + 1], pat));
        }
        law_replacing_rejoins(rest, pat, with);
        let s = join(parts, pat);
        let tail = join(rest, pat);
        lemma_find_behind(parts[0], pat, tail);
        assert(s.take(parts[0].len() as int) =~= parts[0]);
        assert(s.skip((parts[0].len() + pat.len()) as int) =~= tail);
    }
}

/// A join is its first part, the separator and the join of the others.
pub proof fn lemma_join_front(parts: Seq<Seq<char>>, sep: Seq<char>)
    requires
        parts.len() > 1,
    ensures
        join(parts, sep) == parts[0] + sep + join(parts.drop_first(), sep),
    decreases parts.len(),
{
    let rest = parts.drop_first();
    assert(parts.drop_last()[0] == parts[0]);
    if parts.len() == 2 {
        assert(parts.drop_last().len() == 1);
        assert(rest[0] == parts.last());
        assert(join(parts.drop_last(), sep) == parts[0]);
        assert(join(rest, sep) == rest[0]);
    } else {
        lemma_join_front(parts.drop_last(), sep);
        assert(join(rest, sep) == join(rest.drop_last(), sep) + sep + rest.last());
        assert(parts.drop_last().drop_first() =~= rest.drop_last());
        assert(rest.last() == parts.last());
        assert(parts[0] + sep + join(rest.drop_last(), sep) + sep + parts.last() =~= parts[0] + sep
            + (join(rest.drop_last(), sep) + sep + parts.last()));
    }
}

/// One part is joined as it stands, and lists that are joined after one another have the separator
/// between them.
pub proof fn law_join_of_lists(a: Seq<Seq<char>>, b: Seq<Seq<char>>, sep: Seq<char>, one: Seq<char>)
    requires
        a.len() > 0,
        b.len() > 0,
    ensures
        join(a + b, sep) == join(a, sep) + sep + join(b, sep),
        join(seq![one], sep) == one,
    decreases a.len(),
{
    if a.len() == 1 {
        lemma_join_front(a + b, sep);
        assert((a + b).drop_first() =~= b);
    } else {
        law_join_of_lists(a.drop_first(), b, sep, one);
        lemma_join_front(a, sep);
        lemma_join_front(a + b, sep);
        assert((a + b).drop_first() =~= a.drop_first() + b);
        let r = join(a.drop_first(), sep);
        assert(a[0] + sep + (r + sep + join(b, sep)) =~= a[0] + sep + r + sep + join(b, sep));
    }
}

/// Parts without the character come apart again where they were joined by it.
pub proof fn law_splitting_undoes_joining(parts: Seq<Seq<char>>, c: char)
    requires
        parts.len() > 0,
        forall|i: int| 0 <= i < parts.len() ==> !(#[trigger] parts[i]).contains(c),
    ensures
        split_on(join(parts, seq![c]), c) == parts,
    decreases parts.len(),
{
    let sep = seq![c];
    if parts.len() == 1 {
        assert(!contains(parts[0], sep)) by {
            assert forall|j: int| !occurs_at(parts[0], sep, j) by {
                if occurs_at(parts[0], sep, j) {
                    assert(parts[0].subrange(j, j + 1)[0] == parts[0][j]);
                    assert(parts[0].contains(c));
                }
            }
        }
        lemma_find_none(parts[0], sep);
        assert(seq![parts[0]] =~= parts);
    } else {
        let rest = parts.drop_first();
        lemma_join_front(parts, sep);
        let tail = join(rest, sep);
        assert(ends_first(parts[0], sep)) by {
            assert forall|j: int| 0 <= j < parts[0].len() implies !occurs_at(
                parts[0] + sep,
                sep,
                j,
            ) by {
                if occurs_at(parts[0] + sep, sep, j) {
                    assert((parts[0] + sep).subrange(j, j + 1)[0] == parts[0][j]);
                    assert(parts[0].contains(c));
                }
            }
        }
        lemma_find_behind(parts[0], sep, tail);
        assert forall|i: int| 0 <= i < rest.len() implies !(#[trigger] rest[i]).contains(c) by {
            assert(rest[i] == parts[i + 1]);
        }
        law_splitting_undoes_joining(rest, c);
        let s = join(parts, sep);
        assert(s.take(parts[0].len() as int) =~= parts[0]);
        assert(s.skip((parts[0].len() + 1) as int) =~= tail);
        assert(seq![parts[0]] + rest =~= parts);
    }
}

/// Splitting takes no character away but the separators, and leaves none of those in a piece.
pub proof fn law_joining_undoes_splitting(s: Seq<char>, c: char)
    ensures
        split_on(s, c).len() > 0,
        join(split_on(s, c), seq![c]) == s,
        forall|i: int|
            0 <= i < split_on(s, c).len() ==> !(#[trigger] split_on(s, c)[i]).contains(c),
    decreases s.len(),
{
    let sep = seq![c];
    lemma_find_from(s, sep, 0);
    let all = split_on(s, c);
    match find(s, sep) {
        None => {
            if s.contains(c) {
                let j = choose|j: int| 0 <= j < s.len() && s[j] == c;
                assert(s.subrange(j, j + 1) =~= sep);
                assert(occurs_at(s, sep, j));
            }
        },
        Some(k) => {
            let rest = split_on(s.skip(k + 1), c);
            law_joining_undoes_splitting(s.skip(k + 1), c);
            assert(all.drop_first() =~= rest);
            lemma_join_front(all, sep);
            assert(s.subrange(k, k + 1)[0] == s[k]);
            assert(s.take(k) + sep + s.skip(k + 1) =~= s);
            assert forall|i: int| 0 <= i < all.len() implies !(#[trigger] all[i]).contains(c) by {
                if i == 0 {
                    if s.take(k).contains(c) {
                        let j = choose|j: int| 0 <= j < k && s.take(k)[j] == c;
                        assert(s.subrange(j, j + 1) =~= sep);
                        assert(occurs_at(s, sep, j));
                    }
                } else {
                    assert(all[i] == rest[i - 1]);
                }
            }
        },
    }
}

/// Of lists one after another the pieces that are not blank are kept, each in its place; of a single
/// piece what a trim leaves, where that is something.
pub proof fn law_kept_of_lists(a: Seq<Seq<char>>, b: Seq<Seq<char>>, one: Seq<char>)
    ensures
        kept(a + b) == kept(a) + kept(b),
        trim(one).len() > 0 ==> kept(seq![one]) == seq![trim(one)],
        trim(one).len() == 0 ==> kept(seq![one]) == Seq::<Seq<char>>::empty(),
    decreases b.len(),
{
    let single = seq![one];
    assert(single.drop_last() =~= Seq::<Seq<char>>::empty());
    assert(kept(single.drop_last()) =~= Seq::<Seq<char>>::empty());
    assert(Seq::<Seq<char>>::empty().push(trim(one)) =~= seq![trim(one)]);
    if b.len() == 0 {
        assert(a + b =~= a);
        assert(kept(a) + kept(b) =~= kept(a));
    } else {
        law_kept_of_lists(a, b.drop_last(), one);
        assert((a + b).drop_last() =~= a + b.drop_last());
        assert((a + b).last() == b.last());
        assert(kept(a) + kept(b.drop_last()).push(trim(b.last())) =~= (kept(a) + kept(
            b.drop_last(),
        )).push(trim(b.last())));
    }
}

/// What is shown first of a text is a prefix of it, the whole where it is short enough, and never
/// longer than asked.
pub proof fn law_first_is_a_prefix(a: Seq<char>, b: Seq<char>)
    ensures
        first(a + b, a.len()) == a,
        first(a, a.len() + b.len()) == a,
{
    assert((a + b).take(a.len() as int) =~= a);
    if b.len() == 0 {
        assert(a + b =~= a);
    }
}

/// The order of strings is decided where they first differ; a string that ends there comes first.
pub proof fn law_order_is_decided_at_the_first_difference(
    p: Seq<char>,
    a: Seq<char>,
    b: Seq<char>,
)
    requires
        a.len() > 0 && b.len() > 0 ==> a[0] != b[0],
    ensures
        lex_lt(p + a, p + b) == (b.len() > 0 && (a.len() == 0 || a[0] < b[0])),
    decreases p.len(),
{
    if p.len() == 0 {
        assert(p + a =~= a);
        assert(p + b =~= b);
    } else {
        assert((p + a).drop_first() =~= p.drop_first() + a);
        assert((p + b).drop_first() =~= p.drop_first() + b);
        law_order_is_decided_at_the_first_difference(p.drop_first(), a, b);
    }
}

/// The letters and digits, by their code points.
pub proof fn law_letters_and_digits(c: char)
    ensures
        is_alnum(c) == (48 <= c as u32 <= 57 || 65 <= c as u32 <= 90 || 97 <= c as u32 <= 122),
        ascii_lower(c) as u32 == (if 65 <= c as u32 <= 90 {
            c as u32 + 32
        } else {
            c as u32 as int
        }),
{
}

/// Both sides of an ASCII byte are character boundaries.
pub proof fn lemma_ascii_boundary(b: Seq<u8>, i: int)
    requires
        valid_utf8(b),
        0 <= i < b.len(),
        b[i] < 0x80,
    ensures
        is_char_boundary(b, i),
        is_char_boundary(b, i + 1),
    decreases b.len(),
{
    if i == 0 {
        assert(is_char_boundary(pop_first_scalar(b), 0));
    } else {
        assert(i >= length_of_first_scalar(b));
        lemma_ascii_boundary(pop_first_scalar(b), i - length_of_first_scalar(b));
    }
}

/// A list of strings is seen one by one.
pub proof fn law_views_are_one_by_one(v: Seq<String>, i: int)
    requires
        0 <= i < v.len(),
    ensures
        views(v).len() == v.len(),
        views(v)[i] == v[i]@,
{
}

} // verus!
