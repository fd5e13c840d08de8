//! Readable text out of an HTML page.

use crate::text;
use vstd::prelude::*;
use vstd::slice::slice_subrange;
use vstd::string::*;
use vstd::utf8::*;

verus! {

/// The number of bytes of page text that are shown.
pub const MAX_CHARS: usize = 8000;

/// The start of an element `tag`.
pub open spec fn open_tag(tag: Seq<char>) -> Seq<char> {
    "<"@ + tag
}

/// The end of an element `tag`.
pub open spec fn close_tag(tag: Seq<char>) -> Seq<char> {
    "</"@ + tag + ">"@
}

/// The end tag has at least one byte.
pub proof fn lemma_close_bytes(tag: Seq<char>)
    ensures
        text::utf8_len(close_tag(tag)) > 0,
{
    reveal_strlit("</");
    let c = close_tag(tag);
    assert(c[0] == "</"@[0]);
    text::lemma_utf8_prefix(c, 0);
    text::lemma_utf8_prefix(c, 1);
}

/// A place lies in its text, and behind its start where it lies behind some bytes.
pub proof fn lemma_place_in(s: Seq<char>, low: Seq<char>, pat: Seq<char>, past: nat)
    ensures
        match place_in(s, low, pat, past) {
            Some(Some(k)) => 0 <= k <= s.len() && (past > 0 ==> k > 0),
            _ => true,
        },
{
    if let Some(p) = text::find(low, pat) {
        let n = (text::utf8_len(low.take(p)) + past) as int;
        text::lemma_cut(s, n);
    }
}

/// How many characters of `s` stand in front of the place that lies `past` bytes behind the start
/// of the first `pat` in `low`, a text whose places are counted in bytes: `None` where `low` has no
/// `pat`, `Some(None)` where the place is past the end of `s` or inside one of its characters.
pub open spec fn place_in(s: Seq<char>, low: Seq<char>, pat: Seq<char>, past: nat) -> Option<
    Option<int>,
> {
    match text::find(low, pat) {
        None => None,
        Some(p) => Some(text::cut(s, (text::utf8_len(low.take(p)) + past) as int)),
    }
}

/// `html` without the elements `tag`, each from its start tag to its end tag in any case. A start
/// tag without an end tag ends the search; what stands before it then comes out twice. Places are
/// found in the lower-case text and counted there in bytes; `None` where such a place is past the
/// end of `html` or inside one of its characters.
pub open spec fn without_block(html: Seq<char>, tag: Seq<char>) -> Option<Seq<char>>
    decreases html.len(),
{
    match place_in(html, text::lowercase(html), open_tag(tag), 0) {
        None => Some(html),
        Some(None) => None,
        Some(Some(start)) => {
            let head = html.take(start);
            let tail = html.skip(start);
            let past = text::utf8_len(close_tag(tag));
            match place_in(tail, text::lowercase(tail), close_tag(tag), past) {
                None => Some(head + html),
                Some(None) => None,
                Some(Some(end)) => {
                    proof {
                        lemma_place_in(html, text::lowercase(html), open_tag(tag), 0);
                        lemma_place_in(tail, text::lowercase(tail), close_tag(tag), past);
                        lemma_close_bytes(tag);
                    }
                    match without_block(tail.skip(end), tag) {
                        None => None,
                        Some(rest) => Some(head + rest),
                    }
                },
            }
        },
    }
}

/// The characters of `s` outside of `<` .. `>`, where `inside` says on which side it starts.
pub open spec fn outside_tags(s: Seq<char>, inside: bool) -> Seq<char>
    decreases s.len(),
{
    if s.len() == 0 {
        Seq::empty()
    } else if s[0] == '<' {
        outside_tags(s.drop_first(), true)
    } else if s[0] == '>' {
        outside_tags(s.drop_first(), false)
    } else if inside {
        outside_tags(s.drop_first(), inside)
    } else {
        seq![s[0]] + outside_tags(s.drop_first(), inside)
    }
}

/// No angle bracket is left outside of the tags.
pub proof fn law_no_tag_is_left(s: Seq<char>, inside: bool)
    ensures
        !outside_tags(s, inside).contains('<'),
        !outside_tags(s, inside).contains('>'),
    decreases s.len(),
{
    if s.len() > 0 {
        law_no_tag_is_left(s.drop_first(), true);
        law_no_tag_is_left(s.drop_first(), false);
        law_no_tag_is_left(s.drop_first(), inside);
        let rest = outside_tags(s.drop_first(), inside);
        assert forall|i: int| 0 <= i < outside_tags(s, inside).len() implies outside_tags(
            s,
            inside,
        )[i] != '<' && outside_tags(s, inside)[i] != '>' by {
            let t = outside_tags(s, inside);
            assert(!rest.contains('<') && !rest.contains('>'));
            if s[0] == '<' {
                assert(outside_tags(s.drop_first(), true).contains(t[i]));
            } else if s[0] == '>' {
                assert(outside_tags(s.drop_first(), false).contains(t[i]));
            } else if inside || i > 0 {
                let j = if inside { i } else { i - 1 };
                assert(rest[j] == t[i]);
                assert(rest.contains(rest[j]));
            }
        }
    }
}

/// A page with elements between the texts `outs`, one behind each but the last.
pub open spec fn page_of(outs: Seq<Seq<char>>, elements: Seq<Seq<char>>) -> Seq<char>
    decreases elements.len(),
{
    if elements.len() == 0 {
        outs[0]
    } else {
        outs[0] + elements[0] + page_of(outs.drop_first(), elements.drop_first())
    }
}

/// `e` is an element `tag`: in lower case it starts with the start tag, and its only end tag is at
/// its end.
pub open spec fn is_element(e: Seq<char>, tag: Seq<char>) -> bool {
    let low = text::lowered(e);
    let inner = low.len() - close_tag(tag).len();
    &&& text::starts_with(low, "<"@ + tag)
    &&& text::occurs_at(low, "</"@ + tag + ">"@, inner)
    &&& forall|j: int| 0 <= j < inner ==> !text::occurs_at(low, "</"@ + tag + ">"@, j)
}

/// All elements `tag` of an ASCII page are taken out, however many there are, and all the text
/// between them is left. The lower case of an ASCII text is that of its letters.
#[verifier::rlimit(40)]
pub proof fn law_every_element_is_taken_out(
    outs: Seq<Seq<char>>,
    elements: Seq<Seq<char>>,
    tag: Seq<char>,
)
    requires
        forall|t: Seq<char>|
            text::is_ascii(t) ==> #[trigger] text::lowercase(t) == text::lowered(t),
        outs.len() == elements.len() + 1,
        forall|i: int|
            0 <= i < outs.len() ==> text::is_ascii(#[trigger] outs[i]) && !text::contains(
                text::lowered(outs[i]),
                "<"@ + tag,
            ),
        forall|i: int|
            0 <= i < elements.len() ==> text::is_ascii(#[trigger] elements[i]) && is_element(
                elements[i],
                tag,
            ),
        text::is_ascii(tag),
        !tag.contains('<'),
    ensures
        without_block(page_of(outs, elements), tag) == Some(text::join(outs, Seq::empty())),
    decreases elements.len(),
{
    reveal_strlit("<");
    reveal_strlit("</");
    reveal_strlit(">");
    let open = open_tag(tag);
    let close = close_tag(tag);
    let page = page_of(outs, elements);
    lemma_page_is_ascii(outs, elements);
    let low = text::lowered(page);
    assert(text::lowercase(page) == low);
    assert(text::is_ascii(outs[0]) && !text::contains(text::lowered(outs[0]), open));
    if elements.len() == 0 {
        text::lemma_find_none(low, open);
        assert(text::join(outs, Seq::empty()) == outs[0]);
    } else {
        let a = outs[0];
        let e = elements[0];
        let more = page_of(outs.drop_first(), elements.drop_first());
        assert(text::is_ascii(e) && is_element(e, tag));
        let la = text::lowered(a);
        let le = text::lowered(e);
        let lm = text::lowered(more);
        assert(low =~= la + (le + lm));
        // The first start tag is that of the first element.
        assert(text::occurs_at(low, open, a.len() as int)) by {
            text::lemma_occurs_in_front(le, lm, open, 0);
            text::lemma_occurs_behind(la, le + lm, open, 0);
        }
        assert forall|j: int| 0 <= j < a.len() implies !text::occurs_at(low, open, j) by {
            if text::occurs_at(low, open, j) {
                if j + open.len() <= la.len() {
                    text::lemma_occurs_in_front(la, le + lm, open, j);
                    assert(text::occurs_at(la, open, j));
                } else {
                    let k = a.len() - j;
                    assert(low.subrange(j, j + open.len())[k] == low[a.len() as int]);
                    assert(low[a.len() as int] == le[0]);
                    assert(le.subrange(0, open.len() as int)[0] == le[0]);
                    assert(open[0] == '<');
                    assert(open[k] == tag[k - 1]);
                    assert(tag.contains('<'));
                }
            }
        }
        text::lemma_find_is(low, open, a.len() as int);
        lemma_ascii_place(page, open, 0, a.len() as int);
        assert(page.take(a.len() as int) =~= a);
        let tail = page.skip(a.len() as int);
        assert(tail =~= e + more);
        // Its end tag is the first one behind it.
        let lt = text::lowered(tail);
        assert(lt =~= le + lm);
        assert forall|k: int| 0 <= k < tail.len() implies (#[trigger] tail[k]) as u32 <= 0x7f by {
            assert(tail[k] == page[a.len() + k]);
        }
        assert(text::lowercase(tail) == lt);
        let inner = le.len() - close.len();
        text::lemma_occurs_in_front(le, lm, close, inner);
        assert forall|j: int| 0 <= j < inner implies !text::occurs_at(lt, close, j) by {
            text::lemma_occurs_in_front(le, lm, close, j);
        }
        text::lemma_find_is(lt, close, inner);
        assert(text::is_ascii(close));
        text::lemma_ascii_bytes(close);
        lemma_ascii_place(tail, close, close.len(), inner);
        assert(tail.skip(e.len() as int) =~= more);
        let rest_outs = outs.drop_first();
        let rest_elements = elements.drop_first();
        assert forall|i: int| 0 <= i < rest_outs.len() implies text::is_ascii(
            #[trigger] rest_outs[i],
        ) && !text::contains(text::lowered(rest_outs[i]), "<"@ + tag) by {
            assert(rest_outs[i] == outs[i + 1]);
        }
        assert forall|i: int| 0 <= i < rest_elements.len() implies text::is_ascii(
            #[trigger] rest_elements[i],
        ) && is_element(rest_elements[i], tag) by {
            assert(rest_elements[i] == elements[i + 1]);
        }
        law_every_element_is_taken_out(rest_outs, rest_elements, tag);
        text::lemma_join_front(outs, Seq::empty());
        assert(a + Seq::<char>::empty() + text::join(rest_outs, Seq::empty()) =~= a + text::join(
            rest_outs,
            Seq::empty(),
        ));
    }
}

/// A place in an ASCII text is counted in characters.
proof fn lemma_ascii_place(s: Seq<char>, pat: Seq<char>, past: nat, i: int)
    requires
        text::is_ascii(s),
        text::find(text::lowered(s), pat) == Some(i),
        0 <= i,
        i + past <= s.len(),
    ensures
        place_in(s, text::lowered(s), pat, past) == Some(Some(i + past)),
{
    let low = text::lowered(s);
    assert forall|k: int| 0 <= k < low.take(i).len() implies (#[trigger] low.take(i)[k]) as u32
        <= 0x7f by {
        assert(s[k] as u32 <= 0x7f);
        assert(low.take(i)[k] == text::ascii_lower(s[k]));
    }
    text::lemma_ascii_bytes(low.take(i));
    text::lemma_ascii_cut(s, i + past);
}

/// A page of ASCII parts is ASCII.
proof fn lemma_page_is_ascii(outs: Seq<Seq<char>>, elements: Seq<Seq<char>>)
    requires
        outs.len() == elements.len() + 1,
        forall|i: int| 0 <= i < outs.len() ==> text::is_ascii(#[trigger] outs[i]),
        forall|i: int| 0 <= i < elements.len() ==> text::is_ascii(#[trigger] elements[i]),
    ensures
        text::is_ascii(page_of(outs, elements)),
    decreases elements.len(),
{
    assert(text::is_ascii(outs[0]));
    if elements.len() > 0 {
        assert(text::is_ascii(elements[0]));
        let o = outs.drop_first();
        let e = elements.drop_first();
        assert forall|i: int| 0 <= i < o.len() implies text::is_ascii(#[trigger] o[i]) by {
            assert(o[i] == outs[i + 1]);
        }
        assert forall|i: int| 0 <= i < e.len() implies text::is_ascii(#[trigger] e[i]) by {
            assert(e[i] == elements[i + 1]);
        }
        lemma_page_is_ascii(o, e);
        let page = page_of(outs, elements);
        assert forall|i: int| 0 <= i < page.len() implies (#[trigger] page[i]) as u32 <= 0x7f by {
            let n = outs[0].len() as int;
            let m = elements[0].len() as int;
            if i < n {
                assert(page[i] == outs[0][i]);
            } else if i < n + m {
                assert(page[i] == elements[0][i - n]);
            } else {
                assert(page[i] == page_of(o, e)[i - n - m]);
            }
        }
    }
}

/// Text without angle brackets is left as it is, and a tag behind it is taken out, with what stands
/// behind that treated likewise.
pub proof fn law_tags_are_taken_out(a: Seq<char>, tag: Seq<char>, b: Seq<char>)
    requires
        !a.contains('<'),
        !a.contains('>'),
        !tag.contains('>'),
    ensures
        outside_tags(a, false) == a,
        outside_tags(a + "<"@ + tag + ">"@ + b, false) == a + outside_tags(b, false),
    decreases a.len(),
{
    reveal_strlit("<");
    reveal_strlit(">");
    let s = a + "<"@ + tag + ">"@ + b;
    if a.len() > 0 {
        let rest = a.drop_first();
        assert forall|i: int| 0 <= i < rest.len() implies #[trigger] rest[i] != '<' && rest[i]
            != '>' by {
            assert(a.contains(a[i + 1]));
        }
        assert(a.contains(a[0]));
        law_tags_are_taken_out(rest, tag, b);
        assert(s.drop_first() =~= rest + "<"@ + tag + ">"@ + b);
        assert(s[0] == a[0]);
        assert(seq![a[0]] + rest =~= a);
        assert(seq![a[0]] + (rest + outside_tags(b, false)) =~= a + outside_tags(b, false));
    } else {
        assert(s.drop_first() =~= tag + ">"@ + b);
        lemma_tag_is_skipped(tag, b);
        assert(a + outside_tags(b, false) =~= outside_tags(b, false));
        assert(outside_tags(a, false) =~= a);
    }
}

/// Inside a tag everything up to its end is skipped.
proof fn lemma_tag_is_skipped(tag: Seq<char>, b: Seq<char>)
    requires
        !tag.contains('>'),
    ensures
        outside_tags(tag + ">"@ + b, true) == outside_tags(b, false),
    decreases tag.len(),
{
    reveal_strlit(">");
    let s = tag + ">"@ + b;
    if tag.len() == 0 {
        assert(s.drop_first() =~= b);
    } else {
        let rest = tag.drop_first();
        assert forall|i: int| 0 <= i < rest.len() implies #[trigger] rest[i] != '>' by {
            assert(tag.contains(tag[i + 1]));
        }
        assert(tag.contains(tag[0]));
        lemma_tag_is_skipped(rest, b);
        assert(s.drop_first() =~= rest + ">"@ + b);
        assert(s[0] == tag[0]);
    }
}

/// The basic entities decoded, one kind after another.
pub open spec fn decoded(s: Seq<char>) -> Seq<char> {
    let a = text::replace_all(s, "&amp;"@, "&"@);
    let b = text::replace_all(a, "&lt;"@, "<"@);
    let c = text::replace_all(b, "&gt;"@, ">"@);
    let d = text::replace_all(c, "&quot;"@, "\""@);
    let e = text::replace_all(d, "&apos;"@, "'"@);
    text::replace_all(e, "&nbsp;"@, " "@)
}

/// The text of a page, one trimmed line after another.
pub open spec fn page_lines(without: Seq<char>) -> Seq<char> {
    text::join(text::kept(text::split_on(decoded(outside_tags(without, false)), '\n')), "\n"@)
}

/// A page without its scripts and style sheets. `None` as for `without_block`.
pub open spec fn without_code(html: Seq<char>) -> Option<Seq<char>> {
    match without_block(html, "script"@) {
        None => None,
        Some(a) => without_block(a, "style"@),
    }
}

/// The text of a page under its address, cut where it is too long; `None` where the cut would
/// fall inside a character.
pub open spec fn capped(body: Seq<char>, url: Seq<char>) -> Option<Seq<char>> {
    if text::utf8_len(body) > MAX_CHARS {
        match text::cut(body, MAX_CHARS as int) {
            None => None,
            Some(k) => Some(
                "[Content from "@ + url + "]\n\n"@ + body.take(k) + "\n\n[truncated at 8000 chars]"@,
            ),
        }
    } else {
        Some("[Content from "@ + url + "]\n\n"@ + body)
    }
}

/// What is shown of the page `html` at `url`. `None` where no text can be cut out as it should.
pub open spec fn shown(html: Seq<char>, url: Seq<char>) -> Option<Seq<char>> {
    match without_code(html) {
        None => None,
        Some(stripped) => capped(page_lines(stripped), url),
    }
}

/// How many characters of `s` stand in front of the place that lies `past` bytes behind the start
/// of the first `pat` in `low`: `None` where `low` has no `pat`, `Some(None)` where the place is
/// past the end of `s` or inside one of its characters.
pub fn find_place(s: &str, low: &str, pat: &str, past: usize) -> (r: Option<Option<usize>>)
    ensures
        match place_in(s@, low@, pat@, past as nat) {
            None => r is None,
            Some(None) => r == Some(None::<usize>),
            Some(Some(k)) => r matches Some(Some(n)) && n == k,
        },
{
    let low_len = text::byte_len(low);
    let s_len = text::byte_len(s);
    let low_c = text::chars_of(low);
    let pat_c = text::chars_of(pat);
    let p = match text::position(low_c.as_slice(), pat_c.as_slice()) {
        Some(p) => p,
        None => {
            return None;
        },
    };
    let before = text::prefix_bytes(low_c.as_slice(), p);
    if before > usize::MAX - past {
        proof {
            text::lemma_cut(s@, before + past);
            if let Some(k) = text::cut(s@, before + past) {
                text::lemma_utf8_prefix(s@, k);
            }
        }
        return Some(None);
    }
    let s_c = text::chars_of(s);
    Some(text::cut_at(s_c.as_slice(), before + past))
}

/// Removes the elements `tag` from `html`; `None` where a place that was found in the lower-case
/// text does not lie between two characters of `html`.
pub fn strip_tags_block(html: &str, tag: &str) -> (r: Option<String>)
    ensures
        text::opt_string(r) == without_block(html@, tag@),
{
    let mut open = "<".to_owned();
    open.append(tag);
    let mut close = "</".to_owned();
    close.append(tag);
    close.append(">");
    let close_len = text::byte_len(close.as_str());
    let mut out = String::new();
    let mut rest = html.to_owned();
    loop
        invariant
            open@ == open_tag(tag@),
            close@ == close_tag(tag@),
            close_len == text::utf8_len(close_tag(tag@)),
            without_block(html@, tag@) == (match without_block(rest@, tag@) {
                Some(t) => Some(out@ + t),
                None => None,
            }),
        decreases rest@.len(),
    {
        proof {
            lemma_place_in(rest@, text::lowercase(rest@), open@, 0);
            lemma_close_bytes(tag@);
        }
        let low = rest.to_lowercase();
        let start = match find_place(rest.as_str(), low.as_str(), open.as_str(), 0) {
            Some(Some(k)) => k,
            Some(None) => {
                return None;
            },
            None => {
                out.append(rest.as_str());
                return Some(out);
            },
        };
        let all = text::chars_of(rest.as_str());
        let head = text::string_of(slice_subrange(all.as_slice(), 0, start));
        let tail = text::string_of(slice_subrange(all.as_slice(), start, all.len()));
        assert(head@ == rest@.take(start as int));
        assert(tail@ == rest@.skip(start as int));
        let ghost so_far = out@;
        out.append(head.as_str());
        let low_tail = tail.to_lowercase();
        proof {
            lemma_place_in(tail@, text::lowercase(tail@), close@, close_len as nat);
        }
        let end = match find_place(tail.as_str(), low_tail.as_str(), close.as_str(), close_len) {
            Some(Some(k)) => k,
            Some(None) => {
                return None;
            },
            None => {
                out.append(rest.as_str());
                assert(out@ == so_far + (head@ + rest@));
                return Some(out);
            },
        };
        let tail_c = text::chars_of(tail.as_str());
        let next = text::string_of(slice_subrange(tail_c.as_slice(), end, tail_c.len()));
        proof {
            assert(next@ == tail@.skip(end as int));
            if let Some(t) = without_block(next@, tag@) {
                assert(so_far + (head@ + t) == out@ + t);
            }
        }
        rest = next;
    }
}

/// The characters of `s` outside of tags.
fn drop_tags(s: &[char]) -> (r: Vec<char>)
    ensures
        r@ == outside_tags(s@, false),
{
    let mut out: Vec<char> = Vec::new();
    let mut inside = false;
    let mut i: usize = 0;
    assert(s@.skip(0) == s@);
    while i < s.len()
        invariant
            i <= s.len(),
            outside_tags(s@, false) == out@ + outside_tags(s@.skip(i as int), inside),
        decreases s.len() - i,
    {
        let c = s[i];
        let ghost before = out@;
        assert(s@.skip(i as int).drop_first() == s@.skip(i + 1));
        if c == '<' {
            inside = true;
        } else if c == '>' {
            inside = false;
        } else if !inside {
            out.push(c);
            assert(before + (seq![c] + outside_tags(s@.skip(i + 1), inside)) == out@
                + outside_tags(s@.skip(i + 1), inside));
        }
        i += 1;
    }
    assert(out@ + Seq::<char>::empty() == out@);
    out
}

/// Decodes the basic entities.
fn decode(s: &[char]) -> (r: String)
    ensures
        r@ == decoded(s@),
{
    proof {
        reveal_strlit("&amp;");
        reveal_strlit("&lt;");
        reveal_strlit("&gt;");
        reveal_strlit("&quot;");
        reveal_strlit("&apos;");
        reveal_strlit("&nbsp;");
    }
    let t = text::string_of(s);
    let a = text::replace_text(t.as_str(), "&amp;", "&");
    let b = text::replace_text(a.as_str(), "&lt;", "<");
    let c = text::replace_text(b.as_str(), "&gt;", ">");
    let d = text::replace_text(c.as_str(), "&quot;", "\"");
    let e = text::replace_text(d.as_str(), "&apos;", "'");
    text::replace_text(e.as_str(), "&nbsp;", " ")
}

/// Trims the lines of `s`, leaves out the blank ones and joins the others.
fn collapse(s: &str) -> (r: String)
    ensures
        r@ == text::join(text::kept(text::split_on(s@, '\n')), "\n"@),
{
    let lines = text::kept_pieces(s, '\n');
    text::joined(lines.as_slice(), "\n")
}

/// A page without its scripts and style sheets.
fn strip_code(html: &str) -> (r: Option<String>)
    ensures
        text::opt_string(r) == without_code(html@),
{
    match strip_tags_block(html, "script") {
        Some(a) => strip_tags_block(a.as_str(), "style"),
        None => None,
    }
}

/// What is shown of a page at `url` that has no scripts and style sheets any more: its text
/// without tags, the basic entities decoded, blank lines left out, capped to avoid overwhelming
/// the context window. `None` where the cap would fall inside a character.
pub fn page_shown(stripped: &str, url: &str) -> (r: Option<String>)
    ensures
        text::opt_string(r) == capped(page_lines(stripped@), url@),
{
    let v = text::chars_of(stripped);
    let outside = drop_tags(v.as_slice());
    let plain = decode(outside.as_slice());
    let body = collapse(plain.as_str());
    let mut out = "[Content from ".to_owned();
    out.append(url);
    out.append("]\n\n");
    if text::byte_len(body.as_str()) > MAX_CHARS {
        let v = text::chars_of(body.as_str());
        match text::cut_at(v.as_slice(), MAX_CHARS) {
            Some(k) => {
                let head = text::string_of(slice_subrange(v.as_slice(), 0, k));
                assert(head@ == body@.take(k as int));
                out.append(head.as_str());
                out.append("\n\n[truncated at 8000 chars]");
            },
            None => {
                return None;
            },
        }
    } else {
        out.append(body.as_str());
    }
    Some(out)
}

/// What is shown of the page `html` at `url`: its text without scripts, style sheets and tags,
/// the basic entities decoded, blank lines left out, capped to avoid overwhelming the context
/// window.
pub fn extract_text(html: &str, url: &str) -> (r: String)
    requires
        shown(html@, url@) is Some,
    ensures
        shown(html@, url@) == Some(r@),
{
    match show(html, url) {
        Some(t) => t,
        None => String::new(),
    }
}

/// What is shown of a page, or `None` where its text cannot be cut out.
fn show(html: &str, url: &str) -> (r: Option<String>)
    ensures
        text::opt_string(r) == shown(html@, url@),
{
    match strip_code(html) {
        Some(stripped) => page_shown(stripped.as_str(), url),
        None => None,
    }
}

/// `extract_text` for a page of which nothing is known: `None` where its text cannot be cut out
/// between two characters.
pub fn extract_text_checked(html: &str, url: &str) -> (r: Option<String>)
    ensures
        text::opt_string(r) == shown(html@, url@),
{
    if show(html, url).is_none() {
        None
    } else {
        Some(extract_text(html, url))
    }
}

/// All character references for the ampersand are decoded, and the text around them is left.
pub proof fn law_ampersands_are_decoded(parts: Seq<Seq<char>>)
    requires
        parts.len() > 0,
        forall|i: int|
            0 <= i < parts.len() ==> !(#[trigger] parts[i]).contains('&') && !parts[i].contains(';'),
    ensures
        decoded(text::join(parts, "&amp;"@)) == text::join(parts, "&"@),
{
    reveal_strlit("&amp;");
    reveal_strlit("&");
    reveal_strlit("&lt;");
    reveal_strlit("&gt;");
    reveal_strlit("&quot;");
    reveal_strlit("&apos;");
    reveal_strlit("&nbsp;");
    lemma_reference_is_replaced(parts, "&amp;"@, "&"@);
    let s = text::join(parts, "&"@);
    lemma_join_lacks(parts, "&"@, ';');
    lemma_not_replaced(s, "&lt;"@, "<"@, 3);
    lemma_not_replaced(s, "&gt;"@, ">"@, 3);
    lemma_not_replaced(s, "&quot;"@, "\""@, 5);
    lemma_not_replaced(s, "&apos;"@, "'"@, 5);
    lemma_not_replaced(s, "&nbsp;"@, " "@, 5);
}

/// All other references of a kind are decoded, and the text around them is left.
pub proof fn law_references_are_decoded(parts: Seq<Seq<char>>)
    requires
        parts.len() > 0,
        forall|i: int| 0 <= i < parts.len() ==> !(#[trigger] parts[i]).contains('&'),
    ensures
        decoded(text::join(parts, "&lt;"@)) == text::join(parts, "<"@),
        decoded(text::join(parts, "&gt;"@)) == text::join(parts, ">"@),
        decoded(text::join(parts, "&quot;"@)) == text::join(parts, "\""@),
        decoded(text::join(parts, "&apos;"@)) == text::join(parts, "'"@),
        decoded(text::join(parts, "&nbsp;"@)) == text::join(parts, " "@),
{
    lemma_only_one_kind(parts, "&lt;"@, "<"@, 0);
    lemma_only_one_kind(parts, "&gt;"@, ">"@, 1);
    lemma_only_one_kind(parts, "&quot;"@, "\""@, 2);
    lemma_only_one_kind(parts, "&apos;"@, "'"@, 3);
    lemma_only_one_kind(parts, "&nbsp;"@, " "@, 4);
}

/// A text with one kind of references, the `which`-th but the ampersand, is decoded.
#[verifier::rlimit(40)]
proof fn lemma_only_one_kind(parts: Seq<Seq<char>>, reference: Seq<char>, with: Seq<char>, which: int)
    requires
        parts.len() > 0,
        forall|i: int| 0 <= i < parts.len() ==> !(#[trigger] parts[i]).contains('&'),
        0 <= which < 5,
        which == 0 ==> reference == "&lt;"@ && with == "<"@,
        which == 1 ==> reference == "&gt;"@ && with == ">"@,
        which == 2 ==> reference == "&quot;"@ && with == "\""@,
        which == 3 ==> reference == "&apos;"@ && with == "'"@,
        which == 4 ==> reference == "&nbsp;"@ && with == " "@,
    ensures
        decoded(text::join(parts, reference)) == text::join(parts, with),
{
    reveal_strlit("&amp;");
    reveal_strlit("&lt;");
    reveal_strlit("&gt;");
    reveal_strlit("&quot;");
    reveal_strlit("&apos;");
    reveal_strlit("&nbsp;");
    reveal_strlit("<");
    reveal_strlit(">");
    reveal_strlit("\"");
    reveal_strlit("'");
    reveal_strlit(" ");
    let t = text::join(parts, with);
    let k: int = if which == 3 { 2 } else { 1 };
    lemma_other_reference(parts, reference, "&amp;"@, "&"@, k);
    if which > 0 {
        lemma_other_reference(parts, reference, "&lt;"@, "<"@, 1);
    }
    if which > 1 {
        lemma_other_reference(parts, reference, "&gt;"@, ">"@, 1);
    }
    if which > 2 {
        lemma_other_reference(parts, reference, "&quot;"@, "\""@, 1);
    }
    if which > 3 {
        lemma_other_reference(parts, reference, "&apos;"@, "'"@, 1);
    }
    lemma_reference_is_replaced(parts, reference, with);
    lemma_join_lacks(parts, with, '&');
    lemma_not_replaced(t, "&gt;"@, ">"@, 0);
    lemma_not_replaced(t, "&quot;"@, "\""@, 0);
    lemma_not_replaced(t, "&apos;"@, "'"@, 0);
    lemma_not_replaced(t, "&nbsp;"@, " "@, 0);
}

/// Text without a character of a reference is left by its replacement.
proof fn lemma_not_replaced(s: Seq<char>, pat: Seq<char>, with: Seq<char>, k: int)
    requires
        0 <= k < pat.len(),
        !s.contains(pat[k]),
    ensures
        text::replace_all(s, pat, with) == s,
{
    if text::contains(s, pat) {
        let i = choose|i: int| text::occurs_at(s, pat, i);
        assert(s.subrange(i, i + pat.len())[k] == s[i + k]);
    }
    text::lemma_find_none(s, pat);
}

/// Parts without a character, joined by a text without it, are without it.
proof fn lemma_join_lacks(parts: Seq<Seq<char>>, sep: Seq<char>, c: char)
    requires
        forall|i: int| 0 <= i < parts.len() ==> !(#[trigger] parts[i]).contains(c),
        !sep.contains(c),
    ensures
        !text::join(parts, sep).contains(c),
    decreases parts.len(),
{
    let s = text::join(parts, sep);
    if parts.len() == 1 {
        assert(!parts[0].contains(c));
    } else if parts.len() > 1 {
        let rest = parts.drop_last();
        assert forall|i: int| 0 <= i < rest.len() implies !(#[trigger] rest[i]).contains(c) by {
            assert(rest[i] == parts[i]);
        }
        lemma_join_lacks(rest, sep, c);
        let t = text::join(rest, sep);
        let last = parts[parts.len() - 1];
        assert forall|i: int| 0 <= i < s.len() implies s[i] != c by {
            if i < t.len() {
                assert(t.contains(t[i]));
            } else if i < t.len() + sep.len() {
                assert(sep.contains(sep[i - t.len()]));
            } else {
                assert(last.contains(last[i - t.len() - sep.len()]));
            }
        }
    }
}

/// Parts without an ampersand come apart at a reference.
proof fn lemma_reference_is_replaced(parts: Seq<Seq<char>>, reference: Seq<char>, with: Seq<char>)
    requires
        parts.len() > 0,
        forall|i: int| 0 <= i < parts.len() ==> !(#[trigger] parts[i]).contains('&'),
        reference.len() > 0,
        reference[0] == '&',
    ensures
        text::replace_all(text::join(parts, reference), reference, with) == text::join(parts, with),
{
    assert forall|i: int| 0 <= i < parts.len() - 1 implies text::ends_first(
        #[trigger] parts[i],
        reference,
    ) by {
        let all = parts[i] + reference;
        assert forall|j: int| 0 <= j < parts[i].len() implies !text::occurs_at(
            all,
            reference,
            j,
        ) by {
            if text::occurs_at(all, reference, j) {
                assert(all.subrange(j, j + reference.len())[0] == all[j]);
                assert(parts[i].contains(parts[i][j]));
            }
        }
    }
    let last = parts[parts.len() - 1];
    assert(!last.contains('&'));
    if text::contains(last, reference) {
        let j = choose|j: int| text::occurs_at(last, reference, j);
        assert(last.subrange(j, j + reference.len())[0] == last[j]);
    }
    text::law_replacing_rejoins(parts, reference, with);
}

/// A reference of another kind, which differs in character `k`, is not replaced.
proof fn lemma_other_reference(
    parts: Seq<Seq<char>>,
    reference: Seq<char>,
    other: Seq<char>,
    with: Seq<char>,
    k: int,
)
    requires
        parts.len() > 0,
        forall|i: int| 0 <= i < parts.len() ==> !(#[trigger] parts[i]).contains('&'),
        0 < k < reference.len(),
        k < other.len(),
        reference[0] == '&',
        other[0] == '&',
        reference[k] != other[k],
        forall|i: int| 0 < i < reference.len() ==> #[trigger] reference[i] != '&',
    ensures
        text::replace_all(text::join(parts, reference), other, with) == text::join(
            parts,
            reference,
        ),
{
    lemma_other_is_absent(parts, reference, other, k);
    text::lemma_find_none(text::join(parts, reference), other);
}

/// A reference of another kind does not occur.
proof fn lemma_other_is_absent(
    parts: Seq<Seq<char>>,
    reference: Seq<char>,
    other: Seq<char>,
    k: int,
)
    requires
        parts.len() > 0,
        forall|i: int| 0 <= i < parts.len() ==> !(#[trigger] parts[i]).contains('&'),
        0 < k < reference.len(),
        k < other.len(),
        reference[0] == '&',
        other[0] == '&',
        reference[k] != other[k],
        forall|i: int| 0 < i < reference.len() ==> #[trigger] reference[i] != '&',
    ensures
        !text::contains(text::join(parts, reference), other),
    decreases parts.len(),
{
    let s = text::join(parts, reference);
    let p = parts[0];
    assert(!p.contains('&'));
    if parts.len() == 1 {
        if text::contains(s, other) {
            let j = choose|j: int| text::occurs_at(s, other, j);
            assert(s.subrange(j, j + other.len())[0] == s[j]);
        }
    } else {
        let rest = parts.drop_first();
        assert forall|i: int| 0 <= i < rest.len() implies !(#[trigger] rest[i]).contains('&') by {
            assert(rest[i] == parts[i + 1]);
        }
        lemma_other_is_absent(rest, reference, other, k);
        text::lemma_join_front(parts, reference);
        let t = text::join(rest, reference);
        if text::contains(s, other) {
            let j = choose|j: int| text::occurs_at(s, other, j);
            let sub = s.subrange(j, j + other.len());
            assert(sub[0] == s[j] && sub[k] == s[j + k]);
            let n = (p.len() + reference.len()) as int;
            if j < p.len() {
                assert(p.contains(p[j]));
            } else if j == p.len() {
                assert(s[j + k] == reference[k]);
            } else if j < n {
                assert(s[j] == reference[j - p.len()]);
            } else {
                assert(t.subrange(j - n, j - n + other.len()) =~= sub);
                assert(text::occurs_at(t, other, j - n));
            }
        }
    }
}

/// The lines of a plain text are shown one after another, the blank ones left out.
pub proof fn law_lines_are_shown(lines: Seq<Seq<char>>)
    requires
        lines.len() > 0,
        forall|i: int|
            0 <= i < lines.len() ==> !(#[trigger] lines[i]).contains('<') && !lines[i].contains('>')
                && !lines[i].contains('&') && !lines[i].contains('\n'),
    ensures
        page_lines(text::join(lines, "\n"@)) == text::join(text::kept(lines), "\n"@),
{
    reveal_strlit("\n");
    reveal_strlit("&amp;");
    reveal_strlit("&lt;");
    reveal_strlit("&gt;");
    reveal_strlit("&quot;");
    reveal_strlit("&apos;");
    reveal_strlit("&nbsp;");
    assert("\n"@ =~= seq!['\n']);
    let s = text::join(lines, "\n"@);
    lemma_join_lacks(lines, "\n"@, '<');
    lemma_join_lacks(lines, "\n"@, '>');
    lemma_join_lacks(lines, "\n"@, '&');
    law_tags_are_taken_out(s, Seq::empty(), Seq::empty());
    lemma_not_replaced(s, "&amp;"@, "&"@, 0);
    lemma_not_replaced(s, "&lt;"@, "<"@, 0);
    lemma_not_replaced(s, "&gt;"@, ">"@, 0);
    lemma_not_replaced(s, "&quot;"@, "\""@, 0);
    lemma_not_replaced(s, "&apos;"@, "'"@, 0);
    lemma_not_replaced(s, "&nbsp;"@, " "@, 0);
    text::law_splitting_undoes_joining(lines, '\n');
}

/// A text of no more than 8000 bytes is shown whole under its address; of a longer one the first 8000
/// bytes, and that it was cut.
pub proof fn law_pages_are_capped(head: Seq<char>, more: Seq<char>, url: Seq<char>)
    ensures
        text::utf8_len(head) <= 8000 ==> capped(head, url) == Some(
            "[Content from "@ + url + "]\n\n"@ + head,
        ),
        text::utf8_len(head) == 8000 && more.len() > 0 ==> capped(head + more, url) == Some(
            "[Content from "@ + url + "]\n\n"@ + head + "\n\n[truncated at 8000 chars]"@,
        ),
{
    text::lemma_cut_behind(head, more);
    assert((head + more).take(head.len() as int) =~= head);
}

/// Of an ASCII page with scripts, whose rest has style sheets, the text between them all is shown.
#[verifier::rlimit(40)]
pub proof fn law_scripts_and_styles_are_taken_out(
    outs: Seq<Seq<char>>,
    scripts: Seq<Seq<char>>,
    texts: Seq<Seq<char>>,
    styles: Seq<Seq<char>>,
    url: Seq<char>,
)
    requires
        forall|t: Seq<char>|
            text::is_ascii(t) ==> #[trigger] text::lowercase(t) == text::lowered(t),
        outs.len() == scripts.len() + 1,
        forall|i: int|
            0 <= i < outs.len() ==> text::is_ascii(#[trigger] outs[i]) && !text::contains(
                text::lowered(outs[i]),
                "<script"@,
            ),
        forall|i: int|
            0 <= i < scripts.len() ==> text::is_ascii(#[trigger] scripts[i]) && is_element(
                scripts[i],
                "script"@,
            ),
        text::join(outs, Seq::empty()) == page_of(texts, styles),
        texts.len() == styles.len() + 1,
        forall|i: int|
            0 <= i < texts.len() ==> text::is_ascii(#[trigger] texts[i]) && !text::contains(
                text::lowered(texts[i]),
                "<style"@,
            ),
        forall|i: int|
            0 <= i < styles.len() ==> text::is_ascii(#[trigger] styles[i]) && is_element(
                styles[i],
                "style"@,
            ),
    ensures
        without_code(page_of(outs, scripts)) == Some(text::join(texts, Seq::empty())),
        shown(page_of(outs, scripts), url) == capped(
            page_lines(text::join(texts, Seq::empty())),
            url,
        ),
{
    reveal_strlit("<");
    reveal_strlit("script");
    reveal_strlit("<script");
    reveal_strlit("style");
    reveal_strlit("<style");
    assert("<"@ + "script"@ =~= "<script"@);
    assert("<"@ + "style"@ =~= "<style"@);
    law_every_element_is_taken_out(outs, scripts, "script"@);
    law_every_element_is_taken_out(texts, styles, "style"@);
}

} // verus!
