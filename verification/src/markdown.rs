//! Rendering of replies: complete Markdown, and text that is still arriving.

use crate::text;
use pulldown_cmark::{html, Options, Parser};
use vstd::prelude::*;
use vstd::string::*;
use vstd::utf8::*;

verus! {

/// The HTML that `pulldown_cmark` renders a Markdown text to, with tables, strikethrough, task
/// lists and footnotes.
pub uninterp spec fn markdown_html(md: Seq<char>) -> Seq<char>;

/// `pulldown_cmark::Parser::new_ext` and `pulldown_cmark::html::push_html`: the rendering of a
/// text, which depends on the text alone. That neither call panics, on any text, is taken from the
/// crate and not shown here.
#[verifier::external_body]
fn render_markdown(md: &str) -> (r: String)
    ensures
        r@ == markdown_html(md@),
{
    let opts = Options::ENABLE_TABLES | Options::ENABLE_STRIKETHROUGH | Options::ENABLE_TASKLISTS
        | Options::ENABLE_FOOTNOTES;
    let mut out = String::new();
    html::push_html(&mut out, Parser::new_ext(md, opts));
    out
}

/// Render a complete Markdown string to HTML.
pub fn to_html(md: &str) -> (r: String)
    ensures
        r@ == markdown_html(md@),
{
    render_markdown(md)
}

/// A code fence stands at `j`: three backticks at the start of a line.
pub open spec fn is_fence(b: Seq<u8>, j: int) -> bool {
    &&& 0 <= j && j + 3 <= b.len()
    &&& b[j] == 96 && b[j + 1] == 96 && b[j + 2] == 96
    &&& j == 0 || b[j - 1] == 10
}

/// The number of code fences before `i`.
pub open spec fn fences(b: Seq<u8>, i: int) -> nat
    decreases i,
{
    if i <= 0 {
        0
    } else {
        fences(b, i - 1) + (if is_fence(b, i - 1) { 1nat } else { 0nat })
    }
}

/// `e` stands just past a blank line outside a code fence.
pub open spec fn safe_end(b: Seq<u8>, e: int) -> bool {
    &&& 2 <= e <= b.len()
    &&& b[e - 1] == 10 && b[e - 2] == 10
    &&& fences(b, e) % 2 == 0
}

/// Whether a code fence stands at `i`.
fn fence_at(b: &[u8], i: usize) -> (r: bool)
    requires
        i < b.len(),
    ensures
        r == is_fence(b@, i as int),
{
    b.len() - i >= 3 && b[i] == 96 && b[i + 1] == 96 && b[i + 2] == 96 && (i == 0 || b[i - 1]
        == 10)
}

/// The byte offset just past the last `\n\n` that falls outside a code fence, or `None` if no
/// such boundary exists. Only text before this offset is safe to render as HTML: later tokens
/// cannot affect it.
pub fn last_safe_paragraph_end(text: &str) -> (r: Option<usize>)
    ensures
        match r {
            Some(e) => {
                &&& safe_end(text.spec_bytes(), e as int)
                &&& forall|f: int| e < f ==> !safe_end(text.spec_bytes(), f)
                &&& is_char_boundary(text.spec_bytes(), e as int)
            },
            None => forall|f: int| !safe_end(text.spec_bytes(), f),
        },
{
    let b = text.as_bytes();
    let mut in_fence = false;
    let mut last_safe: Option<usize> = None;
    let mut i: usize = 0;
    while i < b.len()
        invariant
            i <= b.len(),
            in_fence == (fences(b@, i as int) % 2 == 1),
            match last_safe {
                Some(e) => e <= i && safe_end(b@, e as int) && forall|f: int|
                    e < f <= i ==> !safe_end(b@, f),
                None => forall|f: int| f <= i ==> !safe_end(b@, f),
            },
        decreases b.len() - i,
    {
        if fence_at(b, i) {
            in_fence = !in_fence;
            assert(fences(b@, i + 3) == fences(b@, i + 1)) by {
                reveal_with_fuel(fences, 4);
            }
            i += 3;
        } else {
            if !in_fence && i >= 1 && b[i] == 10 && b[i - 1] == 10 {
                last_safe = Some(i + 1);
            }
            assert(fences(b@, i + 1) == fences(b@, i as int));
            i += 1;
        }
    }
    proof {
        encode_utf8_valid_utf8(text@);
        if let Some(e) = last_safe {
            text::lemma_ascii_boundary(b@, e - 1);
        }
    }
    last_safe
}

/// Text that arrives later leaves a safe end safe.
pub proof fn law_safe_end_is_stable(b: Seq<u8>, more: Seq<u8>, e: int)
    requires
        safe_end(b, e),
    ensures
        safe_end(b + more, e),
{
    lemma_prefix_fences(b, more, e);
}

/// The fences before a blank line depend on the text before its end alone.
proof fn lemma_prefix_fences(b: Seq<u8>, more: Seq<u8>, e: int)
    requires
        safe_end(b, e),
    ensures
        fences(b + more, e) == fences(b, e),
{
    let c = b + more;
    lemma_early_fences(b, more, e - 2);
    assert(c[e - 1] == 10 && c[e - 2] == 10);
    reveal_with_fuel(fences, 3);
}

/// Fences that end inside the text stay where they are.
proof fn lemma_early_fences(b: Seq<u8>, more: Seq<u8>, i: int)
    requires
        i + 2 <= b.len(),
    ensures
        fences(b + more, i) == fences(b, i),
    decreases i,
{
    if i > 0 {
        lemma_early_fences(b, more, i - 1);
        let c = b + more;
        assert(c[i - 1] == b[i - 1] && c[i] == b[i] && c[i + 1] == b[i + 1]);
        if i >= 2 {
            assert(c[i - 2] == b[i - 2]);
        }
    }
}

/// What stands for `c` in HTML text.
pub open spec fn escape_char(c: char) -> Seq<char> {
    if c == '&' {
        "&amp;"@
    } else if c == '<' {
        "&lt;"@
    } else if c == '>' {
        "&gt;"@
    } else if c == '"' {
        "&quot;"@
    } else if c == '\n' {
        "<br>"@
    } else {
        seq![c]
    }
}

/// `s` as HTML text, each newline a line break.
pub open spec fn escape(s: Seq<char>) -> Seq<char>
    decreases s.len(),
{
    if s.len() == 0 {
        Seq::empty()
    } else {
        escape(s.drop_last()) + escape_char(s.last())
    }
}

/// `s` as HTML text, each newline a line break.
pub fn html_escape(s: &str) -> (r: String)
    ensures
        r@ == escape(s@),
{
    let v = text::chars_of(s);
    let mut out = String::new();
    let mut i: usize = 0;
    while i < v.len()
        invariant
            i <= v.len(),
            v@ == s@,
            out@ == escape(s@.take(i as int)),
        decreases v.len() - i,
    {
        assert(s@.take(i + 1).drop_last() == s@.take(i as int));
        let c = v[i];
        if c == '&' {
            out.append("&amp;");
        } else if c == '<' {
            out.append("&lt;");
        } else if c == '>' {
            out.append("&gt;");
        } else if c == '"' {
            out.append("&quot;");
        } else if c == '\n' {
            out.append("<br>");
        } else {
            out.push(c);
            assert(out@ == escape(s@.take(i as int)) + seq![c]);
        }
        i += 1;
    }
    assert(s@.take(s@.len() as int) == s@);
    out
}

/// The `formatted_body` of a message that is still arriving: the HTML of its complete
/// paragraphs, then the rest as one escaped paragraph, unless it is blank.
pub open spec fn streaming_body(committed_html: Seq<char>, tail: Seq<char>) -> Seq<char> {
    if text::is_blank(tail) {
        committed_html
    } else {
        committed_html + "<p>"@ + escape(tail) + "</p>"@
    }
}

/// Build the `formatted_body` for a partially-streamed message.
///
/// `committed_html` is the already-rendered HTML for completed paragraphs. `tail` is the
/// in-progress text that hasn't hit a paragraph boundary yet. It is HTML-escaped and appended
/// as a plain `<p>` so it renders legibly without risking broken markdown tags.
pub fn streaming_formatted_body(committed_html: &str, tail: &str) -> (r: String)
    ensures
        r@ == streaming_body(committed_html@, tail@),
{
    let mut out = committed_html.to_owned();
    if !text::blank(tail) {
        out.append("<p>");
        out.append(html_escape(tail).as_str());
        out.append("</p>");
    }
    out
}

/// Escaped text opens no tag but a line break: it holds no quotation mark, and every `<` in it
/// starts `<br>`.
pub proof fn law_escaped_text_is_inert(s: Seq<char>)
    ensures
        forall|i: int|
            0 <= i < escape(s).len() ==> #[trigger] escape(s)[i] != '"' && (escape(s)[i] == '<'
                ==> text::occurs_at(escape(s), "<br>"@, i)),
    decreases s.len(),
{
    reveal_strlit("&amp;");
    reveal_strlit("&lt;");
    reveal_strlit("&gt;");
    reveal_strlit("&quot;");
    reveal_strlit("<br>");
    if s.len() > 0 {
        let head = escape(s.drop_last());
        let tail = escape_char(s.last());
        let all = head + tail;
        law_escaped_text_is_inert(s.drop_last());
        assert forall|i: int| 0 <= i < all.len() implies #[trigger] all[i] != '"' && (all[i] == '<'
            ==> text::occurs_at(all, "<br>"@, i)) by {
            if i < head.len() {
                assert(all[i] == head[i]);
                if all[i] == '<' {
                    assert(all.subrange(i, i + 4) =~= head.subrange(i, i + 4));
                }
            } else {
                assert(all[i] == tail[i - head.len()]);
                if all[i] == '<' {
                    assert(i == head.len());
                    assert(all.subrange(i, i + 4) =~= "<br>"@);
                }
            }
        }
    }
}

/// Texts one after another are escaped one after another; only the special characters change.
pub proof fn law_escape_is_by_character(a: Seq<char>, b: Seq<char>, c: char)
    ensures
        escape(a + b) == escape(a) + escape(b),
        c != '&' && c != '<' && c != '>' && c != '"' && c != '\n' ==> escape(seq![c]) == seq![c],
        escape(seq!['&']) == "&amp;"@,
        escape(seq!['<']) == "&lt;"@,
        escape(seq!['>']) == "&gt;"@,
        escape(seq!['"']) == "&quot;"@,
        escape(seq!['\n']) == "<br>"@,
    decreases b.len(),
{
    lemma_escape_one(c);
    lemma_escape_one('&');
    lemma_escape_one('<');
    lemma_escape_one('>');
    lemma_escape_one('"');
    lemma_escape_one('\n');
    if b.len() == 0 {
        assert(a + b =~= a);
        assert(escape(a) + escape(b) =~= escape(a));
    } else {
        law_escape_is_by_character(a, b.drop_last(), c);
        assert((a + b).drop_last() =~= a + b.drop_last());
        assert(escape(a) + (escape(b.drop_last()) + escape_char(b.last())) =~= escape(a) + escape(
            b.drop_last(),
        ) + escape_char(b.last()));
    }
}

proof fn lemma_escape_one(c: char)
    ensures
        escape(seq![c]) == escape_char(c),
{
    assert(seq![c].drop_last() =~= Seq::<char>::empty());
    assert(escape(seq![c].drop_last()) =~= Seq::<char>::empty());
    assert(Seq::<char>::empty() + escape_char(c) =~= escape_char(c));
}

/// What is still arriving stands as one paragraph behind what is rendered already, unless it is
/// blank.
pub proof fn law_arriving_text_is_shown(committed: Seq<char>, tail: Seq<char>)
    ensures
        text::trim(tail).len() == 0 ==> streaming_body(committed, tail) == committed,
        text::trim(tail).len() > 0 ==> streaming_body(committed, tail) == committed + "<p>"@ + escape(
            tail,
        ) + "</p>"@,
{
}

/// Three backticks open or close a fence at the start of the text or of a line, and nowhere else.
pub proof fn law_fences_stand_at_line_starts(a: Seq<u8>, c: u8, rest: Seq<u8>)
    ensures
        is_fence(seq![96u8, 96, 96] + rest, 0),
        is_fence(a + seq![10u8, 96, 96, 96] + rest, (a.len() + 1) as int),
        c != 10 ==> !is_fence(a + seq![c, 96, 96, 96] + rest, (a.len() + 1) as int),
        c != 96 ==> !is_fence(a + seq![c] + rest, a.len() as int),
{
    let x = a + seq![10u8, 96, 96, 96] + rest;
    let y = a + seq![c, 96, 96, 96] + rest;
    let z = a + seq![c] + rest;
    assert(x[a.len() as int] == 10 && x[(a.len() + 1) as int] == 96 && x[(a.len() + 2) as int] == 96 && x[(a.len() + 3) as int]
        == 96);
    assert(y[a.len() as int] == c);
    assert(z[a.len() as int] == c);
}

/// Without a fence no text is inside of one.
proof fn lemma_no_fence(b: Seq<u8>, from: int, i: int)
    requires
        0 <= from <= i,
        forall|j: int| from <= j < i ==> !is_fence(b, j),
    ensures
        fences(b, i) == fences(b, from),
    decreases i - from,
{
    if from < i {
        lemma_no_fence(b, from, i - 1);
    }
}

/// In a text without backticks the end of every blank line is safe; behind a fence that is open none
/// is, and once it is closed it is again.
#[verifier::rlimit(40)]
pub proof fn law_blank_lines_are_safe_outside_fences(
    a: Seq<u8>,
    code: Seq<u8>,
    b: Seq<u8>,
    rest: Seq<u8>,
)
    requires
        !a.contains(96),
        !code.contains(96),
        !b.contains(96),
    ensures
        safe_end(a + seq![10u8, 10] + rest, (a.len() + 2) as int),
        !safe_end(seq![96u8, 96, 96] + code + seq![10u8, 10] + rest, (code.len() + 5) as int),
        safe_end(
            seq![96u8, 96, 96] + code + seq![10u8, 96, 96, 96] + b + seq![10u8, 10] + rest,
            (code.len() + b.len() + 9) as int,
        ),
{
    let x = a + seq![10u8, 10] + rest;
    let n = a.len() + 2;
    assert(x[n - 1] == 10 && x[n - 2] == 10);
    assert forall|j: int| 0 <= j < n implies !is_fence(x, j) by {
        if j < a.len() {
            assert(x[j] == a[j]);
            assert(a.contains(a[j]));
        }
    }
    lemma_no_fence(x, 0, n as int);
    let y = seq![96u8, 96, 96] + code + seq![10u8, 10] + rest;
    let m = code.len() + 5;
    assert forall|j: int| 1 <= j < m implies !is_fence(y, j) by {
        if j < 3 {
            assert(y[j - 1] == 96);
        } else if j < 3 + code.len() {
            assert(y[j] == code[j - 3]);
            assert(code.contains(code[j - 3]));
        } else {
            assert(y[j] == 10);
        }
    }
    assert(is_fence(y, 0));
    lemma_no_fence(y, 1, m as int);
    assert(fences(y, 1) == 1) by {
        assert(fences(y, 0) == 0);
    }
    let z = seq![96u8, 96, 96] + code + seq![10u8, 96, 96, 96] + b + seq![10u8, 10] + rest;
    let e = code.len() + b.len() + 9;
    let k = (code.len() + 4) as int;
    assert(z[k - 1] == 10 && z[k] == 96 && z[k + 1] == 96 && z[k + 2] == 96);
    assert(is_fence(z, 0));
    assert(is_fence(z, k));
    assert forall|j: int| 1 <= j < k implies !is_fence(z, j) by {
        if j < 3 {
            assert(z[j - 1] == 96);
        } else if j < 3 + code.len() {
            assert(z[j] == code[j - 3]);
            assert(code.contains(code[j - 3]));
        } else {
            assert(z[j] == 10);
        }
    }
    lemma_no_fence(z, 1, k);
    assert(fences(z, 1) == 1) by {
        assert(fences(z, 0) == 0);
    }
    assert(fences(z, k + 1) == 2);
    assert forall|j: int| k + 1 <= j < e implies !is_fence(z, j) by {
        if j < k + 3 {
            assert(z[j - 1] == 96);
        } else if j < k + 3 + b.len() {
            assert(z[j] == b[j - k - 3]);
            assert(b.contains(b[j - k - 3]));
        } else {
            assert(z[j] == 10);
        }
    }
    lemma_no_fence(z, k + 1, e as int);
    assert(z[e - 1] == 10 && z[e - 2] == 10);
}

} // verus!
