//! What the file tools answer.

use crate::sorting;
use crate::text;
use vstd::prelude::*;
use vstd::slice::slice_subrange;
use vstd::string::*;

verus! {

/// The number of bytes of a file that are shown.
pub const MAX_SHOWN: usize = 50_000;

/// A path of a file tool, `~` read as the home directory.
pub open spec fn tool_path(home: Seq<char>, path: Seq<char>) -> Seq<char> {
    if text::starts_with(path, "~/"@) || path == "~"@ {
        home + path.skip(1)
    } else {
        path
    }
}

/// A path of a file tool, `~` read as the home directory.
pub fn expand_tilde(home: &str, path: &str) -> (r: String)
    ensures
        r@ == tool_path(home@, path@),
{
    if text::has_prefix(path, "~/") || text::same(path, "~") {
        proof {
            reveal_strlit("~/");
            reveal_strlit("~");
        }
        let v = text::chars_of(path);
        let rest = text::string_of(slice_subrange(v.as_slice(), 1, v.len()));
        assert(rest@ == path@.skip(1));
        let mut out = home.to_owned();
        out.append(rest.as_str());
        out
    } else {
        path.to_owned()
    }
}

/// What is answered to reading a file that holds `content`; `None` where a long text would be cut
/// inside a character.
pub open spec fn file_text(path: Seq<char>, content: Seq<char>) -> Option<Seq<char>> {
    if text::utf8_len(content) > MAX_SHOWN {
        match text::cut(content, MAX_SHOWN as int) {
            Some(k) => Some(
                "["@ + path + "]\n\n"@ + content.take(k) + "\n\n[truncated: 50000 of "@
                    + text::decimal(text::utf8_len(content)) + " bytes shown]"@,
            ),
            None => None,
        }
    } else {
        Some("["@ + path + "]\n\n"@ + content)
    }
}

/// Whether `file_text` can be cut as it should.
pub fn shows_whole_characters(content: &str) -> (r: bool)
    ensures
        forall|path: Seq<char>| r == (#[trigger] file_text(path, content@) is Some),
{
    if text::byte_len(content) > MAX_SHOWN {
        let v = text::chars_of(content);
        text::cut_at(v.as_slice(), MAX_SHOWN).is_some()
    } else {
        true
    }
}

/// What is answered to reading the file at `path`, which holds the text or could not be read.
pub fn read_file_reply(path: &str, outcome: Result<&str, &str>) -> (r: String)
    requires
        outcome matches Ok(content) ==> file_text(path@, content@) is Some,
    ensures
        match outcome {
            Ok(content) => file_text(path@, content@) == Some(r@),
            Err(e) => r@ == "error reading "@ + path@ + ": "@ + e@,
        },
{
    match outcome {
        Err(e) => {
            let mut out = "error reading ".to_owned();
            out.append(path);
            out.append(": ");
            out.append(e);
            out
        },
        Ok(content) => {
            let mut out = "[".to_owned();
            out.append(path);
            out.append("]\n\n");
            let n = text::byte_len(content);
            if n > MAX_SHOWN {
                let v = text::chars_of(content);
                if let Some(k) = text::cut_at(v.as_slice(), MAX_SHOWN) {
                    let head = text::string_of(slice_subrange(v.as_slice(), 0, k));
                    assert(head@ == content@.take(k as int));
                    out.append(head.as_str());
                    out.append("\n\n[truncated: 50000 of ");
                    text::push_decimal(&mut out, n as u64);
                    out.append(" bytes shown]");
                }
            } else {
                out.append(content);
            }
            out
        },
    }
}

/// How writing a file went.
pub enum WriteOutcome {
    Done,
    /// The directories above it could not be made.
    NoDirectory(String),
    Failed(String),
}

/// What is answered to writing `content` to `path`.
pub fn write_file_reply(path: &str, content: &str, outcome: &WriteOutcome) -> (r: String)
    ensures
        r@ == (match outcome {
            WriteOutcome::Done => "wrote "@ + text::decimal(text::utf8_len(content@))
                + " bytes to "@ + path@,
            WriteOutcome::NoDirectory(e) => "error creating directories for "@ + path@ + ": "@ + e@,
            WriteOutcome::Failed(e) => "error writing "@ + path@ + ": "@ + e@,
        }),
{
    match outcome {
        WriteOutcome::Done => {
            let mut out = "wrote ".to_owned();
            text::push_decimal(&mut out, text::byte_len(content) as u64);
            out.append(" bytes to ");
            out.append(path);
            out
        },
        WriteOutcome::NoDirectory(e) => {
            let mut out = "error creating directories for ".to_owned();
            out.append(path);
            out.append(": ");
            out.append(e.as_str());
            out
        },
        WriteOutcome::Failed(e) => {
            let mut out = "error writing ".to_owned();
            out.append(path);
            out.append(": ");
            out.append(e.as_str());
            out
        },
    }
}

/// What is known of a directory entry beside its name.
#[derive(Clone, Copy)]
pub struct EntryInfo {
    pub is_dir: bool,
    pub size: u64,
}

/// An entry as a line.
pub open spec fn entry_line(e: (String, EntryInfo)) -> Seq<char> {
    if e.1.is_dir {
        "  "@ + e.0@ + "/"@
    } else {
        "  "@ + e.0@ + " ("@ + text::decimal(e.1.size as nat) + " bytes)"@
    }
}

/// The lines of a listing.
pub open spec fn listing_lines(path: Seq<char>, entries: Seq<(String, EntryInfo)>) -> Seq<Seq<char>> {
    let head = seq!["["@ + path + "]"@];
    if entries.len() == 0 {
        head.push("  (empty)"@)
    } else {
        head + sorting::by_name(entries).map_values(|e: (String, EntryInfo)| entry_line(e))
    }
}

/// An entry as a line.
fn line_of(e: &(String, EntryInfo)) -> (r: String)
    ensures
        r@ == entry_line(*e),
{
    let mut out = "  ".to_owned();
    out.append(e.0.as_str());
    if e.1.is_dir {
        out.append("/");
    } else {
        out.append(" (");
        text::push_decimal(&mut out, e.1.size);
        out.append(" bytes)");
    }
    out
}

/// What is answered to listing the directory at `path`: its entries by name, or why it could not be
/// listed.
pub fn list_dir_reply(path: &str, outcome: Result<Vec<(String, EntryInfo)>, String>) -> (r: String)
    ensures
        r@ == (match outcome {
            Ok(entries) => text::join(listing_lines(path@, entries@), "\n"@),
            Err(e) => "error listing "@ + path@ + ": "@ + e@,
        }),
{
    match outcome {
        Err(e) => {
            let mut out = "error listing ".to_owned();
            out.append(path);
            out.append(": ");
            out.append(e.as_str());
            out
        },
        Ok(entries) => {
            let mut head = "[".to_owned();
            head.append(path);
            head.append("]");
            let mut lines: Vec<String> = Vec::new();
            let ghost first = head@;
            lines.push(head);
            let sorted = sorting::sort_by_name(entries);
            let ghost all = sorted@.map_values(|e: (String, EntryInfo)| entry_line(e));
            proof {
                sorting::law_sorted_by_name(entries@);
                assert(text::views(lines@) =~= seq![first] + all.take(0));
            }
            let mut i: usize = 0;
            while i < sorted.len()
                invariant
                    i <= sorted.len(),
                    all == sorted@.map_values(|e: (String, EntryInfo)| entry_line(e)),
                    text::views(lines@) == seq![first] + all.take(i as int),
                decreases sorted.len() - i,
            {
                let ghost before = lines@;
                lines.push(line_of(&sorted[i]));
                proof {
                    assert(text::views(lines@) =~= text::views(before).push(all[i as int]));
                    assert(all.take(i + 1) =~= all.take(i as int).push(all[i as int]));
                    assert(text::views(lines@) =~= seq![first] + all.take(i + 1));
                }
                i += 1;
            }
            let ghost before = lines@;
            if sorted.len() == 0 {
                lines.push("  (empty)".to_owned());
                assert(text::views(lines@) =~= seq![first].push("  (empty)"@));
            } else {
                assert(all.take(all.len() as int) == all);
            }
            text::joined(lines.as_slice(), "\n")
        },
    }
}

/// A path is read from the home directory where it is `~` or starts with `~/`, and nowhere else.
pub proof fn law_home_is_put_in(home: Seq<char>, rest: Seq<char>, other: Seq<char>)
    requires
        other.len() > 0 && other[0] != '~' || other.len() > 1 && other[1] != '/',
    ensures
        tool_path(home, "~"@) == home,
        tool_path(home, "~/"@ + rest) == home + "/"@ + rest,
        tool_path(home, other) == other,
{
    reveal_strlit("~");
    reveal_strlit("~/");
    reveal_strlit("/");
    let p = "~/"@ + rest;
    assert(p.subrange(0, 2) =~= "~/"@);
    assert(home + p.skip(1) =~= home + "/"@ + rest);
    assert(home + "~"@.skip(1) =~= home);
    if text::starts_with(other, "~/"@) {
        assert(other.subrange(0, 2)[0] == other[0]);
        assert(other.subrange(0, 2)[1] == other[1]);
    }
    if other == "~"@ {
        assert(other[0] == '~');
    }
}

/// A file is shown whole under its path up to 50000 bytes; of a longer one the first 50000 are
/// shown, and it is told how many there are.
pub proof fn law_files_are_shown(path: Seq<char>, head: Seq<char>, more: Seq<char>)
    ensures
        text::utf8_len(head) <= 50000 ==> file_text(path, head) == Some(
            "["@ + path + "]\n\n"@ + head,
        ),
        text::utf8_len(head) == 50000 && more.len() > 0 ==> file_text(path, head + more) == Some(
            "["@ + path + "]\n\n"@ + head + "\n\n[truncated: 50000 of "@ + text::decimal(
                text::utf8_len(head + more),
            ) + " bytes shown]"@,
        ),
{
    if text::utf8_len(head) == 50000 && more.len() > 0 {
        let s = head + more;
        text::lemma_cut_behind(head, more);
        assert(s.take(head.len() as int) =~= head);
    }
}

/// A listing has a line for its path and one for each entry: directories with a slash behind their
/// name, files with their size. The lines stand in the order of the names.
pub proof fn law_listing_has_every_entry(
    path: Seq<char>,
    entries: Seq<(String, EntryInfo)>,
    k: int,
)
    requires
        0 <= k < entries.len(),
    ensures
        listing_lines(path, entries).len() == entries.len() + 1,
        listing_lines(path, entries)[0] == "["@ + path + "]"@,
        listing_lines(path, entries).contains(
            if entries[k].1.is_dir {
                "  "@ + entries[k].0@ + "/"@
            } else {
                "  "@ + entries[k].0@ + " ("@ + text::decimal(entries[k].1.size as nat)
                    + " bytes)"@
            },
        ),
        sorting::in_order(sorting::by_name(entries)),
        text::starts_with(
            listing_lines(path, entries)[k + 1],
            "  "@ + sorting::by_name(entries)[k].0@,
        ),
{
    broadcast use vstd::seq_lib::group_to_multiset_ensures;

    sorting::law_sorted_by_name(entries);
    let sorted = sorting::by_name(entries);
    assert(entries.contains(entries[k]));
    assert(entries.to_multiset().contains(entries[k]));
    assert(sorted.contains(entries[k]));
    let i = choose|i: int| 0 <= i < sorted.len() && sorted[i] == entries[k];
    let lines = listing_lines(path, entries);
    assert(lines[i + 1] == entry_line(sorted[i]));
    assert(lines[k + 1] == entry_line(sorted[k]));
    let want = "  "@ + sorted[k].0@;
    assert(lines[k + 1].subrange(0, want.len() as int) =~= want);
}

/// An empty directory is said to be empty.
pub proof fn law_empty_listing(path: Seq<char>)
    ensures
        listing_lines(path, Seq::empty()) == seq!["["@ + path + "]"@, "  (empty)"@],
{
    assert(listing_lines(path, Seq::empty()) =~= seq!["["@ + path + "]"@, "  (empty)"@]);
}

} // verus!
