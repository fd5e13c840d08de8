//! File names and paths, as `/`-separated strings.

use crate::text;
use vstd::prelude::*;
use vstd::string::*;

verus! {

/// `rel` seen from the directory `base`: an absolute `rel` stands for itself.
pub open spec fn join_spec(base: Seq<char>, rel: Seq<char>) -> Seq<char> {
    if text::starts_with(rel, "/"@) {
        rel
    } else if base.len() == 0 || base.last() == '/' {
        base + rel
    } else {
        base + "/"@ + rel
    }
}

/// `rel` seen from the directory `base`: an absolute `rel` stands for itself.
pub fn join_path(base: &str, rel: &str) -> (r: String)
    ensures
        r@ == join_spec(base@, rel@),
{
    if text::has_prefix(rel, "/") {
        return rel.to_owned();
    }
    let b = text::chars_of(base);
    let mut out = base.to_owned();
    if b.len() > 0 && b[b.len() - 1] != '/' {
        out.append("/");
    }
    out.append(rel);
    out
}

/// `path` with a leading `~/`, or a bare `~`, read as the home directory where it is known.
pub open spec fn expand_spec(home: Option<Seq<char>>, path: Seq<char>) -> Seq<char> {
    match home {
        Some(h) if path == "~"@ => h,
        Some(h) if text::starts_with(path, "~/"@) => join_spec(h, path.skip(2)),
        _ => path,
    }
}

/// Expand a leading `~/` or bare `~` against `home`; otherwise return as-is.
pub fn expand_tilde(home: Option<&str>, path: &str) -> (r: String)
    ensures
        r@ == expand_spec(text::opt_str(home), path@),
{
    match home {
        Some(h) => {
            if text::same(path, "~") {
                return h.to_owned();
            }
            if text::has_prefix(path, "~/") {
                proof {
                    reveal_strlit("~/");
                }
                let p = text::chars_of(path);
                let rest = text::string_of(vstd::slice::slice_subrange(p.as_slice(), 2, p.len()));
                assert(rest@ == path@.skip(2));
                return join_path(h, rest.as_str());
            }
            path.to_owned()
        },
        None => path.to_owned(),
    }
}

/// The state directory: the configured one, else `~/.roger`, its `~` read against `home`.
pub fn state_dir(configured: Option<&str>, home: Option<&str>) -> (r: String)
    ensures
        r@ == expand_spec(
            text::opt_str(home),
            match configured {
                Some(d) => d@,
                None => "~/.roger"@,
            },
        ),
{
    match configured {
        Some(d) => expand_tilde(home, d),
        None => expand_tilde(home, "~/.roger"),
    }
}

/// The character that stands for `c` in a file name.
pub open spec fn safe_char(c: char) -> char {
    if c == '!' || c == ':' || c == '/' {
        '_'
    } else {
        c
    }
}

/// A room id as a file name: `!`, `:` and `/` become `_`.
pub open spec fn safe_room(room_id: Seq<char>) -> Seq<char> {
    room_id.map_values(|c: char| safe_char(c))
}

/// The file of a room in the directory `dir`.
pub open spec fn room_file_spec(dir: Seq<char>, room_id: Seq<char>, ext: Seq<char>) -> Seq<char> {
    join_spec(dir, safe_room(room_id) + ext)
}

/// The file of a room in the directory `dir`.
pub fn room_file(dir: &str, room_id: &str, ext: &str) -> (r: String)
    ensures
        r@ == room_file_spec(dir@, room_id@, ext@),
{
    let v = text::chars_of(room_id);
    let mut name = String::new();
    let mut i: usize = 0;
    while i < v.len()
        invariant
            i <= v.len(),
            v@ == room_id@,
            name@ == safe_room(room_id@).take(i as int),
        decreases v.len() - i,
    {
        let c = v[i];
        name.push(if c == '!' || c == ':' || c == '/' { '_' } else { c });
        assert(safe_room(room_id@).take(i + 1) == safe_room(room_id@).take(i as int).push(
            safe_char(c),
        ));
        i += 1;
    }
    assert(safe_room(room_id@).take(room_id@.len() as int) == safe_room(room_id@));
    name.append(ext);
    join_path(dir, name.as_str())
}

/// The file of a room lies directly in its directory, whatever the room id holds, provided the
/// extension holds no `/`.
pub proof fn law_room_file_stays_in_dir(dir: Seq<char>, room_id: Seq<char>, ext: Seq<char>)
    requires
        !ext.contains('/'),
    ensures
        !(safe_room(room_id) + ext).contains('/'),
        room_file_spec(dir, room_id, ext) == if dir.len() == 0 || dir.last() == '/' {
            dir + (safe_room(room_id) + ext)
        } else {
            dir + "/"@ + (safe_room(room_id) + ext)
        },
{
    reveal_strlit("/");
    let name = safe_room(room_id) + ext;
    assert forall|i: int| 0 <= i < name.len() implies name[i] != '/' by {
        if i < room_id.len() {
            assert(name[i] == safe_char(room_id[i]));
        } else {
            assert(name[i] == ext[i - room_id.len()]);
            assert(ext.contains(ext[i - room_id.len()]));
        }
    }
    if text::starts_with(name, "/"@) {
        assert(name.subrange(0, 1)[0] == '/');
        assert(name[0] == '/');
    }
}

/// Two rooms of one directory share a file exactly when their ids read the same as file names.
pub proof fn law_rooms_share_a_file(dir: Seq<char>, a: Seq<char>, b: Seq<char>, ext: Seq<char>)
    requires
        !ext.contains('/'),
    ensures
        room_file_spec(dir, a, ext) == room_file_spec(dir, b, ext) <==> safe_room(a) == safe_room(b),
{
    law_room_file_stays_in_dir(dir, a, ext);
    law_room_file_stays_in_dir(dir, b, ext);
    let x = room_file_spec(dir, a, ext);
    let y = room_file_spec(dir, b, ext);
    if x == y {
        let k = if dir.len() == 0 || dir.last() == '/' { dir.len() as int } else {
            (dir.len() + "/"@.len()) as int
        };
        assert(x.skip(k) =~= safe_room(a) + ext);
        assert(y.skip(k) =~= safe_room(b) + ext);
        let n = x.len() - k - ext.len();
        assert((safe_room(a) + ext).take(n) =~= safe_room(a));
        assert((safe_room(b) + ext).take(n) =~= safe_room(b));
    }
}

/// A relative path stands in its directory, behind one slash; an absolute one stands for itself.
pub proof fn law_paths_are_joined(base: Seq<char>, rel: Seq<char>)
    requires
        rel.len() > 0,
    ensures
        rel[0] == '/' ==> join_spec(base, rel) == rel,
        rel[0] != '/' && base.len() > 0 && base.last() != '/' ==> join_spec(base, rel) == base
            + seq!['/'] + rel,
        rel[0] != '/' && base.len() > 0 && base.last() == '/' ==> join_spec(base, rel) == base
            + rel,
{
    reveal_strlit("/");
    assert(rel.subrange(0, 1) =~= seq![rel[0]]);
    assert("/"@ =~= seq!['/']);
    if rel[0] == '/' {
        assert(text::starts_with(rel, "/"@));
    } else if text::starts_with(rel, "/"@) {
        assert(rel.subrange(0, 1)[0] == '/');
    }
}

/// A path is read from the home directory where it is `~` or starts with `~/`, and nowhere else.
pub proof fn law_home_is_read(home: Seq<char>, rest: Seq<char>, other: Seq<char>)
    requires
        home.len() > 0 && home.last() != '/',
        rest.len() > 0 && rest[0] != '/',
        other.len() > 0 && other[0] != '~' || other.len() > 1 && other[1] != '/',
    ensures
        expand_spec(Some(home), "~"@) == home,
        expand_spec(Some(home), "~/"@ + rest) == home + seq!['/'] + rest,
        expand_spec(Some(home), other) == other,
        expand_spec(None, "~/"@ + rest) == "~/"@ + rest,
{
    reveal_strlit("~");
    reveal_strlit("~/");
    let p = "~/"@ + rest;
    assert(p.subrange(0, 2) =~= "~/"@);
    assert(p.skip(2) =~= rest);
    assert(p.len() > 1);
    law_paths_are_joined(home, rest);
    if text::starts_with(other, "~/"@) {
        assert(other.subrange(0, 2)[0] == other[0]);
        assert(other.subrange(0, 2)[1] == other[1]);
    }
    if other == "~"@ {
        assert(other[0] == '~');
    }
}

/// A room id keeps its length as a file name; only `!`, `:` and `/` are replaced in it.
pub proof fn law_room_ids_as_file_names(room_id: Seq<char>)
    ensures
        safe_room(room_id).len() == room_id.len(),
        forall|i: int|
            0 <= i < room_id.len() ==> (#[trigger] safe_room(room_id)[i]) == (if seq![
                '!',
                ':',
                '/',
            ].contains(room_id[i]) {
                '_'
            } else {
                room_id[i]
            }),
{
    let bad = seq!['!', ':', '/'];
    assert forall|i: int| 0 <= i < room_id.len() implies (#[trigger] safe_room(room_id)[i]) == (
    if bad.contains(room_id[i]) {
        '_'
    } else {
        room_id[i]
    }) by {
        let c = room_id[i];
        if c == '!' {
            assert(bad[0] == c);
        } else if c == ':' {
            assert(bad[1] == c);
        } else if c == '/' {
            assert(bad[2] == c);
        }
    }
}

} // verus!
