//! Attachment handling: turn a non-text message (image / file / video) into structured metadata,
//! decide eager-vs-lazy download, and describe it.
//!
//! Audio is intentionally *not* handled here — it is transcribed instead.

use crate::config;
use crate::text;
use crate::text::Class;
use vstd::prelude::*;
use vstd::slice::slice_subrange;
use vstd::string::*;

verus! {

/// Which kind of attachment this is. Audio is handled separately (transcription).
#[derive(Debug, Clone, Copy, PartialEq, Eq, Structural)]
pub enum AttachmentKind {
    Image,
    File,
    Video,
}

impl AttachmentKind {
    /// The kind in words.
    pub open spec fn name(self) -> Seq<char> {
        match self {
            AttachmentKind::Image => "image"@,
            AttachmentKind::File => "file"@,
            AttachmentKind::Video => "video"@,
        }
    }

    /// The kind in words.
    pub fn label(self) -> (r: &'static str)
        ensures
            r@ == self.name(),
            r@ == (match self {
                AttachmentKind::Image => "image"@,
                AttachmentKind::File => "file"@,
                AttachmentKind::Video => "video"@,
            }),
    {
        match self {
            AttachmentKind::Image => "image",
            AttachmentKind::File => "file",
            AttachmentKind::Video => "video",
        }
    }
}

/// What a file-bearing message says of its file.
#[derive(Debug)]
pub struct MediaContent {
    pub filename: String,
    /// A text that the user wrote, distinct from the filename.
    pub caption: Option<String>,
    pub mimetype: Option<String>,
    pub size_bytes: Option<u64>,
    pub width: Option<u64>,
    pub height: Option<u64>,
    pub duration_secs: Option<u64>,
}

/// A message, by its kind.
#[derive(Debug)]
pub enum MessageType {
    Text(String),
    Audio,
    Image(MediaContent),
    Video(MediaContent),
    File(MediaContent),
    Other,
}

/// Structured metadata extracted from a file-bearing message.
#[derive(Debug)]
pub struct Attachment {
    pub kind: AttachmentKind,
    pub filename: String,
    pub mimetype: Option<String>,
    pub size_bytes: Option<u64>,
    /// Image/video pixel dimensions, if known.
    pub width: Option<u64>,
    pub height: Option<u64>,
    /// Video duration in seconds, if known.
    pub duration_secs: Option<u64>,
    /// Optional user-written caption (distinct from the filename).
    pub caption: Option<String>,
}

/// The attachment of a message that bears a file.
pub open spec fn attachment_of(m: MessageType) -> Option<Attachment> {
    match m {
        MessageType::Image(c) => Some(
            Attachment {
                kind: AttachmentKind::Image,
                filename: c.filename,
                mimetype: c.mimetype,
                size_bytes: c.size_bytes,
                width: c.width,
                height: c.height,
                duration_secs: None,
                caption: c.caption,
            },
        ),
        MessageType::Video(c) => Some(
            Attachment {
                kind: AttachmentKind::Video,
                filename: c.filename,
                mimetype: c.mimetype,
                size_bytes: c.size_bytes,
                width: c.width,
                height: c.height,
                duration_secs: c.duration_secs,
                caption: c.caption,
            },
        ),
        MessageType::File(c) => Some(
            Attachment {
                kind: AttachmentKind::File,
                filename: c.filename,
                mimetype: c.mimetype,
                size_bytes: c.size_bytes,
                width: None,
                height: None,
                duration_secs: None,
                caption: c.caption,
            },
        ),
        _ => None,
    }
}

/// Extract attachment metadata from a message type. Returns `None` for text and
/// audio (audio has its own transcription path) and any non-file message.
pub fn attachment_meta(msgtype: &MessageType) -> (r: Option<Attachment>)
    ensures
        r == attachment_of(*msgtype),
{
    match msgtype {
        MessageType::Image(c) => Some(
            Attachment {
                kind: AttachmentKind::Image,
                filename: c.filename.clone(),
                mimetype: config::copy_option(&c.mimetype),
                size_bytes: c.size_bytes,
                width: c.width,
                height: c.height,
                duration_secs: None,
                caption: config::copy_option(&c.caption),
            },
        ),
        MessageType::Video(c) => Some(
            Attachment {
                kind: AttachmentKind::Video,
                filename: c.filename.clone(),
                mimetype: config::copy_option(&c.mimetype),
                size_bytes: c.size_bytes,
                width: c.width,
                height: c.height,
                duration_secs: c.duration_secs,
                caption: config::copy_option(&c.caption),
            },
        ),
        MessageType::File(c) => Some(
            Attachment {
                kind: AttachmentKind::File,
                filename: c.filename.clone(),
                mimetype: config::copy_option(&c.mimetype),
                size_bytes: c.size_bytes,
                width: None,
                height: None,
                duration_secs: None,
                caption: config::copy_option(&c.caption),
            },
        ),
        _ => None,
    }
}

/// What is made of a message.
#[derive(Debug)]
pub enum Reading {
    /// This text is heard.
    Body(String),
    /// It is transcribed, and the transcript is heard.
    Transcribe,
    /// This file is taken in.
    Attached(Attachment),
    Nothing,
}

/// What is made of a message: text is heard, audio is transcribed, a file-bearing message is its
/// attachment, and no other message is read.
pub open spec fn reading_of(m: MessageType) -> Reading {
    match m {
        MessageType::Text(body) => Reading::Body(body),
        MessageType::Audio => Reading::Transcribe,
        _ => match attachment_of(m) {
            Some(att) => Reading::Attached(att),
            None => Reading::Nothing,
        },
    }
}

/// What is made of a message.
pub fn reading(msgtype: &MessageType) -> (r: Reading)
    ensures
        r == reading_of(*msgtype),
{
    match msgtype {
        MessageType::Text(body) => Reading::Body(body.clone()),
        MessageType::Audio => Reading::Transcribe,
        _ => match attachment_meta(msgtype) {
            Some(att) => Reading::Attached(att),
            None => Reading::Nothing,
        },
    }
}

/// The type of a mime text, without its parameters.
pub open spec fn bare_mime(mime: Seq<char>) -> Seq<char> {
    text::trim(text::split_on(mime, ';')[0])
}

/// The types beside `text/*` that are read as text.
pub open spec fn is_known_text(m: Seq<char>) -> bool {
    ||| m == "application/pdf"@
    ||| m == "application/json"@
    ||| m == "application/xml"@
    ||| m == "application/toml"@
    ||| m == "application/x-toml"@
    ||| m == "application/yaml"@
    ||| m == "application/x-yaml"@
    ||| m == "application/csv"@
    ||| m == "application/x-sh"@
    ||| m == "application/javascript"@
}

/// Whether a mime type is a known-safe, text-ish payload.
pub open spec fn is_safe_mime(mime: Seq<char>) -> bool {
    text::starts_with(bare_mime(mime), "text/"@) || is_known_text(bare_mime(mime))
}

/// Whether a File attachment's mime type is a known-safe, text-ish payload worth
/// pulling eagerly. Arbitrary/opaque types are left for lazy fetch.
pub fn is_safe_file_mime(mime: &str) -> (r: bool)
    ensures
        r == is_safe_mime(mime@),
{
    let v = text::chars_of(mime);
    let semicolon: [char; 1] = [';'];
    assert(semicolon@ == seq![';']);
    let first = match text::position(v.as_slice(), semicolon.as_slice()) {
        Some(i) => {
            assert(text::split_on(mime@, ';')[0] == mime@.take(i as int));
            slice_subrange(v.as_slice(), 0, i)
        },
        None => v.as_slice(),
    };
    let bare = text::string_of(text::skip_both(first, Class::Space));
    let m = bare.as_str();
    text::has_prefix(m, "text/") || text::same(m, "application/pdf") || text::same(
        m,
        "application/json",
    ) || text::same(m, "application/xml") || text::same(m, "application/toml") || text::same(
        m,
        "application/x-toml",
    ) || text::same(m, "application/yaml") || text::same(m, "application/x-yaml") || text::same(
        m,
        "application/csv",
    ) || text::same(m, "application/x-sh") || text::same(m, "application/javascript")
}

/// `n / d` rounded to the nearest integer, a tie to the even one.
pub open spec fn rounded(n: nat, d: nat) -> nat {
    let q = n / d;
    let rest = n % d;
    if rest * 2 > d || (rest * 2 == d && q % 2 == 1) {
        q + 1
    } else {
        q
    }
}

/// The step between neighbouring double-precision numbers near `n`, where they are whole.
pub open spec fn grain(n: nat) -> nat {
    if n < 0x20_0000_0000_0000 {
        1
    } else if n < 0x40_0000_0000_0000 {
        2
    } else if n < 0x80_0000_0000_0000 {
        4
    } else if n < 0x100_0000_0000_0000 {
        8
    } else if n < 0x200_0000_0000_0000 {
        16
    } else if n < 0x400_0000_0000_0000 {
        32
    } else if n < 0x800_0000_0000_0000 {
        64
    } else if n < 0x1000_0000_0000_0000 {
        128
    } else if n < 0x2000_0000_0000_0000 {
        256
    } else if n < 0x4000_0000_0000_0000 {
        512
    } else if n < 0x8000_0000_0000_0000 {
        1024
    } else {
        2048
    }
}

/// `n` as the nearest double-precision number.
pub open spec fn as_double(n: nat) -> nat {
    rounded(n, grain(n)) * grain(n)
}

/// `bytes` in units of `unit`, with one decimal, as a double-precision division shows it.
pub open spec fn in_units(bytes: nat, unit: nat, name: Seq<char>) -> Seq<char> {
    let tenths = rounded(as_double(bytes) * 10, unit);
    text::decimal(tenths / 10) + "."@ + text::decimal(tenths % 10) + name
}

/// A byte size for people.
pub open spec fn size_text(bytes: nat) -> Seq<char> {
    if bytes >= 1024 * 1024 * 1024 {
        in_units(bytes, 1024 * 1024 * 1024, " GB"@)
    } else if bytes >= 1024 * 1024 {
        in_units(bytes, 1024 * 1024, " MB"@)
    } else if bytes >= 1024 {
        in_units(bytes, 1024, " KB"@)
    } else {
        text::decimal(bytes) + " B"@
    }
}

/// `n / d` rounded to the nearest integer, a tie to the even one.
fn round_div(n: u128, d: u128) -> (r: u128)
    requires
        0 < d <= 0x4000_0000,
        n <= 0x1_0000_0000_0000_0000 * 10,
    ensures
        r == rounded(n as nat, d as nat),
        r <= n + 1,
{
    let q = n / d;
    let rest = n % d;
    proof {
        vstd::arithmetic::div_mod::lemma_div_is_ordered_by_denominator(n as int, 1, d as int);
    }
    if rest * 2 > d || (rest * 2 == d && q % 2 == 1) {
        q + 1
    } else {
        q
    }
}

/// The step between neighbouring double-precision numbers near `n`.
fn grain_of(n: u64) -> (r: u64)
    ensures
        r == grain(n as nat),
        1 <= r <= 2048,
{
    if n < 0x20_0000_0000_0000 {
        1
    } else if n < 0x40_0000_0000_0000 {
        2
    } else if n < 0x80_0000_0000_0000 {
        4
    } else if n < 0x100_0000_0000_0000 {
        8
    } else if n < 0x200_0000_0000_0000 {
        16
    } else if n < 0x400_0000_0000_0000 {
        32
    } else if n < 0x800_0000_0000_0000 {
        64
    } else if n < 0x1000_0000_0000_0000 {
        128
    } else if n < 0x2000_0000_0000_0000 {
        256
    } else if n < 0x4000_0000_0000_0000 {
        512
    } else if n < 0x8000_0000_0000_0000 {
        1024
    } else {
        2048
    }
}

/// Every 64-bit number is at most 2^64 as a double-precision number.
proof fn lemma_double_bounded(n: u64)
    ensures
        as_double(n as nat) <= 0x1_0000_0000_0000_0000,
        rounded(n as nat, grain(n as nat)) <= 0x20_0000_0000_0000,
{
    let g = grain(n as nat);
    let q = n as nat / g;
    assert(q < 0x20_0000_0000_0000);
    assert(rounded(n as nat, g) <= 0x20_0000_0000_0000);
    assert(rounded(n as nat, g) * g <= 0x20_0000_0000_0000 * 2048) by (nonlinear_arith)
        requires
            rounded(n as nat, g) <= 0x20_0000_0000_0000,
            g <= 2048,
    ;
}

/// Appends `bytes` in units of `unit`.
fn units_of(bytes: u64, unit: u64, name: &str) -> (r: String)
    requires
        1024 <= unit <= 0x4000_0000,
    ensures
        r@ == in_units(bytes as nat, unit as nat, name@),
{
    let g = grain_of(bytes);
    proof {
        lemma_double_bounded(bytes);
    }
    let steps = round_div(bytes as u128, g as u128);
    assert(steps * g == as_double(bytes as nat));
    assert(steps * g <= 0x1_0000_0000_0000_0000);
    let double: u128 = steps * g as u128;
    let tenths = round_div(double * 10, unit as u128);
    proof {
        lemma_tenths_fit(double as nat, unit as nat);
    }
    let mut out = String::new();
    text::push_decimal(&mut out, (tenths / 10) as u64);
    out.append(".");
    text::push_decimal(&mut out, (tenths % 10) as u64);
    out.append(name);
    assert(out@ =~= in_units(bytes as nat, unit as nat, name@));
    out
}

/// In units of at least 1024 bytes, every size has a place in 64 bits.
proof fn lemma_tenths_fit(double: nat, unit: nat)
    requires
        double <= 0x1_0000_0000_0000_0000,
        unit >= 1024,
    ensures
        rounded(double * 10, unit) / 10 <= u64::MAX,
{
    vstd::arithmetic::div_mod::lemma_div_is_ordered_by_denominator(
        (double * 10) as int,
        1024,
        unit as int,
    );
}

/// Human-friendly byte size (B / KB / MB / GB), matching common client display.
pub fn human_size(bytes: u64) -> (r: String)
    ensures
        r@ == size_text(bytes as nat),
{
    if bytes >= 1024 * 1024 * 1024 {
        units_of(bytes, 1024 * 1024 * 1024, " GB")
    } else if bytes >= 1024 * 1024 {
        units_of(bytes, 1024 * 1024, " MB")
    } else if bytes >= 1024 {
        units_of(bytes, 1024, " KB")
    } else {
        let mut out = text::decimal_of(bytes);
        out.append(" B");
        out
    }
}

/// What is known of the file, for people; the dimensions and the duration only where `full`.
pub open spec fn meta_parts(a: Attachment, full: bool) -> Seq<Seq<char>> {
    let mime = match a.mimetype {
        Some(m) => seq![m@],
        None => Seq::empty(),
    };
    let size = match a.size_bytes {
        Some(s) => seq![size_text(s as nat)],
        None => Seq::empty(),
    };
    let dims = match (a.width, a.height) {
        (Some(w), Some(h)) if full => seq![
            text::decimal(w as nat) + "x"@ + text::decimal(h as nat),
        ],
        _ => Seq::empty(),
    };
    let length = match a.duration_secs {
        Some(d) if full => seq![text::decimal(d as nat) + "s"@],
        _ => Seq::empty(),
    };
    mime + size + dims + length
}

/// What is known of the file, in brackets; nothing where nothing is known.
pub open spec fn meta_text(a: Attachment, full: bool) -> Seq<char> {
    if meta_parts(a, full).len() == 0 {
        Seq::empty()
    } else {
        " ("@ + text::join(meta_parts(a, full), ", "@) + ")"@
    }
}

/// The one-line description of an attachment.
pub open spec fn summary_text(a: Attachment, saved: Option<Seq<char>>) -> Seq<char> {
    "[attachment] "@ + a.kind.name() + " \""@ + a.filename@ + "\""@ + meta_text(a, true) + (
    match saved {
        Some(p) => " saved to "@ + p,
        None => " (not downloaded yet; fetch on request)"@,
    })
}

/// The acknowledgement of an attachment.
pub open spec fn ack_text(a: Attachment, saved: Option<Seq<char>>) -> Seq<char> {
    let head = "I see your "@ + a.kind.name() + " `"@ + a.filename@ + "`"@ + meta_text(a, false);
    match saved {
        Some(p) => head + " at `"@ + p + "`. What would you like me to do with it?"@,
        None => head
            + ". It's large/opaque so I haven't pulled it down yet — tell me what to do with it and I'll fetch it."@,
    }
}

/// Whether an attachment is downloaded at once.
pub open spec fn is_eager(a: Attachment, max_eager_bytes: u64) -> bool {
    let within_cap = a.size_bytes matches Some(s) && s <= max_eager_bytes;
    match a.kind {
        AttachmentKind::Image => within_cap,
        AttachmentKind::Video => false,
        AttachmentKind::File => within_cap && (a.mimetype matches Some(m) && is_safe_mime(m@)),
    }
}

impl Attachment {
    /// Eager-small / lazy-large policy:
    /// - images: eager when within the size cap;
    /// - files: eager when within the cap *and* a known-safe text-ish mime;
    /// - videos: always lazy (media, typically large).
    ///
    /// Unknown size ⇒ lazy (we can't bound the download).
    pub fn should_download_eager(&self, max_eager_bytes: u64) -> (r: bool)
        ensures
            r == is_eager(*self, max_eager_bytes),
    {
        let within_cap = match self.size_bytes {
            Some(s) => s <= max_eager_bytes,
            None => false,
        };
        match self.kind {
            AttachmentKind::Image => within_cap,
            AttachmentKind::Video => false,
            AttachmentKind::File => within_cap && match &self.mimetype {
                Some(m) => is_safe_file_mime(m.as_str()),
                None => false,
            },
        }
    }

    /// What is known of the file, in brackets.
    fn meta(&self, full: bool) -> (r: String)
        ensures
            r@ == meta_text(*self, full),
    {
        let mut parts: Vec<String> = Vec::new();
        let ghost none = Seq::<Seq<char>>::empty();
        assert(text::views(parts@) =~= none);
        if let Some(m) = &self.mimetype {
            parts.push(m.clone());
            assert(text::views(parts@) =~= none + seq![m@]);
        }
        let ghost with_mime = text::views(parts@);
        let ghost before = parts@;
        if let Some(s) = self.size_bytes {
            parts.push(human_size(s));
            assert(text::views(parts@) =~= with_mime + seq![size_text(s as nat)]);
        } else {
            assert(with_mime =~= with_mime + none);
        }
        let ghost with_size = text::views(parts@);
        if full && self.width.is_some() && self.height.is_some() {
            if let (Some(w), Some(h)) = (self.width, self.height) {
                let mut dims = text::decimal_of(w);
                dims.append("x");
                text::push_decimal(&mut dims, h);
                let ghost d = dims@;
                parts.push(dims);
                assert(text::views(parts@) =~= with_size + seq![d]);
            }
        } else {
            assert(with_size =~= with_size + none);
        }
        let ghost with_dims = text::views(parts@);
        if full && self.duration_secs.is_some() {
            if let Some(secs) = self.duration_secs {
                let mut length = text::decimal_of(secs);
                length.append("s");
                let ghost l = length@;
                parts.push(length);
                assert(text::views(parts@) =~= with_dims + seq![l]);
            }
        } else {
            assert(with_dims =~= with_dims + none);
        }
        assert(text::views(parts@) =~= meta_parts(*self, full));
        assert(text::views(parts@).len() == parts@.len());
        if parts.len() == 0 {
            String::new()
        } else {
            let list = text::joined(parts.as_slice(), ", ");
            let mut out = " (".to_owned();
            out.append(list.as_str());
            out.append(")");
            out
        }
    }

    /// A one-line, machine-readable + human-readable description used both as the
    /// persisted history line and the basis for the ack. `saved` is the on-disk
    /// path when eagerly downloaded, else `None` (lazy).
    pub fn summary_line(&self, saved: Option<&str>) -> (r: String)
        ensures
            r@ == summary_text(*self, text::opt_str(saved)),
    {
        let mut out = "[attachment] ".to_owned();
        out.append(self.kind.label());
        out.append(" \"");
        out.append(self.filename.as_str());
        out.append("\"");
        let meta = self.meta(true);
        out.append(meta.as_str());
        let ghost head = out@;
        match saved {
            Some(p) => {
                out.append(" saved to ");
                out.append(p);
                assert(out@ =~= head + (" saved to "@ + p@));
            },
            None => {
                out.append(" (not downloaded yet; fetch on request)");
            },
        }
        out
    }

    /// Short, friendly acknowledgement for a bare upload (no caption, idle room).
    pub fn ack_line(&self, saved: Option<&str>) -> (r: String)
        ensures
            r@ == ack_text(*self, text::opt_str(saved)),
    {
        let mut out = "I see your ".to_owned();
        out.append(self.kind.label());
        out.append(" `");
        out.append(self.filename.as_str());
        out.append("`");
        let meta = self.meta(false);
        out.append(meta.as_str());
        match saved {
            Some(p) => {
                out.append(" at `");
                out.append(p);
                out.append("`. What would you like me to do with it?");
            },
            None => {
                out.append(
                    ". It's large/opaque so I haven't pulled it down yet — tell me what to do with it and I'll fetch it.",
                );
            },
        }
        out
    }

    /// The name under which the file is saved: a safe basename behind `unique`, to avoid collisions
    /// between messages that share a filename.
    pub fn saved_name(&self, unique: &str) -> (r: String)
        ensures
            r@ == unique@ + "-"@ + safe_name(self.filename@),
    {
        let mut out = unique.to_owned();
        out.append("-");
        let safe = sanitize_filename(self.filename.as_str());
        out.append(safe.as_str());
        out
    }
}

/// What stands behind the last path separator.
pub open spec fn basename(name: Seq<char>) -> Seq<char>
    decreases name.len(),
{
    if name.len() == 0 {
        name
    } else if name.last() == '/' || name.last() == '\\' {
        Seq::empty()
    } else {
        basename(name.drop_last()).push(name.last())
    }
}

/// Whether a character may stand in a saved name.
pub open spec fn is_name_char(c: char) -> bool {
    text::is_alnum(c) || c == '.' || c == '-' || c == '_'
}

/// The basename without white space, then dots, at its ends, and with everything that is not safe
/// replaced.
pub open spec fn cleaned(name: Seq<char>) -> Seq<char> {
    text::trim_both(text::trim(basename(name)), Class::Only('.')).map_values(
        |c: char|
            if is_name_char(c) {
                c
            } else {
                '_'
            },
    )
}

/// A file name that is safe to save under.
pub open spec fn safe_name(name: Seq<char>) -> Seq<char> {
    if cleaned(name).len() == 0 {
        "attachment"@
    } else {
        cleaned(name)
    }
}

/// What stands behind the last path separator.
fn basename_of(name: &[char]) -> (r: &[char])
    ensures
        r@ == basename(name@),
{
    let mut k: usize = name.len();
    assert(name@.take(name@.len() as int) == name@);
    assert(name@.skip(name@.len() as int) =~= Seq::<char>::empty());
    assert(basename(name@) + Seq::<char>::empty() =~= basename(name@));
    while k > 0 && name[k - 1] != '/' && name[k - 1] != '\\'
        invariant
            k <= name.len(),
            basename(name@) == basename(name@.take(k as int)) + name@.skip(k as int),
        decreases k,
    {
        proof {
            let t = name@.take(k as int);
            assert(t.drop_last() == name@.take(k - 1));
            assert(basename(t.drop_last()).push(t.last()) + name@.skip(k as int) =~= basename(
                name@.take(k - 1),
            ) + name@.skip(k - 1));
        }
        k -= 1;
    }
    proof {
        assert(basename(name@.take(k as int)) =~= Seq::<char>::empty());
        assert(Seq::<char>::empty() + name@.skip(k as int) =~= name@.skip(k as int));
    }
    slice_subrange(name, k, name.len())
}

/// Reduce a user-supplied filename to a safe basename (no path separators, no
/// parent refs). Falls back to `attachment` if nothing usable remains.
pub fn sanitize_filename(name: &str) -> (r: String)
    ensures
        r@ == safe_name(name@),
{
    let v = text::chars_of(name);
    let base = basename_of(v.as_slice());
    let bare = text::skip_both(text::skip_both(base, Class::Space), Class::Only('.'));
    let ghost all = cleaned(name@);
    let mut out = String::new();
    let mut i: usize = 0;
    while i < bare.len()
        invariant
            i <= bare.len(),
            bare@ == text::trim_both(text::trim(basename(name@)), Class::Only('.')),
            all == cleaned(name@),
            out@ == all.take(i as int),
        decreases bare.len() - i,
    {
        let c = bare[i];
        out.push(if text::alnum(c) || c == '.' || c == '-' || c == '_' { c } else { '_' });
        assert(all.take(i + 1) =~= all.take(i as int).push(all[i as int]));
        i += 1;
    }
    assert(all.take(all.len() as int) =~= all);
    if bare.len() == 0 {
        assert(all.len() == 0);
        "attachment".to_owned()
    } else {
        assert(all.len() == bare@.len());
        out
    }
}

/// A saved name is not empty, holds no path separator, and is no reference to a directory: it holds
/// only letters, digits, `.`, `-` and `_`, and neither starts nor ends with a dot.
pub proof fn law_saved_names_are_safe(name: Seq<char>)
    ensures
        safe_name(name).len() > 0,
        forall|i: int| 0 <= i < safe_name(name).len() ==> is_name_char(#[trigger] safe_name(name)[i]),
        safe_name(name)[0] != '.',
        safe_name(name).last() != '.',
{
    reveal_strlit("attachment");
    let t = text::trim(basename(name));
    let dot = Class::Only('.');
    let bare = text::trim_both(t, dot);
    text::lemma_trimmed_ends(t, dot);
    if cleaned(name).len() > 0 {
        assert(cleaned(name).len() == bare.len());
        assert(bare[0] != '.');
        assert(bare.last() != '.');
    }
}

/// An attachment says of its file all that the message says, and no less: name, type, size and
/// caption of every kind, dimensions of images and videos, the duration of videos.
pub proof fn law_attachment_says_what_the_message_says(c: MediaContent)
    ensures
        attachment_of(MessageType::Image(c)) matches Some(a) && a.kind == AttachmentKind::Image
            && a.filename == c.filename && a.mimetype == c.mimetype && a.size_bytes
            == c.size_bytes && a.caption == c.caption && a.width == c.width && a.height == c.height
            && a.duration_secs is None,
        attachment_of(MessageType::Video(c)) matches Some(a) && a.kind == AttachmentKind::Video
            && a.filename == c.filename && a.mimetype == c.mimetype && a.size_bytes
            == c.size_bytes && a.caption == c.caption && a.width == c.width && a.height == c.height
            && a.duration_secs == c.duration_secs,
        attachment_of(MessageType::File(c)) matches Some(a) && a.kind == AttachmentKind::File
            && a.filename == c.filename && a.mimetype == c.mimetype && a.size_bytes
            == c.size_bytes && a.caption == c.caption && a.width is None && a.height is None
            && a.duration_secs is None,
{
}

/// Every kind of message is read in its own way.
pub proof fn law_messages_are_read(m: MessageType)
    ensures
        match m {
            MessageType::Text(body) => reading_of(m) == Reading::Body(body) && attachment_of(
                m,
            ) is None,
            MessageType::Audio => reading_of(m) == Reading::Transcribe && attachment_of(m) is None,
            MessageType::Other => reading_of(m) == Reading::Nothing && attachment_of(m) is None,
            _ => attachment_of(m) matches Some(a) && reading_of(m) == Reading::Attached(a),
        },
{
}

/// The parameters of a mime text do not count, nor does white space around the type.
pub proof fn law_mime_parameters_do_not_count(kind: Seq<char>, params: Seq<char>)
    requires
        !kind.contains(';'),
    ensures
        bare_mime(kind + ";"@ + params) == text::trim(kind),
        bare_mime(kind) == text::trim(kind),
        is_safe_mime(kind + ";"@ + params) == is_safe_mime(kind),
{
    reveal_strlit(";");
    let sep = seq![';'];
    assert(";"@ =~= sep);
    assert(text::ends_first(kind, sep)) by {
        assert forall|j: int| 0 <= j < kind.len() implies !text::occurs_at(kind + sep, sep, j) by {
            if text::occurs_at(kind + sep, sep, j) {
                assert((kind + sep).subrange(j, j + 1)[0] == kind[j]);
                assert(kind.contains(';'));
            }
        }
    }
    text::lemma_find_behind(kind, sep, params);
    let s = kind + sep + params;
    assert(s.take(kind.len() as int) =~= kind);
    assert(text::split_on(s, ';')[0] == s.take(kind.len() as int));
    assert(!text::contains(kind, sep)) by {
        assert forall|j: int| !text::occurs_at(kind, sep, j) by {
            if text::occurs_at(kind, sep, j) {
                assert(kind.subrange(j, j + 1)[0] == kind[j]);
                assert(kind.contains(';'));
            }
        }
    }
    text::lemma_find_none(kind, sep);
    assert(text::split_on(kind, ';')[0] == kind);
}

/// Text of every kind is safe, and so are the listed types; no image, video or audio is.
#[verifier::rlimit(40)]
pub proof fn law_text_is_safe(rest: Seq<char>)
    requires
        rest.len() > 0,
        !rest.contains(';'),
        !text::is_space(rest.last()),
    ensures
        is_safe_mime("text/"@ + rest),
        !is_safe_mime("image/"@ + rest),
        !is_safe_mime("video/"@ + rest),
        !is_safe_mime("audio/"@ + rest),
        is_safe_mime("application/"@ + rest) == seq![
            "pdf"@,
            "json"@,
            "xml"@,
            "toml"@,
            "x-toml"@,
            "yaml"@,
            "x-yaml"@,
            "csv"@,
            "x-sh"@,
            "javascript"@,
        ].contains(rest),
{
    reveal_strlit("text/");
    reveal_strlit("image/");
    reveal_strlit("video/");
    reveal_strlit("audio/");
    reveal_strlit("application/");
    lemma_bare(rest, "text/"@);
    lemma_bare(rest, "image/"@);
    lemma_bare(rest, "video/"@);
    lemma_bare(rest, "audio/"@);
    lemma_bare(rest, "application/"@);
    assert(("text/"@ + rest).subrange(0, 5) =~= "text/"@);
    lemma_not_text("image/"@ + rest);
    lemma_not_text("video/"@ + rest);
    lemma_not_text("audio/"@ + rest);
    lemma_not_text("application/"@ + rest);
    lemma_known_types(rest);
    assert(!is_known_text("image/"@ + rest)) by {
        lemma_known_start("image/"@ + rest);
    }
    assert(!is_known_text("video/"@ + rest)) by {
        lemma_known_start("video/"@ + rest);
    }
    assert(!is_known_text("audio/"@ + rest)) by {
        lemma_known_start("audio/"@ + rest);
        assert(("audio/"@ + rest)[1] == 'u');
    }
}

/// A type without parameters and without white space at its ends stands for itself.
proof fn lemma_bare(rest: Seq<char>, kind: Seq<char>)
    requires
        rest.len() > 0,
        !rest.contains(';'),
        !text::is_space(rest.last()),
        kind.len() > 0,
        !text::is_space(kind[0]),
        forall|i: int| 0 <= i < kind.len() ==> kind[i] != ';',
    ensures
        bare_mime(kind + rest) == kind + rest,
{
    let s = kind + rest;
    assert(!s.contains(';')) by {
        if s.contains(';') {
            let j = choose|j: int| 0 <= j < s.len() && s[j] == ';';
            if j >= kind.len() {
                assert(rest[j - kind.len()] == ';');
                assert(rest.contains(';'));
            } else {
                assert(kind[j] == ';');
            }
        }
    }
    law_mime_parameters_do_not_count(s, Seq::empty());
    assert(s.last() == rest.last());
    assert(s[0] == kind[0]);
    text::lemma_trim_fixed(s, Class::Space);
}

proof fn lemma_not_text(s: Seq<char>)
    requires
        s.len() > 0,
        s[0] != 't',
    ensures
        !text::starts_with(s, "text/"@),
{
    reveal_strlit("text/");
    if text::starts_with(s, "text/"@) {
        assert(s.subrange(0, 5)[0] == s[0]);
    }
}

/// The listed types start with `ap`.
proof fn lemma_known_start(s: Seq<char>)
    ensures
        is_known_text(s) ==> s.len() > 1 && s[0] == 'a' && s[1] == 'p',
{
    reveal_strlit("application/pdf");
    reveal_strlit("application/json");
    reveal_strlit("application/xml");
    reveal_strlit("application/toml");
    reveal_strlit("application/x-toml");
    reveal_strlit("application/yaml");
    reveal_strlit("application/x-yaml");
    reveal_strlit("application/csv");
    reveal_strlit("application/x-sh");
    reveal_strlit("application/javascript");
}

/// A listed type is `application/` and one of the listed words.
proof fn lemma_known_types(rest: Seq<char>)
    ensures
        is_known_text("application/"@ + rest) == seq![
            "pdf"@,
            "json"@,
            "xml"@,
            "toml"@,
            "x-toml"@,
            "yaml"@,
            "x-yaml"@,
            "csv"@,
            "x-sh"@,
            "javascript"@,
        ].contains(rest),
{
    let words = seq![
        "pdf"@,
        "json"@,
        "xml"@,
        "toml"@,
        "x-toml"@,
        "yaml"@,
        "x-yaml"@,
        "csv"@,
        "x-sh"@,
        "javascript"@,
    ];
    let s = "application/"@ + rest;
    reveal_strlit("application/");
    reveal_strlit("pdf");
    reveal_strlit("application/pdf");
    assert("application/"@ + "pdf"@ =~= "application/pdf"@);
    lemma_same_behind("application/"@, rest, "pdf"@);
    assert(words[0] == "pdf"@);
    reveal_strlit("json");
    reveal_strlit("application/json");
    assert("application/"@ + "json"@ =~= "application/json"@);
    lemma_same_behind("application/"@, rest, "json"@);
    assert(words[1] == "json"@);
    reveal_strlit("xml");
    reveal_strlit("application/xml");
    assert("application/"@ + "xml"@ =~= "application/xml"@);
    lemma_same_behind("application/"@, rest, "xml"@);
    assert(words[2] == "xml"@);
    reveal_strlit("toml");
    reveal_strlit("application/toml");
    assert("application/"@ + "toml"@ =~= "application/toml"@);
    lemma_same_behind("application/"@, rest, "toml"@);
    assert(words[3] == "toml"@);
    reveal_strlit("x-toml");
    reveal_strlit("application/x-toml");
    assert("application/"@ + "x-toml"@ =~= "application/x-toml"@);
    lemma_same_behind("application/"@, rest, "x-toml"@);
    assert(words[4] == "x-toml"@);
    reveal_strlit("yaml");
    reveal_strlit("application/yaml");
    assert("application/"@ + "yaml"@ =~= "application/yaml"@);
    lemma_same_behind("application/"@, rest, "yaml"@);
    assert(words[5] == "yaml"@);
    reveal_strlit("x-yaml");
    reveal_strlit("application/x-yaml");
    assert("application/"@ + "x-yaml"@ =~= "application/x-yaml"@);
    lemma_same_behind("application/"@, rest, "x-yaml"@);
    assert(words[6] == "x-yaml"@);
    reveal_strlit("csv");
    reveal_strlit("application/csv");
    assert("application/"@ + "csv"@ =~= "application/csv"@);
    lemma_same_behind("application/"@, rest, "csv"@);
    assert(words[7] == "csv"@);
    reveal_strlit("x-sh");
    reveal_strlit("application/x-sh");
    assert("application/"@ + "x-sh"@ =~= "application/x-sh"@);
    lemma_same_behind("application/"@, rest, "x-sh"@);
    assert(words[8] == "x-sh"@);
    reveal_strlit("javascript");
    reveal_strlit("application/javascript");
    assert("application/"@ + "javascript"@ =~= "application/javascript"@);
    lemma_same_behind("application/"@, rest, "javascript"@);
    assert(words[9] == "javascript"@);
}

/// Texts behind the same text are the same where the whole is.
proof fn lemma_same_behind(a: Seq<char>, x: Seq<char>, y: Seq<char>)
    ensures
        (a + x == a + y) == (x == y),
{
    if a + x == a + y {
        assert((a + x).skip(a.len() as int) =~= x);
        assert((a + y).skip(a.len() as int) =~= y);
    }
}

/// A quotient is rounded to the nearest number, a tie to the even one.
pub proof fn law_rounding_is_to_the_nearest(n: nat, d: nat)
    requires
        d > 0,
    ensures
        2 * n <= 2 * (rounded(n, d) * d) + d,
        2 * (rounded(n, d) * d) <= 2 * n + d,
        2 * n == 2 * (rounded(n, d) * d) + d || 2 * (rounded(n, d) * d) == 2 * n + d ==> rounded(
            n,
            d,
        ) % 2 == 0,
{
    let q = n / d;
    let rest = n % d;
    vstd::arithmetic::div_mod::lemma_fundamental_div_mod(n as int, d as int);
    vstd::arithmetic::mul::lemma_mul_is_commutative(d as int, q as int);
    vstd::arithmetic::mul::lemma_mul_is_distributive_add_other_way(d as int, q as int, 1);
    assert((q + 1) * d == q * d + d);
    assert(n == q * d + rest);
}

/// Sizes below 2^53 bytes are shown as they are: in bytes up to a kilobyte, then in the largest unit
/// that they fill, to the nearest tenth.
#[verifier::rlimit(40)]
pub proof fn law_sizes_are_shown(bytes: nat)
    requires
        bytes < 0x20_0000_0000_0000,
    ensures
        bytes < 1024 ==> size_text(bytes) == text::decimal(bytes) + " B"@,
        bytes >= 1024 ==> exists|tenths: nat, unit: nat|
            {
                &&& #[trigger] is_nearest_tenth(bytes, unit, tenths)
                &&& bytes >= unit
                &&& (unit == 1024 && bytes < 1024 * 1024 && size_text(bytes) == text::decimal(
                    tenths / 10,
                ) + "."@ + text::decimal(tenths % 10) + " KB"@) || (unit == 1024 * 1024 && bytes
                    < 1024 * 1024 * 1024 && size_text(bytes) == text::decimal(tenths / 10) + "."@
                    + text::decimal(tenths % 10) + " MB"@) || (unit == 1024 * 1024 * 1024
                    && size_text(bytes) == text::decimal(tenths / 10) + "."@ + text::decimal(
                    tenths % 10,
                ) + " GB"@)
            },
{
    if bytes >= 1024 {
        let unit: nat = if bytes >= 1024 * 1024 * 1024 {
            1024 * 1024 * 1024
        } else if bytes >= 1024 * 1024 {
            1024 * 1024
        } else {
            1024
        };
        assert(rounded(bytes, 1) == bytes) by {
            assert(bytes % 1 == 0);
            assert(bytes / 1 == bytes);
        }
        assert(as_double(bytes) == bytes);
        let tenths = rounded(bytes * 10, unit);
        law_rounding_is_to_the_nearest(bytes * 10, unit);
        assert(is_nearest_tenth(bytes, unit, tenths));
    }
}

/// `tenths` tenths of `unit` are as near to `bytes` as tenths come.
pub open spec fn is_nearest_tenth(bytes: nat, unit: nat, tenths: nat) -> bool {
    &&& 20 * bytes <= 2 * (tenths * unit) + unit
    &&& 2 * (tenths * unit) <= 20 * bytes + unit
}

/// A description names the kind and the file, and tells where it was saved, or that it was not.
#[verifier::rlimit(40)]
pub proof fn law_summary_names_the_file(a: Attachment, path: Seq<char>)
    ensures
        text::contains(
            summary_text(a, Some(path)),
            "[attachment] "@ + a.kind.name() + " \""@ + a.filename@ + "\""@,
        ),
        text::contains(
            summary_text(a, None),
            "[attachment] "@ + a.kind.name() + " \""@ + a.filename@ + "\""@,
        ),
        text::contains(summary_text(a, Some(path)), " saved to "@ + path),
        text::contains(summary_text(a, None), " (not downloaded yet; fetch on request)"@),
{
    let none = Seq::<char>::empty();
    let head = "[attachment] "@ + a.kind.name() + " \""@ + a.filename@ + "\""@;
    let meta = meta_text(a, true);
    let saved = " saved to "@ + path;
    let lazy = " (not downloaded yet; fetch on request)"@;
    text::lemma_holds_the_middle(none, head, meta + saved);
    assert(none + head + (meta + saved) =~= head + meta + saved);
    text::lemma_holds_the_middle(none, head, meta + lazy);
    assert(none + head + (meta + lazy) =~= head + meta + lazy);
    text::lemma_holds_the_middle(head + meta, saved, none);
    assert(head + meta + saved + none =~= head + meta + saved);
    text::lemma_holds_the_middle(head + meta, lazy, none);
    assert(head + meta + lazy + none =~= head + meta + lazy);
}

/// A description tells all that is known of the file: type, size, dimensions and duration.
#[verifier::rlimit(40)]
pub proof fn law_summary_tells_all(a: Attachment, saved: Option<Seq<char>>)
    ensures
        a.mimetype matches Some(m) ==> text::contains(summary_text(a, saved), m@),
        a.size_bytes matches Some(s) ==> text::contains(
            summary_text(a, saved),
            size_text(s as nat),
        ),
        a.width is Some && a.height is Some ==> text::contains(
            summary_text(a, saved),
            text::decimal(a.width->Some_0 as nat) + "x"@ + text::decimal(a.height->Some_0 as nat),
        ),
        a.duration_secs matches Some(d) ==> text::contains(
            summary_text(a, saved),
            text::decimal(d as nat) + "s"@,
        ),
{
    let head = "[attachment] "@ + a.kind.name() + " \""@ + a.filename@ + "\""@;
    let back = match saved {
        Some(p) => " saved to "@ + p,
        None => " (not downloaded yet; fetch on request)"@,
    };
    let parts = meta_parts(a, true);
    let n0: int = if a.mimetype is Some { 1 } else { 0 };
    let n1: int = if a.size_bytes is Some { n0 + 1 } else { n0 };
    let n2: int = if a.width is Some && a.height is Some { n1 + 1 } else { n1 };
    assert(summary_text(a, saved) == head + meta_text(a, true) + back);
    if let Some(m) = a.mimetype {
        assert(parts[0] == m@);
        lemma_part_is_told(parts, 0, head, back);
    }
    if let Some(s) = a.size_bytes {
        assert(parts[n0] == size_text(s as nat));
        lemma_part_is_told(parts, n0, head, back);
    }
    if a.width is Some && a.height is Some {
        let dims = text::decimal(a.width->Some_0 as nat) + "x"@ + text::decimal(
            a.height->Some_0 as nat,
        );
        assert(parts[n1] == dims);
        lemma_part_is_told(parts, n1, head, back);
    }
    if let Some(d) = a.duration_secs {
        assert(parts[n2] == text::decimal(d as nat) + "s"@);
        lemma_part_is_told(parts, n2, head, back);
    }
}

/// What is told in brackets is told.
proof fn lemma_part_is_told(parts: Seq<Seq<char>>, k: int, front: Seq<char>, back: Seq<char>)
    requires
        0 <= k < parts.len(),
    ensures
        text::contains(front + (" ("@ + text::join(parts, ", "@) + ")"@) + back, parts[k]),
{
    text::lemma_join_holds_each(parts, ", "@, k);
    text::lemma_holds_what_a_part_holds(" ("@, text::join(parts, ", "@), ")"@, parts[k]);
    text::lemma_holds_what_a_part_holds(
        front,
        " ("@ + text::join(parts, ", "@) + ")"@,
        back,
        parts[k],
    );
}

/// An acknowledgement names the kind and the file, and tells type and size, and where it was saved.
#[verifier::rlimit(40)]
pub proof fn law_acknowledgement_names_the_file(a: Attachment, path: Seq<char>)
    ensures
        text::contains(
            ack_text(a, Some(path)),
            "I see your "@ + a.kind.name() + " `"@ + a.filename@ + "`"@,
        ),
        text::contains(ack_text(a, Some(path)), " at `"@ + path + "`"@),
        text::contains(
            ack_text(a, None),
            "I see your "@ + a.kind.name() + " `"@ + a.filename@ + "`"@,
        ),
        a.mimetype matches Some(m) ==> text::contains(ack_text(a, Some(path)), m@),
        a.size_bytes matches Some(s) ==> text::contains(
            ack_text(a, Some(path)),
            size_text(s as nat),
        ),
{
    let none = Seq::<char>::empty();
    let head = "I see your "@ + a.kind.name() + " `"@ + a.filename@ + "`"@;
    let meta = meta_text(a, false);
    let all = ack_text(a, Some(path));
    reveal_strlit("`. What would you like me to do with it?");
    reveal_strlit("`");
    let ask = "`. What would you like me to do with it?"@;
    let place = " at `"@ + path;
    let rest = ask.skip(1);
    assert(ask =~= "`"@ + rest);
    assert(all =~= none + head + (meta + place + ask));
    text::lemma_holds_the_middle(none, head, meta + place + ask);
    assert(all =~= head + meta + (place + "`"@) + rest);
    text::lemma_holds_the_middle(head + meta, place + "`"@, rest);
    let lazy
        = ". It's large/opaque so I haven't pulled it down yet — tell me what to do with it and I'll fetch it."@;
    assert(ack_text(a, None) =~= none + head + (meta + lazy));
    text::lemma_holds_the_middle(none, head, meta + lazy);
    let parts = meta_parts(a, false);
    assert(all =~= head + meta + (place + ask));
    let n0: int = if a.mimetype is Some { 1 } else { 0 };
    if let Some(m) = a.mimetype {
        assert(parts[0] == m@);
        lemma_part_is_told(parts, 0, head, place + ask);
    }
    if let Some(s) = a.size_bytes {
        assert(parts[n0] == size_text(s as nat));
        lemma_part_is_told(parts, n0, head, place + ask);
    }
}

/// Nothing is downloaded at once unless its size is known and within the cap; images within the cap
/// are, files where their type is safe, and videos never.
pub proof fn law_eager_downloads_are_bounded(a: Attachment, cap: u64)
    ensures
        is_eager(a, cap) ==> a.size_bytes is Some && a.size_bytes->Some_0 <= cap && a.kind
            != AttachmentKind::Video,
        a.kind == AttachmentKind::Image && a.size_bytes is Some && a.size_bytes->Some_0 <= cap
            ==> is_eager(a, cap),
        a.kind == AttachmentKind::File && a.size_bytes is Some && a.size_bytes->Some_0 <= cap ==> (
        is_eager(a, cap) == (a.mimetype is Some && is_safe_mime(a.mimetype->Some_0@))),
{
}

/// Of a path only what stands behind its last separator is used.
pub proof fn law_basename_is_the_last_part(dir: Seq<char>, name: Seq<char>)
    requires
        !name.contains('/'),
        !name.contains('\\'),
    ensures
        basename(name) == name,
        basename(dir + seq!['/'] + name) == name,
        basename(dir + seq!['\\'] + name) == name,
    decreases name.len(),
{
    let a = dir + seq!['/'] + name;
    let b = dir + seq!['\\'] + name;
    if name.len() > 0 {
        let rest = name.drop_last();
        assert forall|i: int| 0 <= i < rest.len() implies #[trigger] rest[i] != '/' && rest[i]
            != '\\' by {
            assert(name.contains(name[i]));
        }
        assert(name.contains(name.last()));
        law_basename_is_the_last_part(dir, rest);
        assert(a.drop_last() =~= dir + seq!['/'] + rest);
        assert(b.drop_last() =~= dir + seq!['\\'] + rest);
        assert(rest.push(name.last()) =~= name);
    } else {
        assert(a.last() == '/');
        assert(b.last() == '\\');
        assert(basename(a) =~= name);
        assert(basename(b) =~= name);
    }
}

/// A name that is safe already is kept, whatever directory stands in front of it; anything else in
/// it is replaced, one for one.
pub proof fn law_safe_names_are_kept(dir: Seq<char>, name: Seq<char>)
    requires
        name.len() > 0,
        forall|i: int| 0 <= i < name.len() ==> is_name_char(#[trigger] name[i]),
        name[0] != '.',
        name.last() != '.',
    ensures
        safe_name(name) == name,
        safe_name(dir + seq!['/'] + name) == name,
{
    assert forall|i: int| 0 <= i < name.len() implies #[trigger] name[i] != '/' && name[i] != '\\'
        && !text::is_space(name[i]) by {
        assert(is_name_char(name[i]));
    }
    assert(!name.contains('/'));
    assert(!name.contains('\\'));
    law_basename_is_the_last_part(dir, name);
    assert(is_name_char(name[0]) && is_name_char(name.last()));
    assert(name[name.len() - 1] == name.last());
    text::lemma_trim_fixed(name, Class::Space);
    text::lemma_trim_fixed(name, Class::Only('.'));
    assert(cleaned(name) =~= name);
    assert(cleaned(dir + seq!['/'] + name) =~= name);
}

/// A saved name has as many characters as what is left of the name, each its own where it is safe.
pub proof fn law_unsafe_characters_are_replaced(name: Seq<char>, i: int)
    requires
        !name.contains('/'),
        !name.contains('\\'),
        name.len() > 0,
        !text::is_space(name[0]) && !text::is_space(name.last()),
        name[0] != '.' && name.last() != '.',
        0 <= i < name.len(),
    ensures
        safe_name(name).len() == name.len(),
        safe_name(name)[i] == (if is_name_char(name[i]) {
            name[i]
        } else {
            '_'
        }),
{
    law_basename_is_the_last_part(Seq::empty(), name);
    text::lemma_trim_fixed(name, Class::Space);
    text::lemma_trim_fixed(name, Class::Only('.'));
}

/// The characters of a saved name, by their code points.
pub proof fn law_name_characters(c: char)
    ensures
        is_name_char(c) == (48 <= c as u32 <= 57 || 65 <= c as u32 <= 90 || 97 <= c as u32 <= 122
            || c as u32 == 45 || c as u32 == 46 || c as u32 == 95),
{
}

/// In brackets stand the kind of the contents and the size, as far as they are known, and nothing where
/// neither is; the size of a picture and the length of a video follow them in the long form alone.
#[verifier::rlimit(40)]
pub proof fn law_what_is_known_stands_in_brackets(a: Attachment)
    ensures
        a.mimetype is Some && a.size_bytes is Some ==> meta_text(a, false) == " ("@ + (
        a.mimetype->Some_0@ + ", "@ + size_text(a.size_bytes->Some_0 as nat)) + ")"@,
        a.mimetype is Some && a.size_bytes is None ==> meta_text(a, false) == " ("@
            + a.mimetype->Some_0@ + ")"@,
        a.mimetype is None && a.size_bytes is Some ==> meta_text(a, false) == " ("@ + size_text(
            a.size_bytes->Some_0 as nat,
        ) + ")"@,
        a.mimetype is None && a.size_bytes is None ==> meta_text(a, false).len() == 0,
        (a.width is None || a.height is None) && a.duration_secs is None ==> meta_text(a, true)
            == meta_text(a, false),
        a.mimetype is Some && a.size_bytes is None && a.width is Some && a.height is Some
            && a.duration_secs is None ==> meta_text(a, true) == " ("@ + (a.mimetype->Some_0@
            + ", "@ + (text::decimal(a.width->Some_0 as nat) + "x"@ + text::decimal(
            a.height->Some_0 as nat,
        ))) + ")"@,
        a.mimetype is Some && a.size_bytes is None && (a.width is None || a.height is None)
            && a.duration_secs is Some ==> meta_text(a, true) == " ("@ + (a.mimetype->Some_0@ + ", "@
            + (text::decimal(a.duration_secs->Some_0 as nat) + "s"@)) + ")"@,
{
    let parts = meta_parts(a, true);
    let short = meta_parts(a, false);
    if short.len() <= 2 {
        lemma_join_small(short);
    }
    if parts.len() <= 2 {
        lemma_join_small(parts);
    }
    if (a.width is None || a.height is None) && a.duration_secs is None {
        assert(parts =~= short);
    }
}

/// The summary and the acknowledgement name the kind of a file and its name, then what is known of it,
/// then where it is, or that it was not fetched.
#[verifier::rlimit(40)]
pub proof fn law_what_is_told_of_a_file(a: Attachment, path: Seq<char>)
    ensures
        summary_text(a, Some(path)) == "[attachment] "@ + a.kind.name() + " \""@ + a.filename@
            + "\""@ + meta_text(a, true) + (" saved to "@ + path),
        summary_text(a, None) == "[attachment] "@ + a.kind.name() + " \""@ + a.filename@ + "\""@
            + meta_text(a, true) + " (not downloaded yet; fetch on request)"@,
        ack_text(a, Some(path)) == "I see your "@ + a.kind.name() + " `"@ + a.filename@ + "`"@
            + meta_text(a, false) + " at `"@ + path + "`. What would you like me to do with it?"@,
        ack_text(a, None) == "I see your "@ + a.kind.name() + " `"@ + a.filename@ + "`"@ + meta_text(
            a,
            false,
        )
            + ". It's large/opaque so I haven't pulled it down yet — tell me what to do with it and I'll fetch it."@,
{
}

/// Two parts are joined by the separator, one stands alone.
proof fn lemma_join_small(parts: Seq<Seq<char>>)
    requires
        parts.len() <= 2,
    ensures
        parts.len() == 1 ==> text::join(parts, ", "@) == parts[0],
        parts.len() == 2 ==> text::join(parts, ", "@) == parts[0] + ", "@ + parts[1],
{
    if parts.len() == 2 {
        assert(parts.drop_last().len() == 1);
        assert(parts.drop_last()[0] == parts[0]);
        assert(text::join(parts.drop_last(), ", "@) == parts[0]);
    }
}

} // verus!
