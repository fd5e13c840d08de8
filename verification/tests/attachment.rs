use roger::attachment::{
    attachment_meta, human_size, is_safe_file_mime, reading, sanitize_filename, AttachmentKind,
    MediaContent, MessageType, Reading,
};

fn image_msg(
    filename: &str,
    caption: Option<&str>,
    size: Option<u64>,
    dims: Option<(u64, u64)>,
) -> MessageType {
    MessageType::Image(MediaContent {
        filename: filename.to_string(),
        caption: caption.map(str::to_string),
        mimetype: Some("image/png".to_string()),
        size_bytes: size,
        width: dims.map(|d| d.0),
        height: dims.map(|d| d.1),
        duration_secs: None,
    })
}

fn file_msg(filename: &str, mime: &str, size: u64) -> MessageType {
    MessageType::File(MediaContent {
        filename: filename.to_string(),
        caption: None,
        mimetype: Some(mime.to_string()),
        size_bytes: Some(size),
        width: None,
        height: None,
        duration_secs: None,
    })
}

fn video_msg(filename: &str, size: u64) -> MessageType {
    MessageType::Video(MediaContent {
        filename: filename.to_string(),
        caption: None,
        mimetype: Some("video/mp4".to_string()),
        size_bytes: Some(size),
        width: None,
        height: None,
        duration_secs: Some(75),
    })
}

#[test]
fn extracts_image_metadata_and_caption() {
    let att = attachment_meta(&image_msg(
        "seton.png",
        Some("look at this"),
        Some(1_200_000),
        Some((1920, 1080)),
    ))
    .unwrap();
    assert_eq!(att.kind, AttachmentKind::Image);
    assert_eq!(att.filename, "seton.png");
    assert_eq!(att.mimetype.as_deref(), Some("image/png"));
    assert_eq!(att.size_bytes, Some(1_200_000));
    assert_eq!((att.width, att.height), (Some(1920), Some(1080)));
    assert_eq!(att.caption.as_deref(), Some("look at this"));
}

#[test]
fn bare_image_has_no_caption() {
    let att = attachment_meta(&image_msg("seton.png", None, Some(1000), None)).unwrap();
    assert_eq!(att.filename, "seton.png");
    assert!(att.caption.is_none());
}

#[test]
fn text_and_unknown_yield_none() {
    assert!(attachment_meta(&MessageType::Text("hi".to_string())).is_none());
    assert!(attachment_meta(&MessageType::Audio).is_none());
    assert!(attachment_meta(&MessageType::Other).is_none());
}

#[test]
fn each_kind_of_message_is_read_its_own_way() {
    assert!(matches!(reading(&MessageType::Text("hi".to_string())), Reading::Body(b) if b == "hi"));
    assert!(matches!(reading(&MessageType::Audio), Reading::Transcribe));
    let file = reading(&file_msg("a.pdf", "application/pdf", 7));
    assert!(matches!(file, Reading::Attached(a) if a.filename == "a.pdf"));
    let video = reading(&video_msg("v.mp4", 7));
    assert!(matches!(video, Reading::Attached(a) if a.kind == AttachmentKind::Video));
    assert!(matches!(reading(&MessageType::Other), Reading::Nothing));
}

#[test]
fn eager_policy_small_image_yes_video_no() {
    let cap = 10 * 1024 * 1024;
    assert!(attachment_meta(&image_msg("a.png", None, Some(2_000_000), None)).unwrap().should_download_eager(cap));
    // Oversized image → lazy.
    assert!(!attachment_meta(&image_msg("big.png", None, Some(50_000_000), None)).unwrap().should_download_eager(cap));
    // Unknown size → lazy.
    assert!(!attachment_meta(&image_msg("u.png", None, None, None)).unwrap().should_download_eager(cap));
    // Video always lazy.
    assert!(!attachment_meta(&video_msg("clip.mp4", 1000)).unwrap().should_download_eager(cap));
}

#[test]
fn eager_policy_file_depends_on_mime() {
    let cap = 10 * 1024 * 1024;
    assert!(attachment_meta(&file_msg("notes.txt", "text/plain", 1000)).unwrap().should_download_eager(cap));
    assert!(attachment_meta(&file_msg("doc.pdf", "application/pdf", 1000)).unwrap().should_download_eager(cap));
    // Arbitrary/opaque binary → lazy even when small.
    assert!(!attachment_meta(&file_msg("blob.bin", "application/octet-stream", 1000)).unwrap().should_download_eager(cap));
}

#[test]
fn summary_line_shapes() {
    let att = attachment_meta(&image_msg("seton.png", None, Some(1_200_000), Some((1920, 1080)))).unwrap();
    let line = att.summary_line(Some("/data/att/seton.png"));
    assert!(line.contains("[attachment] image \"seton.png\""));
    assert!(line.contains("image/png"));
    assert!(line.contains("1920x1080"));
    assert!(line.contains("saved to /data/att/seton.png"));
    // Lazy variant notes it isn't downloaded.
    assert!(att.summary_line(None).contains("not downloaded"));
}

#[test]
fn sanitize_strips_paths() {
    assert_eq!(sanitize_filename("../../etc/passwd"), "passwd");
    assert_eq!(sanitize_filename("a b.png"), "a_b.png");
    assert_eq!(sanitize_filename("/"), "attachment");
}

#[test]
fn human_size_units() {
    assert_eq!(human_size(512), "512 B");
    assert_eq!(human_size(2048), "2.0 KB");
    assert_eq!(human_size(1_572_864), "1.5 MB");
}

fn float_size(bytes: u64) -> String {
    let kb = 1024u64;
    let mb = 1024 * kb;
    let gb = 1024 * mb;
    if bytes >= gb {
        format!("{:.1} GB", bytes as f64 / gb as f64)
    } else if bytes >= mb {
        format!("{:.1} MB", bytes as f64 / mb as f64)
    } else if bytes >= kb {
        format!("{:.1} KB", bytes as f64 / kb as f64)
    } else {
        format!("{} B", bytes)
    }
}

#[test]
fn sizes_are_those_of_a_float_division() {
    let mut sizes: Vec<u64> = vec![0, 1, 1023, 1024, 1075, 1076, 1280, 1536, 1792, u64::MAX, u64::MAX - 1];
    for shift in 10..64u32 {
        let base = 1u64 << shift;
        for d in [0u64, 1, 2, 3, 1023, 1024, 1025, 2047] {
            sizes.push(base.wrapping_add(d));
            sizes.push(base.wrapping_sub(d));
            sizes.push(base / 20 * 3 + d);
            sizes.push(base / 4 * 3 + d);
        }
    }
    // Ties: an odd number of twentieths of a unit.
    for unit in [1024u64, 1024 * 1024, 1024 * 1024 * 1024] {
        for n in 1..40u64 {
            sizes.push(unit * n + unit / 4);
            sizes.push(unit * n + unit / 4 * 3);
        }
    }
    for s in sizes {
        assert_eq!(human_size(s), float_size(s), "{} bytes", s);
    }
}

#[test]
fn lines_are_exact() {
    let att = attachment_meta(&video_msg("clip.mp4", 3_145_728)).unwrap();
    assert_eq!(
        att.summary_line(None),
        "[attachment] video \"clip.mp4\" (video/mp4, 3.0 MB, 75s) (not downloaded yet; fetch on request)"
    );
    assert_eq!(
        att.ack_line(None),
        "I see your video `clip.mp4` (video/mp4, 3.0 MB). It's large/opaque so I haven't pulled it down yet — tell me what to do with it and I'll fetch it."
    );
    assert_eq!(
        att.ack_line(Some("/d/clip.mp4")),
        "I see your video `clip.mp4` (video/mp4, 3.0 MB) at `/d/clip.mp4`. What would you like me to do with it?"
    );
    assert_eq!(att.saved_name("7"), "7-clip.mp4");
}

#[test]
fn mime_parameters_do_not_matter() {
    assert!(is_safe_file_mime("application/json; charset=utf-8"));
    assert!(is_safe_file_mime(" text/csv ;x"));
    assert!(!is_safe_file_mime("application/json5"));
}

#[test]
fn saved_names_have_no_dots_at_the_ends() {
    assert_eq!(sanitize_filename("..\\..\\evil.sh."), "evil.sh");
    assert_eq!(sanitize_filename("..."), "attachment");
    assert_eq!(sanitize_filename("über ñ.txt"), "_ber__.txt");
}
