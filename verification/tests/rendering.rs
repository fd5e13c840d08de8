use roger::html::{extract_text, extract_text_checked, strip_tags_block};
use roger::markdown::{last_safe_paragraph_end, streaming_formatted_body, to_html};
use roger::search::{format_search_results, SearxngResponse, SearxngResult};

#[test]
fn paragraph_boundary_outside_fence() {
    let text = "hello world\n\nNext paragraph";
    assert_eq!(last_safe_paragraph_end(text), Some(13));
}

#[test]
fn double_newline_inside_fence_ignored() {
    let text = "```rust\nfn foo() {}\n\nfn bar() {}\n```\n\nafter";
    // The \n\n inside the fence must not be returned; only the one after ``` counts.
    let idx = last_safe_paragraph_end(text).unwrap();
    assert!(text[..idx].contains("after") || idx > text.find("```\n\nafter").unwrap());
}

#[test]
fn no_boundary_returns_none() {
    assert_eq!(last_safe_paragraph_end("single line"), None);
}

#[test]
fn the_last_of_several_newlines_counts() {
    assert_eq!(last_safe_paragraph_end("a\n\n\nb"), Some(4));
    assert_eq!(last_safe_paragraph_end("a\n\n\n\n"), Some(5));
    assert_eq!(last_safe_paragraph_end("a\n\n```\n\n\nb"), Some(3));
    assert_eq!(last_safe_paragraph_end("a\nb\n"), None);
}

#[test]
fn to_html_renders_bold() {
    let html = to_html("**bold**");
    assert!(html.contains("<strong>bold</strong>"));
}

#[test]
fn unsettled_text_is_escaped() {
    assert_eq!(
        streaming_formatted_body("<p>done</p>", "a < b & \"c\"\nd"),
        "<p>done</p><p>a &lt; b &amp; &quot;c&quot;<br>d</p>"
    );
    assert_eq!(streaming_formatted_body("<p>done</p>", " \n"), "<p>done</p>");
    assert_eq!(streaming_formatted_body("", "x"), "<p>x</p>");
}

#[test]
fn extract_text_strips_html_tags() {
    let html = "<html><head><title>T</title></head><body><p>Hello world</p></body></html>";
    let text = extract_text(html, "http://example.com");
    assert!(text.contains("Hello world"));
    assert!(!text.contains("<p>"));
}

#[test]
fn extract_text_strips_script_blocks() {
    let html = "<p>visible</p><script>alert('hidden')</script><p>also visible</p>";
    let text = extract_text(html, "http://example.com");
    assert!(text.contains("visible"));
    assert!(!text.contains("hidden"));
    assert!(!text.contains("alert"));
}

#[test]
fn extract_text_decodes_entities() {
    let html = "<p>a &amp; b &lt;3 &gt; c</p>";
    let text = extract_text(html, "http://example.com");
    assert!(text.contains("a & b <3 > c"));
}

#[test]
fn extract_text_truncates_long_content() {
    let html = format!("<p>{}</p>", "x".repeat(10000));
    let text = extract_text(&html, "http://example.com");
    assert!(text.contains("[truncated at 8000 chars]"));
}

#[test]
fn page_text_is_exact() {
    assert_eq!(
        extract_text("<h1> Title </h1>\n\n<STYLE>p{}</Style><p>a&nbsp;b</p>\n", "http://e.com/x"),
        "[Content from http://e.com/x]\n\nTitle\na b"
    );
    let long = extract_text(&"y".repeat(8001), "u");
    assert_eq!(long, format!("[Content from u]\n\n{}\n\n[truncated at 8000 chars]", "y".repeat(8000)));
}

#[test]
fn unclosed_script_keeps_the_text_before_it() {
    assert_eq!(strip_tags_block("ab<script>c", "script").as_deref(), Some("abab<script>c"));
    assert_eq!(
        strip_tags_block("a<SCRIPT src=x>b</script>c", "script").as_deref(),
        Some("ac")
    );
}

#[test]
fn cuts_inside_a_character_are_reported() {
    let html = format!("{}é", "x".repeat(7999));
    assert!(extract_text_checked(&html, "u").is_none());
    let html = format!("{}é", "x".repeat(7998));
    assert!(extract_text_checked(&html, "u").is_some());
    // In lower case 'İ' has three bytes, here two: the place found lies behind the tag's start.
    assert!(extract_text_checked("İ<script>é</script>", "u").is_some());
}

#[test]
fn format_search_results_empty() {
    let resp = SearxngResponse { results: vec![], answers: vec![] };
    let out = format_search_results("test", &resp);
    assert!(out.contains("No results found"));
}

#[test]
fn format_search_results_shows_up_to_five() {
    let results = (0..8)
        .map(|i| SearxngResult {
            title: format!("Title {}", i),
            url: format!("http://example.com/{}", i),
            content: "snippet".into(),
            published_date: None,
        })
        .collect();
    let resp = SearxngResponse { results, answers: vec![] };
    let out = format_search_results("test", &resp);
    assert!(out.contains("Title 4"));
    assert!(!out.contains("Title 5"));
}

#[test]
fn search_results_are_laid_out() {
    let resp = SearxngResponse {
        results: vec![
            SearxngResult {
                title: "T".into(),
                url: "http://t".into(),
                content: "é".repeat(400),
                published_date: Some("2024-01-02".into()),
            },
            SearxngResult {
                title: "U".into(),
                url: "http://u".into(),
                content: String::new(),
                published_date: None,
            },
        ],
        answers: vec!["42".into()],
    };
    assert_eq!(
        format_search_results("q", &resp),
        format!(
            "Search results for: q\n\nAnswer: 42\n\n1. **T**\n   URL: http://t\n   {}\n   Published: 2024-01-02\n\n2. **U**\n   URL: http://u\n\n",
            "é".repeat(300)
        )
    );
}
