use vortex_mod_soundcloud::client_id::{extract_client_id, extract_js_urls};

#[test]
fn extract_js_urls_finds_all_unique_bundles() {
    let html = r#"
        <script crossorigin src="https://a-v2.sndcdn.com/assets/4-abcdef.js"></script>
        <script crossorigin src="https://a-v2.sndcdn.com/assets/app-12345.js"></script>
        <script crossorigin src="https://a-v2.sndcdn.com/assets/4-abcdef.js"></script>
    "#;
    let urls = extract_js_urls(html);
    assert_eq!(urls.len(), 2);
    assert!(urls.contains(&"https://a-v2.sndcdn.com/assets/4-abcdef.js".into()));
    assert!(urls.contains(&"https://a-v2.sndcdn.com/assets/app-12345.js".into()));
}

#[test]
fn extract_js_urls_returns_empty_when_no_bundles() {
    assert!(extract_js_urls("<html><body>hello</body></html>").is_empty());
}

#[test]
fn bundles_come_in_page_order() {
    let html = "\u{e9}https://a-v2.sndcdn.com/assets/b.js|https://a-v2.sndcdn.com/assets/a.js|\
                https://a-v2.sndcdn.com/assets/b.js|https://a-v2.sndcdn.com/assets/open";
    assert_eq!(
        extract_js_urls(html),
        vec![
            "https://a-v2.sndcdn.com/assets/b.js",
            "https://a-v2.sndcdn.com/assets/a.js"
        ]
    );
}

#[test]
fn other_assets_hide_no_bundle() {
    assert_eq!(
        extract_js_urls(
            r#"<link href="https://a-v2.sndcdn.com/assets/x.css"><script src="https://a-v2.sndcdn.com/assets/y.js">"#
        ),
        vec!["https://a-v2.sndcdn.com/assets/y.js"]
    );
    for stop in ["\"", "'", "<", ">", " ", "\n", "\u{a0}"] {
        let html = format!(
            "https://a-v2.sndcdn.com/assets/x{stop}.js https://a-v2.sndcdn.com/assets/y.js"
        );
        assert_eq!(
            extract_js_urls(&html),
            vec!["https://a-v2.sndcdn.com/assets/y.js"],
            "{html}"
        );
    }
    assert!(extract_js_urls("<a href=https://a-v2.sndcdn.com/assets/> .js").is_empty());
}

#[test]
fn bundle_url_ends_with_its_first_suffix() {
    assert_eq!(
        extract_js_urls("https://a-v2.sndcdn.com/assets/x https://a-v2.sndcdn.com/assets/y.json"),
        vec!["https://a-v2.sndcdn.com/assets/y.js"]
    );
    assert_eq!(
        extract_js_urls("https://a-v2.sndcdn.com/assets/a.js?v=b.js"),
        vec!["https://a-v2.sndcdn.com/assets/a.js"]
    );
    // One URL inside another is the end of it.
    assert_eq!(
        extract_js_urls("https://a-v2.sndcdn.com/assets/https://a-v2.sndcdn.com/assets/y.js"),
        vec!["https://a-v2.sndcdn.com/assets/https://a-v2.sndcdn.com/assets/y.js"]
    );
    assert_eq!(
        extract_js_urls("https://a-v2.sndcdn.com/assets/.js"),
        vec!["https://a-v2.sndcdn.com/assets/.js"]
    );
}

#[test]
fn extract_client_id_finds_literal() {
    let js = r#"foo,client_id:"AbCdEf123",bar:"baz""#;
    assert_eq!(extract_client_id(js).as_deref(), Some("AbCdEf123"));
}

#[test]
fn extract_client_id_none_when_marker_absent() {
    assert_eq!(extract_client_id("no marker here"), None);
}

#[test]
fn extract_client_id_rejects_empty_value() {
    assert_eq!(extract_client_id(r#"client_id:"""#), None);
}

#[test]
fn extract_client_id_rejects_non_alphanumeric_value() {
    // If the bundle's variable layout changes and we match something
    // that isn't the raw id, bail out.
    assert_eq!(extract_client_id(r#"client_id:"ab!cd""#), None);
}

#[test]
fn only_the_first_literal_counts() {
    assert_eq!(
        extract_client_id(r#"client_id:"!",client_id:"good1""#),
        None
    );
    assert_eq!(
        extract_client_id(r#"client_id:"first",client_id:"second""#).as_deref(),
        Some("first")
    );
    assert_eq!(extract_client_id(r#"client_id:"open"#), None);
    assert_eq!(extract_client_id("client_id:\"caf\u{e9}\""), None);
}
