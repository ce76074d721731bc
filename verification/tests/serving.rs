use siteserve::config::updated_customs;
use siteserve::customs::CustomStrings;
use siteserve::render::{apply_customs, format_visits, handle_request, render_html, Outcome};
use siteserve::store::{rebuild, ContentStore, SourceFile};

fn file(key: &str, data: &[u8]) -> SourceFile {
    SourceFile { key: key.as_bytes().to_vec(), data: data.to_vec() }
}

fn build(files: Vec<SourceFile>, layout: Option<&[u8]>) -> ContentStore {
    rebuild(&files, &layout.map(|l| l.to_vec()))
}

fn serve(store: &ContentStore, customs: &CustomStrings, visits: u64, path: &str) -> Outcome {
    handle_request(store, customs, visits, &path.as_bytes().to_vec())
}

fn expect_success(outcome: Outcome) -> (Vec<u8>, Vec<u8>) {
    match outcome {
        Outcome::Success { key, body } => (key, body),
        Outcome::Forbidden => panic!("expected success, got forbidden"),
        Outcome::NotFound => panic!("expected success, got not found"),
    }
}

#[test]
fn custom_substitution_round_trip() {
    let customs = updated_customs(&br#"{"site":"Acme"}"#.to_vec()).expect("valid document");
    let body = b"Welcome to {{custom:site}}!".to_vec();
    let rendered = apply_customs(body, &customs);
    assert_eq!(rendered, b"Welcome to Acme!".to_vec());
    let text = String::from_utf8(rendered).unwrap();
    assert!(text.contains("Acme"));
    assert!(!text.contains("{{custom:site}}"));
}

#[test]
fn custom_key_without_value_left_unreplaced() {
    let customs = updated_customs(&br#"{"site":"Acme"}"#.to_vec()).expect("valid document");
    let body = b"{{custom:other}}".to_vec();
    let rendered = apply_customs(body, &customs);
    assert_eq!(rendered, b"{{custom:other}}".to_vec());
}

#[test]
fn custom_parse_failure_yields_nothing() {
    assert!(updated_customs(&b"not a document".to_vec()).is_none());
    assert!(updated_customs(&br#"{"n": 3}"#.to_vec()).is_none());
}

#[test]
fn gallery_assembly() {
    let store = build(
        vec![
            file("index.html", b"{{gallery}}|{{gallery:count}}"),
            file("gallery/a.png", b"pngbytes"),
            file("gallery/.hidden.png", b"hidden"),
            file("gallery/z.jpg", b"jpgbytes"),
            file("gallery/.gallery-template.html", b"[{filename}]"),
        ],
        None,
    );
    let customs = CustomStrings::new();
    let (_, body) = expect_success(serve(&store, &customs, 0, "/"));
    assert_eq!(body, b"[a.png]\n[z.jpg]|2".to_vec());
}

#[test]
fn gallery_item_paths_and_order() {
    let store = build(
        vec![
            file("index.html", b"{{gallery}}"),
            file("gallery/z.jpg", b"z"),
            file("gallery/a.PNG", b"a"),
            file("gallery/notes.txt", b"t"),
            file("gallery/.gallery-template.html", b"<img src=\"{filepath}\">"),
        ],
        None,
    );
    let customs = CustomStrings::new();
    let (_, body) = expect_success(serve(&store, &customs, 0, "/"));
    assert_eq!(
        body,
        b"<img src=\"/gallery/a.PNG\">\n<img src=\"/gallery/z.jpg\">".to_vec()
    );
}

#[test]
fn gallery_without_template_left_unreplaced() {
    let store = build(
        vec![file("index.html", b"{{gallery:count}}"), file("gallery/a.png", b"a")],
        None,
    );
    let customs = CustomStrings::new();
    let (_, body) = expect_success(serve(&store, &customs, 0, "/"));
    assert_eq!(body, b"{{gallery:count}}".to_vec());
}

#[test]
fn clean_url_fallback() {
    let store = build(vec![file("about.html", b"<p>about</p>")], None);
    let customs = CustomStrings::new();
    let (key, body) = expect_success(serve(&store, &customs, 0, "/about"));
    assert_eq!(key, b"about.html".to_vec());
    assert_eq!(body, b"<p>about</p>".to_vec());
}

#[test]
fn clean_url_not_tried_for_dotted_names() {
    let store = build(vec![file("data.txt.html", b"x")], None);
    let customs = CustomStrings::new();
    match serve(&store, &customs, 0, "/data.txt") {
        Outcome::NotFound => {}
        _ => panic!("expected not found"),
    }
}

#[test]
fn clean_url_judges_final_segment_only() {
    let store = build(vec![file("docs.v2/intro.html", b"intro")], None);
    let customs = CustomStrings::new();
    let (key, _) = expect_success(serve(&store, &customs, 0, "/docs.v2/intro"));
    assert_eq!(key, b"docs.v2/intro.html".to_vec());
}

#[test]
fn directory_requests_fall_back_to_index() {
    let store = build(
        vec![file("index.html", b"root"), file("sub/index.html", b"sub")],
        None,
    );
    let customs = CustomStrings::new();
    let (key, _) = expect_success(serve(&store, &customs, 0, "/"));
    assert_eq!(key, b"index.html".to_vec());
    let (key, _) = expect_success(serve(&store, &customs, 0, ""));
    assert_eq!(key, b"index.html".to_vec());
    let (key, _) = expect_success(serve(&store, &customs, 0, "/sub/"));
    assert_eq!(key, b"sub/index.html".to_vec());
}

#[test]
fn dotfile_protection() {
    let mut store = build(vec![file("index.html", b"ok")], None);
    store.insert(b".secret".to_vec(), b"top secret".to_vec());
    store.insert(b"sub/.env".to_vec(), b"SECRET-REDACTED".to_vec());
    let customs = CustomStrings::new();
    match serve(&store, &customs, 0, "/.secret") {
        Outcome::Forbidden => {}
        _ => panic!("expected forbidden"),
    }
    match serve(&store, &customs, 0, "/sub/.env") {
        Outcome::Forbidden => {}
        _ => panic!("expected forbidden"),
    }
}

#[test]
fn missing_key_is_not_found() {
    let store = build(vec![file("index.html", b"ok")], None);
    let customs = CustomStrings::new();
    match serve(&store, &customs, 0, "/nothing/here") {
        Outcome::NotFound => {}
        _ => panic!("expected not found"),
    }
}

#[test]
fn layout_wraps_html_at_build_time() {
    let store = build(
        vec![file("page.html", b"X"), file("style.css", b"body{}")],
        Some(b"A{{outlet}}B"),
    );
    let customs = CustomStrings::new();
    let (_, body) = expect_success(serve(&store, &customs, 0, "/page"));
    assert_eq!(body, b"AXB".to_vec());
    let (_, css) = expect_success(serve(&store, &customs, 0, "/style.css"));
    assert_eq!(css, b"body{}".to_vec());
}

#[test]
fn layout_reload_rebuilds_html_only() {
    let files = vec![file("page.html", b"X"), file("style.css", b"body{}")];
    let old_store = rebuild(&files, &Some(b"A{{outlet}}B".to_vec()));
    let new_store = rebuild(&files, &Some(b"C{{outlet}}D".to_vec()));
    let customs = CustomStrings::new();
    let (_, old_page) = expect_success(serve(&old_store, &customs, 0, "/page"));
    let (_, new_page) = expect_success(serve(&new_store, &customs, 0, "/page"));
    assert_eq!(old_page, b"AXB".to_vec());
    assert_eq!(new_page, b"CXD".to_vec());
    let (_, old_css) = expect_success(serve(&old_store, &customs, 0, "/style.css"));
    let (_, new_css) = expect_success(serve(&new_store, &customs, 0, "/style.css"));
    assert_eq!(old_css, new_css);
}

#[test]
fn visit_counter_zero_padded() {
    assert_eq!(format_visits(7), b"000007".to_vec());
    assert_eq!(format_visits(0), b"000000".to_vec());
    assert_eq!(format_visits(123456), b"123456".to_vec());
    assert_eq!(format_visits(1234567), b"1234567".to_vec());
}

#[test]
fn visit_counter_substituted_into_page() {
    let store = build(vec![file("index.html", b"seen {{visits:counter}} times")], None);
    let customs = CustomStrings::new();
    let (_, body) = expect_success(serve(&store, &customs, 42, "/"));
    assert_eq!(body, b"seen 000042 times".to_vec());
}

#[test]
fn non_html_served_raw() {
    let store = build(vec![file("notes.txt", b"count: {{visits:counter}}")], None);
    let customs = CustomStrings::new();
    let (_, body) = expect_success(serve(&store, &customs, 9, "/notes.txt"));
    assert_eq!(body, b"count: {{visits:counter}}".to_vec());
}

#[test]
fn undecodable_html_served_raw() {
    let mut page = b"{{visits:counter}}".to_vec();
    page.push(0xff);
    let store = build(vec![SourceFile { key: b"bad.html".to_vec(), data: page.clone() }], None);
    let customs = CustomStrings::new();
    let (_, body) = expect_success(serve(&store, &customs, 3, "/bad.html"));
    assert_eq!(body, page);
}

#[test]
fn dot_prefixed_files_skipped_at_build() {
    let store = build(
        vec![file(".secret", b"s"), file("sub/.env", b"e"), file("ok.txt", b"ok")],
        None,
    );
    assert!(!store.contains(&b".secret".to_vec()));
    assert!(!store.contains(&b"sub/.env".to_vec()));
    assert!(store.contains(&b"ok.txt".to_vec()));
}

#[test]
fn only_the_exact_reserved_keys_survive_the_dotfile_filter() {
    let store = build(
        vec![
            file(".layout.html", b"L{{outlet}}"),
            file("gallery/.gallery-template.html", b"{filename}"),
            file("sub/.layout.html", b"nested layout"),
            file("other/.gallery-template.html", b"nested template"),
            file("x.layout.html", b"dotless name"),
        ],
        None,
    );
    assert!(store.contains(&b".layout.html".to_vec()));
    assert!(store.contains(&b"gallery/.gallery-template.html".to_vec()));
    assert!(!store.contains(&b"sub/.layout.html".to_vec()));
    assert!(!store.contains(&b"other/.gallery-template.html".to_vec()));
    assert!(store.contains(&b"x.layout.html".to_vec()));
}

#[test]
fn render_html_full_pipeline() {
    let store = build(
        vec![
            file("index.html", b"ignored"),
            file("gallery/a.png", b"a"),
            file("gallery/.gallery-template.html", b"{filename}"),
        ],
        None,
    );
    let customs = updated_customs(&br#"{"name":"Ada"}"#.to_vec()).unwrap();
    let body = b"{{custom:name}}: {{visits:counter}} [{{gallery:count}}]".to_vec();
    let out = render_html(&body, 5, &customs, &store);
    assert_eq!(out, b"Ada: 000005 [1]".to_vec());
}
