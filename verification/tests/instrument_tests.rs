use bombadil::actions::{
    available_actions, key_name, ActionError, BrowserAction, BrowserActionCandidate, Point,
    Timeout, TypeTextFormat,
};
use bombadil::instrument::{
    attach_prelude, b64_decode, b64_encode, coverage_hook, etag_header_value,
    instrument_inline_script, intercept_decision, prelude, response_source_id, InterceptAction,
    ResourceKind,
};
use bombadil::random::{generate_action, pick_action, pick_from_tree};
use bombadil::source_id::SourceId;
use bombadil::state::{
    slice_history, BrowserState, Coverage, NavigationEntry, NavigationHistory, Screenshot,
    ScreenshotFormat,
};
use bombadil::strings::u64_to_decimal;
use bombadil::tree::Tree;
use bombadil::url::{host_of, is_within_domain};

#[test]
fn test_prelude_guards_the_namespace() {
    let p = prelude();
    assert_eq!(
        p,
        "window.__bombadil__ = window.__bombadil__ || { edges_previous: new Uint8Array(65536), edges_current: new Uint8Array(65536), previous: 0 };"
    );
}

#[test]
fn test_attach_prelude_is_identical_for_every_unit() {
    let a = attach_prelude("console.log(1);");
    let b = attach_prelude("while (x) { y(); }");
    let p = prelude();
    assert!(a.starts_with(&p));
    assert!(b.starts_with(&p));
    assert_eq!(&a[..p.len()], &b[..p.len()]);
    assert!(a.ends_with("console.log(1);"));
}

#[test]
fn test_coverage_hook_uses_the_branch_id_twice() {
    let hook = coverage_hook(5);
    assert_eq!(
        hook,
        "__bombadil__.edges_current[(5 ^ __bombadil__.previous) % 65536] += 1; __bombadil__.previous = 5 >> 1;"
    );
}

#[test]
fn test_u64_to_decimal() {
    assert_eq!(u64_to_decimal(0), "0");
    assert_eq!(u64_to_decimal(42), "42");
    assert_eq!(u64_to_decimal(65535), "65535");
    assert_eq!(u64_to_decimal(u64::MAX), "18446744073709551615");
}

#[test]
fn test_source_id_is_deterministic_and_chains() {
    let a = SourceId::hash(b"etag-value");
    let b = SourceId::hash(b"etag-value");
    assert_eq!(a.0, b.0);
    assert_ne!(SourceId::hash(b"x").0, SourceId::hash(b"y").0);
    // FNV-1a of the empty input is the offset basis.
    assert_eq!(SourceId::hash(b"").0, 0xcbf29ce484222325);
    assert_ne!(a.add(0).0, a.add(1).0);
}

#[test]
fn test_response_source_id_prefers_etag() {
    let etag = b"abc".to_vec();
    let body = b"console.log(1)".to_vec();
    let with_etag = response_source_id(Some(&etag), &body);
    let without = response_source_id(None, &body);
    assert_eq!(with_etag.0, SourceId::hash(b"abc").0);
    assert_eq!(without.0, SourceId::hash(b"console.log(1)").0);
}

#[test]
fn test_etag_header_value_is_decimal() {
    assert_eq!(etag_header_value(SourceId(1234)), "1234");
}

#[test]
fn test_intercept_forwards_non_200() {
    assert_eq!(
        intercept_decision(ResourceKind::Script, Some(304), None, ""),
        InterceptAction::Forward
    );
}

#[test]
fn test_intercept_scripts_and_documents() {
    assert_eq!(
        intercept_decision(ResourceKind::Script, Some(200), None, "var x;"),
        InterceptAction::InstrumentScript
    );
    let html_type = "text/html; charset=utf-8".to_string();
    assert_eq!(
        intercept_decision(ResourceKind::Document, Some(200), Some(&html_type), "<p>"),
        InterceptAction::InstrumentHtml
    );
    let xml_type = "application/xml".to_string();
    assert_eq!(
        intercept_decision(ResourceKind::Document, Some(200), Some(&xml_type), "<?xml"),
        InterceptAction::PassThroughDocument
    );
    // Without a content type the body decides.
    assert_eq!(
        intercept_decision(ResourceKind::Document, None, None, "  <?xml version=\"1.0\"?>"),
        InterceptAction::PassThroughDocument
    );
    assert_eq!(
        intercept_decision(ResourceKind::Document, None, None, "<!DOCTYPE html>"),
        InterceptAction::InstrumentHtml
    );
}

#[test]
fn test_instrument_inline_script_by_type() {
    let js = "text/javascript".to_string();
    let module = "module".to_string();
    let other = "text/other".to_string();
    let empty = "".to_string();
    let src = "app.js".to_string();
    assert!(instrument_inline_script(None, None));
    assert!(instrument_inline_script(None, Some(&js)));
    assert!(instrument_inline_script(None, Some(&module)));
    assert!(instrument_inline_script(None, Some(&empty)));
    assert!(!instrument_inline_script(None, Some(&other)));
    assert!(!instrument_inline_script(Some(&src), None));
}

#[test]
fn test_base64_round_trip() {
    let bytes = b"some bytes".to_vec();
    let encoded = b64_encode(&bytes);
    assert_eq!(encoded, "c29tZSBieXRlcw==");
    assert_eq!(b64_decode(&encoded), Some(bytes));
    assert_eq!(b64_decode("!!! not base64 !!!"), None);
}

#[test]
fn test_key_name_supported_codes() {
    assert_eq!(key_name(13), Some("Enter"));
    assert_eq!(key_name(27), Some("Escape"));
    assert_eq!(key_name(5), None);
}

#[test]
fn test_timeout_conversions() {
    assert_eq!(Timeout::from_secs(2).0, 2000);
    assert_eq!(Timeout::from_secs(u64::MAX).0, u64::MAX);
    assert_eq!(Timeout(1500).to_duration(), std::time::Duration::from_millis(1500));
}

#[test]
fn test_screenshot_extension() {
    assert_eq!(ScreenshotFormat::Webp.extension(), "webp");
    assert_eq!(ScreenshotFormat::Png.extension(), "png");
    assert_eq!(ScreenshotFormat::Jpeg.extension(), "jpeg");
}

fn entry(id: u32, url: &str) -> NavigationEntry {
    NavigationEntry {
        id,
        title: format!("page {}", id),
        url: url.to_string(),
    }
}

#[test]
fn test_slice_history_partitions() {
    let entries = vec![
        entry(1, "https://example.com/a"),
        entry(2, "https://example.com/b"),
        entry(3, "https://example.com/c"),
    ];
    let history = slice_history(entries, 1);
    assert_eq!(history.back.len(), 1);
    assert_eq!(history.back[0].id, 1);
    assert_eq!(history.current.id, 2);
    assert_eq!(history.forward.len(), 1);
    assert_eq!(history.forward[0].id, 3);
}

#[test]
fn test_host_extraction() {
    assert_eq!(host_of("https://example.com/path?q=1"), Some("example.com".to_string()));
    assert_eq!(host_of("http://user@example.com:8080/x"), Some("example.com".to_string()));
    assert_eq!(host_of("file:///tmp/page.html"), Some("".to_string()));
    assert_eq!(host_of("not a url"), None);
}

#[test]
fn test_is_within_domain() {
    assert!(is_within_domain(
        "https://example.com/deep/link",
        "https://example.com"
    ));
    assert!(!is_within_domain(
        "https://elsewhere.net/",
        "https://example.com"
    ));
    assert!(!is_within_domain("garbage", "https://example.com"));
}

fn browser_state(url: &str, content_type: &str, back: Vec<NavigationEntry>) -> BrowserState {
    BrowserState {
        timestamp: 0,
        url: url.to_string(),
        title: "t".to_string(),
        content_type: content_type.to_string(),
        console_entries: vec![],
        navigation_history: NavigationHistory {
            back,
            current: entry(9, url),
            forward: vec![],
        },
        exceptions: vec![],
        transition_hash: None,
        coverage: Coverage { edges_new: vec![] },
        screenshot: Screenshot {
            format: ScreenshotFormat::Webp,
            data: vec![],
        },
    }
}

fn click_candidate() -> (BrowserActionCandidate, Timeout) {
    (
        BrowserActionCandidate::Click {
            name: "button".to_string(),
            content: Some("Go".to_string()),
            point: Point { x: 10, y: 20 },
        },
        Timeout(500),
    )
}

#[test]
fn test_available_actions_uses_enumerated_candidates() {
    let state = browser_state("https://example.com/", "text/html", vec![]);
    let tree = available_actions(
        "https://example.com",
        &state,
        vec![click_candidate()],
        vec![],
        vec![],
    )
    .unwrap();
    let leaf = pick_from_tree(&tree);
    assert!(matches!(leaf.0, BrowserActionCandidate::Click { .. }));
    assert_eq!(leaf.1, Timeout(500));
}

#[test]
fn test_available_actions_falls_back_to_back_off_domain() {
    let state = browser_state(
        "https://elsewhere.net/landing",
        "text/html",
        vec![entry(1, "https://example.com/")],
    );
    let tree = available_actions("https://example.com", &state, vec![click_candidate()], vec![], vec![])
        .unwrap();
    let leaf = pick_from_tree(&tree);
    assert!(matches!(leaf.0, BrowserActionCandidate::Back));
}

#[test]
fn test_available_actions_err_when_nothing_is_offered() {
    let state = browser_state("https://example.com/", "text/html", vec![]);
    let err = available_actions("https://example.com", &state, vec![], vec![], vec![])
        .unwrap_err();
    assert_eq!(err, ActionError::NoFallbackAction);
    assert_eq!(err.message(), "no fallback action available");
}

#[test]
fn test_generate_action_instantiates() {
    let (click, _) = click_candidate();
    match generate_action(&click) {
        BrowserAction::Click { name, point, .. } => {
            assert_eq!(name.as_str(), "button");
            assert_eq!(point, Point { x: 10, y: 20 });
        }
        other => panic!("expected a click, got {:?}", other),
    }

    match generate_action(&BrowserActionCandidate::PressKey) {
        BrowserAction::PressKey { code } => assert!(code == 13 || code == 27),
        other => panic!("expected a key press, got {:?}", other),
    }

    match generate_action(&BrowserActionCandidate::TypeText {
        format: TypeTextFormat::Email,
    }) {
        BrowserAction::TypeText { text, .. } => assert!(text.ends_with("@example.com")),
        other => panic!("expected text, got {:?}", other),
    }

    match generate_action(&BrowserActionCandidate::ScrollDown {
        origin: Point { x: 0, y: 0 },
        distance: 100,
    }) {
        BrowserAction::ScrollDown { distance, .. } => assert!(50 <= distance && distance <= 100),
        other => panic!("expected a scroll, got {:?}", other),
    }
}

#[test]
fn test_pick_action_from_single_leaf() {
    let tree = Tree::Leaf((BrowserActionCandidate::Reload, Timeout(250)));
    let (action, timeout) = pick_action(&tree);
    assert!(matches!(action, BrowserAction::Reload));
    assert_eq!(timeout, Timeout(250));
}
