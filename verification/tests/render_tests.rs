use bombadil::ltl::{EventuallyViolation, Formula, ThunkRef, Violation};
use bombadil::monitor::Extractors;
use bombadil::render::{render_formula, render_violation};
use bombadil::runner::{check_page_ok, PageIssue};
use bombadil::state::{
    BrowserState, ConsoleEntry, ConsoleEntryLevel, Coverage, NavigationEntry, NavigationHistory,
    Screenshot, ScreenshotFormat,
};
use bombadil::trace::screenshot_file_name;

fn pure(value: bool, pretty: &str) -> Formula {
    Formula::Pure {
        value,
        pretty: pretty.to_string(),
    }
}

#[test]
fn test_render_formula_combinators() {
    let f = Formula::Always(
        Box::new(Formula::Implies(
            Box::new(pure(true, "logged_in")),
            Box::new(Formula::Thunk {
                function: ThunkRef {
                    id: 0,
                    pretty: "() => cart.count >= 0".to_string(),
                },
                negated: true,
            }),
        )),
        Some(250),
    );
    assert_eq!(
        render_formula(&f),
        "always(logged_in.implies(not(() => cart.count >= 0))).within(250, \"milliseconds\")"
    );
}

#[test]
fn test_render_violation_false_condition() {
    let v = Violation::False {
        time: 12,
        condition: "no console errors".to_string(),
    };
    assert_eq!(render_violation(&v), "!(no console errors)");
}

#[test]
fn test_render_violation_timeout() {
    let v = Violation::Eventually {
        subformula: Box::new(pure(false, "done")),
        reason: EventuallyViolation::TimedOut(4),
    };
    assert_eq!(render_violation(&v), "timed out at 4ms: done");
}

#[test]
fn test_render_violation_bounded_always() {
    let v = Violation::Always {
        violation: Box::new(Violation::False {
            time: 7,
            condition: "ok".to_string(),
        }),
        subformula: Box::new(pure(false, "ok")),
        start: 1,
        end: Some(9),
        time: 7,
    };
    assert_eq!(
        render_violation(&v),
        "as of 1ms and until 9ms, it should always be the case that\n\nok\n\nbut at 7ms\n\n!(ok)"
    );
}

#[test]
fn test_screenshot_file_name() {
    assert_eq!(
        screenshot_file_name(1700000000000123, ScreenshotFormat::Webp),
        "1700000000000123.webp"
    );
}

fn state_with(entries: Vec<ConsoleEntry>, exceptions: Vec<bombadil::state::Exception>) -> BrowserState {
    BrowserState {
        timestamp: 0,
        url: "https://example.com/".to_string(),
        title: "t".to_string(),
        content_type: "text/html".to_string(),
        console_entries: entries,
        navigation_history: NavigationHistory {
            back: vec![],
            current: NavigationEntry {
                id: 1,
                title: "t".to_string(),
                url: "https://example.com/".to_string(),
            },
            forward: vec![],
        },
        exceptions,
        transition_hash: None,
        coverage: Coverage { edges_new: vec![] },
        screenshot: Screenshot {
            format: ScreenshotFormat::Webp,
            data: vec![],
        },
    }
}

#[test]
fn test_check_page_ok_passes_clean_page() {
    let state = state_with(vec![], vec![]);
    assert_eq!(check_page_ok(Some(200), &state), Ok(()));
    assert_eq!(check_page_ok(None, &state), Ok(()));
}

#[test]
fn test_check_page_flags_http_error_first() {
    let state = state_with(vec![], vec![]);
    assert_eq!(
        check_page_ok(Some(404), &state),
        Err(PageIssue::HttpErrorStatus { status: 404 })
    );
}

#[test]
fn test_check_page_flags_first_console_error() {
    let warning = ConsoleEntry {
        timestamp: 1,
        level: ConsoleEntryLevel::Warning,
        args: vec!["just noise".to_string()],
    };
    let error = ConsoleEntry {
        timestamp: 2,
        level: ConsoleEntryLevel::Error,
        args: vec!["boom".to_string()],
    };
    let state = state_with(vec![warning, error], vec![]);
    assert_eq!(
        check_page_ok(Some(200), &state),
        Err(PageIssue::ConsoleError { index: 1 })
    );
}

#[test]
fn test_check_page_flags_uncaught_exception() {
    let exc = bombadil::state::Exception {
        text: "kaboom".to_string(),
        line: 1,
        column: 1,
        url: None,
        stacktrace: None,
    };
    let state = state_with(vec![], vec![exc]);
    assert_eq!(
        check_page_ok(Some(200), &state),
        Err(PageIssue::UncaughtException { index: 0 })
    );
}

#[test]
fn test_extractor_registry() {
    let mut extractors = Extractors::new();
    let a = extractors.register("(state) => state.foo".to_string());
    let b = extractors.register("s => s.bar".to_string());
    assert_eq!(a, 0);
    assert_eq!(b, 1);
    assert_eq!(extractors.get(a).map(|s| s.as_str()), Some("(state) => state.foo"));
    assert_eq!(extractors.get(7), None);
    let functions = extractors.extract_functions();
    assert_eq!(functions.len(), 2);
    assert_eq!(functions[1].1.as_str(), "s => s.bar");
}
