use bombadil::actions::{BrowserAction, Timeout};
use bombadil::session::{
    Command, InnerEvent, NavigationType, NodeModification, PauseReason, Phase, RequestReason,
    SessionError, SessionMachine, WATCHDOG_DELAY_MS,
};
use bombadil::state::{ConsoleEntry, ConsoleEntryLevel, Exception};

fn machine() -> SessionMachine {
    SessionMachine::new("frame-main".to_string(), "page-target".to_string())
}

fn console_entry(text: &str) -> ConsoleEntry {
    ConsoleEntry {
        timestamp: 1,
        level: ConsoleEntryLevel::Error,
        args: vec![text.to_string()],
    }
}

fn exception(text: &str) -> Exception {
    Exception {
        text: text.to_string(),
        line: 1,
        column: 2,
        url: None,
        stacktrace: None,
    }
}

fn paused_event() -> InnerEvent {
    InnerEvent::Paused {
        reason: PauseReason::Other,
        call_frame_id: Some("frame-0".to_string()),
    }
}

#[test]
fn test_state_request_initiates_capture() {
    let mut m = machine();
    let cmds = m
        .process_event(InnerEvent::StateRequested {
            reason: RequestReason::Runner,
            generation: 0,
        })
        .unwrap();
    assert_eq!(m.generation, 1);
    assert!(matches!(m.phase, Phase::Pausing));
    assert!(matches!(cmds.as_slice(), [Command::IssuePause { generation: 1 }]));
}

#[test]
fn test_stale_state_request_is_dropped() {
    let mut m = machine();
    let cmds = m
        .process_event(InnerEvent::StateRequested {
            reason: RequestReason::Watchdog,
            generation: 7,
        })
        .unwrap();
    assert!(cmds.is_empty());
    assert_eq!(m.generation, 0);
    assert!(matches!(m.phase, Phase::Running));
}

#[test]
fn test_capture_drains_buffers_exactly_once() {
    let mut m = machine();
    m.process_event(InnerEvent::ConsoleEntry(console_entry("boom")))
        .unwrap();
    m.process_event(InnerEvent::StateRequested {
        reason: RequestReason::Runner,
        generation: 0,
    })
    .unwrap();
    let cmds = m.process_event(paused_event()).unwrap();
    match &cmds[0] {
        Command::Capture {
            call_frame_id,
            console_entries,
            exceptions,
            generation,
        } => {
            assert_eq!(call_frame_id.as_str(), "frame-0");
            assert_eq!(console_entries.len(), 1);
            assert_eq!(console_entries[0].args[0].as_str(), "boom");
            assert!(exceptions.is_empty());
            assert_eq!(*generation, 2);
        }
        other => panic!("expected a capture, got {:?}", other),
    }
    match &cmds[1] {
        Command::ScheduleWatchdog {
            generation,
            delay_ms,
        } => {
            assert_eq!(*generation, 2);
            assert_eq!(*delay_ms, WATCHDOG_DELAY_MS);
        }
        other => panic!("expected a watchdog, got {:?}", other),
    }
    assert!(m.console_entries.is_empty());
    assert!(matches!(m.phase, Phase::Paused));

    // A second capture has nothing left to report.
    let cmds = m.process_event(paused_event()).unwrap();
    match &cmds[0] {
        Command::Capture {
            console_entries,
            exceptions,
            ..
        } => {
            assert!(console_entries.is_empty());
            assert!(exceptions.is_empty());
        }
        other => panic!("expected a capture, got {:?}", other),
    }
}

#[test]
fn test_generations_increase_across_captures() {
    let mut m = machine();
    let mut last = 0u64;
    for _ in 0..3 {
        let cmds = m.process_event(paused_event()).unwrap();
        match &cmds[0] {
            Command::Capture { generation, .. } => {
                assert!(*generation > last);
                last = *generation;
            }
            other => panic!("expected a capture, got {:?}", other),
        }
        m.process_event(InnerEvent::ActionAccepted {
            action: BrowserAction::Reload,
            timeout: Timeout(100),
        })
        .unwrap();
        m.process_event(InnerEvent::Resumed).unwrap();
        m.process_event(InnerEvent::ActionApplied {
            generation: m.generation,
        })
        .unwrap();
    }
}

#[test]
fn test_exception_is_buffered_and_triggers_capture() {
    let mut m = machine();
    let cmds = m
        .process_event(InnerEvent::ExceptionThrown(exception("kaboom")))
        .unwrap();
    assert!(matches!(m.phase, Phase::Pausing));
    assert!(matches!(cmds.as_slice(), [Command::IssuePause { .. }]));
    let cmds = m.process_event(paused_event()).unwrap();
    match &cmds[0] {
        Command::Capture { exceptions, .. } => {
            assert_eq!(exceptions.len(), 1);
            assert_eq!(exceptions[0].text.as_str(), "kaboom");
        }
        other => panic!("expected a capture, got {:?}", other),
    }
}

#[test]
fn test_action_flow_resume_apply_timeout() {
    let mut m = machine();
    m.process_event(paused_event()).unwrap();
    let cmds = m
        .process_event(InnerEvent::ActionAccepted {
            action: BrowserAction::Back,
            timeout: Timeout(1234),
        })
        .unwrap();
    assert!(matches!(cmds.as_slice(), [Command::IssueResume]));
    assert!(matches!(m.phase, Phase::Resuming { .. }));

    let cmds = m.process_event(InnerEvent::Resumed).unwrap();
    assert!(matches!(m.phase, Phase::Acting));
    assert!(matches!(
        cmds.as_slice(),
        [
            Command::ApplyAction {
                action: BrowserAction::Back
            },
            Command::ArmActionTimeout { delay_ms: 1234, .. }
        ]
    ));

    let stale = m
        .process_event(InnerEvent::ActionApplied { generation: 0 })
        .unwrap();
    assert!(stale.is_empty());
    assert!(matches!(m.phase, Phase::Acting));

    m.process_event(InnerEvent::ActionApplied {
        generation: m.generation,
    })
    .unwrap();
    assert!(matches!(m.phase, Phase::Running));
}

#[test]
fn test_unexpected_pause_reason_is_fatal() {
    let mut m = machine();
    let r = m.process_event(InnerEvent::Paused {
        reason: PauseReason::Exception,
        call_frame_id: Some("frame-0".to_string()),
    });
    assert_eq!(r.unwrap_err(), SessionError::UnexpectedPauseReason);
}

#[test]
fn test_missing_call_frame_is_fatal() {
    let mut m = machine();
    let r = m.process_event(InnerEvent::Paused {
        reason: PauseReason::Other,
        call_frame_id: None,
    });
    assert_eq!(r.unwrap_err(), SessionError::MissingCallFrame);
}

#[test]
fn test_page_target_destroyed_is_fatal() {
    let mut m = machine();
    let ok = m
        .process_event(InnerEvent::TargetDestroyed {
            target: "other-target".to_string(),
        })
        .unwrap();
    assert!(ok.is_empty());
    let r = m.process_event(InnerEvent::TargetDestroyed {
        target: "page-target".to_string(),
    });
    assert_eq!(r.unwrap_err(), SessionError::PageDestroyed);
}

#[test]
fn test_navigation_clears_console_and_reseeds_nodes() {
    let mut m = machine();
    m.process_event(InnerEvent::ConsoleEntry(console_entry("stale")))
        .unwrap();
    m.process_event(InnerEvent::FrameRequestedNavigation {
        frame: "frame-main".to_string(),
        url: "https://example.com/next".to_string(),
    })
    .unwrap();
    assert!(matches!(m.phase, Phase::Navigating));

    // Console output in `Navigating` belongs to the leaving document.
    m.process_event(InnerEvent::ConsoleEntry(console_entry("dropped")))
        .unwrap();
    assert!(m.console_entries.is_empty());

    let cmds = m
        .process_event(InnerEvent::FrameNavigated {
            frame: "frame-main".to_string(),
            nav_type: NavigationType::Navigation,
        })
        .unwrap();
    assert!(matches!(cmds.as_slice(), [Command::GetDocument]));
    assert!(matches!(m.phase, Phase::Loading));

    let cmds = m.process_event(InnerEvent::Loaded).unwrap();
    assert!(matches!(
        cmds.as_slice(),
        [Command::PostStateRequested {
            reason: RequestReason::Loaded,
            ..
        }]
    ));
    assert!(matches!(m.phase, Phase::Running));
}

#[test]
fn test_back_forward_cache_restore_requests_state() {
    let mut m = machine();
    let cmds = m
        .process_event(InnerEvent::FrameNavigated {
            frame: "frame-main".to_string(),
            nav_type: NavigationType::BackForwardCacheRestore,
        })
        .unwrap();
    assert!(matches!(
        cmds.as_slice(),
        [Command::GetDocument, Command::PostStateRequested { .. }]
    ));
    assert!(matches!(m.phase, Phase::Running));
}

#[test]
fn test_other_frame_navigation_is_ignored() {
    let mut m = machine();
    let cmds = m
        .process_event(InnerEvent::FrameRequestedNavigation {
            frame: "frame-iframe".to_string(),
            url: "https://ads.example.net".to_string(),
        })
        .unwrap();
    assert!(cmds.is_empty());
    assert!(matches!(m.phase, Phase::Running));
}

#[test]
fn test_node_tree_modification_requests_children_and_capture() {
    let mut m = machine();
    let cmds = m
        .process_event(InnerEvent::NodeTreeModified(
            NodeModification::ChildNodeInserted {
                parent: 12,
                child: 13,
            },
        ))
        .unwrap();
    assert!(matches!(
        cmds.as_slice(),
        [
            Command::RequestChildNodes { parent: 12 },
            Command::IssuePause { .. }
        ]
    ));
    assert!(matches!(m.phase, Phase::Pausing));

    // Removals need no follow-up, and outside `Running` nothing captures.
    let cmds = m
        .process_event(InnerEvent::NodeTreeModified(
            NodeModification::ChildNodeRemoved {
                parent: 12,
                child: 13,
            },
        ))
        .unwrap();
    assert!(cmds.is_empty());
    assert!(matches!(m.phase, Phase::Pausing));
}

#[test]
fn test_action_accepted_while_running_is_unhandled() {
    let mut m = machine();
    let r = m.process_event(InnerEvent::ActionAccepted {
        action: BrowserAction::Reload,
        timeout: Timeout(1),
    });
    assert_eq!(r.unwrap_err(), SessionError::UnhandledTransition);
}

#[test]
fn test_pause_requests_never_share_a_generation() {
    let mut m = machine();
    let mut pause_tags: Vec<u64> = Vec::new();
    for _ in 0..3 {
        let cmds = m
            .process_event(InnerEvent::StateRequested {
                reason: RequestReason::Runner,
                generation: m.generation,
            })
            .unwrap();
        for cmd in &cmds {
            if let Command::IssuePause { generation } = cmd {
                pause_tags.push(*generation);
            }
        }
        // While the capture is in flight, further requests do nothing.
        let cmds = m
            .process_event(InnerEvent::StateRequested {
                reason: RequestReason::Watchdog,
                generation: m.generation,
            })
            .unwrap();
        assert!(cmds.is_empty());
        m.process_event(paused_event()).unwrap();
        m.process_event(InnerEvent::ActionAccepted {
            action: BrowserAction::Reload,
            timeout: Timeout(50),
        })
        .unwrap();
        m.process_event(InnerEvent::Resumed).unwrap();
        m.process_event(InnerEvent::ActionApplied {
            generation: m.generation,
        })
        .unwrap();
    }
    assert_eq!(pause_tags.len(), 3);
    for i in 0..pause_tags.len() {
        for j in (i + 1)..pause_tags.len() {
            assert!(pause_tags[i] < pause_tags[j]);
        }
    }
}
