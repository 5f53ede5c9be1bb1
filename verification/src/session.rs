//! The browser-session state machine.
//!
//! A noisy stream of debug-protocol events is linearised into exactly one
//! capture per quiescent point. The machine owns a generation counter that
//! discriminates stale asynchronous messages, and buffers console entries
//! and exceptions between captures. Every transition is a pure function
//! from machine and event to the next machine plus a list of commands for
//! the driver to perform (pause, resume, capture, timers); the driver feeds
//! the outcome of those commands back in as further events.

use vstd::prelude::*;

use crate::actions::{BrowserAction, Timeout};
use crate::state::{ConsoleEntry, Exception};

verus! {

/// Delay before a watchdog re-requests a state, in milliseconds.
pub const WATCHDOG_DELAY_MS: u64 = 30000;

#[derive(Clone, Copy, Debug, PartialEq, Eq, Structural)]
pub enum PauseReason {
    /// Our own `debugger.pause`: the only pause the machine accepts.
    Other,
    Exception,
    PromiseRejection,
    Unexpected,
}

#[derive(Clone, Copy, Debug, PartialEq, Eq, Structural)]
pub enum RequestReason {
    Loaded,
    Watchdog,
    ActionTimeout,
    BackForwardCacheRestore,
    Runner,
}

#[derive(Clone, Copy, Debug, PartialEq, Eq, Structural)]
pub enum NavigationType {
    Navigation,
    BackForwardCacheRestore,
}

/// A change reported by the browser's node tracking.
#[derive(Clone, Debug)]
pub enum NodeModification {
    ChildNodeInserted { parent: u64, child: u64 },
    ChildNodeCountUpdated { parent: u64, count: u64 },
    ChildNodeRemoved { parent: u64, child: u64 },
    AttributeModified { node: u64, name: String, value: String },
}

/// The inner alphabet of the machine, derived from debug-protocol events
/// and from the driver's own timers and channels.
#[derive(Debug)]
pub enum InnerEvent {
    StateRequested { reason: RequestReason, generation: u64 },
    Loaded,
    Paused { reason: PauseReason, call_frame_id: Option<String> },
    Resumed,
    FrameRequestedNavigation { frame: String, url: String },
    FrameNavigated { frame: String, nav_type: NavigationType },
    TargetDestroyed { target: String },
    NodeTreeModified(NodeModification),
    ConsoleEntry(ConsoleEntry),
    ExceptionThrown(Exception),
    ActionAccepted { action: BrowserAction, timeout: Timeout },
    ActionApplied { generation: u64 },
}

#[derive(Clone, Debug)]
pub enum Phase {
    Running,
    Pausing,
    Paused,
    Resuming { action: BrowserAction, timeout: Timeout },
    Acting,
    Navigating,
    Loading,
}

#[derive(Clone, Copy, Debug, PartialEq, Eq, Structural)]
pub enum SessionError {
    /// A pause whose reason is not our own `debugger.pause`.
    UnexpectedPauseReason,
    /// A breakpoint without a call frame to capture in.
    MissingCallFrame,
    /// The page target itself was destroyed.
    PageDestroyed,
    /// An event that has no transition from the current phase.
    UnhandledTransition,
}

/// What the driver must do after a transition.
#[derive(Debug)]
pub enum Command {
    /// Issue `debugger.pause` plus a no-op evaluation, forcing a breakpoint
    /// on the next turn of the page's event loop. Tagged with the
    /// generation that initiated the capture.
    IssuePause { generation: u64 },
    /// Keep the node side-cache coherent after an insertion or count change.
    RequestChildNodes { parent: u64 },
    /// Re-seed node tracking after a main-frame navigation.
    GetDocument,
    /// Mint a `BrowserState` in the given call frame, with exactly the
    /// buffered console entries and exceptions, and publish it.
    Capture {
        call_frame_id: String,
        console_entries: Vec<ConsoleEntry>,
        exceptions: Vec<Exception>,
        generation: u64,
    },
    /// Post `StateRequested(Watchdog, generation)` after the watchdog delay.
    ScheduleWatchdog { generation: u64, delay_ms: u64 },
    /// Issue `debugger.resume`.
    IssueResume,
    /// Apply the accepted action concurrently: it may throw synchronously
    /// and trigger another pause before it reports completion.
    ApplyAction { action: BrowserAction },
    /// Post `StateRequested(ActionTimeout, generation)` after the delay.
    ArmActionTimeout { generation: u64, delay_ms: u64 },
    /// Feed a fresh `StateRequested` back into the event stream.
    PostStateRequested { reason: RequestReason, generation: u64 },
}

/// The abstract form of a command: buffers as sequences.
pub enum CommandView {
    IssuePause { generation: u64 },
    RequestChildNodes { parent: u64 },
    GetDocument,
    Capture {
        call_frame_id: Seq<char>,
        console_entries: Seq<ConsoleEntry>,
        exceptions: Seq<Exception>,
        generation: u64,
    },
    ScheduleWatchdog { generation: u64, delay_ms: u64 },
    IssueResume,
    ApplyAction { action: BrowserAction },
    ArmActionTimeout { generation: u64, delay_ms: u64 },
    PostStateRequested { reason: RequestReason, generation: u64 },
}

impl Command {
    pub open spec fn view(&self) -> CommandView {
        match self {
            Command::IssuePause { generation } => CommandView::IssuePause {
                generation: *generation,
            },
            Command::RequestChildNodes { parent } => CommandView::RequestChildNodes {
                parent: *parent,
            },
            Command::GetDocument => CommandView::GetDocument,
            Command::Capture { call_frame_id, console_entries, exceptions, generation } => (
            CommandView::Capture {
                call_frame_id: call_frame_id@,
                console_entries: console_entries@,
                exceptions: exceptions@,
                generation: *generation,
            }),
            Command::ScheduleWatchdog { generation, delay_ms } => CommandView::ScheduleWatchdog {
                generation: *generation,
                delay_ms: *delay_ms,
            },
            Command::IssueResume => CommandView::IssueResume,
            Command::ApplyAction { action } => CommandView::ApplyAction { action: *action },
            Command::ArmActionTimeout { generation, delay_ms } => CommandView::ArmActionTimeout {
                generation: *generation,
                delay_ms: *delay_ms,
            },
            Command::PostStateRequested { reason, generation } => (
            CommandView::PostStateRequested { reason: *reason, generation: *generation }),
        }
    }
}

pub open spec fn command_views(cs: Seq<Command>) -> Seq<CommandView> {
    cs.map_values(|c: Command| c.view())
}

/// The abstract state of the machine.
pub struct SessionView {
    pub phase: Phase,
    pub generation: u64,
    pub console_entries: Seq<ConsoleEntry>,
    pub exceptions: Seq<Exception>,
    pub main_frame: Seq<char>,
    pub page_target: Seq<char>,
}

/// One transition's outcome: the next state and the commands to perform,
/// or a fatal error that ends the session.
pub enum StepView {
    Next { state: SessionView, commands: Seq<CommandView> },
    Fatal { error: SessionError },
}

/// Enter capture: issue a pause and bump the generation, atomically.
pub open spec fn spec_initiate_capture(s: SessionView) -> StepView {
    let new_gen = (s.generation + 1) as u64;
    StepView::Next {
        state: SessionView { phase: Phase::Pausing, generation: new_gen, ..s },
        commands: seq![CommandView::IssuePause { generation: new_gen }],
    }
}

/// Publish a capture: exactly the buffered entries leave, the buffers
/// restart empty, the generation is bumped, and a watchdog is scheduled.
pub open spec fn spec_publish(s: SessionView, call_frame_id: Seq<char>) -> StepView {
    let new_gen = (s.generation + 1) as u64;
    StepView::Next {
        state: SessionView {
            phase: Phase::Paused,
            generation: new_gen,
            console_entries: Seq::empty(),
            exceptions: Seq::empty(),
            ..s
        },
        commands: seq![
            CommandView::Capture {
                call_frame_id,
                console_entries: s.console_entries,
                exceptions: s.exceptions,
                generation: new_gen,
            },
            CommandView::ScheduleWatchdog { generation: new_gen, delay_ms: WATCHDOG_DELAY_MS },
        ],
    }
}

/// Node-cache follow-up work: insertions and count changes ask for the
/// children of the affected parent; removals and attribute changes do not.
pub open spec fn spec_expansion(m: NodeModification) -> Seq<CommandView> {
    match m {
        NodeModification::ChildNodeInserted { parent, .. } => seq![
            CommandView::RequestChildNodes { parent },
        ],
        NodeModification::ChildNodeCountUpdated { parent, .. } => seq![
            CommandView::RequestChildNodes { parent },
        ],
        NodeModification::ChildNodeRemoved { .. } => Seq::empty(),
        NodeModification::AttributeModified { .. } => Seq::empty(),
    }
}

/// The transition table.
pub open spec fn spec_step(s: SessionView, e: InnerEvent) -> StepView {
    match e {
        InnerEvent::StateRequested { reason, generation: g } => {
            if g != s.generation {
                // Stale request: a no-op (I4).
                StepView::Next { state: s, commands: Seq::empty() }
            } else if s.phase is Running {
                spec_initiate_capture(s)
            } else {
                StepView::Next { state: s, commands: Seq::empty() }
            }
        },
        InnerEvent::NodeTreeModified(m) => {
            let follow_up = spec_expansion(m);
            if s.phase is Running {
                match spec_initiate_capture(s) {
                    StepView::Next { state, commands } => StepView::Next {
                        state,
                        commands: follow_up + commands,
                    },
                    StepView::Fatal { error } => StepView::Fatal { error },
                }
            } else {
                StepView::Next { state: s, commands: follow_up }
            }
        },
        InnerEvent::Paused { reason, call_frame_id } => {
            if !(reason is Other) {
                StepView::Fatal { error: SessionError::UnexpectedPauseReason }
            } else {
                match call_frame_id {
                    Some(frame) => spec_publish(s, frame@),
                    None => StepView::Fatal { error: SessionError::MissingCallFrame },
                }
            }
        },
        InnerEvent::Resumed => {
            match s.phase {
                Phase::Resuming { action, timeout } => StepView::Next {
                    state: SessionView {
                        phase: Phase::Acting,
                        console_entries: Seq::empty(),
                        ..s
                    },
                    commands: seq![
                        CommandView::ApplyAction { action },
                        CommandView::ArmActionTimeout {
                            generation: s.generation,
                            delay_ms: timeout.0,
                        },
                    ],
                },
                Phase::Running => StepView::Next {
                    state: SessionView { console_entries: Seq::empty(), ..s },
                    commands: Seq::empty(),
                },
                _ => StepView::Fatal { error: SessionError::UnhandledTransition },
            }
        },
        InnerEvent::ActionAccepted { action, timeout } => {
            match s.phase {
                Phase::Paused => StepView::Next {
                    state: SessionView { phase: Phase::Resuming { action, timeout }, ..s },
                    commands: seq![CommandView::IssueResume],
                },
                _ => StepView::Fatal { error: SessionError::UnhandledTransition },
            }
        },
        InnerEvent::ActionApplied { generation: g } => {
            if s.phase is Acting && g == s.generation {
                StepView::Next {
                    state: SessionView { phase: Phase::Running, ..s },
                    commands: Seq::empty(),
                }
            } else {
                // A completion from a superseded action: a no-op.
                StepView::Next { state: s, commands: Seq::empty() }
            }
        },
        InnerEvent::Loaded => StepView::Next {
            state: SessionView { phase: Phase::Running, ..s },
            commands: seq![
                CommandView::PostStateRequested {
                    reason: RequestReason::Loaded,
                    generation: s.generation,
                },
            ],
        },
        InnerEvent::FrameRequestedNavigation { frame, url } => {
            if frame@ == s.main_frame {
                StepView::Next {
                    state: SessionView { phase: Phase::Navigating, ..s },
                    commands: Seq::empty(),
                }
            } else {
                StepView::Next { state: s, commands: Seq::empty() }
            }
        },
        InnerEvent::FrameNavigated { frame, nav_type } => {
            if frame@ == s.main_frame {
                match nav_type {
                    NavigationType::Navigation => StepView::Next {
                        state: SessionView {
                            phase: Phase::Loading,
                            console_entries: Seq::empty(),
                            ..s
                        },
                        commands: seq![CommandView::GetDocument],
                    },
                    NavigationType::BackForwardCacheRestore => StepView::Next {
                        state: SessionView {
                            phase: Phase::Running,
                            console_entries: Seq::empty(),
                            ..s
                        },
                        commands: seq![
                            CommandView::GetDocument,
                            CommandView::PostStateRequested {
                                reason: RequestReason::BackForwardCacheRestore,
                                generation: s.generation,
                            },
                        ],
                    },
                }
            } else {
                StepView::Next { state: s, commands: Seq::empty() }
            }
        },
        InnerEvent::TargetDestroyed { target } => {
            if target@ == s.page_target {
                StepView::Fatal { error: SessionError::PageDestroyed }
            } else {
                StepView::Next { state: s, commands: Seq::empty() }
            }
        },
        InnerEvent::ConsoleEntry(entry) => {
            if s.phase is Navigating {
                // A new document is coming: the buffer restarts.
                StepView::Next {
                    state: SessionView { console_entries: Seq::empty(), ..s },
                    commands: Seq::empty(),
                }
            } else {
                StepView::Next {
                    state: SessionView {
                        console_entries: s.console_entries.push(entry),
                        ..s
                    },
                    commands: Seq::empty(),
                }
            }
        },
        InnerEvent::ExceptionThrown(exception) => {
            let buffered = SessionView {
                exceptions: s.exceptions.push(exception),
                ..s
            };
            if s.phase is Running {
                spec_initiate_capture(buffered)
            } else {
                StepView::Next { state: buffered, commands: Seq::empty() }
            }
        },
    }
}

/// The session machine as the driver holds it.
#[derive(Debug)]
pub struct SessionMachine {
    pub phase: Phase,
    pub generation: u64,
    pub console_entries: Vec<ConsoleEntry>,
    pub exceptions: Vec<Exception>,
    pub main_frame: String,
    pub page_target: String,
}

impl SessionMachine {
    pub open spec fn view(&self) -> SessionView {
        SessionView {
            phase: self.phase,
            generation: self.generation,
            console_entries: self.console_entries@,
            exceptions: self.exceptions@,
            main_frame: self.main_frame@,
            page_target: self.page_target@,
        }
    }

    pub fn new(main_frame: String, page_target: String) -> (r: SessionMachine)
        ensures
            r@.phase is Running,
            r@.generation == 0,
            r@.console_entries == Seq::<ConsoleEntry>::empty(),
            r@.exceptions == Seq::<Exception>::empty(),
            r@.main_frame == main_frame@,
            r@.page_target == page_target@,
    {
        SessionMachine {
            phase: Phase::Running,
            generation: 0,
            console_entries: Vec::new(),
            exceptions: Vec::new(),
            main_frame,
            page_target,
        }
    }

    fn initiate_capture(&mut self) -> (cmds: Vec<Command>)
        requires
            old(self).generation < u64::MAX,
        ensures
            spec_initiate_capture(old(self)@) == (StepView::Next {
                state: final(self)@,
                commands: command_views(cmds@),
            }),
    {
        self.generation = self.generation + 1;
        self.phase = Phase::Pausing;
        let mut cmds: Vec<Command> = Vec::new();
        cmds.push(Command::IssuePause { generation: self.generation });
        proof {
            assert(command_views(cmds@) =~= seq![
                CommandView::IssuePause { generation: self@.generation },
            ]);
        }
        cmds
    }

    /// Process one inner event: the transition table of `spec_step`,
    /// performed on the machine in place.
    pub fn process_event(&mut self, event: InnerEvent) -> (r: Result<
        Vec<Command>,
        SessionError,
    >)
        requires
            old(self).generation < u64::MAX,
        ensures
            match spec_step(old(self)@, event) {
                StepView::Next { state, commands } => {
                    &&& r matches Ok(cmds) && command_views(cmds@) == commands
                    &&& final(self)@ == state
                },
                StepView::Fatal { error } => {
                    &&& r matches Err(e) && e == error
                    &&& final(self)@ == old(self)@
                },
            },
    {
        let ghost s0 = self@;
        match event {
            InnerEvent::StateRequested { reason, generation: g } => {
                if g != self.generation {
                    Ok(Vec::new())
                } else if matches!(self.phase, Phase::Running) {
                    Ok(self.initiate_capture())
                } else {
                    Ok(Vec::new())
                }
            },
            InnerEvent::NodeTreeModified(m) => {
                let mut cmds: Vec<Command> = Vec::new();
                match &m {
                    NodeModification::ChildNodeInserted { parent, .. } => {
                        cmds.push(Command::RequestChildNodes { parent: *parent });
                    },
                    NodeModification::ChildNodeCountUpdated { parent, .. } => {
                        cmds.push(Command::RequestChildNodes { parent: *parent });
                    },
                    NodeModification::ChildNodeRemoved { .. } => {},
                    NodeModification::AttributeModified { .. } => {},
                }
                proof {
                    assert(command_views(cmds@) =~= spec_expansion(m));
                }
                if matches!(self.phase, Phase::Running) {
                    let ghost before = command_views(cmds@);
                    let mut more = self.initiate_capture();
                    let ghost more_views = command_views(more@);
                    cmds.append(&mut more);
                    proof {
                        assert(command_views(cmds@) =~= before + more_views);
                    }
                    Ok(cmds)
                } else {
                    Ok(cmds)
                }
            },
            InnerEvent::Paused { reason, call_frame_id } => {
                if !matches!(reason, PauseReason::Other) {
                    Err(SessionError::UnexpectedPauseReason)
                } else {
                    match call_frame_id {
                        Some(frame) => {
                            self.generation = self.generation + 1;
                            self.phase = Phase::Paused;
                            let mut drained_console: Vec<ConsoleEntry> = Vec::new();
                            core::mem::swap(&mut drained_console, &mut self.console_entries);
                            let mut drained_exceptions: Vec<Exception> = Vec::new();
                            core::mem::swap(&mut drained_exceptions, &mut self.exceptions);
                            let mut cmds: Vec<Command> = Vec::new();
                            let ghost frame_view = frame@;
                            let ghost console_view = drained_console@;
                            let ghost exceptions_view = drained_exceptions@;
                            cmds.push(Command::Capture {
                                call_frame_id: frame,
                                console_entries: drained_console,
                                exceptions: drained_exceptions,
                                generation: self.generation,
                            });
                            cmds.push(Command::ScheduleWatchdog {
                                generation: self.generation,
                                delay_ms: WATCHDOG_DELAY_MS,
                            });
                            proof {
                                assert(command_views(cmds@) =~= seq![
                                    CommandView::Capture {
                                        call_frame_id: frame_view,
                                        console_entries: console_view,
                                        exceptions: exceptions_view,
                                        generation: self@.generation,
                                    },
                                    CommandView::ScheduleWatchdog {
                                        generation: self@.generation,
                                        delay_ms: WATCHDOG_DELAY_MS,
                                    },
                                ]);
                            }
                            Ok(cmds)
                        },
                        None => Err(SessionError::MissingCallFrame),
                    }
                }
            },
            InnerEvent::Resumed => {
                let mut phase = Phase::Running;
                core::mem::swap(&mut phase, &mut self.phase);
                match phase {
                    Phase::Resuming { action, timeout } => {
                        self.phase = Phase::Acting;
                        self.console_entries = Vec::new();
                        let mut cmds: Vec<Command> = Vec::new();
                        let ghost action_view = action;
                        cmds.push(Command::ApplyAction { action });
                        cmds.push(Command::ArmActionTimeout {
                            generation: self.generation,
                            delay_ms: timeout.0,
                        });
                        proof {
                            assert(command_views(cmds@) =~= seq![
                                CommandView::ApplyAction { action: action_view },
                                CommandView::ArmActionTimeout {
                                    generation: self@.generation,
                                    delay_ms: timeout.0,
                                },
                            ]);
                        }
                        Ok(cmds)
                    },
                    Phase::Running => {
                        self.phase = Phase::Running;
                        self.console_entries = Vec::new();
                        Ok(Vec::new())
                    },
                    other => {
                        self.phase = other;
                        Err(SessionError::UnhandledTransition)
                    },
                }
            },
            InnerEvent::ActionAccepted { action, timeout } => {
                if matches!(self.phase, Phase::Paused) {
                    self.phase = Phase::Resuming { action, timeout };
                    let mut cmds: Vec<Command> = Vec::new();
                    cmds.push(Command::IssueResume);
                    proof {
                        assert(command_views(cmds@) =~= seq![CommandView::IssueResume]);
                    }
                    Ok(cmds)
                } else {
                    Err(SessionError::UnhandledTransition)
                }
            },
            InnerEvent::ActionApplied { generation: g } => {
                if matches!(self.phase, Phase::Acting) && g == self.generation {
                    self.phase = Phase::Running;
                }
                Ok(Vec::new())
            },
            InnerEvent::Loaded => {
                self.phase = Phase::Running;
                let mut cmds: Vec<Command> = Vec::new();
                cmds.push(Command::PostStateRequested {
                    reason: RequestReason::Loaded,
                    generation: self.generation,
                });
                proof {
                    assert(command_views(cmds@) =~= seq![
                        CommandView::PostStateRequested {
                            reason: RequestReason::Loaded,
                            generation: self@.generation,
                        },
                    ]);
                }
                Ok(cmds)
            },
            InnerEvent::FrameRequestedNavigation { frame, url } => {
                if frame == self.main_frame {
                    self.phase = Phase::Navigating;
                }
                Ok(Vec::new())
            },
            InnerEvent::FrameNavigated { frame, nav_type } => {
                if frame == self.main_frame {
                    let mut cmds: Vec<Command> = Vec::new();
                    cmds.push(Command::GetDocument);
                    match nav_type {
                        NavigationType::Navigation => {
                            self.phase = Phase::Loading;
                            self.console_entries = Vec::new();
                            proof {
                                assert(command_views(cmds@) =~= seq![CommandView::GetDocument]);
                            }
                        },
                        NavigationType::BackForwardCacheRestore => {
                            self.phase = Phase::Running;
                            self.console_entries = Vec::new();
                            cmds.push(Command::PostStateRequested {
                                reason: RequestReason::BackForwardCacheRestore,
                                generation: self.generation,
                            });
                            proof {
                                assert(command_views(cmds@) =~= seq![
                                    CommandView::GetDocument,
                                    CommandView::PostStateRequested {
                                        reason: RequestReason::BackForwardCacheRestore,
                                        generation: self@.generation,
                                    },
                                ]);
                            }
                        },
                    }
                    Ok(cmds)
                } else {
                    Ok(Vec::new())
                }
            },
            InnerEvent::TargetDestroyed { target } => {
                if target == self.page_target {
                    Err(SessionError::PageDestroyed)
                } else {
                    Ok(Vec::new())
                }
            },
            InnerEvent::ConsoleEntry(entry) => {
                if matches!(self.phase, Phase::Navigating) {
                    self.console_entries = Vec::new();
                } else {
                    self.console_entries.push(entry);
                }
                Ok(Vec::new())
            },
            InnerEvent::ExceptionThrown(exception) => {
                self.exceptions.push(exception);
                if matches!(self.phase, Phase::Running) {
                    Ok(self.initiate_capture())
                } else {
                    Ok(Vec::new())
                }
            },
        }
    }
}

/// Sequences of generation tags and published buffers drawn from a command
/// stream, used to state the machine's trace laws.
pub open spec fn cap_of(c: CommandView) -> Seq<u64> {
    match c {
        CommandView::Capture { generation, .. } => seq![generation],
        _ => Seq::empty(),
    }
}

pub open spec fn capture_gens(cs: Seq<CommandView>) -> Seq<u64>
    decreases cs.len(),
{
    if cs.len() == 0 {
        Seq::empty()
    } else {
        cap_of(cs[0]) + capture_gens(cs.drop_first())
    }
}

pub open spec fn pause_of(c: CommandView) -> Seq<u64> {
    match c {
        CommandView::IssuePause { generation } => seq![generation],
        _ => Seq::empty(),
    }
}

pub open spec fn pause_gens(cs: Seq<CommandView>) -> Seq<u64>
    decreases cs.len(),
{
    if cs.len() == 0 {
        Seq::empty()
    } else {
        pause_of(cs[0]) + pause_gens(cs.drop_first())
    }
}

pub open spec fn console_of(c: CommandView) -> Seq<ConsoleEntry> {
    match c {
        CommandView::Capture { console_entries, .. } => console_entries,
        _ => Seq::empty(),
    }
}

pub open spec fn published_console(cs: Seq<CommandView>) -> Seq<ConsoleEntry>
    decreases cs.len(),
{
    if cs.len() == 0 {
        Seq::empty()
    } else {
        console_of(cs[0]) + published_console(cs.drop_first())
    }
}

pub open spec fn exceptions_of(c: CommandView) -> Seq<Exception> {
    match c {
        CommandView::Capture { exceptions, .. } => exceptions,
        _ => Seq::empty(),
    }
}

pub open spec fn published_exceptions(cs: Seq<CommandView>) -> Seq<Exception>
    decreases cs.len(),
{
    if cs.len() == 0 {
        Seq::empty()
    } else {
        exceptions_of(cs[0]) + published_exceptions(cs.drop_first())
    }
}

/// The console entries and exceptions the event stream delivers.
pub open spec fn appended_of(e: InnerEvent) -> Seq<ConsoleEntry> {
    match e {
        InnerEvent::ConsoleEntry(entry) => seq![entry],
        _ => Seq::empty(),
    }
}

pub open spec fn thrown_of(e: InnerEvent) -> Seq<Exception> {
    match e {
        InnerEvent::ExceptionThrown(exception) => seq![exception],
        _ => Seq::empty(),
    }
}

/// A whole run of the machine: fold the transition table over an event
/// sequence, concatenating the commands. A fatal transition ends the run.
pub struct RunView {
    pub state: SessionView,
    pub commands: Seq<CommandView>,
    pub failed: bool,
}

pub open spec fn spec_run(s: SessionView, events: Seq<InnerEvent>) -> RunView
    decreases events.len(),
{
    if events.len() == 0 {
        RunView { state: s, commands: Seq::empty(), failed: false }
    } else {
        match spec_step(s, events[0]) {
            StepView::Next { state, commands } => {
                let rest = spec_run(state, events.drop_first());
                RunView {
                    state: rest.state,
                    commands: commands + rest.commands,
                    failed: rest.failed,
                }
            },
            StepView::Fatal { error } => RunView { state: s, commands: Seq::empty(), failed: true },
        }
    }
}

proof fn lemma_filters_distribute(a: Seq<CommandView>, b: Seq<CommandView>)
    ensures
        capture_gens(a + b) == capture_gens(a) + capture_gens(b),
        pause_gens(a + b) == pause_gens(a) + pause_gens(b),
        published_console(a + b) == published_console(a) + published_console(b),
        published_exceptions(a + b) == published_exceptions(a) + published_exceptions(b),
    decreases a.len(),
{
    if a.len() == 0 {
        assert(a + b =~= b);
        assert(capture_gens(a) + capture_gens(b) =~= capture_gens(b));
        assert(pause_gens(a) + pause_gens(b) =~= pause_gens(b));
        assert(published_console(a) + published_console(b) =~= published_console(b));
        assert(published_exceptions(a) + published_exceptions(b) =~= published_exceptions(b));
    } else {
        lemma_filters_distribute(a.drop_first(), b);
        assert((a + b).drop_first() =~= a.drop_first() + b);
        assert((a + b)[0] == a[0]);
        assert(capture_gens(a + b) =~= capture_gens(a) + capture_gens(b));
        assert(pause_gens(a + b) =~= pause_gens(a) + pause_gens(b));
        assert(published_console(a + b) =~= published_console(a) + published_console(b));
        assert(published_exceptions(a + b) =~= published_exceptions(a) + published_exceptions(b));
    }
}

proof fn lemma_filters_one(c: CommandView)
    ensures
        capture_gens(seq![c]) == cap_of(c),
        pause_gens(seq![c]) == pause_of(c),
        published_console(seq![c]) == console_of(c),
        published_exceptions(seq![c]) == exceptions_of(c),
{
    assert(seq![c].drop_first() =~= Seq::<CommandView>::empty());
    assert(capture_gens(Seq::<CommandView>::empty()) =~= Seq::<u64>::empty());
    assert(pause_gens(Seq::<CommandView>::empty()) =~= Seq::<u64>::empty());
    assert(published_console(Seq::<CommandView>::empty()) =~= Seq::<ConsoleEntry>::empty());
    assert(published_exceptions(Seq::<CommandView>::empty()) =~= Seq::<Exception>::empty());
    assert(capture_gens(seq![c]) =~= cap_of(c));
    assert(pause_gens(seq![c]) =~= pause_of(c));
    assert(published_console(seq![c]) =~= console_of(c));
    assert(published_exceptions(seq![c]) =~= exceptions_of(c));
}

proof fn lemma_filters_two(c: CommandView, d: CommandView)
    ensures
        capture_gens(seq![c, d]) == cap_of(c) + cap_of(d),
        pause_gens(seq![c, d]) == pause_of(c) + pause_of(d),
        published_console(seq![c, d]) == console_of(c) + console_of(d),
        published_exceptions(seq![c, d]) == exceptions_of(c) + exceptions_of(d),
{
    lemma_filters_one(d);
    assert(seq![c, d].drop_first() =~= seq![d]);
    assert(capture_gens(seq![c, d]) =~= cap_of(c) + cap_of(d));
    assert(pause_gens(seq![c, d]) =~= pause_of(c) + pause_of(d));
    assert(published_console(seq![c, d]) =~= console_of(c) + console_of(d));
    assert(published_exceptions(seq![c, d]) =~= exceptions_of(c) + exceptions_of(d));
}

/// What any single transition can do to generations and buffers:
/// the generation never decreases and grows by at most one; a step issues
/// at most one pause and publishes at most one capture, both tagged with
/// the fresh generation; published buffers are exactly the old buffers.
pub proof fn lemma_step_accounting(s: SessionView, e: InnerEvent)
    requires
        s.generation < u64::MAX,
    ensures
        match spec_step(s, e) {
            StepView::Next { state, commands } => {
                &&& s.generation <= state.generation <= s.generation + 1
                &&& state.main_frame == s.main_frame && state.page_target == s.page_target
                &&& (capture_gens(commands) == Seq::<u64>::empty() || (capture_gens(commands)
                    == seq![(s.generation + 1) as u64] && state.generation == s.generation + 1))
                &&& (pause_gens(commands) == Seq::<u64>::empty() || (pause_gens(commands)
                    == seq![(s.generation + 1) as u64] && state.generation == s.generation + 1))
                &&& published_exceptions(commands) + state.exceptions == s.exceptions + thrown_of(
                    e,
                )
                &&& {
                    ||| (published_console(commands) == Seq::<ConsoleEntry>::empty()
                        && state.console_entries == s.console_entries + appended_of(e))
                    ||| (published_console(commands) == Seq::<ConsoleEntry>::empty()
                        && state.console_entries == Seq::<ConsoleEntry>::empty())
                    ||| (published_console(commands) == s.console_entries && state.console_entries
                        == Seq::<ConsoleEntry>::empty() && appended_of(e) == Seq::<
                        ConsoleEntry,
                    >::empty())
                }
            },
            StepView::Fatal { error } => true,
        },
{
    let empty_cmds = Seq::<CommandView>::empty();
    assert(capture_gens(empty_cmds) == Seq::<u64>::empty());
    assert(pause_gens(empty_cmds) == Seq::<u64>::empty());
    assert(published_console(empty_cmds) == Seq::<ConsoleEntry>::empty());
    assert(published_exceptions(empty_cmds) == Seq::<Exception>::empty());
    match spec_step(s, e) {
        StepView::Next { state, commands } => {
            match e {
                InnerEvent::StateRequested { reason, generation: g } => {
                    if g == s.generation && s.phase is Running {
                        lemma_filters_one(commands[0]);
                        assert(commands =~= seq![commands[0]]);
                    }
                    assert(s.console_entries + appended_of(e) =~= s.console_entries);
                    assert(s.exceptions + thrown_of(e) =~= s.exceptions);
                },
                InnerEvent::NodeTreeModified(m) => {
                    let follow_up = spec_expansion(m);
                    if s.phase is Running {
                        match spec_initiate_capture(s) {
                            StepView::Next { state: st2, commands: cs2 } => {
                                lemma_filters_distribute(follow_up, cs2);
                                lemma_filters_one(cs2[0]);
                                assert(cs2 =~= seq![cs2[0]]);
                                match m {
                                    NodeModification::ChildNodeInserted { parent, .. } => {
                                        lemma_filters_one(follow_up[0]);
                                        assert(follow_up =~= seq![follow_up[0]]);
                                    },
                                    NodeModification::ChildNodeCountUpdated { parent, .. } => {
                                        lemma_filters_one(follow_up[0]);
                                        assert(follow_up =~= seq![follow_up[0]]);
                                    },
                                    _ => {},
                                }
                                assert(pause_gens(commands) =~= seq![(s.generation + 1) as u64]);
                                assert(capture_gens(commands) =~= Seq::<u64>::empty());
                                assert(published_console(commands) =~= Seq::<
                                    ConsoleEntry,
                                >::empty());
                                assert(published_exceptions(commands) =~= Seq::<
                                    Exception,
                                >::empty());
                            },
                            StepView::Fatal { .. } => {},
                        }
                    } else {
                        match m {
                            NodeModification::ChildNodeInserted { parent, .. } => {
                                lemma_filters_one(follow_up[0]);
                                assert(follow_up =~= seq![follow_up[0]]);
                            },
                            NodeModification::ChildNodeCountUpdated { parent, .. } => {
                                lemma_filters_one(follow_up[0]);
                                assert(follow_up =~= seq![follow_up[0]]);
                            },
                            _ => {},
                        }
                    }
                    assert(s.console_entries + appended_of(e) =~= s.console_entries);
                    assert(s.exceptions + thrown_of(e) =~= s.exceptions);
                },
                InnerEvent::Paused { reason, call_frame_id } => {
                    if reason is Other && call_frame_id is Some {
                        lemma_filters_two(commands[0], commands[1]);
                        assert(commands =~= seq![commands[0], commands[1]]);
                        assert(published_exceptions(commands) =~= s.exceptions);
                        assert(published_console(commands) =~= s.console_entries);
                        assert(published_exceptions(commands) + state.exceptions =~= s.exceptions
                            + thrown_of(e));
                        assert(appended_of(e) =~= Seq::<ConsoleEntry>::empty());
                        assert(capture_gens(commands) =~= seq![(s.generation + 1) as u64]);
                        assert(pause_gens(commands) =~= Seq::<u64>::empty());
                    }
                },
                InnerEvent::Resumed => {
                    match s.phase {
                        Phase::Resuming { action, timeout } => {
                            lemma_filters_two(commands[0], commands[1]);
                            assert(commands =~= seq![commands[0], commands[1]]);
                            assert(capture_gens(commands) =~= Seq::<u64>::empty());
                            assert(pause_gens(commands) =~= Seq::<u64>::empty());
                            assert(published_console(commands) =~= Seq::<ConsoleEntry>::empty());
                            assert(published_exceptions(commands) =~= Seq::<Exception>::empty());
                        },
                        _ => {},
                    }
                    assert(s.exceptions + thrown_of(e) =~= s.exceptions);
                },
                InnerEvent::ActionAccepted { action, timeout } => {
                    if s.phase is Paused {
                        lemma_filters_one(commands[0]);
                        assert(commands =~= seq![commands[0]]);
                    }
                    assert(s.console_entries + appended_of(e) =~= s.console_entries);
                    assert(s.exceptions + thrown_of(e) =~= s.exceptions);
                },
                InnerEvent::ActionApplied { generation: g } => {
                    assert(s.console_entries + appended_of(e) =~= s.console_entries);
                    assert(s.exceptions + thrown_of(e) =~= s.exceptions);
                },
                InnerEvent::Loaded => {
                    lemma_filters_one(commands[0]);
                    assert(commands =~= seq![commands[0]]);
                    assert(s.console_entries + appended_of(e) =~= s.console_entries);
                    assert(s.exceptions + thrown_of(e) =~= s.exceptions);
                },
                InnerEvent::FrameRequestedNavigation { frame, url } => {
                    assert(s.console_entries + appended_of(e) =~= s.console_entries);
                    assert(s.exceptions + thrown_of(e) =~= s.exceptions);
                },
                InnerEvent::FrameNavigated { frame, nav_type } => {
                    if frame@ == s.main_frame {
                        match nav_type {
                            NavigationType::Navigation => {
                                lemma_filters_one(commands[0]);
                                assert(commands =~= seq![commands[0]]);
                            },
                            NavigationType::BackForwardCacheRestore => {
                                lemma_filters_two(commands[0], commands[1]);
                                assert(commands =~= seq![commands[0], commands[1]]);
                            },
                        }
                    }
                    assert(s.console_entries + appended_of(e) =~= s.console_entries);
                    assert(s.exceptions + thrown_of(e) =~= s.exceptions);
                },
                InnerEvent::TargetDestroyed { target } => {
                    assert(s.console_entries + appended_of(e) =~= s.console_entries);
                    assert(s.exceptions + thrown_of(e) =~= s.exceptions);
                },
                InnerEvent::ConsoleEntry(entry) => {
                    if !(s.phase is Navigating) {
                        assert(state.console_entries =~= s.console_entries + appended_of(e));
                    }
                    assert(s.exceptions + thrown_of(e) =~= s.exceptions);
                },
                InnerEvent::ExceptionThrown(exception) => {
                    if s.phase is Running {
                        lemma_filters_one(commands[0]);
                        assert(commands =~= seq![commands[0]]);
                    }
                    assert(state.exceptions =~= s.exceptions + thrown_of(e));
                    assert(s.console_entries + appended_of(e) =~= s.console_entries);
                },
            }
        },
        StepView::Fatal { error } => {},
    }
}

/// Stale-request drop: a `StateRequested` whose generation is not current
/// leaves the machine unchanged and performs nothing.
pub proof fn lemma_stale_request_is_noop(s: SessionView, reason: RequestReason, g: u64)
    requires
        g != s.generation,
    ensures
        spec_step(s, InnerEvent::StateRequested { reason, generation: g }) == (StepView::Next {
            state: s,
            commands: Seq::<CommandView>::empty(),
        }),
{
}

pub open spec fn thrown_exceptions(events: Seq<InnerEvent>) -> Seq<Exception>
    decreases events.len(),
{
    if events.len() == 0 {
        Seq::empty()
    } else {
        thrown_of(events[0]) + thrown_exceptions(events.drop_first())
    }
}

pub open spec fn appended_console(events: Seq<InnerEvent>) -> Seq<ConsoleEntry>
    decreases events.len(),
{
    if events.len() == 0 {
        Seq::empty()
    } else {
        appended_of(events[0]) + appended_console(events.drop_first())
    }
}

/// Generation monotonicity and single-flight pausing: over any run, the
/// generation never decreases, every published capture and every issued
/// pause carries a tag above the starting generation and at most the final
/// one, and those tags strictly increase — so no two captures share a
/// generation and no generation sees a second pause request.
pub proof fn lemma_generation_monotonicity(s: SessionView, events: Seq<InnerEvent>)
    requires
        s.generation + events.len() <= u64::MAX,
    ensures
        ({
            let run = spec_run(s, events);
            let caps = capture_gens(run.commands);
            let pauses = pause_gens(run.commands);
            &&& s.generation <= run.state.generation <= s.generation + events.len()
            &&& forall|i: int|
                0 <= i < caps.len() ==> s.generation < #[trigger] caps[i]
                    <= run.state.generation
            &&& forall|i: int, j: int| 0 <= i < j < caps.len() ==> caps[i] < caps[j]
            &&& forall|i: int|
                0 <= i < pauses.len() ==> s.generation < #[trigger] pauses[i]
                    <= run.state.generation
            &&& forall|i: int, j: int| 0 <= i < j < pauses.len() ==> pauses[i] < pauses[j]
        }),
    decreases events.len(),
{
    let run = spec_run(s, events);
    if events.len() == 0 {
        assert(capture_gens(run.commands) =~= Seq::<u64>::empty());
        assert(pause_gens(run.commands) =~= Seq::<u64>::empty());
    } else {
        lemma_step_accounting(s, events[0]);
        match spec_step(s, events[0]) {
            StepView::Next { state, commands } => {
                let rest = spec_run(state, events.drop_first());
                lemma_generation_monotonicity(state, events.drop_first());
                lemma_filters_distribute(commands, rest.commands);
                let c0 = capture_gens(commands);
                let crest = capture_gens(rest.commands);
                let caps = capture_gens(run.commands);
                assert(caps == c0 + crest);
                assert forall|i: int|
                    0 <= i < caps.len() implies s.generation < #[trigger] caps[i]
                        <= run.state.generation by {
                    if i < c0.len() {
                        assert(caps[i] == c0[i]);
                    } else {
                        assert(caps[i] == crest[i - c0.len()]);
                    }
                }
                assert forall|i: int, j: int| 0 <= i < j < caps.len() implies caps[i]
                    < caps[j] by {
                    if j < c0.len() {
                        assert(false);
                    } else if i < c0.len() {
                        assert(caps[i] == c0[i]);
                        assert(caps[j] == crest[j - c0.len()]);
                        assert(caps[i] <= state.generation);
                        assert(state.generation < crest[j - c0.len()]);
                    } else {
                        assert(caps[i] == crest[i - c0.len()]);
                        assert(caps[j] == crest[j - c0.len()]);
                    }
                }
                let p0 = pause_gens(commands);
                let prest = pause_gens(rest.commands);
                let pauses = pause_gens(run.commands);
                assert(pauses == p0 + prest);
                assert forall|i: int|
                    0 <= i < pauses.len() implies s.generation < #[trigger] pauses[i]
                        <= run.state.generation by {
                    if i < p0.len() {
                        assert(pauses[i] == p0[i]);
                    } else {
                        assert(pauses[i] == prest[i - p0.len()]);
                    }
                }
                assert forall|i: int, j: int| 0 <= i < j < pauses.len() implies pauses[i]
                    < pauses[j] by {
                    if j < p0.len() {
                        assert(false);
                    } else if i < p0.len() {
                        assert(pauses[i] == p0[i]);
                        assert(pauses[j] == prest[j - p0.len()]);
                        assert(pauses[i] <= state.generation);
                        assert(state.generation < prest[j - p0.len()]);
                    } else {
                        assert(pauses[i] == prest[i - p0.len()]);
                        assert(pauses[j] == prest[j - p0.len()]);
                    }
                }
            },
            StepView::Fatal { error } => {
                assert(capture_gens(run.commands) =~= Seq::<u64>::empty());
                assert(pause_gens(run.commands) =~= Seq::<u64>::empty());
            },
        }
    }
}

/// Exceptions are reported exactly once: over any non-fatal run, the
/// exceptions published by captures followed by what is still buffered are
/// exactly the starting buffer followed by every exception the stream
/// delivered, in order.
pub proof fn lemma_exceptions_reported_exactly_once(s: SessionView, events: Seq<InnerEvent>)
    requires
        s.generation + events.len() <= u64::MAX,
    ensures
        ({
            let run = spec_run(s, events);
            !run.failed ==> published_exceptions(run.commands) + run.state.exceptions
                == s.exceptions + thrown_exceptions(events)
        }),
    decreases events.len(),
{
    let run = spec_run(s, events);
    if events.len() == 0 {
        assert(published_exceptions(run.commands) =~= Seq::<Exception>::empty());
        assert(published_exceptions(run.commands) + run.state.exceptions =~= s.exceptions
            + thrown_exceptions(events));
    } else {
        lemma_step_accounting(s, events[0]);
        match spec_step(s, events[0]) {
            StepView::Next { state, commands } => {
                let rest = spec_run(state, events.drop_first());
                lemma_exceptions_reported_exactly_once(state, events.drop_first());
                lemma_filters_distribute(commands, rest.commands);
                if !run.failed {
                    let p0 = published_exceptions(commands);
                    let prest = published_exceptions(rest.commands);
                    assert(published_exceptions(run.commands) == p0 + prest);
                    assert(p0 + state.exceptions == s.exceptions + thrown_of(events[0]));
                    assert(prest + rest.state.exceptions == state.exceptions + thrown_exceptions(
                        events.drop_first(),
                    ));
                    assert((p0 + prest) + rest.state.exceptions =~= p0 + (prest
                        + rest.state.exceptions));
                    assert(p0 + (state.exceptions + thrown_exceptions(events.drop_first())) =~= (p0
                        + state.exceptions) + thrown_exceptions(events.drop_first()));
                    assert((s.exceptions + thrown_of(events[0])) + thrown_exceptions(
                        events.drop_first(),
                    ) =~= s.exceptions + (thrown_of(events[0]) + thrown_exceptions(
                        events.drop_first(),
                    )));
                }
            },
            StepView::Fatal { error } => {},
        }
    }
}

/// `a` embeds in `b` keeping order: the subsequence relation.
pub open spec fn is_subseq<A>(a: Seq<A>, b: Seq<A>) -> bool
    decreases b.len(),
{
    if a.len() == 0 {
        true
    } else if b.len() == 0 {
        false
    } else {
        (a[0] == b[0] && is_subseq(a.drop_first(), b.drop_first())) || is_subseq(a, b.drop_first())
    }
}

pub proof fn lemma_subseq_refl<A>(a: Seq<A>)
    ensures
        is_subseq(a, a),
    decreases a.len(),
{
    if a.len() > 0 {
        lemma_subseq_refl(a.drop_first());
    }
}

pub proof fn lemma_subseq_prepend_right<A>(x: Seq<A>, a: Seq<A>, b: Seq<A>)
    requires
        is_subseq(x, b),
    ensures
        is_subseq(x, a + b),
    decreases a.len(),
{
    if a.len() == 0 {
        assert(a + b =~= b);
    } else {
        lemma_subseq_prepend_right(x, a.drop_first(), b);
        assert((a + b).drop_first() =~= a.drop_first() + b);
        assert((a + b).len() > 0);
    }
}

pub proof fn lemma_subseq_prefix_both<A>(c: Seq<A>, x: Seq<A>, y: Seq<A>)
    requires
        is_subseq(x, y),
    ensures
        is_subseq(c + x, c + y),
    decreases c.len(),
{
    if c.len() == 0 {
        assert(c + x =~= x);
        assert(c + y =~= y);
    } else {
        lemma_subseq_prefix_both(c.drop_first(), x, y);
        assert((c + x).drop_first() =~= c.drop_first() + x);
        assert((c + y).drop_first() =~= c.drop_first() + y);
        assert((c + x)[0] == c[0]);
        assert((c + y)[0] == c[0]);
    }
}

/// No console entry is reported twice: over any non-fatal run, what the
/// captures published followed by what is still buffered embeds, in order,
/// in the starting buffer followed by the entries the stream delivered.
/// (Entries buffered while the page resumes or navigates away are dropped
/// deliberately, so the embedding can be strict.)
pub proof fn lemma_console_reported_at_most_once(s: SessionView, events: Seq<InnerEvent>)
    requires
        s.generation + events.len() <= u64::MAX,
    ensures
        ({
            let run = spec_run(s, events);
            !run.failed ==> is_subseq(
                published_console(run.commands) + run.state.console_entries,
                s.console_entries + appended_console(events),
            )
        }),
    decreases events.len(),
{
    let run = spec_run(s, events);
    if events.len() == 0 {
        assert(published_console(run.commands) =~= Seq::<ConsoleEntry>::empty());
        assert(published_console(run.commands) + run.state.console_entries
            =~= s.console_entries);
        assert(s.console_entries + appended_console(events) =~= s.console_entries);
        lemma_subseq_refl(s.console_entries);
    } else {
        lemma_step_accounting(s, events[0]);
        match spec_step(s, events[0]) {
            StepView::Next { state, commands } => {
                let rest = spec_run(state, events.drop_first());
                lemma_console_reported_at_most_once(state, events.drop_first());
                lemma_filters_distribute(commands, rest.commands);
                if !run.failed {
                    let p0 = published_console(commands);
                    let prest = published_console(rest.commands);
                    let a0 = appended_of(events[0]);
                    let arest = appended_console(events.drop_first());
                    let x = prest + rest.state.console_entries;
                    assert(is_subseq(x, state.console_entries + arest));
                    if p0 == Seq::<ConsoleEntry>::empty() && state.console_entries
                        == s.console_entries + a0 {
                        assert(published_console(run.commands) + run.state.console_entries =~= x);
                        assert((s.console_entries + a0) + arest =~= s.console_entries + (a0
                            + arest));
                        assert(s.console_entries + appended_console(events) =~= (s.console_entries
                            + a0) + arest);
                    } else if p0 == Seq::<ConsoleEntry>::empty() && state.console_entries == Seq::<
                        ConsoleEntry,
                    >::empty() {
                        assert(state.console_entries + arest =~= arest);
                        lemma_subseq_prepend_right(x, s.console_entries + a0, arest);
                        assert((s.console_entries + a0) + arest =~= s.console_entries + (a0
                            + arest));
                        assert(published_console(run.commands) + run.state.console_entries =~= x);
                        assert(s.console_entries + appended_console(events) =~= (s.console_entries
                            + a0) + arest);
                    } else {
                        assert(p0 == s.console_entries && state.console_entries == Seq::<
                            ConsoleEntry,
                        >::empty() && a0 == Seq::<ConsoleEntry>::empty());
                        assert(state.console_entries + arest =~= arest);
                        lemma_subseq_prefix_both(s.console_entries, x, arest);
                        assert(published_console(run.commands) + run.state.console_entries =~= (
                        s.console_entries + x));
                        assert(s.console_entries + appended_console(events) =~= s.console_entries
                            + arest);
                    }
                }
            },
            StepView::Fatal { error } => {},
        }
    }
}

} // verus!
