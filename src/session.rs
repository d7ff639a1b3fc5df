//! The interactive session around the relay: raw mode of the local terminal
//! is taken first, then the pseudo-terminal and the remote shell are asked
//! for, the relay runs, and raw mode is given back on every path out, once.
//! The caller performs each command and reports its result as an event.

use vstd::prelude::*;
use crate::relay::{Direction, StopReason};

verus! {

/// Columns assumed when the local terminal cannot report its size.
pub const DEFAULT_COLS: u16 = 80;

/// Rows assumed when the local terminal cannot report its size.
pub const DEFAULT_ROWS: u16 = 24;

/// The terminal type announced to the remote side: a basic type, so that
/// remote programs emit fewer kinds of control sequences.
pub const TERMINAL_TYPE: &'static str = "xterm";

/// The size of the local terminal, read once when the session starts.
#[derive(Clone, Copy, Debug, PartialEq, Eq, Structural)]
pub struct TerminalGeometry {
    pub cols: u16,
    pub rows: u16,
}

impl TerminalGeometry {
    /// The size the terminal reported, as (columns, rows), or 80 by 24 where
    /// it reported none.
    pub fn from_query(size: Option<(u16, u16)>) -> (r: TerminalGeometry)
        ensures
            r == (match size {
                Some((c, w)) => TerminalGeometry { cols: c, rows: w },
                None => TerminalGeometry { cols: DEFAULT_COLS, rows: DEFAULT_ROWS },
            }),
    {
        match size {
            Some((cols, rows)) => TerminalGeometry { cols, rows },
            None => TerminalGeometry { cols: DEFAULT_COLS, rows: DEFAULT_ROWS },
        }
    }
}

/// Why a session failed.
#[derive(Clone, Copy, Debug, PartialEq, Eq, Structural)]
pub enum SessionError {
    /// The remote side refused the pseudo-terminal or the shell.
    PtyRequestFailed,
    /// A read or write failed during the relay, on the given path.
    ChannelIoError(Direction),
    /// The local terminal could not be put into raw mode, or back out of it.
    TerminalModeError,
}

/// How a session ended.
#[derive(Clone, Copy, Debug, PartialEq, Eq, Structural)]
pub enum SessionOutcome {
    /// The relay ended for this reason, which is no failure.
    Ended(StopReason),
    /// The session failed.
    Failed(SessionError),
}

/// Where the session stands.
#[derive(Clone, Copy, Debug, PartialEq, Eq, Structural)]
pub enum SessionStage {
    /// Nothing done yet.
    Idle,
    /// Raw mode has been asked for.
    EnteringRawMode,
    /// Raw mode is held; the pseudo-terminal has been asked for.
    RequestingPty,
    /// The pseudo-terminal is granted; the shell has been asked for.
    StartingShell,
    /// The relay runs.
    Relaying,
    /// The terminal is being given back its earlier mode.
    Restoring,
    /// The session is over; its outcome has been reported.
    Done,
}

/// What the caller reports.
#[derive(Clone, Copy, Debug, PartialEq, Eq, Structural)]
pub enum SessionEvent {
    /// Start the session.
    Begin,
    /// Whether raw mode could be entered.
    RawModeEntered(bool),
    /// Whether the remote side granted the pseudo-terminal.
    PtyGranted(bool),
    /// Whether the remote shell started.
    ShellStarted(bool),
    /// The relay engine stopped, for this reason.
    RelayEnded(StopReason),
    /// Whether the terminal's earlier mode could be restored.
    TerminalRestored(bool),
}

/// What the caller is to do next.
#[derive(Clone, Copy, Debug, PartialEq, Eq, Structural)]
pub enum SessionCommand {
    /// Put the local terminal into raw mode.
    EnableRawMode,
    /// Ask the channel for a pseudo-terminal of `TERMINAL_TYPE` and this size.
    RequestPty { cols: u16, rows: u16 },
    /// Ask the channel for the remote default shell.
    StartShell,
    /// Run the relay engine until it stops.
    RunRelay,
    /// Give the local terminal back its earlier mode.
    RestoreTerminal,
    /// Report this outcome; the session is over.
    Report(SessionOutcome),
    /// The event did not fit the stage: nothing to do.
    Wait,
}

/// The session's decisions, from one event to the next.
#[derive(Clone, Copy, Debug, PartialEq, Eq, Structural)]
pub struct SessionControl {
    pub stage: SessionStage,
    pub geometry: TerminalGeometry,
    /// Raw mode was entered at some point.
    pub raw_entered: bool,
    /// The command to restore the terminal has been given.
    pub restore_issued: bool,
    /// The outcome to report once the terminal is restored.
    pub outcome: Option<SessionOutcome>,
}

/// Raw mode is held exactly in the stages between entering it and giving it
/// back, and it is given back at most once, only after it was entered.
pub open spec fn session_wf(s: SessionControl) -> bool {
    &&& (s.restore_issued ==> s.raw_entered)
    &&& match s.stage {
        SessionStage::Idle | SessionStage::EnteringRawMode => !s.raw_entered
            && !s.restore_issued,
        SessionStage::RequestingPty | SessionStage::StartingShell | SessionStage::Relaying => s.raw_entered
            && !s.restore_issued,
        SessionStage::Restoring => s.restore_issued && s.outcome is Some,
        SessionStage::Done => s.restore_issued == s.raw_entered,
    }
}

/// The outcome of a relay that stopped for the given reason.
pub open spec fn relay_outcome(reason: StopReason) -> SessionOutcome {
    match reason {
        StopReason::IoError(d) => SessionOutcome::Failed(SessionError::ChannelIoError(d)),
        _ => SessionOutcome::Ended(reason),
    }
}

/// The next state and the command for one event.
pub open spec fn session_step(s: SessionControl, e: SessionEvent) -> (
    SessionControl,
    SessionCommand,
) {
    match (s.stage, e) {
        (SessionStage::Idle, SessionEvent::Begin) => (
            SessionControl { stage: SessionStage::EnteringRawMode, ..s },
            SessionCommand::EnableRawMode,
        ),
        (SessionStage::EnteringRawMode, SessionEvent::RawModeEntered(ok)) => if ok {
            (
                SessionControl { stage: SessionStage::RequestingPty, raw_entered: true, ..s },
                SessionCommand::RequestPty { cols: s.geometry.cols, rows: s.geometry.rows },
            )
        } else {
            let o = SessionOutcome::Failed(SessionError::TerminalModeError);
            (
                SessionControl { stage: SessionStage::Done, outcome: Some(o), ..s },
                SessionCommand::Report(o),
            )
        },
        (SessionStage::RequestingPty, SessionEvent::PtyGranted(ok)) => if ok {
            (SessionControl { stage: SessionStage::StartingShell, ..s }, SessionCommand::StartShell)
        } else {
            (
                SessionControl {
                    stage: SessionStage::Restoring,
                    restore_issued: true,
                    outcome: Some(SessionOutcome::Failed(SessionError::PtyRequestFailed)),
                    ..s
                },
                SessionCommand::RestoreTerminal,
            )
        },
        (SessionStage::StartingShell, SessionEvent::ShellStarted(ok)) => if ok {
            (SessionControl { stage: SessionStage::Relaying, ..s }, SessionCommand::RunRelay)
        } else {
            (
                SessionControl {
                    stage: SessionStage::Restoring,
                    restore_issued: true,
                    outcome: Some(SessionOutcome::Failed(SessionError::PtyRequestFailed)),
                    ..s
                },
                SessionCommand::RestoreTerminal,
            )
        },
        (SessionStage::Relaying, SessionEvent::RelayEnded(reason)) => (
            SessionControl {
                stage: SessionStage::Restoring,
                restore_issued: true,
                outcome: Some(relay_outcome(reason)),
                ..s
            },
            SessionCommand::RestoreTerminal,
        ),
        (SessionStage::Restoring, SessionEvent::TerminalRestored(ok)) => {
            let o = match s.outcome {
                Some(SessionOutcome::Ended(r)) => if ok {
                    SessionOutcome::Ended(r)
                } else {
                    SessionOutcome::Failed(SessionError::TerminalModeError)
                },
                Some(f) => f,
                None => SessionOutcome::Failed(SessionError::TerminalModeError),
            };
            (SessionControl { stage: SessionStage::Done, outcome: Some(o), ..s }, SessionCommand::Report(o))
        },
        _ => (s, SessionCommand::Wait),
    }
}

/// Events handled one after another: the last state and how many times the
/// terminal was told to restore its mode.
pub open spec fn session_run(s: SessionControl, events: Seq<SessionEvent>) -> (SessionControl, nat)
    decreases events.len(),
{
    if events.len() == 0 {
        (s, 0)
    } else {
        let (s1, c) = session_step(s, events[0]);
        let (s2, n) = session_run(s1, events.skip(1));
        (s2, n + if c == SessionCommand::RestoreTerminal { 1nat } else { 0nat })
    }
}

impl SessionControl {
    /// A session not yet begun, for a terminal of the given size.
    pub fn new(geometry: TerminalGeometry) -> (r: SessionControl)
        ensures
            r == (SessionControl {
                stage: SessionStage::Idle,
                geometry,
                raw_entered: false,
                restore_issued: false,
                outcome: None,
            }),
            session_wf(r),
    {
        SessionControl {
            stage: SessionStage::Idle,
            geometry,
            raw_entered: false,
            restore_issued: false,
            outcome: None,
        }
    }

    /// Takes one event and returns the next command.
    pub fn next(&mut self, event: SessionEvent) -> (r: SessionCommand)
        requires
            session_wf(*old(self)),
        ensures
            (*final(self), r) == session_step(*old(self), event),
            session_wf(*final(self)),
    {
        match (self.stage, event) {
            (SessionStage::Idle, SessionEvent::Begin) => {
                self.stage = SessionStage::EnteringRawMode;
                SessionCommand::EnableRawMode
            },
            (SessionStage::EnteringRawMode, SessionEvent::RawModeEntered(ok)) => {
                if ok {
                    self.stage = SessionStage::RequestingPty;
                    self.raw_entered = true;
                    SessionCommand::RequestPty { cols: self.geometry.cols, rows: self.geometry.rows }
                } else {
                    let o = SessionOutcome::Failed(SessionError::TerminalModeError);
                    self.stage = SessionStage::Done;
                    self.outcome = Some(o);
                    SessionCommand::Report(o)
                }
            },
            (SessionStage::RequestingPty, SessionEvent::PtyGranted(ok)) => {
                if ok {
                    self.stage = SessionStage::StartingShell;
                    SessionCommand::StartShell
                } else {
                    self.begin_restore(SessionOutcome::Failed(SessionError::PtyRequestFailed))
                }
            },
            (SessionStage::StartingShell, SessionEvent::ShellStarted(ok)) => {
                if ok {
                    self.stage = SessionStage::Relaying;
                    SessionCommand::RunRelay
                } else {
                    self.begin_restore(SessionOutcome::Failed(SessionError::PtyRequestFailed))
                }
            },
            (SessionStage::Relaying, SessionEvent::RelayEnded(reason)) => {
                let o = match reason {
                    StopReason::IoError(d) => SessionOutcome::Failed(SessionError::ChannelIoError(d)),
                    _ => SessionOutcome::Ended(reason),
                };
                self.begin_restore(o)
            },
            (SessionStage::Restoring, SessionEvent::TerminalRestored(ok)) => {
                let o = match self.outcome {
                    Some(SessionOutcome::Ended(r)) => if ok {
                        SessionOutcome::Ended(r)
                    } else {
                        SessionOutcome::Failed(SessionError::TerminalModeError)
                    },
                    Some(f) => f,
                    None => SessionOutcome::Failed(SessionError::TerminalModeError),
                };
                self.stage = SessionStage::Done;
                self.outcome = Some(o);
                SessionCommand::Report(o)
            },
            _ => SessionCommand::Wait,
        }
    }

    fn begin_restore(&mut self, outcome: SessionOutcome) -> (r: SessionCommand)
        ensures
            *final(self) == (SessionControl {
                stage: SessionStage::Restoring,
                restore_issued: true,
                outcome: Some(outcome),
                ..*old(self)
            }),
            r == SessionCommand::RestoreTerminal,
    {
        self.stage = SessionStage::Restoring;
        self.restore_issued = true;
        self.outcome = Some(outcome);
        SessionCommand::RestoreTerminal
    }
}

/// One step keeps the session well formed, and it gives the restore command
/// exactly when it moves the session into giving raw mode back.
proof fn lemma_step_restore(s: SessionControl, e: SessionEvent)
    requires
        session_wf(s),
    ensures
        ({
            let (s1, c) = session_step(s, e);
            &&& session_wf(s1)
            &&& (c == SessionCommand::RestoreTerminal) == (!s.restore_issued && s1.restore_issued)
            &&& (s.restore_issued ==> s1.restore_issued)
            &&& (s.raw_entered ==> s1.raw_entered)
        }),
{
}

/// Whatever events come, in whatever order (a refused pseudo-terminal, an
/// I/O error on either path, an interrupt), the terminal is told to restore
/// its mode at most once; and once the session is over, it was told exactly
/// once if raw mode had been entered, and never otherwise.
pub proof fn lemma_restore_exactly_once(s: SessionControl, events: Seq<SessionEvent>)
    requires
        session_wf(s),
    ensures
        ({
            let (s2, n) = session_run(s, events);
            &&& session_wf(s2)
            &&& n + (if s.restore_issued { 1nat } else { 0nat }) == (if s2.restore_issued {
                1nat
            } else {
                0nat
            })
            &&& n <= 1
            &&& (s2.stage == SessionStage::Done ==> n + (if s.restore_issued {
                1nat
            } else {
                0nat
            }) == if s2.raw_entered {
                1nat
            } else {
                0nat
            })
        }),
    decreases events.len(),
{
    if events.len() > 0 {
        lemma_step_restore(s, events[0]);
        let (s1, c) = session_step(s, events[0]);
        lemma_restore_exactly_once(s1, events.skip(1));
    }
}

} // verus!
