use rust_ssh_sftp::relay::{Direction, StopReason};
use rust_ssh_sftp::session::{
    SessionCommand, SessionControl, SessionError, SessionEvent, SessionOutcome, SessionStage,
    TerminalGeometry, TERMINAL_TYPE,
};

fn restores(events: &[SessionEvent]) -> (usize, SessionControl, Vec<SessionCommand>) {
    let mut s = SessionControl::new(TerminalGeometry::from_query(Some((120, 40))));
    let mut n = 0;
    let mut cmds = Vec::new();
    for &e in events {
        let c = s.next(e);
        if c == SessionCommand::RestoreTerminal {
            n += 1;
        }
        cmds.push(c);
    }
    (n, s, cmds)
}

#[test]
fn geometry_defaults_to_80_by_24() {
    assert_eq!(TerminalGeometry::from_query(None), TerminalGeometry { cols: 80, rows: 24 });
    assert_eq!(TerminalGeometry::from_query(Some((132, 50))), TerminalGeometry { cols: 132, rows: 50 });
    assert_eq!(TERMINAL_TYPE, "xterm");
}

#[test]
fn normal_session_restores_once() {
    let (n, s, cmds) = restores(&[
        SessionEvent::Begin,
        SessionEvent::RawModeEntered(true),
        SessionEvent::PtyGranted(true),
        SessionEvent::ShellStarted(true),
        SessionEvent::RelayEnded(StopReason::RemoteEnd),
        SessionEvent::TerminalRestored(true),
    ]);
    assert_eq!(n, 1);
    assert_eq!(s.stage, SessionStage::Done);
    assert_eq!(
        cmds,
        vec![
            SessionCommand::EnableRawMode,
            SessionCommand::RequestPty { cols: 120, rows: 40 },
            SessionCommand::StartShell,
            SessionCommand::RunRelay,
            SessionCommand::RestoreTerminal,
            SessionCommand::Report(SessionOutcome::Ended(StopReason::RemoteEnd)),
        ]
    );
}

#[test]
fn io_error_in_either_direction_restores_once() {
    for d in [Direction::LocalToRemote, Direction::RemoteToLocal] {
        let (n, s, cmds) = restores(&[
            SessionEvent::Begin,
            SessionEvent::RawModeEntered(true),
            SessionEvent::PtyGranted(true),
            SessionEvent::ShellStarted(true),
            SessionEvent::RelayEnded(StopReason::IoError(d)),
            SessionEvent::RelayEnded(StopReason::IoError(d)),
            SessionEvent::TerminalRestored(true),
            SessionEvent::TerminalRestored(true),
        ]);
        assert_eq!(n, 1);
        assert_eq!(s.stage, SessionStage::Done);
        assert_eq!(
            s.outcome,
            Some(SessionOutcome::Failed(SessionError::ChannelIoError(d)))
        );
        assert_eq!(
            cmds[6],
            SessionCommand::Report(SessionOutcome::Failed(SessionError::ChannelIoError(d)))
        );
        assert_eq!(cmds[7], SessionCommand::Wait);
    }
}

#[test]
fn refused_pty_restores_and_fails() {
    let (n, s, _) = restores(&[
        SessionEvent::Begin,
        SessionEvent::RawModeEntered(true),
        SessionEvent::PtyGranted(false),
        SessionEvent::TerminalRestored(true),
    ]);
    assert_eq!(n, 1);
    assert_eq!(s.outcome, Some(SessionOutcome::Failed(SessionError::PtyRequestFailed)));
}

#[test]
fn raw_mode_refused_never_restores() {
    let (n, s, cmds) = restores(&[SessionEvent::Begin, SessionEvent::RawModeEntered(false)]);
    assert_eq!(n, 0);
    assert_eq!(s.stage, SessionStage::Done);
    assert_eq!(
        cmds[1],
        SessionCommand::Report(SessionOutcome::Failed(SessionError::TerminalModeError))
    );
}

#[test]
fn failed_restore_is_reported() {
    let (n, s, _) = restores(&[
        SessionEvent::Begin,
        SessionEvent::RawModeEntered(true),
        SessionEvent::PtyGranted(true),
        SessionEvent::ShellStarted(true),
        SessionEvent::RelayEnded(StopReason::Interrupted),
        SessionEvent::TerminalRestored(false),
    ]);
    assert_eq!(n, 1);
    assert_eq!(s.outcome, Some(SessionOutcome::Failed(SessionError::TerminalModeError)));
}
