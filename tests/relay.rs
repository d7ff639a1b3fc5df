use rust_ssh_sftp::relay::{Direction, FilterPoints, RelayEngine, RelayPhase, StopReason, Transfer};

fn both() -> FilterPoints {
    FilterPoints { filter_input: true, filter_output: true }
}

#[test]
fn remote_report_is_dropped_then_eof_closes() {
    let mut engine = RelayEngine::new(both());
    engine.start();
    assert_eq!(engine.phase(), RelayPhase::Running);
    let mut written = Vec::new();
    let chunks: [&[u8]; 2] = [b"\x1b[1;1Rok\n", b""];
    for chunk in chunks {
        match engine.on_remote_data(chunk) {
            Transfer::Send(bytes) => written.extend_from_slice(&bytes),
            Transfer::Nothing => {}
            Transfer::Stop => break,
        }
    }
    assert_eq!(written, b"ok\n".to_vec());
    assert_eq!(engine.phase(), RelayPhase::Draining);
    assert_eq!(engine.stop_reason(), Some(StopReason::RemoteEnd));
    assert!(engine.finish());
    assert_eq!(engine.phase(), RelayPhase::Closed);
}

#[test]
fn ctrl_d_drains_without_forwarding() {
    let mut engine = RelayEngine::new(both());
    engine.start();
    assert!(matches!(engine.on_local_byte(b'l'), Transfer::Send(ref v) if v == b"l"));
    assert!(matches!(engine.on_local_byte(0x04), Transfer::Stop));
    assert_eq!(engine.phase(), RelayPhase::Draining);
    assert_eq!(engine.stop_reason(), Some(StopReason::Interrupted));
    assert!(matches!(engine.on_local_byte(b's'), Transfer::Nothing));
}

#[test]
fn ctrl_c_drains_without_forwarding() {
    let mut engine = RelayEngine::new(FilterPoints { filter_input: false, filter_output: false });
    engine.start();
    assert!(matches!(engine.on_local_byte(0x03), Transfer::Stop));
    assert_eq!(engine.phase(), RelayPhase::Draining);
}

#[test]
fn input_filter_holds_reports_typed_locally() {
    let mut engine = RelayEngine::new(both());
    engine.start();
    for &b in b"\x1b[3;7" {
        assert!(matches!(engine.on_local_byte(b), Transfer::Nothing));
    }
    assert!(matches!(engine.on_local_byte(b'R'), Transfer::Nothing));
    assert!(matches!(engine.on_local_byte(0x1b), Transfer::Nothing));
    assert!(matches!(engine.on_local_byte(b'['), Transfer::Nothing));
    assert!(matches!(engine.on_local_byte(b'A'), Transfer::Send(ref v) if v == b"\x1b[A"));
}

#[test]
fn unfiltered_paths_pass_everything() {
    let mut engine = RelayEngine::new(FilterPoints { filter_input: false, filter_output: false });
    engine.start();
    assert!(matches!(engine.on_local_byte(0x1b), Transfer::Send(ref v) if v == b"\x1b"));
    assert!(
        matches!(engine.on_remote_data(b"\x1b[1;1R"), Transfer::Send(ref v) if v == b"\x1b[1;1R")
    );
}

#[test]
fn events_before_start_are_ignored() {
    let mut engine = RelayEngine::new(both());
    assert!(matches!(engine.on_local_byte(b'a'), Transfer::Nothing));
    assert!(matches!(engine.on_remote_data(b"abc"), Transfer::Nothing));
    assert_eq!(engine.phase(), RelayPhase::Starting);
    assert!(!engine.finish());
}

#[test]
fn io_error_on_either_path_drains_once() {
    for direction in [Direction::LocalToRemote, Direction::RemoteToLocal] {
        let mut engine = RelayEngine::new(both());
        engine.start();
        engine.on_io_error(direction);
        assert_eq!(engine.phase(), RelayPhase::Draining);
        assert_eq!(engine.stop_reason(), Some(StopReason::IoError(direction)));
        engine.on_io_error(Direction::RemoteToLocal);
        assert_eq!(engine.stop_reason(), Some(StopReason::IoError(direction)));
        assert!(engine.finish());
        assert!(!engine.finish());
        assert_eq!(engine.phase(), RelayPhase::Closed);
    }
}

#[test]
fn report_only_chunk_writes_nothing() {
    let mut engine = RelayEngine::new(both());
    engine.start();
    assert!(matches!(engine.on_remote_data(b"\x1b[9;9R"), Transfer::Nothing));
    assert_eq!(engine.phase(), RelayPhase::Running);
}

#[test]
fn only_interrupt_remote_end_or_error_leave_running() {
    let mut engine = RelayEngine::new(both());
    engine.start();
    for b in 0u8..=255 {
        if b == 0x03 || b == 0x04 {
            continue;
        }
        let _ = engine.on_local_byte(b);
        assert_eq!(engine.phase(), RelayPhase::Running);
    }
    let _ = engine.on_remote_data(b"still here");
    assert_eq!(engine.phase(), RelayPhase::Running);
    assert_eq!(engine.stop_reason(), None);
}
