use rust_ssh_sftp::cpr::{filter_control_sequences, CprFilter, FilterPhase};

fn feed(bytes: &[u8]) -> (Vec<u8>, CprFilter) {
    let mut f = CprFilter::new();
    let mut out = Vec::new();
    for &b in bytes {
        if let Some(v) = f.process(b) {
            out.extend_from_slice(&v);
        }
    }
    (out, f)
}

#[test]
fn cursor_position_report_is_dropped() {
    assert_eq!(filter_control_sequences(b"\x1b[24;80R"), b"".to_vec());
}

#[test]
fn color_sequence_is_kept() {
    let input = b"hello\x1b[31mworld";
    assert_eq!(filter_control_sequences(input), input.to_vec());
}

#[test]
fn reports_among_text_are_removed() {
    let input = b"ab\x1b[1;1Rcd\x1b[12;345Ref";
    assert_eq!(filter_control_sequences(input), b"abcdef".to_vec());
}

#[test]
fn empty_buffer_stays_empty() {
    assert_eq!(filter_control_sequences(b""), Vec::<u8>::new());
}

#[test]
fn report_with_no_numbers_is_dropped() {
    assert_eq!(filter_control_sequences(b"x\x1b[Ry"), b"xy".to_vec());
}

#[test]
fn unterminated_sequence_is_kept() {
    assert_eq!(filter_control_sequences(b"a\x1b[12;3"), b"a\x1b[12;3".to_vec());
    assert_eq!(filter_control_sequences(b"a\x1b"), b"a\x1b".to_vec());
}

#[test]
fn r_final_with_other_parameters_is_kept() {
    assert_eq!(filter_control_sequences(b"\x1b[?1R"), b"\x1b[?1R".to_vec());
}

#[test]
fn filtering_twice_changes_nothing() {
    let input = b"a\x1b[3;4Rb\x1b[0mc\x1b[5;6Rd\x1b[7";
    let once = filter_control_sequences(input);
    assert_eq!(filter_control_sequences(&once), once);
}

#[test]
fn escape_before_report_can_form_a_new_report() {
    let input = b"\x1b\x1b[1R[5R";
    let once = filter_control_sequences(input);
    assert_eq!(once, b"\x1b[5R".to_vec());
    assert_eq!(filter_control_sequences(&once), b"".to_vec());
}

#[test]
fn incremental_matches_block() {
    let inputs: [&[u8]; 6] = [
        b"\x1b[24;80R",
        b"hello\x1b[31mworld",
        b"ab\x1b[1;1Rcd",
        b"\x1b\x1b[1;2Rz",
        b"\x1b[?25h\x1b[3;4R",
        b"\x1b[ \x1b[1R]x",
    ];
    for input in inputs {
        let (out, f) = feed(input);
        assert_eq!(f.phase(), FilterPhase::Idle);
        assert_eq!(out, filter_control_sequences(input));
    }
}

#[test]
fn incremental_holds_back_until_disproved() {
    let mut f = CprFilter::new();
    assert!(f.process(0x1b).is_none());
    assert!(f.process(b'[').is_none());
    assert!(f.process(b'1').is_none());
    assert_eq!(f.phase(), FilterPhase::InNumericBody);
    assert_eq!(f.process(b'x'), Some(b"\x1b[1x".to_vec()));
    assert_eq!(f.phase(), FilterPhase::Idle);
    assert_eq!(f.process(b'q'), Some(vec![b'q']));
}

#[test]
fn incremental_escape_then_other_byte_releases_both() {
    let mut f = CprFilter::new();
    assert!(f.process(0x1b).is_none());
    assert_eq!(f.process(b'a'), Some(vec![0x1b, b'a']));
}

#[test]
fn report_split_across_calls_is_dropped() {
    let mut f = CprFilter::new();
    let (first, second) = b"\x1b[12;34R".split_at(4);
    for &b in first {
        assert!(f.process(b).is_none());
    }
    for &b in second {
        assert!(f.process(b).is_none());
    }
    assert_eq!(f.phase(), FilterPhase::Idle);
    assert_eq!(f.process(b'k'), Some(vec![b'k']));
}

#[test]
fn flush_returns_held_bytes() {
    let (out, mut f) = feed(b"ok\x1b[5");
    assert_eq!(out, b"ok".to_vec());
    assert_eq!(f.flush(), b"\x1b[5".to_vec());
    assert_eq!(f.phase(), FilterPhase::Idle);
    let mut whole = out.clone();
    whole.extend_from_slice(b"\x1b[5");
    assert_eq!(whole, filter_control_sequences(b"ok\x1b[5"));
}

#[test]
fn lone_escapes_between_reports_are_kept() {
    // Text with a lone ESC, a report, text ending in ESC, a report, and ESC at the end.
    let input = b"a\x1bb\x1b[1;2Rc\x1b\x1b[3R\x1b";
    assert_eq!(filter_control_sequences(input), b"a\x1bbc\x1b\x1b".to_vec());
}

#[test]
fn buffer_without_escape_is_unchanged() {
    let input = b"plain [1;2R text";
    assert_eq!(filter_control_sequences(input), input.to_vec());
}

#[test]
fn escape_before_a_report_inside_a_kept_sequence_is_harmless() {
    let input = b"\x1b[ \x1b\x1b[1Rx";
    let once = filter_control_sequences(input);
    assert_eq!(once, input.to_vec());
    assert_eq!(filter_control_sequences(&once), once);
}
