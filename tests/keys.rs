use rust_ssh_sftp::keys::{key_to_bytes, KeyCode, KeyModifiers, KeyPress};

fn press(code: KeyCode, control: bool, alt: bool) -> KeyPress {
    KeyPress { code, modifiers: KeyModifiers { control, alt } }
}

#[test]
fn plain_characters_are_utf8() {
    assert_eq!(key_to_bytes(&press(KeyCode::Char('a'), false, false)), Some(b"a".to_vec()));
    assert_eq!(key_to_bytes(&press(KeyCode::Char('é'), false, false)), Some("é".as_bytes().to_vec()));
    assert_eq!(key_to_bytes(&press(KeyCode::Char('中'), false, false)), Some("中".as_bytes().to_vec()));
    assert_eq!(key_to_bytes(&press(KeyCode::Char('😀'), false, false)), Some("😀".as_bytes().to_vec()));
}

#[test]
fn control_characters() {
    assert_eq!(key_to_bytes(&press(KeyCode::Char('c'), true, false)), Some(vec![0x03]));
    assert_eq!(key_to_bytes(&press(KeyCode::Char('D'), true, false)), Some(vec![0x04]));
    assert_eq!(key_to_bytes(&press(KeyCode::Char('['), true, true)), Some(vec![0x1b]));
    assert_eq!(key_to_bytes(&press(KeyCode::Char('?'), true, false)), Some(vec![0x7f]));
    assert_eq!(key_to_bytes(&press(KeyCode::Char('1'), true, false)), None);
}

#[test]
fn alt_prefixes_escape() {
    assert_eq!(key_to_bytes(&press(KeyCode::Char('x'), false, true)), Some(b"\x1bx".to_vec()));
}

#[test]
fn special_keys() {
    assert_eq!(key_to_bytes(&press(KeyCode::Enter, false, false)), Some(b"\r".to_vec()));
    assert_eq!(key_to_bytes(&press(KeyCode::Up, false, false)), Some(b"\x1b[A".to_vec()));
    assert_eq!(key_to_bytes(&press(KeyCode::PageDown, false, false)), Some(b"\x1b[6~".to_vec()));
    assert_eq!(key_to_bytes(&press(KeyCode::F(1), false, false)), Some(b"\x1bOP".to_vec()));
    assert_eq!(key_to_bytes(&press(KeyCode::F(12), false, false)), Some(b"\x1b[24~".to_vec()));
    assert_eq!(key_to_bytes(&press(KeyCode::F(13), false, false)), None);
    assert_eq!(key_to_bytes(&press(KeyCode::Other, false, false)), None);
}
