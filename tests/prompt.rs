use rust_ssh_sftp::prompt::{line_action, menu_action, split_target, trim_text, LineAction, MenuAction};

#[test]
fn trims_unicode_white_space() {
    assert_eq!(trim_text("  ls -l\t\n"), "ls -l");
    assert_eq!(trim_text("\u{3000}x y\u{a0}"), "x y");
    assert_eq!(trim_text(" \t "), "");
    assert_eq!(trim_text(""), "");
}

#[test]
fn splits_at_first_at_sign() {
    assert_eq!(split_target("user@example.com"), Some(("user".to_string(), "example.com".to_string())));
    assert_eq!(split_target("a@b@c"), Some(("a".to_string(), "b@c".to_string())));
    assert_eq!(split_target("@host"), Some(("".to_string(), "host".to_string())));
    assert_eq!(split_target("myserver"), None);
}

#[test]
fn line_shell_actions() {
    assert_eq!(line_action("   \n"), LineAction::Skip);
    assert_eq!(line_action("exit\n"), LineAction::Quit);
    assert_eq!(line_action("  quit "), LineAction::Quit);
    assert_eq!(line_action("exit now"), LineAction::Run);
    assert_eq!(line_action("ls"), LineAction::Run);
}

#[test]
fn menu_actions() {
    assert_eq!(menu_action("q\n", 3), MenuAction::Quit);
    assert_eq!(menu_action("Q", 3), MenuAction::Quit);
    assert_eq!(menu_action("0", 3), MenuAction::Manual);
    assert_eq!(menu_action(" 2 ", 3), MenuAction::Select(1));
    assert_eq!(menu_action("+3", 3), MenuAction::Select(2));
    assert_eq!(menu_action("4", 3), MenuAction::Invalid);
    assert_eq!(menu_action("00", 3), MenuAction::Invalid);
    assert_eq!(menu_action("1x", 3), MenuAction::Invalid);
    assert_eq!(menu_action("99999999999999999999999", 3), MenuAction::Invalid);
    assert_eq!(menu_action("", 3), MenuAction::Invalid);
    assert_eq!(menu_action("+", 3), MenuAction::Invalid);
}
