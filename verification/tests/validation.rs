use accord::utils::{verify_message, verify_username};

#[test]
fn usernames_accept_short_alphanumerics() {
    assert!(verify_username("a"));
    assert!(verify_username("abcdefghijklmnopqr"));
    assert!(verify_username("Alice99"));
}

#[test]
fn usernames_reject_bad_shapes() {
    assert!(!verify_username(""));
    assert!(!verify_username("abcdefghijklmnopqrs"));
    assert!(!verify_username("has-dash"));
    assert!(!verify_username("has.dot"));
    assert!(!verify_username("has space"));
    assert!(!verify_username("tab\there"));
}

#[test]
fn messages_reject_empty_and_control() {
    assert!(!verify_message(""));
    assert!(!verify_message("line\nbreak"));
    assert!(!verify_message("\u{7}"));
    assert!(verify_message("ordinary text, with punctuation!"));
    assert!(verify_message("unicode ok: héllo"));
}

#[test]
fn gui_just_content() {
    let m = accord::gui::Message::just_content("note".to_string());
    assert_eq!(m.content, "note");
    assert_eq!(m.sender, "");
    assert_eq!(m.date, "");
    assert!(!m.is_image);
}
