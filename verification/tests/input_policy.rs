use bifur_core::input_policy::{translate_terminal_key, InputModifiers};

#[test]
fn preserves_altgr_printable_text() {
    assert_eq!(
        translate_terminal_key(
            "q",
            Some("@"),
            InputModifiers {
                control: true,
                alt: true,
                ..InputModifiers::default()
            },
            false,
        ),
        Some(b"@".to_vec())
    );
}

#[test]
fn accepts_unmodified_fn_translated_navigation() {
    assert_eq!(
        translate_terminal_key(
            "delete",
            None,
            InputModifiers {
                function: true,
                ..InputModifiers::default()
            },
            false,
        ),
        Some(b"\x1b[3~".to_vec())
    );
}

#[test]
fn rejects_fn_navigation_with_terminal_modifiers() {
    assert_eq!(
        translate_terminal_key(
            "left",
            None,
            InputModifiers {
                function: true,
                control: true,
                ..InputModifiers::default()
            },
            false,
        ),
        None
    );
}

#[test]
fn rejects_platform_command_input() {
    assert_eq!(
        translate_terminal_key(
            "c",
            Some("c"),
            InputModifiers {
                platform: true,
                ..InputModifiers::default()
            },
            false,
        ),
        None
    );
}

#[test]
fn forwards_modified_navigation_to_core_encoder() {
    assert_eq!(
        translate_terminal_key(
            "up",
            None,
            InputModifiers {
                shift: true,
                alt: true,
                control: true,
                ..InputModifiers::default()
            },
            true,
        ),
        Some(b"\x1b[1;8A".to_vec())
    );
}

#[test]
fn forwards_control_punctuation_and_alt_prefix() {
    assert_eq!(
        translate_terminal_key(
            "2",
            Some("@"),
            InputModifiers {
                control: true,
                alt: true,
                ..InputModifiers::default()
            },
            false,
        ),
        Some(vec![0x1b, 0x00])
    );
}

// Further cases.

#[test]
fn plain_text_is_left_to_text_input() {
    assert_eq!(
        translate_terminal_key("a", Some("a"), InputModifiers::default(), false),
        None
    );
}

#[test]
fn ctrl_letter_encodes_control_character() {
    assert_eq!(
        translate_terminal_key(
            "c",
            Some("c"),
            InputModifiers {
                control: true,
                ..InputModifiers::default()
            },
            false,
        ),
        Some(vec![0x03])
    );
}

#[test]
fn altgr_with_multibyte_text_sends_utf8() {
    assert_eq!(
        translate_terminal_key(
            "e",
            Some("€"),
            InputModifiers {
                control: true,
                alt: true,
                ..InputModifiers::default()
            },
            false,
        ),
        Some("€".as_bytes().to_vec())
    );
}

#[test]
fn unmodified_navigation_follows_application_mode() {
    assert_eq!(
        translate_terminal_key("down", None, InputModifiers::default(), true),
        Some(b"\x1bOB".to_vec())
    );
    assert_eq!(
        translate_terminal_key("pagedown", None, InputModifiers::default(), true),
        Some(b"\x1b[6~".to_vec())
    );
}

#[test]
fn control_text_is_not_printable() {
    assert_eq!(
        translate_terminal_key(
            "q",
            Some("\u{1}"),
            InputModifiers {
                control: true,
                alt: true,
                ..InputModifiers::default()
            },
            false,
        ),
        Some(vec![0x1b, 0x11])
    );
}

#[test]
fn option_alone_sends_meta_with_the_untransformed_key() {
    let alt = InputModifiers {
        alt: true,
        ..InputModifiers::default()
    };
    assert_eq!(
        translate_terminal_key("f", Some("ƒ"), alt, false),
        Some(b"\x1bf".to_vec())
    );
    assert_eq!(
        translate_terminal_key("b", None, alt, false),
        Some(b"\x1bb".to_vec())
    );
    assert_eq!(translate_terminal_key("enter", None, alt, false), None);
    assert_eq!(
        translate_terminal_key("left", None, alt, false),
        Some(b"\x1b[1;3D".to_vec())
    );
}
