use snapcode::hotkey::{key_code_of, modifier_of, parse_shortcut, KeyCode, Modifier, Modifiers, Shortcut};

#[test]
fn parses_valid_shortcuts() {
    assert!(parse_shortcut("zh-CN", "Ctrl+Shift+V").is_ok());
    assert!(parse_shortcut("zh-CN", "Alt+C").is_ok());
    assert!(parse_shortcut("zh-CN", "ctrl+shift+f5").is_ok());
    assert!(parse_shortcut("en", "Ctrl+Space").is_ok());
}

#[test]
fn rejects_invalid_shortcuts() {
    assert!(parse_shortcut("zh-CN", "").is_err());
    assert!(parse_shortcut("zh-CN", "V").is_err());
    assert!(parse_shortcut("zh-CN", "Ctrl+Shift").is_err());
    assert!(parse_shortcut("zh-CN", "Ctrl+NotAKey").is_err());
    assert!(parse_shortcut("en", "Ctrl+NotAKey").is_err());
}

/* ---------- further cases ---------- */

#[test]
fn parsed_shortcut_holds_modifiers_and_key() {
    assert_eq!(
        parse_shortcut("zh-CN", " ctrl + Shift + v "),
        Ok(Shortcut {
            modifiers: Modifiers { control: true, shift: true, alt: false, meta: false },
            key: KeyCode::Letter('V'),
        })
    );
    assert_eq!(
        parse_shortcut("en", "Win++F12"),
        Ok(Shortcut {
            modifiers: Modifiers { control: false, shift: false, alt: false, meta: true },
            key: KeyCode::Function(12),
        })
    );
    assert_eq!(
        parse_shortcut("en", "Option+Command+Esc").map(|s| s.key),
        Ok(KeyCode::Escape)
    );
}

#[test]
fn shortcut_error_messages() {
    assert_eq!(
        parse_shortcut("zh-CN", "Ctrl+A+B"),
        Err("快捷键「Ctrl+A+B」无效：包含多个按键".to_string())
    );
    assert_eq!(
        parse_shortcut("en", "Ctrl+Shift"),
        Err("Shortcut \"Ctrl+Shift\" is invalid: missing key".to_string())
    );
    assert_eq!(
        parse_shortcut("zh-CN", "V"),
        Err("快捷键「V」无效：至少需要一个修饰键".to_string())
    );
    assert_eq!(
        parse_shortcut("en", "Ctrl+ NotAKey "),
        Err("Unrecognized key \"NotAKey\"".to_string())
    );
    // the key is checked before the modifiers
    assert_eq!(parse_shortcut("en", ""), Err("Shortcut \"\" is invalid: missing key".to_string()));
}

#[test]
fn key_and_modifier_names() {
    assert_eq!(modifier_of("control"), Some(Modifier::Control));
    assert_eq!(modifier_of("super"), Some(Modifier::Meta));
    assert_eq!(modifier_of("Ctrl"), None);
    assert_eq!(key_code_of("7"), Some(KeyCode::Digit(7)));
    assert_eq!(key_code_of("F24"), Some(KeyCode::Function(24)));
    assert_eq!(key_code_of("F25"), None);
    assert_eq!(key_code_of("F01"), None);
    assert_eq!(key_code_of("F"), Some(KeyCode::Letter('F')));
    assert_eq!(key_code_of("ARROWLEFT"), Some(KeyCode::ArrowLeft));
    assert_eq!(key_code_of("RETURN"), Some(KeyCode::Enter));
    assert_eq!(key_code_of("a"), None);
}
