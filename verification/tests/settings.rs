use snapcode::settings::{
    default_language, language_for_ui_language, EmailAccount, EmailProtocol, EmailSettings,
    LegacyEmailSettings, Settings,
};

#[test]
fn legacy_json_without_email_gets_empty_accounts() {
    // a settings file without "email" reads the legacy layout's defaults
    let email = EmailSettings::from_legacy(LegacyEmailSettings::default());
    assert_eq!(email, EmailSettings::default());
    assert!(email.accounts.is_empty());
}

#[test]
fn legacy_flat_email_migrates_to_default_account() {
    let legacy = LegacyEmailSettings {
        accounts: None,
        enabled: true,
        host: "pop.qq.com".to_string(),
        port: 110,
        username: "u@qq.com".to_string(),
        password: "auth-code".to_string(),
        use_tls: false,
        poll_interval_secs: 120,
    };
    let email = EmailSettings::from_legacy(legacy);
    assert_eq!(email.accounts.len(), 1);
    let acc = &email.accounts[0];
    assert_eq!(acc.id, "default");
    assert_eq!(acc.name, "");
    assert_eq!(acc.protocol, EmailProtocol::Pop3);
    assert!(acc.enabled);
    assert_eq!(acc.host, "pop.qq.com");
    assert_eq!(acc.port, 110);
    assert_eq!(acc.username, "u@qq.com");
    assert_eq!(acc.password, "auth-code");
    assert!(!acc.use_tls);
    assert_eq!(acc.poll_interval_secs, 120);
    assert!(acc.is_complete());
}

#[test]
fn legacy_partial_email_still_migrates() {
    let legacy = LegacyEmailSettings { host: "pop.163.com".to_string(), ..LegacyEmailSettings::default() };
    let email = EmailSettings::from_legacy(legacy);
    assert_eq!(email.accounts.len(), 1);
    let acc = &email.accounts[0];
    assert_eq!(acc.id, "default");
    assert!(!acc.enabled);
    assert_eq!(acc.host, "pop.163.com");
    assert_eq!(acc.port, 995);
    assert!(acc.use_tls);
    assert_eq!(acc.poll_interval_secs, 60);
    assert!(!acc.is_complete());
}

#[test]
fn legacy_default_email_yields_no_accounts() {
    let email = EmailSettings::from_legacy(LegacyEmailSettings::default());
    assert!(email.accounts.is_empty());

    let legacy = LegacyEmailSettings {
        accounts: None,
        enabled: false,
        host: String::new(),
        port: 995,
        username: String::new(),
        password: String::new(),
        use_tls: true,
        poll_interval_secs: 60,
    };
    let email = EmailSettings::from_legacy(legacy);
    assert!(email.accounts.is_empty());
}

#[test]
fn account_completeness_interval_identity_display_name() {
    let mut acc = EmailAccount::default();
    assert!(!acc.is_complete());
    acc.enabled = true;
    acc.host = " pop.qq.com ".to_string();
    acc.username = "u@qq.com".to_string();
    acc.password = "x".to_string();
    assert!(acc.is_complete());

    acc.poll_interval_secs = 5;
    assert_eq!(acc.interval(), 15);
    acc.poll_interval_secs = 300;
    assert_eq!(acc.interval(), 300);

    assert_eq!(acc.identity(), "pop.qq.com:u@qq.com");

    assert_eq!(acc.display_name(), "u@qq.com");
    acc.name = "  QQ 邮箱 ".to_string();
    assert_eq!(acc.display_name(), "QQ 邮箱");
}

/* ---------- further cases ---------- */

#[test]
fn current_layout_is_kept_as_is() {
    let a = EmailAccount { id: "a1".to_string(), protocol: EmailProtocol::Imap, ..EmailAccount::default() };
    let legacy = LegacyEmailSettings {
        accounts: Some(vec![a.clone()]),
        enabled: true,
        host: "ignored".to_string(),
        ..LegacyEmailSettings::default()
    };
    assert_eq!(EmailSettings::from_legacy(legacy).accounts, vec![a]);
}

#[test]
fn settings_defaults() {
    let s = Settings::default();
    assert!(s.auto_copy);
    assert_eq!(s.shortcut, "Ctrl+Shift+V");
    assert!(s.autostart);
    assert_eq!(s.retention_days, 7);
    assert_eq!(s.aumids, vec!["Microsoft.YourPhone_8wekyb3d8bbwe".to_string()]);
    assert!(!s.onboarded);
    assert_eq!(s.language, "zh-CN");
    assert!(s.email.accounts.is_empty());
    assert_eq!(default_language(), "zh-CN");
}

#[test]
fn ui_language_picks_chinese_or_english() {
    assert_eq!(language_for_ui_language(0x0804), "zh-CN");
    assert_eq!(language_for_ui_language(0x0404), "zh-CN");
    assert_eq!(language_for_ui_language(0x0409), "en");
    assert_eq!(language_for_ui_language(0x0411), "en");
}

#[test]
fn identity_lowercases_host_and_interval_floor() {
    let acc = EmailAccount {
        host: " IMAP.QQ.com ".to_string(),
        username: " u@qq.com ".to_string(),
        poll_interval_secs: i64::MIN,
        ..EmailAccount::default()
    };
    assert_eq!(acc.identity(), "imap.qq.com:u@qq.com");
    assert_eq!(acc.interval(), 15);
}
