use snapcode::commands::{format_date, pause_effect, simulated_record, update_info, PauseEffect};
use snapcode::i18n::{
    app_name, email_connect_failed, is_en, pick, shortcut_register_failed, tray_open, tray_pause,
};
use snapcode::notifications::{
    aumid_matches, build_supported, dump_current_toasts, filetime_to_unix_millis, source_allowed, toast_record,
    toast_texts,
};
use snapcode::state::{EmailState, EmailStatusTable, ListenerState};
use snapcode::storage::{
    is_legacy_seen_table, millis_to_timestamp, now_millis, retention_cutoff, search_pattern, seen_cutoff, CodeRecord,
    PendingRecord,
};
use snapcode::toast::{ensure_app_shortcut, toast_xml, APP_AUMID};

#[test]
fn status_table_broadcasts_only_changes() {
    let mut t = EmailStatusTable::new();
    assert!(t.set("b", "running", None));
    assert!(!t.set("b", "running", None));
    assert!(t.set("b", "error", Some("timeout".to_string())));
    assert!(t.set("a", "paused", None));
    assert_eq!(t.get("b"), Some(&EmailState::new("error", Some("timeout".to_string()))));
    let list = t.sorted_list();
    let ids: Vec<&str> = list.iter().map(|s| s.account_id.as_str()).collect();
    assert_eq!(ids, vec!["a", "b"]);
    assert_eq!(list[1].message.as_deref(), Some("timeout"));
    assert!(t.remove("a"));
    assert!(!t.remove("a"));
    assert!(t.get("a").is_none());
    assert_eq!(t.ids(), vec!["b".to_string()]);
}

#[test]
fn default_states() {
    let l = ListenerState::default();
    assert_eq!((l.state.as_str(), l.message), ("starting", None));
    let e = EmailState::default();
    assert_eq!((e.state.as_str(), e.message), ("disabled", None));
}

#[test]
fn messages_follow_the_language() {
    assert!(is_en("en"));
    assert!(!is_en("zh-CN"));
    assert_eq!(pick("en", "中", "en"), "en");
    assert_eq!(pick("fr", "中", "en"), "中");
    assert_eq!(app_name("zh-CN"), "SnapCode");
    assert_eq!(tray_open("en"), "Open SnapCode");
    assert_eq!(tray_pause("zh-CN", true), "恢复监听");
    assert_eq!(tray_pause("en", false), "Pause listening");
    assert_eq!(email_connect_failed("zh-CN", "timeout"), "无法连接邮箱服务器: timeout");
    assert_eq!(
        email_connect_failed("en", "timeout"),
        "Failed to connect to the mail server: timeout"
    );
    assert!(shortcut_register_failed("en", "Ctrl+V", "busy").ends_with(": busy"));
}

#[test]
fn toast_sources_and_texts() {
    let aumids = vec!["  microsoft.yourphone_8wekyb3d8bbwe ".to_string(), "   ".to_string()];
    assert!(source_allowed("Microsoft.YourPhone_8wekyb3d8bbwe!App", &aumids));
    assert!(!source_allowed("Other.App", &aumids));
    assert!(!aumid_matches("anything", ""));
    assert!(aumid_matches("pfn!app", "pfn"));
    let texts = vec!["  ".to_string(), "银行".to_string(), "".to_string(), "第一行".to_string(), "第二行".to_string()];
    assert_eq!(toast_texts(&texts), Some(("银行".to_string(), "第一行\n第二行".to_string())));
    assert_eq!(toast_texts(&["".to_string()]), None);
    assert_eq!(dump_current_toasts().err(), Some("当前平台不支持通知读取".to_string()));
}

#[test]
fn toast_time_conversion() {
    assert_eq!(filetime_to_unix_millis(116_444_736_000_000_000), 0);
    assert_eq!(filetime_to_unix_millis(116_444_736_000_000_000 + 17_040_816_000_000_000), 1_704_081_600_000);
    assert_eq!(filetime_to_unix_millis(116_444_735_999_990_001), 0);
    assert_eq!(filetime_to_unix_millis(116_444_735_999_980_000), -2);
    assert_eq!(filetime_to_unix_millis(i64::MIN), i64::MIN / 10_000);
}

#[test]
fn toast_with_code_becomes_record() {
    let aumids = vec!["Microsoft.YourPhone".to_string()];
    let texts = vec!["10690000".to_string(), "【支付宝】您的验证码是 123456".to_string()];
    let r = toast_record("Microsoft.YourPhone!App", &aumids, &texts, None, 77).unwrap();
    assert_eq!(r.code, "123456");
    assert_eq!(r.sender.as_deref(), Some("10690000"));
    assert_eq!(r.body, "【支付宝】您的验证码是 123456");
    assert_eq!(r.received_at, 77);
    assert!(toast_record("Other", &aumids, &texts, None, 77).is_none());
    let plain = vec!["Mom".to_string(), "see you at 7".to_string()];
    assert!(toast_record("Microsoft.YourPhone", &aumids, &plain, None, 77).is_none());
}

#[test]
fn toast_document_is_escaped() {
    assert_eq!(APP_AUMID, "com.snapcode.app");
    assert!(ensure_app_shortcut().is_ok());
    assert_eq!(
        toast_xml("SnapCode", "a<b & c>"),
        "<toast><visual><binding template=\"ToastGeneric\"><text>SnapCode</text><text>a&lt;b &amp; c&gt;</text></binding></visual></toast>"
    );
}

#[test]
fn update_and_commands() {
    assert_eq!(format_date(2024, 3, 7), "2024-03-07");
    assert_eq!(format_date(-5, 12, 31), "-005-12-31");
    assert_eq!(format_date(12345, 1, 1), "12345-01-01");
    let info = update_info("1.2.0".to_string(), "1.1.0".to_string(), None, Some((2025, 1, 9)));
    assert_eq!(info.date.as_deref(), Some("2025-01-09"));
    assert_eq!(info.version, "1.2.0");
    assert!(update_info("a".to_string(), "b".to_string(), None, None).date.is_none());
    assert_eq!(pause_effect(true, false), PauseEffect::ReportPaused);
    assert_eq!(pause_effect(false, true), PauseEffect::ReportRunning);
    assert_eq!(pause_effect(false, false), PauseEffect::Restart);
    let r = simulated_record("en", "Your code is 5566", 9).unwrap();
    assert_eq!((r.source.as_str(), r.sender.as_deref(), r.code.as_str()), ("debug", Some("Simulated"), "5566"));
    assert!(simulated_record("zh-CN", "你好", 9).is_none());
}

#[test]
fn storage_computations() {
    assert_eq!(retention_cutoff(1_000_000_000, 0), None);
    assert_eq!(retention_cutoff(1_000_000_000, 1), Some(1_000_000_000 - 86_400_000));
    assert_eq!(seen_cutoff(100_000_000, 0), 100_000_000 - 86_400_000);
    assert_eq!(seen_cutoff(100_000_000, 30), 100_000_000 - 30 * 86_400_000);
    assert_eq!(search_pattern(Some("  482 ")), Some("%482%".to_string()));
    assert_eq!(search_pattern(Some("   ")), None);
    assert_eq!(search_pattern(None), None);
    assert_eq!(millis_to_timestamp(None), 0);
    assert_eq!(millis_to_timestamp(Some(1_704_081_600_000)), 1_704_081_600_000);
    assert!(now_millis() > 1_600_000_000_000);
    let p = PendingRecord {
        source: "s".to_string(),
        sender: None,
        body: "b".to_string(),
        code: "1234".to_string(),
        received_at: 5,
    };
    let r = CodeRecord::stored(3, p);
    assert_eq!((r.id, r.code.as_str(), r.used), (3, "1234", false));
}

#[test]
fn legacy_seen_table_is_recognized() {
    assert!(!is_legacy_seen_table(&[]));
    assert!(is_legacy_seen_table(&["uidl".to_string(), "seen_at".to_string()]));
    assert!(!is_legacy_seen_table(&["account_id".to_string(), "uidl".to_string(), "seen_at".to_string()]));
}

#[test]
fn listener_needs_windows_1809() {
    assert!(build_supported(true, 17763));
    assert!(!build_supported(true, 17134));
    assert!(build_supported(false, 0));
}

#[test]
fn toast_escaping_replaces_in_turn() {
    let title = "a<b&c";
    let escaped = title.replace('&', "&amp;").replace('<', "&lt;").replace('>', "&gt;");
    assert_eq!(escaped, "a&lt;b&amp;c");
    assert_eq!(
        toast_xml(title, "&gt;"),
        format!(
            "<toast><visual><binding template=\"ToastGeneric\"><text>{}</text><text>&amp;gt;</text></binding></visual></toast>",
            escaped
        )
    );
}
