use std::collections::HashSet;

use snapcode::commands::{settings_rollback, SettingsRollback, SettingsStep};
use snapcode::monitor::{imap_next, imap_wait, ImapAction, ImapWait};
use snapcode::notifications::{
    first_sighting, listener_poll_secs, listener_start, listener_step, AccessOutcome, ListenerAction,
    ListenerWake,
};
use snapcode::paste::{modifier_wait_step, ModifierWait};

#[test]
fn listener_start_outcomes() {
    let s = listener_start("zh-CN", false, Ok(()), AccessOutcome::Allowed, false);
    assert_eq!(s.status.state, "unsupported");
    assert_eq!(s.status.message.as_deref(), Some("需要 Windows 10 1809 或更高版本"));
    assert!(!s.listening && !s.poll_first);

    let s = listener_start("en", true, Err("0x80004005".to_string()), AccessOutcome::Allowed, false);
    assert_eq!(s.status.state, "error");
    assert_eq!(
        s.status.message.as_deref(),
        Some("Failed to initialize the notification listener: 0x80004005")
    );
    assert!(!s.listening);

    let s = listener_start("zh-CN", true, Ok(()), AccessOutcome::Denied, false);
    assert_eq!(s.status.state, "access_denied");
    assert_eq!(s.status.message.as_deref(), Some("未授予通知访问权限，请在系统设置中开启"));
    assert!(!s.listening);

    let s = listener_start("zh-CN", true, Ok(()), AccessOutcome::Failed("boom".to_string()), false);
    assert_eq!(s.status.state, "error");
    assert_eq!(s.status.message.as_deref(), Some("请求通知访问权限失败: boom"));

    let s = listener_start("zh-CN", true, Ok(()), AccessOutcome::Allowed, true);
    assert_eq!((s.status.state.as_str(), s.status.message.clone()), ("paused", None));
    assert!(s.listening && !s.poll_first);

    let s = listener_start("zh-CN", true, Ok(()), AccessOutcome::Allowed, false);
    assert_eq!((s.status.state.as_str(), s.status.message.clone()), ("running", None));
    assert!(s.listening && s.poll_first);
}

#[test]
fn listener_poll_interval_and_steps() {
    assert_eq!(listener_poll_secs(true), 60);
    assert_eq!(listener_poll_secs(false), 1);
    assert_eq!(listener_step(false, ListenerWake::Added(7)), ListenerAction::Fetch(7));
    assert_eq!(listener_step(true, ListenerWake::Added(7)), ListenerAction::Skip);
    assert_eq!(listener_step(false, ListenerWake::Timeout), ListenerAction::PollAll);
    assert_eq!(listener_step(true, ListenerWake::Timeout), ListenerAction::Skip);
    assert_eq!(listener_step(true, ListenerWake::Disconnected), ListenerAction::Stop);
    assert_eq!(listener_step(false, ListenerWake::Disconnected), ListenerAction::Stop);
}

#[test]
fn each_toast_is_handled_once() {
    let mut seen = HashSet::new();
    // read from an event, then again by a poll that also finds another one
    let results: Vec<bool> = [5u32, 5, 9, 5, 9].iter().map(|&id| first_sighting(&mut seen, id)).collect();
    assert_eq!(results, vec![true, false, true, false, false]);
    assert_eq!(seen, HashSet::from([5, 9]));
}

#[test]
fn modifier_wait_decisions() {
    assert_eq!(modifier_wait_step(false, 0), ModifierWait::Done);
    assert_eq!(modifier_wait_step(false, 10_000), ModifierWait::Done);
    assert_eq!(modifier_wait_step(true, 0), ModifierWait::SleepMs(15));
    assert_eq!(modifier_wait_step(true, 599), ModifierWait::SleepMs(15));
    assert_eq!(modifier_wait_step(true, 600), ModifierWait::TimedOut);
}

#[test]
fn imap_session_steps() {
    assert_eq!(imap_next(true, false, false, &[], 0), ImapAction::Leave);
    assert_eq!(imap_next(false, true, true, &[4, 5], 0), ImapAction::Leave);
    assert_eq!(imap_next(false, false, false, &[], 0), ImapAction::Search);
    assert_eq!(imap_next(false, false, true, &[4, 5], 0), ImapAction::Fetch(4));
    assert_eq!(imap_next(false, false, true, &[4, 5], 1), ImapAction::Fetch(5));
    assert_eq!(imap_next(false, false, true, &[4, 5], 2), ImapAction::Wait);
    assert_eq!(imap_next(false, false, true, &[], 0), ImapAction::Wait);
    let many: Vec<u32> = (1..=60).collect();
    assert_eq!(imap_next(false, false, true, &many, 49), ImapAction::Fetch(50));
    assert_eq!(imap_next(false, false, true, &many, 50), ImapAction::Wait);
    assert_eq!(imap_wait(true, 30), ImapWait::Idle);
    assert_eq!(imap_wait(false, 30), ImapWait::Sleep(30));
}

#[test]
fn refused_settings_update_is_undone() {
    assert_eq!(
        settings_rollback(SettingsStep::Shortcut),
        SettingsRollback { shortcut: true, autostart: false, settings: false }
    );
    assert_eq!(
        settings_rollback(SettingsStep::Autostart),
        SettingsRollback { shortcut: true, autostart: true, settings: false }
    );
    assert_eq!(
        settings_rollback(SettingsStep::Save),
        SettingsRollback { shortcut: true, autostart: true, settings: true }
    );
}
