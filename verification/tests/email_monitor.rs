use snapcode::monitor::{
    accounts_needing_reset, backoff_secs, imap_retry, mailbox_info, newer_uids, plan_poll,
    plan_uid_state, pop3_tick, prepare_mail_record, reconcile, search_start, stale_status_ids,
    supervisor_status, truncate_chars, AccountAction, ImapRetry, MailboxInfo, Pop3Tick, PollPlan,
    MAX_PER_POLL,
};
use snapcode::mail::ParsedMail;
use snapcode::settings::EmailAccount;
use snapcode::storage::EMAIL_BASELINE_UIDL;

fn uidl_set(items: &[&str]) -> Vec<String> {
    items.iter().map(|s| s.to_string()).collect()
}

#[test]
fn first_poll_builds_baseline() {
    let seen: Vec<String> = Vec::new();
    let uidls = vec![(1, "a".to_string()), (2, "b".to_string())];
    match plan_poll(&seen, &uidls) {
        PollPlan::Baseline(marks) => {
            assert_eq!(
                marks,
                vec!["a".to_string(), "b".to_string(), EMAIL_BASELINE_UIDL.to_string()]
            );
        }
        PollPlan::Fetch(_) => panic!("首次轮询应建基线而非拉取"),
    }
}

#[test]
fn baseline_with_empty_mailbox() {
    let seen: Vec<String> = Vec::new();
    match plan_poll(&seen, &[]) {
        PollPlan::Baseline(marks) => {
            assert_eq!(marks, vec![EMAIL_BASELINE_UIDL.to_string()]);
        }
        PollPlan::Fetch(_) => panic!("空邮箱首次轮询仍应建基线"),
    }
}

#[test]
fn incremental_poll_fetches_only_unseen() {
    let seen = uidl_set(&[EMAIL_BASELINE_UIDL, "a", "b"]);
    let uidls = vec![(1, "a".to_string()), (2, "b".to_string()), (3, "c".to_string())];
    match plan_poll(&seen, &uidls) {
        PollPlan::Fetch(list) => assert_eq!(list, vec![(3, "c".to_string())]),
        PollPlan::Baseline(_) => panic!("已有基线应增量拉取"),
    }
}

#[test]
fn poll_is_capped() {
    let seen = uidl_set(&[EMAIL_BASELINE_UIDL]);
    let uidls: Vec<(u32, String)> = (1..=80).map(|i| (i, format!("u{i}"))).collect();
    match plan_poll(&seen, &uidls) {
        PollPlan::Fetch(list) => {
            assert_eq!(list.len(), MAX_PER_POLL);
            assert_eq!(list[0].0, 1);
        }
        PollPlan::Baseline(_) => panic!("已有基线应增量拉取"),
    }
}

#[test]
fn truncate_bounds_body() {
    assert_eq!(truncate_chars("abc", 500), "abc");
    let long = "x".repeat(600);
    assert_eq!(truncate_chars(&long, 500).chars().count(), 500);
    let zh = "验".repeat(600);
    assert_eq!(truncate_chars(&zh, 500), "验".repeat(500));
}

fn acc(id: &str) -> EmailAccount {
    EmailAccount {
        id: id.to_string(),
        enabled: true,
        host: "imap.example.com".to_string(),
        username: "u@example.com".to_string(),
        password: "x".to_string(),
        ..EmailAccount::default()
    }
}

fn running_of(cfgs: &[EmailAccount]) -> Vec<(String, EmailAccount)> {
    cfgs.iter().map(|c| (c.id.clone(), c.clone())).collect()
}

#[test]
fn reconcile_spawns_new_account() {
    let a = acc("a1");
    let actions = reconcile(&[a.clone()], &[]);
    assert_eq!(actions, vec![AccountAction::Spawn(a)]);
}

#[test]
fn reconcile_stops_removed_account() {
    let actions = reconcile(&[], &running_of(&[acc("a1")]));
    assert_eq!(actions, vec![AccountAction::Stop("a1".to_string())]);
}

#[test]
fn reconcile_restarts_on_config_change() {
    let old = acc("a1");
    let mut new = old.clone();
    new.port = 993;
    let actions = reconcile(&[new.clone()], &running_of(&[old]));
    assert_eq!(actions, vec![AccountAction::Spawn(new)]);
}

#[test]
fn reconcile_keeps_unchanged() {
    let a = acc("a1");
    assert!(reconcile(&[a.clone()], &running_of(&[a])).is_empty());
}

#[test]
fn reconcile_ignores_disabled_and_incomplete() {
    let mut disabled = acc("a1");
    disabled.enabled = false;
    let mut incomplete = acc("a2");
    incomplete.password = String::new();
    assert!(reconcile(&[disabled.clone(), incomplete.clone()], &[]).is_empty());
    let actions = reconcile(&[disabled, incomplete], &running_of(&[acc("a1"), acc("a2")]));
    assert_eq!(
        actions,
        vec![AccountAction::Stop("a1".to_string()), AccountAction::Stop("a2".to_string())]
    );
}

#[test]
fn reconcile_mixed_accounts() {
    let a1 = acc("a1");
    let mut a2_new = acc("a2");
    a2_new.host = "pop.example.com".to_string();
    let a3 = acc("a3");
    let mut a5 = acc("a5");
    a5.enabled = false;
    let desired = vec![a1.clone(), a2_new.clone(), a3.clone(), a5];
    let running = running_of(&[a1, acc("a2"), acc("a4"), acc("a5")]);
    let actions = reconcile(&desired, &running);
    assert_eq!(
        actions,
        vec![
            AccountAction::Spawn(a2_new),
            AccountAction::Spawn(a3),
            AccountAction::Stop("a4".to_string()),
            AccountAction::Stop("a5".to_string()),
        ]
    );
}

#[test]
fn backoff_grows_exponentially_then_caps() {
    assert_eq!(backoff_secs(0), 5);
    assert_eq!(backoff_secs(1), 10);
    assert_eq!(backoff_secs(2), 20);
    assert_eq!(backoff_secs(3), 40);
    assert_eq!(backoff_secs(4), 80);
    assert_eq!(backoff_secs(5), 160);
    assert_eq!(backoff_secs(6), 300);
    assert_eq!(backoff_secs(7), 300);
    assert_eq!(backoff_secs(u32::MAX), 300);
}

#[test]
fn uid_state_first_connect_builds_baseline() {
    assert_eq!(plan_uid_state(None, 100, 42), (41, true));
}

#[test]
fn uid_state_same_validity_resumes() {
    assert_eq!(plan_uid_state(Some((100, 55)), 100, 60), (55, false));
}

#[test]
fn uid_state_validity_change_rebaselines() {
    assert_eq!(plan_uid_state(Some((100, 55)), 200, 60), (59, true));
}

#[test]
fn uid_state_zero_uid_next_saturates() {
    assert_eq!(plan_uid_state(None, 100, 0), (0, true));
}

/* ---------- further cases ---------- */

#[test]
fn reconcile_applied_twice_is_stable() {
    // carrying out the actions, then reconciling again, leaves nothing to do
    let desired = vec![acc("b"), acc("a")];
    let actions = reconcile(&desired, &running_of(&[acc("c")]));
    let mut running: Vec<(String, EmailAccount)> = running_of(&[acc("c")]);
    for action in actions {
        match action {
            AccountAction::Spawn(cfg) => {
                running.retain(|(id, _)| id != &cfg.id);
                running.push((cfg.id.clone(), cfg));
            }
            AccountAction::Stop(id) => running.retain(|(k, _)| k != &id),
        }
    }
    let mut ids: Vec<String> = running.iter().map(|(id, _)| id.clone()).collect();
    ids.sort();
    assert_eq!(ids, vec!["a".to_string(), "b".to_string()]);
    assert!(reconcile(&desired, &running).is_empty());
}

#[test]
fn incremental_poll_keeps_mailbox_order() {
    let seen = uidl_set(&[EMAIL_BASELINE_UIDL, "b"]);
    let uidls = vec![(1, "a".to_string()), (2, "b".to_string()), (3, "c".to_string())];
    assert_eq!(
        plan_poll(&seen, &uidls),
        PollPlan::Fetch(vec![(1, "a".to_string()), (3, "c".to_string())])
    );
}

#[test]
fn search_skips_boundary_uid() {
    // the server may answer `UID n:*` with the last known UID again
    assert_eq!(search_start(5), Some(6));
    assert_eq!(search_start(u32::MAX), None);
    assert_eq!(newer_uids(&[9, 5, 7], 5), vec![7, 9]);
    assert!(newer_uids(&[5], 5).is_empty());
}

#[test]
fn mailbox_without_uid_data_is_refused() {
    assert_eq!(
        mailbox_info(Some(1680000000), Some(42), 3),
        Ok(MailboxInfo { uid_validity: 1680000000, uid_next: 42, exists: 3 })
    );
    assert_eq!(
        mailbox_info(None, Some(42), 3),
        Err("服务器未返回 UIDVALIDITY，无法建立同步基线".to_string())
    );
    assert_eq!(
        mailbox_info(Some(1), None, 3),
        Err("服务器未返回 UIDNEXT，无法建立同步基线".to_string())
    );
}

#[test]
fn worker_steps() {
    assert_eq!(imap_retry(true, false, 3), ImapRetry::Exit);
    assert_eq!(imap_retry(false, true, 3), ImapRetry::Resume);
    assert_eq!(imap_retry(false, false, 2), ImapRetry::Backoff { secs: 20, next_attempt: 3 });
    assert_eq!(imap_retry(false, false, u32::MAX), ImapRetry::Backoff { secs: 300, next_attempt: u32::MAX });
    assert_eq!(pop3_tick(true, false, true), Pop3Tick::Exit);
    assert_eq!(pop3_tick(false, true, true), Pop3Tick::Pause);
    assert_eq!(pop3_tick(false, false, false), Pop3Tick::Wait);
    assert_eq!(pop3_tick(false, false, true), Pop3Tick::Poll);
}

#[test]
fn supervisor_shows_disabled_incomplete_and_paused() {
    let mut disabled = acc("a1");
    disabled.enabled = false;
    let s = supervisor_status(&disabled, false, "zh-CN").unwrap();
    assert_eq!((s.state.as_str(), s.message), ("disabled", None));
    let mut incomplete = acc("a2");
    incomplete.host = "  ".to_string();
    let s = supervisor_status(&incomplete, true, "en").unwrap();
    assert_eq!(s.state, "disabled");
    assert_eq!(
        s.message.as_deref(),
        Some("Email settings incomplete: fill in server, account and auth code")
    );
    let s = supervisor_status(&acc("a3"), true, "zh-CN").unwrap();
    assert_eq!(s.state, "paused");
    assert!(supervisor_status(&acc("a3"), false, "zh-CN").is_none());
}

#[test]
fn stale_states_are_those_of_removed_accounts() {
    let ids = vec!["a1".to_string(), "gone".to_string(), "a2".to_string()];
    assert_eq!(stale_status_ids(&ids, &[acc("a1"), acc("a2")]), vec!["gone".to_string()]);
}

#[test]
fn mail_record_from_parsed_mail() {
    let mail = ParsedMail {
        sender: Some("淘宝网".to_string()),
        text: "登录验证码\n尊敬的用户，您的验证码为 730251，5 分钟内有效。".to_string(),
        received_at: None,
    };
    let mut account = acc("a1");
    account.name = "  工作邮箱 ".to_string();
    let r = prepare_mail_record(account.display_name(), &mail, 1234).unwrap();
    assert_eq!(r.code, "730251");
    assert_eq!(r.source, "email:工作邮箱");
    assert_eq!(r.sender.as_deref(), Some("淘宝网"));
    assert_eq!(r.received_at, 1234);
    let no_code = ParsedMail { sender: None, text: "Order shipped\nThanks".to_string(), received_at: Some(5) };
    assert!(prepare_mail_record("x", &no_code, 1).is_none());
}

#[test]
fn changed_identity_resets_account() {
    let old = vec![acc("a1"), acc("a2"), acc("a3")];
    let mut a2 = acc("a2");
    a2.username = "other@example.com".to_string();
    let mut a1 = acc("a1");
    a1.port = 993; // not part of the identity
    let new = vec![a1, a2];
    assert_eq!(accounts_needing_reset(&old, &new), vec!["a2".to_string(), "a3".to_string()]);
}

#[test]
fn fetched_mail_is_not_fetched_again() {
    let mut seen = uidl_set(&[EMAIL_BASELINE_UIDL, "a"]);
    let uidls = vec![(1, "a".to_string()), (2, "b".to_string())];
    let fetched = match plan_poll(&seen, &uidls) {
        PollPlan::Fetch(list) => list,
        PollPlan::Baseline(_) => panic!("baseline exists"),
    };
    assert_eq!(fetched, vec![(2, "b".to_string())]);
    seen.extend(fetched.into_iter().map(|(_, u)| u));
    let later = vec![(1, "b".to_string()), (2, "c".to_string())];
    assert_eq!(plan_poll(&seen, &later), PollPlan::Fetch(vec![(2, "c".to_string())]));
}

#[test]
fn reconcile_starts_first_then_stops_in_id_order() {
    let b = acc("b");
    let running = running_of(&[acc("z9"), acc("a3"), acc("m1")]);
    let actions = reconcile(&[b.clone()], &running);
    assert_eq!(
        actions,
        vec![
            AccountAction::Spawn(b),
            AccountAction::Stop("a3".to_string()),
            AccountAction::Stop("m1".to_string()),
            AccountAction::Stop("z9".to_string()),
        ]
    );
}
