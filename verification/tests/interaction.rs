//! Tests of the interaction state machine: key and mouse handling, modal
//! workflows, and command-outcome application.

use jailview::controller::{handle_key, handle_mouse_press, unban_batches};
use jailview::fetch::{build_jail, fetch_status, JailQuery};
use jailview::model::{
    Command, Focus, IpEntry, JailStatus, KeyCode, KeyInput, Modal, PanelRect, SortMode,
    TimeValue, UiState, UnbanStep, refresh_due,
};

fn key(code: KeyCode) -> KeyInput {
    KeyInput { code, ctrl: false, shift: false }
}

fn ch(c: char) -> KeyInput {
    key(KeyCode::Char(c))
}

fn entry(ip: &str, end_epoch: Option<i64>) -> IpEntry {
    IpEntry { ip: ip.to_string(), end_epoch, time_raw: None }
}

fn jail(name: &str, ips: Vec<IpEntry>) -> JailStatus {
    JailStatus {
        name: name.to_string(),
        ips,
        bantime: TimeValue { raw: "600".to_string(), seconds: Some(600) },
        findtime: TimeValue { raw: "600".to_string(), seconds: Some(600) },
        maxretry: Some(5),
        currently_banned: None,
        total_banned: None,
    }
}

fn state_with_sshd() -> UiState {
    let mut s = UiState::new();
    s.apply_refresh_success(vec![jail(
        "sshd",
        vec![entry("10.0.0.1", None), entry("10.0.0.2", Some(2000))],
    )]);
    s
}

const NOW: i64 = 1000;

#[test]
fn initial_state_defaults() {
    let s = UiState::new();
    assert!(s.jails.is_empty());
    assert_eq!(s.jail_selected, None);
    assert_eq!(s.focus, Focus::Jails);
    assert_eq!(s.sort_mode, SortMode::Ip);
    assert!(!s.autorefresh);
    assert_eq!(s.refresh_interval_secs, 5);
}

#[test]
fn refresh_success_selects_first_jail() {
    let s = state_with_sshd();
    assert_eq!(s.jail_selected, Some(0));
    assert_eq!(s.ip_selected, Some(0));
    assert_eq!(s.status, "Refreshed");
}

#[test]
fn refresh_success_with_no_jails_clears_selection() {
    let mut s = state_with_sshd();
    s.apply_refresh_success(Vec::new());
    assert_eq!(s.jail_selected, None);
    assert_eq!(s.ip_selected, None);
    assert_eq!(s.status, "No jails reported by fail2ban-client");
}

#[test]
fn refresh_failure_keeps_snapshot() {
    let mut s = state_with_sshd();
    s.apply_refresh_failure("boom");
    assert_eq!(s.jails.len(), 1);
    assert_eq!(s.status, "Refresh failed: boom");
}

#[test]
fn quit_keys() {
    let mut s = state_with_sshd();
    assert!(matches!(handle_key(&mut s, ch('q'), NOW), Some(Command::Quit)));
    assert!(matches!(
        handle_key(&mut s, KeyInput { code: KeyCode::Char('c'), ctrl: true, shift: false }, NOW),
        Some(Command::Quit)
    ));
}

#[test]
fn refresh_key_hands_out_the_command() {
    let mut s = state_with_sshd();
    assert!(matches!(handle_key(&mut s, ch('r'), NOW), Some(Command::Refresh)));
}

#[test]
fn toggles() {
    let mut s = state_with_sshd();
    assert!(handle_key(&mut s, ch('t'), NOW).is_none());
    assert!(s.autorefresh);
    assert_eq!(s.status, "Auto-refresh enabled");
    handle_key(&mut s, ch('t'), NOW);
    assert!(!s.autorefresh);
    assert_eq!(s.status, "Auto-refresh disabled");

    handle_key(&mut s, ch('s'), NOW);
    assert_eq!(s.sort_mode, SortMode::TimeLeft);
    assert_eq!(s.ip_selected, Some(0));
    assert_eq!(s.status, "Sort mode updated");
}

#[test]
fn tab_flips_focus_and_enter_descends() {
    let mut s = state_with_sshd();
    handle_key(&mut s, key(KeyCode::Tab), NOW);
    assert_eq!(s.focus, Focus::Ips);
    handle_key(&mut s, key(KeyCode::Tab), NOW);
    assert_eq!(s.focus, Focus::Jails);
    handle_key(&mut s, key(KeyCode::Enter), NOW);
    assert_eq!(s.focus, Focus::Ips);
}

#[test]
fn movement_clamps() {
    let mut s = UiState::new();
    s.apply_refresh_success(vec![jail("a", vec![]), jail("b", vec![])]);
    handle_key(&mut s, key(KeyCode::Up), NOW);
    assert_eq!(s.jail_selected, Some(0));
    handle_key(&mut s, key(KeyCode::Down), NOW);
    assert_eq!(s.jail_selected, Some(1));
    handle_key(&mut s, ch('j'), NOW);
    assert_eq!(s.jail_selected, Some(1));
    handle_key(&mut s, ch('k'), NOW);
    assert_eq!(s.jail_selected, Some(0));
}

#[test]
fn row_movement_follows_projection() {
    let mut s = state_with_sshd();
    s.focus = Focus::Ips;
    handle_key(&mut s, key(KeyCode::Down), NOW);
    assert_eq!(s.ip_selected, Some(1));
    handle_key(&mut s, key(KeyCode::Down), NOW);
    assert_eq!(s.ip_selected, Some(1));
    handle_key(&mut s, key(KeyCode::Up), NOW);
    assert_eq!(s.ip_selected, Some(0));
}

#[test]
fn search_entry_edits_and_commits() {
    let mut s = state_with_sshd();
    handle_key(&mut s, ch('/'), NOW);
    assert!(s.search_mode);
    handle_key(&mut s, ch('1'), NOW);
    handle_key(&mut s, ch('0'), NOW);
    handle_key(&mut s, key(KeyCode::Backspace), NOW);
    assert_eq!(s.search_query, "1");
    handle_key(&mut s, key(KeyCode::Enter), NOW);
    assert!(!s.search_mode);
    assert_eq!(s.search_query, "1");
    assert_eq!(s.ip_selected, Some(0));
    assert_eq!(s.status, "Filter applied");
}

#[test]
fn search_escape_keeps_typed_query() {
    let mut s = state_with_sshd();
    handle_key(&mut s, ch('/'), NOW);
    handle_key(&mut s, ch('z'), NOW);
    handle_key(&mut s, key(KeyCode::Esc), NOW);
    assert!(!s.search_mode);
    assert_eq!(s.search_query, "z");
    assert_eq!(s.status, "Filter canceled");
}

#[test]
fn clear_filter_key() {
    let mut s = state_with_sshd();
    handle_key(&mut s, ch('/'), NOW);
    handle_key(&mut s, ch('z'), NOW);
    handle_key(&mut s, key(KeyCode::Enter), NOW);
    handle_key(&mut s, ch('x'), NOW);
    assert_eq!(s.search_query, "");
    assert_eq!(s.ip_selected, Some(0));
    assert_eq!(s.status, "Filter cleared");
}

#[test]
fn unban_flow_issues_command_then_closes_on_success() {
    // Typing `u` with a selected row opens the confirmation; `y` issues the
    // unban command; on tool success the modal closes and a refresh follows.
    let mut s = state_with_sshd();
    s.focus = Focus::Ips;
    s.sort_mode = SortMode::TimeLeft;
    assert!(handle_key(&mut s, ch('u'), NOW).is_none());
    match &s.modal {
        Some(Modal::UnbanIp { jail, ip }) => {
            assert_eq!(jail, "sshd");
            assert_eq!(ip, "10.0.0.2");
        },
        other => panic!("unexpected modal: {other:?}"),
    }
    let cmd = handle_key(&mut s, ch('y'), NOW);
    match cmd {
        Some(Command::Unban { jail, ip }) => {
            assert_eq!(jail, "sshd");
            assert_eq!(ip, "10.0.0.2");
        },
        other => panic!("unexpected command: {other:?}"),
    }
    assert!(s.modal.is_some());
    let refresh = s.apply_unban_result(true, "");
    assert!(refresh);
    assert!(s.modal.is_none());
    assert_eq!(s.status, "Unbanned 10.0.0.2 from sshd");
}

#[test]
fn unban_failure_closes_without_refresh() {
    let mut s = state_with_sshd();
    s.modal = Some(Modal::UnbanIp { jail: "sshd".to_string(), ip: "10.0.0.2".to_string() });
    let refresh = s.apply_unban_result(false, "no such ip");
    assert!(!refresh);
    assert!(s.modal.is_none());
    assert_eq!(s.status, "Unban failed for 10.0.0.2: no such ip");
}

#[test]
fn unban_all_takes_two_confirmations() {
    // The unban-all key opens the first step; one confirmation only arms
    // the final step; the second hands out the bulk command.
    let mut s = state_with_sshd();
    assert!(handle_key(&mut s, ch('A'), NOW).is_none());
    assert!(matches!(
        s.modal,
        Some(Modal::UnbanAll { step: UnbanStep::First, .. })
    ));
    assert!(handle_key(&mut s, ch('y'), NOW).is_none());
    assert!(matches!(
        s.modal,
        Some(Modal::UnbanAll { step: UnbanStep::Final, .. })
    ));
    assert_eq!(s.status, "Second confirmation required");
    let cmd = handle_key(&mut s, ch('y'), NOW);
    assert!(matches!(cmd, Some(Command::UnbanAll { .. })));
    let refresh = s.apply_unban_all_result(2, None);
    assert!(refresh);
    assert!(s.modal.is_none());
    assert_eq!(s.status, "Unbanned 2 IPs from sshd");
    // With the modal closed, a further confirmation key does nothing.
    assert!(handle_key(&mut s, ch('y'), NOW).is_none());
    assert!(s.modal.is_none());
}

#[test]
fn unban_all_failure_reports_partial_count() {
    let mut s = state_with_sshd();
    s.modal = Some(Modal::UnbanAll { jail: "sshd".to_string(), step: UnbanStep::Final });
    let refresh = s.apply_unban_all_result(50, Some("tool exited"));
    assert!(!refresh);
    assert!(s.modal.is_none());
    assert_eq!(s.status, "Unban all failed for sshd after 50 unbanned: tool exited");
}

#[test]
fn ban_flow_validates_input_inline() {
    // Typing `b`, entering an invalid address and pressing enter keeps the
    // modal open with a validation message and issues no command.
    let mut s = state_with_sshd();
    assert!(handle_key(&mut s, ch('b'), NOW).is_none());
    assert!(matches!(s.modal, Some(Modal::BanIp { .. })));
    assert_eq!(s.status, "Enter IP to ban");
    for c in "not-an-ip".chars() {
        assert!(handle_key(&mut s, ch(c), NOW).is_none());
    }
    assert!(handle_key(&mut s, key(KeyCode::Enter), NOW).is_none());
    match &s.modal {
        Some(Modal::BanIp { input, error, .. }) => {
            assert_eq!(input, "not-an-ip");
            assert_eq!(error.as_deref(), Some("Invalid IP address"));
        },
        other => panic!("unexpected modal: {other:?}"),
    }
}

#[test]
fn ban_flow_valid_address_issues_command() {
    let mut s = state_with_sshd();
    handle_key(&mut s, ch('b'), NOW);
    for c in "10.0.0.9".chars() {
        handle_key(&mut s, ch(c), NOW);
    }
    let cmd = handle_key(&mut s, key(KeyCode::Enter), NOW);
    match cmd {
        Some(Command::Ban { jail, ip }) => {
            assert_eq!(jail, "sshd");
            assert_eq!(ip, "10.0.0.9");
        },
        other => panic!("unexpected command: {other:?}"),
    }
    let refresh = s.apply_ban_result("10.0.0.9", true, "");
    assert!(refresh);
    assert!(s.modal.is_none());
    assert_eq!(s.status, "Banned 10.0.0.9 in sshd");
}

#[test]
fn ban_failure_keeps_input_for_correction() {
    let mut s = state_with_sshd();
    handle_key(&mut s, ch('b'), NOW);
    for c in "10.0.0.9".chars() {
        handle_key(&mut s, ch(c), NOW);
    }
    handle_key(&mut s, key(KeyCode::Enter), NOW);
    let refresh = s.apply_ban_result("10.0.0.9", false, "tool exited");
    assert!(!refresh);
    match &s.modal {
        Some(Modal::BanIp { input, error, .. }) => {
            assert_eq!(input, "10.0.0.9");
            assert_eq!(error.as_deref(), Some("Ban failed: tool exited"));
        },
        other => panic!("unexpected modal: {other:?}"),
    }
}

#[test]
fn ban_escape_cancels() {
    let mut s = state_with_sshd();
    handle_key(&mut s, ch('b'), NOW);
    assert!(handle_key(&mut s, key(KeyCode::Esc), NOW).is_none());
    assert!(s.modal.is_none());
    assert_eq!(s.status, "Action canceled");
}

#[test]
fn mouse_selects_jail_row() {
    let mut s = UiState::new();
    s.apply_refresh_success(vec![jail("a", vec![]), jail("b", vec![])]);
    s.jail_rect = Some(PanelRect { x: 0, y: 0, width: 20, height: 10 });
    assert!(handle_mouse_press(&mut s, 2, 2, NOW).is_none());
    assert_eq!(s.focus, Focus::Jails);
    assert_eq!(s.jail_selected, Some(1));
    assert_eq!(s.ip_selected, Some(0));
}

#[test]
fn mouse_on_entry_row_opens_unban() {
    let mut s = state_with_sshd();
    s.ip_rect = Some(PanelRect { x: 30, y: 0, width: 20, height: 10 });
    assert!(handle_mouse_press(&mut s, 31, 2, NOW).is_none());
    assert_eq!(s.focus, Focus::Ips);
    assert_eq!(s.ip_selected, Some(1));
    match &s.modal {
        Some(Modal::UnbanIp { jail, ip }) => {
            assert_eq!(jail, "sshd");
            assert_eq!(ip, "10.0.0.2");
        },
        other => panic!("unexpected modal: {other:?}"),
    }
}

#[test]
fn mouse_on_modal_buttons() {
    let mut s = state_with_sshd();
    s.modal = Some(Modal::UnbanIp { jail: "sshd".to_string(), ip: "10.0.0.1".to_string() });
    s.modal_yes_rect = Some(PanelRect { x: 0, y: 0, width: 5, height: 1 });
    s.modal_no_rect = Some(PanelRect { x: 5, y: 0, width: 5, height: 1 });
    let cmd = handle_mouse_press(&mut s, 1, 0, NOW);
    assert!(matches!(cmd, Some(Command::Unban { .. })));
    // A press on the cancel button closes the modal.
    let cmd = handle_mouse_press(&mut s, 6, 0, NOW);
    assert!(cmd.is_none());
    assert!(s.modal.is_none());
    assert_eq!(s.status, "Action canceled");
}

#[test]
fn mouse_elsewhere_with_modal_is_ignored() {
    let mut s = state_with_sshd();
    s.modal = Some(Modal::UnbanIp { jail: "sshd".to_string(), ip: "10.0.0.1".to_string() });
    s.jail_rect = Some(PanelRect { x: 0, y: 0, width: 20, height: 10 });
    assert!(handle_mouse_press(&mut s, 2, 2, NOW).is_none());
    assert!(s.modal.is_some());
}

#[test]
fn unban_batches_split_at_fifty() {
    let ips: Vec<IpEntry> = (0..120).map(|i| entry(&format!("10.0.{}.{}", i / 256, i % 256), None)).collect();
    let mut s = UiState::new();
    s.apply_refresh_success(vec![jail("big", ips)]);
    let batches = unban_batches(&s, "big").expect("jail exists");
    assert_eq!(batches.len(), 3);
    assert_eq!(batches[0].len(), 50);
    assert_eq!(batches[1].len(), 50);
    assert_eq!(batches[2].len(), 20);
    assert_eq!(batches[0][0], "10.0.0.0");
    assert_eq!(batches[2][19], "10.0.0.119");
    assert!(unban_batches(&s, "absent").is_none());
}

#[test]
fn unban_batches_empty_jail() {
    let mut s = UiState::new();
    s.apply_refresh_success(vec![jail("idle", vec![])]);
    let batches = unban_batches(&s, "idle").expect("jail exists");
    assert!(batches.is_empty());
}

#[test]
fn refresh_due_needs_toggle_and_elapsed_interval() {
    assert!(refresh_due(true, 5, 5));
    assert!(!refresh_due(true, 4, 5));
    assert!(!refresh_due(false, 10, 5));
}

#[test]
fn snapshot_assembly_sorts_busiest_first() {
    let q = |name: &str, status: &str, banip: Option<&str>| JailQuery {
        name: name.to_string(),
        status_text: status.to_string(),
        bantime_text: Some("600".to_string()),
        findtime_text: Some("600".to_string()),
        maxretry_text: Some("5".to_string()),
        banip_text: banip.map(|s| s.to_string()),
    };
    let queries = vec![
        q("quiet", "`- Banned IP list:\n", Some("")),
        q("busy", "", Some("10.0.0.1 900 10.0.0.2 901")),
        q("also", "", Some("10.0.0.3 902")),
    ];
    let jails = fetch_status(&queries, 1000);
    let names: Vec<&str> = jails.iter().map(|j| j.name.as_str()).collect();
    assert_eq!(names, vec!["busy", "also", "quiet"]);
    assert_eq!(jails[0].ips.len(), 2);
    assert_eq!(jails[0].bantime.seconds, Some(600));
}

#[test]
fn build_jail_falls_back_when_annotated_list_fails() {
    let q = JailQuery {
        name: "sshd".to_string(),
        status_text: "|- Currently banned: 1\n`- Banned IP list: 10.0.0.7\n".to_string(),
        bantime_text: None,
        findtime_text: None,
        maxretry_text: None,
        banip_text: None,
    };
    let j = build_jail(&q, 1000);
    assert_eq!(j.name, "sshd");
    assert_eq!(j.bantime.raw, "n/a");
    assert_eq!(j.bantime.seconds, None);
    assert_eq!(j.maxretry, None);
    assert_eq!(j.currently_banned, Some(1));
    assert_eq!(j.ips.len(), 1);
    assert_eq!(j.ips[0].ip, "10.0.0.7");
    assert_eq!(j.ips[0].end_epoch, None);
}

#[test]
fn normalize_selection_clamps_into_projection() {
    let mut s = state_with_sshd();
    s.ip_selected = Some(5);
    s.normalize_selection(NOW);
    assert_eq!(s.ip_selected, Some(1));
    s.search_query = "no-match".to_string();
    s.normalize_selection(NOW);
    assert_eq!(s.ip_selected, None);
}
