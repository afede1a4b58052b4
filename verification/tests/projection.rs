//! Tests of the filtered, sorted projection and the panel geometry.

use jailview::model::{IpEntry, JailStatus, PanelRect, SortMode, TimeValue};
use jailview::view::{current_ip_view, format_ip_line, list_index_from_mouse, point_in_rect, total_banned};

fn entry(ip: &str, end_epoch: Option<i64>) -> IpEntry {
    IpEntry { ip: ip.to_string(), end_epoch, time_raw: None }
}

fn jail(name: &str, ips: Vec<IpEntry>) -> JailStatus {
    JailStatus {
        name: name.to_string(),
        ips,
        bantime: TimeValue { raw: "600".to_string(), seconds: Some(600) },
        findtime: TimeValue { raw: "600".to_string(), seconds: Some(600) },
        maxretry: Some(5),
        currently_banned: None,
        total_banned: None,
    }
}

#[test]
fn projection_filters_case_insensitively() {
    let j = jail(
        "sshd",
        vec![entry("2001:DB8::1", None), entry("10.0.0.1", None), entry("2001:db8::2", None)],
    );
    let view = current_ip_view(&j, "db8", SortMode::Ip, 0);
    let ips: Vec<&str> = view.iter().map(|&i| j.ips[i].ip.as_str()).collect();
    assert_eq!(ips, vec!["2001:DB8::1", "2001:db8::2"]);
}

#[test]
fn projection_sorts_by_address() {
    let j = jail("sshd", vec![entry("10.0.0.2", None), entry("10.0.0.10", None), entry("10.0.0.1", None)]);
    let view = current_ip_view(&j, "", SortMode::Ip, 0);
    let ips: Vec<&str> = view.iter().map(|&i| j.ips[i].ip.as_str()).collect();
    assert_eq!(ips, vec!["10.0.0.1", "10.0.0.10", "10.0.0.2"]);
}

#[test]
fn projection_by_time_left_puts_unknown_last() {
    let now = 1000;
    let j = jail(
        "sshd",
        vec![
            entry("10.0.0.1", None),
            entry("10.0.0.2", Some(now + 500)),
            entry("10.0.0.3", Some(now + 100)),
        ],
    );
    let view = current_ip_view(&j, "", SortMode::TimeLeft, now);
    let ips: Vec<&str> = view.iter().map(|&i| j.ips[i].ip.as_str()).collect();
    assert_eq!(ips, vec!["10.0.0.3", "10.0.0.2", "10.0.0.1"]);
}

#[test]
fn projection_known_expiry_precedes_no_time_info() {
    // One address with no time information, one with an absolute future
    // epoch: sorting by time left places the known one first.
    let now = 1000;
    let j = jail("sshd", vec![entry("10.0.0.1", None), entry("10.0.0.2", Some(now + 60))]);
    let view = current_ip_view(&j, "", SortMode::TimeLeft, now);
    let ips: Vec<&str> = view.iter().map(|&i| j.ips[i].ip.as_str()).collect();
    assert_eq!(ips, vec!["10.0.0.2", "10.0.0.1"]);
}

#[test]
fn projection_ties_keep_underlying_order() {
    let now = 1000;
    let j = jail(
        "sshd",
        vec![entry("b", Some(now + 5)), entry("a", Some(now + 5)), entry("c", Some(now + 1))],
    );
    let view = current_ip_view(&j, "", SortMode::TimeLeft, now);
    assert_eq!(view, vec![2, 0, 1]);
}

#[test]
fn projection_filter_keeps_every_match_once() {
    let j = jail(
        "web",
        vec![entry("10.1.0.1", None), entry("10.2.0.1", None), entry("10.1.0.2", None)],
    );
    let view = current_ip_view(&j, "10.1", SortMode::Ip, 0);
    assert_eq!(view.len(), 2);
    let ips: Vec<&str> = view.iter().map(|&i| j.ips[i].ip.as_str()).collect();
    assert_eq!(ips, vec!["10.1.0.1", "10.1.0.2"]);
}

#[test]
fn total_banned_sums_jails() {
    let js = vec![
        jail("a", vec![entry("1.1.1.1", None), entry("2.2.2.2", None)]),
        jail("b", vec![entry("3.3.3.3", None)]),
    ];
    assert_eq!(total_banned(&js), 3);
    assert_eq!(total_banned(&Vec::new()), 0);
}

#[test]
fn ip_line_layout() {
    assert_eq!(format_ip_line("1.2.3.4", "(5m)", 12), "1.2.3.4 (5m)");
    assert_eq!(format_ip_line("1.2.3.4", "(5m)", 4), "(5m)");
    assert_eq!(format_ip_line("1.2.3.4", "(5m)", 3), "(5m");
    assert_eq!(format_ip_line("very-long-address", "(5m)", 14), "very-lo...(5m)");
    assert_eq!(format_ip_line("abcd", "(5m)", 7), "   (5m)");
    assert_eq!(format_ip_line("x", "(5m)", 0), "");
}

#[test]
fn rect_hit_testing() {
    let r = PanelRect { x: 2, y: 3, width: 4, height: 2 };
    assert!(point_in_rect(2, 3, r));
    assert!(point_in_rect(5, 4, r));
    assert!(!point_in_rect(6, 4, r));
    assert!(!point_in_rect(2, 5, r));
}

#[test]
fn mouse_maps_to_inner_rows() {
    let r = PanelRect { x: 0, y: 0, width: 10, height: 6 };
    // Inner area starts one cell in; row 0 sits at y = 1.
    assert_eq!(list_index_from_mouse(1, 1, r, 3), Some(0));
    assert_eq!(list_index_from_mouse(5, 3, r, 3), Some(2));
    // Beyond the list, outside the inner area, or an empty list: no row.
    assert_eq!(list_index_from_mouse(5, 4, r, 3), None);
    assert_eq!(list_index_from_mouse(0, 1, r, 3), None);
    assert_eq!(list_index_from_mouse(1, 1, r, 0), None);
}
