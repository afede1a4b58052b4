//! Tests of the snapshot parsers: jail list, counters, settings, address
//! extraction, and the annotated ban list.

use jailview::model::TimeValue;
use jailview::parse::{
    extract_ips, ips_from_status, parse_banip_with_time, parse_banned_ips, parse_jail_list,
    parse_maxretry, parse_status_counts, parse_time_value,
};

#[test]
fn jail_list_two_names() {
    let out = "Status\n|- Number of jail:\t2\n`- Jail list:\tsshd, nginx-http-auth\n";
    assert_eq!(parse_jail_list(out), vec!["sshd".to_string(), "nginx-http-auth".to_string()]);
}

#[test]
fn jail_list_trims_and_drops_empty_segments() {
    let out = "`- Jail list:  alpha ,, beta ,  \n";
    assert_eq!(parse_jail_list(out), vec!["alpha".to_string(), "beta".to_string()]);
}

#[test]
fn jail_list_empty_tail() {
    assert_eq!(parse_jail_list("`- Jail list:\n"), Vec::<String>::new());
    assert_eq!(parse_jail_list("`- Jail list:   \n"), Vec::<String>::new());
}

#[test]
fn jail_list_missing_marker() {
    assert_eq!(parse_jail_list("Status\nnothing here\n"), Vec::<String>::new());
}

#[test]
fn jail_list_first_matching_line_wins() {
    let out = "x Jail list: one\ny Jail list: two\n";
    assert_eq!(parse_jail_list(out), vec!["one".to_string()]);
}

#[test]
fn status_counts_read_both_markers() {
    let out = "Status for the jail: sshd\n|- Filter\n|  |- Currently failed: 1\n\
               |- Actions\n|  |- Currently banned: 3\n|  `- Total banned:\t17\n";
    assert_eq!(parse_status_counts(out), (Some(3), Some(17)));
}

#[test]
fn status_counts_missing_or_bad_fields() {
    assert_eq!(parse_status_counts("no counters here"), (None, None));
    assert_eq!(parse_status_counts("Currently banned: many\nTotal banned: 2\n"), (None, Some(2)));
}

#[test]
fn status_counts_last_line_wins() {
    let out = "Currently banned: 1\nCurrently banned: 2\n";
    assert_eq!(parse_status_counts(out), (Some(2), None));
}

#[test]
fn time_value_numeric() {
    let tv: TimeValue = parse_time_value(" 600 \n");
    assert_eq!(tv.raw, "600");
    assert_eq!(tv.seconds, Some(600));
}

#[test]
fn time_value_text_and_empty() {
    let tv = parse_time_value("1h\n");
    assert_eq!(tv.raw, "1h");
    assert_eq!(tv.seconds, None);

    let tv = parse_time_value("   ");
    assert_eq!(tv.raw, "n/a");
    assert_eq!(tv.seconds, None);
}

#[test]
fn maxretry_parses_trimmed_integer() {
    assert_eq!(parse_maxretry(" 5 \n"), Some(5));
    assert_eq!(parse_maxretry("nope"), None);
    assert_eq!(parse_maxretry("4294967296"), None);
}

#[test]
fn extract_ips_dedups_in_first_seen_order() {
    let text = "10.0.0.1, junk 10.0.0.2 10.0.0.1 ::1 not.an.ip 10.0.0.2";
    assert_eq!(
        extract_ips(text),
        vec!["10.0.0.1".to_string(), "10.0.0.2".to_string(), "::1".to_string()]
    );
}

#[test]
fn extract_ips_rejects_invalid_tokens() {
    let text = "256.1.1.1 01.2.3.4 1.2.3 1.2.3.4.5 :: 1:2:3:4:5:6:7:8";
    assert_eq!(extract_ips(text), vec!["::".to_string(), "1:2:3:4:5:6:7:8".to_string()]);
}

#[test]
fn banned_ips_reads_after_marker() {
    let out = "|- Actions\n`- Banned IP list:\t10.0.0.1 10.0.0.2\n";
    assert_eq!(parse_banned_ips(out), vec!["10.0.0.1".to_string(), "10.0.0.2".to_string()]);
    assert_eq!(parse_banned_ips("nothing"), Vec::<String>::new());
}

#[test]
fn ips_from_status_builds_bare_entries() {
    let out = "`- Banned IP list: 10.0.0.9\n";
    let entries = ips_from_status(out);
    assert_eq!(entries.len(), 1);
    assert_eq!(entries[0].ip, "10.0.0.9");
    assert_eq!(entries[0].end_epoch, None);
    assert_eq!(entries[0].time_raw, None);
}

#[test]
fn banip_with_time_groups_tokens_after_each_address() {
    let now = 1_000_000;
    let out = "10.0.0.1 2030-01-01 00:00:00 +0000 10.0.0.2 10.0.0.3 900";
    let entries = parse_banip_with_time(out, Some(600), now);
    assert_eq!(entries.len(), 3);
    assert_eq!(entries[0].ip, "10.0.0.1");
    assert_eq!(entries[0].time_raw.as_deref(), Some("2030-01-01 00:00:00 +0000"));
    assert_eq!(entries[0].end_epoch, Some(1_893_456_000));
    assert_eq!(entries[1].ip, "10.0.0.2");
    assert_eq!(entries[1].time_raw, None);
    assert_eq!(entries[1].end_epoch, None);
    assert_eq!(entries[2].ip, "10.0.0.3");
    assert_eq!(entries[2].time_raw.as_deref(), Some("900"));
    // 900 lies before `now`, so the configured duration is added.
    assert_eq!(entries[2].end_epoch, Some(1500));
}

#[test]
fn banip_with_time_empty_output() {
    assert_eq!(parse_banip_with_time("", None, 0).len(), 0);
    assert_eq!(parse_banip_with_time("no addresses at all", None, 0).len(), 0);
}
