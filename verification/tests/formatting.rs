use birb_monitor::backend::docker::{
    client_error, container_name, containers_error, format_port, images_error, join_ports,
};
use birb_monitor::gui::backend::docker::containers::{short_container_id, state_kind, StateKind};
use birb_monitor::gui::backend::docker::images::{format_created, repo_and_tag, short_image_id};
use birb_monitor::gui::backend::sysinfo::selected_process::{
    format_duration_secs, format_open_files, format_time, is_leap, option_text,
};
use birb_monitor::gui::backend::sysinfo::temperature_chart::{truncate_label, MAX_LEGEND_LEN};
use birb_monitor::text::{decimal_len, push_decimal, push_padded, same_text, text_contains};

#[test]
fn decimal_rendering() {
    let mut s = String::from("n=");
    push_decimal(&mut s, 0);
    s.push(' ');
    push_decimal(&mut s, 18446744073709551615);
    assert_eq!(s, "n=0 18446744073709551615");
    assert_eq!(decimal_len(0), 1);
    assert_eq!(decimal_len(99), 2);
    assert_eq!(decimal_len(u64::MAX), 20);
    let mut p = String::new();
    push_padded(&mut p, 7, 3);
    p.push('|');
    push_padded(&mut p, 12345, 2);
    assert_eq!(p, "007|12345");
}

#[test]
fn text_search_and_comparison() {
    assert!(text_contains("birb-monitor", "monitor"));
    assert!(text_contains("birb-monitor", ""));
    assert!(text_contains("", ""));
    assert!(!text_contains("birb", "birb-monitor"));
    assert!(!text_contains("firefox", "Fire"));
    assert!(text_contains("naïve café", "é"));
    assert!(same_text("abc", "abc"));
    assert!(!same_text("abc", "abd"));
}

#[test]
fn leap_years() {
    assert!(is_leap(2000));
    assert!(is_leap(2024));
    assert!(!is_leap(1900));
    assert!(!is_leap(2023));
}

#[test]
fn epoch_seconds_are_shown_as_utc_date_and_time() {
    assert_eq!(format_time(0), "1970-01-01 00:00:00");
    assert_eq!(format_time(86399), "1970-01-01 23:59:59");
    assert_eq!(format_time(951782400), "2000-02-29 00:00:00");
    assert_eq!(format_time(1700000000), "2023-11-14 22:13:20");
    assert_eq!(format_time(1709251199), "2024-02-29 23:59:59");
}

#[test]
fn durations_show_their_largest_unit_first() {
    assert_eq!(format_duration_secs(0), "0s");
    assert_eq!(format_duration_secs(59), "59s");
    assert_eq!(format_duration_secs(60), "1m 0s");
    assert_eq!(format_duration_secs(3661), "1h 1m 1s");
    assert_eq!(format_duration_secs(90061), "1d 1h 1m 1s");
    assert_eq!(format_duration_secs(86400), "1d 0h 0m 0s");
}

#[test]
fn open_files_and_optional_text() {
    assert_eq!(format_open_files(Some(3), Some(1024)), "3 / 1024");
    assert_eq!(format_open_files(Some(3), None), "3");
    assert_eq!(format_open_files(None, Some(1024)), "? / 1024");
    assert_eq!(format_open_files(None, None), "unknown");
    assert_eq!(option_text(Some("/bin/sh")), "/bin/sh");
    assert_eq!(option_text(None), "unknown");
}

#[test]
fn legend_labels_are_truncated_with_an_ellipsis() {
    assert_eq!(MAX_LEGEND_LEN, 22);
    assert_eq!(truncate_label("acpitz temp1"), "acpitz temp1");
    assert_eq!(truncate_label("0123456789012345678901"), "0123456789012345678901");
    assert_eq!(truncate_label("01234567890123456789012"), "012345678901234567890…");
    // 12 two-byte characters exceed the limit in bytes though they are only 12 characters.
    assert_eq!(truncate_label("éééééééééééé"), "éééééééééééé…");
}

#[test]
fn container_ids_names_and_states() {
    assert_eq!(short_container_id("0123456789abcdef"), "0123456789ab");
    assert_eq!(short_container_id("abc"), "abc");
    assert_eq!(state_kind("running"), StateKind::Running);
    assert_eq!(state_kind("exited"), StateKind::Stopped);
    assert_eq!(state_kind("dead"), StateKind::Stopped);
    assert_eq!(state_kind("paused"), StateKind::Paused);
    assert_eq!(state_kind("created"), StateKind::Other);
    assert_eq!(container_name(&Some(vec!["/example".to_string(), "/other".to_string()])), "example");
    assert_eq!(container_name(&Some(vec!["//a".to_string()])), "a");
    assert_eq!(container_name(&Some(vec![])), "");
    assert_eq!(container_name(&None), "");
}

#[test]
fn ports_are_listed_like_docker_ps() {
    assert_eq!(format_port(None, Some(8080), 80, None), "0.0.0.0:8080->80/tcp");
    assert_eq!(format_port(Some("127.0.0.1"), Some(53), 53, Some("udp")), "127.0.0.1:53->53/udp");
    assert_eq!(format_port(None, None, 80, Some("tcp")), "80/tcp");
    let parts = vec!["80/tcp".to_string(), "0.0.0.0:8080->80/tcp".to_string()];
    assert_eq!(join_ports(&parts), "80/tcp, 0.0.0.0:8080->80/tcp");
    assert_eq!(join_ports(&vec![]), "");
}

#[test]
fn docker_error_messages() {
    assert_eq!(client_error("no socket"), "Failed to create Docker client: no socket");
    assert_eq!(containers_error("x"), "Failed to list containers: x");
    assert_eq!(images_error("image request failed"), "Failed to list images: image request failed");
}

#[test]
fn image_ids_tags_and_ages() {
    assert_eq!(short_image_id("sha256:0123456789abcdef"), "0123456789ab");
    assert_eq!(short_image_id("0123456789abcdef"), "0123456789ab");
    assert_eq!(short_image_id("sha256:abc"), "sha256:abc");
    assert_eq!(short_image_id("abc"), "abc");
    assert_eq!(repo_and_tag(&vec!["example:latest".to_string()]), ("example".to_string(), "latest".to_string()));
    assert_eq!(
        repo_and_tag(&vec!["localhost:5000/app:1.2".to_string(), "other:tag".to_string()]),
        ("localhost:5000/app".to_string(), "1.2".to_string())
    );
    assert_eq!(repo_and_tag(&vec!["plain".to_string()]), ("plain".to_string(), "<none>".to_string()));
    assert_eq!(repo_and_tag(&vec![]), ("<none>".to_string(), "<none>".to_string()));
    let now = 1_700_000_000;
    assert_eq!(format_created(0, now), "unknown");
    assert_eq!(format_created(now + 5, now), "in the future");
    assert_eq!(format_created(now - 42, now), "42 seconds ago");
    assert_eq!(format_created(now - 120, now), "2 minutes ago");
    assert_eq!(format_created(now - 7200, now), "2 hours ago");
    assert_eq!(format_created(now - 3 * 86400, now), "3 days ago");
    assert_eq!(format_created(now - 60 * 86400, now), "2 months ago");
    assert_eq!(format_created(now - 800 * 86400, now), "2 years ago");
    assert_eq!(format_created(now - 365 * 86400, now), "12 months ago");
}
