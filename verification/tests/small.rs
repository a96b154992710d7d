//! Durations, waits, capabilities and selectors.
use std::time::Duration;
use tedge_dot::capabilities::{augment_batch_caps, augment_management_caps};
use tedge_dot::cli::{
    discover_configs, is_pattern, normalized_args, restart_delay, warn_duplicate_service_names,
    wildcard_match, Found,
};
use tedge_dot::clock::parse_duration;
use tedge_dot::config::resolve_mode;
use tedge_dot::connector::{Capabilities, ConnectorError, LinkStatus};
use tedge_dot::links::{next_backoff, next_link_state, ReconnectEntry, Reconnects};
use tedge_dot::links::{RECONNECT_INITIAL, RECONNECT_MAX};
use tedge_dot::model::Mode;
use tedge_dot::runtime::{is_stalled, Progress};

#[test]
fn durations() {
    assert_eq!(parse_duration("500ms"), Some(Duration::from_millis(500)));
    assert_eq!(parse_duration("2s"), Some(Duration::from_secs(2)));
    assert_eq!(parse_duration("5m"), Some(Duration::from_secs(300)));
    assert_eq!(parse_duration("2h"), Some(Duration::from_secs(7200)));
    assert_eq!(parse_duration("3"), Some(Duration::from_secs(3)));
}

#[test]
fn fractions_and_exponents_are_durations() {
    assert_eq!(parse_duration("0.5s"), Some(Duration::from_millis(500)));
    assert_eq!(parse_duration("1.5h"), Some(Duration::from_secs(5400)));
    assert_eq!(parse_duration("2e3s"), Some(Duration::from_secs(2000)));
    assert_eq!(parse_duration("2e3ms"), None, "milliseconds are whole");
    assert_eq!(parse_duration(" 2s "), Some(Duration::from_secs(2)));
}

#[test]
fn invalid_durations_are_none_not_panics() {
    assert_eq!(parse_duration("-66"), None);
    assert_eq!(parse_duration("-5s"), None);
    assert_eq!(parse_duration("NaN"), None);
    assert_eq!(parse_duration("inf"), None);
    assert_eq!(parse_duration("1e300h"), None);
    assert_eq!(parse_duration(""), None);
    assert_eq!(parse_duration("abc"), None);
}

#[test]
fn reconnect_backoff_doubles_and_caps() {
    let initial = Duration::from_secs(RECONNECT_INITIAL);
    let max = Duration::from_secs(RECONNECT_MAX);
    assert_eq!(next_backoff(initial), Duration::from_secs(2));
    assert_eq!(next_backoff(Duration::from_secs(2)), Duration::from_secs(4));
    assert_eq!(next_backoff(Duration::from_secs(40)), max);
    assert_eq!(next_backoff(max), max);
}

#[test]
fn waits_reach_a_minute_and_stay() {
    let mut entry = ReconnectEntry::new(0);
    assert_eq!(entry.delay, Duration::from_secs(1));
    assert_eq!(entry.due, 1_000_000_000);
    let mut waits = vec![];
    for _ in 0..7 {
        entry.re_arm(entry.due);
        waits.push(entry.delay.as_secs());
    }
    assert_eq!(waits, [2, 4, 8, 16, 32, 60, 60]);
}

#[test]
fn link_transitions_follow_poll_health() {
    let connected = Some(LinkStatus::Connected);
    let degraded = Some(LinkStatus::Degraded);
    let disconnected = Some(LinkStatus::Disconnected);
    assert_eq!(next_link_state(connected, true), None);
    assert_eq!(next_link_state(degraded, true), connected);
    assert_eq!(next_link_state(disconnected, true), connected);
    assert_eq!(next_link_state(None, true), connected);
    assert_eq!(next_link_state(connected, false), degraded);
    assert_eq!(next_link_state(degraded, false), None);
    assert_eq!(next_link_state(disconnected, false), None);
    assert_eq!(next_link_state(None, false), None);
}

#[test]
fn a_device_is_tried_again_until_a_poll_goes_well() {
    let mut tries = Reconnects::new();
    tries.note_poll("plc", false, 0);
    assert!(tries.due(999_999_999).is_empty());
    assert_eq!(tries.due(1_000_000_000), ["plc"]);
    tries.re_arm("plc", 1_000_000_000);
    assert!(tries.due(2_999_999_999).is_empty());
    assert_eq!(tries.due(3_000_000_000), ["plc"]);
    tries.note_poll("plc", true, 3_000_000_000);
    assert!(tries.due(u128::MAX).is_empty());
}

fn caps(verbs: &[&str], features: &[&str]) -> Capabilities {
    Capabilities {
        protocol: "x",
        version: "0",
        modes: vec![],
        datatypes: vec![],
        point_kinds: vec![],
        command_verbs: verbs.iter().map(|s| s.to_string()).collect(),
        features: features.iter().map(|s| s.to_string()).collect(),
        subscribe: false,
    }
}

#[test]
fn batch_caps_follow_write_support() {
    let mut writable = caps(&["write"], &[]);
    augment_batch_caps(&mut writable);
    assert!(writable.command_verbs.iter().any(|v| v == "write-batch"));
    augment_batch_caps(&mut writable);
    assert_eq!(writable.command_verbs.iter().filter(|v| *v == "write-batch").count(), 1);
    let mut read_only = caps(&[], &[]);
    augment_batch_caps(&mut read_only);
    assert!(read_only.command_verbs.is_empty());
}

#[test]
fn management_caps_are_advertised() {
    let mut c = caps(&["write"], &["polling"]);
    augment_management_caps(&mut c);
    for verb in ["write", "set-config", "define-device", "remove-device"] {
        assert!(c.command_verbs.iter().any(|v| v == verb), "missing {verb}");
    }
    assert!(c.features.iter().any(|f| f == "management"));
}

#[test]
fn wildcard_matching() {
    assert!(wildcard_match("*", "anything"));
    assert!(wildcard_match("*", ""));
    assert!(wildcard_match("temp_u16", "temp_u16"));
    assert!(!wildcard_match("temp_u16", "temp_u32"));
    assert!(wildcard_match("temp_*", "temp_u16"));
    assert!(wildcard_match("*_f32", "level_f32"));
    assert!(wildcard_match("*temp*", "boiler_temp_raw"));
    assert!(!wildcard_match("temp_*", "level_f32"));
    assert!(wildcard_match("temp_u1?", "temp_u16"));
    assert!(!wildcard_match("temp_u1?", "temp_u1"));
    assert!(wildcard_match("a*b*c", "a-x-b-y-c"));
    assert!(!wildcard_match("a*b*c", "a-x-b-y"));
    assert!(!wildcard_match("", "x"));
    assert!(wildcard_match("", ""));
}

#[test]
fn a_star_in_the_text_is_a_character_like_any_other() {
    assert!(wildcard_match("*", "*a"));
    assert!(wildcard_match("a?b", "a*b"));
    assert!(!is_pattern("plain"));
    assert!(is_pattern("a?"));
}

#[test]
fn discover_configs_expands_directories_sorted_and_dedups() {
    let found = discover_configs(&vec![
        (
            "/conf".to_string(),
            Found::Directory {
                files: vec![
                    "b.toml".to_string(),
                    "ignored.txt".to_string(),
                    "a.toml".to_string(),
                ],
            },
        ),
        ("/conf/a.toml".to_string(), Found::File),
    ])
    .unwrap();
    assert_eq!(found, ["/conf/a.toml", "/conf/b.toml"]);
}

#[test]
fn one_path_is_taken_once_however_it_is_written() {
    let files = |paths: &[&str]| {
        let args = paths.iter().map(|p| (p.to_string(), Found::File)).collect();
        discover_configs(&args).unwrap()
    };
    assert_eq!(files(&["d/a.toml", "d//a.toml", "d/./a.toml"]), ["d/a.toml"]);
    assert_eq!(files(&["a.toml", "./a.toml", "/a.toml", "/./a.toml"]), ["a.toml", "./a.toml", "/a.toml"]);
    assert_eq!(files(&["d/../a.toml", "a.toml"]).len(), 2);
}

#[test]
fn discover_configs_rejects_missing_paths() {
    let err = discover_configs(&vec![("/nonexistent/tedge-dot".to_string(), Found::Missing)])
        .unwrap_err();
    assert!(err.contains("does not exist"), "{err}");
}

#[test]
fn two_services_of_one_name_are_warned_about() {
    let pair = |a: &str, b: &str| (a.to_string(), b.to_string());
    let warnings = warn_duplicate_service_names(&vec![
        pair("tedge-dot-modbus", "a.toml"),
        pair("tedge-dot-opcua", "b.toml"),
        pair("tedge-dot-modbus", "c.toml"),
    ]);
    assert_eq!(warnings.len(), 1);
    assert!(warnings[0].contains("tedge-dot-modbus"), "{}", warnings[0]);
    assert!(warnings[0].contains("a.toml") && warnings[0].contains("c.toml"), "{}", warnings[0]);
}

#[test]
fn a_delay_that_is_none_is_the_usual_one() {
    assert_eq!(restart_delay(Some("7")), Duration::from_secs(7));
    assert_eq!(restart_delay(Some("250ms")), Duration::from_secs(5));
    assert_eq!(restart_delay(Some("soon")), Duration::from_secs(5));
    assert_eq!(restart_delay(None), Duration::from_secs(5));
}

#[test]
fn a_bare_call_runs() {
    let args = |list: &[&str]| list.iter().map(|s| s.to_string()).collect::<Vec<_>>();
    assert_eq!(normalized_args(args(&["tedge-dot", "a.toml"])), ["tedge-dot", "run", "a.toml"]);
    assert_eq!(normalized_args(args(&["tedge-dot", "read", "x"])), ["tedge-dot", "read", "x"]);
}

#[test]
fn progress_is_counted_from_the_last_mark() {
    let mut progress = Progress::new(1_000);
    assert_eq!(progress.idle(1_000), Duration::ZERO);
    assert_eq!(progress.idle(3_500), Duration::from_millis(2_500));
    progress.mark(3_000);
    assert_eq!(progress.idle(3_500), Duration::from_millis(500));
    assert_eq!(progress.idle(2_000), Duration::ZERO);
}

#[test]
fn a_mark_counts_for_all_who_share_the_marker() {
    let shared = std::sync::Arc::new(std::sync::Mutex::new(Progress::new(10)));
    let other = shared.clone();
    assert_eq!(shared.lock().unwrap().idle(30), Duration::from_millis(20));
    other.lock().unwrap().mark(40);
    assert_eq!(shared.lock().unwrap().idle(45), Duration::from_millis(5));
}

#[test]
fn a_connector_that_gets_nowhere_is_stalled() {
    let limit = Duration::from_secs(120);
    assert!(!is_stalled(limit, limit));
    assert!(is_stalled(limit, limit + Duration::from_millis(1)));
    assert!(!is_stalled(Duration::ZERO, Duration::from_secs(9_999)));
}

#[test]
fn whole_numbers_last_that_many_units() {
    for n in [0, 1, 59, 4_294_967_295u64] {
        for (before, after) in [("", ""), (" ", "\t"), ("\u{a0}\n", "  ")] {
            let spelt = |unit: &str| parse_duration(&format!("{before}{n}{unit}{after}"));
            assert_eq!(spelt("ms"), Some(Duration::from_millis(n)));
            assert_eq!(spelt("s"), Some(Duration::from_secs(n)));
            assert_eq!(spelt(""), Some(Duration::from_secs(n)));
            assert_eq!(spelt(" m"), Some(Duration::from_secs(60 * n)));
            assert_eq!(spelt("h"), Some(Duration::from_secs(3600 * n)));
        }
    }
    assert_eq!(parse_duration("18446744073709551616ms"), None);
    assert_eq!(parse_duration("18446744073709551616s"), None);
    let long = "9".repeat(60);
    assert_eq!(parse_duration(&format!("{long}h")), None);
}

#[test]
fn a_mode_of_its_own_is_what_a_point_declares() {
    assert_eq!(resolve_mode(Some(Mode::Raw), None), Mode::Raw);
    assert_eq!(resolve_mode(Some(Mode::Typed), Some(Mode::Raw)), Mode::Typed);
    assert_eq!(resolve_mode(None, Some(Mode::Raw)), Mode::Typed);
    assert_eq!(resolve_mode(None, None), Mode::Typed);
}

#[test]
fn errors_are_told_in_words() {
    let told = |e: ConnectorError| e.tell();
    assert_eq!(told(ConnectorError::NotConnected("plc".into())), "device 'plc' is not connected");
    assert_eq!(
        told(ConnectorError::UnknownPoint { device: "plc".into(), point: "t".into() }),
        "unknown point 't' on device 'plc'"
    );
    assert_eq!(
        told(ConnectorError::AccessDenied("t".into())),
        "access denied for point 't'"
    );
    assert_eq!(told(ConnectorError::Unsupported("x".into())), "unsupported: x");
    assert_eq!(told(ConnectorError::Decode("x".into())), "decode error: x");
    assert_eq!(told(ConnectorError::Transport("x".into())), "transport error: x");
    assert_eq!(told(ConnectorError::Other("x".into())), "x");
}
