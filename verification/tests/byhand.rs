//! Reading and writing by hand, and how things are shown.
use std::time::Duration;
use tedge_dot::config::{
    default_log_level, default_operation_timeout, default_poll_interval, default_stall_timeout,
    ConnectorConfig, ConnectorSection, DeviceConfig, MqttSection,
};
use tedge_dot::cli::{after_attempt, Supervision};
use tedge_dot::connector::{CommandResult, LinkReport, LinkStatus};
use tedge_dot::inspect::{quote, quote_option, same_json, show_number, show_option, show_set, show_value};
use tedge_dot::json::{Json, JsonNumber};
use tedge_dot::keyed::TextMap;
use tedge_dot::model::{Mode, NonFinite, Quality, Sample, Value};
use tedge_dot::selection::{
    after_failed_read, conclude_read, conclude_write, connect_targets, format_sample,
    format_write_result, is_polling, next_read, parse_cli_value, selectors, write_failure,
    write_request, ReadFailure, ReadJob, Spelt, Target,
};
use tedge_dot::text::{chars_of, join, lowers_to, parse_signed, signed_string, split, trim};

fn json(text: &str) -> Json {
    Json::parse(text.as_bytes()).expect("JSON")
}

fn float(x: f64) -> JsonNumber {
    JsonNumber::of(serde_json::Number::from_f64(x).expect("finite"))
}

#[test]
fn an_argument_is_the_value_that_it_spells() {
    let of = |s: &str, float: Option<Spelt>| {
        let (v, kind) = parse_cli_value(s, float);
        (v.print(), kind)
    };
    assert_eq!(of("TRUE", None), ("true".to_string(), "boolean"));
    assert_eq!(of("false", None), ("false".to_string(), "boolean"));
    assert_eq!(of("-12", None), ("-12".to_string(), "number"));
    assert_eq!(of("1.5", Some(Spelt::Number(float(1.5)))), ("1.5".to_string(), "number"));
    assert_eq!(of("inf", Some(Spelt::NonFinite)), ("\"inf\"".to_string(), "string"));
    assert_eq!(of("nan", Some(Spelt::NonFinite)), ("\"nan\"".to_string(), "string"));
    assert_eq!(of("on", None), ("\"on\"".to_string(), "string"));
}

#[test]
fn bytes_come_before_a_value() {
    let raw = write_request("p", "7", Some("00ff"), None);
    assert_eq!(raw.raw.as_deref(), Some("00ff"));
    assert!(raw.value.is_none() && raw.value_repr.is_none());
    let typed = write_request("p", "7", None, None);
    assert_eq!(typed.value, Some(json("7")));
    assert_eq!(typed.value_repr.as_deref(), Some("number"));
}

#[test]
fn writes_are_told_by_line_or_object() {
    let done = CommandResult { point: "p".into(), value: Some(json("7")), raw: None };
    assert_eq!(format_write_result("d", &done, false), "ok: wrote 7 to d/p");
    assert_eq!(
        format_write_result("d", &done, true),
        r#"{"device":"d","point":"p","status":"successful","value":7}"#
    );
    let raw = CommandResult { point: "p".into(), value: None, raw: Some("00ff".into()) };
    assert_eq!(format_write_result("d", &raw, false), "ok: wrote 00ff to d/p");
    assert_eq!(write_failure("d", "p", "no"), "error: write to d/p failed: no");
    assert_eq!(conclude_write(0), Ok(()));
    assert_eq!(conclude_write(3), Err("3 write(s) failed".into()));
}

fn sample(value: Option<Value>) -> Sample {
    Sample {
        ts: 0,
        device: "d".into(),
        protocol: "modbus".into(),
        point: "p".into(),
        mode: Mode::Typed,
        datatype: None,
        value,
        raw: vec![0x12, 0x34],
        raw_group: 2,
        quality: Quality::Good,
        unit: None,
        addr: Json::null(),
        seq: None,
        error: None,
    }
}

#[test]
fn readings_are_shown_on_a_line() {
    let line = |v: Option<Value>| format_sample("d", &sample(v));
    assert_eq!(line(Some(Value::Bool(true))), "d/p = true (good) raw=1234");
    assert_eq!(line(Some(Value::Number(float(17.0)))), "d/p = 17 (good) raw=1234");
    assert_eq!(line(Some(Value::Number(float(0.25)))), "d/p = 0.25 (good) raw=1234");
    assert_eq!(line(Some(Value::NonFinite(NonFinite::NotANumber))), "d/p = NaN (good) raw=1234");
    assert_eq!(line(Some(Value::Text("x".into()))), "d/p = x (good) raw=1234");
    assert_eq!(line(None), "d/p = <raw> (good) raw=1234");
    let bad = Sample { quality: Quality::Bad, error: Some("no".into()), ..sample(None) };
    assert_eq!(format_sample("d", &bad), "d/p = <raw> (bad) raw=1234 error=no");
}

#[test]
fn reading_once_is_strict_and_polling_is_not() {
    assert_eq!(conclude_read(false, 0, false), Ok(()));
    assert_eq!(
        conclude_read(false, 1, true),
        Err("could not connect to every selected device".into())
    );
    assert_eq!(
        conclude_read(false, 0, true),
        Err("one or more points returned bad quality".into())
    );
    assert_eq!(conclude_read(true, 1, true), Ok(()));
    assert!(is_polling(false, None, Some(3)));
    assert!(!is_polling(false, None, None));
    assert_eq!(selectors(vec![]), ["*"]);
    assert_eq!(selectors(vec!["a".into()]), ["a"]);
    assert_eq!(
        after_failed_read("d", "x", false),
        ReadFailure::Stop { error: "read failed: x".into() }
    );
    assert_eq!(
        after_failed_read("d", "x", true),
        ReadFailure::Reconnect { line: "error: read from 'd' failed: x".into() }
    );
}

fn device(name: &str) -> DeviceConfig {
    DeviceConfig {
        name: name.into(),
        protocol_address: json("{}"),
        device_type: None,
        default_mode: None,
        poll_interval: Some("3s".into()),
        points_from: vec![],
        points: vec![],
    }
}

fn config() -> ConnectorConfig {
    ConnectorConfig {
        connector: ConnectorSection {
            protocol: "modbus".into(),
            configured_service_name: None,
            poll_interval: default_poll_interval(),
            log_level: default_log_level(),
            operation_timeout: default_operation_timeout(),
            stall_timeout: default_stall_timeout(),
            sample_debug: false,
            command_aliases: TextMap::new(),
            configured_parameter_set: None,
            point_library_path: None,
        },
        mqtt: MqttSection::default(),
        connection: Json::null(),
        devices: vec![],
    }
}

#[test]
fn reads_are_made_as_often_as_is_asked_for() {
    let (d, cfg) = (device("d"), config());
    let target = Target { device: &d, points: vec![] };
    let mut jobs = vec![ReadJob::new(&cfg, &target, None, true, Some(2), 10)];
    assert_eq!(jobs[0].interval, Duration::from_secs(3));
    assert_eq!(next_read(&jobs), Some(10));
    assert!(jobs[0].is_due(10) && !jobs[0].is_due(9));
    jobs[0].note_read(10);
    assert_eq!(next_read(&jobs), Some(3_000_000_010));
    jobs[0].note_read(3_000_000_010);
    assert_eq!(next_read(&jobs), None);
    assert!(!jobs[0].is_due(u128::MAX));
    let once = ReadJob::new(&cfg, &target, None, false, None, 0);
    assert_eq!(once.remaining, Some(1));
}

#[test]
fn devices_that_are_not_reached_are_warned_of() {
    let (a, b) = (device("a"), device("b"));
    let targets = vec![
        Target { device: &a, points: vec![] },
        Target { device: &b, points: vec![] },
    ];
    let reports = vec![
        LinkReport::new("a".into(), LinkStatus::Disconnected, Some("refused".into())),
        LinkReport::new("b".into(), LinkStatus::Connected, None),
    ];
    let connected = connect_targets(targets, &reports);
    assert_eq!(connected.reachable.len(), 1);
    assert_eq!(connected.reachable[0].device.name, "b");
    assert_eq!(connected.warnings, ["warning: could not connect to device 'a': refused"]);
    assert_eq!(connected.verdict(), Ok(()));
    let lost = vec![LinkReport::new("a".into(), LinkStatus::Degraded, None)];
    let none = connect_targets(vec![Target { device: &a, points: vec![] }], &lost);
    assert_eq!(none.warnings, ["warning: could not connect to device 'a': link not connected"]);
    assert_eq!(none.verdict(), Err("could not connect to any selected device".into()));
}

#[test]
fn a_connector_that_stops_is_started_again() {
    let delay = Duration::from_secs(5);
    assert_eq!(after_attempt(true, Ok(()), delay), Supervision::Stop);
    match after_attempt(false, Err("boom".into()), delay) {
        Supervision::Restart { log } => assert!(log.contains("boom") && log.contains('5'), "{log}"),
        other => panic!("{other:?}"),
    }
}

#[test]
fn values_are_shown_as_a_debugger_does() {
    assert_eq!(show_value(&json("[1,null]")), "Array [Number(1), Null]");
    assert_eq!(show_option(None), "None");
    assert_eq!(show_option(Some(&json("\"a\""))), "Some(String(\"a\"))");
    assert_eq!(quote("a\"b"), "\"a\\\"b\"");
    assert_eq!(quote_option(Some("x")), "Some(\"x\")");
    assert_eq!(show_number(&Some(JsonNumber::unsigned(5))), "Some(5.0)");
    assert_eq!(show_set(&vec!["a".into(), "b".into()]), "{\"a\", \"b\"}");
}

#[test]
fn numbers_are_compared_by_what_they_are() {
    assert!(same_json(&json("{\"a\":[1,2.5]}"), &json("{\"a\":[1,2.5]}")));
    assert!(!same_json(&json("1"), &json("1.0")));
    assert!(!same_json(&json("[1]"), &json("[1,2]")));
    assert!(float(2.5).equals(&float(2.5)));
    assert!(!float(2.5).equals(&float(2.0)));
}

#[test]
fn texts_are_taken_apart_and_joined() {
    assert_eq!(split("a//b", '/'), ["a", "", "b"]);
    assert_eq!(join(&split("a//b", '/'), "/"), "a//b");
    assert_eq!(trim(" \u{a0}x\t"), "x");
    assert_eq!(chars_of("é1"), ['é', '1']);
    assert!(lowers_to("TrUe", "true") && !lowers_to("true ", "true"));
    assert_eq!(parse_signed("-9223372036854775808"), Some(i64::MIN));
    assert_eq!(parse_signed("9223372036854775808"), None);
    assert_eq!(parse_signed("+7"), Some(7));
    assert_eq!(parse_signed("7x"), None);
    assert_eq!(signed_string(i64::MIN), "-9223372036854775808");
}
