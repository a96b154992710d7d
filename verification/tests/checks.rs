//! The checks of a connector's behaviour.
use tedge_dot::config::{
    default_log_level, default_operation_timeout, default_poll_interval, default_stall_timeout,
    ConnectorConfig, ConnectorSection, DeviceConfig, MqttSection, PointConfig, PublishPolicy,
    Range,
};
use tedge_dot::conformance::{
    cmd_topic, has_part, is_status, reads_as, resolve_points, shows_life, shows_loss,
    topic_matches, Captured, Point,
};
use tedge_dot::conformance_checks::{
    allowed_topics, behaviour_can_be_checked, check_b10_topic_discipline,
    check_b11_unowned_device_ignored, check_b1_startup, check_b2_seq_monotonic,
    check_b5_silent_peer, check_b7_access_control, check_b7_range, check_b8_hot_reload,
    check_b9_capability_honesty, check_link_transition, check_write, covers_scaled_writes,
    define_device_request, is_writable, manifest_has_mode, matches_one, mirror_point, numbers_of,
    point_to_mirror, protocols_agree, report_behaviours, report_mode_probe, report_scaled_writes,
    report_traffic, validate_captured_traffic, Held, SchemaErrors, Tally, TopicClass,
    WriteEvidence, NEW_POINT,
};
use tedge_dot::conformance_claims::{
    augment_caps, check_b9_manifest_agreement, list_under, manifest_caps_mismatches, sorted_set,
    Claims,
};
use tedge_dot::conformance_manifest::check_manifest;
use tedge_dot::conformance_report::{
    check_b1_manifest, denied_point, numbered_point, ranged_point, report_sample, report_write,
    with_mirror, written_points,
};
use tedge_dot::conformance_sample::{assert_sample, Expectation, Truth};
use tedge_dot::json::{Json, JsonNumber, JsonObject};
use tedge_dot::keyed::TextMap;
use tedge_dot::manifest::device_manifest;
use tedge_dot::model::{DataType, Mode, Value};
use tedge_dot::report::{Layer, Verdict};

fn json(text: &str) -> Json {
    Json::parse(text.as_bytes()).expect("JSON")
}

fn texts(list: &[&str]) -> Vec<String> {
    list.iter().map(|s| s.to_string()).collect()
}

fn configured(id: &str, mode: Mode, access: &str) -> PointConfig {
    PointConfig {
        id: id.into(),
        mode: Some(mode),
        datatype: Some(DataType::Uint16),
        endianness: None,
        word_order: None,
        poll_interval: None,
        address: json(r#"{"address":3}"#),
        access: Some(access.into()),
        unit: Some("K".into()),
        name: None,
        description: None,
        transform: None,
        range: None,
        publish: None,
        measurement: None,
        parameter: None,
        meta: None,
        subscribe: None,
    }
}

fn config(points: Vec<PointConfig>) -> ConnectorConfig {
    ConnectorConfig {
        connector: ConnectorSection {
            protocol: "modbus".into(),
            configured_service_name: None,
            poll_interval: default_poll_interval(),
            log_level: default_log_level(),
            operation_timeout: default_operation_timeout(),
            stall_timeout: default_stall_timeout(),
            sample_debug: false,
            command_aliases: TextMap::new(),
            configured_parameter_set: None,
            point_library_path: None,
        },
        mqtt: MqttSection::default(),
        connection: Json::null(),
        devices: vec![DeviceConfig {
            name: "plc".into(),
            protocol_address: json("{}"),
            device_type: Some("acme".into()),
            default_mode: None,
            poll_interval: None,
            points_from: vec![],
            points,
        }],
    }
}

fn points() -> Vec<Point> {
    resolve_points(&config(vec![
        configured("raw", Mode::Raw, "read"),
        configured("temp", Mode::Typed, "read_write"),
    ]))
}

fn captured(topic: &str, retain: bool, payload: &str) -> Captured {
    Captured {
        client: "dot".into(),
        topic: topic.into(),
        retain,
        json: Json::parse(payload.as_bytes()),
    }
}

#[test]
fn points_are_taken_from_the_configuration() {
    let ps = points();
    assert_eq!(ps.len(), 2);
    assert_eq!(ps[1].device, "plc");
    assert_eq!(ps[1].unit.as_deref(), Some("K"));
    assert!(ps[1].bitfield.is_none());
    assert!(is_writable(&ps[1]) && !is_writable(&ps[0]));
    let mut bits = configured("b", Mode::Typed, "read");
    bits.address = json(r#"{"start_bit":4,"bit_count":2}"#);
    assert_eq!(resolve_points(&config(vec![bits]))[0].bitfield, Some((4, 2)));
    assert_eq!(cmd_topic("plc", "modbus", "write", "7"), "te/device/plc/ot/modbus/cmd/write/7");
}

#[test]
fn filters_match_topics() {
    assert!(topic_matches("te/+/a", "te/x/a"));
    assert!(!topic_matches("te/+/a", "te/x/y/a"));
    assert!(topic_matches("te/#", "te/x/y"));
    assert!(topic_matches("te/x", "te/x"));
    assert!(!topic_matches("te/x", "te/x/y"));
    assert!(has_part("a/sample/b", "/sample/") && !has_part("a", "ab"));
}

#[test]
fn messages_are_read_for_what_they_show() {
    let link = "te/device/plc/ot/modbus/status/link";
    let up = captured(link, true, r#"{"status":"connected"}"#);
    assert!(is_status(&up, link, "connected", true));
    assert!(!is_status(&up, link, "degraded", true));
    let fleeting = captured(link, false, r#"{"status":"connected"}"#);
    assert!(!is_status(&fleeting, link, "connected", true));
    let down = captured(link, true, r#"{"status":"disconnected"}"#);
    assert!(shows_loss(&down) && !shows_loss(&up) && shows_life(&up));
    let bad = captured("te/device/plc/ot/modbus/sample/a", false, r#"{"quality":"bad"}"#);
    assert!(reads_as(&bad, "bad") && shows_loss(&bad) && !reads_as(&bad, "good"));
    assert_eq!(check_link_transition(Ok(up)), Ok(Some("observed 'connected'".into())));
    assert_eq!(check_link_transition(Err("late".into())), Err("late".into()));
}

fn reading(extra: &str) -> String {
    format!(
        r#"{{"ts":"2026-01-01T00:00:00.000Z","device":"plc","protocol":"modbus","point":"temp","mode":"typed","quality":"good","datatype":"uint16","value":5.0,"raw":"0005","seq":1{extra}}}"#
    )
}

fn truth(agrees: bool) -> Truth {
    Truth::Data {
        bytes: vec![0, 5],
        group: 2,
        value: Ok(Some(Expectation {
            value: Value::Number(JsonNumber::unsigned(5)),
            agrees,
        })),
    }
}

#[test]
fn a_reading_that_is_as_it_has_to_be_passes() {
    let p = &points()[1];
    let good = json(&reading(""));
    let found = assert_sample(p, "modbus", false, false, &good, None, &truth(true));
    assert!(found.is_ok(), "{found:?}");
    let wrong = assert_sample(p, "modbus", false, false, &good, None, &truth(false));
    assert!(wrong.is_err());
    assert_eq!(
        assert_sample(p, "modbus", false, true, &good, None, &truth(true)),
        Err("samples must not be retained".into())
    );
    assert_eq!(
        assert_sample(p, "modbus", false, false, &good, Some("x".into()), &truth(true)),
        Err("sample schema violation: x".into())
    );
    let other = assert_sample(p, "opcua", false, false, &good, None, &truth(true));
    assert!(other.unwrap_err().contains("protocol"));
    let missing = Truth::Missing("no data".into());
    assert!(assert_sample(p, "modbus", false, false, &good, None, &missing).is_err());
    assert!(assert_sample(p, "modbus", true, false, &good, None, &truth(true)).is_err());
}

#[test]
fn numbers_have_to_rise() {
    let topic = "te/device/plc/ot/modbus/sample/temp";
    let record = |n: i64| captured(topic, false, &format!("{{\"seq\":{n}}}"));
    let rising = vec![record(1), record(2), record(5)];
    let numbers = numbers_of(&rising, "dot", topic);
    assert_eq!(numbers, [1, 2, 5]);
    assert!(numbers_of(&rising, "someone", topic).is_empty());
    assert!(check_b2_seq_monotonic("temp", 3, &numbers).is_ok());
    assert!(check_b2_seq_monotonic("temp", 3, &vec![1, 3, 2]).is_err());
    assert!(check_b2_seq_monotonic("temp", 3, &vec![]).is_err());
}

#[test]
fn behaviours_that_no_point_showed_fail() {
    let mut layer = Layer::new("l");
    let mut tally = Tally::new();
    tally.note(Mode::Typed, false);
    report_behaviours(&mut layer, &tally, true, false);
    let verdicts: Vec<Verdict> = layer.checks.iter().map(|c| c.verdict).collect();
    assert_eq!(verdicts, [Verdict::Pass, Verdict::Fail]);
    assert!(!layer.passed());
    report_mode_probe(&mut layer, "x", "y", true);
    assert_eq!(layer.checks[2].verdict, Verdict::Pass);
    let ps = points();
    assert!(manifest_has_mode(&ps, &vec![false, false], Mode::Raw));
    assert!(!manifest_has_mode(&ps, &vec![true, false], Mode::Raw));
}

fn evidence(writes: u64, echo_agrees: bool, held_agrees: bool) -> WriteEvidence {
    WriteEvidence {
        echoed: json("5"),
        requested: json("5"),
        echo_agrees,
        writes: Ok(writes),
        held: Held::Value(json("4"), held_agrees),
        wanted: json("5"),
    }
}

#[test]
fn a_write_has_to_reach_the_device() {
    assert!(check_write(&evidence(1, true, true)).is_ok());
    assert!(check_write(&evidence(0, true, true)).is_err());
    assert!(check_write(&evidence(1, false, true)).is_err());
    assert!(check_write(&evidence(1, true, false)).is_err());
    let mut lost = evidence(0, false, false);
    lost.writes = Err("gone".into());
    lost.held = Held::Unknown("gone too".into());
    assert_eq!(
        check_write(&lost),
        Err("the result echoes 5, expected the requested 5".into())
    );
    lost.echo_agrees = true;
    assert_eq!(check_write(&lost), Err("gone".into()));
    lost.writes = Ok(1);
    assert_eq!(check_write(&lost), Err("simulator: gone too".into()));
    lost.held = Held::Unreadable("odd bytes".into());
    assert_eq!(check_write(&lost), Err("odd bytes".into()));
    lost.held = Held::Value(json("4"), false);
    assert_eq!(
        check_write(&lost),
        Err("simulator holds 4 after the write, expected 5".into())
    );
    let ps = points();
    assert!(covers_scaled_writes(&ps, &vec![false, true]));
    assert!(!covers_scaled_writes(&ps, &vec![true, false]));
    let mut layer = Layer::new("l");
    report_scaled_writes(&mut layer, false);
    assert_ne!(layer.checks[0].verdict, Verdict::Pass);
}

#[test]
fn a_refused_write_must_not_reach_the_device() {
    let refused = json(r#"{"status":"failed","reason":"access denied: read only"}"#);
    assert!(check_b7_access_control(&refused, 3, Ok(3)).is_ok());
    assert!(check_b7_access_control(&refused, 3, Ok(4)).is_err());
    assert!(check_b7_access_control(&json(r#"{"status":"successful"}"#), 3, Ok(3)).is_err());
    let outside = json(r#"{"status":"failed","reason":"value 9 outside range [0, 5] of temp"}"#);
    assert!(check_b7_range(&outside, 1, Ok(1)).is_ok());
    assert!(check_b7_range(&outside, 1, Ok(2)).is_err());
    let gone = || Err("gone".to_string());
    assert_eq!(check_b7_range(&outside, 1, gone()), Err("gone".into()));
    assert_eq!(check_b7_access_control(&refused, 1, gone()), Err("gone".into()));
    assert_eq!(
        check_b7_access_control(&json("{}"), 1, gone()),
        Err("failed status must carry a non-empty 'reason'".into())
    );
}

#[test]
fn a_point_is_added_to_a_running_connector() {
    let ps = points();
    assert_eq!(point_to_mirror(&ps, &vec![false, false]), Some(1));
    assert_eq!(point_to_mirror(&ps, &vec![false, true]), None);
    let device = json(r#"{"name":"plc","point":[{"id":"temp","address":{"a":1}}]}"#);
    let more = mirror_point(&device, "temp", NEW_POINT).unwrap();
    assert_eq!(
        more.print(),
        r#"{"name":"plc","point":[{"address":{"a":1},"id":"temp"},{"address":{"a":1},"id":"b8-hot-reload"}]}"#
    );
    assert!(mirror_point(&device, "none", NEW_POINT).is_err());
    assert!(mirror_point(&json("{}"), "temp", NEW_POINT).is_err());
    let (topic, request) = define_device_request("plant", json("{}"));
    assert_eq!(topic, "te/device/main/service/plant/ot/cmd/define-device/conf-b8");
    assert_eq!(request.print(), r#"{"device":{},"status":"init"}"#);
    assert!(check_b8_hot_reload(&json(r#"{"quality":"good"}"#)).is_ok());
    assert_eq!(
        check_b8_hot_reload(&json(r#"{"quality":"bad"}"#)),
        Err("new point published quality String(\"bad\")".into())
    );
    assert_eq!(
        check_b8_hot_reload(&json("{}")),
        Err("new point published quality Null".into())
    );
}

fn claims() -> Claims {
    Claims {
        protocol: "modbus".into(),
        modes: texts(&["typed"]),
        datatypes: texts(&["uint16", "bool"]),
        verbs: texts(&["write"]),
        features: texts(&["polling"]),
        point_kinds: vec![],
        subscribe: false,
    }
}

fn told_caps() -> Json {
    let mut caps = json(
        r#"{"protocol":"modbus","modes":["typed"],"datatypes":["bool","uint16"],"command_verbs":["write"],"features":["polling"],"point_kinds":[],"subscribe":false}"#,
    );
    if let Json::Object(o) = &mut caps {
        augment_caps(o);
    }
    caps
}

#[test]
fn claims_have_to_agree() {
    assert_eq!(sorted_set(&texts(&["b", "a", "b"])), ["a", "b"]);
    let caps = told_caps();
    assert!(list_under(&caps, "command_verbs").iter().any(|v| v == "write-batch"));
    let mut layer = Layer::new("l");
    check_b9_manifest_agreement(&claims(), &caps, &mut layer);
    assert_eq!(layer.checks.len(), 1);
    let mut more = claims();
    more.modes = texts(&["raw", "typed"]);
    assert!(!manifest_caps_mismatches(&more, &caps).is_empty());
    let mut other = claims();
    other.protocol = "opcua".into();
    assert!(!manifest_caps_mismatches(&other, &caps).is_empty());
    let mut empty = JsonObject::new();
    augment_caps(&mut empty);
    assert!(empty.len() <= 2);
}

#[test]
fn a_mode_that_is_not_claimed_is_found() {
    let caps = told_caps();
    let topic = "te/device/plc/ot/modbus/sample/temp";
    let honest = vec![captured(topic, false, r#"{"mode":"typed","datatype":"bool"}"#)];
    assert!(check_b9_capability_honesty(&honest, "dot", &caps).is_ok());
    let raw = vec![captured(topic, false, r#"{"mode":"raw"}"#)];
    assert!(check_b9_capability_honesty(&raw, "dot", &caps).is_err());
    assert!(check_b9_capability_honesty(&raw, "someone", &caps).is_ok());
}

#[test]
fn a_connector_keeps_to_its_topics() {
    let filters = allowed_topics("tedge-dot-modbus", "modbus");
    assert!(matches_one(&filters, "te/device/plc/ot/modbus/sample/temp"));
    assert!(!matches_one(&filters, "te/device/plc/ot/opcua/sample/temp"));
    assert!(TopicClass::Samples.covers("s", "modbus", "te/device/plc/ot/modbus/sample/temp"));
    assert!(!TopicClass::Commands.covers("s", "modbus", "te/device/plc/ot/modbus/sample/temp"));
    let strays = vec![captured("elsewhere", false, "{}")];
    assert!(check_b10_topic_discipline(&strays, "dot", "tedge-dot-modbus", "modbus").is_err());
    assert!(check_b10_topic_discipline(&strays, "someone", "tedge-dot-modbus", "modbus").is_ok());
    let mut layer = Layer::new("l");
    report_traffic(&mut layer, TopicClass::Samples, 3, vec![]);
    report_traffic(&mut layer, TopicClass::Status, 3, texts(&["x: bad"]));
    assert_eq!(layer.checks[0].verdict, Verdict::Pass);
    assert_eq!(layer.checks[1].verdict, Verdict::Fail);
}

#[test]
fn every_message_is_held_against_its_schema() {
    let ours = |topic: &str| captured(topic, false, "{}");
    let mut stranger = ours("te/device/plc/ot/modbus/sample/temp");
    stranger.client = "other".into();
    let records = vec![
        ours("te/device/plc/ot/modbus/sample/temp"),
        ours("te/device/plc/ot/modbus/sample/level"),
        ours("te/device/main/service/plant/status/health"),
        ours("te/device/main/service/plant/ot/capabilities"),
        stranger,
    ];
    let found = |sample: Option<&str>, status: Option<&str>| SchemaErrors {
        sample: sample.map(str::to_string),
        command: Some("no command".into()),
        status: status.map(str::to_string),
    };
    let errors = vec![
        found(None, Some("no status")),
        found(Some("no ts"), Some("no status")),
        found(Some("no ts"), None),
        found(None, Some("no protocol")),
        found(Some("no ts"), None),
    ];
    let layer = validate_captured_traffic(&records, &errors, "dot", "plant", "modbus");
    assert_eq!(layer.name, "Layer 1 \u{2014} schema conformance (captured traffic)");
    let details: Vec<&str> = layer.checks.iter().map(|c| c.detail.as_deref().unwrap()).collect();
    assert_eq!(
        details,
        [
            "1/2 message(s) violate the schema:\nte/device/plc/ot/modbus/sample/level: no ts",
            "no command transitions were captured at all",
            "1 message(s) validated",
            "1/1 message(s) violate the schema:\n\
             te/device/main/service/plant/ot/capabilities: no protocol",
        ]
    );
}

#[test]
fn what_is_claimed_has_to_be_what_is_run() {
    assert!(protocols_agree("modbus", "modbus").is_ok());
    assert_eq!(
        protocols_agree("modbus", "opcua").unwrap_err(),
        "manifest protocol 'modbus' does not match config protocol 'opcua'"
    );
    assert!(behaviour_can_be_checked(true, true).is_ok());
    assert!(behaviour_can_be_checked(false, true).unwrap_err().contains("[simulator]"));
    assert!(behaviour_can_be_checked(true, false).unwrap_err().contains("[harness]"));
}

#[test]
fn every_topic_of_a_connector_is_allowed() {
    let filters = allowed_topics("plant", "modbus");
    for topic in [
        "te/device/main/service/plant/status/health",
        "te/device/main/service/plant/ot/capabilities",
        "te/device/main/service/plant/ot/cmd/set-config/1",
        "te/device/plc/ot/modbus/manifest",
        "te/device/plc/ot/modbus/status/link",
        "te/device/plc/ot/modbus/sample/temp",
    ] {
        assert!(matches_one(&filters, topic), "{topic}");
    }
    assert!(matches_one(&filters, &cmd_topic("plc", "modbus", "write", "7")));
    assert!(!matches_one(&filters, "te/device/a/b/ot/modbus/manifest"));
}

#[test]
fn what_is_not_answered_and_what_is() {
    assert!(check_b11_unowned_device_ignored(None, &vec![]).is_ok());
    assert!(check_b11_unowned_device_ignored(None, &texts(&["failed"])).is_err());
    assert!(check_b11_unowned_device_ignored(Some("dead".into()), &vec![]).is_err());
    assert!(check_b5_silent_peer(None, None).is_ok());
    assert!(check_b5_silent_peer(Some("nothing".into()), None).is_err());
    assert!(check_b5_silent_peer(None, Some("stuck".into())).is_err());
    let mut layer = Layer::new("l");
    let caps = captured("te/caps", true, r#"{"protocol":"modbus"}"#);
    let told = check_b1_startup(&mut layer, Ok(caps));
    assert!(told.is_some());
    assert!(check_b1_startup(&mut layer, Err("late".into())).is_none());
}

#[test]
fn a_published_manifest_is_right() {
    let mut full = configured("level", Mode::Typed, "write");
    full.meta = Some(json(r#"{"area":[1,2.5]}"#));
    full.measurement = Some(json(r#"{"group":"tank"}"#));
    full.range = Some(Range { min: Some(JsonNumber::signed(-5)), max: None });
    full.publish = Some(PublishPolicy {
        on_change: Some(true),
        deadband: Some(JsonNumber::unsigned(2)),
        min_interval: Some("1s".into()),
        debounce: None,
    });
    let mut cfg = config(vec![configured("temp", Mode::Typed, "read"), full]);
    let mut other = config(vec![configured("temp", Mode::Raw, "read_write")]).devices.remove(0);
    other.name = "rtu".into();
    cfg.devices.push(other);
    let ps = resolve_points(&cfg);
    for device in &cfg.devices {
        let told = device_manifest(&cfg, device, Some(&json("{}")), &texts(&["write"]));
        let errors = check_manifest(&told, None, "modbus", &ps, &device.name);
        assert_eq!(errors, Vec::<String>::new(), "{}", device.name);
    }
    let told = device_manifest(&cfg, &cfg.devices[0], None, &vec![]);
    assert_eq!(check_manifest(&told, None, "modbus", &ps, "rtu").len(), 1);
}

#[test]
fn a_manifest_has_to_tell_every_point() {
    let cfg = config(vec![configured("temp", Mode::Typed, "read_write")]);
    let told = device_manifest(&cfg, &cfg.devices[0], None, &vec![]);
    let ps = resolve_points(&cfg);
    assert_eq!(check_manifest(&told, None, "modbus", &ps, "plc"), Vec::<String>::new());
    assert_eq!(check_manifest(&told, Some("x".into()), "modbus", &ps, "plc"), ["schema: x"]);
    assert_eq!(check_manifest(&told, None, "opcua", &ps, "plc").len(), 1);
    let none = check_manifest(&json(r#"{"contract":"0.2","protocol":"modbus"}"#), None, "modbus", &ps, "plc");
    assert_eq!(none, ["points: missing or not an object"]);
    let empty = json(r#"{"contract":"0.2","protocol":"modbus","points":{}}"#);
    let missing = check_manifest(&empty, None, "modbus", &ps, "plc");
    assert!(missing.iter().any(|e| e.contains("temp")), "{missing:?}");
}

fn entry(layer: &Layer, i: usize) -> (&str, &str, Verdict, Option<&str>) {
    let c = &layer.checks[i];
    (&c.id, &c.name, c.verdict, c.detail.as_deref())
}

#[test]
fn a_manifest_fails_with_all_that_is_wrong() {
    let ps = points();
    let mut layer = Layer::new("l");
    let name = "retained device manifest lists every configured point";
    let came = |payload: &str| Ok(captured("t", true, payload));
    check_b1_manifest(&mut layer, Err("no answer".into()), None, "modbus", &ps, "plc");
    check_b1_manifest(&mut layer, came("x"), Some("unused".into()), "modbus", &ps, "plc");
    check_b1_manifest(&mut layer, came("{}"), Some("bad".into()), "modbus", &ps, "plc");
    let cfg = config(vec![configured("temp", Mode::Typed, "read_write")]);
    let told = device_manifest(&cfg, &cfg.devices[0], None, &vec![]).print();
    let one = vec![points().remove(1)];
    check_b1_manifest(&mut layer, came(&told), None, "modbus", &one, "plc");
    let id = "B1-manifest-plc";
    assert_eq!(entry(&layer, 0), (id, name, Verdict::Fail, Some("no answer")));
    assert_eq!(entry(&layer, 1), (id, name, Verdict::Fail, Some("payload is not JSON")));
    let wrong = check_manifest(&json("{}"), Some("bad".into()), "modbus", &ps, "plc");
    assert!(wrong.len() > 1);
    assert_eq!(entry(&layer, 2), (id, name, Verdict::Fail, Some(wrong.join("; ").as_str())));
    assert_eq!(entry(&layer, 3), (id, name, Verdict::Pass, None));
}

#[test]
fn a_reading_counts_where_nothing_is_wrong() {
    let ps = points();
    let mut layer = Layer::new("l");
    let mut tally = Tally::new();
    report_sample(&mut layer, &mut tally, &ps[1], false, Err("late".into()));
    assert_eq!(tally, Tally::new());
    report_sample(&mut layer, &mut tally, &ps[1], false, Ok(None));
    assert!(tally.typed && !tally.bad);
    report_sample(&mut layer, &mut tally, &ps[0], true, Ok(None));
    assert!(!tally.raw && tally.bad);
    let good = "point 'temp' publishes a conformant good sample";
    assert_eq!(entry(&layer, 0), ("B2-sample-temp", good, Verdict::Fail, Some("late")));
    assert_eq!(entry(&layer, 1), ("B2-sample-temp", good, Verdict::Pass, None));
    let bad = "point 'raw' publishes a conformant bad-quality sample";
    assert_eq!(entry(&layer, 2), ("B2-sample-raw", bad, Verdict::Pass, None));
}

#[test]
fn checks_without_a_point_are_noted() {
    let ps = points();
    let mut layer = Layer::new("l");
    assert_eq!(numbered_point(&mut layer, &ps, &vec![false, false]), Some(1));
    assert_eq!(written_points(&mut layer, &ps), [1]);
    assert!(layer.checks.is_empty());
    assert_eq!(numbered_point(&mut layer, &ps, &vec![false, true]), None);
    assert_eq!(denied_point(&mut layer, &ps, &vec![false, false]), None);
    assert_eq!(ranged_point(&mut layer, &ps), None);
    let raw = vec![points().remove(0)];
    assert!(written_points(&mut layer, &raw).is_empty());
    let seq = "per-point seq is monotonic";
    assert_eq!(
        entry(&layer, 0),
        ("B2-seq", seq, Verdict::Skip, Some("no good typed point configured"))
    );
    assert_eq!(
        entry(&layer, 1),
        (
            "B7-access",
            "write to a read-only point is rejected",
            Verdict::Fail,
            Some("the conformance config declares no read-only typed point")
        )
    );
    let range = "a write outside the point's range fails and never reaches the device";
    assert_eq!(
        entry(&layer, 2),
        (
            "B7-range",
            range,
            Verdict::Skip,
            Some("the conformance config declares no writable point with a range")
        )
    );
    assert_eq!(
        entry(&layer, 3),
        (
            "B6-write",
            "write verb round-trips",
            Verdict::Fail,
            Some("the conformance config declares no writable typed point")
        )
    );

    let read_only = resolve_points(&config(vec![configured("t", Mode::Typed, "read")]));
    assert_eq!(denied_point(&mut layer, &read_only, &vec![false]), Some(0));
    let mut bounded = points();
    bounded[1].range = Some(Range { min: None, max: Some(JsonNumber::signed(5)) });
    assert_eq!(ranged_point(&mut layer, &bounded), Some(1));
    assert_eq!(layer.checks.len(), 4);
    bounded[1].range = Some(Range { min: None, max: None });
    assert_eq!(ranged_point(&mut layer, &bounded), None);
    assert_eq!(
        entry(&layer, 4),
        ("B7-range", range, Verdict::Skip, Some("the point's range bounds nothing"))
    );

    report_write(&mut layer, "temp", None);
    report_write(&mut layer, "temp", Some(Err("lost".into())));
    let name = "write to 'temp' executes and round-trips";
    assert_eq!(
        entry(&layer, 5),
        ("B6-write-temp", name, Verdict::Skip, Some("no probe value for the datatype"))
    );
    assert_eq!(entry(&layer, 6), ("B6-write-temp", name, Verdict::Fail, Some("lost")));

    let device = json(r#"{"name":"plc","point":[{"id":"temp"}]}"#);
    assert_eq!(
        with_mirror(&device, &ps, &vec![false, false]).unwrap().print(),
        r#"{"name":"plc","point":[{"id":"temp"},{"id":"b8-hot-reload"}]}"#
    );
    assert_eq!(
        with_mirror(&device, &ps, &vec![false, true]),
        Err("no good typed point to mirror".into())
    );
}
