//! A connector as it runs: commands and their answers, links, readings and the broker.
use std::time::Duration;
use tedge_dot::batch::{parse_batch_writes, BatchRun};
use tedge_dot::capabilities::capability_payload;
use tedge_dot::config::{
    default_log_level, default_operation_timeout, default_poll_interval, default_stall_timeout,
    ConnectorConfig, ConnectorSection, DeviceConfig, MqttSection, PointConfig, PublishPolicy,
    Range,
};
use tedge_dot::connector::{
    Access, Capabilities, CommandRequest, CommandResult, ConnectorError, LinkReport, LinkStatus,
};
use tedge_dot::json::{Json, JsonNumber};
use tedge_dot::keyed::TextMap;
use tedge_dot::links::{after_reconnect, Attempt, LinkTracker};
use tedge_dot::management::{manage, timed_out, Limits, ManageEvent, ManageStep, RunExit};
use tedge_dot::message::health;
use tedge_dot::model::{DataType, Mode, Quality, Sample, Value};
use tedge_dot::policy::Shift;
use tedge_dot::routing::{
    answer, answer_batch, handle_command, tell_failed, tell_status, with_origin, Plan,
};
use tedge_dot::runtime::{
    after_wait, client_id, Runtime, Session, SessionAction, SessionEvent, Waited,
};
use tedge_dot::samples::{health_of, usable, SeqCounters};

fn json(text: &str) -> Json {
    Json::parse(text.as_bytes()).expect("JSON")
}

fn point(id: &str) -> PointConfig {
    PointConfig {
        id: id.into(),
        mode: None,
        datatype: Some(DataType::Uint16),
        endianness: None,
        word_order: None,
        poll_interval: None,
        address: json("{}"),
        access: None,
        unit: None,
        name: None,
        description: None,
        transform: None,
        range: None,
        publish: None,
        measurement: None,
        parameter: None,
        meta: None,
        subscribe: None,
    }
}

fn device(name: &str, ids: &[&str]) -> DeviceConfig {
    DeviceConfig {
        name: name.into(),
        protocol_address: json("{}"),
        device_type: None,
        default_mode: None,
        poll_interval: None,
        points_from: vec![],
        points: ids.iter().map(|id| point(id)).collect(),
    }
}

fn config(devices: Vec<DeviceConfig>) -> ConnectorConfig {
    ConnectorConfig {
        connector: ConnectorSection {
            protocol: "modbus".into(),
            configured_service_name: Some("plant".into()),
            poll_interval: default_poll_interval(),
            log_level: default_log_level(),
            operation_timeout: default_operation_timeout(),
            stall_timeout: default_stall_timeout(),
            sample_debug: false,
            command_aliases: TextMap::new(),
            configured_parameter_set: None,
            point_library_path: None,
        },
        mqtt: MqttSection::default(),
        connection: Json::null(),
        devices,
    }
}

fn caps(subscribe: bool) -> Capabilities {
    Capabilities {
        protocol: "modbus",
        version: "1.2.3",
        modes: vec![Mode::Typed],
        datatypes: vec![DataType::Uint16],
        point_kinds: vec![],
        command_verbs: vec!["write".into()],
        features: vec!["polling".into()],
        subscribe,
    }
}

fn sample(point: &str, quality: Quality) -> Sample {
    Sample {
        ts: 0,
        device: String::new(),
        protocol: "modbus".into(),
        point: point.into(),
        mode: Mode::Typed,
        datatype: Some(DataType::Uint16),
        value: Some(Value::Number(JsonNumber::unsigned(5))),
        raw: vec![0, 5],
        raw_group: 2,
        quality,
        unit: None,
        addr: Json::null(),
        seq: None,
        error: if quality == Quality::Bad { Some("no answer".into()) } else { None },
    }
}

const WRITE: &str = "te/device/plc/ot/modbus/cmd/write/7";

fn plan(topic: &str, payload: &str) -> Plan {
    let cfg = config(vec![device("plc", &["p"])]);
    handle_command(topic, payload.as_bytes(), "modbus", "plant", &cfg).0
}

#[test]
fn a_new_write_is_announced_and_made() {
    let request = r#"{"status":"init","point":"p","value":7,"origin":{"by":"cloud"}}"#;
    match plan(WRITE, request) {
        Plan::Execute { device, verb, request, announcement } => {
            assert_eq!(device, "plc");
            assert_eq!(verb, "write");
            assert_eq!(
                request,
                CommandRequest {
                    point: "p".into(),
                    value: Some(json("7")),
                    value_repr: None,
                    raw: None,
                }
            );
            assert_eq!(announcement.topic, WRITE);
            assert!(announcement.retain);
            assert_eq!(
                announcement.payload,
                r#"{"origin":{"by":"cloud"},"point":"p","status":"executing"}"#
            );
        }
        other => panic!("{other:?}"),
    }
}

#[test]
fn what_is_no_new_request_is_left_alone() {
    for payload in ["", "not json", r#"{"status":"executing"}"#, "{}", "[]"] {
        assert_eq!(plan(WRITE, payload), Plan::Ignore, "{payload}");
    }
    let elsewhere = "te/device/other/ot/modbus/cmd/write/7";
    assert_eq!(plan(elsewhere, r#"{"status":"init"}"#), Plan::Ignore);
}

#[test]
fn a_connector_does_not_answer_itself() {
    let origin = json(r#"{"by":"cloud"}"#);
    let told = [
        tell_status(WRITE, "executing", Some(&origin)),
        tell_status(WRITE, "successful", None),
        tell_failed(WRITE, "no", Some(&origin)),
        answer_batch(WRITE, BatchRun::new(vec![]), Some(&origin)),
    ];
    for message in told {
        assert_eq!(plan(&message.topic, &message.payload), Plan::Ignore, "{}", message.payload);
    }
    for verb in ["write", "write-batch", "set-config", "none"] {
        for topic in ["te/device/plc/ot/modbus/cmd/", "te/device/main/service/plant/ot/cmd/"] {
            let heard = plan(&format!("{topic}{verb}/1"), r#"{"status":"init"}"#);
            assert_ne!(heard, Plan::Ignore, "{topic}{verb}");
        }
    }
}

#[test]
fn a_verb_on_the_wrong_topic_is_refused() {
    let refused = |topic: &str| match plan(topic, r#"{"status":"init"}"#) {
        Plan::Refuse { answer } => json(&answer.payload),
        other => panic!("{other:?}"),
    };
    let on_device = refused("te/device/plc/ot/modbus/cmd/set-config/1");
    assert_eq!(on_device.get_str("status"), Some("failed"));
    let on_service = refused("te/device/main/service/plant/ot/cmd/write/1");
    assert_eq!(on_service.get_str("status"), Some("failed"));
    assert!(on_service.get_str("reason").is_some());
    match plan("te/device/main/service/plant/ot/cmd/set-config/1", r#"{"status":"init"}"#) {
        Plan::Manage { verb } => assert_eq!(verb, "set-config"),
        other => panic!("{other:?}"),
    }
}

#[test]
fn a_batch_is_made_in_turn_and_ends_with_its_first_failure() {
    let request = json(
        r#"{"writes":[{"point":"a","value":1},{"point":"b","value":2},{"point":"c","value":3}]}"#,
    );
    let mut run = BatchRun::new(parse_batch_writes(&request).unwrap());
    assert_eq!(run.next().unwrap().point, "a");
    run.note(Ok(CommandResult { point: "a".into(), value: Some(json("1")), raw: None }));
    assert_eq!(run.next().unwrap().point, "b");
    run.note(Err("boom".into()));
    assert!(run.next().is_none());
    let result = run.finish();
    assert_eq!(result.get_str("status"), Some("failed"));
    assert_eq!(result.get("results").unwrap().as_array().unwrap().len(), 2);
    assert!(result.get_str("reason").unwrap().contains("boom"));
}

#[test]
fn a_batch_that_went_well_says_so() {
    let request = json(r#"{"writes":[{"point":"a","raw":"00ff"}]}"#);
    let mut run = BatchRun::new(parse_batch_writes(&request).unwrap());
    assert_eq!(run.next().unwrap().raw.as_deref(), Some("00ff"));
    run.note(Ok(CommandResult { point: "a".into(), value: None, raw: Some("00ff".into()) }));
    let origin = json("1");
    let message = answer_batch("t", run, Some(&origin));
    assert_eq!(
        message.payload,
        r#"{"origin":1,"results":[{"point":"a","raw":"00ff","status":"successful"}],"status":"successful"}"#
    );
}

#[test]
fn a_batch_that_cannot_be_made_out_is_refused() {
    match plan("te/device/plc/ot/modbus/cmd/write-batch/1", r#"{"status":"init","writes":[]}"#) {
        Plan::RefuseBatch { answer } => {
            let told = json(&answer.payload);
            assert_eq!(told.get_str("status"), Some("failed"));
            assert_eq!(told.get("results").unwrap().as_array().unwrap().len(), 0);
        }
        other => panic!("{other:?}"),
    }
}

#[test]
fn answers_carry_the_origin() {
    let origin = json(r#"{"id":3}"#);
    let done = CommandResult { point: "p".into(), value: Some(json("true")), raw: None };
    assert_eq!(
        answer("t", "p", Ok(done), Some(&origin)).payload,
        r#"{"origin":{"id":3},"point":"p","status":"successful","value":true}"#
    );
    assert_eq!(
        answer("t", "p", Err("no".into()), None).payload,
        r#"{"point":"p","reason":"no","status":"failed"}"#
    );
    assert_eq!(tell_status("t", "executing", None).payload, r#"{"status":"executing"}"#);
    assert_eq!(tell_failed("t", "why", None).payload, r#"{"reason":"why","status":"failed"}"#);
    assert_eq!(with_origin(json("{}"), None), json("{}"));
}

#[test]
fn a_change_of_the_configuration_goes_step_by_step() {
    assert_eq!(manage(ManageEvent::Edited(Ok(()))), ManageStep::Check);
    assert_eq!(manage(ManageEvent::Checked(Ok(()))), ManageStep::Resolve);
    assert_eq!(manage(ManageEvent::Resolved(Ok(()))), ManageStep::Configure);
    assert_eq!(manage(ManageEvent::Configured(Ok(()))), ManageStep::Commit);
    assert_eq!(
        manage(ManageEvent::Resolved(Err("x".into()))),
        ManageStep::Refuse { reason: "resulting config is invalid: x".into(), restore: false }
    );
    assert_eq!(
        manage(ManageEvent::Configured(Err("x".into()))),
        ManageStep::Refuse { reason: "configure failed: x".into(), restore: true }
    );
}

#[test]
fn a_call_that_takes_too_long_is_an_error() {
    let limits = Limits { operation: Duration::from_secs(30) };
    match timed_out(&limits, "read") {
        ConnectorError::Transport(text) => assert!(text.contains("read"), "{text}"),
        other => panic!("{other:?}"),
    }
}

#[test]
fn a_link_is_told_when_it_changes() {
    let cfg = config(vec![device("plc", &["p"])]);
    let mut links = LinkTracker::new("modbus");
    let up = links.note_poll("plc", true, None, &cfg, 0).unwrap();
    assert_eq!(up.topic, "te/device/plc/ot/modbus/status/link");
    assert_eq!(up.payload, r#"{"since":"1970-01-01T00:00:00.000Z","status":"connected"}"#);
    assert!(up.retain);
    assert!(links.note_poll("plc", true, None, &cfg, 0).is_none());
    let down = links.note_poll("plc", false, Some("no answer".into()), &cfg, 0).unwrap();
    assert_eq!(down.payload, r#"{"reason":"no answer","status":"degraded"}"#);
    assert_eq!(links.status("plc"), Some(LinkStatus::Degraded));
    assert_eq!(links.republish(&cfg, 0).len(), 1);
}

#[test]
fn what_a_device_said_of_itself_is_carried_on() {
    let cfg = config(vec![device("plc", &["p"])]);
    let mut links = LinkTracker::new("modbus");
    let mut report = LinkReport::new("plc".into(), LinkStatus::Connected, None);
    report.info = Some(json(r#"{"host":"10.0.0.9"}"#));
    links.publish_reports(&vec![report], &cfg, 0);
    let down = links.note_poll("plc", false, None, &cfg, 0).unwrap();
    assert_eq!(down.payload, r#"{"info":{"host":"10.0.0.9"},"status":"degraded"}"#);
}

#[test]
fn a_module_that_cannot_reach_one_device_reaches_all() {
    let unsupported = ConnectorError::Unsupported("reconnect".into());
    assert!(matches!(after_reconnect(Err(unsupported)), Attempt::ConnectAll));
    let lost = ConnectorError::Transport("lost".into());
    assert!(matches!(after_reconnect(Err(lost)), Attempt::Failed));
    let report = LinkReport::new("plc".into(), LinkStatus::Connected, None);
    match after_reconnect(Ok(report)) {
        Attempt::Answered(reports) => assert_eq!(reports.len(), 1),
        _ => panic!("an answer"),
    }
}

#[test]
fn readings_are_numbered_by_point() {
    let mut counters = SeqCounters::new();
    assert_eq!(counters.next("plc", "a"), 1);
    assert_eq!(counters.next("plc", "a"), 2);
    assert_eq!(counters.next("plc", "b"), 1);
    assert_eq!(counters.next("other", "a"), 1);
    assert_eq!(counters.next("plc", "a"), 3);
}

#[test]
fn a_poll_is_good_where_any_reading_is() {
    let bad = sample("a", Quality::Bad);
    let good = sample("b", Quality::Good);
    assert!(!usable(&vec![]));
    assert_eq!(health_of(&vec![sample("a", Quality::Bad)]), (false, Some("no answer".into())));
    assert!(health_of(&vec![bad, good]).0);
}

#[test]
fn a_runtime_reads_publishes_and_tries_again() {
    let mut rt = Runtime::new(config(vec![device("plc", &["a", "b"])]), caps(false));
    let said = rt.greet(&vec![], 0);
    assert_eq!(said[0].topic, "te/device/main/service/plant/ot/capabilities");
    assert_eq!(said[1].payload, r#"{"status":"up","time":"1970-01-01T00:00:00.000Z"}"#);
    assert!(rt.pushes().is_empty());
    rt.reschedule(0);
    let due = rt.due(0);
    assert_eq!(due.len(), 1);
    assert_eq!(due[0].points.len(), 2);
    assert!(rt.due(1_999_999_999).is_empty());

    let told = rt.read_done(0, Ok(vec![sample("a", Quality::Good)]), &vec![], true, 0, 0);
    assert_eq!(told.len(), 2);
    assert_eq!(told[0].topic, "te/device/plc/ot/modbus/sample/a");
    assert!(!told[0].retain);
    assert_eq!(json(&told[0].payload).get("seq").map(|s| s.print()), Some("1".to_string()));
    assert_eq!(told[1].topic, "te/device/plc/ot/modbus/status/link");

    let told = rt.read_done(0, Err("gone".into()), &vec![], true, 0, 0);
    assert_eq!(told.len(), 1);
    assert_eq!(json(&told[0].payload).get_str("status"), Some("degraded"));
    assert_eq!(rt.due_reconnects(1_000_000_000), ["plc"]);
    let report = LinkReport::new("plc".into(), LinkStatus::Connected, None);
    let (_, again) = rt.reconnect_done("plc", Some(vec![report]), 1_000_000_000, 0);
    assert_eq!(again, None, "nothing was pushed");
    assert_eq!(rt.restore(&vec![], 0).len(), 3);
    assert!(rt.farewell(true, 0).is_some());
}

#[test]
fn nothing_is_published_while_the_broker_is_away() {
    let mut rt = Runtime::new(config(vec![device("plc", &["a"])]), caps(false));
    rt.read_done(0, Ok(vec![sample("a", Quality::Good)]), &vec![], true, 0, 0);
    let told = rt.read_done(0, Ok(vec![sample("a", Quality::Good)]), &vec![], false, 0, 0);
    assert!(told.is_empty());
    let own = Sample { device: "plc".into(), ..sample("a", Quality::Good) };
    let line = rt.pushed_printed(own, SAME, 0).unwrap();
    assert!(line.contains("\"point\":\"a\""), "{line}");
}

const SAME: Shift = Shift { wide: false, moved: false, drifted: false };
const OTHER: Shift = Shift { wide: false, moved: true, drifted: true };
const SECOND: u128 = 1_000_000_000;

/// A connector whose point `a` has a policy.
fn with_policy(on_change: bool, min_interval: Option<&str>, debounce: Option<&str>) -> Runtime {
    let mut plc = device("plc", &["a", "b"]);
    plc.points[0].publish = Some(PublishPolicy {
        on_change: Some(on_change),
        deadband: None,
        min_interval: min_interval.map(str::to_string),
        debounce: debounce.map(str::to_string),
    });
    Runtime::new(config(vec![plc]), caps(false))
}

fn told(rt: &mut Runtime, point: &str, shift: Shift, at: u128) -> bool {
    let own = Sample { device: "plc".into(), ..sample(point, Quality::Good) };
    rt.pushed(own, shift, true, at).is_some()
}

#[test]
fn only_changes_are_published_where_that_is_asked_for() {
    let mut rt = with_policy(true, None, None);
    assert!(told(&mut rt, "a", OTHER, 0), "the first one is new");
    assert!(!told(&mut rt, "a", SAME, SECOND));
    assert!(told(&mut rt, "a", OTHER, 2 * SECOND));
    assert!(told(&mut rt, "b", SAME, SECOND) && told(&mut rt, "b", SAME, SECOND), "no policy");
    let bad = Sample { device: "plc".into(), ..sample("a", Quality::Bad) };
    assert!(rt.pushed(bad, SAME, true, 3 * SECOND).is_some(), "its quality differs");
    let read = Ok(vec![sample("a", Quality::Bad), sample("b", Quality::Good)]);
    let shifts = vec![SAME, SAME];
    let messages = rt.read_done(0, read, &shifts, true, 4 * SECOND, 0);
    assert!(messages.iter().any(|m| m.topic.ends_with("/sample/b")));
    assert!(!messages.iter().any(|m| m.topic.ends_with("/sample/a")));
    assert_eq!(rt.standing("plc", "a").unwrap().last.as_ref().unwrap().1, 3 * SECOND);
    rt.rearm();
    assert!(rt.standing("plc", "a").is_none());
}

#[test]
fn readings_that_are_held_back_are_not_numbered() {
    let mut rt = with_policy(true, None, None);
    let seq = |m: Option<tedge_dot::message::Message>| {
        json(&m.unwrap().payload).get("seq").map(|j| j.print())
    };
    let own = || Sample { device: "plc".into(), ..sample("a", Quality::Good) };
    assert_eq!(seq(rt.pushed(own(), OTHER, true, 0)), Some("1".into()));
    assert!(rt.pushed(own(), SAME, true, 1).is_none());
    assert_eq!(seq(rt.pushed(own(), OTHER, true, 2)), Some("2".into()));
    assert!(rt.pushed(own(), OTHER, false, 3).is_none(), "dropped, which shows in the numbers");
    assert_eq!(seq(rt.pushed(own(), OTHER, true, 4)), Some("4".into()));
}

#[test]
fn readings_come_no_sooner_than_the_least_interval() {
    let mut rt = with_policy(false, Some("5s"), None);
    assert!(told(&mut rt, "a", SAME, 0));
    assert!(!told(&mut rt, "a", OTHER, 4 * SECOND));
    assert!(told(&mut rt, "a", SAME, 5 * SECOND));
}

#[test]
fn a_value_has_to_be_stable() {
    let mut rt = with_policy(false, None, Some("2s"));
    assert!(!told(&mut rt, "a", OTHER, 0));
    let drifts = Shift { wide: false, moved: true, drifted: true };
    let stays = Shift { wide: false, moved: true, drifted: false };
    assert!(!told(&mut rt, "a", drifts, SECOND), "another value waits from now on");
    assert!(!told(&mut rt, "a", stays, 2 * SECOND));
    assert!(told(&mut rt, "a", stays, 3 * SECOND));
    assert!(!told(&mut rt, "a", SAME, 9 * SECOND), "nothing new");
}

#[test]
fn a_write_outside_the_range_is_refused() {
    let mut plc = device("plc", &["a", "b"]);
    plc.points[0].range = Some(Range { min: Some(JsonNumber::signed(0)), max: None });
    let rt = Runtime::new(config(vec![plc]), caps(false));
    let write = |point: &str, value: &str| CommandRequest {
        point: point.into(),
        value: Some(json(value)),
        value_repr: None,
        raw: None,
    };
    assert_eq!(
        rt.refuse_write("plc", &write("a", "-3"), true, false).as_deref(),
        Some("value -3 outside range [0, \u{221e}) of a")
    );
    assert_eq!(rt.refuse_write("plc", &write("a", "3"), false, true), None);
    assert_eq!(rt.refuse_write("plc", &write("a", "\"-3\""), true, true), None);
    assert_eq!(rt.refuse_write("plc", &write("b", "-3"), true, true), None);
    assert_eq!(rt.refuse_write("other", &write("a", "-3"), true, true), None);
    assert!(rt.range_of("plc", "a").is_some() && rt.range_of("plc", "b").is_none());
}

#[test]
fn a_pushed_point_is_not_polled() {
    let mut rt = Runtime::new(config(vec![device("plc", &["a", "b"])]), caps(true));
    let pushes = rt.pushes();
    assert_eq!(pushes.len(), 1);
    rt.note_push(0, &pushes[0].points, true);
    rt.reschedule(0);
    assert!(rt.due(0).is_empty());
    rt.read_done(0, Err("gone".into()), &vec![], true, 0, 0);
    let report = LinkReport::new("plc".into(), LinkStatus::Connected, None);
    let (_, again) = rt.reconnect_done("plc", Some(vec![report]), 1_000_000_000, 0);
    assert_eq!(again, Some(0), "what was pushed ended with the link");
    rt.note_push(0, &pushes[0].points, false);
    rt.reschedule(0);
    assert_eq!(rt.due(0)[0].points.len(), 2);
}

#[test]
fn each_return_of_the_broker_is_noticed() {
    let mut s = Session::new();
    assert_eq!(s.step(SessionEvent::Accepted), SessionAction::Nothing);
    assert!(s.online);
    assert_eq!(s.step(SessionEvent::Failed), SessionAction::Retry);
    assert!(!s.online);
    assert_eq!(s.step(SessionEvent::Accepted), SessionAction::Restore);
    assert_eq!(s.step(SessionEvent::Message), SessionAction::Forward);
    assert_eq!(s.step(SessionEvent::Ended), SessionAction::Stop);
    assert_eq!(s.step(SessionEvent::Gone), SessionAction::Stop);
    assert_eq!(s.step(SessionEvent::Other), SessionAction::Nothing);
}

#[test]
fn a_broker_is_waited_for() {
    let mqtt = MqttSection::default();
    assert_eq!(after_wait(Waited::Stop, &mqtt), Ok(Some(RunExit::Stopped)));
    assert_eq!(after_wait(Waited::Reload, &mqtt), Ok(Some(RunExit::Restart)));
    assert_eq!(after_wait(Waited::Connected, &mqtt), Ok(None));
    assert_eq!(
        after_wait(Waited::TimedOut, &mqtt),
        Err("cannot connect to the MQTT broker 127.0.0.1:1883 within 10s".into())
    );
    assert_eq!(health("down", 0).get_str("status"), Some("down"));
    assert!(client_id("plant", "modbus").contains("plant"));
}

#[test]
fn capabilities_are_told_with_what_the_runtime_adds() {
    let rt = Runtime::new(config(vec![]), caps(false));
    let told = capability_payload(&rt.caps, &vec![]).print();
    for part in ["write-batch", "set-config", "define-device", "remove-device", "1.2.3"] {
        assert!(told.contains(part), "{told}");
    }
}

#[test]
fn access_and_ranges_follow_the_configuration() {
    assert!(Access::parse(Some("read_write")).can_write());
    assert!(Access::parse(Some("write")).can_write());
    assert!(!Access::parse(Some("no such")).can_write());
    let n = JsonNumber::signed;
    let up_to_ten = Range { min: None, max: Some(n(10)) };
    let to_ten = Range { min: Some(n(0)), max: Some(n(10)) };
    assert_eq!(
        up_to_ten.reject("p", &n(11), false, true),
        Some("value 11 outside range (-\u{221e}, 10] of p".to_string())
    );
    assert_eq!(
        to_ten.reject("p", &n(-1), true, false),
        Some("value -1 outside range [0, 10] of p".to_string())
    );
    assert_eq!(up_to_ten.reject("p", &n(9), false, false), None);
    assert_eq!(up_to_ten.reject("p", &n(9), true, false), None, "there is no lower bound");
    let policy = PublishPolicy {
        on_change: None,
        deadband: None,
        min_interval: None,
        debounce: Some("5s".into()),
    };
    assert!(policy.on_change(false));
    assert!(!policy.is_noop(false));
}
