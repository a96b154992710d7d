//! The OPC UA module: its points, its sessions, its readings, its subscriptions and its writes.
use std::time::Duration;
use tedge_dot::config::PointConfig;
use tedge_dot::connector::{
    Access, CommandRequest, ConnectorError, Endianness, LinkStatus, WordOrder,
};
use tedge_dot::json::{Json, JsonNumber};
use tedge_dot::model::{DataType, Mode, Quality, Value};
use tedge_dot::schedule::PointRef;
use tedge_dot::ua_client::{
    addr_echo, bad_sample, build_sample, capabilities, finish_read, inspect, plan_read, same_node,
    DataValue, DeviceModel, NodeAddress, NodeId, NodeIdentifier, OpcuaPoint, ReadOutcome,
};
use tedge_dot::ua_session::{
    activation_failure, check_subscription, connect_report, finish_write, items_of_node,
    parse_security_mode, plan_connect, plan_subscribe, plan_with_policy, plan_write,
    rejected_items, unknown_device, Activation, Identity, LiveSubscription, OpcuaConnection,
    OpcuaEndpoint, SecurityMode, SessionEvent, SessionHealth, WriteOutcome,
};
use tedge_dot::ua_values::{is_good, Reading, Variant};

const BAD_TIMEOUT: u32 = 0x800A_0000;

fn json(text: &str) -> Json {
    Json::parse(text.as_bytes()).expect("JSON")
}

fn configured(id: &str, datatype: Option<DataType>, access: Option<&str>) -> PointConfig {
    PointConfig {
        id: id.into(),
        mode: None,
        datatype,
        endianness: None,
        word_order: None,
        poll_interval: None,
        address: json("{}"),
        access: access.map(str::to_string),
        unit: Some("K".into()),
        name: None,
        description: None,
        transform: None,
        range: None,
        publish: None,
        measurement: None,
        parameter: None,
        meta: None,
        subscribe: None,
    }
}

fn address(node: &str) -> NodeAddress {
    NodeAddress { node_id: Some(node.into()), namespace: None, identifier: None }
}

fn model() -> DeviceModel {
    let points = vec![
        configured("temp", Some(DataType::Uint16), Some("read_write")),
        configured("level", Some(DataType::Float32), None),
    ];
    let addresses = vec![address("ns=2;s=Temp"), address("ns=2;i=7")];
    DeviceModel::configure(&points, None, &addresses).unwrap()
}

fn wanted(id: &str, interval: Option<Duration>) -> PointRef {
    PointRef {
        id: id.into(),
        mode: Mode::Typed,
        datatype: None,
        endianness: Endianness::parse(None),
        word_order: WordOrder::parse(None),
        access: Access::Read,
        unit: None,
        transform: None,
        interval,
    }
}

fn value(reading: Option<Reading>, status: Option<u32>) -> DataValue {
    DataValue { value: reading, status, source_timestamp: None, server_timestamp: None }
}

#[test]
fn points_are_configured_with_their_nodes() {
    let m = model();
    let temp = m.point("temp").unwrap();
    assert_eq!(temp.node_id.namespace, 2);
    assert_eq!(temp.access, Access::ReadWrite);
    assert!(m.point("none").is_none());
    assert_eq!(addr_echo(temp).print(), r#"{"node_id":"ns=2;s=Temp"}"#);
    assert_eq!(addr_echo(m.point("level").unwrap()).print(), r#"{"node_id":"ns=2;i=7"}"#);
}

#[test]
fn a_wrong_point_is_named() {
    let wrong = |datatype: Option<DataType>, node: &str| {
        DeviceModel::configure(
            &vec![configured("p", datatype, None)],
            None,
            &vec![address(node)],
        )
        .unwrap_err()
    };
    assert_eq!(wrong(None, "ns=2;s=A"), "point 'p' is typed but has no datatype");
    assert!(wrong(Some(DataType::Bool), "nonsense").starts_with("point 'p' address: "));
}

#[test]
fn nodes_are_told_apart() {
    let node = |namespace: u16, n: u32| NodeId {
        namespace,
        identifier: NodeIdentifier::Numeric(n),
    };
    assert!(same_node(&node(1, 2), &node(1, 2)));
    assert!(!same_node(&node(1, 2), &node(1, 3)));
    assert!(!same_node(&node(1, 2), &node(2, 2)));
    let text = NodeId { namespace: 1, identifier: NodeIdentifier::Text("2".into()) };
    assert!(!same_node(&node(1, 2), &text));
}

#[test]
fn nodes_of_every_kind_are_read_and_written() {
    for text in [
        "ns=1;i=42",
        "ns=3;s=A name",
        "ns=1;g=72962b91-fa75-4ae6-8d28-b404dc7daf63",
        "ns=1;b=M/RbKBsRVkePCePcx24oRA==",
        "i=85",
    ] {
        let m = DeviceModel::configure(
            &vec![configured("p", Some(DataType::Bool), None)],
            None,
            &vec![address(text)],
        )
        .unwrap();
        let echoed = addr_echo(m.point("p").unwrap());
        assert_eq!(echoed.get_str("node_id"), Some(text));
    }
}

#[test]
fn the_module_says_what_it_can_do() {
    let caps = capabilities("9.9");
    assert_eq!(caps.protocol, "opcua");
    assert_eq!(caps.version, "9.9");
    assert!(caps.subscribe);
    assert!(caps.command_verbs.iter().any(|v| v == "write"));
}

#[test]
fn what_a_server_returns_is_a_value_or_why_not() {
    let good = inspect(&value(Some(Reading::UInt16(5)), None)).unwrap();
    assert_eq!(good.raw, [0, 5]);
    assert_eq!(inspect(&value(None, None)).unwrap_err(), "no value returned");
    assert_eq!(
        inspect(&value(Some(Reading::Other), Some(0))).unwrap_err(),
        "unsupported OPC-UA value type"
    );
    assert_eq!(
        inspect(&value(Some(Reading::UInt16(5)), Some(BAD_TIMEOUT))).unwrap_err(),
        "bad status: BadTimeout"
    );
    assert!(is_good(0));
    assert!(!is_good(BAD_TIMEOUT));
    assert!(!is_good(0x4000_0000));
}

fn found(m: &DeviceModel) -> &OpcuaPoint {
    m.point("temp").unwrap()
}

#[test]
fn a_sample_is_of_what_was_returned() {
    let m = model();
    let ok = value(Some(Reading::UInt16(300)), Some(0));
    let s = build_sample("temp", found(&m), &ok, None, 42);
    assert_eq!(s.quality, Quality::Good);
    assert_eq!(s.ts, 42);
    assert_eq!(s.raw, [1, 44]);
    assert_eq!(s.unit.as_deref(), Some("K"));
    assert_eq!(s.value.as_ref().map(|v| v.to_json().print()), Some("300.0".to_string()));
    let scaled = build_sample(
        "temp",
        found(&m),
        &ok,
        Some(Value::Number(JsonNumber::unsigned(3))),
        42,
    );
    assert_eq!(scaled.value.as_ref().map(|v| v.to_json().print()), Some("3".to_string()));
    let bad = build_sample("temp", found(&m), &value(None, Some(BAD_TIMEOUT)), None, 42);
    assert_eq!(bad.quality, Quality::Bad);
    assert_eq!(bad.error.as_deref(), Some("bad status: BadTimeout"));
    let unknown = bad_sample("x", None, "why", 1);
    assert_eq!(unknown.error.as_deref(), Some("why"));
    assert_eq!(unknown.addr, Json::null());
}

#[test]
fn every_point_that_is_asked_for_is_answered() {
    let m = model();
    let points = vec![wanted("temp", None), wanted("gone", None), wanted("level", None)];
    let plan = plan_read(Some(&m), true, &points, 0);
    assert_eq!(plan.known.len(), 2);
    assert_eq!(plan.samples.len(), 1);
    let values = vec![
        (value(Some(Reading::UInt16(1)), None), None),
        (value(Some(Reading::Boolean(true)), None), None),
    ];
    let samples = finish_read(plan, ReadOutcome::Values(values), 0);
    assert_eq!(samples.len(), 3);
    assert_eq!(samples.iter().filter(|s| s.quality == Quality::Bad).count(), 1);

    let plan = plan_read(Some(&m), true, &points, 0);
    let samples = finish_read(plan, ReadOutcome::TimedOut(5), 0);
    assert_eq!(samples.len(), 3);
    assert!(samples.iter().all(|s| s.quality == Quality::Bad));
    let plan = plan_read(Some(&m), true, &points, 0);
    let samples = finish_read(plan, ReadOutcome::Failed(BAD_TIMEOUT), 0);
    assert!(samples.iter().any(|s| s.error.as_deref().unwrap_or("").contains("BadTimeout")));
    let plan = plan_read(Some(&m), false, &points, 0);
    assert!(plan.known.is_empty());
    assert_eq!(plan.samples.len(), 3);
}

fn connection() -> OpcuaConnection {
    OpcuaConnection {
        application_name: "tedge".into(),
        application_uri: "urn:tedge".into(),
        security_policy: None,
        security_mode: None,
        connect_timeout_s: 0,
        request_timeout_s: 5,
    }
}

fn endpoint(policy: Option<&str>, mode: Option<&str>, user: Option<&str>) -> OpcuaEndpoint {
    OpcuaEndpoint {
        endpoint: "opc.tcp://127.0.0.1:4840/".into(),
        security_policy: policy.map(str::to_string),
        security_mode: mode.map(str::to_string),
        user: user.map(str::to_string),
        password: None,
    }
}

#[test]
fn a_plain_server_is_dialled_directly() {
    let plan = plan_connect(&connection(), &endpoint(None, None, None)).unwrap();
    assert_eq!(plan.policy, "None");
    assert!(plan.direct);
    assert_eq!(plan.identity, Identity::Anonymous);
    assert_eq!(plan.timeout, Duration::from_secs(1));
}

#[test]
fn a_secured_server_is_asked_first() {
    let e = endpoint(Some("Basic256Sha256"), Some("SignAndEncrypt"), Some("op"));
    let plan = plan_connect(&connection(), &e).unwrap();
    assert_eq!(plan.policy, "Basic256Sha256");
    assert_eq!(plan.mode, SecurityMode::SignAndEncrypt);
    assert!(!plan.direct);
    assert_eq!(plan.identity, Identity::User { name: "op".into(), password: String::new() });
}

#[test]
fn a_policy_that_is_none_is_refused() {
    let refused = plan_connect(&connection(), &endpoint(Some("Rot13"), None, None));
    assert_eq!(refused.unwrap_err(), "unknown security_policy 'Rot13'");
    let refused = plan_with_policy(&connection(), &endpoint(None, None, None), None);
    assert_eq!(refused.unwrap_err(), "unknown security_policy 'None'");
    assert_eq!(parse_security_mode(Some("Sign")), SecurityMode::Sign);
    assert_eq!(parse_security_mode(None), SecurityMode::Unsecured);
}

#[test]
fn a_session_that_does_not_come_up_says_why() {
    assert_eq!(activation_failure(Activation::Active, Duration::from_secs(1)), None);
    assert!(activation_failure(Activation::Refused, Duration::from_secs(1)).is_some());
    let late = activation_failure(Activation::TimedOut, Duration::from_secs(7)).unwrap();
    assert!(late.contains('7'), "{late}");
    assert_eq!(connect_report("d", None).status, LinkStatus::Connected);
    let failed = connect_report("d", Some("x".into()));
    assert_eq!(failed.status, LinkStatus::Disconnected);
    assert_eq!(failed.reason.as_deref(), Some("x"));
    assert_eq!(unknown_device("d"), ConnectorError::Other("unknown device 'd'".into()));
}

#[test]
fn a_lost_session_keeps_its_reason() {
    let mut h = SessionHealth::new(0);
    h.activated();
    assert!(h.connected);
    assert!(!h.note(SessionEvent::ConnectionLost(BAD_TIMEOUT), 1));
    assert_eq!(h.reason.as_deref(), Some("connection lost: BadTimeout"));
    h.activated();
    assert!(!h.connected);
    assert!(h.note(SessionEvent::Closed, 2));
    assert_eq!(h.reason.as_deref(), Some("connection lost: BadTimeout"));
    assert!(!h.note(SessionEvent::Reconnected, 3));
    assert!(h.connected && h.reason.is_none());
    assert_eq!(h.last_publish, 3);
    assert!(h.note(SessionEvent::GaveUp(BAD_TIMEOUT), 4));
    assert_eq!(h.reason.as_deref(), Some("session gave up reconnecting: BadTimeout"));
}

#[test]
fn subscriptions_take_all_points_or_none() {
    let m = model();
    let fast = Some(Duration::from_millis(200));
    let points = vec![wanted("temp", None), wanted("level", fast), wanted("temp", fast)];
    let plan = plan_subscribe("d", Some(&m), true, &points).unwrap().unwrap();
    assert_eq!(plan.publishing_interval, Duration::from_millis(200));
    assert_eq!(plan.items[0].interval, Duration::from_millis(500));
    let node = &m.point("temp").unwrap().node_id;
    assert_eq!(items_of_node(&plan.items, node), [0, 2]);

    assert!(rejected_items(&plan.items, &vec![0, 0, 0]).is_none());
    assert_eq!(
        rejected_items(&plan.items, &vec![0, BAD_TIMEOUT, 0]),
        Some(ConnectorError::Transport("monitored items rejected: level: BadTimeout".into()))
    );
    assert!(plan_subscribe("d", Some(&m), true, &vec![]).unwrap().is_none());
    assert!(matches!(
        plan_subscribe("d", Some(&m), true, &vec![wanted("gone", None)]),
        Err(ConnectorError::UnknownPoint { .. })
    ));
    assert!(matches!(
        plan_subscribe("d", Some(&m), false, &points),
        Err(ConnectorError::NotConnected(_))
    ));
}

#[test]
fn a_subscription_that_no_longer_delivers_is_found() {
    let second = 1_000_000_000u128;
    let mut h = SessionHealth::new(0);
    h.activated();
    let live = |items: usize| {
        Some(LiveSubscription {
            items,
            publishing_interval: Duration::from_secs(1),
            keep_alive_count: 10,
        })
    };
    let why = |h: &SessionHealth, expected, live, now| {
        match check_subscription("d", Some(h), expected, live, 5, now) {
            Ok(()) => String::new(),
            Err(ConnectorError::Transport(t)) => t,
            Err(other) => panic!("{other:?}"),
        }
    };
    assert_eq!(why(&h, Some(2), live(2), 15 * second), "");
    assert!(why(&h, Some(2), live(2), 16 * second).starts_with("no publish response for 16s"));
    assert_eq!(why(&h, None, live(2), 0), "no subscription armed");
    assert_eq!(why(&h, Some(2), None, 0), "subscription lost with the session");
    assert_eq!(
        why(&h, Some(2), live(1), 0),
        "subscription lost monitored items (1 of 2 left)"
    );
    h.armed(10 * second);
    assert_eq!(why(&h, Some(2), live(2), 16 * second), "");
    h.note(SessionEvent::ReconnectFailed(BAD_TIMEOUT), 0);
    assert_eq!(why(&h, Some(2), live(2), 0), "reconnect failed: BadTimeout");
    assert!(matches!(
        check_subscription("d", None, None, None, 5, 0),
        Err(ConnectorError::NotConnected(_))
    ));
}

fn write(point: &str, value: Option<&str>) -> CommandRequest {
    CommandRequest {
        point: point.into(),
        value: value.map(json),
        value_repr: None,
        raw: None,
    }
}

#[test]
fn writes_are_checked_before_they_are_made() {
    let m = model();
    let plan = plan_write("d", Some(&m), true, "write", &write("temp", Some("7"))).unwrap();
    assert_eq!(plan.value, Variant::UInt16(7));
    assert_eq!(plan.node, NodeId { namespace: 2, identifier: NodeIdentifier::Text("Temp".into()) });
    let refused = |verb: &str, request: &CommandRequest, connected: bool| {
        plan_write("d", Some(&m), connected, verb, request).err().unwrap()
    };
    assert!(matches!(
        refused("reset", &write("temp", Some("7")), true),
        ConnectorError::Unsupported(_)
    ));
    assert!(matches!(
        refused("write", &write("gone", Some("7")), true),
        ConnectorError::UnknownPoint { .. }
    ));
    assert!(matches!(
        refused("write", &write("level", Some("7")), true),
        ConnectorError::AccessDenied(_)
    ));
    assert_eq!(
        refused("write", &write("temp", None), true),
        ConnectorError::Decode("write requires a value".into())
    );
    assert!(matches!(
        refused("write", &write("temp", Some("true")), true),
        ConnectorError::Decode(_)
    ));
    assert!(matches!(
        refused("write", &write("temp", Some("7")), false),
        ConnectorError::NotConnected(_)
    ));
}

#[test]
fn writes_end_as_the_server_says() {
    let request = write("temp", Some("7"));
    let done = finish_write(&request, WriteOutcome::Answered(vec![0])).unwrap();
    assert_eq!(done.value, Some(json("7")));
    assert_eq!(
        finish_write(&request, WriteOutcome::Answered(vec![BAD_TIMEOUT])),
        Err(ConnectorError::Transport("write rejected: BadTimeout".into()))
    );
    assert_eq!(
        finish_write(&request, WriteOutcome::Failed(BAD_TIMEOUT)),
        Err(ConnectorError::Transport("write failed: BadTimeout".into()))
    );
    assert_eq!(
        finish_write(&request, WriteOutcome::TimedOut(5)),
        Err(ConnectorError::Transport("write timed out after 5s (transport down?)".into()))
    );
}
