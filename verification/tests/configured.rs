//! What follows from a configuration: parameters, manifests, schedules, routes and changes.
use std::time::Duration;
use tedge_dot::batch::{batch_result, parse_batch_writes};
use tedge_dot::cli::{
    combined_config_args, parse_cli_duration, pick_log_level, Output, RunArgs, DEFAULT_CONFIG_DIR,
};
use tedge_dot::clock::parse_duration;
use tedge_dot::commands::{capability_topic, device_command_types, type_of_verb, verb_of_type};
use tedge_dot::config::{
    default_log_level, default_operation_timeout, default_poll_interval, default_stall_timeout,
    ConnectorConfig, ConnectorSection, DeviceConfig, MqttSection, PointConfig, PublishPolicy,
    Range, Transform,
};
use tedge_dot::connector::{Access, LinkReport, LinkStatus};
use tedge_dot::descriptor::{
    devices_without_type, invalid_keys, invalid_keys_across, is_valid_key, parameters,
    parameters_of, set_name, type_warnings, type_warnings_across, untyped_devices_across,
    SetNaming, DEFAULT_GROUP,
};
use tedge_dot::document::apply_management;
use tedge_dot::dtm::{
    c8y_dtm_definitions, c8y_dtm_definitions_across, definitions, title_from_key, DeviceManifest,
};
use tedge_dot::json::{Json, JsonNumber};
use tedge_dot::keyed::TextMap;
use tedge_dot::links::{device_type_of, link_payload};
use tedge_dot::management::{
    after_reload, keeps_document, needs_restart, plan_reload, reload_outcome, Limits, ReloadStep,
    Reloaded, RunExit,
};
use tedge_dot::manifest::{device_manifest, topic};
use tedge_dot::model::{DataType, Mode, Quality, Sample};
use tedge_dot::routing::{route_command, CommandRoute};
use tedge_dot::loading::{candidate, first_device, first_document, loaded_document};
use tedge_dot::samples::{build_meta_index, envelope_with_meta, MetaIndex, PointExtras};
use tedge_dot::schedule::{build_schedule, note_subscription, push_points, take_due, Subscribed};
use tedge_dot::selection::{effective_interval, resolve_targets};
use toml_edit::DocumentMut;

fn json(text: &str) -> Json {
    Json::parse(text.as_bytes()).expect("JSON")
}

/// What stands under keys, one below the other; an index is a key of an array.
fn at<'a>(value: &'a Json, path: &[&str]) -> Option<&'a Json> {
    let mut here = value;
    for key in path {
        here = match here.as_array() {
            Some(items) => items.get(key.parse::<usize>().ok()?)?,
            None => here.get(key)?,
        };
    }
    Some(here)
}

/// The text of what stands under keys.
fn shown(value: &Json, path: &[&str]) -> String {
    at(value, path).map(|v| v.print()).unwrap_or_default()
}

fn text(v: &serde_json::Value, key: &str) -> Option<String> {
    v.get(key).and_then(|x| x.as_str()).map(str::to_string)
}

fn carried(v: &serde_json::Value, key: &str) -> Option<Json> {
    v.get(key).map(|x| Json::from_value(x.clone()))
}

fn number(v: &serde_json::Value, key: &str) -> Option<JsonNumber> {
    v.get(key).and_then(|x| x.as_number()).map(|n| JsonNumber::of(n.clone()))
}

fn mode(v: &serde_json::Value, key: &str) -> Option<Mode> {
    match v.get(key)?.as_str()? {
        "raw" => Some(Mode::Raw),
        "typed" => Some(Mode::Typed),
        other => panic!("mode {other}"),
    }
}

fn datatype(v: &serde_json::Value) -> Option<DataType> {
    let name = v.get("datatype")?.as_str()?;
    [
        DataType::Bool,
        DataType::Int8,
        DataType::Uint8,
        DataType::Int16,
        DataType::Uint16,
        DataType::Int32,
        DataType::Uint32,
        DataType::Int64,
        DataType::Uint64,
        DataType::Float32,
        DataType::Float64,
        DataType::String,
        DataType::Bytes,
    ]
    .into_iter()
    .find(|d| d.as_str() == name)
}

fn point(v: &serde_json::Value) -> PointConfig {
    PointConfig {
        id: text(v, "id").expect("id"),
        mode: mode(v, "mode"),
        datatype: datatype(v),
        endianness: text(v, "endianness"),
        word_order: text(v, "word_order"),
        poll_interval: text(v, "poll_interval"),
        address: carried(v, "address").expect("address"),
        access: text(v, "access"),
        unit: text(v, "unit"),
        name: text(v, "name"),
        description: text(v, "description"),
        transform: v.get("transform").map(|t| {
            let default = Transform::default();
            Transform {
                multiplier: number(t, "multiplier").unwrap_or(default.multiplier),
                divisor: number(t, "divisor").unwrap_or(default.divisor),
                decimal_shift: t.get("decimal_shift").and_then(|x| x.as_i64()).unwrap_or(0) as i32,
                offset: number(t, "offset").unwrap_or(default.offset),
            }
        }),
        range: v.get("range").map(|r| Range { min: number(r, "min"), max: number(r, "max") }),
        publish: v.get("publish").map(|p| PublishPolicy {
            on_change: p.get("on_change").and_then(|x| x.as_bool()),
            deadband: number(p, "deadband"),
            min_interval: text(p, "min_interval"),
            debounce: text(p, "debounce"),
        }),
        measurement: carried(v, "measurement"),
        parameter: carried(v, "parameter"),
        meta: carried(v, "meta"),
        subscribe: v.get("subscribe").and_then(|x| x.as_bool()),
    }
}

fn items<'a>(v: &'a serde_json::Value, key: &str) -> Vec<&'a serde_json::Value> {
    v.get(key).and_then(|x| x.as_array()).map(|a| a.iter().collect()).unwrap_or_default()
}

fn device(v: &serde_json::Value) -> DeviceConfig {
    DeviceConfig {
        name: text(v, "name").expect("name"),
        protocol_address: carried(v, "protocol_address").expect("protocol_address"),
        device_type: text(v, "type"),
        default_mode: mode(v, "default_mode"),
        poll_interval: text(v, "poll_interval"),
        points_from: items(v, "points_from")
            .into_iter()
            .filter_map(|x| x.as_str().map(str::to_string))
            .collect(),
        points: items(v, "point").into_iter().map(point).collect(),
    }
}

/// The configuration that a TOML text is.
fn config(source: &str) -> ConnectorConfig {
    let v: serde_json::Value = toml::from_str(source).expect("TOML");
    let c = &v["connector"];
    let mut command_aliases = TextMap::new();
    if let Some(aliases) = c.get("command_aliases").and_then(|a| a.as_object()) {
        for (k, x) in aliases {
            command_aliases.insert(k, x.as_str().expect("alias").to_string());
        }
    }
    let mut mqtt = MqttSection::default();
    if let Some(m) = v.get("mqtt") {
        mqtt.host = text(m, "host").unwrap_or(mqtt.host);
        mqtt.port = m.get("port").and_then(|p| p.as_u64()).map(|p| p as u16).unwrap_or(mqtt.port);
    }
    ConnectorConfig {
        connector: ConnectorSection {
            protocol: text(c, "protocol").expect("protocol"),
            configured_service_name: text(c, "service_name"),
            poll_interval: text(c, "poll_interval").unwrap_or_else(default_poll_interval),
            log_level: text(c, "log_level").unwrap_or_else(default_log_level),
            operation_timeout: text(c, "operation_timeout")
                .unwrap_or_else(default_operation_timeout),
            stall_timeout: text(c, "stall_timeout").unwrap_or_else(default_stall_timeout),
            sample_debug: c.get("sample_debug").and_then(|x| x.as_bool()).unwrap_or(false),
            command_aliases,
            configured_parameter_set: text(c, "parameter_set"),
            point_library_path: None,
        },
        mqtt,
        connection: carried(&v, "connection").unwrap_or_else(Json::null),
        devices: items(&v, "device").into_iter().map(device).collect(),
    }
}

fn texts(list: &[&str]) -> Vec<String> {
    list.iter().map(|s| s.to_string()).collect()
}

fn aliases() -> TextMap<String> {
    let mut map = TextMap::new();
    map.insert("ot_write_coil", "ot_write".to_string());
    map
}

#[test]
fn verbs_and_types_round_trip() {
    assert_eq!(type_of_verb("write"), Some("ot_write"));
    assert_eq!(type_of_verb("write-batch"), Some("ot_write_batch"));
    assert_eq!(type_of_verb("set-config"), Some("ot_set_config"));
    assert_eq!(type_of_verb("nope"), None);

    let none = TextMap::new();
    assert_eq!(verb_of_type("ot_write", &none), Some("write"));
    assert_eq!(verb_of_type("ot_remove_device", &none), Some("remove-device"));
    assert_eq!(verb_of_type("ot_write_coil", &none), None, "not an alias here");
    assert_eq!(verb_of_type("ot_write_coil", &aliases()), Some("write"));
}

#[test]
fn device_command_types_cover_the_write_verbs_and_their_aliases() {
    let verbs = texts(&["write", "write-batch", "set-config"]);
    assert_eq!(
        device_command_types(&verbs, &aliases()),
        ["ot_write", "ot_write_batch", "ot_write_coil"]
    );
    let read_only: Vec<String> = vec![];
    assert!(device_command_types(&read_only, &aliases()).is_empty());
}

#[test]
fn capability_marker_is_the_thin_edge_command_topic() {
    assert_eq!(capability_topic("plc1", "ot_write"), "te/device/plc1///cmd/ot_write");
}

#[test]
fn timeout_defaults_are_sane_and_overridable() {
    let cfg = config("\n[connector]\nprotocol = \"modbus\"\n");
    assert_eq!(parse_duration(&cfg.connector.operation_timeout), Some(Duration::from_secs(30)));
    assert_eq!(parse_duration(&cfg.connector.stall_timeout), Some(Duration::from_secs(120)));
    assert_eq!(cfg.stall_limit(), Duration::from_secs(120));

    let cfg = config(
        "\n[connector]\nprotocol = \"modbus\"\noperation_timeout = \"3s\"\nstall_timeout = \"0\"\n",
    );
    assert_eq!(parse_duration(&cfg.connector.operation_timeout), Some(Duration::from_secs(3)));
    assert_eq!(parse_duration(&cfg.connector.stall_timeout), Some(Duration::ZERO));
    assert_eq!(cfg.stall_limit(), Duration::ZERO);
}

#[test]
fn the_stall_limit_leaves_room_for_two_calls() {
    let cfg = config(
        "[connector]\nprotocol = \"x\"\noperation_timeout = \"90s\"\nstall_timeout = \"1s\"\n",
    );
    assert_eq!(cfg.stall_limit(), Duration::from_secs(180));
    assert_eq!(Limits::from_config(&cfg).operation, Duration::from_secs(90));
    let cfg = config("[connector]\nprotocol = \"x\"\noperation_timeout = \"soon\"\n");
    assert_eq!(Limits::from_config(&cfg).operation, Duration::from_secs(30));
}

#[test]
fn service_name_defaults_to_the_protocol_service() {
    let cfg = config("[connector]\nprotocol = \"opcua\"\n");
    assert_eq!(cfg.connector.service_name(), "tedge-dot-opcua");
    let cfg = config("[connector]\nprotocol = \"opcua\"\nservice_name = \"plant-a\"\n");
    assert_eq!(cfg.connector.service_name(), "plant-a");
}

#[test]
fn a_blank_parameter_set_is_none() {
    let of = |s: &str| {
        let cfg = config(&format!("[connector]\nprotocol = \"x\"\nparameter_set = \"{s}\"\n"));
        cfg.connector.parameter_set().map(str::to_string)
    };
    assert_eq!(of("  plant  "), Some("plant".to_string()));
    assert_eq!(of("   "), None);
    assert_eq!(of(" $PARAM_SET "), None);
    assert_eq!(of("${PARAM_SET}"), None);
    assert_eq!(of("$5"), Some("$5".to_string()));
    assert_eq!(config("[connector]\nprotocol = \"x\"\n").connector.parameter_set(), None);
}

const BOILER: &str = r#"
[connector]
protocol = "modbus"

[[device]]
name = "plc1"
type = "acme-boiler-v2"
protocol_address = { transport = "tcp", host = "127.0.0.1", port = 502, unit_id = 1 }

  [[device.point]]
  id = "temp_u16"
  datatype = "uint16"
  access = "read_write"
  unit = "°C"
  name = "Boiler temp"
  description = "Outlet temperature after the heat exchanger"
  address = { table = "holding", address = 3, count = 1 }
  parameter = { title = "Temperature setpoint", order = 7 }
  range     = { min = 0, max = 100 }

  [[device.point]]
  id = "coil_rw"
  datatype = "bool"
  access = "read_write"
  name = "Pump enable"
  address = { table = "coil", address = 48, count = 1 }

  [[device.point]]
  id = "pump_speed"
  datatype = "float32"
  access = "write"
  address = { table = "holding", address = 10, count = 2 }
  parameter = "pump"

  [[device.point]]
  id = "level_f32"
  datatype = "float32"
  description = "Level in the buffer tank"
  address = { table = "holding", address = 6, count = 2 }

  [[device.point]]
  id = "status_word"
  datatype = "uint16"
  address = { table = "holding", address = 20, count = 1 }
  parameter = true

  [[device.point]]
  id = "hidden_rw"
  datatype = "uint16"
  access = "read_write"
  address = { table = "holding", address = 21, count = 1 }
  parameter = false

  [[device.point]]
  id = "commission_code"
  datatype = "uint16"
  access = "read_write"
  address = { table = "holding", address = 22, count = 1 }
  parameter = { group = "commissioning" }

  [[device.point]]
  id = "flow_limit"
  datatype = "uint16"
  access = "read_write"
  address = { table = "holding", address = 23, count = 1 }
  parameter = { group = ["control", "commissioning"] }

[[device]]
name = "plc2"
protocol_address = { transport = "tcp", host = "127.0.0.1", port = 503, unit_id = 1 }

  [[device.point]]
  id = "spare_rw"
  datatype = "uint16"
  access = "read_write"
  address = { table = "holding", address = 30, count = 1 }
"#;

fn named(config: &ConnectorConfig, forced: Option<&str>) -> Vec<(String, String)> {
    parameters(config, forced).into_iter().map(|p| (p.point, p.set)).collect()
}

fn pairs(list: &[(&str, &str)]) -> Vec<(String, String)> {
    list.iter().map(|(a, b)| (a.to_string(), b.to_string())).collect()
}

#[test]
fn parameters_select_writable_and_opted_in_points() {
    let cfg = config(BOILER);
    assert_eq!(
        named(&cfg, None),
        pairs(&[
            ("temp_u16", "acme_boiler_v2_control_parameters"),
            ("coil_rw", "acme_boiler_v2_control_parameters"),
            ("pump_speed", "pump"),
            ("status_word", "acme_boiler_v2_control_parameters"),
            ("commission_code", "acme_boiler_v2_commissioning_parameters"),
            ("flow_limit", "acme_boiler_v2_control_parameters"),
            ("flow_limit", "acme_boiler_v2_commissioning_parameters"),
            ("spare_rw", "modbus_control_parameters"),
        ])
    );
    assert_eq!(parameters(&cfg, None)[3].access, Access::Read);
    assert_eq!(devices_without_type(&cfg), vec!["plc2".to_string()]);
}

#[test]
fn forced_set_overrides_the_derived_name() {
    assert_eq!(
        named(&config(BOILER), Some("legacy_params")),
        pairs(&[
            ("temp_u16", "legacy_params"),
            ("coil_rw", "legacy_params"),
            ("pump_speed", "pump"),
            ("status_word", "legacy_params"),
            ("commission_code", "legacy_params"),
            ("flow_limit", "legacy_params"),
            ("spare_rw", "legacy_params"),
        ])
    );
}

#[test]
fn a_point_can_belong_to_several_sets() {
    let naming = SetNaming::of(&config(BOILER).devices[0], "modbus", None);
    let sets = |extra: &str| {
        let source = format!(
            "id = \"p\"\ndatatype = \"uint16\"\naccess = \"read_write\"\n\
             address = {{ table = \"holding\", address = 1, count = 1 }}\n{extra}"
        );
        let v: serde_json::Value = toml::from_str(&source).unwrap();
        parameters_of(&point(&v), &naming).into_iter().map(|p| p.set).collect::<Vec<_>>()
    };
    assert_eq!(
        sets("parameter = { group = [\"control\", \"commissioning\"] }"),
        ["acme_boiler_v2_control_parameters", "acme_boiler_v2_commissioning_parameters"]
    );
    assert_eq!(
        sets("parameter = { set = [\"plant_a\", \"plant_b\"] }"),
        ["plant_a", "plant_b"]
    );
    assert_eq!(sets("parameter = { set = \"pump\", group = [\"a\", \"b\"] }"), ["pump"]);
    assert_eq!(
        sets("parameter = { group = [\"a b\", \"a-b\"] }"),
        ["acme_boiler_v2_a_b_parameters"]
    );
    for options in [
        "parameter = { group = [] }",
        "parameter = { group = [1, true] }",
        "parameter = { set = [] }",
    ] {
        assert_eq!(sets(options), ["acme_boiler_v2_control_parameters"], "{options}");
    }
    assert!(sets("parameter = false").is_empty());
}

#[test]
fn device_type_problems_are_warned_about() {
    let mut c = config(BOILER);
    assert!(type_warnings(&c).is_empty());
    c.devices[1].device_type = Some("acme boiler v2".into());
    let warnings = type_warnings(&c);
    assert_eq!(warnings.len(), 1);
    assert!(warnings[0].contains("'acme-boiler-v2', 'acme boiler v2'"), "{}", warnings[0]);
    assert!(warnings[0].contains("acme_boiler_v2_control_parameters"), "{}", warnings[0]);
    c.devices[1].device_type = Some("acme-boiler-v2".into());
    assert!(type_warnings(&c).is_empty());
    c.devices[1].device_type = Some("acme-boiler-v2-".into());
    assert_eq!(type_warnings(&c).len(), 1);
    c.devices[0].device_type = Some("Acme, Inc. Meter".into());
    c.devices[1].device_type = None;
    assert!(type_warnings(&c).is_empty());

    c.devices[0].device_type = Some("日本語".into());
    let warnings = type_warnings(&c);
    assert_eq!(warnings.len(), 1, "{warnings:?}");
    assert!(warnings[0].contains("no [A-Za-z0-9] character"), "{}", warnings[0]);

    let mut none = config(BOILER);
    none.devices[1].device_type = Some("acme boiler v2".into());
    for point in &mut none.devices[1].points {
        point.access = Some("read".into());
        point.meta = None;
    }
    assert!(type_warnings(&none).is_empty());
}

#[test]
fn key_validation_and_set_names() {
    assert!(is_valid_key("ok_id_1"));
    assert!(!is_valid_key("Environment.Temperature"));
    assert!(!is_valid_key(""));
    assert_eq!(set_name("opc-ua", DEFAULT_GROUP), "opc_ua_control_parameters");
    assert_eq!(set_name("ACME meter v2", "pump"), "ACME_meter_v2_pump_parameters");
    assert_eq!(set_name("acme -- v2", "control"), "acme_v2_control_parameters");
    assert_eq!(set_name("wärmezähler", "control"), "w_rmez_hler_control_parameters");
    let mut c = config(BOILER);
    c.devices[0].points[0].id = "Boiler.Temp".into();
    let bad = invalid_keys(&c, None);
    assert_eq!(bad, vec!["point id 'Boiler.Temp'"]);
    assert!(invalid_keys(&config(BOILER), Some("plant.floor"))
        .iter()
        .all(|b| b.contains("parameter set")));
}

#[test]
fn dtm_definitions_group_by_set_and_render_schema() {
    let defs = c8y_dtm_definitions(&config(BOILER), None);
    assert_eq!(defs.len(), 4);
    let properties = ["jsonSchema", "properties"];
    let property = |d: &Json, key: &str| {
        at(d, &properties).and_then(|p| p.get(key)).map(|p| p.print())
    };
    assert!(property(&defs[0], "flow_limit").is_some());
    assert!(property(&defs[2], "flow_limit").is_some());
    let main = &defs[0];
    assert_eq!(shown(main, &["identifier"]), "\"acme_boiler_v2_control_parameters\"");
    assert_eq!(shown(main, &["contexts"]), "[\"asset\",\"event\",\"operation\"]");
    let props = at(main, &properties).unwrap();
    assert_eq!(shown(props, &["temp_u16", "type"]), "\"integer\"");
    assert_eq!(shown(props, &["temp_u16", "title"]), "\"Temperature setpoint\"");
    assert_eq!(shown(props, &["temp_u16", "minimum"]), "0.0");
    assert_eq!(shown(props, &["temp_u16", "maximum"]), "100.0");
    assert_eq!(shown(props, &["temp_u16", "order"]), "7");
    assert_eq!(
        shown(props, &["temp_u16", "description"]),
        "\"Outlet temperature after the heat exchanger [°C]\""
    );
    assert_eq!(shown(props, &["coil_rw", "title"]), "\"Pump enable\"");
    assert_eq!(shown(props, &["coil_rw", "type"]), "\"boolean\"");
    assert_eq!(shown(props, &["coil_rw", "order"]), "2");
    assert_eq!(shown(props, &["status_word", "readOnly"]), "true");
    assert_eq!(shown(props, &["status_word", "maximum"]), "65535.0");
    assert!(props.get("hidden_rw").is_none());
    assert!(props.get("level_f32").is_none());

    let pump = &defs[1];
    assert_eq!(shown(pump, &["identifier"]), "\"pump\"");
    assert_eq!(shown(pump, &["jsonSchema", "title"]), "\"Pump\"");
    let speed = at(pump, &["jsonSchema", "properties", "pump_speed"]).unwrap();
    assert_eq!(shown(speed, &["type"]), "\"number\"");
    assert!(speed.get_str("description").unwrap().contains("write-only"));

    assert_eq!(shown(&defs[2], &["identifier"]), "\"acme_boiler_v2_commissioning_parameters\"");
    assert_eq!(shown(&defs[3], &["identifier"]), "\"modbus_control_parameters\"");
    assert!(property(&defs[3], "spare_rw").is_some());
}

#[test]
fn dtm_default_set_override() {
    let defs = c8y_dtm_definitions(&config(BOILER), Some("plant_settings"));
    assert_eq!(defs[0].get_str("identifier"), Some("plant_settings"));
}

#[test]
fn definitions_and_warnings_span_every_config() {
    let modbus_source = r#"
[connector]
protocol = "modbus"

[[device]]
name = "plc1"
type = "acme-boiler-v2"
protocol_address = { transport = "tcp", host = "127.0.0.1", port = 502, unit_id = 1 }
  [[device.point]]
  id = "temp_u16"
  datatype = "uint16"
  access = "read_write"
  name = "Boiler temp"
  address = { table = "holding", address = 3, count = 1 }

[[device]]
name = "plc2"
protocol_address = { transport = "tcp", host = "127.0.0.1", port = 503, unit_id = 1 }
  [[device.point]]
  id = "spare_rw"
  datatype = "uint16"
  access = "read_write"
  address = { table = "holding", address = 30, count = 1 }
"#;
    let opcua = config(
        r#"
[connector]
protocol = "opcua"

[[device]]
name = "boiler2"
type = "acme boiler v2"
protocol_address = { endpoint = "opc.tcp://127.0.0.1:4840/" }
  [[device.point]]
  id = "temp_u16"
  datatype = "uint16"
  access = "read_write"
  name = "Second title"
  address = { node_id = "ns=2;s=Temp" }
  [[device.point]]
  id = "Tank.Level"
  datatype = "float32"
  access = "read_write"
  address = { node_id = "ns=2;s=Level" }

[[device]]
name = "opc1"
protocol_address = { endpoint = "opc.tcp://127.0.0.1:4841/" }
  [[device.point]]
  id = "spare_rw"
  datatype = "uint16"
  access = "read_write"
  address = { node_id = "ns=2;s=Spare" }
"#,
    );
    let modbus = config(modbus_source);
    let both = [config(modbus_source), opcua];

    let defs = c8y_dtm_definitions_across(&both, None);
    let ids: Vec<&str> = defs.iter().map(|d| d.get_str("identifier").unwrap()).collect();
    assert_eq!(
        ids,
        [
            "acme_boiler_v2_control_parameters",
            "modbus_control_parameters",
            "opcua_control_parameters"
        ]
    );
    let shared = at(&defs[0], &["jsonSchema", "properties"]).unwrap();
    assert_eq!(
        shown(shared, &["temp_u16", "title"]),
        "\"Boiler temp\"",
        "the first definition of a key wins"
    );
    assert!(
        shared.get("Tank.Level").and_then(|v| v.as_object()).is_some(),
        "the second file's extra key is merged in"
    );
    assert_eq!(shown(&defs[0], &["tags", "1"]), "\"modbus\"");
    assert_eq!(shown(&defs[2], &["tags", "1"]), "\"opcua\"");

    assert!(type_warnings(&modbus).is_empty());
    let warnings = type_warnings_across(&both);
    assert_eq!(warnings.len(), 1, "{warnings:?}");
    assert!(warnings[0].contains("'acme-boiler-v2', 'acme boiler v2'"), "{}", warnings[0]);

    assert_eq!(untyped_devices_across(&both, "modbus"), ["plc2"]);
    assert_eq!(untyped_devices_across(&both, "opcua"), ["opc1"]);
    assert_eq!(invalid_keys_across(&both, None), ["point id 'Tank.Level'"]);
}

#[test]
fn transform_parsed_from_partial_toml() {
    let v: serde_json::Value =
        toml::from_str("id = \"p\"\naddress = {}\ntransform = { multiplier = 2.5 }").unwrap();
    let t = point(&v).transform.unwrap();
    let float = |x: f64| JsonNumber::of(serde_json::Number::from_f64(x).unwrap());
    assert_eq!(t.multiplier, float(2.5));
    assert_eq!(t.divisor, float(1.0));
    assert_eq!(t.decimal_shift, 0);
    assert_eq!(t.offset, float(0.0));
}

#[test]
fn titles_start_with_a_capital() {
    assert_eq!(title_from_key("pump_speed_limit"), "Pump speed limit");
    assert_eq!(title_from_key("__a__b_"), "A b");
    assert_eq!(title_from_key("ßtest"), "SStest");
    assert_eq!(title_from_key(""), "");
}

const METER: &str = r#"
[connector]
protocol = "modbus"

[[device]]
name = "plc1"
type = "acme-meter-v2"
protocol_address = { host = "127.0.0.1" }

  [[device.point]]
  id = "setpoint"
  datatype = "uint16"
  access = "read_write"
  name = "Temperature setpoint"
  description = "Target temperature"
  address = { table = "holding", address = 3, count = 1 }
  meta = { parameter = { group = ["control", "commissioning"], min = 0, max = 30000 } }

  [[device.point]]
  id = "temp"
  datatype = "float32"
  unit = "°C"
  address = { table = "holding", address = 7, count = 2 }
  meta = { on_change = true, deadband = 0.5 }

  [[device.point]]
  id = "hidden_rw"
  datatype = "bool"
  access = "read_write"
  address = { table = "coil", address = 0, count = 1 }
  meta = { parameter = false }

  [[device.point]]
  id = "raw_only"
  mode = "raw"
  address = { table = "holding", address = 9, count = 1 }
"#;

#[test]
fn topic_sits_below_the_protocol_prefix() {
    assert_eq!(topic("plc1", "modbus"), "te/device/plc1/ot/modbus/manifest");
}

#[test]
fn manifest_describes_the_device_and_resolves_the_parameter_sets() {
    let cfg = config(METER);
    let manifest = device_manifest(&cfg, &cfg.devices[0], None, &vec![]);
    assert_eq!(shown(&manifest, &["contract"]), "\"0.2\"");
    assert_eq!(shown(&manifest, &["protocol"]), "\"modbus\"");
    assert_eq!(shown(&manifest, &["service"]), "\"tedge-dot-modbus\"");
    assert_eq!(shown(&manifest, &["type"]), "\"acme-meter-v2\"");
    assert!(manifest.get("info").is_none());

    let points = manifest.get("points").unwrap();
    assert_eq!(points.as_object().unwrap().len(), 4, "every point, keyed by id");

    let setpoint = points.get("setpoint").unwrap();
    assert_eq!(shown(setpoint, &["datatype"]), "\"uint16\"");
    assert_eq!(shown(setpoint, &["access"]), "\"read_write\"");
    assert_eq!(shown(setpoint, &["name"]), "\"Temperature setpoint\"");
    assert_eq!(shown(setpoint, &["description"]), "\"Target temperature\"");
    assert_eq!(shown(setpoint, &["meta", "parameter", "min"]), "0", "meta is verbatim");
    // `meta` is the site's own and never read: what stands under `meta.parameter` names no set.
    assert_eq!(
        shown(setpoint, &["parameter", "sets"]),
        "[\"acme_meter_v2_control_parameters\"]"
    );

    let temp = points.get("temp").unwrap();
    assert_eq!(shown(temp, &["access"]), "\"read\"");
    assert_eq!(shown(temp, &["unit"]), "\"°C\"");
    assert_eq!(shown(temp, &["meta"]), "{\"deadband\":0.5,\"on_change\":true}");
    assert!(temp.get("parameter").is_none(), "a read-only point is no parameter");
    assert!(temp.get("name").is_none(), "only declared fields appear");

    // Nor does it opt a writable point out.
    assert!(points.get("hidden_rw").unwrap().get("parameter").is_some());
    assert!(points.get("raw_only").unwrap().get("datatype").is_none());
}

#[test]
fn a_parameter_is_declared_by_its_own_field() {
    let source = METER
        .replace(
            r#"meta = { parameter = { group = ["control", "commissioning"], min = 0, max = 30000 } }"#,
            r#"parameter = { group = ["control", "commissioning"] }"#,
        )
        .replace("meta = { parameter = false }", "parameter = false");
    let mut cfg = config(&source);
    let manifest = device_manifest(&cfg, &cfg.devices[0], None, &vec![]);
    assert_eq!(
        shown(&manifest, &["points", "setpoint", "parameter", "sets"]),
        "[\"acme_meter_v2_control_parameters\",\"acme_meter_v2_commissioning_parameters\"]"
    );
    let hidden = manifest.get("points").unwrap().get("hidden_rw").unwrap();
    assert!(hidden.get("parameter").is_none(), "`parameter = false` opts a writable point out");
    cfg.devices[0].device_type = None;
    let untyped = device_manifest(&cfg, &cfg.devices[0], None, &vec![]);
    assert_eq!(
        shown(&untyped, &["points", "setpoint", "parameter", "sets"]),
        "[\"modbus_control_parameters\",\"modbus_commissioning_parameters\"]"
    );
}

#[test]
fn manifest_carries_the_descriptor_once_known_and_falls_back_to_the_protocol_set() {
    let mut cfg = config(METER);
    cfg.devices[0].device_type = None;
    let info = json("{ \"transport\": \"tcp\", \"host\": \"10.0.0.9\", \"port\": 502 }");
    let manifest = device_manifest(&cfg, &cfg.devices[0], Some(&info), &vec![]);
    assert_eq!(manifest.get("info"), Some(&info));
    assert!(manifest.get("type").is_none());
    assert_eq!(
        shown(&manifest, &["points", "setpoint", "parameter", "sets"]),
        "[\"modbus_control_parameters\"]"
    );
}

#[test]
fn a_manifest_tells_the_commands_that_the_device_takes() {
    let cfg = config(METER);
    let manifest = device_manifest(&cfg, &cfg.devices[0], None, &texts(&["ot_write"]));
    assert_eq!(shown(&manifest, &["commands"]), "[\"ot_write\"]");
}

const PLANT: &str = r#"
[connector]
protocol = "modbus"

[[device]]
name = "plc1"
type = "acme-boiler-v2"
protocol_address = { transport = "tcp", host = "127.0.0.1", port = 502, unit_id = 1 }

  [[device.point]]
  id = "temp_u16"
  datatype = "uint16"
  access = "read_write"
  unit = "°C"
  name = "Boiler temp"
  description = "Outlet temperature after the heat exchanger"
  address = { table = "holding", address = 3, count = 1 }
  parameter = { title = "Temperature setpoint", order = 7 }
  range     = { min = 0, max = 100 }

  [[device.point]]
  id = "coil_rw"
  datatype = "bool"
  access = "read_write"
  name = "Pump enable"
  address = { table = "coil", address = 48, count = 1 }

  [[device.point]]
  id = "pump_speed"
  datatype = "float32"
  access = "write"
  address = { table = "holding", address = 10, count = 2 }
  parameter = "pump"

  [[device.point]]
  id = "level_f32"
  datatype = "float32"
  description = "Level in the buffer tank"
  address = { table = "holding", address = 6, count = 2 }

  [[device.point]]
  id = "status_word"
  datatype = "uint16"
  address = { table = "holding", address = 20, count = 1 }
  parameter = true

  [[device.point]]
  id = "hidden_rw"
  datatype = "uint16"
  access = "read_write"
  address = { table = "holding", address = 21, count = 1 }
  parameter = false

  [[device.point]]
  id = "flow_limit"
  datatype = "uint16"
  access = "read_write"
  address = { table = "holding", address = 23, count = 1 }
  parameter = { group = ["control", "commissioning"] }

[[device]]
name = "plc2"
protocol_address = { transport = "tcp", host = "127.0.0.1", port = 503, unit_id = 1 }

  [[device.point]]
  id = "spare_rw"
  datatype = "uint16"
  access = "read_write"
  address = { table = "holding", address = 30, count = 1 }
"#;

fn manifests(source: &str) -> Vec<DeviceManifest> {
    let cfg = config(source);
    cfg.devices
        .iter()
        .map(|device| DeviceManifest {
            device: device.name.clone(),
            manifest: device_manifest(&cfg, device, None, &vec![]),
        })
        .collect()
}

fn identifiers(defs: &[Json]) -> Vec<&str> {
    defs.iter().map(|d| d.get_str("identifier").unwrap()).collect()
}

#[test]
fn definitions_group_by_set_and_render_a_schema_per_point() {
    let defs = definitions(&manifests(PLANT));
    assert_eq!(
        identifiers(&defs),
        [
            "acme_boiler_v2_control_parameters",
            "acme_boiler_v2_commissioning_parameters",
            "pump",
            "modbus_control_parameters",
        ]
    );
    let properties = |i: usize| at(&defs[i], &["jsonSchema", "properties"]).unwrap();
    assert!(properties(0).get("flow_limit").and_then(|p| p.as_object()).is_some());
    assert!(properties(1).get("flow_limit").and_then(|p| p.as_object()).is_some());

    let main = &defs[0];
    assert_eq!(shown(main, &["contexts"]), "[\"asset\",\"event\",\"operation\"]");
    assert_eq!(shown(main, &["jsonSchema", "title"]), "\"Acme boiler v2 control parameters\"");
    assert_eq!(shown(main, &["tags"]), "[\"tedge-dot\",\"modbus\"]");
    let props = properties(0);

    assert_eq!(shown(props, &["temp_u16", "type"]), "\"integer\"");
    assert_eq!(shown(props, &["temp_u16", "title"]), "\"Temperature setpoint\"");
    assert_eq!(
        shown(props, &["temp_u16", "description"]),
        "\"Outlet temperature after the heat exchanger [°C]\""
    );
    assert_eq!(shown(props, &["temp_u16", "minimum"]), "0.0");
    assert_eq!(shown(props, &["temp_u16", "maximum"]), "100.0");
    assert_eq!(shown(props, &["temp_u16", "order"]), "7", "the declared order is kept");

    assert_eq!(shown(props, &["coil_rw", "title"]), "\"Pump enable\"");
    assert_eq!(shown(props, &["coil_rw", "type"]), "\"boolean\"");
    assert_eq!(shown(props, &["coil_rw", "order"]), "2");
    assert_eq!(shown(props, &["flow_limit", "order"]), "5");

    assert_eq!(shown(props, &["status_word", "readOnly"]), "true");
    assert_eq!(shown(props, &["status_word", "maximum"]), "65535.0");
    assert!(props.get("hidden_rw").is_none(), "parameter = false opts out");
    assert!(props.get("level_f32").is_none(), "read-only and never opted in");

    let pump = &defs[2];
    assert_eq!(shown(pump, &["jsonSchema", "title"]), "\"Pump\"");
    let speed = properties(2).get("pump_speed").unwrap();
    assert_eq!(shown(speed, &["type"]), "\"number\"");
    assert!(speed.get_str("description").unwrap().contains("write-only"));

    assert!(properties(3).get("spare_rw").and_then(|p| p.as_object()).is_some());
}

#[test]
fn a_forced_set_arrives_already_resolved() {
    let forced = PLANT.replace(
        "protocol = \"modbus\"",
        "protocol = \"modbus\"\nparameter_set = \"plant_settings\"",
    );
    let defs = definitions(&manifests(&forced));
    assert_eq!(identifiers(&defs), ["plant_settings", "pump"], "only the absolute set survives it");
}

#[test]
fn a_set_shared_by_two_manifests_is_one_definition() {
    let modbus = manifests(
        r#"
[connector]
protocol = "modbus"
[[device]]
name = "plc1"
type = "acme-boiler-v2"
protocol_address = {}
  [[device.point]]
  id = "temp_u16"
  datatype = "uint16"
  access = "read_write"
  name = "Boiler temp"
  address = {}
"#,
    );
    let opcua = manifests(
        r#"
[connector]
protocol = "opcua"
[[device]]
name = "boiler2"
type = "acme boiler v2"
protocol_address = {}
  [[device.point]]
  id = "temp_u16"
  datatype = "uint16"
  access = "read_write"
  name = "Second title"
  address = {}
  [[device.point]]
  id = "level"
  datatype = "float32"
  access = "read_write"
  address = {}
"#,
    );
    let both: Vec<DeviceManifest> = modbus.into_iter().chain(opcua).collect();
    let defs = definitions(&both);
    assert_eq!(defs.len(), 1);
    let props = at(&defs[0], &["jsonSchema", "properties"]).unwrap();
    assert_eq!(shown(props, &["temp_u16", "title"]), "\"Boiler temp\"", "the first one wins");
    assert!(props.get("level").and_then(|p| p.as_object()).is_some());
    assert_eq!(shown(&defs[0], &["tags", "1"]), "\"modbus\"");
}

#[test]
fn a_manifest_without_parameters_renders_nothing() {
    assert!(definitions(&[]).is_empty());
    assert!(definitions(&[DeviceManifest {
        device: "plc1".into(),
        manifest: json("{ \"contract\": \"0.2\", \"protocol\": \"modbus\", \"points\": {} }"),
    }])
    .is_empty());
    let odd = definitions(&[DeviceManifest {
        device: "plc1".into(),
        manifest: json("{ \"points\": { \"p\": { \"parameter\": { \"sets\": [\"s\"] } } } }"),
    }]);
    assert_eq!(shown(&odd[0], &["jsonSchema", "properties", "p", "type"]), "\"string\"");
    assert_eq!(shown(&odd[0], &["jsonSchema", "properties", "p", "readOnly"]), "true");
}

const BASE: &str = r#"
[connector]
protocol = "modbus"
poll_interval = "2s"
log_level = "info"

[mqtt]
host = "127.0.0.1"
port = 1883

[connection.serial]
baudrate = 9600
parity = "N"
stopbits = 2
databits = 8

[[device]]
name = "plc-1"
protocol_address = { transport = "tcp", host = "127.0.0.1", port = 502, unit_id = 1 }
default_mode = "typed"

  [[device.point]]
  id = "temp"
  datatype = "float32"
  address = { table = "holding", address = 7, count = 2 }
"#;

fn doc() -> DocumentMut {
    BASE.parse::<DocumentMut>().unwrap()
}

fn change(verb: &str, request: &str, document: &mut DocumentMut) -> Result<(), String> {
    apply_management(verb, &json(request), document.as_table_mut())
}

/// The document after a management command, and the configuration that it is.
fn apply(verb: &str, request: &str) -> (DocumentMut, ConnectorConfig) {
    let mut d = doc();
    change(verb, request, &mut d).expect("apply ok");
    let cfg = config(&d.to_string());
    (d, cfg)
}

#[test]
fn define_device_keeps_a_reference_to_a_point_library() {
    let (d, cfg) = apply(
        "define-device",
        r#"{ "device": {
            "name": "plc-2",
            "protocol_address": { "transport": "tcp", "host": "10.0.0.2", "port": 502, "unit_id": 1 },
            "points_from": ["acme-meter"]
        } }"#,
    );
    let text = d.to_string();
    assert!(text.contains(r#"points_from = ["acme-meter"]"#), "reference persisted: {text}");
    assert_eq!(cfg.devices[1].points_from, ["acme-meter"]);
    assert!(cfg.devices[1].points.is_empty());
}

#[test]
fn set_config_patches_connector_section() {
    let (_d, cfg) = apply(
        "set-config",
        r#"{ "target": "connector", "config": { "poll_interval": "5s" } }"#,
    );
    assert_eq!(cfg.connector.poll_interval, "5s");
    assert_eq!(cfg.connector.log_level, "info");
}

#[test]
fn set_config_deep_merges_serial_defaults() {
    let (d, _cfg) = apply(
        "set-config",
        r#"{ "target": "connection", "config": { "serial": { "baudrate": 19200 } } }"#,
    );
    let text = d.to_string();
    assert!(text.contains("baudrate = 19200"), "baudrate patched: {text}");
    assert!(text.contains("parity"), "parity retained: {text}");
}

#[test]
fn set_config_patches_named_device() {
    let (_d, cfg) = apply(
        "set-config",
        r#"{ "target": "device:plc-1", "config": { "poll_interval": "10s" } }"#,
    );
    let dev = cfg.devices.iter().find(|d| d.name == "plc-1").unwrap();
    assert_eq!(dev.poll_interval.as_deref(), Some("10s"));
    assert_eq!(dev.points.len(), 1);
}

#[test]
fn set_config_cannot_change_the_connector_identity() {
    for key in ["service_name", "protocol"] {
        let request = format!("{{ \"target\": \"connector\", \"config\": {{ \"{key}\": \"other\" }} }}");
        let mut d = doc();
        let err = change("set-config", &request, &mut d).unwrap_err();
        assert!(err.contains(key), "{err}");
        assert_eq!(d.to_string(), BASE, "the document must be left untouched");
    }
}

#[test]
fn set_config_writes_every_kind_of_value() {
    let (d, _cfg) = apply(
        "set-config",
        r#"{ "target": "connection", "config": {
            "flag": true, "whole": -7, "part": 0.5, "word": "a\"b", "list": [1, 2], "deep": { "x": { "y": 1 } }
        } }"#,
    );
    let v: serde_json::Value = toml::from_str(&d.to_string()).unwrap();
    let c = &v["connection"];
    assert_eq!(c["flag"], serde_json::Value::from(true));
    assert_eq!(c["whole"], serde_json::Value::from(-7));
    assert_eq!(c["part"], serde_json::Value::from(0.5));
    assert_eq!(c["word"], serde_json::Value::from("a\"b"));
    assert_eq!(c["list"][1], serde_json::Value::from(2));
    assert_eq!(c["deep"]["x"]["y"], serde_json::Value::from(1));
    assert_eq!(c["serial"]["baudrate"], serde_json::Value::from(9600));
}

#[test]
fn what_toml_cannot_hold_is_refused() {
    let mut d = doc();
    let request = r#"{ "target": "connector", "config": { "poll_interval": null } }"#;
    assert!(change("set-config", request, &mut d).is_err());
    let mut d = doc();
    let request = r#"{ "target": "connector", "config": { "x": 18446744073709551615 } }"#;
    assert_eq!(change("set-config", request, &mut d), Ok(()), "past 64 bits a float takes over");
    let v: serde_json::Value = toml::from_str(&d.to_string()).unwrap();
    assert_eq!(v["connector"]["x"], serde_json::Value::from(18446744073709551615f64));
    let mut d = doc();
    assert!(change("set-config", r#"{ "config": {} }"#, &mut d).is_err());
    assert!(change("set-config", r#"{ "target": "connector" }"#, &mut d).is_err());
    assert!(change("define-device", r#"{ "device": { "point": [] } }"#, &mut d).is_err());
    assert!(change("restart", "{}", &mut d).is_err());
    assert_eq!(d.to_string(), BASE);
}

#[test]
fn reload_restarts_only_for_what_cannot_change_in_place() {
    let running = config(BASE);
    let edited = |from: &str, to: &str| {
        assert!(BASE.contains(from), "fixture lacks {from}");
        config(&BASE.replace(from, to))
    };
    assert!(!needs_restart(&running, &config(BASE)));
    assert!(!needs_restart(&running, &edited("poll_interval = \"2s\"", "poll_interval = \"9s\"")));
    assert!(!needs_restart(&running, &edited("address = 7", "address = 8")));
    assert!(!needs_restart(&running, &edited("log_level = \"info\"", "log_level = \"debug\"")));

    let service = edited("protocol = \"modbus\"", "protocol = \"modbus\"\nservice_name = \"plant\"");
    assert!(needs_restart(&running, &service));
    assert!(needs_restart(&running, &edited("protocol = \"modbus\"", "protocol = \"opcua\"")));
    assert!(needs_restart(&running, &edited("port = 1883", "port = 1884")));
    let stall = edited("log_level = \"info\"", "log_level = \"info\"\nstall_timeout = \"5m\"");
    assert!(needs_restart(&running, &stall));
}

#[test]
fn a_reload_sees_through_edits_that_change_nothing() {
    let running = config(BASE);
    let commented = config(&format!("# edited by the operator\n{BASE}"));
    assert_eq!(running, commented);
    let moved = config(&BASE.replace("address = 7", "address = 8"));
    assert_ne!(running, moved);
}

#[test]
fn a_reload_is_planned_by_what_was_loaded() {
    let running = config(BASE);
    let same = config(BASE);
    let moved = config(&BASE.replace("address = 7", "address = 8"));
    let other = config(&BASE.replace("port = 1883", "port = 1884"));
    assert_eq!(plan_reload(&running, None, false), ReloadStep::Done(Reloaded::Kept));
    assert_eq!(plan_reload(&running, Some(&same), true), ReloadStep::Done(Reloaded::Unchanged));
    assert_eq!(plan_reload(&running, Some(&moved), false), ReloadStep::Configure);
    assert_eq!(plan_reload(&running, Some(&other), false), ReloadStep::Done(Reloaded::Restart));
    assert_eq!(reload_outcome(true), Reloaded::Applied);
    assert_eq!(reload_outcome(false), Reloaded::Kept);
    assert!(keeps_document(Reloaded::Applied));
    assert_eq!(after_reload(Reloaded::Restart).1, Some(RunExit::Restart));
    assert_eq!(after_reload(Reloaded::Unchanged), (false, None));
}

#[test]
fn set_config_unknown_target_rejected() {
    let mut d = doc();
    let err = change("set-config", r#"{ "target": "bogus", "config": {} }"#, &mut d).unwrap_err();
    assert!(err.contains("unknown set-config target"), "{err}");
}

fn route(topic: &str, config: &ConnectorConfig) -> CommandRoute {
    route_command(topic, "modbus", "tedge-dot", config)
}

fn for_device(device: &str, verb: &str) -> CommandRoute {
    CommandRoute::Device { device: device.into(), verb: verb.into() }
}

#[test]
fn commands_route_to_the_owning_instance_only() {
    let config = config(BASE);
    assert_eq!(
        route("te/device/plc-1/ot/modbus/cmd/write/1", &config),
        for_device("plc-1", "write")
    );
    assert_eq!(
        route("te/device/main/service/tedge-dot/ot/cmd/define-device/1", &config),
        CommandRoute::Service { verb: "define-device".into() }
    );
    for elsewhere in [
        "te/device/plc-2/ot/modbus/cmd/write/1",
        "te/device/plc-1/ot/opcua/cmd/write/1",
        "te/device/main/service/tedge-dot-2/ot/cmd/define-device/1",
        "te/device/plc-1/ot/modbus/cmd/write",
        "te/device/plc-1/ot/modbus/cmd/write/1/2",
        "te/device/plc-1/ot/modbus/sample/temp",
        "te/device/main/service/tedge-dot/ot/capabilities",
        "te/device/main/service/tedge-dot/ot/cmd/define-device",
    ] {
        assert_eq!(route(elsewhere, &config), CommandRoute::Elsewhere, "{elsewhere}");
    }
}

#[test]
fn command_routing_follows_the_configuration() {
    let topic = "te/device/plc-9/ot/modbus/cmd/write/1";
    assert_eq!(route(topic, &config(BASE)), CommandRoute::Elsewhere);

    let (_, added) = apply(
        "define-device",
        r#"{ "device": {
            "name": "plc-9",
            "protocol_address": { "transport": "tcp", "host": "10.0.0.9", "port": 502, "unit_id": 1 },
            "point": [{ "id": "t", "datatype": "uint16",
                        "address": { "table": "holding", "address": 1, "count": 1 } }]
        } }"#,
    );
    assert_eq!(route(topic, &added), for_device("plc-9", "write"));

    let (_, removed) = apply("remove-device", r#"{ "device": "plc-1" }"#);
    let topic = "te/device/plc-1/ot/modbus/cmd/write/1";
    assert_eq!(route(topic, &removed), CommandRoute::Elsewhere);
}

#[test]
fn define_device_appends_new_device() {
    let (_d, cfg) = apply(
        "define-device",
        r#"{ "device": {
            "name": "plc-9",
            "protocol_address": { "transport": "tcp", "host": "10.0.0.9", "port": 502, "unit_id": 2 },
            "default_mode": "typed",
            "point": [
                { "id": "level", "datatype": "uint16", "address": { "table": "holding", "address": 1, "count": 1 } }
            ]
        } }"#,
    );
    assert_eq!(cfg.devices.len(), 2);
    let dev = cfg.devices.iter().find(|d| d.name == "plc-9").unwrap();
    assert_eq!(dev.points.len(), 1);
    assert_eq!(dev.points[0].id, "level");
}

#[test]
fn define_device_replaces_existing_by_name() {
    let (_d, cfg) = apply(
        "define-device",
        r#"{ "device": {
            "name": "plc-1",
            "protocol_address": { "transport": "tcp", "host": "1.2.3.4", "port": 502, "unit_id": 1 },
            "point": [
                { "id": "a", "datatype": "int16", "address": { "table": "holding", "address": 0, "count": 1 } },
                { "id": "b", "datatype": "int16", "address": { "table": "holding", "address": 1, "count": 1 } }
            ]
        } }"#,
    );
    assert_eq!(cfg.devices.len(), 1, "replaced, not appended");
    assert_eq!(cfg.devices[0].points.len(), 2);
}

#[test]
fn remove_device_deletes_entry() {
    let (_d, cfg) = apply("remove-device", r#"{ "device": "plc-1" }"#);
    assert!(cfg.devices.is_empty());
}

#[test]
fn remove_unknown_device_rejected() {
    let mut d = doc();
    let err = change("remove-device", r#"{ "device": "nope" }"#, &mut d).unwrap_err();
    assert!(err.contains("not found"), "{err}");
}

#[test]
fn a_file_is_a_document_or_told_why_not() {
    let d = loaded_document("/conf/a.toml", BASE).unwrap();
    assert_eq!(d.to_string(), BASE);
    let err = loaded_document("/conf/a.toml", "= 1").unwrap_err();
    assert!(err.starts_with("/conf/a.toml: "), "{err}");
    assert_eq!(first_document(Some(BASE)).to_string(), BASE);
    assert_eq!(first_document(Some("= 1")).to_string(), "");
    assert_eq!(first_document(None).to_string(), "");
}

#[test]
fn a_command_makes_a_document_of_its_own() {
    let running = loaded_document("f", &format!("# mine\n{BASE}")).unwrap();
    let before = running.to_string();
    let request = json(r#"{ "target": "connector", "config": { "log_level": "debug" } }"#);
    let next = candidate("set-config", &request, &running).unwrap();
    assert_eq!(running.to_string(), before);
    assert!(next.text.contains("log_level = \"debug\"") && next.text.starts_with("# mine"));
    assert_eq!(next.text, next.document.to_string());
    let refused = candidate("remove-device", &json(r#"{ "device": "nope" }"#), &running);
    assert!(refused.err().unwrap().contains("not found"));
}

#[test]
fn an_array_may_hold_what_is_no_table() {
    let mut d = doc();
    let devices = d["device"].as_array_of_tables_mut().unwrap();
    devices.push(toml_edit::Table::new());
    let last = devices.len() - 1;
    d["device"][last] = toml_edit::value(7);
    let err = change("remove-device", r#"{ "device": "nope" }"#, &mut d).unwrap_err();
    assert!(err.contains("not found"), "{err}");
}

#[test]
fn the_first_device_is_taken_from_the_text() {
    let device = first_device(BASE).unwrap();
    assert_eq!(device.get_str("name"), Some(config(BASE).devices[0].name.as_str()));
    assert_eq!(first_device("x = 1").unwrap_err(), "config has no [[device]]");
    assert_eq!(first_device("device = []").unwrap_err(), "config has no [[device]]");
    assert!(first_device("= 1").unwrap_err().starts_with("parse config: "));
}

#[test]
fn a_refused_command_leaves_the_document() {
    for (verb, request) in [
        ("remove-device", r#"{ "device": "nope" }"#),
        ("define-device", r#"{ "device": { "name": "x", "note": null } }"#),
        ("define-device", r#"{ "device": { "points": [] } }"#),
        ("set-config", r#"{ "target": "device:nope", "config": { "a": 1 } }"#),
        ("set-config", r#"{ "target": "connector", "config": { "protocol": "opcua" } }"#),
        ("set-config", r#"{ "target": "connector", "config": { "a": 1, "service_name": "x" } }"#),
        ("set-config", r#"{ "target": "elsewhere", "config": { "a": 1 } }"#),
    ] {
        let mut d = doc();
        assert!(change(verb, request, &mut d).is_err(), "{verb} {request}");
        assert_eq!(d.to_string(), doc().to_string(), "{verb} {request}");
    }
}

#[test]
fn a_point_is_scheduled_unless_it_is_subscribed() {
    let config = config(BASE);
    let none = Subscribed::new();
    let polled = build_schedule(&config, &none, 0);
    assert_eq!(polled.len(), 1, "an unsubscribed point must be polled");
    assert_eq!(polled[0].point.id, "temp");

    let mut subscribed = Subscribed::new();
    subscribed.insert(0, "temp");
    assert!(build_schedule(&config, &subscribed, 0).is_empty());

    subscribed.remove(0, "temp");
    assert_eq!(build_schedule(&config, &subscribed, 0).len(), 1);
}

#[test]
fn schedule_skips_subscribed_points() {
    let cfg = config(BASE);
    assert_eq!(build_schedule(&cfg, &Subscribed::new(), 0).len(), 1);
    let mut subscribed = Subscribed::new();
    subscribed.insert(0, "temp");
    assert_eq!(build_schedule(&cfg, &subscribed, 0).len(), 0);
}

#[test]
fn schedule_resolves_point_interval() {
    let cfg = config(BASE);
    let schedule = build_schedule(&cfg, &Subscribed::new(), 0);
    assert_eq!(schedule[0].point.interval, Some(Duration::from_secs(2)));
}

#[test]
fn due_points_come_by_device_and_are_due_again_later() {
    let cfg = config(
        r#"
[connector]
protocol = "modbus"
[[device]]
name = "a"
protocol_address = {}
  [[device.point]]
  id = "slow"
  poll_interval = "10s"
  address = {}
  [[device.point]]
  id = "fast"
  poll_interval = "1s"
  address = {}
  [[device.point]]
  id = "out"
  access = "write"
  address = {}
[[device]]
name = "b"
protocol_address = {}
poll_interval = "3s"
  [[device.point]]
  id = "own"
  address = {}
"#,
    );
    let start = 5_000_000_000;
    let mut schedule = build_schedule(&cfg, &Subscribed::new(), start);
    let ids: Vec<&str> = schedule.iter().map(|e| e.point.id.as_str()).collect();
    assert_eq!(ids, ["slow", "fast", "out", "own"]);
    assert_eq!(schedule[3].interval, Duration::from_secs(3));
    let due = take_due(&mut schedule, start);
    assert_eq!(due.len(), 2);
    assert_eq!(due[0].device_index, 0);
    assert_eq!(due[0].points.len(), 3);
    assert_eq!(due[1].device_index, 1);
    assert!(take_due(&mut schedule, start + 999_999_999).is_empty());
    let due = take_due(&mut schedule, start + 1_000_000_000);
    assert_eq!(due.len(), 1);
    assert_eq!(due[0].points[0].id, "fast");
}

#[test]
fn a_subscription_covers_the_points_that_may_be_pushed() {
    let source = BASE.replace(
        "address = { table = \"holding\", address = 7, count = 2 }",
        "address = { table = \"holding\", address = 7, count = 2 }\n\n  [[device.point]]\n  id = \"kept\"\n  subscribe = false\n  address = {}",
    );
    let cfg = config(&source);
    let points = push_points(&cfg, &cfg.devices[0]);
    let ids: Vec<&str> = points.iter().map(|p| p.id.as_str()).collect();
    assert_eq!(ids, ["temp"]);
    let mut subscribed = Subscribed::new();
    note_subscription(&mut subscribed, 0, &points, true);
    assert!(subscribed.contains(0, "temp"));
    let left = build_schedule(&cfg, &subscribed, 0);
    assert_eq!(left.len(), 1);
    assert_eq!(left[0].point.id, "kept");
}

const INDEXED: &str = r#"
[connector]
protocol = "modbus"

[[device]]
name = "plc-1"
type = "acme-meter-v2"
protocol_address = { host = "127.0.0.1" }

  [[device.point]]
  id = "temp"
  datatype = "float32"
  address = { table = "holding", address = 7, count = 2 }
  meta = { on_change = true, min_interval = "5s", room = "boiler" }
"#;

#[test]
fn point_meta_parsed_and_indexed() {
    let cfg = config(INDEXED);
    let index = build_meta_index(&cfg);
    let extras = index.get("plc-1", "temp").unwrap();
    let meta = extras.meta.as_ref().unwrap();
    assert_eq!(extras.access, Access::Read);
    assert_eq!(extras.device_type.as_deref(), Some("acme-meter-v2"));
    assert_eq!(device_type_of(&cfg, "plc-1"), Some("acme-meter-v2"));
    assert_eq!(device_type_of(&cfg, "nope"), None);
    assert_eq!(shown(meta, &["on_change"]), "true");
    assert_eq!(shown(meta, &["min_interval"]), "\"5s\"");
    assert_eq!(shown(meta, &["room"]), "\"boiler\"");
}

#[test]
fn link_payload_carries_the_device_type_of_the_live_config() {
    let typed = |name: &str, kind: &str| {
        config(&format!(
            r#"
[connector]
protocol = "modbus"

[[device]]
name = "{name}"
type = "{kind}"
protocol_address = {{ host = "127.0.0.1" }}

  [[device.point]]
  id = "temp"
  datatype = "float32"
  address = {{ table = "holding", address = 7, count = 2 }}
"#
        ))
    };
    let mut running = typed("plc-1", "acme-meter-v2");
    let report = LinkReport::new("plc-1".to_string(), LinkStatus::Connected, None);
    let payload = link_payload(&report, &running, 0);
    assert_eq!(payload.get_str("status"), Some("connected"));
    assert_eq!(payload.get_str("type"), Some("acme-meter-v2"));
    assert_eq!(payload.get_str("since"), Some("1970-01-01T00:00:00.000Z"));

    let unknown = LinkReport::new("plc-9".to_string(), LinkStatus::Connected, None);
    assert!(link_payload(&unknown, &running, 0).get("type").is_none());
    running.devices[0].device_type = None;
    assert!(link_payload(&report, &running, 0).get("type").is_none());

    let added = typed("plc-7", "acme-boiler-v2");
    let new_device = LinkReport::new("plc-7".to_string(), LinkStatus::Connected, None);
    assert_eq!(link_payload(&new_device, &added, 0).get_str("type"), Some("acme-boiler-v2"));
}

#[test]
fn envelope_carries_point_meta() {
    let sample = Sample {
        ts: 0,
        device: "plc-1".into(),
        protocol: "modbus".into(),
        point: "temp".into(),
        mode: Mode::Typed,
        datatype: None,
        value: None,
        raw: vec![0x12, 0x34],
        raw_group: 2,
        quality: Quality::Good,
        unit: None,
        addr: Json::null(),
        seq: None,
        error: None,
    };
    let mut index = MetaIndex::new();
    index.insert(
        "plc-1",
        "temp",
        PointExtras {
            meta: Some(json("{ \"on_change\": true }")),
            access: Access::ReadWrite,
            device_type: Some("acme-meter-v2".into()),
        },
    );
    let env = envelope_with_meta(&sample, &index, false);
    assert_eq!(shown(&env, &["meta", "on_change"]), "true");
    assert_eq!(env.get_str("access"), Some("read_write"));
    assert_eq!(env.get_str("type"), Some("acme-meter-v2"));
    let bare = envelope_with_meta(&sample, &MetaIndex::new(), false);
    assert!(bare.get("meta").is_none());
    assert!(bare.get("access").is_none());
    assert!(bare.get("type").is_none());
}

#[test]
fn batch_writes_parse_typed_and_raw_entries() {
    let request = json(
        r#"{ "status": "init", "writes": [
            { "point": "setpoint", "value": 21.5 },
            { "point": "mask", "raw": "00ff" }
        ] }"#,
    );
    let writes = parse_batch_writes(&request).unwrap();
    assert_eq!(writes.len(), 2);
    assert_eq!(writes[0].point, "setpoint");
    assert_eq!(writes[0].value, Some(json("21.5")));
    assert_eq!(writes[1].raw.as_deref(), Some("00ff"));
    assert_eq!(writes[1].value, None);
}

#[test]
fn batch_writes_reject_malformed_requests() {
    let refused = |request: &str| parse_batch_writes(&json(request)).unwrap_err();
    assert!(refused(r#"{ "status": "init" }"#).contains("`writes`"));
    assert!(refused(r#"{ "writes": [] }"#).contains("no writes"));
    assert!(refused(r#"{ "writes": [{ "value": 1 }] }"#).contains("`point`"));
    assert!(refused(r#"{ "writes": [{ "point": "x" }] }"#).contains("neither"));
    assert!(parse_batch_writes(&json(r#"{ "writes": [{ "point": "x", "value": null }] }"#)).is_err());
}

#[test]
fn batch_result_shapes_success_and_failure() {
    let ok = batch_result(None, vec![json(r#"{ "point": "a", "status": "successful" }"#)]);
    assert_eq!(ok.get_str("status"), Some("successful"));
    assert_eq!(ok.get("results").and_then(|r| r.as_array()).unwrap().len(), 1);
    let failed = batch_result(
        Some("write to b failed: boom".into()),
        vec![
            json(r#"{ "point": "a", "status": "successful" }"#),
            json(r#"{ "point": "b", "status": "failed", "reason": "write to b failed: boom" }"#),
        ],
    );
    assert_eq!(failed.get_str("status"), Some("failed"));
    assert_eq!(failed.get_str("reason"), Some("write to b failed: boom"));
    assert_eq!(shown(&failed, &["results", "1", "status"]), "\"failed\"");
}

const SELECTION: &str = r#"
[connector]
protocol = "modbus"
poll_interval = "2s"

[[device]]
name = "plc1"
protocol_address = { host = "127.0.0.1" }
poll_interval = "5s"

  [[device.point]]
  id = "temp_u16"
  access = "read_write"
  address = { table = "holding", address = 3 }

  [[device.point]]
  id = "temp_scaled"
  address = { table = "holding", address = 3 }

  [[device.point]]
  id = "cmd_only"
  access = "write"
  address = { table = "coil", address = 1 }

[[device]]
name = "plc2"
protocol_address = { host = "127.0.0.2" }

  [[device.point]]
  id = "level_f32"
  address = { table = "holding", address = 6 }
"#;

fn selected(points: &[&PointConfig]) -> Vec<String> {
    points.iter().map(|p| p.id.clone()).collect()
}

#[test]
fn resolve_targets_default_wildcards_cover_all_readable_points() {
    let config = config(SELECTION);
    let targets = resolve_targets(&config, "*", &texts(&["*"]), false).unwrap();
    assert_eq!(targets.len(), 2);
    assert_eq!(selected(&targets[0].points), vec!["temp_u16", "temp_scaled"]);
    assert_eq!(targets[1].device.name, "plc2");
}

#[test]
fn resolve_targets_wildcard_selects_writable_points_for_write() {
    let config = config(SELECTION);
    let targets = resolve_targets(&config, "plc1", &texts(&["*"]), true).unwrap();
    assert_eq!(targets.len(), 1);
    assert_eq!(selected(&targets[0].points), vec!["temp_u16", "cmd_only"]);
}

#[test]
fn resolve_targets_explicit_point_bypasses_access_filter() {
    let config = config(SELECTION);
    let targets = resolve_targets(&config, "plc1", &texts(&["temp_scaled"]), true).unwrap();
    assert_eq!(targets[0].points[0].id, "temp_scaled");
}

#[test]
fn resolve_targets_dedups_overlapping_patterns() {
    let config = config(SELECTION);
    let patterns = texts(&["temp_*", "temp_u16"]);
    let targets = resolve_targets(&config, "plc1", &patterns, false).unwrap();
    assert_eq!(selected(&targets[0].points), vec!["temp_u16", "temp_scaled"]);
}

#[test]
fn resolve_targets_rejects_unknown_device_and_point() {
    let config = config(SELECTION);
    let err = resolve_targets(&config, "nope", &texts(&["*"]), false).unwrap_err();
    assert!(err.contains("no device matches 'nope'"), "{err}");
    assert!(err.contains("plc1, plc2"), "{err}");

    let err = resolve_targets(&config, "*", &texts(&["missing"]), false).unwrap_err();
    assert!(err.contains("no readable point matches 'missing'"), "{err}");
}

#[test]
fn resolve_targets_point_pattern_may_miss_some_devices() {
    let config = config(SELECTION);
    let targets = resolve_targets(&config, "*", &texts(&["level_*"]), false).unwrap();
    assert_eq!(targets.len(), 1);
    assert_eq!(targets[0].device.name, "plc2");
}

#[test]
fn effective_interval_prefers_override_then_device_then_connector() {
    let config = config(SELECTION);
    let plc1 = &config.devices[0];
    let plc2 = &config.devices[1];
    assert_eq!(
        effective_interval(&config, plc1, Some(Duration::from_millis(100))),
        Duration::from_millis(100)
    );
    assert_eq!(effective_interval(&config, plc1, None), Duration::from_secs(5));
    assert_eq!(effective_interval(&config, plc2, None), Duration::from_secs(2));
}

#[test]
fn run_config_args_merge_positional_and_flag() {
    let args = RunArgs {
        configs: vec!["a.toml".into()],
        config: vec!["b.toml".into()],
        output: Output::Mqtt,
        duration: None,
    };
    assert_eq!(combined_config_args(&args), vec!["a.toml", "b.toml"]);

    let args = RunArgs { configs: vec![], config: vec![], output: Output::Mqtt, duration: None };
    assert_eq!(combined_config_args(&args), vec![DEFAULT_CONFIG_DIR]);
}

#[test]
fn cli_duration_parses_human_readable() {
    assert_eq!(parse_cli_duration("500ms"), Ok(Duration::from_millis(500)));
    assert_eq!(parse_cli_duration("10s"), Ok(Duration::from_secs(10)));
    assert_eq!(parse_cli_duration("5m"), Ok(Duration::from_secs(300)));
    assert_eq!(parse_cli_duration("1h"), Ok(Duration::from_secs(3600)));
    assert!(parse_cli_duration("nope").is_err());
}

#[test]
fn pick_log_level_takes_most_verbose() {
    let info = config("[connector]\nprotocol = \"modbus\"\nlog_level = \"info\"\n");
    let debug = config("[connector]\nprotocol = \"opcua\"\nlog_level = \"debug\"\n");
    let level = |c: &ConnectorConfig| c.connector.log_level.clone();
    assert_eq!(pick_log_level(&vec![level(&info)]), "info");
    assert_eq!(pick_log_level(&vec![level(&info), level(&debug)]), "debug");
    assert_eq!(pick_log_level(&vec![]), "info");
}
