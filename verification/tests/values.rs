//! Values, samples and what a server's variants and nodes are.
use tedge_dot::json::{Json, JsonNumber};
use tedge_dot::model::{format_rfc3339_ms, hex_grouped, DataType, Mode, NonFinite, Quality, Sample, Value, ValueRange};
use tedge_dot::ua_client::{node_id_from, NodeAddress, NodeIdentifier};
use tedge_dot::ua_values::{
    build_variant, data_value_ts, int64_value, int_from_json, opcua_datetime_to_ts, uint64_value,
    uint_from_json, variant_to_value, Reading, Variant, MAX_SAFE_INT,
};

fn json(text: &str) -> Json {
    Json::parse(text.as_bytes()).expect("JSON")
}

fn float(x: f64) -> JsonNumber {
    JsonNumber::of(serde_json::Number::from_f64(x).expect("finite"))
}

fn envelope_sample() -> Sample {
    Sample {
        ts: 1_500_000_000_123_456_789,
        device: "plc-1".into(),
        protocol: "modbus".into(),
        point: "temp".into(),
        mode: Mode::Typed,
        datatype: Some(DataType::Uint16),
        value: Some(Value::Number(float(1.0))),
        raw: vec![0x00, 0x01],
        raw_group: 2,
        quality: Quality::Good,
        unit: Some("°C".into()),
        addr: json("{ \"table\": \"holding\", \"address\": 3 }"),
        seq: Some(7),
        error: None,
    }
}

fn shown(v: &Json, key: &str) -> String {
    v.get(key).map(|x| x.print()).unwrap_or_default()
}

#[test]
fn envelope_carries_only_what_changes_per_read() {
    let env = envelope_sample().to_envelope(false);
    assert_eq!(shown(&env, "ts"), "\"2017-07-14T02:40:00.123Z\"");
    assert_eq!(shown(&env, "device"), "\"plc-1\"");
    assert_eq!(shown(&env, "protocol"), "\"modbus\"");
    assert_eq!(shown(&env, "point"), "\"temp\"");
    assert_eq!(shown(&env, "datatype"), "\"uint16\"");
    assert_eq!(shown(&env, "value"), "1.0");
    assert_eq!(shown(&env, "quality"), "\"good\"");
    assert_eq!(shown(&env, "seq"), "7");
    for gone in ["ts_ms", "value_repr", "unit", "type", "access", "meta", "raw", "addr"] {
        assert!(env.get(gone).is_none(), "{gone} must not be in a sample");
    }
}

#[test]
fn sample_debug_adds_the_wire_back() {
    let env = envelope_sample().to_envelope(true);
    assert_eq!(shown(&env, "raw"), "\"0001\"");
    assert_eq!(shown(env.get("addr").unwrap(), "address"), "3");
    for gone in ["ts_ms", "value_repr", "unit", "type", "access", "meta"] {
        assert!(env.get(gone).is_none(), "{gone} is the manifest's, debug or not");
    }
}

fn bounds(d: DataType) -> Option<(f64, f64)> {
    d.value_range().map(|r| match r {
        ValueRange::Whole { low, high } => (low as f64, high as f64),
        ValueRange::Single => (-(f32::MAX as f64), f32::MAX as f64),
        ValueRange::Double => (f64::MIN, f64::MAX),
    })
}

#[test]
fn integer_datatypes_know_their_range() {
    assert!(DataType::Uint16.is_integer());
    assert!(!DataType::Float32.is_integer());
    assert!(!DataType::Bool.is_integer());
    assert_eq!(bounds(DataType::Uint16), Some((0.0, 65535.0)));
    assert_eq!(bounds(DataType::Int8), Some((-128.0, 127.0)));
    assert_eq!(bounds(DataType::Bool), None);
    assert_eq!(bounds(DataType::Bytes), None);
    assert_eq!(bounds(DataType::Int64), Some((i64::MIN as f64, i64::MAX as f64)));
    assert_eq!(bounds(DataType::Float32), Some((-(f32::MAX as f64), f32::MAX as f64)));
}

#[test]
fn datatypes_know_their_size() {
    assert_eq!(DataType::Uint16.byte_len(), Some(2));
    assert_eq!(DataType::Float64.byte_len(), Some(8));
    assert_eq!(DataType::String.byte_len(), None);
}

#[test]
fn moments_are_written_to_the_millisecond() {
    assert_eq!(format_rfc3339_ms(0), "1970-01-01T00:00:00.000Z");
    assert_eq!(format_rfc3339_ms(-1_000_000), "1969-12-31T23:59:59.999Z");
    assert_eq!(format_rfc3339_ms(1_782_909_045_000_999_999), "2026-07-01T12:30:45.000Z");
}

#[test]
fn bytes_are_written_in_groups() {
    assert_eq!(hex_grouped(&[0x12, 0x34, 0xab, 0xcd], 2), "1234 abcd");
    assert_eq!(hex_grouped(&[0x01, 0x02, 0x03], 1), "01 02 03");
    assert_eq!(hex_grouped(&[0x01, 0x02], 0), "01 02");
    assert_eq!(hex_grouped(&[], 2), "");
}

#[test]
fn node_id_textual() {
    let addr = NodeAddress {
        node_id: Some("ns=2;s=Temperature".into()),
        namespace: None,
        identifier: None,
    };
    let nid = node_id_from(&addr).unwrap();
    assert_eq!(nid.namespace, 2);
    assert_eq!(nid.identifier, NodeIdentifier::Text("Temperature".into()));
}

#[test]
fn node_id_structured_numeric() {
    let addr = NodeAddress { node_id: None, namespace: Some(3), identifier: Some(json("1001")) };
    let nid = node_id_from(&addr).unwrap();
    assert_eq!(nid.namespace, 3);
    assert_eq!(nid.identifier, NodeIdentifier::Numeric(1001));
}

#[test]
fn an_address_without_a_node_is_refused() {
    let of = |node_id: Option<&str>, namespace: Option<u16>, identifier: Option<&str>| {
        node_id_from(&NodeAddress {
            node_id: node_id.map(str::to_string),
            namespace,
            identifier: identifier.map(json),
        })
    };
    assert!(of(None, None, None).is_err());
    assert!(of(None, None, Some("7")).is_err());
    assert!(of(Some("no node"), None, None).is_err());
    assert!(of(None, Some(1), Some("true")).is_err());
    let named = of(None, Some(1), Some("\"Name\"")).unwrap();
    assert_eq!(named.identifier, NodeIdentifier::Text("Name".into()));
}

#[test]
fn variant_number_roundtrip() {
    let d = variant_to_value(&Reading::UInt16(17001)).unwrap();
    assert_eq!(d.value, Value::Number(float(17001.0)));
    assert_eq!(d.datatype, DataType::Uint16);
    assert_eq!(d.raw, 17001u16.to_be_bytes().to_vec());
}

#[test]
fn floats_that_are_not_finite_are_told_apart() {
    let single = |x: f32| {
        variant_to_value(&Reading::Float { number: None, bits: x.to_bits() }).unwrap().value
    };
    let double = |x: f64| {
        variant_to_value(&Reading::Double { number: None, double_bits: x.to_bits() }).unwrap().value
    };
    assert_eq!(single(f32::INFINITY), Value::NonFinite(NonFinite::Infinite));
    assert_eq!(single(f32::NEG_INFINITY), Value::NonFinite(NonFinite::NegativeInfinite));
    assert_eq!(double(f64::INFINITY), Value::NonFinite(NonFinite::Infinite));
    assert_eq!(double(f64::NEG_INFINITY), Value::NonFinite(NonFinite::NegativeInfinite));
    assert_eq!(double(f64::NAN), Value::NonFinite(NonFinite::NotANumber));
}

#[test]
fn variant_bool() {
    let d = variant_to_value(&Reading::Boolean(true)).unwrap();
    assert_eq!(d.value, Value::Bool(true));
    assert_eq!(d.datatype, DataType::Bool);
}

#[test]
fn signed_variants_keep_their_bytes() {
    let d = variant_to_value(&Reading::Int32(-2)).unwrap();
    assert_eq!(d.value, Value::Number(float(-2.0)));
    assert_eq!(d.raw, (-2i32).to_be_bytes().to_vec());
    let d = variant_to_value(&Reading::Int64(i64::MIN)).unwrap();
    assert_eq!(d.value, Value::Text(i64::MIN.to_string()));
    assert_eq!(d.raw, i64::MIN.to_be_bytes().to_vec());
    let x = 404.17f32;
    let d = variant_to_value(&Reading::Float { number: Some(float(x as f64)), bits: x.to_bits() });
    assert_eq!(d.unwrap().raw, x.to_be_bytes().to_vec());
    assert!(variant_to_value(&Reading::Other).is_none());
}

#[test]
fn build_variant_float() {
    let v = build_variant(DataType::Float32, &json("404.17")).unwrap();
    assert!(matches!(v, Variant::Float(_)));
}

#[test]
fn build_variant_bool_type_mismatch() {
    assert!(build_variant(DataType::Bool, &json("5")).is_err());
}

#[test]
fn variants_are_built_within_their_bounds() {
    assert_eq!(build_variant(DataType::Uint8, &json("255")), Ok(Variant::Byte(255)));
    assert_eq!(build_variant(DataType::Int64, &json("\"-5\"")), Ok(Variant::Int64(-5)));
    assert_eq!(build_variant(DataType::String, &json("\"x\"")), Ok(Variant::String("x".into())));
    assert!(build_variant(DataType::Uint32, &json("\"x\"")).is_err());
    assert!(build_variant(DataType::Bytes, &json("1")).is_err());
}

#[test]
fn big_uint64_is_text() {
    assert_eq!(uint64_value(u64::MAX), Value::Text(u64::MAX.to_string()));
    assert_eq!(uint64_value(MAX_SAFE_INT as u64), Value::Number(float(MAX_SAFE_INT as f64)));
    assert_eq!(int64_value(-MAX_SAFE_INT - 1), Value::Text((-MAX_SAFE_INT - 1).to_string()));
}

#[test]
fn integers_are_read_from_numbers_and_texts() {
    assert_eq!(int_from_json(&json("-3")), Some(-3));
    assert_eq!(int_from_json(&json("\"-3\"")), Some(-3));
    assert_eq!(int_from_json(&json("\"three\"")), None);
    assert_eq!(uint_from_json(&json("\"18446744073709551615\"")), Some(u64::MAX));
    assert_eq!(uint_from_json(&json("-1")), None);
}

#[test]
fn opcua_datetime_roundtrip() {
    let dt = opcua::types::DateTime::ymd_hms(2026, 7, 1, 12, 30, 45);
    let ts = opcua_datetime_to_ts(dt.ticks()).unwrap();
    let ts = time::OffsetDateTime::from_unix_timestamp_nanos(ts).unwrap();
    assert_eq!(ts.year(), 2026);
    assert_eq!(u8::from(ts.month()), 7);
    assert_eq!(ts.day(), 1);
    assert_eq!((ts.hour(), ts.minute(), ts.second()), (12, 30, 45));
}

#[test]
fn opcua_datetime_null_is_none() {
    assert!(opcua_datetime_to_ts(opcua::types::DateTime::null().ticks()).is_none());
}

#[test]
fn data_value_ts_prefers_source_timestamp() {
    let source = opcua::types::DateTime::ymd_hms(2026, 1, 2, 3, 4, 5);
    let server = opcua::types::DateTime::ymd_hms(2026, 6, 7, 8, 9, 10);
    let ts = data_value_ts(Some(source.ticks()), Some(server.ticks()), 0);
    let ts = time::OffsetDateTime::from_unix_timestamp_nanos(ts).unwrap();
    assert_eq!((ts.year(), u8::from(ts.month()), ts.day()), (2026, 1, 2));
}

#[test]
fn data_value_ts_falls_back_to_now() {
    let before = time::OffsetDateTime::now_utc().unix_timestamp_nanos();
    let ts = data_value_ts(None, None, time::OffsetDateTime::now_utc().unix_timestamp_nanos());
    assert!(ts >= before);
    let server = opcua::types::DateTime::ymd_hms(2026, 6, 7, 8, 9, 10);
    assert_ne!(data_value_ts(None, Some(server.ticks()), 0), 0);
}
