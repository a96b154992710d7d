//! Whether a reading is what the contract asks for, and what the device holds.
use crate::conformance::{CheckedView, Point};
use crate::inspect::{show_value, shown_value};
use crate::json::{member, printed, text_member, Json, JsonView};
use crate::model::{hex_grouped, hex_text, Sample, Value};
use crate::report::{finding_of, note_wrong, wrong, Finding};
use crate::text::{concat2, concat3, join, joined, same_text, text_of, texts};
use vstd::prelude::*;
use vstd::utf8::encode_utf8;

verus! {

/// What a reading's value has to be, and whether it agrees with what is there. Numbers agree
/// within a tolerance.
pub struct Expectation {
    pub value: Value,
    pub agrees: bool,
}

/// What a device holds for a point.
pub enum Truth {
    /// The bytes, how they are grouped, and what they decode to: nothing, for a raw point.
    Data { bytes: Vec<u8>, group: usize, value: Result<Option<Expectation>, String> },
    /// It holds nothing.
    Missing(String),
}

/// The value under a key, or null.
pub open spec fn under(json: JsonView, key: Seq<char>) -> JsonView {
    match member(json, key) {
        Some(v) => v,
        None => JsonView::Null,
    }
}

fn get_or_null(json: &Json, key: &str) -> (r: Json)
    ensures
        r@ == under(json@, key@),
{
    match json.get(key) {
        Some(v) => v.clone(),
        None => Json::null(),
    }
}

/// What is wrong with a text that a reading has to echo.
pub open spec fn echo_errors(json: JsonView, key: Seq<char>, what: Seq<char>, want: Seq<char>) -> Seq<
    Seq<char>,
> {
    wrong(text_member(json, key) != Some(want), what + shown_value(under(json, key)))
}

fn note_echo(errors: &mut Vec<String>, json: &Json, key: &str, what: &str, want: &str)
    ensures
        texts(final(errors)@) == texts(old(errors)@) + echo_errors(json@, key@, what@, want@),
{
    let bad: bool = match json.get_str(key) {
        Some(s) => !same_text(s, want),
        None => true,
    };
    let shown: String = show_value(&get_or_null(json, key));
    note_wrong(errors, bad, concat2(what, shown.as_str()));
}

/// A time as a reading has to write it: to the millisecond, in UTC. By its bytes: long enough,
/// with a full stop behind the seconds and a `Z` at the end.
pub open spec fn good_time(s: Seq<char>) -> bool {
    let b = encode_utf8(s);
    b.len() >= 24 && b[19] == 46 && b.last() == 90
}

fn is_good_time(s: &str) -> (r: bool)
    ensures
        r == good_time(s@),
{
    let b: &[u8] = s.as_bytes();
    b.len() >= 24 && b[19] == 46 && b[b.len() - 1] == 90
}

/// The text of a time, or none.
pub open spec fn time_of(json: JsonView) -> Seq<char> {
    match text_member(json, "ts"@) {
        Some(t) => t,
        None => Seq::empty(),
    }
}

/// What is wrong with what every reading carries.
pub open spec fn head_errors(p: CheckedView, protocol: Seq<char>, json: JsonView) -> Seq<Seq<char>> {
    echo_errors(json, "device"@, "device echo: "@, p.device) + echo_errors(
        json,
        "point"@,
        "point echo: "@,
        p.id,
    ) + echo_errors(json, "protocol"@, "protocol echo: "@, protocol) + echo_errors(
        json,
        "mode"@,
        "mode: expected '"@ + p.mode.label() + "', got "@,
        p.mode.label(),
    ) + wrong(
        !good_time(time_of(json)),
        "ts must be RFC 3339 with millisecond precision and 'Z': got '"@ + time_of(json) + "'"@,
    )
}

fn note_head(errors: &mut Vec<String>, p: &Point, protocol: &str, json: &Json)
    ensures
        texts(final(errors)@) == texts(old(errors)@) + head_errors(p@, protocol@, json@),
{
    let ghost before = texts(errors@);
    note_echo(errors, json, "device", "device echo: ", p.device.as_str());
    note_echo(errors, json, "point", "point echo: ", p.id.as_str());
    note_echo(errors, json, "protocol", "protocol echo: ", protocol);
    let mode: &str = p.mode.as_str();
    let what: String = concat3("mode: expected '", mode, "', got ");
    note_echo(errors, json, "mode", what.as_str(), mode);
    let ts: String = match json.get_str("ts") {
        Some(t) => t.to_owned(),
        None => String::new(),
    };
    let text: String = concat3(
        "ts must be RFC 3339 with millisecond precision and 'Z': got '",
        ts.as_str(),
        "'",
    );
    note_wrong(errors, !is_good_time(ts.as_str()), text);
    assert(texts(errors@) =~= before + head_errors(p@, protocol@, json@));
}

/// What is wrong with a reading of a point that cannot be read.
pub open spec fn bad_errors(json: JsonView) -> Seq<Seq<char>> {
    echo_errors(json, "quality"@, "quality: expected 'bad', got "@, "bad"@) + wrong(
        match text_member(json, "error"@) {
            Some(e) => e.len() == 0,
            None => true,
        },
        "a bad sample must carry a non-empty 'error'"@,
    ) + wrong(under(json, "value"@) !is Null, "a bad sample must not carry a 'value'"@)
}

fn is_null(v: &Json) -> (r: bool)
    ensures
        r == (v@ is Null),
{
    proof {
        v.lemma_view();
    }
    match v {
        Json::Null => true,
        _ => false,
    }
}

fn note_bad(errors: &mut Vec<String>, json: &Json)
    ensures
        texts(final(errors)@) == texts(old(errors)@) + bad_errors(json@),
{
    let ghost before = texts(errors@);
    note_echo(errors, json, "quality", "quality: expected 'bad', got ", "bad");
    let silent: bool = match json.get_str("error") {
        Some(e) => e.is_empty(),
        None => true,
    };
    note_wrong(errors, silent, "a bad sample must carry a non-empty 'error'".to_owned());
    let valued: bool = !is_null(&get_or_null(json, "value"));
    note_wrong(errors, valued, "a bad sample must not carry a 'value'".to_owned());
    assert(texts(errors@) =~= before + bad_errors(json@));
}

/// The kind of a value, where a reading can carry it.
pub open spec fn value_kind(v: JsonView) -> Option<Seq<char>> {
    match v {
        JsonView::Bool(_) => Some("boolean"@),
        JsonView::Number(_) => Some("number"@),
        JsonView::Text(_) => Some("string"@),
        _ => None,
    }
}

fn kind_of(v: &Json) -> (r: Option<&'static str>)
    ensures
        crate::text::str_of(r) == value_kind(v@),
{
    proof {
        v.lemma_view();
    }
    match v {
        Json::Bool(_) => Some("boolean"),
        Json::Number(_) => Some("number"),
        Json::Text(_) => Some("string"),
        _ => None,
    }
}

/// What is wrong with the kind of a value.
pub open spec fn kind_errors(v: JsonView, want: Seq<char>) -> Seq<Seq<char>> {
    match value_kind(v) {
        None => seq!["value has no usable JSON type: "@ + printed(v)],
        Some(kind) => wrong(
            kind != want,
            "value JSON type: expected '"@ + want + "', got '"@ + kind + "'"@,
        ),
    }
}

fn note_kind(errors: &mut Vec<String>, v: &Json, want: &str)
    ensures
        texts(final(errors)@) == texts(old(errors)@) + kind_errors(v@, want@),
{
    match kind_of(v) {
        None => {
            let shown: String = v.print();
            note_wrong(errors, true, concat2("value has no usable JSON type: ", shown.as_str()));
        },
        Some(kind) => {
            let mut text: String = concat3("value JSON type: expected '", want, "', got '");
            text.append(kind);
            text.append("'");
            note_wrong(errors, !same_text(kind, want), text);
        },
    }
}

/// What is wrong with the datatype of a reading.
pub open spec fn datatype_errors(p: CheckedView, json: JsonView) -> Seq<Seq<char>> {
    match p.datatype {
        Some(dt) => echo_errors(
            json,
            "datatype"@,
            "datatype: expected "@ + printed(JsonView::Text(dt.label())) + ", got "@,
            dt.label(),
        ),
        None => Seq::empty(),
    }
}

fn note_datatype(errors: &mut Vec<String>, p: &Point, json: &Json)
    ensures
        texts(final(errors)@) == texts(old(errors)@) + datatype_errors(p@, json@),
{
    let ghost before = texts(errors@);
    match p.datatype {
        Some(dt) => {
            let shown: String = Json::text(dt.as_str()).print();
            let what: String = concat3("datatype: expected ", shown.as_str(), ", got ");
            note_echo(errors, json, "datatype", what.as_str(), dt.as_str());
        },
        None => {
            assert(before + Seq::<Seq<char>>::empty() =~= before);
        },
    }
}

/// What is wrong with the value of a reading.
pub open spec fn value_errors(
    p: CheckedView,
    json: JsonView,
    want: Result<Option<Expectation>, String>,
) -> Seq<Seq<char>> {
    let v = under(json, "value"@);
    match want {
        Ok(Some(e)) => wrong(
            !e.agrees,
            "value: expected "@ + printed(e.value.json()) + ", got "@ + printed(v),
        ) + kind_errors(v, e.value.kind()) + datatype_errors(p, json),
        Ok(None) => wrong(v !is Null, "raw mode must not carry a value"@),
        Err(e) => seq![e@],
    }
}

fn note_value(
    errors: &mut Vec<String>,
    p: &Point,
    json: &Json,
    want: &Result<Option<Expectation>, String>,
)
    ensures
        texts(final(errors)@) == texts(old(errors)@) + value_errors(p@, json@, *want),
{
    let ghost before = texts(errors@);
    let v: Json = get_or_null(json, "value");
    match want {
        Ok(Some(e)) => {
            let wanted: String = e.value.to_json().print();
            let got: String = v.print();
            let mut text: String = concat3("value: expected ", wanted.as_str(), ", got ");
            text.append(got.as_str());
            note_wrong(errors, !e.agrees, text);
            note_kind(errors, &v, e.value.repr());
            note_datatype(errors, p, json);
            assert(texts(errors@) =~= before + value_errors(p@, json@, *want));
        },
        Ok(None) => {
            note_wrong(errors, !is_null(&v), "raw mode must not carry a value".to_owned());
        },
        Err(e) => {
            note_wrong(errors, true, e.clone());
        },
    }
}

/// How bytes are grouped: at least one to a group.
pub open spec fn grouping(group: usize) -> int {
    if group == 0 {
        1
    } else {
        group as int
    }
}

/// What is wrong with a reading by what the device holds.
pub open spec fn truth_errors(p: CheckedView, json: JsonView, truth: Truth) -> Seq<Seq<char>> {
    match truth {
        Truth::Missing(e) => seq!["simulator has no data for the point: "@ + e@],
        Truth::Data { bytes, group, value } => {
            let raw = hex_text(bytes@, grouping(group));
            echo_errors(json, "raw"@, "raw: expected '"@ + raw + "', got "@, raw) + value_errors(
                p,
                json,
                value,
            )
        },
    }
}

fn note_truth(errors: &mut Vec<String>, p: &Point, json: &Json, truth: &Truth)
    ensures
        texts(final(errors)@) == texts(old(errors)@) + truth_errors(p@, json@, *truth),
{
    let ghost before = texts(errors@);
    match truth {
        Truth::Missing(e) => {
            note_wrong(
                errors,
                true,
                concat2("simulator has no data for the point: ", e.as_str()),
            );
        },
        Truth::Data { bytes, group, value } => {
            let raw: String = hex_grouped(bytes.as_slice(), *group);
            let what: String = concat3("raw: expected '", raw.as_str(), "', got ");
            note_echo(errors, json, "raw", what.as_str(), raw.as_str());
            note_value(errors, p, json, value);
            assert(texts(errors@) =~= before + truth_errors(p@, json@, *truth));
        },
    }
}

/// What is wrong with a key that no reading carries, for a manifest does.
pub open spec fn static_errors(json: JsonView, key: Seq<char>) -> Seq<Seq<char>> {
    let v = under(json, key);
    wrong(
        v !is Null,
        "a 0.2 sample must not echo '"@ + key + "' (it belongs on the manifest): got "@ + printed(
            v,
        ),
    )
}

fn note_static(errors: &mut Vec<String>, json: &Json, key: &str)
    ensures
        texts(final(errors)@) == texts(old(errors)@) + static_errors(json@, key@),
{
    let v: Json = get_or_null(json, key);
    let shown: String = v.print();
    let mut text: String = concat3(
        "a 0.2 sample must not echo '",
        key,
        "' (it belongs on the manifest): got ",
    );
    text.append(shown.as_str());
    note_wrong(errors, !is_null(&v), text);
}

/// What is wrong with the keys that no reading carries.
pub open spec fn all_static_errors(json: JsonView) -> Seq<Seq<char>> {
    static_errors(json, "unit"@) + static_errors(json, "meta"@) + static_errors(json, "access"@)
        + static_errors(json, "type"@) + static_errors(json, "value_repr"@) + static_errors(
        json,
        "ts_ms"@,
    )
}

fn note_all_static(errors: &mut Vec<String>, json: &Json)
    ensures
        texts(final(errors)@) == texts(old(errors)@) + all_static_errors(json@),
{
    let ghost before = texts(errors@);
    note_static(errors, json, "unit");
    note_static(errors, json, "meta");
    note_static(errors, json, "access");
    note_static(errors, json, "type");
    note_static(errors, json, "value_repr");
    note_static(errors, json, "ts_ms");
    proof {
        crate::conformance_manifest::six_in_turn(
            before,
            static_errors(json@, "unit"@),
            static_errors(json@, "meta"@),
            static_errors(json@, "access"@),
            static_errors(json@, "type"@),
            static_errors(json@, "value_repr"@),
            static_errors(json@, "ts_ms"@),
        );
    }
}

/// What is wrong with a reading of a point that can be read.
pub open spec fn good_errors(p: CheckedView, json: JsonView, truth: Truth) -> Seq<Seq<char>> {
    echo_errors(json, "quality"@, "quality: expected 'good', got "@, "good"@) + truth_errors(
        p,
        json,
        truth,
    ) + all_static_errors(json)
}

fn note_good(errors: &mut Vec<String>, p: &Point, json: &Json, truth: &Truth)
    ensures
        texts(final(errors)@) == texts(old(errors)@) + good_errors(p@, json@, *truth),
{
    let ghost before = texts(errors@);
    note_echo(errors, json, "quality", "quality: expected 'good', got ", "good");
    note_truth(errors, p, json, truth);
    note_all_static(errors, json);
    assert(texts(errors@) =~= before + good_errors(p@, json@, *truth));
}

/// What is wrong with a reading.
pub open spec fn sample_errors(
    p: CheckedView,
    protocol: Seq<char>,
    invalid: bool,
    json: JsonView,
    truth: Truth,
) -> Seq<Seq<char>> {
    head_errors(p, protocol, json) + if invalid {
        bad_errors(json)
    } else {
        good_errors(p, json, truth)
    }
}

/// What a check of a reading finds.
pub open spec fn sample_finding(
    p: CheckedView,
    protocol: Seq<char>,
    invalid: bool,
    retain: bool,
    json: JsonView,
    schema: Option<Seq<char>>,
    truth: Truth,
) -> Result<Option<Seq<char>>, Seq<char>> {
    match schema {
        Some(e) => Err("sample schema violation: "@ + e),
        None => if retain {
            Err("samples must not be retained"@)
        } else {
            let errors = sample_errors(p, protocol, invalid, json, truth);
            if errors.len() == 0 {
                Ok(None)
            } else {
                Err(joined(errors, "\n"@))
            }
        },
    }
}

/// Checks a reading: against its schema, of which `schema` is what it finds wrong; against its
/// point; and against what the device holds. `invalid` is whether the point cannot be read.
pub fn assert_sample(
    p: &Point,
    protocol: &str,
    invalid: bool,
    retain: bool,
    json: &Json,
    schema: Option<String>,
    truth: &Truth,
) -> (r: Finding)
    ensures
        finding_of(r) == sample_finding(
            p@,
            protocol@,
            invalid,
            retain,
            json@,
            text_of(schema),
            *truth,
        ),
{
    if let Some(e) = schema {
        return Err(concat2("sample schema violation: ", e.as_str()));
    }
    if retain {
        return Err("samples must not be retained".to_owned());
    }
    let mut errors: Vec<String> = Vec::new();
    assert(texts(errors@) =~= Seq::<Seq<char>>::empty());
    note_head(&mut errors, p, protocol, json);
    if invalid {
        note_bad(&mut errors, json);
    } else {
        note_good(&mut errors, p, json, truth);
    }
    assert(texts(errors@) =~= sample_errors(p@, protocol@, invalid, json@, *truth));
    assert(texts(errors@).len() == errors@.len());
    if errors.len() == 0 {
        Ok(None)
    } else {
        Err(join(&errors, "\n"))
    }
}

/// A reading that is taken says what point it is of, and has the quality that it has to have.
pub proof fn taken_readings_are_of_their_point(
    p: CheckedView,
    protocol: Seq<char>,
    invalid: bool,
    retain: bool,
    json: JsonView,
    schema: Option<Seq<char>>,
    truth: Truth,
)
    requires
        sample_finding(p, protocol, invalid, retain, json, schema, truth) is Ok,
    ensures
        text_member(json, "device"@) == Some(p.device),
        text_member(json, "point"@) == Some(p.id),
        text_member(json, "protocol"@) == Some(protocol),
        text_member(json, "quality"@) == Some(
            if invalid {
                "bad"@
            } else {
                "good"@
            },
        ),
{
    let errors = sample_errors(p, protocol, invalid, json, truth);
    assert(errors.len() == 0);
    assert(head_errors(p, protocol, json).len() == 0);
    if invalid {
        assert(bad_errors(json).len() == 0);
    } else {
        assert(good_errors(p, json, truth).len() == 0);
    }
}

/// The envelope of a sample says what it is of and how good it is, and holds nothing that belongs
/// on the manifest.
pub proof fn envelopes_say_what_they_are_of(s: Sample, debug: bool)
    ensures
        ({
            let json = JsonView::Object(s.envelope_fields(debug));
            &&& text_member(json, "device"@) == Some(s.device@)
            &&& text_member(json, "point"@) == Some(s.point@)
            &&& text_member(json, "protocol"@) == Some(s.protocol@)
            &&& text_member(json, "quality"@) == Some(s.quality.label())
            &&& all_static_errors(json) == Seq::<Seq<char>>::empty()
        }),
{
    broadcast use crate::keyed::field_once_set;

    let json = JsonView::Object(s.envelope_fields(debug));
    reveal_strlit("ts");
    reveal_strlit("device");
    reveal_strlit("protocol");
    reveal_strlit("point");
    reveal_strlit("datatype");
    reveal_strlit("value");
    reveal_strlit("quality");
    reveal_strlit("seq");
    reveal_strlit("error");
    reveal_strlit("raw");
    reveal_strlit("addr");
    reveal_strlit("unit");
    reveal_strlit("meta");
    reveal_strlit("access");
    reveal_strlit("type");
    reveal_strlit("value_repr");
    reveal_strlit("ts_ms");
    assert("ts"@.len() == 2 && "seq"@.len() == 3 && "raw"@.len() == 3 && "quality"@.len() == 7
        && "value_repr"@.len() == 10);
    assert("device"@.len() == 6 && "device"@[0] == 'd');
    assert("access"@.len() == 6 && "access"@[0] == 'a');
    assert("protocol"@.len() == 8 && "protocol"@[0] == 'p');
    assert("datatype"@.len() == 8 && "datatype"@[0] == 'd');
    assert("point"@.len() == 5 && "point"@[0] == 'p');
    assert("value"@.len() == 5 && "value"@[0] == 'v');
    assert("error"@.len() == 5 && "error"@[0] == 'e');
    assert("ts_ms"@.len() == 5 && "ts_ms"@[0] == 't');
    assert("unit"@.len() == 4 && "unit"@[0] == 'u');
    assert("meta"@.len() == 4 && "meta"@[0] == 'm');
    assert("type"@.len() == 4 && "type"@[0] == 't');
    assert("addr"@.len() == 4 && "addr"@[0] == 'a');
    assert(under(json, "unit"@) is Null);
    assert(under(json, "meta"@) is Null);
    assert(under(json, "access"@) is Null);
    assert(under(json, "type"@) is Null);
    assert(under(json, "value_repr"@) is Null);
    assert(under(json, "ts_ms"@) is Null);
    assert(all_static_errors(json) =~= Seq::<Seq<char>>::empty());
}

/// Whether a reading says what point it is of, how it is read, and when, as it has to.
pub open spec fn heads_right(p: CheckedView, protocol: Seq<char>, json: JsonView) -> bool {
    &&& text_member(json, "device"@) == Some(p.device)
    &&& text_member(json, "point"@) == Some(p.id)
    &&& text_member(json, "protocol"@) == Some(protocol)
    &&& text_member(json, "mode"@) == Some(p.mode.label())
    &&& text_member(json, "ts"@) matches Some(t) && good_time(t)
}

/// Whether a key is missing or null.
pub open spec fn lacks(json: JsonView, key: Seq<char>) -> bool {
    match member(json, key) {
        Some(v) => v is Null,
        None => true,
    }
}

/// Whether a value is of a kind of values.
pub open spec fn of_kind(v: JsonView, e: Value) -> bool {
    match e {
        Value::Bool(_) => v is Bool,
        Value::Number(_) | Value::NonFinite(_) => v is Number,
        Value::Text(_) => v is Text,
    }
}

/// Whether a reading holds what the device holds.
pub open spec fn holds_truth(p: CheckedView, json: JsonView, truth: Truth) -> bool {
    match truth {
        Truth::Missing(_) => false,
        Truth::Data { bytes, group, value } => {
            &&& text_member(json, "raw"@) == Some(hex_text(bytes@, grouping(group)))
            &&& match value {
                Ok(Some(e)) => {
                    &&& e.agrees
                    &&& member(json, "value"@) matches Some(v) && of_kind(v, e.value)
                    &&& p.datatype matches Some(dt) ==> text_member(json, "datatype"@) == Some(
                        dt.label(),
                    )
                },
                Ok(None) => lacks(json, "value"@),
                Err(_) => false,
            }
        },
    }
}

proof fn kinds_are_told_apart(v: JsonView, e: Value)
    ensures
        kind_errors(v, e.kind()).len() == 0 <==> of_kind(v, e),
{
    reveal_strlit("boolean");
    reveal_strlit("number");
    reveal_strlit("string");
    assert("boolean"@.len() == 7 && "number"@.len() == 6 && "string"@.len() == 6);
    assert("number"@[0] == 'n' && "string"@[0] == 's');
}

proof fn empty_text_is_no_time(json: JsonView)
    ensures
        text_member(json, "ts"@) is None ==> !good_time(time_of(json)),
{
    if text_member(json, "ts"@) is None {
        assert(encode_utf8(Seq::<char>::empty()).len() == 0);
    }
}

/// A reading is taken where, and only where, it keeps to its schema, is not kept by the broker,
/// and says what it has to: of a point that cannot be read that it is bad and why, of another
/// what the device holds and nothing that belongs on the manifest.
pub proof fn readings_are_taken_where_they_are_right(
    p: CheckedView,
    protocol: Seq<char>,
    invalid: bool,
    retain: bool,
    json: JsonView,
    schema: Option<Seq<char>>,
    truth: Truth,
)
    ensures
        sample_finding(p, protocol, invalid, retain, json, schema, truth) is Ok <==> {
            &&& schema is None
            &&& !retain
            &&& heads_right(p, protocol, json)
            &&& invalid ==> {
                &&& text_member(json, "quality"@) == Some("bad"@)
                &&& text_member(json, "error"@) matches Some(e) && e.len() > 0
                &&& lacks(json, "value"@)
            }
            &&& !invalid ==> {
                &&& text_member(json, "quality"@) == Some("good"@)
                &&& holds_truth(p, json, truth)
                &&& lacks(json, "unit"@) && lacks(json, "meta"@) && lacks(json, "access"@)
                &&& lacks(json, "type"@) && lacks(json, "value_repr"@) && lacks(json, "ts_ms"@)
            }
        },
{
    empty_text_is_no_time(json);
    let errors = sample_errors(p, protocol, invalid, json, truth);
    let head = head_errors(p, protocol, json);
    assert(head.len() == 0 <==> heads_right(p, protocol, json));
    if invalid {
        assert(errors.len() == head.len() + bad_errors(json).len());
    } else {
        assert(errors.len() == head.len() + good_errors(p, json, truth).len());
        if let Truth::Data { bytes, group, value } = truth {
            if let Ok(Some(e)) = value {
                kinds_are_told_apart(under(json, "value"@), e.value);
            }
        }
        assert(truth_errors(p, json, truth).len() == 0 <==> holds_truth(p, json, truth));
    }
}

} // verus!
