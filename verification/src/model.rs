//! What a connector reads and publishes: datatypes, values, quality and the sample envelope.
use crate::json::{
    text_view, view_of, with_optional, Fields, Json, JsonNumber, JsonObject, JsonView, Numeral,
};
use crate::keyed::{field, with_field};
use crate::text::{as_deref, decimal_text, text_of};
use vstd::prelude::*;

verus! {

/// How a point is published: as the bytes that were read, or as a value.
#[derive(Clone, Copy, Debug, PartialEq, Eq, Structural)]
pub enum Mode {
    Raw,
    Typed,
}

impl Mode {
    pub open spec fn label(self) -> Seq<char> {
        match self {
            Mode::Raw => "raw"@,
            Mode::Typed => "typed"@,
        }
    }

    /// The name of the mode.
    pub fn as_str(self) -> (r: &'static str)
        ensures
            r@ == self.label(),
    {
        match self {
            Mode::Raw => "raw",
            Mode::Typed => "typed",
        }
    }
}

/// The datatypes that a point may declare.
#[derive(Clone, Copy, Debug, PartialEq, Eq, Structural)]
pub enum DataType {
    Bool,
    Int8,
    Uint8,
    Int16,
    Uint16,
    Int32,
    Uint32,
    Int64,
    Uint64,
    Float32,
    Float64,
    String,
    Bytes,
}

impl DataType {
    /// How wide a value is, in bytes: not of `String` and `Bytes`, which have no one width.
    pub open spec fn width(self) -> Option<nat> {
        match self {
            DataType::Bool | DataType::Int8 | DataType::Uint8 => Some(1),
            DataType::Int16 | DataType::Uint16 => Some(2),
            DataType::Int32 | DataType::Uint32 | DataType::Float32 => Some(4),
            DataType::Int64 | DataType::Uint64 | DataType::Float64 => Some(8),
            DataType::String | DataType::Bytes => None,
        }
    }

    /// An integer datatype.
    pub open spec fn integral(self) -> bool {
        match self {
            DataType::Int8
            | DataType::Uint8
            | DataType::Int16
            | DataType::Uint16
            | DataType::Int32
            | DataType::Uint32
            | DataType::Int64
            | DataType::Uint64 => true,
            _ => false,
        }
    }

    /// The least and the greatest whole number that the datatype holds.
    pub open spec fn bounds(self) -> Option<(int, int)> {
        match self {
            DataType::Int8 => Some((-0x80, 0x7f)),
            DataType::Uint8 => Some((0, 0xff)),
            DataType::Int16 => Some((-0x8000, 0x7fff)),
            DataType::Uint16 => Some((0, 0xffff)),
            DataType::Int32 => Some((-0x8000_0000, 0x7fff_ffff)),
            DataType::Uint32 => Some((0, 0xffff_ffff)),
            DataType::Int64 => Some((-0x8000_0000_0000_0000, 0x7fff_ffff_ffff_ffff)),
            DataType::Uint64 => Some((0, 0xffff_ffff_ffff_ffff)),
            _ => None,
        }
    }

    /// The name of the datatype on the wire and in a configuration.
    pub open spec fn label(self) -> Seq<char> {
        match self {
            DataType::Bool => "bool"@,
            DataType::Int8 => "int8"@,
            DataType::Uint8 => "uint8"@,
            DataType::Int16 => "int16"@,
            DataType::Uint16 => "uint16"@,
            DataType::Int32 => "int32"@,
            DataType::Uint32 => "uint32"@,
            DataType::Int64 => "int64"@,
            DataType::Uint64 => "uint64"@,
            DataType::Float32 => "float32"@,
            DataType::Float64 => "float64"@,
            DataType::String => "string"@,
            DataType::Bytes => "bytes"@,
        }
    }

    /// How many bytes a value occupies.
    pub fn byte_len(self) -> (r: Option<usize>)
        ensures
            match r {
                Some(n) => self.width() == Some(n as nat),
                None => self.width() is None,
            },
    {
        match self {
            DataType::Bool | DataType::Int8 | DataType::Uint8 => Some(1),
            DataType::Int16 | DataType::Uint16 => Some(2),
            DataType::Int32 | DataType::Uint32 | DataType::Float32 => Some(4),
            DataType::Int64 | DataType::Uint64 | DataType::Float64 => Some(8),
            DataType::String | DataType::Bytes => None,
        }
    }

    /// Whether the wire value must be a whole number.
    pub fn is_integer(self) -> (r: bool)
        ensures
            r == self.integral(),
    {
        match self {
            DataType::Int8
            | DataType::Uint8
            | DataType::Int16
            | DataType::Uint16
            | DataType::Int32
            | DataType::Uint32
            | DataType::Int64
            | DataType::Uint64 => true,
            _ => false,
        }
    }

    /// The range of the wire values that the datatype holds, both ends among them. None for the
    /// datatypes that are no numbers.
    pub fn value_range(self) -> (r: Option<ValueRange>)
        ensures
            match r {
                Some(ValueRange::Whole { low, high }) => self.bounds() == Some(
                    (low as int, high as int),
                ),
                Some(ValueRange::Single) => self == DataType::Float32,
                Some(ValueRange::Double) => self == DataType::Float64,
                None => self == DataType::Bool || self == DataType::String || self
                    == DataType::Bytes,
            },
    {
        match self {
            DataType::Int8 => Some(ValueRange::Whole { low: -0x80, high: 0x7f }),
            DataType::Uint8 => Some(ValueRange::Whole { low: 0, high: 0xff }),
            DataType::Int16 => Some(ValueRange::Whole { low: -0x8000, high: 0x7fff }),
            DataType::Uint16 => Some(ValueRange::Whole { low: 0, high: 0xffff }),
            DataType::Int32 => Some(ValueRange::Whole { low: -0x8000_0000, high: 0x7fff_ffff }),
            DataType::Uint32 => Some(ValueRange::Whole { low: 0, high: 0xffff_ffff }),
            DataType::Int64 => Some(
                ValueRange::Whole { low: -0x8000_0000_0000_0000, high: 0x7fff_ffff_ffff_ffff },
            ),
            DataType::Uint64 => Some(ValueRange::Whole { low: 0, high: 0xffff_ffff_ffff_ffff }),
            DataType::Float32 => Some(ValueRange::Single),
            DataType::Float64 => Some(ValueRange::Double),
            DataType::Bool | DataType::String | DataType::Bytes => None,
        }
    }

    /// The name of the datatype.
    pub fn as_str(self) -> (r: &'static str)
        ensures
            r@ == self.label(),
    {
        match self {
            DataType::Bool => "bool",
            DataType::Int8 => "int8",
            DataType::Uint8 => "uint8",
            DataType::Int16 => "int16",
            DataType::Uint16 => "uint16",
            DataType::Int32 => "int32",
            DataType::Uint32 => "uint32",
            DataType::Int64 => "int64",
            DataType::Uint64 => "uint64",
            DataType::Float32 => "float32",
            DataType::Float64 => "float64",
            DataType::String => "string",
            DataType::Bytes => "bytes",
        }
    }
}

/// A range of wire values: whole numbers from one to another, or all that a float of single or of
/// double precision holds.
#[derive(Clone, Copy, Debug, PartialEq, Eq)]
pub enum ValueRange {
    Whole { low: i128, high: i128 },
    Single,
    Double,
}

/// How many values so many bytes tell apart.
pub open spec fn patterns(bytes: nat) -> int
    decreases bytes,
{
    if bytes == 0 {
        1
    } else {
        0x100 * patterns((bytes - 1) as nat)
    }
}

/// The integer datatypes are the ones with bounds, and between its bounds each has one number for
/// every pattern of its bytes.
pub proof fn integers_fill_their_bytes(d: DataType)
    ensures
        d.integral() <==> d.bounds() is Some,
        d.bounds() matches Some((low, high)) ==> high - low + 1 == patterns(d.width()->0),
{
    reveal_with_fuel(patterns, 9);
}

/// A number datatype is named by what it holds: the integers from zero on are `uint`, the others
/// `int`, and floats `float`, each with its bits; half of the numbers of an `int` are below zero.
pub proof fn datatypes_are_named_by_what_they_hold(d: DataType)
    ensures
        ({
            let bits = decimal_text(8 * d.width()->0);
            &&& d.bounds() matches Some((low, high)) ==> if low == 0 {
                d.label() == "uint"@ + bits
            } else {
                d.label() == "int"@ + bits && low == -(high + 1)
            }
            &&& d == DataType::Float32 || d == DataType::Float64 ==> d.label() == "float"@ + bits
            &&& d.bounds() is None && d.width() is Some ==> d.label() == "bool"@ || d
                == DataType::Float32 || d == DataType::Float64
        }),
{
    reveal_with_fuel(decimal_text, 3);
    reveal_strlit("int8");
    reveal_strlit("uint8");
    reveal_strlit("int16");
    reveal_strlit("uint16");
    reveal_strlit("int32");
    reveal_strlit("uint32");
    reveal_strlit("int64");
    reveal_strlit("uint64");
    reveal_strlit("float32");
    reveal_strlit("float64");
    reveal_strlit("int");
    reveal_strlit("uint");
    reveal_strlit("float");
    match d {
        DataType::Int8 => assert(d.label() =~= "int"@ + decimal_text(8)),
        DataType::Uint8 => assert(d.label() =~= "uint"@ + decimal_text(8)),
        DataType::Int16 => assert(d.label() =~= "int"@ + decimal_text(16)),
        DataType::Uint16 => assert(d.label() =~= "uint"@ + decimal_text(16)),
        DataType::Int32 => assert(d.label() =~= "int"@ + decimal_text(32)),
        DataType::Uint32 => assert(d.label() =~= "uint"@ + decimal_text(32)),
        DataType::Int64 => assert(d.label() =~= "int"@ + decimal_text(64)),
        DataType::Uint64 => assert(d.label() =~= "uint"@ + decimal_text(64)),
        DataType::Float32 => assert(d.label() =~= "float"@ + decimal_text(32)),
        DataType::Float64 => assert(d.label() =~= "float"@ + decimal_text(64)),
        _ => {},
    }
}

/// A float that JSON cannot write.
#[derive(Clone, Copy, Debug, PartialEq, Eq, Structural)]
pub enum NonFinite {
    NotANumber,
    Infinite,
    NegativeInfinite,
}

/// A decoded value. An integer that a consumer could not hold exactly comes as text.
#[derive(Debug, PartialEq)]
pub enum Value {
    Bool(bool),
    Number(JsonNumber),
    NonFinite(NonFinite),
    Text(String),
}

/// What a decoded value is.
#[verifier::ext_equal]
pub enum ValueView {
    Bool(bool),
    Number(Numeral),
    NonFinite(NonFinite),
    Text(Seq<char>),
}

impl View for Value {
    type V = ValueView;

    open spec fn view(&self) -> ValueView {
        match self {
            Value::Bool(b) => ValueView::Bool(*b),
            Value::Number(n) => ValueView::Number(n@),
            Value::NonFinite(x) => ValueView::NonFinite(*x),
            Value::Text(t) => ValueView::Text(t@),
        }
    }
}

/// What a value is, where there is one.
pub open spec fn value_view(v: Option<Value>) -> Option<ValueView> {
    match v {
        Some(x) => Some(x@),
        None => None,
    }
}

impl Value {
    /// The value in an envelope.
    pub open spec fn json(self) -> JsonView {
        match self {
            Value::Bool(b) => JsonView::Bool(b),
            Value::Number(n) => JsonView::Number(n@),
            Value::NonFinite(_) => JsonView::Null,
            Value::Text(t) => JsonView::Text(t@),
        }
    }

    /// What kind of value it is.
    pub open spec fn kind(self) -> Seq<char> {
        match self {
            Value::Bool(_) => "boolean"@,
            Value::Number(_) | Value::NonFinite(_) => "number"@,
            Value::Text(_) => "string"@,
        }
    }

    /// What kind of value it is.
    pub fn repr(&self) -> (r: &'static str)
        ensures
            r@ == self.kind(),
    {
        match self {
            Value::Bool(_) => "boolean",
            Value::Number(_) | Value::NonFinite(_) => "number",
            Value::Text(_) => "string",
        }
    }

    /// The value as it stands in an envelope.
    pub fn to_json(&self) -> (r: Json)
        ensures
            r@ == self.json(),
    {
        match self {
            Value::Bool(b) => Json::of_bool(*b),
            Value::Number(n) => Json::of_number(n.clone()),
            Value::NonFinite(_) => Json::null(),
            Value::Text(t) => Json::text(t.as_str()),
        }
    }
}

/// The value in an envelope, where there is one.
pub open spec fn value_json(v: Option<Value>) -> Option<JsonView> {
    match v {
        Some(x) => Some(x.json()),
        None => None,
    }
}

/// How a reading is to be taken.
#[derive(Clone, Copy, Debug, PartialEq, Eq, Structural)]
pub enum Quality {
    Good,
    Bad,
    Stale,
}

impl Quality {
    pub open spec fn label(self) -> Seq<char> {
        match self {
            Quality::Good => "good"@,
            Quality::Bad => "bad"@,
            Quality::Stale => "stale"@,
        }
    }

    pub fn as_str(self) -> (r: &'static str)
        ensures
            r@ == self.label(),
    {
        match self {
            Quality::Good => "good",
            Quality::Bad => "bad",
            Quality::Stale => "stale",
        }
    }
}

/// One reading.
#[derive(Debug, PartialEq)]
pub struct Sample {
    /// When it was taken, in nanoseconds since the start of 1970 in UTC.
    pub ts: i128,
    pub device: String,
    pub protocol: String,
    pub point: String,
    pub mode: Mode,
    pub datatype: Option<DataType>,
    pub value: Option<Value>,
    /// The bytes on the wire.
    pub raw: Vec<u8>,
    /// How many of those bytes make one group of their text.
    pub raw_group: usize,
    pub quality: Quality,
    pub unit: Option<String>,
    /// The address that was read, in the protocol's own terms.
    pub addr: Json,
    pub seq: Option<u64>,
    /// What went wrong, where the quality is bad.
    pub error: Option<String>,
}

/// The text of a point in time in UTC by a layout of the `time` crate, where the point in time
/// is one that the crate can hold.
pub uninterp spec fn utc_text(unix_nanos: int, layout: Seq<char>) -> Option<Seq<char>>;

/// `time::OffsetDateTime::from_unix_timestamp_nanos` and `format`, by a layout that
/// `time::format_description::parse_borrowed` reads: the text of that point in time in UTC.
#[verifier::external_body]
fn format_utc(unix_nanos: i128, layout: &str) -> (r: Option<String>)
    ensures
        match r {
            Some(t) => utc_text(unix_nanos as int, layout@) == Some(t@),
            None => utc_text(unix_nanos as int, layout@) is None,
        },
{
    let items = time::format_description::parse_borrowed::<1>(layout).ok()?;
    time::OffsetDateTime::from_unix_timestamp_nanos(unix_nanos).ok()?.format(&items).ok()
}

/// A point in time to the millisecond, in UTC.
pub open spec fn timestamp_text(unix_nanos: int) -> Seq<char> {
    match utc_text(
        unix_nanos,
        "[year]-[month]-[day]T[hour]:[minute]:[second].[subsecond digits:3]Z"@,
    ) {
        Some(t) => t,
        None => "1970-01-01T00:00:00.000Z"@,
    }
}

/// A point in time to the millisecond, in UTC; the start of 1970 where it cannot be written.
pub fn format_rfc3339_ms(unix_nanos: i128) -> (r: String)
    ensures
        r@ == timestamp_text(unix_nanos as int),
{
    match format_utc(
        unix_nanos,
        "[year]-[month]-[day]T[hour]:[minute]:[second].[subsecond digits:3]Z",
    ) {
        Some(t) => t,
        None => "1970-01-01T00:00:00.000Z".to_owned(),
    }
}

/// The hexadecimal digit of a value under sixteen.
pub open spec fn hex_digit(n: int) -> char {
    if n < 10 {
        (n + '0' as int) as char
    } else {
        (n - 10 + 'a' as int) as char
    }
}

/// Bytes in hexadecimal, with a space before each group of `group` but the first.
pub open spec fn hex_text(bytes: Seq<u8>, group: int) -> Seq<char>
    decreases bytes.len(),
{
    if bytes.len() == 0 {
        Seq::empty()
    } else {
        let i = bytes.len() - 1;
        let head = hex_text(bytes.drop_last(), group);
        let gap = if i > 0 && i % group == 0 {
            seq![' ']
        } else {
            Seq::empty()
        };
        let b = bytes.last() as int;
        head + gap + seq![hex_digit(b / 16), hex_digit(b % 16)]
    }
}

fn hex_char(n: u8) -> (r: char)
    requires
        n < 16,
    ensures
        r == hex_digit(n as int),
{
    match n {
        0 => '0',
        1 => '1',
        2 => '2',
        3 => '3',
        4 => '4',
        5 => '5',
        6 => '6',
        7 => '7',
        8 => '8',
        9 => '9',
        10 => 'a',
        11 => 'b',
        12 => 'c',
        13 => 'd',
        14 => 'e',
        _ => 'f',
    }
}

/// Bytes in lowercase hexadecimal, a space between each two groups of `group` bytes. A group of
/// none is a group of one.
pub fn hex_grouped(bytes: &[u8], group: usize) -> (r: String)
    ensures
        r@ == hex_text(
            bytes@,
            if group == 0 {
                1
            } else {
                group as int
            },
        ),
{
    let g: usize = if group == 0 {
        1
    } else {
        group
    };
    let mut out: String = String::new();
    let mut i: usize = 0;
    assert(bytes@.take(0) =~= Seq::<u8>::empty());
    while i < bytes.len()
        invariant
            i <= bytes@.len(),
            g >= 1,
            out@ == hex_text(bytes@.take(i as int), g as int),
        decreases bytes@.len() - i,
    {
        let ghost before = out@;
        assert(bytes@.take(i + 1).drop_last() =~= bytes@.take(i as int));
        assert(bytes@.take(i + 1).last() == bytes@[i as int]);
        if i > 0 && i % g == 0 {
            out.push(' ');
        }
        let b: u8 = bytes[i];
        out.push(hex_char(b / 16));
        out.push(hex_char(b % 16));
        assert(out@ =~= hex_text(bytes@.take(i + 1), g as int));
        i = i + 1;
    }
    assert(bytes@.take(bytes@.len() as int) =~= bytes@);
    out
}

/// An envelope without groups has two digits for each byte.
pub proof fn hex_text_length(bytes: Seq<u8>, group: int)
    requires
        group >= bytes.len(),
    ensures
        hex_text(bytes, group).len() == 2 * bytes.len(),
    decreases bytes.len(),
{
    if bytes.len() > 0 {
        hex_text_length(bytes.drop_last(), group);
        let i = bytes.len() - 1;
        if i > 0 {
            assert(i % group != 0) by (nonlinear_arith)
                requires
                    0 < i < group,
            ;
        }
    }
}

impl Sample {
    /// The fields that every envelope of the sample has.
    pub open spec fn base_fields(self) -> Fields {
        let f = Fields::empty();
        let f = with_field(f, "ts"@, JsonView::Text(timestamp_text(self.ts as int)));
        let f = with_field(f, "device"@, JsonView::Text(self.device@));
        let f = with_field(f, "protocol"@, JsonView::Text(self.protocol@));
        let f = with_field(f, "point"@, JsonView::Text(self.point@));
        let f = with_optional(f, "datatype"@, datatype_view(self.datatype));
        let f = with_optional(f, "value"@, value_json(self.value));
        let f = with_field(f, "quality"@, JsonView::Text(self.quality.label()));
        let f = with_optional(
            f,
            "seq"@,
            match self.seq {
                Some(n) => Some(JsonView::Number(Numeral::PosInt(n))),
                None => None,
            },
        );
        with_optional(f, "error"@, text_view(text_of(self.error)))
    }

    /// The fields of the sample's envelope; with what was on the wire where `debug` asks for it.
    pub open spec fn envelope_fields(self, debug: bool) -> Fields {
        let f = self.base_fields();
        if debug {
            let group = if self.raw_group == 0 {
                1
            } else {
                self.raw_group as int
            };
            let f = with_field(f, "raw"@, JsonView::Text(hex_text(self.raw@, group)));
            with_field(f, "addr"@, self.addr@)
        } else {
            f
        }
    }

    /// The sample as an object, to publish.
    pub fn envelope_object(&self, debug: bool) -> (r: JsonObject)
        ensures
            r@ == self.envelope_fields(debug),
    {
        let mut obj = JsonObject::new();
        obj.insert("ts", Json::of_string(format_rfc3339_ms(self.ts)));
        obj.insert("device", Json::text(self.device.as_str()));
        obj.insert("protocol", Json::text(self.protocol.as_str()));
        obj.insert("point", Json::text(self.point.as_str()));
        obj.insert_optional("datatype", datatype_json(self.datatype));
        if let Some(v) = &self.value {
            obj.insert("value", v.to_json());
        }
        obj.insert("quality", Json::text(self.quality.as_str()));
        if let Some(seq) = self.seq {
            obj.insert("seq", Json::of_unsigned(seq));
        }
        obj.insert_text("error", as_deref(&self.error));
        if debug {
            obj.insert("raw", Json::of_string(hex_grouped(self.raw.as_slice(), self.raw_group)));
            obj.insert("addr", self.addr.clone());
        }
        obj
    }

    /// The sample's envelope: what it is of, its value and its quality, and nothing that is the
    /// same for each reading of the point.
    pub fn to_envelope(&self, debug: bool) -> (r: Json)
        ensures
            r@ == JsonView::Object(self.envelope_fields(debug)),
    {
        Json::of_object(self.envelope_object(debug))
    }
}

/// The name of a datatype as a value.
pub open spec fn datatype_view(d: Option<DataType>) -> Option<JsonView> {
    match d {
        Some(t) => Some(JsonView::Text(t.label())),
        None => None,
    }
}

/// The name of a datatype as a value.
pub fn datatype_json(d: Option<DataType>) -> (r: Option<Json>)
    ensures
        view_of(r) == datatype_view(d),
{
    match d {
        Some(t) => Some(Json::text(t.as_str())),
        None => None,
    }
}

proof fn envelope_keys()
    ensures
        "ts"@ != "seq"@ && "ts"@ != "raw"@ && "seq"@ != "raw"@,
        "ts"@.len() == 2 && "seq"@.len() == 3 && "raw"@.len() == 3 && "addr"@.len() == 4,
        "point"@.len() == 5 && "value"@.len() == 5 && "error"@.len() == 5,
        "device"@.len() == 6 && "quality"@.len() == 7,
        "protocol"@.len() == 8 && "datatype"@.len() == 8,
        "point"@ != "value"@ && "point"@ != "error"@ && "value"@ != "error"@,
        "protocol"@ != "datatype"@,
        "good"@ != "bad"@ && "good"@ != "stale"@ && "bad"@ != "stale"@,
{
    reveal_strlit("ts");
    reveal_strlit("seq");
    reveal_strlit("raw");
    reveal_strlit("addr");
    reveal_strlit("point");
    reveal_strlit("value");
    reveal_strlit("error");
    reveal_strlit("device");
    reveal_strlit("quality");
    reveal_strlit("protocol");
    reveal_strlit("datatype");
    reveal_strlit("good");
    reveal_strlit("bad");
    reveal_strlit("stale");
    assert("seq"@[0] == 's' && "raw"@[0] == 'r');
    assert("point"@[0] == 'p' && "value"@[0] == 'v' && "error"@[0] == 'e');
    assert("protocol"@[0] == 'p' && "datatype"@[0] == 'd');
    assert("good"@.len() == 4 && "bad"@.len() == 3 && "stale"@.len() == 5);
}

/// An envelope says of a reading what it is: when it was taken, of what, the value as it is, how
/// it is to be taken, its number and what went wrong; and what was on the wire only where that is
/// asked for.
pub proof fn envelopes_say_what_was_read(s: Sample, debug: bool)
    ensures
        ({
            let f = s.envelope_fields(debug);
            &&& field(f, "ts"@) == Some(JsonView::Text(timestamp_text(s.ts as int)))
            &&& field(f, "device"@) == Some(JsonView::Text(s.device@))
            &&& field(f, "protocol"@) == Some(JsonView::Text(s.protocol@))
            &&& field(f, "point"@) == Some(JsonView::Text(s.point@))
            &&& s.datatype is None ==> field(f, "datatype"@) is None
            &&& s.datatype matches Some(d) ==> field(f, "datatype"@) == Some(
                JsonView::Text(d.label()),
            )
            &&& s.value is None ==> field(f, "value"@) is None
            &&& s.value matches Some(Value::Bool(b)) ==> field(f, "value"@) == Some(
                JsonView::Bool(b),
            )
            &&& s.value matches Some(Value::Number(n)) ==> field(f, "value"@) == Some(
                JsonView::Number(n@),
            )
            &&& s.value matches Some(Value::NonFinite(_)) ==> field(f, "value"@) == Some(
                JsonView::Null,
            )
            &&& s.value matches Some(Value::Text(t)) ==> field(f, "value"@) == Some(
                JsonView::Text(t@),
            )
            &&& s.quality == Quality::Good <==> field(f, "quality"@) == Some(
                JsonView::Text("good"@),
            )
            &&& s.quality == Quality::Bad <==> field(f, "quality"@) == Some(JsonView::Text("bad"@))
            &&& s.quality == Quality::Stale <==> field(f, "quality"@) == Some(
                JsonView::Text("stale"@),
            )
            &&& s.seq is None ==> field(f, "seq"@) is None
            &&& s.seq matches Some(n) ==> field(f, "seq"@) == Some(
                JsonView::Number(Numeral::PosInt(n)),
            )
            &&& s.error is None ==> field(f, "error"@) is None
            &&& s.error matches Some(e) ==> field(f, "error"@) == Some(JsonView::Text(e@))
            &&& debug <==> field(f, "raw"@) is Some
            &&& debug <==> field(f, "addr"@) is Some
            &&& debug ==> field(f, "addr"@) == Some(s.addr@)
            &&& debug ==> field(f, "raw"@) == Some(
                JsonView::Text(
                    hex_text(
                        s.raw@,
                        if s.raw_group == 0 {
                            1
                        } else {
                            s.raw_group as int
                        },
                    ),
                ),
            )
        }),
{
    broadcast use crate::keyed::field_once_set;

    envelope_keys();
}

/// The value of a hexadecimal digit.
pub open spec fn hex_value(c: char) -> int {
    if '0' <= c <= '9' {
        c as int - '0' as int
    } else {
        c as int - 'a' as int + 10
    }
}

/// A digit of a value under sixteen reads back as that value, and is a decimal digit or one of the
/// first letters.
proof fn hex_digit_reads_back(n: int)
    requires
        0 <= n < 16,
    ensures
        hex_value(hex_digit(n)) == n,
        '0' <= hex_digit(n) <= '9' || 'a' <= hex_digit(n) <= 'f',
{
}

/// Bytes of one group are told two digits each, the high one first, and read back from them.
pub proof fn hex_text_reads_back(bytes: Seq<u8>, group: int, i: int)
    requires
        bytes.len() <= group,
        0 <= i < bytes.len(),
    ensures
        hex_text(bytes, group).len() == 2 * bytes.len(),
        16 * hex_value(hex_text(bytes, group)[2 * i]) + hex_value(
            hex_text(bytes, group)[2 * i + 1],
        ) == bytes[i],
    decreases bytes.len(),
{
    hex_text_length(bytes, group);
    hex_text_length(bytes.drop_last(), group);
    let last = bytes.len() - 1;
    if last > 0 {
        assert(last % group != 0) by (nonlinear_arith)
            requires
                0 < last < group,
        ;
    }
    if i < last {
        hex_text_reads_back(bytes.drop_last(), group, i);
    } else {
        let b = bytes.last() as int;
        hex_digit_reads_back(b / 16);
        hex_digit_reads_back(b % 16);
    }
}

/// Groups stand one behind the other, with one space between them.
pub proof fn hex_groups_are_apart(a: Seq<u8>, b: Seq<u8>, group: int)
    requires
        group > 0,
        a.len() > 0,
        a.len() as int % group == 0,
        b.len() > 0,
    ensures
        hex_text(a + b, group) == hex_text(a, group) + seq![' '] + hex_text(b, group),
    decreases b.len(),
{
    let all = a + b;
    let init = b.drop_last();
    assert(all.drop_last() =~= a + init);
    assert(all.last() == b.last());
    let i = all.len() - 1;
    vstd::arithmetic::div_mod::lemma_mod_adds(a.len() as int, init.len() as int, group);
    vstd::arithmetic::div_mod::lemma_add_mod_noop(a.len() as int, init.len() as int, group);
    vstd::arithmetic::div_mod::lemma_mod_twice(init.len() as int, group);
    assert(i == a.len() + init.len());
    assert(i as int % group == init.len() as int % group);
    if init.len() == 0 {
        assert(a + init =~= a);
        vstd::arithmetic::div_mod::lemma_small_mod(0, group as nat);
        assert(hex_text(b.drop_last(), group) =~= Seq::<char>::empty());
        assert(hex_text(all, group) =~= hex_text(a, group) + seq![' '] + hex_text(b, group));
    } else {
        hex_groups_are_apart(a, init, group);
        assert(hex_text(all, group) =~= hex_text(a, group) + seq![' '] + hex_text(b, group));
    }
}

/// The kind of a value is told by what it is.
pub proof fn values_are_of_their_kind(v: Value)
    ensures
        v is Bool <==> v.kind() == "boolean"@,
        v is Number || v is NonFinite <==> v.kind() == "number"@,
        v is Text <==> v.kind() == "string"@,
{
    reveal_strlit("boolean");
    reveal_strlit("number");
    reveal_strlit("string");
    assert("boolean"@[0] == 'b' && "number"@[0] == 'n' && "string"@[0] == 's');
}

} // verus!
