//! The values of OPC UA: what a node reads as, and what is written to it.
use crate::json::{
    nearest_float, numeral_as_i64, numeral_as_u64, printed, signed_numeral, Json, JsonNumber,
    JsonView, Numeral,
};
use crate::model::{patterns, DataType, NonFinite, Value, ValueView};
use crate::text::{
    all_digits, concat3, decimal, decimal_string, decimal_text, decimal_text_reads_back, is_digit,
    parse_signed, parse_unsigned, signed_decimal, signed_string, signed_text, unsigned_text,
};
use vstd::prelude::*;
use vstd::utf8::encode_utf8;

verus! {

/// What a node reads as. A float comes with its bits, and as a number where it is finite.
#[derive(Debug, PartialEq)]
pub enum Reading {
    Boolean(bool),
    SByte(i8),
    Byte(u8),
    Int16(i16),
    UInt16(u16),
    Int32(i32),
    UInt32(u32),
    Int64(i64),
    UInt64(u64),
    Float { number: Option<JsonNumber>, bits: u32 },
    Double { number: Option<JsonNumber>, double_bits: u64 },
    String(String),
    /// What no sample carries.
    Other,
}

/// The last `width` bytes of a number, the highest first.
pub open spec fn be_bytes(n: nat, width: nat) -> Seq<u8>
    decreases width,
{
    if width == 0 {
        Seq::empty()
    } else {
        be_bytes(n / 256, (width - 1) as nat).push((n % 256) as u8)
    }
}

fn push_be(out: &mut Vec<u8>, n: u64, width: usize)
    ensures
        final(out)@ == old(out)@ + be_bytes(n as nat, width as nat),
    decreases width,
{
    if width > 0 {
        push_be(out, n / 256, width - 1);
        out.push((n % 256) as u8);
    }
    assert(out@ =~= old(out)@ + be_bytes(n as nat, width as nat));
}

fn be_vec(n: u64, width: usize) -> (r: Vec<u8>)
    ensures
        r@ == be_bytes(n as nat, width as nat),
{
    let mut out: Vec<u8> = Vec::new();
    push_be(&mut out, n, width);
    assert(out@ =~= be_bytes(n as nat, width as nat));
    out
}

/// As many bytes as the width says.
pub proof fn be_bytes_length(n: nat, width: nat)
    ensures
        be_bytes(n, width).len() == width,
    decreases width,
{
    if width > 0 {
        be_bytes_length(n / 256, (width - 1) as nat);
    }
}

/// The greatest integer up to which a float holds each one exactly.
pub const MAX_SAFE_INT: i64 = 9_007_199_254_740_991;

/// An integer as a float.
pub open spec fn integer_view(i: i64) -> ValueView {
    ValueView::Number(Numeral::Float(nearest_float(signed_numeral(i))))
}

/// An integer as a value: as a number where a float holds it exactly, as text where not.
pub open spec fn int64_view(i: i64) -> ValueView {
    if -9_007_199_254_740_991 <= i <= 9_007_199_254_740_991 {
        integer_view(i)
    } else {
        ValueView::Text(signed_decimal(i as int))
    }
}

/// An integer from 0 on as a value.
pub open spec fn uint64_view(u: u64) -> ValueView {
    if u <= 9_007_199_254_740_991 {
        integer_view(u as i64)
    } else {
        ValueView::Text(decimal_text(u as nat))
    }
}

fn integer_value(i: i64) -> (r: Value)
    ensures
        r@ == integer_view(i),
{
    Value::Number(JsonNumber::signed(i).as_float())
}

/// An integer as a value.
pub fn int64_value(i: i64) -> (r: Value)
    ensures
        r@ == int64_view(i),
{
    if -MAX_SAFE_INT <= i && i <= MAX_SAFE_INT {
        integer_value(i)
    } else {
        Value::Text(signed_string(i))
    }
}

/// An integer from 0 on as a value.
pub fn uint64_value(u: u64) -> (r: Value)
    ensures
        r@ == uint64_view(u),
{
    if u <= 9_007_199_254_740_991 {
        integer_value(u as i64)
    } else {
        Value::Text(decimal_string(u))
    }
}

/// What a float is that is not finite, by whether it is one of the infinities.
pub open spec fn special(infinite: bool, negative: bool) -> NonFinite {
    if infinite {
        NonFinite::Infinite
    } else if negative {
        NonFinite::NegativeInfinite
    } else {
        NonFinite::NotANumber
    }
}

/// A float as a value: the number that it is, where it is finite.
pub open spec fn float_view(number: Option<JsonNumber>, infinite: bool, negative: bool) -> ValueView {
    match number {
        Some(n) => ValueView::Number(n@),
        None => ValueView::NonFinite(special(infinite, negative)),
    }
}

fn float_value(number: &Option<JsonNumber>, infinite: bool, negative: bool) -> (r: Value)
    ensures
        r@ == float_view(*number, infinite, negative),
{
    match number {
        Some(n) => Value::Number(n.clone()),
        None => if infinite {
            Value::NonFinite(NonFinite::Infinite)
        } else if negative {
            Value::NonFinite(NonFinite::NegativeInfinite)
        } else {
            Value::NonFinite(NonFinite::NotANumber)
        },
    }
}

/// What a reading is: its value, its datatype and its bytes.
#[verifier::ext_equal]
pub struct DecodedView {
    pub value: ValueView,
    pub datatype: DataType,
    pub raw: Seq<u8>,
}

/// A decoded reading: its value, its datatype and its bytes.
#[derive(Debug, PartialEq)]
pub struct Decoded {
    pub value: Value,
    pub datatype: DataType,
    pub raw: Vec<u8>,
}

impl View for Decoded {
    type V = DecodedView;

    open spec fn view(&self) -> DecodedView {
        DecodedView { value: self.value@, datatype: self.datatype, raw: self.raw@ }
    }
}

/// What a reading is, where a sample can carry it.
pub open spec fn decoded(v: Reading) -> Option<DecodedView> {
    match v {
        Reading::Boolean(b) => Some(
            DecodedView {
                value: ValueView::Bool(b),
                datatype: DataType::Bool,
                raw: seq![
                    if b {
                        1u8
                    } else {
                        0u8
                    },
                ],
            },
        ),
        Reading::SByte(i) => Some(
            DecodedView {
                value: integer_view(i as i64),
                datatype: DataType::Int8,
                raw: be_bytes((i as u8) as nat, 1),
            },
        ),
        Reading::Byte(u) => Some(
            DecodedView {
                value: integer_view(u as i64),
                datatype: DataType::Uint8,
                raw: be_bytes(u as nat, 1),
            },
        ),
        Reading::Int16(i) => Some(
            DecodedView {
                value: integer_view(i as i64),
                datatype: DataType::Int16,
                raw: be_bytes((i as u16) as nat, 2),
            },
        ),
        Reading::UInt16(u) => Some(
            DecodedView {
                value: integer_view(u as i64),
                datatype: DataType::Uint16,
                raw: be_bytes(u as nat, 2),
            },
        ),
        Reading::Int32(i) => Some(
            DecodedView {
                value: integer_view(i as i64),
                datatype: DataType::Int32,
                raw: be_bytes((i as u32) as nat, 4),
            },
        ),
        Reading::UInt32(u) => Some(
            DecodedView {
                value: integer_view(u as i64),
                datatype: DataType::Uint32,
                raw: be_bytes(u as nat, 4),
            },
        ),
        Reading::Int64(i) => Some(
            DecodedView {
                value: int64_view(i),
                datatype: DataType::Int64,
                raw: be_bytes((i as u64) as nat, 8),
            },
        ),
        Reading::UInt64(u) => Some(
            DecodedView {
                value: uint64_view(u),
                datatype: DataType::Uint64,
                raw: be_bytes(u as nat, 8),
            },
        ),
        Reading::Float { number, bits } => Some(
            DecodedView {
                value: float_view(number, bits == 0x7f80_0000, bits == 0xff80_0000),
                datatype: DataType::Float32,
                raw: be_bytes(bits as nat, 4),
            },
        ),
        Reading::Double { number, double_bits } => Some(
            DecodedView {
                value: float_view(
                    number,
                    double_bits == 0x7ff0_0000_0000_0000,
                    double_bits == 0xfff0_0000_0000_0000,
                ),
                datatype: DataType::Float64,
                raw: be_bytes(double_bits as nat, 8),
            },
        ),
        Reading::String(s) => Some(
            DecodedView {
                value: ValueView::Text(s@),
                datatype: DataType::String,
                raw: encode_utf8(s@),
            },
        ),
        Reading::Other => None,
    }
}

fn bytes_of(s: &str) -> (r: Vec<u8>)
    ensures
        r@ == encode_utf8(s@),
{
    let b: &[u8] = s.as_bytes();
    let mut out: Vec<u8> = Vec::new();
    let mut i: usize = 0;
    while i < b.len()
        invariant
            i <= b@.len(),
            out@ == b@.take(i as int),
        decreases b@.len() - i,
    {
        out.push(b[i]);
        assert(out@ =~= b@.take(i + 1));
        i = i + 1;
    }
    assert(b@.take(b@.len() as int) =~= b@);
    out
}

/// What a reading is, where a sample can carry it.
pub fn variant_to_value(v: &Reading) -> (r: Option<Decoded>)
    ensures
        match r {
            Some(d) => decoded(*v) == Some(d@),
            None => decoded(*v) is None,
        },
{
    let d: Decoded = match v {
        Reading::Boolean(b) => {
            let mut raw: Vec<u8> = Vec::new();
            raw.push(
                if *b {
                    1u8
                } else {
                    0u8
                },
            );
            let d = Decoded { value: Value::Bool(*b), datatype: DataType::Bool, raw };
            assert(Some(d@) =~= decoded(*v));
            d
        },
        Reading::SByte(i) => Decoded {
            value: integer_value(*i as i64),
            datatype: DataType::Int8,
            raw: be_vec((*i as u8) as u64, 1),
        },
        Reading::Byte(u) => Decoded {
            value: integer_value(*u as i64),
            datatype: DataType::Uint8,
            raw: be_vec(*u as u64, 1),
        },
        Reading::Int16(i) => Decoded {
            value: integer_value(*i as i64),
            datatype: DataType::Int16,
            raw: be_vec((*i as u16) as u64, 2),
        },
        Reading::UInt16(u) => Decoded {
            value: integer_value(*u as i64),
            datatype: DataType::Uint16,
            raw: be_vec(*u as u64, 2),
        },
        Reading::Int32(i) => Decoded {
            value: integer_value(*i as i64),
            datatype: DataType::Int32,
            raw: be_vec((*i as u32) as u64, 4),
        },
        Reading::UInt32(u) => Decoded {
            value: integer_value(*u as i64),
            datatype: DataType::Uint32,
            raw: be_vec(*u as u64, 4),
        },
        Reading::Int64(i) => Decoded {
            value: int64_value(*i),
            datatype: DataType::Int64,
            raw: be_vec(*i as u64, 8),
        },
        Reading::UInt64(u) => Decoded {
            value: uint64_value(*u),
            datatype: DataType::Uint64,
            raw: be_vec(*u, 8),
        },
        Reading::Float { number, bits } => Decoded {
            value: float_value(number, *bits == 0x7f80_0000, *bits == 0xff80_0000),
            datatype: DataType::Float32,
            raw: be_vec(*bits as u64, 4),
        },
        Reading::Double { number, double_bits } => Decoded {
            value: float_value(
                number,
                *double_bits == 0x7ff0_0000_0000_0000,
                *double_bits == 0xfff0_0000_0000_0000,
            ),
            datatype: DataType::Float64,
            raw: be_vec(*double_bits, 8),
        },
        Reading::String(s) => Decoded {
            value: Value::Text(s.clone()),
            datatype: DataType::String,
            raw: bytes_of(s.as_str()),
        },
        Reading::Other => {
            return None;
        },
    };
    Some(d)
}

/// The bytes of a number are as many as its datatype is wide.
pub proof fn numbers_have_their_width(v: Reading)
    requires
        decoded(v) is Some,
        decoded(v)->0.datatype.width() is Some,
    ensures
        decoded(v)->0.raw.len() == decoded(v)->0.datatype.width()->0,
{
    match v {
        Reading::SByte(i) => be_bytes_length((i as u8) as nat, 1),
        Reading::Byte(u) => be_bytes_length(u as nat, 1),
        Reading::Int16(i) => be_bytes_length((i as u16) as nat, 2),
        Reading::UInt16(u) => be_bytes_length(u as nat, 2),
        Reading::Int32(i) => be_bytes_length((i as u32) as nat, 4),
        Reading::UInt32(u) => be_bytes_length(u as nat, 4),
        Reading::Int64(i) => be_bytes_length((i as u64) as nat, 8),
        Reading::UInt64(u) => be_bytes_length(u as nat, 8),
        Reading::Float { number, bits } => be_bytes_length(bits as nat, 4),
        Reading::Double { number, double_bits } => be_bytes_length(double_bits as nat, 8),
        _ => {},
    }
}

/// The integer that a reading is, where it is one.
pub open spec fn integer_read(v: Reading) -> Option<int> {
    match v {
        Reading::SByte(i) => Some(i as int),
        Reading::Byte(u) => Some(u as int),
        Reading::Int16(i) => Some(i as int),
        Reading::UInt16(u) => Some(u as int),
        Reading::Int32(i) => Some(i as int),
        Reading::UInt32(u) => Some(u as int),
        Reading::Int64(i) => Some(i as int),
        Reading::UInt64(u) => Some(u as int),
        _ => None,
    }
}

/// The least and the greatest integer that a reading of that kind can be.
pub open spec fn reading_bounds(v: Reading) -> Option<(int, int)> {
    match v {
        Reading::SByte(_) => Some((i8::MIN as int, i8::MAX as int)),
        Reading::Byte(_) => Some((u8::MIN as int, u8::MAX as int)),
        Reading::Int16(_) => Some((i16::MIN as int, i16::MAX as int)),
        Reading::UInt16(_) => Some((u16::MIN as int, u16::MAX as int)),
        Reading::Int32(_) => Some((i32::MIN as int, i32::MAX as int)),
        Reading::UInt32(_) => Some((u32::MIN as int, u32::MAX as int)),
        Reading::Int64(_) => Some((i64::MIN as int, i64::MAX as int)),
        Reading::UInt64(_) => Some((u64::MIN as int, u64::MAX as int)),
        _ => None,
    }
}

/// An integer from the first of the bounds to the second.
pub open spec fn within(bounds: Option<(int, int)>, n: int) -> bool {
    match bounds {
        Some((low, high)) => low <= n <= high,
        None => false,
    }
}

/// A text is the decimal digits of an integer, behind a minus where it is below zero.
pub open spec fn spells(t: Seq<char>, n: int) -> bool {
    if n < 0 {
        t.len() > 1 && t[0] == '-' && all_digits(t.drop_first()) && decimal(t.drop_first()) == -n
    } else {
        t.len() > 0 && all_digits(t) && decimal(t) == n
    }
}

/// A value tells an integer: it is the float nearest to it, or it spells it.
pub open spec fn tells(v: ValueView, n: int) -> bool {
    match v {
        ValueView::Number(x) => x == Numeral::Float(
            nearest_float(
                if n < 0 {
                    Numeral::NegInt(n as i64)
                } else {
                    Numeral::PosInt(n as u64)
                },
            ),
        ),
        ValueView::Text(t) => spells(t, n),
        _ => false,
    }
}

/// The number that bytes are, the highest first.
pub open spec fn be_number(bytes: Seq<u8>) -> int
    decreases bytes.len(),
{
    if bytes.len() == 0 {
        0
    } else {
        0x100 * be_number(bytes.drop_last()) + bytes.last()
    }
}

proof fn be_bytes_number(n: nat, width: nat)
    ensures
        be_number(be_bytes(n, width)) == n as int % patterns(width),
        be_bytes(n, width).len() == width,
        patterns(width) > 0,
    decreases width,
{
    if width > 0 {
        let w = (width - 1) as nat;
        be_bytes_number(n / 256, w);
        let all = be_bytes(n, width);
        assert(all.drop_last() =~= be_bytes(n / 256, w));
        vstd::arithmetic::div_mod::lemma_breakdown(n as int, 256, patterns(w));
    }
}

proof fn few_bytes(n: nat, width: nat)
    requires
        width == 1 || width == 2 || width == 4 || width == 8,
        n < patterns(width),
    ensures
        be_number(be_bytes(n, width)) == n,
        be_bytes(n, width).len() == width,
{
    be_bytes_number(n, width);
    vstd::arithmetic::div_mod::lemma_small_mod(n, patterns(width) as nat);
}

proof fn pattern_counts()
    ensures
        patterns(1) == 0x100,
        patterns(2) == 0x1_0000,
        patterns(4) == 0x1_0000_0000,
        patterns(8) == 0x1_0000_0000_0000_0000,
{
    reveal_with_fuel(patterns, 9);
}

proof fn digits_spell(n: nat)
    ensures
        spells(decimal_text(n), n as int),
        n > 0 ==> spells("-"@ + decimal_text(n), -(n as int)),
{
    decimal_text_reads_back(n);
    reveal_strlit("-");
    let t = "-"@ + decimal_text(n);
    assert(t.drop_first() =~= decimal_text(n));
}

/// An integer is decoded as what it is: the datatype holds exactly the integers that such a
/// reading can be, the value tells the very integer that was read, as a number where a float holds
/// it and as text where not, and the bytes are those of the integer, as many as the datatype is
/// wide, below zero in two's complement.
pub proof fn integers_are_decoded_as_they_were_read(v: Reading, n: int)
    requires
        integer_read(v) == Some(n),
    ensures
        decoded(v) is Some,
        decoded(v)->0.datatype.bounds() == reading_bounds(v),
        within(reading_bounds(v), n),
        tells(decoded(v)->0.value, n),
        decoded(v)->0.value is Number <==> -9_007_199_254_740_991 <= n <= 9_007_199_254_740_991,
        decoded(v)->0.datatype.width() == Some(decoded(v)->0.raw.len()),
        be_number(decoded(v)->0.raw) == if n < 0 {
            n + patterns(decoded(v)->0.raw.len())
        } else {
            n
        },
{
    pattern_counts();
    match v {
        Reading::SByte(i) => {
            assert((i as u8) == if i < 0 {
                i + 0x100
            } else {
                i as int
            }) by (bit_vector);
            few_bytes((i as u8) as nat, 1);
        },
        Reading::Byte(u) => few_bytes(u as nat, 1),
        Reading::Int16(i) => {
            assert((i as u16) == if i < 0 {
                i + 0x1_0000
            } else {
                i as int
            }) by (bit_vector);
            few_bytes((i as u16) as nat, 2);
        },
        Reading::UInt16(u) => few_bytes(u as nat, 2),
        Reading::Int32(i) => {
            assert((i as u32) == if i < 0 {
                i + 0x1_0000_0000
            } else {
                i as int
            }) by (bit_vector);
            few_bytes((i as u32) as nat, 4);
        },
        Reading::UInt32(u) => few_bytes(u as nat, 4),
        Reading::Int64(i) => {
            assert((i as u64) == if i < 0 {
                i + 0x1_0000_0000_0000_0000
            } else {
                i as int
            }) by (bit_vector);
            few_bytes((i as u64) as nat, 8);
            if i < 0 {
                digits_spell((-i) as nat);
            } else {
                digits_spell(i as nat);
            }
        },
        Reading::UInt64(u) => {
            few_bytes(u as nat, 8);
            digits_spell(u as nat);
        },
        _ => {},
    }
}

/// What is no integer is decoded as what it is, too: a boolean by its byte, a text by its
/// characters, a float by its number where it is finite, and else by which of the other floats its
/// bits are. Only what no sample carries is not decoded.
pub proof fn readings_are_decoded_as_they_were_read(v: Reading)
    ensures
        decoded(v) is None <==> v is Other,
        v matches Reading::Boolean(b) ==> decoded(v)->0.value == ValueView::Bool(b) && decoded(
            v,
        )->0.datatype == DataType::Bool && be_number(decoded(v)->0.raw) == (if b {
            1int
        } else {
            0int
        }) && decoded(v)->0.raw.len() == 1,
        v matches Reading::String(s) ==> decoded(v)->0.value == ValueView::Text(s@) && decoded(
            v,
        )->0.datatype == DataType::String && decoded(v)->0.raw == encode_utf8(s@),
        v matches Reading::Float { number, bits } ==> {
            let d = decoded(v)->0;
            &&& d.datatype == DataType::Float32
            &&& d.raw.len() == 4
            &&& be_number(d.raw) == bits
            &&& number matches Some(x) ==> d.value == ValueView::Number(x@)
            &&& number is None ==> d.value is NonFinite
            &&& number is None ==> (bits == 0x7f80_0000 <==> d.value == ValueView::NonFinite(
                NonFinite::Infinite,
            ))
            &&& number is None ==> (bits == 0xff80_0000 <==> d.value == ValueView::NonFinite(
                NonFinite::NegativeInfinite,
            ))
        },
        v matches Reading::Double { number, double_bits } ==> {
            let d = decoded(v)->0;
            &&& d.datatype == DataType::Float64
            &&& d.raw.len() == 8
            &&& be_number(d.raw) == double_bits
            &&& number matches Some(x) ==> d.value == ValueView::Number(x@)
            &&& number is None ==> d.value is NonFinite
            &&& number is None ==> (double_bits == 0x7ff0_0000_0000_0000 <==> d.value
                == ValueView::NonFinite(NonFinite::Infinite))
            &&& number is None ==> (double_bits == 0xfff0_0000_0000_0000 <==> d.value
                == ValueView::NonFinite(NonFinite::NegativeInfinite))
        },
{
    pattern_counts();
    match v {
        Reading::Boolean(b) => {
            let raw = decoded(v)->0.raw;
            reveal_with_fuel(be_number, 2);
            assert(raw.drop_last() =~= Seq::<u8>::empty());
        },
        Reading::Float { number, bits } => few_bytes(bits as nat, 4),
        Reading::Double { number, double_bits } => few_bytes(double_bits as nat, 8),
        _ => {},
    }
}

/// What is written to a node. A float is the number that it is to be nearest to.
#[derive(Debug, PartialEq)]
pub enum Variant {
    Boolean(bool),
    SByte(i8),
    Byte(u8),
    Int16(i16),
    UInt16(u16),
    Int32(i32),
    UInt32(u32),
    Int64(i64),
    UInt64(u64),
    Float(JsonNumber),
    Double(JsonNumber),
    String(String),
}

/// What is written to a node.
#[verifier::ext_equal]
pub enum VariantView {
    Boolean(bool),
    SByte(i8),
    Byte(u8),
    Int16(i16),
    UInt16(u16),
    Int32(i32),
    UInt32(u32),
    Int64(i64),
    UInt64(u64),
    Float(Numeral),
    Double(Numeral),
    String(Seq<char>),
}

impl View for Variant {
    type V = VariantView;

    open spec fn view(&self) -> VariantView {
        match self {
            Variant::Boolean(b) => VariantView::Boolean(*b),
            Variant::SByte(i) => VariantView::SByte(*i),
            Variant::Byte(u) => VariantView::Byte(*u),
            Variant::Int16(i) => VariantView::Int16(*i),
            Variant::UInt16(u) => VariantView::UInt16(*u),
            Variant::Int32(i) => VariantView::Int32(*i),
            Variant::UInt32(u) => VariantView::UInt32(*u),
            Variant::Int64(i) => VariantView::Int64(*i),
            Variant::UInt64(u) => VariantView::UInt64(*u),
            Variant::Float(n) => VariantView::Float(n@),
            Variant::Double(n) => VariantView::Double(n@),
            Variant::String(s) => VariantView::String(s@),
        }
    }
}

/// The name of a datatype in an error.
pub open spec fn datatype_name(dt: DataType) -> Seq<char> {
    match dt {
        DataType::Bool => "Bool"@,
        DataType::Int8 => "Int8"@,
        DataType::Uint8 => "Uint8"@,
        DataType::Int16 => "Int16"@,
        DataType::Uint16 => "Uint16"@,
        DataType::Int32 => "Int32"@,
        DataType::Uint32 => "Uint32"@,
        DataType::Int64 => "Int64"@,
        DataType::Uint64 => "Uint64"@,
        DataType::Float32 => "Float32"@,
        DataType::Float64 => "Float64"@,
        DataType::String => "String"@,
        DataType::Bytes => "Bytes"@,
    }
}

fn name_of_type(dt: DataType) -> (r: &'static str)
    ensures
        r@ == datatype_name(dt),
{
    match dt {
        DataType::Bool => "Bool",
        DataType::Int8 => "Int8",
        DataType::Uint8 => "Uint8",
        DataType::Int16 => "Int16",
        DataType::Uint16 => "Uint16",
        DataType::Int32 => "Int32",
        DataType::Uint32 => "Uint32",
        DataType::Int64 => "Int64",
        DataType::Uint64 => "Uint64",
        DataType::Float32 => "Float32",
        DataType::Float64 => "Float64",
        DataType::String => "String",
        DataType::Bytes => "Bytes",
    }
}

/// The integer that a value is.
pub open spec fn json_i64(v: JsonView) -> Option<i64> {
    match v {
        JsonView::Number(n) => numeral_as_i64(n),
        _ => None,
    }
}

/// The integer from 0 on that a value is.
pub open spec fn json_u64(v: JsonView) -> Option<u64> {
    match v {
        JsonView::Number(n) => numeral_as_u64(n),
        _ => None,
    }
}

/// The integer that a value is or spells: a consumer may hold a large one only as text.
pub open spec fn spelt_i64(v: JsonView) -> Option<i64> {
    match v {
        JsonView::Number(n) => numeral_as_i64(n),
        JsonView::Text(s) => signed_text(s),
        _ => None,
    }
}

/// The integer from 0 on that a value is or spells.
pub open spec fn spelt_u64(v: JsonView) -> Option<u64> {
    match v {
        JsonView::Number(n) => numeral_as_u64(n),
        JsonView::Text(s) => unsigned_text(s),
        _ => None,
    }
}

fn as_i64(v: &Json) -> (r: Option<i64>)
    ensures
        r == json_i64(v@),
{
    proof {
        v.lemma_view();
    }
    match v {
        Json::Number(n) => n.as_i64(),
        _ => None,
    }
}

fn as_u64(v: &Json) -> (r: Option<u64>)
    ensures
        r == json_u64(v@),
{
    proof {
        v.lemma_view();
    }
    match v {
        Json::Number(n) => n.as_u64(),
        _ => None,
    }
}

/// The integer that a value is or spells.
pub fn int_from_json(v: &Json) -> (r: Option<i64>)
    ensures
        r == spelt_i64(v@),
{
    proof {
        v.lemma_view();
    }
    match v {
        Json::Number(n) => n.as_i64(),
        Json::Text(s) => parse_signed(s.as_str()),
        _ => None,
    }
}

/// The integer from 0 on that a value is or spells.
pub fn uint_from_json(v: &Json) -> (r: Option<u64>)
    ensures
        r == spelt_u64(v@),
{
    proof {
        v.lemma_view();
    }
    match v {
        Json::Number(n) => n.as_u64(),
        Json::Text(s) => parse_unsigned(s.as_str()),
        _ => None,
    }
}

/// What is written for a value of a datatype, where the value is one. A small integer keeps its
/// last bytes where it is too large.
pub open spec fn written(dt: DataType, v: JsonView) -> Option<VariantView> {
    match dt {
        DataType::Bool => match v {
            JsonView::Bool(b) => Some(VariantView::Boolean(b)),
            _ => None,
        },
        DataType::Int8 => match json_i64(v) {
            Some(i) => Some(VariantView::SByte(i as i8)),
            None => None,
        },
        DataType::Uint8 => match json_u64(v) {
            Some(u) => Some(VariantView::Byte(u as u8)),
            None => None,
        },
        DataType::Int16 => match json_i64(v) {
            Some(i) => Some(VariantView::Int16(i as i16)),
            None => None,
        },
        DataType::Uint16 => match json_u64(v) {
            Some(u) => Some(VariantView::UInt16(u as u16)),
            None => None,
        },
        DataType::Int32 => match json_i64(v) {
            Some(i) => Some(VariantView::Int32(i as i32)),
            None => None,
        },
        DataType::Uint32 => match json_u64(v) {
            Some(u) => Some(VariantView::UInt32(u as u32)),
            None => None,
        },
        DataType::Int64 => match spelt_i64(v) {
            Some(i) => Some(VariantView::Int64(i)),
            None => None,
        },
        DataType::Uint64 => match spelt_u64(v) {
            Some(u) => Some(VariantView::UInt64(u)),
            None => None,
        },
        DataType::Float32 => match v {
            JsonView::Number(n) => Some(VariantView::Float(Numeral::Float(nearest_float(n)))),
            _ => None,
        },
        DataType::Float64 => match v {
            JsonView::Number(n) => Some(VariantView::Double(Numeral::Float(nearest_float(n)))),
            _ => None,
        },
        DataType::String => match v {
            JsonView::Text(s) => Some(VariantView::String(s)),
            _ => None,
        },
        DataType::Bytes => None,
    }
}

/// What is written for a value of a datatype, or why nothing is.
pub open spec fn variant_of(dt: DataType, v: JsonView) -> Result<VariantView, Seq<char>> {
    if dt == DataType::Bytes {
        Err("datatype "@ + datatype_name(dt) + " is not writable over OPC-UA"@)
    } else {
        match written(dt, v) {
            Some(x) => Ok(x),
            None => Err(
                "value "@ + printed(v) + " is not valid for datatype "@ + datatype_name(dt),
            ),
        }
    }
}

fn write_value(dt: DataType, value: &Json) -> (r: Option<Variant>)
    ensures
        match r {
            Some(x) => written(dt, value@) == Some(x@),
            None => written(dt, value@) is None,
        },
{
    proof {
        value.lemma_view();
    }
    match dt {
        DataType::Bool => match value {
            Json::Bool(b) => Some(Variant::Boolean(*b)),
            _ => None,
        },
        DataType::Int8 => match as_i64(value) {
            Some(i) => Some(Variant::SByte(#[verifier::truncate] (i as i8))),
            None => None,
        },
        DataType::Uint8 => match as_u64(value) {
            Some(u) => Some(Variant::Byte(#[verifier::truncate] (u as u8))),
            None => None,
        },
        DataType::Int16 => match as_i64(value) {
            Some(i) => Some(Variant::Int16(#[verifier::truncate] (i as i16))),
            None => None,
        },
        DataType::Uint16 => match as_u64(value) {
            Some(u) => Some(Variant::UInt16(#[verifier::truncate] (u as u16))),
            None => None,
        },
        DataType::Int32 => match as_i64(value) {
            Some(i) => Some(Variant::Int32(#[verifier::truncate] (i as i32))),
            None => None,
        },
        DataType::Uint32 => match as_u64(value) {
            Some(u) => Some(Variant::UInt32(#[verifier::truncate] (u as u32))),
            None => None,
        },
        DataType::Int64 => match int_from_json(value) {
            Some(i) => Some(Variant::Int64(i)),
            None => None,
        },
        DataType::Uint64 => match uint_from_json(value) {
            Some(u) => Some(Variant::UInt64(u)),
            None => None,
        },
        DataType::Float32 => match value {
            Json::Number(n) => Some(Variant::Float(n.as_float())),
            _ => None,
        },
        DataType::Float64 => match value {
            Json::Number(n) => Some(Variant::Double(n.as_float())),
            _ => None,
        },
        DataType::String => match value {
            Json::Text(s) => Some(Variant::String(s.clone())),
            _ => None,
        },
        DataType::Bytes => None,
    }
}

/// What is written for a value of a datatype, or why nothing is.
pub fn build_variant(dt: DataType, value: &Json) -> (r: Result<Variant, String>)
    ensures
        match r {
            Ok(x) => variant_of(dt, value@) == Ok::<VariantView, Seq<char>>(x@),
            Err(e) => variant_of(dt, value@) == Err::<VariantView, Seq<char>>(e@),
        },
{
    match dt {
        DataType::Bytes => {
            return Err(concat3("datatype ", name_of_type(dt), " is not writable over OPC-UA"));
        },
        _ => {},
    }
    match write_value(dt, value) {
        Some(x) => Ok(x),
        None => {
            let shown: String = value.print();
            let mut reason: String = concat3(
                "value ",
                shown.as_str(),
                " is not valid for datatype ",
            );
            reason.append(name_of_type(dt));
            Err(reason)
        },
    }
}

/// The integer that a number is, where it is one.
pub open spec fn whole(n: Numeral) -> Option<int> {
    match n {
        Numeral::PosInt(u) => Some(u as int),
        Numeral::NegInt(i) => if i < 0 {
            Some(i as int)
        } else {
            None
        },
        Numeral::Float(_) => None,
    }
}

/// A JSON value tells an integer: it is that number, or the text that spells it.
pub open spec fn json_tells(v: JsonView, n: int) -> bool {
    match v {
        JsonView::Number(m) => whole(m) == Some(n),
        JsonView::Text(t) => spells(t, n),
        _ => false,
    }
}

/// The node reads as what was written to it. A float of single precision is only nearest to the
/// number that was written.
pub open spec fn shows(x: VariantView, v: Reading) -> bool {
    match (x, v) {
        (VariantView::Boolean(a), Reading::Boolean(b)) => a == b,
        (VariantView::SByte(a), Reading::SByte(b)) => a == b,
        (VariantView::Byte(a), Reading::Byte(b)) => a == b,
        (VariantView::Int16(a), Reading::Int16(b)) => a == b,
        (VariantView::UInt16(a), Reading::UInt16(b)) => a == b,
        (VariantView::Int32(a), Reading::Int32(b)) => a == b,
        (VariantView::UInt32(a), Reading::UInt32(b)) => a == b,
        (VariantView::Int64(a), Reading::Int64(b)) => a == b,
        (VariantView::UInt64(a), Reading::UInt64(b)) => a == b,
        (VariantView::Float(_), Reading::Float { .. }) => true,
        (VariantView::Double(a), Reading::Double { number: Some(b), .. }) => a == b@,
        (VariantView::String(a), Reading::String(b)) => a == b@,
        _ => false,
    }
}

proof fn spelt_text(t: Seq<char>, n: int)
    requires
        spells(t, n),
    ensures
        signed_text(t) == if i64::MIN <= n <= i64::MAX {
            Some(n as i64)
        } else {
            None
        },
        unsigned_text(t) == if 0 <= n <= u64::MAX {
            Some(n as u64)
        } else {
            None
        },
{
    if n < 0 {
        assert(!is_digit(t[0]));
    } else {
        assert(is_digit(t[0]));
    }
}

/// An integer that is written is the one that was asked for, where the datatype holds it; and has
/// the same last bytes where not.
proof fn written_integers(dt: DataType, value: JsonView, x: VariantView, v: Reading, n: int)
    requires
        written(dt, value) == Some(x),
        shows(x, v),
        dt.integral(),
        json_tells(value, n),
    ensures
        integer_read(v) is Some,
        within(dt.bounds(), n) ==> integer_read(v) == Some(n),
        (n - integer_read(v)->0) % patterns(dt.width()->0) == 0,
{
    pattern_counts();
    if let JsonView::Text(t) = value {
        spelt_text(t, n);
    }
    let i = n as i64;
    let u = n as u64;
    match dt {
        DataType::Int8 => assert((i - (i as i8)) % 0x100 == 0) by (bit_vector),
        DataType::Int16 => assert((i - (i as i16)) % 0x1_0000 == 0) by (bit_vector),
        DataType::Int32 => assert((i - (i as i32)) % 0x1_0000_0000 == 0) by (bit_vector),
        DataType::Uint8 => assert((u - (u as u8)) % 0x100 == 0) by (bit_vector),
        DataType::Uint16 => assert((u - (u as u16)) % 0x1_0000 == 0) by (bit_vector),
        DataType::Uint32 => assert((u - (u as u32)) % 0x1_0000_0000 == 0) by (bit_vector),
        _ => {},
    }
}

/// Writing and reading agree. A node that was written to and reads as what was written is decoded
/// with the datatype that the value was written as, and to the value that was asked for: to the
/// same boolean, the same text and the same float of double precision.
pub proof fn what_is_written_is_read_back(dt: DataType, value: JsonView, x: VariantView, v: Reading)
    requires
        variant_of(dt, value) == Ok::<VariantView, Seq<char>>(x),
        shows(x, v),
    ensures
        decoded(v) is Some,
        decoded(v)->0.datatype == dt,
        value matches JsonView::Bool(b) ==> decoded(v)->0.value == ValueView::Bool(b),
        dt == DataType::String ==> (value matches JsonView::Text(t) && decoded(v)->0.value
            == ValueView::Text(t)),
        dt == DataType::Float64 ==> (value matches JsonView::Number(m) && decoded(v)->0.value
            == ValueView::Number(Numeral::Float(nearest_float(m)))),
        dt == DataType::Float32 ==> (value matches JsonView::Number(m) && x == VariantView::Float(
            Numeral::Float(nearest_float(m)),
        )),
        dt.integral() <==> integer_read(v) is Some,
{
}

/// Writing and reading agree on integers: an integer that the datatype holds is the one that is
/// read back and told; of another the last bytes are.
pub proof fn written_integers_are_read_back(
    dt: DataType,
    value: JsonView,
    x: VariantView,
    v: Reading,
    n: int,
)
    requires
        variant_of(dt, value) == Ok::<VariantView, Seq<char>>(x),
        shows(x, v),
        dt.integral(),
        json_tells(value, n),
    ensures
        within(dt.bounds(), n) ==> integer_read(v) == Some(n) && tells(decoded(v)->0.value, n),
        within(dt.bounds(), integer_read(v)->0),
        (n - integer_read(v)->0) % patterns(dt.width()->0) == 0,
{
    written_integers(dt, value, x, v, n);
    what_is_written_is_read_back(dt, value, x, v);
    integers_are_decoded_as_they_were_read(v, integer_read(v)->0);
}

/// A value is written exactly where it is one of the datatype: a boolean as a boolean, a text as a
/// text, a number as a float; an integer as an integer, and as one of 64 bits also the text that
/// spells one. Nothing is written as bytes, and neither null nor an array nor an object is written.
pub proof fn values_of_the_datatype_are_written(dt: DataType, value: JsonView, n: int)
    ensures
        dt == DataType::Bool ==> (variant_of(dt, value) is Ok <==> value is Bool),
        dt == DataType::String ==> (variant_of(dt, value) is Ok <==> value is Text),
        dt == DataType::Float32 || dt == DataType::Float64 ==> (variant_of(dt, value) is Ok
            <==> value is Number),
        dt == DataType::Bytes ==> variant_of(dt, value) is Err,
        value is Null || value is Array || value is Object ==> variant_of(dt, value) is Err,
        dt.integral() && value is Bool ==> variant_of(dt, value) is Err,
        dt.integral() && within(dt.bounds(), n) && json_tells(value, n) ==> (
        variant_of(dt, value) is Ok <==> value is Number || dt.width() == Some(8nat)),
        dt.integral() && (value matches JsonView::Number(m) && m is Float) ==> variant_of(
            dt,
            value,
        ) is Err,
        dt.integral() && json_tells(value, n) && n < 0 && !within(dt.bounds(), -1) ==> variant_of(
            dt,
            value,
        ) is Err,
{
    if let JsonView::Text(t) = value {
        if spells(t, n) {
            spelt_text(t, n);
        }
    }
}

/// What was read of an integer of 64 bits can be written again: as the number that it is, or as
/// the text that spells it.
pub proof fn spelt_integers_read_back(u: u64)
    ensures
        spelt_u64(JsonView::Text(decimal_text(u as nat))) == Some(u),
{
    crate::text::decimal_text_reads_back(u as nat);
    let t = decimal_text(u as nat);
    assert(crate::text::is_digit(t[0]));
}

/// The text that names a status.
pub uninterp spec fn status_text(code: u32) -> Seq<char>;

/// `opcua::types::StatusCode` as text: its name, behind which its flags stand where it has any.
#[verifier::external_body]
pub(crate) fn status_name(code: u32) -> (r: String)
    ensures
        r@ == status_text(code),
{
    opcua::types::StatusCode::from(code).to_string()
}

/// A status that is good: its severity is in the highest two bits.
pub open spec fn good_status(code: u32) -> bool {
    code < 0x4000_0000
}

/// Whether a status is good.
pub fn is_good(code: u32) -> (r: bool)
    ensures
        r == good_status(code),
{
    code < 0x4000_0000
}

/// The ticks of OPC UA, of a hundred nanoseconds, between the starts of 1601 and of 1970.
pub const UNIX_EPOCH_TICKS: i128 = 116_444_736_000_000_000;

/// A point in time that can be written: from the year -9999 to the year 9999.
pub open spec fn writable_moment(unix_nanos: int) -> bool {
    -377_705_116_800_000_000_000 <= unix_nanos < 253_402_300_800_000_000_000
}

/// `time::OffsetDateTime::from_unix_timestamp_nanos`: whether there is such a point in time. Its
/// dates run from the first day of the year -9999 to the last day of the year 9999.
#[verifier::external_body]
fn is_moment(unix_nanos: i128) -> (r: bool)
    ensures
        r == writable_moment(unix_nanos as int),
{
    time::OffsetDateTime::from_unix_timestamp_nanos(unix_nanos).is_ok()
}

/// The point in time of OPC UA ticks, in nanoseconds since the start of 1970. No ticks are no
/// point in time.
pub open spec fn moment_of_ticks(ticks: i64) -> Option<int> {
    let n = (ticks - 116_444_736_000_000_000) * 100;
    if ticks != 0 && writable_moment(n) {
        Some(n)
    } else {
        None
    }
}

/// The point in time of OPC UA ticks.
pub fn opcua_datetime_to_ts(ticks: i64) -> (r: Option<i128>)
    ensures
        match r {
            Some(n) => moment_of_ticks(ticks) == Some(n as int),
            None => moment_of_ticks(ticks) is None,
        },
{
    if ticks == 0 {
        return None;
    }
    let n: i128 = (ticks as i128 - UNIX_EPOCH_TICKS) * 100;
    if is_moment(n) {
        Some(n)
    } else {
        None
    }
}

/// When a value is of: when its source says, or else its server, or else now.
pub open spec fn value_moment(source: Option<i64>, server: Option<i64>, now: int) -> int {
    let ticks = match source {
        Some(t) => Some(t),
        None => server,
    };
    match ticks {
        Some(t) => match moment_of_ticks(t) {
            Some(n) => n,
            None => now,
        },
        None => now,
    }
}

/// When a value is of.
pub fn data_value_ts(source: Option<i64>, server: Option<i64>, now: i128) -> (r: i128)
    ensures
        r == value_moment(source, server, now as int),
{
    let ticks: Option<i64> = match source {
        Some(t) => Some(t),
        None => server,
    };
    match ticks {
        Some(t) => match opcua_datetime_to_ts(t) {
            Some(n) => n,
            None => now,
        },
        None => now,
    }
}

/// A status is good where neither of its two highest bits, which are its severity, is set.
pub proof fn statuses_are_good_by_their_severity(code: u32)
    ensures
        good_status(code) <==> code >> 30 == 0,
{
    assert(code < 0x4000_0000 <==> code >> 30 == 0) by (bit_vector);
}

/// A tick is a hundred nanoseconds, and the ticks of 369 years with 89 leap days end at the start
/// of 1970. No ticks are no point in time, and neither are those that cannot be written.
pub proof fn moments_follow_the_ticks(a: i64, b: i64)
    ensures
        moment_of_ticks(0) is None,
        moment_of_ticks(a) matches Some(x) ==> (moment_of_ticks(b) matches Some(y) ==> y - x == 100
            * (b - a)),
        a == (369 * 365 + 89) * 86_400 * 10_000_000 ==> moment_of_ticks(a) == Some(0int),
        moment_of_ticks(a) matches Some(x) ==> writable_moment(x),
        a != 0 && writable_moment(100 * (a - (369 * 365 + 89) * 86_400 * 10_000_000))
            ==> moment_of_ticks(a) is Some,
{
}

/// A value is of the time that its source gives; where that gives none, of the time that the
/// server gives; and of now where what is given is no point in time, or nothing is.
pub proof fn values_are_of_their_source_time(source: Option<i64>, server: Option<i64>, now: int)
    ensures
        source matches Some(t) ==> (moment_of_ticks(t) matches Some(x) ==> value_moment(
            source,
            server,
            now,
        ) == x),
        source is None ==> (server matches Some(t) ==> (moment_of_ticks(t) matches Some(x)
            ==> value_moment(source, server, now) == x)),
        source is None && server is None ==> value_moment(source, server, now) == now,
        source matches Some(t) ==> moment_of_ticks(t) is None ==> value_moment(source, server, now)
            == now,
{
}

} // verus!
