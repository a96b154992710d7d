//! JSON values: what they hold, how they are read and changed.
use crate::keyed::{ascending, field, set_field_keeps_order, with_field};
use crate::keyed::{field_at, field_nowhere, with_field_at};
use crate::text::{precedes, same_text, str_of, text_precedes, texts};
use serde_json::Value as SerdeValue;
use vstd::prelude::*;

verus! {

#[verifier::external_type_specification]
#[verifier::external_body]
pub struct ExNumber(serde_json::Number);

/// What a JSON number is. An integer is held as such; what has a fraction or an exponent, or is
/// out of the integers' range, is carried through as `serde_json` holds it.
#[derive(Debug, PartialEq)]
pub enum Numeral {
    PosInt(u64),
    NegInt(i64),
    Float(serde_json::Number),
}

/// A JSON number: below zero only where it is a `NegInt`, an integer never as a `Float`.
#[derive(Debug, PartialEq)]
pub struct JsonNumber {
    repr: Numeral,
}

#[derive(Debug, PartialEq)]
pub enum Json {
    Null,
    Bool(bool),
    Number(JsonNumber),
    Text(String),
    Array(Vec<Json>),
    Object(JsonObject),
}

/// A JSON object: each key once, keys in ascending order.
#[derive(Debug, PartialEq)]
pub struct JsonObject {
    fields: Vec<(String, Json)>,
}

/// What a JSON value holds.
#[verifier::ext_equal]
pub enum JsonView {
    Null,
    Bool(bool),
    Number(Numeral),
    Text(Seq<char>),
    Array(Seq<JsonView>),
    Object(Seq<(Seq<char>, JsonView)>),
}

impl Json {
    pub closed spec fn spec_view(self) -> JsonView
        decreases self,
    {
        match self {
            Json::Null => JsonView::Null,
            Json::Bool(b) => JsonView::Bool(b),
            Json::Number(n) => JsonView::Number(n@),
            Json::Text(s) => JsonView::Text(s@),
            Json::Array(items) => JsonView::Array(
                Seq::new(
                    items@.len(),
                    |i: int| if 0 <= i < items@.len() { items@[i].spec_view() } else { arbitrary() },
                ),
            ),
            Json::Object(o) => JsonView::Object(
                Seq::new(
                    o.fields@.len(),
                    |i: int|
                        if 0 <= i < o.fields@.len() {
                            (o.fields@[i].0@, o.fields@[i].1.spec_view())
                        } else {
                            arbitrary()
                        },
                ),
            ),
        }
    }
}

impl View for Json {
    type V = JsonView;

    open spec fn view(&self) -> JsonView {
        self.spec_view()
    }
}

/// The fields of an object, in order: key and value.
pub type Fields = Seq<(Seq<char>, JsonView)>;

impl View for JsonObject {
    type V = Fields;

    closed spec fn view(&self) -> Fields {
        Seq::new(self.fields@.len(), |i: int| (self.fields@[i].0@, self.fields@[i].1@))
    }
}

impl JsonObject {
    #[verifier::type_invariant]
    closed spec fn ordered(self) -> bool {
        ascending(self@)
    }

    /// The object with no field.
    pub fn new() -> (r: JsonObject)
        ensures
            r@ == Fields::empty(),
    {
        let r = JsonObject { fields: Vec::new() };
        assert(r@ =~= Fields::empty());
        r
    }

    /// The value of a field.
    pub fn get(&self, key: &str) -> (r: Option<&Json>)
        ensures
            match r {
                Some(v) => field(self@, key@) == Some(v@),
                None => field(self@, key@) is None,
            },
    {
        let mut i: usize = 0;
        while i < self.fields.len()
            invariant
                i <= self.fields@.len(),
                forall|j: int| 0 <= j < i ==> #[trigger] self@[j].0 != key@,
            decreases self.fields@.len() - i,
        {
            if same_text(self.fields[i].0.as_str(), key) {
                proof {
                    field_at(self@, key@, i as int);
                }
                return Some(&self.fields[i].1);
            }
            i = i + 1;
        }
        proof {
            field_nowhere(self@, key@);
        }
        None
    }

    /// Sets a field, whether it was there or not.
    pub fn insert(&mut self, key: &str, value: Json)
        ensures
            final(self)@ == with_field(old(self)@, key@, value@),
    {
        proof {
            use_type_invariant(&*self);
        }
        let mut fields: Vec<(String, Json)> = Vec::new();
        std::mem::swap(&mut fields, &mut self.fields);
        let ghost before = old(self)@;
        let mut i: usize = 0;
        while i < fields.len() && text_precedes(fields[i].0.as_str(), key)
            invariant
                i <= fields@.len(),
                before == Seq::new(fields@.len(), |k: int| (fields@[k].0@, fields@[k].1@)),
                forall|j: int| 0 <= j < i ==> precedes(#[trigger] before[j].0, key@),
            decreases fields@.len() - i,
        {
            i = i + 1;
        }
        proof {
            with_field_at(before, key@, value@, i as int);
            set_field_keeps_order(before, key@, value@);
        }
        let ghost after = with_field(before, key@, value@);
        if i < fields.len() && same_text(fields[i].0.as_str(), key) {
            fields[i].1 = value;
        } else {
            fields.insert(i, (key.to_owned(), value));
        }
        assert(after =~= Seq::new(fields@.len(), |k: int| (fields@[k].0@, fields@[k].1@)));
        self.fields = fields;
    }
}

impl JsonObject {
    /// How many fields there are. Their keys ascend.
    pub fn len(&self) -> (r: usize)
        ensures
            r == self@.len(),
            ascending(self@),
    {
        proof {
            use_type_invariant(self);
        }
        self.fields.len()
    }

    /// The key of the field at `i`.
    pub fn key_at(&self, i: usize) -> (r: &str)
        requires
            i < self@.len(),
        ensures
            r@ == self@[i as int].0,
    {
        self.fields[i].0.as_str()
    }

    /// The value of the field at `i`.
    pub fn value_at(&self, i: usize) -> (r: &Json)
        requires
            i < self@.len(),
        ensures
            r@ == self@[i as int].1,
    {
        &self.fields[i].1
    }
}

/// The text that a value is, where it is one.
pub open spec fn as_text(v: JsonView) -> Option<Seq<char>> {
    match v {
        JsonView::Text(s) => Some(s),
        _ => None,
    }
}

/// The fields that a value has, where it is an object.
pub open spec fn as_fields(v: JsonView) -> Option<Fields> {
    match v {
        JsonView::Object(f) => Some(f),
        _ => None,
    }
}

/// The value of a field, where the value is an object that has it.
pub open spec fn member(v: JsonView, key: Seq<char>) -> Option<JsonView> {
    match v {
        JsonView::Object(f) => field(f, key),
        _ => None,
    }
}

impl Json {
    /// What an object, an array and a text hold, by their views.
    pub proof fn lemma_view(self)
        ensures
            self matches Json::Null ==> self@ == JsonView::Null,
            self matches Json::Bool(b) ==> self@ == JsonView::Bool(b),
            self matches Json::Number(n) ==> self@ == JsonView::Number(n@),
            self matches Json::Text(s) ==> self@ == JsonView::Text(s@),
            self matches Json::Array(a) ==> self@ == JsonView::Array(a@.map_values(|j: Json| j@)),
            self matches Json::Object(o) ==> self@ == JsonView::Object(o@),
    {
        match self {
            Json::Array(a) => {
                assert(self@->Array_0 =~= a@.map_values(|j: Json| j@));
            },
            Json::Object(o) => {
                assert(self@->Object_0 =~= o@);
            },
            _ => {},
        }
    }

    /// The text, if this is one.
    pub fn as_str(&self) -> (r: Option<&str>)
        ensures
            match r {
                Some(s) => as_text(self@) == Some(s@),
                None => as_text(self@) is None,
            },
    {
        proof {
            self.lemma_view();
        }
        match self {
            Json::Text(s) => Some(s.as_str()),
            _ => None,
        }
    }

    /// The object, if this is one.
    pub fn as_object(&self) -> (r: Option<&JsonObject>)
        ensures
            match r {
                Some(o) => as_fields(self@) == Some(o@),
                None => as_fields(self@) is None,
            },
    {
        proof {
            self.lemma_view();
        }
        match self {
            Json::Object(o) => Some(o),
            _ => None,
        }
    }

    /// The value of a field, if this is an object that has it.
    pub fn get(&self, key: &str) -> (r: Option<&Json>)
        ensures
            match r {
                Some(v) => member(self@, key@) == Some(v@),
                None => member(self@, key@) is None,
            },
    {
        proof {
            self.lemma_view();
        }
        match self {
            Json::Object(o) => o.get(key),
            _ => None,
        }
    }
}

/// Copying a number gives the same number.
pub assume_specification[ <serde_json::Number as Clone>::clone ](n: &serde_json::Number) -> (r:
    serde_json::Number)
    ensures
        r == *n,
;

impl Clone for Numeral {
    fn clone(&self) -> (r: Numeral)
        ensures
            r == *self,
    {
        match self {
            Numeral::PosInt(u) => Numeral::PosInt(*u),
            Numeral::NegInt(i) => Numeral::NegInt(*i),
            Numeral::Float(n) => Numeral::Float(n.clone()),
        }
    }
}

impl View for JsonNumber {
    type V = Numeral;

    closed spec fn view(&self) -> Numeral {
        self.repr
    }
}

impl JsonNumber {
    #[verifier::type_invariant]
    closed spec fn canonical(self) -> bool {
        match self.repr {
            Numeral::PosInt(_) => true,
            Numeral::NegInt(i) => i < 0,
            Numeral::Float(n) => numeral(n) == Numeral::Float(n),
        }
    }

    /// An integer from 0 on.
    pub fn unsigned(u: u64) -> (r: JsonNumber)
        ensures
            r@ == Numeral::PosInt(u),
    {
        JsonNumber { repr: Numeral::PosInt(u) }
    }

    /// An integer of either sign.
    pub fn signed(i: i64) -> (r: JsonNumber)
        ensures
            r@ == signed_numeral(i),
    {
        if i < 0 {
            JsonNumber { repr: Numeral::NegInt(i) }
        } else {
            JsonNumber { repr: Numeral::PosInt(i as u64) }
        }
    }

    /// The number that a `serde_json` number is.
    pub fn of(n: serde_json::Number) -> (r: JsonNumber)
        ensures
            r@ == numeral(n),
    {
        if let Some(u) = n.as_u64() {
            JsonNumber { repr: Numeral::PosInt(u) }
        } else if let Some(i) = n.as_i64() {
            JsonNumber { repr: Numeral::NegInt(i) }
        } else {
            JsonNumber { repr: Numeral::Float(n) }
        }
    }

    /// What the number is.
    pub fn numeral(&self) -> (r: Numeral)
        ensures
            r == self@,
    {
        self.repr.clone()
    }

    /// The number where it is an integer from 0 on.
    pub fn as_u64(&self) -> (r: Option<u64>)
        ensures
            r == numeral_as_u64(self@),
    {
        match &self.repr {
            Numeral::PosInt(u) => Some(*u),
            _ => None,
        }
    }

    /// The number where it is an integer that fits.
    pub fn as_i64(&self) -> (r: Option<i64>)
        ensures
            r == numeral_as_i64(self@),
    {
        match &self.repr {
            Numeral::PosInt(u) => if *u <= i64::MAX as u64 {
                Some(*u as i64)
            } else {
                None
            },
            Numeral::NegInt(i) => Some(*i),
            Numeral::Float(_) => None,
        }
    }

    /// The same number for `serde_json`.
    pub fn to_number(&self) -> (r: serde_json::Number)
        ensures
            numeral(r) == self@,
    {
        proof {
            use_type_invariant(self);
        }
        match &self.repr {
            Numeral::PosInt(u) => number_of_unsigned(*u),
            Numeral::NegInt(i) => number_of_signed(*i),
            Numeral::Float(n) => n.clone(),
        }
    }
}

/// The numeral of an integer.
pub open spec fn signed_numeral(i: i64) -> Numeral {
    if i < 0 {
        Numeral::NegInt(i)
    } else {
        Numeral::PosInt(i as u64)
    }
}

/// The integer from 0 on that a numeral is.
pub open spec fn numeral_as_u64(n: Numeral) -> Option<u64> {
    match n {
        Numeral::PosInt(u) => Some(u),
        _ => None,
    }
}

/// The integer in the range of `i64` that a numeral is.
pub open spec fn numeral_as_i64(n: Numeral) -> Option<i64> {
    match n {
        Numeral::PosInt(u) => if u <= i64::MAX {
            Some(u as i64)
        } else {
            None
        },
        Numeral::NegInt(i) => Some(i),
        Numeral::Float(_) => None,
    }
}

impl Clone for JsonNumber {
    fn clone(&self) -> (r: JsonNumber)
        ensures
            r@ == self@,
    {
        proof {
            use_type_invariant(self);
        }
        JsonNumber { repr: self.repr.clone() }
    }
}

impl Clone for Json {
    fn clone(&self) -> (r: Json)
        ensures
            r@ == self@,
        decreases self@,
    {
        proof {
            self.lemma_view();
        }
        let r = match self {
            Json::Null => Json::Null,
            Json::Bool(b) => Json::Bool(*b),
            Json::Number(n) => Json::Number(n.clone()),
            Json::Text(s) => Json::Text(s.clone()),
            Json::Array(items) => {
                let mut out: Vec<Json> = Vec::new();
                let mut i: usize = 0;
                while i < items.len()
                    invariant
                        i <= items@.len(),
                        out@.len() == i,
                        forall|k: int| 0 <= k < i ==> (#[trigger] out@[k])@ == items@[k]@,
                        self@ == JsonView::Array(items@.map_values(|j: Json| j@)),
                    decreases items@.len() - i,
                {
                    assert(items@[i as int]@ == self@->Array_0[i as int]);
                    out.push(items[i].clone());
                    i = i + 1;
                }
                assert(out@.map_values(|j: Json| j@) =~= items@.map_values(|j: Json| j@));
                Json::Array(out)
            },
            Json::Object(o) => {
                assert(o@ == self@->Object_0);
                Json::Object(o.clone())
            },
        };
        proof {
            r.lemma_view();
        }
        r
    }
}

impl Clone for JsonObject {
    fn clone(&self) -> (r: JsonObject)
        ensures
            r@ == self@,
        decreases self@,
    {
        proof {
            use_type_invariant(self);
        }
        let mut out: Vec<(String, Json)> = Vec::new();
        let mut i: usize = 0;
        while i < self.fields.len()
            invariant
                i <= self.fields@.len(),
                out@.len() == i,
                forall|k: int|
                    0 <= k < i ==> (#[trigger] out@[k]).0@ == self.fields@[k].0@ && out@[k].1@
                        == self.fields@[k].1@,
            decreases self.fields@.len() - i,
        {
            assert(self.fields@[i as int].1@ == self@[i as int].1);
            out.push((self.fields[i].0.clone(), self.fields[i].1.clone()));
            i = i + 1;
        }
        assert(self@ =~= Seq::new(out@.len(), |k: int| (out@[k].0@, out@[k].1@)));
        let copied = JsonObject { fields: out };
        assert(copied@ =~= self@);
        copied
    }
}

#[verifier::external_type_specification]
#[verifier::external_body]
pub struct ExSerdeValue(SerdeValue);

/// What a `serde_json` value holds.
pub uninterp spec fn contents(v: SerdeValue) -> JsonView;

/// What a `serde_json` number is.
pub uninterp spec fn numeral(n: serde_json::Number) -> Numeral;

/// The value that a text in UTF-8 is parsed to, if it is JSON.
pub uninterp spec fn parsed(bytes: Seq<u8>) -> Option<JsonView>;

/// The compact text of a value.
pub uninterp spec fn printed(v: JsonView) -> Seq<char>;

/// One level of a `serde_json` value.
pub enum Opened {
    Null,
    Bool(bool),
    Number(serde_json::Number),
    Text(String),
    Array(Vec<SerdeValue>),
    Object(Vec<(String, SerdeValue)>),
}

/// The level `o` is the outermost one of a value that holds `v`.
pub open spec fn opens(o: Opened, v: JsonView) -> bool {
    match o {
        Opened::Null => v == JsonView::Null,
        Opened::Bool(b) => v == JsonView::Bool(b),
        Opened::Number(n) => v == JsonView::Number(numeral(n)),
        Opened::Text(s) => v == JsonView::Text(s@),
        Opened::Array(items) => {
            &&& v is Array
            &&& v->Array_0 =~= items@.map_values(|x: SerdeValue| contents(x))
        },
        Opened::Object(fields) => {
            &&& v is Object
            &&& ascending(v->Object_0)
            &&& v->Object_0 =~= fields@.map_values(
                |e: (String, SerdeValue)| (e.0@, contents(e.1)),
            )
        },
    }
}

/// The outermost level of a value: which variant it is, and what that variant holds. The fields
/// of a `serde_json::Map` come out in the order of their keys, each key once.
#[verifier::external_body]
fn open_value(v: SerdeValue) -> (r: Opened)
    ensures
        opens(r, contents(v)),
{
    match v {
        SerdeValue::Null => Opened::Null,
        SerdeValue::Bool(b) => Opened::Bool(b),
        SerdeValue::Number(n) => Opened::Number(n),
        SerdeValue::String(s) => Opened::Text(s),
        SerdeValue::Array(items) => Opened::Array(items),
        SerdeValue::Object(fields) => Opened::Object(fields.into_iter().collect()),
    }
}

/// The value whose outermost level is given. Fields that come with ascending keys are the fields
/// of the `serde_json::Map` that they make.
#[verifier::external_body]
fn close_value(o: Opened) -> (r: SerdeValue)
    requires
        o matches Opened::Object(fields) ==> ascending(
            fields@.map_values(|e: (String, SerdeValue)| (e.0@, contents(e.1))),
        ),
    ensures
        opens(o, contents(r)),
{
    match o {
        Opened::Null => SerdeValue::Null,
        Opened::Bool(b) => SerdeValue::Bool(b),
        Opened::Number(n) => SerdeValue::Number(n),
        Opened::Text(s) => SerdeValue::String(s),
        Opened::Array(items) => SerdeValue::Array(items),
        Opened::Object(fields) => SerdeValue::Object(fields.into_iter().collect()),
    }
}

/// `serde_json::Number::as_u64`: the number where it is an integer from 0 on.
pub assume_specification[ serde_json::Number::as_u64 ](n: &serde_json::Number) -> (r: Option<u64>)
    ensures
        r == numeral_as_u64(numeral(*n)),
;

/// `serde_json::Number::as_i64`: the number where it is an integer that fits. A number is
/// held as a signed integer only below zero, and what is no integer is the number itself.
pub assume_specification[ serde_json::Number::as_i64 ](n: &serde_json::Number) -> (r: Option<i64>)
    ensures
        r == numeral_as_i64(numeral(*n)),
        r matches Some(i) ==> numeral(*n) == signed_numeral(i),
        r is None ==> numeral(*n) is PosInt || numeral(*n) == Numeral::Float(*n),
;

/// `serde_json::Number::from` an unsigned integer.
#[verifier::external_body]
fn number_of_unsigned(u: u64) -> (r: serde_json::Number)
    ensures
        numeral(r) == Numeral::PosInt(u),
{
    serde_json::Number::from(u)
}

/// `serde_json::Number::from` a signed integer.
#[verifier::external_body]
fn number_of_signed(i: i64) -> (r: serde_json::Number)
    ensures
        numeral(r) == signed_numeral(i),
{
    serde_json::Number::from(i)
}

/// `serde_json::from_slice` into a value: the value that the bytes spell, if they are JSON.
#[verifier::external_body]
fn value_from_bytes(bytes: &[u8]) -> (r: Option<SerdeValue>)
    ensures
        match r {
            Some(v) => parsed(bytes@) == Some(contents(v)),
            None => parsed(bytes@) is None,
        },
{
    serde_json::from_slice(bytes).ok()
}

/// `serde_json::Value::to_string`: the value as compact JSON.
#[verifier::external_body]
fn value_to_text(v: &SerdeValue) -> (r: String)
    ensures
        r@ == printed(contents(*v)),
{
    v.to_string()
}

impl Json {
    /// The value that a `serde_json` value is.
    pub fn from_value(v: SerdeValue) -> (r: Json)
        ensures
            r@ == contents(v),
        decreases contents(v),
    {
        let r = match open_value(v) {
            Opened::Null => Json::Null,
            Opened::Bool(b) => Json::Bool(b),
            Opened::Number(n) => Json::Number(JsonNumber::of(n)),
            Opened::Text(s) => Json::Text(s),
            Opened::Array(items) => {
                let ghost all = items@;
                let mut out: Vec<Json> = Vec::new();
                for x in it: items
                    invariant
                        it.seq() == all,
                        out@.len() == it.index(),
                        contents(v) is Array,
                        contents(v)->Array_0 == all.map_values(|x: SerdeValue| contents(x)),
                        forall|k: int|
                            0 <= k < out@.len() ==> (#[trigger] out@[k])@ == contents(all[k]),
                {
                    assert(contents(x) == contents(v)->Array_0[it.index() as int]);
                    out.push(Json::from_value(x));
                }
                assert(out@.map_values(|j: Json| j@) =~= contents(v)->Array_0);
                Json::Array(out)
            },
            Opened::Object(fields) => {
                let ghost all = fields@;
                let mut out: Vec<(String, Json)> = Vec::new();
                for x in it: fields
                    invariant
                        it.seq() == all,
                        out@.len() == it.index(),
                        contents(v) is Object,
                        contents(v)->Object_0 == all.map_values(
                            |e: (String, SerdeValue)| (e.0@, contents(e.1)),
                        ),
                        forall|k: int|
                            0 <= k < out@.len() ==> (#[trigger] out@[k]).0@ == all[k].0@
                                && out@[k].1@ == contents(all[k].1),
                {
                    assert(contents(x.1) == contents(v)->Object_0[it.index() as int].1);
                    out.push((x.0, Json::from_value(x.1)));
                }
                assert(contents(v)->Object_0 =~= Seq::new(
                    out@.len(),
                    |k: int| (out@[k].0@, out@[k].1@),
                ));
                let o = JsonObject { fields: out };
                assert(o@ =~= contents(v)->Object_0);
                Json::Object(o)
            },
        };
        proof {
            r.lemma_view();
        }
        r
    }

    /// The same value for `serde_json`.
    pub fn to_value(&self) -> (r: SerdeValue)
        ensures
            contents(r) == self@,
        decreases self@,
    {
        proof {
            self.lemma_view();
        }
        match self {
            Json::Null => close_value(Opened::Null),
            Json::Bool(b) => close_value(Opened::Bool(*b)),
            Json::Number(n) => close_value(Opened::Number(n.to_number())),
            Json::Text(s) => close_value(Opened::Text(s.clone())),
            Json::Array(items) => {
                let mut out: Vec<SerdeValue> = Vec::new();
                let mut i: usize = 0;
                while i < items.len()
                    invariant
                        i <= items@.len(),
                        out@.len() == i,
                        self@ == JsonView::Array(items@.map_values(|j: Json| j@)),
                        forall|k: int| 0 <= k < i ==> contents(#[trigger] out@[k]) == items@[k]@,
                    decreases items@.len() - i,
                {
                    assert(items@[i as int]@ == self@->Array_0[i as int]);
                    out.push(items[i].to_value());
                    i = i + 1;
                }
                assert(out@.map_values(|x: SerdeValue| contents(x)) =~= self@->Array_0);
                close_value(Opened::Array(out))
            },
            Json::Object(o) => {
                proof {
                    use_type_invariant(o);
                }
                let mut out: Vec<(String, SerdeValue)> = Vec::new();
                let mut i: usize = 0;
                while i < o.fields.len()
                    invariant
                        i <= o.fields@.len(),
                        out@.len() == i,
                        self@ == JsonView::Object(o@),
                        forall|k: int|
                            0 <= k < i ==> (#[trigger] out@[k]).0@ == o@[k].0 && contents(out@[k].1)
                                == o@[k].1,
                    decreases o.fields@.len() - i,
                {
                    assert(o.fields@[i as int].1@ == self@->Object_0[i as int].1);
                    out.push((o.fields[i].0.clone(), o.fields[i].1.to_value()));
                    i = i + 1;
                }
                assert(out@.map_values(|e: (String, SerdeValue)| (e.0@, contents(e.1)))
                    =~= o@);
                close_value(Opened::Object(out))
            },
        }
    }

    /// The value that the bytes spell, if they are JSON.
    pub fn parse(bytes: &[u8]) -> (r: Option<Json>)
        ensures
            match r {
                Some(j) => parsed(bytes@) == Some(j@),
                None => parsed(bytes@) is None,
            },
    {
        match value_from_bytes(bytes) {
            Some(v) => Some(Json::from_value(v)),
            None => None,
        }
    }

    /// The value as compact JSON.
    pub fn print(&self) -> (r: String)
        ensures
            r@ == printed(self@),
    {
        value_to_text(&self.to_value())
    }
}

impl Json {
    /// A text.
    pub fn text(s: &str) -> (r: Json)
        ensures
            r@ == JsonView::Text(s@),
    {
        Json::of_string(s.to_owned())
    }

    /// A text.
    pub fn of_string(s: String) -> (r: Json)
        ensures
            r@ == JsonView::Text(s@),
    {
        let r = Json::Text(s);
        proof {
            r.lemma_view();
        }
        r
    }

    /// A truth value.
    pub fn of_bool(b: bool) -> (r: Json)
        ensures
            r@ == JsonView::Bool(b),
    {
        let r = Json::Bool(b);
        proof {
            r.lemma_view();
        }
        r
    }

    /// A number.
    pub fn of_number(n: JsonNumber) -> (r: Json)
        ensures
            r@ == JsonView::Number(n@),
    {
        let r = Json::Number(n);
        proof {
            r.lemma_view();
        }
        r
    }

    /// An integer from 0 on.
    pub fn of_unsigned(u: u64) -> (r: Json)
        ensures
            r@ == JsonView::Number(Numeral::PosInt(u)),
    {
        Json::of_number(JsonNumber::unsigned(u))
    }

    /// An array.
    pub fn of_items(items: Vec<Json>) -> (r: Json)
        ensures
            r@ == JsonView::Array(views(items@)),
    {
        let r = Json::Array(items);
        proof {
            r.lemma_view();
        }
        r
    }

    /// An object.
    pub fn of_object(o: JsonObject) -> (r: Json)
        ensures
            r@ == JsonView::Object(o@),
    {
        let r = Json::Object(o);
        proof {
            r.lemma_view();
        }
        r
    }

    /// Null.
    pub fn null() -> (r: Json)
        ensures
            r@ == JsonView::Null,
    {
        let r = Json::Null;
        proof {
            r.lemma_view();
        }
        r
    }

    /// An array of texts.
    pub fn of_texts(v: &Vec<String>) -> (r: Json)
        ensures
            r@ == JsonView::Array(text_views(texts(v@))),
    {
        let mut out: Vec<Json> = Vec::new();
        let mut i: usize = 0;
        while i < v.len()
            invariant
                i <= v@.len(),
                out@.len() == i,
                forall|k: int| 0 <= k < i ==> (#[trigger] out@[k])@ == JsonView::Text(v@[k]@),
            decreases v@.len() - i,
        {
            out.push(Json::text(v[i].as_str()));
            i = i + 1;
        }
        assert(views(out@) =~= text_views(texts(v@)));
        Json::of_items(out)
    }

    /// The items, if this is an array.
    pub fn as_array(&self) -> (r: Option<&Vec<Json>>)
        ensures
            match r {
                Some(a) => self@ == JsonView::Array(views(a@)),
                None => self@ !is Array,
            },
    {
        proof {
            self.lemma_view();
        }
        match self {
            Json::Array(a) => Some(a),
            _ => None,
        }
    }
}

/// What each value holds.
pub open spec fn views(v: Seq<Json>) -> Seq<JsonView> {
    v.map_values(|j: Json| j@)
}

/// What an optional value holds.
pub open spec fn view_of(v: Option<Json>) -> Option<JsonView> {
    match v {
        Some(j) => Some(j@),
        None => None,
    }
}

/// What an optional borrowed value holds.
pub open spec fn view_of_ref(v: Option<&Json>) -> Option<JsonView> {
    match v {
        Some(j) => Some(j@),
        None => None,
    }
}

/// A copy of a value that may be missing.
pub fn copy_json(v: &Option<Json>) -> (r: Option<Json>)
    ensures
        view_of(r) == view_of(*v),
{
    match v {
        Some(j) => Some(j.clone()),
        None => None,
    }
}

/// Texts as values.
pub open spec fn text_views(s: Seq<Seq<char>>) -> Seq<JsonView> {
    s.map_values(|t: Seq<char>| JsonView::Text(t))
}

/// The fields with `key` set where there is a value for it.
pub open spec fn with_optional(f: Fields, key: Seq<char>, value: Option<JsonView>) -> Fields {
    match value {
        Some(v) => with_field(f, key, v),
        None => f,
    }
}

/// The value of a text.
pub open spec fn text_view(s: Option<Seq<char>>) -> Option<JsonView> {
    match s {
        Some(t) => Some(JsonView::Text(t)),
        None => None,
    }
}

/// A field that is a text.
pub open spec fn text_member(v: JsonView, key: Seq<char>) -> Option<Seq<char>> {
    match member(v, key) {
        Some(x) => as_text(x),
        None => None,
    }
}

/// A field that is an object.
pub open spec fn fields_member(v: JsonView, key: Seq<char>) -> Option<Fields> {
    match member(v, key) {
        Some(x) => as_fields(x),
        None => None,
    }
}

impl Json {
    /// The text of a field, if this is an object with such a field.
    pub fn get_str(&self, key: &str) -> (r: Option<&str>)
        ensures
            str_of(r) == text_member(self@, key@),
    {
        match self.get(key) {
            Some(v) => v.as_str(),
            None => None,
        }
    }
}

impl JsonObject {
    /// Sets a field where there is a value for it.
    pub fn insert_optional(&mut self, key: &str, value: Option<Json>)
        ensures
            final(self)@ == with_optional(old(self)@, key@, view_of(value)),
    {
        if let Some(v) = value {
            self.insert(key, v);
        }
    }

    /// Sets a field to a text where there is one.
    pub fn insert_text(&mut self, key: &str, value: Option<&str>)
        ensures
            final(self)@ == with_optional(old(self)@, key@, text_view(str_of(value))),
    {
        if let Some(s) = value {
            self.insert(key, Json::text(s));
        }
    }
}

/// The float that is nearest to an integer, as a number.
pub uninterp spec fn float_near(n: Numeral) -> serde_json::Number;

/// The float that a number is read as, as a number: itself, where it is one.
pub open spec fn nearest_float(n: Numeral) -> serde_json::Number {
    match n {
        Numeral::Float(x) => x,
        _ => float_near(n),
    }
}

/// `serde_json::Number::as_f64` with `serde_json::Number::from_f64`: the number as a float, which
/// a number of `serde_json` always has and which is finite. A number that is a float stays as it
/// is.
#[verifier::external_body]
fn float_number(n: &serde_json::Number) -> (r: Option<serde_json::Number>)
    ensures
        r == Some(
            match numeral(*n) {
                Numeral::Float(x) => x,
                _ => float_near(numeral(*n)),
            },
        ),
        r is Some ==> numeral(r->0) == Numeral::Float(r->0),
{
    n.as_f64().and_then(serde_json::Number::from_f64)
}

impl JsonNumber {
    /// The number as a float.
    pub fn as_float(&self) -> (r: JsonNumber)
        ensures
            r@ == Numeral::Float(nearest_float(self@)),
    {
        match float_number(&self.to_number()) {
            Some(n) => JsonNumber { repr: Numeral::Float(n) },
            None => self.clone(),
        }
    }
}

/// How a number is written for people.
pub uninterp spec fn plain_number(n: Numeral) -> Seq<char>;

/// `serde_json::Number::as_f64` by the `Display` of the float that it returns.
#[verifier::external_body]
fn display_number(n: &serde_json::Number) -> (r: String)
    ensures
        r@ == plain_number(numeral(*n)),
{
    n.as_f64().map(|x| x.to_string()).unwrap_or_default()
}

impl JsonNumber {
    /// The number as it is written for people.
    pub fn plain(&self) -> (r: String)
        ensures
            r@ == plain_number(self@),
    {
        display_number(&self.to_number())
    }
}

/// An integer reads back as it was written: as a signed one always, as one from 0 on where it is
/// one.
pub proof fn integers_read_back(i: i64, u: u64)
    ensures
        numeral_as_i64(signed_numeral(i)) == Some(i),
        numeral_as_u64(Numeral::PosInt(u)) == Some(u),
        i >= 0 ==> numeral_as_u64(signed_numeral(i)) == Some(i as u64),
        i < 0 ==> numeral_as_u64(signed_numeral(i)) is None,
        numeral_as_i64(Numeral::PosInt(u)) matches Some(k) ==> k == u,
        numeral_as_i64(Numeral::PosInt(u)) is Some <==> u <= i64::MAX,
{
}

} // verus!
