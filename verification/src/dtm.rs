//! Property definitions for Cumulocity's Digital Twin Manager: one for each parameter set, made
//! from configurations or from the manifests that devices publish.
//!
//! A set is known to the whole tenant by its name. So a set that several devices share is one
//! definition: their keys come together, and what is first said of a key holds.
use crate::config::ConnectorConfig;
use crate::connector::Access;
use crate::descriptor::{
    config_parameters, numeral_of, parameters, params, Parameter, ParameterView,
};
use crate::json::{
    fields_member, member, nearest_float, text_member, text_views, view_of, views, with_optional,
    Fields, Json, JsonNumber, JsonObject, JsonView, Numeral,
};
use crate::keyed::{field, with_field};
use crate::model::DataType;
use crate::text::{
    as_deref, concat3, join, joined, same_text, split, split_parts, str_of, texts, to_upper, upper,
};
use vstd::prelude::*;

verus! {

/// A word with its first character in upper case.
pub open spec fn capitalized(s: Seq<char>) -> Seq<char> {
    if s.len() == 0 {
        s
    } else {
        upper(s[0]) + s.drop_first()
    }
}

/// The parts that are not empty, the first of them capitalized.
pub open spec fn title_words(parts: Seq<Seq<char>>) -> Seq<Seq<char>>
    decreases parts.len(),
{
    if parts.len() == 0 {
        Seq::empty()
    } else {
        let head = title_words(parts.drop_last());
        let part = parts.last();
        if part.len() == 0 {
            head
        } else if head.len() == 0 {
            head.push(capitalized(part))
        } else {
            head.push(part)
        }
    }
}

/// A key as a heading: its words with spaces between them.
pub open spec fn title_of(key: Seq<char>) -> Seq<char> {
    joined(title_words(split_parts(key, '_')), " "@)
}

/// A key as a heading.
pub fn title_from_key(key: &str) -> (r: String)
    ensures
        r@ == title_of(key@),
{
    let parts: Vec<String> = split(key, '_');
    let ghost all = texts(parts@);
    let mut words: Vec<String> = Vec::new();
    let mut i: usize = 0;
    assert(all.take(0) =~= Seq::<Seq<char>>::empty());
    assert(texts(words@) =~= Seq::<Seq<char>>::empty());
    while i < parts.len()
        invariant
            i <= parts@.len(),
            all == texts(parts@),
            texts(words@) == title_words(all.take(i as int)),
        decreases parts@.len() - i,
    {
        assert(all.take(i + 1).drop_last() =~= all.take(i as int));
        assert(all.take(i + 1).last() == parts@[i as int]@);
        let part: &str = parts[i].as_str();
        let ghost head = texts(words@);
        if !part.is_empty() {
            if words.len() == 0 {
                let n: usize = part.unicode_len();
                let mut word: String = to_upper(part.get_char(0));
                word.append(part.substring_char(1, n));
                assert(part@.subrange(1, n as int) =~= part@.drop_first());
                words.push(word);
                assert(texts(words@) =~= head.push(capitalized(part@)));
            } else {
                words.push(part.to_owned());
                assert(texts(words@) =~= head.push(part@));
            }
        }
        i = i + 1;
    }
    assert(all.take(all.len() as int) =~= all);
    join(&words, " ")
}

/// What a schema of a parameter is made from.
#[verifier::ext_equal]
pub struct SchemaView {
    pub json_type: Seq<char>,
    pub title: Seq<char>,
    pub description: Seq<char>,
    pub unit: Option<Seq<char>>,
    pub write_only: bool,
    pub read_only: bool,
    pub min: Option<Numeral>,
    pub max: Option<Numeral>,
    pub options: Fields,
}

/// `s` with `more` behind it, after a space where there is something before it.
pub open spec fn appended(s: Seq<char>, more: Seq<char>) -> Seq<char> {
    if s.len() == 0 {
        more
    } else {
        s + " "@ + more
    }
}

impl SchemaView {
    /// The description, with the unit and with a note of what cannot be read back.
    pub open spec fn full_description(self) -> Seq<char> {
        let d = match self.unit {
            Some(u) => appended(self.description, "["@ + u + "]"@),
            None => self.description,
        };
        if self.write_only {
            appended(d, "(write-only: shows the last value written)"@)
        } else {
            d
        }
    }

    /// The schema's fields.
    pub open spec fn fields(self) -> Fields {
        let f = Fields::empty();
        let f = with_field(f, "type"@, JsonView::Text(self.json_type));
        let f = with_field(f, "title"@, JsonView::Text(self.title));
        let f = if self.full_description().len() > 0 {
            with_field(f, "description"@, JsonView::Text(self.full_description()))
        } else {
            f
        };
        let f = with_optional(f, "minimum"@, float_view(self.min));
        let f = with_optional(f, "maximum"@, float_view(self.max));
        let f = with_optional(f, "enum"@, field(self.options, "enum"@));
        let f = with_optional(f, "default"@, field(self.options, "default"@));
        let f = with_optional(f, "order"@, field(self.options, "order"@));
        if self.read_only {
            with_field(f, "readOnly"@, JsonView::Bool(true))
        } else {
            f
        }
    }
}

/// A number as a float.
pub open spec fn float_view(n: Option<Numeral>) -> Option<JsonView> {
    match n {
        Some(x) => Some(JsonView::Number(Numeral::Float(nearest_float(x)))),
        None => None,
    }
}

struct SchemaSource<'a> {
    json_type: &'static str,
    title: &'a str,
    description: &'a str,
    unit: Option<&'a str>,
    write_only: bool,
    read_only: bool,
    min: Option<JsonNumber>,
    max: Option<JsonNumber>,
    options: &'a JsonObject,
}

impl<'a> View for SchemaSource<'a> {
    type V = SchemaView;

    closed spec fn view(&self) -> SchemaView {
        SchemaView {
            json_type: self.json_type@,
            title: self.title@,
            description: self.description@,
            unit: str_of(self.unit),
            write_only: self.write_only,
            read_only: self.read_only,
            min: numeral_of(self.min),
            max: numeral_of(self.max),
            options: self.options@,
        }
    }
}

fn append(s: &mut String, more: &str)
    ensures
        final(s)@ == appended(old(s)@, more@),
{
    if !s.as_str().is_empty() {
        s.append(" ");
    }
    s.append(more);
    assert(s@ =~= appended(old(s)@, more@));
}

fn float_json(n: &Option<JsonNumber>) -> (r: Option<Json>)
    ensures
        view_of(r) == float_view(numeral_of(*n)),
{
    match n {
        Some(x) => Some(Json::of_number(x.as_float())),
        None => None,
    }
}

fn copy_option(options: &JsonObject, key: &str) -> (r: Option<Json>)
    ensures
        view_of(r) == field(options@, key@),
{
    match options.get(key) {
        Some(v) => Some(v.clone()),
        None => None,
    }
}

fn schema(src: &SchemaSource) -> (r: Json)
    ensures
        r@ == JsonView::Object(src@.fields()),
{
    let mut out = JsonObject::new();
    out.insert("type", Json::text(src.json_type));
    out.insert("title", Json::text(src.title));
    let mut description: String = src.description.to_owned();
    if let Some(unit) = src.unit {
        append(&mut description, concat3("[", unit, "]").as_str());
    }
    if src.write_only {
        append(&mut description, "(write-only: shows the last value written)");
    }
    if !description.as_str().is_empty() {
        out.insert("description", Json::of_string(description));
    }
    out.insert_optional("minimum", float_json(&src.min));
    out.insert_optional("maximum", float_json(&src.max));
    out.insert_optional("enum", copy_option(src.options, "enum"));
    out.insert_optional("default", copy_option(src.options, "default"));
    out.insert_optional("order", copy_option(src.options, "order"));
    if src.read_only {
        out.insert("readOnly", Json::of_bool(true));
    }
    Json::of_object(out)
}

/// The type of a datatype in a JSON schema.
pub open spec fn schema_type(d: Option<DataType>) -> Seq<char> {
    match d {
        Some(DataType::Bool) => "boolean"@,
        Some(DataType::Float32) | Some(DataType::Float64) => "number"@,
        Some(DataType::String) | Some(DataType::Bytes) | None => "string"@,
        Some(_) => "integer"@,
    }
}

/// The least value of a datatype, where a consumer can hold its limits exactly.
pub open spec fn least(d: Option<DataType>) -> Option<Numeral> {
    match d {
        Some(DataType::Int8) => Some(Numeral::NegInt(-128i64)),
        Some(DataType::Int16) => Some(Numeral::NegInt(-32768i64)),
        Some(DataType::Int32) => Some(Numeral::NegInt(-2147483648i64)),
        Some(DataType::Uint8) | Some(DataType::Uint16) | Some(DataType::Uint32) => Some(
            Numeral::PosInt(0),
        ),
        _ => None,
    }
}

/// The greatest value of a datatype, where a consumer can hold its limits exactly.
pub open spec fn greatest(d: Option<DataType>) -> Option<Numeral> {
    match d {
        Some(DataType::Int8) => Some(Numeral::PosInt(127)),
        Some(DataType::Int16) => Some(Numeral::PosInt(32767)),
        Some(DataType::Int32) => Some(Numeral::PosInt(2147483647)),
        Some(DataType::Uint8) => Some(Numeral::PosInt(255)),
        Some(DataType::Uint16) => Some(Numeral::PosInt(65535)),
        Some(DataType::Uint32) => Some(Numeral::PosInt(4294967295)),
        _ => None,
    }
}

fn json_type(d: Option<DataType>) -> (r: &'static str)
    ensures
        r@ == schema_type(d),
{
    match d {
        Some(DataType::Bool) => "boolean",
        Some(DataType::Float32) | Some(DataType::Float64) => "number",
        Some(DataType::String) | Some(DataType::Bytes) | None => "string",
        Some(_) => "integer",
    }
}

fn type_bounds(d: Option<DataType>) -> (r: (Option<JsonNumber>, Option<JsonNumber>))
    ensures
        numeral_of(r.0) == least(d),
        numeral_of(r.1) == greatest(d),
{
    match d {
        Some(DataType::Int8) => (Some(JsonNumber::signed(-128)), Some(JsonNumber::signed(127))),
        Some(DataType::Int16) => (
            Some(JsonNumber::signed(-32768)),
            Some(JsonNumber::signed(32767)),
        ),
        Some(DataType::Int32) => (
            Some(JsonNumber::signed(-2147483648)),
            Some(JsonNumber::signed(2147483647)),
        ),
        Some(DataType::Uint8) => (Some(JsonNumber::unsigned(0)), Some(JsonNumber::unsigned(255))),
        Some(DataType::Uint16) => (
            Some(JsonNumber::unsigned(0)),
            Some(JsonNumber::unsigned(65535)),
        ),
        Some(DataType::Uint32) => (
            Some(JsonNumber::unsigned(0)),
            Some(JsonNumber::unsigned(4294967295)),
        ),
        _ => (None, None),
    }
}

/// The first of two that there is.
pub open spec fn either<T>(a: Option<T>, b: Option<T>) -> Option<T> {
    match a {
        Some(_) => a,
        None => b,
    }
}

/// A text, or another where there is none.
pub open spec fn text_or(a: Option<Seq<char>>, b: Seq<char>) -> Seq<char> {
    match a {
        Some(t) => t,
        None => b,
    }
}

/// The text of an option of a parameter.
pub open spec fn option_text(options: Fields, key: Seq<char>) -> Option<Seq<char>> {
    text_member(JsonView::Object(options), key)
}

/// What the schema of a configured parameter is made from.
pub open spec fn parameter_schema(p: ParameterView) -> SchemaView {
    SchemaView {
        json_type: schema_type(p.datatype),
        title: text_or(either(option_text(p.options, "title"@), p.name), p.point),
        description: text_or(
            either(option_text(p.options, "description"@), p.description),
            Seq::empty(),
        ),
        unit: p.unit,
        write_only: p.access == Access::Write,
        read_only: !p.access.writable(),
        min: either(p.min, least(p.datatype)),
        max: either(p.max, greatest(p.datatype)),
        options: p.options,
    }
}

fn object_text<'a>(o: &'a JsonObject, key: &str) -> (r: Option<&'a str>)
    ensures
        str_of(r) == option_text(o@, key@),
{
    match o.get(key) {
        Some(v) => v.as_str(),
        None => None,
    }
}

fn pick(a: Option<JsonNumber>, b: Option<JsonNumber>) -> (r: Option<JsonNumber>)
    ensures
        numeral_of(r) == either(numeral_of(a), numeral_of(b)),
{
    match a {
        Some(x) => Some(x),
        None => b,
    }
}

/// The JSON schema of a parameter: its type and limits from the datatype, narrowed by the point's
/// range, and the rest from the options.
pub fn property_schema(param: &Parameter) -> (r: Json)
    ensures
        r@ == JsonView::Object(parameter_schema(param@).fields()),
{
    let (least, greatest) = type_bounds(param.datatype);
    let (min, max): (Option<JsonNumber>, Option<JsonNumber>) = match &param.range {
        Some(range) => (
            match &range.min {
                Some(n) => Some(n.clone()),
                None => None,
            },
            match &range.max {
                Some(n) => Some(n.clone()),
                None => None,
            },
        ),
        None => (None, None),
    };
    let title: &str = match object_text(&param.options, "title") {
        Some(t) => t,
        None => match &param.name {
            Some(n) => n.as_str(),
            None => param.point.as_str(),
        },
    };
    proof {
        reveal_strlit("");
    }
    let description: &str = match object_text(&param.options, "description") {
        Some(t) => t,
        None => match &param.description {
            Some(d) => d.as_str(),
            None => "",
        },
    };
    assert(""@ =~= Seq::<char>::empty());
    let src = SchemaSource {
        json_type: json_type(param.datatype),
        title,
        description,
        unit: as_deref(&param.unit),
        write_only: match param.access {
            Access::Write => true,
            _ => false,
        },
        read_only: !param.access.can_write(),
        min: pick(min, least),
        max: pick(max, greatest),
        options: &param.options,
    };
    assert(src@ =~= parameter_schema(param@));
    schema(&src)
}

/// The number nearest to an integer, in a schema.
pub open spec fn whole_bound(n: int) -> JsonView {
    JsonView::Number(
        Numeral::Float(
            nearest_float(
                if n < 0 {
                    Numeral::NegInt(n as i64)
                } else {
                    Numeral::PosInt(n as u64)
                },
            ),
        ),
    )
}

/// What a property says of the values that its datatype has: integers are of the type `integer`,
/// floats of the type `number`, booleans of the type `boolean`, and everything else of the type
/// `string`; and an integer of at most 32 bits is bounded by the least and the greatest that the
/// datatype holds, where nothing else is declared.
pub open spec fn fits_datatype(
    property: Fields,
    datatype: Option<DataType>,
    min: Option<Numeral>,
    max: Option<Numeral>,
) -> bool {
    let t = field(property, "type"@);
    let integral = datatype matches Some(d) && d.integral();
    let float = datatype == Some(DataType::Float32) || datatype == Some(DataType::Float64);
    let narrow = datatype matches Some(d) && d.integral() && d.width() != Some(8nat);
    &&& t == Some(JsonView::Text("integer"@)) <==> integral
    &&& t == Some(JsonView::Text("number"@)) <==> float
    &&& t == Some(JsonView::Text("boolean"@)) <==> datatype == Some(DataType::Bool)
    &&& t == Some(JsonView::Text("string"@)) <==> !integral && !float && datatype != Some(
        DataType::Bool,
    )
    &&& min matches Some(n) ==> field(property, "minimum"@) == Some(
        JsonView::Number(Numeral::Float(nearest_float(n))),
    )
    &&& max matches Some(n) ==> field(property, "maximum"@) == Some(
        JsonView::Number(Numeral::Float(nearest_float(n))),
    )
    &&& min is None ==> field(property, "minimum"@) == if narrow {
        Some(whole_bound(lower_end(datatype->0)))
    } else {
        None
    }
    &&& max is None ==> field(property, "maximum"@) == if narrow {
        Some(whole_bound(upper_end(datatype->0)))
    } else {
        None
    }
}

/// The least whole number that a datatype holds.
pub open spec fn lower_end(d: DataType) -> int {
    match d.bounds() {
        Some((low, _)) => low,
        None => 0,
    }
}

/// The greatest whole number that a datatype holds.
pub open spec fn upper_end(d: DataType) -> int {
    match d.bounds() {
        Some((_, high)) => high,
        None => 0,
    }
}

proof fn schema_keys()
    ensures
        "type"@ != "title"@ && "type"@ != "description"@ && "type"@ != "minimum"@ && "type"@
            != "maximum"@ && "type"@ != "enum"@ && "type"@ != "default"@ && "type"@ != "order"@
            && "type"@ != "readOnly"@,
        "title"@ != "description"@ && "title"@ != "minimum"@ && "title"@ != "maximum"@ && "title"@
            != "enum"@ && "title"@ != "default"@ && "title"@ != "order"@ && "title"@
            != "readOnly"@,
        "description"@ != "minimum"@ && "description"@ != "maximum"@ && "description"@ != "enum"@
            && "description"@ != "default"@ && "description"@ != "order"@ && "description"@
            != "readOnly"@,
        "minimum"@ != "maximum"@ && "minimum"@ != "enum"@ && "minimum"@ != "default"@ && "minimum"@
            != "order"@ && "minimum"@ != "readOnly"@,
        "maximum"@ != "enum"@ && "maximum"@ != "default"@ && "maximum"@ != "order"@ && "maximum"@
            != "readOnly"@,
        "enum"@ != "default"@ && "enum"@ != "order"@ && "enum"@ != "readOnly"@,
        "default"@ != "order"@ && "default"@ != "readOnly"@,
        "order"@ != "readOnly"@,
        "integer"@ != "number"@ && "integer"@ != "boolean"@ && "integer"@ != "string"@,
        "number"@ != "boolean"@ && "number"@ != "string"@ && "boolean"@ != "string"@,
{
    reveal_strlit("type");
    reveal_strlit("title");
    reveal_strlit("description");
    reveal_strlit("minimum");
    reveal_strlit("maximum");
    reveal_strlit("enum");
    reveal_strlit("default");
    reveal_strlit("order");
    reveal_strlit("readOnly");
    reveal_strlit("integer");
    reveal_strlit("number");
    reveal_strlit("boolean");
    reveal_strlit("string");
    assert("type"@.len() == 4 && "enum"@.len() == 4 && "title"@.len() == 5 && "order"@.len() == 5
        && "description"@.len() == 11 && "minimum"@.len() == 7 && "maximum"@.len() == 7
        && "default"@.len() == 7 && "readOnly"@.len() == 8);
    assert("type"@[0] == 't' && "enum"@[0] == 'e' && "title"@[0] == 't' && "order"@[0] == 'o');
    assert("minimum"@[1] == 'i' && "maximum"@[1] == 'a' && "default"@[0] == 'd');
    assert("minimum"@[0] == 'm' && "maximum"@[0] == 'm');
    assert("integer"@[0] == 'i' && "number"@[0] == 'n' && "boolean"@[0] == 'b' && "string"@[0]
        == 's');
}

proof fn schema_fields(s: SchemaView)
    ensures
        field(s.fields(), "type"@) == Some(JsonView::Text(s.json_type)),
        field(s.fields(), "title"@) == Some(JsonView::Text(s.title)),
        field(s.fields(), "description"@) == if s.full_description().len() > 0 {
            Some(JsonView::Text(s.full_description()))
        } else {
            None
        },
        field(s.fields(), "minimum"@) == float_view(s.min),
        field(s.fields(), "maximum"@) == float_view(s.max),
        field(s.fields(), "enum"@) == field(s.options, "enum"@),
        field(s.fields(), "default"@) == field(s.options, "default"@),
        field(s.fields(), "order"@) == field(s.options, "order"@),
        field(s.fields(), "readOnly"@) == if s.read_only {
            Some(JsonView::Bool(true))
        } else {
            None
        },
{
    broadcast use crate::keyed::field_once_set;

    schema_keys();
}

/// What a property says of its parameter besides the datatype: it is called by the title that is
/// declared for the parameter, else by the name of the point, else by its id; the choices, the
/// default and the order are as they are declared; it is described by what is declared for the
/// parameter, else for the point, with the unit in brackets and a note where it cannot be read
/// back; and it cannot be edited where it can only be read.
pub open spec fn describes_parameter(
    property: Fields,
    id: Seq<char>,
    name: Option<Seq<char>>,
    description: Option<Seq<char>>,
    unit: Option<Seq<char>>,
    reads: bool,
    writes: bool,
    options: Fields,
) -> bool {
    let words = match option_text(options, "description"@) {
        Some(d) => d,
        None => match description {
            Some(d) => d,
            None => Seq::empty(),
        },
    };
    let told = field(property, "description"@);
    &&& option_text(options, "title"@) matches Some(t) ==> field(property, "title"@) == Some(
        JsonView::Text(t),
    )
    &&& option_text(options, "title"@) is None ==> (name matches Some(t) ==> field(
        property,
        "title"@,
    ) == Some(JsonView::Text(t)))
    &&& option_text(options, "title"@) is None && name is None ==> field(property, "title"@)
        == Some(JsonView::Text(id))
    &&& field(property, "enum"@) == field(options, "enum"@)
    &&& field(property, "default"@) == field(options, "default"@)
    &&& field(property, "order"@) == field(options, "order"@)
    &&& field(property, "readOnly"@) == Some(JsonView::Bool(true)) <==> !writes
    &&& field(property, "readOnly"@) is None <==> writes
    &&& unit is None && reads ==> told == if words.len() == 0 {
        None
    } else {
        Some(JsonView::Text(words))
    }
    &&& reads ==> (unit matches Some(u) ==> told == Some(
        JsonView::Text(
            if words.len() == 0 {
                "["@ + u + "]"@
            } else {
                words + " "@ + ("["@ + u + "]"@)
            },
        ),
    ))
    &&& !reads && unit is None ==> told == Some(
        JsonView::Text(
            if words.len() == 0 {
                "(write-only: shows the last value written)"@
            } else {
                words + " "@ + "(write-only: shows the last value written)"@
            },
        ),
    )
}

/// The property of a parameter of a configuration is of the type that its point's datatype is, has
/// the range that the point declares and else that of the datatype, and says of the parameter what
/// is declared.
pub proof fn properties_are_of_their_points_type(p: ParameterView)
    ensures
        fits_datatype(parameter_schema(p).fields(), p.datatype, p.min, p.max),
        describes_parameter(
            parameter_schema(p).fields(),
            p.point,
            p.name,
            p.description,
            p.unit,
            p.access != Access::Write,
            p.access != Access::Read,
            p.options,
        ),
{
    schema_keys();
    schema_fields(parameter_schema(p));
    reveal_strlit("[");
    reveal_strlit("]");
    reveal_strlit("(write-only: shows the last value written)");
    match p.datatype {
        Some(d) => ends_are_whole(d),
        None => {},
    }
}

proof fn ends_are_whole(d: DataType)
    ensures
        d.integral() && d.width() != Some(8nat) ==> float_view(least(Some(d))) == Some(
            whole_bound(lower_end(d)),
        ) && float_view(greatest(Some(d))) == Some(whole_bound(upper_end(d))),
        !d.integral() || d.width() == Some(8nat) ==> least(Some(d)) is None && greatest(
            Some(d),
        ) is None,
{
}

/// A set in the making: its name, the protocol that it was first declared for, and the schemas
/// of its keys.
#[verifier::ext_equal]
pub struct SetView {
    pub name: Seq<char>,
    pub protocol: Seq<char>,
    pub props: Seq<(Seq<char>, JsonView)>,
}

/// A key that a set has.
pub open spec fn has_key(props: Seq<(Seq<char>, JsonView)>, key: Seq<char>) -> bool {
    exists|i: int| 0 <= i < props.len() && (#[trigger] props[i]).0 == key
}

/// The properties with a schema for `key`, where there is none yet.
pub open spec fn with_property(
    props: Seq<(Seq<char>, JsonView)>,
    key: Seq<char>,
    schema: JsonView,
) -> Seq<(Seq<char>, JsonView)> {
    if has_key(props, key) {
        props
    } else {
        props.push((key, schema))
    }
}

/// The sets with a schema for `key` in the one named `set`, which comes to the end where it is
/// not among them.
pub open spec fn with_set_property(
    sets: Seq<SetView>,
    set: Seq<char>,
    protocol: Seq<char>,
    key: Seq<char>,
    schema: JsonView,
) -> Seq<SetView>
    decreases sets.len(),
{
    if sets.len() == 0 {
        seq![SetView { name: set, protocol, props: seq![(key, schema)] }]
    } else if sets[0].name == set {
        seq![
            SetView {
                name: set,
                protocol: sets[0].protocol,
                props: with_property(sets[0].props, key, schema),
            },
        ] + sets.drop_first()
    } else {
        seq![sets[0]] + with_set_property(sets.drop_first(), set, protocol, key, schema)
    }
}

struct SetDraft {
    name: String,
    protocol: String,
    props: Vec<(String, Json)>,
}

spec fn prop_views(v: Seq<(String, Json)>) -> Seq<(Seq<char>, JsonView)> {
    v.map_values(|e: (String, Json)| (e.0@, e.1@))
}

impl View for SetDraft {
    type V = SetView;

    closed spec fn view(&self) -> SetView {
        SetView { name: self.name@, protocol: self.protocol@, props: prop_views(self.props@) }
    }
}

spec fn drafts(v: Seq<SetDraft>) -> Seq<SetView> {
    v.map_values(|d: SetDraft| d@)
}

proof fn set_property_at(
    sets: Seq<SetView>,
    set: Seq<char>,
    protocol: Seq<char>,
    key: Seq<char>,
    schema: JsonView,
    i: int,
)
    requires
        0 <= i <= sets.len(),
        forall|j: int| 0 <= j < i ==> (#[trigger] sets[j]).name != set,
        i < sets.len() ==> sets[i].name == set,
    ensures
        with_set_property(sets, set, protocol, key, schema) == if i < sets.len() {
            sets.update(
                i,
                SetView {
                    name: set,
                    protocol: sets[i].protocol,
                    props: with_property(sets[i].props, key, schema),
                },
            )
        } else {
            sets.push(SetView { name: set, protocol, props: seq![(key, schema)] })
        },
    decreases sets.len(),
{
    let fresh = SetView { name: set, protocol, props: seq![(key, schema)] };
    if sets.len() == 0 {
        assert(sets.push(fresh) =~= seq![fresh]);
    } else if i == 0 {
        let s = SetView {
            name: set,
            protocol: sets[0].protocol,
            props: with_property(sets[0].props, key, schema),
        };
        assert(sets.update(0, s) =~= seq![s] + sets.drop_first());
    } else {
        let rest = sets.drop_first();
        assert(sets[0].name != set);
        assert forall|j: int| 0 <= j < i - 1 implies (#[trigger] rest[j]).name != set by {
            assert(rest[j] == sets[j + 1]);
        }
        set_property_at(rest, set, protocol, key, schema, i - 1);
        if i < sets.len() {
            let s = SetView {
                name: set,
                protocol: sets[i].protocol,
                props: with_property(sets[i].props, key, schema),
            };
            assert(sets.update(i, s) =~= seq![sets[0]] + rest.update(i - 1, s));
        } else {
            assert(sets.push(fresh) =~= seq![sets[0]] + rest.push(fresh));
        }
    }
}

fn add_property(sets: &mut Vec<SetDraft>, set: &str, protocol: &str, key: &str, schema: Json)
    ensures
        drafts(final(sets)@) == with_set_property(
            drafts(old(sets)@),
            set@,
            protocol@,
            key@,
            schema@,
        ),
{
    let ghost before = drafts(sets@);
    let ghost goal = with_set_property(before, set@, protocol@, key@, schema@);
    let mut i: usize = 0;
    while i < sets.len() && !same_text(sets[i].name.as_str(), set)
        invariant
            i <= sets@.len(),
            sets@ == old(sets)@,
            before == drafts(sets@),
            forall|j: int| 0 <= j < i ==> (#[trigger] before[j]).name != set@,
        decreases sets@.len() - i,
    {
        i = i + 1;
    }
    proof {
        set_property_at(before, set@, protocol@, key@, schema@, i as int);
    }
    if i < sets.len() {
        let mut props: Vec<(String, Json)> = Vec::new();
        std::mem::swap(&mut props, &mut sets[i].props);
        let ghost was = prop_views(props@);
        let mut k: usize = 0;
        while k < props.len() && !same_text(props[k].0.as_str(), key)
            invariant
                k <= props@.len(),
                was == prop_views(props@),
                forall|j: int| 0 <= j < k ==> (#[trigger] was[j]).0 != key@,
            decreases props@.len() - k,
        {
            k = k + 1;
        }
        if k == props.len() {
            props.push((key.to_owned(), schema));
            assert(prop_views(props@) =~= was.push((key@, schema@)));
        } else {
            assert(was[k as int].0 == key@);
        }
        sets[i].props = props;
        assert(drafts(sets@) =~= goal);
    } else {
        let mut props: Vec<(String, Json)> = Vec::new();
        props.push((key.to_owned(), schema));
        assert(prop_views(props@) =~= seq![(key@, schema@)]);
        sets.push(SetDraft { name: set.to_owned(), protocol: protocol.to_owned(), props });
        assert(drafts(sets@) =~= goal);
    }
}

/// A schema with its place for the order, where it declares none.
pub open spec fn ordered(schema: JsonView, place: nat) -> JsonView {
    match schema {
        JsonView::Object(f) => if field(f, "order"@) is Some {
            schema
        } else {
            JsonView::Object(
                with_field(f, "order"@, JsonView::Number(Numeral::PosInt(place as u64))),
            )
        },
        _ => schema,
    }
}

/// The schemas of a set by their keys.
pub open spec fn properties(props: Seq<(Seq<char>, JsonView)>) -> Fields
    decreases props.len(),
{
    if props.len() == 0 {
        Fields::empty()
    } else {
        with_field(
            properties(props.drop_last()),
            props.last().0,
            ordered(props.last().1, props.len()),
        )
    }
}

/// The definition of a set. `made_from` says what it was made from.
pub open spec fn definition(set: SetView, made_from: Seq<char>) -> JsonView {
    let s = Fields::empty();
    let s = with_field(s, "$schema"@, JsonView::Text("http://json-schema.org/draft-07/schema#"@));
    let s = with_field(s, "title"@, JsonView::Text(title_of(set.name)));
    let s = with_field(
        s,
        "description"@,
        JsonView::Text(
            "Writable "@ + set.protocol + " points exposed by tedge-dot (generated from the "@
                + made_from + ")"@,
        ),
    );
    let s = with_field(s, "type"@, JsonView::Text("object"@));
    let s = with_field(s, "properties"@, JsonView::Object(properties(set.props)));
    let f = Fields::empty();
    let f = with_field(f, "identifier"@, JsonView::Text(set.name));
    let f = with_field(f, "jsonSchema"@, JsonView::Object(s));
    let f = with_field(
        f,
        "contexts"@,
        JsonView::Array(text_views(seq!["asset"@, "event"@, "operation"@])),
    );
    JsonView::Object(
        with_field(
            f,
            "tags"@,
            JsonView::Array(text_views(seq!["tedge-dot"@, set.protocol])),
        ),
    )
}

/// The definitions of sets.
pub open spec fn definitions_of(sets: Seq<SetView>, made_from: Seq<char>) -> Seq<JsonView> {
    sets.map_values(|s: SetView| definition(s, made_from))
}

fn ordered_schema(schema: &Json, place: u64) -> (r: Json)
    ensures
        r@ == ordered(schema@, place as nat),
{
    proof {
        schema.lemma_view();
    }
    match schema {
        Json::Object(o) => {
            if o.get("order").is_some() {
                schema.clone()
            } else {
                let mut out: JsonObject = o.clone();
                out.insert("order", Json::of_unsigned(place));
                Json::of_object(out)
            }
        },
        _ => schema.clone(),
    }
}

fn text_items(a: &str, b: &str, c: Option<&str>) -> (r: Json)
    ensures
        r@ == JsonView::Array(
            text_views(
                match c {
                    Some(x) => seq![a@, b@, x@],
                    None => seq![a@, b@],
                },
            ),
        ),
{
    let mut v: Vec<String> = Vec::new();
    v.push(a.to_owned());
    v.push(b.to_owned());
    if let Some(x) = c {
        v.push(x.to_owned());
        assert(texts(v@) =~= seq![a@, b@, x@]);
    } else {
        assert(texts(v@) =~= seq![a@, b@]);
    }
    Json::of_texts(&v)
}

fn render(set: &SetDraft, made_from: &str) -> (r: Json)
    ensures
        r@ == definition(set@, made_from@),
{
    let ghost all = prop_views(set.props@);
    let mut props = JsonObject::new();
    let mut i: usize = 0;
    assert(all.take(0) =~= Seq::empty());
    while i < set.props.len()
        invariant
            i <= set.props@.len(),
            all == prop_views(set.props@),
            props@ == properties(all.take(i as int)),
        decreases set.props@.len() - i,
    {
        assert(all.take(i + 1).drop_last() =~= all.take(i as int));
        assert(all.take(i + 1).last() == (set.props@[i as int].0@, set.props@[i as int].1@));
        props.insert(
            set.props[i].0.as_str(),
            ordered_schema(&set.props[i].1, i as u64 + 1),
        );
        i = i + 1;
    }
    assert(all.take(all.len() as int) =~= all);
    let mut description: String = concat3(
        "Writable ",
        set.protocol.as_str(),
        " points exposed by tedge-dot (generated from the ",
    );
    description.append(made_from);
    description.append(")");
    let mut s = JsonObject::new();
    s.insert("$schema", Json::text("http://json-schema.org/draft-07/schema#"));
    s.insert("title", Json::of_string(title_from_key(set.name.as_str())));
    s.insert("description", Json::of_string(description));
    s.insert("type", Json::text("object"));
    s.insert("properties", Json::of_object(props));
    let mut f = JsonObject::new();
    f.insert("identifier", Json::text(set.name.as_str()));
    f.insert("jsonSchema", Json::of_object(s));
    f.insert("contexts", text_items("asset", "event", Some("operation")));
    f.insert("tags", text_items("tedge-dot", set.protocol.as_str(), None));
    Json::of_object(f)
}

fn render_all(sets: &Vec<SetDraft>, made_from: &str) -> (r: Vec<Json>)
    ensures
        views(r@) == definitions_of(drafts(sets@), made_from@),
{
    let mut out: Vec<Json> = Vec::new();
    let mut i: usize = 0;
    while i < sets.len()
        invariant
            i <= sets@.len(),
            out@.len() == i,
            forall|k: int|
                0 <= k < i ==> (#[trigger] out@[k])@ == definition(sets@[k]@, made_from@),
        decreases sets@.len() - i,
    {
        out.push(render(&sets[i], made_from));
        i = i + 1;
    }
    assert(views(out@) =~= definitions_of(drafts(sets@), made_from@));
    out
}

/// The sets with the properties of parameters.
pub open spec fn with_parameters(
    sets: Seq<SetView>,
    protocol: Seq<char>,
    ps: Seq<ParameterView>,
) -> Seq<SetView>
    decreases ps.len(),
{
    if ps.len() == 0 {
        sets
    } else {
        let p = ps.last();
        with_set_property(
            with_parameters(sets, protocol, ps.drop_last()),
            p.set,
            protocol,
            p.point,
            JsonView::Object(parameter_schema(p).fields()),
        )
    }
}

/// The sets of configurations.
pub open spec fn config_sets(configs: Seq<ConnectorConfig>, forced: Option<Seq<char>>) -> Seq<
    SetView,
>
    decreases configs.len(),
{
    if configs.len() == 0 {
        Seq::empty()
    } else {
        with_parameters(
            config_sets(configs.drop_last(), forced),
            configs.last().connector.protocol@,
            config_parameters(configs.last(), forced),
        )
    }
}

/// The definitions of the parameter sets of configurations. A set that more than one of them
/// declares is one definition, with the protocol of the first.
pub fn c8y_dtm_definitions_across(configs: &[ConnectorConfig], forced_set: Option<&str>) -> (r: Vec<
    Json,
>)
    ensures
        views(r@) == definitions_of(
            config_sets(configs@, str_of(forced_set)),
            "connector configuration"@,
        ),
{
    let mut sets: Vec<SetDraft> = Vec::new();
    let mut i: usize = 0;
    assert(configs@.take(0) =~= Seq::<ConnectorConfig>::empty());
    assert(drafts(sets@) =~= Seq::<SetView>::empty());
    while i < configs.len()
        invariant
            i <= configs@.len(),
            drafts(sets@) == config_sets(configs@.take(i as int), str_of(forced_set)),
        decreases configs@.len() - i,
    {
        let config: &ConnectorConfig = &configs[i];
        let protocol: &str = config.connector.protocol.as_str();
        assert(configs@.take(i + 1).drop_last() =~= configs@.take(i as int));
        assert(configs@.take(i + 1).last() == *config);
        let found: Vec<Parameter> = parameters(config, forced_set);
        let ghost all = params(found@);
        let ghost before = drafts(sets@);
        let mut j: usize = 0;
        assert(all.take(0) =~= Seq::<ParameterView>::empty());
        while j < found.len()
            invariant
                j <= found@.len(),
                all == params(found@),
                protocol@ == config.connector.protocol@,
                drafts(sets@) == with_parameters(before, protocol@, all.take(j as int)),
            decreases found@.len() - j,
        {
            let p: &Parameter = &found[j];
            assert(all.take(j + 1).drop_last() =~= all.take(j as int));
            assert(all.take(j + 1).last() == p@);
            add_property(
                &mut sets,
                p.set.as_str(),
                protocol,
                p.point.as_str(),
                property_schema(p),
            );
            j = j + 1;
        }
        assert(all.take(all.len() as int) =~= all);
        i = i + 1;
    }
    assert(configs@.take(configs@.len() as int) =~= configs@);
    render_all(&sets, "connector configuration")
}

/// The definitions of the parameter sets of a configuration.
pub fn c8y_dtm_definitions(config: &ConnectorConfig, forced_set: Option<&str>) -> (r: Vec<Json>)
    ensures
        views(r@) == definitions_of(
            config_sets(seq![*config], str_of(forced_set)),
            "connector configuration"@,
        ),
{
    c8y_dtm_definitions_across(std::slice::from_ref(config), forced_set)
}

/// A device's manifest, with the name of the device.
#[derive(Debug, PartialEq)]
pub struct DeviceManifest {
    pub device: String,
    pub manifest: Json,
}

/// `f` with all fields of `more` set.
pub open spec fn with_fields(f: Fields, more: Fields) -> Fields
    decreases more.len(),
{
    if more.len() == 0 {
        f
    } else {
        with_field(with_fields(f, more.drop_last()), more.last().0, more.last().1)
    }
}

impl DeviceManifest {
    /// The manifest with the name of the device.
    pub fn to_json(&self) -> (r: Json)
        ensures
            r@ == JsonView::Object(
                with_fields(
                    with_field(Fields::empty(), "device"@, JsonView::Text(self.device@)),
                    match self.manifest@ {
                        JsonView::Object(f) => f,
                        _ => Fields::empty(),
                    },
                ),
            ),
    {
        let mut out = JsonObject::new();
        out.insert("device", Json::text(self.device.as_str()));
        let ghost start = out@;
        if let Some(o) = self.manifest.as_object() {
            let n: usize = o.len();
            let mut i: usize = 0;
            assert(o@.take(0) =~= Fields::empty());
            while i < n
                invariant
                    i <= n,
                    n == o@.len(),
                    out@ == with_fields(start, o@.take(i as int)),
                decreases n - i,
            {
                assert(o@.take(i + 1).drop_last() =~= o@.take(i as int));
                assert(o@.take(i + 1).last() == o@[i as int]);
                out.insert(o.key_at(i), o.value_at(i).clone());
                i = i + 1;
            }
            assert(o@.take(n as int) =~= o@);
        }
        Json::of_object(out)
    }
}

/// The datatype of a name.
pub open spec fn datatype_named(name: Option<Seq<char>>) -> Option<DataType> {
    match name {
        Some(n) => if n == "bool"@ {
            Some(DataType::Bool)
        } else if n == "int8"@ {
            Some(DataType::Int8)
        } else if n == "uint8"@ {
            Some(DataType::Uint8)
        } else if n == "int16"@ {
            Some(DataType::Int16)
        } else if n == "uint16"@ {
            Some(DataType::Uint16)
        } else if n == "int32"@ {
            Some(DataType::Int32)
        } else if n == "uint32"@ {
            Some(DataType::Uint32)
        } else if n == "int64"@ {
            Some(DataType::Int64)
        } else if n == "uint64"@ {
            Some(DataType::Uint64)
        } else if n == "float32"@ {
            Some(DataType::Float32)
        } else if n == "float64"@ {
            Some(DataType::Float64)
        } else {
            None
        },
        None => None,
    }
}

fn named_datatype(name: Option<&str>) -> (r: Option<DataType>)
    ensures
        r == datatype_named(str_of(name)),
{
    match name {
        Some(n) => if same_text(n, "bool") {
            Some(DataType::Bool)
        } else if same_text(n, "int8") {
            Some(DataType::Int8)
        } else if same_text(n, "uint8") {
            Some(DataType::Uint8)
        } else if same_text(n, "int16") {
            Some(DataType::Int16)
        } else if same_text(n, "uint16") {
            Some(DataType::Uint16)
        } else if same_text(n, "int32") {
            Some(DataType::Int32)
        } else if same_text(n, "uint32") {
            Some(DataType::Uint32)
        } else if same_text(n, "int64") {
            Some(DataType::Int64)
        } else if same_text(n, "uint64") {
            Some(DataType::Uint64)
        } else if same_text(n, "float32") {
            Some(DataType::Float32)
        } else if same_text(n, "float64") {
            Some(DataType::Float64)
        } else {
            None
        },
        None => None,
    }
}

/// A bound that a point of a manifest declares.
pub open spec fn declared_bound(point: JsonView, key: Seq<char>) -> Option<Numeral> {
    match fields_member(point, "range"@) {
        Some(r) => match field(r, key) {
            Some(JsonView::Number(n)) => Some(n),
            _ => None,
        },
        None => None,
    }
}

/// What the schema of a parameter of a manifest is made from.
pub open spec fn manifest_schema(id: Seq<char>, point: JsonView, parameter: Fields) -> SchemaView {
    let datatype = datatype_named(text_member(point, "datatype"@));
    let access = text_or(text_member(point, "access"@), "read"@);
    SchemaView {
        json_type: schema_type(datatype),
        title: text_or(either(option_text(parameter, "title"@), text_member(point, "name"@)), id),
        description: text_or(
            either(option_text(parameter, "description"@), text_member(point, "description"@)),
            Seq::empty(),
        ),
        unit: text_member(point, "unit"@),
        write_only: access == "write"@,
        read_only: access == "read"@,
        min: either(declared_bound(point, "min"@), least(datatype)),
        max: either(declared_bound(point, "max"@), greatest(datatype)),
        options: parameter,
    }
}

fn bound_of(point: &Json, key: &str) -> (r: Option<JsonNumber>)
    ensures
        numeral_of(r) == declared_bound(point@, key@),
{
    match point.get("range") {
        Some(range) => match range.as_object() {
            Some(o) => match o.get(key) {
                Some(v) => {
                    proof {
                        v.lemma_view();
                    }
                    match v {
                        Json::Number(n) => Some(n.clone()),
                        _ => None,
                    }
                },
                None => None,
            },
            None => None,
        },
        None => None,
    }
}

/// The JSON schema of a parameter of a manifest.
pub fn manifest_property(id: &str, point: &Json, parameter: &JsonObject) -> (r: Json)
    ensures
        r@ == JsonView::Object(manifest_schema(id@, point@, parameter@).fields()),
{
    let datatype: Option<DataType> = named_datatype(point.get_str("datatype"));
    let (least, greatest) = type_bounds(datatype);
    let access: &str = match point.get_str("access") {
        Some(a) => a,
        None => "read",
    };
    let title: &str = match object_text(parameter, "title") {
        Some(t) => t,
        None => match point.get_str("name") {
            Some(n) => n,
            None => id,
        },
    };
    proof {
        reveal_strlit("");
    }
    assert(""@ =~= Seq::<char>::empty());
    let description: &str = match object_text(parameter, "description") {
        Some(t) => t,
        None => match point.get_str("description") {
            Some(d) => d,
            None => "",
        },
    };
    let src = SchemaSource {
        json_type: json_type(datatype),
        title,
        description,
        unit: point.get_str("unit"),
        write_only: same_text(access, "write"),
        read_only: same_text(access, "read"),
        min: pick(bound_of(point, "min"), least),
        max: pick(bound_of(point, "max"), greatest),
        options: parameter,
    };
    assert(src@ =~= manifest_schema(id@, point@, parameter@));
    schema(&src)
}

proof fn datatype_of_label(d: DataType)
    ensures
        datatype_named(Some(d.label())) == if d == DataType::String || d == DataType::Bytes {
            None
        } else {
            Some(d)
        },
{
    reveal_strlit("bool");
    reveal_strlit("int8");
    reveal_strlit("uint8");
    reveal_strlit("int16");
    reveal_strlit("uint16");
    reveal_strlit("int32");
    reveal_strlit("uint32");
    reveal_strlit("int64");
    reveal_strlit("uint64");
    reveal_strlit("float32");
    reveal_strlit("float64");
    reveal_strlit("string");
    reveal_strlit("bytes");
    assert("bool"@.len() == 4 && "int8"@.len() == 4 && "uint8"@.len() == 5 && "int16"@.len() == 5
        && "uint16"@.len() == 6 && "int32"@.len() == 5 && "uint32"@.len() == 6 && "int64"@.len()
        == 5 && "uint64"@.len() == 6 && "float32"@.len() == 7 && "float64"@.len() == 7
        && "string"@.len() == 6 && "bytes"@.len() == 5);
    assert("bool"@[0] == 'b' && "int8"@[0] == 'i');
    assert("uint8"@[0] == 'u' && "int16"@[0] == 'i' && "int32"@[0] == 'i' && "int64"@[0] == 'i'
        && "bytes"@[0] == 'b');
    assert("int16"@[3] == '1' && "int32"@[3] == '3' && "int64"@[3] == '6');
    assert("uint16"@[4] == '1' && "uint32"@[4] == '3' && "uint64"@[4] == '6' && "string"@[0]
        == 's' && "uint16"@[0] == 'u' && "uint32"@[0] == 'u' && "uint64"@[0] == 'u');
    assert("float32"@[5] == '3' && "float64"@[5] == '6');
}

/// The property of a parameter of a manifest is of the type of the datatype that the manifest
/// names, has the range that it declares and else that of the datatype, and says of the parameter
/// what is declared.
pub proof fn manifest_properties_are_of_their_points_type(
    id: Seq<char>,
    point: JsonView,
    parameter: Fields,
    d: DataType,
)
    requires
        text_member(point, "datatype"@) == Some(d.label()),
    ensures
        fits_datatype(
            manifest_schema(id, point, parameter).fields(),
            Some(d),
            declared_bound(point, "min"@),
            declared_bound(point, "max"@),
        ),
        describes_parameter(
            manifest_schema(id, point, parameter).fields(),
            id,
            text_member(point, "name"@),
            text_member(point, "description"@),
            text_member(point, "unit"@),
            text_member(point, "access"@) != Some("write"@),
            text_member(point, "access"@) is Some && text_member(point, "access"@) != Some("read"@),
            parameter,
        ),
{
    schema_keys();
    schema_fields(manifest_schema(id, point, parameter));
    datatype_of_label(d);
    ends_are_whole(d);
    reveal_strlit("[");
    reveal_strlit("]");
    reveal_strlit("(write-only: shows the last value written)");
    reveal_strlit("read");
    reveal_strlit("write");
    assert("read"@.len() == 4 && "write"@.len() == 5);
}

/// A bound that a manifest declares is the number under its key in the range of the point.
pub proof fn declared_bounds_are_those_of_the_range(point: JsonView, key: Seq<char>, n: Numeral)
    ensures
        declared_bound(point, key) == Some(n) <==> (member(point, "range"@) matches Some(r) && member(
            r,
            key,
        ) == Some(JsonView::Number(n))),
{
}

/// The sets with a schema for `key` in each of those that are named.
pub open spec fn with_named_sets(
    sets: Seq<SetView>,
    names: Seq<JsonView>,
    protocol: Seq<char>,
    key: Seq<char>,
    schema: JsonView,
) -> Seq<SetView>
    decreases names.len(),
{
    if names.len() == 0 {
        sets
    } else {
        let head = with_named_sets(sets, names.drop_last(), protocol, key, schema);
        match names.last() {
            JsonView::Text(set) => with_set_property(head, set, protocol, key, schema),
            _ => head,
        }
    }
}

/// The sets with the properties of one point of a manifest: none where it is no parameter.
pub open spec fn with_point(
    sets: Seq<SetView>,
    protocol: Seq<char>,
    id: Seq<char>,
    point: JsonView,
) -> Seq<SetView> {
    match fields_member(point, "parameter"@) {
        Some(parameter) => match field(parameter, "sets"@) {
            Some(JsonView::Array(names)) => with_named_sets(
                sets,
                names,
                protocol,
                id,
                JsonView::Object(manifest_schema(id, point, parameter).fields()),
            ),
            _ => sets,
        },
        None => sets,
    }
}

/// The sets with the properties of the points of a manifest.
pub open spec fn with_points(sets: Seq<SetView>, protocol: Seq<char>, points: Fields) -> Seq<
    SetView,
>
    decreases points.len(),
{
    if points.len() == 0 {
        sets
    } else {
        with_point(
            with_points(sets, protocol, points.drop_last()),
            protocol,
            points.last().0,
            points.last().1,
        )
    }
}

/// The sets of manifests.
pub open spec fn manifest_sets(manifests: Seq<DeviceManifest>) -> Seq<SetView>
    decreases manifests.len(),
{
    if manifests.len() == 0 {
        Seq::empty()
    } else {
        let head = manifest_sets(manifests.drop_last());
        let m = manifests.last().manifest@;
        match fields_member(m, "points"@) {
            Some(points) => with_points(
                head,
                text_or(text_member(m, "protocol"@), Seq::empty()),
                points,
            ),
            None => head,
        }
    }
}

fn add_point(sets: &mut Vec<SetDraft>, protocol: &str, id: &str, point: &Json)
    ensures
        drafts(final(sets)@) == with_point(drafts(old(sets)@), protocol@, id@, point@),
{
    let ghost before = drafts(sets@);
    if let Some(p) = point.get("parameter") {
        if let Some(parameter) = p.as_object() {
            if let Some(v) = parameter.get("sets") {
                if let Some(names) = v.as_array() {
                    let ghost all = views(names@);
                    let ghost schema = JsonView::Object(
                        manifest_schema(id@, point@, parameter@).fields(),
                    );
                    let mut i: usize = 0;
                    assert(all.take(0) =~= Seq::<JsonView>::empty());
                    while i < names.len()
                        invariant
                            i <= names@.len(),
                            all == views(names@),
                            schema == JsonView::Object(
                                manifest_schema(id@, point@, parameter@).fields(),
                            ),
                            drafts(sets@) == with_named_sets(
                                before,
                                all.take(i as int),
                                protocol@,
                                id@,
                                schema,
                            ),
                        decreases names@.len() - i,
                    {
                        assert(all.take(i + 1).drop_last() =~= all.take(i as int));
                        assert(all.take(i + 1).last() == names@[i as int]@);
                        if let Some(set) = names[i].as_str() {
                            add_property(
                                sets,
                                set,
                                protocol,
                                id,
                                manifest_property(id, point, parameter),
                            );
                        }
                        i = i + 1;
                    }
                    assert(all.take(all.len() as int) =~= all);
                }
            }
        }
    }
}

/// The definitions of the parameter sets of manifests, in the order in which the sets appear.
pub fn definitions(manifests: &[DeviceManifest]) -> (r: Vec<Json>)
    ensures
        views(r@) == definitions_of(manifest_sets(manifests@), "device manifest"@),
{
    let mut sets: Vec<SetDraft> = Vec::new();
    let mut i: usize = 0;
    assert(manifests@.take(0) =~= Seq::<DeviceManifest>::empty());
    assert(drafts(sets@) =~= Seq::<SetView>::empty());
    while i < manifests.len()
        invariant
            i <= manifests@.len(),
            drafts(sets@) == manifest_sets(manifests@.take(i as int)),
        decreases manifests@.len() - i,
    {
        assert(manifests@.take(i + 1).drop_last() =~= manifests@.take(i as int));
        assert(manifests@.take(i + 1).last() == manifests@[i as int]);
        let m: &Json = &manifests[i].manifest;
        proof {
            reveal_strlit("");
        }
        assert(""@ =~= Seq::<char>::empty());
        let protocol: &str = match m.get_str("protocol") {
            Some(p) => p,
            None => "",
        };
        if let Some(v) = m.get("points") {
            if let Some(points) = v.as_object() {
                let ghost before = drafts(sets@);
                let n: usize = points.len();
                let mut j: usize = 0;
                assert(points@.take(0) =~= Fields::empty());
                while j < n
                    invariant
                        j <= n,
                        n == points@.len(),
                        drafts(sets@) == with_points(before, protocol@, points@.take(j as int)),
                    decreases n - j,
                {
                    assert(points@.take(j + 1).drop_last() =~= points@.take(j as int));
                    assert(points@.take(j + 1).last() == points@[j as int]);
                    add_point(&mut sets, protocol, points.key_at(j), points.value_at(j));
                    j = j + 1;
                }
                assert(points@.take(n as int) =~= points@);
            }
        }
        i = i + 1;
    }
    assert(manifests@.take(manifests@.len() as int) =~= manifests@);
    render_all(&sets, "device manifest")
}

/// A set of that name.
pub open spec fn names_set(sets: Seq<SetView>, name: Seq<char>) -> bool {
    exists|i: int| 0 <= i < sets.len() && (#[trigger] sets[i]).name == name
}

/// No two sets of one name.
pub open spec fn distinct_sets(sets: Seq<SetView>) -> bool {
    forall|i: int, j: int|
        0 <= i < j < sets.len() ==> (#[trigger] sets[i]).name != (#[trigger] sets[j]).name
}

/// Adding a property leaves each set as it was but the one that is named, and that one with the
/// schemas and the protocol that it had. No name comes twice.
pub proof fn first_definition_wins(
    sets: Seq<SetView>,
    set: Seq<char>,
    protocol: Seq<char>,
    key: Seq<char>,
    schema: JsonView,
)
    requires
        distinct_sets(sets),
    ensures
        ({
            let r = with_set_property(sets, set, protocol, key, schema);
            &&& distinct_sets(r)
            &&& r.len() == if names_set(sets, set) {
                sets.len()
            } else {
                sets.len() + 1
            }
            &&& forall|i: int|
                0 <= i < sets.len() ==> (#[trigger] r[i]).name == sets[i].name && r[i].protocol
                    == sets[i].protocol && sets[i].props.is_prefix_of(r[i].props)
            &&& forall|i: int|
                0 <= i < sets.len() && sets[i].name != set ==> #[trigger] r[i] == sets[i]
            &&& forall|i: int|
                0 <= i < sets.len() && sets[i].name == set && has_key(sets[i].props, key)
                    ==> #[trigger] r[i] == sets[i]
        }),
{
    if names_set(sets, set) {
        let i = choose|i: int| 0 <= i < sets.len() && (#[trigger] sets[i]).name == set;
        assert forall|j: int| 0 <= j < i implies (#[trigger] sets[j]).name != set by {
            assert(sets[j].name != sets[i].name);
        }
        set_property_at(sets, set, protocol, key, schema, i);
    } else {
        assert forall|j: int| 0 <= j < sets.len() implies (#[trigger] sets[j]).name != set by {}
        set_property_at(sets, set, protocol, key, schema, sets.len() as int);
    }
}

proof fn parameters_keep_sets_distinct(
    sets: Seq<SetView>,
    protocol: Seq<char>,
    ps: Seq<ParameterView>,
)
    requires
        distinct_sets(sets),
    ensures
        distinct_sets(with_parameters(sets, protocol, ps)),
    decreases ps.len(),
{
    if ps.len() > 0 {
        parameters_keep_sets_distinct(sets, protocol, ps.drop_last());
        let p = ps.last();
        first_definition_wins(
            with_parameters(sets, protocol, ps.drop_last()),
            p.set,
            protocol,
            p.point,
            JsonView::Object(parameter_schema(p).fields()),
        );
    }
}

/// However many configurations declare a set, it is one definition.
pub proof fn config_sets_are_distinct(configs: Seq<ConnectorConfig>, forced: Option<Seq<char>>)
    ensures
        distinct_sets(config_sets(configs, forced)),
    decreases configs.len(),
{
    if configs.len() > 0 {
        config_sets_are_distinct(configs.drop_last(), forced);
        parameters_keep_sets_distinct(
            config_sets(configs.drop_last(), forced),
            configs.last().connector.protocol@,
            config_parameters(configs.last(), forced),
        );
    }
}

proof fn names_keep_sets_distinct(
    sets: Seq<SetView>,
    names: Seq<JsonView>,
    protocol: Seq<char>,
    key: Seq<char>,
    schema: JsonView,
)
    requires
        distinct_sets(sets),
    ensures
        distinct_sets(with_named_sets(sets, names, protocol, key, schema)),
    decreases names.len(),
{
    if names.len() > 0 {
        names_keep_sets_distinct(sets, names.drop_last(), protocol, key, schema);
        match names.last() {
            JsonView::Text(set) => first_definition_wins(
                with_named_sets(sets, names.drop_last(), protocol, key, schema),
                set,
                protocol,
                key,
                schema,
            ),
            _ => {},
        }
    }
}

proof fn points_keep_sets_distinct(sets: Seq<SetView>, protocol: Seq<char>, points: Fields)
    requires
        distinct_sets(sets),
    ensures
        distinct_sets(with_points(sets, protocol, points)),
    decreases points.len(),
{
    if points.len() > 0 {
        points_keep_sets_distinct(sets, protocol, points.drop_last());
        let head = with_points(sets, protocol, points.drop_last());
        let (id, point) = points.last();
        match fields_member(point, "parameter"@) {
            Some(parameter) => match field(parameter, "sets"@) {
                Some(JsonView::Array(names)) => names_keep_sets_distinct(
                    head,
                    names,
                    protocol,
                    id,
                    JsonView::Object(manifest_schema(id, point, parameter).fields()),
                ),
                _ => {},
            },
            None => {},
        }
    }
}

/// However many manifests declare a set, it is one definition.
pub proof fn manifest_sets_are_distinct(manifests: Seq<DeviceManifest>)
    ensures
        distinct_sets(manifest_sets(manifests)),
    decreases manifests.len(),
{
    if manifests.len() > 0 {
        manifest_sets_are_distinct(manifests.drop_last());
        let m = manifests.last().manifest@;
        match fields_member(m, "points"@) {
            Some(points) => points_keep_sets_distinct(
                manifest_sets(manifests.drop_last()),
                text_or(text_member(m, "protocol"@), Seq::empty()),
                points,
            ),
            None => {},
        }
    }
}

/// A set of that name has a schema for the key.
pub open spec fn defines(sets: Seq<SetView>, set: Seq<char>, key: Seq<char>) -> bool {
    exists|i: int| 0 <= i < sets.len() && (#[trigger] sets[i]).name == set && has_key(
        sets[i].props,
        key,
    )
}

proof fn property_is_defined(
    sets: Seq<SetView>,
    set: Seq<char>,
    protocol: Seq<char>,
    key: Seq<char>,
    schema: JsonView,
)
    requires
        distinct_sets(sets),
    ensures
        ({
            let r = with_set_property(sets, set, protocol, key, schema);
            &&& defines(r, set, key)
            &&& forall|s: Seq<char>, k: Seq<char>| defines(sets, s, k) ==> #[trigger] defines(r, s, k)
        }),
{
    let r = with_set_property(sets, set, protocol, key, schema);
    first_definition_wins(sets, set, protocol, key, schema);
    assert forall|s: Seq<char>, k: Seq<char>| defines(sets, s, k) implies #[trigger] defines(
        r,
        s,
        k,
    ) by {
        let i = choose|i: int| 0 <= i < sets.len() && (#[trigger] sets[i]).name == s && has_key(
            sets[i].props,
            k,
        );
        let j = choose|j: int| 0 <= j < sets[i].props.len() && (#[trigger] sets[i].props[j]).0 == k;
        assert(r[i].props[j].0 == k);
        assert(r[i].name == s);
    }
    if names_set(sets, set) {
        let i = choose|i: int| 0 <= i < sets.len() && (#[trigger] sets[i]).name == set;
        assert forall|j: int| 0 <= j < i implies (#[trigger] sets[j]).name != set by {
            assert(sets[j].name != sets[i].name);
        }
        set_property_at(sets, set, protocol, key, schema, i);
        let props = sets[i].props;
        if !has_key(props, key) {
            assert(props.push((key, schema))[props.len() as int].0 == key);
        }
        assert(r[i].name == set && has_key(r[i].props, key));
    } else {
        assert forall|j: int| 0 <= j < sets.len() implies (#[trigger] sets[j]).name != set by {}
        set_property_at(sets, set, protocol, key, schema, sets.len() as int);
        let last = r[sets.len() as int];
        assert(last.props[0].0 == key);
        assert(last.name == set && has_key(last.props, key));
    }
}

proof fn parameters_are_defined(
    sets: Seq<SetView>,
    protocol: Seq<char>,
    ps: Seq<ParameterView>,
)
    requires
        distinct_sets(sets),
    ensures
        distinct_sets(with_parameters(sets, protocol, ps)),
        forall|i: int|
            0 <= i < ps.len() ==> defines(
                with_parameters(sets, protocol, ps),
                (#[trigger] ps[i]).set,
                ps[i].point,
            ),
        forall|s: Seq<char>, k: Seq<char>|
            defines(sets, s, k) ==> #[trigger] defines(with_parameters(sets, protocol, ps), s, k),
    decreases ps.len(),
{
    if ps.len() > 0 {
        let rest = ps.drop_last();
        let before = with_parameters(sets, protocol, rest);
        let p = ps.last();
        let schema = JsonView::Object(parameter_schema(p).fields());
        parameters_are_defined(sets, protocol, rest);
        first_definition_wins(before, p.set, protocol, p.point, schema);
        property_is_defined(before, p.set, protocol, p.point, schema);
        assert forall|i: int| 0 <= i < ps.len() implies defines(
            with_parameters(sets, protocol, ps),
            (#[trigger] ps[i]).set,
            ps[i].point,
        ) by {
            if i < rest.len() {
                assert(rest[i] == ps[i]);
                assert(defines(before, ps[i].set, ps[i].point));
            }
        }
        assert forall|s: Seq<char>, k: Seq<char>| defines(sets, s, k) implies #[trigger] defines(
            with_parameters(sets, protocol, ps),
            s,
            k,
        ) by {
            assert(defines(before, s, k));
        }
    }
}

/// Every parameter of every configuration has a schema in the definition of its set.
pub proof fn every_parameter_is_defined(
    configs: Seq<ConnectorConfig>,
    forced: Option<Seq<char>>,
    c: int,
    i: int,
)
    requires
        0 <= c < configs.len(),
        0 <= i < config_parameters(configs[c], forced).len(),
    ensures
        defines(
            config_sets(configs, forced),
            config_parameters(configs[c], forced)[i].set,
            config_parameters(configs[c], forced)[i].point,
        ),
    decreases configs.len(),
{
    let rest = configs.drop_last();
    let last = configs.last();
    config_sets_are_distinct(rest, forced);
    parameters_are_defined(
        config_sets(rest, forced),
        last.connector.protocol@,
        config_parameters(last, forced),
    );
    if c < rest.len() {
        assert(rest[c] == configs[c]);
        every_parameter_is_defined(rest, forced, c, i);
    } else {
        assert(configs[c] == last);
    }
}

/// A property of a set is the schema of a parameter of a configuration, in that set and under the
/// id of its point.
pub open spec fn is_schema_of(
    configs: Seq<ConnectorConfig>,
    forced: Option<Seq<char>>,
    set: Seq<char>,
    property: (Seq<char>, JsonView),
    c: int,
    k: int,
) -> bool {
    0 <= c < configs.len() && 0 <= k < config_parameters(configs[c], forced).len() && {
        let p = config_parameters(configs[c], forced)[k];
        p.set == set && p.point == property.0 && property.1 == JsonView::Object(
            parameter_schema(p).fields(),
        )
    }
}

proof fn property_origin(
    sets: Seq<SetView>,
    set: Seq<char>,
    protocol: Seq<char>,
    key: Seq<char>,
    schema: JsonView,
    i: int,
    j: int,
)
    requires
        0 <= i < with_set_property(sets, set, protocol, key, schema).len(),
        0 <= j < with_set_property(sets, set, protocol, key, schema)[i].props.len(),
    ensures
        ({
            let r = with_set_property(sets, set, protocol, key, schema);
            (r[i].name == set && r[i].props[j] == (key, schema)) || (i < sets.len() && sets[i].name
                == r[i].name && j < sets[i].props.len() && sets[i].props[j] == r[i].props[j])
        }),
    decreases sets.len(),
{
    let r = with_set_property(sets, set, protocol, key, schema);
    if sets.len() > 0 && sets[0].name != set {
        let rest = sets.drop_first();
        let inner = with_set_property(rest, set, protocol, key, schema);
        assert(r.drop_first() =~= inner);
        if i > 0 {
            assert(r[i] == inner[i - 1]);
            property_origin(rest, set, protocol, key, schema, i - 1, j);
        }
    } else if sets.len() > 0 && i > 0 {
        assert(r[i] == sets[i]);
    }
}

proof fn parameters_origin(
    sets: Seq<SetView>,
    protocol: Seq<char>,
    ps: Seq<ParameterView>,
    i: int,
    j: int,
) -> (k: int)
    requires
        0 <= i < with_parameters(sets, protocol, ps).len(),
        0 <= j < with_parameters(sets, protocol, ps)[i].props.len(),
    ensures
        ({
            let r = with_parameters(sets, protocol, ps);
            if k < 0 {
                i < sets.len() && sets[i].name == r[i].name && j < sets[i].props.len()
                    && sets[i].props[j] == r[i].props[j]
            } else {
                k < ps.len() && ps[k].set == r[i].name && r[i].props[j] == (
                    ps[k].point,
                    JsonView::Object(parameter_schema(ps[k]).fields()),
                )
            }
        }),
    decreases ps.len(),
{
    if ps.len() == 0 {
        -1
    } else {
        let p = ps.last();
        let before = with_parameters(sets, protocol, ps.drop_last());
        let schema = JsonView::Object(parameter_schema(p).fields());
        let r = with_parameters(sets, protocol, ps);
        property_origin(before, p.set, protocol, p.point, schema, i, j);
        if r[i].name == p.set && r[i].props[j] == (p.point, schema) {
            ps.len() - 1
        } else {
            parameters_origin(sets, protocol, ps.drop_last(), i, j)
        }
    }
}

/// Whatever a set holds is the schema of one of its parameters: no property comes from elsewhere.
pub proof fn properties_are_those_of_parameters(
    configs: Seq<ConnectorConfig>,
    forced: Option<Seq<char>>,
    i: int,
    j: int,
)
    requires
        0 <= i < config_sets(configs, forced).len(),
        0 <= j < config_sets(configs, forced)[i].props.len(),
    ensures
        exists|c: int, k: int| #[trigger]
            is_schema_of(
                configs,
                forced,
                config_sets(configs, forced)[i].name,
                config_sets(configs, forced)[i].props[j],
                c,
                k,
            ),
    decreases configs.len(),
{
    let rest = configs.drop_last();
    let last = configs.last();
    let all = config_sets(configs, forced);
    let before = config_sets(rest, forced);
    let ps = config_parameters(last, forced);
    let k = parameters_origin(before, last.connector.protocol@, ps, i, j);
    if k < 0 {
        properties_are_those_of_parameters(rest, forced, i, j);
        let (c, m) = choose|c: int, m: int| #[trigger]
            is_schema_of(rest, forced, before[i].name, before[i].props[j], c, m);
        assert(rest[c] == configs[c]);
        assert(is_schema_of(configs, forced, all[i].name, all[i].props[j], c, m));
    } else {
        assert(configs[configs.len() - 1] == last);
        assert(is_schema_of(
            configs,
            forced,
            all[i].name,
            all[i].props[j],
            configs.len() - 1,
            k,
        ));
    }
}

/// The keys of a set are distinct.
pub open spec fn distinct_keys(props: Seq<(Seq<char>, JsonView)>) -> bool {
    forall|i: int, j: int|
        0 <= i < j < props.len() ==> (#[trigger] props[i]).0 != (#[trigger] props[j]).0
}

proof fn property_of_key(props: Seq<(Seq<char>, JsonView)>, j: int)
    requires
        distinct_keys(props),
        0 <= j < props.len(),
    ensures
        field(properties(props), props[j].0) == Some(ordered(props[j].1, (j + 1) as nat)),
    decreases props.len(),
{
    let init = props.drop_last();
    crate::keyed::field_once_set(
        properties(init),
        props.last().0,
        ordered(props.last().1, props.len()),
        props[j].0,
    );
    if j < init.len() {
        assert(distinct_keys(init)) by {
            assert forall|a: int, b: int| 0 <= a < b < init.len() implies (#[trigger] init[a]).0 != (
            #[trigger] init[b]).0 by {
                assert(props[a].0 != props[b].0);
            }
        }
        assert(init[j] == props[j]);
        assert(props[j].0 != props[props.len() - 1].0);
        property_of_key(init, j);
    }
}

/// The definition of a set is known by the set's name and holds each of its schemas under its key:
/// in full, and ordered by its place where it declares no order itself.
pub proof fn definitions_hold_their_schemas(set: SetView, made_from: Seq<char>, j: int, key: Seq<char>)
    requires
        distinct_keys(set.props),
        0 <= j < set.props.len(),
        set.props[j].1 is Object,
    ensures
        ({
            let d = definition(set, made_from);
            let schema = set.props[j].1->Object_0;
            &&& text_member(d, "identifier"@) == Some(set.name)
            &&& fields_member(d, "jsonSchema"@) is Some
            &&& field(fields_member(d, "jsonSchema"@)->0, "type"@) == Some(
                JsonView::Text("object"@),
            )
            &&& field(fields_member(d, "jsonSchema"@)->0, "properties"@) matches Some(
                JsonView::Object(all),
            ) && field(all, set.props[j].0) matches Some(JsonView::Object(property)) && {
                &&& key != "order"@ ==> field(property, key) == field(schema, key)
                &&& field(property, "order"@) == match field(schema, "order"@) {
                    Some(o) => Some(o),
                    None => Some(JsonView::Number(Numeral::PosInt((j + 1) as u64))),
                }
            }
        }),
{
    broadcast use crate::keyed::field_once_set;

    property_of_key(set.props, j);
    reveal_strlit("identifier");
    reveal_strlit("jsonSchema");
    reveal_strlit("contexts");
    reveal_strlit("tags");
    reveal_strlit("$schema");
    reveal_strlit("title");
    reveal_strlit("description");
    reveal_strlit("type");
    reveal_strlit("properties");
    assert("identifier"@.len() == 10 && "jsonSchema"@.len() == 10 && "contexts"@.len() == 8
        && "tags"@.len() == 4);
    assert("identifier"@[0] == 'i' && "jsonSchema"@[0] == 'j');
    assert("properties"@.len() == 10 && "type"@.len() == 4 && "title"@.len() == 5);
}

proof fn named_sets_are_defined(
    sets: Seq<SetView>,
    names: Seq<JsonView>,
    protocol: Seq<char>,
    key: Seq<char>,
    schema: JsonView,
)
    requires
        distinct_sets(sets),
    ensures
        ({
            let r = with_named_sets(sets, names, protocol, key, schema);
            &&& distinct_sets(r)
            &&& forall|i: int|
                0 <= i < names.len() && (#[trigger] names[i]) is Text ==> defines(
                    r,
                    names[i]->Text_0,
                    key,
                )
            &&& forall|s: Seq<char>, k: Seq<char>| defines(sets, s, k) ==> #[trigger] defines(r, s, k)
        }),
    decreases names.len(),
{
    if names.len() > 0 {
        let rest = names.drop_last();
        let before = with_named_sets(sets, rest, protocol, key, schema);
        let r = with_named_sets(sets, names, protocol, key, schema);
        named_sets_are_defined(sets, rest, protocol, key, schema);
        if let JsonView::Text(set) = names.last() {
            first_definition_wins(before, set, protocol, key, schema);
            property_is_defined(before, set, protocol, key, schema);
        }
        assert forall|i: int| 0 <= i < names.len() && (#[trigger] names[i]) is Text implies defines(
            r,
            names[i]->Text_0,
            key,
        ) by {
            if i < rest.len() {
                assert(rest[i] == names[i]);
                assert(defines(before, names[i]->Text_0, key));
            }
        }
        assert forall|s: Seq<char>, k: Seq<char>| defines(sets, s, k) implies #[trigger] defines(
            r,
            s,
            k,
        ) by {
            assert(defines(before, s, k));
        }
    }
}

/// The point of a manifest is a parameter of the set.
pub open spec fn declares(point: JsonView, set: Seq<char>) -> bool {
    match fields_member(point, "parameter"@) {
        Some(parameter) => match field(parameter, "sets"@) {
            Some(JsonView::Array(names)) => names.contains(JsonView::Text(set)),
            _ => false,
        },
        None => false,
    }
}

proof fn declared_points_are_defined(sets: Seq<SetView>, protocol: Seq<char>, points: Fields)
    requires
        distinct_sets(sets),
    ensures
        ({
            let r = with_points(sets, protocol, points);
            &&& distinct_sets(r)
            &&& forall|i: int, set: Seq<char>|
                0 <= i < points.len() && #[trigger] declares(points[i].1, set) ==> defines(
                    r,
                    set,
                    points[i].0,
                )
            &&& forall|s: Seq<char>, k: Seq<char>| defines(sets, s, k) ==> #[trigger] defines(r, s, k)
        }),
    decreases points.len(),
{
    if points.len() > 0 {
        let rest = points.drop_last();
        let (id, point) = points.last();
        let before = with_points(sets, protocol, rest);
        let r = with_points(sets, protocol, points);
        declared_points_are_defined(sets, protocol, rest);
        if let Some(parameter) = fields_member(point, "parameter"@) {
            if let Some(JsonView::Array(names)) = field(parameter, "sets"@) {
                let schema = JsonView::Object(manifest_schema(id, point, parameter).fields());
                named_sets_are_defined(before, names, protocol, id, schema);
            }
        }
        assert forall|i: int, set: Seq<char>|
            0 <= i < points.len() && #[trigger] declares(points[i].1, set) implies defines(
            r,
            set,
            points[i].0,
        ) by {
            if i < rest.len() {
                assert(rest[i] == points[i]);
                assert(declares(rest[i].1, set));
                assert(defines(before, set, points[i].0));
            } else {
                let names = field(
                    fields_member(point, "parameter"@)->0,
                    "sets"@,
                )->0->Array_0;
                let j = choose|j: int| 0 <= j < names.len() && names[j] == JsonView::Text(set);
                assert(names[j] is Text);
            }
        }
        assert forall|s: Seq<char>, k: Seq<char>| defines(sets, s, k) implies #[trigger] defines(
            r,
            s,
            k,
        ) by {
            assert(defines(before, s, k));
        }
    }
}

/// Every parameter that a manifest declares has a schema in the definition of each of its sets.
pub proof fn every_declared_parameter_is_defined(
    manifests: Seq<DeviceManifest>,
    m: int,
    i: int,
    set: Seq<char>,
)
    requires
        0 <= m < manifests.len(),
        fields_member(manifests[m].manifest@, "points"@) is Some,
        0 <= i < fields_member(manifests[m].manifest@, "points"@)->0.len(),
        declares(fields_member(manifests[m].manifest@, "points"@)->0[i].1, set),
    ensures
        defines(
            manifest_sets(manifests),
            set,
            fields_member(manifests[m].manifest@, "points"@)->0[i].0,
        ),
    decreases manifests.len(),
{
    let rest = manifests.drop_last();
    let last = manifests.last().manifest@;
    manifest_sets_are_distinct(rest);
    if let Some(points) = fields_member(last, "points"@) {
        declared_points_are_defined(
            manifest_sets(rest),
            text_or(text_member(last, "protocol"@), Seq::empty()),
            points,
        );
    }
    if m < rest.len() {
        assert(rest[m] == manifests[m]);
        every_declared_parameter_is_defined(rest, m, i, set);
    } else {
        assert(manifests[m] == manifests.last());
    }
}

proof fn points_without_parameters(sets: Seq<SetView>, protocol: Seq<char>, points: Fields)
    requires
        forall|i: int|
            0 <= i < points.len() ==> member((#[trigger] points[i]).1, "parameter"@) is None,
    ensures
        with_points(sets, protocol, points) == sets,
    decreases points.len(),
{
    if points.len() > 0 {
        let rest = points.drop_last();
        assert forall|i: int| 0 <= i < rest.len() implies member(
            (#[trigger] rest[i]).1,
            "parameter"@,
        ) is None by {
            assert(rest[i] == points[i]);
        }
        points_without_parameters(sets, protocol, rest);
        assert(points[points.len() - 1] == points.last());
    }
}

/// A manifest without parameters defines nothing.
pub proof fn manifests_without_parameters_define_nothing(manifests: Seq<DeviceManifest>)
    requires
        manifests.len() > 0,
        fields_member(manifests.last().manifest@, "points"@) matches Some(points) ==> (forall|i: int|
            0 <= i < points.len() ==> member((#[trigger] points[i]).1, "parameter"@) is None),
    ensures
        manifest_sets(manifests) == manifest_sets(manifests.drop_last()),
{
    let m = manifests.last().manifest@;
    if let Some(points) = fields_member(m, "points"@) {
        points_without_parameters(
            manifest_sets(manifests.drop_last()),
            text_or(text_member(m, "protocol"@), Seq::empty()),
            points,
        );
    }
}

/// Fields that are set stand as they were given, the last one of a key; others stay.
pub proof fn set_fields_read_back(f: Fields, more: Fields, key: Seq<char>, i: int)
    ensures
        (forall|k: int| 0 <= k < more.len() ==> (#[trigger] more[k]).0 != key) ==> field(
            with_fields(f, more),
            key,
        ) == field(f, key),
        0 <= i < more.len() && more[i].0 == key && (forall|k: int|
            i < k < more.len() ==> (#[trigger] more[k]).0 != key) ==> field(
            with_fields(f, more),
            key,
        ) == Some(more[i].1),
    decreases more.len(),
{
    broadcast use crate::keyed::field_once_set;

    if more.len() > 0 {
        let before = more.drop_last();
        set_fields_read_back(f, before, key, i);
        assert(more[more.len() - 1] == more.last());
        assert forall|k: int| 0 <= k < before.len() implies #[trigger] before[k] == more[k] by {}
    }
}

/// Whether a set of that name has that key.
pub open spec fn holds_key(sets: Seq<SetView>, set: Seq<char>, key: Seq<char>) -> bool {
    exists|i: int| 0 <= i < sets.len() && (#[trigger] sets[i]).name == set && has_key(
        sets[i].props,
        key,
    )
}

/// No two sets have one name, and no set has a key twice.
pub open spec fn kept_apart(sets: Seq<SetView>) -> bool {
    &&& forall|i: int, j: int|
        0 <= i < j < sets.len() ==> (#[trigger] sets[i]).name != (#[trigger] sets[j]).name
    &&& forall|i: int| 0 <= i < sets.len() ==> distinct_keys((#[trigger] sets[i]).props)
}

proof fn set_place(sets: Seq<SetView>, set: Seq<char>) -> (i: int)
    ensures
        0 <= i <= sets.len(),
        forall|j: int| 0 <= j < i ==> (#[trigger] sets[j]).name != set,
        i < sets.len() ==> sets[i].name == set,
    decreases sets.len(),
{
    if sets.len() == 0 {
        0
    } else {
        let init = sets.drop_last();
        let i = set_place(init, set);
        assert forall|j: int| 0 <= j < i implies (#[trigger] sets[j]).name != set by {
            assert(init[j] == sets[j]);
        }
        if i < init.len() {
            assert(init[i] == sets[i]);
            i
        } else if sets.last().name == set {
            i
        } else {
            i + 1
        }
    }
}

proof fn property_is_kept(props: Seq<(Seq<char>, JsonView)>, key: Seq<char>, schema: JsonView)
    requires
        distinct_keys(props),
    ensures
        distinct_keys(with_property(props, key, schema)),
        forall|k: Seq<char>| #[trigger]
            has_key(with_property(props, key, schema), k) <==> has_key(props, k) || k == key,
{
    let all = with_property(props, key, schema);
    assert forall|k: Seq<char>| #[trigger] has_key(all, k) <==> has_key(props, k) || k == key by {
        if has_key(props, k) {
            let i = choose|i: int| 0 <= i < props.len() && (#[trigger] props[i]).0 == k;
            assert(all[i].0 == k);
        }
        if has_key(all, k) {
            let i = choose|i: int| 0 <= i < all.len() && (#[trigger] all[i]).0 == k;
            if i < props.len() {
                assert(props[i].0 == k);
            }
        }
        if !has_key(props, key) {
            assert(all[props.len() as int].0 == key);
        }
    }
    assert forall|i: int, j: int| 0 <= i < j < all.len() implies (#[trigger] all[i]).0 != (
    #[trigger] all[j]).0 by {
        if j < props.len() {
            assert(props[i].0 != props[j].0);
        } else {
            assert(props[i].0 != key);
        }
    }
}

/// A schema that is set stands in its set under its key; nothing else comes or goes, and the sets
/// stay apart.
pub proof fn set_schemas_stand_in_their_set(
    sets: Seq<SetView>,
    set: Seq<char>,
    protocol: Seq<char>,
    key: Seq<char>,
    schema: JsonView,
    name: Seq<char>,
    k: Seq<char>,
)
    requires
        kept_apart(sets),
    ensures
        ({
            let all = with_set_property(sets, set, protocol, key, schema);
            &&& kept_apart(all)
            &&& holds_key(all, name, k) <==> holds_key(sets, name, k) || (name == set && k == key)
        }),
{
    let all = with_set_property(sets, set, protocol, key, schema);
    let i = set_place(sets, set);
    set_property_at(sets, set, protocol, key, schema, i);
    if i < sets.len() {
        property_is_kept(sets[i].props, key, schema);
        assert(all[i].name == set && has_key(all[i].props, key));
    } else {
        let props = seq![(key, schema)];
        assert(all[i].props == props);
        assert(props[0].0 == key);
        assert(has_key(all[i].props, key));
        assert(all[i].name == set);
    }
    if holds_key(sets, name, k) {
        let n = choose|n: int|
            0 <= n < sets.len() && (#[trigger] sets[n]).name == name && has_key(sets[n].props, k);
        assert(all[n].name == name && has_key(all[n].props, k));
    }
    if holds_key(all, name, k) {
        let n = choose|n: int|
            0 <= n < all.len() && (#[trigger] all[n]).name == name && has_key(all[n].props, k);
        if n < sets.len() {
            assert(sets[n].name == name);
            if n != i {
                assert(has_key(sets[n].props, k));
            }
        } else {
            let m = choose|m: int| 0 <= m < all[n].props.len() && (#[trigger] all[n].props[m]).0 == k;
            assert(k == key);
        }
    }
}

/// Whether one of the parameters is of that point and in that set.
pub open spec fn has_parameter(ps: Seq<ParameterView>, set: Seq<char>, point: Seq<char>) -> bool {
    exists|i: int| 0 <= i < ps.len() && (#[trigger] ps[i]).set == set && ps[i].point == point
}

proof fn parameters_stand_in_their_sets(
    sets: Seq<SetView>,
    protocol: Seq<char>,
    ps: Seq<ParameterView>,
    name: Seq<char>,
    k: Seq<char>,
)
    requires
        kept_apart(sets),
    ensures
        kept_apart(with_parameters(sets, protocol, ps)),
        holds_key(with_parameters(sets, protocol, ps), name, k) <==> holds_key(sets, name, k)
            || has_parameter(ps, name, k),
    decreases ps.len(),
{
    if ps.len() > 0 {
        let before = ps.drop_last();
        let p = ps.last();
        parameters_stand_in_their_sets(sets, protocol, before, name, k);
        set_schemas_stand_in_their_set(
            with_parameters(sets, protocol, before),
            p.set,
            protocol,
            p.point,
            JsonView::Object(parameter_schema(p).fields()),
            name,
            k,
        );
        assert(ps[ps.len() - 1] == p);
        if has_parameter(before, name, k) {
            let i = choose|i: int|
                0 <= i < before.len() && (#[trigger] before[i]).set == name && before[i].point == k;
            assert(ps[i] == before[i]);
        }
        if has_parameter(ps, name, k) {
            let i = choose|i: int|
                0 <= i < ps.len() && (#[trigger] ps[i]).set == name && ps[i].point == k;
            if i < before.len() {
                assert(before[i] == ps[i]);
            }
        }
    }
}

/// The sets of configurations hold each of their parameters, under its point and in its set, and
/// nothing else; no two sets have one name, and no set has a key twice.
pub proof fn sets_hold_the_parameters_of_configurations(
    configs: Seq<ConnectorConfig>,
    forced: Option<Seq<char>>,
    name: Seq<char>,
    k: Seq<char>,
)
    ensures
        kept_apart(config_sets(configs, forced)),
        holds_key(config_sets(configs, forced), name, k) <==> exists|c: int|
            0 <= c < configs.len() && has_parameter(
                config_parameters(#[trigger] configs[c], forced),
                name,
                k,
            ),
    decreases configs.len(),
{
    if configs.len() > 0 {
        let before = configs.drop_last();
        let c = configs.last();
        sets_hold_the_parameters_of_configurations(before, forced, name, k);
        parameters_stand_in_their_sets(
            config_sets(before, forced),
            c.connector.protocol@,
            config_parameters(c, forced),
            name,
            k,
        );
        assert(configs[configs.len() - 1] == c);
        if holds_key(config_sets(before, forced), name, k) {
            let i = choose|i: int|
                0 <= i < before.len() && has_parameter(
                    config_parameters(#[trigger] before[i], forced),
                    name,
                    k,
                );
            assert(configs[i] == before[i]);
        }
        if exists|i: int|
            0 <= i < configs.len() && has_parameter(
                config_parameters(#[trigger] configs[i], forced),
                name,
                k,
            ) {
            let i = choose|i: int|
                0 <= i < configs.len() && has_parameter(
                    config_parameters(#[trigger] configs[i], forced),
                    name,
                    k,
                );
            if i < before.len() {
                assert(before[i] == configs[i]);
            }
        }
    }
}

/// Whether a point of a manifest is a parameter in that set.
pub open spec fn stands_in(point: JsonView, set: Seq<char>) -> bool {
    fields_member(point, "parameter"@) matches Some(parameter) && (field(parameter, "sets"@) matches Some(
        JsonView::Array(names),
    ) && names.contains(JsonView::Text(set)))
}

proof fn named_sets_hold_the_key(
    sets: Seq<SetView>,
    names: Seq<JsonView>,
    protocol: Seq<char>,
    key: Seq<char>,
    schema: JsonView,
    name: Seq<char>,
    k: Seq<char>,
)
    requires
        kept_apart(sets),
    ensures
        ({
            let all = with_named_sets(sets, names, protocol, key, schema);
            &&& kept_apart(all)
            &&& holds_key(all, name, k) <==> holds_key(sets, name, k) || (k == key
                && names.contains(JsonView::Text(name)))
        }),
    decreases names.len(),
{
    if names.len() > 0 {
        let before = names.drop_last();
        named_sets_hold_the_key(sets, before, protocol, key, schema, name, k);
        let head = with_named_sets(sets, before, protocol, key, schema);
        if let JsonView::Text(set) = names.last() {
            set_schemas_stand_in_their_set(head, set, protocol, key, schema, name, k);
        }
        assert(names[names.len() - 1] == names.last());
        let t = JsonView::Text(name);
        if before.contains(t) {
            let i = choose|i: int| 0 <= i < before.len() && before[i] == t;
            assert(names[i] == t);
        }
        if names.contains(t) && names.last() != t {
            let i = choose|i: int| 0 <= i < names.len() && names[i] == t;
            assert(before[i] == t);
        }
    }
}

proof fn points_stand_in_their_sets(
    sets: Seq<SetView>,
    protocol: Seq<char>,
    points: Fields,
    name: Seq<char>,
    k: Seq<char>,
)
    requires
        kept_apart(sets),
    ensures
        ({
            let all = with_points(sets, protocol, points);
            &&& kept_apart(all)
            &&& holds_key(all, name, k) <==> holds_key(sets, name, k) || exists|i: int|
                0 <= i < points.len() && (#[trigger] points[i]).0 == k && stands_in(
                    points[i].1,
                    name,
                )
        }),
    decreases points.len(),
{
    if points.len() > 0 {
        let before = points.drop_last();
        let (id, point) = points.last();
        points_stand_in_their_sets(sets, protocol, before, name, k);
        let head = with_points(sets, protocol, before);
        if let Some(parameter) = fields_member(point, "parameter"@) {
            if let Some(JsonView::Array(names)) = field(parameter, "sets"@) {
                named_sets_hold_the_key(
                    head,
                    names,
                    protocol,
                    id,
                    JsonView::Object(manifest_schema(id, point, parameter).fields()),
                    name,
                    k,
                );
            }
        }
        assert(points[points.len() - 1] == (id, point));
        if exists|i: int|
            0 <= i < before.len() && (#[trigger] before[i]).0 == k && stands_in(before[i].1, name) {
            let i = choose|i: int|
                0 <= i < before.len() && (#[trigger] before[i]).0 == k && stands_in(
                    before[i].1,
                    name,
                );
            assert(points[i] == before[i]);
        }
        if exists|i: int|
            0 <= i < points.len() && (#[trigger] points[i]).0 == k && stands_in(points[i].1, name) {
            let i = choose|i: int|
                0 <= i < points.len() && (#[trigger] points[i]).0 == k && stands_in(
                    points[i].1,
                    name,
                );
            if i < before.len() {
                assert(before[i] == points[i]);
            }
        }
    }
}

/// Whether a manifest has a point of that id that is a parameter in that set.
pub open spec fn tells_parameter(m: DeviceManifest, set: Seq<char>, id: Seq<char>) -> bool {
    fields_member(m.manifest@, "points"@) matches Some(points) && exists|i: int|
        0 <= i < points.len() && (#[trigger] points[i]).0 == id && stands_in(points[i].1, set)
}

/// The sets of manifests hold each point that a manifest tells to be a parameter, in the sets that
/// it names, and nothing else; no two sets have one name, and no set has a key twice.
pub proof fn sets_hold_the_parameters_of_manifests(
    manifests: Seq<DeviceManifest>,
    name: Seq<char>,
    k: Seq<char>,
)
    ensures
        kept_apart(manifest_sets(manifests)),
        holds_key(manifest_sets(manifests), name, k) <==> exists|i: int|
            0 <= i < manifests.len() && tells_parameter(#[trigger] manifests[i], name, k),
    decreases manifests.len(),
{
    if manifests.len() > 0 {
        let before = manifests.drop_last();
        let m = manifests.last();
        let head = manifest_sets(before);
        sets_hold_the_parameters_of_manifests(before, name, k);
        if let Some(points) = fields_member(m.manifest@, "points"@) {
            points_stand_in_their_sets(
                head,
                text_or(text_member(m.manifest@, "protocol"@), Seq::empty()),
                points,
                name,
                k,
            );
        }
        assert(manifests[manifests.len() - 1] == m);
        if holds_key(head, name, k) {
            let i = choose|i: int|
                0 <= i < before.len() && tells_parameter(#[trigger] before[i], name, k);
            assert(manifests[i] == before[i]);
        }
        if exists|i: int|
            0 <= i < manifests.len() && tells_parameter(#[trigger] manifests[i], name, k) {
            let i = choose|i: int|
                0 <= i < manifests.len() && tells_parameter(#[trigger] manifests[i], name, k);
            if i < before.len() {
                assert(before[i] == manifests[i]);
            }
        }
    }
}

/// A capitalized word is the word with its first character in upper case, and nothing else.
pub proof fn only_the_first_character_is_raised(s: Seq<char>)
    ensures
        s.len() == 0 ==> capitalized(s).len() == 0,
        s.len() > 0 ==> capitalized(s).len() == upper(s[0]).len() + s.len() - 1,
        s.len() > 0 ==> capitalized(s).take(upper(s[0]).len() as int) == upper(s[0]),
        s.len() > 0 ==> capitalized(s).skip(upper(s[0]).len() as int) == s.drop_first(),
{
    if s.len() > 0 {
        assert(capitalized(s).take(upper(s[0]).len() as int) =~= upper(s[0]));
        assert(capitalized(s).skip(upper(s[0]).len() as int) =~= s.drop_first());
    }
}

/// A heading has the words of its key: as many as there are parts that are not empty, and all but
/// the first as they are.
pub proof fn headings_have_the_words_of_their_key(parts: Seq<Seq<char>>)
    requires
        forall|i: int| 0 <= i < parts.len() ==> (#[trigger] parts[i]).len() > 0,
    ensures
        title_words(parts).len() == parts.len(),
        parts.len() > 0 ==> title_words(parts)[0] == upper(parts[0][0]) + parts[0].drop_first(),
        forall|i: int| 0 < i < parts.len() ==> #[trigger] title_words(parts)[i] == parts[i],
        title_words(parts.push(Seq::empty())) == title_words(parts),
    decreases parts.len(),
{
    assert(parts.push(Seq::<char>::empty()).drop_last() =~= parts);
    if parts.len() > 0 {
        let before = parts.drop_last();
        assert forall|i: int| 0 <= i < before.len() implies (#[trigger] before[i]).len() > 0 by {
            assert(before[i] == parts[i]);
        }
        headings_have_the_words_of_their_key(before);
        assert(parts[parts.len() - 1].len() > 0);
        assert forall|i: int| 0 < i < parts.len() implies #[trigger] title_words(parts)[i]
            == parts[i] by {
            if i < before.len() {
                assert(title_words(before)[i] == before[i]);
            }
        }
    }
}

} // verus!
