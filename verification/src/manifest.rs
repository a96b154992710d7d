//! The manifest of a device: a retained message that says once what the device is and what its
//! points are, so that no sample has to.
use crate::config::{ConnectorConfig, DeviceConfig, PointConfig, PublishPolicy, Range};
use crate::connector::{access_of, Access};
use crate::descriptor::{
    is_parameter, numeral_of, options_of, parameters_of, params, sets_are_some_and_distinct, Naming,
    Parameter, SetNaming,
};
use crate::dtm::{either, float_view};
use crate::json::{
    copy_json, text_view, text_views, view_of, view_of_ref, with_optional, Fields, Json,
    JsonNumber, JsonObject, JsonView, Numeral,
};
use crate::keyed::{field, with_field};
use crate::model::{datatype_json, datatype_view};
use crate::text::{as_deref, concat3, text_of, texts};
use vstd::prelude::*;

verus! {

/// The version of the contract that a manifest declares.
pub const CONTRACT_VERSION: &'static str = "0.2";

/// The topic of a device's manifest.
pub open spec fn manifest_topic(device: Seq<char>, protocol: Seq<char>) -> Seq<char> {
    "te/device/"@ + device + "/ot/"@ + protocol + "/manifest"@
}

/// The topic of a device's manifest.
pub fn topic(device: &str, protocol: &str) -> (r: String)
    ensures
        r@ == manifest_topic(device@, protocol@),
{
    let mut out: String = concat3("te/device/", device, "/ot/");
    out.append(protocol);
    out.append("/manifest");
    out
}

/// A range as an object.
pub open spec fn range_fields(range: Range) -> Fields {
    let f = with_optional(Fields::empty(), "min"@, float_view(numeral_of(range.min)));
    with_optional(f, "max"@, float_view(numeral_of(range.max)))
}

/// A truth value that may be missing.
pub open spec fn bool_view(b: Option<bool>) -> Option<JsonView> {
    match b {
        Some(x) => Some(JsonView::Bool(x)),
        None => None,
    }
}

/// A publish policy as an object.
pub open spec fn publish_fields(policy: PublishPolicy) -> Fields {
    let f = with_optional(Fields::empty(), "on_change"@, bool_view(policy.on_change));
    let f = with_optional(f, "deadband"@, float_view(numeral_of(policy.deadband)));
    let f = with_optional(f, "min_interval"@, text_view(text_of(policy.min_interval)));
    with_optional(f, "debounce"@, text_view(text_of(policy.debounce)))
}

/// What a manifest says of a parameter: its sets, its options, and its place for the order where
/// it declares none.
pub open spec fn parameter_fields(options: Fields, sets: Seq<Seq<char>>, place: u64) -> Fields {
    let f = with_field(Fields::empty(), "sets"@, JsonView::Array(text_views(sets)));
    let f = with_optional(f, "title"@, field(options, "title"@));
    let f = with_optional(f, "description"@, field(options, "description"@));
    let f = with_optional(f, "enum"@, field(options, "enum"@));
    let f = with_optional(f, "default"@, field(options, "default"@));
    with_optional(
        f,
        "order"@,
        either(field(options, "order"@), Some(JsonView::Number(Numeral::PosInt(place)))),
    )
}

/// What a manifest says of a point. `place` is its place among the device's parameters.
pub open spec fn point_fields(point: PointConfig, naming: Naming, place: u64) -> Fields {
    let f = with_optional(Fields::empty(), "datatype"@, datatype_view(point.datatype));
    let f = with_field(
        f,
        "access"@,
        JsonView::Text(access_of(text_of(point.access)).label()),
    );
    let f = with_optional(f, "unit"@, text_view(text_of(point.unit)));
    let f = with_optional(f, "name"@, text_view(text_of(point.name)));
    let f = with_optional(f, "description"@, text_view(text_of(point.description)));
    let f = match point.range {
        Some(range) => with_field(f, "range"@, JsonView::Object(range_fields(range))),
        None => f,
    };
    let f = match point.publish {
        Some(policy) => with_field(f, "publish"@, JsonView::Object(publish_fields(policy))),
        None => f,
    };
    let f = with_optional(f, "measurement"@, view_of(point.measurement));
    let f = with_optional(f, "meta"@, view_of(point.meta));
    if is_parameter(point) {
        with_field(
            f,
            "parameter"@,
            JsonView::Object(
                parameter_fields(options_of(point), naming.sets(options_of(point)), place),
            ),
        )
    } else {
        f
    }
}

/// How many of the points are parameters.
pub open spec fn parameter_count(points: Seq<PointConfig>) -> nat
    decreases points.len(),
{
    if points.len() == 0 {
        0
    } else {
        parameter_count(points.drop_last()) + if is_parameter(points.last()) {
            1nat
        } else {
            0nat
        }
    }
}

/// What a manifest says of points, by their ids.
pub open spec fn points_fields(points: Seq<PointConfig>, naming: Naming) -> Fields
    decreases points.len(),
{
    if points.len() == 0 {
        Fields::empty()
    } else {
        with_field(
            points_fields(points.drop_last(), naming),
            points.last().id@,
            JsonView::Object(
                point_fields(
                    points.last(),
                    naming,
                    (parameter_count(points.drop_last()) + 1) as u64,
                ),
            ),
        )
    }
}

/// The manifest of a device.
pub open spec fn manifest_fields(
    config: ConnectorConfig,
    device: DeviceConfig,
    info: Option<JsonView>,
    commands: Seq<Seq<char>>,
) -> Fields {
    let naming = Naming::of(device, config.connector.protocol@, config.connector.forced_set());
    let f = with_field(Fields::empty(), "contract"@, JsonView::Text("0.2"@));
    let f = with_field(f, "protocol"@, JsonView::Text(config.connector.protocol@));
    let f = with_field(f, "service"@, JsonView::Text(config.connector.service()));
    let f = with_optional(f, "type"@, text_view(device.kind()));
    let f = with_optional(f, "info"@, info);
    let f = if commands.len() > 0 {
        with_field(f, "commands"@, JsonView::Array(text_views(commands)))
    } else {
        f
    };
    with_field(f, "points"@, JsonView::Object(points_fields(device.points@, naming)))
}

fn number_json(n: &Option<JsonNumber>) -> (r: Option<Json>)
    ensures
        view_of(r) == float_view(numeral_of(*n)),
{
    match n {
        Some(x) => Some(Json::of_number(x.as_float())),
        None => None,
    }
}

fn range_json(range: &Range) -> (r: Json)
    ensures
        r@ == JsonView::Object(range_fields(*range)),
{
    let mut o = JsonObject::new();
    o.insert_optional("min", number_json(&range.min));
    o.insert_optional("max", number_json(&range.max));
    Json::of_object(o)
}

fn publish_json(policy: &PublishPolicy) -> (r: Json)
    ensures
        r@ == JsonView::Object(publish_fields(*policy)),
{
    let mut o = JsonObject::new();
    if let Some(b) = policy.on_change {
        o.insert("on_change", Json::of_bool(b));
    }
    o.insert_optional("deadband", number_json(&policy.deadband));
    o.insert_text("min_interval", as_deref(&policy.min_interval));
    o.insert_text("debounce", as_deref(&policy.debounce));
    Json::of_object(o)
}

fn option_copy(options: &JsonObject, key: &str) -> (r: Option<Json>)
    ensures
        view_of(r) == field(options@, key@),
{
    match options.get(key) {
        Some(v) => Some(v.clone()),
        None => None,
    }
}

fn parameter_json(found: &Vec<Parameter>, place: u64, Ghost(all): Ghost<Seq<Seq<char>>>) -> (r: Json)
    requires
        found@.len() > 0,
        all.len() == found@.len(),
        forall|i: int| 0 <= i < found@.len() ==> (#[trigger] found@[i]).set@ == all[i],
    ensures
        r@ == JsonView::Object(parameter_fields(found@[0].options@, all, place)),
{
    let mut sets: Vec<String> = Vec::new();
    let mut i: usize = 0;
    while i < found.len()
        invariant
            i <= found@.len(),
            all.len() == found@.len(),
            sets@.len() == i,
            forall|k: int| 0 <= k < found@.len() ==> (#[trigger] found@[k]).set@ == all[k],
            forall|k: int| 0 <= k < i ==> (#[trigger] sets@[k])@ == all[k],
        decreases found@.len() - i,
    {
        sets.push(found[i].set.clone());
        i = i + 1;
    }
    assert(texts(sets@) =~= all);
    let options: &JsonObject = &found[0].options;
    let mut o = JsonObject::new();
    o.insert("sets", Json::of_texts(&sets));
    o.insert_optional("title", option_copy(options, "title"));
    o.insert_optional("description", option_copy(options, "description"));
    o.insert_optional("enum", option_copy(options, "enum"));
    o.insert_optional("default", option_copy(options, "default"));
    match option_copy(options, "order") {
        Some(v) => o.insert("order", v),
        None => o.insert("order", Json::of_unsigned(place)),
    }
    Json::of_object(o)
}

/// What a manifest says of a point, and whether the point is a parameter.
fn point_json(point: &PointConfig, naming: &SetNaming, place: u64) -> (r: (Json, bool))
    ensures
        r.0@ == JsonView::Object(point_fields(*point, naming@, place)),
        r.1 == is_parameter(*point),
{
    let mut o = JsonObject::new();
    o.insert_optional("datatype", datatype_json(point.datatype));
    o.insert("access", Json::text(Access::parse(as_deref(&point.access)).as_str()));
    o.insert_text("unit", as_deref(&point.unit));
    o.insert_text("name", as_deref(&point.name));
    o.insert_text("description", as_deref(&point.description));
    if let Some(range) = &point.range {
        o.insert("range", range_json(range));
    }
    if let Some(policy) = &point.publish {
        o.insert("publish", publish_json(policy));
    }
    o.insert_optional("measurement", copy_json(&point.measurement));
    o.insert_optional("meta", copy_json(&point.meta));
    let found: Vec<Parameter> = parameters_of(point, naming);
    let ghost all = naming@.sets(options_of(*point));
    proof {
        assert(params(found@).len() == found@.len());
        if is_parameter(*point) {
            sets_are_some_and_distinct(naming@, options_of(*point));
            assert forall|i: int| 0 <= i < found@.len() implies (#[trigger] found@[i]).set@
                == all[i] && found@[i].options@ == options_of(*point) by {
                assert(params(found@)[i] == found@[i]@);
            }
        }
    }
    if found.len() > 0 {
        o.insert("parameter", parameter_json(&found, place, Ghost(all)));
        (Json::of_object(o), true)
    } else {
        (Json::of_object(o), false)
    }
}

/// The manifest of a device. `info` is what connecting to the device told of it, and `commands`
/// are the command types that it is commanded by.
pub fn device_manifest(
    config: &ConnectorConfig,
    device: &DeviceConfig,
    info: Option<&Json>,
    commands: &Vec<String>,
) -> (r: Json)
    ensures
        r@ == JsonView::Object(
            manifest_fields(*config, *device, view_of_ref(info), texts(commands@)),
        ),
{
    let protocol: &str = config.connector.protocol.as_str();
    let naming: SetNaming = SetNaming::of(device, protocol, config.connector.parameter_set());
    let mut points = JsonObject::new();
    let mut before: u64 = 0;
    let mut i: usize = 0;
    assert(device.points@.take(0) =~= Seq::<PointConfig>::empty());
    while i < device.points.len()
        invariant
            i <= device.points@.len(),
            before == parameter_count(device.points@.take(i as int)),
            before <= i,
            points@ == points_fields(device.points@.take(i as int), naming@),
        decreases device.points@.len() - i,
    {
        assert(device.points@.take(i + 1).drop_last() =~= device.points@.take(i as int));
        assert(device.points@.take(i + 1).last() == device.points@[i as int]);
        let (entry, is_one) = point_json(&device.points[i], &naming, before + 1);
        points.insert(device.points[i].id.as_str(), entry);
        if is_one {
            before = before + 1;
        }
        i = i + 1;
    }
    assert(device.points@.take(device.points@.len() as int) =~= device.points@);
    let mut o = JsonObject::new();
    o.insert("contract", Json::text(CONTRACT_VERSION));
    o.insert("protocol", Json::text(protocol));
    o.insert("service", Json::of_string(config.connector.service_name()));
    o.insert_text("type", device.typed());
    if let Some(v) = info {
        o.insert("info", v.clone());
    }
    assert(texts(commands@).len() == commands@.len());
    if commands.len() > 0 {
        o.insert("commands", Json::of_texts(commands));
    }
    o.insert("points", Json::of_object(points));
    Json::of_object(o)
}

proof fn point_keys_are_apart()
    ensures
        "datatype"@.len() == 8,
        "access"@.len() == 6,
        "unit"@.len() == 4 && "unit"@[0] == 'u',
        "name"@.len() == 4 && "name"@[0] == 'n',
        "description"@.len() == 11 && "description"@[0] == 'd',
        "range"@.len() == 5,
        "publish"@.len() == 7,
        "measurement"@.len() == 11 && "measurement"@[0] == 'm',
        "meta"@.len() == 4 && "meta"@[0] == 'm',
        "parameter"@.len() == 9,
{
    reveal_strlit("datatype");
    reveal_strlit("access");
    reveal_strlit("unit");
    reveal_strlit("name");
    reveal_strlit("description");
    reveal_strlit("range");
    reveal_strlit("publish");
    reveal_strlit("measurement");
    reveal_strlit("meta");
    reveal_strlit("parameter");
}

/// A manifest says of a point what is configured for it, and nothing where nothing is.
pub proof fn manifests_say_what_is_configured(point: PointConfig, naming: Naming, place: u64)
    ensures
        ({
            let f = point_fields(point, naming, place);
            &&& field(f, "datatype"@) == datatype_view(point.datatype)
            &&& field(f, "access"@) == Some(
                JsonView::Text(access_of(text_of(point.access)).label()),
            )
            &&& field(f, "unit"@) == text_view(text_of(point.unit))
            &&& field(f, "name"@) == text_view(text_of(point.name))
            &&& field(f, "description"@) == text_view(text_of(point.description))
            &&& field(f, "measurement"@) == view_of(point.measurement)
            &&& field(f, "meta"@) == view_of(point.meta)
            &&& field(f, "range"@) is Some <==> point.range is Some
            &&& point.range matches Some(r) ==> field(f, "range"@) == Some(
                JsonView::Object(range_fields(r)),
            )
            &&& field(f, "publish"@) is Some <==> point.publish is Some
            &&& point.publish matches Some(p) ==> field(f, "publish"@) == Some(
                JsonView::Object(publish_fields(p)),
            )
            &&& field(f, "parameter"@) is Some <==> is_parameter(point)
            &&& is_parameter(point) ==> field(f, "parameter"@) == Some(
                JsonView::Object(
                    parameter_fields(options_of(point), naming.sets(options_of(point)), place),
                ),
            )
        }),
{
    broadcast use crate::keyed::field_once_set;

    point_keys_are_apart();
    assert(forall|k: Seq<char>| #[trigger] field(Fields::empty(), k) is None);
}

/// What a manifest says of a range and of a publish policy is what they hold.
pub proof fn ranges_and_policies_are_told(range: Range, policy: PublishPolicy)
    ensures
        field(range_fields(range), "min"@) == float_view(numeral_of(range.min)),
        field(range_fields(range), "max"@) == float_view(numeral_of(range.max)),
        field(publish_fields(policy), "on_change"@) == match policy.on_change {
            Some(b) => Some(JsonView::Bool(b)),
            None => None,
        },
        field(publish_fields(policy), "deadband"@) == float_view(numeral_of(policy.deadband)),
        field(publish_fields(policy), "min_interval"@) == text_view(text_of(policy.min_interval)),
        field(publish_fields(policy), "debounce"@) == text_view(text_of(policy.debounce)),
{
    broadcast use crate::keyed::field_once_set;

    reveal_strlit("min");
    reveal_strlit("max");
    reveal_strlit("on_change");
    reveal_strlit("deadband");
    reveal_strlit("min_interval");
    reveal_strlit("debounce");
    assert("min"@.len() == 3 && "min"@[1] == 'i');
    assert("max"@.len() == 3 && "max"@[1] == 'a');
    assert("on_change"@.len() == 9 && "deadband"@.len() == 8 && "min_interval"@.len() == 12);
    assert("debounce"@.len() == 8 && "debounce"@[2] == 'b' && "deadband"@[2] == 'a');
    assert(forall|k: Seq<char>| #[trigger] field(Fields::empty(), k) is None);
}

/// What a manifest says of a parameter: the sets in their order, the options that are declared,
/// and the declared order or else the place of the parameter.
pub proof fn parameters_are_told_with_their_sets(
    options: Fields,
    sets: Seq<Seq<char>>,
    place: u64,
    i: int,
)
    ensures
        ({
            let f = parameter_fields(options, sets, place);
            &&& field(f, "sets"@) matches Some(JsonView::Array(told)) && told.len() == sets.len()
                && (0 <= i < sets.len() ==> told[i] == JsonView::Text(sets[i]))
            &&& field(f, "title"@) == field(options, "title"@)
            &&& field(f, "description"@) == field(options, "description"@)
            &&& field(f, "enum"@) == field(options, "enum"@)
            &&& field(f, "default"@) == field(options, "default"@)
            &&& field(options, "order"@) is Some ==> field(f, "order"@) == field(options, "order"@)
            &&& field(options, "order"@) is None ==> field(f, "order"@) == Some(
                JsonView::Number(Numeral::PosInt(place)),
            )
        }),
{
    broadcast use crate::keyed::field_once_set;

    reveal_strlit("sets");
    reveal_strlit("title");
    reveal_strlit("description");
    reveal_strlit("enum");
    reveal_strlit("default");
    reveal_strlit("order");
    assert("sets"@.len() == 4 && "sets"@[0] == 's');
    assert("enum"@.len() == 4 && "enum"@[0] == 'e');
    assert("title"@.len() == 5 && "title"@[0] == 't');
    assert("order"@.len() == 5 && "order"@[0] == 'o');
    assert("description"@.len() == 11 && "default"@.len() == 7);
    assert(forall|k: Seq<char>| #[trigger] field(Fields::empty(), k) is None);
}

/// A manifest says something of each point under its id: of the last one of that id. A parameter
/// has its place among the parameters before it.
pub proof fn each_point_is_told_by_its_id(points: Seq<PointConfig>, naming: Naming, p: int)
    requires
        0 <= p < points.len(),
        forall|q: int| p < q < points.len() ==> (#[trigger] points[q]).id@ != points[p].id@,
    ensures
        field(points_fields(points, naming), points[p].id@) == Some(
            JsonView::Object(
                point_fields(points[p], naming, (parameter_count(points.take(p)) + 1) as u64),
            ),
        ),
    decreases points.len(),
{
    broadcast use crate::keyed::field_once_set;

    let before = points.drop_last();
    if p == points.len() - 1 {
        assert(points.take(p) =~= before);
    } else {
        assert forall|q: int| p < q < before.len() implies (#[trigger] before[q]).id@
            != before[p].id@ by {
            assert(before[q] == points[q]);
        }
        each_point_is_told_by_its_id(before, naming, p);
        assert(before.take(p) =~= points.take(p));
        assert(points[points.len() - 1].id@ != points[p].id@);
    }
}

/// What a manifest says of no point is that of none.
pub proof fn only_points_are_told(points: Seq<PointConfig>, naming: Naming, id: Seq<char>)
    requires
        forall|q: int| 0 <= q < points.len() ==> (#[trigger] points[q]).id@ != id,
    ensures
        field(points_fields(points, naming), id) is None,
    decreases points.len(),
{
    broadcast use crate::keyed::field_once_set;

    if points.len() > 0 {
        let before = points.drop_last();
        assert forall|q: int| 0 <= q < before.len() implies (#[trigger] before[q]).id@ != id by {
            assert(before[q] == points[q]);
        }
        only_points_are_told(before, naming, id);
        assert(points[points.len() - 1].id@ != id);
    }
}

/// A point counts as a parameter where it may be written or opts in, and does not opt out.
pub proof fn parameters_are_counted(points: Seq<PointConfig>, p: int)
    requires
        0 <= p < points.len(),
    ensures
        is_parameter(points[p]) ==> parameter_count(points.take(p + 1)) == parameter_count(
            points.take(p),
        ) + 1,
        !is_parameter(points[p]) ==> parameter_count(points.take(p + 1)) == parameter_count(
            points.take(p),
        ),
{
    assert(points.take(p + 1).drop_last() =~= points.take(p));
}

/// A manifest says what the device is, by whom it is served, and which commands it answers.
pub proof fn manifests_say_what_the_device_is(
    config: ConnectorConfig,
    device: DeviceConfig,
    info: Option<JsonView>,
    commands: Seq<Seq<char>>,
    i: int,
)
    ensures
        ({
            let f = manifest_fields(config, device, info, commands);
            &&& field(f, "contract"@) == Some(JsonView::Text("0.2"@))
            &&& field(f, "protocol"@) == Some(JsonView::Text(config.connector.protocol@))
            &&& field(f, "service"@) == Some(JsonView::Text(config.connector.service()))
            &&& field(f, "type"@) == text_view(device.kind())
            &&& field(f, "info"@) == info
            &&& commands.len() == 0 ==> field(f, "commands"@) is None
            &&& commands.len() > 0 ==> (field(f, "commands"@) matches Some(JsonView::Array(told))
                && told.len() == commands.len() && (0 <= i < commands.len() ==> told[i]
                == JsonView::Text(commands[i])))
            &&& field(f, "points"@) == Some(
                JsonView::Object(
                    points_fields(
                        device.points@,
                        Naming::of(
                            device,
                            config.connector.protocol@,
                            config.connector.forced_set(),
                        ),
                    ),
                ),
            )
        }),
{
    broadcast use crate::keyed::field_once_set;

    reveal_strlit("contract");
    reveal_strlit("protocol");
    reveal_strlit("service");
    reveal_strlit("type");
    reveal_strlit("info");
    reveal_strlit("commands");
    reveal_strlit("points");
    assert("contract"@.len() == 8 && "contract"@[2] == 'n');
    assert("protocol"@.len() == 8 && "protocol"@[2] == 'o' && "protocol"@[0] == 'p');
    assert("commands"@.len() == 8 && "commands"@[2] == 'm');
    assert("service"@.len() == 7 && "points"@.len() == 6);
    assert("type"@.len() == 4 && "type"@[0] == 't');
    assert("info"@.len() == 4 && "info"@[0] == 'i');
    assert(forall|k: Seq<char>| #[trigger] field(Fields::empty(), k) is None);
}

} // verus!
