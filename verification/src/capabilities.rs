//! What a connector can do, as it tells it: what its module can do, and what the runtime adds.
use crate::connector::Capabilities;
use crate::json::{text_views, views, Fields, Json, JsonObject, JsonView};
use crate::keyed::{field, with_field};
use crate::model::{DataType, Mode};
use crate::text::{contains_text, push_distinct, texts, with_distinct};
use vstd::prelude::*;

verus! {

/// The verbs with the one that writes several points, where one writes one.
pub open spec fn batch_verbs(verbs: Seq<Seq<char>>) -> Seq<Seq<char>> {
    if verbs.contains("write"@) {
        with_distinct(verbs, "write-batch"@)
    } else {
        verbs
    }
}

/// The verbs with those that change the configuration.
pub open spec fn management_verbs(verbs: Seq<Seq<char>>) -> Seq<Seq<char>> {
    with_distinct(
        with_distinct(with_distinct(verbs, "set-config"@), "define-device"@),
        "remove-device"@,
    )
}

/// Adds the verb that writes several points, which the runtime answers by the one that writes
/// one.
pub fn augment_batch_caps(caps: &mut Capabilities)
    ensures
        texts(final(caps).command_verbs@) == batch_verbs(texts(old(caps).command_verbs@)),
        *final(caps) == (Capabilities { command_verbs: final(caps).command_verbs, ..*old(caps) }),
{
    if contains_text(&caps.command_verbs, "write") {
        push_distinct(&mut caps.command_verbs, "write-batch");
    }
}

/// Adds the verbs that change the configuration, which the runtime answers for every module.
pub fn augment_management_caps(caps: &mut Capabilities)
    ensures
        texts(final(caps).command_verbs@) == management_verbs(texts(old(caps).command_verbs@)),
        texts(final(caps).features@) == with_distinct(texts(old(caps).features@), "management"@),
        *final(caps) == (Capabilities {
            command_verbs: final(caps).command_verbs,
            features: final(caps).features,
            ..*old(caps)
        }),
{
    push_distinct(&mut caps.command_verbs, "set-config");
    push_distinct(&mut caps.command_verbs, "define-device");
    push_distinct(&mut caps.command_verbs, "remove-device");
    push_distinct(&mut caps.features, "management");
}

proof fn distinct_contains(s: Seq<Seq<char>>, x: Seq<char>, y: Seq<char>)
    ensures
        with_distinct(s, x).contains(x),
        s.contains(y) ==> with_distinct(s, x).contains(y),
        x != y && !s.contains(y) ==> !with_distinct(s, x).contains(y),
{
    let r = with_distinct(s, x);
    if !s.contains(x) {
        assert(r[s.len() as int] == x);
    }
    if s.contains(y) {
        let i = choose|i: int| 0 <= i < s.len() && s[i] == y;
        assert(r[i] == y);
    }
    if r.contains(y) && x != y {
        let i = choose|i: int| 0 <= i < r.len() && r[i] == y;
        assert(s[i] == y);
    }
}

/// What the runtime adds is there, what the module said stays, and adding it again changes
/// nothing.
pub proof fn what_is_added_is_there_once(verbs: Seq<Seq<char>>, verb: Seq<char>)
    ensures
        verbs.contains(verb) ==> batch_verbs(verbs).contains(verb) && management_verbs(
            verbs,
        ).contains(verb),
        verbs.contains("write"@) ==> batch_verbs(verbs).contains("write-batch"@),
        !verbs.contains("write"@) ==> batch_verbs(verbs) == verbs,
        batch_verbs(batch_verbs(verbs)) == batch_verbs(verbs),
        management_verbs(verbs).contains("set-config"@),
        management_verbs(verbs).contains("define-device"@),
        management_verbs(verbs).contains("remove-device"@),
        management_verbs(management_verbs(verbs)) == management_verbs(verbs),
{
    let a = with_distinct(verbs, "set-config"@);
    let b = with_distinct(a, "define-device"@);
    let c = with_distinct(b, "remove-device"@);
    distinct_contains(verbs, "write-batch"@, verb);
    distinct_contains(verbs, "write-batch"@, "write"@);
    distinct_contains(verbs, "set-config"@, verb);
    distinct_contains(a, "define-device"@, verb);
    distinct_contains(b, "remove-device"@, verb);
    distinct_contains(a, "define-device"@, "set-config"@);
    distinct_contains(b, "remove-device"@, "set-config"@);
    distinct_contains(b, "remove-device"@, "define-device"@);
}

/// The names of modes.
pub open spec fn mode_names(v: Seq<Mode>) -> Seq<JsonView> {
    v.map_values(|m: Mode| JsonView::Text(m.label()))
}

/// The names of datatypes.
pub open spec fn datatype_names(v: Seq<DataType>) -> Seq<JsonView> {
    v.map_values(|d: DataType| JsonView::Text(d.label()))
}

/// What a module can do, as an object.
pub open spec fn capability_fields(caps: Capabilities) -> Fields {
    let f = with_field(Fields::empty(), "protocol"@, JsonView::Text(caps.protocol@));
    let f = with_field(f, "version"@, JsonView::Text(caps.version@));
    let f = with_field(f, "modes"@, JsonView::Array(mode_names(caps.modes@)));
    let f = with_field(f, "datatypes"@, JsonView::Array(datatype_names(caps.datatypes@)));
    let f = with_field(f, "point_kinds"@, JsonView::Array(text_views(texts(caps.point_kinds@))));
    let f = with_field(
        f,
        "command_verbs"@,
        JsonView::Array(text_views(texts(caps.command_verbs@))),
    );
    let f = with_field(f, "features"@, JsonView::Array(text_views(texts(caps.features@))));
    with_field(f, "subscribe"@, JsonView::Bool(caps.subscribe))
}

fn mode_array(v: &Vec<Mode>) -> (r: Json)
    ensures
        r@ == JsonView::Array(mode_names(v@)),
{
    let mut out: Vec<Json> = Vec::new();
    let mut i: usize = 0;
    while i < v.len()
        invariant
            i <= v@.len(),
            out@.len() == i,
            forall|k: int| 0 <= k < i ==> (#[trigger] out@[k])@ == JsonView::Text(v@[k].label()),
        decreases v@.len() - i,
    {
        out.push(Json::text(v[i].as_str()));
        i = i + 1;
    }
    assert(views(out@) =~= mode_names(v@));
    Json::of_items(out)
}

fn datatype_array(v: &Vec<DataType>) -> (r: Json)
    ensures
        r@ == JsonView::Array(datatype_names(v@)),
{
    let mut out: Vec<Json> = Vec::new();
    let mut i: usize = 0;
    while i < v.len()
        invariant
            i <= v@.len(),
            out@.len() == i,
            forall|k: int| 0 <= k < i ==> (#[trigger] out@[k])@ == JsonView::Text(v@[k].label()),
        decreases v@.len() - i,
    {
        out.push(Json::text(v[i].as_str()));
        i = i + 1;
    }
    assert(views(out@) =~= datatype_names(v@));
    Json::of_items(out)
}

impl Capabilities {
    fn object(&self) -> (r: JsonObject)
        ensures
            r@ == capability_fields(*self),
    {
        let mut obj = JsonObject::new();
        obj.insert("protocol", Json::text(self.protocol));
        obj.insert("version", Json::text(self.version));
        obj.insert("modes", mode_array(&self.modes));
        obj.insert("datatypes", datatype_array(&self.datatypes));
        obj.insert("point_kinds", Json::of_texts(&self.point_kinds));
        obj.insert("command_verbs", Json::of_texts(&self.command_verbs));
        obj.insert("features", Json::of_texts(&self.features));
        obj.insert("subscribe", Json::of_bool(self.subscribe));
        obj
    }

    /// What a module can do, as an object.
    pub fn to_json(&self) -> (r: Json)
        ensures
            r@ == JsonView::Object(capability_fields(*self)),
    {
        Json::of_object(self.object())
    }
}

/// What a connector tells of itself: what it can do, and how its points are called.
pub open spec fn told_capabilities(caps: Capabilities, labels: Seq<JsonView>) -> JsonView {
    let f = capability_fields(caps);
    JsonView::Object(
        if labels.len() > 0 {
            with_field(f, "point_labels"@, JsonView::Array(labels))
        } else {
            f
        },
    )
}

/// What a connector tells of itself: what it can do, and how its points are called. The labels
/// are of the configuration, so that this is told again whenever that changes.
pub fn capability_payload(caps: &Capabilities, labels: &Vec<Json>) -> (r: Json)
    ensures
        r@ == told_capabilities(*caps, views(labels@)),
{
    let mut obj: JsonObject = caps.object();
    if labels.len() > 0 {
        let mut items: Vec<Json> = Vec::new();
        let mut i: usize = 0;
        while i < labels.len()
            invariant
                i <= labels@.len(),
                items@.len() == i,
                forall|k: int| 0 <= k < i ==> (#[trigger] items@[k])@ == labels@[k]@,
            decreases labels@.len() - i,
        {
            items.push(labels[i].clone());
            i = i + 1;
        }
        assert(views(items@) =~= views(labels@));
        obj.insert("point_labels", Json::of_items(items));
    }
    Json::of_object(obj)
}

/// The verbs that are told are those of the module and those that the runtime adds, and no other.
pub proof fn only_the_runtimes_verbs_are_added(verbs: Seq<Seq<char>>, verb: Seq<char>)
    ensures
        management_verbs(verbs).contains(verb) <==> verbs.contains(verb) || verb == "set-config"@
            || verb == "define-device"@ || verb == "remove-device"@,
        batch_verbs(verbs).contains(verb) <==> verbs.contains(verb) || (verbs.contains("write"@)
            && verb == "write-batch"@),
{
    let a = with_distinct(verbs, "set-config"@);
    let b = with_distinct(a, "define-device"@);
    what_is_added_is_there_once(verbs, verb);
    distinct_contains(verbs, "write-batch"@, verb);
    distinct_contains(verbs, "set-config"@, verb);
    distinct_contains(a, "define-device"@, verb);
    distinct_contains(b, "remove-device"@, verb);
}

proof fn capability_keys_are_apart()
    ensures
        "protocol"@.len() == 8 && "protocol"@[0] == 'p',
        "features"@.len() == 8 && "features"@[0] == 'f',
        "version"@.len() == 7,
        "modes"@.len() == 5,
        "datatypes"@.len() == 9 && "datatypes"@[0] == 'd',
        "subscribe"@.len() == 9 && "subscribe"@[0] == 's',
        "point_kinds"@.len() == 11,
        "command_verbs"@.len() == 13,
        "point_labels"@.len() == 12,
{
    reveal_strlit("protocol");
    reveal_strlit("features");
    reveal_strlit("version");
    reveal_strlit("modes");
    reveal_strlit("datatypes");
    reveal_strlit("subscribe");
    reveal_strlit("point_kinds");
    reveal_strlit("command_verbs");
    reveal_strlit("point_labels");
}

/// Whether a value is an array of texts.
pub open spec fn lists(v: Option<JsonView>, s: Seq<Seq<char>>) -> bool {
    v matches Some(JsonView::Array(items)) && items.len() == s.len() && forall|i: int|
        0 <= i < s.len() ==> #[trigger] items[i] == JsonView::Text(s[i])
}

/// A connector tells what its module can do, and how its points are called where they are called
/// anything.
pub proof fn connectors_tell_what_they_can_do(caps: Capabilities, labels: Seq<JsonView>) -> (f:
    Fields)
    ensures
        told_capabilities(caps, labels) == JsonView::Object(f),
        field(f, "protocol"@) == Some(JsonView::Text(caps.protocol@)),
        field(f, "version"@) == Some(JsonView::Text(caps.version@)),
        field(f, "subscribe"@) == Some(JsonView::Bool(caps.subscribe)),
        lists(field(f, "point_kinds"@), texts(caps.point_kinds@)),
        lists(field(f, "command_verbs"@), texts(caps.command_verbs@)),
        lists(field(f, "features"@), texts(caps.features@)),
        lists(field(f, "modes"@), caps.modes@.map_values(|m: Mode| m.label())),
        lists(field(f, "datatypes"@), caps.datatypes@.map_values(|d: DataType| d.label())),
        labels.len() > 0 ==> field(f, "point_labels"@) == Some(JsonView::Array(labels)),
        labels.len() == 0 ==> field(f, "point_labels"@) is None,
{
    broadcast use crate::keyed::field_once_set;

    capability_keys_are_apart();
    assert(forall|k: Seq<char>| #[trigger] field(Fields::empty(), k) is None);
    let f = capability_fields(caps);
    let f = if labels.len() > 0 {
        with_field(f, "point_labels"@, JsonView::Array(labels))
    } else {
        f
    };
    assert(field(f, "point_kinds"@) == Some(JsonView::Array(text_views(texts(caps.point_kinds@)))));
    assert(field(f, "command_verbs"@) == Some(
        JsonView::Array(text_views(texts(caps.command_verbs@))),
    ));
    assert(field(f, "features"@) == Some(JsonView::Array(text_views(texts(caps.features@)))));
    assert(field(f, "modes"@) == Some(JsonView::Array(mode_names(caps.modes@))));
    assert(field(f, "datatypes"@) == Some(JsonView::Array(datatype_names(caps.datatypes@))));
    f
}

} // verus!
