//! Whether a device's manifest says what its configuration does.
use crate::config::{ConnectorConfig, DeviceConfig, PointConfig, PublishPolicy};
use crate::conformance::{checked_point, checked_points, checked_views, CheckedView, Point};
use crate::connector::access_of;
use crate::descriptor::Naming;
use crate::inspect::{
    alike_options, equal_numbers, numeral_option, quote, quote_option, quoted, quoted_option,
    same_json, show_number, show_option, shown_number, shown_option, values_equal_themselves,
};
use crate::json::{
    member, nearest_float, printed, text_member, text_view, view_of, view_of_ref, Fields, Json,
    JsonNumber, JsonObject, JsonView, Numeral,
};
use crate::keyed::field;
use crate::manifest::{
    manifest_fields, parameter_count, point_fields, points_fields, publish_fields, range_fields,
    CONTRACT_VERSION,
};
use crate::report::{note_wrong, wrong};
use crate::text::{concat2, concat3, same_text, text_of, texts};
use vstd::prelude::*;

verus! {

/// The beginning of what is wrong with a point of a manifest.
pub open spec fn at_point(id: Seq<char>, what: Seq<char>) -> Seq<char> {
    "points."@ + id + what
}

/// What is expected and what is there.
pub open spec fn expected_got(id: Seq<char>, what: Seq<char>, want: Seq<char>, got: Seq<char>) -> Seq<
    char,
> {
    at_point(id, what) + ": expected "@ + want + ", got "@ + got
}

fn expect_got(id: &str, what: &str, want: &str, got: &str) -> (r: String)
    ensures
        r@ == expected_got(id@, what@, want@, got@),
{
    let mut out: String = concat3("points.", id, what);
    out.append(": expected ");
    out.append(want);
    out.append(", got ");
    out.append(got);
    out
}

/// What is wrong with the access of a point.
pub open spec fn access_errors(p: CheckedView, entry: JsonView) -> Seq<Seq<char>> {
    let got = text_member(entry, "access"@);
    wrong(
        got != Some(p.access.label()),
        expected_got(p.id, ".access"@, quoted(p.access.label()), quoted_option(got)),
    )
}

/// What is wrong with the unit of a point.
pub open spec fn unit_errors(p: CheckedView, entry: JsonView) -> Seq<Seq<char>> {
    let got = text_member(entry, "unit"@);
    match p.unit {
        Some(u) => wrong(
            got != Some(u),
            expected_got(p.id, ".unit"@, quoted(u), quoted_option(got)),
        ),
        None => Seq::empty(),
    }
}

/// What is wrong with a value that a manifest carries as it is configured.
pub open spec fn carried_errors(
    id: Seq<char>,
    key: Seq<char>,
    what: Seq<char>,
    want: Option<JsonView>,
    entry: JsonView,
) -> Seq<Seq<char>> {
    let got = member(entry, key);
    match want {
        Some(w) => wrong(
            !alike_options(got, Some(w)),
            expected_got(id, what, printed(w), shown_option(got)),
        ),
        None => Seq::empty(),
    }
}

/// The number under a key of a range.
pub open spec fn bound(entry: JsonView, key: Seq<char>) -> Option<Numeral> {
    match member(entry, "range"@) {
        Some(r) => match member(r, key) {
            Some(JsonView::Number(n)) => Some(n),
            _ => None,
        },
        None => None,
    }
}

/// Whether two numbers that may be missing are equal as floats, or both are missing.
pub open spec fn same_bound(a: Option<Numeral>, b: Option<Numeral>) -> bool {
    match (a, b) {
        (Some(x), Some(y)) => equal_numbers(
            Numeral::Float(nearest_float(x)),
            Numeral::Float(nearest_float(y)),
        ),
        (None, None) => true,
        _ => false,
    }
}

/// What is wrong with the range of a point.
pub open spec fn range_errors(p: CheckedView, entry: JsonView) -> Seq<Seq<char>> {
    match p.range {
        Some(r) => wrong(
            !same_bound(bound(entry, "min"@), r.min) || !same_bound(bound(entry, "max"@), r.max),
            expected_got(
                p.id,
                ".range"@,
                shown_number(r.min) + ".."@ + shown_number(r.max),
                shown_option(member(entry, "range"@)),
            ),
        ),
        None => Seq::empty(),
    }
}

/// The value under a key of a publish policy.
pub open spec fn policy_member(entry: JsonView, key: Seq<char>) -> Option<JsonView> {
    match member(entry, "publish"@) {
        Some(p) => member(p, key),
        None => None,
    }
}

/// What is wrong with one setting of a publish policy.
pub open spec fn setting_errors(
    id: Seq<char>,
    key: Seq<char>,
    what: Seq<char>,
    want: Option<JsonView>,
    entry: JsonView,
) -> Seq<Seq<char>> {
    let got = policy_member(entry, key);
    match want {
        Some(w) => wrong(
            !alike_options(got, Some(w)),
            expected_got(id, what, printed(w), shown_option(got)),
        ),
        None => Seq::empty(),
    }
}

pub open spec fn bool_setting(b: Option<bool>) -> Option<JsonView> {
    match b {
        Some(x) => Some(JsonView::Bool(x)),
        None => None,
    }
}

pub open spec fn float_setting(n: Option<Numeral>) -> Option<JsonView> {
    match n {
        Some(x) => Some(JsonView::Number(Numeral::Float(nearest_float(x)))),
        None => None,
    }
}

pub open spec fn text_setting(s: Option<Seq<char>>) -> Option<JsonView> {
    match s {
        Some(x) => Some(JsonView::Text(x)),
        None => None,
    }
}

/// What is wrong with the publish policy of a point.
pub open spec fn publish_errors(p: CheckedView, entry: JsonView) -> Seq<Seq<char>> {
    match p.publish {
        Some(x) => setting_errors(
            p.id,
            "on_change"@,
            ".publish.on_change"@,
            bool_setting(x.on_change),
            entry,
        ) + setting_errors(
            p.id,
            "deadband"@,
            ".publish.deadband"@,
            float_setting(x.deadband),
            entry,
        ) + setting_errors(
            p.id,
            "min_interval"@,
            ".publish.min_interval"@,
            text_setting(x.min_interval),
            entry,
        ) + setting_errors(
            p.id,
            "debounce"@,
            ".publish.debounce"@,
            text_setting(x.debounce),
            entry,
        ),
        None => Seq::empty(),
    }
}

/// What is wrong with a point of a manifest.
pub open spec fn point_errors(p: CheckedView, entry: Option<JsonView>) -> Seq<Seq<char>> {
    match entry {
        None => seq![at_point(p.id, ": missing"@)],
        Some(e) => access_errors(p, e) + unit_errors(p, e) + carried_errors(
            p.id,
            "meta"@,
            ".meta"@,
            p.meta,
            e,
        ) + range_errors(p, e) + publish_errors(p, e) + carried_errors(
            p.id,
            "measurement"@,
            ".measurement"@,
            p.measurement,
            e,
        ),
    }
}

/// What is wrong with the points of a device in a manifest, each after the other.
pub open spec fn points_errors(points: Seq<CheckedView>, device: Seq<char>, listed: Fields) -> Seq<
    Seq<char>,
>
    decreases points.len(),
{
    if points.len() == 0 {
        Seq::empty()
    } else {
        let head = points_errors(points.drop_last(), device, listed);
        let p = points.last();
        if p.device == device {
            head + point_errors(p, field(listed, p.id))
        } else {
            head
        }
    }
}

/// What is wrong with a manifest, besides its schema.
pub open spec fn content_errors(
    json: JsonView,
    protocol: Seq<char>,
    points: Seq<CheckedView>,
    device: Seq<char>,
) -> Seq<Seq<char>> {
    wrong(
        text_member(json, "contract"@) != Some("0.2"@),
        "contract: expected "@ + quoted("0.2"@) + ", got "@ + shown_option(
            member(json, "contract"@),
        ),
    ) + wrong(
        text_member(json, "protocol"@) != Some(protocol),
        "protocol: got "@ + shown_option(member(json, "protocol"@)),
    ) + match member(json, "points"@) {
        Some(JsonView::Object(f)) => points_errors(points, device, f),
        _ => seq!["points: missing or not an object"@],
    }
}

/// What is wrong with a manifest.
pub open spec fn manifest_errors(
    json: JsonView,
    schema: Option<Seq<char>>,
    protocol: Seq<char>,
    points: Seq<CheckedView>,
    device: Seq<char>,
) -> Seq<Seq<char>> {
    let head = match schema {
        Some(e) => seq!["schema: "@ + e],
        None => Seq::empty(),
    };
    head + content_errors(json, protocol, points, device)
}

fn note_access(errors: &mut Vec<String>, p: &Point, entry: &Json)
    ensures
        texts(final(errors)@) == texts(old(errors)@) + access_errors(p@, entry@),
{
    let got: Option<&str> = entry.get_str("access");
    let bad: bool = match got {
        Some(s) => !same_text(s, p.access.as_str()),
        None => true,
    };
    let want: String = quote(p.access.as_str());
    let shown: String = quote_option(got);
    note_wrong(
        errors,
        bad,
        expect_got(p.id.as_str(), ".access", want.as_str(), shown.as_str()),
    );
}

fn note_unit(errors: &mut Vec<String>, p: &Point, entry: &Json)
    ensures
        texts(final(errors)@) == texts(old(errors)@) + unit_errors(p@, entry@),
{
    let ghost before = texts(errors@);
    if let Some(u) = &p.unit {
        let got: Option<&str> = entry.get_str("unit");
        let bad: bool = match got {
            Some(s) => !same_text(s, u.as_str()),
            None => true,
        };
        let want: String = quote(u.as_str());
        let shown: String = quote_option(got);
        note_wrong(
            errors,
            bad,
            expect_got(p.id.as_str(), ".unit", want.as_str(), shown.as_str()),
        );
    } else {
        assert(before + Seq::<Seq<char>>::empty() =~= before);
    }
}

fn differs(got: Option<&Json>, want: &Json) -> (r: bool)
    ensures
        r == !alike_options(view_of_ref(got), Some(want@)),
{
    match got {
        Some(g) => !same_json(g, want),
        None => true,
    }
}

fn note_carried(
    errors: &mut Vec<String>,
    id: &str,
    key: &str,
    what: &str,
    want: &Option<Json>,
    entry: &Json,
)
    ensures
        texts(final(errors)@) == texts(old(errors)@) + carried_errors(
            id@,
            key@,
            what@,
            view_of(*want),
            entry@,
        ),
{
    let ghost before = texts(errors@);
    if let Some(w) = want {
        let got: Option<&Json> = entry.get(key);
        let text: String = w.print();
        let shown: String = show_option(got);
        note_wrong(errors, differs(got, w), expect_got(id, what, text.as_str(), shown.as_str()));
    } else {
        assert(before + Seq::<Seq<char>>::empty() =~= before);
    }
}

fn bound_at(entry: &Json, key: &str) -> (r: Option<JsonNumber>)
    ensures
        numeral_option(r) == bound(entry@, key@),
{
    match entry.get("range") {
        Some(r) => match r.get(key) {
            Some(v) => {
                proof {
                    v.lemma_view();
                }
                match v {
                    Json::Number(n) => Some(n.clone()),
                    _ => None,
                }
            },
            None => None,
        },
        None => None,
    }
}

fn bounds_agree(a: &Option<JsonNumber>, b: &Option<JsonNumber>) -> (r: bool)
    ensures
        r == same_bound(numeral_option(*a), numeral_option(*b)),
{
    match (a, b) {
        (Some(x), Some(y)) => x.as_float().equals(&y.as_float()),
        (None, None) => true,
        _ => false,
    }
}

fn note_range(errors: &mut Vec<String>, p: &Point, entry: &Json)
    ensures
        texts(final(errors)@) == texts(old(errors)@) + range_errors(p@, entry@),
{
    let ghost before = texts(errors@);
    if let Some(r) = &p.range {
        let min: Option<JsonNumber> = bound_at(entry, "min");
        let max: Option<JsonNumber> = bound_at(entry, "max");
        let bad: bool = !bounds_agree(&min, &r.min) || !bounds_agree(&max, &r.max);
        let low: String = show_number(&r.min);
        let high: String = show_number(&r.max);
        let want: String = concat3(low.as_str(), "..", high.as_str());
        let shown: String = show_option(entry.get("range"));
        note_wrong(
            errors,
            bad,
            expect_got(p.id.as_str(), ".range", want.as_str(), shown.as_str()),
        );
    } else {
        assert(before + Seq::<Seq<char>>::empty() =~= before);
    }
}

fn note_setting(
    errors: &mut Vec<String>,
    id: &str,
    key: &str,
    what: &str,
    want: Option<Json>,
    entry: &Json,
)
    ensures
        texts(final(errors)@) == texts(old(errors)@) + setting_errors(
            id@,
            key@,
            what@,
            view_of(want),
            entry@,
        ),
{
    let ghost before = texts(errors@);
    if let Some(w) = want {
        let got: Option<&Json> = match entry.get("publish") {
            Some(p) => p.get(key),
            None => None,
        };
        let text: String = w.print();
        let shown: String = show_option(got);
        note_wrong(errors, differs(got, &w), expect_got(id, what, text.as_str(), shown.as_str()));
    } else {
        assert(before + Seq::<Seq<char>>::empty() =~= before);
    }
}

fn text_json(s: &Option<String>) -> (r: Option<Json>)
    ensures
        view_of(r) == text_setting(text_of(*s)),
{
    match s {
        Some(t) => Some(Json::text(t.as_str())),
        None => None,
    }
}

fn note_publish(errors: &mut Vec<String>, p: &Point, entry: &Json)
    ensures
        texts(final(errors)@) == texts(old(errors)@) + publish_errors(p@, entry@),
{
    let ghost before = texts(errors@);
    if let Some(x) = &p.publish {
        let id: &str = p.id.as_str();
        let on_change: Option<Json> = match x.on_change {
            Some(b) => Some(Json::of_bool(b)),
            None => None,
        };
        let deadband: Option<Json> = match &x.deadband {
            Some(n) => Some(Json::of_number(n.as_float())),
            None => None,
        };
        note_setting(errors, id, "on_change", ".publish.on_change", on_change, entry);
        let ghost a = texts(errors@);
        note_setting(errors, id, "deadband", ".publish.deadband", deadband, entry);
        let ghost b = texts(errors@);
        note_setting(
            errors,
            id,
            "min_interval",
            ".publish.min_interval",
            text_json(&x.min_interval),
            entry,
        );
        note_setting(
            errors,
            id,
            "debounce",
            ".publish.debounce",
            text_json(&x.debounce),
            entry,
        );
        assert(texts(errors@) =~= before + publish_errors(p@, entry@));
    } else {
        assert(before + Seq::<Seq<char>>::empty() =~= before);
    }
}

pub(crate) proof fn six_in_turn(
    s: Seq<Seq<char>>,
    a: Seq<Seq<char>>,
    b: Seq<Seq<char>>,
    c: Seq<Seq<char>>,
    d: Seq<Seq<char>>,
    e: Seq<Seq<char>>,
    f: Seq<Seq<char>>,
)
    ensures
        s + a + b + c + d + e + f == s + (a + b + c + d + e + f),
{
    assert(s + a + b + c + d + e + f =~= s + (a + b + c + d + e + f));
}

fn note_point(errors: &mut Vec<String>, p: &Point, entry: Option<&Json>)
    ensures
        texts(final(errors)@) == texts(old(errors)@) + point_errors(p@, view_of_ref(entry)),
{
    let ghost before = texts(errors@);
    match entry {
        None => {
            note_wrong(errors, true, concat3("points.", p.id.as_str(), ": missing"));
        },
        Some(e) => {
            note_access(errors, p, e);
            note_unit(errors, p, e);
            note_carried(errors, p.id.as_str(), "meta", ".meta", &p.meta, e);
            note_range(errors, p, e);
            note_publish(errors, p, e);
            note_carried(
                errors,
                p.id.as_str(),
                "measurement",
                ".measurement",
                &p.measurement,
                e,
            );
            proof {
                six_in_turn(
                    before,
                    access_errors(p@, e@),
                    unit_errors(p@, e@),
                    carried_errors(p.id@, "meta"@, ".meta"@, view_of(p.meta), e@),
                    range_errors(p@, e@),
                    publish_errors(p@, e@),
                    carried_errors(
                        p.id@,
                        "measurement"@,
                        ".measurement"@,
                        view_of(p.measurement),
                        e@,
                    ),
                );
            }
        },
    }
}

fn note_points(errors: &mut Vec<String>, points: &Vec<Point>, device: &str, listed: &JsonObject)
    ensures
        texts(final(errors)@) == texts(old(errors)@) + points_errors(
            checked_views(points@),
            device@,
            listed@,
        ),
{
    let ghost before = texts(errors@);
    let ghost all = checked_views(points@);
    let mut i: usize = 0;
    assert(all.take(0) =~= Seq::<CheckedView>::empty());
    assert(before + Seq::<Seq<char>>::empty() =~= before);
    while i < points.len()
        invariant
            i <= points@.len(),
            all == checked_views(points@),
            texts(errors@) == before + points_errors(all.take(i as int), device@, listed@),
        decreases points@.len() - i,
    {
        assert(all.take(i + 1).drop_last() =~= all.take(i as int));
        assert(all.take(i + 1).last() == points@[i as int]@);
        let ghost was = texts(errors@);
        if same_text(points[i].device.as_str(), device) {
            note_point(errors, &points[i], listed.get(points[i].id.as_str()));
            assert(texts(errors@) =~= before + points_errors(all.take(i + 1), device@, listed@));
        }
        i = i + 1;
    }
    assert(all.take(all.len() as int) =~= all);
}

/// What is wrong with a manifest. `schema` is what its schema finds wrong with it.
pub fn check_manifest(
    json: &Json,
    schema: Option<String>,
    protocol: &str,
    points: &Vec<Point>,
    device: &str,
) -> (r: Vec<String>)
    ensures
        texts(r@) == manifest_errors(
            json@,
            text_of(schema),
            protocol@,
            checked_views(points@),
            device@,
        ),
{
    let mut errors: Vec<String> = Vec::new();
    assert(texts(errors@) =~= Seq::<Seq<char>>::empty());
    if let Some(e) = schema {
        errors.push(concat2("schema: ", e.as_str()));
        assert(texts(errors@) =~= seq!["schema: "@ + e@]);
    }
    let ghost head = texts(errors@);
    let contract_bad: bool = match json.get_str("contract") {
        Some(c) => !same_text(c, CONTRACT_VERSION),
        None => true,
    };
    let version: String = quote(CONTRACT_VERSION);
    let shown: String = show_option(json.get("contract"));
    let mut text: String = concat3("contract: expected ", version.as_str(), ", got ");
    text.append(shown.as_str());
    note_wrong(&mut errors, contract_bad, text);
    let protocol_bad: bool = match json.get_str("protocol") {
        Some(p) => !same_text(p, protocol),
        None => true,
    };
    let shown: String = show_option(json.get("protocol"));
    note_wrong(&mut errors, protocol_bad, concat2("protocol: got ", shown.as_str()));
    let listed: Option<&JsonObject> = match json.get("points") {
        Some(p) => p.as_object(),
        None => None,
    };
    match listed {
        None => {
            note_wrong(&mut errors, true, "points: missing or not an object".to_owned());
        },
        Some(f) => {
            note_points(&mut errors, points, device, f);
        },
    }
    assert(texts(errors@) =~= manifest_errors(
        json@,
        text_of(schema),
        protocol@,
        checked_views(points@),
        device@,
    ));
    errors
}

/// A point whose manifest entry is missing, or lacks the access, is found out.
pub proof fn missing_points_are_found(
    json: JsonView,
    schema: Option<Seq<char>>,
    protocol: Seq<char>,
    points: Seq<CheckedView>,
    device: Seq<char>,
    i: int,
)
    requires
        0 <= i < points.len(),
        points[i].device == device,
        member(json, "points"@) matches Some(JsonView::Object(f)) ==> match field(f, points[i].id) {
            Some(e) => text_member(e, "access"@) != Some(points[i].access.label()),
            None => true,
        },
    ensures
        manifest_errors(json, schema, protocol, points, device).len() > 0,
{
    match member(json, "points"@) {
        Some(JsonView::Object(f)) => wrong_point_counts(points, device, f, i),
        _ => {},
    }
}

proof fn wrong_point_counts(points: Seq<CheckedView>, device: Seq<char>, listed: Fields, i: int)
    requires
        0 <= i < points.len(),
        points[i].device == device,
        match field(listed, points[i].id) {
            Some(e) => text_member(e, "access"@) != Some(points[i].access.label()),
            None => true,
        },
    ensures
        points_errors(points, device, listed).len() > 0,
    decreases points.len(),
{
    if i < points.len() - 1 {
        assert(points.drop_last()[i] == points[i]);
        wrong_point_counts(points.drop_last(), device, listed, i);
    } else {
        let p = points.last();
        match field(listed, p.id) {
            Some(e) => {
                assert(access_errors(p, e).len() == 1);
            },
            None => {},
        }
    }
}

proof fn published_point_is_listed(points: Seq<PointConfig>, naming: Naming, i: int)
    requires
        0 <= i < points.len(),
        forall|j: int, k: int|
            0 <= j < k < points.len() ==> (#[trigger] points[j]).id@ != (#[trigger] points[k]).id@,
    ensures
        exists|place: u64|
            field(points_fields(points, naming), points[i].id@) == Some(
                JsonView::Object(#[trigger] point_fields(points[i], naming, place)),
            ),
    decreases points.len(),
{
    broadcast use crate::keyed::field_once_set;

    let rest = points.drop_last();
    let last = points.last();
    let place = (parameter_count(rest) + 1) as u64;
    if i < points.len() - 1 {
        assert(rest[i] == points[i]);
        assert(points[i].id@ != points[points.len() - 1].id@);
        assert forall|j: int, k: int| 0 <= j < k < rest.len() implies (#[trigger] rest[j]).id@ != (
        #[trigger] rest[k]).id@ by {
            assert(rest[j] == points[j] && rest[k] == points[k]);
        }
        published_point_is_listed(rest, naming, i);
        let at = choose|place: u64|
            field(points_fields(rest, naming), rest[i].id@) == Some(
                JsonView::Object(#[trigger] point_fields(rest[i], naming, place)),
            );
        assert(field(points_fields(points, naming), points[i].id@) == Some(
            JsonView::Object(point_fields(points[i], naming, at)),
        ));
    } else {
        assert(field(points_fields(points, naming), points[i].id@) == Some(
            JsonView::Object(point_fields(points[i], naming, place)),
        ));
    }
}

proof fn published_point_keeps_its_fields(point: PointConfig, naming: Naming, place: u64)
    ensures
        ({
            let e = point_fields(point, naming, place);
            &&& field(e, "access"@) == Some(
                JsonView::Text(access_of(text_of(point.access)).label()),
            )
            &&& field(e, "unit"@) == text_view(text_of(point.unit))
            &&& field(e, "meta"@) == view_of(point.meta)
            &&& field(e, "measurement"@) == view_of(point.measurement)
            &&& point.range is Some ==> field(e, "range"@) == Some(
                JsonView::Object(range_fields(point.range->0)),
            )
            &&& point.publish is Some ==> field(e, "publish"@) == Some(
                JsonView::Object(publish_fields(point.publish->0)),
            )
        }),
{
    broadcast use crate::keyed::field_once_set;

    reveal_strlit("datatype");
    reveal_strlit("access");
    reveal_strlit("unit");
    reveal_strlit("name");
    reveal_strlit("description");
    reveal_strlit("range");
    reveal_strlit("publish");
    reveal_strlit("measurement");
    reveal_strlit("meta");
    reveal_strlit("parameter");
    assert("unit"@[0] == 'u' && "name"@[0] == 'n' && "meta"@[0] == 'm');
    assert("description"@[0] == 'd' && "measurement"@[0] == 'm');
}

proof fn published_policy_keeps_its_settings(policy: PublishPolicy)
    ensures
        ({
            let f = publish_fields(policy);
            &&& field(f, "on_change"@) == bool_setting(policy.on_change)
            &&& field(f, "deadband"@) == float_setting(numeral_option(policy.deadband))
            &&& field(f, "min_interval"@) == text_setting(text_of(policy.min_interval))
            &&& field(f, "debounce"@) == text_setting(text_of(policy.debounce))
        }),
{
    broadcast use crate::keyed::field_once_set;

    reveal_strlit("on_change");
    reveal_strlit("deadband");
    reveal_strlit("min_interval");
    reveal_strlit("debounce");
    assert("deadband"@[2] == 'a' && "debounce"@[2] == 'b');
    assert("on_change"@.len() == 9 && "deadband"@.len() == 8 && "min_interval"@.len() == 12
        && "debounce"@.len() == 8);
}

proof fn published_point_passes(
    device: DeviceConfig,
    point: PointConfig,
    naming: Naming,
    place: u64,
)
    ensures
        point_errors(
            checked_point(device, point),
            Some(JsonView::Object(point_fields(point, naming, place))),
        ) == Seq::<Seq<char>>::empty(),
{
    broadcast use crate::keyed::field_once_set;

    let p = checked_point(device, point);
    let e = JsonView::Object(point_fields(point, naming, place));
    published_point_keeps_its_fields(point, naming, place);
    if let Some(v) = p.meta {
        values_equal_themselves(v);
    }
    if let Some(v) = p.measurement {
        values_equal_themselves(v);
    }
    assert(access_errors(p, e) =~= Seq::empty());
    assert(unit_errors(p, e) =~= Seq::empty());
    if point.range is Some {
        reveal_strlit("min");
        reveal_strlit("max");
        assert("min"@[1] == 'i' && "max"@[1] == 'a');
        assert(range_errors(p, e) =~= Seq::empty());
    }
    if point.publish is Some {
        let policy = point.publish->0;
        published_policy_keeps_its_settings(policy);
        if let Some(n) = policy.deadband {
            values_equal_themselves(JsonView::Number(Numeral::Float(nearest_float(n@))));
        }
        assert(publish_errors(p, e) =~= Seq::empty());
    }
}

proof fn points_without_errors(points: Seq<CheckedView>, device: Seq<char>, listed: Fields)
    requires
        forall|i: int|
            0 <= i < points.len() && (#[trigger] points[i]).device == device ==> point_errors(
                points[i],
                field(listed, points[i].id),
            ) == Seq::<Seq<char>>::empty(),
    ensures
        points_errors(points, device, listed) == Seq::<Seq<char>>::empty(),
    decreases points.len(),
{
    if points.len() > 0 {
        let rest = points.drop_last();
        assert forall|i: int|
            0 <= i < rest.len() && (#[trigger] rest[i]).device == device implies point_errors(
            rest[i],
            field(listed, rest[i].id),
        ) == Seq::<Seq<char>>::empty() by {
            assert(rest[i] == points[i]);
        }
        points_without_errors(rest, device, listed);
        assert(points[points.len() - 1] == points.last());
        assert(points_errors(points, device, listed) =~= Seq::<Seq<char>>::empty());
    }
}

proof fn checked_points_are_configured(devices: Seq<DeviceConfig>, n: int, i: int)
    requires
        0 <= n <= devices.len(),
        0 <= i < checked_points(devices, n).len(),
    ensures
        exists|d: int, j: int|
            0 <= d < n && 0 <= j < devices[d].points@.len() && checked_points(devices, n)[i]
                == checked_point(devices[d], #[trigger] devices[d].points@[j]),
    decreases n,
{
    let before = checked_points(devices, n - 1);
    if i < before.len() {
        checked_points_are_configured(devices, n - 1, i);
        let (d, j) = choose|d: int, j: int|
            0 <= d < n - 1 && 0 <= j < devices[d].points@.len() && before[i] == checked_point(
                devices[d],
                #[trigger] devices[d].points@[j],
            );
        assert(checked_points(devices, n)[i] == checked_point(devices[d], devices[d].points@[j]));
    } else {
        let j = i - before.len();
        assert(checked_points(devices, n)[i] == checked_point(
            devices[n - 1],
            devices[n - 1].points@[j],
        ));
    }
}

/// The manifest that a connector publishes of a device is found to be right, as long as no two
/// devices share a name and no two points of the device an id.
pub proof fn published_manifests_are_right(
    config: ConnectorConfig,
    i: int,
    info: Option<JsonView>,
    commands: Seq<Seq<char>>,
)
    requires
        0 <= i < config.devices@.len(),
        forall|j: int, k: int|
            0 <= j < k < config.devices@.len() ==> (#[trigger] config.devices@[j]).name@ != (
            #[trigger] config.devices@[k]).name@,
        forall|j: int, k: int|
            0 <= j < k < config.devices@[i].points@.len() ==> (
            #[trigger] config.devices@[i].points@[j]).id@ != (
            #[trigger] config.devices@[i].points@[k]).id@,
    ensures
        manifest_errors(
            JsonView::Object(manifest_fields(config, config.devices@[i], info, commands)),
            None,
            config.connector.protocol@,
            checked_points(config.devices@, config.devices@.len() as int),
            config.devices@[i].name@,
        ) == Seq::<Seq<char>>::empty(),
{
    broadcast use crate::keyed::field_once_set;

    let device = config.devices@[i];
    let naming = Naming::of(device, config.connector.protocol@, config.connector.forced_set());
    let fields = manifest_fields(config, device, info, commands);
    let json = JsonView::Object(fields);
    let listed = points_fields(device.points@, naming);
    reveal_strlit("contract");
    reveal_strlit("protocol");
    reveal_strlit("service");
    reveal_strlit("type");
    reveal_strlit("info");
    reveal_strlit("commands");
    reveal_strlit("points");
    assert("contract"@[2] == 'n' && "protocol"@[2] == 'o' && "commands"@[2] == 'm');
    assert(field(fields, "contract"@) == Some(JsonView::Text("0.2"@)));
    assert(field(fields, "protocol"@) == Some(JsonView::Text(config.connector.protocol@)));
    assert(field(fields, "points"@) == Some(JsonView::Object(listed)));
    let n = config.devices@.len() as int;
    let points = checked_points(config.devices@, n);
    assert forall|x: int|
        0 <= x < points.len() && (#[trigger] points[x]).device == device.name@ implies point_errors(
        points[x],
        field(listed, points[x].id),
    ) == Seq::<Seq<char>>::empty() by {
        checked_points_are_configured(config.devices@, n, x);
        let (d, j) = choose|d: int, j: int|
            0 <= d < n && 0 <= j < config.devices@[d].points@.len() && points[x] == checked_point(
                config.devices@[d],
                #[trigger] config.devices@[d].points@[j],
            );
        assert(d == i) by {
            if d < i {
                assert(config.devices@[d].name@ != config.devices@[i].name@);
            } else if i < d {
                assert(config.devices@[i].name@ != config.devices@[d].name@);
            }
        }
        published_point_is_listed(device.points@, naming, j);
        let place = choose|place: u64|
            field(listed, device.points@[j].id@) == Some(
                JsonView::Object(#[trigger] point_fields(device.points@[j], naming, place)),
            );
        published_point_passes(device, device.points@[j], naming, place);
    }
    points_without_errors(points, device.name@, listed);
    assert(manifest_errors(json, None, config.connector.protocol@, points, device.name@) =~= Seq::<
        Seq<char>,
    >::empty());
}

/// Whether a manifest's entry for a point says what is configured for it, as far as anything is.
pub open spec fn entry_right(p: CheckedView, e: JsonView) -> bool {
    &&& text_member(e, "access"@) == Some(p.access.label())
    &&& p.unit matches Some(u) ==> text_member(e, "unit"@) == Some(u)
    &&& p.meta matches Some(m) ==> alike_options(member(e, "meta"@), Some(m))
    &&& p.measurement matches Some(m) ==> alike_options(member(e, "measurement"@), Some(m))
    &&& p.range matches Some(r) ==> same_bound(bound(e, "min"@), r.min) && same_bound(
        bound(e, "max"@),
        r.max,
    )
    &&& p.publish matches Some(x) ==> {
        &&& x.on_change matches Some(b) ==> alike_options(
            policy_member(e, "on_change"@),
            Some(JsonView::Bool(b)),
        )
        &&& x.deadband matches Some(n) ==> alike_options(
            policy_member(e, "deadband"@),
            Some(JsonView::Number(Numeral::Float(nearest_float(n)))),
        )
        &&& x.min_interval matches Some(t) ==> alike_options(
            policy_member(e, "min_interval"@),
            Some(JsonView::Text(t)),
        )
        &&& x.debounce matches Some(t) ==> alike_options(
            policy_member(e, "debounce"@),
            Some(JsonView::Text(t)),
        )
    }
}

/// Whether the entries say what is configured for a point of the device.
pub open spec fn told_right(p: CheckedView, device: Seq<char>, listed: Fields) -> bool {
    p.device == device ==> (field(listed, p.id) matches Some(e) && entry_right(p, e))
}

proof fn entries_are_right_or_wrong(p: CheckedView, entry: Option<JsonView>)
    ensures
        point_errors(p, entry).len() == 0 <==> (entry matches Some(e) && entry_right(p, e)),
{
    if let Some(e) = entry {
        let all = point_errors(p, entry);
        assert(all.len() == access_errors(p, e).len() + unit_errors(p, e).len() + carried_errors(
            p.id,
            "meta"@,
            ".meta"@,
            p.meta,
            e,
        ).len() + range_errors(p, e).len() + publish_errors(p, e).len() + carried_errors(
            p.id,
            "measurement"@,
            ".measurement"@,
            p.measurement,
            e,
        ).len());
    }
}

proof fn points_are_right_or_wrong(points: Seq<CheckedView>, device: Seq<char>, listed: Fields)
    ensures
        points_errors(points, device, listed).len() == 0 <==> forall|i: int|
            0 <= i < points.len() ==> told_right(#[trigger] points[i], device, listed),
    decreases points.len(),
{
    if points.len() > 0 {
        let before = points.drop_last();
        let p = points.last();
        points_are_right_or_wrong(before, device, listed);
        entries_are_right_or_wrong(p, field(listed, p.id));
        assert(points[points.len() - 1] == p);
        if points_errors(points, device, listed).len() == 0 {
            assert forall|i: int| 0 <= i < points.len() implies told_right(
                #[trigger] points[i],
                device,
                listed,
            ) by {
                if i < before.len() {
                    assert(before[i] == points[i]);
                }
            }
        }
        if forall|i: int|
            0 <= i < points.len() ==> told_right(#[trigger] points[i], device, listed) {
            assert forall|i: int| 0 <= i < before.len() implies told_right(
                #[trigger] before[i],
                device,
                listed,
            ) by {
                assert(points[i] == before[i]);
            }
        }
    }
}

/// A manifest is found right where, and only where, it keeps to its schema, is of the contract
/// and the protocol, and says of each point of the device what is configured.
pub proof fn manifests_are_taken_where_they_are_right(
    json: JsonView,
    schema: Option<Seq<char>>,
    protocol: Seq<char>,
    points: Seq<CheckedView>,
    device: Seq<char>,
)
    ensures
        manifest_errors(json, schema, protocol, points, device).len() == 0 <==> {
            &&& schema is None
            &&& text_member(json, "contract"@) == Some("0.2"@)
            &&& text_member(json, "protocol"@) == Some(protocol)
            &&& member(json, "points"@) matches Some(JsonView::Object(f)) && forall|i: int|
                0 <= i < points.len() ==> told_right(#[trigger] points[i], device, f)
        },
{
    match member(json, "points"@) {
        Some(JsonView::Object(f)) => points_are_right_or_wrong(points, device, f),
        _ => {},
    }
}

/// Two bounds are the same where both are missing, or both are there and alike as floats.
pub proof fn bounds_are_the_same_where_both_are_there(a: Option<Numeral>, b: Option<Numeral>)
    ensures
        same_bound(a, b) ==> (a is Some <==> b is Some),
        a == b ==> same_bound(a, b),
{
}

} // verus!
