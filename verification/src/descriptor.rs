//! Parameters: the points that an operator may edit, the sets that they stand in, and how the
//! sets are declared to Cumulocity's Digital Twin Manager.
//!
//! A set is named after the type of the device, since that is what decides which points there
//! are; after the protocol where a device has no type.
use crate::config::{
    ConnectorConfig, DeviceConfig, PointConfig, Range,
};
use crate::connector::{access_of, Access};
use crate::json::{
    view_of, view_of_ref, views, Fields, Json, JsonNumber, JsonObject, JsonView, Numeral,
};
use crate::keyed::{field, with_field};
use crate::model::DataType;
use crate::text::{
    as_deref, chars_of, concat3, copy_text, join, joined, push_distinct, same_text, str_of, text_of,
    texts, with_distinct, with_distinct_keeps_distinct,
};
use vstd::prelude::*;

verus! {

/// The group of a parameter that names none.
pub const DEFAULT_GROUP: &'static str = "control";

/// A letter or a digit of ASCII.
pub open spec fn alphanumeric(c: char) -> bool {
    'a' <= c <= 'z' || 'A' <= c <= 'Z' || '0' <= c <= '9'
}

fn is_alphanumeric(c: char) -> (r: bool)
    ensures
        r == alphanumeric(c),
{
    ('a' <= c && c <= 'z') || ('A' <= c && c <= 'Z') || ('0' <= c && c <= '9')
}

/// `s` with each run of other characters folded into one `_`; `open` is whether a run is being
/// folded already.
pub open spec fn folded(s: Seq<char>, open: bool) -> Seq<char>
    decreases s.len(),
{
    if s.len() == 0 {
        Seq::empty()
    } else if alphanumeric(s[0]) {
        seq![s[0]] + folded(s.drop_first(), false)
    } else if open {
        folded(s.drop_first(), true)
    } else {
        seq!['_'] + folded(s.drop_first(), true)
    }
}

/// A text as it may stand in a key: each run of characters other than letters and digits of
/// ASCII becomes one `_`.
pub fn sanitize(s: &str) -> (r: String)
    ensures
        r@ == folded(s@, false),
{
    let c: Vec<char> = chars_of(s);
    let mut out: String = String::new();
    let mut run: bool = false;
    let mut i: usize = 0;
    assert(s@.skip(0) =~= s@);
    assert(out@ + folded(s@.skip(0), false) =~= folded(s@, false));
    while i < c.len()
        invariant
            i <= c@.len(),
            c@ == s@,
            out@ + folded(s@.skip(i as int), run) == folded(s@, false),
        decreases c@.len() - i,
    {
        let ghost rest = s@.skip(i as int);
        let ghost before = out@;
        assert(rest.drop_first() =~= s@.skip(i + 1));
        assert(rest[0] == c@[i as int]);
        if is_alphanumeric(c[i]) {
            out.push(c[i]);
            run = false;
            assert(out@ + folded(s@.skip(i + 1), false) =~= before + (seq![rest[0]] + folded(
                s@.skip(i + 1),
                false,
            )));
        } else if !run {
            out.push('_');
            run = true;
            assert(out@ + folded(s@.skip(i + 1), true) =~= before + (seq!['_'] + folded(
                s@.skip(i + 1),
                true,
            )));
        }
        i = i + 1;
    }
    assert(out@ + folded(s@.skip(c@.len() as int), run) =~= out@);
    out
}

/// A key that Cumulocity accepts: letters, digits and `_`, one at least.
pub open spec fn valid_key(s: Seq<char>) -> bool {
    s.len() > 0 && forall|i: int| 0 <= i < s.len() ==> alphanumeric(#[trigger] s[i]) || s[i] == '_'
}

/// Whether a text can be used as a key as it is.
pub fn is_valid_key(id: &str) -> (r: bool)
    ensures
        r == valid_key(id@),
{
    let c: Vec<char> = chars_of(id);
    if c.len() == 0 {
        return false;
    }
    let mut i: usize = 0;
    while i < c.len()
        invariant
            i <= c@.len(),
            c@ == id@,
            forall|k: int| 0 <= k < i ==> alphanumeric(#[trigger] id@[k]) || id@[k] == '_',
        decreases c@.len() - i,
    {
        if !is_alphanumeric(c[i]) && c[i] != '_' {
            assert(!(alphanumeric(id@[i as int]) || id@[i as int] == '_'));
            return false;
        }
        i = i + 1;
    }
    true
}

/// The name of a parameter set.
pub open spec fn set_of(qualifier: Seq<char>, group: Seq<char>) -> Seq<char> {
    folded(qualifier + "_"@ + group + "_parameters"@, false)
}

/// The name of a parameter set, folded as a whole.
pub fn set_name(qualifier: &str, group: &str) -> (r: String)
    ensures
        r@ == set_of(qualifier@, group@),
{
    let mut name: String = concat3(qualifier, "_", group);
    name.append("_parameters");
    sanitize(name.as_str())
}

proof fn folded_keys(s: Seq<char>, open: bool)
    ensures
        forall|i: int|
            0 <= i < folded(s, open).len() ==> alphanumeric(#[trigger] folded(s, open)[i])
                || folded(s, open)[i] == '_',
        s.len() > 0 && alphanumeric(s.last()) ==> folded(s, open).len() > 0,
    decreases s.len(),
{
    if s.len() > 0 {
        let t = s.drop_first();
        folded_keys(t, false);
        folded_keys(t, true);
        if s.len() > 1 {
            assert(t.last() == s.last());
        }
        let r = folded(s, open);
        assert forall|i: int| 0 <= i < r.len() implies alphanumeric(#[trigger] r[i]) || r[i]
            == '_' by {
            if alphanumeric(s[0]) {
                if i > 0 {
                    assert(r[i] == folded(t, false)[i - 1]);
                }
            } else if !open {
                if i > 0 {
                    assert(r[i] == folded(t, true)[i - 1]);
                }
            } else {
                assert(r[i] == folded(t, true)[i]);
            }
        }
    }
}

/// A name that the naming rule makes is a key that Cumulocity accepts, whatever it is made of.
pub proof fn set_names_are_valid_keys(qualifier: Seq<char>, group: Seq<char>)
    ensures
        valid_key(set_of(qualifier, group)),
{
    reveal_strlit("_parameters");
    let s = qualifier + "_"@ + group + "_parameters"@;
    assert(s.last() == 's');
    folded_keys(s, false);
}

/// Folding what is folded changes nothing.
pub proof fn folding_is_idempotent(s: Seq<char>, open: bool)
    ensures
        folded(folded(s, open), open) == folded(s, open),
        open && folded(s, open).len() > 0 ==> alphanumeric(folded(s, open)[0]),
    decreases s.len(),
{
    if s.len() > 0 {
        let t = s.drop_first();
        folding_is_idempotent(t, false);
        folding_is_idempotent(t, true);
        if alphanumeric(s[0]) {
            let r = folded(s, open);
            assert(r.drop_first() =~= folded(t, false));
        } else if !open {
            let r = folded(s, open);
            assert(r.drop_first() =~= folded(t, true));
        }
    }
}

/// How the sets of one device are named.
#[derive(Debug, PartialEq)]
pub struct SetNaming {
    forced: Option<String>,
    qualifier: String,
}

/// How the sets of one device are named.
pub struct Naming {
    pub forced: Option<Seq<char>>,
    pub qualifier: Seq<char>,
}

impl View for SetNaming {
    type V = Naming;

    closed spec fn view(&self) -> Naming {
        Naming { forced: text_of(self.forced), qualifier: self.qualifier@ }
    }
}

/// The names that a `set` or a `group` option holds, each once: one text, or those in an array.
/// What is empty or no text is no name.
pub open spec fn names(v: Option<JsonView>) -> Seq<Seq<char>> {
    match v {
        Some(JsonView::Text(s)) => item_names(seq![JsonView::Text(s)]),
        Some(JsonView::Array(items)) => item_names(items),
        _ => Seq::empty(),
    }
}

/// The texts among values that are not empty, each once.
pub open spec fn item_names(items: Seq<JsonView>) -> Seq<Seq<char>>
    decreases items.len(),
{
    if items.len() == 0 {
        Seq::empty()
    } else {
        let head = item_names(items.drop_last());
        match items.last() {
            JsonView::Text(s) => if s.len() > 0 {
                with_distinct(head, s)
            } else {
                head
            },
            _ => head,
        }
    }
}

/// The sets of groups, each once.
pub open spec fn group_sets(qualifier: Seq<char>, groups: Seq<Seq<char>>) -> Seq<Seq<char>>
    decreases groups.len(),
{
    if groups.len() == 0 {
        Seq::empty()
    } else {
        with_distinct(
            group_sets(qualifier, groups.drop_last()),
            set_of(qualifier, groups.last()),
        )
    }
}

impl Naming {
    /// The naming for a device.
    pub open spec fn of(device: DeviceConfig, protocol: Seq<char>, forced: Option<Seq<char>>) -> Naming {
        Naming {
            forced,
            qualifier: match device.kind() {
                Some(t) => t,
                None => protocol,
            },
        }
    }

    /// The set of a group.
    pub open spec fn set(self, group: Option<Seq<char>>) -> Seq<char> {
        match (self.forced, group) {
            (Some(s), _) => s,
            (None, Some(g)) => set_of(self.qualifier, g),
            (None, None) => set_of(self.qualifier, "control"@),
        }
    }

    /// The sets of a point with these options: the `set` that it names, or the one that all share,
    /// or one for each `group`.
    pub open spec fn sets(self, options: Fields) -> Seq<Seq<char>> {
        let absolute = names(field(options, "set"@));
        let groups = names(field(options, "group"@));
        if absolute.len() > 0 {
            absolute
        } else if self.forced is Some || groups.len() == 0 {
            seq![self.set(None)]
        } else {
            group_sets(self.qualifier, groups)
        }
    }
}

fn push_name(out: &mut Vec<String>, item: &Json)
    ensures
        texts(final(out)@) == match item@ {
            JsonView::Text(s) => if s.len() > 0 {
                with_distinct(texts(old(out)@), s)
            } else {
                texts(old(out)@)
            },
            _ => texts(old(out)@),
        },
{
    if let Some(s) = item.as_str() {
        if !s.is_empty() {
            push_distinct(out, s);
        }
    }
}

/// The names that a `set` or a `group` option holds.
pub fn names_of(value: Option<&Json>) -> (r: Vec<String>)
    ensures
        texts(r@) == names(view_of_ref(value)),
{
    let mut out: Vec<String> = Vec::new();
    assert(texts(out@) =~= Seq::<Seq<char>>::empty());
    if let Some(v) = value {
        proof {
            v.lemma_view();
        }
        match v {
            Json::Text(_) => {
                proof {
                    assert(seq![v@].drop_last() =~= Seq::<JsonView>::empty());
                    assert(item_names(seq![v@].drop_last()) =~= Seq::<Seq<char>>::empty());
                }
                push_name(&mut out, v);
            },
            Json::Array(items) => {
                let ghost all = views(items@);
                let mut i: usize = 0;
                assert(all.take(0) =~= Seq::<JsonView>::empty());
                while i < items.len()
                    invariant
                        i <= items@.len(),
                        all == views(items@),
                        texts(out@) == item_names(all.take(i as int)),
                    decreases items@.len() - i,
                {
                    assert(all.take(i + 1).drop_last() =~= all.take(i as int));
                    assert(all.take(i + 1).last() == items@[i as int]@);
                    push_name(&mut out, &items[i]);
                    i = i + 1;
                }
                assert(all.take(all.len() as int) =~= all);
            },
            _ => {},
        }
    }
    out
}

impl SetNaming {
    /// The naming for a device: after its type, or else after the protocol.
    pub fn of(device: &DeviceConfig, protocol: &str, forced: Option<&str>) -> (r: SetNaming)
        ensures
            r@ == Naming::of(*device, protocol@, str_of(forced)),
    {
        let qualifier: String = match device.typed() {
            Some(t) => t.to_owned(),
            None => protocol.to_owned(),
        };
        let forced: Option<String> = match forced {
            Some(f) => Some(f.to_owned()),
            None => None,
        };
        SetNaming { forced, qualifier }
    }

    /// The set of a point in `group`.
    pub fn set_for(&self, group: Option<&str>) -> (r: String)
        ensures
            r@ == self@.set(str_of(group)),
    {
        match &self.forced {
            Some(set) => set.clone(),
            None => match group {
                Some(g) => set_name(self.qualifier.as_str(), g),
                None => set_name(self.qualifier.as_str(), DEFAULT_GROUP),
            },
        }
    }

    /// The sets of a point with these options.
    pub fn sets_of(&self, options: &JsonObject) -> (r: Vec<String>)
        ensures
            texts(r@) == self@.sets(options@),
    {
        let absolute: Vec<String> = names_of(options.get("set"));
        if absolute.len() > 0 {
            return absolute;
        }
        let mut out: Vec<String> = Vec::new();
        assert(texts(out@) =~= Seq::<Seq<char>>::empty());
        let groups: Vec<String> = names_of(options.get("group"));
        if self.forced.is_some() || groups.len() == 0 {
            out.push(self.set_for(None));
            assert(texts(out@) =~= seq![self@.set(None)]);
            return out;
        }
        let ghost all = texts(groups@);
        let mut i: usize = 0;
        assert(all.take(0) =~= Seq::<Seq<char>>::empty());
        while i < groups.len()
            invariant
                i <= groups@.len(),
                all == texts(groups@),
                texts(out@) == group_sets(self@.qualifier, all.take(i as int)),
            decreases groups@.len() - i,
        {
            assert(all.take(i + 1).drop_last() =~= all.take(i as int));
            assert(all.take(i + 1).last() == groups@[i as int]@);
            let set: String = set_name(self.qualifier.as_str(), groups[i].as_str());
            push_distinct(&mut out, set.as_str());
            i = i + 1;
        }
        assert(all.take(all.len() as int) =~= all);
        out
    }
}

proof fn names_are_distinct(items: Seq<JsonView>)
    ensures
        item_names(items).no_duplicates(),
    decreases items.len(),
{
    if items.len() > 0 {
        names_are_distinct(items.drop_last());
        match items.last() {
            JsonView::Text(s) => with_distinct_keeps_distinct(item_names(items.drop_last()), s),
            _ => {},
        }
    }
}

proof fn group_sets_are_distinct(qualifier: Seq<char>, groups: Seq<Seq<char>>)
    ensures
        group_sets(qualifier, groups).no_duplicates(),
        groups.len() > 0 ==> group_sets(qualifier, groups).len() > 0,
    decreases groups.len(),
{
    if groups.len() > 0 {
        let head = group_sets(qualifier, groups.drop_last());
        let set = set_of(qualifier, groups.last());
        group_sets_are_distinct(qualifier, groups.drop_last());
        with_distinct_keeps_distinct(head, set);
        assert(with_distinct(head, set).contains(set));
    }
}

/// A parameter stands in one set at least, and in none twice.
pub proof fn sets_are_some_and_distinct(naming: Naming, options: Fields)
    ensures
        naming.sets(options).len() > 0,
        naming.sets(options).no_duplicates(),
{
    match field(options, "set"@) {
        Some(JsonView::Text(s)) => names_are_distinct(seq![JsonView::Text(s)]),
        Some(JsonView::Array(items)) => names_are_distinct(items),
        _ => {},
    }
    group_sets_are_distinct(naming.qualifier, names(field(options, "group"@)));
}

/// One parameter: a point in a set.
#[derive(Debug, PartialEq)]
pub struct Parameter {
    pub point: String,
    pub set: String,
    pub datatype: Option<DataType>,
    pub access: Access,
    pub unit: Option<String>,
    pub name: Option<String>,
    pub description: Option<String>,
    pub range: Option<Range>,
    /// The options that the point declares for it.
    pub options: JsonObject,
}

/// What a parameter is.
#[verifier::ext_equal]
pub struct ParameterView {
    pub point: Seq<char>,
    pub set: Seq<char>,
    pub datatype: Option<DataType>,
    pub access: Access,
    pub unit: Option<Seq<char>>,
    pub name: Option<Seq<char>>,
    pub description: Option<Seq<char>>,
    /// Whether the point declares a range, with bounds or without.
    pub ranged: bool,
    pub min: Option<Numeral>,
    pub max: Option<Numeral>,
    pub options: Fields,
}

/// The number behind an option.
pub open spec fn numeral_of(n: Option<JsonNumber>) -> Option<Numeral> {
    match n {
        Some(x) => Some(x@),
        None => None,
    }
}

/// The least value of a range.
pub open spec fn range_min(r: Option<Range>) -> Option<Numeral> {
    match r {
        Some(x) => numeral_of(x.min),
        None => None,
    }
}

/// The greatest value of a range.
pub open spec fn range_max(r: Option<Range>) -> Option<Numeral> {
    match r {
        Some(x) => numeral_of(x.max),
        None => None,
    }
}

impl View for Parameter {
    type V = ParameterView;

    open spec fn view(&self) -> ParameterView {
        ParameterView {
            point: self.point@,
            set: self.set@,
            datatype: self.datatype,
            access: self.access,
            unit: text_of(self.unit),
            name: text_of(self.name),
            description: text_of(self.description),
            ranged: self.range is Some,
            min: range_min(self.range),
            max: range_max(self.range),
            options: self.options@,
        }
    }
}

/// What each parameter is.
pub open spec fn params(v: Seq<Parameter>) -> Seq<ParameterView> {
    v.map_values(|p: Parameter| p@)
}

/// The options that a `parameter` field gives, where it does not opt the point out.
pub open spec fn given_options(parameter: Option<JsonView>) -> Option<Fields> {
    match parameter {
        None => None,
        Some(JsonView::Text(set)) => Some(
            with_field(Fields::empty(), "set"@, JsonView::Text(set)),
        ),
        Some(JsonView::Object(f)) => Some(f),
        Some(_) => Some(Fields::empty()),
    }
}

/// A parameter: a point that may be written or that opts in, unless it opts out.
pub open spec fn is_parameter(point: PointConfig) -> bool {
    &&& view_of(point.parameter) != Some(JsonView::Bool(false))
    &&& access_of(text_of(point.access)).writable() || point.parameter is Some
}

/// The options of a parameter.
pub open spec fn options_of(point: PointConfig) -> Fields {
    match given_options(view_of(point.parameter)) {
        Some(f) => f,
        None => Fields::empty(),
    }
}

/// The parameter that a point is in a set.
pub open spec fn parameter_in(point: PointConfig, set: Seq<char>) -> ParameterView {
    ParameterView {
        point: point.id@,
        set,
        datatype: point.datatype,
        access: access_of(text_of(point.access)),
        unit: text_of(point.unit),
        name: text_of(point.name),
        description: text_of(point.description),
        ranged: point.range is Some,
        min: range_min(point.range),
        max: range_max(point.range),
        options: options_of(point),
    }
}

/// The parameters that a point is: one in each of its sets.
pub open spec fn point_parameters(point: PointConfig, naming: Naming) -> Seq<ParameterView> {
    if is_parameter(point) {
        naming.sets(options_of(point)).map_values(|set: Seq<char>| parameter_in(point, set))
    } else {
        Seq::empty()
    }
}

fn copy_number(n: &Option<JsonNumber>) -> (r: Option<JsonNumber>)
    ensures
        numeral_of(r) == numeral_of(*n),
{
    match n {
        Some(x) => Some(x.clone()),
        None => None,
    }
}

/// A copy of a range that may be missing.
pub fn copy_range(range: &Option<Range>) -> (r: Option<Range>)
    ensures
        range_min(r) == range_min(*range),
        range_max(r) == range_max(*range),
        r is Some <==> *range is Some,
{
    match range {
        Some(x) => Some(Range { min: copy_number(&x.min), max: copy_number(&x.max) }),
        None => None,
    }
}

/// The parameters that a point is: none where it is no parameter.
pub fn parameters_of(point: &PointConfig, naming: &SetNaming) -> (r: Vec<Parameter>)
    ensures
        params(r@) == point_parameters(*point, naming@),
{
    let access: Access = Access::parse(as_deref(&point.access));
    let mut out: Vec<Parameter> = Vec::new();
    assert(params(out@) =~= Seq::<ParameterView>::empty());
    let options: JsonObject = match &point.parameter {
        None => {
            if !access.can_write() {
                return out;
            }
            JsonObject::new()
        },
        Some(v) => {
            proof {
                v.lemma_view();
            }
            match v {
                Json::Bool(b) => {
                    if !*b {
                        return out;
                    }
                    JsonObject::new()
                },
                Json::Text(set) => {
                    let mut m = JsonObject::new();
                    m.insert("set", Json::text(set.as_str()));
                    m
                },
                Json::Object(m) => m.clone(),
                _ => JsonObject::new(),
            }
        },
    };
    let sets: Vec<String> = naming.sets_of(&options);
    let ghost all = texts(sets@);
    let mut i: usize = 0;
    while i < sets.len()
        invariant
            i <= sets@.len(),
            all == texts(sets@),
            options@ == options_of(*point),
            access == access_of(text_of(point.access)),
            out@.len() == i,
            forall|k: int|
                0 <= k < i ==> (#[trigger] out@[k])@ == parameter_in(*point, all[k]),
        decreases sets@.len() - i,
    {
        let p = Parameter {
            point: point.id.clone(),
            set: sets[i].clone(),
            datatype: point.datatype,
            access,
            unit: copy_text(&point.unit),
            name: copy_text(&point.name),
            description: copy_text(&point.description),
            range: copy_range(&point.range),
            options: options.clone(),
        };
        assert(p@ == parameter_in(*point, all[i as int]));
        out.push(p);
        i = i + 1;
    }
    assert(params(out@) =~= all.map_values(|set: Seq<char>| parameter_in(*point, set)));
    out
}

/// The parameters of points, in their order.
pub open spec fn points_parameters(points: Seq<PointConfig>, naming: Naming) -> Seq<ParameterView>
    decreases points.len(),
{
    if points.len() == 0 {
        Seq::empty()
    } else {
        points_parameters(points.drop_last(), naming) + point_parameters(points.last(), naming)
    }
}

/// The parameters of devices, in their order.
pub open spec fn devices_parameters(
    devices: Seq<DeviceConfig>,
    protocol: Seq<char>,
    forced: Option<Seq<char>>,
) -> Seq<ParameterView>
    decreases devices.len(),
{
    if devices.len() == 0 {
        Seq::empty()
    } else {
        devices_parameters(devices.drop_last(), protocol, forced) + points_parameters(
            devices.last().points@,
            Naming::of(devices.last(), protocol, forced),
        )
    }
}

/// The parameters of a configuration, in its order.
pub open spec fn config_parameters(config: ConnectorConfig, forced: Option<Seq<char>>) -> Seq<
    ParameterView,
> {
    devices_parameters(config.devices@, config.connector.protocol@, forced)
}

/// The parameters of a configuration. `forced` is the one set for the points that name none.
pub fn parameters(config: &ConnectorConfig, forced: Option<&str>) -> (r: Vec<Parameter>)
    ensures
        params(r@) == config_parameters(*config, str_of(forced)),
{
    let protocol: &str = config.connector.protocol.as_str();
    let mut out: Vec<Parameter> = Vec::new();
    let mut i: usize = 0;
    assert(config.devices@.take(0) =~= Seq::<DeviceConfig>::empty());
    assert(params(out@) =~= Seq::<ParameterView>::empty());
    while i < config.devices.len()
        invariant
            i <= config.devices@.len(),
            protocol@ == config.connector.protocol@,
            params(out@) == devices_parameters(
                config.devices@.take(i as int),
                protocol@,
                str_of(forced),
            ),
        decreases config.devices@.len() - i,
    {
        let device: &DeviceConfig = &config.devices[i];
        assert(config.devices@.take(i + 1).drop_last() =~= config.devices@.take(i as int));
        assert(config.devices@.take(i + 1).last() == *device);
        let naming: SetNaming = SetNaming::of(device, protocol, forced);
        let ghost before = params(out@);
        let mut j: usize = 0;
        assert(device.points@.take(0) =~= Seq::<PointConfig>::empty());
        assert(before + points_parameters(device.points@.take(0), naming@) =~= before);
        while j < device.points.len()
            invariant
                j <= device.points@.len(),
                params(out@) == before + points_parameters(
                    device.points@.take(j as int),
                    naming@,
                ),
            decreases device.points@.len() - j,
        {
            assert(device.points@.take(j + 1).drop_last() =~= device.points@.take(j as int));
            assert(device.points@.take(j + 1).last() == device.points@[j as int]);
            let mut found: Vec<Parameter> = parameters_of(&device.points[j], &naming);
            let ghost was = out@;
            let ghost more = found@;
            out.append(&mut found);
            assert(params(out@) =~= params(was) + params(more));
            assert(params(was) + params(more) =~= before + (points_parameters(
                device.points@.take(j as int),
                naming@,
            ) + params(more)));
            j = j + 1;
        }
        assert(device.points@.take(device.points@.len() as int) =~= device.points@);
        i = i + 1;
    }
    assert(config.devices@.take(config.devices@.len() as int) =~= config.devices@);
    out
}

/// A point that opts out is no parameter, whatever else it declares.
pub proof fn opting_out_beats_all(point: PointConfig, naming: Naming)
    requires
        view_of(point.parameter) == Some(JsonView::Bool(false)),
    ensures
        point_parameters(point, naming).len() == 0,
{
}

/// A point that may be written is a parameter unless it opts out; one that may only be read is
/// one only where it opts in.
pub proof fn writable_points_are_parameters(point: PointConfig, naming: Naming)
    requires
        view_of(point.parameter) != Some(JsonView::Bool(false)),
    ensures
        access_of(text_of(point.access)).writable() ==> point_parameters(point, naming).len() > 0,
        !access_of(text_of(point.access)).writable() ==> (point_parameters(point, naming).len() > 0
            <==> point.parameter is Some),
{
    sets_are_some_and_distinct(naming, options_of(point));
}

/// The devices of configurations, each with its protocol, in their order.
pub open spec fn all_devices(configs: Seq<ConnectorConfig>) -> Seq<(Seq<char>, DeviceConfig)>
    decreases configs.len(),
{
    if configs.len() == 0 {
        Seq::empty()
    } else {
        all_devices(configs.drop_last()) + with_protocol(
            configs.last().connector.protocol@,
            configs.last().devices@,
        )
    }
}

/// Devices, each with the protocol.
pub open spec fn with_protocol(protocol: Seq<char>, devices: Seq<DeviceConfig>) -> Seq<
    (Seq<char>, DeviceConfig),
> {
    devices.map_values(|d: DeviceConfig| (protocol, d))
}

/// A device of which some point is a parameter.
pub open spec fn has_parameters(device: DeviceConfig) -> bool {
    exists|i: int| 0 <= i < device.points@.len() && is_parameter(#[trigger] device.points@[i])
}

/// Whether a point of the device is a parameter.
fn exposes_parameters(device: &DeviceConfig, protocol: &str) -> (r: bool)
    ensures
        r == has_parameters(*device),
{
    let naming: SetNaming = SetNaming::of(device, protocol, None);
    let mut i: usize = 0;
    while i < device.points.len()
        invariant
            i <= device.points@.len(),
            forall|k: int| 0 <= k < i ==> !is_parameter(#[trigger] device.points@[k]),
        decreases device.points@.len() - i,
    {
        let found: Vec<Parameter> = parameters_of(&device.points[i], &naming);
        proof {
            let point = device.points@[i as int];
            assert(params(found@).len() == found@.len());
            if is_parameter(point) {
                sets_are_some_and_distinct(naming@, options_of(point));
            }
        }
        if found.len() > 0 {
            assert(is_parameter(device.points@[i as int]));
            return true;
        }
        i = i + 1;
    }
    false
}

/// The names, each once, of the devices that speak `protocol`, have no type and have parameters.
pub open spec fn untyped(devices: Seq<(Seq<char>, DeviceConfig)>, protocol: Seq<char>) -> Seq<
    Seq<char>,
>
    decreases devices.len(),
{
    if devices.len() == 0 {
        Seq::empty()
    } else {
        let head = untyped(devices.drop_last(), protocol);
        let (p, d) = devices.last();
        if p == protocol && d.kind() is None && has_parameters(d) {
            with_distinct(head, d.name@)
        } else {
            head
        }
    }
}

proof fn untyped_of_others(
    before: Seq<(Seq<char>, DeviceConfig)>,
    p: Seq<char>,
    devices: Seq<DeviceConfig>,
    protocol: Seq<char>,
)
    requires
        p != protocol,
    ensures
        untyped(before + with_protocol(p, devices), protocol) == untyped(before, protocol),
    decreases devices.len(),
{
    let all = before + with_protocol(p, devices);
    if devices.len() == 0 {
        assert(all =~= before);
    } else {
        untyped_of_others(before, p, devices.drop_last(), protocol);
        assert(all.drop_last() =~= before + with_protocol(p, devices.drop_last()));
        assert(all.last() == (p, devices.last()));
    }
}

/// The devices of a protocol that expose parameters without a type, so that their sets are named
/// after the protocol.
pub fn untyped_devices_across(configs: &[ConnectorConfig], protocol: &str) -> (r: Vec<String>)
    ensures
        texts(r@) == untyped(all_devices(configs@), protocol@),
{
    let mut out: Vec<String> = Vec::new();
    let mut i: usize = 0;
    assert(configs@.take(0) =~= Seq::<ConnectorConfig>::empty());
    assert(texts(out@) =~= Seq::<Seq<char>>::empty());
    while i < configs.len()
        invariant
            i <= configs@.len(),
            texts(out@) == untyped(all_devices(configs@.take(i as int)), protocol@),
        decreases configs@.len() - i,
    {
        let config: &ConnectorConfig = &configs[i];
        let ghost p = config.connector.protocol@;
        let ghost before = all_devices(configs@.take(i as int));
        assert(configs@.take(i + 1).drop_last() =~= configs@.take(i as int));
        assert(configs@.take(i + 1).last() == *config);
        if same_text(config.connector.protocol.as_str(), protocol) {
            let mut j: usize = 0;
            assert(before + with_protocol(p, config.devices@.take(0)) =~= before);
            while j < config.devices.len()
                invariant
                    j <= config.devices@.len(),
                    p == protocol@,
                    texts(out@) == untyped(
                        before + with_protocol(p, config.devices@.take(j as int)),
                        protocol@,
                    ),
                decreases config.devices@.len() - j,
            {
                let device: &DeviceConfig = &config.devices[j];
                let ghost all = before + with_protocol(p, config.devices@.take(j + 1));
                assert(all.drop_last() =~= before + with_protocol(
                    p,
                    config.devices@.take(j as int),
                ));
                assert(all.last() == (p, *device));
                if device.typed().is_none() && exposes_parameters(device, protocol) {
                    push_distinct(&mut out, device.name.as_str());
                }
                j = j + 1;
            }
            assert(config.devices@.take(config.devices@.len() as int) =~= config.devices@);
        } else {
            proof {
                untyped_of_others(before, p, config.devices@, protocol@);
            }
        }
        i = i + 1;
    }
    assert(configs@.take(configs@.len() as int) =~= configs@);
    out
}

/// `std::slice::from_ref`: the slice of one value.
pub assume_specification<T>[ std::slice::from_ref::<T> ](s: &T) -> (r: &[T])
    ensures
        r@ == seq![*s],
;

/// The devices of a configuration that expose parameters without a type.
pub fn devices_without_type(config: &ConnectorConfig) -> (r: Vec<String>)
    ensures
        texts(r@) == untyped(all_devices(seq![*config]), config.connector.protocol@),
{
    untyped_devices_across(std::slice::from_ref(config), config.connector.protocol.as_str())
}

/// A text with a letter or a digit of ASCII in it.
pub open spec fn usable(s: Seq<char>) -> bool {
    exists|i: int| 0 <= i < s.len() && alphanumeric(#[trigger] s[i])
}

fn is_usable(s: &str) -> (r: bool)
    ensures
        r == usable(s@),
{
    let c: Vec<char> = chars_of(s);
    let mut i: usize = 0;
    while i < c.len()
        invariant
            i <= c@.len(),
            c@ == s@,
            forall|k: int| 0 <= k < i ==> !alphanumeric(#[trigger] s@[k]),
        decreases c@.len() - i,
    {
        if is_alphanumeric(c[i]) {
            assert(alphanumeric(s@[i as int]));
            return true;
        }
        i = i + 1;
    }
    false
}

/// The warning of a device type that no set can be told apart by.
pub open spec fn unusable_warning(declared: Seq<char>) -> Seq<char> {
    "warning: device type '"@ + declared
        + "' has no [A-Za-z0-9] character, so its parameter sets are named '"@ + set_of(
        declared,
        "control"@,
    )
        + "' with nothing to tell them apart from another such type's; name the type in ASCII"@
}

/// The warnings of the types that no set can be told apart by, in the order of the devices.
pub open spec fn unusable_warnings(devices: Seq<(Seq<char>, DeviceConfig)>) -> Seq<Seq<char>>
    decreases devices.len(),
{
    if devices.len() == 0 {
        Seq::empty()
    } else {
        let head = unusable_warnings(devices.drop_last());
        match devices.last().1.kind() {
            Some(t) => if usable(t) {
                head
            } else {
                head.push(unusable_warning(t))
            },
            None => head,
        }
    }
}

/// The device types that one set name stands for.
pub struct TypeGroup {
    pub key: Seq<char>,
    pub types: Seq<Seq<char>>,
}

/// The groups with the type in the one of its key, at the end of them where there is none.
pub open spec fn with_type(groups: Seq<TypeGroup>, key: Seq<char>, t: Seq<char>) -> Seq<TypeGroup>
    decreases groups.len(),
{
    if groups.len() == 0 {
        seq![TypeGroup { key, types: seq![t] }]
    } else if groups[0].key == key {
        seq![TypeGroup { key, types: with_distinct(groups[0].types, t) }] + groups.drop_first()
    } else {
        seq![groups[0]] + with_type(groups.drop_first(), key, t)
    }
}

/// The types of the devices that have parameters, by the set name that they derive.
pub open spec fn type_groups(devices: Seq<(Seq<char>, DeviceConfig)>) -> Seq<TypeGroup>
    decreases devices.len(),
{
    if devices.len() == 0 {
        Seq::empty()
    } else {
        let head = type_groups(devices.drop_last());
        let d = devices.last().1;
        match d.kind() {
            Some(t) => if has_parameters(d) {
                with_type(head, set_of(t, "control"@), t)
            } else {
                head
            },
            None => head,
        }
    }
}

/// A name in quotes.
pub open spec fn quoted(s: Seq<char>) -> Seq<char> {
    "'"@ + s + "'"@
}

/// The warning of types that derive one set name.
pub open spec fn collision_warning(g: TypeGroup) -> Seq<char> {
    "warning: device types "@ + joined(g.types.map_values(|t: Seq<char>| quoted(t)), ", "@)
        + " derive the same parameter set names (e.g. '"@ + g.key
        + "'), so they share one tenant-wide definition and the first one rendered wins; give them names that differ by more than punctuation"@
}

/// The warnings of the groups that more than one type is in.
pub open spec fn collision_warnings(groups: Seq<TypeGroup>) -> Seq<Seq<char>>
    decreases groups.len(),
{
    if groups.len() == 0 {
        Seq::empty()
    } else {
        let head = collision_warnings(groups.drop_last());
        if groups.last().types.len() > 1 {
            head.push(collision_warning(groups.last()))
        } else {
            head
        }
    }
}

/// The warnings about the device types of devices.
pub open spec fn warnings_of(devices: Seq<(Seq<char>, DeviceConfig)>) -> Seq<Seq<char>> {
    unusable_warnings(devices) + collision_warnings(type_groups(devices))
}

struct Folded {
    key: String,
    types: Vec<String>,
}

impl View for Folded {
    type V = TypeGroup;

    closed spec fn view(&self) -> TypeGroup {
        TypeGroup { key: self.key@, types: texts(self.types@) }
    }
}

spec fn groups_of(v: Seq<Folded>) -> Seq<TypeGroup> {
    v.map_values(|f: Folded| f@)
}

proof fn with_type_at(groups: Seq<TypeGroup>, key: Seq<char>, t: Seq<char>, i: int)
    requires
        0 <= i <= groups.len(),
        forall|j: int| 0 <= j < i ==> (#[trigger] groups[j]).key != key,
        i < groups.len() ==> groups[i].key == key,
    ensures
        with_type(groups, key, t) == if i < groups.len() {
            groups.update(i, TypeGroup { key, types: with_distinct(groups[i].types, t) })
        } else {
            groups.push(TypeGroup { key, types: seq![t] })
        },
    decreases groups.len(),
{
    if groups.len() == 0 {
        assert(groups.push(TypeGroup { key, types: seq![t] }) =~= seq![
            TypeGroup { key, types: seq![t] },
        ]);
    } else if i == 0 {
        let g = TypeGroup { key, types: with_distinct(groups[0].types, t) };
        assert(groups.update(0, g) =~= seq![g] + groups.drop_first());
    } else {
        let rest = groups.drop_first();
        assert(groups[0].key != key);
        assert forall|j: int| 0 <= j < i - 1 implies (#[trigger] rest[j]).key != key by {
            assert(rest[j] == groups[j + 1]);
        }
        with_type_at(rest, key, t, i - 1);
        if i < groups.len() {
            let g = TypeGroup { key, types: with_distinct(groups[i].types, t) };
            assert(groups.update(i, g) =~= seq![groups[0]] + rest.update(i - 1, g));
        } else {
            let g = TypeGroup { key, types: seq![t] };
            assert(groups.push(g) =~= seq![groups[0]] + rest.push(g));
        }
    }
}

fn add_type(folded: &mut Vec<Folded>, key: String, t: &str)
    ensures
        groups_of(final(folded)@) == with_type(groups_of(old(folded)@), key@, t@),
{
    let ghost before = groups_of(folded@);
    let mut i: usize = 0;
    while i < folded.len() && !same_text(folded[i].key.as_str(), key.as_str())
        invariant
            i <= folded@.len(),
            folded@ == old(folded)@,
            before == groups_of(folded@),
            forall|j: int| 0 <= j < i ==> (#[trigger] before[j]).key != key@,
        decreases folded@.len() - i,
    {
        i = i + 1;
    }
    proof {
        with_type_at(before, key@, t@, i as int);
    }
    if i < folded.len() {
        let mut types: Vec<String> = Vec::new();
        std::mem::swap(&mut types, &mut folded[i].types);
        push_distinct(&mut types, t);
        folded[i].types = types;
        assert(groups_of(folded@) =~= with_type(before, key@, t@));
    } else {
        let mut types: Vec<String> = Vec::new();
        types.push(t.to_owned());
        assert(texts(types@) =~= seq![t@]);
        folded.push(Folded { key, types });
        assert(groups_of(folded@) =~= with_type(before, key@, t@));
    }
}

fn collisions(folded: &Vec<Folded>, warnings: &mut Vec<String>)
    ensures
        texts(final(warnings)@) == texts(old(warnings)@) + collision_warnings(groups_of(folded@)),
{
    let ghost all = groups_of(folded@);
    let ghost before = texts(warnings@);
    let mut i: usize = 0;
    assert(all.take(0) =~= Seq::<TypeGroup>::empty());
    assert(before + collision_warnings(all.take(0)) =~= before);
    while i < folded.len()
        invariant
            i <= folded@.len(),
            all == groups_of(folded@),
            texts(warnings@) == before + collision_warnings(all.take(i as int)),
        decreases folded@.len() - i,
    {
        assert(all.take(i + 1).drop_last() =~= all.take(i as int));
        assert(all.take(i + 1).last() == folded@[i as int]@);
        let f: &Folded = &folded[i];
        if f.types.len() > 1 {
            let mut names: Vec<String> = Vec::new();
            let mut j: usize = 0;
            while j < f.types.len()
                invariant
                    j <= f.types@.len(),
                    names@.len() == j,
                    forall|k: int|
                        0 <= k < j ==> (#[trigger] names@[k])@ == quoted(f.types@[k]@),
                decreases f.types@.len() - j,
            {
                names.push(concat3("'", f.types[j].as_str(), "'"));
                j = j + 1;
            }
            assert(texts(names@) =~= texts(f.types@).map_values(|t: Seq<char>| quoted(t)));
            let list: String = join(&names, ", ");
            let mut w: String = concat3(
                "warning: device types ",
                list.as_str(),
                " derive the same parameter set names (e.g. '",
            );
            w.append(f.key.as_str());
            w.append(
                "'), so they share one tenant-wide definition and the first one rendered wins; give them names that differ by more than punctuation",
            );
            let ghost was = texts(warnings@);
            assert(w@ == collision_warning(f@));
            warnings.push(w);
            assert(texts(warnings@) =~= was.push(w@));
            assert(was.push(w@) =~= before + collision_warnings(all.take(i as int)).push(w@));
        }
        i = i + 1;
    }
    assert(all.take(all.len() as int) =~= all);
}

/// The warnings about the device types that configurations declare: of a type that no set can be
/// told apart by, and of types that derive one set name.
pub fn type_warnings_across(configs: &[ConnectorConfig]) -> (r: Vec<String>)
    ensures
        texts(r@) == warnings_of(all_devices(configs@)),
{
    let mut warnings: Vec<String> = Vec::new();
    let mut folded: Vec<Folded> = Vec::new();
    let mut i: usize = 0;
    assert(configs@.take(0) =~= Seq::<ConnectorConfig>::empty());
    assert(texts(warnings@) =~= Seq::<Seq<char>>::empty());
    assert(groups_of(folded@) =~= Seq::<TypeGroup>::empty());
    while i < configs.len()
        invariant
            i <= configs@.len(),
            texts(warnings@) == unusable_warnings(all_devices(configs@.take(i as int))),
            groups_of(folded@) == type_groups(all_devices(configs@.take(i as int))),
        decreases configs@.len() - i,
    {
        let config: &ConnectorConfig = &configs[i];
        let ghost p = config.connector.protocol@;
        let ghost before = all_devices(configs@.take(i as int));
        assert(configs@.take(i + 1).drop_last() =~= configs@.take(i as int));
        assert(configs@.take(i + 1).last() == *config);
        let mut j: usize = 0;
        assert(before + with_protocol(p, config.devices@.take(0)) =~= before);
        while j < config.devices.len()
            invariant
                j <= config.devices@.len(),
                texts(warnings@) == unusable_warnings(
                    before + with_protocol(p, config.devices@.take(j as int)),
                ),
                groups_of(folded@) == type_groups(
                    before + with_protocol(p, config.devices@.take(j as int)),
                ),
            decreases config.devices@.len() - j,
        {
            let device: &DeviceConfig = &config.devices[j];
            let ghost all = before + with_protocol(p, config.devices@.take(j + 1));
            assert(all.drop_last() =~= before + with_protocol(p, config.devices@.take(j as int)));
            assert(all.last() == (p, *device));
            if let Some(t) = device.typed() {
                if !is_usable(t) {
                    let set: String = set_name(t, DEFAULT_GROUP);
                    let mut w: String = concat3(
                        "warning: device type '",
                        t,
                        "' has no [A-Za-z0-9] character, so its parameter sets are named '",
                    );
                    w.append(set.as_str());
                    w.append(
                        "' with nothing to tell them apart from another such type's; name the type in ASCII",
                    );
                    let ghost was = texts(warnings@);
                    assert(w@ == unusable_warning(t@));
                    warnings.push(w);
                    assert(texts(warnings@) =~= was.push(w@));
                }
                if exposes_parameters(device, config.connector.protocol.as_str()) {
                    add_type(&mut folded, set_name(t, DEFAULT_GROUP), t);
                }
            }
            j = j + 1;
        }
        assert(config.devices@.take(config.devices@.len() as int) =~= config.devices@);
        i = i + 1;
    }
    assert(configs@.take(configs@.len() as int) =~= configs@);
    collisions(&folded, &mut warnings);
    warnings
}

/// The warnings about the device types that a configuration declares.
pub fn type_warnings(config: &ConnectorConfig) -> (r: Vec<String>)
    ensures
        texts(r@) == warnings_of(all_devices(seq![*config])),
{
    type_warnings_across(std::slice::from_ref(config))
}

/// What is no valid key of a parameter: its point's id, its set.
pub open spec fn bad_keys(p: ParameterView) -> Seq<Seq<char>> {
    let a = if valid_key(p.point) {
        Seq::empty()
    } else {
        seq!["point id '"@ + p.point + "'"@]
    };
    if valid_key(p.set) {
        a
    } else {
        a.push("parameter set '"@ + p.set + "'"@)
    }
}

/// What is no valid key of parameters.
pub open spec fn all_bad_keys(ps: Seq<ParameterView>) -> Seq<Seq<char>>
    decreases ps.len(),
{
    if ps.len() == 0 {
        Seq::empty()
    } else {
        all_bad_keys(ps.drop_last()) + bad_keys(ps.last())
    }
}

/// What is no valid key of the parameters of configurations.
pub open spec fn bad_keys_across(configs: Seq<ConnectorConfig>, forced: Option<Seq<char>>) -> Seq<
    Seq<char>,
>
    decreases configs.len(),
{
    if configs.len() == 0 {
        Seq::empty()
    } else {
        bad_keys_across(configs.drop_last(), forced) + all_bad_keys(
            config_parameters(configs.last(), forced),
        )
    }
}

/// The point ids and set names of parameters that are no valid keys, in their order.
pub fn invalid_keys_across(configs: &[ConnectorConfig], forced: Option<&str>) -> (r: Vec<String>)
    ensures
        texts(r@) == bad_keys_across(configs@, str_of(forced)),
{
    let mut out: Vec<String> = Vec::new();
    let mut i: usize = 0;
    assert(configs@.take(0) =~= Seq::<ConnectorConfig>::empty());
    assert(texts(out@) =~= Seq::<Seq<char>>::empty());
    while i < configs.len()
        invariant
            i <= configs@.len(),
            texts(out@) == bad_keys_across(configs@.take(i as int), str_of(forced)),
        decreases configs@.len() - i,
    {
        assert(configs@.take(i + 1).drop_last() =~= configs@.take(i as int));
        assert(configs@.take(i + 1).last() == configs@[i as int]);
        let found: Vec<Parameter> = parameters(&configs[i], forced);
        let ghost all = params(found@);
        let ghost before = texts(out@);
        let mut j: usize = 0;
        assert(all.take(0) =~= Seq::<ParameterView>::empty());
        assert(before + all_bad_keys(all.take(0)) =~= before);
        while j < found.len()
            invariant
                j <= found@.len(),
                all == params(found@),
                texts(out@) == before + all_bad_keys(all.take(j as int)),
            decreases found@.len() - j,
        {
            let p: &Parameter = &found[j];
            assert(all.take(j + 1).drop_last() =~= all.take(j as int));
            assert(all.take(j + 1).last() == p@);
            let ghost was = texts(out@);
            if !is_valid_key(p.point.as_str()) {
                out.push(concat3("point id '", p.point.as_str(), "'"));
            }
            if !is_valid_key(p.set.as_str()) {
                out.push(concat3("parameter set '", p.set.as_str(), "'"));
            }
            assert(texts(out@) =~= was + bad_keys(p@));
            assert(was + bad_keys(p@) =~= before + (all_bad_keys(all.take(j as int)) + bad_keys(
                p@,
            )));
            j = j + 1;
        }
        assert(all.take(all.len() as int) =~= all);
        i = i + 1;
    }
    assert(configs@.take(configs@.len() as int) =~= configs@);
    out
}

/// The point ids and set names of a configuration's parameters that are no valid keys.
pub fn invalid_keys(config: &ConnectorConfig, forced: Option<&str>) -> (r: Vec<String>)
    ensures
        texts(r@) == bad_keys_across(seq![*config], str_of(forced)),
{
    invalid_keys_across(std::slice::from_ref(config), forced)
}

/// The letters and digits of ASCII in a text, in their order.
pub open spec fn letters(s: Seq<char>) -> Seq<char>
    decreases s.len(),
{
    if s.len() == 0 {
        Seq::empty()
    } else if alphanumeric(s[0]) {
        seq![s[0]] + letters(s.drop_first())
    } else {
        letters(s.drop_first())
    }
}

proof fn letters_of_joined(a: Seq<char>, b: Seq<char>)
    ensures
        letters(a + b) == letters(a) + letters(b),
    decreases a.len(),
{
    if a.len() == 0 {
        assert(a + b =~= b);
    } else {
        letters_of_joined(a.drop_first(), b);
        assert((a + b).drop_first() =~= a.drop_first() + b);
    }
}

proof fn folding_keeps_letters_from(s: Seq<char>, open: bool)
    ensures
        letters(folded(s, open)) == letters(s),
    decreases s.len(),
{
    if s.len() > 0 {
        let t = s.drop_first();
        let r = folded(s, open);
        if alphanumeric(s[0]) {
            folding_keeps_letters_from(t, false);
            assert(r.drop_first() =~= folded(t, false));
        } else {
            folding_keeps_letters_from(t, true);
            if !open {
                assert(r.drop_first() =~= folded(t, true));
            }
        }
    }
}

proof fn folding_leaves_no_runs(s: Seq<char>, open: bool)
    ensures
        forall|i: int|
            0 <= i < folded(s, open).len() - 1 ==> alphanumeric(#[trigger] folded(s, open)[i])
                || alphanumeric(folded(s, open)[i + 1]),
        open && folded(s, open).len() > 0 ==> alphanumeric(folded(s, open)[0]),
    decreases s.len(),
{
    if s.len() > 0 {
        let t = s.drop_first();
        folding_leaves_no_runs(t, false);
        folding_leaves_no_runs(t, true);
        let r = folded(s, open);
        assert forall|i: int| 0 <= i < r.len() - 1 implies alphanumeric(#[trigger] r[i])
            || alphanumeric(r[i + 1]) by {
            if alphanumeric(s[0]) {
                if i > 0 {
                    assert(r[i] == folded(t, false)[i - 1]);
                    assert(r[i + 1] == folded(t, false)[i]);
                }
            } else if !open {
                assert(r[i + 1] == folded(t, true)[i]);
                if i > 0 {
                    assert(r[i] == folded(t, true)[i - 1]);
                }
            }
        }
    }
}

/// Folding keeps the letters and digits of a text in their order, and puts no two other
/// characters beside one another.
pub proof fn folding_keeps_letters_and_digits(s: Seq<char>, i: int)
    ensures
        letters(folded(s, false)) == letters(s),
        0 <= i < folded(s, false).len() ==> alphanumeric(folded(s, false)[i]) || folded(s, false)[i]
            == '_',
        0 <= i < folded(s, false).len() - 1 ==> alphanumeric(folded(s, false)[i]) || alphanumeric(
            folded(s, false)[i + 1],
        ),
{
    folding_keeps_letters_from(s, false);
    folding_leaves_no_runs(s, false);
    folded_keys(s, false);
}

/// A text of letters and digits alone is left as it is, and what stands between two such texts
/// becomes one `_`.
pub proof fn plain_texts_are_kept_apart(a: Seq<char>, between: Seq<char>, b: Seq<char>)
    requires
        letters(a) == a,
        letters(b) == b,
        letters(between).len() == 0,
        between.len() > 0,
    ensures
        folded(a, false) == a,
        folded(a + between + b, false) == a + seq!['_'] + b,
{
    plain_is_kept(a, Seq::empty());
    assert(a + Seq::<char>::empty() =~= a);
    plain_is_kept(a, between + b);
    assert(a + between + b =~= a + (between + b));
    other_is_dropped(between, b, false);
    plain_is_kept(b, Seq::empty());
    assert(b + Seq::<char>::empty() =~= b);
    if b.len() > 0 {
        letters_are_letters(b, 0);
        assert(folded(b, true) == folded(b, false));
    }
    assert(a + (seq!['_'] + b) =~= a + seq!['_'] + b);
}

proof fn letters_are_letters(s: Seq<char>, i: int)
    requires
        letters(s) == s,
        0 <= i < s.len(),
    ensures
        alphanumeric(s[i]),
        letters(s.drop_first()) == s.drop_first(),
    decreases s.len(),
{
    fewer_letters(s.drop_first());
    if !alphanumeric(s[0]) {
        assert(letters(s).len() < s.len());
    } else {
        assert(letters(s).drop_first() =~= letters(s.drop_first()));
        if i > 0 {
            letters_are_letters(s.drop_first(), i - 1);
        }
    }
}

proof fn fewer_letters(s: Seq<char>)
    ensures
        letters(s).len() <= s.len(),
    decreases s.len(),
{
    if s.len() > 0 {
        fewer_letters(s.drop_first());
    }
}

proof fn plain_is_kept(a: Seq<char>, rest: Seq<char>)
    requires
        letters(a) == a,
    ensures
        folded(a + rest, false) == a + folded(rest, false),
    decreases a.len(),
{
    if a.len() == 0 {
        assert(a + rest =~= rest);
        assert(a + folded(rest, false) =~= folded(rest, false));
    } else {
        letters_are_letters(a, 0);
        plain_is_kept(a.drop_first(), rest);
        assert((a + rest).drop_first() =~= a.drop_first() + rest);
        assert(seq![a[0]] + (a.drop_first() + folded(rest, false)) =~= a + folded(rest, false));
    }
}

proof fn other_is_dropped(between: Seq<char>, b: Seq<char>, open: bool)
    requires
        letters(between).len() == 0,
        open || between.len() > 0,
    ensures
        folded(between + b, open) == if open {
            folded(b, true)
        } else {
            seq!['_'] + folded(b, true)
        },
    decreases between.len(),
{
    if between.len() == 0 {
        assert(between + b =~= b);
    } else {
        assert(!alphanumeric(between[0]));
        assert((between + b).drop_first() =~= between.drop_first() + b);
        other_is_dropped(between.drop_first(), b, true);
    }
}

/// The name of a set reads as the type and the group that it is of.
pub proof fn set_names_read_as_type_and_group(qualifier: Seq<char>, group: Seq<char>)
    ensures
        letters(set_of(qualifier, group)) == letters(qualifier) + letters(group) + "parameters"@,
{
    reveal_strlit("_");
    reveal_strlit("_parameters");
    reveal_strlit("parameters");
    let s = qualifier + "_"@ + group + "_parameters"@;
    folding_keeps_letters_from(s, false);
    letters_of_joined(qualifier + "_"@ + group, "_parameters"@);
    letters_of_joined(qualifier + "_"@, group);
    letters_of_joined(qualifier, "_"@);
    assert("_"@.drop_first() =~= Seq::<char>::empty());
    assert(letters(Seq::<char>::empty()) =~= Seq::<char>::empty());
    assert(letters("_"@) =~= Seq::<char>::empty());
    assert("_parameters"@.drop_first() =~= "parameters"@);
    plain_letters("parameters"@);
    assert(letters("_parameters"@) == "parameters"@);
    assert(letters(qualifier) + letters("_"@) =~= letters(qualifier));
}

proof fn plain_letters(s: Seq<char>)
    requires
        forall|i: int| 0 <= i < s.len() ==> alphanumeric(#[trigger] s[i]),
    ensures
        letters(s) == s,
    decreases s.len(),
{
    if s.len() > 0 {
        plain_letters(s.drop_first());
        assert(seq![s[0]] + s.drop_first() =~= s);
    }
}

/// Whether a text that is not empty is one of the values.
pub open spec fn names_text(items: Seq<JsonView>, s: Seq<char>) -> bool {
    s.len() > 0 && items.contains(JsonView::Text(s))
}

proof fn item_names_are_the_texts(items: Seq<JsonView>, s: Seq<char>)
    ensures
        item_names(items).contains(s) <==> names_text(items, s),
    decreases items.len(),
{
    if items.len() > 0 {
        let head = items.drop_last();
        item_names_are_the_texts(head, s);
        names_are_distinct(head);
        if let JsonView::Text(t) = items.last() {
            with_distinct_keeps_distinct(item_names(head), t);
        }
        if items.contains(JsonView::Text(s)) && items.last() != JsonView::Text(s) {
            let i = choose|i: int| 0 <= i < items.len() && items[i] == JsonView::Text(s);
            assert(head[i] == JsonView::Text(s));
        }
        if head.contains(JsonView::Text(s)) {
            let i = choose|i: int| 0 <= i < head.len() && head[i] == JsonView::Text(s);
            assert(items[i] == JsonView::Text(s));
        }
        assert(items[items.len() - 1] == items.last());
    }
}

/// Whether a set is that of one of the groups.
pub open spec fn set_of_some(qualifier: Seq<char>, groups: Seq<Seq<char>>, set: Seq<char>) -> bool {
    exists|i: int| 0 <= i < groups.len() && set == set_of(qualifier, #[trigger] groups[i])
}

proof fn group_sets_are_of_the_groups(qualifier: Seq<char>, groups: Seq<Seq<char>>, set: Seq<char>)
    ensures
        group_sets(qualifier, groups).contains(set) <==> set_of_some(qualifier, groups, set),
    decreases groups.len(),
{
    if groups.len() > 0 {
        let head = groups.drop_last();
        group_sets_are_of_the_groups(qualifier, head, set);
        group_sets_are_distinct(qualifier, head);
        with_distinct_keeps_distinct(
            group_sets(qualifier, head),
            set_of(qualifier, groups.last()),
        );
        if set_of_some(qualifier, head, set) {
            let i = choose|i: int|
                0 <= i < head.len() && set == set_of(qualifier, #[trigger] head[i]);
            assert(groups[i] == head[i]);
        }
        if set_of_some(qualifier, groups, set) && set != set_of(qualifier, groups.last()) {
            let i = choose|i: int|
                0 <= i < groups.len() && set == set_of(qualifier, #[trigger] groups[i]);
            assert(groups[i] == head[i]);
        }
        assert(groups[groups.len() - 1] == groups.last());
    }
}

/// Whether an option names a text: it is that text, or an array with it.
pub open spec fn option_names(v: Option<JsonView>, s: Seq<char>) -> bool {
    match v {
        Some(JsonView::Text(t)) => t == s && s.len() > 0,
        Some(JsonView::Array(items)) => names_text(items, s),
        _ => false,
    }
}

proof fn names_are_those_of_the_option(v: Option<JsonView>, s: Seq<char>)
    ensures
        names(v).contains(s) <==> option_names(v, s),
{
    match v {
        Some(JsonView::Text(t)) => {
            item_names_are_the_texts(seq![JsonView::Text(t)], s);
            if t == s {
                assert(seq![JsonView::Text(t)][0] == JsonView::Text(s));
            }
        },
        Some(JsonView::Array(items)) => item_names_are_the_texts(items, s),
        _ => {},
    }
}

/// A parameter stands in the sets that it names; else in the one that all share, where there is
/// one; else in the sets of its groups, or in that of the default group where it names none.
pub proof fn parameters_stand_in_the_sets_they_name(
    naming: Naming,
    options: Fields,
    s: Seq<char>,
    named: Seq<char>,
    group: Seq<char>,
)
    ensures
        option_names(field(options, "set"@), named) ==> (naming.sets(options).contains(s)
            <==> option_names(field(options, "set"@), s)),
        (forall|n: Seq<char>| !option_names(field(options, "set"@), n)) ==> {
            &&& naming.forced matches Some(f) ==> (naming.sets(options).contains(s) <==> s == f)
            &&& naming.forced is None && option_names(field(options, "group"@), group)
                ==> naming.sets(options).contains(set_of(naming.qualifier, group))
            &&& naming.forced is None && option_names(field(options, "group"@), group)
                && naming.sets(options).contains(s) ==> exists|g: Seq<char>|
                #[trigger] option_names(field(options, "group"@), g) && s == set_of(
                    naming.qualifier,
                    g,
                )
            &&& naming.forced is None && (forall|g: Seq<char>|
                !option_names(field(options, "group"@), g)) ==> (naming.sets(options).contains(s)
                <==> s == set_of(naming.qualifier, "control"@))
        },
{
    let sets = field(options, "set"@);
    let groups = field(options, "group"@);
    names_are_those_of_the_option(sets, s);
    names_are_those_of_the_option(sets, named);
    names_are_those_of_the_option(groups, group);
    if names(sets).len() > 0 {
        names_are_those_of_the_option(sets, names(sets)[0]);
        assert(names(sets).contains(names(sets)[0]));
    } else {
        if names(groups).len() > 0 {
            names_are_those_of_the_option(groups, names(groups)[0]);
            assert(names(groups).contains(names(groups)[0]));
        }
        group_sets_are_of_the_groups(naming.qualifier, names(groups), s);
        group_sets_are_of_the_groups(
            naming.qualifier,
            names(groups),
            set_of(naming.qualifier, group),
        );
        if names(groups).contains(group) {
            let i = choose|i: int| 0 <= i < names(groups).len() && names(groups)[i] == group;
            assert(set_of(naming.qualifier, group) == set_of(naming.qualifier, names(groups)[i]));
        }
        if set_of_some(naming.qualifier, names(groups), s) {
            let i = choose|i: int|
                0 <= i < names(groups).len() && s == set_of(
                    naming.qualifier,
                    #[trigger] names(groups)[i],
                );
            names_are_those_of_the_option(groups, names(groups)[i]);
            assert(names(groups).contains(names(groups)[i]));
        }
        let one = seq![naming.set(None)];
        assert(one[0] == naming.set(None));
        assert(one.contains(s) <==> s == naming.set(None));
    }
}

/// The sets of a device are named after its type, or after the protocol where it has none; one
/// that all share is the one given. A point that gives a text for its parameter stands in that
/// set, and one that gives an object has the options of it.
pub proof fn sets_are_named_after_the_type(
    device: DeviceConfig,
    protocol: Seq<char>,
    forced: Option<Seq<char>>,
    point: PointConfig,
)
    ensures
        device.kind() matches Some(t) ==> Naming::of(device, protocol, forced).qualifier == t,
        device.kind() is None ==> Naming::of(device, protocol, forced).qualifier == protocol,
        Naming::of(device, protocol, forced).forced == forced,
        view_of(point.parameter) matches Some(JsonView::Text(s)) ==> field(
            options_of(point),
            "set"@,
        ) == Some(JsonView::Text(s)) && field(options_of(point), "group"@) is None,
        view_of(point.parameter) matches Some(JsonView::Object(f)) ==> options_of(point) == f,
        view_of(point.parameter) is None || (view_of(point.parameter) matches Some(
            JsonView::Bool(_),
        )) ==> options_of(point).len() == 0,
{
    broadcast use crate::keyed::field_once_set;

    reveal_strlit("set");
    reveal_strlit("group");
    assert("set"@.len() == 3 && "group"@.len() == 5);
    assert(field(Fields::empty(), "group"@) is None);
}

/// A parameter says of its point what is configured for it.
pub proof fn parameters_say_what_is_configured(point: PointConfig, naming: Naming, i: int)
    requires
        0 <= i < point_parameters(point, naming).len(),
    ensures
        ({
            let p = point_parameters(point, naming)[i];
            &&& p.point == point.id@
            &&& naming.sets(options_of(point)).contains(p.set)
            &&& p.datatype == point.datatype
            &&& p.access == access_of(text_of(point.access))
            &&& p.unit == text_of(point.unit)
            &&& p.name == text_of(point.name)
            &&& p.description == text_of(point.description)
            &&& p.ranged <==> point.range is Some
            &&& point.range matches Some(r) ==> p.min == numeral_of(r.min) && p.max == numeral_of(
                r.max,
            )
            &&& point.range is None ==> p.min is None && p.max is None
            &&& p.options == options_of(point)
        }),
{
}

/// A parameter for each of the sets that its point stands in.
pub proof fn points_are_a_parameter_in_each_set(
    point: PointConfig,
    naming: Naming,
    set: Seq<char>,
) -> (i: int)
    requires
        is_parameter(point),
        naming.sets(options_of(point)).contains(set),
    ensures
        0 <= i < point_parameters(point, naming).len(),
        point_parameters(point, naming)[i].set == set,
{
    let sets = naming.sets(options_of(point));
    choose|i: int| 0 <= i < sets.len() && sets[i] == set
}

proof fn parameter_among_points(points: Seq<PointConfig>, naming: Naming, k: int, p: ParameterView)
    requires
        0 <= k < points.len(),
        point_parameters(points[k], naming).contains(p),
    ensures
        points_parameters(points, naming).contains(p),
    decreases points.len(),
{
    let head = points_parameters(points.drop_last(), naming);
    let tail = point_parameters(points.last(), naming);
    if k == points.len() - 1 {
        let i = choose|i: int| 0 <= i < tail.len() && tail[i] == p;
        assert((head + tail)[head.len() + i] == p);
    } else {
        parameter_among_points(points.drop_last(), naming, k, p);
        let i = choose|i: int| 0 <= i < head.len() && head[i] == p;
        assert((head + tail)[i] == p);
    }
}

proof fn parameter_of_some_point(points: Seq<PointConfig>, naming: Naming, p: ParameterView) -> (k:
    int)
    requires
        points_parameters(points, naming).contains(p),
    ensures
        0 <= k < points.len(),
        point_parameters(points[k], naming).contains(p),
    decreases points.len(),
{
    let all = points_parameters(points, naming);
    let i = choose|i: int| 0 <= i < all.len() && all[i] == p;
    let head = points_parameters(points.drop_last(), naming);
    let tail = point_parameters(points.last(), naming);
    if i >= head.len() {
        assert(tail[i - head.len()] == p);
        points.len() - 1
    } else {
        assert(head[i] == p);
        parameter_of_some_point(points.drop_last(), naming, p)
    }
}

/// Whether a parameter is one of a point of the device.
pub open spec fn is_of_device(
    device: DeviceConfig,
    protocol: Seq<char>,
    forced: Option<Seq<char>>,
    p: ParameterView,
) -> bool {
    exists|k: int|
        0 <= k < device.points@.len() && point_parameters(
            #[trigger] device.points@[k],
            Naming::of(device, protocol, forced),
        ).contains(p)
}

/// The parameters of devices are those of all their points.
pub proof fn parameters_are_those_of_all_points(
    devices: Seq<DeviceConfig>,
    protocol: Seq<char>,
    forced: Option<Seq<char>>,
    p: ParameterView,
)
    ensures
        devices_parameters(devices, protocol, forced).contains(p) <==> exists|d: int|
            0 <= d < devices.len() && is_of_device(#[trigger] devices[d], protocol, forced, p),
    decreases devices.len(),
{
    let all = devices_parameters(devices, protocol, forced);
    if devices.len() > 0 {
        let before = devices.drop_last();
        parameters_are_those_of_all_points(before, protocol, forced, p);
        let d = devices.last();
        let naming = Naming::of(d, protocol, forced);
        let head = devices_parameters(before, protocol, forced);
        let tail = points_parameters(d.points@, naming);
        assert(devices[devices.len() - 1] == d);
        if all.contains(p) {
            let i = choose|i: int| 0 <= i < all.len() && all[i] == p;
            if i >= head.len() {
                assert(tail[i - head.len()] == p);
                let k = parameter_of_some_point(d.points@, naming, p);
                assert(is_of_device(d, protocol, forced, p)) by {
                    assert(point_parameters(d.points@[k], naming).contains(p));
                }
            } else {
                assert(head[i] == p);
                let e = choose|e: int|
                    0 <= e < before.len() && is_of_device(
                        #[trigger] before[e],
                        protocol,
                        forced,
                        p,
                    );
                assert(devices[e] == before[e]);
            }
        }
        if exists|e: int|
            0 <= e < devices.len() && is_of_device(#[trigger] devices[e], protocol, forced, p) {
            let e = choose|e: int|
                0 <= e < devices.len() && is_of_device(
                    #[trigger] devices[e],
                    protocol,
                    forced,
                    p,
                );
            if e == devices.len() - 1 {
                let k = choose|k: int|
                    0 <= k < d.points@.len() && point_parameters(
                        #[trigger] d.points@[k],
                        naming,
                    ).contains(p);
                parameter_among_points(d.points@, naming, k, p);
                let i = choose|i: int| 0 <= i < tail.len() && tail[i] == p;
                assert(all[head.len() + i] == p);
            } else {
                assert(before[e] == devices[e]);
                let i = choose|i: int| 0 <= i < head.len() && head[i] == p;
                assert(all[i] == p);
            }
        }
    }
}

/// Whether a device speaks a protocol, has no type and exposes parameters.
pub open spec fn lacks_type(entry: (Seq<char>, DeviceConfig), protocol: Seq<char>) -> bool {
    entry.0 == protocol && entry.1.kind() is None && has_parameters(entry.1)
}

/// The devices that are told to lack a type are those of the protocol that have none and expose
/// parameters, each once.
pub proof fn devices_that_lack_a_type_are_told(
    devices: Seq<(Seq<char>, DeviceConfig)>,
    protocol: Seq<char>,
    name: Seq<char>,
)
    ensures
        untyped(devices, protocol).no_duplicates(),
        untyped(devices, protocol).contains(name) <==> exists|i: int|
            0 <= i < devices.len() && lacks_type(#[trigger] devices[i], protocol)
                && devices[i].1.name@ == name,
    decreases devices.len(),
{
    if devices.len() > 0 {
        let before = devices.drop_last();
        devices_that_lack_a_type_are_told(before, protocol, name);
        let d = devices.last();
        assert(devices[devices.len() - 1] == d);
        with_distinct_keeps_distinct(untyped(before, protocol), d.1.name@);
        if untyped(before, protocol).contains(name) {
            let i = choose|i: int|
                0 <= i < before.len() && lacks_type(#[trigger] before[i], protocol)
                    && before[i].1.name@ == name;
            assert(devices[i] == before[i]);
        }
        if exists|i: int|
            0 <= i < devices.len() && lacks_type(#[trigger] devices[i], protocol)
                && devices[i].1.name@ == name {
            let i = choose|i: int|
                0 <= i < devices.len() && lacks_type(#[trigger] devices[i], protocol)
                    && devices[i].1.name@ == name;
            if i < before.len() {
                assert(before[i] == devices[i]);
            }
        }
    }
}

/// The types that no set can be told apart by are warned of: each that holds no letter or digit
/// of ASCII, and no other.
pub proof fn unusable_types_are_warned_of(devices: Seq<(Seq<char>, DeviceConfig)>, i: int)
    requires
        0 <= i < devices.len(),
    ensures
        devices[i].1.kind() matches Some(t) ==> (letters(t).len() == 0 ==> unusable_warnings(
            devices,
        ).contains(unusable_warning(t))),
        (forall|k: int|
            0 <= k < devices.len() ==> (#[trigger] devices[k].1.kind() matches Some(t)
                ==> letters(t).len() > 0)) ==> unusable_warnings(devices).len() == 0,
    decreases devices.len(),
{
    let before = devices.drop_last();
    let warnings = unusable_warnings(before);
    let d = devices.last().1;
    if let Some(t) = d.kind() {
        usable_by_its_letters(t);
    }
    if before.len() > 0 {
        let k = if i < before.len() {
            i
        } else {
            0
        };
        unusable_types_are_warned_of(before, k);
        if i < before.len() {
            if let Some(t) = devices[i].1.kind() {
                let w = unusable_warning(t);
                if warnings.contains(w) {
                    let n = choose|n: int| 0 <= n < warnings.len() && warnings[n] == w;
                    assert(unusable_warnings(devices)[n] == w);
                }
            }
        }
        assert forall|n: int| 0 <= n < before.len() implies #[trigger] before[n].1.kind()
            == devices[n].1.kind() by {}
    }
    if i == before.len() {
        if let Some(t) = d.kind() {
            if letters(t).len() == 0 {
                assert(unusable_warnings(devices)[warnings.len() as int] == unusable_warning(t));
            }
        }
    }
    assert(devices[devices.len() - 1].1.kind() == d.kind());
}

proof fn usable_by_its_letters(s: Seq<char>)
    ensures
        usable(s) <==> letters(s).len() > 0,
    decreases s.len(),
{
    if s.len() > 0 {
        let t = s.drop_first();
        usable_by_its_letters(t);
        if usable(t) {
            let i = choose|i: int| 0 <= i < t.len() && alphanumeric(#[trigger] t[i]);
            assert(alphanumeric(s[i + 1]));
        }
        if usable(s) && !alphanumeric(s[0]) {
            let i = choose|i: int| 0 <= i < s.len() && alphanumeric(#[trigger] s[i]);
            assert(alphanumeric(t[i - 1]));
        }
        if alphanumeric(s[0]) {
            assert(usable(s));
        }
    }
}

/// What is no valid key is told, and nothing else is.
pub proof fn invalid_keys_are_told(ps: Seq<ParameterView>, i: int)
    requires
        0 <= i < ps.len(),
    ensures
        !valid_key(ps[i].point) ==> all_bad_keys(ps).contains("point id '"@ + ps[i].point + "'"@),
        !valid_key(ps[i].set) ==> all_bad_keys(ps).contains("parameter set '"@ + ps[i].set + "'"@),
        all_bad_keys(ps).len() == 0 <==> forall|k: int|
            0 <= k < ps.len() ==> valid_key((#[trigger] ps[k]).point) && valid_key(ps[k].set),
    decreases ps.len(),
{
    let before = ps.drop_last();
    let head = all_bad_keys(before);
    let p = ps.last();
    let tail = bad_keys(p);
    let all = head + tail;
    assert(all_bad_keys(ps) == all);
    assert(ps[ps.len() - 1] == p);
    if before.len() > 0 {
        let k = if i < before.len() {
            i
        } else {
            0
        };
        invalid_keys_are_told(before, k);
        assert forall|n: int| 0 <= n < before.len() implies #[trigger] before[n] == ps[n] by {}
        if i < before.len() {
            let a = "point id '"@ + ps[i].point + "'"@;
            let b = "parameter set '"@ + ps[i].set + "'"@;
            if head.contains(a) {
                let n = choose|n: int| 0 <= n < head.len() && head[n] == a;
                assert(all[n] == a);
            }
            if head.contains(b) {
                let n = choose|n: int| 0 <= n < head.len() && head[n] == b;
                assert(all[n] == b);
            }
        }
        if all.len() == 0 {
            assert forall|n: int| 0 <= n < ps.len() implies valid_key((#[trigger] ps[n]).point)
                && valid_key(ps[n].set) by {
                if n < before.len() {
                    assert(before[n] == ps[n]);
                }
            }
        }
    }
    if i == before.len() {
        if !valid_key(p.point) {
            assert(all[head.len() as int] == "point id '"@ + p.point + "'"@);
        }
        if !valid_key(p.set) {
            assert(all[all.len() - 1] == "parameter set '"@ + p.set + "'"@);
        }
    }
}

/// Whether a device that exposes parameters is of that type.
pub open spec fn declares(devices: Seq<(Seq<char>, DeviceConfig)>, t: Seq<char>) -> bool {
    exists|i: int|
        0 <= i < devices.len() && (#[trigger] devices[i]).1.kind() == Some(t) && has_parameters(
            devices[i].1,
        )
}

/// Whether a type stands in the group of that set name.
pub open spec fn grouped(groups: Seq<TypeGroup>, key: Seq<char>, t: Seq<char>) -> bool {
    exists|k: int|
        0 <= k < groups.len() && (#[trigger] groups[k]).key == key && groups[k].types.contains(t)
}

spec fn groups_apart(groups: Seq<TypeGroup>) -> bool {
    &&& forall|i: int, j: int|
        0 <= i < j < groups.len() ==> (#[trigger] groups[i]).key != (#[trigger] groups[j]).key
    &&& forall|i: int| 0 <= i < groups.len() ==> (#[trigger] groups[i]).types.no_duplicates()
}

proof fn group_place(groups: Seq<TypeGroup>, key: Seq<char>) -> (i: int)
    ensures
        0 <= i <= groups.len(),
        forall|j: int| 0 <= j < i ==> (#[trigger] groups[j]).key != key,
        i < groups.len() ==> groups[i].key == key,
    decreases groups.len(),
{
    if groups.len() == 0 {
        0
    } else {
        let i = group_place(groups.drop_last(), key);
        assert forall|j: int| 0 <= j < i implies (#[trigger] groups[j]).key != key by {
            assert(groups.drop_last()[j] == groups[j]);
        }
        if i < groups.len() - 1 {
            assert(groups.drop_last()[i] == groups[i]);
            i
        } else if groups.last().key == key {
            i
        } else {
            i + 1
        }
    }
}

proof fn type_is_grouped(
    groups: Seq<TypeGroup>,
    key: Seq<char>,
    t: Seq<char>,
    other: Seq<char>,
    u: Seq<char>,
)
    requires
        groups_apart(groups),
    ensures
        groups_apart(with_type(groups, key, t)),
        grouped(with_type(groups, key, t), other, u) <==> grouped(groups, other, u) || (other == key
            && u == t),
{
    let i = group_place(groups, key);
    with_type_at(groups, key, t, i);
    let after = with_type(groups, key, t);
    if i < groups.len() {
        with_distinct_keeps_distinct(groups[i].types, t);
        assert(after[i].types.contains(t));
    } else {
        assert(after[i].types[0] == t);
        assert(after[i].types.contains(t));
    }
    if grouped(groups, other, u) {
        let k = choose|k: int|
            0 <= k < groups.len() && (#[trigger] groups[k]).key == other
                && groups[k].types.contains(u);
        assert(after[k].key == other && after[k].types.contains(u));
    }
    if other == key && u == t {
        assert(after[i].key == other && after[i].types.contains(u));
    }
    if grouped(after, other, u) {
        let k = choose|k: int|
            0 <= k < after.len() && (#[trigger] after[k]).key == other
                && after[k].types.contains(u);
        if k < groups.len() {
            assert(groups[k].key == other);
            if u != t || other != key {
                assert(groups[k].types.contains(u));
            }
        }
    }
}

proof fn types_are_grouped(
    devices: Seq<(Seq<char>, DeviceConfig)>,
    key: Seq<char>,
    t: Seq<char>,
)
    ensures
        groups_apart(type_groups(devices)),
        grouped(type_groups(devices), key, t) <==> key == set_of(t, "control"@) && declares(
            devices,
            t,
        ),
    decreases devices.len(),
{
    if devices.len() > 0 {
        let before = devices.drop_last();
        let d = devices.last().1;
        types_are_grouped(before, key, t);
        if let Some(u) = d.kind() {
            if has_parameters(d) {
                type_is_grouped(type_groups(before), set_of(u, "control"@), u, key, t);
            }
        }
        if declares(before, t) {
            let i = choose|i: int|
                0 <= i < before.len() && (#[trigger] before[i]).1.kind() == Some(t)
                    && has_parameters(before[i].1);
            assert(devices[i] == before[i]);
        }
        if declares(devices, t) {
            let i = choose|i: int|
                0 <= i < devices.len() && (#[trigger] devices[i]).1.kind() == Some(t)
                    && has_parameters(devices[i].1);
            if i < before.len() {
                assert(before[i] == devices[i]);
            }
        }
        assert(devices[devices.len() - 1].1 == d);
    }
}

proof fn collision_is_warned_of(groups: Seq<TypeGroup>, k: int)
    requires
        0 <= k < groups.len(),
        groups[k].types.len() > 1,
    ensures
        collision_warnings(groups).contains(collision_warning(groups[k])),
    decreases groups.len(),
{
    let head = collision_warnings(groups.drop_last());
    let w = collision_warning(groups[k]);
    if k == groups.len() - 1 {
        assert(collision_warnings(groups)[head.len() as int] == w);
    } else {
        collision_is_warned_of(groups.drop_last(), k);
        let n = choose|n: int| 0 <= n < head.len() && head[n] == w;
        assert(collision_warnings(groups)[n] == w);
    }
}

proof fn warning_is_of_a_collision(groups: Seq<TypeGroup>) -> (k: int)
    requires
        collision_warnings(groups).len() > 0,
    ensures
        0 <= k < groups.len(),
        groups[k].types.len() > 1,
    decreases groups.len(),
{
    if groups.last().types.len() > 1 {
        groups.len() - 1
    } else {
        warning_is_of_a_collision(groups.drop_last())
    }
}

/// Two types of devices with parameters that derive one set name are warned of together.
pub proof fn colliding_types_are_warned_of(
    devices: Seq<(Seq<char>, DeviceConfig)>,
    t: Seq<char>,
    u: Seq<char>,
) -> (g: TypeGroup)
    requires
        declares(devices, t),
        declares(devices, u),
        t != u,
        set_of(t, "control"@) == set_of(u, "control"@),
    ensures
        warnings_of(devices).contains(collision_warning(g)),
        g.key == set_of(t, "control"@),
        g.types.contains(t),
        g.types.contains(u),
{
    let groups = type_groups(devices);
    let key = set_of(t, "control"@);
    types_are_grouped(devices, key, t);
    types_are_grouped(devices, key, u);
    let k = choose|k: int|
        0 <= k < groups.len() && (#[trigger] groups[k]).key == key && groups[k].types.contains(t);
    let j = choose|j: int|
        0 <= j < groups.len() && (#[trigger] groups[j]).key == key && groups[j].types.contains(u);
    assert(k == j);
    let g = groups[k];
    let a = choose|a: int| 0 <= a < g.types.len() && g.types[a] == t;
    let b = choose|b: int| 0 <= b < g.types.len() && g.types[b] == u;
    assert(a != b);
    collision_is_warned_of(groups, k);
    let own = unusable_warnings(devices);
    let all = collision_warnings(groups);
    let n = choose|n: int| 0 <= n < all.len() && all[n] == collision_warning(g);
    assert(warnings_of(devices)[own.len() + n] == collision_warning(g));
    g
}

/// Where no two types derive one set name, nothing is said of any.
pub proof fn distinct_types_are_not_warned_of(devices: Seq<(Seq<char>, DeviceConfig)>)
    requires
        forall|t: Seq<char>, u: Seq<char>|
            #![trigger declares(devices, t), declares(devices, u)]
            declares(devices, t) && declares(devices, u) && t != u ==> set_of(t, "control"@)
                != set_of(u, "control"@),
    ensures
        collision_warnings(type_groups(devices)).len() == 0,
{
    let groups = type_groups(devices);
    if collision_warnings(groups).len() > 0 {
        let k = warning_is_of_a_collision(groups);
        let g = groups[k];
        let t = g.types[0];
        let u = g.types[1];
        types_are_grouped(devices, g.key, t);
        types_are_grouped(devices, g.key, u);
        assert(g.types.contains(t) && g.types.contains(u));
        assert(grouped(groups, g.key, t));
        assert(grouped(groups, g.key, u));
        assert(declares(devices, t) && declares(devices, u));
    }
}

proof fn with_protocol_contains(protocol: Seq<char>, devices: Seq<DeviceConfig>, p: Seq<char>, d: DeviceConfig)
    ensures
        with_protocol(protocol, devices).contains((p, d)) <==> p == protocol && devices.contains(d),
{
    let all = with_protocol(protocol, devices);
    if all.contains((p, d)) {
        let i = choose|i: int| 0 <= i < all.len() && all[i] == (p, d);
        assert(devices[i] == d);
    }
    if p == protocol && devices.contains(d) {
        let i = choose|i: int| 0 <= i < devices.len() && devices[i] == d;
        assert(all[i] == (p, d));
    }
}

/// Whether a configuration is of that protocol and has that device.
pub open spec fn has_device(c: ConnectorConfig, p: Seq<char>, d: DeviceConfig) -> bool {
    c.connector.protocol@ == p && c.devices@.contains(d)
}

/// The devices of configurations are those of each, with the protocol that it speaks.
pub proof fn devices_speak_their_protocol(
    configs: Seq<ConnectorConfig>,
    p: Seq<char>,
    d: DeviceConfig,
)
    ensures
        all_devices(configs).contains((p, d)) <==> exists|i: int|
            0 <= i < configs.len() && has_device(#[trigger] configs[i], p, d),
    decreases configs.len(),
{
    if configs.len() > 0 {
        let before = configs.drop_last();
        let c = configs.last();
        let head = all_devices(before);
        let tail = with_protocol(c.connector.protocol@, c.devices@);
        let all = all_devices(configs);
        devices_speak_their_protocol(before, p, d);
        with_protocol_contains(c.connector.protocol@, c.devices@, p, d);
        assert(all == head + tail);
        assert(configs[configs.len() - 1] == c);
        if head.contains((p, d)) {
            let k = choose|k: int| 0 <= k < head.len() && head[k] == (p, d);
            assert(all[k] == (p, d));
            let i = choose|i: int|
                0 <= i < before.len() && has_device(#[trigger] before[i], p, d);
            assert(configs[i] == before[i]);
        }
        if tail.contains((p, d)) {
            let k = choose|k: int| 0 <= k < tail.len() && tail[k] == (p, d);
            assert(all[head.len() + k] == (p, d));
        }
        if all.contains((p, d)) {
            let k = choose|k: int| 0 <= k < all.len() && all[k] == (p, d);
            if k < head.len() {
                assert(head[k] == (p, d));
            } else {
                assert(tail[k - head.len()] == (p, d));
            }
        }
        if exists|i: int| 0 <= i < configs.len() && has_device(#[trigger] configs[i], p, d) {
            let i = choose|i: int|
                0 <= i < configs.len() && has_device(#[trigger] configs[i], p, d);
            if i < before.len() {
                assert(before[i] == configs[i]);
            }
        }
    }
}

/// What is no valid key of any configuration is told, and nothing where all keys are valid.
pub proof fn invalid_keys_of_each_configuration_are_told(
    configs: Seq<ConnectorConfig>,
    forced: Option<Seq<char>>,
)
    ensures
        bad_keys_across(configs, forced).len() == 0 <==> forall|i: int|
            0 <= i < configs.len() ==> all_bad_keys(
                config_parameters(#[trigger] configs[i], forced),
            ).len() == 0,
    decreases configs.len(),
{
    if configs.len() > 0 {
        let before = configs.drop_last();
        invalid_keys_of_each_configuration_are_told(before, forced);
        assert(configs[configs.len() - 1] == configs.last());
        assert forall|i: int| 0 <= i < before.len() implies #[trigger] before[i] == configs[i] by {}
        if bad_keys_across(configs, forced).len() == 0 {
            assert forall|i: int| 0 <= i < configs.len() implies all_bad_keys(
                config_parameters(#[trigger] configs[i], forced),
            ).len() == 0 by {
                if i < before.len() {
                    assert(before[i] == configs[i]);
                }
            }
        }
        if forall|i: int|
            0 <= i < configs.len() ==> all_bad_keys(
                config_parameters(#[trigger] configs[i], forced),
            ).len() == 0 {
            assert forall|i: int| 0 <= i < before.len() implies all_bad_keys(
                config_parameters(#[trigger] before[i], forced),
            ).len() == 0 by {
                assert(configs[i] == before[i]);
            }
        }
    }
}

} // verus!
