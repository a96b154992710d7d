//! Whether a connector keeps the contract, by what it published: the facts of its configuration,
//! and what its manifests and its readings have to say.
use crate::config::{ConnectorConfig, DeviceConfig, PointConfig, PublishPolicy, Range};
use crate::connector::{access_of, Access};
use crate::inspect::numeral_option;
use crate::json::{
    copy_json, member, numeral_as_u64, text_member, view_of, Json, JsonNumber, JsonView, Numeral,
};
use crate::model::{DataType, Mode};
use crate::text::{
    as_deref, concat3, copy_text, same_text, split, split_of_joined, split_of_plain, split_parts,
    text_of, texts,
};
use vstd::prelude::*;

verus! {

/// A configured point, as far as it is checked.
#[derive(Debug, PartialEq)]
pub struct Point {
    pub device: String,
    pub id: String,
    pub mode: Mode,
    pub datatype: Option<DataType>,
    pub access: Access,
    pub unit: Option<String>,
    pub meta: Option<Json>,
    pub range: Option<Range>,
    pub publish: Option<PublishPolicy>,
    pub measurement: Option<Json>,
    pub address: Json,
    /// The first bit and how many, where the point is some bits of what its address holds.
    pub bitfield: Option<(u32, u32)>,
}

/// What a range is.
#[verifier::ext_equal]
pub struct RangeView {
    pub min: Option<Numeral>,
    pub max: Option<Numeral>,
}

/// What a publish policy is.
#[verifier::ext_equal]
pub struct PolicyView {
    pub on_change: Option<bool>,
    pub deadband: Option<Numeral>,
    pub min_interval: Option<Seq<char>>,
    pub debounce: Option<Seq<char>>,
}

/// What a checked point is.
#[verifier::ext_equal]
pub struct CheckedView {
    pub device: Seq<char>,
    pub id: Seq<char>,
    pub mode: Mode,
    pub datatype: Option<DataType>,
    pub access: Access,
    pub unit: Option<Seq<char>>,
    pub meta: Option<JsonView>,
    pub range: Option<RangeView>,
    pub publish: Option<PolicyView>,
    pub measurement: Option<JsonView>,
    pub address: JsonView,
    pub bitfield: Option<(u32, u32)>,
}

pub open spec fn range_view(r: Option<Range>) -> Option<RangeView> {
    match r {
        Some(x) => Some(
            RangeView { min: numeral_option(x.min), max: numeral_option(x.max) },
        ),
        None => None,
    }
}

pub open spec fn policy_view(p: Option<PublishPolicy>) -> Option<PolicyView> {
    match p {
        Some(x) => Some(
            PolicyView {
                on_change: x.on_change,
                deadband: numeral_option(x.deadband),
                min_interval: text_of(x.min_interval),
                debounce: text_of(x.debounce),
            },
        ),
        None => None,
    }
}

impl View for Point {
    type V = CheckedView;

    open spec fn view(&self) -> CheckedView {
        CheckedView {
            device: self.device@,
            id: self.id@,
            mode: self.mode,
            datatype: self.datatype,
            access: self.access,
            unit: text_of(self.unit),
            meta: view_of(self.meta),
            range: range_view(self.range),
            publish: policy_view(self.publish),
            measurement: view_of(self.measurement),
            address: self.address@,
            bitfield: self.bitfield,
        }
    }
}

/// What each point is.
pub open spec fn checked_views(v: Seq<Point>) -> Seq<CheckedView> {
    v.map_values(|p: Point| p@)
}

/// An integer from 0 on under a key.
pub open spec fn unsigned_member(v: JsonView, key: Seq<char>) -> Option<u64> {
    match member(v, key) {
        Some(JsonView::Number(n)) => numeral_as_u64(n),
        _ => None,
    }
}

/// The bits that an address names.
pub open spec fn bits_of(address: JsonView) -> Option<(u32, u32)> {
    match (unsigned_member(address, "start_bit"@), unsigned_member(address, "bit_count"@)) {
        (Some(first), Some(count)) => Some((first as u32, count as u32)),
        _ => None,
    }
}

/// A point of a device, as far as it is checked.
pub open spec fn checked_point(device: DeviceConfig, p: PointConfig) -> CheckedView {
    CheckedView {
        device: device.name@,
        id: p.id@,
        mode: crate::config::resolved(p.mode, device.default_mode),
        datatype: p.datatype,
        access: access_of(text_of(p.access)),
        unit: text_of(p.unit),
        meta: view_of(p.meta),
        range: range_view(p.range),
        publish: policy_view(p.publish),
        measurement: view_of(p.measurement),
        address: p.address@,
        bitfield: bits_of(p.address@),
    }
}

/// The points of the first `n` devices.
pub open spec fn checked_points(devices: Seq<DeviceConfig>, n: int) -> Seq<CheckedView>
    decreases n,
{
    if n <= 0 {
        Seq::empty()
    } else {
        let d = devices[n - 1];
        checked_points(devices, n - 1) + d.points@.map_values(
            |p: PointConfig| checked_point(d, p),
        )
    }
}

fn unsigned_at(v: &Json, key: &str) -> (r: Option<u64>)
    ensures
        r == unsigned_member(v@, key@),
{
    match v.get(key) {
        Some(x) => {
            proof {
                x.lemma_view();
            }
            match x {
                Json::Number(n) => n.as_u64(),
                _ => None,
            }
        },
        None => None,
    }
}

fn copy_number(n: &Option<JsonNumber>) -> (r: Option<JsonNumber>)
    ensures
        numeral_option(r) == numeral_option(*n),
{
    match n {
        Some(x) => Some(x.clone()),
        None => None,
    }
}

fn resolve_point(device: &DeviceConfig, p: &PointConfig) -> (r: Point)
    ensures
        r@ == checked_point(*device, *p),
{
    let bitfield: Option<(u32, u32)> = match (
        unsigned_at(&p.address, "start_bit"),
        unsigned_at(&p.address, "bit_count"),
    ) {
        (Some(first), Some(count)) => Some(
            (#[verifier::truncate] (first as u32), #[verifier::truncate] (count as u32)),
        ),
        _ => None,
    };
    let range: Option<Range> = match &p.range {
        Some(r) => Some(Range { min: copy_number(&r.min), max: copy_number(&r.max) }),
        None => None,
    };
    let publish: Option<PublishPolicy> = match &p.publish {
        Some(x) => Some(
            PublishPolicy {
                on_change: x.on_change,
                deadband: copy_number(&x.deadband),
                min_interval: copy_text(&x.min_interval),
                debounce: copy_text(&x.debounce),
            },
        ),
        None => None,
    };
    Point {
        device: device.name.clone(),
        id: p.id.clone(),
        mode: p.resolved_mode(device.default_mode),
        datatype: p.datatype,
        access: Access::parse(as_deref(&p.access)),
        unit: copy_text(&p.unit),
        meta: copy_json(&p.meta),
        range,
        publish,
        measurement: copy_json(&p.measurement),
        address: p.address.clone(),
        bitfield,
    }
}

/// The points of a configuration, as far as they are checked.
pub fn resolve_points(config: &ConnectorConfig) -> (r: Vec<Point>)
    ensures
        checked_views(r@) == checked_points(config.devices@, config.devices@.len() as int),
{
    let mut out: Vec<Point> = Vec::new();
    let mut i: usize = 0;
    assert(checked_views(out@) =~= Seq::<CheckedView>::empty());
    while i < config.devices.len()
        invariant
            i <= config.devices@.len(),
            checked_views(out@) == checked_points(config.devices@, i as int),
        decreases config.devices@.len() - i,
    {
        let device: &DeviceConfig = &config.devices[i];
        let ghost head = checked_views(out@);
        let ghost tail = device.points@.map_values(|p: PointConfig| checked_point(*device, p));
        let mut j: usize = 0;
        assert(head + tail.take(0) =~= head);
        while j < device.points.len()
            invariant
                j <= device.points@.len(),
                tail == device.points@.map_values(|p: PointConfig| checked_point(*device, p)),
                checked_views(out@) == head + tail.take(j as int),
            decreases device.points@.len() - j,
        {
            let p: Point = resolve_point(device, &device.points[j]);
            let ghost was = checked_views(out@);
            out.push(p);
            assert(checked_views(out@) =~= was.push(p@));
            assert(was.push(p@) =~= head + tail.take(j + 1));
            j = j + 1;
        }
        assert(tail.take(tail.len() as int) =~= tail);
        i = i + 1;
    }
    out
}

/// The topic of a command for a device.
pub open spec fn command_topic(
    device: Seq<char>,
    protocol: Seq<char>,
    verb: Seq<char>,
    id: Seq<char>,
) -> Seq<char> {
    "te/device/"@ + device + "/ot/"@ + protocol + "/cmd/"@ + verb + "/"@ + id
}

/// The topic of a command for a device.
pub fn cmd_topic(device: &str, protocol: &str, verb: &str, id: &str) -> (r: String)
    ensures
        r@ == command_topic(device@, protocol@, verb@, id@),
{
    let mut out: String = concat3("te/device/", device, "/ot/");
    out.append(protocol);
    out.append("/cmd/");
    out.append(verb);
    out.append("/");
    out.append(id);
    out
}

/// Whether the levels of a topic match those of a filter: `+` stands for any one level, `#` for
/// all that follow.
pub open spec fn levels_match(filter: Seq<Seq<char>>, topic: Seq<Seq<char>>) -> bool
    decreases filter.len(),
{
    if filter.len() == 0 {
        topic.len() == 0
    } else if filter[0] == "#"@ {
        true
    } else {
        topic.len() > 0 && (filter[0] == "+"@ || filter[0] == topic[0]) && levels_match(
            filter.drop_first(),
            topic.drop_first(),
        )
    }
}

/// Whether a topic matches a filter.
pub open spec fn matches_filter(filter: Seq<char>, topic: Seq<char>) -> bool {
    levels_match(split_parts(filter, '/'), split_parts(topic, '/'))
}

/// Whether a topic matches a filter.
pub fn topic_matches(filter: &str, topic: &str) -> (r: bool)
    ensures
        r == matches_filter(filter@, topic@),
{
    let f: Vec<String> = split(filter, '/');
    let t: Vec<String> = split(topic, '/');
    let ghost fs = texts(f@);
    let ghost ts = texts(t@);
    let mut i: usize = 0;
    assert(fs.skip(0) =~= fs);
    assert(ts.skip(0) =~= ts);
    while i < f.len()
        invariant
            i <= f@.len(),
            i <= t@.len(),
            fs == texts(f@),
            fs == split_parts(filter@, '/'),
            ts == texts(t@),
            ts == split_parts(topic@, '/'),
            levels_match(fs, ts) == levels_match(fs.skip(i as int), ts.skip(i as int)),
        decreases f@.len() - i,
    {
        let ghost fr = fs.skip(i as int);
        let ghost tr = ts.skip(i as int);
        assert(fr[0] == f@[i as int]@);
        assert(fr.drop_first() =~= fs.skip(i + 1));
        if same_text(f[i].as_str(), "#") {
            return true;
        }
        if i >= t.len() {
            return false;
        }
        assert(tr[0] == t@[i as int]@);
        assert(tr.drop_first() =~= ts.skip(i + 1));
        if !same_text(f[i].as_str(), "+") && !same_text(f[i].as_str(), t[i].as_str()) {
            return false;
        }
        i = i + 1;
    }
    i == t.len()
}

/// A filter without wildcards matches the topic that it is, and no other.
pub proof fn plain_filters_match_themselves(filter: Seq<Seq<char>>, topic: Seq<Seq<char>>)
    requires
        forall|i: int|
            0 <= i < filter.len() ==> (#[trigger] filter[i]) != "#"@ && filter[i] != "+"@,
    ensures
        levels_match(filter, topic) <==> filter == topic,
    decreases filter.len(),
{
    if filter.len() > 0 && topic.len() > 0 {
        let f = filter.drop_first();
        let t = topic.drop_first();
        assert forall|i: int| 0 <= i < f.len() implies (#[trigger] f[i]) != "#"@ && f[i] != "+"@ by {
            assert(f[i] == filter[i + 1]);
        }
        assert(filter[0] != "#"@ && filter[0] != "+"@);
        plain_filters_match_themselves(f, t);
        if f == t && filter[0] == topic[0] {
            assert(filter =~= seq![filter[0]] + f);
            assert(topic =~= seq![topic[0]] + t);
        }
    } else if filter.len() == 0 {
        assert(topic.len() == 0 ==> filter =~= topic);
    } else {
        assert(filter[0] != "#"@);
    }
}

/// Every topic matches itself as a filter.
pub proof fn topics_match_themselves(levels: Seq<Seq<char>>)
    ensures
        levels_match(levels, levels),
    decreases levels.len(),
{
    if levels.len() > 0 {
        topics_match_themselves(levels.drop_first());
    }
}

proof fn levels_match_in_parts(
    filter: Seq<Seq<char>>,
    topic: Seq<Seq<char>>,
    more_filter: Seq<Seq<char>>,
    more_topic: Seq<Seq<char>>,
)
    requires
        levels_match(filter, topic),
        levels_match(more_filter, more_topic),
    ensures
        levels_match(filter + more_filter, topic + more_topic),
    decreases filter.len(),
{
    if filter.len() == 0 {
        assert(filter + more_filter =~= more_filter);
        assert(topic + more_topic =~= more_topic);
    } else {
        assert((filter + more_filter)[0] == filter[0]);
        if filter[0] != "#"@ {
            levels_match_in_parts(
                filter.drop_first(),
                topic.drop_first(),
                more_filter,
                more_topic,
            );
            assert((filter + more_filter).drop_first() =~= filter.drop_first() + more_filter);
            assert((topic + more_topic).drop_first() =~= topic.drop_first() + more_topic);
        }
    }
}

/// Topics match as filters do that are put together level by level.
pub proof fn filters_match_in_parts(
    filter: Seq<char>,
    topic: Seq<char>,
    more_filter: Seq<char>,
    more_topic: Seq<char>,
)
    requires
        matches_filter(filter, topic),
        matches_filter(more_filter, more_topic),
    ensures
        matches_filter(filter + seq!['/'] + more_filter, topic + seq!['/'] + more_topic),
{
    split_of_joined(filter, more_filter, '/');
    split_of_joined(topic, more_topic, '/');
    levels_match_in_parts(
        split_parts(filter, '/'),
        split_parts(topic, '/'),
        split_parts(more_filter, '/'),
        split_parts(more_topic, '/'),
    );
}

/// `+` matches every text that is one level.
pub proof fn plus_matches_one_level(level: Seq<char>)
    requires
        !level.contains('/'),
    ensures
        matches_filter("+"@, level),
{
    reveal_strlit("+");
    split_of_plain("+"@, '/');
    split_of_plain(level, '/');
    let filter = seq!["+"@];
    let topic = seq![level];
    assert(levels_match(filter.drop_first(), topic.drop_first()));
    assert(levels_match(filter, topic));
}

/// A message that was captured, with the value that its payload is where it is one.
#[derive(Debug, PartialEq)]
pub struct Captured {
    pub client: String,
    pub topic: String,
    pub retain: bool,
    pub json: Option<Json>,
}

/// The text under a key of a message's value.
pub open spec fn told(c: Captured, key: Seq<char>) -> Option<Seq<char>> {
    match c.json {
        Some(v) => text_member(v@, key),
        None => None,
    }
}

/// A message on a topic that tells that status, kept or not.
pub open spec fn tells_status(c: Captured, topic: Seq<char>, status: Seq<char>, kept: bool) -> bool {
    c.topic@ == topic && (kept ==> c.retain) && told(c, "status"@) == Some(status)
}

/// Whether a message on a topic tells that status.
pub fn is_status(c: &Captured, topic: &str, status: &str, kept: bool) -> (r: bool)
    ensures
        r == tells_status(*c, topic@, status@, kept),
{
    if !same_text(c.topic.as_str(), topic) || (kept && !c.retain) {
        return false;
    }
    match &c.json {
        Some(v) => match v.get_str("status") {
            Some(s) => same_text(s, status),
            None => false,
        },
        None => false,
    }
}

/// A text in another.
pub open spec fn contains_part(s: Seq<char>, part: Seq<char>) -> bool {
    exists|i: int|
        #![trigger s.subrange(i, i + part.len())]
        0 <= i && i + part.len() <= s.len() && s.subrange(i, i + part.len()) == part
}

/// Whether a text is in another.
pub fn has_part(s: &str, part: &str) -> (r: bool)
    ensures
        r == contains_part(s@, part@),
{
    let n: usize = s.unicode_len();
    let k: usize = part.unicode_len();
    if k > n {
        return false;
    }
    let mut i: usize = 0;
    while i <= n - k
        invariant
            k <= n == s@.len(),
            k == part@.len(),
            i <= n - k + 1,
            forall|j: int| 0 <= j < i ==> #[trigger] s@.subrange(j, j + k) != part@,
        decreases n - k + 1 - i,
    {
        if same_text(s.substring_char(i, i + k), part) {
            assert(s@.subrange(i as int, i + part@.len()) == part@);
            return true;
        }
        if i == n - k {
            return false;
        }
        i = i + 1;
    }
    false
}

/// A reading of a point, by its topic.
pub open spec fn is_sample_topic(topic: Seq<char>) -> bool {
    contains_part(topic, "/sample/"@)
}

/// A reading of that quality.
pub open spec fn is_reading(c: Captured, quality: Seq<char>) -> bool {
    is_sample_topic(c.topic@) && told(c, "quality"@) == Some(quality)
}

/// Whether a message is a reading of that quality.
pub fn reads_as(c: &Captured, quality: &str) -> (r: bool)
    ensures
        r == is_reading(*c, quality@),
{
    if !has_part(c.topic.as_str(), "/sample/") {
        return false;
    }
    match &c.json {
        Some(v) => match v.get_str("quality") {
            Some(s) => same_text(s, quality),
            None => false,
        },
        None => false,
    }
}

/// The topic of a link status.
pub open spec fn is_link_topic(topic: Seq<char>) -> bool {
    crate::text::stripped_suffix(topic, "/status/link"@) is Some
}

/// A sign that a device is lost: a reading that is none, or a link that is not up.
pub open spec fn reports_loss(c: Captured) -> bool {
    is_reading(c, "bad"@) || (is_link_topic(c.topic@) && (told(c, "status"@) == Some("degraded"@)
        || told(c, "status"@) == Some("disconnected"@)))
}

/// Whether a message is a sign that a device is lost.
pub fn shows_loss(c: &Captured) -> (r: bool)
    ensures
        r == reports_loss(*c),
{
    if reads_as(c, "bad") {
        return true;
    }
    if crate::text::strip_suffix(c.topic.as_str(), "/status/link").is_none() {
        return false;
    }
    match &c.json {
        Some(v) => match v.get_str("status") {
            Some(s) => same_text(s, "degraded") || same_text(s, "disconnected"),
            None => false,
        },
        None => false,
    }
}

/// Whether a message is a sign that the connector works at all.
pub fn shows_life(c: &Captured) -> (r: bool)
    ensures
        r == (is_sample_topic(c.topic@) || is_link_topic(c.topic@)),
{
    has_part(c.topic.as_str(), "/sample/") || crate::text::strip_suffix(
        c.topic.as_str(),
        "/status/link",
    ).is_some()
}

/// A point is checked for what is configured for it.
pub proof fn points_are_checked_as_configured(
    device: DeviceConfig,
    p: PointConfig,
    first: u32,
    count: u32,
)
    ensures
        ({
            let c = checked_point(device, p);
            &&& c.device == device.name@
            &&& c.id == p.id@
            &&& p.mode matches Some(m) ==> c.mode == m
            &&& p.mode is None ==> (device.default_mode matches Some(m) ==> c.mode == m)
            &&& c.datatype == p.datatype
            &&& c.access == access_of(text_of(p.access))
            &&& c.unit == text_of(p.unit)
            &&& c.meta == view_of(p.meta)
            &&& c.measurement == view_of(p.measurement)
            &&& c.address == p.address@
            &&& c.range is Some <==> p.range is Some
            &&& p.range matches Some(r) ==> (c.range matches Some(x) && x.min == numeral_option(
                r.min,
            ) && x.max == numeral_option(r.max))
            &&& c.publish is Some <==> p.publish is Some
            &&& p.publish matches Some(r) ==> (c.publish matches Some(x) && x.on_change
                == r.on_change && x.deadband == numeral_option(r.deadband) && x.min_interval
                == text_of(r.min_interval) && x.debounce == text_of(r.debounce))
            &&& unsigned_member(p.address@, "start_bit"@) == Some(first as u64) && unsigned_member(
                p.address@,
                "bit_count"@,
            ) == Some(count as u64) ==> c.bitfield == Some((first, count))
            &&& unsigned_member(p.address@, "start_bit"@) is None || unsigned_member(
                p.address@,
                "bit_count"@,
            ) is None ==> c.bitfield is None
        }),
{
}

/// Whether a checked point is one of the device.
pub open spec fn is_checked_of(device: DeviceConfig, c: CheckedView) -> bool {
    exists|k: int|
        0 <= k < device.points@.len() && c == checked_point(device, #[trigger] device.points@[k])
}

/// Every point of every device is checked, and nothing else is.
pub proof fn every_point_is_checked(devices: Seq<DeviceConfig>, n: int, c: CheckedView)
    requires
        0 <= n <= devices.len(),
    ensures
        checked_points(devices, n).contains(c) <==> exists|d: int|
            0 <= d < n && is_checked_of(#[trigger] devices[d], c),
    decreases n,
{
    if n > 0 {
        every_point_is_checked(devices, n - 1, c);
        let d = devices[n - 1];
        let head = checked_points(devices, n - 1);
        let tail = d.points@.map_values(|p: PointConfig| checked_point(d, p));
        let all = checked_points(devices, n);
        assert(all == head + tail);
        if head.contains(c) {
            let i = choose|i: int| 0 <= i < head.len() && head[i] == c;
            assert(all[i] == c);
        }
        if is_checked_of(d, c) {
            let k = choose|k: int|
                0 <= k < d.points@.len() && c == checked_point(d, #[trigger] d.points@[k]);
            assert(all[head.len() + k] == c);
        }
        if all.contains(c) {
            let i = choose|i: int| 0 <= i < all.len() && all[i] == c;
            if i < head.len() {
                assert(head[i] == c);
            } else {
                assert(c == checked_point(d, d.points@[i - head.len()]));
                assert(is_checked_of(d, c));
            }
        }
    }
}

/// Whether a message tells that a device is lost: a bad reading does, and a link that is degraded
/// or disconnected does; a good reading and a link that is up do not.
pub proof fn losses_are_told_by_readings_and_links(c: Captured)
    ensures
        is_sample_topic(c.topic@) && told(c, "quality"@) == Some("bad"@) ==> reports_loss(c),
        is_link_topic(c.topic@) && (told(c, "status"@) == Some("degraded"@) || told(c, "status"@)
            == Some("disconnected"@)) ==> reports_loss(c),
        !is_sample_topic(c.topic@) && !is_link_topic(c.topic@) ==> !reports_loss(c),
        told(c, "quality"@) == Some("good"@) && told(c, "status"@) is None ==> !reports_loss(c),
        told(c, "quality"@) is None && told(c, "status"@) == Some("connected"@) ==> !reports_loss(c),
{
    reveal_strlit("good");
    reveal_strlit("bad");
    reveal_strlit("connected");
    reveal_strlit("degraded");
    reveal_strlit("disconnected");
    assert("good"@.len() == 4 && "bad"@.len() == 3);
    assert("connected"@.len() == 9 && "degraded"@.len() == 8 && "disconnected"@.len() == 12);
}

/// A message tells a status where it stands on the topic and says so, and is kept where that is
/// asked for.
pub proof fn statuses_are_told_on_their_topic(
    c: Captured,
    topic: Seq<char>,
    status: Seq<char>,
    kept: bool,
)
    ensures
        tells_status(c, topic, status, kept) ==> c.topic@ == topic && told(c, "status"@) == Some(
            status,
        ),
        tells_status(c, topic, status, true) <==> tells_status(c, topic, status, false) && c.retain,
        c.topic@ == topic && told(c, "status"@) == Some(status) ==> tells_status(
            c,
            topic,
            status,
            false,
        ),
{
}

} // verus!
