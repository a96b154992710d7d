//! Readings on their way out: what the configuration adds to them, their numbers, their messages.
use crate::config::{ConnectorConfig, DeviceConfig, PointConfig};
use crate::connector::{access_of, access_str, Access};
use crate::json::{
    copy_json, printed, text_view, view_of, with_optional, Fields, Json, JsonObject, JsonView,
};
use crate::keyed::{field, with_field};
use crate::message::{message_of, message_views, Message, MessageView};
use crate::model::{Quality, Sample};
use crate::text::{as_deref, concat3, copy_text, same_text, text_of, texts};
use vstd::prelude::*;

verus! {

/// What the configuration adds to each reading of a point.
#[derive(Debug, PartialEq)]
pub struct PointExtras {
    pub meta: Option<Json>,
    pub access: Access,
    /// The device's declared type.
    pub device_type: Option<String>,
}

/// What is added to a reading.
#[verifier::ext_equal]
pub struct ExtrasView {
    pub meta: Option<JsonView>,
    pub access: Access,
    pub device_type: Option<Seq<char>>,
}

impl View for PointExtras {
    type V = ExtrasView;

    open spec fn view(&self) -> ExtrasView {
        ExtrasView {
            meta: view_of(self.meta),
            access: self.access,
            device_type: text_of(self.device_type),
        }
    }
}

/// A device and one of its points, by their names.
pub type Key = (Seq<char>, Seq<char>);

/// What is added to the readings of each point. Of two entries for one point the later counts.
pub type Extras = Seq<(Key, ExtrasView)>;

/// What is added to the readings of a point.
pub open spec fn extras_of(x: Extras, key: Key) -> Option<ExtrasView>
    decreases x.len(),
{
    if x.len() == 0 {
        None
    } else if x.last().0 == key {
        Some(x.last().1)
    } else {
        extras_of(x.drop_last(), key)
    }
}

/// What is added to the readings of each point.
pub struct MetaIndex {
    entries: Vec<(String, String, PointExtras)>,
}

spec fn entry_view(e: (String, String, PointExtras)) -> (Key, ExtrasView) {
    ((e.0@, e.1@), e.2@)
}

impl View for MetaIndex {
    type V = Extras;

    closed spec fn view(&self) -> Extras {
        self.entries@.map_values(|e: (String, String, PointExtras)| entry_view(e))
    }
}

/// What a configuration adds to the readings of a point.
pub open spec fn configured_extras(device: DeviceConfig, point: PointConfig) -> ExtrasView {
    ExtrasView {
        meta: view_of(point.meta),
        access: access_of(text_of(point.access)),
        device_type: device.kind(),
    }
}

/// The entries with those of a device's points.
pub open spec fn with_points(x: Extras, device: DeviceConfig, points: Seq<PointConfig>) -> Extras
    decreases points.len(),
{
    if points.len() == 0 {
        x
    } else {
        let p = points.last();
        with_points(x, device, points.drop_last()).push(
            ((device.name@, p.id@), configured_extras(device, p)),
        )
    }
}

/// The entries of the points of these devices.
pub open spec fn with_devices(devices: Seq<DeviceConfig>) -> Extras
    decreases devices.len(),
{
    if devices.len() == 0 {
        Seq::empty()
    } else {
        let d = devices.last();
        with_points(with_devices(devices.drop_last()), d, d.points@)
    }
}

impl MetaIndex {
    /// Nothing is added.
    pub fn new() -> (r: MetaIndex)
        ensures
            r@ == Extras::empty(),
    {
        let r = MetaIndex { entries: Vec::new() };
        assert(r@ =~= Extras::empty());
        r
    }

    /// Adds to the readings of a point.
    pub fn insert(&mut self, device: &str, point: &str, extras: PointExtras)
        ensures
            final(self)@ == old(self)@.push(((device@, point@), extras@)),
    {
        let ghost before = self@;
        self.entries.push((device.to_owned(), point.to_owned(), extras));
        assert(self@ =~= before.push(((device@, point@), extras@)));
    }

    /// What is added to the readings of a point.
    pub fn get(&self, device: &str, point: &str) -> (r: Option<&PointExtras>)
        ensures
            match r {
                Some(x) => extras_of(self@, (device@, point@)) == Some(x@),
                None => extras_of(self@, (device@, point@)) is None,
            },
    {
        let ghost all = self@;
        let ghost key = (device@, point@);
        let mut i: usize = self.entries.len();
        assert(all.take(all.len() as int) =~= all);
        while i > 0
            invariant
                i <= self.entries@.len() == all.len(),
                all == self@,
                key == (device@, point@),
                extras_of(all, key) == extras_of(all.take(i as int), key),
            decreases i,
        {
            i = i - 1;
            assert(all.take(i + 1).drop_last() =~= all.take(i as int));
            assert(all.take(i + 1).last() == entry_view(self.entries@[i as int]));
            if same_text(self.entries[i].0.as_str(), device) && same_text(
                self.entries[i].1.as_str(),
                point,
            ) {
                return Some(&self.entries[i].2);
            }
        }
        None
    }
}

/// What a configuration adds to the readings of its points.
pub fn build_meta_index(config: &ConnectorConfig) -> (r: MetaIndex)
    ensures
        r@ == with_devices(config.devices@),
{
    let mut index: MetaIndex = MetaIndex::new();
    let ghost devices = config.devices@;
    let mut i: usize = 0;
    assert(devices.take(0) =~= Seq::<DeviceConfig>::empty());
    while i < config.devices.len()
        invariant
            i <= devices.len(),
            devices == config.devices@,
            index@ == with_devices(devices.take(i as int)),
        decreases devices.len() - i,
    {
        let device: &DeviceConfig = &config.devices[i];
        let ghost before = index@;
        let ghost points = device.points@;
        assert(devices.take(i + 1).drop_last() =~= devices.take(i as int));
        assert(devices.take(i + 1).last() == *device);
        let mut j: usize = 0;
        assert(points.take(0) =~= Seq::<PointConfig>::empty());
        while j < device.points.len()
            invariant
                j <= points.len(),
                points == device.points@,
                index@ == with_points(before, *device, points.take(j as int)),
            decreases points.len() - j,
        {
            let point: &PointConfig = &device.points[j];
            assert(points.take(j + 1).drop_last() =~= points.take(j as int));
            assert(points.take(j + 1).last() == *point);
            let device_type: Option<String> = match device.typed() {
                Some(t) => Some(t.to_owned()),
                None => None,
            };
            let extras = PointExtras {
                meta: copy_json(&point.meta),
                access: Access::parse(as_deref(&point.access)),
                device_type,
            };
            assert(extras@ =~= configured_extras(*device, *point));
            index.insert(device.name.as_str(), point.id.as_str(), extras);
            j = j + 1;
        }
        assert(points.take(points.len() as int) =~= points);
        i = i + 1;
    }
    assert(devices.take(devices.len() as int) =~= devices);
    index
}

/// The fields of a reading as it is published.
pub open spec fn published_fields(s: Sample, debug: bool, extras: Option<ExtrasView>) -> Fields {
    let f = s.envelope_fields(debug);
    match extras {
        Some(x) => {
            let f = with_optional(f, "meta"@, x.meta);
            let f = with_field(f, "access"@, JsonView::Text(x.access.label()));
            with_optional(f, "type"@, text_view(x.device_type))
        },
        None => f,
    }
}

/// A reading as it is published: with what the configuration says of its point.
pub fn envelope_with_meta(sample: &Sample, index: &MetaIndex, debug: bool) -> (r: Json)
    ensures
        r@ == JsonView::Object(
            published_fields(*sample, debug, extras_of(index@, (sample.device@, sample.point@))),
        ),
{
    let mut obj: JsonObject = sample.envelope_object(debug);
    match index.get(sample.device.as_str(), sample.point.as_str()) {
        Some(x) => {
            obj.insert_optional("meta", copy_json(&x.meta));
            obj.insert("access", Json::text(access_str(x.access)));
            obj.insert_text("type", as_deref(&x.device_type));
        },
        None => {},
    }
    Json::of_object(obj)
}

/// The number of the last reading of each point.
pub type Counts = Seq<(Key, u64)>;

/// How many readings a point had.
pub open spec fn count_of(c: Counts, key: Key) -> u64
    decreases c.len(),
{
    if c.len() == 0 {
        0
    } else if c[0].0 == key {
        c[0].1
    } else {
        count_of(c.drop_first(), key)
    }
}

/// The numbers with that of one point set.
pub open spec fn with_count(c: Counts, key: Key, n: u64) -> Counts
    decreases c.len(),
{
    if c.len() == 0 {
        seq![(key, n)]
    } else if c[0].0 == key {
        seq![(key, n)] + c.drop_first()
    } else {
        seq![c[0]] + with_count(c.drop_first(), key, n)
    }
}

/// The number after `n`. The greatest one stays.
pub open spec fn succeeding(n: u64) -> u64 {
    if n < u64::MAX {
        (n + 1) as u64
    } else {
        n
    }
}

/// The numbers once a point had one more reading.
pub open spec fn counted(c: Counts, key: Key) -> Counts {
    with_count(c, key, succeeding(count_of(c, key)))
}

/// A point's number is the one that was set; every other number is what it was.
pub proof fn set_count_reads_back(c: Counts, key: Key, n: u64, other: Key)
    ensures
        count_of(with_count(c, key, n), key) == n,
        other != key ==> count_of(with_count(c, key, n), other) == count_of(c, other),
    decreases c.len(),
{
    let r = with_count(c, key, n);
    if c.len() == 0 {
        assert(r.drop_first() =~= c);
    } else if c[0].0 == key {
        assert(r.drop_first() =~= c.drop_first());
    } else {
        set_count_reads_back(c.drop_first(), key, n, other);
        assert(r.drop_first() =~= with_count(c.drop_first(), key, n));
    }
}

/// A point's readings are numbered one after the other, from one on, whatever the other points
/// do.
pub proof fn readings_are_numbered_in_turn(c: Counts, key: Key, other: Key)
    requires
        count_of(c, key) < u64::MAX,
        other != key,
    ensures
        count_of(Counts::empty(), key) == 0,
        count_of(counted(c, key), key) == count_of(c, key) + 1,
        count_of(counted(c, other), key) == count_of(c, key),
{
    set_count_reads_back(c, key, succeeding(count_of(c, key)), other);
    set_count_reads_back(c, other, succeeding(count_of(c, other)), key);
}

proof fn with_count_at(c: Counts, key: Key, n: u64, i: int)
    requires
        0 <= i <= c.len(),
        forall|j: int| 0 <= j < i ==> (#[trigger] c[j]).0 != key,
        i < c.len() ==> c[i].0 == key,
    ensures
        count_of(c, key) == if i < c.len() {
            c[i].1
        } else {
            0
        },
        with_count(c, key, n) == if i < c.len() {
            c.update(i, (key, n))
        } else {
            c.push((key, n))
        },
    decreases c.len(),
{
    if c.len() == 0 {
        assert(c.push((key, n)) =~= seq![(key, n)]);
    } else if i == 0 {
        assert(c.update(0, (key, n)) =~= seq![(key, n)] + c.drop_first());
    } else {
        let t = c.drop_first();
        assert(c[0].0 != key);
        assert forall|j: int| 0 <= j < i - 1 implies (#[trigger] t[j]).0 != key by {
            assert(t[j] == c[j + 1]);
        }
        with_count_at(t, key, n, i - 1);
        if i < c.len() {
            assert(c.update(i, (key, n)) =~= seq![c[0]] + t.update(i - 1, (key, n)));
        } else {
            assert(c.push((key, n)) =~= seq![c[0]] + t.push((key, n)));
        }
    }
}

/// The number of the last reading of each point.
pub struct SeqCounters {
    counts: Vec<(String, String, u64)>,
}

spec fn count_view(e: (String, String, u64)) -> (Key, u64) {
    ((e.0@, e.1@), e.2)
}

impl View for SeqCounters {
    type V = Counts;

    closed spec fn view(&self) -> Counts {
        self.counts@.map_values(|e: (String, String, u64)| count_view(e))
    }
}

impl SeqCounters {
    /// No point had a reading.
    pub fn new() -> (r: SeqCounters)
        ensures
            r@ == Counts::empty(),
    {
        let r = SeqCounters { counts: Vec::new() };
        assert(r@ =~= Counts::empty());
        r
    }

    /// Counts a reading of a point, and gives its number.
    pub fn next(&mut self, device: &str, point: &str) -> (r: u64)
        ensures
            final(self)@ == counted(old(self)@, (device@, point@)),
            r == succeeding(count_of(old(self)@, (device@, point@))),
    {
        let ghost before = self@;
        let ghost key = (device@, point@);
        let mut i: usize = 0;
        while i < self.counts.len() && !(same_text(self.counts[i].0.as_str(), device) && same_text(
            self.counts[i].1.as_str(),
            point,
        ))
            invariant
                i <= self.counts@.len(),
                before == self@,
                key == (device@, point@),
                self.counts@ == old(self).counts@,
                forall|j: int| 0 <= j < i ==> (#[trigger] before[j]).0 != key,
            decreases self.counts@.len() - i,
        {
            i = i + 1;
        }
        proof {
            with_count_at(before, key, succeeding(count_of(before, key)), i as int);
        }
        if i < self.counts.len() {
            let n: u64 = self.counts[i].2.saturating_add(1);
            self.counts[i].2 = n;
            assert(self@ =~= before.update(i as int, (key, n)));
            n
        } else {
            self.counts.push((device.to_owned(), point.to_owned(), 1));
            assert(self@ =~= before.push((key, 1u64)));
            1
        }
    }
}

/// The topic of a point's readings.
pub open spec fn sample_topic(device: Seq<char>, protocol: Seq<char>, point: Seq<char>) -> Seq<
    char,
> {
    "te/device/"@ + device + "/ot/"@ + protocol + "/sample/"@ + point
}

/// The topic of a point's readings.
pub fn topic(device: &str, protocol: &str, point: &str) -> (r: String)
    ensures
        r@ == sample_topic(device@, protocol@, point@),
{
    let mut out: String = concat3("te/device/", device, "/ot/");
    out.append(protocol);
    out.append("/sample/");
    out.append(point);
    out
}

/// A reading with its number.
pub open spec fn stamped(s: Sample, n: u64) -> Sample {
    Sample { seq: Some(n), ..s }
}

/// A reading of that device.
pub open spec fn reading_of(s: Sample, device: String) -> Sample {
    Sample { device, ..s }
}

/// The message that publishes a reading.
pub open spec fn sample_message(s: Sample, protocol: Seq<char>, x: Extras, debug: bool) -> MessageView {
    MessageView {
        topic: sample_topic(s.device@, protocol, s.point@),
        payload: sample_line(s, x, debug),
        retain: false,
    }
}

/// Numbers a reading, and gives the message that publishes it. Without a broker it is dropped:
/// it is of the moment, and the gap shows in the numbers.
pub fn publish_sample(
    protocol: &str,
    sample: &mut Sample,
    counters: &mut SeqCounters,
    index: &MetaIndex,
    debug: bool,
    online: bool,
) -> (r: Option<Message>)
    ensures
        final(counters)@ == counted(old(counters)@, (old(sample).device@, old(sample).point@)),
        *final(sample) == stamped(
            *old(sample),
            succeeding(count_of(old(counters)@, (old(sample).device@, old(sample).point@))),
        ),
        message_of(r) == if online {
            Some(sample_message(*final(sample), protocol@, index@, debug))
        } else {
            None
        },
{
    let n: u64 = counters.next(sample.device.as_str(), sample.point.as_str());
    sample.seq = Some(n);
    if !online {
        return None;
    }
    let topic: String = topic(sample.device.as_str(), protocol, sample.point.as_str());
    let payload: String = envelope_with_meta(sample, index, debug).print();
    Some(Message { topic, payload, retain: false })
}

/// The line that shows a reading.
pub open spec fn sample_line(s: Sample, x: Extras, debug: bool) -> Seq<char> {
    printed(JsonView::Object(published_fields(s, debug, extras_of(x, (s.device@, s.point@)))))
}

/// Numbers a reading, and gives the line that shows it.
pub fn print_sample(
    sample: &mut Sample,
    counters: &mut SeqCounters,
    index: &MetaIndex,
    debug: bool,
) -> (r: String)
    ensures
        final(counters)@ == counted(old(counters)@, (old(sample).device@, old(sample).point@)),
        *final(sample) == stamped(
            *old(sample),
            succeeding(count_of(old(counters)@, (old(sample).device@, old(sample).point@))),
        ),
        r@ == sample_line(*final(sample), index@, debug),
{
    let n: u64 = counters.next(sample.device.as_str(), sample.point.as_str());
    sample.seq = Some(n);
    envelope_with_meta(sample, index, debug).print()
}

/// What the readings of a poll come to.
#[verifier::ext_equal]
pub struct Outgoing {
    pub counts: Counts,
    pub messages: Seq<MessageView>,
}

/// What the readings of a poll of a device come to.
pub open spec fn outgoing(
    counts: Counts,
    samples: Seq<Sample>,
    device: String,
    protocol: Seq<char>,
    x: Extras,
    debug: bool,
    online: bool,
) -> Outgoing
    decreases samples.len(),
{
    if samples.len() == 0 {
        Outgoing { counts, messages: Seq::empty() }
    } else {
        let o = outgoing(counts, samples.drop_last(), device, protocol, x, debug, online);
        let s = reading_of(samples.last(), device);
        let key = (device@, s.point@);
        let stamped = stamped(s, succeeding(count_of(o.counts, key)));
        Outgoing {
            counts: counted(o.counts, key),
            messages: if online {
                o.messages.push(sample_message(stamped, protocol, x, debug))
            } else {
                o.messages
            },
        }
    }
}

/// Numbers the readings of a poll of a device, and gives the messages that publish them. The
/// device is the one that was polled, whatever the module wrote into them.
pub fn publish_samples(
    protocol: &str,
    device: &String,
    samples: &mut Vec<Sample>,
    counters: &mut SeqCounters,
    index: &MetaIndex,
    debug: bool,
    online: bool,
) -> (r: Vec<Message>)
    ensures
        final(samples)@.len() == old(samples)@.len(),
        forall|i: int|
            0 <= i < old(samples)@.len() ==> (#[trigger] final(samples)@[i]) == stamped(
                reading_of(old(samples)@[i], *device),
                final(samples)@[i].seq->0,
            ),
        (Outgoing { counts: final(counters)@, messages: message_views(r@) }) == outgoing(
            old(counters)@,
            old(samples)@,
            *device,
            protocol@,
            index@,
            debug,
            online,
        ),
{
    let ghost all = samples@;
    let ghost start = counters@;
    let mut out: Vec<Message> = Vec::new();
    let mut i: usize = 0;
    assert(all.take(0) =~= Seq::<Sample>::empty());
    assert(message_views(out@) =~= Seq::<MessageView>::empty());
    while i < samples.len()
        invariant
            i <= samples@.len() == all.len(),
            all == old(samples)@,
            forall|k: int|
                0 <= k < i ==> (#[trigger] samples@[k]) == stamped(
                    reading_of(all[k], *device),
                    samples@[k].seq->0,
                ),
            forall|k: int| i <= k < all.len() ==> (#[trigger] samples@[k]) == all[k],
            (Outgoing { counts: counters@, messages: message_views(out@) }) == outgoing(
                start,
                all.take(i as int),
                *device,
                protocol@,
                index@,
                debug,
                online,
            ),
        decreases samples@.len() - i,
    {
        assert(all.take(i + 1).drop_last() =~= all.take(i as int));
        assert(all.take(i + 1).last() == samples@[i as int]);
        let ghost was = message_views(out@);
        samples[i].device = device.clone();
        match publish_sample(protocol, &mut samples[i], counters, index, debug, online) {
            Some(m) => {
                out.push(m);
                assert(message_views(out@) =~= was.push(m@));
            },
            None => {},
        }
        i = i + 1;
    }
    assert(all.take(all.len() as int) =~= all);
    out
}

/// What the readings of a poll come to where they are printed.
#[verifier::ext_equal]
pub struct Printed {
    pub counts: Counts,
    pub lines: Seq<Seq<char>>,
}

/// What the readings of a poll of a device come to where they are printed.
pub open spec fn printed_lines(
    counts: Counts,
    samples: Seq<Sample>,
    device: String,
    x: Extras,
    debug: bool,
) -> Printed
    decreases samples.len(),
{
    if samples.len() == 0 {
        Printed { counts, lines: Seq::empty() }
    } else {
        let o = printed_lines(counts, samples.drop_last(), device, x, debug);
        let s = reading_of(samples.last(), device);
        let key = (device@, s.point@);
        Printed {
            counts: counted(o.counts, key),
            lines: o.lines.push(
                sample_line(stamped(s, succeeding(count_of(o.counts, key))), x, debug),
            ),
        }
    }
}

/// Numbers the readings of a poll of a device, and gives the lines that show them.
pub fn print_samples(
    device: &String,
    samples: Vec<Sample>,
    counters: &mut SeqCounters,
    index: &MetaIndex,
    debug: bool,
) -> (r: Vec<String>)
    ensures
        (Printed { counts: final(counters)@, lines: texts(r@) }) == printed_lines(
            old(counters)@,
            samples@,
            *device,
            index@,
            debug,
        ),
{
    let ghost all = samples@;
    let ghost start = counters@;
    let mut samples: Vec<Sample> = samples;
    let mut out: Vec<String> = Vec::new();
    let mut i: usize = 0;
    assert(all.take(0) =~= Seq::<Sample>::empty());
    assert(texts(out@) =~= Seq::<Seq<char>>::empty());
    while i < samples.len()
        invariant
            i <= samples@.len() == all.len(),
            forall|k: int| i <= k < all.len() ==> (#[trigger] samples@[k]) == all[k],
            (Printed { counts: counters@, lines: texts(out@) }) == printed_lines(
                start,
                all.take(i as int),
                *device,
                index@,
                debug,
            ),
        decreases samples@.len() - i,
    {
        assert(all.take(i + 1).drop_last() =~= all.take(i as int));
        assert(all.take(i + 1).last() == samples@[i as int]);
        let ghost was = texts(out@);
        samples[i].device = device.clone();
        let line: String = print_sample(&mut samples[i], counters, index, debug);
        out.push(line);
        assert(texts(out@) =~= was.push(line@));
        i = i + 1;
    }
    assert(all.take(all.len() as int) =~= all);
    out
}

/// Whether any of the readings is one.
pub open spec fn any_usable(samples: Seq<Sample>) -> bool {
    exists|i: int| 0 <= i < samples.len() && (#[trigger] samples[i]).quality != Quality::Bad
}

/// What went wrong with the first reading that says it.
pub open spec fn first_error(samples: Seq<Sample>) -> Option<Seq<char>>
    decreases samples.len(),
{
    if samples.len() == 0 {
        None
    } else {
        match samples[0].error {
            Some(e) => Some(e@),
            None => first_error(samples.drop_first()),
        }
    }
}

/// How a poll went: a device is healthy while any of its points can be read. Where none can, it
/// is said why.
pub open spec fn poll_health(samples: Seq<Sample>) -> (bool, Option<Seq<char>>) {
    if any_usable(samples) {
        (true, None)
    } else {
        (false, first_error(samples))
    }
}

/// Whether any of the readings is one.
pub fn usable(samples: &Vec<Sample>) -> (r: bool)
    ensures
        r == any_usable(samples@),
{
    let mut i: usize = 0;
    while i < samples.len()
        invariant
            i <= samples@.len(),
            forall|j: int| 0 <= j < i ==> (#[trigger] samples@[j]).quality == Quality::Bad,
        decreases samples@.len() - i,
    {
        if samples[i].quality != Quality::Bad {
            assert(samples@[i as int].quality != Quality::Bad);
            return true;
        }
        i = i + 1;
    }
    false
}

/// How a poll went.
pub fn health_of(samples: &Vec<Sample>) -> (r: (bool, Option<String>))
    ensures
        (r.0, text_of(r.1)) == poll_health(samples@),
{
    if usable(samples) {
        return (true, None);
    }
    let mut i: usize = 0;
    assert(samples@.skip(0) =~= samples@);
    while i < samples.len()
        invariant
            i <= samples@.len(),
            first_error(samples@) == first_error(samples@.skip(i as int)),
            !any_usable(samples@),
        decreases samples@.len() - i,
    {
        let ghost rest = samples@.skip(i as int);
        assert(rest[0] == samples@[i as int]);
        assert(rest.drop_first() =~= samples@.skip(i + 1));
        if samples[i].error.is_some() {
            return (false, copy_text(&samples[i].error));
        }
        i = i + 1;
    }
    (false, None)
}

/// A reading is published as its envelope, with what the configuration says of its point beside
/// it: how it may be used, and its meta and its device's type where they are declared.
pub proof fn published_readings_carry_what_is_configured(
    s: Sample,
    debug: bool,
    x: ExtrasView,
    key: Seq<char>,
)
    ensures
        ({
            let f = published_fields(s, debug, Some(x));
            &&& field(f, "access"@) == Some(JsonView::Text(x.access.label()))
            &&& x.meta is Some ==> field(f, "meta"@) == x.meta
            &&& x.device_type matches Some(t) ==> field(f, "type"@) == Some(JsonView::Text(t))
            &&& x.meta is None ==> field(f, "meta"@) == field(s.envelope_fields(debug), "meta"@)
            &&& x.device_type is None ==> field(f, "type"@) == field(
                s.envelope_fields(debug),
                "type"@,
            )
            &&& key != "access"@ && key != "meta"@ && key != "type"@ ==> field(f, key) == field(
                s.envelope_fields(debug),
                key,
            )
            &&& published_fields(s, debug, None) == s.envelope_fields(debug)
        }),
{
    broadcast use crate::keyed::field_once_set;

    reveal_strlit("access");
    reveal_strlit("meta");
    reveal_strlit("type");
    assert("access"@.len() == 6 && "meta"@.len() == 4 && "type"@.len() == 4);
    assert("meta"@[0] == 'm' && "type"@[0] == 't');
}

/// How many of the first `n` readings are of that point.
pub open spec fn earlier_readings(samples: Seq<Sample>, n: int, point: Seq<char>) -> nat
    decreases n,
{
    if n <= 0 {
        0
    } else {
        earlier_readings(samples, n - 1, point) + if samples[n - 1].point@ == point {
            1nat
        } else {
            0nat
        }
    }
}

proof fn same_earlier_readings(a: Seq<Sample>, b: Seq<Sample>, n: int, point: Seq<char>)
    requires
        forall|i: int| 0 <= i < n ==> a[i] == b[i],
    ensures
        earlier_readings(a, n, point) == earlier_readings(b, n, point),
        earlier_readings(a, n, point) <= if n > 0 {
            n
        } else {
            0
        },
    decreases n,
{
    if n > 0 {
        same_earlier_readings(a, b, n - 1, point);
    }
}

proof fn counts_after(
    counts: Counts,
    samples: Seq<Sample>,
    device: String,
    protocol: Seq<char>,
    x: Extras,
    debug: bool,
    online: bool,
    point: Seq<char>,
)
    requires
        count_of(counts, (device@, point)) + samples.len() <= u64::MAX,
    ensures
        count_of(
            outgoing(counts, samples, device, protocol, x, debug, online).counts,
            (device@, point),
        ) == count_of(counts, (device@, point)) + earlier_readings(
            samples,
            samples.len() as int,
            point,
        ),
    decreases samples.len(),
{
    if samples.len() > 0 {
        let init = samples.drop_last();
        counts_after(counts, init, device, protocol, x, debug, online, point);
        same_earlier_readings(samples, init, init.len() as int, point);
        let o = outgoing(counts, init, device, protocol, x, debug, online);
        let key = (device@, samples.last().point@);
        set_count_reads_back(o.counts, key, succeeding(count_of(o.counts, key)), (device@, point));
    }
}

/// Online, each reading of a poll is published once and in its turn, as one of the device that was
/// polled, numbered one after the last reading of its point. Offline none is published, and each
/// is numbered all the same.
pub proof fn each_reading_is_published_in_its_turn(
    counts: Counts,
    samples: Seq<Sample>,
    device: String,
    protocol: Seq<char>,
    x: Extras,
    debug: bool,
    online: bool,
    i: int,
)
    requires
        0 <= i < samples.len(),
        count_of(counts, (device@, samples[i].point@)) + samples.len() <= u64::MAX,
    ensures
        ({
            let o = outgoing(counts, samples, device, protocol, x, debug, online);
            let point = samples[i].point@;
            let number = count_of(counts, (device@, point)) + earlier_readings(samples, i, point)
                + 1;
            &&& !online ==> o.messages.len() == 0
            &&& online ==> o.messages.len() == samples.len() && o.messages[i] == sample_message(
                Sample { seq: Some(number as u64), device, ..samples[i] },
                protocol,
                x,
                debug,
            )
            &&& count_of(o.counts, (device@, point)) == count_of(counts, (device@, point))
                + earlier_readings(samples, samples.len() as int, point)
        }),
    decreases samples.len(),
{
    let init = samples.drop_last();
    let point = samples[i].point@;
    counts_after(counts, samples, device, protocol, x, debug, online, point);
    if i < init.len() {
        assert(init[i] == samples[i]);
        each_reading_is_published_in_its_turn(
            counts,
            init,
            device,
            protocol,
            x,
            debug,
            online,
            i,
        );
        same_earlier_readings(samples, init, i, point);
    } else {
        counts_after(counts, init, device, protocol, x, debug, online, point);
        same_earlier_readings(samples, init, init.len() as int, point);
        if init.len() > 0 {
            message_count(counts, init, device, protocol, x, debug, online);
        }
    }
}

proof fn message_count(
    counts: Counts,
    samples: Seq<Sample>,
    device: String,
    protocol: Seq<char>,
    x: Extras,
    debug: bool,
    online: bool,
)
    ensures
        outgoing(counts, samples, device, protocol, x, debug, online).messages.len() == if online {
            samples.len()
        } else {
            0
        },
    decreases samples.len(),
{
    if samples.len() > 0 {
        message_count(counts, samples.drop_last(), device, protocol, x, debug, online);
    }
}

/// A poll went well where any of its readings is good or stale, and badly where all are bad; then
/// the reason is the first that a reading gives.
pub proof fn polls_go_well_where_anything_was_read(samples: Seq<Sample>, i: int)
    requires
        0 <= i < samples.len(),
    ensures
        samples[i].quality == Quality::Good || samples[i].quality == Quality::Stale ==> poll_health(
            samples,
        ) == (true, None::<Seq<char>>),
        (forall|k: int| 0 <= k < samples.len() ==> (#[trigger] samples[k]).quality == Quality::Bad)
            ==> !poll_health(samples).0,
        (forall|k: int| 0 <= k < samples.len() ==> (#[trigger] samples[k]).quality == Quality::Bad)
            && samples[i].error is Some && (forall|k: int|
            0 <= k < i ==> (#[trigger] samples[k]).error is None) ==> poll_health(samples).1
            == text_of(samples[i].error),
{
    if samples[i].error is Some && (forall|k: int|
        0 <= k < i ==> (#[trigger] samples[k]).error is None) {
        first_error_at(samples, i);
    }
}

proof fn first_error_at(samples: Seq<Sample>, i: int)
    requires
        0 <= i < samples.len(),
        samples[i].error is Some,
        forall|k: int| 0 <= k < i ==> (#[trigger] samples[k]).error is None,
    ensures
        first_error(samples) == text_of(samples[i].error),
    decreases i,
{
    if i > 0 {
        let rest = samples.drop_first();
        assert(samples[0].error is None);
        assert forall|k: int| 0 <= k < i - 1 implies (#[trigger] rest[k]).error is None by {
            assert(rest[k] == samples[k + 1]);
        }
        first_error_at(rest, i - 1);
    }
}

proof fn extras_of_points(
    x: Extras,
    device: DeviceConfig,
    points: Seq<PointConfig>,
    key: Key,
    p: int,
)
    requires
        0 <= p < points.len(),
        key == (device.name@, points[p].id@),
        forall|q: int| p < q < points.len() ==> (#[trigger] points[q]).id@ != points[p].id@,
    ensures
        extras_of(with_points(x, device, points), key) == Some(
            configured_extras(device, points[p]),
        ),
    decreases points.len(),
{
    let all = with_points(x, device, points);
    let head = with_points(x, device, points.drop_last());
    assert(all.drop_last() =~= head);
    if p < points.len() - 1 {
        let init = points.drop_last();
        assert(points[points.len() - 1].id@ != points[p].id@);
        assert forall|q: int| p < q < init.len() implies (#[trigger] init[q]).id@ != init[p].id@ by {
            assert(init[q] == points[q]);
        }
        extras_of_points(x, device, init, key, p);
    }
}

proof fn extras_of_others(x: Extras, device: DeviceConfig, points: Seq<PointConfig>, key: Key)
    requires
        device.name@ != key.0,
    ensures
        extras_of(with_points(x, device, points), key) == extras_of(x, key),
    decreases points.len(),
{
    if points.len() > 0 {
        let all = with_points(x, device, points);
        let head = with_points(x, device, points.drop_last());
        assert(all.drop_last() =~= head);
        extras_of_others(x, device, points.drop_last(), key);
    }
}

/// What is added to the readings of a point is what is configured for it: its meta, its access and
/// the type of its device. The point is the last of its id, and the device the last of its name.
pub proof fn readings_are_told_with_their_own_configuration(
    devices: Seq<DeviceConfig>,
    d: int,
    p: int,
)
    requires
        0 <= d < devices.len(),
        0 <= p < devices[d].points@.len(),
        forall|e: int| d < e < devices.len() ==> (#[trigger] devices[e]).name@ != devices[d].name@,
        forall|q: int|
            p < q < devices[d].points@.len() ==> (#[trigger] devices[d].points@[q]).id@
                != devices[d].points@[p].id@,
    ensures
        ({
            let point = devices[d].points@[p];
            extras_of(with_devices(devices), (devices[d].name@, point.id@)) == Some(
                ExtrasView {
                    meta: view_of(point.meta),
                    access: access_of(text_of(point.access)),
                    device_type: match devices[d].device_type {
                        Some(t) => if t@.len() > 0 {
                            Some(t@)
                        } else {
                            None
                        },
                        None => None,
                    },
                },
            )
        }),
    decreases devices.len(),
{
    let key = (devices[d].name@, devices[d].points@[p].id@);
    let init = devices.drop_last();
    let last = devices.last();
    if d < devices.len() - 1 {
        assert(devices[devices.len() - 1].name@ != devices[d].name@);
        assert(init[d] == devices[d]);
        assert forall|e: int| d < e < init.len() implies (#[trigger] init[e]).name@
            != init[d].name@ by {
            assert(init[e] == devices[e]);
        }
        readings_are_told_with_their_own_configuration(init, d, p);
        extras_of_others(with_devices(init), last, last.points@, key);
    } else {
        extras_of_points(with_devices(init), last, last.points@, key, p);
    }
}

/// What is printed of readings is what is published of them where the broker is there, and they
/// are numbered alike.
pub proof fn readings_are_printed_as_they_are_published(
    counts: Counts,
    samples: Seq<Sample>,
    device: String,
    protocol: Seq<char>,
    x: Extras,
    debug: bool,
)
    ensures
        ({
            let printed = printed_lines(counts, samples, device, x, debug);
            let sent = outgoing(counts, samples, device, protocol, x, debug, true);
            &&& printed.counts == sent.counts
            &&& printed.lines == sent.messages.map_values(|m: MessageView| m.payload)
        }),
    decreases samples.len(),
{
    if samples.len() > 0 {
        readings_are_printed_as_they_are_published(
            counts,
            samples.drop_last(),
            device,
            protocol,
            x,
            debug,
        );
    }
    let printed = printed_lines(counts, samples, device, x, debug);
    let sent = outgoing(counts, samples, device, protocol, x, debug, true);
    assert(printed.lines =~= sent.messages.map_values(|m: MessageView| m.payload));
}

/// A reading is published on the topic of its point, with what is configured for that point, and
/// the broker does not keep it.
pub proof fn readings_are_published_on_their_topic(
    s: Sample,
    protocol: Seq<char>,
    x: Extras,
    debug: bool,
)
    ensures
        ({
            let m = sample_message(s, protocol, x, debug);
            &&& m.topic == sample_topic(s.device@, protocol, s.point@)
            &&& m.payload == printed(
                JsonView::Object(published_fields(s, debug, extras_of(x, (s.device@, s.point@)))),
            )
            &&& !m.retain
        }),
{
}

} // verus!
