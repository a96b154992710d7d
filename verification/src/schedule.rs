//! When which point is read: the polling schedule, and the points that a module pushes instead.
use crate::clock::{duration_text, nanos, parse_duration};
use crate::config::{
    duration_or, nanos_or, optional_duration_or, optional_nanos_or, resolved, ConnectorConfig,
    DeviceConfig, PointConfig, Transform,
};
use crate::connector::{access_of, Access, Endianness, WordOrder};
use crate::json::Numeral;
use crate::model::{DataType, Mode};
use crate::text::{as_deref, copy_text, same_text, text_of};
use std::time::Duration;
use vstd::prelude::*;

verus! {

/// A point as a module is asked for it.
#[derive(Debug, PartialEq)]
pub struct PointRef {
    pub id: String,
    pub mode: Mode,
    pub datatype: Option<DataType>,
    pub endianness: Endianness,
    pub word_order: WordOrder,
    pub access: Access,
    pub unit: Option<String>,
    /// The transform of the point's values; none is the identity.
    pub transform: Option<Transform>,
    pub interval: Option<Duration>,
}

/// What a transform is.
#[verifier::ext_equal]
pub struct TransformView {
    pub multiplier: Numeral,
    pub divisor: Numeral,
    pub decimal_shift: i32,
    pub offset: Numeral,
}

/// What a point reference is.
#[verifier::ext_equal]
pub struct PointView {
    pub id: Seq<char>,
    pub mode: Mode,
    pub datatype: Option<DataType>,
    pub endianness: Endianness,
    pub word_order: WordOrder,
    pub access: Access,
    pub unit: Option<Seq<char>>,
    pub transform: Option<TransformView>,
    pub interval: Option<nat>,
}

pub open spec fn transform_view(t: Option<Transform>) -> Option<TransformView> {
    match t {
        Some(x) => Some(
            TransformView {
                multiplier: x.multiplier@,
                divisor: x.divisor@,
                decimal_shift: x.decimal_shift,
                offset: x.offset@,
            },
        ),
        None => None,
    }
}

pub open spec fn nanos_of(d: Option<Duration>) -> Option<nat> {
    match d {
        Some(x) => Some(nanos(x)),
        None => None,
    }
}

impl View for PointRef {
    type V = PointView;

    open spec fn view(&self) -> PointView {
        PointView {
            id: self.id@,
            mode: self.mode,
            datatype: self.datatype,
            endianness: self.endianness,
            word_order: self.word_order,
            access: self.access,
            unit: text_of(self.unit),
            transform: transform_view(self.transform),
            interval: nanos_of(self.interval),
        }
    }
}

/// What each reference is.
pub open spec fn refs(v: Seq<PointRef>) -> Seq<PointView> {
    v.map_values(|p: PointRef| p@)
}

/// A configured point as a module is asked for it, to be read every `interval`.
pub open spec fn configured_point(
    point: PointConfig,
    device_default: Option<Mode>,
    interval: Option<nat>,
) -> PointView {
    PointView {
        id: point.id@,
        mode: resolved(point.mode, device_default),
        datatype: point.datatype,
        endianness: Endianness::of(text_of(point.endianness)),
        word_order: WordOrder::of(text_of(point.word_order)),
        access: access_of(text_of(point.access)),
        unit: text_of(point.unit),
        transform: transform_view(point.transform),
        interval,
    }
}

/// The nanoseconds that an optional text spells.
pub open spec fn own_interval(text: Option<Seq<char>>) -> Option<nat> {
    match text {
        Some(t) => duration_text(t),
        None => None,
    }
}

pub fn copy_transform(t: &Option<Transform>) -> (r: Option<Transform>)
    ensures
        transform_view(r) == transform_view(*t),
{
    match t {
        Some(x) => Some(
            Transform {
                multiplier: x.multiplier.clone(),
                divisor: x.divisor.clone(),
                decimal_shift: x.decimal_shift,
                offset: x.offset.clone(),
            },
        ),
        None => None,
    }
}

/// A configured point as a module is asked for it, by its own interval.
pub fn point_ref(point: &PointConfig, device_default: Option<Mode>) -> (r: PointRef)
    ensures
        r@ == configured_point(*point, device_default, own_interval(text_of(point.poll_interval))),
{
    let interval: Option<Duration> = match &point.poll_interval {
        Some(t) => parse_duration(t.as_str()),
        None => None,
    };
    PointRef {
        id: point.id.clone(),
        mode: point.resolved_mode(device_default),
        datatype: point.datatype,
        endianness: Endianness::parse(as_deref(&point.endianness)),
        word_order: WordOrder::parse(as_deref(&point.word_order)),
        access: Access::parse(as_deref(&point.access)),
        unit: copy_text(&point.unit),
        transform: copy_transform(&point.transform),
        interval,
    }
}

impl Clone for PointRef {
    fn clone(&self) -> (r: PointRef)
        ensures
            r@ == self@,
    {
        PointRef {
            id: self.id.clone(),
            mode: self.mode,
            datatype: self.datatype,
            endianness: self.endianness,
            word_order: self.word_order,
            access: self.access,
            unit: copy_text(&self.unit),
            transform: copy_transform(&self.transform),
            interval: self.interval,
        }
    }
}

/// The points that a module pushes: of a device by its place in the configuration, by their ids.
pub struct Subscribed {
    pairs: Vec<(usize, String)>,
}

spec fn pair_views(v: Seq<(usize, String)>) -> Seq<(int, Seq<char>)> {
    v.map_values(|p: (usize, String)| (p.0 as int, p.1@))
}

impl View for Subscribed {
    type V = Set<(int, Seq<char>)>;

    closed spec fn view(&self) -> Set<(int, Seq<char>)> {
        Set::new(|p: (int, Seq<char>)| pair_views(self.pairs@).contains(p))
    }
}

impl Subscribed {
    /// No point.
    pub fn new() -> (r: Subscribed)
        ensures
            r@ == Set::<(int, Seq<char>)>::empty(),
    {
        let r = Subscribed { pairs: Vec::new() };
        assert(r@ =~= Set::<(int, Seq<char>)>::empty());
        r
    }

    /// Whether a point is pushed.
    pub fn contains(&self, device: usize, id: &str) -> (r: bool)
        ensures
            r == self@.contains((device as int, id@)),
    {
        let ghost all = pair_views(self.pairs@);
        let ghost p = (device as int, id@);
        let mut i: usize = 0;
        while i < self.pairs.len()
            invariant
                i <= self.pairs@.len(),
                all == pair_views(self.pairs@),
                p == (device as int, id@),
                forall|k: int| 0 <= k < i ==> all[k] != p,
            decreases self.pairs@.len() - i,
        {
            if self.pairs[i].0 == device && same_text(self.pairs[i].1.as_str(), id) {
                assert(all[i as int] == p);
                return true;
            }
            i = i + 1;
        }
        false
    }

    /// Notes that a point is pushed.
    pub fn insert(&mut self, device: usize, id: &str)
        ensures
            final(self)@ == old(self)@.insert((device as int, id@)),
    {
        let ghost before = pair_views(self.pairs@);
        let ghost p = (device as int, id@);
        self.pairs.push((device, id.to_owned()));
        proof {
            let after = pair_views(self.pairs@);
            assert(after =~= before.push(p));
            assert forall|q: (int, Seq<char>)| after.contains(q) <==> before.contains(q) || q
                == p by {
                if before.contains(q) {
                    let i = choose|i: int| 0 <= i < before.len() && before[i] == q;
                    assert(after[i] == q);
                }
                if q == p {
                    assert(after[before.len() as int] == q);
                }
            }
            assert(self@ =~= old(self)@.insert(p));
        }
    }

    /// Notes that a point is not pushed.
    pub fn remove(&mut self, device: usize, id: &str)
        ensures
            final(self)@ == old(self)@.remove((device as int, id@)),
    {
        let ghost before = pair_views(self.pairs@);
        let ghost p = (device as int, id@);
        let ghost other = |q: (int, Seq<char>)| q != p;
        let mut pairs: Vec<(usize, String)> = Vec::new();
        std::mem::swap(&mut pairs, &mut self.pairs);
        let mut kept: Vec<(usize, String)> = Vec::new();
        let mut i: usize = 0;
        proof {
            reveal(Seq::filter);
            assert(before.take(0) =~= Seq::<(int, Seq<char>)>::empty());
            assert(pair_views(kept@) =~= before.take(0).filter(other));
        }
        while i < pairs.len()
            invariant
                i <= pairs@.len(),
                before == pair_views(pairs@),
                p == (device as int, id@),
                other == |q: (int, Seq<char>)| q != p,
                pair_views(kept@) == before.take(i as int).filter(other),
            decreases pairs@.len() - i,
        {
            let ghost was = pair_views(kept@);
            proof {
                reveal(Seq::filter);
                assert(before.take(i + 1).drop_last() =~= before.take(i as int));
                assert(before.take(i + 1).last() == before[i as int]);
            }
            if !(pairs[i].0 == device && same_text(pairs[i].1.as_str(), id)) {
                kept.push((pairs[i].0, pairs[i].1.clone()));
                assert(pair_views(kept@) =~= was.push(before[i as int]));
            }
            i = i + 1;
        }
        proof {
            assert(before.take(before.len() as int) =~= before);
            broadcast use vstd::seq_lib::group_filter_ensures;

            let after = pair_views(kept@);
            assert forall|q: (int, Seq<char>)| after.contains(q) <==> before.contains(q) && q
                != p by {
                if after.contains(q) {
                    let k = choose|k: int| 0 <= k < after.len() && after[k] == q;
                    assert(other(after[k]));
                    before.lemma_filter_contains_rev(other, q);
                }
                if before.contains(q) && q != p {
                    let k = choose|k: int| 0 <= k < before.len() && before[k] == q;
                    assert(other(before[k]));
                }
            }
        }
        self.pairs = kept;
        assert(self@ =~= old(self)@.remove(p));
    }
}

/// How often the points of the connector are read that nothing else is said of.
pub open spec fn connector_interval(config: ConnectorConfig) -> nat {
    nanos_or(config.connector.poll_interval@, 2_000_000_000)
}

/// How often the points of a device are read that nothing else is said of.
pub open spec fn device_interval(config: ConnectorConfig, device: DeviceConfig) -> nat {
    optional_nanos_or(text_of(device.poll_interval), connector_interval(config))
}

/// How often a point is read.
pub open spec fn point_interval(
    config: ConnectorConfig,
    device: DeviceConfig,
    point: PointConfig,
) -> nat {
    optional_nanos_or(text_of(point.poll_interval), device_interval(config, device))
}

/// A point as a module is asked for it, with the interval that holds for it.
pub open spec fn resolved_point(
    config: ConnectorConfig,
    device: DeviceConfig,
    point: PointConfig,
) -> PointView {
    configured_point(point, device.default_mode, Some(point_interval(config, device, point)))
}

/// How often the points of a device are read that nothing else is said of.
fn interval_of_device(config: &ConnectorConfig, device: &DeviceConfig) -> (r: Duration)
    ensures
        nanos(r) == device_interval(*config, *device),
{
    let connector: Duration = duration_or(
        config.connector.poll_interval.as_str(),
        Duration::from_secs(2),
    );
    optional_duration_or(&device.poll_interval, connector)
}

/// A point as a module is asked for it, with the interval that holds for it.
fn resolve_point(
    point: &PointConfig,
    device_default: Option<Mode>,
    device_interval: Duration,
) -> (r: (PointRef, Duration))
    ensures
        nanos(r.1) == optional_nanos_or(text_of(point.poll_interval), nanos(device_interval)),
        r.0@ == configured_point(*point, device_default, Some(nanos(r.1))),
{
    let interval: Duration = optional_duration_or(&point.poll_interval, device_interval);
    let mut r: PointRef = point_ref(point, device_default);
    r.interval = Some(interval);
    assert(r@ =~= configured_point(*point, device_default, Some(nanos(interval))));
    (r, interval)
}

/// A point that is polled: of which device, how often, and when it is due.
#[derive(Debug, PartialEq)]
pub struct ScheduleEntry {
    pub device_index: usize,
    pub point: PointRef,
    pub interval: Duration,
    /// When it is due, in nanoseconds of the runtime's clock.
    pub next_due: u128,
}

/// What a schedule entry is.
#[verifier::ext_equal]
pub struct EntryView {
    pub device_index: int,
    pub point: PointView,
    pub interval: nat,
    pub next_due: nat,
}

impl View for ScheduleEntry {
    type V = EntryView;

    open spec fn view(&self) -> EntryView {
        EntryView {
            device_index: self.device_index as int,
            point: self.point@,
            interval: nanos(self.interval),
            next_due: self.next_due as nat,
        }
    }
}

/// What each entry is.
pub open spec fn schedule_view(v: Seq<ScheduleEntry>) -> Seq<EntryView> {
    v.map_values(|e: ScheduleEntry| e@)
}

/// The entries of the points of a device, the one at `d`, that are not pushed. All are due at
/// once.
pub open spec fn device_entries(
    config: ConnectorConfig,
    device: DeviceConfig,
    d: int,
    points: Seq<PointConfig>,
    pushed: Set<(int, Seq<char>)>,
    now: nat,
) -> Seq<EntryView>
    decreases points.len(),
{
    if points.len() == 0 {
        Seq::empty()
    } else {
        let head = device_entries(config, device, d, points.drop_last(), pushed, now);
        let p = points.last();
        if pushed.contains((d, p.id@)) {
            head
        } else {
            head.push(
                EntryView {
                    device_index: d,
                    point: resolved_point(config, device, p),
                    interval: point_interval(config, device, p),
                    next_due: now,
                },
            )
        }
    }
}

/// The entries of the first `n` devices.
pub open spec fn entries_of(
    config: ConnectorConfig,
    n: int,
    pushed: Set<(int, Seq<char>)>,
    now: nat,
) -> Seq<EntryView>
    decreases n,
{
    if n <= 0 {
        Seq::empty()
    } else {
        let d = config.devices@[n - 1];
        entries_of(config, n - 1, pushed, now) + device_entries(
            config,
            d,
            n - 1,
            d.points@,
            pushed,
            now,
        )
    }
}

/// The polling schedule of a configuration: every point that is not pushed.
pub open spec fn full_schedule(
    config: ConnectorConfig,
    pushed: Set<(int, Seq<char>)>,
    now: nat,
) -> Seq<EntryView> {
    entries_of(config, config.devices@.len() as int, pushed, now)
}

/// The polling schedule of a configuration.
pub fn build_schedule(config: &ConnectorConfig, subscribed: &Subscribed, now: u128) -> (r: Vec<
    ScheduleEntry,
>)
    ensures
        schedule_view(r@) == full_schedule(*config, subscribed@, now as nat),
{
    let mut out: Vec<ScheduleEntry> = Vec::new();
    let mut i: usize = 0;
    assert(schedule_view(out@) =~= Seq::<EntryView>::empty());
    while i < config.devices.len()
        invariant
            i <= config.devices@.len(),
            schedule_view(out@) == entries_of(*config, i as int, subscribed@, now as nat),
        decreases config.devices@.len() - i,
    {
        let device: &DeviceConfig = &config.devices[i];
        let interval: Duration = interval_of_device(config, device);
        let ghost before = schedule_view(out@);
        let mut j: usize = 0;
        assert(device.points@.take(0) =~= Seq::<PointConfig>::empty());
        assert(before + Seq::<EntryView>::empty() =~= before);
        while j < device.points.len()
            invariant
                j <= device.points@.len(),
                nanos(interval) == device_interval(*config, *device),
                schedule_view(out@) == before + device_entries(
                    *config,
                    *device,
                    i as int,
                    device.points@.take(j as int),
                    subscribed@,
                    now as nat,
                ),
            decreases device.points@.len() - j,
        {
            let point: &PointConfig = &device.points[j];
            assert(device.points@.take(j + 1).drop_last() =~= device.points@.take(j as int));
            assert(device.points@.take(j + 1).last() == *point);
            if !subscribed.contains(i, point.id.as_str()) {
                let (r, own) = resolve_point(point, device.default_mode, interval);
                let entry = ScheduleEntry {
                    device_index: i,
                    point: r,
                    interval: own,
                    next_due: now,
                };
                let ghost was = schedule_view(out@);
                out.push(entry);
                assert(schedule_view(out@) =~= was.push(entry@));
                assert(was.push(entry@) =~= before + device_entries(
                    *config,
                    *device,
                    i as int,
                    device.points@.take(j as int),
                    subscribed@,
                    now as nat,
                ).push(entry@));
            }
            j = j + 1;
        }
        assert(device.points@.take(device.points@.len() as int) =~= device.points@);
        i = i + 1;
    }
    out
}

/// A point of a device is on a schedule.
pub open spec fn scheduled(schedule: Seq<EntryView>, d: int, id: Seq<char>) -> bool {
    exists|i: int|
        0 <= i < schedule.len() && (#[trigger] schedule[i]).device_index == d
            && schedule[i].point.id == id
}

/// A point is configured for the device at `d`.
pub open spec fn configured(config: ConnectorConfig, d: int, id: Seq<char>) -> bool {
    0 <= d < config.devices@.len() && has_point(config.devices@[d].points@, id)
}

/// A point of that id.
pub open spec fn has_point(points: Seq<PointConfig>, id: Seq<char>) -> bool {
    exists|i: int| 0 <= i < points.len() && (#[trigger] points[i]).id@ == id
}

proof fn device_entries_scheduled(
    config: ConnectorConfig,
    device: DeviceConfig,
    d: int,
    points: Seq<PointConfig>,
    pushed: Set<(int, Seq<char>)>,
    now: nat,
    e: int,
    id: Seq<char>,
)
    ensures
        scheduled(device_entries(config, device, d, points, pushed, now), e, id) <==> e == d
            && has_point(points, id) && !pushed.contains((d, id)),
    decreases points.len(),
{
    let all = device_entries(config, device, d, points, pushed, now);
    if points.len() > 0 {
        let init = points.drop_last();
        let head = device_entries(config, device, d, init, pushed, now);
        let p = points.last();
        device_entries_scheduled(config, device, d, init, pushed, now, e, id);
        if has_point(init, id) {
            let i = choose|i: int| 0 <= i < init.len() && (#[trigger] init[i]).id@ == id;
            assert(points[i] == init[i]);
        }
        if has_point(points, id) {
            let i = choose|i: int| 0 <= i < points.len() && (#[trigger] points[i]).id@ == id;
            if i < init.len() {
                assert(init[i] == points[i]);
            }
        }
        if p.id@ == id {
            assert(points[points.len() - 1].id@ == id);
        }
        if !pushed.contains((d, p.id@)) {
            assert(all.drop_last() =~= head);
            let last = all.last();
            assert(last.device_index == d && last.point.id == p.id@);
            if scheduled(head, e, id) {
                let i = choose|i: int|
                    0 <= i < head.len() && (#[trigger] head[i]).device_index == e
                        && head[i].point.id == id;
                assert(all[i] == head[i]);
            }
            if scheduled(all, e, id) {
                let i = choose|i: int|
                    0 <= i < all.len() && (#[trigger] all[i]).device_index == e
                        && all[i].point.id == id;
                if i < head.len() {
                    assert(head[i] == all[i]);
                }
            }
            if e == d && id == p.id@ {
                assert(all[all.len() - 1].device_index == e);
            }
        }
    }
}

proof fn entries_scheduled(
    config: ConnectorConfig,
    n: int,
    pushed: Set<(int, Seq<char>)>,
    now: nat,
    e: int,
    id: Seq<char>,
)
    requires
        0 <= n <= config.devices@.len(),
    ensures
        scheduled(entries_of(config, n, pushed, now), e, id) <==> 0 <= e < n && has_point(
            config.devices@[e].points@,
            id,
        ) && !pushed.contains((e, id)),
    decreases n,
{
    if n > 0 {
        let d = config.devices@[n - 1];
        let head = entries_of(config, n - 1, pushed, now);
        let tail = device_entries(config, d, n - 1, d.points@, pushed, now);
        let all = entries_of(config, n, pushed, now);
        entries_scheduled(config, n - 1, pushed, now, e, id);
        device_entries_scheduled(config, d, n - 1, d.points@, pushed, now, e, id);
        if scheduled(head, e, id) {
            let i = choose|i: int|
                0 <= i < head.len() && (#[trigger] head[i]).device_index == e && head[i].point.id
                    == id;
            assert(all[i] == head[i]);
        }
        if scheduled(tail, e, id) {
            let i = choose|i: int|
                0 <= i < tail.len() && (#[trigger] tail[i]).device_index == e && tail[i].point.id
                    == id;
            assert(all[head.len() + i] == tail[i]);
        }
        if scheduled(all, e, id) {
            let i = choose|i: int|
                0 <= i < all.len() && (#[trigger] all[i]).device_index == e && all[i].point.id
                    == id;
            if i < head.len() {
                assert(head[i] == all[i]);
            } else {
                assert(tail[i - head.len()] == all[i]);
            }
        }
    }
}

/// A configured point is on the polling schedule unless it is pushed, and nothing else is.
pub proof fn scheduled_unless_pushed(
    config: ConnectorConfig,
    pushed: Set<(int, Seq<char>)>,
    now: nat,
    d: int,
    id: Seq<char>,
)
    ensures
        scheduled(full_schedule(config, pushed, now), d, id) <==> configured(config, d, id)
            && !pushed.contains((d, id)),
{
    entries_scheduled(config, config.devices@.len() as int, pushed, now, d, id);
}

/// The points that are read together: those of one device.
#[derive(Debug, PartialEq)]
pub struct Batch {
    pub device_index: usize,
    pub points: Vec<PointRef>,
}

/// What a batch is.
#[verifier::ext_equal]
pub struct BatchView {
    pub device_index: int,
    pub points: Seq<PointView>,
}

impl View for Batch {
    type V = BatchView;

    open spec fn view(&self) -> BatchView {
        BatchView { device_index: self.device_index as int, points: refs(self.points@) }
    }
}

/// What each batch is.
pub open spec fn batch_views(v: Seq<Batch>) -> Seq<BatchView> {
    v.map_values(|b: Batch| b@)
}

/// The batches with a point more in the one of its device, which comes to the end where there is
/// none.
pub open spec fn with_point(batches: Seq<BatchView>, d: int, point: PointView) -> Seq<BatchView>
    decreases batches.len(),
{
    if batches.len() == 0 {
        seq![BatchView { device_index: d, points: seq![point] }]
    } else if batches[0].device_index == d {
        seq![BatchView { device_index: d, points: batches[0].points.push(point) }]
            + batches.drop_first()
    } else {
        seq![batches[0]] + with_point(batches.drop_first(), d, point)
    }
}

/// The points that are due, by their devices.
pub open spec fn due_batches(schedule: Seq<EntryView>, now: nat) -> Seq<BatchView>
    decreases schedule.len(),
{
    if schedule.len() == 0 {
        Seq::empty()
    } else {
        let head = due_batches(schedule.drop_last(), now);
        let e = schedule.last();
        if e.next_due <= now {
            with_point(head, e.device_index, e.point)
        } else {
            head
        }
    }
}

/// `n` nanoseconds after `now`, or the end of the clock.
pub open spec fn later(now: nat, n: nat) -> nat {
    if now + n <= u128::MAX {
        now + n
    } else {
        u128::MAX as nat
    }
}

/// `n` nanoseconds after `now`, or the end of the clock.
pub fn moment_after(now: u128, d: Duration) -> (r: u128)
    ensures
        r == later(now as nat, nanos(d)),
{
    now.saturating_add(d.as_nanos())
}

/// An entry once its point was read, where it was due.
pub open spec fn rescheduled(e: EntryView, now: nat) -> EntryView {
    if e.next_due <= now {
        EntryView { next_due: later(now, e.interval), ..e }
    } else {
        e
    }
}

proof fn with_point_at(batches: Seq<BatchView>, d: int, point: PointView, i: int)
    requires
        0 <= i <= batches.len(),
        forall|j: int| 0 <= j < i ==> (#[trigger] batches[j]).device_index != d,
        i < batches.len() ==> batches[i].device_index == d,
    ensures
        with_point(batches, d, point) == if i < batches.len() {
            batches.update(
                i,
                BatchView { device_index: d, points: batches[i].points.push(point) },
            )
        } else {
            batches.push(BatchView { device_index: d, points: seq![point] })
        },
    decreases batches.len(),
{
    let fresh = BatchView { device_index: d, points: seq![point] };
    if batches.len() == 0 {
        assert(batches.push(fresh) =~= seq![fresh]);
    } else if i == 0 {
        let b = BatchView { device_index: d, points: batches[0].points.push(point) };
        assert(batches.update(0, b) =~= seq![b] + batches.drop_first());
    } else {
        let rest = batches.drop_first();
        assert(batches[0].device_index != d);
        assert forall|j: int| 0 <= j < i - 1 implies (#[trigger] rest[j]).device_index != d by {
            assert(rest[j] == batches[j + 1]);
        }
        with_point_at(rest, d, point, i - 1);
        if i < batches.len() {
            let b = BatchView { device_index: d, points: batches[i].points.push(point) };
            assert(batches.update(i, b) =~= seq![batches[0]] + rest.update(i - 1, b));
        } else {
            assert(batches.push(fresh) =~= seq![batches[0]] + rest.push(fresh));
        }
    }
}

fn add_point(batches: &mut Vec<Batch>, device_index: usize, point: PointRef)
    ensures
        batch_views(final(batches)@) == with_point(
            batch_views(old(batches)@),
            device_index as int,
            point@,
        ),
{
    let ghost before = batch_views(batches@);
    let ghost goal = with_point(before, device_index as int, point@);
    let mut i: usize = 0;
    while i < batches.len() && batches[i].device_index != device_index
        invariant
            i <= batches@.len(),
            batches@ == old(batches)@,
            before == batch_views(batches@),
            forall|j: int| 0 <= j < i ==> (#[trigger] before[j]).device_index != device_index,
        decreases batches@.len() - i,
    {
        i = i + 1;
    }
    proof {
        with_point_at(before, device_index as int, point@, i as int);
    }
    if i < batches.len() {
        let mut points: Vec<PointRef> = Vec::new();
        std::mem::swap(&mut points, &mut batches[i].points);
        let ghost was = refs(points@);
        points.push(point);
        assert(refs(points@) =~= was.push(point@));
        batches[i].points = points;
        assert(batch_views(batches@) =~= goal);
    } else {
        let mut points: Vec<PointRef> = Vec::new();
        points.push(point);
        assert(refs(points@) =~= seq![point@]);
        batches.push(Batch { device_index, points });
        assert(batch_views(batches@) =~= goal);
    }
}

/// Takes the points that are due off the schedule, by their devices, and puts each back for the
/// next time.
pub fn take_due(schedule: &mut Vec<ScheduleEntry>, now: u128) -> (r: Vec<Batch>)
    ensures
        batch_views(r@) == due_batches(schedule_view(old(schedule)@), now as nat),
        schedule_view(final(schedule)@) == schedule_view(old(schedule)@).map_values(
            |e: EntryView| rescheduled(e, now as nat),
        ),
{
    let ghost all = schedule_view(schedule@);
    let mut batches: Vec<Batch> = Vec::new();
    let mut i: usize = 0;
    assert(all.take(0) =~= Seq::<EntryView>::empty());
    assert(batch_views(batches@) =~= Seq::<BatchView>::empty());
    while i < schedule.len()
        invariant
            i <= schedule@.len(),
            schedule@.len() == all.len(),
            all == schedule_view(old(schedule)@),
            batch_views(batches@) == due_batches(all.take(i as int), now as nat),
            forall|k: int|
                0 <= k < i ==> (#[trigger] schedule@[k])@ == rescheduled(all[k], now as nat),
            forall|k: int| i <= k < all.len() ==> (#[trigger] schedule@[k])@ == all[k],
        decreases schedule@.len() - i,
    {
        assert(all.take(i + 1).drop_last() =~= all.take(i as int));
        assert(all.take(i + 1).last() == all[i as int]);
        assert(schedule@[i as int]@ == all[i as int]);
        if schedule[i].next_due <= now {
            let point: PointRef = schedule[i].point.clone();
            add_point(&mut batches, schedule[i].device_index, point);
            let next: u128 = moment_after(now, schedule[i].interval);
            schedule[i].next_due = next;
            assert(schedule@[i as int]@ =~= rescheduled(all[i as int], now as nat));
        }
        i = i + 1;
    }
    assert(all.take(all.len() as int) =~= all);
    assert(schedule_view(schedule@) =~= all.map_values(
        |e: EntryView| rescheduled(e, now as nat),
    ));
    batches
}

/// What batches ask of the device at `d`.
pub open spec fn asked_of(batches: Seq<BatchView>, d: int) -> Seq<PointView>
    decreases batches.len(),
{
    if batches.len() == 0 {
        Seq::empty()
    } else if batches[0].device_index == d {
        batches[0].points + asked_of(batches.drop_first(), d)
    } else {
        asked_of(batches.drop_first(), d)
    }
}

/// No device has two batches.
pub open spec fn one_batch_each(batches: Seq<BatchView>) -> bool {
    forall|i: int, j: int|
        0 <= i < j < batches.len() ==> (#[trigger] batches[i]).device_index != (
        #[trigger] batches[j]).device_index
}

proof fn nothing_asked(batches: Seq<BatchView>, d: int)
    requires
        forall|i: int| 0 <= i < batches.len() ==> (#[trigger] batches[i]).device_index != d,
    ensures
        asked_of(batches, d) == Seq::<PointView>::empty(),
    decreases batches.len(),
{
    if batches.len() > 0 {
        let rest = batches.drop_first();
        assert(batches[0].device_index != d);
        assert forall|i: int| 0 <= i < rest.len() implies (#[trigger] rest[i]).device_index != d by {
            assert(rest[i] == batches[i + 1]);
        }
        nothing_asked(rest, d);
    }
}

proof fn one_more_asked(batches: Seq<BatchView>, d: int, point: PointView)
    requires
        one_batch_each(batches),
    ensures
        one_batch_each(with_point(batches, d, point)),
        asked_of(with_point(batches, d, point), d) == asked_of(batches, d).push(point),
        forall|e: int| e != d ==> #[trigger] asked_of(with_point(batches, d, point), e) == asked_of(
            batches,
            e,
        ),
        forall|i: int|
            0 <= i < with_point(batches, d, point).len() ==> (#[trigger] with_point(
                batches,
                d,
                point,
            )[i]).device_index == d || exists|j: int|
                0 <= j < batches.len() && (#[trigger] batches[j]).device_index == with_point(
                    batches,
                    d,
                    point,
                )[i].device_index,
    decreases batches.len(),
{
    let r = with_point(batches, d, point);
    if batches.len() == 0 {
        assert forall|e: int| #[trigger] asked_of(r, e) == if e == d {
            seq![point]
        } else {
            Seq::empty()
        } by {
            nothing_asked(r.drop_first(), e);
            assert(seq![point] + Seq::<PointView>::empty() =~= seq![point]);
        }
        assert(seq![point] =~= Seq::<PointView>::empty().push(point));
    } else {
        let rest = batches.drop_first();
        assert(one_batch_each(rest)) by {
            assert forall|i: int, j: int| 0 <= i < j < rest.len() implies (
            #[trigger] rest[i]).device_index != (#[trigger] rest[j]).device_index by {
                assert(rest[i] == batches[i + 1] && rest[j] == batches[j + 1]);
            }
        }
        if batches[0].device_index == d {
            assert(r.drop_first() =~= rest);
            assert forall|i: int| 0 <= i < rest.len() implies (#[trigger] rest[i]).device_index
                != d by {
                assert(rest[i] == batches[i + 1]);
                assert(batches[0].device_index != batches[i + 1].device_index);
            }
            nothing_asked(rest, d);
            assert(asked_of(r, d) =~= asked_of(batches, d).push(point));
            assert forall|i: int, j: int| 0 <= i < j < r.len() implies (
            #[trigger] r[i]).device_index != (#[trigger] r[j]).device_index by {
                assert(batches[i].device_index != batches[j].device_index);
            }
            assert forall|i: int| 0 <= i < r.len() implies (#[trigger] r[i]).device_index == d
                || exists|j: int|
                0 <= j < batches.len() && (#[trigger] batches[j]).device_index
                    == r[i].device_index by {
                assert(batches[i].device_index == r[i].device_index);
            }
        } else {
            let inner = with_point(rest, d, point);
            one_more_asked(rest, d, point);
            assert(r.drop_first() =~= inner);
            assert(asked_of(r, d) =~= asked_of(batches, d).push(point));
            assert forall|e: int| e != d implies #[trigger] asked_of(r, e) == asked_of(
                batches,
                e,
            ) by {
                assert(asked_of(inner, e) == asked_of(rest, e));
            }
            assert forall|i: int| 0 <= i < r.len() implies (#[trigger] r[i]).device_index == d
                || exists|j: int|
                0 <= j < batches.len() && (#[trigger] batches[j]).device_index
                    == r[i].device_index by {
                if i == 0 {
                    assert(batches[0].device_index == r[0].device_index);
                } else {
                    assert(r[i] == inner[i - 1]);
                    if r[i].device_index != d {
                        let j = choose|j: int|
                            0 <= j < rest.len() && (#[trigger] rest[j]).device_index
                                == inner[i - 1].device_index;
                        assert(batches[j + 1].device_index == r[i].device_index);
                    }
                }
            }
            assert forall|i: int, j: int| 0 <= i < j < r.len() implies (
            #[trigger] r[i]).device_index != (#[trigger] r[j]).device_index by {
                assert(r[j] == inner[j - 1]);
                if i > 0 {
                    assert(r[i] == inner[i - 1]);
                } else if inner[j - 1].device_index != d {
                    let k = choose|k: int|
                        0 <= k < rest.len() && (#[trigger] rest[k]).device_index == inner[j
                            - 1].device_index;
                    assert(rest[k] == batches[k + 1]);
                    assert(batches[0].device_index != batches[k + 1].device_index);
                }
            }
        }
    }
}

/// Each device is asked once, for exactly those of its points whose time has come, each once and
/// in the order of the schedule.
pub proof fn due_points_are_asked_for_device_by_device(schedule: Seq<EntryView>, now: nat, d: int)
    ensures
        one_batch_each(due_batches(schedule, now)),
        asked_of(due_batches(schedule, now), d) == schedule.filter(
            |e: EntryView| e.device_index == d && e.next_due <= now,
        ).map_values(|e: EntryView| e.point),
    decreases schedule.len(),
{
    let wanted = |e: EntryView| e.device_index == d && e.next_due <= now;
    let point = |e: EntryView| e.point;
    reveal(Seq::filter);
    if schedule.len() > 0 {
        let init = schedule.drop_last();
        let e = schedule.last();
        due_points_are_asked_for_device_by_device(init, now, d);
        let head = due_batches(init, now);
        if e.next_due <= now {
            one_more_asked(head, e.device_index, e.point);
        }
        if wanted(e) {
            assert(init.filter(wanted).push(e).map_values(point) =~= init.filter(
                wanted,
            ).map_values(point).push(e.point));
        }
    } else {
        assert(schedule.filter(wanted).map_values(point) =~= Seq::<PointView>::empty());
    }
}

/// A point of that id is asked of the device at `d`.
pub open spec fn is_asked(batches: Seq<BatchView>, d: int, id: Seq<char>) -> bool {
    exists|k: int| 0 <= k < asked_of(batches, d).len() && (#[trigger] asked_of(batches, d)[k]).id
        == id
}

proof fn asked_where_due(schedule: Seq<EntryView>, now: nat, d: int, id: Seq<char>)
    ensures
        is_asked(due_batches(schedule, now), d, id) <==> exists|i: int|
            0 <= i < schedule.len() && (#[trigger] schedule[i]).device_index == d
                && schedule[i].point.id == id && schedule[i].next_due <= now,
{
    broadcast use vstd::seq_lib::group_filter_ensures;

    let wanted = |e: EntryView| e.device_index == d && e.next_due <= now;
    let kept = schedule.filter(wanted);
    let asked = asked_of(due_batches(schedule, now), d);
    due_points_are_asked_for_device_by_device(schedule, now, d);
    if is_asked(due_batches(schedule, now), d, id) {
        let k = choose|k: int| 0 <= k < asked.len() && (#[trigger] asked[k]).id == id;
        assert(asked[k] == kept[k].point);
        assert(kept.contains(kept[k]));
        assert(wanted(kept[k]));
        schedule.lemma_filter_contains_rev(wanted, kept[k]);
        let i = choose|i: int| 0 <= i < schedule.len() && schedule[i] == kept[k];
        assert(schedule[i].point.id == id);
    }
    if exists|i: int|
        0 <= i < schedule.len() && (#[trigger] schedule[i]).device_index == d
            && schedule[i].point.id == id && schedule[i].next_due <= now {
        let i = choose|i: int|
            0 <= i < schedule.len() && (#[trigger] schedule[i]).device_index == d
                && schedule[i].point.id == id && schedule[i].next_due <= now;
        assert(wanted(schedule[i]));
        assert(kept.contains(schedule[i]));
        let k = choose|k: int| 0 <= k < kept.len() && kept[k] == schedule[i];
        assert(asked[k].id == id);
    }
}

/// The entry that the point at `p` of the device at `d` has.
spec fn own_entry(config: ConnectorConfig, d: int, p: int, now: nat) -> EntryView {
    let device = config.devices@[d];
    let point = device.points@[p];
    EntryView {
        device_index: d,
        point: resolved_point(config, device, point),
        interval: point_interval(config, device, point),
        next_due: now,
    }
}

proof fn device_entry_origin(
    config: ConnectorConfig,
    d: int,
    n: int,
    pushed: Set<(int, Seq<char>)>,
    now: nat,
    i: int,
) -> (p: int)
    requires
        0 <= d < config.devices@.len(),
        0 <= n <= config.devices@[d].points@.len(),
        0 <= i < device_entries(
            config,
            config.devices@[d],
            d,
            config.devices@[d].points@.take(n),
            pushed,
            now,
        ).len(),
    ensures
        0 <= p < n,
        !pushed.contains((d, config.devices@[d].points@[p].id@)),
        device_entries(
            config,
            config.devices@[d],
            d,
            config.devices@[d].points@.take(n),
            pushed,
            now,
        )[i] == own_entry(config, d, p, now),
    decreases n,
{
    let points = config.devices@[d].points@;
    assert(n > 0);
    assert(points.take(n).drop_last() =~= points.take(n - 1));
    assert(points.take(n).last() == points[n - 1]);
    let head = device_entries(config, config.devices@[d], d, points.take(n - 1), pushed, now);
    if i < head.len() {
        device_entry_origin(config, d, n - 1, pushed, now, i)
    } else {
        n - 1
    }
}

proof fn device_entry_place(
    config: ConnectorConfig,
    d: int,
    n: int,
    pushed: Set<(int, Seq<char>)>,
    now: nat,
    p: int,
) -> (i: int)
    requires
        0 <= d < config.devices@.len(),
        0 <= p < n <= config.devices@[d].points@.len(),
        !pushed.contains((d, config.devices@[d].points@[p].id@)),
    ensures
        ({
            let all = device_entries(
                config,
                config.devices@[d],
                d,
                config.devices@[d].points@.take(n),
                pushed,
                now,
            );
            0 <= i < all.len() && all[i] == own_entry(config, d, p, now)
        }),
    decreases n,
{
    let points = config.devices@[d].points@;
    assert(points.take(n).drop_last() =~= points.take(n - 1));
    assert(points.take(n).last() == points[n - 1]);
    let head = device_entries(config, config.devices@[d], d, points.take(n - 1), pushed, now);
    if p < n - 1 {
        device_entry_place(config, d, n - 1, pushed, now, p)
    } else {
        head.len() as int
    }
}

proof fn entry_origin(
    config: ConnectorConfig,
    n: int,
    pushed: Set<(int, Seq<char>)>,
    now: nat,
    i: int,
) -> (r: (int, int))
    requires
        0 <= n <= config.devices@.len(),
        0 <= i < entries_of(config, n, pushed, now).len(),
    ensures
        0 <= r.0 < n,
        0 <= r.1 < config.devices@[r.0].points@.len(),
        !pushed.contains((r.0, config.devices@[r.0].points@[r.1].id@)),
        entries_of(config, n, pushed, now)[i] == own_entry(config, r.0, r.1, now),
    decreases n,
{
    let d = config.devices@[n - 1];
    let head = entries_of(config, n - 1, pushed, now);
    if i < head.len() {
        entry_origin(config, n - 1, pushed, now, i)
    } else {
        let len = d.points@.len() as int;
        assert(d.points@.take(len) =~= d.points@);
        (n - 1, device_entry_origin(config, n - 1, len, pushed, now, i - head.len()))
    }
}

proof fn entry_place(
    config: ConnectorConfig,
    n: int,
    pushed: Set<(int, Seq<char>)>,
    now: nat,
    d: int,
    p: int,
) -> (i: int)
    requires
        0 <= d < n <= config.devices@.len(),
        0 <= p < config.devices@[d].points@.len(),
        !pushed.contains((d, config.devices@[d].points@[p].id@)),
    ensures
        0 <= i < entries_of(config, n, pushed, now).len(),
        entries_of(config, n, pushed, now)[i] == own_entry(config, d, p, now),
    decreases n,
{
    let head = entries_of(config, n - 1, pushed, now);
    if d < n - 1 {
        entry_place(config, n - 1, pushed, now, d, p)
    } else {
        let points = config.devices@[d].points@;
        let len = points.len() as int;
        assert(points.take(len) =~= points);
        head.len() + device_entry_place(config, d, len, pushed, now, p)
    }
}

/// The point at `p` of the device at `d` has that id, and is polled.
pub open spec fn is_polled(
    config: ConnectorConfig,
    pushed: Set<(int, Seq<char>)>,
    d: int,
    p: int,
    id: Seq<char>,
) -> bool {
    0 <= d < config.devices@.len() && 0 <= p < config.devices@[d].points@.len()
        && config.devices@[d].points@[p].id@ == id && !pushed.contains((d, id))
}

/// A point is read as often as its own interval says; where that spells no duration, as often as
/// its device's does, then its connector's, and every two seconds where none does.
pub proof fn the_closest_interval_holds(
    config: ConnectorConfig,
    device: DeviceConfig,
    point: PointConfig,
)
    ensures
        ({
            let own = match point.poll_interval {
                Some(t) => duration_text(t@),
                None => None,
            };
            let shared = match device.poll_interval {
                Some(t) => duration_text(t@),
                None => None,
            };
            let common = duration_text(config.connector.poll_interval@);
            let interval = point_interval(config, device, point);
            &&& own matches Some(n) ==> interval == n
            &&& own is None ==> (shared matches Some(n) ==> interval == n)
            &&& own is None && shared is None ==> (common matches Some(n) ==> interval == n)
            &&& own is None && shared is None && common is None ==> interval == 2_000_000_000
            &&& resolved_point(config, device, point).interval == Some(interval)
        }),
{
}

/// Every polled point is read at once; and once it was read, at `now`, it is not due before its
/// own interval is over, and is due from then on. `t` is any moment before the end of the clock.
pub proof fn points_are_read_at_their_own_interval(
    config: ConnectorConfig,
    pushed: Set<(int, Seq<char>)>,
    start: nat,
    now: nat,
    t: nat,
    d: int,
    id: Seq<char>,
)
    requires
        start <= now,
        t < u128::MAX,
    ensures
        ({
            let first = full_schedule(config, pushed, start);
            let next = first.map_values(|e: EntryView| rescheduled(e, now));
            &&& is_asked(due_batches(first, now), d, id) <==> exists|p: int| #[trigger]
                is_polled(config, pushed, d, p, id)
            &&& is_asked(due_batches(next, t), d, id) <==> exists|p: int| #[trigger]
                is_polled(config, pushed, d, p, id) && now + point_interval(
                    config,
                    config.devices@[d],
                    config.devices@[d].points@[p],
                ) <= t
        }),
{
    let n = config.devices@.len() as int;
    let first = full_schedule(config, pushed, start);
    let next = first.map_values(|e: EntryView| rescheduled(e, now));
    asked_where_due(first, now, d, id);
    asked_where_due(next, t, d, id);
    if is_asked(due_batches(first, now), d, id) {
        let i = choose|i: int|
            0 <= i < first.len() && (#[trigger] first[i]).device_index == d && first[i].point.id
                == id && first[i].next_due <= now;
        let r = entry_origin(config, n, pushed, start, i);
        assert(is_polled(config, pushed, d, r.1, id));
    }
    if exists|p: int| #[trigger] is_polled(config, pushed, d, p, id) {
        let p = choose|p: int| #[trigger] is_polled(config, pushed, d, p, id);
        let i = entry_place(config, n, pushed, start, d, p);
        assert(first[i].device_index == d);
    }
    if is_asked(due_batches(next, t), d, id) {
        let i = choose|i: int|
            0 <= i < next.len() && (#[trigger] next[i]).device_index == d && next[i].point.id == id
                && next[i].next_due <= t;
        assert(next[i] == rescheduled(first[i], now));
        let r = entry_origin(config, n, pushed, start, i);
        assert(is_polled(config, pushed, d, r.1, id));
    }
    if exists|p: int| #[trigger]
        is_polled(config, pushed, d, p, id) && now + point_interval(
            config,
            config.devices@[d],
            config.devices@[d].points@[p],
        ) <= t {
        let p = choose|p: int| #[trigger]
            is_polled(config, pushed, d, p, id) && now + point_interval(
                config,
                config.devices@[d],
                config.devices@[d].points@[p],
            ) <= t;
        let i = entry_place(config, n, pushed, start, d, p);
        assert(next[i] == rescheduled(first[i], now));
        assert(next[i].device_index == d);
    }
}

/// An entry once the due points were taken at each of those moments.
pub open spec fn after_ticks(e: EntryView, ticks: Seq<nat>) -> EntryView
    decreases ticks.len(),
{
    if ticks.len() == 0 {
        e
    } else {
        rescheduled(after_ticks(e, ticks.drop_last()), ticks.last())
    }
}

/// The point of an entry is taken at the `j`th of those moments.
pub open spec fn taken_at(e: EntryView, ticks: Seq<nat>, j: int) -> bool {
    0 <= j < ticks.len() && after_ticks(e, ticks.take(j)).next_due <= ticks[j]
}

/// Moments in their order, before the end of the clock.
pub open spec fn in_order(ticks: Seq<nat>) -> bool {
    &&& forall|i: int, j: int|
        0 <= i < j < ticks.len() ==> #[trigger] ticks[i] <= #[trigger] ticks[j]
    &&& forall|i: int| 0 <= i < ticks.len() ==> #[trigger] ticks[i] < u128::MAX
}

/// When a point was last taken among the first `n` moments.
proof fn last_taken(e: EntryView, ticks: Seq<nat>, n: int) -> (r: Option<int>)
    requires
        0 <= n <= ticks.len(),
    ensures
        ({
            let now = after_ticks(e, ticks.take(n));
            &&& now.device_index == e.device_index
            &&& now.point == e.point
            &&& now.interval == e.interval
            &&& match r {
                None => now.next_due == e.next_due && forall|i: int|
                    0 <= i < n ==> !#[trigger] taken_at(e, ticks, i),
                Some(k) => 0 <= k < n && taken_at(e, ticks, k) && now.next_due == later(
                    ticks[k],
                    e.interval,
                ) && forall|i: int| k < i < n ==> !#[trigger] taken_at(e, ticks, i),
            }
        }),
    decreases n,
{
    if n == 0 {
        None
    } else {
        let before = last_taken(e, ticks, n - 1);
        assert(ticks.take(n).drop_last() =~= ticks.take(n - 1));
        assert(ticks.take(n).last() == ticks[n - 1]);
        if taken_at(e, ticks, n - 1) {
            Some(n - 1)
        } else {
            before
        }
    }
}

/// However often the due points are taken, a point is read at a moment exactly where no earlier
/// reading of it lies less than its interval back; and it is read at the first moment.
pub proof fn readings_lie_an_interval_apart(e: EntryView, ticks: Seq<nat>, j: int)
    requires
        0 <= j < ticks.len(),
        in_order(ticks),
        e.next_due <= ticks[0],
    ensures
        taken_at(e, ticks, j) <==> forall|i: int|
            0 <= i < j && #[trigger] taken_at(e, ticks, i) ==> ticks[i] + e.interval <= ticks[j],
        taken_at(e, ticks, 0),
        after_ticks(e, ticks).point == e.point,
        after_ticks(e, ticks).device_index == e.device_index,
        after_ticks(e, ticks).interval == e.interval,
{
    assert(ticks.take(0) =~= Seq::<nat>::empty());
    assert(ticks.take(ticks.len() as int) =~= ticks);
    let end = last_taken(e, ticks, ticks.len() as int);
    let last = last_taken(e, ticks, j);
    assert(taken_at(e, ticks, 0));
    match last {
        None => {},
        Some(k) => {
            assert forall|i: int| 0 <= i < j && #[trigger] taken_at(e, ticks, i) implies ticks[i]
                <= ticks[k] by {
                assert(i <= k);
            }
            assert(ticks[j] < u128::MAX);
        },
    }
}

/// The points of a device that a module is asked to push: those that do not decline it.
pub open spec fn pushable(
    config: ConnectorConfig,
    device: DeviceConfig,
    points: Seq<PointConfig>,
) -> Seq<PointView>
    decreases points.len(),
{
    if points.len() == 0 {
        Seq::empty()
    } else {
        let head = pushable(config, device, points.drop_last());
        if points.last().subscribe == Some(false) {
            head
        } else {
            head.push(resolved_point(config, device, points.last()))
        }
    }
}

/// The points of a device that a module is asked to push.
pub fn push_points(config: &ConnectorConfig, device: &DeviceConfig) -> (r: Vec<PointRef>)
    ensures
        refs(r@) == pushable(*config, *device, device.points@),
{
    let interval: Duration = interval_of_device(config, device);
    let mut out: Vec<PointRef> = Vec::new();
    let mut j: usize = 0;
    assert(device.points@.take(0) =~= Seq::<PointConfig>::empty());
    assert(refs(out@) =~= Seq::<PointView>::empty());
    while j < device.points.len()
        invariant
            j <= device.points@.len(),
            nanos(interval) == device_interval(*config, *device),
            refs(out@) == pushable(*config, *device, device.points@.take(j as int)),
        decreases device.points@.len() - j,
    {
        let point: &PointConfig = &device.points[j];
        assert(device.points@.take(j + 1).drop_last() =~= device.points@.take(j as int));
        assert(device.points@.take(j + 1).last() == *point);
        let declined: bool = match point.subscribe {
            Some(b) => !b,
            None => false,
        };
        if !declined {
            let (r, own) = resolve_point(point, device.default_mode, interval);
            let ghost was = refs(out@);
            out.push(r);
            assert(refs(out@) =~= was.push(r@));
        }
        j = j + 1;
    }
    assert(device.points@.take(device.points@.len() as int) =~= device.points@);
    out
}

/// The pushed points with those of a device, the one at `d`, pushed or not.
pub open spec fn with_subscription(
    pushed: Set<(int, Seq<char>)>,
    d: int,
    points: Seq<PointView>,
    on: bool,
) -> Set<(int, Seq<char>)>
    decreases points.len(),
{
    if points.len() == 0 {
        pushed
    } else {
        let head = with_subscription(pushed, d, points.drop_last(), on);
        if on {
            head.insert((d, points.last().id))
        } else {
            head.remove((d, points.last().id))
        }
    }
}

/// Notes whether the points of a device are pushed: once a module was asked for it, they are
/// where it agreed, and polled again where it did not.
pub fn note_subscription(
    subscribed: &mut Subscribed,
    device_index: usize,
    points: &Vec<PointRef>,
    agreed: bool,
)
    ensures
        final(subscribed)@ == with_subscription(
            old(subscribed)@,
            device_index as int,
            refs(points@),
            agreed,
        ),
{
    let ghost all = refs(points@);
    let mut i: usize = 0;
    assert(all.take(0) =~= Seq::<PointView>::empty());
    while i < points.len()
        invariant
            i <= points@.len(),
            all == refs(points@),
            subscribed@ == with_subscription(
                old(subscribed)@,
                device_index as int,
                all.take(i as int),
                agreed,
            ),
        decreases points@.len() - i,
    {
        assert(all.take(i + 1).drop_last() =~= all.take(i as int));
        assert(all.take(i + 1).last() == points@[i as int]@);
        if agreed {
            subscribed.insert(device_index, points[i].id.as_str());
        } else {
            subscribed.remove(device_index, points[i].id.as_str());
        }
        i = i + 1;
    }
    assert(all.take(all.len() as int) =~= all);
}

/// A point of that id among references.
pub open spec fn refers_to(points: Seq<PointView>, id: Seq<char>) -> bool {
    exists|i: int| 0 <= i < points.len() && (#[trigger] points[i]).id == id
}

/// What a module agreed to push is pushed, what it declined is not, and nothing else changes.
pub proof fn subscription_covers_its_points(
    pushed: Set<(int, Seq<char>)>,
    d: int,
    points: Seq<PointView>,
    on: bool,
    e: int,
    id: Seq<char>,
)
    ensures
        with_subscription(pushed, d, points, on).contains((e, id)) == if e == d && refers_to(
            points,
            id,
        ) {
            on
        } else {
            pushed.contains((e, id))
        },
    decreases points.len(),
{
    if points.len() > 0 {
        let init = points.drop_last();
        subscription_covers_its_points(pushed, d, init, on, e, id);
        if refers_to(init, id) {
            let i = choose|i: int| 0 <= i < init.len() && (#[trigger] init[i]).id == id;
            assert(points[i] == init[i]);
        }
        if refers_to(points, id) {
            let i = choose|i: int| 0 <= i < points.len() && (#[trigger] points[i]).id == id;
            if i < init.len() {
                assert(init[i] == points[i]);
            }
        }
        if points.last().id == id {
            assert(points[points.len() - 1].id == id);
        }
    }
}

/// A module is asked for a point as it is configured.
pub proof fn points_are_asked_for_as_configured(
    point: PointConfig,
    device_default: Option<Mode>,
    interval: Option<nat>,
)
    ensures
        ({
            let p = configured_point(point, device_default, interval);
            &&& p.id == point.id@
            &&& point.mode matches Some(m) ==> p.mode == m
            &&& point.mode is None ==> (device_default matches Some(m) ==> p.mode == m)
            &&& p.datatype == point.datatype
            &&& p.endianness == Endianness::Little <==> text_of(point.endianness) == Some(
                "little"@,
            )
            &&& p.word_order == WordOrder::Little <==> text_of(point.word_order) == Some("little"@)
            &&& p.access == access_of(text_of(point.access))
            &&& p.unit == text_of(point.unit)
            &&& p.transform is Some <==> point.transform is Some
            &&& point.transform matches Some(t) ==> p.transform == Some(
                TransformView {
                    multiplier: t.multiplier@,
                    divisor: t.divisor@,
                    decimal_shift: t.decimal_shift,
                    offset: t.offset@,
                },
            )
            &&& p.interval == interval
        }),
{
}

/// A module is asked to push each point that does not decline it, and no other.
pub proof fn points_that_do_not_decline_are_pushed(
    config: ConnectorConfig,
    device: DeviceConfig,
    points: Seq<PointConfig>,
    p: PointView,
)
    ensures
        pushable(config, device, points).contains(p) <==> exists|i: int|
            0 <= i < points.len() && (#[trigger] points[i]).subscribe != Some(false) && p
                == resolved_point(config, device, points[i]),
    decreases points.len(),
{
    if points.len() > 0 {
        let before = points.drop_last();
        points_that_do_not_decline_are_pushed(config, device, before, p);
        let head = pushable(config, device, before);
        let all = pushable(config, device, points);
        assert(points[points.len() - 1] == points.last());
        if head.contains(p) {
            let k = choose|k: int| 0 <= k < head.len() && head[k] == p;
            assert(all[k] == p);
            let i = choose|i: int|
                0 <= i < before.len() && (#[trigger] before[i]).subscribe != Some(false) && p
                    == resolved_point(config, device, before[i]);
            assert(points[i] == before[i]);
        }
        if points.last().subscribe != Some(false) {
            assert(all[head.len() as int] == resolved_point(config, device, points.last()));
        }
        if all.contains(p) && !head.contains(p) {
            let k = choose|k: int| 0 <= k < all.len() && all[k] == p;
            if k < head.len() {
                assert(head[k] == p);
            }
        }
        if exists|i: int|
            0 <= i < points.len() && (#[trigger] points[i]).subscribe != Some(false) && p
                == resolved_point(config, device, points[i]) {
            let i = choose|i: int|
                0 <= i < points.len() && (#[trigger] points[i]).subscribe != Some(false) && p
                    == resolved_point(config, device, points[i]);
            if i < before.len() {
                assert(before[i] == points[i]);
            }
        }
    }
}

} // verus!
