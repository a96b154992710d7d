//! Which readings of a point are published, by the policy that the point declares.
use crate::clock::{duration_text, nanos, parse_duration};
use crate::config::{PointConfig, PublishPolicy};
use crate::model::{value_view, Quality, Sample, Value, ValueView};
use crate::samples::Key;
use crate::schedule::own_interval;
use crate::text::{same_text, text_of};
use std::time::Duration;
use vstd::prelude::*;

verus! {

/// What a reading says: its value, and how it is to be taken.
pub struct Content {
    pub value: Option<Value>,
    pub quality: Quality,
}

/// What a reading says.
#[verifier::ext_equal]
pub struct ContentView {
    pub value: Option<ValueView>,
    pub quality: Quality,
}

impl View for Content {
    type V = ContentView;

    open spec fn view(&self) -> ContentView {
        ContentView { value: value_view(self.value), quality: self.quality }
    }
}

/// What a sample says.
pub open spec fn content_of(s: Sample) -> ContentView {
    ContentView { value: value_view(s.value), quality: s.quality }
}

/// Whether two readings differ. Numbers do where `apart` says so, everything else where it is not
/// the same.
pub open spec fn differ(a: ContentView, b: ContentView, apart: bool) -> bool {
    a.quality != b.quality || match (a.value, b.value) {
        (Some(ValueView::Number(_)), Some(ValueView::Number(_))) => apart,
        (x, y) => x != y,
    }
}

/// A number.
pub open spec fn is_number(v: Option<ValueView>) -> bool {
    match v {
        Some(x) => x is Number,
        None => false,
    }
}

/// Readings of different quality differ. So do readings of different values, of whatever kinds,
/// unless both are numbers: of those it is left to whoever calls. Nothing else differs.
pub proof fn readings_differ_by_what_they_say(a: ContentView, b: ContentView, apart: bool)
    ensures
        a.quality != b.quality ==> differ(a, b, apart),
        a.value != b.value && !(is_number(a.value) && is_number(b.value)) ==> differ(a, b, apart),
        is_number(a.value) && is_number(b.value) && a.quality == b.quality ==> differ(a, b, apart)
            == apart,
        a == b && !is_number(a.value) ==> !differ(a, b, apart),
{
}

/// How the number of a reading compares with those before it. Comparing floats is left to whoever
/// calls.
#[derive(Clone, Copy, Debug, PartialEq, Eq, Structural)]
pub struct Shift {
    /// The point's deadband is above zero.
    pub wide: bool,
    /// It differs from the number that was published last, by more than the deadband.
    pub moved: bool,
    /// It differs from the number that is waiting to be published, by more than the deadband.
    pub drifted: bool,
}

/// How a point's readings stand.
pub struct Standing {
    /// The reading that was published last, and when.
    pub last: Option<(Content, u128)>,
    /// The reading that waits to have been stable for long enough, and since when it is.
    pub waiting: Option<(Content, u128)>,
}

/// How a point's readings stand.
#[verifier::ext_equal]
pub struct StandingView {
    pub last: Option<(ContentView, nat)>,
    pub waiting: Option<(ContentView, nat)>,
}

/// A reading at its time.
pub open spec fn timed(t: Option<(Content, u128)>) -> Option<(ContentView, nat)> {
    match t {
        Some((c, at)) => Some((c@, at as nat)),
        None => None,
    }
}

impl View for Standing {
    type V = StandingView;

    open spec fn view(&self) -> StandingView {
        StandingView { last: timed(self.last), waiting: timed(self.waiting) }
    }
}

/// How long it is since a moment. A clock that went back counts as no time.
pub open spec fn elapsed(now: nat, since: nat) -> nat {
    if now >= since {
        (now - since) as nat
    } else {
        0
    }
}

/// The reading differs from the one that was published last. The first one does.
pub open spec fn is_new(s: StandingView, c: ContentView, shift: Shift) -> bool {
    match s.last {
        Some((l, _)) => differ(c, l, shift.moved),
        None => true,
    }
}

/// The reading that waits once this one is there: the one that waited, as long as it lasts, or
/// this one.
pub open spec fn then_waiting(s: StandingView, c: ContentView, shift: Shift, now: nat) -> (
    ContentView,
    nat,
) {
    match s.waiting {
        Some((w, since)) => if differ(c, w, shift.drifted) {
            (c, now)
        } else {
            (w, since)
        },
        None => (c, now),
    }
}

/// How a point's readings stand once one more is there, and whether it is published: only where it
/// is new, where the policy asks for that; only once it has been stable for the debounce; and not
/// before the least interval is over.
pub open spec fn weighed(
    policy: PublishPolicy,
    s: StandingView,
    c: ContentView,
    shift: Shift,
    now: nat,
) -> (StandingView, bool) {
    let (waits, since) = then_waiting(s, c, shift, now);
    let unsettled = match own_interval(text_of(policy.debounce)) {
        Some(d) => elapsed(now, since) < d,
        None => false,
    };
    let early = match (own_interval(text_of(policy.min_interval)), s.last) {
        (Some(d), Some((_, at))) => elapsed(now, at) < d,
        _ => false,
    };
    if policy.detects_change(shift.wide) && !is_new(s, c, shift) {
        (StandingView { waiting: None, ..s }, false)
    } else if unsettled || early {
        (StandingView { waiting: Some((waits, since)), ..s }, false)
    } else {
        (StandingView { last: Some((c, now)), waiting: None }, true)
    }
}

/// A policy that asks for nothing holds nothing back.
pub proof fn no_policy_holds_nothing_back(
    policy: PublishPolicy,
    s: StandingView,
    c: ContentView,
    shift: Shift,
    now: nat,
)
    requires
        !policy.detects_change(shift.wide),
        own_interval(text_of(policy.min_interval)) is None,
    ensures
        weighed(policy, s, c, shift, now).1,
{
}

/// A reading that is published keeps to the policy: it is new where only changes are published,
/// it comes no sooner after the last one than the least interval, and it has been stable for the
/// debounce.
pub proof fn published_readings_keep_to_the_policy(
    policy: PublishPolicy,
    s: StandingView,
    c: ContentView,
    shift: Shift,
    now: nat,
)
    requires
        weighed(policy, s, c, shift, now).1,
    ensures
        policy.detects_change(shift.wide) ==> is_new(s, c, shift),
        own_interval(text_of(policy.min_interval)) matches Some(d) ==> s.last matches Some((_, at))
            ==> elapsed(now, at) >= d,
        own_interval(text_of(policy.debounce)) matches Some(d) ==> elapsed(
            now,
            then_waiting(s, c, shift, now).1,
        ) >= d,
        weighed(policy, s, c, shift, now).0.last == Some((c, now)),
{
}

/// A reading that is held back changes nothing of what was published last.
pub proof fn held_readings_leave_the_last(
    policy: PublishPolicy,
    s: StandingView,
    c: ContentView,
    shift: Shift,
    now: nat,
)
    requires
        !weighed(policy, s, c, shift, now).1,
    ensures
        weighed(policy, s, c, shift, now).0.last == s.last,
{
}

/// A copy of a value that may be missing.
fn copy_value(v: &Option<Value>) -> (r: Option<Value>)
    ensures
        value_view(r) == value_view(*v),
{
    match v {
        Some(Value::Bool(b)) => Some(Value::Bool(*b)),
        Some(Value::Number(n)) => Some(Value::Number(n.clone())),
        Some(Value::NonFinite(x)) => Some(Value::NonFinite(*x)),
        Some(Value::Text(t)) => Some(Value::Text(t.clone())),
        None => None,
    }
}

fn take_content(s: &Sample) -> (r: Content)
    ensures
        r@ == content_of(*s),
{
    Content { value: copy_value(&s.value), quality: s.quality }
}

fn do_differ(s: &Sample, c: &Content, apart: bool) -> (r: bool)
    ensures
        r == differ(content_of(*s), c@, apart),
{
    if s.quality != c.quality {
        return true;
    }
    match (&s.value, &c.value) {
        (Some(Value::Number(_)), Some(Value::Number(_))) => apart,
        (Some(Value::Bool(a)), Some(Value::Bool(b))) => *a != *b,
        (Some(Value::NonFinite(a)), Some(Value::NonFinite(b))) => *a != *b,
        (Some(Value::Text(a)), Some(Value::Text(b))) => !same_text(a.as_str(), b.as_str()),
        (None, None) => false,
        _ => true,
    }
}

fn time_of(t: &Option<String>) -> (r: Option<Duration>)
    ensures
        match r {
            Some(d) => own_interval(text_of(*t)) == Some(nanos(d)),
            None => own_interval(text_of(*t)) is None,
        },
{
    match t {
        Some(s) => parse_duration(s.as_str()),
        None => None,
    }
}

fn is_over(limit: &Option<String>, since: u128, now: u128) -> (r: bool)
    ensures
        r == match own_interval(text_of(*limit)) {
            Some(d) => elapsed(now as nat, since as nat) >= d,
            None => true,
        },
{
    match time_of(limit) {
        Some(d) => now.saturating_sub(since) >= d.as_nanos(),
        None => true,
    }
}

impl Standing {
    /// No reading was published.
    pub fn new() -> (r: Standing)
        ensures
            r@ == (StandingView { last: None, waiting: None }),
    {
        Standing { last: None, waiting: None }
    }

    /// Takes in a reading, and says whether it is published.
    pub fn weigh(&mut self, policy: &PublishPolicy, sample: &Sample, shift: Shift, now: u128) -> (r:
        bool)
        ensures
            (final(self)@, r) == weighed(
                *policy,
                old(self)@,
                content_of(*sample),
                shift,
                now as nat,
            ),
    {
        let fresh: bool = match &self.last {
            Some((c, _)) => do_differ(sample, c, shift.moved),
            None => true,
        };
        let early: bool = match &self.last {
            Some((_, at)) => !is_over(&policy.min_interval, *at, now),
            None => false,
        };
        let lasts: bool = match &self.waiting {
            Some((c, _)) => !do_differ(sample, c, shift.drifted),
            None => false,
        };
        let since: u128 = match &self.waiting {
            Some((_, t)) => if lasts {
                *t
            } else {
                now
            },
            None => now,
        };
        if policy.on_change(shift.wide) && !fresh {
            self.waiting = None;
            false
        } else if !is_over(&policy.debounce, since, now) || early {
            if !lasts {
                self.waiting = Some((take_content(sample), now));
            }
            false
        } else {
            self.last = Some((take_content(sample), now));
            self.waiting = None;
            true
        }
    }
}

/// How the readings of each point stand.
pub type Standings = Seq<(Key, StandingView)>;

/// How the readings of a point stand. Of one that is not among these none was published.
pub open spec fn standing_of(g: Standings, key: Key) -> StandingView
    decreases g.len(),
{
    if g.len() == 0 {
        StandingView { last: None, waiting: None }
    } else if g[0].0 == key {
        g[0].1
    } else {
        standing_of(g.drop_first(), key)
    }
}

/// The standings with that of one point set.
pub open spec fn with_standing(g: Standings, key: Key, s: StandingView) -> Standings
    decreases g.len(),
{
    if g.len() == 0 {
        seq![(key, s)]
    } else if g[0].0 == key {
        seq![(key, s)] + g.drop_first()
    } else {
        seq![g[0]] + with_standing(g.drop_first(), key, s)
    }
}

/// A point's standing is the one that was set; every other is what it was.
pub proof fn set_standing_reads_back(g: Standings, key: Key, s: StandingView, other: Key)
    ensures
        standing_of(with_standing(g, key, s), key) == s,
        other != key ==> standing_of(with_standing(g, key, s), other) == standing_of(g, other),
    decreases g.len(),
{
    let r = with_standing(g, key, s);
    if g.len() == 0 {
        assert(r.drop_first() =~= g);
    } else if g[0].0 == key {
        assert(r.drop_first() =~= g.drop_first());
    } else {
        set_standing_reads_back(g.drop_first(), key, s, other);
        assert(r.drop_first() =~= with_standing(g.drop_first(), key, s));
    }
}

proof fn with_standing_at(g: Standings, key: Key, s: StandingView, i: int)
    requires
        0 <= i <= g.len(),
        forall|j: int| 0 <= j < i ==> (#[trigger] g[j]).0 != key,
        i < g.len() ==> g[i].0 == key,
    ensures
        standing_of(g, key) == if i < g.len() {
            g[i].1
        } else {
            StandingView { last: None, waiting: None }
        },
        with_standing(g, key, s) == if i < g.len() {
            g.update(i, (key, s))
        } else {
            g.push((key, s))
        },
    decreases g.len(),
{
    if g.len() == 0 {
        assert(g.push((key, s)) =~= seq![(key, s)]);
    } else if i == 0 {
        assert(g.update(0, (key, s)) =~= seq![(key, s)] + g.drop_first());
    } else {
        let t = g.drop_first();
        assert(g[0].0 != key);
        assert forall|j: int| 0 <= j < i - 1 implies (#[trigger] t[j]).0 != key by {
            assert(t[j] == g[j + 1]);
        }
        with_standing_at(t, key, s, i - 1);
        if i < g.len() {
            assert(g.update(i, (key, s)) =~= seq![g[0]] + t.update(i - 1, (key, s)));
        } else {
            assert(g.push((key, s)) =~= seq![g[0]] + t.push((key, s)));
        }
    }
}

/// The policy of the first point of that id.
pub open spec fn policy_in(points: Seq<PointConfig>, id: Seq<char>) -> Option<PublishPolicy>
    decreases points.len(),
{
    if points.len() == 0 {
        None
    } else if points[0].id@ == id {
        points[0].publish
    } else {
        policy_in(points.drop_first(), id)
    }
}

/// The standings once a reading of one of a device's points is there, and whether it is published.
/// A point without a policy has each of its readings published.
pub open spec fn gated(
    g: Standings,
    device: Seq<char>,
    points: Seq<PointConfig>,
    sample: Sample,
    shift: Shift,
    now: nat,
) -> (Standings, bool) {
    let key = (device, sample.point@);
    match policy_in(points, sample.point@) {
        Some(policy) => {
            let (s, published) = weighed(policy, standing_of(g, key), content_of(sample), shift, now);
            (with_standing(g, key, s), published)
        },
        None => (g, true),
    }
}

/// How the number of the reading at `i` compares. What nothing is said of counts as different.
pub open spec fn shift_at(shifts: Seq<Shift>, i: int) -> Shift {
    if i < shifts.len() {
        shifts[i]
    } else {
        Shift { wide: false, moved: true, drifted: true }
    }
}

/// The standings once the readings of a poll of a device are there, and those that are published.
pub open spec fn sifted(
    g: Standings,
    device: Seq<char>,
    points: Seq<PointConfig>,
    samples: Seq<Sample>,
    shifts: Seq<Shift>,
    now: nat,
) -> (Standings, Seq<Sample>)
    decreases samples.len(),
{
    if samples.len() == 0 {
        (g, Seq::empty())
    } else {
        let (before, kept) = sifted(g, device, points, samples.drop_last(), shifts, now);
        let s = samples.last();
        let (after, published) = gated(
            before,
            device,
            points,
            s,
            shift_at(shifts, samples.len() - 1),
            now,
        );
        (
            after,
            if published {
                kept.push(s)
            } else {
                kept
            },
        )
    }
}

/// Where no point of a device has a policy, every reading is published.
pub proof fn without_policies_all_is_published(
    g: Standings,
    device: Seq<char>,
    points: Seq<PointConfig>,
    samples: Seq<Sample>,
    shifts: Seq<Shift>,
    now: nat,
)
    requires
        forall|i: int| 0 <= i < points.len() ==> (#[trigger] points[i]).publish is None,
    ensures
        sifted(g, device, points, samples, shifts, now) == (g, samples),
    decreases samples.len(),
{
    if samples.len() > 0 {
        without_policies_all_is_published(g, device, points, samples.drop_last(), shifts, now);
        no_policy_among(points, samples.last().point@);
        assert(samples.drop_last().push(samples.last()) =~= samples);
    } else {
        assert(samples =~= Seq::empty());
    }
}

proof fn no_policy_among(points: Seq<PointConfig>, id: Seq<char>)
    requires
        forall|i: int| 0 <= i < points.len() ==> (#[trigger] points[i]).publish is None,
    ensures
        policy_in(points, id) is None,
    decreases points.len(),
{
    if points.len() > 0 {
        let rest = points.drop_first();
        assert(points[0].publish is None);
        assert forall|i: int| 0 <= i < rest.len() implies (#[trigger] rest[i]).publish is None by {
            assert(rest[i] == points[i + 1]);
        }
        no_policy_among(rest, id);
    }
}

/// The point at `p` is the first of that id.
pub open spec fn is_first_point(points: Seq<PointConfig>, id: Seq<char>, p: int) -> bool {
    0 <= p < points.len() && points[p].id@ == id && forall|q: int|
        0 <= q < p ==> (#[trigger] points[q]).id@ != id
}

proof fn first_policy(points: Seq<PointConfig>, id: Seq<char>, p: int)
    requires
        is_first_point(points, id, p),
    ensures
        policy_in(points, id) == points[p].publish,
    decreases p,
{
    if p > 0 {
        let rest = points.drop_first();
        assert(points[0].id@ != id);
        assert forall|q: int| 0 <= q < p - 1 implies (#[trigger] rest[q]).id@ != id by {
            assert(rest[q] == points[q + 1]);
        }
        first_policy(rest, id, p - 1);
    }
}

/// A text that is there and spells a duration.
pub open spec fn spelt(text: Option<String>) -> Option<nat> {
    match text {
        Some(t) => duration_text(t@),
        None => None,
    }
}

/// Two readings say the same: they are of one quality, and of one value; numbers are where
/// `apart` does not say otherwise.
pub open spec fn say_the_same(a: ContentView, b: ContentView, apart: bool) -> bool {
    a.quality == b.quality && if is_number(a.value) && is_number(b.value) {
        !apart
    } else {
        a.value == b.value
    }
}

/// Since when a reading is what it is: since the waiting one came, where it says the same.
pub open spec fn stable_since(s: StandingView, c: ContentView, drifted: bool, now: nat) -> nat {
    match s.waiting {
        Some((w, since)) => if say_the_same(c, w, drifted) {
            since
        } else {
            now
        },
        None => now,
    }
}

/// A reading is published exactly where its point's policy lets it: where changes are asked for,
/// by `on_change`, a deadband or a debounce, it does not say the same as the one that was published
/// last; the least interval is over since that one; and it has been what it is for the debounce.
pub proof fn readings_are_published_as_their_policy_says(
    g: Standings,
    device: Seq<char>,
    points: Seq<PointConfig>,
    p: int,
    policy: PublishPolicy,
    sample: Sample,
    shift: Shift,
    now: nat,
)
    requires
        is_first_point(points, sample.point@, p),
        points[p].publish == Some(policy),
        standing_of(g, (device, sample.point@)).last matches Some((_, at)) ==> at <= now,
        standing_of(g, (device, sample.point@)).waiting matches Some((_, since)) ==> since <= now,
    ensures
        ({
            let s = standing_of(g, (device, sample.point@));
            let c = ContentView { value: value_view(sample.value), quality: sample.quality };
            let changes = policy.on_change == Some(true) || shift.wide || spelt(
                policy.debounce,
            ) is Some;
            let published = gated(g, device, points, sample, shift, now).1;
            published <==> {
                &&& changes ==> (s.last matches Some((l, _)) ==> !say_the_same(c, l, shift.moved))
                &&& spelt(policy.min_interval) matches Some(d) ==> (s.last matches Some((_, at))
                    ==> at + d <= now)
                &&& spelt(policy.debounce) matches Some(d) ==> stable_since(
                    s,
                    c,
                    shift.drifted,
                    now,
                ) + d <= now
            }
        }),
{
    first_policy(points, sample.point@, p);
    let s = standing_of(g, (device, sample.point@));
    let c = content_of(sample);
    if let Some((l, _)) = s.last {
        readings_differ_by_what_they_say(c, l, shift.moved);
    }
    if let Some((w, _)) = s.waiting {
        readings_differ_by_what_they_say(c, w, shift.drifted);
    }
}

/// A published reading is the last one from then on, and one that is held back leaves the last one
/// as it was. Of one that is held back though it is new, it is remembered since when it is what it
/// is. How the readings of every other point stand stays as it is.
pub proof fn the_last_published_reading_is_remembered(
    g: Standings,
    device: Seq<char>,
    points: Seq<PointConfig>,
    p: int,
    policy: PublishPolicy,
    sample: Sample,
    shift: Shift,
    now: nat,
    other: Key,
)
    requires
        is_first_point(points, sample.point@, p),
        points[p].publish == Some(policy),
    ensures
        ({
            let key = (device, sample.point@);
            let s = standing_of(g, key);
            let c = ContentView { value: value_view(sample.value), quality: sample.quality };
            let (after, published) = gated(g, device, points, sample, shift, now);
            let t = standing_of(after, key);
            &&& published ==> t.last == Some((c, now)) && t.waiting is None
            &&& !published ==> t.last == s.last
            &&& !published ==> (t.waiting matches Some((w, since)) ==> since == stable_since(
                s,
                c,
                shift.drifted,
                now,
            ) && (w == c || s.waiting == Some((w, since))))
            &&& !published && (s.last matches Some((l, _)) ==> !say_the_same(c, l, shift.moved))
                ==> t.waiting is Some
            &&& other != key ==> standing_of(after, other) == standing_of(g, other)
        }),
{
    first_policy(points, sample.point@, p);
    let key = (device, sample.point@);
    let s = standing_of(g, key);
    let c = content_of(sample);
    set_standing_reads_back(g, key, weighed(policy, s, c, shift, now).0, other);
    if let Some((l, _)) = s.last {
        readings_differ_by_what_they_say(c, l, shift.moved);
    }
    if let Some((w, _)) = s.waiting {
        readings_differ_by_what_they_say(c, w, shift.drifted);
    }
}

/// Of the readings of a poll those of a point without a policy are all published; nothing is
/// published that was not read, and nothing twice.
pub proof fn readings_without_a_policy_are_published(
    g: Standings,
    device: Seq<char>,
    points: Seq<PointConfig>,
    samples: Seq<Sample>,
    shifts: Seq<Shift>,
    now: nat,
)
    ensures
        ({
            let kept = sifted(g, device, points, samples, shifts, now).1;
            let free = |s: Sample| policy_in(points, s.point@) is None;
            &&& kept.filter(free) == samples.filter(free)
            &&& kept.to_multiset().subset_of(samples.to_multiset())
        }),
    decreases samples.len(),
{
    broadcast use vstd::seq_lib::group_to_multiset_ensures;

    let free = |s: Sample| policy_in(points, s.point@) is None;
    reveal(Seq::filter);
    if samples.len() > 0 {
        let init = samples.drop_last();
        readings_without_a_policy_are_published(g, device, points, init, shifts, now);
        let kept = sifted(g, device, points, init, shifts, now).1;
        let s = samples.last();
        assert(samples =~= init.push(s));
        assert(kept.push(s).drop_last() =~= kept);
    }
}

fn find_policy<'a>(points: &'a Vec<PointConfig>, id: &str) -> (r: Option<&'a PublishPolicy>)
    ensures
        match r {
            Some(p) => policy_in(points@, id@) == Some(*p),
            None => policy_in(points@, id@) is None,
        },
{
    let mut i: usize = 0;
    assert(points@.skip(0) =~= points@);
    while i < points.len()
        invariant
            i <= points@.len(),
            policy_in(points@, id@) == policy_in(points@.skip(i as int), id@),
        decreases points@.len() - i,
    {
        let ghost rest = points@.skip(i as int);
        assert(rest[0] == points@[i as int]);
        assert(rest.drop_first() =~= points@.skip(i + 1));
        if same_text(points[i].id.as_str(), id) {
            return match &points[i].publish {
                Some(p) => Some(p),
                None => None,
            };
        }
        i = i + 1;
    }
    None
}

/// How the readings of each point stand.
pub struct Gate {
    points: Vec<(String, String, Standing)>,
}

spec fn standing_view(e: (String, String, Standing)) -> (Key, StandingView) {
    ((e.0@, e.1@), e.2@)
}

impl View for Gate {
    type V = Standings;

    closed spec fn view(&self) -> Standings {
        self.points@.map_values(|e: (String, String, Standing)| standing_view(e))
    }
}

impl Gate {
    /// No reading was published.
    pub fn new() -> (r: Gate)
        ensures
            r@ == Standings::empty(),
    {
        let r = Gate { points: Vec::new() };
        assert(r@ =~= Standings::empty());
        r
    }

    fn place(&self, device: &str, point: &str) -> (r: usize)
        ensures
            r <= self.points@.len() == self@.len(),
            forall|j: int| 0 <= j < r ==> (#[trigger] self@[j]).0 != (device@, point@),
            r < self@.len() ==> self@[r as int].0 == (device@, point@),
    {
        let mut i: usize = 0;
        while i < self.points.len() && !(same_text(self.points[i].0.as_str(), device) && same_text(
            self.points[i].1.as_str(),
            point,
        ))
            invariant
                i <= self.points@.len() == self@.len(),
                forall|j: int| 0 <= j < i ==> (#[trigger] self@[j]).0 != (device@, point@),
            decreases self.points@.len() - i,
        {
            i = i + 1;
        }
        i
    }

    /// How the readings of a point stand, where any was taken in.
    pub fn standing(&self, device: &str, point: &str) -> (r: Option<&Standing>)
        ensures
            match r {
                Some(s) => standing_of(self@, (device@, point@)) == s@,
                None => standing_of(self@, (device@, point@)) == (StandingView {
                    last: None,
                    waiting: None,
                }),
            },
    {
        let i: usize = self.place(device, point);
        proof {
            with_standing_at(
                self@,
                (device@, point@),
                StandingView { last: None, waiting: None },
                i as int,
            );
        }
        if i < self.points.len() {
            Some(&self.points[i].2)
        } else {
            None
        }
    }

    /// Takes in a reading of one of a device's points, and says whether it is published.
    pub fn pass(
        &mut self,
        device: &str,
        points: &Vec<PointConfig>,
        sample: &Sample,
        shift: Shift,
        now: u128,
    ) -> (r: bool)
        ensures
            (final(self)@, r) == gated(
                old(self)@,
                device@,
                points@,
                *sample,
                shift,
                now as nat,
            ),
    {
        let ghost before = self@;
        let ghost key = (device@, sample.point@);
        match find_policy(points, sample.point.as_str()) {
            Some(policy) => {
                let i: usize = self.place(device, sample.point.as_str());
                proof {
                    let s = weighed(
                        *policy,
                        standing_of(before, key),
                        content_of(*sample),
                        shift,
                        now as nat,
                    ).0;
                    with_standing_at(before, key, s, i as int);
                }
                if i < self.points.len() {
                    let r: bool = self.points[i].2.weigh(policy, sample, shift, now);
                    assert(self@ =~= before.update(i as int, (key, self.points@[i as int].2@)));
                    r
                } else {
                    let mut s = Standing::new();
                    let r: bool = s.weigh(policy, sample, shift, now);
                    self.points.push((device.to_owned(), sample.point.clone(), s));
                    assert(self@ =~= before.push((key, s@)));
                    r
                }
            },
            None => true,
        }
    }

    /// Takes in the readings of a poll of a device, and gives those that are published.
    pub fn sift(
        &mut self,
        device: &str,
        points: &Vec<PointConfig>,
        samples: Vec<Sample>,
        shifts: &Vec<Shift>,
        now: u128,
    ) -> (r: Vec<Sample>)
        ensures
            (final(self)@, r@) == sifted(
                old(self)@,
                device@,
                points@,
                samples@,
                shifts@,
                now as nat,
            ),
    {
        let ghost all = samples@;
        let ghost start = self@;
        let n: usize = samples.len();
        let mut rest: Vec<Sample> = samples;
        let mut kept: Vec<Sample> = Vec::new();
        let mut i: usize = 0;
        assert(all.take(0) =~= Seq::<Sample>::empty());
        assert(all.skip(0) =~= all);
        while rest.len() > 0
            invariant
                i <= n == all.len(),
                rest@ == all.skip(i as int),
                (self@, kept@) == sifted(
                    start,
                    device@,
                    points@,
                    all.take(i as int),
                    shifts@,
                    now as nat,
                ),
            decreases rest@.len(),
        {
            assert(all.take(i + 1).drop_last() =~= all.take(i as int));
            assert(all.take(i + 1).last() == all[i as int]);
            assert(rest@[0] == all[i as int]);
            let s: Sample = rest.remove(0);
            assert(rest@ =~= all.skip(i + 1));
            let shift: Shift = if i < shifts.len() {
                shifts[i]
            } else {
                Shift { wide: false, moved: true, drifted: true }
            };
            if self.pass(device, points, &s, shift, now) {
                kept.push(s);
            }
            i = i + 1;
        }
        assert(all.take(i as int) =~= all);
        kept
    }
}

} // verus!
