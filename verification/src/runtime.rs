//! A connector at work: what it keeps, and what it does about each thing that happens. The
//! process around it calls the module, talks to the broker and waits; it hands in what came of
//! that and publishes what it is given.
use crate::batch::RequestView;
use crate::capabilities::{
    augment_batch_caps, augment_management_caps, batch_verbs, capability_payload,
    management_verbs, told_capabilities,
};
use crate::clock::nanos;
use crate::config::{
    find_range, range_in, ConnectorConfig, DeviceConfig, MqttSection, PointConfig, Range,
};
use crate::connector::{Capabilities, CommandRequest, LinkReport, LinkStatus};
use crate::json::{views, Json, JsonView, Numeral};
use crate::keyed::field;
use crate::links::{
    apply_attempt, attempted, due_devices, kept_reports, link_message, link_messages, noted,
    noted_all, poll_report, report_views, retries_after_poll, retries_after_try, Attempted,
    LinkTracker, Reconnects, Retries, TrackerView,
};
use crate::management::RunExit;
use crate::message::{
    health, health_fields, message_of, message_views, retained, retained_message, Message,
    MessageView,
};
use crate::model::Sample;
use crate::policy::{
    gated, sifted, standing_of, Gate, Shift, Standing, StandingView, Standings,
};
use crate::routing::{command_plan, handle_command, Plan};
use crate::samples::{
    any_usable, build_meta_index, count_of, counted, health_of, outgoing, poll_health,
    print_sample, print_samples, printed_lines, publish_sample, publish_samples, sample_line,
    sample_message, stamped, succeeding, usable, with_devices, Counts, MetaIndex, SeqCounters,
};
use crate::schedule::{
    batch_views, build_schedule, due_batches, full_schedule, note_subscription, push_points,
    pushable, refs, rescheduled, schedule_view, take_due, with_point, with_subscription, Batch,
    BatchView, EntryView, PointRef, PointView, ScheduleEntry, Subscribed,
};
use crate::text::{concat3, decimal_text, push_decimal, same_text, texts};
use std::time::Duration;
use vstd::prelude::*;

verus! {

/// When a connector last got on with its work, in milliseconds since it started. One that does
/// not for long is stuck in its module, and is started again from outside.
pub struct Progress {
    marked: u64,
}

/// How long nothing was marked. A clock that went back counts as no time.
pub open spec fn idle_nanos(at: u64, now: u64) -> nat {
    if now >= at {
        ((now - at) * 1_000_000) as nat
    } else {
        0
    }
}

impl Progress {
    /// When the work last got on.
    pub closed spec fn at(self) -> u64 {
        self.marked
    }

    /// The work begins.
    pub fn new(now: u64) -> (r: Progress)
        ensures
            r.at() == now,
    {
        Progress { marked: now }
    }

    /// The work got on. Whoever of those who share the marker says so, it counts from then.
    pub fn mark(&mut self, now: u64)
        ensures
            final(self).at() == now,
            forall|start: u64, marks: Seq<(nat, u64)>, who: nat|
                old(self).at() == after_marks(start, marks) ==> final(self).at()
                    == #[trigger] after_marks(start, marks.push((who, now))),
    {
        self.marked = now;
    }

    /// How long it has not. A clock that went back counts as no time.
    pub fn idle(&self, now: u64) -> (r: Duration)
        ensures
            nanos(r) == idle_nanos(self.at(), now),
    {
        Duration::from_millis(now.saturating_sub(self.marked))
    }
}

/// The moment that a marker counts from after marks, each by one of those who share it. There is
/// one marker, so it does not matter who.
pub open spec fn after_marks(start: u64, marks: Seq<(nat, u64)>) -> u64 {
    if marks.len() == 0 {
        start
    } else {
        marks.last().1
    }
}

/// Whoever shares a marker finds it idle since the last mark, whichever of them made that; and
/// since its creation where none did. `before` is the marker after `marks`, and `after` the same
/// marker once one more of those who share it has marked it at `m`.
pub proof fn a_mark_counts_for_all_who_share_it(
    before: Progress,
    after: Progress,
    start: u64,
    marks: Seq<(nat, u64)>,
    who: nat,
    m: u64,
    n: u64,
)
    requires
        before.at() == after_marks(start, marks),
        after.at() == m,
        n >= m,
    ensures
        after.at() == after_marks(start, marks.push((who, m))),
        idle_nanos(after.at(), n) == (n - m) * 1_000_000,
        marks.len() == 0 ==> before.at() == start,
        forall|other: nat| after.at() == #[trigger] after_marks(start, marks.push((other, m))),
{
    assert forall|other: nat| after.at() == #[trigger] after_marks(
        start,
        marks.push((other, m)),
    ) by {
        assert(marks.push((other, m)).last() == (other, m));
    }
}

/// Whether a connector that got nowhere for `idle` is stuck. A limit of zero switches the watch
/// off.
pub fn is_stalled(limit: Duration, idle: Duration) -> (r: bool)
    ensures
        r == (nanos(limit) > 0 && nanos(idle) > nanos(limit)),
{
    limit.as_nanos() > 0 && idle.as_nanos() > limit.as_nanos()
}

/// The topics that a connector lives on.
pub struct Topics {
    pub health: String,
    pub capabilities: String,
    /// The commands for the devices of the protocol.
    pub device_commands: String,
    /// The commands for the service.
    pub service_commands: String,
}

/// The topics that a connector lives on.
#[verifier::ext_equal]
pub struct TopicsView {
    pub health: Seq<char>,
    pub capabilities: Seq<char>,
    pub device_commands: Seq<char>,
    pub service_commands: Seq<char>,
}

impl View for Topics {
    type V = TopicsView;

    open spec fn view(&self) -> TopicsView {
        TopicsView {
            health: self.health@,
            capabilities: self.capabilities@,
            device_commands: self.device_commands@,
            service_commands: self.service_commands@,
        }
    }
}

/// The topics of a service for a protocol.
pub open spec fn topics_of(service: Seq<char>, protocol: Seq<char>) -> TopicsView {
    TopicsView {
        health: "te/device/main/service/"@ + service + "/status/health"@,
        capabilities: "te/device/main/service/"@ + service + "/ot/capabilities"@,
        device_commands: "te/device/+/ot/"@ + protocol + "/cmd/+/+"@,
        service_commands: "te/device/main/service/"@ + service + "/ot/cmd/+/+"@,
    }
}

impl Topics {
    /// The topics of a service for a protocol.
    pub fn new(service: &str, protocol: &str) -> (r: Topics)
        ensures
            r@ == topics_of(service@, protocol@),
    {
        Topics {
            health: concat3("te/device/main/service/", service, "/status/health"),
            capabilities: concat3("te/device/main/service/", service, "/ot/capabilities"),
            device_commands: concat3("te/device/+/ot/", protocol, "/cmd/+/+"),
            service_commands: concat3("te/device/main/service/", service, "/ot/cmd/+/+"),
        }
    }
}

/// The name of a connector's session with the broker.
pub fn client_id(service: &str, protocol: &str) -> (r: String)
    ensures
        r@ == service@ + "-"@ + protocol@,
{
    concat3(service, "-", protocol)
}

/// How long the broker may take to accept the session, in seconds.
pub const BROKER_CONNECT_TIMEOUT: u64 = 10;

/// How long the client may take to take a reading, in seconds.
pub const SAMPLE_PUBLISH_TIMEOUT: u64 = 2;

/// How long the last messages may take to reach the broker, in seconds.
pub const MQTT_FLUSH_TIMEOUT: u64 = 2;

/// What ended the wait for the broker.
#[derive(Clone, Copy, Debug, PartialEq, Eq, Structural)]
pub enum Waited {
    /// The connector was asked to stop.
    Stop,
    /// The file is to be read again.
    Reload,
    /// The broker accepted the session.
    Connected,
    /// It did not in time.
    TimedOut,
}

/// That the broker did not accept the session.
pub open spec fn no_broker(mqtt: MqttSection) -> Seq<char> {
    "cannot connect to the MQTT broker "@ + mqtt.host@ + ":"@ + decimal_text(mqtt.port as nat)
        + " within "@ + decimal_text(10) + "s"@
}

/// Whether the run ends before it began, and how; or that it failed.
pub open spec fn wait_ended(w: Waited) -> Result<Option<RunExit>, ()> {
    match w {
        Waited::Stop => Ok(Some(RunExit::Stopped)),
        Waited::Reload => Ok(Some(RunExit::Restart)),
        Waited::Connected => Ok(None),
        Waited::TimedOut => Err(()),
    }
}

/// What follows the wait for the broker: the run, or its end. Without a broker nothing that the
/// connector says would arrive.
pub fn after_wait(w: Waited, mqtt: &MqttSection) -> (r: Result<Option<RunExit>, String>)
    ensures
        match r {
            Ok(x) => wait_ended(w) == Ok::<Option<RunExit>, ()>(x),
            Err(e) => wait_ended(w) is Err && e@ == no_broker(*mqtt),
        },
{
    match w {
        Waited::Stop => Ok(Some(RunExit::Stopped)),
        Waited::Reload => Ok(Some(RunExit::Restart)),
        Waited::Connected => Ok(None),
        Waited::TimedOut => {
            let mut out: String = concat3(
                "cannot connect to the MQTT broker ",
                mqtt.host.as_str(),
                ":",
            );
            push_decimal(&mut out, mqtt.port as u64);
            out.append(" within ");
            push_decimal(&mut out, BROKER_CONNECT_TIMEOUT);
            out.append("s");
            Err(out)
        },
    }
}

/// What happens on the session with the broker.
#[derive(Clone, Copy, Debug, PartialEq, Eq, Structural)]
pub enum SessionEvent {
    /// A message came in.
    Message,
    /// The broker accepted the session.
    Accepted,
    /// The end of the session was sent.
    Ended,
    /// The client is gone.
    Gone,
    /// The connection failed.
    Failed,
    /// Anything else.
    Other,
}

/// What is to be done about it.
#[derive(Clone, Copy, Debug, PartialEq, Eq, Structural)]
pub enum SessionAction {
    /// The message goes to the connector.
    Forward,
    /// What the broker forgot is to be told again.
    Restore,
    /// The session is over.
    Stop,
    /// After a moment, the connection is tried again.
    Retry,
    Nothing,
}

/// The session with the broker.
#[derive(Clone, Copy, Debug, PartialEq, Eq, Structural)]
pub struct Session {
    /// Whether the broker is connected.
    pub online: bool,
    /// Whether it was before.
    pub seen: bool,
}

/// The session after an event, and what is to be done.
pub open spec fn session_step(s: Session, e: SessionEvent) -> (Session, SessionAction) {
    match e {
        SessionEvent::Message => (s, SessionAction::Forward),
        SessionEvent::Accepted => (
            Session { online: true, seen: true },
            if s.seen {
                SessionAction::Restore
            } else {
                SessionAction::Nothing
            },
        ),
        SessionEvent::Ended => (s, SessionAction::Stop),
        SessionEvent::Gone => (s, SessionAction::Stop),
        SessionEvent::Failed => (Session { online: false, ..s }, SessionAction::Retry),
        SessionEvent::Other => (s, SessionAction::Nothing),
    }
}

impl Session {
    /// No broker has accepted it.
    pub fn new() -> (r: Session)
        ensures
            r == (Session { online: false, seen: false }),
    {
        Session { online: false, seen: false }
    }

    /// Takes in an event, and gives what is to be done.
    pub fn step(&mut self, e: SessionEvent) -> (r: SessionAction)
        ensures
            (*final(self), r) == session_step(*old(self), e),
    {
        match e {
            SessionEvent::Message => SessionAction::Forward,
            SessionEvent::Accepted => {
                let again: bool = self.seen;
                self.online = true;
                self.seen = true;
                if again {
                    SessionAction::Restore
                } else {
                    SessionAction::Nothing
                }
            },
            SessionEvent::Ended => SessionAction::Stop,
            SessionEvent::Gone => SessionAction::Stop,
            SessionEvent::Failed => {
                self.online = false;
                SessionAction::Retry
            },
            SessionEvent::Other => SessionAction::Nothing,
        }
    }
}

/// The session after events.
pub open spec fn session_after(events: Seq<SessionEvent>) -> Session
    decreases events.len(),
{
    if events.len() == 0 {
        Session { online: false, seen: false }
    } else {
        session_step(session_after(events.drop_last()), events.last()).0
    }
}

/// The broker is told again what it forgot each time it accepts the session, but for the first.
pub proof fn each_return_of_the_broker_restores(events: Seq<SessionEvent>)
    ensures
        session_step(session_after(events), SessionEvent::Accepted).1 == if events.contains(
            SessionEvent::Accepted,
        ) {
            SessionAction::Restore
        } else {
            SessionAction::Nothing
        },
    decreases events.len(),
{
    if events.len() > 0 {
        let init = events.drop_last();
        each_return_of_the_broker_restores(init);
        if init.contains(SessionEvent::Accepted) {
            let i = choose|i: int| 0 <= i < init.len() && init[i] == SessionEvent::Accepted;
            assert(events[i] == SessionEvent::Accepted);
        }
        if events.contains(SessionEvent::Accepted) {
            let i = choose|i: int| 0 <= i < events.len() && events[i] == SessionEvent::Accepted;
            if i < init.len() {
                assert(init[i] == SessionEvent::Accepted);
            }
        }
        if events.last() == SessionEvent::Accepted {
            assert(events[events.len() - 1] == SessionEvent::Accepted);
        }
    }
}

/// A connector at work.
pub struct Runtime {
    pub config: ConnectorConfig,
    pub protocol: String,
    pub service: String,
    pub caps: Capabilities,
    pub links: LinkTracker,
    pub subscribed: Subscribed,
    pub schedule: Vec<ScheduleEntry>,
    pub index: MetaIndex,
    pub counters: SeqCounters,
    pub gate: Gate,
    pub reconnects: Reconnects,
}

/// The points of the first device of that name.
pub open spec fn points_of(devices: Seq<DeviceConfig>, name: Seq<char>) -> Seq<PointConfig> {
    match place_of(devices, name) {
        Some(i) => devices[i].points@,
        None => Seq::empty(),
    }
}

/// Why a write is refused before the device is touched: its value is a number outside the range
/// of its point.
pub open spec fn write_refusal(
    devices: Seq<DeviceConfig>,
    device: Seq<char>,
    request: RequestView,
    below: bool,
    above: bool,
) -> Option<Seq<char>> {
    match (range_in(points_of(devices, device), request.point), request.value) {
        (Some(range), Some(JsonView::Number(n))) => range.rejection(
            request.point,
            n,
            below,
            above,
        ),
        _ => None,
    }
}

/// A number that is outside the declared bounds of its point is refused, whatever else is asked
/// for, and a write that carries no number, or is to a point without a range, never is.
pub proof fn writes_outside_the_range_are_refused(
    devices: Seq<DeviceConfig>,
    device: Seq<char>,
    request: RequestView,
    range: Range,
    n: Numeral,
    below: bool,
    above: bool,
)
    requires
        range_in(points_of(devices, device), request.point) == Some(range),
        request.value == Some(JsonView::Number(n)),
    ensures
        write_refusal(devices, device, request, below, above) is Some <==> (below && range.min is Some)
            || (above && range.max is Some),
{
}

/// The standings once the readings of a poll are there, and those that are published. Without a
/// broker all are numbered and dropped, and none counts as published.
pub open spec fn sifted_online(
    online: bool,
    g: Standings,
    device: DeviceConfig,
    samples: Seq<Sample>,
    shifts: Seq<Shift>,
    now: nat,
) -> (Standings, Seq<Sample>) {
    if online {
        sifted(g, device.name@, device.points@, samples, shifts, now)
    } else {
        (g, samples)
    }
}

/// What a module can do, with what the runtime adds to it.
pub open spec fn full_caps(own: Capabilities, full: Capabilities) -> bool {
    &&& texts(full.command_verbs@) == batch_verbs(management_verbs(texts(own.command_verbs@)))
    &&& texts(full.features@) == crate::text::with_distinct(texts(own.features@), "management"@)
    &&& full == (Capabilities {
        command_verbs: full.command_verbs,
        features: full.features,
        ..own
    })
}

/// What a module can do, with what the runtime adds to it.
pub fn augmented(caps: Capabilities) -> (r: Capabilities)
    ensures
        full_caps(caps, r),
{
    let mut full: Capabilities = caps;
    augment_management_caps(&mut full);
    augment_batch_caps(&mut full);
    full
}

/// What came of reading a device's points.
pub open spec fn read_of(r: Result<Vec<Sample>, String>) -> Result<Seq<Sample>, Seq<char>> {
    match r {
        Ok(v) => Ok(v@),
        Err(e) => Err(e@),
    }
}

/// How a poll went, where it tells: one that read nothing does not.
pub open spec fn read_health(r: Result<Seq<Sample>, Seq<char>>) -> Option<
    (bool, Option<Seq<char>>),
> {
    match r {
        Ok(samples) => if samples.len() == 0 {
            None
        } else {
            Some(poll_health(samples))
        },
        Err(e) => Some((false, Some(e))),
    }
}

/// The readings of a poll.
pub open spec fn readings(r: Result<Seq<Sample>, Seq<char>>) -> Seq<Sample> {
    match r {
        Ok(samples) => samples,
        Err(_) => Seq::empty(),
    }
}

/// What is known of the links after a poll, and the message that tells of a change.
pub open spec fn links_after_poll(
    t: TrackerView,
    device: Seq<char>,
    poll: Option<(bool, Option<Seq<char>>)>,
    devices: Seq<DeviceConfig>,
    wall: int,
) -> (TrackerView, Seq<MessageView>) {
    match poll {
        Some((healthy, reason)) => match poll_report(t, device, healthy, reason) {
            Some(report) => (
                noted(t, report),
                seq![link_message(t.protocol, report, devices, wall)],
            ),
            None => (t, Seq::empty()),
        },
        None => (t, Seq::empty()),
    }
}

/// The pending tries after a poll.
pub open spec fn tries_after_poll(
    retries: Retries,
    device: Seq<char>,
    poll: Option<(bool, Option<Seq<char>>)>,
    now: nat,
) -> Retries {
    match poll {
        Some((healthy, _)) => retries_after_poll(retries, device, healthy, now),
        None => retries,
    }
}

/// Whether a poll whose readings are printed shows no loss: one that read nothing does not.
pub open spec fn printed_health(r: Result<Seq<Sample>, Seq<char>>) -> bool {
    match r {
        Ok(samples) => samples.len() == 0 || any_usable(samples),
        Err(_) => false,
    }
}

/// The place of the first device of that name.
pub open spec fn place_of(devices: Seq<DeviceConfig>, name: Seq<char>) -> Option<int>
    decreases devices.len(),
{
    if devices.len() == 0 {
        None
    } else if devices[0].name@ == name {
        Some(0)
    } else {
        match place_of(devices.drop_first(), name) {
            Some(i) => Some(i + 1),
            None => None,
        }
    }
}

fn find_device(config: &ConnectorConfig, name: &str) -> (r: Option<usize>)
    ensures
        match r {
            Some(i) => place_of(config.devices@, name@) == Some(i as int) && i
                < config.devices@.len(),
            None => place_of(config.devices@, name@) is None,
        },
{
    let ghost all = config.devices@;
    let mut i: usize = 0;
    assert(all.skip(0) =~= all);
    while i < config.devices.len()
        invariant
            i <= all.len(),
            all == config.devices@,
            match place_of(all.skip(i as int), name@) {
                Some(k) => place_of(all, name@) == Some(i + k),
                None => place_of(all, name@) is None,
            },
        decreases all.len() - i,
    {
        let ghost rest = all.skip(i as int);
        assert(rest[0] == all[i as int]);
        assert(rest.drop_first() =~= all.skip(i + 1));
        if same_text(config.devices[i].name.as_str(), name) {
            return Some(i);
        }
        i = i + 1;
    }
    assert(all.skip(all.len() as int) =~= Seq::<DeviceConfig>::empty());
    None
}

/// The points that a module is asked to push, of the first `n` devices: all that do not decline.
pub open spec fn pushes_of(config: ConnectorConfig, n: int) -> Seq<BatchView>
    decreases n,
{
    if n <= 0 {
        Seq::empty()
    } else {
        let d = config.devices@[n - 1];
        let points = pushable(config, d, d.points@);
        let head = pushes_of(config, n - 1);
        if points.len() > 0 {
            head.push(BatchView { device_index: n - 1, points })
        } else {
            head
        }
    }
}

proof fn with_point_device(batches: Seq<BatchView>, d: int, point: PointView, limit: int)
    requires
        0 <= d < limit,
        forall|i: int|
            0 <= i < batches.len() ==> 0 <= (#[trigger] batches[i]).device_index < limit,
    ensures
        forall|i: int|
            0 <= i < with_point(batches, d, point).len() ==> 0 <= (#[trigger] with_point(
                batches,
                d,
                point,
            )[i]).device_index < limit,
    decreases batches.len(),
{
    if batches.len() > 0 && batches[0].device_index != d {
        let rest = batches.drop_first();
        assert forall|i: int| 0 <= i < rest.len() implies 0 <= (#[trigger] rest[i]).device_index
            < limit by {
            assert(rest[i] == batches[i + 1]);
        }
        with_point_device(rest, d, point, limit);
        let r = with_point(batches, d, point);
        assert forall|i: int| 0 <= i < r.len() implies 0 <= (#[trigger] r[i]).device_index
            < limit by {
            if i > 0 {
                assert(r[i] == with_point(rest, d, point)[i - 1]);
            } else {
                assert(r[0] == batches[0]);
            }
        }
    } else if batches.len() > 0 {
        let r = with_point(batches, d, point);
        assert forall|i: int| 0 <= i < r.len() implies 0 <= (#[trigger] r[i]).device_index
            < limit by {
            if i > 0 {
                assert(r[i] == batches[i]);
            }
        }
    }
}

proof fn due_devices_exist(schedule: Seq<EntryView>, now: nat, limit: int)
    requires
        forall|i: int|
            0 <= i < schedule.len() ==> 0 <= (#[trigger] schedule[i]).device_index < limit,
    ensures
        forall|i: int|
            0 <= i < due_batches(schedule, now).len() ==> 0 <= (#[trigger] due_batches(
                schedule,
                now,
            )[i]).device_index < limit,
    decreases schedule.len(),
{
    if schedule.len() > 0 {
        let init = schedule.drop_last();
        assert forall|i: int| 0 <= i < init.len() implies 0 <= (#[trigger] init[i]).device_index
            < limit by {
            assert(init[i] == schedule[i]);
        }
        due_devices_exist(init, now, limit);
        let e = schedule.last();
        assert(schedule[schedule.len() - 1] == e);
        with_point_device(due_batches(init, now), e.device_index, e.point, limit);
    }
}

impl Runtime {
    /// The points on the schedule are of devices that are configured.
    pub open spec fn wf(self) -> bool {
        forall|i: int|
            0 <= i < self.schedule@.len() ==> (#[trigger] self.schedule@[i]).device_index
                < self.config.devices@.len()
    }

    /// The topics that it lives on.
    pub open spec fn topics_view(self) -> TopicsView {
        topics_of(self.service@, self.protocol@)
    }

    /// A connector that has not begun, for a module that can do `caps`.
    pub fn new(config: ConnectorConfig, caps: Capabilities) -> (r: Runtime)
        ensures
            r.config == config,
            r.protocol@ == config.connector.protocol@,
            r.service@ == config.connector.service(),
            full_caps(caps, r.caps),
            r.links@ == (TrackerView {
                protocol: config.connector.protocol@,
                states: Seq::empty(),
                infos: Seq::empty(),
            }),
            r.subscribed@ == Set::<(int, Seq<char>)>::empty(),
            r.schedule@.len() == 0,
            r.index@ == with_devices(config.devices@),
            r.counters@ == Counts::empty(),
            r.gate@ == Standings::empty(),
            r.reconnects@ == Retries::empty(),
            r.wf(),
    {
        let protocol: String = config.connector.protocol.clone();
        let service: String = config.connector.service_name();
        let index: MetaIndex = build_meta_index(&config);
        let links: LinkTracker = LinkTracker::new(protocol.as_str());
        Runtime {
            config,
            protocol,
            service,
            caps: augmented(caps),
            links,
            subscribed: Subscribed::new(),
            schedule: Vec::new(),
            index,
            counters: SeqCounters::new(),
            gate: Gate::new(),
            reconnects: Reconnects::new(),
        }
    }

    /// The topics that it lives on.
    pub fn topics(&self) -> (r: Topics)
        ensures
            r@ == self.topics_view(),
    {
        Topics::new(self.service.as_str(), self.protocol.as_str())
    }

    /// How the service is.
    pub fn health(&self, status: &str, wall: i128) -> (r: Message)
        ensures
            r@ == retained_message(
                self.topics_view().health,
                JsonView::Object(health_fields(status@, wall as int)),
            ),
    {
        let t: Topics = self.topics();
        retained(t.health.as_str(), &health(status, wall))
    }

    /// What the connector can do.
    pub fn tell_capabilities(&self, labels: &Vec<Json>) -> (r: Message)
        ensures
            r@ == retained_message(
                self.topics_view().capabilities,
                told_capabilities(self.caps, views(labels@)),
            ),
    {
        let t: Topics = self.topics();
        retained(t.capabilities.as_str(), &capability_payload(&self.caps, labels))
    }

    /// What is said first: what the connector can do, and that it is up.
    pub fn greet(&self, labels: &Vec<Json>, wall: i128) -> (r: Vec<Message>)
        ensures
            message_views(r@) == seq![
                retained_message(
                    self.topics_view().capabilities,
                    told_capabilities(self.caps, views(labels@)),
                ),
                retained_message(
                    self.topics_view().health,
                    JsonView::Object(health_fields("up"@, wall as int)),
                ),
            ],
    {
        let mut out: Vec<Message> = Vec::new();
        out.push(self.tell_capabilities(labels));
        out.push(self.health("up", wall));
        assert(message_views(out@) =~= seq![out@[0]@, out@[1]@]);
        out
    }

    /// What is said once the broker is back: that the connector is up, what it can do, and every
    /// link as it is.
    pub fn restore(&self, labels: &Vec<Json>, wall: i128) -> (r: Vec<Message>)
        ensures
            message_views(r@) == seq![
                retained_message(
                    self.topics_view().health,
                    JsonView::Object(health_fields("up"@, wall as int)),
                ),
                retained_message(
                    self.topics_view().capabilities,
                    told_capabilities(self.caps, views(labels@)),
                ),
            ] + link_messages(
                self.links@.protocol,
                kept_reports(self.links@, self.links@.states.len() as int, self.config.devices@),
                self.config.devices@,
                wall as int,
            ),
    {
        let mut out: Vec<Message> = Vec::new();
        out.push(self.health("up", wall));
        out.push(self.tell_capabilities(labels));
        let ghost head = seq![out@[0]@, out@[1]@];
        assert(message_views(out@) =~= head);
        let mut links: Vec<Message> = self.links.republish(&self.config, wall);
        let ghost tail = message_views(links@);
        out.append(&mut links);
        assert(message_views(out@) =~= head + tail);
        out
    }

    /// Takes in what the module reported of its devices.
    pub fn connected(&mut self, reports: &Vec<LinkReport>, wall: i128) -> (r: Vec<Message>)
        ensures
            final(self).links@ == noted_all(old(self).links@, report_views(reports@)),
            message_views(r@) == link_messages(
                old(self).links@.protocol,
                report_views(reports@),
                old(self).config.devices@,
                wall as int,
            ),
            *final(self) == (Runtime { links: final(self).links, ..*old(self) }),
    {
        self.links.publish_reports(reports, &self.config, wall)
    }

    /// The points that the module is to be asked to push, by their devices.
    pub fn pushes(&self) -> (r: Vec<Batch>)
        ensures
            batch_views(r@) == if self.caps.subscribe {
                pushes_of(self.config, self.config.devices@.len() as int)
            } else {
                Seq::empty()
            },
    {
        let mut out: Vec<Batch> = Vec::new();
        assert(batch_views(out@) =~= Seq::<BatchView>::empty());
        if !self.caps.subscribe {
            return out;
        }
        let mut i: usize = 0;
        while i < self.config.devices.len()
            invariant
                i <= self.config.devices@.len(),
                batch_views(out@) == pushes_of(self.config, i as int),
            decreases self.config.devices@.len() - i,
        {
            let points: Vec<PointRef> = push_points(&self.config, &self.config.devices[i]);
            if points.len() > 0 {
                let ghost was = batch_views(out@);
                let b = Batch { device_index: i, points };
                out.push(b);
                assert(batch_views(out@) =~= was.push(b@));
            }
            i = i + 1;
        }
        out
    }

    /// Notes whether the module pushes the points of a device.
    pub fn note_push(&mut self, device_index: usize, points: &Vec<PointRef>, agreed: bool)
        ensures
            final(self).subscribed@ == with_subscription(
                old(self).subscribed@,
                device_index as int,
                refs(points@),
                agreed,
            ),
            *final(self) == (Runtime { subscribed: final(self).subscribed, ..*old(self) }),
    {
        note_subscription(&mut self.subscribed, device_index, points, agreed);
    }

    /// Schedules every point that is not pushed.
    pub fn reschedule(&mut self, now: u128)
        ensures
            schedule_view(final(self).schedule@) == full_schedule(
                old(self).config,
                old(self).subscribed@,
                now as nat,
            ),
            *final(self) == (Runtime { schedule: final(self).schedule, ..*old(self) }),
            final(self).wf(),
    {
        self.schedule = build_schedule(&self.config, &self.subscribed, now);
        proof {
            let v = schedule_view(self.schedule@);
            assert forall|i: int| 0 <= i < self.schedule@.len() implies (
            #[trigger] self.schedule@[i]).device_index < self.config.devices@.len() by {
                let e = v[i];
                assert(e == self.schedule@[i]@);
                assert(crate::schedule::scheduled(v, e.device_index, e.point.id));
                crate::schedule::scheduled_unless_pushed(
                    self.config,
                    self.subscribed@,
                    now as nat,
                    e.device_index,
                    e.point.id,
                );
            }
        }
    }

    /// The points that are due, by their devices.
    pub fn due(&mut self, now: u128) -> (r: Vec<Batch>)
        requires
            old(self).wf(),
        ensures
            batch_views(r@) == due_batches(schedule_view(old(self).schedule@), now as nat),
            schedule_view(final(self).schedule@) == schedule_view(old(self).schedule@).map_values(
                |e: EntryView| rescheduled(e, now as nat),
            ),
            *final(self) == (Runtime { schedule: final(self).schedule, ..*old(self) }),
            final(self).wf(),
            forall|i: int|
                0 <= i < r@.len() ==> (#[trigger] r@[i]).device_index
                    < old(self).config.devices@.len(),
    {
        let ghost before = schedule_view(self.schedule@);
        let ghost limit = self.config.devices@.len() as int;
        let out: Vec<Batch> = take_due(&mut self.schedule, now);
        proof {
            assert forall|i: int| 0 <= i < before.len() implies 0 <= (
            #[trigger] before[i]).device_index < limit by {
                assert(before[i] == old(self).schedule@[i]@);
            }
            due_devices_exist(before, now as nat, limit);
            assert forall|i: int| 0 <= i < out@.len() implies (#[trigger] out@[i]).device_index
                < limit by {
                assert(batch_views(out@)[i] == out@[i]@);
            }
            let after = schedule_view(self.schedule@);
            let next = |e: EntryView| rescheduled(e, now as nat);
            assert(after =~= before.map_values(next));
            assert(after.len() == before.len() && after.len() == self.schedule@.len());
            assert forall|i: int| 0 <= i < self.schedule@.len() implies (
            #[trigger] self.schedule@[i]).device_index < limit by {
                assert(after[i] == self.schedule@[i]@);
                assert(after[i] == next(before[i]));
                assert(before[i] == old(self).schedule@[i]@);
            }
        }
        out
    }

    /// Takes in what came of reading a device's points: publishes the readings that their points'
    /// policies let through, tells of a change of its link, and has it reached again where none
    /// could be read. `shifts` is how the number of each reading compares.
    pub fn read_done(
        &mut self,
        device_index: usize,
        result: Result<Vec<Sample>, String>,
        shifts: &Vec<Shift>,
        online: bool,
        now: u128,
        wall: i128,
    ) -> (r: Vec<Message>)
        requires
            device_index < old(self).config.devices@.len(),
        ensures
            ({
                let device = old(self).config.devices@[device_index as int].name;
                let poll = read_health(read_of(result));
                let (standings, kept) = sifted_online(
                    online,
                    old(self).gate@,
                    old(self).config.devices@[device_index as int],
                    readings(read_of(result)),
                    shifts@,
                    now as nat,
                );
                let out = outgoing(
                    old(self).counters@,
                    kept,
                    device,
                    old(self).protocol@,
                    old(self).index@,
                    old(self).config.connector.sample_debug,
                    online,
                );
                let (links, told) = links_after_poll(
                    old(self).links@,
                    device@,
                    poll,
                    old(self).config.devices@,
                    wall as int,
                );
                &&& message_views(r@) == out.messages + told
                &&& final(self).gate@ == standings
                &&& final(self).counters@ == out.counts
                &&& final(self).links@ == links
                &&& final(self).reconnects@ == tries_after_poll(
                    old(self).reconnects@,
                    device@,
                    poll,
                    now as nat,
                )
            }),
            *final(self) == (Runtime {
                counters: final(self).counters,
                gate: final(self).gate,
                links: final(self).links,
                reconnects: final(self).reconnects,
                ..*old(self)
            }),
    {
        let device: String = self.config.devices[device_index].name.clone();
        match result {
            Ok(samples) => {
                let (healthy, reason) = health_of(&samples);
                let any: bool = samples.len() > 0;
                let mut samples: Vec<Sample> = if online {
                    self.gate.sift(
                        device.as_str(),
                        &self.config.devices[device_index].points,
                        samples,
                        shifts,
                        now,
                    )
                } else {
                    samples
                };
                let mut out: Vec<Message> = publish_samples(
                    self.protocol.as_str(),
                    &device,
                    &mut samples,
                    &mut self.counters,
                    &self.index,
                    self.config.connector.sample_debug,
                    online,
                );
                let ghost head = message_views(out@);
                if any {
                    match self.links.note_poll(
                        device.as_str(),
                        healthy,
                        reason,
                        &self.config,
                        wall,
                    ) {
                        Some(m) => {
                            out.push(m);
                            assert(message_views(out@) =~= head + seq![m@]);
                        },
                        None => {
                            assert(head + Seq::<MessageView>::empty() =~= head);
                        },
                    }
                    self.reconnects.note_poll(device.as_str(), healthy, now);
                } else {
                    assert(head + Seq::<MessageView>::empty() =~= head);
                }
                out
            },
            Err(e) => {
                let mut out: Vec<Message> = Vec::new();
                assert(sifted(
                    self.gate@,
                    device@,
                    self.config.devices@[device_index as int].points@,
                    Seq::<Sample>::empty(),
                    shifts@,
                    now as nat,
                ) == (self.gate@, Seq::<Sample>::empty()));
                match self.links.note_poll(device.as_str(), false, Some(e), &self.config, wall) {
                    Some(m) => {
                        out.push(m);
                        assert(message_views(out@) =~= Seq::<MessageView>::empty() + seq![m@]);
                    },
                    None => {
                        assert(message_views(out@) =~= Seq::<MessageView>::empty()
                            + Seq::<MessageView>::empty());
                    },
                }
                self.reconnects.note_poll(device.as_str(), false, now);
                out
            },
        }
    }

    /// The devices that are to be reached again now.
    pub fn due_reconnects(&self, now: u128) -> (r: Vec<String>)
        ensures
            texts(r@) == due_devices(self.reconnects@, now as nat),
    {
        self.reconnects.due(now)
    }

    /// Takes in what came of a try to reach a device again: the module's reports, or none where
    /// it failed. Gives the messages, and the device's place where the module is to be asked to
    /// push its points anew: what it pushed ended with the link.
    pub fn reconnect_done(
        &mut self,
        device: &str,
        reports: Option<Vec<LinkReport>>,
        now: u128,
        wall: i128,
    ) -> (r: (Vec<Message>, Option<usize>))
        ensures
            ({
                let a = match reports {
                    Some(v) => attempted(
                        old(self).links@,
                        device@,
                        report_views(v@),
                        old(self).config.devices@,
                        wall as int,
                    ),
                    None => Attempted {
                        tracker: old(self).links@,
                        messages: Seq::empty(),
                        restored: false,
                    },
                };
                &&& final(self).links@ == a.tracker
                &&& message_views(r.0@) == a.messages
                &&& match r.1 {
                    Some(i) => a.restored && old(self).caps.subscribe && place_of(
                        old(self).config.devices@,
                        device@,
                    ) == Some(i as int) && i < old(self).config.devices@.len(),
                    None => !a.restored || !old(self).caps.subscribe || place_of(
                        old(self).config.devices@,
                        device@,
                    ) is None,
                }
            }),
            final(self).reconnects@ == retries_after_try(
                old(self).reconnects@,
                device@,
                now as nat,
            ),
            *final(self) == (Runtime {
                links: final(self).links,
                reconnects: final(self).reconnects,
                ..*old(self)
            }),
    {
        let mut restored: bool = false;
        let mut out: Vec<Message> = Vec::new();
        assert(message_views(out@) =~= Seq::<MessageView>::empty());
        if let Some(v) = reports {
            let (back, told) = apply_attempt(&mut self.links, device, &v, &self.config, wall);
            restored = back;
            out = told;
        }
        self.reconnects.re_arm(device, now);
        if restored && self.caps.subscribe {
            (out, find_device(&self.config, device))
        } else {
            (out, None)
        }
    }

    /// The range of a point, for whoever compares numbers.
    pub fn range_of(&self, device: &str, point: &str) -> (r: Option<&Range>)
        ensures
            match r {
                Some(x) => range_in(points_of(self.config.devices@, device@), point@) == Some(*x),
                None => range_in(points_of(self.config.devices@, device@), point@) is None,
            },
    {
        match find_device(&self.config, device) {
            Some(i) => find_range(&self.config.devices[i].points, point),
            None => None,
        }
    }

    /// Why a write is refused before the device is touched. `below` and `above` are how its number
    /// compares with the bounds of its point.
    pub fn refuse_write(&self, device: &str, request: &CommandRequest, below: bool, above: bool) -> (r:
        Option<String>)
        ensures
            crate::text::text_of(r) == write_refusal(
                self.config.devices@,
                device@,
                request@,
                below,
                above,
            ),
    {
        match (self.range_of(device, request.point.as_str()), &request.value) {
            (Some(range), Some(v)) => {
                proof {
                    v.lemma_view();
                }
                match v {
                    Json::Number(n) => range.reject(request.point.as_str(), n, below, above),
                    _ => None,
                }
            },
            _ => None,
        }
    }

    /// How the readings of a point stand, for whoever compares numbers.
    pub fn standing(&self, device: &str, point: &str) -> (r: Option<&Standing>)
        ensures
            match r {
                Some(s) => standing_of(self.gate@, (device@, point@)) == s@,
                None => standing_of(self.gate@, (device@, point@)) == (StandingView {
                    last: None,
                    waiting: None,
                }),
            },
    {
        self.gate.standing(device, point)
    }

    fn lets_through(&mut self, sample: &Sample, shift: Shift, now: u128) -> (r: bool)
        ensures
            (final(self).gate@, r) == gated(
                old(self).gate@,
                sample.device@,
                points_of(old(self).config.devices@, sample.device@),
                *sample,
                shift,
                now as nat,
            ),
            *final(self) == (Runtime { gate: final(self).gate, ..*old(self) }),
    {
        match find_device(&self.config, sample.device.as_str()) {
            Some(i) => self.gate.pass(
                sample.device.as_str(),
                &self.config.devices[i].points,
                sample,
                shift,
                now,
            ),
            None => true,
        }
    }

    /// Takes in a reading that the module pushed, and publishes it where its point's policy lets it
    /// through. `shift` is how its number compares.
    pub fn pushed(&mut self, sample: Sample, shift: Shift, online: bool, now: u128) -> (r: Option<
        Message,
    >)
        ensures
            ({
                let key = (sample.device@, sample.point@);
                let n = succeeding(count_of(old(self).counters@, key));
                let (standings, published) = gated(
                    old(self).gate@,
                    sample.device@,
                    points_of(old(self).config.devices@, sample.device@),
                    sample,
                    shift,
                    now as nat,
                );
                &&& final(self).gate@ == if online {
                    standings
                } else {
                    old(self).gate@
                }
                &&& final(self).counters@ == if online && !published {
                    old(self).counters@
                } else {
                    counted(old(self).counters@, key)
                }
                &&& message_of(r) == if online && published {
                    Some(
                        sample_message(
                            stamped(sample, n),
                            old(self).protocol@,
                            old(self).index@,
                            old(self).config.connector.sample_debug,
                        ),
                    )
                } else {
                    None
                }
            }),
            *final(self) == (Runtime {
                counters: final(self).counters,
                gate: final(self).gate,
                ..*old(self)
            }),
    {
        let mut s: Sample = sample;
        if online && !self.lets_through(&s, shift, now) {
            return None;
        }
        publish_sample(
            self.protocol.as_str(),
            &mut s,
            &mut self.counters,
            &self.index,
            self.config.connector.sample_debug,
            online,
        )
    }

    /// What is to be done about a command, and the request that it carries.
    pub fn command(&self, topic: &str, payload: &[u8]) -> (r: (Plan, Option<Json>))
        ensures
            crate::json::view_of(r.1) == crate::json::parsed(payload@),
            r.0@ == command_plan(
                topic@,
                self.protocol@,
                self.service@,
                self.config.devices@,
                crate::json::view_of(r.1),
            ),
    {
        handle_command(
            topic,
            payload,
            self.protocol.as_str(),
            self.service.as_str(),
            &self.config,
        )
    }

    /// Installs a configuration that the module has taken, and tells what the connector can do:
    /// how its points are called may have changed. The points of the old configuration are off
    /// the schedule.
    pub fn commit(&mut self, config: ConnectorConfig, caps: Capabilities, labels: &Vec<Json>) -> (r:
        Message)
        ensures
            exists|full: Capabilities| #[trigger]
                full_caps(caps, full) && r@ == retained_message(
                    old(self).topics_view().capabilities,
                    told_capabilities(full, views(labels@)),
                ),
            final(self).config == config,
            final(self).schedule@.len() == 0,
            *final(self) == (Runtime {
                config: final(self).config,
                schedule: final(self).schedule,
                ..*old(self)
            }),
            final(self).wf(),
    {
        self.config = config;
        self.schedule = Vec::new();
        let full: Capabilities = augmented(caps);
        let t: Topics = self.topics();
        let r: Message = retained(t.capabilities.as_str(), &capability_payload(&full, labels));
        assert(full_caps(caps, full));
        r
    }

    /// Sets up anew what follows from the configuration: no point is pushed, no device is to be
    /// reached again, no reading was published, and the readings are numbered from one.
    pub fn rearm(&mut self)
        ensures
            final(self).subscribed@ == Set::<(int, Seq<char>)>::empty(),
            final(self).index@ == with_devices(old(self).config.devices@),
            final(self).counters@ == Counts::empty(),
            final(self).gate@ == Standings::empty(),
            final(self).reconnects@ == Retries::empty(),
            *final(self) == (Runtime {
                subscribed: final(self).subscribed,
                index: final(self).index,
                counters: final(self).counters,
                gate: final(self).gate,
                reconnects: final(self).reconnects,
                ..*old(self)
            }),
    {
        self.subscribed = Subscribed::new();
        self.index = build_meta_index(&self.config);
        self.counters = SeqCounters::new();
        self.gate = Gate::new();
        self.reconnects = Reconnects::new();
    }

    /// Takes in what came of reading a device's points where the readings are printed: gives
    /// their lines, and has the device reached again where none could be read.
    pub fn read_printed(
        &mut self,
        device_index: usize,
        result: Result<Vec<Sample>, String>,
        shifts: &Vec<Shift>,
        now: u128,
    ) -> (r: Vec<String>)
        requires
            device_index < old(self).config.devices@.len(),
        ensures
            ({
                let device = old(self).config.devices@[device_index as int].name;
                let (standings, kept) = sifted(
                    old(self).gate@,
                    device@,
                    old(self).config.devices@[device_index as int].points@,
                    readings(read_of(result)),
                    shifts@,
                    now as nat,
                );
                let out = printed_lines(
                    old(self).counters@,
                    kept,
                    device,
                    old(self).index@,
                    old(self).config.connector.sample_debug,
                );
                &&& texts(r@) == out.lines
                &&& final(self).gate@ == standings
                &&& final(self).counters@ == out.counts
                &&& final(self).reconnects@ == retries_after_poll(
                    old(self).reconnects@,
                    device@,
                    printed_health(read_of(result)),
                    now as nat,
                )
            }),
            *final(self) == (Runtime {
                counters: final(self).counters,
                gate: final(self).gate,
                reconnects: final(self).reconnects,
                ..*old(self)
            }),
    {
        let device: String = self.config.devices[device_index].name.clone();
        match result {
            Ok(samples) => {
                let healthy: bool = samples.len() == 0 || usable(&samples);
                let samples: Vec<Sample> = self.gate.sift(
                    device.as_str(),
                    &self.config.devices[device_index].points,
                    samples,
                    shifts,
                    now,
                );
                let out: Vec<String> = print_samples(
                    &device,
                    samples,
                    &mut self.counters,
                    &self.index,
                    self.config.connector.sample_debug,
                );
                self.reconnects.note_poll(device.as_str(), healthy, now);
                out
            },
            Err(_) => {
                self.reconnects.note_poll(device.as_str(), false, now);
                assert(sifted(
                    self.gate@,
                    device@,
                    self.config.devices@[device_index as int].points@,
                    Seq::<Sample>::empty(),
                    shifts@,
                    now as nat,
                ) == (self.gate@, Seq::<Sample>::empty()));
                let out: Vec<String> = Vec::new();
                assert(texts(out@) =~= Seq::<Seq<char>>::empty());
                out
            },
        }
    }

    /// The line of a reading that the module pushed, where its point's policy lets it through.
    pub fn pushed_printed(&mut self, sample: Sample, shift: Shift, now: u128) -> (r: Option<String>)
        ensures
            ({
                let key = (sample.device@, sample.point@);
                let n = succeeding(count_of(old(self).counters@, key));
                let (standings, published) = gated(
                    old(self).gate@,
                    sample.device@,
                    points_of(old(self).config.devices@, sample.device@),
                    sample,
                    shift,
                    now as nat,
                );
                &&& final(self).gate@ == standings
                &&& final(self).counters@ == if published {
                    counted(old(self).counters@, key)
                } else {
                    old(self).counters@
                }
                &&& crate::text::text_of(r) == if published {
                    Some(
                        sample_line(
                            stamped(sample, n),
                            old(self).index@,
                            old(self).config.connector.sample_debug,
                        ),
                    )
                } else {
                    None
                }
            }),
            *final(self) == (Runtime {
                counters: final(self).counters,
                gate: final(self).gate,
                ..*old(self)
            }),
    {
        let mut s: Sample = sample;
        if !self.lets_through(&s, shift, now) {
            return None;
        }
        Some(
            print_sample(
                &mut s,
                &mut self.counters,
                &self.index,
                self.config.connector.sample_debug,
            ),
        )
    }

    /// The last word: that the connector is down. Without a broker there is no one to tell.
    pub fn farewell(&self, online: bool, wall: i128) -> (r: Option<Message>)
        ensures
            message_of(r) == if online {
                Some(
                    retained_message(
                        self.topics_view().health,
                        JsonView::Object(health_fields("down"@, wall as int)),
                    ),
                )
            } else {
                None
            },
    {
        if online {
            Some(self.health("down", wall))
        } else {
            None
        }
    }
}

/// The session is online from when the broker accepts it until the connection fails; nothing else
/// changes that. A message goes to the connector, a failed connection is tried again, and the end
/// ends it.
pub proof fn the_session_is_online_until_it_fails(s: Session, e: SessionEvent)
    ensures
        session_step(s, e).0.online <==> e == SessionEvent::Accepted || (s.online && e
            != SessionEvent::Failed),
        session_step(s, e).0.seen <==> s.seen || e == SessionEvent::Accepted,
        session_step(s, e).1 == SessionAction::Forward <==> e == SessionEvent::Message,
        session_step(s, e).1 == SessionAction::Retry <==> e == SessionEvent::Failed,
        session_step(s, e).1 == SessionAction::Stop <==> e == SessionEvent::Ended || e
            == SessionEvent::Gone,
        session_step(s, e).1 == SessionAction::Restore ==> e == SessionEvent::Accepted,
{
}

/// A read that failed is a loss, with its error for the reason; one that read nothing tells
/// nothing; and any other is as good as its readings.
pub proof fn reads_tell_how_the_device_is(r: Result<Seq<Sample>, Seq<char>>)
    ensures
        r matches Err(e) ==> read_health(r) == Some((false, Some(e))) && !printed_health(r)
            && readings(r).len() == 0,
        r matches Ok(samples) ==> readings(r) == samples,
        r matches Ok(samples) ==> samples.len() == 0 ==> read_health(r) is None && printed_health(
            r,
        ),
        r matches Ok(samples) ==> samples.len() > 0 ==> read_health(r) == Some(
            poll_health(samples),
        ) && printed_health(r) == poll_health(samples).0,
{
}

proof fn first_place(devices: Seq<DeviceConfig>, d: int)
    requires
        0 <= d < devices.len(),
        forall|e: int| 0 <= e < d ==> (#[trigger] devices[e]).name@ != devices[d].name@,
    ensures
        place_of(devices, devices[d].name@) == Some(d),
    decreases d,
{
    if d > 0 {
        let rest = devices.drop_first();
        assert(devices[0].name@ != devices[d].name@);
        assert(rest[d - 1] == devices[d]);
        assert forall|e: int| 0 <= e < d - 1 implies (#[trigger] rest[e]).name@
            != rest[d - 1].name@ by {
            assert(rest[e] == devices[e + 1]);
        }
        first_place(rest, d - 1);
    }
}

/// A write to a point is refused by the range of that very point: a number below its least value
/// or above its greatest is, and nothing else. The device is the first of its name, and the point
/// the first of its id.
pub proof fn writes_are_held_against_the_range_of_their_point(
    devices: Seq<DeviceConfig>,
    d: int,
    p: int,
    request: RequestView,
    below: bool,
    above: bool,
)
    requires
        0 <= d < devices.len(),
        forall|e: int| 0 <= e < d ==> (#[trigger] devices[e]).name@ != devices[d].name@,
        0 <= p < devices[d].points@.len(),
        forall|q: int|
            0 <= q < p ==> (#[trigger] devices[d].points@[q]).id@ != devices[d].points@[p].id@,
        request.point == devices[d].points@[p].id@,
    ensures
        write_refusal(devices, devices[d].name@, request, below, above) is Some <==> (
        devices[d].points@[p].range matches Some(range) && request.value is Some
            && request.value->0 is Number && ((below && range.min is Some) || (above
            && range.max is Some))),
{
    first_place(devices, d);
    crate::config::ranges_are_those_of_their_points(devices[d].points@, p);
}

/// Without a broker no reading counts as published.
pub proof fn nothing_is_published_without_a_broker(
    g: Standings,
    device: DeviceConfig,
    samples: Seq<Sample>,
    shifts: Seq<Shift>,
    now: nat,
)
    ensures
        sifted_online(false, g, device, samples, shifts, now) == (g, samples),
        sifted_online(true, g, device, samples, shifts, now) == sifted(
            g,
            device.name@,
            device.points@,
            samples,
            shifts,
            now,
        ),
{
}

/// A poll changes the pending tries and the link of the device that was polled as it went, and
/// tells a change exactly where there is one.
pub proof fn polls_count_for_their_device(
    t: TrackerView,
    device: Seq<char>,
    healthy: bool,
    reason: Option<Seq<char>>,
    devices: Seq<DeviceConfig>,
    wall: int,
    other: Seq<char>,
)
    ensures
        ({
            let was = field(t.states, device);
            let (after, told) = links_after_poll(t, device, Some((healthy, reason)), devices, wall);
            &&& healthy ==> field(after.states, device) == Some(LinkStatus::Connected)
            &&& !healthy && was == Some(LinkStatus::Connected) ==> field(after.states, device)
                == Some(LinkStatus::Degraded)
            &&& !healthy && was != Some(LinkStatus::Connected) ==> field(after.states, device) == was
            &&& told.len() == if field(after.states, device) == was {
                0nat
            } else {
                1nat
            }
            &&& other != device ==> field(after.states, other) == field(t.states, other)
            &&& links_after_poll(t, device, None, devices, wall) == (t, Seq::<MessageView>::empty())
        }),
{
    broadcast use crate::keyed::field_once_set;

}

/// A module is asked to push the points of each device that has any, device by device.
pub proof fn each_device_is_asked_to_push(config: ConnectorConfig, n: int, b: BatchView)
    requires
        0 <= n <= config.devices@.len(),
    ensures
        pushes_of(config, n).contains(b) <==> 0 <= b.device_index < n && b.points.len() > 0
            && b.points == pushable(
            config,
            config.devices@[b.device_index],
            config.devices@[b.device_index].points@,
        ),
    decreases n,
{
    if n > 0 {
        each_device_is_asked_to_push(config, n - 1, b);
        let head = pushes_of(config, n - 1);
        let all = pushes_of(config, n);
        let d = config.devices@[n - 1];
        let points = pushable(config, d, d.points@);
        if head.contains(b) {
            let k = choose|k: int| 0 <= k < head.len() && head[k] == b;
            assert(all[k] == b);
        }
        if points.len() > 0 {
            assert(all[head.len() as int] == (BatchView { device_index: n - 1, points }));
        }
        if all.contains(b) && !head.contains(b) {
            let k = choose|k: int| 0 <= k < all.len() && all[k] == b;
            if k < head.len() {
                assert(head[k] == b);
            }
        }
    }
}

/// A run begins once the broker accepted the session: a stop ends it, a reload starts it anew, and
/// without a broker it fails.
pub proof fn runs_begin_once_the_broker_is_there(w: Waited)
    ensures
        wait_ended(w) == Ok::<Option<RunExit>, ()>(None) <==> w is Connected,
        wait_ended(w) is Err <==> w is TimedOut,
        wait_ended(w) == Ok::<Option<RunExit>, ()>(Some(RunExit::Stopped)) <==> w is Stop,
        wait_ended(w) == Ok::<Option<RunExit>, ()>(Some(RunExit::Restart)) <==> w is Reload,
{
}

/// What a module can do is told with the verbs that the runtime answers, and otherwise as it is.
pub proof fn modules_can_do_what_they_could(own: Capabilities, full: Capabilities, verb: Seq<char>)
    requires
        full_caps(own, full),
    ensures
        texts(own.command_verbs@).contains(verb) || verb == "set-config"@ || verb
            == "define-device"@ || verb == "remove-device"@ ==> texts(
            full.command_verbs@,
        ).contains(verb),
        texts(own.command_verbs@).contains("write"@) ==> texts(full.command_verbs@).contains(
            "write-batch"@,
        ),
        texts(full.features@).contains("management"@),
        full.protocol == own.protocol,
        full.version == own.version,
        full.modes == own.modes,
        full.datatypes == own.datatypes,
        full.point_kinds == own.point_kinds,
        full.subscribe == own.subscribe,
{
    let verbs = texts(own.command_verbs@);
    crate::capabilities::only_the_runtimes_verbs_are_added(verbs, verb);
    crate::capabilities::only_the_runtimes_verbs_are_added(verbs, "write"@);
    crate::capabilities::only_the_runtimes_verbs_are_added(management_verbs(verbs), verb);
    crate::capabilities::only_the_runtimes_verbs_are_added(management_verbs(verbs), "write-batch"@);
    let features = texts(own.features@);
    if !features.contains("management"@) {
        assert(texts(full.features@)[features.len() as int] == "management"@);
    }
}

} // verus!
