//! How the devices are reached: the link status of each, and when a lost one is tried again.
use crate::clock::nanos;
use crate::config::{ConnectorConfig, DeviceConfig};
use crate::connector::{ConnectorError, LinkReport, LinkStatus};
use crate::json::{copy_json, text_view, view_of, with_optional, Fields, Json, JsonObject, JsonView};
use crate::keyed::{
    ascending, field, mapped, mapped_field, mapped_with_field, mapped_without_field,
    set_field_reads_back, taken_field_is_gone, with_field, without_field, TextMap,
};
use crate::message::{
    message_of, message_views, retained, retained_message, Message, MessageView,
};
use crate::model::{format_rfc3339_ms, timestamp_text};
use crate::schedule::{later, moment_after};
use crate::text::{as_deref, concat3, same_text, str_of, text_of, texts};
use std::time::Duration;
use vstd::prelude::*;

verus! {

/// The status that a poll gives a link, where it changes it. A link that was never up stays
/// down: that reading failed says nothing new of it.
pub open spec fn next_status(current: Option<LinkStatus>, healthy: bool) -> Option<LinkStatus> {
    if healthy {
        if current == Some(LinkStatus::Connected) {
            None
        } else {
            Some(LinkStatus::Connected)
        }
    } else if current == Some(LinkStatus::Connected) {
        Some(LinkStatus::Degraded)
    } else {
        None
    }
}

/// The status that a poll gives a link, where it changes it.
pub fn next_link_state(current: Option<LinkStatus>, healthy: bool) -> (r: Option<LinkStatus>)
    ensures
        r == next_status(current, healthy),
{
    match (current, healthy) {
        (Some(LinkStatus::Connected), true) => None,
        (_, true) => Some(LinkStatus::Connected),
        (Some(LinkStatus::Connected), false) => Some(LinkStatus::Degraded),
        (_, false) => None,
    }
}

/// The status of a link after a poll.
pub open spec fn polled_status(current: Option<LinkStatus>, healthy: bool) -> Option<LinkStatus> {
    match next_status(current, healthy) {
        Some(s) => Some(s),
        None => current,
    }
}

/// Polls that go on as the last one did change nothing more: each change is told once.
pub proof fn transitions_are_told_once(current: Option<LinkStatus>, healthy: bool)
    ensures
        next_status(polled_status(current, healthy), healthy) is None,
        healthy ==> polled_status(current, healthy) == Some(LinkStatus::Connected),
        !healthy && current != Some(LinkStatus::Connected) ==> polled_status(current, healthy)
            == current,
{
}

/// The declared type of the first device of that name.
pub open spec fn type_among(devices: Seq<DeviceConfig>, name: Seq<char>) -> Option<Seq<char>>
    decreases devices.len(),
{
    if devices.len() == 0 {
        None
    } else if devices[0].name@ == name {
        devices[0].kind()
    } else {
        type_among(devices.drop_first(), name)
    }
}

/// Whether a device of that name is among these.
pub open spec fn device_among(devices: Seq<DeviceConfig>, name: Seq<char>) -> bool {
    exists|i: int| 0 <= i < devices.len() && (#[trigger] devices[i]).name@ == name
}

/// The declared type of a configured device.
pub fn device_type_of<'a>(config: &'a ConnectorConfig, device: &str) -> (r: Option<&'a str>)
    ensures
        str_of(r) == type_among(config.devices@, device@),
{
    let mut i: usize = 0;
    assert(config.devices@.skip(0) =~= config.devices@);
    while i < config.devices.len()
        invariant
            i <= config.devices@.len(),
            type_among(config.devices@, device@) == type_among(
                config.devices@.skip(i as int),
                device@,
            ),
        decreases config.devices@.len() - i,
    {
        let ghost rest = config.devices@.skip(i as int);
        assert(rest[0] == config.devices@[i as int]);
        assert(rest.drop_first() =~= config.devices@.skip(i + 1));
        if same_text(config.devices[i].name.as_str(), device) {
            return config.devices[i].typed();
        }
        i = i + 1;
    }
    None
}

/// Whether a device is configured.
pub fn has_device(config: &ConnectorConfig, device: &str) -> (r: bool)
    ensures
        r == device_among(config.devices@, device@),
{
    let mut i: usize = 0;
    while i < config.devices.len()
        invariant
            i <= config.devices@.len(),
            forall|j: int| 0 <= j < i ==> (#[trigger] config.devices@[j]).name@ != device@,
        decreases config.devices@.len() - i,
    {
        if same_text(config.devices[i].name.as_str(), device) {
            assert(config.devices@[i as int].name@ == device@);
            return true;
        }
        i = i + 1;
    }
    false
}

/// What a link report is.
#[verifier::ext_equal]
pub struct ReportView {
    pub device: Seq<char>,
    pub status: LinkStatus,
    pub reason: Option<Seq<char>>,
    pub info: Option<JsonView>,
}

impl View for LinkReport {
    type V = ReportView;

    open spec fn view(&self) -> ReportView {
        ReportView {
            device: self.device@,
            status: self.status,
            reason: text_of(self.reason),
            info: view_of(self.info),
        }
    }
}

/// What each report is.
pub open spec fn report_views(v: Seq<LinkReport>) -> Seq<ReportView> {
    v.map_values(|r: LinkReport| r@)
}

/// The status of a link as an object. The device's type is the one that it has in the
/// configuration that is given.
pub open spec fn link_fields(r: ReportView, devices: Seq<DeviceConfig>, now: int) -> Fields {
    let f = with_field(Fields::empty(), "status"@, JsonView::Text(r.status.label()));
    let f = with_optional(f, "type"@, text_view(type_among(devices, r.device)));
    let f = if r.status == LinkStatus::Connected {
        with_field(f, "since"@, JsonView::Text(timestamp_text(now)))
    } else {
        f
    };
    let f = with_optional(f, "reason"@, text_view(r.reason));
    with_optional(f, "info"@, r.info)
}

/// The status of a link, to publish.
pub fn link_payload(report: &LinkReport, config: &ConnectorConfig, now: i128) -> (r: Json)
    ensures
        r@ == JsonView::Object(link_fields(report@, config.devices@, now as int)),
{
    let mut obj = JsonObject::new();
    obj.insert("status", Json::text(report.status.as_str()));
    obj.insert_text("type", device_type_of(config, report.device.as_str()));
    match report.status {
        LinkStatus::Connected => {
            obj.insert("since", Json::of_string(format_rfc3339_ms(now)));
        },
        _ => {},
    }
    obj.insert_text("reason", as_deref(&report.reason));
    obj.insert_optional("info", copy_json(&report.info));
    Json::of_object(obj)
}

/// The topic of a device's link status.
pub open spec fn link_topic(device: Seq<char>, protocol: Seq<char>) -> Seq<char> {
    "te/device/"@ + device + "/ot/"@ + protocol + "/status/link"@
}

/// The topic of a device's link status.
pub fn topic(device: &str, protocol: &str) -> (r: String)
    ensures
        r@ == link_topic(device@, protocol@),
{
    let mut out: String = concat3("te/device/", device, "/ot/");
    out.append(protocol);
    out.append("/status/link");
    out
}

/// The message that tells a link status.
pub open spec fn link_message(
    protocol: Seq<char>,
    r: ReportView,
    devices: Seq<DeviceConfig>,
    now: int,
) -> MessageView {
    retained_message(
        link_topic(r.device, protocol),
        JsonView::Object(link_fields(r, devices, now)),
    )
}

fn tell_link(protocol: &str, report: &LinkReport, config: &ConnectorConfig, now: i128) -> (r:
    Message)
    ensures
        r@ == link_message(protocol@, report@, config.devices@, now as int),
{
    let topic: String = topic(report.device.as_str(), protocol);
    retained(topic.as_str(), &link_payload(report, config, now))
}

/// The messages that tell link statuses.
pub open spec fn link_messages(
    protocol: Seq<char>,
    reports: Seq<ReportView>,
    devices: Seq<DeviceConfig>,
    now: int,
) -> Seq<MessageView> {
    reports.map_values(|r: ReportView| link_message(protocol, r, devices, now))
}

/// The link status of each device, as it was told last.
pub struct LinkTracker {
    pub protocol: String,
    states: TextMap<LinkStatus>,
    /// What each device said of itself, so that a change of its status carries it on.
    infos: JsonObject,
}

/// What is known of the links.
#[verifier::ext_equal]
pub struct TrackerView {
    pub protocol: Seq<char>,
    pub states: Seq<(Seq<char>, LinkStatus)>,
    pub infos: Fields,
}

impl View for LinkTracker {
    type V = TrackerView;

    closed spec fn view(&self) -> TrackerView {
        TrackerView { protocol: self.protocol@, states: self.states@, infos: self.infos@ }
    }
}

/// What is known of the links once a report was told.
pub open spec fn noted(t: TrackerView, r: ReportView) -> TrackerView {
    TrackerView {
        states: with_field(t.states, r.device, r.status),
        infos: with_optional(t.infos, r.device, r.info),
        ..t
    }
}

/// What is known of the links once reports were told.
pub open spec fn noted_all(t: TrackerView, reports: Seq<ReportView>) -> TrackerView
    decreases reports.len(),
{
    if reports.len() == 0 {
        t
    } else {
        noted(noted_all(t, reports.drop_last()), reports.last())
    }
}

/// The report of the status that a poll gives a device's link, where it changes it.
pub open spec fn poll_report(
    t: TrackerView,
    device: Seq<char>,
    healthy: bool,
    reason: Option<Seq<char>>,
) -> Option<ReportView> {
    match next_status(field(t.states, device), healthy) {
        Some(status) => Some(
            ReportView { device, status, reason, info: field(t.infos, device) },
        ),
        None => None,
    }
}

/// What is known of the links once what a report says of its device was kept.
pub open spec fn stashed(t: TrackerView, device: Seq<char>, info: Option<JsonView>) -> TrackerView {
    TrackerView { infos: with_optional(t.infos, device, info), ..t }
}

/// The reports of the statuses of the first `n` links that are still configured.
pub open spec fn kept_reports(t: TrackerView, n: int, devices: Seq<DeviceConfig>) -> Seq<ReportView>
    decreases n,
{
    if n <= 0 {
        Seq::empty()
    } else {
        let head = kept_reports(t, n - 1, devices);
        let (device, status) = t.states[n - 1];
        if device_among(devices, device) {
            head.push(ReportView { device, status, reason: None, info: field(t.infos, device) })
        } else {
            head
        }
    }
}

impl LinkTracker {
    /// No link is known.
    pub fn new(protocol: &str) -> (r: LinkTracker)
        ensures
            r@ == (TrackerView {
                protocol: protocol@,
                states: Seq::empty(),
                infos: Fields::empty(),
            }),
    {
        LinkTracker {
            protocol: protocol.to_owned(),
            states: TextMap::new(),
            infos: JsonObject::new(),
        }
    }

    /// The status of a device's link.
    pub fn status(&self, device: &str) -> (r: Option<LinkStatus>)
        ensures
            r == field(self@.states, device@),
    {
        match self.states.get(device) {
            Some(s) => Some(*s),
            None => None,
        }
    }

    fn note(&mut self, report: &LinkReport)
        ensures
            final(self)@ == noted(old(self)@, report@),
    {
        self.states.insert(report.device.as_str(), report.status);
        self.infos.insert_optional(report.device.as_str(), copy_json(&report.info));
    }

    /// Notes what a module reported, and gives the messages that tell it.
    pub fn publish_reports(
        &mut self,
        reports: &Vec<LinkReport>,
        config: &ConnectorConfig,
        now: i128,
    ) -> (r: Vec<Message>)
        ensures
            final(self)@ == noted_all(old(self)@, report_views(reports@)),
            message_views(r@) == link_messages(
                old(self)@.protocol,
                report_views(reports@),
                config.devices@,
                now as int,
            ),
    {
        let ghost all = report_views(reports@);
        let ghost protocol = self@.protocol;
        let mut out: Vec<Message> = Vec::new();
        let mut i: usize = 0;
        assert(all.take(0) =~= Seq::<ReportView>::empty());
        assert(message_views(out@) =~= link_messages(
            protocol,
            all.take(0),
            config.devices@,
            now as int,
        ));
        while i < reports.len()
            invariant
                i <= reports@.len(),
                all == report_views(reports@),
                protocol == self@.protocol,
                protocol == old(self)@.protocol,
                self@ == noted_all(old(self)@, all.take(i as int)),
                message_views(out@) == link_messages(
                    protocol,
                    all.take(i as int),
                    config.devices@,
                    now as int,
                ),
            decreases reports@.len() - i,
        {
            assert(all.take(i + 1).drop_last() =~= all.take(i as int));
            assert(all.take(i + 1).last() == reports@[i as int]@);
            self.note(&reports[i]);
            let m: Message = tell_link(self.protocol.as_str(), &reports[i], config, now);
            let ghost was = message_views(out@);
            out.push(m);
            assert(message_views(out@) =~= was.push(m@));
            assert(was.push(m@) =~= link_messages(
                protocol,
                all.take(i + 1),
                config.devices@,
                now as int,
            ));
            i = i + 1;
        }
        assert(all.take(all.len() as int) =~= all);
        out
    }

    /// Keeps what a device said of itself, for when its link is told next.
    pub fn stash_info(&mut self, device: &str, info: Option<Json>)
        ensures
            final(self)@ == stashed(old(self)@, device@, view_of(info)),
    {
        self.infos.insert_optional(device, info);
    }

    /// Notes and tells a report where it changes the status: tries repeat, and the same status
    /// is told once.
    pub fn publish_if_changed(&mut self, report: &LinkReport, config: &ConnectorConfig, now: i128)
        -> (r: Option<Message>)
        ensures
            field(old(self)@.states, report.device@) == Some(report.status) ==> final(self)@
                == old(self)@ && r is None,
            field(old(self)@.states, report.device@) != Some(report.status) ==> final(self)@
                == noted(old(self)@, report@) && message_of(r) == Some(
                link_message(old(self)@.protocol, report@, config.devices@, now as int),
            ),
    {
        match self.status(report.device.as_str()) {
            Some(s) => if s == report.status {
                return None;
            },
            None => {},
        }
        self.note(report);
        Some(tell_link(self.protocol.as_str(), report, config, now))
    }

    /// Notes how a poll of a device went, and tells its link status where that changed.
    pub fn note_poll(
        &mut self,
        device: &str,
        healthy: bool,
        reason: Option<String>,
        config: &ConnectorConfig,
        now: i128,
    ) -> (r: Option<Message>)
        ensures
            match poll_report(old(self)@, device@, healthy, text_of(reason)) {
                Some(report) => final(self)@ == noted(old(self)@, report) && message_of(r) == Some(
                    link_message(old(self)@.protocol, report, config.devices@, now as int),
                ),
                None => final(self)@ == old(self)@ && r is None,
            },
    {
        match next_link_state(self.status(device), healthy) {
            Some(status) => {
                let info: Option<Json> = match self.infos.get(device) {
                    Some(j) => Some(j.clone()),
                    None => None,
                };
                let report = LinkReport { device: device.to_owned(), status, reason, info };
                assert(Some(report@) == poll_report(self@, device@, healthy, text_of(reason)));
                self.note(&report);
                Some(tell_link(self.protocol.as_str(), &report, config, now))
            },
            None => None,
        }
    }

    /// Tells every status again, as it is, for a broker that lost it. Devices that are no longer
    /// configured are left out.
    pub fn republish(&self, config: &ConnectorConfig, now: i128) -> (r: Vec<Message>)
        ensures
            message_views(r@) == link_messages(
                self@.protocol,
                kept_reports(self@, self@.states.len() as int, config.devices@),
                config.devices@,
                now as int,
            ),
    {
        let mut out: Vec<Message> = Vec::new();
        let mut i: usize = 0;
        let ghost protocol = self@.protocol;
        assert(message_views(out@) =~= link_messages(
            protocol,
            kept_reports(self@, 0, config.devices@),
            config.devices@,
            now as int,
        ));
        let n: usize = self.states.len();
        while i < n
            invariant
                i <= n == self@.states.len(),
                self@.states == self.states@,
                self@.infos == self.infos@,
                protocol == self@.protocol,
                protocol == self.protocol@,
                message_views(out@) == link_messages(
                    protocol,
                    kept_reports(self@, i as int, config.devices@),
                    config.devices@,
                    now as int,
                ),
            decreases n - i,
        {
            let device: &str = self.states.key_at(i);
            let ghost head = kept_reports(self@, i as int, config.devices@);
            if has_device(config, device) {
                let info: Option<Json> = match self.infos.get(device) {
                    Some(j) => Some(j.clone()),
                    None => None,
                };
                let report = LinkReport {
                    device: device.to_owned(),
                    status: *self.states.value_at(i),
                    reason: None,
                    info,
                };
                let m: Message = tell_link(self.protocol.as_str(), &report, config, now);
                let ghost was = message_views(out@);
                out.push(m);
                assert(message_views(out@) =~= was.push(m@));
                assert(report@ =~= (ReportView {
                    device: self@.states[i as int].0,
                    status: self@.states[i as int].1,
                    reason: None,
                    info: field(self@.infos, device@),
                }));
                assert(was.push(m@) =~= link_messages(
                    protocol,
                    head.push(report@),
                    config.devices@,
                    now as int,
                ));
            }
            i = i + 1;
        }
        out
    }
}

/// The wait before the first try to reach a device again, in seconds.
pub const RECONNECT_INITIAL: u64 = 1;

/// The longest wait between two tries, in seconds.
pub const RECONNECT_MAX: u64 = 60;

/// The wait after a try that was made after `wait` nanoseconds and brought nothing.
pub open spec fn longer_wait(wait: nat) -> nat {
    if 2 * wait < 60_000_000_000 {
        2 * wait
    } else {
        60_000_000_000
    }
}

/// The wait after a try that brought nothing: twice the last one, up to a minute.
pub fn next_backoff(current: Duration) -> (r: Duration)
    ensures
        nanos(r) == longer_wait(nanos(current)),
{
    let n: u128 = current.as_nanos();
    if n < 30_000_000_000 {
        crate::clock::duration(n * 2)
    } else {
        Duration::from_secs(RECONNECT_MAX)
    }
}

/// The wait after `n` tries that brought nothing.
pub open spec fn wait_after(n: nat) -> nat
    decreases n,
{
    if n == 0 {
        1_000_000_000
    } else {
        longer_wait(wait_after((n - 1) as nat))
    }
}

/// The waits never shrink and never pass a minute, and from the seventh on they are a minute.
pub proof fn waits_grow_to_a_minute(n: nat)
    ensures
        1_000_000_000 <= wait_after(n) <= 60_000_000_000,
        wait_after(n) <= wait_after(n + 1),
        n >= 6 ==> wait_after(n) == 60_000_000_000,
    decreases n,
{
    reveal_with_fuel(wait_after, 8);
    if n > 0 {
        waits_grow_to_a_minute((n - 1) as nat);
    }
}

/// A device that is not reached: the wait before the next try, and when that is due.
#[derive(Debug, PartialEq)]
pub struct ReconnectEntry {
    pub delay: Duration,
    /// When the next try is due, in nanoseconds of the runtime's clock.
    pub due: u128,
}

/// What a pending try is.
#[verifier::ext_equal]
pub struct RetryView {
    pub delay: nat,
    pub due: nat,
}

impl View for ReconnectEntry {
    type V = RetryView;

    open spec fn view(&self) -> RetryView {
        RetryView { delay: nanos(self.delay), due: self.due as nat }
    }
}

/// The first try.
pub open spec fn first_try(now: nat) -> RetryView {
    RetryView { delay: 1_000_000_000, due: later(now, 1_000_000_000) }
}

/// The try after this one.
pub open spec fn next_try(t: RetryView, now: nat) -> RetryView {
    RetryView { delay: longer_wait(t.delay), due: later(now, longer_wait(t.delay)) }
}

impl ReconnectEntry {
    /// The first try.
    pub fn new(now: u128) -> (r: ReconnectEntry)
        ensures
            r@ == first_try(now as nat),
    {
        let delay: Duration = Duration::from_secs(RECONNECT_INITIAL);
        ReconnectEntry { delay, due: moment_after(now, delay) }
    }

    /// Puts the try off, once it was made.
    pub fn re_arm(&mut self, now: u128)
        ensures
            final(self)@ == next_try(old(self)@, now as nat),
    {
        self.delay = next_backoff(self.delay);
        self.due = moment_after(now, self.delay);
    }
}

/// The devices that are to be reached again.
pub struct Reconnects {
    entries: TextMap<ReconnectEntry>,
}

/// The pending tries by their devices.
pub type Retries = Seq<(Seq<char>, RetryView)>;

impl View for Reconnects {
    type V = Retries;

    closed spec fn view(&self) -> Retries {
        mapped(self.entries@, |e: ReconnectEntry| e@)
    }
}

/// The tries once a device's poll went well, or failed altogether: then it is tried, unless a
/// try is pending.
pub open spec fn retries_after_poll(
    retries: Retries,
    device: Seq<char>,
    healthy: bool,
    now: nat,
) -> Retries {
    if healthy {
        without_field(retries, device)
    } else if field(retries, device) is Some {
        retries
    } else {
        with_field(retries, device, first_try(now))
    }
}

/// The tries once that of a device was made.
pub open spec fn retries_after_try(retries: Retries, device: Seq<char>, now: nat) -> Retries {
    match field(retries, device) {
        Some(t) => with_field(retries, device, next_try(t, now)),
        None => retries,
    }
}

/// The devices whose try is due.
pub open spec fn due_devices(retries: Retries, now: nat) -> Seq<Seq<char>>
    decreases retries.len(),
{
    if retries.len() == 0 {
        Seq::empty()
    } else {
        let head = due_devices(retries.drop_last(), now);
        if retries.last().1.due <= now {
            head.push(retries.last().0)
        } else {
            head
        }
    }
}

impl Reconnects {
    /// None.
    pub fn new() -> (r: Reconnects)
        ensures
            r@ == Retries::empty(),
    {
        let r = Reconnects { entries: TextMap::new() };
        assert(r@ =~= Retries::empty());
        r
    }

    /// Notes how a poll of a device went.
    pub fn note_poll(&mut self, device: &str, healthy: bool, now: u128)
        ensures
            final(self)@ == retries_after_poll(old(self)@, device@, healthy, now as nat),
    {
        let ghost g = |e: ReconnectEntry| e@;
        proof {
            mapped_field(self.entries@, g, device@);
            mapped_without_field(self.entries@, g, device@);
        }
        if healthy {
            self.entries.remove(device);
        } else if self.entries.get(device).is_none() {
            let e: ReconnectEntry = ReconnectEntry::new(now);
            proof {
                mapped_with_field(self.entries@, g, device@, e);
            }
            self.entries.insert(device, e);
        }
    }

    /// The devices whose try is due.
    pub fn due(&self, now: u128) -> (r: Vec<String>)
        ensures
            texts(r@) == due_devices(self@, now as nat),
    {
        let mut out: Vec<String> = Vec::new();
        let mut i: usize = 0;
        let n: usize = self.entries.len();
        let ghost all = self@;
        assert(all.take(0) =~= Retries::empty());
        assert(texts(out@) =~= Seq::<Seq<char>>::empty());
        while i < n
            invariant
                i <= n == all.len(),
                all == self@,
                all == mapped(self.entries@, |e: ReconnectEntry| e@),
                texts(out@) == due_devices(all.take(i as int), now as nat),
            decreases n - i,
        {
            assert(all.take(i + 1).drop_last() =~= all.take(i as int));
            assert(all.take(i + 1).last() == all[i as int]);
            assert(all[i as int] == (self.entries@[i as int].0, self.entries@[i as int].1@));
            if self.entries.value_at(i).due <= now {
                let ghost was = texts(out@);
                let d: String = self.entries.key_at(i).to_owned();
                out.push(d);
                assert(texts(out@) =~= was.push(d@));
            }
            i = i + 1;
        }
        assert(all.take(all.len() as int) =~= all);
        out
    }

    /// Puts the try of a device off, once it was made.
    pub fn re_arm(&mut self, device: &str, now: u128)
        ensures
            final(self)@ == retries_after_try(old(self)@, device@, now as nat),
    {
        let ghost g = |e: ReconnectEntry| e@;
        proof {
            mapped_field(self.entries@, g, device@);
        }
        let mut next: Option<ReconnectEntry> = None;
        match self.entries.get(device) {
            Some(e) => {
                next = Some(ReconnectEntry { delay: e.delay, due: e.due });
            },
            None => {},
        }
        if let Some(mut e) = next {
            e.re_arm(now);
            proof {
                mapped_with_field(self.entries@, g, device@, e);
            }
            self.entries.insert(device, e);
        }
    }
}

/// What came of asking a module to reach one device again.
pub enum Attempt {
    /// The module answered.
    Answered(Vec<LinkReport>),
    /// The module reaches its devices only all together.
    ConnectAll,
    Failed,
}

/// What asking a module to reach one device again leads to.
pub fn after_reconnect(result: Result<LinkReport, ConnectorError>) -> (r: Attempt)
    ensures
        match result {
            Ok(report) => r matches Attempt::Answered(v) && v@ == seq![report],
            Err(ConnectorError::Unsupported(_)) => r is ConnectAll,
            Err(_) => r is Failed,
        },
{
    match result {
        Ok(report) => {
            let mut v: Vec<LinkReport> = Vec::new();
            v.push(report);
            assert(v@ =~= seq![report]);
            Attempt::Answered(v)
        },
        Err(ConnectorError::Unsupported(_)) => Attempt::ConnectAll,
        Err(_) => Attempt::Failed,
    }
}

/// What a try to reach a device again came to.
#[verifier::ext_equal]
pub struct Attempted {
    pub tracker: TrackerView,
    pub messages: Seq<MessageView>,
    /// Whether the device is reached again.
    pub restored: bool,
}

/// What the reports of a try come to. That a device is reached is only kept in mind: its status
/// is told once it can be read.
pub open spec fn attempted(
    t: TrackerView,
    device: Seq<char>,
    reports: Seq<ReportView>,
    devices: Seq<DeviceConfig>,
    now: int,
) -> Attempted
    decreases reports.len(),
{
    if reports.len() == 0 {
        Attempted { tracker: t, messages: Seq::empty(), restored: false }
    } else {
        let a = attempted(t, device, reports.drop_last(), devices, now);
        let r = reports.last();
        if r.status == LinkStatus::Connected {
            Attempted {
                tracker: stashed(a.tracker, r.device, r.info),
                restored: a.restored || r.device == device,
                ..a
            }
        } else if field(a.tracker.states, r.device) == Some(r.status) {
            a
        } else {
            Attempted {
                tracker: noted(a.tracker, r),
                messages: a.messages.push(link_message(a.tracker.protocol, r, devices, now)),
                ..a
            }
        }
    }
}

/// Takes in the reports of a try to reach a device again. Gives whether it is reached, and the
/// messages that tell of those that are not.
pub fn apply_attempt(
    links: &mut LinkTracker,
    device: &str,
    reports: &Vec<LinkReport>,
    config: &ConnectorConfig,
    now: i128,
) -> (r: (bool, Vec<Message>))
    ensures
        (Attempted {
            tracker: final(links)@,
            messages: message_views(r.1@),
            restored: r.0,
        }) == attempted(
            old(links)@,
            device@,
            report_views(reports@),
            config.devices@,
            now as int,
        ),
{
    let ghost all = report_views(reports@);
    let ghost start = links@;
    let mut out: Vec<Message> = Vec::new();
    let mut restored: bool = false;
    let mut i: usize = 0;
    assert(all.take(0) =~= Seq::<ReportView>::empty());
    assert(message_views(out@) =~= Seq::<MessageView>::empty());
    while i < reports.len()
        invariant
            i <= reports@.len(),
            all == report_views(reports@),
            (Attempted { tracker: links@, messages: message_views(out@), restored }) == attempted(
                start,
                device@,
                all.take(i as int),
                config.devices@,
                now as int,
            ),
        decreases reports@.len() - i,
    {
        assert(all.take(i + 1).drop_last() =~= all.take(i as int));
        assert(all.take(i + 1).last() == reports@[i as int]@);
        let ghost was = message_views(out@);
        let report: &LinkReport = &reports[i];
        if report.status == LinkStatus::Connected {
            if same_text(report.device.as_str(), device) {
                restored = true;
            }
            links.stash_info(report.device.as_str(), copy_json(&report.info));
        } else {
            match links.publish_if_changed(report, config, now) {
                Some(m) => {
                    out.push(m);
                    assert(message_views(out@) =~= was.push(m@));
                },
                None => {},
            }
        }
        i = i + 1;
    }
    assert(all.take(all.len() as int) =~= all);
    (restored, out)
}

/// What is told again are the statuses as they were told, of the devices that are still
/// configured, and of each of those.
pub proof fn links_are_told_again_as_they_were(t: TrackerView, n: int, devices: Seq<DeviceConfig>)
    requires
        0 <= n <= t.states.len(),
    ensures
        forall|i: int|
            0 <= i < kept_reports(t, n, devices).len() ==> {
                let r = #[trigger] kept_reports(t, n, devices)[i];
                device_among(devices, r.device) && t.states.take(n).contains((r.device, r.status))
            },
        forall|j: int|
            0 <= j < n && device_among(devices, (#[trigger] t.states[j]).0) ==> kept_reports(
                t,
                n,
                devices,
            ).contains(
                ReportView {
                    device: t.states[j].0,
                    status: t.states[j].1,
                    reason: None,
                    info: field(t.infos, t.states[j].0),
                },
            ),
    decreases n,
{
    if n > 0 {
        links_are_told_again_as_they_were(t, n - 1, devices);
        let head = kept_reports(t, n - 1, devices);
        let all = kept_reports(t, n, devices);
        assert forall|i: int| 0 <= i < all.len() implies {
            let r = #[trigger] all[i];
            device_among(devices, r.device) && t.states.take(n).contains((r.device, r.status))
        } by {
            if i < head.len() {
                assert(all[i] == head[i]);
                let e = (head[i].device, head[i].status);
                let before = t.states.take(n - 1);
                let k = choose|k: int| 0 <= k < before.len() && before[k] == e;
                assert(t.states.take(n)[k] == e);
            } else {
                assert(t.states.take(n)[n - 1] == (all[i].device, all[i].status));
            }
        }
        assert forall|j: int|
            0 <= j < n && device_among(devices, (#[trigger] t.states[j]).0) implies all.contains(
            ReportView {
                device: t.states[j].0,
                status: t.states[j].1,
                reason: None,
                info: field(t.infos, t.states[j].0),
            },
        ) by {
            let r = ReportView {
                device: t.states[j].0,
                status: t.states[j].1,
                reason: None,
                info: field(t.infos, t.states[j].0),
            };
            if j < n - 1 {
                let k = choose|k: int| 0 <= k < head.len() && head[k] == r;
                assert(all[k] == r);
            } else {
                assert(all[head.len() as int] == r);
            }
        }
    }
}

/// A link that was not up is not up because a try reached the device: only a poll makes it so.
pub proof fn reaching_a_device_does_not_connect_it(
    t: TrackerView,
    device: Seq<char>,
    reports: Seq<ReportView>,
    devices: Seq<DeviceConfig>,
    now: int,
    other: Seq<char>,
)
    ensures
        field(attempted(t, device, reports, devices, now).tracker.states, other) == Some(
            LinkStatus::Connected,
        ) ==> field(t.states, other) == Some(LinkStatus::Connected),
    decreases reports.len(),
{
    if reports.len() > 0 {
        let a = attempted(t, device, reports.drop_last(), devices, now);
        let r = reports.last();
        reaching_a_device_does_not_connect_it(t, device, reports.drop_last(), devices, now, other);
        set_field_reads_back(a.tracker.states, r.device, r.status, other);
    }
}

/// A device whose poll failed is tried until a poll of it goes well: neither a try nor a poll of
/// another device ends that.
pub proof fn tried_until_a_poll_goes_well(
    retries: Retries,
    device: Seq<char>,
    other: Seq<char>,
    healthy: bool,
    now: nat,
)
    requires
        ascending(retries),
        device != other,
    ensures
        field(retries_after_poll(retries, device, false, now), device) is Some,
        field(retries_after_try(retries, device, now), device) is Some <==> field(
            retries,
            device,
        ) is Some,
        field(retries_after_try(retries, other, now), device) == field(retries, device),
        field(retries_after_poll(retries, other, healthy, now), device) == field(retries, device),
        field(retries_after_poll(retries, device, true, now), device) is None,
{
    set_field_reads_back(retries, device, first_try(now), device);
    set_field_reads_back(retries, other, first_try(now), device);
    match field(retries, device) {
        Some(t) => set_field_reads_back(retries, device, next_try(t, now), device),
        None => {},
    }
    match field(retries, other) {
        Some(t) => set_field_reads_back(retries, other, next_try(t, now), device),
        None => {},
    }
    taken_field_is_gone(retries, device, device);
    taken_field_is_gone(retries, other, device);
}

/// A poll brings a link up whatever it was, and degrades one that was up; it changes no other, and
/// says nothing of one that stays as it is.
pub proof fn polls_bring_links_up_and_degrade_them(current: Option<LinkStatus>, healthy: bool)
    ensures
        healthy && current != Some(LinkStatus::Connected) ==> next_status(current, healthy) == Some(
            LinkStatus::Connected,
        ),
        !healthy && current == Some(LinkStatus::Connected) ==> next_status(current, healthy)
            == Some(LinkStatus::Degraded),
        healthy && current == Some(LinkStatus::Connected) ==> next_status(current, healthy) is None,
        !healthy && current != Some(LinkStatus::Connected) ==> next_status(
            current,
            healthy,
        ) is None,
{
}

proof fn first_type(devices: Seq<DeviceConfig>, name: Seq<char>, d: int)
    requires
        0 <= d < devices.len(),
        devices[d].name@ == name,
        forall|i: int| 0 <= i < d ==> (#[trigger] devices[i]).name@ != name,
    ensures
        type_among(devices, name) == devices[d].kind(),
    decreases d,
{
    if d > 0 {
        let rest = devices.drop_first();
        assert(devices[0].name@ != name);
        assert forall|i: int| 0 <= i < d - 1 implies (#[trigger] rest[i]).name@ != name by {
            assert(rest[i] == devices[i + 1]);
        }
        first_type(rest, name, d - 1);
    }
}

/// What is told of a link is its status, since when it is up where it is, why it is not where that
/// is known, what the device says of itself, and the type that is configured for the device, which
/// is the one at `d`.
pub proof fn link_statuses_say_how_the_link_is(
    r: ReportView,
    devices: Seq<DeviceConfig>,
    now: int,
    d: int,
)
    requires
        0 <= d < devices.len(),
        devices[d].name@ == r.device,
        forall|i: int| 0 <= i < d ==> (#[trigger] devices[i]).name@ != r.device,
    ensures
        ({
            let f = link_fields(r, devices, now);
            &&& field(f, "status"@) == Some(JsonView::Text(r.status.label()))
            &&& r.status == LinkStatus::Connected ==> field(f, "since"@) == Some(
                JsonView::Text(timestamp_text(now)),
            )
            &&& r.status != LinkStatus::Connected ==> field(f, "since"@) is None
            &&& r.reason matches Some(t) ==> field(f, "reason"@) == Some(JsonView::Text(t))
            &&& r.reason is None ==> field(f, "reason"@) is None
            &&& field(f, "info"@) == r.info
            &&& field(f, "type"@) == match devices[d].device_type {
                Some(t) => if t@.len() > 0 {
                    Some(JsonView::Text(t@))
                } else {
                    None
                },
                None => None,
            }
        }),
{
    broadcast use crate::keyed::field_once_set;

    first_type(devices, r.device, d);
    reveal_strlit("status");
    reveal_strlit("type");
    reveal_strlit("since");
    reveal_strlit("reason");
    reveal_strlit("info");
    assert("status"@.len() == 6 && "reason"@.len() == 6 && "since"@.len() == 5 && "type"@.len() == 4
        && "info"@.len() == 4);
    assert("status"@[0] == 's' && "reason"@[0] == 'r' && "type"@[0] == 't' && "info"@[0] == 'i');
}

/// A report that was told is what is known of its device; what a device said of itself is kept
/// where the report does not say it anew; and nothing else changes.
pub proof fn told_reports_are_known(t: TrackerView, r: ReportView, other: Seq<char>)
    ensures
        field(noted(t, r).states, r.device) == Some(r.status),
        other != r.device ==> field(noted(t, r).states, other) == field(t.states, other),
        r.info is Some ==> field(noted(t, r).infos, r.device) == r.info,
        r.info is None ==> noted(t, r).infos == t.infos,
        other != r.device ==> field(noted(t, r).infos, other) == field(t.infos, other),
        noted(t, r).protocol == t.protocol,
{
    broadcast use crate::keyed::field_once_set;

}

/// The first try is due after a second. A try that brought nothing is followed by one after twice
/// the wait, and after a minute at most.
pub proof fn tries_are_put_off(t: RetryView, now: nat, at: nat)
    requires
        at < u128::MAX,
    ensures
        first_try(now).due <= at <==> now + 1_000_000_000 <= at,
        first_try(now).delay == 1_000_000_000,
        t.delay <= 30_000_000_000 ==> next_try(t, now).delay == 2 * t.delay,
        t.delay >= 30_000_000_000 ==> next_try(t, now).delay == 60_000_000_000,
        next_try(t, now).due <= at <==> now + next_try(t, now).delay <= at,
{
}

/// The devices that are tried are those whose try is due, each where it stands.
pub proof fn due_devices_are_tried(retries: Retries, now: nat, device: Seq<char>)
    ensures
        due_devices(retries, now).contains(device) <==> exists|i: int|
            0 <= i < retries.len() && (#[trigger] retries[i]).0 == device && retries[i].1.due <= now,
        due_devices(retries, now).len() <= retries.len(),
    decreases retries.len(),
{
    if retries.len() > 0 {
        let init = retries.drop_last();
        let head = due_devices(init, now);
        let all = due_devices(retries, now);
        due_devices_are_tried(init, now, device);
        if all.contains(device) {
            let k = choose|k: int| 0 <= k < all.len() && all[k] == device;
            if k < head.len() {
                assert(head[k] == device);
                let i = choose|i: int|
                    0 <= i < init.len() && (#[trigger] init[i]).0 == device && init[i].1.due <= now;
                assert(retries[i] == init[i]);
            } else {
                assert(retries[retries.len() - 1].0 == device);
            }
        }
        if exists|i: int|
            0 <= i < retries.len() && (#[trigger] retries[i]).0 == device && retries[i].1.due
                <= now {
            let i = choose|i: int|
                0 <= i < retries.len() && (#[trigger] retries[i]).0 == device && retries[i].1.due
                    <= now;
            if i < init.len() {
                assert(init[i] == retries[i]);
                let k = choose|k: int| 0 <= k < head.len() && head[k] == device;
                assert(all[k] == device);
            } else {
                assert(all[head.len() as int] == device);
            }
        }
    }
}

/// A message tells a report of a link that is not up.
pub open spec fn tells_a_loss(
    m: MessageView,
    protocol: Seq<char>,
    reports: Seq<ReportView>,
    devices: Seq<DeviceConfig>,
    now: int,
) -> bool {
    exists|i: int|
        0 <= i < reports.len() && (#[trigger] reports[i]).status != LinkStatus::Connected && m
            == link_message(protocol, reports[i], devices, now)
}

/// A device is reached again exactly where a report of it says that it is connected; and what is
/// told is never that a link is up.
pub proof fn devices_are_reached_where_they_report_it(
    t: TrackerView,
    device: Seq<char>,
    reports: Seq<ReportView>,
    devices: Seq<DeviceConfig>,
    now: int,
)
    ensures
        attempted(t, device, reports, devices, now).restored <==> exists|i: int|
            0 <= i < reports.len() && (#[trigger] reports[i]).device == device && reports[i].status
                == LinkStatus::Connected,
        forall|k: int|
            0 <= k < attempted(t, device, reports, devices, now).messages.len() ==> tells_a_loss(
                #[trigger] attempted(t, device, reports, devices, now).messages[k],
                t.protocol,
                reports,
                devices,
                now,
            ),
        attempted(t, device, reports, devices, now).tracker.protocol == t.protocol,
    decreases reports.len(),
{
    if reports.len() > 0 {
        let init = reports.drop_last();
        let r = reports.last();
        let before = attempted(t, device, init, devices, now);
        let after = attempted(t, device, reports, devices, now);
        devices_are_reached_where_they_report_it(t, device, init, devices, now);
        if before.restored {
            let i = choose|i: int|
                0 <= i < init.len() && (#[trigger] init[i]).device == device && init[i].status
                    == LinkStatus::Connected;
            assert(reports[i] == init[i]);
        }
        assert(reports[reports.len() - 1] == r);
        if exists|i: int|
            0 <= i < reports.len() && (#[trigger] reports[i]).device == device && reports[i].status
                == LinkStatus::Connected {
            let i = choose|i: int|
                0 <= i < reports.len() && (#[trigger] reports[i]).device == device
                    && reports[i].status == LinkStatus::Connected;
            if i < init.len() {
                assert(init[i] == reports[i]);
            }
        }
        assert forall|k: int| 0 <= k < after.messages.len() implies tells_a_loss(
            #[trigger] after.messages[k],
            t.protocol,
            reports,
            devices,
            now,
        ) by {
            if k < before.messages.len() {
                assert(after.messages[k] == before.messages[k]);
                let i = choose|i: int|
                    0 <= i < init.len() && (#[trigger] init[i]).status != LinkStatus::Connected
                        && before.messages[k] == link_message(t.protocol, init[i], devices, now);
                assert(reports[i] == init[i]);
            } else {
                assert(after.messages[k] == link_message(t.protocol, r, devices, now));
            }
        }
    }
}

/// A report of a try is told where it changes what is known of a link that is not up, and kept in
/// mind; where nothing changes, or where the device is reached, nothing is told.
pub proof fn tries_are_told_where_they_change_a_link(
    t: TrackerView,
    device: Seq<char>,
    reports: Seq<ReportView>,
    r: ReportView,
    devices: Seq<DeviceConfig>,
    now: int,
    other: Seq<char>,
)
    ensures
        ({
            let a = attempted(t, device, reports, devices, now);
            let b = attempted(t, device, reports.push(r), devices, now);
            let known = field(a.tracker.states, r.device);
            &&& r.status == LinkStatus::Connected || known == Some(r.status) ==> b.messages
                == a.messages && b.tracker.states == a.tracker.states
            &&& r.status != LinkStatus::Connected && known != Some(r.status) ==> b.messages
                == a.messages.push(link_message(a.tracker.protocol, r, devices, now)) && field(
                b.tracker.states,
                r.device,
            ) == Some(r.status)
            &&& other != r.device ==> field(b.tracker.states, other) == field(
                a.tracker.states,
                other,
            )
        }),
{
    broadcast use crate::keyed::field_once_set;

    assert(reports.push(r).drop_last() =~= reports);
}

/// A try that is pending is not put off by another poll that fails; where none is, the first one
/// is due a second later.
pub proof fn pending_tries_are_not_put_off(retries: Retries, device: Seq<char>, now: nat)
    ensures
        field(retries, device) is Some ==> field(
            retries_after_poll(retries, device, false, now),
            device,
        ) == field(retries, device),
        field(retries, device) is None ==> field(
            retries_after_poll(retries, device, false, now),
            device,
        ) == Some(first_try(now)),
        field(retries, device) matches Some(t) ==> field(
            retries_after_try(retries, device, now),
            device,
        ) == Some(next_try(t, now)),
{
    broadcast use crate::keyed::field_once_set;

}

} // verus!
