//! Sessions with OPC UA servers: how one is set up, whether it still delivers, what is written
//! through it.
use crate::clock::{nanos, END};
use crate::connector::{
    CommandRequest, CommandResult, ConnectorError, LinkReport, LinkStatus,
};
use crate::json::copy_json;
use crate::keyed::field;
use crate::model::DataType;
use crate::schedule::{nanos_of, PointRef};
use crate::text::{
    concat2, concat3, copy_text, decimal_text, join, joined, lowered, lowers_to, push_decimal,
    same_text, str_of, text_of, texts,
};
use crate::ua_client::{
    lookup, model_view, same_node, DeviceModel, NodeId, NodeView, OpcuaPoint, UaPointView, UaPoints,
};
use crate::ua_values::{
    build_variant, good_status, is_good, status_name, status_text, variant_of, Variant,
};
use std::str::FromStr;
use std::time::Duration;
use vstd::prelude::*;

verus! {

/// What the sessions of a connector share.
#[derive(Debug, PartialEq)]
pub struct OpcuaConnection {
    pub application_name: String,
    pub application_uri: String,
    pub security_policy: Option<String>,
    pub security_mode: Option<String>,
    pub connect_timeout_s: u64,
    pub request_timeout_s: u64,
}

/// A server.
#[derive(Debug, PartialEq)]
pub struct OpcuaEndpoint {
    pub endpoint: String,
    pub security_policy: Option<String>,
    pub security_mode: Option<String>,
    pub user: Option<String>,
    pub password: Option<String>,
}

/// How messages are secured.
#[derive(Clone, Copy, Debug, PartialEq, Eq, Structural)]
pub enum SecurityMode {
    Unsecured,
    Sign,
    SignAndEncrypt,
}

/// How messages are secured by a configuration. It may be written in any case; what is not known
/// secures nothing.
pub open spec fn security_mode(mode: Option<Seq<char>>) -> SecurityMode {
    match mode {
        Some(m) => if lowered(m) == "sign"@ {
            SecurityMode::Sign
        } else if lowered(m) == "sign_and_encrypt"@ || lowered(m) == "signandencrypt"@ {
            SecurityMode::SignAndEncrypt
        } else {
            SecurityMode::Unsecured
        },
        None => SecurityMode::Unsecured,
    }
}

/// How messages are secured by a configuration.
pub fn parse_security_mode(mode: Option<&str>) -> (r: SecurityMode)
    ensures
        r == security_mode(str_of(mode)),
{
    match mode {
        Some(m) => if lowers_to(m, "sign") {
            SecurityMode::Sign
        } else if lowers_to(m, "sign_and_encrypt") || lowers_to(m, "signandencrypt") {
            SecurityMode::SignAndEncrypt
        } else {
            SecurityMode::Unsecured
        },
        None => SecurityMode::Unsecured,
    }
}

/// The short name of a security policy that a text names.
pub uninterp spec fn policy_of(text: Seq<char>) -> Option<Seq<char>>;

/// `opcua::crypto::SecurityPolicy` from its name or its URI, and its name: `None` is the one
/// without any security. What is no policy has no name.
#[verifier::external_body]
fn find_policy(text: &str) -> (r: Option<String>)
    ensures
        match r {
            Some(name) => policy_of(text@) == Some(name@),
            None => policy_of(text@) is None,
        },
{
    match opcua::crypto::SecurityPolicy::from_str(text) {
        Ok(opcua::crypto::SecurityPolicy::Unknown) => None,
        Ok(policy) => Some(policy.to_str().to_owned()),
        Err(_) => None,
    }
}

/// Who the connector is to a server.
#[derive(Debug, PartialEq)]
pub enum Identity {
    Anonymous,
    User { name: String, password: String },
}

/// Who the connector is to a server.
#[verifier::ext_equal]
pub enum IdentityView {
    Anonymous,
    User { name: Seq<char>, password: Seq<char> },
}

impl View for Identity {
    type V = IdentityView;

    open spec fn view(&self) -> IdentityView {
        match self {
            Identity::Anonymous => IdentityView::Anonymous,
            Identity::User { name, password } => IdentityView::User {
                name: name@,
                password: password@,
            },
        }
    }
}

/// How a session is set up.
#[derive(Debug, PartialEq)]
pub struct ConnectPlan {
    pub policy: String,
    pub mode: SecurityMode,
    pub identity: Identity,
    /// The server is dialled where it is configured, instead of where it says that it is.
    pub direct: bool,
    pub timeout: Duration,
}

/// How a session is set up.
#[verifier::ext_equal]
pub struct ConnectView {
    pub policy: Seq<char>,
    pub mode: SecurityMode,
    pub identity: IdentityView,
    pub direct: bool,
    pub timeout: nat,
}

impl View for ConnectPlan {
    type V = ConnectView;

    open spec fn view(&self) -> ConnectView {
        ConnectView {
            policy: self.policy@,
            mode: self.mode,
            identity: self.identity@,
            direct: self.direct,
            timeout: nanos(self.timeout),
        }
    }
}

/// The first of two texts that is there.
pub open spec fn either_text(a: Option<Seq<char>>, b: Option<Seq<char>>) -> Option<Seq<char>> {
    match a {
        Some(x) => Some(x),
        None => b,
    }
}

/// The security policy that is configured for a server.
pub open spec fn configured_policy(conn: OpcuaConnection, e: OpcuaEndpoint) -> Seq<char> {
    match either_text(text_of(e.security_policy), text_of(conn.security_policy)) {
        Some(p) => p,
        None => "None"@,
    }
}

/// Who the connector is to a server. A user without a password has an empty one.
pub open spec fn endpoint_identity(e: OpcuaEndpoint) -> IdentityView {
    match e.user {
        Some(u) => IdentityView::User {
            name: u@,
            password: match e.password {
                Some(p) => p@,
                None => Seq::empty(),
            },
        },
        None => IdentityView::Anonymous,
    }
}

/// At least one second.
pub open spec fn at_least_a_second(secs: u64) -> nat {
    if secs > 1 {
        (secs * 1_000_000_000) as nat
    } else {
        1_000_000_000
    }
}

fn some_seconds(secs: u64) -> (r: Duration)
    ensures
        nanos(r) == at_least_a_second(secs),
{
    if secs > 1 {
        Duration::from_secs(secs)
    } else {
        Duration::from_secs(1)
    }
}

/// How a session with a server is set up, by the policy that the configured text names; or that
/// it names none. Without any security there is nothing to ask the server for beforehand, so it
/// is dialled directly: behind a gateway it may not know its own address.
pub open spec fn connect_plan(
    conn: OpcuaConnection,
    e: OpcuaEndpoint,
    policy: Option<Seq<char>>,
) -> Result<ConnectView, Seq<char>> {
    let mode = security_mode(either_text(text_of(e.security_mode), text_of(conn.security_mode)));
    match policy {
        None => Err("unknown security_policy '"@ + configured_policy(conn, e) + "'"@),
        Some(p) => Ok(
            ConnectView {
                policy: p,
                mode,
                identity: endpoint_identity(e),
                direct: p == "None"@ && mode == SecurityMode::Unsecured,
                timeout: at_least_a_second(conn.connect_timeout_s),
            },
        ),
    }
}

/// What a result holds.
pub open spec fn plan_result(r: Result<ConnectPlan, String>) -> Result<ConnectView, Seq<char>> {
    match r {
        Ok(p) => Ok(p@),
        Err(e) => Err(e@),
    }
}

fn first_of<'a>(a: &'a Option<String>, b: &'a Option<String>) -> (r: Option<&'a str>)
    ensures
        str_of(r) == either_text(text_of(*a), text_of(*b)),
{
    match a {
        Some(x) => Some(x.as_str()),
        None => match b {
            Some(x) => Some(x.as_str()),
            None => None,
        },
    }
}

/// How a session with a server is set up, by the policy that the configured text names.
pub fn plan_with_policy(
    conn: &OpcuaConnection,
    endpoint: &OpcuaEndpoint,
    policy: Option<String>,
) -> (r: Result<ConnectPlan, String>)
    ensures
        plan_result(r) == connect_plan(*conn, *endpoint, text_of(policy)),
{
    let mode: SecurityMode = parse_security_mode(
        first_of(&endpoint.security_mode, &conn.security_mode),
    );
    match policy {
        None => {
            let text: &str = match first_of(&endpoint.security_policy, &conn.security_policy) {
                Some(p) => p,
                None => "None",
            };
            Err(concat3("unknown security_policy '", text, "'"))
        },
        Some(p) => {
            let identity: Identity = match &endpoint.user {
                Some(u) => Identity::User {
                    name: u.clone(),
                    password: match &endpoint.password {
                        Some(w) => w.clone(),
                        None => String::new(),
                    },
                },
                None => Identity::Anonymous,
            };
            let direct: bool = same_text(p.as_str(), "None") && mode == SecurityMode::Unsecured;
            Ok(
                ConnectPlan {
                    policy: p,
                    mode,
                    identity,
                    direct,
                    timeout: some_seconds(conn.connect_timeout_s),
                },
            )
        },
    }
}

/// How a session with a server is set up, or why none is.
pub fn plan_connect(conn: &OpcuaConnection, endpoint: &OpcuaEndpoint) -> (r: Result<
    ConnectPlan,
    String,
>)
    ensures
        plan_result(r) == connect_plan(
            *conn,
            *endpoint,
            policy_of(configured_policy(*conn, *endpoint)),
        ),
{
    let text: &str = match first_of(&endpoint.security_policy, &conn.security_policy) {
        Some(p) => p,
        None => "None",
    };
    plan_with_policy(conn, endpoint, find_policy(text))
}

/// What came of waiting for a session.
#[derive(Clone, Copy, Debug, PartialEq, Eq, Structural)]
pub enum Activation {
    Active,
    Refused,
    TimedOut,
}

/// Why a session did not come about.
pub open spec fn activation_error(a: Activation, timeout: nat) -> Option<Seq<char>> {
    match a {
        Activation::Active => None,
        Activation::Refused => Some("session failed to connect"@),
        Activation::TimedOut => Some(
            "timed out after "@ + decimal_text(timeout / 1_000_000_000)
                + "s waiting for connection"@,
        ),
    }
}

/// Why a session did not come about.
pub fn activation_failure(a: Activation, timeout: Duration) -> (r: Option<String>)
    ensures
        text_of(r) == activation_error(a, nanos(timeout)),
{
    match a {
        Activation::Active => None,
        Activation::Refused => Some("session failed to connect".to_owned()),
        Activation::TimedOut => {
            let mut out: String = "timed out after ".to_owned();
            push_decimal(&mut out, timeout.as_secs());
            out.append("s waiting for connection");
            Some(out)
        },
    }
}

/// The report of a device that was connected, or was not.
pub fn connect_report(device: &str, failure: Option<String>) -> (r: LinkReport)
    ensures
        r.device@ == device@,
        r.status == if failure is None {
            LinkStatus::Connected
        } else {
            LinkStatus::Disconnected
        },
        text_of(r.reason) == text_of(failure),
        r.info is None,
{
    match failure {
        None => LinkReport::new(device.to_owned(), LinkStatus::Connected, None),
        Some(e) => LinkReport::new(device.to_owned(), LinkStatus::Disconnected, Some(e)),
    }
}

/// The error of a device that is not configured.
pub fn unknown_device(device: &str) -> (r: ConnectorError)
    ensures
        r matches ConnectorError::Other(t) && t@ == "unknown device '"@ + device@ + "'"@,
{
    ConnectorError::Other(concat3("unknown device '", device, "'"))
}

/// What is known of a session: whether it is up, why not, and when its server last published.
pub struct SessionHealth {
    pub connected: bool,
    pub reason: Option<String>,
    /// In nanoseconds of the runtime's clock.
    pub last_publish: u128,
}

/// What is known of a session.
#[verifier::ext_equal]
pub struct HealthView {
    pub connected: bool,
    pub reason: Option<Seq<char>>,
    pub last_publish: nat,
}

impl View for SessionHealth {
    type V = HealthView;

    open spec fn view(&self) -> HealthView {
        HealthView {
            connected: self.connected,
            reason: text_of(self.reason),
            last_publish: self.last_publish as nat,
        }
    }
}

/// What happens to a session. A status comes with its code.
#[derive(Clone, Copy, Debug, PartialEq, Eq, Structural)]
pub enum SessionEvent {
    Reconnected,
    ConnectionLost(u32),
    ReconnectFailed(u32),
    Published,
    Other,
    /// The client no longer tries to reconnect.
    GaveUp(u32),
    /// There is nothing more to come.
    Closed,
}

/// What is known of a session after an event.
pub open spec fn health_after(h: HealthView, e: SessionEvent, now: nat) -> HealthView {
    match e {
        SessionEvent::Reconnected => HealthView {
            connected: true,
            reason: None,
            last_publish: now,
        },
        SessionEvent::ConnectionLost(c) => HealthView {
            connected: false,
            reason: Some("connection lost: "@ + status_text(c)),
            ..h
        },
        SessionEvent::ReconnectFailed(c) => HealthView {
            connected: false,
            reason: Some("reconnect failed: "@ + status_text(c)),
            ..h
        },
        SessionEvent::Published => HealthView { last_publish: now, ..h },
        SessionEvent::Other => h,
        SessionEvent::GaveUp(c) => HealthView {
            connected: false,
            reason: Some("session gave up reconnecting: "@ + status_text(c)),
            ..h
        },
        SessionEvent::Closed => HealthView {
            connected: false,
            reason: match h.reason {
                Some(r) => Some(r),
                None => Some("session closed"@),
            },
            ..h
        },
    }
}

/// Whether an event is the last one of a session.
pub open spec fn ends_session(e: SessionEvent) -> bool {
    e is GaveUp || e is Closed
}

impl SessionHealth {
    /// A session that is not up yet.
    pub fn new(now: u128) -> (r: SessionHealth)
        ensures
            r@ == (HealthView { connected: false, reason: None, last_publish: now as nat }),
    {
        SessionHealth { connected: false, reason: None, last_publish: now }
    }

    /// Takes in an event, and gives whether it is the last one.
    pub fn note(&mut self, e: SessionEvent, now: u128) -> (r: bool)
        ensures
            final(self)@ == health_after(old(self)@, e, now as nat),
            r == ends_session(e),
    {
        match e {
            SessionEvent::Reconnected => {
                self.connected = true;
                self.reason = None;
                self.last_publish = now;
                false
            },
            SessionEvent::ConnectionLost(c) => {
                let name: String = status_name(c);
                self.connected = false;
                self.reason = Some(concat2("connection lost: ", name.as_str()));
                false
            },
            SessionEvent::ReconnectFailed(c) => {
                let name: String = status_name(c);
                self.connected = false;
                self.reason = Some(concat2("reconnect failed: ", name.as_str()));
                false
            },
            SessionEvent::Published => {
                self.last_publish = now;
                false
            },
            SessionEvent::Other => false,
            SessionEvent::GaveUp(c) => {
                let name: String = status_name(c);
                self.connected = false;
                self.reason = Some(concat2("session gave up reconnecting: ", name.as_str()));
                true
            },
            SessionEvent::Closed => {
                self.connected = false;
                if self.reason.is_none() {
                    self.reason = Some("session closed".to_owned());
                }
                true
            },
        }
    }

    /// Notes that the session came up, unless it was lost since.
    pub fn activated(&mut self)
        ensures
            final(self)@ == (HealthView {
                connected: old(self)@.connected || old(self)@.reason is None,
                ..old(self)@
            }),
    {
        if self.reason.is_none() {
            self.connected = true;
        }
    }

    /// Notes that a subscription was set up: until the server publishes, that is the last sign of
    /// it.
    pub fn armed(&mut self, now: u128)
        ensures
            final(self)@ == (HealthView { last_publish: now as nat, ..old(self)@ }),
    {
        self.last_publish = now;
    }
}

/// What is known of a session after events.
pub open spec fn health_trace(h: HealthView, events: Seq<(SessionEvent, nat)>) -> HealthView
    decreases events.len(),
{
    if events.len() == 0 {
        h
    } else {
        let (e, t) = events.last();
        health_after(health_trace(h, events.drop_last()), e, t)
    }
}

/// A session that was lost says why, and stays lost until it is connected again.
pub proof fn a_lost_session_says_why(h: HealthView, events: Seq<(SessionEvent, nat)>)
    requires
        events.len() > 0,
        !(events[0].0 is Reconnected || events[0].0 is Published || events[0].0 is Other),
        forall|i: int| 0 < i < events.len() ==> !((#[trigger] events[i]).0 is Reconnected),
    ensures
        !health_trace(h, events).connected,
        health_trace(h, events).reason is Some,
    decreases events.len(),
{
    let init = events.drop_last();
    if events.len() == 1 {
        assert(init =~= Seq::<(SessionEvent, nat)>::empty());
        assert(events.last() == events[0]);
    } else {
        assert forall|i: int| 0 < i < init.len() implies !((#[trigger] init[i]).0 is Reconnected) by {
            assert(init[i] == events[i]);
        }
        assert(init[0] == events[0]);
        assert(events.last() == events[events.len() - 1]);
        a_lost_session_says_why(h, init);
    }
}

/// A point that a server is asked to push: how often it looks at it.
#[derive(Debug, PartialEq)]
pub struct MonitoredItem {
    pub id: String,
    pub point: OpcuaPoint,
    pub interval: Duration,
}

/// What a pushed point is.
#[verifier::ext_equal]
pub struct ItemView {
    pub id: Seq<char>,
    pub point: UaPointView,
    pub interval: nat,
}

impl View for MonitoredItem {
    type V = ItemView;

    open spec fn view(&self) -> ItemView {
        ItemView { id: self.id@, point: self.point@, interval: nanos(self.interval) }
    }
}

/// What each pushed point is.
pub open spec fn item_views(v: Seq<MonitoredItem>) -> Seq<ItemView> {
    v.map_values(|m: MonitoredItem| m@)
}

/// How often a server looks at a point that says nothing of it: twice a second.
pub open spec fn sampling_interval(interval: Option<nat>) -> nat {
    match interval {
        Some(n) => n,
        None => 500_000_000,
    }
}

/// The items of the first `n` points, or the first id that is not known.
pub open spec fn monitored(model: UaPoints, points: Seq<PointRef>, n: int) -> Result<
    Seq<ItemView>,
    Seq<char>,
>
    decreases n,
{
    if n <= 0 {
        Ok(Seq::empty())
    } else {
        match monitored(model, points, n - 1) {
            Err(id) => Err(id),
            Ok(head) => match field(model, points[n - 1].id@) {
                Some(p) => Ok(
                    head.push(
                        ItemView {
                            id: points[n - 1].id@,
                            point: p,
                            interval: sampling_interval(nanos_of(points[n - 1].interval)),
                        },
                    ),
                ),
                None => Err(points[n - 1].id@),
            },
        }
    }
}

proof fn unknown_stays_unknown(model: UaPoints, points: Seq<PointRef>, n: int, m: int)
    requires
        0 <= n <= m,
        monitored(model, points, n) is Err,
    ensures
        monitored(model, points, m) == monitored(model, points, n),
    decreases m,
{
    if n < m {
        unknown_stays_unknown(model, points, n, m - 1);
    }
}

/// The shortest of the intervals, which the server publishes at.
pub open spec fn shortest(items: Seq<ItemView>) -> nat
    decreases items.len(),
{
    if items.len() == 0 {
        500_000_000
    } else if items.len() == 1 {
        items[0].interval
    } else {
        let head = shortest(items.drop_last());
        if items.last().interval < head {
            items.last().interval
        } else {
            head
        }
    }
}

/// What a server is asked to push.
pub struct SubscribePlan {
    pub items: Vec<MonitoredItem>,
    pub publishing_interval: Duration,
}

/// What comes of being asked to have points of a device pushed.
pub open spec fn subscribed(
    device: Seq<char>,
    model: Option<UaPoints>,
    connected: bool,
    points: Seq<PointRef>,
    r: Result<Option<SubscribePlan>, ConnectorError>,
) -> bool {
    if points.len() == 0 {
        r matches Ok(None)
    } else {
        match model {
            None => r matches Err(ConnectorError::NotConnected(d)) && d@ == device,
            Some(m) => match monitored(m, points, points.len() as int) {
                Err(id) => r matches Err(ConnectorError::UnknownPoint { device: d, point }) && d@
                    == device && point@ == id,
                Ok(items) => if connected {
                    r matches Ok(Some(plan)) && item_views(plan.items@) == items && nanos(
                        plan.publishing_interval,
                    ) == shortest(items)
                } else {
                    r matches Err(ConnectorError::NotConnected(d)) && d@ == device
                },
            },
        }
    }
}

fn shortest_interval(items: &Vec<MonitoredItem>) -> (r: Duration)
    ensures
        nanos(r) == shortest(item_views(items@)),
{
    let ghost all = item_views(items@);
    if items.len() == 0 {
        return Duration::from_millis(500);
    }
    let mut best: Duration = items[0].interval;
    let mut i: usize = 1;
    assert(all.take(1)[0] == items@[0]@);
    while i < items.len()
        invariant
            1 <= i <= items@.len(),
            all == item_views(items@),
            nanos(best) == shortest(all.take(i as int)),
        decreases items@.len() - i,
    {
        assert(all.take(i + 1).drop_last() =~= all.take(i as int));
        assert(all.take(i + 1).last() == items@[i as int]@);
        if items[i].interval.as_nanos() < best.as_nanos() {
            best = items[i].interval;
        }
        i = i + 1;
    }
    assert(all.take(all.len() as int) =~= all);
    best
}

/// What a server is asked to push, for points of a device that a runtime wants pushed; nothing
/// where it wants none.
pub fn plan_subscribe(
    device: &str,
    model: Option<&DeviceModel>,
    connected: bool,
    points: &Vec<PointRef>,
) -> (r: Result<Option<SubscribePlan>, ConnectorError>)
    ensures
        subscribed(device@, model_view(model), connected, points@, r),
{
    if points.len() == 0 {
        return Ok(None);
    }
    let m: &DeviceModel = match model {
        Some(m) => m,
        None => {
            return Err(ConnectorError::NotConnected(device.to_owned()));
        },
    };
    let mut items: Vec<MonitoredItem> = Vec::new();
    let mut i: usize = 0;
    assert(item_views(items@) =~= Seq::<ItemView>::empty());
    while i < points.len()
        invariant
            i <= points@.len(),
            points@.len() > 0,
            model_view(model) == Some(m@),
            monitored(m@, points@, i as int) == Ok::<Seq<ItemView>, Seq<char>>(
                item_views(items@),
            ),
        decreases points@.len() - i,
    {
        match m.point(points[i].id.as_str()) {
            Some(p) => {
                let interval: Duration = match points[i].interval {
                    Some(d) => d,
                    None => Duration::from_millis(500),
                };
                let item = MonitoredItem { id: points[i].id.clone(), point: p.clone(), interval };
                let ghost was = item_views(items@);
                items.push(item);
                assert(item_views(items@) =~= was.push(item@));
            },
            None => {
                proof {
                    unknown_stays_unknown(m@, points@, i + 1, points@.len() as int);
                }
                return Err(
                    ConnectorError::UnknownPoint {
                        device: device.to_owned(),
                        point: points[i].id.clone(),
                    },
                );
            },
        }
        i = i + 1;
    }
    if !connected {
        return Err(ConnectorError::NotConnected(device.to_owned()));
    }
    let publishing_interval: Duration = shortest_interval(&items);
    Ok(Some(SubscribePlan { items, publishing_interval }))
}

/// The places of the items of a node, in turn: several points may be of one node.
pub open spec fn places_of_node(items: Seq<ItemView>, node: NodeView) -> Seq<int>
    decreases items.len(),
{
    if items.len() == 0 {
        Seq::empty()
    } else {
        let head = places_of_node(items.drop_last(), node);
        if items.last().point.node == node {
            head.push(items.len() - 1)
        } else {
            head
        }
    }
}

/// Places as integers.
pub open spec fn places(v: Seq<usize>) -> Seq<int> {
    v.map_values(|i: usize| i as int)
}

/// The places of the items of a node, which a change of it is told to.
pub fn items_of_node(items: &Vec<MonitoredItem>, node: &NodeId) -> (r: Vec<usize>)
    ensures
        places(r@) == places_of_node(item_views(items@), node@),
{
    let ghost all = item_views(items@);
    let mut out: Vec<usize> = Vec::new();
    let mut i: usize = 0;
    assert(all.take(0) =~= Seq::<ItemView>::empty());
    assert(places(out@) =~= Seq::<int>::empty());
    while i < items.len()
        invariant
            i <= items@.len(),
            all == item_views(items@),
            places(out@) == places_of_node(all.take(i as int), node@),
        decreases items@.len() - i,
    {
        assert(all.take(i + 1).drop_last() =~= all.take(i as int));
        assert(all.take(i + 1).last() == items@[i as int]@);
        if same_node(&items[i].point.node_id, node) {
            let ghost was = places(out@);
            out.push(i);
            assert(places(out@) =~= was.push(i as int));
        }
        i = i + 1;
    }
    assert(all.take(all.len() as int) =~= all);
    out
}

/// The items that a server refused, of those that it answered for, each with its status.
pub open spec fn refused_items(items: Seq<ItemView>, results: Seq<u32>, n: int) -> Seq<Seq<char>>
    decreases n,
{
    if n <= 0 {
        Seq::empty()
    } else {
        let head = refused_items(items, results, n - 1);
        if good_status(results[n - 1]) {
            head
        } else {
            head.push(items[n - 1].id + ": "@ + status_text(results[n - 1]))
        }
    }
}

/// How many of the items a server answered for.
pub open spec fn answered(items: Seq<ItemView>, results: Seq<u32>) -> int {
    if items.len() < results.len() {
        items.len() as int
    } else {
        results.len() as int
    }
}

/// Why a subscription is given up again: a server that does not push every item pushes none, so
/// that every point stays polled.
pub open spec fn rejection(items: Seq<ItemView>, results: Seq<u32>) -> Option<Seq<char>> {
    let refused = refused_items(items, results, answered(items, results));
    if refused.len() == 0 {
        None
    } else {
        Some("monitored items rejected: "@ + joined(refused, ", "@))
    }
}

/// Why a subscription is given up again.
pub fn rejected_items(items: &Vec<MonitoredItem>, results: &Vec<u32>) -> (r: Option<
    ConnectorError,
>)
    ensures
        match rejection(item_views(items@), results@) {
            Some(reason) => r matches Some(ConnectorError::Transport(t)) && t@ == reason,
            None => r is None,
        },
{
    let ghost all = item_views(items@);
    let mut refused: Vec<String> = Vec::new();
    let mut i: usize = 0;
    assert(texts(refused@) =~= Seq::<Seq<char>>::empty());
    while i < items.len() && i < results.len()
        invariant
            i <= items@.len(),
            i <= results@.len(),
            all == item_views(items@),
            texts(refused@) == refused_items(all, results@, i as int),
        decreases items@.len() - i,
    {
        assert(all[i as int] == items@[i as int]@);
        if !is_good(results[i]) {
            let name: String = status_name(results[i]);
            let entry: String = concat3(items[i].id.as_str(), ": ", name.as_str());
            let ghost was = texts(refused@);
            refused.push(entry);
            assert(texts(refused@) =~= was.push(entry@));
        }
        i = i + 1;
    }
    assert(texts(refused@).len() == refused@.len());
    if refused.len() == 0 {
        return None;
    }
    let list: String = join(&refused, ", ");
    Some(ConnectorError::Transport(concat2("monitored items rejected: ", list.as_str())))
}

/// A subscription stands where, and only where, the server took every item that it answered for.
pub proof fn all_items_or_none(items: Seq<ItemView>, results: Seq<u32>)
    ensures
        rejection(items, results) is None <==> (forall|i: int|
            0 <= i < answered(items, results) ==> good_status(#[trigger] results[i])),
{
    refused_where_bad(items, results, answered(items, results));
}

proof fn refused_where_bad(items: Seq<ItemView>, results: Seq<u32>, n: int)
    requires
        0 <= n <= results.len(),
    ensures
        refused_items(items, results, n).len() == 0 <==> (forall|i: int|
            0 <= i < n ==> good_status(#[trigger] results[i])),
    decreases n,
{
    if n > 0 {
        refused_where_bad(items, results, n - 1);
        if good_status(results[n - 1]) {
            assert forall|i: int| 0 <= i < n && (forall|k: int|
                0 <= k < n - 1 ==> good_status(#[trigger] results[k])) implies good_status(
                #[trigger] results[i],
            ) by {
                if i < n - 1 {
                    assert(good_status(results[i]));
                }
            }
        }
    }
}

/// What a session holds of its subscription: how many items, and how often its server publishes
/// at least.
pub struct LiveSubscription {
    pub items: usize,
    pub publishing_interval: Duration,
    pub keep_alive_count: u32,
}

/// How long a server may stay silent, in nanoseconds: for its keep-alive window, and a request
/// on top.
pub open spec fn silence_allowed(live: LiveSubscription, request_timeout_s: u64) -> nat {
    let count = if live.keep_alive_count > 1 {
        live.keep_alive_count as nat
    } else {
        1
    };
    let window = nanos(live.publishing_interval) * count;
    let bounded = if window < END {
        window
    } else {
        (END - 1) as nat
    };
    bounded + at_least_a_second(request_timeout_s)
}

/// Why a subscription no longer delivers.
pub open spec fn subscription_error(
    h: HealthView,
    expected: Option<usize>,
    live: Option<LiveSubscription>,
    request_timeout_s: u64,
    now: nat,
) -> Option<Seq<char>> {
    let silent = if now > h.last_publish {
        (now - h.last_publish) as nat
    } else {
        0
    };
    match expected {
        None => Some("no subscription armed"@),
        Some(n) => if !h.connected {
            match h.reason {
                Some(r) => Some(r),
                None => Some("session is not connected"@),
            }
        } else {
            match live {
                None => Some("subscription lost with the session"@),
                Some(l) => if l.items < n {
                    Some(
                        "subscription lost monitored items ("@ + decimal_text(l.items as nat)
                            + " of "@ + decimal_text(n as nat) + " left)"@,
                    )
                } else if silent > silence_allowed(l, request_timeout_s) {
                    Some(
                        "no publish response for "@ + decimal_text(silent / 1_000_000_000)
                            + "s (keep-alive window "@ + decimal_text(
                            silence_allowed(l, request_timeout_s) / 1_000_000_000,
                        ) + "s); server not answering?"@,
                    )
                } else {
                    None
                },
            }
        },
    }
}

fn allowed_silence(live: &LiveSubscription, request_timeout_s: u64) -> (r: u128)
    ensures
        r == silence_allowed(*live, request_timeout_s),
{
    let count: u128 = if live.keep_alive_count > 1 {
        live.keep_alive_count as u128
    } else {
        1
    };
    let interval: u128 = live.publishing_interval.as_nanos();
    assert(interval * count <= END * 0xffff_ffff) by (nonlinear_arith)
        requires
            interval < END,
            count <= 0xffff_ffff,
    ;
    assert(END * 0xffff_ffff < u128::MAX);
    let window: u128 = interval * count;
    let bounded: u128 = if window < END {
        window
    } else {
        END - 1
    };
    bounded + some_seconds(request_timeout_s).as_nanos()
}

/// Whether a device's subscription still delivers: a server that no longer does may say nothing
/// of it.
pub fn check_subscription(
    device: &str,
    health: Option<&SessionHealth>,
    expected: Option<usize>,
    live: Option<LiveSubscription>,
    request_timeout_s: u64,
    now: u128,
) -> (r: Result<(), ConnectorError>)
    ensures
        match health {
            None => r matches Err(ConnectorError::NotConnected(d)) && d@ == device@,
            Some(h) => match subscription_error(
                h@,
                expected,
                live,
                request_timeout_s,
                now as nat,
            ) {
                Some(reason) => r matches Err(ConnectorError::Transport(t)) && t@ == reason,
                None => r is Ok,
            },
        },
{
    let h: &SessionHealth = match health {
        Some(h) => h,
        None => {
            return Err(ConnectorError::NotConnected(device.to_owned()));
        },
    };
    let n: usize = match expected {
        Some(n) => n,
        None => {
            return Err(ConnectorError::Transport("no subscription armed".to_owned()));
        },
    };
    if !h.connected {
        let reason: String = match &h.reason {
            Some(r) => r.clone(),
            None => "session is not connected".to_owned(),
        };
        return Err(ConnectorError::Transport(reason));
    }
    match live {
        None => Err(ConnectorError::Transport("subscription lost with the session".to_owned())),
        Some(l) => {
            if l.items < n {
                let mut out: String = "subscription lost monitored items (".to_owned();
                push_decimal(&mut out, l.items as u64);
                out.append(" of ");
                push_decimal(&mut out, n as u64);
                out.append(" left)");
                return Err(ConnectorError::Transport(out));
            }
            let silent: u128 = now.saturating_sub(h.last_publish);
            let window: u128 = allowed_silence(&l, request_timeout_s);
            if silent > window {
                let mut out: String = "no publish response for ".to_owned();
                push_seconds(&mut out, silent);
                out.append("s (keep-alive window ");
                push_seconds(&mut out, window);
                out.append("s); server not answering?");
                return Err(ConnectorError::Transport(out));
            }
            Ok(())
        },
    }
}

fn push_seconds(out: &mut String, n: u128)
    ensures
        final(out)@ == old(out)@ + decimal_text((n / 1_000_000_000) as nat),
{
    push_large(out, n / 1_000_000_000);
}

fn push_large(out: &mut String, n: u128)
    ensures
        final(out)@ == old(out)@ + decimal_text(n as nat),
    decreases n,
{
    if n < 1_000_000_000 {
        push_decimal(out, n as u64);
    } else {
        let ghost before = out@;
        push_large(out, n / 10);
        push_decimal(out, (n % 10) as u64);
        assert(decimal_text((n % 10) as nat) =~= seq![crate::text::digit_char((n % 10) as nat)]);
        assert(out@ =~= before + decimal_text(n as nat));
    }
}

/// A write that is to be made.
pub struct WritePlan {
    pub node: NodeId,
    pub value: Variant,
}

/// What comes of being asked to write a point.
pub open spec fn write_planned(
    device: Seq<char>,
    model: Option<UaPoints>,
    connected: bool,
    verb: Seq<char>,
    request: CommandRequest,
    r: Result<WritePlan, ConnectorError>,
) -> bool {
    if verb != "write"@ {
        r matches Err(ConnectorError::Unsupported(v)) && v@ == verb
    } else {
        match lookup(model, request.point@) {
            None => r matches Err(ConnectorError::UnknownPoint { device: d, point }) && d@ == device
                && point@ == request.point@,
            Some(p) => if !p.access.writable() {
                r matches Err(ConnectorError::AccessDenied(x)) && x@ == request.point@
            } else {
                match p.datatype {
                    None => r matches Err(ConnectorError::Decode(t)) && t@
                        == "write requires a point datatype"@,
                    Some(dt) => match request.value {
                        None => r matches Err(ConnectorError::Decode(t)) && t@
                            == "write requires a value"@,
                        Some(v) => match variant_of(dt, v@) {
                            Err(e) => r matches Err(ConnectorError::Decode(t)) && t@ == e,
                            Ok(x) => if connected {
                                r matches Ok(plan) && plan.node@ == p.node && plan.value@ == x
                            } else {
                                r matches Err(ConnectorError::NotConnected(d)) && d@ == device
                            },
                        },
                    },
                }
            },
        }
    }
}

/// The write that a command asks for, or why it is not made.
pub fn plan_write(
    device: &str,
    model: Option<&DeviceModel>,
    connected: bool,
    verb: &str,
    request: &CommandRequest,
) -> (r: Result<WritePlan, ConnectorError>)
    ensures
        write_planned(device@, model_view(model), connected, verb@, *request, r),
{
    if !same_text(verb, "write") {
        return Err(ConnectorError::Unsupported(verb.to_owned()));
    }
    let found: Option<&OpcuaPoint> = match model {
        Some(m) => m.point(request.point.as_str()),
        None => None,
    };
    let p: &OpcuaPoint = match found {
        Some(p) => p,
        None => {
            return Err(
                ConnectorError::UnknownPoint {
                    device: device.to_owned(),
                    point: request.point.clone(),
                },
            );
        },
    };
    if !p.access.can_write() {
        return Err(ConnectorError::AccessDenied(request.point.clone()));
    }
    let dt: DataType = match p.datatype {
        Some(dt) => dt,
        None => {
            return Err(ConnectorError::Decode("write requires a point datatype".to_owned()));
        },
    };
    match &request.value {
        None => Err(ConnectorError::Decode("write requires a value".to_owned())),
        Some(v) => match build_variant(dt, v) {
            Err(e) => Err(ConnectorError::Decode(e)),
            Ok(value) => if connected {
                Ok(WritePlan { node: p.node_id.clone(), value })
            } else {
                Err(ConnectorError::NotConnected(device.to_owned()))
            },
        },
    }
}

/// What came of a write.
pub enum WriteOutcome {
    /// The statuses that the server answered with.
    Answered(Vec<u32>),
    /// The status that it refused the request with.
    Failed(u32),
    /// It did not answer, for so many seconds.
    TimedOut(u64),
}

/// Why a write failed.
pub open spec fn write_error(outcome: WriteOutcome) -> Option<Seq<char>> {
    match outcome {
        WriteOutcome::Answered(v) => if v@.len() == 0 || good_status(v@[0]) {
            None
        } else {
            Some("write rejected: "@ + status_text(v@[0]))
        },
        WriteOutcome::Failed(c) => Some("write failed: "@ + status_text(c)),
        WriteOutcome::TimedOut(secs) => Some(
            "write timed out after "@ + decimal_text(secs as nat) + "s (transport down?)"@,
        ),
    }
}

/// What a command that writes comes to: what was asked for, or why it failed.
pub fn finish_write(request: &CommandRequest, outcome: WriteOutcome) -> (r: Result<
    CommandResult,
    ConnectorError,
>)
    ensures
        match write_error(outcome) {
            None => r matches Ok(x) && x.point@ == request.point@ && crate::json::view_of(x.value)
                == crate::json::view_of(request.value) && text_of(x.raw) == text_of(request.raw),
            Some(reason) => r matches Err(ConnectorError::Transport(t)) && t@ == reason,
        },
{
    match outcome {
        WriteOutcome::Answered(v) => {
            if v.len() > 0 && !is_good(v[0]) {
                let name: String = status_name(v[0]);
                return Err(ConnectorError::Transport(concat2("write rejected: ", name.as_str())));
            }
            Ok(
                CommandResult {
                    point: request.point.clone(),
                    value: copy_json(&request.value),
                    raw: copy_text(&request.raw),
                },
            )
        },
        WriteOutcome::Failed(c) => {
            let name: String = status_name(c);
            Err(ConnectorError::Transport(concat2("write failed: ", name.as_str())))
        },
        WriteOutcome::TimedOut(secs) => {
            let mut out: String = "write timed out after ".to_owned();
            push_decimal(&mut out, secs);
            out.append("s (transport down?)");
            Err(ConnectorError::Transport(out))
        },
    }
}

/// What a server is configured with goes before what its connector is. It is dialled directly
/// exactly where nothing is secured, as the user that is configured and else as nobody, and waited
/// for as long as is configured, for a second at least.
pub proof fn sessions_are_set_up_as_configured(
    conn: OpcuaConnection,
    e: OpcuaEndpoint,
    policy: Option<Seq<char>>,
)
    ensures
        ({
            let r = connect_plan(conn, e, policy);
            &&& r is Ok <==> policy is Some
            &&& e.security_policy matches Some(t) ==> configured_policy(conn, e) == t@
            &&& e.security_policy is None ==> (conn.security_policy matches Some(t)
                ==> configured_policy(conn, e) == t@)
            &&& r matches Ok(p) ==> {
                &&& Some(p.policy) == policy
                &&& e.security_mode is Some ==> p.mode == security_mode(text_of(e.security_mode))
                &&& e.security_mode is None ==> p.mode == security_mode(text_of(conn.security_mode))
                &&& p.direct <==> p.policy == "None"@ && p.mode == SecurityMode::Unsecured
                &&& e.user is None <==> p.identity is Anonymous
                &&& e.user matches Some(u) ==> p.identity->name == u@ && (e.password matches Some(w)
                    ==> p.identity->password == w@) && (e.password is None
                    ==> p.identity->password.len() == 0)
                &&& conn.connect_timeout_s >= 1 ==> p.timeout == conn.connect_timeout_s
                    * 1_000_000_000
                &&& conn.connect_timeout_s == 0 ==> p.timeout == 1_000_000_000
            }
        }),
{
}

/// Each point that is asked for is pushed as what the device has under its id, and looked at as
/// often as it is to be read, or twice a second where nothing is said of that.
pub proof fn items_are_watched_at_their_points_interval(
    model: UaPoints,
    points: Seq<PointRef>,
    n: int,
    i: int,
)
    requires
        0 <= i < n <= points.len(),
    ensures
        monitored(model, points, n) matches Ok(items) ==> items.len() == n && items[i].id
            == points[i].id@ && field(model, points[i].id@) == Some(items[i].point)
            && items[i].interval == match points[i].interval {
            Some(d) => nanos(d),
            None => 500_000_000,
        },
        monitored(model, points, n) is Ok ==> field(model, points[i].id@) is Some,
        monitored(model, points, n) is Err ==> exists|k: int|
            0 <= k < n && field(model, (#[trigger] points[k]).id@) is None,
    decreases n,
{
    if n > 1 {
        let k = if i < n - 1 {
            i
        } else {
            0
        };
        items_are_watched_at_their_points_interval(model, points, n - 1, k);
    } else {
        assert(monitored(model, points, 0) == Ok::<Seq<ItemView>, Seq<char>>(Seq::empty()));
    }
    if field(model, points[n - 1].id@) is None {
        assert(field(model, points[n - 1].id@) is None);
    }
}

/// A server publishes as often as the item that is looked at most often.
pub proof fn servers_publish_at_the_shortest_interval(items: Seq<ItemView>, i: int)
    requires
        0 <= i < items.len(),
    ensures
        shortest(items) <= items[i].interval,
        exists|k: int| 0 <= k < items.len() && (#[trigger] items[k]).interval == shortest(items),
    decreases items.len(),
{
    if items.len() == 1 {
        assert(items[0].interval == shortest(items));
    } else {
        let init = items.drop_last();
        let j = if i < init.len() {
            i
        } else {
            0
        };
        servers_publish_at_the_shortest_interval(init, j);
        let k = choose|k: int| 0 <= k < init.len() && (#[trigger] init[k]).interval == shortest(init);
        assert(items[k].interval == shortest(init));
        assert(items[items.len() - 1].interval == items.last().interval);
        assert(init[j] == items[j]);
    }
}

/// A change of a node is told to every item of that node, and to no other.
pub proof fn changes_are_told_to_the_items_of_their_node(
    items: Seq<ItemView>,
    node: NodeView,
    i: int,
)
    ensures
        places_of_node(items, node).contains(i) <==> 0 <= i < items.len() && items[i].point.node
            == node,
    decreases items.len(),
{
    if items.len() > 0 {
        let init = items.drop_last();
        let head = places_of_node(init, node);
        let all = places_of_node(items, node);
        changes_are_told_to_the_items_of_their_node(init, node, i);
        if all.contains(i) {
            let k = choose|k: int| 0 <= k < all.len() && all[k] == i;
            if k < head.len() {
                assert(head[k] == i);
            }
        }
        if head.contains(i) {
            let k = choose|k: int| 0 <= k < head.len() && head[k] == i;
            assert(all[k] == i);
        }
        if i == items.len() - 1 && items[i].point.node == node {
            assert(all[head.len() as int] == i);
        }
    }
}

/// How long a server goes without publishing at the most: so many of its intervals, one at least.
pub open spec fn keep_alive_window(l: LiveSubscription) -> nat {
    nanos(l.publishing_interval) * if l.keep_alive_count == 0 {
        1nat
    } else {
        l.keep_alive_count as nat
    }
}

/// A subscription delivers where it is armed, its session is up, it has lost no item, and its
/// server was not silent for longer than its keep-alive window and a request on top; and nowhere
/// else. The window is one that a duration holds.
pub proof fn subscriptions_deliver_where_nothing_is_wrong(
    h: HealthView,
    expected: Option<usize>,
    live: Option<LiveSubscription>,
    request_timeout_s: u64,
    now: nat,
)
    requires
        h.last_publish <= now,
        live matches Some(l) ==> keep_alive_window(l) < END,
    ensures
        subscription_error(h, expected, live, request_timeout_s, now) is None <==> {
            &&& h.connected
            &&& expected is Some
            &&& live is Some
            &&& live->0.items >= expected->0
            &&& now - h.last_publish <= keep_alive_window(live->0) + 1_000_000_000 * if request_timeout_s
                == 0 {
                1int
            } else {
                request_timeout_s as int
            }
        },
{
}

/// A write is made exactly where it is asked for by its verb, of a point that the device has and
/// that may be written, with a value that the point's datatype has, on a device that is connected.
/// It goes to the node of that point.
pub proof fn only_writable_points_are_written(
    device: Seq<char>,
    model: Option<UaPoints>,
    connected: bool,
    verb: Seq<char>,
    request: CommandRequest,
    r: Result<WritePlan, ConnectorError>,
)
    requires
        write_planned(device, model, connected, verb, request, r),
    ensures
        ({
            let point = match model {
                Some(m) => field(m, request.point@),
                None => None,
            };
            &&& r is Ok <==> verb == "write"@ && connected && (point matches Some(p) && p.access
                != crate::connector::Access::Read && p.datatype is Some && request.value is Some
                && variant_of(p.datatype->0, request.value->0@) is Ok)
            &&& r matches Ok(plan) ==> plan.node@ == point->0.node && variant_of(
                point->0.datatype->0,
                request.value->0@,
            ) == Ok::<crate::ua_values::VariantView, Seq<char>>(plan.value@)
            &&& verb == "write"@ && (point matches Some(p) && p.access
                == crate::connector::Access::Read) ==> r matches Err(
                ConnectorError::AccessDenied(_),
            )
        }),
{
}

/// A write went well where the server answered with a good status, and nowhere else but where it
/// answered without any.
pub proof fn writes_go_well_where_the_server_says_so(outcome: WriteOutcome)
    ensures
        write_error(outcome) is None <==> (outcome matches WriteOutcome::Answered(v) && (v@.len()
            > 0 ==> v@[0] < 0x4000_0000)),
{
}

/// A session that is active has no error, and every other has one.
pub proof fn only_active_sessions_have_no_error(a: Activation, timeout: nat)
    ensures
        activation_error(a, timeout) is None <==> a is Active,
{
}

/// Messages are signed, or signed and encrypted, where that is configured, in whatever case; else
/// they are not secured.
pub proof fn messages_are_secured_as_configured(mode: Option<Seq<char>>)
    ensures
        security_mode(mode) == SecurityMode::Sign <==> (mode matches Some(m) && lowered(m)
            == "sign"@),
        security_mode(mode) == SecurityMode::SignAndEncrypt <==> (mode matches Some(m) && (lowered(
            m,
        ) == "sign_and_encrypt"@ || lowered(m) == "signandencrypt"@)),
{
    reveal_strlit("sign");
    reveal_strlit("sign_and_encrypt");
    reveal_strlit("signandencrypt");
    assert("sign"@.len() == 4 && "sign_and_encrypt"@.len() == 16 && "signandencrypt"@.len() == 14);
}

/// A session that was not answered is told by the seconds that it was waited for.
pub proof fn silent_sessions_are_told_by_their_seconds(seconds: nat)
    ensures
        activation_error(Activation::TimedOut, seconds * 1_000_000_000) == Some(
            "timed out after "@ + decimal_text(seconds) + "s waiting for connection"@,
        ),
{
}

} // verus!
