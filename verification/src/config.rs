//! The configuration of a connector, in the terms that every protocol shares. What a protocol
//! says in its own terms (`connection`, `protocol_address`, `address`) is carried as it is.
use crate::clock::{duration, duration_text, nanos, parse_duration, END};
use crate::json::{nearest_float, plain_number, Json, JsonNumber, Numeral};
use crate::keyed::TextMap;
use crate::model::{DataType, Mode};
use crate::text::{
    chars_of, concat2, concat3, is_c_space, same_text, str_of, text_of, trim_c, trimmed,
};
use std::time::Duration;
use vstd::prelude::*;

verus! {

#[derive(Debug, PartialEq)]
pub struct ConnectorConfig {
    pub connector: ConnectorSection,
    pub mqtt: MqttSection,
    /// What the devices' connections share.
    pub connection: Json,
    pub devices: Vec<DeviceConfig>,
}

#[derive(Debug, PartialEq)]
pub struct ConnectorSection {
    pub protocol: String,
    pub configured_service_name: Option<String>,
    pub poll_interval: String,
    pub log_level: String,
    /// How long one call of the protocol module may take.
    pub operation_timeout: String,
    /// How long the connector may make no progress before it is restarted.
    pub stall_timeout: String,
    /// Whether samples carry what was on the wire.
    pub sample_debug: bool,
    /// More command types, each for one that the connector answers anyway.
    pub command_aliases: TextMap<String>,
    pub configured_parameter_set: Option<String>,
    pub point_library_path: Option<Vec<String>>,
}

#[derive(Debug, PartialEq)]
pub struct MqttSection {
    pub host: String,
    pub port: u16,
}

#[derive(Debug, PartialEq)]
pub struct DeviceConfig {
    pub name: String,
    pub protocol_address: Json,
    /// What the device is one of.
    pub device_type: Option<String>,
    pub default_mode: Option<Mode>,
    pub poll_interval: Option<String>,
    /// The libraries that the points come from.
    pub points_from: Vec<String>,
    pub points: Vec<PointConfig>,
}

#[derive(Debug, PartialEq)]
pub struct PointConfig {
    pub id: String,
    pub mode: Option<Mode>,
    pub datatype: Option<DataType>,
    pub endianness: Option<String>,
    pub word_order: Option<String>,
    pub poll_interval: Option<String>,
    pub address: Json,
    pub access: Option<String>,
    pub unit: Option<String>,
    pub name: Option<String>,
    pub description: Option<String>,
    pub transform: Option<Transform>,
    pub range: Option<Range>,
    pub publish: Option<PublishPolicy>,
    pub measurement: Option<Json>,
    pub parameter: Option<Json>,
    pub meta: Option<Json>,
    /// `false` keeps the point polled where the module could push it.
    pub subscribe: Option<bool>,
}

/// A linear transform of a point's values. The numbers are carried; the driver computes with
/// them.
#[derive(Debug, PartialEq)]
pub struct Transform {
    pub multiplier: JsonNumber,
    pub divisor: JsonNumber,
    pub decimal_shift: i32,
    pub offset: JsonNumber,
}

/// The float nearest to a whole number.
pub open spec fn whole_float(n: u64) -> Numeral {
    Numeral::Float(nearest_float(Numeral::PosInt(n)))
}

impl Default for Transform {
    /// The transform that leaves every value as it is.
    fn default() -> (r: Transform)
        ensures
            r.multiplier@ == whole_float(1),
            r.divisor@ == whole_float(1),
            r.decimal_shift == 0,
            r.offset@ == whole_float(0),
    {
        Transform {
            multiplier: JsonNumber::unsigned(1).as_float(),
            divisor: JsonNumber::unsigned(1).as_float(),
            decimal_shift: 0,
            offset: JsonNumber::unsigned(0).as_float(),
        }
    }
}

/// The bounds of a signal, each of which may be missing.
#[derive(Debug, PartialEq)]
pub struct Range {
    pub min: Option<JsonNumber>,
    pub max: Option<JsonNumber>,
}

/// When a point's reading is published.
#[derive(Debug, PartialEq)]
pub struct PublishPolicy {
    pub on_change: Option<bool>,
    pub deadband: Option<JsonNumber>,
    pub min_interval: Option<String>,
    pub debounce: Option<String>,
}

/// A text that spells a duration.
pub open spec fn spells_duration(s: Option<Seq<char>>) -> bool {
    match s {
        Some(t) => duration_text(t) is Some,
        None => false,
    }
}

fn is_duration(s: &Option<String>) -> (r: bool)
    ensures
        r == spells_duration(text_of(*s)),
{
    match s {
        Some(t) => parse_duration(t.as_str()).is_some(),
        None => false,
    }
}

impl PublishPolicy {
    /// Asked for directly, or by a deadband or a debounce, which mean nothing without it.
    pub open spec fn detects_change(self, wide: bool) -> bool {
        self.on_change == Some(true) || wide || spells_duration(text_of(self.debounce))
    }

    /// Whether a reading is published only where it differs from the last one. `wide` is whether
    /// the deadband is above zero.
    pub fn on_change(&self, wide: bool) -> (r: bool)
        ensures
            r == self.detects_change(wide),
    {
        let asked: bool = match self.on_change {
            Some(b) => b,
            None => false,
        };
        asked || wide || is_duration(&self.debounce)
    }

    /// Whether every reading is published. `wide` is whether the deadband is above zero.
    pub fn is_noop(&self, wide: bool) -> (r: bool)
        ensures
            r == (!self.detects_change(wide) && !spells_duration(text_of(self.min_interval))),
    {
        !self.on_change(wide) && !is_duration(&self.min_interval)
    }
}

/// The bounds of a range, as text. An interval without an end is open there.
pub open spec fn bounds_text(min: Option<Numeral>, max: Option<Numeral>) -> Seq<char> {
    match (min, max) {
        (Some(a), Some(b)) => "["@ + plain_number(a) + ", "@ + plain_number(b) + "]"@,
        (Some(a), None) => "["@ + plain_number(a) + ", \u{221e})"@,
        (None, Some(b)) => "(-\u{221e}, "@ + plain_number(b) + "]"@,
        (None, None) => "(-\u{221e}, \u{221e})"@,
    }
}

/// The number of an optional one.
pub open spec fn bound_of(n: Option<JsonNumber>) -> Option<Numeral> {
    match n {
        Some(x) => Some(x@),
        None => None,
    }
}

impl Range {
    /// Why a value is refused: it is below the least value that is allowed, or above the greatest.
    /// A side without a bound refuses nothing.
    pub open spec fn rejection(
        self,
        point: Seq<char>,
        value: Numeral,
        below: bool,
        above: bool,
    ) -> Option<Seq<char>> {
        if (below && self.min is Some) || (above && self.max is Some) {
            Some(
                "value "@ + plain_number(value) + " outside range "@ + bounds_text(
                    bound_of(self.min),
                    bound_of(self.max),
                ) + " of "@ + point,
            )
        } else {
            None
        }
    }

    /// Why a value is refused, or nothing where it is allowed. `below` and `above` are how the
    /// value compares with the bounds that there are.
    pub fn reject(&self, point: &str, value: &JsonNumber, below: bool, above: bool) -> (r: Option<
        String,
    >)
        ensures
            text_of(r) == self.rejection(point@, value@, below, above),
    {
        if !(below && self.min.is_some()) && !(above && self.max.is_some()) {
            return None;
        }
        let bounds: String = match (&self.min, &self.max) {
            (Some(a), Some(b)) => {
                let mut t: String = concat3("[", a.plain().as_str(), ", ");
                t.append(b.plain().as_str());
                t.append("]");
                t
            },
            (Some(a), None) => concat3("[", a.plain().as_str(), ", \u{221e})"),
            (None, Some(b)) => concat3("(-\u{221e}, ", b.plain().as_str(), "]"),
            (None, None) => "(-\u{221e}, \u{221e})".to_owned(),
        };
        let mut out: String = concat3("value ", value.plain().as_str(), " outside range ");
        out.append(bounds.as_str());
        out.append(" of ");
        out.append(point);
        Some(out)
    }
}

/// The range of the first point of that id.
pub open spec fn range_in(points: Seq<PointConfig>, id: Seq<char>) -> Option<Range>
    decreases points.len(),
{
    if points.len() == 0 {
        None
    } else if points[0].id@ == id {
        points[0].range
    } else {
        range_in(points.drop_first(), id)
    }
}

/// The range of a point.
pub fn find_range<'a>(points: &'a Vec<PointConfig>, id: &str) -> (r: Option<&'a Range>)
    ensures
        match r {
            Some(x) => range_in(points@, id@) == Some(*x),
            None => range_in(points@, id@) is None,
        },
{
    let mut i: usize = 0;
    assert(points@.skip(0) =~= points@);
    while i < points.len()
        invariant
            i <= points@.len(),
            range_in(points@, id@) == range_in(points@.skip(i as int), id@),
        decreases points@.len() - i,
    {
        let ghost rest = points@.skip(i as int);
        assert(rest[0] == points@[i as int]);
        assert(rest.drop_first() =~= points@.skip(i + 1));
        if same_text(points[i].id.as_str(), id) {
            return match &points[i].range {
                Some(x) => Some(x),
                None => None,
            };
        }
        i = i + 1;
    }
    None
}

/// A character that the name of a variable can have.
pub open spec fn in_variable(c: char) -> bool {
    'a' <= c <= 'z' || 'A' <= c <= 'Z' || '0' <= c <= '9' || c == '_'
}

/// The name of a variable: letters, digits and underscores, and no digit first.
pub open spec fn variable_name(s: Seq<char>) -> bool {
    &&& s.len() > 0
    &&& !('0' <= s[0] <= '9')
    &&& forall|i: int| 0 <= i < s.len() ==> in_variable(#[trigger] s[i])
}

/// A variable that whoever wrote the text left unexpanded: `$NAME` or `${NAME}`.
pub open spec fn unexpanded(s: Seq<char>) -> bool {
    &&& s.len() > 0
    &&& s[0] == '$'
    &&& variable_name(s.skip(1)) || (s.len() > 3 && s[1] == '{' && s.last() == '}' && variable_name(
        s.subrange(2, s.len() - 1),
    ))
}

fn names_variable(c: &Vec<char>, from: usize, to: usize) -> (r: bool)
    requires
        from <= to <= c@.len(),
    ensures
        r == variable_name(c@.subrange(from as int, to as int)),
{
    let ghost name = c@.subrange(from as int, to as int);
    if from == to || ('0' <= c[from] && c[from] <= '9') {
        assert(from < to ==> name[0] == c@[from as int]);
        return false;
    }
    assert(name[0] == c@[from as int]);
    let mut i: usize = from;
    while i < to
        invariant
            from <= i <= to <= c@.len(),
            name == c@.subrange(from as int, to as int),
            forall|k: int| 0 <= k < i - from ==> in_variable(#[trigger] name[k]),
        decreases to - i,
    {
        let x: char = c[i];
        assert(name[i - from] == x);
        if !(('a' <= x && x <= 'z') || ('A' <= x && x <= 'Z') || ('0' <= x && x <= '9') || x == '_') {
            return false;
        }
        i = i + 1;
    }
    true
}

/// Whether a text is a variable that was left unexpanded.
pub fn is_unexpanded(s: &str) -> (r: bool)
    ensures
        r == unexpanded(s@),
{
    let c: Vec<char> = chars_of(s);
    let n: usize = c.len();
    if n == 0 || c[0] != '$' {
        return false;
    }
    assert(s@.subrange(1, n as int) =~= s@.skip(1));
    if names_variable(&c, 1, n) {
        return true;
    }
    n > 3 && c[1] == '{' && c[n - 1] == '}' && names_variable(&c, 2, n - 1)
}

/// A variable that was left unexpanded never becomes the name of a parameter set, however it is
/// padded.
pub proof fn unexpanded_variables_name_no_set(section: ConnectorSection, name: Seq<char>)
    requires
        section.forced_set() == Some(name),
    ensures
        !unexpanded(name),
        name.len() > 0,
{
}

impl ConnectorSection {
    /// The name of the connector's service: as configured, or after the protocol.
    pub open spec fn service(self) -> Seq<char> {
        match self.configured_service_name {
            Some(name) => name@,
            None => "tedge-dot-"@ + self.protocol@,
        }
    }

    /// The one parameter set for the points that name none: not where it is blank, nor where it is
    /// a variable that was left unexpanded.
    pub open spec fn forced_set(self) -> Option<Seq<char>> {
        match self.configured_parameter_set {
            Some(s) => {
                let t = trimmed(s@, |c: char| is_c_space(c));
                if t.len() > 0 && !unexpanded(t) {
                    Some(t)
                } else {
                    None
                }
            },
            None => None,
        }
    }

    /// The name of the connector's service.
    pub fn service_name(&self) -> (r: String)
        ensures
            r@ == self.service(),
    {
        match &self.configured_service_name {
            Some(name) => name.clone(),
            None => concat2("tedge-dot-", self.protocol.as_str()),
        }
    }

    /// The one parameter set for the points that name none.
    pub fn parameter_set(&self) -> (r: Option<&str>)
        ensures
            str_of(r) == self.forced_set(),
    {
        match &self.configured_parameter_set {
            Some(s) => {
                let t: &str = trim_c(s.as_str());
                if t.is_empty() || is_unexpanded(t) {
                    None
                } else {
                    Some(t)
                }
            },
            None => None,
        }
    }
}

pub fn default_poll_interval() -> (r: String)
    ensures
        r@ == "2s"@,
{
    "2s".to_owned()
}

pub fn default_log_level() -> (r: String)
    ensures
        r@ == "info"@,
{
    "info".to_owned()
}

pub fn default_operation_timeout() -> (r: String)
    ensures
        r@ == "30s"@,
{
    "30s".to_owned()
}

pub fn default_stall_timeout() -> (r: String)
    ensures
        r@ == "120s"@,
{
    "120s".to_owned()
}

pub fn default_mqtt_host() -> (r: String)
    ensures
        r@ == "127.0.0.1"@,
{
    "127.0.0.1".to_owned()
}

pub fn default_mqtt_port() -> (r: u16)
    ensures
        r == 1883,
{
    1883
}

impl Default for MqttSection {
    fn default() -> (r: MqttSection)
        ensures
            r.host@ == "127.0.0.1"@,
            r.port == 1883,
    {
        MqttSection { host: default_mqtt_host(), port: default_mqtt_port() }
    }
}

/// The nanoseconds that a text spells, or `fallback` where it spells none.
pub open spec fn nanos_or(text: Seq<char>, fallback: nat) -> nat {
    match duration_text(text) {
        Some(n) => n,
        None => fallback,
    }
}

/// The duration that a text spells, or `fallback` where it spells none.
pub fn duration_or(text: &str, fallback: Duration) -> (r: Duration)
    ensures
        nanos(r) == nanos_or(text@, nanos(fallback)),
{
    match parse_duration(text) {
        Some(d) => d,
        None => fallback,
    }
}

/// The duration that an optional text spells, or `fallback`.
pub fn optional_duration_or(text: &Option<String>, fallback: Duration) -> (r: Duration)
    ensures
        nanos(r) == optional_nanos_or(text_of(*text), nanos(fallback)),
{
    match text {
        Some(t) => duration_or(t.as_str(), fallback),
        None => fallback,
    }
}

/// The nanoseconds that an optional text spells, or `fallback`.
pub open spec fn optional_nanos_or(text: Option<Seq<char>>, fallback: nat) -> nat {
    match text {
        Some(t) => nanos_or(t, fallback),
        None => fallback,
    }
}

impl ConnectorConfig {
    /// How long the connector may make no progress, in nanoseconds: never less than two calls of
    /// the module may take, unless the watch is off.
    pub open spec fn stall_nanos(self) -> nat {
        let configured = nanos_or(self.connector.stall_timeout@, 120_000_000_000);
        let calls = 2 * nanos_or(self.connector.operation_timeout@, 30_000_000_000);
        let two = if calls < END {
            calls
        } else {
            (END - 1) as nat
        };
        if configured == 0 {
            0
        } else if configured >= two {
            configured
        } else {
            two
        }
    }

    /// How long the connector may make no progress. Zero switches the watch off.
    pub fn stall_limit(&self) -> (r: Duration)
        ensures
            nanos(r) == self.stall_nanos(),
    {
        let configured: Duration = duration_or(
            self.connector.stall_timeout.as_str(),
            Duration::from_secs(120),
        );
        let a: u128 = configured.as_nanos();
        if a == 0 {
            return Duration::from_secs(0);
        }
        let operation: Duration = duration_or(
            self.connector.operation_timeout.as_str(),
            Duration::from_secs(30),
        );
        let calls: u128 = operation.as_nanos() * 2;
        let two: u128 = if calls < END {
            calls
        } else {
            END - 1
        };
        if a >= two {
            configured
        } else {
            duration(two)
        }
    }
}

/// The mode of a point that declares `mode` on a device whose points have `device_default`.
pub open spec fn resolved(mode: Option<Mode>, device_default: Option<Mode>) -> Mode {
    match (mode, device_default) {
        (Some(m), _) => m,
        (None, Some(m)) => m,
        (None, None) => Mode::Typed,
    }
}

/// The mode that a point has by its own declaration, whatever its device declares: typed where it
/// declares none.
pub fn resolve_mode(mode: Option<Mode>, _device_default: Option<Mode>) -> (r: Mode)
    ensures
        r == match mode {
            Some(m) => m,
            None => Mode::Typed,
        },
{
    match mode {
        Some(m) => m,
        None => Mode::Typed,
    }
}

impl PointConfig {
    /// The mode of the point: its own, or the device's, or typed.
    pub fn resolved_mode(&self, device_default: Option<Mode>) -> (r: Mode)
        ensures
            r == resolved(self.mode, device_default),
    {
        match (self.mode, device_default) {
            (Some(m), _) => m,
            (None, Some(m)) => m,
            (None, None) => Mode::Typed,
        }
    }
}

/// The declared type of a device, where it is not empty.
pub open spec fn declared_type(device_type: Option<Seq<char>>) -> Option<Seq<char>> {
    match device_type {
        Some(t) => if t.len() > 0 {
            Some(t)
        } else {
            None
        },
        None => None,
    }
}

impl DeviceConfig {
    /// The declared type, where it is not empty.
    pub open spec fn kind(self) -> Option<Seq<char>> {
        declared_type(text_of(self.device_type))
    }

    /// The declared type, where it is not empty.
    pub fn typed(&self) -> (r: Option<&str>)
        ensures
            str_of(r) == self.kind(),
    {
        match &self.device_type {
            Some(t) => if t.as_str().is_empty() {
                None
            } else {
                Some(t.as_str())
            },
            None => None,
        }
    }
}

/// A point is read in its own mode, else in its device's, and else as a value.
pub proof fn the_closest_mode_holds(mode: Option<Mode>, device_default: Option<Mode>)
    ensures
        mode matches Some(m) ==> resolved(mode, device_default) == m,
        mode is None ==> (device_default matches Some(m) ==> resolved(mode, device_default) == m),
        mode is None && device_default is None ==> resolved(mode, device_default) == Mode::Typed,
{
}

/// The watch lasts as long as is configured, and never less than two calls may take; it is off
/// exactly where it is configured to last no time. Without a configured time it lasts two minutes.
pub proof fn the_watch_outlasts_two_calls(config: ConnectorConfig)
    ensures
        ({
            let configured = match duration_text(config.connector.stall_timeout@) {
                Some(n) => n,
                None => 120_000_000_000,
            };
            let call = match duration_text(config.connector.operation_timeout@) {
                Some(n) => n,
                None => 30_000_000_000,
            };
            &&& configured == 0 ==> config.stall_nanos() == 0
            &&& configured > 0 ==> config.stall_nanos() >= configured
            &&& configured > 0 && 2 * call < END ==> config.stall_nanos() >= 2 * call
            &&& configured > 0 && 2 * call < END ==> config.stall_nanos() == configured
                || config.stall_nanos() == 2 * call
        }),
{
}

/// The range of a point is the one that it declares, where it is the first of its id.
pub proof fn ranges_are_those_of_their_points(points: Seq<PointConfig>, p: int)
    requires
        0 <= p < points.len(),
        forall|q: int| 0 <= q < p ==> (#[trigger] points[q]).id@ != points[p].id@,
    ensures
        range_in(points, points[p].id@) == points[p].range,
    decreases p,
{
    if p > 0 {
        let rest = points.drop_first();
        assert(points[0].id@ != points[p].id@);
        assert(rest[p - 1] == points[p]);
        assert forall|q: int| 0 <= q < p - 1 implies (#[trigger] rest[q]).id@
            != rest[p - 1].id@ by {
            assert(rest[q] == points[q + 1]);
        }
        ranges_are_those_of_their_points(rest, p - 1);
    }
}

/// A set is named by what is configured, without the white space around it.
pub proof fn sets_are_named_as_configured(section: ConnectorSection, t: Seq<char>)
    ensures
        section.forced_set() == Some(t) ==> (section.configured_parameter_set matches Some(s) && t
            == trimmed(s@, |c: char| is_c_space(c))),
        section.configured_parameter_set is None ==> section.forced_set() is None,
        section.configured_parameter_set matches Some(s) ==> trimmed(
            s@,
            |c: char| is_c_space(c),
        ).len() > 0 && !unexpanded(trimmed(s@, |c: char| is_c_space(c))) ==> section.forced_set()
            == Some(trimmed(s@, |c: char| is_c_space(c))),
{
}

/// A text is an unexpanded variable where it is a `$` with the name of a variable behind it, in
/// braces or not; a name has no digit first. What begins with anything else is none.
pub proof fn variables_are_told_by_their_names(name: Seq<char>)
    ensures
        name.len() > 0 && !('0' <= name[0] <= '9') && (forall|i: int|
            0 <= i < name.len() ==> 'a' <= #[trigger] name[i] <= 'z' || 'A' <= name[i] <= 'Z'
                || '0' <= name[i] <= '9' || name[i] == '_') ==> unexpanded(seq!['$'] + name)
            && unexpanded(seq!['$', '{'] + name + seq!['}']),
        name.len() == 0 || name[0] != '$' ==> !unexpanded(name),
        name.len() > 0 && '0' <= name[0] <= '9' ==> !unexpanded(seq!['$'] + name),
{
    let plain = seq!['$'] + name;
    let braced = seq!['$', '{'] + name + seq!['}'];
    assert(plain.skip(1) =~= name);
    assert(braced.subrange(2, braced.len() - 1) =~= name);
    if name.len() > 0 && '0' <= name[0] <= '9' {
        assert(plain[1] == name[0]);
    }
}

/// A value is refused where it is below the least that is allowed or above the greatest, and by a
/// bound that there is.
pub proof fn values_are_refused_by_the_bounds_there_are(
    range: Range,
    point: Seq<char>,
    value: Numeral,
    below: bool,
    above: bool,
)
    ensures
        range.rejection(point, value, below, above) is Some <==> (below && range.min is Some) || (
        above && range.max is Some),
{
}

} // verus!
