//! Reading and writing by hand: the devices and points that are selected, the reads that are due,
//! what is written, and what is shown.
use crate::cli::{
    glob, is_pattern, pattern_text, patterns_match_as_they_read, wildcard_match,
};
use crate::clock::{duration_text, nanos};
use crate::config::{
    duration_or, nanos_or, optional_duration_or, optional_nanos_or, ConnectorConfig, DeviceConfig,
    PointConfig,
};
use crate::batch::{RequestView, ResultView};
use crate::connector::{
    access_of, Access, CommandRequest, CommandResult, LinkReport, LinkStatus,
};
use crate::json::{
    copy_json, plain_number, printed, signed_numeral, text_view, with_optional, Fields, Json,
    JsonNumber, JsonObject, JsonView, Numeral,
};
use crate::keyed::{field, with_field};
use crate::links::{report_views, ReportView};
use crate::model::{hex_grouped, hex_text, NonFinite, Sample, Value};
use crate::schedule::{
    configured_point, later, moment_after, nanos_of, own_interval, point_ref, refs, PointRef,
    PointView,
};
use crate::text::{
    as_deref, concat2, concat3, decimal_text, join, joined, lowered, lowers_to, parse_signed,
    same_text, signed_text, str_of, text_of, texts,
};
use std::time::Duration;
use vstd::prelude::*;

verus! {

/// The points that are selected on one device.
#[derive(Debug, PartialEq)]
pub struct Target<'a> {
    pub device: &'a DeviceConfig,
    pub points: Vec<&'a PointConfig>,
}

/// The points that are selected on one device.
#[verifier::ext_equal]
pub struct TargetView {
    pub device: DeviceConfig,
    pub points: Seq<PointConfig>,
}

/// The points that references are to.
pub open spec fn pointed(v: Seq<&PointConfig>) -> Seq<PointConfig> {
    v.map_values(|p: &PointConfig| *p)
}

impl<'a> View for Target<'a> {
    type V = TargetView;

    open spec fn view(&self) -> TargetView {
        TargetView { device: *self.device, points: pointed(self.points@) }
    }
}

/// What each target is.
pub open spec fn target_views(v: Seq<Target>) -> Seq<TargetView> {
    v.map_values(|t: Target| t@)
}

/// Whether a point's access is for what is to be done.
pub open spec fn fits(p: PointConfig, for_write: bool) -> bool {
    let access = access_of(text_of(p.access));
    if for_write {
        access.writable()
    } else {
        access != Access::Write
    }
}

/// Whether a selector is for a point. One that is a pattern takes only points whose access is for
/// what is to be done; a point that is named is taken whatever its access.
pub open spec fn selects(pattern: Seq<char>, p: PointConfig, for_write: bool) -> bool {
    glob(pattern, p.id@) && (pattern_text(pattern) ==> fits(p, for_write))
}

fn is_selected(pattern: &str, p: &PointConfig, for_write: bool) -> (r: bool)
    ensures
        r == selects(pattern@, *p, for_write),
{
    if !wildcard_match(pattern, p.id.as_str()) {
        return false;
    }
    if is_pattern(pattern) {
        let access: Access = Access::parse(as_deref(&p.access));
        if for_write {
            access.can_write()
        } else {
            access != Access::Write
        }
    } else {
        true
    }
}

/// Whether a point of that id is among points.
pub open spec fn has_id(points: Seq<PointConfig>, id: Seq<char>) -> bool {
    exists|i: int| 0 <= i < points.len() && (#[trigger] points[i]).id@ == id
}

/// The points with those that a selector is for, each id once.
pub open spec fn with_selected(
    taken: Seq<PointConfig>,
    pattern: Seq<char>,
    points: Seq<PointConfig>,
    for_write: bool,
) -> Seq<PointConfig>
    decreases points.len(),
{
    if points.len() == 0 {
        taken
    } else {
        let head = with_selected(taken, pattern, points.drop_last(), for_write);
        let p = points.last();
        if selects(pattern, p, for_write) && !has_id(head, p.id@) {
            head.push(p)
        } else {
            head
        }
    }
}

/// The points of a device that selectors are for, in the order of the selectors.
pub open spec fn selected_points(
    patterns: Seq<Seq<char>>,
    points: Seq<PointConfig>,
    for_write: bool,
) -> Seq<PointConfig>
    decreases patterns.len(),
{
    if patterns.len() == 0 {
        Seq::empty()
    } else {
        with_selected(
            selected_points(patterns.drop_last(), points, for_write),
            patterns.last(),
            points,
            for_write,
        )
    }
}

/// The targets on the first `n` devices.
pub open spec fn targets_of(
    devices: Seq<DeviceConfig>,
    n: int,
    device_pattern: Seq<char>,
    patterns: Seq<Seq<char>>,
    for_write: bool,
) -> Seq<TargetView>
    decreases n,
{
    if n <= 0 {
        Seq::empty()
    } else {
        let head = targets_of(devices, n - 1, device_pattern, patterns, for_write);
        let d = devices[n - 1];
        let points = selected_points(patterns, d.points@, for_write);
        if glob(device_pattern, d.name@) && points.len() > 0 {
            head.push(TargetView { device: d, points })
        } else {
            head
        }
    }
}

/// Whether a device matches.
pub open spec fn any_device(devices: Seq<DeviceConfig>, pattern: Seq<char>) -> bool {
    exists|i: int| 0 <= i < devices.len() && glob(pattern, (#[trigger] devices[i]).name@)
}

/// Whether a selector is for any of points.
pub open spec fn selects_any(pattern: Seq<char>, points: Seq<PointConfig>, for_write: bool) -> bool {
    exists|i: int| 0 <= i < points.len() && selects(pattern, #[trigger] points[i], for_write)
}

/// Whether a selector is for any point of the devices that match.
pub open spec fn hits(
    devices: Seq<DeviceConfig>,
    device_pattern: Seq<char>,
    pattern: Seq<char>,
    for_write: bool,
) -> bool {
    exists|i: int|
        0 <= i < devices.len() && glob(device_pattern, (#[trigger] devices[i]).name@)
            && selects_any(pattern, devices[i].points@, for_write)
}

/// The first selector that is for no point.
pub open spec fn first_miss(
    devices: Seq<DeviceConfig>,
    device_pattern: Seq<char>,
    patterns: Seq<Seq<char>>,
    for_write: bool,
) -> Option<Seq<char>>
    decreases patterns.len(),
{
    if patterns.len() == 0 {
        None
    } else if !hits(devices, device_pattern, patterns[0], for_write) {
        Some(patterns[0])
    } else {
        first_miss(devices, device_pattern, patterns.drop_first(), for_write)
    }
}

/// The names of devices, or that there are none.
pub open spec fn available(devices: Seq<DeviceConfig>) -> Seq<char> {
    if devices.len() == 0 {
        "none"@
    } else {
        joined(devices.map_values(|d: DeviceConfig| d.name@), ", "@)
    }
}

/// The targets of selectors, or which of them is for nothing.
pub open spec fn resolution(
    devices: Seq<DeviceConfig>,
    device_pattern: Seq<char>,
    patterns: Seq<Seq<char>>,
    for_write: bool,
) -> Result<Seq<TargetView>, Seq<char>> {
    if !any_device(devices, device_pattern) {
        Err(
            "no device matches '"@ + device_pattern + "' (available: "@ + available(devices)
                + ")"@,
        )
    } else {
        match first_miss(devices, device_pattern, patterns, for_write) {
            Some(pattern) => Err(
                "no "@ + if for_write {
                    "writable"@
                } else {
                    "readable"@
                } + " point matches '"@ + pattern + "' on the selected device(s)"@,
            ),
            None => Ok(
                targets_of(
                    devices,
                    devices.len() as int,
                    device_pattern,
                    patterns,
                    for_write,
                ),
            ),
        }
    }
}

fn id_among(points: &Vec<&PointConfig>, id: &str) -> (r: bool)
    ensures
        r == has_id(pointed(points@), id@),
{
    let ghost all = pointed(points@);
    let mut i: usize = 0;
    while i < points.len()
        invariant
            i <= points@.len(),
            all == pointed(points@),
            forall|k: int| 0 <= k < i ==> (#[trigger] all[k]).id@ != id@,
        decreases points@.len() - i,
    {
        assert(all[i as int] == *points@[i as int]);
        if same_text(points[i].id.as_str(), id) {
            return true;
        }
        i = i + 1;
    }
    false
}

fn add_selected<'a>(
    taken: &mut Vec<&'a PointConfig>,
    pattern: &str,
    points: &'a Vec<PointConfig>,
    for_write: bool,
)
    ensures
        pointed(final(taken)@) == with_selected(
            pointed(old(taken)@),
            pattern@,
            points@,
            for_write,
        ),
{
    let ghost before = pointed(taken@);
    let mut i: usize = 0;
    assert(points@.take(0) =~= Seq::<PointConfig>::empty());
    while i < points.len()
        invariant
            i <= points@.len(),
            pointed(taken@) == with_selected(
                before,
                pattern@,
                points@.take(i as int),
                for_write,
            ),
        decreases points@.len() - i,
    {
        assert(points@.take(i + 1).drop_last() =~= points@.take(i as int));
        assert(points@.take(i + 1).last() == points@[i as int]);
        if is_selected(pattern, &points[i], for_write) && !id_among(taken, points[i].id.as_str()) {
            let ghost was = pointed(taken@);
            taken.push(&points[i]);
            assert(pointed(taken@) =~= was.push(points@[i as int]));
        }
        i = i + 1;
    }
    assert(points@.take(points@.len() as int) =~= points@);
}

fn select_points<'a>(patterns: &Vec<String>, points: &'a Vec<PointConfig>, for_write: bool) -> (r:
    Vec<&'a PointConfig>)
    ensures
        pointed(r@) == selected_points(texts(patterns@), points@, for_write),
{
    let ghost all = texts(patterns@);
    let mut taken: Vec<&PointConfig> = Vec::new();
    let mut i: usize = 0;
    assert(all.take(0) =~= Seq::<Seq<char>>::empty());
    assert(pointed(taken@) =~= Seq::<PointConfig>::empty());
    while i < patterns.len()
        invariant
            i <= patterns@.len(),
            all == texts(patterns@),
            pointed(taken@) == selected_points(all.take(i as int), points@, for_write),
        decreases patterns@.len() - i,
    {
        assert(all.take(i + 1).drop_last() =~= all.take(i as int));
        assert(all.take(i + 1).last() == patterns@[i as int]@);
        add_selected(&mut taken, patterns[i].as_str(), points, for_write);
        i = i + 1;
    }
    assert(all.take(all.len() as int) =~= all);
    taken
}

fn has_device(devices: &Vec<DeviceConfig>, pattern: &str) -> (r: bool)
    ensures
        r == any_device(devices@, pattern@),
{
    let mut i: usize = 0;
    while i < devices.len()
        invariant
            i <= devices@.len(),
            forall|k: int| 0 <= k < i ==> !glob(pattern@, (#[trigger] devices@[k]).name@),
        decreases devices@.len() - i,
    {
        if wildcard_match(pattern, devices[i].name.as_str()) {
            assert(glob(pattern@, devices@[i as int].name@));
            return true;
        }
        i = i + 1;
    }
    false
}

fn has_selected(pattern: &str, points: &Vec<PointConfig>, for_write: bool) -> (r: bool)
    ensures
        r == selects_any(pattern@, points@, for_write),
{
    let mut i: usize = 0;
    while i < points.len()
        invariant
            i <= points@.len(),
            forall|k: int| 0 <= k < i ==> !selects(pattern@, #[trigger] points@[k], for_write),
        decreases points@.len() - i,
    {
        if is_selected(pattern, &points[i], for_write) {
            assert(selects(pattern@, points@[i as int], for_write));
            return true;
        }
        i = i + 1;
    }
    false
}

fn is_hit(devices: &Vec<DeviceConfig>, device_pattern: &str, pattern: &str, for_write: bool) -> (r:
    bool)
    ensures
        r == hits(devices@, device_pattern@, pattern@, for_write),
{
    let mut i: usize = 0;
    while i < devices.len()
        invariant
            i <= devices@.len(),
            forall|k: int|
                0 <= k < i ==> !(glob(device_pattern@, (#[trigger] devices@[k]).name@)
                    && selects_any(pattern@, devices@[k].points@, for_write)),
        decreases devices@.len() - i,
    {
        if wildcard_match(device_pattern, devices[i].name.as_str()) && has_selected(
            pattern,
            &devices[i].points,
            for_write,
        ) {
            assert(glob(device_pattern@, devices@[i as int].name@));
            return true;
        }
        i = i + 1;
    }
    false
}

fn find_miss(
    devices: &Vec<DeviceConfig>,
    device_pattern: &str,
    patterns: &Vec<String>,
    for_write: bool,
) -> (r: Option<usize>)
    ensures
        match r {
            Some(i) => i < patterns@.len() && first_miss(
                devices@,
                device_pattern@,
                texts(patterns@),
                for_write,
            ) == Some(patterns@[i as int]@),
            None => first_miss(devices@, device_pattern@, texts(patterns@), for_write) is None,
        },
{
    let ghost all = texts(patterns@);
    let mut i: usize = 0;
    assert(all.skip(0) =~= all);
    while i < patterns.len()
        invariant
            i <= patterns@.len(),
            all == texts(patterns@),
            first_miss(devices@, device_pattern@, all, for_write) == first_miss(
                devices@,
                device_pattern@,
                all.skip(i as int),
                for_write,
            ),
        decreases patterns@.len() - i,
    {
        let ghost rest = all.skip(i as int);
        assert(rest[0] == patterns@[i as int]@);
        assert(rest.drop_first() =~= all.skip(i + 1));
        if !is_hit(devices, device_pattern, patterns[i].as_str(), for_write) {
            return Some(i);
        }
        i = i + 1;
    }
    assert(all.skip(all.len() as int) =~= Seq::<Seq<char>>::empty());
    None
}

fn names_available(devices: &Vec<DeviceConfig>) -> (r: String)
    ensures
        r@ == available(devices@),
{
    if devices.len() == 0 {
        return "none".to_owned();
    }
    let mut names: Vec<String> = Vec::new();
    let mut i: usize = 0;
    while i < devices.len()
        invariant
            i <= devices@.len(),
            names@.len() == i,
            forall|k: int| 0 <= k < i ==> (#[trigger] names@[k])@ == devices@[k].name@,
        decreases devices@.len() - i,
    {
        names.push(devices[i].name.clone());
        i = i + 1;
    }
    assert(texts(names@) =~= devices@.map_values(|d: DeviceConfig| d.name@));
    join(&names, ", ")
}

/// What a result holds.
pub open spec fn targets_result(r: Result<Vec<Target>, String>) -> Result<
    Seq<TargetView>,
    Seq<char>,
> {
    match r {
        Ok(v) => Ok(target_views(v@)),
        Err(e) => Err(e@),
    }
}

/// The devices and points that selectors are for. Every selector has to be for some point.
pub fn resolve_targets<'a>(
    config: &'a ConnectorConfig,
    device_pattern: &str,
    point_patterns: &Vec<String>,
    for_write: bool,
) -> (r: Result<Vec<Target<'a>>, String>)
    ensures
        targets_result(r) == resolution(
            config.devices@,
            device_pattern@,
            texts(point_patterns@),
            for_write,
        ),
{
    if !has_device(&config.devices, device_pattern) {
        let names: String = names_available(&config.devices);
        let mut out: String = concat3("no device matches '", device_pattern, "' (available: ");
        out.append(names.as_str());
        out.append(")");
        return Err(out);
    }
    if let Some(i) = find_miss(&config.devices, device_pattern, point_patterns, for_write) {
        let kind: &str = if for_write {
            "writable"
        } else {
            "readable"
        };
        let mut out: String = concat3("no ", kind, " point matches '");
        out.append(point_patterns[i].as_str());
        out.append("' on the selected device(s)");
        return Err(out);
    }
    let ghost patterns = texts(point_patterns@);
    let mut targets: Vec<Target<'a>> = Vec::new();
    let mut i: usize = 0;
    assert(target_views(targets@) =~= Seq::<TargetView>::empty());
    while i < config.devices.len()
        invariant
            i <= config.devices@.len(),
            patterns == texts(point_patterns@),
            target_views(targets@) == targets_of(
                config.devices@,
                i as int,
                device_pattern@,
                patterns,
                for_write,
            ),
        decreases config.devices@.len() - i,
    {
        if wildcard_match(device_pattern, config.devices[i].name.as_str()) {
            let points: Vec<&PointConfig> = select_points(
                point_patterns,
                &config.devices[i].points,
                for_write,
            );
            assert(pointed(points@).len() == points@.len());
            if points.len() > 0 {
                let ghost was = target_views(targets@);
                let t = Target { device: &config.devices[i], points };
                targets.push(t);
                assert(target_views(targets@) =~= was.push(t@));
            }
        }
        i = i + 1;
    }
    Ok(targets)
}

/// A selected point is one that some selector is for, of the device's own; and no id is selected
/// twice.
pub proof fn selections_are_distinct(
    patterns: Seq<Seq<char>>,
    points: Seq<PointConfig>,
    for_write: bool,
)
    ensures
        ({
            let s = selected_points(patterns, points, for_write);
            &&& forall|i: int, j: int|
                0 <= i < j < s.len() ==> (#[trigger] s[i]).id@ != (#[trigger] s[j]).id@
            &&& forall|i: int|
                0 <= i < s.len() ==> points.contains(#[trigger] s[i]) && some_selects(
                    patterns,
                    s[i],
                    for_write,
                )
        }),
    decreases patterns.len(),
{
    if patterns.len() > 0 {
        let init = patterns.drop_last();
        selections_are_distinct(init, points, for_write);
        let taken = selected_points(init, points, for_write);
        assert forall|i: int| 0 <= i < taken.len() implies points.contains(#[trigger] taken[i])
            && some_selects(patterns, taken[i], for_write) by {
            let k = choose|k: int|
                0 <= k < init.len() && selects(#[trigger] init[k], taken[i], for_write);
            assert(selects(patterns[k], taken[i], for_write));
        }
        assert(patterns[patterns.len() - 1] == patterns.last());
        grows_distinct(taken, patterns, patterns.last(), points, points, for_write);
    }
}

/// Whether any of selectors is for a point.
pub open spec fn some_selects(patterns: Seq<Seq<char>>, p: PointConfig, for_write: bool) -> bool {
    exists|k: int| 0 <= k < patterns.len() && selects(#[trigger] patterns[k], p, for_write)
}

proof fn grows_distinct(
    taken: Seq<PointConfig>,
    patterns: Seq<Seq<char>>,
    pattern: Seq<char>,
    points: Seq<PointConfig>,
    all: Seq<PointConfig>,
    for_write: bool,
)
    requires
        patterns.contains(pattern),
        forall|i: int| 0 <= i < points.len() ==> all.contains(#[trigger] points[i]),
        forall|i: int, j: int|
            0 <= i < j < taken.len() ==> (#[trigger] taken[i]).id@ != (#[trigger] taken[j]).id@,
        forall|i: int|
            0 <= i < taken.len() ==> all.contains(#[trigger] taken[i]) && some_selects(
                patterns,
                taken[i],
                for_write,
            ),
    ensures
        ({
            let s = with_selected(taken, pattern, points, for_write);
            &&& forall|i: int, j: int|
                0 <= i < j < s.len() ==> (#[trigger] s[i]).id@ != (#[trigger] s[j]).id@
            &&& forall|i: int|
                0 <= i < s.len() ==> all.contains(#[trigger] s[i]) && some_selects(
                    patterns,
                    s[i],
                    for_write,
                )
        }),
    decreases points.len(),
{
    if points.len() > 0 {
        let init = points.drop_last();
        assert forall|i: int| 0 <= i < init.len() implies all.contains(#[trigger] init[i]) by {
            assert(init[i] == points[i]);
        }
        grows_distinct(taken, patterns, pattern, init, all, for_write);
        let head = with_selected(taken, pattern, init, for_write);
        let p = points.last();
        assert(all.contains(points[points.len() - 1]));
        if selects(pattern, p, for_write) && !has_id(head, p.id@) {
            let k = choose|k: int| 0 <= k < patterns.len() && patterns[k] == pattern;
            assert(selects(patterns[k], p, for_write));
            let s = head.push(p);
            assert forall|i: int, j: int| 0 <= i < j < s.len() implies (#[trigger] s[i]).id@ != (
            #[trigger] s[j]).id@ by {
                if j == head.len() {
                    assert(head[i] == s[i]);
                }
            }
        }
    }
}

/// How often the points of a device are read: as is asked for, or as the device says, or as the
/// connector does.
pub open spec fn read_interval(config: ConnectorConfig, device: DeviceConfig, over: Option<nat>) -> nat {
    match over {
        Some(n) => n,
        None => optional_nanos_or(
            text_of(device.poll_interval),
            nanos_or(config.connector.poll_interval@, 2_000_000_000),
        ),
    }
}

/// How often the points of a device are read.
pub fn effective_interval(
    config: &ConnectorConfig,
    device: &DeviceConfig,
    over: Option<Duration>,
) -> (r: Duration)
    ensures
        nanos(r) == read_interval(*config, *device, nanos_of(over)),
{
    match over {
        Some(d) => d,
        None => {
            let own: Duration = duration_or(
                config.connector.poll_interval.as_str(),
                Duration::from_secs(2),
            );
            optional_duration_or(&device.poll_interval, own)
        },
    }
}

/// The report that a device is not connected.
pub open spec fn down_report(reports: Seq<ReportView>, device: Seq<char>) -> Option<ReportView>
    decreases reports.len(),
{
    if reports.len() == 0 {
        None
    } else if reports[0].device == device && reports[0].status != LinkStatus::Connected {
        Some(reports[0])
    } else {
        down_report(reports.drop_first(), device)
    }
}

/// What is said of a device that is not connected; nothing where it is.
pub open spec fn unreachable_warning(reports: Seq<ReportView>, device: Seq<char>) -> Option<Seq<char>> {
    match down_report(reports, device) {
        Some(r) => Some(
            "warning: could not connect to device '"@ + device + "': "@ + match r.reason {
                Some(t) => t,
                None => "link not connected"@,
            },
        ),
        None => None,
    }
}

/// What is said of a device that is not connected; nothing where it is.
pub fn warn_unreachable(reports: &Vec<LinkReport>, device: &str) -> (r: Option<String>)
    ensures
        text_of(r) == unreachable_warning(report_views(reports@), device@),
{
    let ghost all = report_views(reports@);
    let mut i: usize = 0;
    assert(all.skip(0) =~= all);
    while i < reports.len()
        invariant
            i <= reports@.len(),
            all == report_views(reports@),
            down_report(all, device@) == down_report(all.skip(i as int), device@),
        decreases reports@.len() - i,
    {
        let ghost rest = all.skip(i as int);
        assert(rest[0] == reports@[i as int]@);
        assert(rest.drop_first() =~= all.skip(i + 1));
        if same_text(reports[i].device.as_str(), device) && reports[i].status
            != LinkStatus::Connected {
            let mut out: String = concat3("warning: could not connect to device '", device, "': ");
            match &reports[i].reason {
                Some(t) => out.append(t.as_str()),
                None => out.append("link not connected"),
            }
            return Some(out);
        }
        i = i + 1;
    }
    assert(all.skip(all.len() as int) =~= Seq::<ReportView>::empty());
    None
}

/// The targets whose devices are connected.
pub open spec fn reachable(targets: Seq<TargetView>, reports: Seq<ReportView>) -> Seq<TargetView>
    decreases targets.len(),
{
    if targets.len() == 0 {
        Seq::empty()
    } else {
        let head = reachable(targets.drop_last(), reports);
        if down_report(reports, targets.last().device.name@) is None {
            head.push(targets.last())
        } else {
            head
        }
    }
}

/// What is said of the targets whose devices are not connected.
pub open spec fn warnings(targets: Seq<TargetView>, reports: Seq<ReportView>) -> Seq<Seq<char>>
    decreases targets.len(),
{
    if targets.len() == 0 {
        Seq::empty()
    } else {
        let head = warnings(targets.drop_last(), reports);
        match unreachable_warning(reports, targets.last().device.name@) {
            Some(text) => head.push(text),
            None => head,
        }
    }
}

/// The targets whose devices are connected, once all are tried, with what is said of the others.
pub struct Connected<'a> {
    pub reachable: Vec<Target<'a>>,
    pub warnings: Vec<String>,
}

impl<'a> Connected<'a> {
    /// Whether there is anything to go on with.
    pub fn verdict(&self) -> (r: Result<(), String>)
        ensures
            self.reachable@.len() > 0 ==> r is Ok,
            self.reachable@.len() == 0 ==> (r matches Err(t) && t@
                == "could not connect to any selected device"@),
    {
        if self.reachable.len() > 0 {
            Ok(())
        } else {
            Err("could not connect to any selected device".to_owned())
        }
    }
}

/// Parts the targets whose devices are connected from the others.
pub fn connect_targets<'a>(targets: Vec<Target<'a>>, reports: &Vec<LinkReport>) -> (r: Connected<
    'a,
>)
    ensures
        target_views(r.reachable@) == reachable(target_views(targets@), report_views(reports@)),
        texts(r.warnings@) == warnings(target_views(targets@), report_views(reports@)),
{
    let ghost all = target_views(targets@);
    let ghost told = report_views(reports@);
    let ghost given = targets@;
    let mut rest: Vec<Target<'a>> = targets;
    let mut kept: Vec<Target<'a>> = Vec::new();
    let mut said: Vec<String> = Vec::new();
    let ghost mut i: int = 0;
    assert(all.take(0) =~= Seq::<TargetView>::empty());
    assert(target_views(kept@) =~= Seq::<TargetView>::empty());
    assert(texts(said@) =~= Seq::<Seq<char>>::empty());
    assert(rest@ =~= given.skip(0));
    while rest.len() > 0
        invariant
            0 <= i <= given.len(),
            all == target_views(given),
            told == report_views(reports@),
            rest@ == given.skip(i),
            target_views(kept@) == reachable(all.take(i), told),
            texts(said@) == warnings(all.take(i), told),
        decreases rest@.len(),
    {
        assert(all.take(i + 1).drop_last() =~= all.take(i));
        assert(all.take(i + 1).last() == given[i]@);
        let target: Target<'a> = rest.remove(0);
        assert(target == given[i]);
        assert(rest@ =~= given.skip(i + 1));
        match warn_unreachable(reports, target.device.name.as_str()) {
            Some(text) => {
                let ghost was = texts(said@);
                said.push(text);
                assert(texts(said@) =~= was.push(text@));
            },
            None => {
                let ghost was = target_views(kept@);
                kept.push(target);
                assert(target_views(kept@) =~= was.push(target@));
            },
        }
        proof {
            i = i + 1;
        }
    }
    assert(all.take(all.len() as int) =~= all);
    Connected { reachable: kept, warnings: said }
}

/// Every selected device is either gone on with or warned of.
pub proof fn every_target_is_accounted_for(targets: Seq<TargetView>, reports: Seq<ReportView>)
    ensures
        reachable(targets, reports).len() + warnings(targets, reports).len() == targets.len(),
    decreases targets.len(),
{
    if targets.len() > 0 {
        every_target_is_accounted_for(targets.drop_last(), reports);
    }
}

/// The reads of one device: how often, when the next is due, and how many are left.
#[derive(Debug, PartialEq)]
pub struct ReadJob {
    pub device: String,
    pub refs: Vec<PointRef>,
    pub interval: Duration,
    pub next_due: u128,
    pub remaining: Option<u64>,
}

/// Whether reads are left.
pub open spec fn goes_on(j: ReadJob) -> bool {
    j.remaining != Some(0u64)
}

/// When the next read is due, of those that are left.
pub open spec fn earliest(jobs: Seq<ReadJob>) -> Option<nat>
    decreases jobs.len(),
{
    if jobs.len() == 0 {
        None
    } else {
        let head = earliest(jobs.drop_last());
        let j = jobs.last();
        if !goes_on(j) {
            head
        } else {
            match head {
                Some(n) => if j.next_due < n {
                    Some(j.next_due as nat)
                } else {
                    Some(n)
                },
                None => Some(j.next_due as nat),
            }
        }
    }
}

/// When the next read is due; none where no read is left.
pub fn next_read(jobs: &Vec<ReadJob>) -> (r: Option<u128>)
    ensures
        match r {
            Some(n) => earliest(jobs@) == Some(n as nat),
            None => earliest(jobs@) is None,
        },
{
    let mut best: Option<u128> = None;
    let mut i: usize = 0;
    assert(jobs@.take(0) =~= Seq::<ReadJob>::empty());
    while i < jobs.len()
        invariant
            i <= jobs@.len(),
            match best {
                Some(n) => earliest(jobs@.take(i as int)) == Some(n as nat),
                None => earliest(jobs@.take(i as int)) is None,
            },
        decreases jobs@.len() - i,
    {
        assert(jobs@.take(i + 1).drop_last() =~= jobs@.take(i as int));
        assert(jobs@.take(i + 1).last() == jobs@[i as int]);
        let left: bool = match jobs[i].remaining {
            Some(n) => n != 0,
            None => true,
        };
        if left {
            let sooner: bool = match best {
                Some(n) => jobs[i].next_due < n,
                None => true,
            };
            if sooner {
                best = Some(jobs[i].next_due);
            }
        }
        i = i + 1;
    }
    assert(jobs@.take(jobs@.len() as int) =~= jobs@);
    best
}

/// The points of a target, as a module is asked for them.
pub open spec fn selected_refs(t: TargetView) -> Seq<PointView> {
    t.points.map_values(
        |p: PointConfig|
            configured_point(p, t.device.default_mode, own_interval(text_of(p.poll_interval))),
    )
}

impl ReadJob {
    /// The reads of the points that are selected on a device: once, or again and again, as often
    /// as is asked for.
    pub fn new(
        config: &ConnectorConfig,
        target: &Target,
        over: Option<Duration>,
        poll: bool,
        count: Option<u64>,
        now: u128,
    ) -> (r: ReadJob)
        ensures
            r.device@ == target.device.name@,
            refs(r.refs@) == selected_refs(target@),
            nanos(r.interval) == read_interval(*config, *target.device, nanos_of(over)),
            r.next_due == now,
            r.remaining == if poll {
                count
            } else {
                Some(1u64)
            },
    {
        let mut points: Vec<PointRef> = Vec::new();
        let mut i: usize = 0;
        while i < target.points.len()
            invariant
                i <= target.points@.len(),
                points@.len() == i,
                forall|k: int|
                    0 <= k < i ==> (#[trigger] points@[k])@ == selected_refs(target@)[k],
            decreases target.points@.len() - i,
        {
            let p: PointRef = point_ref(target.points[i], target.device.default_mode);
            points.push(p);
            i = i + 1;
        }
        assert(refs(points@) =~= selected_refs(target@));
        ReadJob {
            device: target.device.name.clone(),
            refs: points,
            interval: effective_interval(config, target.device, over),
            next_due: now,
            remaining: if poll {
                count
            } else {
                Some(1)
            },
        }
    }

    /// Whether a read is due.
    pub fn is_due(&self, now: u128) -> (r: bool)
        ensures
            r == (goes_on(*self) && self.next_due <= now),
    {
        let left: bool = match self.remaining {
            Some(n) => n != 0,
            None => true,
        };
        left && self.next_due <= now
    }

    /// Notes that a read was made.
    pub fn note_read(&mut self, now: u128)
        requires
            goes_on(*old(self)),
        ensures
            *final(self) == (ReadJob {
                next_due: later(now as nat, nanos(old(self).interval)) as u128,
                remaining: match old(self).remaining {
                    Some(n) => Some((n - 1) as u64),
                    None => None,
                },
                ..*old(self)
            }),
    {
        self.next_due = moment_after(now, self.interval);
        self.remaining = match self.remaining {
            Some(n) => Some(n - 1),
            None => None,
        };
    }
}

/// The selectors of points that are read: all points where none is given.
pub open spec fn read_selectors(points: Seq<Seq<char>>) -> Seq<Seq<char>> {
    if points.len() == 0 {
        seq!["*"@]
    } else {
        points
    }
}

/// The selectors of points that are read.
pub fn selectors(points: Vec<String>) -> (r: Vec<String>)
    ensures
        texts(r@) == read_selectors(texts(points@)),
{
    if points.len() == 0 {
        let mut all: Vec<String> = Vec::new();
        all.push("*".to_owned());
        assert(texts(all@) =~= seq!["*"@]);
        all
    } else {
        assert(texts(points@).len() == points@.len());
        points
    }
}

/// Whether reads go on: where that is asked for, or how often, or how many times.
pub fn is_polling(poll: bool, interval: Option<Duration>, count: Option<u64>) -> (r: bool)
    ensures
        r == (poll || interval is Some || count is Some),
{
    poll || interval.is_some() || count.is_some()
}

/// What a failed read comes to: the end where reads are made once; a line, and another attempt at
/// the device, where they go on.
#[derive(Debug, PartialEq)]
pub enum ReadFailure {
    Stop { error: String },
    Reconnect { line: String },
}

/// What a failed read comes to.
pub fn after_failed_read(device: &str, error: &str, poll: bool) -> (r: ReadFailure)
    ensures
        match r {
            ReadFailure::Stop { error: text } => !poll && text@ == "read failed: "@ + error@,
            ReadFailure::Reconnect { line } => poll && line@ == "error: read from '"@ + device@
                + "' failed: "@ + error@,
        },
{
    if poll {
        let mut line: String = concat3("error: read from '", device, "' failed: ");
        line.append(error);
        ReadFailure::Reconnect { line }
    } else {
        ReadFailure::Stop { error: concat2("read failed: ", error) }
    }
}

/// The line that tells of a failed write.
pub fn write_failure(device: &str, point: &str, error: &str) -> (r: String)
    ensures
        r@ == "error: write to "@ + device@ + "/"@ + point@ + " failed: "@ + error@,
{
    let mut line: String = concat3("error: write to ", device, "/");
    line.append(point);
    line.append(" failed: ");
    line.append(error);
    line
}

/// What reading by hand comes to: where it was done once, every device has to be there and every
/// point good.
pub open spec fn read_verdict(poll: bool, failed: nat, saw_bad: bool) -> Option<Seq<char>> {
    if poll {
        None
    } else if failed > 0 {
        Some("could not connect to every selected device"@)
    } else if saw_bad {
        Some("one or more points returned bad quality"@)
    } else {
        None
    }
}

/// What reading by hand comes to.
pub fn conclude_read(poll: bool, failed: usize, saw_bad: bool) -> (r: Result<(), String>)
    ensures
        match read_verdict(poll, failed as nat, saw_bad) {
            Some(e) => r matches Err(t) && t@ == e,
            None => r is Ok,
        },
{
    if poll {
        Ok(())
    } else if failed > 0 {
        Err("could not connect to every selected device".to_owned())
    } else if saw_bad {
        Err("one or more points returned bad quality".to_owned())
    } else {
        Ok(())
    }
}

/// What writing by hand comes to.
pub fn conclude_write(failures: usize) -> (r: Result<(), String>)
    ensures
        failures == 0 ==> r is Ok,
        failures > 0 ==> (r matches Err(t) && t@ == decimal_text(failures as nat)
            + " write(s) failed"@),
{
    if failures == 0 {
        Ok(())
    } else {
        let mut out: String = crate::text::decimal_string(failures as u64);
        out.append(" write(s) failed");
        Err(out)
    }
}

/// The float that a text spells: nothing where it spells none.
pub enum Spelt {
    Number(JsonNumber),
    NonFinite,
}

/// The value that an argument is, and what kind of value: a truth value, a number or a text.
/// `float` is the float that it spells. What spells no number that JSON can hold is a text.
pub open spec fn cli_value(s: Seq<char>, float: Option<Spelt>) -> (JsonView, Seq<char>) {
    if lowered(s) == "true"@ {
        (JsonView::Bool(true), "boolean"@)
    } else if lowered(s) == "false"@ {
        (JsonView::Bool(false), "boolean"@)
    } else {
        match signed_text(s) {
            Some(i) => (JsonView::Number(signed_numeral(i)), "number"@),
            None => match float {
                Some(Spelt::Number(n)) => (JsonView::Number(n@), "number"@),
                Some(Spelt::NonFinite) => (JsonView::Text(s), "string"@),
                None => (JsonView::Text(s), "string"@),
            },
        }
    }
}

/// The value that an argument is, and what kind of value.
pub fn parse_cli_value(s: &str, float: Option<Spelt>) -> (r: (Json, &'static str))
    ensures
        (r.0@, r.1@) == cli_value(s@, float),
{
    if lowers_to(s, "true") {
        return (Json::of_bool(true), "boolean");
    }
    if lowers_to(s, "false") {
        return (Json::of_bool(false), "boolean");
    }
    match parse_signed(s) {
        Some(i) => (Json::of_number(JsonNumber::signed(i)), "number"),
        None => match float {
            Some(Spelt::Number(n)) => (Json::of_number(n), "number"),
            Some(Spelt::NonFinite) => (Json::text(s), "string"),
            None => (Json::text(s), "string"),
        },
    }
}

/// The kind that an argument is said to be is that of its value.
pub proof fn arguments_are_of_their_kind(s: Seq<char>, float: Option<Spelt>)
    ensures
        cli_value(s, float).0 is Bool || cli_value(s, float).0 is Number || cli_value(s, float).0
            == JsonView::Text(s),
        cli_value(s, float).1 == match cli_value(s, float).0 {
            JsonView::Bool(_) => "boolean"@,
            JsonView::Number(_) => "number"@,
            _ => "string"@,
        },
{
}

/// The request to write what was given on the command line to a point: bytes where there are any,
/// a value where not.
pub open spec fn cli_request(
    point: Seq<char>,
    value: Seq<char>,
    raw: Option<Seq<char>>,
    float: Option<Spelt>,
) -> RequestView {
    match raw {
        Some(r) => RequestView { point, value: None, value_repr: None, raw: Some(r) },
        None => {
            let (v, repr) = cli_value(value, float);
            RequestView { point, value: Some(v), value_repr: Some(repr), raw: None }
        },
    }
}

/// The request to write what was given on the command line to a point.
pub fn write_request(point: &str, value: &str, raw: Option<&str>, float: Option<Spelt>) -> (r:
    CommandRequest)
    ensures
        r@ == cli_request(point@, value@, str_of(raw), float),
{
    match raw {
        Some(bytes) => CommandRequest {
            point: point.to_owned(),
            value: None,
            value_repr: None,
            raw: Some(bytes.to_owned()),
        },
        None => {
            let (v, repr) = parse_cli_value(value, float);
            CommandRequest {
                point: point.to_owned(),
                value: Some(v),
                value_repr: Some(repr.to_owned()),
                raw: None,
            }
        },
    }
}

/// The line that tells of a write: as an object, or for people.
pub open spec fn write_line(device: Seq<char>, r: ResultView, json: bool) -> Seq<char> {
    if json {
        let f = with_field(Fields::empty(), "status"@, JsonView::Text("successful"@));
        let f = with_field(f, "device"@, JsonView::Text(device));
        let f = with_field(f, "point"@, JsonView::Text(r.point));
        let f = with_optional(f, "value"@, r.value);
        let f = with_optional(f, "raw"@, text_view(r.raw));
        printed(JsonView::Object(f))
    } else {
        let what = match r.value {
            Some(v) => printed(v),
            None => match r.raw {
                Some(t) => t,
                None => Seq::empty(),
            },
        };
        "ok: wrote "@ + what + " to "@ + device + "/"@ + r.point
    }
}

/// The line that tells of a write.
pub fn format_write_result(device: &str, result: &CommandResult, json: bool) -> (r: String)
    ensures
        r@ == write_line(device@, result@, json),
{
    if json {
        let mut obj = JsonObject::new();
        obj.insert("status", Json::text("successful"));
        obj.insert("device", Json::text(device));
        obj.insert("point", Json::text(result.point.as_str()));
        obj.insert_optional("value", copy_json(&result.value));
        obj.insert_text("raw", as_deref(&result.raw));
        Json::of_object(obj).print()
    } else {
        let what: String = match &result.value {
            Some(v) => v.print(),
            None => match &result.raw {
                Some(t) => t.clone(),
                None => String::new(),
            },
        };
        let mut out: String = concat3("ok: wrote ", what.as_str(), " to ");
        out.append(device);
        out.append("/");
        out.append(result.point.as_str());
        out
    }
}

/// How a value is written for people.
pub open spec fn plain_value(v: Option<Value>) -> Seq<char> {
    match v {
        Some(Value::Bool(b)) => if b {
            "true"@
        } else {
            "false"@
        },
        Some(Value::Number(n)) => plain_number(n@),
        Some(Value::NonFinite(NonFinite::NotANumber)) => "NaN"@,
        Some(Value::NonFinite(NonFinite::Infinite)) => "inf"@,
        Some(Value::NonFinite(NonFinite::NegativeInfinite)) => "-inf"@,
        Some(Value::Text(t)) => t@,
        None => "<raw>"@,
    }
}

/// The line that shows a reading to people.
pub open spec fn reading_line(device: Seq<char>, s: Sample) -> Seq<char> {
    let group = if s.raw_group == 0 {
        1
    } else {
        s.raw_group as int
    };
    let line = device + "/"@ + s.point@ + " = "@ + plain_value(s.value) + " ("@
        + s.quality.label() + ") raw="@ + hex_text(s.raw@, group);
    match s.error {
        Some(e) => line + " error="@ + e@,
        None => line,
    }
}

/// The line that shows a reading to people.
pub fn format_sample(device: &str, sample: &Sample) -> (r: String)
    ensures
        r@ == reading_line(device@, *sample),
{
    let value: String = match &sample.value {
        Some(Value::Bool(b)) => if *b {
            "true".to_owned()
        } else {
            "false".to_owned()
        },
        Some(Value::Number(n)) => n.plain(),
        Some(Value::NonFinite(x)) => match x {
            NonFinite::NotANumber => "NaN".to_owned(),
            NonFinite::Infinite => "inf".to_owned(),
            NonFinite::NegativeInfinite => "-inf".to_owned(),
        },
        Some(Value::Text(t)) => t.clone(),
        None => "<raw>".to_owned(),
    };
    let raw: String = hex_grouped(sample.raw.as_slice(), sample.raw_group);
    let mut line: String = concat3(device, "/", sample.point.as_str());
    line.append(" = ");
    line.append(value.as_str());
    line.append(" (");
    line.append(sample.quality.as_str());
    line.append(") raw=");
    line.append(raw.as_str());
    if let Some(e) = &sample.error {
        line.append(" error=");
        line.append(e.as_str());
    }
    line
}

/// A point that is named is selected whatever its access; a pattern takes to read what may be
/// read, and to write what may be written.
pub proof fn patterns_select_what_can_be_done(pattern: Seq<char>, p: PointConfig)
    ensures
        ({
            let access = access_of(text_of(p.access));
            let named = glob(pattern, p.id@);
            &&& !pattern_text(pattern) ==> (selects(pattern, p, true) <==> p.id@ == pattern)
            &&& !pattern_text(pattern) ==> (selects(pattern, p, false) <==> p.id@ == pattern)
            &&& pattern_text(pattern) ==> (selects(pattern, p, true) <==> named && (access
                == Access::Write || access == Access::ReadWrite))
            &&& pattern_text(pattern) ==> (selects(pattern, p, false) <==> named && (access
                == Access::Read || access == Access::ReadWrite))
        }),
{
    patterns_match_as_they_read(pattern, p.id@);
}

proof fn selecting_keeps(
    taken: Seq<PointConfig>,
    pattern: Seq<char>,
    points: Seq<PointConfig>,
    for_write: bool,
    id: Seq<char>,
)
    requires
        has_id(taken, id),
    ensures
        has_id(with_selected(taken, pattern, points, for_write), id),
    decreases points.len(),
{
    if points.len() > 0 {
        let head = with_selected(taken, pattern, points.drop_last(), for_write);
        selecting_keeps(taken, pattern, points.drop_last(), for_write, id);
        let i = choose|i: int| 0 <= i < head.len() && (#[trigger] head[i]).id@ == id;
        assert(with_selected(taken, pattern, points, for_write)[i].id@ == id);
    }
}

proof fn selecting_takes(
    taken: Seq<PointConfig>,
    pattern: Seq<char>,
    points: Seq<PointConfig>,
    for_write: bool,
    q: int,
)
    requires
        0 <= q < points.len(),
        selects(pattern, points[q], for_write),
    ensures
        has_id(with_selected(taken, pattern, points, for_write), points[q].id@),
    decreases points.len(),
{
    let head = with_selected(taken, pattern, points.drop_last(), for_write);
    let all = with_selected(taken, pattern, points, for_write);
    if q < points.len() - 1 {
        selecting_takes(taken, pattern, points.drop_last(), for_write, q);
    }
    if has_id(head, points[q].id@) {
        let i = choose|i: int| 0 <= i < head.len() && (#[trigger] head[i]).id@ == points[q].id@;
        assert(all[i].id@ == points[q].id@);
    } else {
        assert(all[head.len() as int].id@ == points[q].id@);
    }
}

/// Each point that a selector is for is selected.
pub proof fn every_point_that_is_meant_is_selected(
    patterns: Seq<Seq<char>>,
    points: Seq<PointConfig>,
    for_write: bool,
    k: int,
    q: int,
)
    requires
        0 <= k < patterns.len(),
        0 <= q < points.len(),
        selects(patterns[k], points[q], for_write),
    ensures
        has_id(selected_points(patterns, points, for_write), points[q].id@),
    decreases patterns.len(),
{
    let head = selected_points(patterns.drop_last(), points, for_write);
    if k < patterns.len() - 1 {
        every_point_that_is_meant_is_selected(patterns.drop_last(), points, for_write, k, q);
        selecting_keeps(head, patterns.last(), points, for_write, points[q].id@);
    } else {
        selecting_takes(head, patterns.last(), points, for_write, q);
    }
}

/// Whether a device matches and a point of it is selected.
pub open spec fn is_meant(
    device: DeviceConfig,
    device_pattern: Seq<char>,
    patterns: Seq<Seq<char>>,
    for_write: bool,
) -> bool {
    glob(device_pattern, device.name@) && exists|q: int|
        0 <= q < device.points@.len() && some_selects(
            patterns,
            #[trigger] device.points@[q],
            for_write,
        )
}

/// The targets are the devices that match and that have a point that is meant, with the points
/// that are selected on them.
pub proof fn targets_are_the_devices_that_are_meant(
    devices: Seq<DeviceConfig>,
    n: int,
    device_pattern: Seq<char>,
    patterns: Seq<Seq<char>>,
    for_write: bool,
    t: TargetView,
)
    requires
        0 <= n <= devices.len(),
    ensures
        targets_of(devices, n, device_pattern, patterns, for_write).contains(t) <==> (exists|d: int|
            0 <= d < n && (#[trigger] devices[d]) == t.device && is_meant(
                devices[d],
                device_pattern,
                patterns,
                for_write,
            )) && t.points == selected_points(patterns, t.device.points@, for_write),
    decreases n,
{
    let all = targets_of(devices, n, device_pattern, patterns, for_write);
    if n > 0 {
        targets_are_the_devices_that_are_meant(
            devices,
            n - 1,
            device_pattern,
            patterns,
            for_write,
            t,
        );
        let head = targets_of(devices, n - 1, device_pattern, patterns, for_write);
        let d = devices[n - 1];
        let points = selected_points(patterns, d.points@, for_write);
        selections_are_distinct(patterns, d.points@, for_write);
        if points.len() > 0 && glob(device_pattern, d.name@) {
            assert(d.points@.contains(points[0]));
            let q = choose|q: int| 0 <= q < d.points@.len() && d.points@[q] == points[0];
            assert(some_selects(patterns, d.points@[q], for_write));
            assert(is_meant(d, device_pattern, patterns, for_write));
            assert(all[head.len() as int] == (TargetView { device: d, points }));
        }
        if is_meant(d, device_pattern, patterns, for_write) {
            let q = choose|q: int|
                0 <= q < d.points@.len() && some_selects(
                    patterns,
                    #[trigger] d.points@[q],
                    for_write,
                );
            let k = choose|k: int|
                0 <= k < patterns.len() && selects(
                    #[trigger] patterns[k],
                    d.points@[q],
                    for_write,
                );
            every_point_that_is_meant_is_selected(patterns, d.points@, for_write, k, q);
            assert(points.len() > 0);
        }
        if head.contains(t) {
            let i = choose|i: int| 0 <= i < head.len() && head[i] == t;
            assert(all[i] == t);
        }
        if all.contains(t) {
            let i = choose|i: int| 0 <= i < all.len() && all[i] == t;
            if i < head.len() {
                assert(head[i] == t);
            }
        }
    }
}

/// Selectors resolve where some device matches and each of them is for a point of such a device.
pub proof fn selectors_resolve_where_each_is_for_a_point(
    devices: Seq<DeviceConfig>,
    device_pattern: Seq<char>,
    patterns: Seq<Seq<char>>,
    for_write: bool,
)
    ensures
        resolution(devices, device_pattern, patterns, for_write) is Ok <==> (exists|d: int|
            0 <= d < devices.len() && glob(device_pattern, (#[trigger] devices[d]).name@))
            && forall|k: int|
            0 <= k < patterns.len() ==> hits(
                devices,
                device_pattern,
                #[trigger] patterns[k],
                for_write,
            ),
{
    misses_are_found(devices, device_pattern, patterns, for_write);
}

proof fn misses_are_found(
    devices: Seq<DeviceConfig>,
    device_pattern: Seq<char>,
    patterns: Seq<Seq<char>>,
    for_write: bool,
)
    ensures
        first_miss(devices, device_pattern, patterns, for_write) is None <==> forall|k: int|
            0 <= k < patterns.len() ==> hits(
                devices,
                device_pattern,
                #[trigger] patterns[k],
                for_write,
            ),
    decreases patterns.len(),
{
    if patterns.len() > 0 {
        let rest = patterns.drop_first();
        misses_are_found(devices, device_pattern, rest, for_write);
        assert(patterns[0] == patterns.first());
        assert forall|k: int| 0 < k < patterns.len() implies #[trigger] patterns[k] == rest[k
            - 1] by {}
        if first_miss(devices, device_pattern, rest, for_write) is Some {
            let k = choose|k: int|
                0 <= k < rest.len() && !hits(
                    devices,
                    device_pattern,
                    #[trigger] rest[k],
                    for_write,
                );
            assert(patterns[k + 1] == rest[k]);
        }
        if hits(devices, device_pattern, patterns[0], for_write) && first_miss(
            devices,
            device_pattern,
            rest,
            for_write,
        ) is None {
            assert forall|k: int| 0 <= k < patterns.len() implies hits(
                devices,
                device_pattern,
                #[trigger] patterns[k],
                for_write,
            ) by {
                if k > 0 {
                    assert(rest[k - 1] == patterns[k]);
                }
            }
        }
    }
}

/// Points are read as often as is asked for by hand; else as often as the device says, else as
/// the connector does.
pub proof fn the_closest_read_interval_holds(
    config: ConnectorConfig,
    device: DeviceConfig,
    over: Option<nat>,
    n: nat,
)
    ensures
        read_interval(config, device, Some(n)) == n,
        text_of(device.poll_interval) matches Some(t) ==> (duration_text(t) == Some(n)
            ==> read_interval(config, device, None) == n),
        text_of(device.poll_interval) is None && duration_text(config.connector.poll_interval@)
            == Some(n) ==> read_interval(config, device, None) == n,
{
}

/// A device is warned of where a report says that it is not connected, and gone on with where
/// none does.
pub proof fn devices_that_are_down_are_warned_of(reports: Seq<ReportView>, device: Seq<char>)
    ensures
        unreachable_warning(reports, device) is Some <==> exists|i: int|
            0 <= i < reports.len() && (#[trigger] reports[i]).device == device && reports[i].status
                != LinkStatus::Connected,
        down_report(reports, device) is Some <==> unreachable_warning(reports, device) is Some,
        down_report(reports, device) matches Some(r) ==> r.device == device && r.status
            != LinkStatus::Connected && reports.contains(r),
    decreases reports.len(),
{
    if reports.len() > 0 {
        let rest = reports.drop_first();
        devices_that_are_down_are_warned_of(rest, device);
        if reports[0].device == device && reports[0].status != LinkStatus::Connected {
            assert(reports.contains(reports[0]));
        } else {
            if exists|i: int|
                0 <= i < rest.len() && (#[trigger] rest[i]).device == device && rest[i].status
                    != LinkStatus::Connected {
                let i = choose|i: int|
                    0 <= i < rest.len() && (#[trigger] rest[i]).device == device && rest[i].status
                        != LinkStatus::Connected;
                assert(reports[i + 1] == rest[i]);
            }
            if exists|i: int|
                0 <= i < reports.len() && (#[trigger] reports[i]).device == device
                    && reports[i].status != LinkStatus::Connected {
                let i = choose|i: int|
                    0 <= i < reports.len() && (#[trigger] reports[i]).device == device
                        && reports[i].status != LinkStatus::Connected;
                assert(rest[i - 1] == reports[i]);
            }
            if let Some(r) = down_report(rest, device) {
                let i = choose|i: int| 0 <= i < rest.len() && rest[i] == r;
                assert(reports[i + 1] == r);
            }
        }
    }
}

/// The targets that are gone on with are those of which no report says that they are down.
pub proof fn connected_targets_are_gone_on_with(
    targets: Seq<TargetView>,
    reports: Seq<ReportView>,
    i: int,
)
    requires
        0 <= i < targets.len(),
    ensures
        (forall|k: int|
            0 <= k < reports.len() && (#[trigger] reports[k]).device == targets[i].device.name@
                ==> reports[k].status == LinkStatus::Connected) ==> reachable(
            targets,
            reports,
        ).contains(targets[i]),
        unreachable_warning(reports, targets[i].device.name@) matches Some(w) ==> warnings(
            targets,
            reports,
        ).contains(w),
    decreases targets.len(),
{
    let before = targets.drop_last();
    let kept = reachable(before, reports);
    let said = warnings(before, reports);
    devices_that_are_down_are_warned_of(reports, targets[i].device.name@);
    if i < targets.len() - 1 {
        connected_targets_are_gone_on_with(before, reports, i);
        if kept.contains(targets[i]) {
            let k = choose|k: int| 0 <= k < kept.len() && kept[k] == targets[i];
            assert(reachable(targets, reports)[k] == targets[i]);
        }
        if let Some(w) = unreachable_warning(reports, targets[i].device.name@) {
            let k = choose|k: int| 0 <= k < said.len() && said[k] == w;
            assert(warnings(targets, reports)[k] == w);
        }
    } else {
        match unreachable_warning(reports, targets[i].device.name@) {
            Some(w) => {
                assert(warnings(targets, reports)[said.len() as int] == w);
            },
            None => {
                assert(reachable(targets, reports)[kept.len() as int] == targets[i]);
            },
        }
    }
}

/// The next read is that of the reads left that is due first.
pub proof fn no_read_is_due_earlier(jobs: Seq<ReadJob>, j: int)
    requires
        0 <= j < jobs.len(),
    ensures
        jobs[j].remaining != Some(0u64) ==> (earliest(jobs) matches Some(n) && n
            <= jobs[j].next_due),
        earliest(jobs) matches Some(n) ==> exists|k: int|
            0 <= k < jobs.len() && (#[trigger] jobs[k]).remaining != Some(0u64) && jobs[k].next_due
                == n,
    decreases jobs.len(),
{
    let before = jobs.drop_last();
    assert(jobs[jobs.len() - 1] == jobs.last());
    if before.len() > 0 {
        let k = if j < before.len() {
            j
        } else {
            0
        };
        no_read_is_due_earlier(before, k);
        if let Some(n) = earliest(before) {
            let i = choose|i: int|
                0 <= i < before.len() && (#[trigger] before[i]).remaining != Some(0u64)
                    && before[i].next_due == n;
            assert(jobs[i] == before[i]);
        }
    }
}

/// Reading once goes well where every device was there and every point good; reading on and on
/// always does.
pub proof fn reads_go_well_where_all_was_good(poll: bool, failed: nat, saw_bad: bool)
    ensures
        read_verdict(poll, failed, saw_bad) is None <==> poll || (failed == 0 && !saw_bad),
{
}

/// An argument is read as what it spells: a truth value, a whole number, another number, or
/// itself.
pub proof fn arguments_are_read_as_what_they_spell(s: Seq<char>, float: Option<Spelt>, n: JsonNumber)
    ensures
        lowered(s) == "true"@ ==> cli_value(s, float).0 == JsonView::Bool(true),
        lowered(s) == "false"@ ==> cli_value(s, float).0 == JsonView::Bool(false),
        lowered(s) != "true"@ && lowered(s) != "false"@ ==> {
            &&& signed_text(s) matches Some(i) ==> (i >= 0 ==> cli_value(s, float).0
                == JsonView::Number(Numeral::PosInt(i as u64)))
            &&& signed_text(s) matches Some(i) ==> (i < 0 ==> cli_value(s, float).0
                == JsonView::Number(Numeral::NegInt(i)))
            &&& signed_text(s) is None ==> cli_value(s, Some(Spelt::Number(n))).0
                == JsonView::Number(n@)
            &&& signed_text(s) is None ==> cli_value(s, Some(Spelt::NonFinite)).0 == JsonView::Text(
                s,
            )
            &&& signed_text(s) is None ==> cli_value(s, None).0 == JsonView::Text(s)
        },
{
    reveal_strlit("true");
    reveal_strlit("false");
    assert("true"@.len() == 4 && "false"@.len() == 5);
}

/// What is given as bytes is written as bytes, and what is given as a value as that value, of
/// the kind that it is.
pub proof fn what_is_given_is_written(
    point: Seq<char>,
    value: Seq<char>,
    bytes: Seq<char>,
    float: Option<Spelt>,
)
    ensures
        ({
            let raw = cli_request(point, value, Some(bytes), float);
            let plain = cli_request(point, value, None, float);
            &&& raw.point == point && plain.point == point
            &&& raw.raw == Some(bytes) && raw.value is None && raw.value_repr is None
            &&& plain.raw is None && plain.value == Some(cli_value(value, float).0)
            &&& plain.value_repr == Some(
                match cli_value(value, float).0 {
                    JsonView::Bool(_) => "boolean"@,
                    JsonView::Number(_) => "number"@,
                    _ => "string"@,
                },
            )
        }),
{
    arguments_are_of_their_kind(value, float);
}

/// The line that tells of a write tells which device and point, and what was written.
pub proof fn writes_are_told_with_what_was_written(device: Seq<char>, r: ResultView) -> (f: Fields)
    ensures
        write_line(device, r, true) == printed(JsonView::Object(f)),
        field(f, "status"@) == Some(JsonView::Text("successful"@)),
        field(f, "device"@) == Some(JsonView::Text(device)),
        field(f, "point"@) == Some(JsonView::Text(r.point)),
        field(f, "value"@) == r.value,
        field(f, "raw"@) == text_view(r.raw),
        r.value matches Some(v) ==> write_line(device, r, false) == "ok: wrote "@ + printed(v)
            + " to "@ + device + "/"@ + r.point,
        r.value is None ==> (r.raw matches Some(t) ==> write_line(device, r, false)
            == "ok: wrote "@ + t + " to "@ + device + "/"@ + r.point),
{
    broadcast use crate::keyed::field_once_set;

    reveal_strlit("status");
    reveal_strlit("device");
    reveal_strlit("point");
    reveal_strlit("value");
    reveal_strlit("raw");
    assert("status"@.len() == 6 && "status"@[0] == 's');
    assert("device"@.len() == 6 && "device"@[0] == 'd');
    assert("point"@.len() == 5 && "point"@[0] == 'p');
    assert("value"@.len() == 5 && "value"@[0] == 'v');
    assert("raw"@.len() == 3);
    assert(forall|k: Seq<char>| #[trigger] field(Fields::empty(), k) is None);
    let f = with_field(Fields::empty(), "status"@, JsonView::Text("successful"@));
    let f = with_field(f, "device"@, JsonView::Text(device));
    let f = with_field(f, "point"@, JsonView::Text(r.point));
    let f = with_optional(f, "value"@, r.value);
    with_optional(f, "raw"@, text_view(r.raw))
}

/// A reading is shown by its device, its point and what was read; its quality, its bytes and its
/// error follow.
pub proof fn readings_are_shown_with_what_was_read(device: Seq<char>, s: Sample) -> (r: (
    Seq<char>,
    Seq<char>,
))
    ensures
        reading_line(device, s) == device + "/"@ + s.point@ + " = "@ + r.0 + " ("@
            + s.quality.label() + ") raw="@ + r.1,
        s.value matches Some(Value::Bool(b)) ==> r.0 == if b {
            "true"@
        } else {
            "false"@
        },
        s.value matches Some(Value::Number(n)) ==> r.0 == plain_number(n@),
        s.value matches Some(Value::Text(t)) ==> r.0 == t@,
        s.value is None ==> r.0 == "<raw>"@,
        s.error is None && s.raw_group > 0 ==> r.1 == hex_text(s.raw@, s.raw_group as int),
        s.error matches Some(e) ==> (s.raw_group > 0 ==> r.1 == hex_text(
            s.raw@,
            s.raw_group as int,
        ) + " error="@ + e@),
{
    let group = if s.raw_group == 0 {
        1
    } else {
        s.raw_group as int
    };
    let hex = hex_text(s.raw@, group);
    let start = device + "/"@ + s.point@ + " = "@ + plain_value(s.value) + " ("@
        + s.quality.label() + ") raw="@;
    match s.error {
        Some(e) => {
            assert(start + hex + " error="@ + e@ =~= start + (hex + " error="@ + e@));
            (plain_value(s.value), hex + " error="@ + e@)
        },
        None => (plain_value(s.value), hex),
    }
}

/// The points of a target are asked for as they are configured, each at its own interval; and
/// where no point is named, all are read.
pub proof fn selected_points_are_asked_for_as_configured(t: TargetView, i: int, points: Seq<Seq<char>>)
    ensures
        selected_refs(t).len() == t.points.len(),
        0 <= i < t.points.len() ==> {
            &&& selected_refs(t)[i].id == t.points[i].id@
            &&& text_of(t.points[i].poll_interval) matches Some(s) ==> selected_refs(t)[i].interval
                == duration_text(s)
            &&& t.points[i].poll_interval is None ==> selected_refs(t)[i].interval is None
            &&& selected_refs(t)[i] == configured_point(
                t.points[i],
                t.device.default_mode,
                selected_refs(t)[i].interval,
            )
        },
        points.len() > 0 ==> read_selectors(points) == points,
        points.len() == 0 ==> read_selectors(points) == seq!["*"@],
{
}

} // verus!
