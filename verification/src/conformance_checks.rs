//! The checks of a connector's behaviour: what each looks at, and what it concludes.
use crate::config::DeviceConfig;
use crate::conformance::{
    checked_views, command_topic, contains_part, filters_match_in_parts, has_part, is_sample_topic,
    matches_filter, plus_matches_one_level, told, topic_matches, topics_match_themselves,
    Captured, CheckedView, Point,
};
use crate::conformance_claims::{list_under, listed, set_of, sorted_set};
use crate::connector::Access;
use crate::inspect::{show_value, shown_value};
use crate::json::{
    member, numeral_as_i64, printed, text_member, view_of, views, Fields, Json, JsonObject,
    JsonView,
};
use crate::keyed::{field, with_field};
use crate::links::{device_among, link_topic};
use crate::manifest::manifest_topic;
use crate::model::{DataType, Mode};
use crate::report::{all_passed, concluded, finding_of, CheckView, Finding, Layer};
use crate::routing::{device_command_levels, route_of, service_command_levels, RouteView};
use crate::runtime::topics_of;
use crate::samples::sample_topic;
use crate::text::{
    concat2, concat3, contains_text, decimal_text, join, join_undoes_split, joined,
    parts_are_plain, push_decimal, same_text, signed_decimal, signed_string, split_of_joined,
    split_of_plain, split_parts, text_of, texts,
};
use vstd::prelude::*;

verus! {

/// Notes whether any point showed a behaviour.
pub fn report_mode_probe(layer: &mut Layer, id: &str, name: &str, ok: bool)
    ensures
        final(layer)@ == old(layer)@.push(
            concluded(
                id@,
                name@,
                if ok {
                    Ok(None)
                } else {
                    Err(
                        "no point in the conformance config exercised this behaviour (fix the config or the connector)"@,
                    )
                },
            ),
        ),
        final(layer).name == old(layer).name,
{
    if ok {
        layer.check(id, name, Ok(None));
    } else {
        layer.check(
            id,
            name,
            Err(
                "no point in the conformance config exercised this behaviour (fix the config or the connector)".to_owned(),
            ),
        );
    }
}

/// The behaviours that readings showed.
#[derive(Clone, Copy, Debug, PartialEq, Eq, Structural)]
pub struct Tally {
    /// A value of a typed point.
    pub typed: bool,
    /// The bytes of a raw point.
    pub raw: bool,
    /// That a point could not be read.
    pub bad: bool,
}

/// The behaviours once a reading of a point was taken.
pub open spec fn tallied(t: Tally, mode: Mode, invalid: bool) -> Tally {
    if invalid {
        Tally { bad: true, ..t }
    } else if mode == Mode::Typed {
        Tally { typed: true, ..t }
    } else {
        Tally { raw: true, ..t }
    }
}

impl Tally {
    /// None.
    pub fn new() -> (r: Tally)
        ensures
            r == (Tally { typed: false, raw: false, bad: false }),
    {
        Tally { typed: false, raw: false, bad: false }
    }

    /// Notes that a reading of a point was taken.
    pub fn note(&mut self, mode: Mode, invalid: bool)
        ensures
            *final(self) == tallied(*old(self), mode, invalid),
    {
        if invalid {
            self.bad = true;
        } else if mode == Mode::Typed {
            self.typed = true;
        } else {
            self.raw = true;
        }
    }
}

/// Whether a point of that mode can be read. `invalid` says of each point whether it cannot.
pub open spec fn mode_shown(points: Seq<CheckedView>, invalid: Seq<bool>, mode: Mode) -> bool {
    exists|i: int|
        0 <= i < points.len() && i < invalid.len() && (#[trigger] points[i]).mode == mode
            && !invalid[i]
}

/// Whether a point of that mode can be read.
pub fn manifest_has_mode(points: &Vec<Point>, invalid: &Vec<bool>, mode: Mode) -> (r: bool)
    ensures
        r == mode_shown(checked_views(points@), invalid@, mode),
{
    let ghost all = checked_views(points@);
    let mut i: usize = 0;
    while i < points.len() && i < invalid.len()
        invariant
            i <= points@.len(),
            i <= invalid@.len(),
            all == checked_views(points@),
            forall|k: int| 0 <= k < i ==> !((#[trigger] all[k]).mode == mode && !invalid@[k]),
        decreases points@.len() - i,
    {
        assert(all[i as int] == points@[i as int]@);
        if points[i].mode == mode && !invalid[i] {
            return true;
        }
        i = i + 1;
    }
    false
}

/// The checks of the behaviours that readings showed: of the modes that can be shown, and of what
/// cannot be read.
pub open spec fn behaviour_checks(t: Tally, typed: bool, raw: bool) -> Seq<CheckView> {
    let unseen = Err::<Option<Seq<char>>, Seq<char>>(
        "no point in the conformance config exercised this behaviour (fix the config or the connector)"@,
    );
    let seen = Ok::<Option<Seq<char>>, Seq<char>>(None);
    let a = if typed {
        seq![
            concluded(
                "B3-typed"@,
                "a typed point yields value + datatype"@,
                if t.typed {
                    seen
                } else {
                    unseen
                },
            ),
        ]
    } else {
        Seq::empty()
    };
    let b = if raw {
        seq![
            concluded(
                "B3-raw"@,
                "a raw point yields raw only (no value)"@,
                if t.raw {
                    seen
                } else {
                    unseen
                },
            ),
        ]
    } else {
        Seq::empty()
    };
    (a + b).push(
        concluded(
            "B4-bad-quality"@,
            "a seeded read failure yields quality 'bad' with an error, not a dropped message"@,
            if t.bad {
                seen
            } else {
                unseen
            },
        ),
    )
}

/// Notes the behaviours that readings showed.
pub fn report_behaviours(layer: &mut Layer, t: &Tally, typed: bool, raw: bool)
    ensures
        final(layer)@ == old(layer)@ + behaviour_checks(*t, typed, raw),
        final(layer).name == old(layer).name,
{
    let ghost before = layer@;
    if typed {
        report_mode_probe(layer, "B3-typed", "a typed point yields value + datatype", t.typed);
    }
    if raw {
        report_mode_probe(layer, "B3-raw", "a raw point yields raw only (no value)", t.raw);
    }
    report_mode_probe(
        layer,
        "B4-bad-quality",
        "a seeded read failure yields quality 'bad' with an error, not a dropped message",
        t.bad,
    );
    assert(layer@ =~= before + behaviour_checks(*t, typed, raw));
}

/// The number of a captured reading.
pub open spec fn number_told(c: Captured) -> Option<i64> {
    match c.json {
        Some(v) => match member(v@, "seq"@) {
            Some(JsonView::Number(n)) => numeral_as_i64(n),
            _ => None,
        },
        None => None,
    }
}

/// The numbers of a connector's readings on a topic, in turn.
pub open spec fn numbers_told(
    records: Seq<Captured>,
    client: Seq<char>,
    topic: Seq<char>,
) -> Seq<i64>
    decreases records.len(),
{
    if records.len() == 0 {
        Seq::empty()
    } else {
        let head = numbers_told(records.drop_last(), client, topic);
        let c = records.last();
        if c.client@ == client && c.topic@ == topic {
            match number_told(c) {
                Some(n) => head.push(n),
                None => head,
            }
        } else {
            head
        }
    }
}

fn number_of(c: &Captured) -> (r: Option<i64>)
    ensures
        r == number_told(*c),
{
    match &c.json {
        Some(v) => match v.get("seq") {
            Some(n) => {
                proof {
                    n.lemma_view();
                }
                match n {
                    Json::Number(x) => x.as_i64(),
                    _ => None,
                }
            },
            None => None,
        },
        None => None,
    }
}

/// The numbers of a connector's readings on a topic, in turn.
pub fn numbers_of(records: &Vec<Captured>, client: &str, topic: &str) -> (r: Vec<i64>)
    ensures
        r@ == numbers_told(records@, client@, topic@),
{
    let mut out: Vec<i64> = Vec::new();
    let mut i: usize = 0;
    assert(records@.take(0) =~= Seq::<Captured>::empty());
    while i < records.len()
        invariant
            i <= records@.len(),
            out@ == numbers_told(records@.take(i as int), client@, topic@),
        decreases records@.len() - i,
    {
        assert(records@.take(i + 1).drop_last() =~= records@.take(i as int));
        assert(records@.take(i + 1).last() == records@[i as int]);
        if same_text(records[i].client.as_str(), client) && same_text(
            records[i].topic.as_str(),
            topic,
        ) {
            if let Some(n) = number_of(&records[i]) {
                out.push(n);
            }
        }
        i = i + 1;
    }
    assert(records@.take(records@.len() as int) =~= records@);
    out
}

/// Each number is greater than the one before it.
pub open spec fn increasing(s: Seq<i64>) -> bool {
    forall|i: int, j: int| 0 <= i < j < s.len() ==> #[trigger] s[i] < #[trigger] s[j]
}

fn is_increasing(v: &Vec<i64>) -> (r: bool)
    ensures
        r == increasing(v@),
{
    let mut i: usize = 1;
    while i < v.len()
        invariant
            1 <= i,
            v@.len() > 0 ==> i <= v@.len(),
            forall|a: int, b: int|
                0 <= a < b < i && b < v@.len() ==> #[trigger] v@[a] < #[trigger] v@[b],
        decreases v@.len() - i,
    {
        if v[i] <= v[i - 1] {
            assert(!(v@[i - 1] < v@[i as int]));
            return false;
        }
        assert forall|a: int, b: int| 0 <= a < b < i + 1 && b < v@.len() implies #[trigger] v@[a]
            < #[trigger] v@[b] by {
            if b == i && a < i - 1 {
                assert(v@[a] < v@[i - 1]);
            }
        }
        i = i + 1;
    }
    true
}

/// Numbers as a report shows them, one behind another.
pub open spec fn number_list(s: Seq<i64>) -> Seq<char>
    decreases s.len(),
{
    if s.len() == 0 {
        Seq::empty()
    } else if s.len() == 1 {
        signed_decimal(s[0] as int)
    } else {
        number_list(s.drop_last()) + ", "@ + signed_decimal(s.last() as int)
    }
}

fn show_numbers(v: &Vec<i64>) -> (r: String)
    ensures
        r@ == "["@ + number_list(v@) + "]"@,
{
    let mut out: String = String::new();
    let mut i: usize = 0;
    assert(v@.take(0) =~= Seq::<i64>::empty());
    while i < v.len()
        invariant
            i <= v@.len(),
            out@ == number_list(v@.take(i as int)),
        decreases v@.len() - i,
    {
        assert(v@.take(i + 1).drop_last() =~= v@.take(i as int));
        assert(v@.take(i + 1).last() == v@[i as int]);
        let t: String = signed_string(v[i]);
        if i > 0 {
            out.append(", ");
            out.append(t.as_str());
        } else {
            assert(v@.take(1)[0] == v@[0]);
            out = t;
        }
        i = i + 1;
    }
    assert(v@.take(v@.len() as int) =~= v@);
    concat3("[", out.as_str(), "]")
}

/// What the numbers of a point's readings show: at least three, each greater than the last.
pub open spec fn numbers_finding(id: Seq<char>, seen: nat, numbers: Seq<i64>) -> Result<
    Option<Seq<char>>,
    Seq<char>,
> {
    let shown = "["@ + number_list(numbers) + "]"@;
    if seen < 3 {
        Err("only "@ + decimal_text(seen) + " samples of '"@ + id + "' observed"@)
    } else if numbers.len() >= 3 && increasing(numbers) {
        Ok(Some("observed "@ + shown))
    } else {
        Err("observed seq values "@ + shown)
    }
}

/// What the numbers of a point's readings show. `seen` is how many readings came.
pub fn check_b2_seq_monotonic(id: &str, seen: usize, numbers: &Vec<i64>) -> (r: Finding)
    ensures
        finding_of(r) == numbers_finding(id@, seen as nat, numbers@),
{
    if seen < 3 {
        let mut out: String = "only ".to_owned();
        push_decimal(&mut out, seen as u64);
        out.append(" samples of '");
        out.append(id);
        out.append("' observed");
        return Err(out);
    }
    let shown: String = show_numbers(numbers);
    if numbers.len() >= 3 && is_increasing(numbers) {
        Ok(Some(concat2("observed ", shown.as_str())))
    } else {
        Err(concat2("observed seq values ", shown.as_str()))
    }
}

/// A point that a write can be made to and read back.
pub open spec fn writable_point(p: CheckedView) -> bool {
    p.access.writable() && p.mode == Mode::Typed && p.bitfield is None
}

/// Whether a write can be made to a point and read back.
pub fn is_writable(p: &Point) -> (r: bool)
    ensures
        r == writable_point(p@),
{
    p.access.can_write() && p.mode == Mode::Typed && p.bitfield.is_none()
}

/// What a device holds after a write, as far as it can be told.
pub enum Held {
    /// Why the device could not be asked.
    Unknown(String),
    /// Why what it holds could not be read.
    Unreadable(String),
    /// What it holds, and whether that agrees with what it has to hold.
    Value(Json, bool),
}

/// What came of a write: what the connector told, and what the device shows.
pub struct WriteEvidence {
    /// What the result echoes, what was asked for, and whether they agree.
    pub echoed: Json,
    pub requested: Json,
    pub echo_agrees: bool,
    /// How many writes the device saw, or why that cannot be told.
    pub writes: Result<u64, String>,
    /// What the device holds, and what it has to hold.
    pub held: Held,
    pub wanted: Json,
}

/// What a write that the connector calls successful shows.
pub open spec fn write_finding(w: WriteEvidence) -> Result<Option<Seq<char>>, Seq<char>> {
    if !w.echo_agrees {
        Err(
            "the result echoes "@ + printed(w.echoed@) + ", expected the requested "@ + printed(
                w.requested@,
            ),
        )
    } else {
        match w.writes {
            Err(e) => Err(e@),
            Ok(n) => if n == 0 {
                Err("connector reported success but the simulator saw no write"@)
            } else {
                match w.held {
                    Held::Unknown(e) => Err("simulator: "@ + e@),
                    Held::Unreadable(e) => Err(e@),
                    Held::Value(held, agrees) => if agrees {
                        Ok(None)
                    } else {
                        Err(
                            "simulator holds "@ + printed(held@) + " after the write, expected "@
                                + printed(w.wanted@),
                        )
                    },
                }
            },
        }
    }
}

/// What a write that the connector calls successful shows. What is wrong is looked for in what was
/// told first, then in what the device saw, then in what it holds.
pub fn check_write(w: &WriteEvidence) -> (r: Finding)
    ensures
        finding_of(r) == write_finding(*w),
{
    if !w.echo_agrees {
        let a: String = w.echoed.print();
        let b: String = w.requested.print();
        let mut out: String = concat3(
            "the result echoes ",
            a.as_str(),
            ", expected the requested ",
        );
        out.append(b.as_str());
        return Err(out);
    }
    match &w.writes {
        Err(e) => {
            return Err(e.clone());
        },
        Ok(n) => {
            if *n == 0 {
                return Err("connector reported success but the simulator saw no write".to_owned());
            }
        },
    }
    match &w.held {
        Held::Unknown(e) => Err(concat2("simulator: ", e.as_str())),
        Held::Unreadable(e) => Err(e.clone()),
        Held::Value(held, agrees) => {
            if *agrees {
                return Ok(None);
            }
            let a: String = held.print();
            let b: String = w.wanted.print();
            let mut out: String = concat3(
                "simulator holds ",
                a.as_str(),
                " after the write, expected ",
            );
            out.append(b.as_str());
            Err(out)
        },
    }
}

/// A point whose writes are scaled. `scaled` says whether its transform changes values.
pub open spec fn scaled_write(p: CheckedView, scaled: bool) -> bool {
    writable_point(p) && scaled && p.datatype is Some && p.datatype != Some(DataType::Bytes)
}

/// Whether any point's writes are scaled.
pub open spec fn any_scaled_write(points: Seq<CheckedView>, scaled: Seq<bool>) -> bool {
    exists|i: int|
        0 <= i < points.len() && i < scaled.len() && scaled_write(#[trigger] points[i], scaled[i])
}

/// Whether any point's writes are scaled.
pub fn covers_scaled_writes(points: &Vec<Point>, scaled: &Vec<bool>) -> (r: bool)
    ensures
        r == any_scaled_write(checked_views(points@), scaled@),
{
    let ghost all = checked_views(points@);
    let mut i: usize = 0;
    while i < points.len() && i < scaled.len()
        invariant
            i <= points@.len(),
            i <= scaled@.len(),
            all == checked_views(points@),
            forall|k: int| 0 <= k < i ==> !scaled_write(#[trigger] all[k], scaled@[k]),
        decreases points@.len() - i,
    {
        assert(all[i as int] == points@[i as int]@);
        let plain: bool = match points[i].datatype {
            Some(DataType::Bytes) => false,
            Some(_) => true,
            None => false,
        };
        if is_writable(&points[i]) && scaled[i] && plain {
            return true;
        }
        i = i + 1;
    }
    false
}

/// Notes whether a scaled write was made at all: without one, a connector that does not scale
/// its writes would pass.
pub fn report_scaled_writes(layer: &mut Layer, covered: bool)
    ensures
        final(layer)@ == old(layer)@.push(
            concluded(
                "B6-write-transformed"@,
                "a writable point with a transform is round-tripped in engineering units"@,
                if covered {
                    Ok(None)
                } else {
                    Err(
                        "the conformance config declares no point that is both writable and transformed, so a write encoded in wire units instead of engineering units would pass (\u{a7}4.2)"@,
                    )
                },
            ),
        ),
        final(layer).name == old(layer).name,
{
    if covered {
        layer.check(
            "B6-write-transformed",
            "a writable point with a transform is round-tripped in engineering units",
            Ok(None),
        );
    } else {
        layer.check(
            "B6-write-transformed",
            "a writable point with a transform is round-tripped in engineering units",
            Err(
                "the conformance config declares no point that is both writable and transformed, so a write encoded in wire units instead of engineering units would pass (\u{a7}4.2)".to_owned(),
            ),
        );
    }
}

/// What is told of writes that a device saw though they were refused.
pub open spec fn seen_writes(before: u64, after: u64, despite: Seq<char>) -> Seq<char> {
    "the simulator observed "@ + signed_decimal(after - before) + " write(s) despite the "@
        + despite
}

fn tell_writes(before: u64, after: u64, despite: &str) -> (r: String)
    ensures
        r@ == seen_writes(before, after, despite@),
{
    let mut out: String = "the simulator observed ".to_owned();
    if after >= before {
        push_decimal(&mut out, after - before);
    } else {
        out.append("-");
        push_decimal(&mut out, before - after);
    }
    out.append(" write(s) despite the ");
    out.append(despite);
    assert(out@ =~= seen_writes(before, after, despite@));
    out
}

/// A count, or why there is none.
pub open spec fn count_view(n: Result<u64, String>) -> Result<u64, Seq<char>> {
    match n {
        Ok(n) => Ok(n),
        Err(e) => Err(e@),
    }
}

/// What the device shows of a write that was refused: it saw none.
pub open spec fn unseen_finding(
    before: u64,
    after: Result<u64, Seq<char>>,
    despite: Seq<char>,
) -> Result<Option<Seq<char>>, Seq<char>> {
    match after {
        Err(e) => Err(e),
        Ok(n) => if n != before {
            Err(seen_writes(before, n, despite))
        } else {
            Ok(None)
        },
    }
}

fn check_unseen(before: u64, after: Result<u64, String>, despite: &str) -> (r: Finding)
    ensures
        finding_of(r) == unseen_finding(before, count_view(after), despite@),
{
    match after {
        Err(e) => Err(e),
        Ok(n) => if n != before {
            Err(tell_writes(before, n, despite))
        } else {
            Ok(None)
        },
    }
}

/// What a refused write to a point that may only be read shows: it is told why, and the device
/// never saw it.
pub open spec fn denial_finding(
    answer: JsonView,
    before: u64,
    after: Result<u64, Seq<char>>,
) -> Result<Option<Seq<char>>, Seq<char>> {
    if match text_member(answer, "reason"@) {
        Some(r) => r.len() == 0,
        None => true,
    } {
        Err("failed status must carry a non-empty 'reason'"@)
    } else {
        unseen_finding(before, after, "denial"@)
    }
}

/// What a refused write to a point that may only be read shows. `before` and `after` are how many
/// writes the device saw, the latter where that can be told.
pub fn check_b7_access_control(answer: &Json, before: u64, after: Result<u64, String>) -> (r:
    Finding)
    ensures
        finding_of(r) == denial_finding(answer@, before, count_view(after)),
{
    let silent: bool = match answer.get_str("reason") {
        Some(t) => t.is_empty(),
        None => true,
    };
    if silent {
        return Err("failed status must carry a non-empty 'reason'".to_owned());
    }
    check_unseen(before, after, "denial")
}

/// What a write outside of a point's range shows: it is refused for the range, and the device
/// never saw it.
pub open spec fn range_finding(
    answer: JsonView,
    before: u64,
    after: Result<u64, Seq<char>>,
) -> Result<Option<Seq<char>>, Seq<char>> {
    let reason = match text_member(answer, "reason"@) {
        Some(r) => r,
        None => Seq::empty(),
    };
    if !contains_part(reason, "range"@) {
        Err(
            "the failure reason must name the range that rejected the write, got "@
                + crate::inspect::quoted(reason),
        )
    } else {
        unseen_finding(before, after, "range check"@)
    }
}

/// What a write outside of a point's range shows.
pub fn check_b7_range(answer: &Json, before: u64, after: Result<u64, String>) -> (r:
    Finding)
    ensures
        finding_of(r) == range_finding(answer@, before, count_view(after)),
{
    let reason: String = match answer.get_str("reason") {
        Some(t) => t.to_owned(),
        None => String::new(),
    };
    if !has_part(reason.as_str(), "range") {
        let q: String = crate::inspect::quote(reason.as_str());
        return Err(
            concat2(
                "the failure reason must name the range that rejected the write, got ",
                q.as_str(),
            ),
        );
    }
    check_unseen(before, after, "range check")
}

/// The first item with that id.
pub open spec fn item_of_id(items: Seq<JsonView>, id: Seq<char>) -> Option<JsonView>
    decreases items.len(),
{
    if items.len() == 0 {
        None
    } else if text_member(items[0], "id"@) == Some(id) {
        Some(items[0])
    } else {
        item_of_id(items.drop_first(), id)
    }
}

/// A device with a point more, which is another one under a new id.
pub open spec fn mirrored(device: JsonView, template: Seq<char>, id: Seq<char>) -> Result<
    JsonView,
    Seq<char>,
> {
    match device {
        JsonView::Object(f) => match field(f, "point"@) {
            Some(JsonView::Array(points)) => match item_of_id(points, template) {
                Some(JsonView::Object(p)) => Ok(
                    JsonView::Object(
                        with_field(
                            f,
                            "point"@,
                            JsonView::Array(
                                points.push(
                                    JsonView::Object(
                                        with_field(p, "id"@, JsonView::Text(id)),
                                    ),
                                ),
                            ),
                        ),
                    ),
                ),
                _ => Err("template point not found in config"@),
            },
            _ => Err("device has no points array"@),
        },
        _ => Err("device has no points array"@),
    }
}

/// A device with a point more, which is another one under a new id.
pub fn mirror_point(device: &Json, template: &str, id: &str) -> (r: Result<Json, String>)
    ensures
        match r {
            Ok(j) => mirrored(device@, template@, id@) == Ok::<JsonView, Seq<char>>(j@),
            Err(e) => mirrored(device@, template@, id@) == Err::<JsonView, Seq<char>>(e@),
        },
{
    let obj: &JsonObject = match device.as_object() {
        Some(o) => o,
        None => {
            return Err("device has no points array".to_owned());
        },
    };
    let points: &Vec<Json> = match obj.get("point") {
        Some(p) => match p.as_array() {
            Some(a) => a,
            None => {
                return Err("device has no points array".to_owned());
            },
        },
        None => {
            return Err("device has no points array".to_owned());
        },
    };
    let ghost all = views(points@);
    let mut i: usize = 0;
    let mut found: Option<usize> = None;
    assert(all.skip(0) =~= all);
    while i < points.len() && found.is_none()
        invariant
            i <= points@.len(),
            all == views(points@),
            match found {
                Some(k) => k < points@.len() && item_of_id(all, template@) == Some(all[k as int]),
                None => item_of_id(all, template@) == item_of_id(all.skip(i as int), template@),
            },
        decreases points@.len() - i + if found is None {
            1int
        } else {
            0int
        },
    {
        let ghost rest = all.skip(i as int);
        assert(rest[0] == points@[i as int]@);
        assert(rest.drop_first() =~= all.skip(i + 1));
        let here: bool = match points[i].get_str("id") {
            Some(s) => same_text(s, template),
            None => false,
        };
        if here {
            found = Some(i);
        } else {
            i = i + 1;
        }
    }
    let k: usize = match found {
        Some(k) => k,
        None => {
            assert(all.skip(all.len() as int) =~= Seq::<JsonView>::empty());
            return Err("template point not found in config".to_owned());
        },
    };
    let source: &JsonObject = match points[k].as_object() {
        Some(o) => o,
        None => {
            return Err("template point not found in config".to_owned());
        },
    };
    let mut copy: JsonObject = source.clone();
    copy.insert("id", Json::text(id));
    let mut items: Vec<Json> = Vec::new();
    let mut j: usize = 0;
    while j < points.len()
        invariant
            j <= points@.len(),
            items@.len() == j,
            forall|x: int| 0 <= x < j ==> (#[trigger] items@[x])@ == points@[x]@,
        decreases points@.len() - j,
    {
        items.push(points[j].clone());
        j = j + 1;
    }
    let added: Json = Json::of_object(copy);
    items.push(added);
    assert(views(items@) =~= all.push(added@));
    let mut out: JsonObject = obj.clone();
    out.insert("point", Json::of_items(items));
    Ok(Json::of_object(out))
}

/// A point that is read as a value; and only read, where that is asked for.
pub open spec fn readable(p: CheckedView, invalid: bool, read_only: bool) -> bool {
    p.mode == Mode::Typed && !invalid && (read_only ==> p.access == Access::Read)
}

/// The first point that is read as a value; and only read, where that is asked for.
pub open spec fn is_first_readable(
    points: Seq<Point>,
    invalid: Seq<bool>,
    read_only: bool,
    r: Option<usize>,
) -> bool {
    match r {
        Some(i) => i < points.len() && readable(points[i as int]@, invalid[i as int], read_only)
            && forall|k: int| 0 <= k < i ==> !readable((#[trigger] points[k])@, invalid[k], read_only),
        None => forall|k: int|
            0 <= k < points.len() ==> !readable((#[trigger] points[k])@, invalid[k], read_only),
    }
}

/// The first point that is read as a value; and only read, where that is asked for. `invalid` says
/// of each point whether it cannot be read.
pub fn readable_point(points: &Vec<Point>, invalid: &Vec<bool>, read_only: bool) -> (r: Option<
    usize,
>)
    requires
        points@.len() == invalid@.len(),
    ensures
        is_first_readable(points@, invalid@, read_only, r),
{
    let mut i: usize = 0;
    while i < points.len()
        invariant
            i <= points@.len() == invalid@.len(),
            forall|k: int|
                0 <= k < i ==> !readable((#[trigger] points@[k])@, invalid@[k], read_only),
        decreases points@.len() - i,
    {
        if points[i].mode == Mode::Typed && !invalid[i] && (!read_only || points[i].access
            == Access::Read) {
            return Some(i);
        }
        i = i + 1;
    }
    None
}

/// The first point that can be written and has a range.
pub open spec fn is_first_bounded(points: Seq<Point>, r: Option<usize>) -> bool {
    match r {
        Some(i) => i < points.len() && writable_point(points[i as int]@)
            && points[i as int]@.range is Some && forall|k: int|
            0 <= k < i ==> !(writable_point((#[trigger] points[k])@) && points[k]@.range is Some),
        None => forall|k: int|
            0 <= k < points.len() ==> !(writable_point((#[trigger] points[k])@)
                && points[k]@.range is Some),
    }
}

/// The first point that can be written and has a range.
pub fn bounded_point(points: &Vec<Point>) -> (r: Option<usize>)
    ensures
        is_first_bounded(points@, r),
{
    let mut i: usize = 0;
    while i < points.len()
        invariant
            i <= points@.len(),
            forall|k: int|
                0 <= k < i ==> !(writable_point((#[trigger] points@[k])@)
                    && points@[k]@.range is Some),
        decreases points@.len() - i,
    {
        if is_writable(&points[i]) && points[i].range.is_some() {
            return Some(i);
        }
        i = i + 1;
    }
    None
}

/// The devices of points, each once, in the order of their names.
pub fn devices_of(points: &Vec<Point>) -> (r: Vec<String>)
    ensures
        texts(r@) == set_of(checked_views(points@).map_values(|p: CheckedView| p.device)),
{
    let mut names: Vec<String> = Vec::new();
    let mut i: usize = 0;
    while i < points.len()
        invariant
            i <= points@.len(),
            names@.len() == i,
            forall|k: int| 0 <= k < i ==> (#[trigger] names@[k])@ == points@[k].device@,
        decreases points@.len() - i,
    {
        names.push(points[i].device.clone());
        i = i + 1;
    }
    assert(texts(names@) =~= checked_views(points@).map_values(|p: CheckedView| p.device));
    sorted_set(&names)
}

/// The id of the point that is added to a running connector.
pub const NEW_POINT: &'static str = "b8-hot-reload";

/// A point that another can be made like: one that is read as a value, whole.
pub open spec fn mirrors(p: CheckedView, invalid: bool) -> bool {
    p.mode == Mode::Typed && !invalid && p.bitfield is None
}

/// The first point that another can be made like.
pub open spec fn is_first_mirror(points: Seq<Point>, invalid: Seq<bool>, r: Option<usize>) -> bool {
    match r {
        Some(i) => i < points.len() && mirrors(points[i as int]@, invalid[i as int]) && forall|
            k: int,
        |
            0 <= k < i ==> !mirrors((#[trigger] points[k])@, invalid[k]),
        None => forall|k: int|
            0 <= k < points.len() ==> !mirrors((#[trigger] points[k])@, invalid[k]),
    }
}

/// The first point that another can be made like.
pub fn point_to_mirror(points: &Vec<Point>, invalid: &Vec<bool>) -> (r: Option<usize>)
    requires
        points@.len() == invalid@.len(),
    ensures
        is_first_mirror(points@, invalid@, r),
{
    let mut i: usize = 0;
    while i < points.len()
        invariant
            i <= points@.len() == invalid@.len(),
            forall|k: int| 0 <= k < i ==> !mirrors((#[trigger] points@[k])@, invalid@[k]),
        decreases points@.len() - i,
    {
        if points[i].mode == Mode::Typed && !invalid[i] && points[i].bitfield.is_none() {
            return Some(i);
        }
        i = i + 1;
    }
    None
}

/// The topic and the payload of the request to take a device over as it is given.
pub fn define_device_request(service: &str, device: Json) -> (r: (String, Json))
    ensures
        r.0@ == "te/device/main/service/"@ + service@ + "/ot/cmd/define-device/conf-b8"@,
        r.1@ == JsonView::Object(
            with_field(
                with_field(Fields::empty(), "status"@, JsonView::Text("init"@)),
                "device"@,
                device@,
            ),
        ),
{
    let mut obj = JsonObject::new();
    obj.insert("status", Json::text("init"));
    obj.insert("device", device);
    (
        concat3("te/device/main/service/", service, "/ot/cmd/define-device/conf-b8"),
        Json::of_object(obj),
    )
}

/// What the first reading of an added point shows.
pub open spec fn hot_reload_finding(reading: JsonView) -> Result<Option<Seq<char>>, Seq<char>> {
    if text_member(reading, "quality"@) == Some("good"@) {
        Ok(Some("point '"@ + NEW_POINT@ + "' live after define-device"@))
    } else {
        Err(
            "new point published quality "@ + shown_value(
                match member(reading, "quality"@) {
                    Some(v) => v,
                    None => JsonView::Null,
                },
            ),
        )
    }
}

/// What the first reading of an added point shows.
pub fn check_b8_hot_reload(reading: &Json) -> (r: Finding)
    ensures
        finding_of(r) == hot_reload_finding(reading@),
{
    let good: bool = match reading.get_str("quality") {
        Some(s) => same_text(s, "good"),
        None => false,
    };
    if good {
        return Ok(Some(concat3("point '", NEW_POINT, "' live after define-device")));
    }
    let shown: String = match reading.get("quality") {
        Some(v) => show_value(v),
        None => show_value(&Json::null()),
    };
    Err(concat2("new point published quality ", shown.as_str()))
}

/// What a link status that was waited for shows.
pub open spec fn link_finding(c: Captured) -> Option<Seq<char>> {
    match told(c, "status"@) {
        Some(s) => Some("observed '"@ + s + "'"@),
        None => None,
    }
}

/// What a link status that was waited for shows, or that none came.
pub fn check_link_transition(awaited: Result<Captured, String>) -> (r: Finding)
    ensures
        finding_of(r) == match awaited {
            Ok(c) => Ok(link_finding(c)),
            Err(e) => Err(e@),
        },
{
    match awaited {
        Ok(c) => match &c.json {
            Some(v) => match v.get_str("status") {
                Some(s) => Ok(Some(concat3("observed '", s, "'"))),
                None => Ok(None),
            },
            None => Ok(None),
        },
        Err(e) => Err(e),
    }
}

/// What a reading shows that the connector does not claim to do.
pub open spec fn unclaimed(c: Captured, modes: Seq<Seq<char>>, datatypes: Seq<Seq<char>>) -> Seq<
    Seq<char>,
> {
    let a = match told(c, "mode"@) {
        Some(m) => if modes.contains(m) {
            Seq::empty()
        } else {
            seq!["sample on '"@ + c.topic@ + "' uses unadvertised mode '"@ + m + "'"@]
        },
        None => Seq::empty(),
    };
    let b = match told(c, "datatype"@) {
        Some(d) => if datatypes.contains(d) {
            Seq::empty()
        } else {
            seq!["sample on '"@ + c.topic@ + "' uses unadvertised datatype '"@ + d + "'"@]
        },
        None => Seq::empty(),
    };
    a + b
}

/// What a connector's readings show that it does not claim to do.
pub open spec fn dishonesty(
    records: Seq<Captured>,
    client: Seq<char>,
    modes: Seq<Seq<char>>,
    datatypes: Seq<Seq<char>>,
) -> Seq<Seq<char>>
    decreases records.len(),
{
    if records.len() == 0 {
        Seq::empty()
    } else {
        let head = dishonesty(records.drop_last(), client, modes, datatypes);
        let c = records.last();
        if c.client@ == client && is_sample_topic(c.topic@) {
            head + unclaimed(c, modes, datatypes)
        } else {
            head
        }
    }
}

fn told_text<'a>(c: &'a Captured, key: &str) -> (r: Option<&'a str>)
    ensures
        crate::text::str_of(r) == told(*c, key@),
{
    match &c.json {
        Some(v) => v.get_str(key),
        None => None,
    }
}

fn note_unclaimed(
    errors: &mut Vec<String>,
    c: &Captured,
    modes: &Vec<String>,
    datatypes: &Vec<String>,
)
    ensures
        texts(final(errors)@) == texts(old(errors)@) + unclaimed(
            *c,
            texts(modes@),
            texts(datatypes@),
        ),
{
    let ghost before = texts(errors@);
    if let Some(m) = told_text(c, "mode") {
        if !contains_text(modes, m) {
            let mut t: String = concat3("sample on '", c.topic.as_str(), "' uses unadvertised mode '");
            t.append(m);
            t.append("'");
            errors.push(t);
            assert(texts(errors@) =~= before.push(t@));
        }
    }
    let ghost between = texts(errors@);
    if let Some(d) = told_text(c, "datatype") {
        if !contains_text(datatypes, d) {
            let mut t: String = concat3(
                "sample on '",
                c.topic.as_str(),
                "' uses unadvertised datatype '",
            );
            t.append(d);
            t.append("'");
            errors.push(t);
            assert(texts(errors@) =~= between.push(t@));
        }
    }
    assert(texts(errors@) =~= before + unclaimed(*c, texts(modes@), texts(datatypes@)));
}

/// The first five of what is wrong.
pub open spec fn at_most_five(s: Seq<Seq<char>>) -> Seq<Seq<char>> {
    if s.len() > 5 {
        s.take(5)
    } else {
        s
    }
}

fn keep_five(v: Vec<String>) -> (r: Vec<String>)
    ensures
        texts(r@) == at_most_five(texts(v@)),
{
    let mut out: Vec<String> = Vec::new();
    let mut i: usize = 0;
    while i < v.len() && i < 5
        invariant
            i <= v@.len(),
            i <= 5,
            out@.len() == i,
            forall|k: int| 0 <= k < i ==> (#[trigger] out@[k])@ == v@[k]@,
        decreases v@.len() - i,
    {
        out.push(v[i].clone());
        i = i + 1;
    }
    assert(texts(out@) =~= at_most_five(texts(v@)));
    out
}

/// Whether a connector did only what it claims to do.
pub open spec fn honesty_finding(records: Seq<Captured>, client: Seq<char>, caps: JsonView) -> Result<
    Option<Seq<char>>,
    Seq<char>,
> {
    let found = at_most_five(
        dishonesty(records, client, listed(caps, "modes"@), listed(caps, "datatypes"@)),
    );
    if found.len() == 0 {
        Ok(None)
    } else {
        Err(joined(found, "\n"@))
    }
}

/// Whether a connector did only what it claims to do.
pub fn check_b9_capability_honesty(records: &Vec<Captured>, client: &str, caps: &Json) -> (r:
    Finding)
    ensures
        finding_of(r) == honesty_finding(records@, client@, caps@),
{
    let modes: Vec<String> = list_under(caps, "modes");
    let datatypes: Vec<String> = list_under(caps, "datatypes");
    let mut errors: Vec<String> = Vec::new();
    let mut i: usize = 0;
    assert(records@.take(0) =~= Seq::<Captured>::empty());
    assert(texts(errors@) =~= Seq::<Seq<char>>::empty());
    while i < records.len()
        invariant
            i <= records@.len(),
            texts(errors@) == dishonesty(
                records@.take(i as int),
                client@,
                texts(modes@),
                texts(datatypes@),
            ),
        decreases records@.len() - i,
    {
        assert(records@.take(i + 1).drop_last() =~= records@.take(i as int));
        assert(records@.take(i + 1).last() == records@[i as int]);
        if same_text(records[i].client.as_str(), client) && has_part(
            records[i].topic.as_str(),
            "/sample/",
        ) {
            note_unclaimed(&mut errors, &records[i], &modes, &datatypes);
        }
        i = i + 1;
    }
    assert(records@.take(records@.len() as int) =~= records@);
    let found: Vec<String> = keep_five(errors);
    assert(texts(found@).len() == found@.len());
    if found.len() == 0 {
        Ok(None)
    } else {
        Err(join(&found, "\n"))
    }
}

/// Whether a topic matches one of filters.
pub open spec fn matches_any(filters: Seq<Seq<char>>, topic: Seq<char>) -> bool {
    exists|i: int| 0 <= i < filters.len() && matches_filter(#[trigger] filters[i], topic)
}

/// Whether a topic matches one of filters.
pub fn matches_one(filters: &Vec<String>, topic: &str) -> (r: bool)
    ensures
        r == matches_any(texts(filters@), topic@),
{
    let ghost all = texts(filters@);
    let mut i: usize = 0;
    while i < filters.len()
        invariant
            i <= filters@.len(),
            all == texts(filters@),
            forall|k: int| 0 <= k < i ==> !matches_filter(#[trigger] all[k], topic@),
        decreases filters@.len() - i,
    {
        assert(all[i as int] == filters@[i as int]@);
        if topic_matches(filters[i].as_str(), topic) {
            return true;
        }
        i = i + 1;
    }
    false
}

/// The topics that a connector may publish on.
pub open spec fn allowed_filters(service: Seq<char>, protocol: Seq<char>) -> Seq<Seq<char>> {
    seq![
        "te/device/main/service/"@ + service + "/status/health"@,
        "te/device/main/service/"@ + service + "/ot/capabilities"@,
        "te/device/+/ot/"@ + protocol + "/manifest"@,
        "te/device/+/ot/"@ + protocol + "/status/link"@,
        "te/device/+/ot/"@ + protocol + "/sample/+"@,
        "te/device/+/ot/"@ + protocol + "/cmd/+/+"@,
        "te/device/main/service/"@ + service + "/ot/cmd/+/+"@,
    ]
}

/// The topics that a connector may publish on.
pub fn allowed_topics(service: &str, protocol: &str) -> (r: Vec<String>)
    ensures
        texts(r@) == allowed_filters(service@, protocol@),
{
    let out: Vec<String> = vec![
        concat3("te/device/main/service/", service, "/status/health"),
        concat3("te/device/main/service/", service, "/ot/capabilities"),
        concat3("te/device/+/ot/", protocol, "/manifest"),
        concat3("te/device/+/ot/", protocol, "/status/link"),
        concat3("te/device/+/ot/", protocol, "/sample/+"),
        concat3("te/device/+/ot/", protocol, "/cmd/+/+"),
        concat3("te/device/main/service/", service, "/ot/cmd/+/+"),
    ];
    assert(texts(out@) =~= allowed_filters(service@, protocol@));
    out
}

proof fn device_topics_match(
    protocol: Seq<char>,
    device: Seq<char>,
    rest_filter: Seq<char>,
    rest: Seq<char>,
)
    requires
        !device.contains('/'),
        matches_filter(rest_filter, rest),
    ensures
        matches_filter(
            "te/device/+/ot/"@ + protocol + "/"@ + rest_filter,
            "te/device/"@ + device + "/ot/"@ + protocol + "/"@ + rest,
        ),
{
    reveal_strlit("te/device");
    reveal_strlit("te/device/");
    reveal_strlit("te/device/+/ot/");
    reveal_strlit("+");
    reveal_strlit("ot/");
    reveal_strlit("/ot/");
    reveal_strlit("/");
    topics_match_themselves(split_parts("te/device"@, '/'));
    plus_matches_one_level(device);
    filters_match_in_parts("te/device"@, "te/device"@, "+"@, device);
    let f = "te/device"@ + seq!['/'] + "+"@;
    let t = "te/device"@ + seq!['/'] + device;
    let own = "ot/"@ + protocol;
    topics_match_themselves(split_parts(own, '/'));
    filters_match_in_parts(f, t, own, own);
    let f = f + seq!['/'] + own;
    let t = t + seq!['/'] + own;
    filters_match_in_parts(f, t, rest_filter, rest);
    assert(f + seq!['/'] + rest_filter =~= "te/device/+/ot/"@ + protocol + "/"@ + rest_filter);
    assert(t + seq!['/'] + rest =~= "te/device/"@ + device + "/ot/"@ + protocol + "/"@ + rest);
}

/// Every topic that a connector publishes on by itself is one that it may publish on.
pub proof fn published_topics_are_allowed(
    service: Seq<char>,
    protocol: Seq<char>,
    device: Seq<char>,
    point: Seq<char>,
)
    requires
        !device.contains('/'),
        !point.contains('/'),
    ensures
        matches_any(allowed_filters(service, protocol), topics_of(service, protocol).health),
        matches_any(allowed_filters(service, protocol), topics_of(service, protocol).capabilities),
        matches_any(allowed_filters(service, protocol), manifest_topic(device, protocol)),
        matches_any(allowed_filters(service, protocol), link_topic(device, protocol)),
        matches_any(allowed_filters(service, protocol), sample_topic(device, protocol, point)),
{
    let filters = allowed_filters(service, protocol);
    let topics = topics_of(service, protocol);
    topics_match_themselves(split_parts(topics.health, '/'));
    assert(matches_filter(filters[0], topics.health));
    topics_match_themselves(split_parts(topics.capabilities, '/'));
    assert(matches_filter(filters[1], topics.capabilities));
    reveal_strlit("/");
    reveal_strlit("+");
    reveal_strlit("manifest");
    reveal_strlit("/manifest");
    topics_match_themselves(split_parts("manifest"@, '/'));
    device_topics_match(protocol, device, "manifest"@, "manifest"@);
    assert(filters[2] =~= "te/device/+/ot/"@ + protocol + "/"@ + "manifest"@);
    assert(manifest_topic(device, protocol) =~= "te/device/"@ + device + "/ot/"@ + protocol + "/"@
        + "manifest"@);
    assert(matches_filter(filters[2], manifest_topic(device, protocol)));
    reveal_strlit("status/link");
    reveal_strlit("/status/link");
    topics_match_themselves(split_parts("status/link"@, '/'));
    device_topics_match(protocol, device, "status/link"@, "status/link"@);
    assert(filters[3] =~= "te/device/+/ot/"@ + protocol + "/"@ + "status/link"@);
    assert(link_topic(device, protocol) =~= "te/device/"@ + device + "/ot/"@ + protocol + "/"@
        + "status/link"@);
    assert(matches_filter(filters[3], link_topic(device, protocol)));
    reveal_strlit("sample");
    reveal_strlit("/sample/");
    reveal_strlit("/sample/+");
    topics_match_themselves(split_parts("sample"@, '/'));
    plus_matches_one_level(point);
    filters_match_in_parts("sample"@, "sample"@, "+"@, point);
    let rest_filter = "sample"@ + seq!['/'] + "+"@;
    let rest = "sample"@ + seq!['/'] + point;
    device_topics_match(protocol, device, rest_filter, rest);
    assert(filters[4] =~= "te/device/+/ot/"@ + protocol + "/"@ + rest_filter);
    assert(sample_topic(device, protocol, point) =~= "te/device/"@ + device + "/ot/"@ + protocol
        + "/"@ + rest);
    assert(matches_filter(filters[4], sample_topic(device, protocol, point)));
}

proof fn command_levels_match(verb: Seq<char>, id: Seq<char>)
    requires
        !verb.contains('/'),
        !id.contains('/'),
    ensures
        matches_filter("cmd/+/+"@, "cmd/"@ + verb + "/"@ + id),
{
    reveal_strlit("cmd");
    reveal_strlit("cmd/");
    reveal_strlit("cmd/+/+");
    reveal_strlit("+");
    reveal_strlit("/");
    topics_match_themselves(split_parts("cmd"@, '/'));
    plus_matches_one_level(verb);
    plus_matches_one_level(id);
    filters_match_in_parts("cmd"@, "cmd"@, "+"@, verb);
    let f = "cmd"@ + seq!['/'] + "+"@;
    let t = "cmd"@ + seq!['/'] + verb;
    filters_match_in_parts(f, t, "+"@, id);
    assert(f + seq!['/'] + "+"@ =~= "cmd/+/+"@);
    assert(t + seq!['/'] + id =~= "cmd/"@ + verb + "/"@ + id);
}

/// Every command that is for a connector stands on a topic that the connector has subscribed to,
/// and may answer on.
pub proof fn own_commands_are_heard(
    topic: Seq<char>,
    protocol: Seq<char>,
    service: Seq<char>,
    devices: Seq<DeviceConfig>,
)
    ensures
        route_of(split_parts(topic, '/'), protocol, service, devices) is Device ==> matches_filter(
            topics_of(service, protocol).device_commands,
            topic,
        ),
        route_of(split_parts(topic, '/'), protocol, service, devices) is Service ==> matches_filter(
            topics_of(service, protocol).service_commands,
            topic,
        ),
        route_of(split_parts(topic, '/'), protocol, service, devices) !is Elsewhere ==> matches_any(
            allowed_filters(service, protocol),
            topic,
        ),
{
    let p = split_parts(topic, '/');
    let route = route_of(p, protocol, service, devices);
    let filters = allowed_filters(service, protocol);
    reveal_strlit("/");
    if route is Device {
        parts_are_plain(topic, '/');
        assert(!p[2].contains('/') && !p[6].contains('/') && !p[7].contains('/'));
        command_levels_match(p[6], p[7]);
        let rest = "cmd/"@ + p[6] + "/"@ + p[7];
        device_topics_match(protocol, p[2], "cmd/+/+"@, rest);
        reveal_strlit("cmd/+/+");
        reveal_strlit("/cmd/+/+");
        assert(filters[5] =~= "te/device/+/ot/"@ + protocol + "/"@ + "cmd/+/+"@);
        device_command_text(topic, protocol);
        assert(matches_filter(filters[5], topic));
    } else if route is Service {
        parts_are_plain(topic, '/');
        assert(!p[7].contains('/') && !p[8].contains('/'));
        command_levels_match(p[7], p[8]);
        let rest = "cmd/"@ + p[7] + "/"@ + p[8];
        let own = "te/device/main/service/"@ + service + "/ot"@;
        topics_match_themselves(split_parts(own, '/'));
        filters_match_in_parts(own, own, "cmd/+/+"@, rest);
        reveal_strlit("/ot");
        reveal_strlit("cmd/+/+");
        reveal_strlit("/ot/cmd/+/+");
        assert(filters[6] =~= own + seq!['/'] + "cmd/+/+"@);
        service_command_text(topic, service);
        assert(matches_filter(filters[6], topic));
    }
}

proof fn device_command_text(topic: Seq<char>, protocol: Seq<char>)
    requires
        device_command_levels(split_parts(topic, '/'), protocol),
    ensures
        ({
            let p = split_parts(topic, '/');
            topic == "te/device/"@ + p[2] + "/ot/"@ + protocol + "/"@ + ("cmd/"@ + p[6] + "/"@
                + p[7])
        }),
{
    let p = split_parts(topic, '/');
    join_undoes_split(topic, '/');
    joined_steps(p, seq!['/']);
    reveal_strlit("te");
    reveal_strlit("device");
    reveal_strlit("te/device/");
    reveal_strlit("ot");
    reveal_strlit("/ot/");
    reveal_strlit("cmd");
    reveal_strlit("cmd/");
    reveal_strlit("/");
    let s = seq!['/'];
    assert(joined(p, s) =~= p[0] + s + p[1] + s + p[2] + s + p[3] + s + p[4] + s + p[5] + s + p[6]
        + s + p[7]);
    assert(topic =~= "te/device/"@ + p[2] + "/ot/"@ + protocol + "/"@ + ("cmd/"@ + p[6] + "/"@
        + p[7]));
}

proof fn service_command_text(topic: Seq<char>, service: Seq<char>)
    requires
        service_command_levels(split_parts(topic, '/'), service),
    ensures
        ({
            let p = split_parts(topic, '/');
            topic == "te/device/main/service/"@ + service + "/ot"@ + seq!['/'] + ("cmd/"@ + p[7]
                + "/"@ + p[8])
        }),
{
    let p = split_parts(topic, '/');
    join_undoes_split(topic, '/');
    joined_steps(p, seq!['/']);
    reveal_strlit("te");
    reveal_strlit("device");
    reveal_strlit("main");
    reveal_strlit("service");
    reveal_strlit("te/device/main/service/");
    reveal_strlit("ot");
    reveal_strlit("/ot");
    reveal_strlit("cmd");
    reveal_strlit("cmd/");
    reveal_strlit("/");
    let s = seq!['/'];
    assert(joined(p, s) =~= p[0] + s + p[1] + s + p[2] + s + p[3] + s + p[4] + s + p[5] + s + p[6]
        + s + p[7] + s + p[8]);
    assert(topic =~= "te/device/main/service/"@ + service + "/ot"@ + seq!['/'] + ("cmd/"@ + p[7]
        + "/"@ + p[8]));
}

/// A command that is sent to a device on its topic is for the connector that owns the device, with
/// the verb that was sent.
pub proof fn sent_commands_reach_their_device(
    device: Seq<char>,
    protocol: Seq<char>,
    verb: Seq<char>,
    id: Seq<char>,
    service: Seq<char>,
    devices: Seq<DeviceConfig>,
)
    requires
        !device.contains('/'),
        !protocol.contains('/'),
        !verb.contains('/'),
        !id.contains('/'),
        device_among(devices, device),
    ensures
        route_of(
            split_parts(command_topic(device, protocol, verb, id), '/'),
            protocol,
            service,
            devices,
        ) == (RouteView::Device { device, verb }),
{
    let s = seq!['/'];
    reveal_strlit("te");
    reveal_strlit("device");
    reveal_strlit("te/device/");
    reveal_strlit("ot");
    reveal_strlit("/ot/");
    reveal_strlit("cmd");
    reveal_strlit("/cmd/");
    reveal_strlit("/");
    split_of_plain("te"@, '/');
    split_of_plain("device"@, '/');
    split_of_plain(device, '/');
    split_of_plain("ot"@, '/');
    split_of_plain(protocol, '/');
    split_of_plain("cmd"@, '/');
    split_of_plain(verb, '/');
    split_of_plain(id, '/');
    let t1 = "te"@ + s + "device"@;
    split_of_joined("te"@, "device"@, '/');
    let t2 = t1 + s + device;
    split_of_joined(t1, device, '/');
    let t3 = t2 + s + "ot"@;
    split_of_joined(t2, "ot"@, '/');
    let t4 = t3 + s + protocol;
    split_of_joined(t3, protocol, '/');
    let t5 = t4 + s + "cmd"@;
    split_of_joined(t4, "cmd"@, '/');
    let t6 = t5 + s + verb;
    split_of_joined(t5, verb, '/');
    let t7 = t6 + s + id;
    split_of_joined(t6, id, '/');
    assert(t7 =~= command_topic(device, protocol, verb, id));
    assert(split_parts(t7, '/') =~= seq![
        "te"@,
        "device"@,
        device,
        "ot"@,
        protocol,
        "cmd"@,
        verb,
        id,
    ]);
}

proof fn joined_steps(p: Seq<Seq<char>>, separator: Seq<char>)
    requires
        p.len() > 0,
    ensures
        forall|n: int|
            2 <= n <= p.len() ==> #[trigger] joined(p.take(n), separator) == joined(
                p.take(n - 1),
                separator,
            ) + separator + p[n - 1],
        joined(p.take(1), separator) == p[0],
        p.take(p.len() as int) == p,
{
    assert(p.take(p.len() as int) =~= p);
    assert forall|n: int| 2 <= n <= p.len() implies #[trigger] joined(p.take(n), separator)
        == joined(p.take(n - 1), separator) + separator + p[n - 1] by {
        assert(p.take(n).drop_last() =~= p.take(n - 1));
    }
}

/// The topics of a connector's messages that match none of filters.
pub open spec fn stray_topics(
    records: Seq<Captured>,
    client: Seq<char>,
    filters: Seq<Seq<char>>,
) -> Seq<Seq<char>>
    decreases records.len(),
{
    if records.len() == 0 {
        Seq::empty()
    } else {
        let head = stray_topics(records.drop_last(), client, filters);
        let c = records.last();
        if c.client@ == client && !matches_any(filters, c.topic@) {
            head.push(c.topic@)
        } else {
            head
        }
    }
}

/// Whether a connector published only where it may.
pub open spec fn discipline_finding(
    records: Seq<Captured>,
    client: Seq<char>,
    service: Seq<char>,
    protocol: Seq<char>,
) -> Result<Option<Seq<char>>, Seq<char>> {
    let stray = set_of(stray_topics(records, client, allowed_filters(service, protocol)));
    if stray.len() == 0 {
        Ok(None)
    } else {
        Err("off-contract topics: "@ + joined(stray, ", "@))
    }
}

/// Whether a connector published only where it may.
pub fn check_b10_topic_discipline(
    records: &Vec<Captured>,
    client: &str,
    service: &str,
    protocol: &str,
) -> (r: Finding)
    ensures
        finding_of(r) == discipline_finding(records@, client@, service@, protocol@),
{
    let filters: Vec<String> = allowed_topics(service, protocol);
    let mut stray: Vec<String> = Vec::new();
    let mut i: usize = 0;
    assert(records@.take(0) =~= Seq::<Captured>::empty());
    assert(texts(stray@) =~= Seq::<Seq<char>>::empty());
    while i < records.len()
        invariant
            i <= records@.len(),
            texts(stray@) == stray_topics(records@.take(i as int), client@, texts(filters@)),
        decreases records@.len() - i,
    {
        assert(records@.take(i + 1).drop_last() =~= records@.take(i as int));
        assert(records@.take(i + 1).last() == records@[i as int]);
        if same_text(records[i].client.as_str(), client) && !matches_one(
            &filters,
            records[i].topic.as_str(),
        ) {
            let ghost was = texts(stray@);
            let t: String = records[i].topic.clone();
            stray.push(t);
            assert(texts(stray@) =~= was.push(t@));
        }
        i = i + 1;
    }
    assert(records@.take(records@.len() as int) =~= records@);
    let found: Vec<String> = sorted_set(&stray);
    assert(texts(found@).len() == found@.len());
    if found.len() == 0 {
        Ok(None)
    } else {
        let list: String = join(&found, ", ");
        Err(concat2("off-contract topics: ", list.as_str()))
    }
}

/// The kinds of messages whose payloads have a schema.
#[derive(Clone, Copy, Debug, PartialEq, Eq, Structural)]
pub enum TopicClass {
    Samples,
    Commands,
    Status,
    Capabilities,
}

impl TopicClass {
    /// What a report calls the messages.
    pub open spec fn label(self) -> Seq<char> {
        match self {
            TopicClass::Samples => "samples"@,
            TopicClass::Commands => "command transitions"@,
            TopicClass::Status => "status (health/link)"@,
            TopicClass::Capabilities => "capability descriptor"@,
        }
    }

    /// What a report calls the messages, in a word.
    pub open spec fn word(self) -> Seq<char> {
        match self {
            TopicClass::Samples => "samples"@,
            TopicClass::Commands => "command"@,
            TopicClass::Status => "status"@,
            TopicClass::Capabilities => "capability"@,
        }
    }

    /// Whether a topic is of such a message.
    pub open spec fn covered(
        self,
        service: Seq<char>,
        protocol: Seq<char>,
        topic: Seq<char>,
    ) -> bool {
        match self {
            TopicClass::Samples => matches_filter(
                "te/device/+/ot/"@ + protocol + "/sample/+"@,
                topic,
            ),
            TopicClass::Commands => matches_filter(
                "te/device/+/ot/"@ + protocol + "/cmd/+/+"@,
                topic,
            ) || matches_filter("te/device/main/service/"@ + service + "/ot/cmd/+/+"@, topic),
            TopicClass::Status => topic == "te/device/main/service/"@ + service
                + "/status/health"@ || matches_filter(
                "te/device/+/ot/"@ + protocol + "/status/link"@,
                topic,
            ),
            TopicClass::Capabilities => topic == "te/device/main/service/"@ + service
                + "/ot/capabilities"@,
        }
    }

    /// What a report calls the messages.
    pub fn as_str(self) -> (r: &'static str)
        ensures
            r@ == self.label(),
    {
        match self {
            TopicClass::Samples => "samples",
            TopicClass::Commands => "command transitions",
            TopicClass::Status => "status (health/link)",
            TopicClass::Capabilities => "capability descriptor",
        }
    }

    fn in_a_word(self) -> (r: &'static str)
        ensures
            r@ == self.word(),
    {
        match self {
            TopicClass::Samples => "samples",
            TopicClass::Commands => "command",
            TopicClass::Status => "status",
            TopicClass::Capabilities => "capability",
        }
    }

    /// Whether a topic is of such a message.
    pub fn covers(self, service: &str, protocol: &str, topic: &str) -> (r: bool)
        ensures
            r == self.covered(service@, protocol@, topic@),
    {
        match self {
            TopicClass::Samples => {
                let f: String = concat3("te/device/+/ot/", protocol, "/sample/+");
                topic_matches(f.as_str(), topic)
            },
            TopicClass::Commands => {
                let f: String = concat3("te/device/+/ot/", protocol, "/cmd/+/+");
                let g: String = concat3("te/device/main/service/", service, "/ot/cmd/+/+");
                topic_matches(f.as_str(), topic) || topic_matches(g.as_str(), topic)
            },
            TopicClass::Status => {
                let f: String = concat3("te/device/main/service/", service, "/status/health");
                let g: String = concat3("te/device/+/ot/", protocol, "/status/link");
                same_text(topic, f.as_str()) || topic_matches(g.as_str(), topic)
            },
            TopicClass::Capabilities => {
                let f: String = concat3("te/device/main/service/", service, "/ot/capabilities");
                same_text(topic, f.as_str())
            },
        }
    }
}

/// What the payloads of a kind of messages show: `failures` is what is wrong with those that
/// their schema refuses, of `total`.
pub open spec fn traffic_finding(class: TopicClass, total: nat, failures: Seq<Seq<char>>) -> Result<
    Option<Seq<char>>,
    Seq<char>,
> {
    if total == 0 {
        Err("no "@ + class.label() + " were captured at all"@)
    } else if failures.len() == 0 {
        Ok(Some(decimal_text(total) + " message(s) validated"@))
    } else {
        Err(
            decimal_text(failures.len()) + "/"@ + decimal_text(total)
                + " message(s) violate the schema:\n"@ + joined(at_most_five(failures), "\n"@),
        )
    }
}

/// The check of a kind of messages.
pub open spec fn traffic_check(class: TopicClass, total: nat, failures: Seq<Seq<char>>) -> CheckView {
    concluded(
        "L1/captured-"@ + class.word(),
        "all captured "@ + class.label() + " validate against the contract schema"@,
        traffic_finding(class, total, failures),
    )
}

/// Notes what the payloads of a kind of messages show.
pub fn report_traffic(layer: &mut Layer, class: TopicClass, total: usize, failures: Vec<String>)
    ensures
        final(layer)@ == old(layer)@.push(
            traffic_check(class, total as nat, texts(failures@)),
        ),
        final(layer).name == old(layer).name,
{
    let id: String = concat2("L1/captured-", class.in_a_word());
    let name: String = concat3(
        "all captured ",
        class.as_str(),
        " validate against the contract schema",
    );
    assert(texts(failures@).len() == failures@.len());
    if total == 0 {
        layer.check(
            id.as_str(),
            name.as_str(),
            Err(concat3("no ", class.as_str(), " were captured at all")),
        );
    } else if failures.len() == 0 {
        let mut t: String = crate::text::decimal_string(total as u64);
        t.append(" message(s) validated");
        layer.check(id.as_str(), name.as_str(), Ok(Some(t)));
    } else {
        let mut t: String = crate::text::decimal_string(failures.len() as u64);
        t.append("/");
        push_decimal(&mut t, total as u64);
        t.append(" message(s) violate the schema:\n");
        let list: String = join(&keep_five(failures), "\n");
        t.append(list.as_str());
        layer.check(id.as_str(), name.as_str(), Err(t));
    }
}

/// What each schema finds wrong with a payload: nothing where it takes it.
#[derive(Debug, PartialEq)]
pub struct SchemaErrors {
    pub sample: Option<String>,
    pub command: Option<String>,
    pub status: Option<String>,
}

impl SchemaErrors {
    /// What the schema of a kind of messages finds. The capability descriptor has that of a status.
    pub open spec fn found(self, class: TopicClass) -> Option<Seq<char>> {
        match class {
            TopicClass::Samples => text_of(self.sample),
            TopicClass::Commands => text_of(self.command),
            TopicClass::Status | TopicClass::Capabilities => text_of(self.status),
        }
    }

    fn of_class(&self, class: TopicClass) -> (r: &Option<String>)
        ensures
            text_of(*r) == self.found(class),
    {
        match class {
            TopicClass::Samples => &self.sample,
            TopicClass::Commands => &self.command,
            TopicClass::Status | TopicClass::Capabilities => &self.status,
        }
    }
}

/// A connector's messages of one kind: how many there are, and what is wrong with those that their
/// schema refuses.
pub open spec fn traffic_of(
    records: Seq<Captured>,
    errors: Seq<SchemaErrors>,
    client: Seq<char>,
    service: Seq<char>,
    protocol: Seq<char>,
    class: TopicClass,
) -> (nat, Seq<Seq<char>>)
    decreases records.len(),
{
    if records.len() == 0 {
        (0, Seq::empty())
    } else {
        let (total, failures) = traffic_of(
            records.drop_last(),
            errors.drop_last(),
            client,
            service,
            protocol,
            class,
        );
        let c = records.last();
        if c.client@ == client && class.covered(service, protocol, c.topic@) {
            (
                total + 1,
                match errors.last().found(class) {
                    Some(e) => failures.push(c.topic@ + ": "@ + e),
                    None => failures,
                },
            )
        } else {
            (total, failures)
        }
    }
}

/// The check of a connector's messages of one kind.
pub open spec fn class_check(
    records: Seq<Captured>,
    errors: Seq<SchemaErrors>,
    client: Seq<char>,
    service: Seq<char>,
    protocol: Seq<char>,
    class: TopicClass,
) -> CheckView {
    let (total, failures) = traffic_of(records, errors, client, service, protocol, class);
    traffic_check(class, total, failures)
}

fn validate_class(
    layer: &mut Layer,
    records: &Vec<Captured>,
    errors: &Vec<SchemaErrors>,
    client: &str,
    service: &str,
    protocol: &str,
    class: TopicClass,
)
    requires
        records@.len() == errors@.len(),
    ensures
        final(layer)@ == old(layer)@.push(
            class_check(records@, errors@, client@, service@, protocol@, class),
        ),
        final(layer).name == old(layer).name,
{
    let mut total: usize = 0;
    let mut failures: Vec<String> = Vec::new();
    let mut i: usize = 0;
    assert(records@.take(0) =~= Seq::<Captured>::empty());
    assert(texts(failures@) =~= Seq::<Seq<char>>::empty());
    while i < records.len()
        invariant
            i <= records@.len() == errors@.len(),
            total <= i,
            (total as nat, texts(failures@)) == traffic_of(
                records@.take(i as int),
                errors@.take(i as int),
                client@,
                service@,
                protocol@,
                class,
            ),
        decreases records@.len() - i,
    {
        assert(records@.take(i + 1).drop_last() =~= records@.take(i as int));
        assert(records@.take(i + 1).last() == records@[i as int]);
        assert(errors@.take(i + 1).drop_last() =~= errors@.take(i as int));
        assert(errors@.take(i + 1).last() == errors@[i as int]);
        let topic: &str = records[i].topic.as_str();
        if same_text(records[i].client.as_str(), client) && class.covers(service, protocol, topic) {
            total = total + 1;
            if let Some(e) = errors[i].of_class(class) {
                let ghost was = texts(failures@);
                let t: String = concat3(topic, ": ", e.as_str());
                failures.push(t);
                assert(texts(failures@) =~= was.push(t@));
            }
        }
        i = i + 1;
    }
    assert(records@.take(records@.len() as int) =~= records@);
    assert(errors@.take(errors@.len() as int) =~= errors@);
    report_traffic(layer, class, total, failures);
}

/// What the schemas find of everything that a connector published. `errors` is what they find of
/// each record.
pub fn validate_captured_traffic(
    records: &Vec<Captured>,
    errors: &Vec<SchemaErrors>,
    client: &str,
    service: &str,
    protocol: &str,
) -> (r: Layer)
    requires
        records@.len() == errors@.len(),
    ensures
        r.name@ == "Layer 1 \u{2014} schema conformance (captured traffic)"@,
        r@ == seq![
            class_check(records@, errors@, client@, service@, protocol@, TopicClass::Samples),
            class_check(records@, errors@, client@, service@, protocol@, TopicClass::Commands),
            class_check(records@, errors@, client@, service@, protocol@, TopicClass::Status),
            class_check(records@, errors@, client@, service@, protocol@, TopicClass::Capabilities),
        ],
{
    let mut layer = Layer::new("Layer 1 \u{2014} schema conformance (captured traffic)");
    let l: &mut Layer = &mut layer;
    validate_class(l, records, errors, client, service, protocol, TopicClass::Samples);
    validate_class(l, records, errors, client, service, protocol, TopicClass::Commands);
    validate_class(l, records, errors, client, service, protocol, TopicClass::Status);
    validate_class(l, records, errors, client, service, protocol, TopicClass::Capabilities);
    assert(layer@ =~= seq![
        class_check(records@, errors@, client@, service@, protocol@, TopicClass::Samples),
        class_check(records@, errors@, client@, service@, protocol@, TopicClass::Commands),
        class_check(records@, errors@, client@, service@, protocol@, TopicClass::Status),
        class_check(records@, errors@, client@, service@, protocol@, TopicClass::Capabilities),
    ]);
    layer
}

/// What the manifest says of the protocol, held against the configuration that is run.
pub fn protocols_agree(claimed: &str, configured: &str) -> (r: Result<(), String>)
    ensures
        claimed@ == configured@ ==> r is Ok,
        claimed@ != configured@ ==> (r matches Err(e) && e@ == "manifest protocol '"@ + claimed@
            + "' does not match config protocol '"@ + configured@ + "'"@),
{
    if same_text(claimed, configured) {
        Ok(())
    } else {
        let mut out: String = concat3("manifest protocol '", claimed, "' does not match config protocol '");
        out.append(configured);
        out.append("'");
        Err(out)
    }
}

/// Whether a manifest has the sections that the behaviour is checked by.
pub fn behaviour_can_be_checked(simulator: bool, config: bool) -> (r: Result<(), String>)
    ensures
        r is Ok <==> simulator && config,
        !simulator ==> (r matches Err(e) && e@
            == "behavioural layer requires a [simulator] section in the manifest"@),
        simulator && !config ==> (r matches Err(e) && e@
            == "behavioural layer requires `[harness] config` in the manifest"@),
{
    if !simulator {
        Err("behavioural layer requires a [simulator] section in the manifest".to_owned())
    } else if !config {
        Err("behavioural layer requires `[harness] config` in the manifest".to_owned())
    } else {
        Ok(())
    }
}

/// What a command for a device that the connector does not own shows: nothing, while it works.
pub open spec fn ownership_finding(alive: Option<Seq<char>>, answers: Seq<Seq<char>>) -> Result<
    Option<Seq<char>>,
    Seq<char>,
> {
    match alive {
        Some(reason) => Err(
            reason
                + " \u{2014} the connector stopped publishing, so its silence proves nothing"@,
        ),
        None => if answers.len() == 0 {
            Ok(None)
        } else {
            Err(
                "published "@ + decimal_text(answers.len())
                    + " transition(s) for a device it does not own: "@ + joined(answers, ", "@),
            )
        },
    }
}

/// What a command for a device that the connector does not own shows. `silence` is why no reading
/// came after it; `answers` are its answers.
pub fn check_b11_unowned_device_ignored(silence: Option<String>, answers: &Vec<String>) -> (r:
    Finding)
    ensures
        finding_of(r) == ownership_finding(text_of(silence), texts(answers@)),
{
    if let Some(reason) = silence {
        return Err(
            concat2(
                reason.as_str(),
                " \u{2014} the connector stopped publishing, so its silence proves nothing",
            ),
        );
    }
    assert(texts(answers@).len() == answers@.len());
    if answers.len() == 0 {
        Ok(None)
    } else {
        let list: String = join(answers, ", ");
        let mut t: String = "published ".to_owned();
        push_decimal(&mut t, answers.len() as u64);
        t.append(" transition(s) for a device it does not own: ");
        t.append(list.as_str());
        Err(t)
    }
}

/// What a device that answers nothing shows: the connector told of it, and went on.
pub open spec fn silent_peer_finding(reported: Option<Seq<char>>, running: Option<Seq<char>>) -> Result<
    Option<Seq<char>>,
    Seq<char>,
> {
    match reported {
        Some(reason) => Err(
            reason
                + " \u{2014} the connector went silent, which is what an unbounded protocol call does"@,
        ),
        None => match running {
            Some(reason) => Err(reason),
            None => Ok(Some("reported and kept polling"@)),
        },
    }
}

/// What a device that answers nothing shows. `unreported` is why no report came, `stuck` why no
/// further one did.
pub fn check_b5_silent_peer(unreported: Option<String>, stuck: Option<String>) -> (r: Finding)
    ensures
        finding_of(r) == silent_peer_finding(text_of(unreported), text_of(stuck)),
{
    match unreported {
        Some(reason) => Err(
            concat2(
                reason.as_str(),
                " \u{2014} the connector went silent, which is what an unbounded protocol call does",
            ),
        ),
        None => match stuck {
            Some(reason) => Err(reason),
            None => Ok(Some("reported and kept polling".to_owned())),
        },
    }
}

/// What a descriptor that was waited for shows.
pub open spec fn descriptor_finding(came: Result<bool, Seq<char>>) -> Result<
    Option<Seq<char>>,
    Seq<char>,
> {
    match came {
        Ok(readable) => if readable {
            Ok(None)
        } else {
            Err("payload is not JSON"@)
        },
        Err(e) => Err(e + "; the connector did not start against the harness broker"@),
    }
}

/// Notes the descriptor that was waited for, and gives it where there is one: without it nothing
/// else can be checked.
pub fn check_b1_startup(layer: &mut Layer, awaited: Result<Captured, String>) -> (r: Option<Json>)
    ensures
        final(layer)@ == old(layer)@.push(
            concluded(
                "B1-capabilities"@,
                "retained capability descriptor published"@,
                descriptor_finding(
                    match awaited {
                        Ok(c) => Ok(c.json is Some),
                        Err(e) => Err(e@),
                    },
                ),
            ),
        ),
        final(layer).name == old(layer).name,
        view_of(r) == match awaited {
            Ok(c) => view_of(c.json),
            Err(_) => None,
        },
{
    match awaited {
        Ok(c) => match c.json {
            Some(v) => {
                layer.check(
                    "B1-capabilities",
                    "retained capability descriptor published",
                    Ok(None),
                );
                Some(v)
            },
            None => {
                layer.check(
                    "B1-capabilities",
                    "retained capability descriptor published",
                    Err("payload is not JSON".to_owned()),
                );
                None
            },
        },
        Err(e) => {
            layer.check(
                "B1-capabilities",
                "retained capability descriptor published",
                Err(
                    concat2(
                        e.as_str(),
                        "; the connector did not start against the harness broker",
                    ),
                ),
            );
            None
        },
    }
}

/// A reading shows one behaviour, by its point: what cannot be read, else a value or bytes. The
/// behaviours pass where each of those asked for was shown.
pub proof fn behaviours_pass_where_they_were_shown(
    t: Tally,
    mode: Mode,
    invalid: bool,
    typed: bool,
    raw: bool,
)
    ensures
        tallied(t, mode, invalid).bad <==> t.bad || invalid,
        tallied(t, mode, invalid).typed <==> t.typed || (!invalid && mode == Mode::Typed),
        tallied(t, mode, invalid).raw <==> t.raw || (!invalid && mode == Mode::Raw),
        all_passed(behaviour_checks(t, typed, raw)) <==> t.bad && (typed ==> t.typed) && (raw
            ==> t.raw),
{
    let checks = behaviour_checks(t, typed, raw);
    let last = checks[checks.len() - 1];
    assert(last.verdict == crate::report::Verdict::Fail <==> !t.bad);
    if typed {
        assert(checks[0].verdict == crate::report::Verdict::Fail <==> !t.typed);
    }
    if raw {
        assert(checks[checks.len() - 2].verdict == crate::report::Verdict::Fail <==> !t.raw);
    }
}

/// Whether a captured reading of the connector on a topic is numbered so.
pub open spec fn is_numbered(c: Captured, client: Seq<char>, topic: Seq<char>, n: i64) -> bool {
    c.client@ == client && c.topic@ == topic && number_told(c) == Some(n)
}

/// The numbers of a topic are those of the connector's readings on it.
pub proof fn numbers_are_those_of_the_readings(
    records: Seq<Captured>,
    client: Seq<char>,
    topic: Seq<char>,
    n: i64,
)
    ensures
        numbers_told(records, client, topic).contains(n) <==> exists|i: int|
            0 <= i < records.len() && is_numbered(#[trigger] records[i], client, topic, n),
        numbers_told(records, client, topic).len() <= records.len(),
    decreases records.len(),
{
    if records.len() > 0 {
        let before = records.drop_last();
        let head = numbers_told(before, client, topic);
        let all = numbers_told(records, client, topic);
        numbers_are_those_of_the_readings(before, client, topic, n);
        assert(records[records.len() - 1] == records.last());
        if head.contains(n) {
            let k = choose|k: int| 0 <= k < head.len() && head[k] == n;
            assert(all[k] == n);
            let i = choose|i: int|
                0 <= i < before.len() && is_numbered(#[trigger] before[i], client, topic, n);
            assert(records[i] == before[i]);
        }
        if is_numbered(records.last(), client, topic, n) {
            assert(all[head.len() as int] == n);
        }
        if all.contains(n) && !head.contains(n) {
            let k = choose|k: int| 0 <= k < all.len() && all[k] == n;
            if k < head.len() {
                assert(head[k] == n);
            }
        }
        if exists|i: int|
            0 <= i < records.len() && is_numbered(#[trigger] records[i], client, topic, n) {
            let i = choose|i: int|
                0 <= i < records.len() && is_numbered(#[trigger] records[i], client, topic, n);
            if i < before.len() {
                assert(before[i] == records[i]);
            }
        }
    }
}

/// Readings are numbered rightly where there are three at least, each with a number greater than
/// those before it.
pub proof fn numbers_have_to_increase(id: Seq<char>, seen: nat, numbers: Seq<i64>, i: int, j: int)
    ensures
        numbers_finding(id, seen, numbers) is Ok && 0 <= i < j < numbers.len() ==> numbers[i]
            < numbers[j],
        numbers_finding(id, seen, numbers) is Ok ==> seen >= 3 && numbers.len() >= 3,
        seen >= 3 && numbers.len() >= 3 && (forall|k: int|
            0 < k < numbers.len() ==> numbers[k - 1] < #[trigger] numbers[k]) ==> numbers_finding(
            id,
            seen,
            numbers,
        ) is Ok,
{
    if forall|k: int| 0 < k < numbers.len() ==> numbers[k - 1] < #[trigger] numbers[k] {
        assert forall|a: int, b: int| 0 <= a < b < numbers.len() implies #[trigger] numbers[a]
            < #[trigger] numbers[b] by {
            steps_increase(numbers, a, b);
        }
    }
}

proof fn steps_increase(numbers: Seq<i64>, a: int, b: int)
    requires
        0 <= a < b < numbers.len(),
        forall|k: int| 0 < k < numbers.len() ==> numbers[k - 1] < #[trigger] numbers[k],
    ensures
        numbers[a] < numbers[b],
    decreases b - a,
{
    assert(numbers[b - 1] < numbers[b]);
    if a < b - 1 {
        steps_increase(numbers, a, b - 1);
    }
}

/// A write is made to points that may be written, are read as a value, and are whole. It counts
/// where the connector echoes what was asked for, the device saw it, and holds what it has to.
pub proof fn writes_count_where_the_device_holds_them(p: CheckedView, w: WriteEvidence)
    ensures
        writable_point(p) <==> (p.access == Access::Write || p.access == Access::ReadWrite)
            && p.mode == Mode::Typed && p.bitfield is None,
        write_finding(w) is Ok <==> w.echo_agrees && (w.writes matches Ok(n) && n > 0) && (
        w.held matches Held::Value(_, agrees) && agrees),
{
}

/// A refusal counts where it is told why, for a range by its name, and the device saw no write.
pub proof fn refusals_count_where_nothing_was_written(
    answer: JsonView,
    before: u64,
    after: Result<u64, Seq<char>>,
)
    ensures
        denial_finding(answer, before, after) is Ok <==> (text_member(answer, "reason"@) matches Some(
            r,
        ) && r.len() > 0) && after == Ok::<u64, Seq<char>>(before),
        range_finding(answer, before, after) is Ok <==> (text_member(answer, "reason"@) matches Some(
            r,
        ) && contains_part(r, "range"@)) && after == Ok::<u64, Seq<char>>(before),
{
    reveal_strlit("range");
    assert("range"@.len() == 5);
    assert(!contains_part(Seq::<char>::empty(), "range"@));
}

proof fn item_of_id_is_there(items: Seq<JsonView>, id: Seq<char>)
    ensures
        item_of_id(items, id) matches Some(v) ==> items.contains(v) && text_member(v, "id"@)
            == Some(id),
    decreases items.len(),
{
    if items.len() > 0 {
        let rest = items.drop_first();
        item_of_id_is_there(rest, id);
        if text_member(items[0], "id"@) == Some(id) {
            assert(items.contains(items[0]));
        } else if let Some(v) = item_of_id(rest, id) {
            let i = choose|i: int| 0 <= i < rest.len() && rest[i] == v;
            assert(items[i + 1] == v);
        }
    }
}

/// A device with a point more has all it had, and behind its points one that is like another but
/// for its id.
pub proof fn mirrored_points_differ_by_their_id(
    device: JsonView,
    template: Seq<char>,
    id: Seq<char>,
    key: Seq<char>,
) -> (r: (Seq<JsonView>, Fields, Fields))
    requires
        mirrored(device, template, id) is Ok,
    ensures
        member(device, "point"@) == Some(JsonView::Array(r.0)),
        r.0.contains(JsonView::Object(r.1)),
        field(r.1, "id"@) == Some(JsonView::Text(template)),
        member(mirrored(device, template, id)->Ok_0, "point"@) == Some(
            JsonView::Array(r.0.push(JsonView::Object(r.2))),
        ),
        field(r.2, "id"@) == Some(JsonView::Text(id)),
        key != "id"@ ==> field(r.2, key) == field(r.1, key),
        key != "point"@ ==> member(mirrored(device, template, id)->Ok_0, key) == member(
            device,
            key,
        ),
{
    broadcast use crate::keyed::field_once_set;

    let f = device->Object_0;
    let points = field(f, "point"@)->Some_0->Array_0;
    item_of_id_is_there(points, template);
    let p = item_of_id(points, template)->Some_0->Object_0;
    (points, p, with_field(p, "id"@, JsonView::Text(id)))
}

/// An added point is live where its first reading is good.
pub proof fn added_points_are_live_where_they_read_well(reading: JsonView)
    ensures
        hot_reload_finding(reading) is Ok <==> text_member(reading, "quality"@) == Some("good"@),
{
}

/// Whether a captured reading shows nothing but what is claimed.
pub open spec fn is_honest(
    c: Captured,
    client: Seq<char>,
    modes: Seq<Seq<char>>,
    datatypes: Seq<Seq<char>>,
) -> bool {
    c.client@ == client && is_sample_topic(c.topic@) ==> {
        &&& told(c, "mode"@) matches Some(m) ==> modes.contains(m)
        &&& told(c, "datatype"@) matches Some(d) ==> datatypes.contains(d)
    }
}

/// A connector did what it claims where each of its readings is of a mode and a datatype that it
/// claims.
pub proof fn connectors_are_honest_where_each_reading_is(
    records: Seq<Captured>,
    client: Seq<char>,
    modes: Seq<Seq<char>>,
    datatypes: Seq<Seq<char>>,
)
    ensures
        dishonesty(records, client, modes, datatypes).len() == 0 <==> forall|i: int|
            0 <= i < records.len() ==> is_honest(#[trigger] records[i], client, modes, datatypes),
    decreases records.len(),
{
    if records.len() > 0 {
        let before = records.drop_last();
        let c = records.last();
        connectors_are_honest_where_each_reading_is(before, client, modes, datatypes);
        assert(unclaimed(c, modes, datatypes).len() == 0 <==> (told(c, "mode"@) matches Some(m)
            ==> modes.contains(m)) && (told(c, "datatype"@) matches Some(d) ==> datatypes.contains(
            d,
        )));
        assert(records[records.len() - 1] == c);
        if dishonesty(records, client, modes, datatypes).len() == 0 {
            assert forall|i: int| 0 <= i < records.len() implies is_honest(
                #[trigger] records[i],
                client,
                modes,
                datatypes,
            ) by {
                if i < before.len() {
                    assert(before[i] == records[i]);
                }
            }
        }
        if forall|i: int|
            0 <= i < records.len() ==> is_honest(#[trigger] records[i], client, modes, datatypes) {
            assert forall|i: int| 0 <= i < before.len() implies is_honest(
                #[trigger] before[i],
                client,
                modes,
                datatypes,
            ) by {
                assert(records[i] == before[i]);
            }
        }
    }
}

/// The verdict on honesty is that of the readings, by what the descriptor lists.
pub proof fn honesty_is_judged_by_the_descriptor(
    records: Seq<Captured>,
    client: Seq<char>,
    caps: JsonView,
)
    ensures
        honesty_finding(records, client, caps) is Ok <==> forall|i: int|
            0 <= i < records.len() ==> is_honest(
                #[trigger] records[i],
                client,
                listed(caps, "modes"@),
                listed(caps, "datatypes"@),
            ),
{
    connectors_are_honest_where_each_reading_is(
        records,
        client,
        listed(caps, "modes"@),
        listed(caps, "datatypes"@),
    );
}

/// Whether a message of the connector stands on a topic that it may publish on.
pub open spec fn is_disciplined(c: Captured, client: Seq<char>, filters: Seq<Seq<char>>) -> bool {
    c.client@ == client ==> matches_any(filters, c.topic@)
}

proof fn no_stray_where_disciplined(
    records: Seq<Captured>,
    client: Seq<char>,
    filters: Seq<Seq<char>>,
)
    ensures
        stray_topics(records, client, filters).len() == 0 <==> forall|i: int|
            0 <= i < records.len() ==> is_disciplined(#[trigger] records[i], client, filters),
    decreases records.len(),
{
    if records.len() > 0 {
        let before = records.drop_last();
        no_stray_where_disciplined(before, client, filters);
        assert(records[records.len() - 1] == records.last());
        if stray_topics(records, client, filters).len() == 0 {
            assert forall|i: int| 0 <= i < records.len() implies is_disciplined(
                #[trigger] records[i],
                client,
                filters,
            ) by {
                if i < before.len() {
                    assert(before[i] == records[i]);
                }
            }
        }
        if forall|i: int|
            0 <= i < records.len() ==> is_disciplined(#[trigger] records[i], client, filters) {
            assert forall|i: int| 0 <= i < before.len() implies is_disciplined(
                #[trigger] before[i],
                client,
                filters,
            ) by {
                assert(records[i] == before[i]);
            }
        }
    }
}

proof fn sets_are_empty_together(s: Seq<Seq<char>>)
    ensures
        set_of(s).len() == 0 <==> s.len() == 0,
{
    if s.len() > 0 {
        let f = crate::conformance_claims::gathered(s);
        crate::conformance_claims::sets_hold_what_they_are_of(s, s[0]);
        assert(s.contains(s[0]));
        assert(f.len() > 0);
    }
}

/// A connector keeps to its topics where each of its messages stands on one that it may publish
/// on.
pub proof fn connectors_keep_to_their_topics(
    records: Seq<Captured>,
    client: Seq<char>,
    service: Seq<char>,
    protocol: Seq<char>,
)
    ensures
        discipline_finding(records, client, service, protocol) is Ok <==> forall|i: int|
            0 <= i < records.len() ==> is_disciplined(
                #[trigger] records[i],
                client,
                allowed_filters(service, protocol),
            ),
{
    let filters = allowed_filters(service, protocol);
    no_stray_where_disciplined(records, client, filters);
    sets_are_empty_together(stray_topics(records, client, filters));
}

/// Whether a captured message is one of the connector's of that kind.
pub open spec fn is_of_class(
    c: Captured,
    client: Seq<char>,
    service: Seq<char>,
    protocol: Seq<char>,
    class: TopicClass,
) -> bool {
    c.client@ == client && class.covered(service, protocol, c.topic@)
}

proof fn traffic_counts(
    records: Seq<Captured>,
    errors: Seq<SchemaErrors>,
    client: Seq<char>,
    service: Seq<char>,
    protocol: Seq<char>,
    class: TopicClass,
)
    requires
        records.len() == errors.len(),
    ensures
        ({
            let t = traffic_of(records, errors, client, service, protocol, class);
            &&& t.0 > 0 <==> exists|i: int|
                0 <= i < records.len() && is_of_class(
                    #[trigger] records[i],
                    client,
                    service,
                    protocol,
                    class,
                )
            &&& t.1.len() == 0 <==> forall|i: int|
                0 <= i < records.len() && is_of_class(
                    #[trigger] records[i],
                    client,
                    service,
                    protocol,
                    class,
                ) ==> errors[i].found(class) is None
            &&& t.1.len() <= t.0 <= records.len()
        }),
    decreases records.len(),
{
    if records.len() > 0 {
        let before = records.drop_last();
        let head = errors.drop_last();
        traffic_counts(before, head, client, service, protocol, class);
        let t = traffic_of(records, errors, client, service, protocol, class);
        let s = traffic_of(before, head, client, service, protocol, class);
        assert(records[records.len() - 1] == records.last());
        assert(errors[errors.len() - 1] == errors.last());
        assert forall|i: int| 0 <= i < before.len() implies #[trigger] before[i] == records[i]
            && head[i] == errors[i] by {}
        if s.0 > 0 {
            let i = choose|i: int|
                0 <= i < before.len() && is_of_class(
                    #[trigger] before[i],
                    client,
                    service,
                    protocol,
                    class,
                );
            assert(is_of_class(records[i], client, service, protocol, class));
        }
        if exists|i: int|
            0 <= i < records.len() && is_of_class(
                #[trigger] records[i],
                client,
                service,
                protocol,
                class,
            ) {
            let i = choose|i: int|
                0 <= i < records.len() && is_of_class(
                    #[trigger] records[i],
                    client,
                    service,
                    protocol,
                    class,
                );
            if i < before.len() {
                assert(is_of_class(before[i], client, service, protocol, class));
            }
        }
        if t.1.len() == 0 {
            assert forall|i: int|
                0 <= i < records.len() && is_of_class(
                    #[trigger] records[i],
                    client,
                    service,
                    protocol,
                    class,
                ) implies errors[i].found(class) is None by {
                if i < before.len() {
                    assert(is_of_class(before[i], client, service, protocol, class));
                }
            }
        }
        if forall|i: int|
            0 <= i < records.len() && is_of_class(
                #[trigger] records[i],
                client,
                service,
                protocol,
                class,
            ) ==> errors[i].found(class) is None {
            assert forall|i: int|
                0 <= i < before.len() && is_of_class(
                    #[trigger] before[i],
                    client,
                    service,
                    protocol,
                    class,
                ) implies head[i].found(class) is None by {
                assert(is_of_class(records[i], client, service, protocol, class));
            }
        }
    }
}

/// The messages of a kind are right where there are any, and their schema finds nothing wrong
/// with any of them.
pub proof fn traffic_is_right_where_each_message_is(
    records: Seq<Captured>,
    errors: Seq<SchemaErrors>,
    client: Seq<char>,
    service: Seq<char>,
    protocol: Seq<char>,
    class: TopicClass,
)
    requires
        records.len() == errors.len(),
    ensures
        class_check(records, errors, client, service, protocol, class).verdict
            == crate::report::Verdict::Pass <==> (exists|i: int|
            0 <= i < records.len() && is_of_class(
                #[trigger] records[i],
                client,
                service,
                protocol,
                class,
            )) && forall|i: int|
            0 <= i < records.len() && is_of_class(
                #[trigger] records[i],
                client,
                service,
                protocol,
                class,
            ) ==> errors[i].found(class) is None,
{
    traffic_counts(records, errors, client, service, protocol, class);
}

/// Each kind of messages covers the topics that a connector sends such messages on.
pub proof fn each_kind_covers_its_topics(
    service: Seq<char>,
    protocol: Seq<char>,
    device: Seq<char>,
    point: Seq<char>,
)
    requires
        !device.contains('/'),
        !point.contains('/'),
    ensures
        TopicClass::Samples.covered(service, protocol, sample_topic(device, protocol, point)),
        TopicClass::Status.covered(service, protocol, link_topic(device, protocol)),
        TopicClass::Status.covered(service, protocol, topics_of(service, protocol).health),
        TopicClass::Capabilities.covered(
            service,
            protocol,
            topics_of(service, protocol).capabilities,
        ),
{
    reveal_strlit("/");
    reveal_strlit("+");
    reveal_strlit("status/link");
    reveal_strlit("/status/link");
    topics_match_themselves(split_parts("status/link"@, '/'));
    device_topics_match(protocol, device, "status/link"@, "status/link"@);
    assert("te/device/+/ot/"@ + protocol + "/status/link"@ =~= "te/device/+/ot/"@ + protocol + "/"@
        + "status/link"@);
    assert(link_topic(device, protocol) =~= "te/device/"@ + device + "/ot/"@ + protocol + "/"@
        + "status/link"@);
    reveal_strlit("sample");
    reveal_strlit("/sample/");
    reveal_strlit("/sample/+");
    topics_match_themselves(split_parts("sample"@, '/'));
    plus_matches_one_level(point);
    filters_match_in_parts("sample"@, "sample"@, "+"@, point);
    let rest_filter = "sample"@ + seq!['/'] + "+"@;
    let rest = "sample"@ + seq!['/'] + point;
    device_topics_match(protocol, device, rest_filter, rest);
    assert("te/device/+/ot/"@ + protocol + "/sample/+"@ =~= "te/device/+/ot/"@ + protocol + "/"@
        + rest_filter);
    assert(sample_topic(device, protocol, point) =~= "te/device/"@ + device + "/ot/"@ + protocol
        + "/"@ + rest);
}

/// Silence on a device of others counts while the connector works; a device that answers nothing
/// has to be told of while the connector goes on; and a descriptor has to be JSON.
pub proof fn silence_counts_while_the_connector_works(
    alive: Option<Seq<char>>,
    answers: Seq<Seq<char>>,
    reported: Option<Seq<char>>,
    running: Option<Seq<char>>,
    came: Result<bool, Seq<char>>,
)
    ensures
        ownership_finding(alive, answers) is Ok <==> alive is None && answers.len() == 0,
        silent_peer_finding(reported, running) is Ok <==> reported is None && running is None,
        descriptor_finding(came) is Ok <==> came == Ok::<bool, Seq<char>>(true),
{
}

} // verus!
