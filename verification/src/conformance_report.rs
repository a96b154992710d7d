//! What the checks of a connector's behaviour put into the report: which points they are made on,
//! and what is noted where there is no such point.
use crate::conformance::{checked_views, Captured, CheckedView, Point};
use crate::conformance_checks::{
    bounded_point, is_first_bounded, is_first_mirror, is_first_readable, is_writable, mirror_point,
    mirrored, point_to_mirror, readable_point, tallied, writable_point, Tally, NEW_POINT,
};
use crate::conformance_manifest::{check_manifest, manifest_errors};
use crate::json::{Json, JsonView};
use crate::report::{concluded, finding_of, CheckView, Finding, Layer, Verdict};
use crate::text::{concat2, concat3, join, joined, text_of, texts};
use vstd::prelude::*;

verus! {

/// What errors make a check find: nothing wrong, or all of them.
pub open spec fn errors_finding(errors: Seq<Seq<char>>) -> Result<Option<Seq<char>>, Seq<char>> {
    if errors.len() == 0 {
        Ok(None)
    } else {
        Err(joined(errors, "; "@))
    }
}

/// What a manifest that was waited for shows. `schema` is what its schema finds wrong with it.
pub open spec fn manifest_finding(
    awaited: Result<Captured, String>,
    schema: Option<Seq<char>>,
    protocol: Seq<char>,
    points: Seq<CheckedView>,
    device: Seq<char>,
) -> Result<Option<Seq<char>>, Seq<char>> {
    match awaited {
        Err(e) => Err(e@),
        Ok(c) => match c.json {
            None => Err("payload is not JSON"@),
            Some(j) => errors_finding(manifest_errors(j@, schema, protocol, points, device)),
        },
    }
}

/// Notes what a manifest that was waited for shows: it fails with everything that is wrong with
/// it.
pub fn check_b1_manifest(
    layer: &mut Layer,
    awaited: Result<Captured, String>,
    schema: Option<String>,
    protocol: &str,
    points: &Vec<Point>,
    device: &str,
)
    ensures
        final(layer)@ == old(layer)@.push(
            concluded(
                "B1-manifest-"@ + device@,
                "retained device manifest lists every configured point"@,
                manifest_finding(
                    awaited,
                    text_of(schema),
                    protocol@,
                    checked_views(points@),
                    device@,
                ),
            ),
        ),
        final(layer).name == old(layer).name,
{
    let found: Finding = match &awaited {
        Err(e) => Err(e.clone()),
        Ok(c) => match &c.json {
            None => Err("payload is not JSON".to_owned()),
            Some(json) => {
                let wrong: Vec<String> = check_manifest(json, schema, protocol, points, device);
                if wrong.len() == 0 {
                    Ok(None)
                } else {
                    Err(join(&wrong, "; "))
                }
            },
        },
    };
    let id: String = concat2("B1-manifest-", device);
    layer.check(id.as_str(), "retained device manifest lists every configured point", found);
}

/// How the check of a point's reading is called.
pub open spec fn sample_check_name(id: Seq<char>, invalid: bool) -> Seq<char> {
    "point '"@ + id + "' publishes a conformant "@ + if invalid {
        "bad-quality"@
    } else {
        "good"@
    } + " sample"@
}

/// Notes what a point's reading shows. A behaviour counts as shown only by a reading with nothing
/// wrong.
pub fn report_sample(
    layer: &mut Layer,
    tally: &mut Tally,
    point: &Point,
    invalid: bool,
    found: Finding,
)
    ensures
        final(layer)@ == old(layer)@.push(
            concluded(
                "B2-sample-"@ + point.id@,
                sample_check_name(point.id@, invalid),
                finding_of(found),
            ),
        ),
        final(layer).name == old(layer).name,
        *final(tally) == if found is Ok {
            tallied(*old(tally), point.mode, invalid)
        } else {
            *old(tally)
        },
{
    if found.is_ok() {
        tally.note(point.mode, invalid);
    }
    let id: String = concat2("B2-sample-", point.id.as_str());
    let mut name: String = concat3("point '", point.id.as_str(), "' publishes a conformant ");
    if invalid {
        name.append("bad-quality");
    } else {
        name.append("good");
    }
    name.append(" sample");
    layer.check(id.as_str(), name.as_str(), found);
}

/// A check that is left out.
pub open spec fn skipped(id: Seq<char>, name: Seq<char>, reason: Seq<char>) -> CheckView {
    CheckView { id, name, verdict: Verdict::Skip, detail: Some(reason) }
}

/// The point whose readings have to be numbered: the first that is read as a value. Where there
/// is none, the check is left out.
pub fn numbered_point(layer: &mut Layer, points: &Vec<Point>, invalid: &Vec<bool>) -> (r: Option<
    usize,
>)
    requires
        points@.len() == invalid@.len(),
    ensures
        is_first_readable(points@, invalid@, false, r),
        final(layer)@ == match r {
            Some(_) => old(layer)@,
            None => old(layer)@.push(
                skipped(
                    "B2-seq"@,
                    "per-point seq is monotonic"@,
                    "no good typed point configured"@,
                ),
            ),
        },
        final(layer).name == old(layer).name,
{
    let found: Option<usize> = readable_point(points, invalid, false);
    if found.is_none() {
        layer.skip(
            "B2-seq",
            "per-point seq is monotonic",
            "no good typed point configured".to_owned(),
        );
    }
    found
}

/// The points that a write can be made to and read back, by their places.
pub open spec fn written(points: Seq<CheckedView>) -> Seq<int>
    decreases points.len(),
{
    if points.len() == 0 {
        Seq::empty()
    } else if writable_point(points.last()) {
        written(points.drop_last()).push(points.len() - 1)
    } else {
        written(points.drop_last())
    }
}

/// The points that are written, by their places. Where there is none, the check fails.
pub fn written_points(layer: &mut Layer, points: &Vec<Point>) -> (r: Vec<usize>)
    ensures
        r@.map_values(|i: usize| i as int) == written(checked_views(points@)),
        final(layer)@ == if r@.len() == 0 {
            old(layer)@.push(
                concluded(
                    "B6-write"@,
                    "write verb round-trips"@,
                    Err("the conformance config declares no writable typed point"@),
                ),
            )
        } else {
            old(layer)@
        },
        final(layer).name == old(layer).name,
{
    let ghost all = checked_views(points@);
    let mut found: Vec<usize> = Vec::new();
    let mut i: usize = 0;
    assert(found@.map_values(|i: usize| i as int) =~= written(all.take(0)));
    while i < points.len()
        invariant
            i <= points@.len(),
            all == checked_views(points@),
            found@.map_values(|i: usize| i as int) == written(all.take(i as int)),
        decreases points@.len() - i,
    {
        assert(all.take(i + 1).drop_last() =~= all.take(i as int));
        assert(all.take(i + 1).last() == points@[i as int]@);
        if is_writable(&points[i]) {
            let ghost before = found@.map_values(|i: usize| i as int);
            found.push(i);
            assert(found@.map_values(|i: usize| i as int) =~= before.push(i as int));
        }
        i = i + 1;
    }
    assert(all.take(all.len() as int) =~= all);
    if found.len() == 0 {
        layer.fail(
            "B6-write",
            "write verb round-trips",
            "the conformance config declares no writable typed point".to_owned(),
        );
    }
    found
}

/// Notes what a write to a point showed; or, where none could be made up, that there was none.
pub fn report_write(layer: &mut Layer, point: &str, found: Option<Finding>)
    ensures
        final(layer)@ == old(layer)@.push(
            match found {
                Some(f) => concluded(
                    "B6-write-"@ + point@,
                    "write to '"@ + point@ + "' executes and round-trips"@,
                    finding_of(f),
                ),
                None => skipped(
                    "B6-write-"@ + point@,
                    "write to '"@ + point@ + "' executes and round-trips"@,
                    "no probe value for the datatype"@,
                ),
            },
        ),
        final(layer).name == old(layer).name,
{
    let id: String = concat2("B6-write-", point);
    let name: String = concat3("write to '", point, "' executes and round-trips");
    match found {
        Some(f) => layer.check(id.as_str(), name.as_str(), f),
        None => layer.skip(
            id.as_str(),
            name.as_str(),
            "no probe value for the datatype".to_owned(),
        ),
    }
}

/// The point that a write has to be denied on: the first that is read as a value and only read.
/// Where there is none, the check fails.
pub fn denied_point(layer: &mut Layer, points: &Vec<Point>, invalid: &Vec<bool>) -> (r: Option<
    usize,
>)
    requires
        points@.len() == invalid@.len(),
    ensures
        is_first_readable(points@, invalid@, true, r),
        final(layer)@ == match r {
            Some(_) => old(layer)@,
            None => old(layer)@.push(
                concluded(
                    "B7-access"@,
                    "write to a read-only point is rejected"@,
                    Err("the conformance config declares no read-only typed point"@),
                ),
            ),
        },
        final(layer).name == old(layer).name,
{
    let found: Option<usize> = readable_point(points, invalid, true);
    if found.is_none() {
        layer.fail(
            "B7-access",
            "write to a read-only point is rejected",
            "the conformance config declares no read-only typed point".to_owned(),
        );
    }
    found
}

/// A range that bounds nothing.
pub open spec fn boundless(p: CheckedView) -> bool {
    match p.range {
        Some(r) => r.min is None && r.max is None,
        None => true,
    }
}

/// Why a write outside of a range is not made, where it is not. `first` is the place of the first
/// point that can be written and has a range.
pub open spec fn range_skip(points: Seq<Point>, first: Option<usize>) -> Option<Seq<char>> {
    match first {
        None => Some("the conformance config declares no writable point with a range"@),
        Some(i) => if boundless(points[i as int]@) {
            Some("the point's range bounds nothing"@)
        } else {
            None
        },
    }
}

/// The point that a write outside of the range is made to: the first that can be written and has
/// a range. Where there is none, or where its range bounds nothing, the check is left out.
pub fn ranged_point(layer: &mut Layer, points: &Vec<Point>) -> (r: Option<usize>)
    ensures
        exists|first: Option<usize>| #[trigger]
            is_first_bounded(points@, first) && match range_skip(points@, first) {
                None => r == first && final(layer)@ == old(layer)@,
                Some(reason) => r is None && final(layer)@ == old(layer)@.push(
                    skipped(
                        "B7-range"@,
                        "a write outside the point's range fails and never reaches the device"@,
                        reason,
                    ),
                ),
            },
        final(layer).name == old(layer).name,
{
    let first: Option<usize> = bounded_point(points);
    let reason: String = match first {
        None => "the conformance config declares no writable point with a range".to_owned(),
        Some(i) => {
            let bounds: bool = match &points[i].range {
                Some(range) => range.min.is_some() || range.max.is_some(),
                None => false,
            };
            if bounds {
                assert(is_first_bounded(points@, first));
                return first;
            }
            "the point's range bounds nothing".to_owned()
        },
    };
    assert(is_first_bounded(points@, first));
    layer.skip(
        "B7-range",
        "a write outside the point's range fails and never reaches the device",
        reason,
    );
    None
}

/// A device with a point more, which is the first that another can be made like, under a new id.
pub fn with_mirror(device: &Json, points: &Vec<Point>, invalid: &Vec<bool>) -> (r: Result<
    Json,
    String,
>)
    requires
        points@.len() == invalid@.len(),
    ensures
        exists|first: Option<usize>| #[trigger]
            is_first_mirror(points@, invalid@, first) && mirror_result(r) == match first {
                None => Err::<JsonView, Seq<char>>("no good typed point to mirror"@),
                Some(i) => mirrored(device@, points@[i as int].id@, NEW_POINT@),
            },
{
    let first: Option<usize> = point_to_mirror(points, invalid);
    assert(is_first_mirror(points@, invalid@, first));
    match first {
        None => Err("no good typed point to mirror".to_owned()),
        Some(i) => mirror_point(device, points[i].id.as_str(), NEW_POINT),
    }
}

/// A value, or why there is none.
pub open spec fn mirror_result(r: Result<Json, String>) -> Result<JsonView, Seq<char>> {
    match r {
        Ok(j) => Ok(j@),
        Err(e) => Err(e@),
    }
}

/// The points that are written are those that a write can be made to and read back, in their
/// order.
pub proof fn written_points_are_those_that_can_be(points: Seq<CheckedView>, i: int)
    ensures
        written(points).contains(i) <==> 0 <= i < points.len() && writable_point(points[i]),
    decreases points.len(),
{
    if points.len() > 0 {
        let before = points.drop_last();
        let head = written(before);
        let all = written(points);
        written_points_are_those_that_can_be(before, i);
        if head.contains(i) {
            let k = choose|k: int| 0 <= k < head.len() && head[k] == i;
            assert(all[k] == i);
        }
        if writable_point(points.last()) {
            assert(all[head.len() as int] == points.len() - 1);
        }
        if all.contains(i) && !head.contains(i) {
            let k = choose|k: int| 0 <= k < all.len() && all[k] == i;
            if k < head.len() {
                assert(head[k] == i);
            }
        }
    }
}

/// A range check is left out where no point has a range, or where the range of the first bounds
/// nothing; a manifest is right where nothing is wrong with it.
pub proof fn checks_are_left_out_where_nothing_is_bounded(
    points: Seq<Point>,
    first: Option<usize>,
    errors: Seq<Seq<char>>,
)
    ensures
        range_skip(points, first) is None <==> (first matches Some(i) && (
        points[i as int]@.range matches Some(r) && (r.min is Some || r.max is Some))),
        errors_finding(errors) is Ok <==> errors.len() == 0,
{
}

} // verus!
