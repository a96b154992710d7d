//! Several writes in one command: they are made in turn, up to the first that fails.
use crate::connector::{CommandRequest, CommandResult};
use crate::json::{
    copy_json, text_member, text_view, text_views, view_of, views, with_optional, Fields, Json,
    JsonObject, JsonView, member,
};
use crate::keyed::{field, with_field};
use crate::text::{as_deref, concat3, copy_text, push_decimal, decimal_text, text_of, texts};
use vstd::prelude::*;

verus! {

/// One of the writes.
#[derive(Debug, PartialEq)]
pub struct BatchWrite {
    pub point: String,
    pub value: Option<Json>,
    pub raw: Option<String>,
}

/// What a write is.
#[verifier::ext_equal]
pub struct WriteView {
    pub point: Seq<char>,
    pub value: Option<JsonView>,
    pub raw: Option<Seq<char>>,
}

impl View for BatchWrite {
    type V = WriteView;

    open spec fn view(&self) -> WriteView {
        WriteView { point: self.point@, value: view_of(self.value), raw: text_of(self.raw) }
    }
}

/// What each write is.
pub open spec fn write_views(v: Seq<BatchWrite>) -> Seq<WriteView> {
    v.map_values(|w: BatchWrite| w@)
}

/// A value that is there and is not null.
pub open spec fn given(v: Option<JsonView>) -> Option<JsonView> {
    match v {
        Some(JsonView::Null) => None,
        _ => v,
    }
}

/// The write that an entry asks for, or what is wrong with it.
pub open spec fn write_of(entry: JsonView, i: nat) -> Result<WriteView, Seq<char>> {
    let value = given(member(entry, "value"@));
    let raw = text_member(entry, "raw"@);
    match text_member(entry, "point"@) {
        Some(point) => if point.len() == 0 {
            Err("writes["@ + decimal_text(i) + "] has no `point`"@)
        } else if value is None && raw is None {
            Err("writes["@ + decimal_text(i) + "] ("@ + point + ") has neither `value` nor `raw`"@)
        } else {
            Ok(WriteView { point, value, raw })
        },
        None => Err("writes["@ + decimal_text(i) + "] has no `point`"@),
    }
}

/// The writes that the first `n` entries ask for, or what is wrong with the first that is wrong.
pub open spec fn writes_of(entries: Seq<JsonView>, n: int) -> Result<Seq<WriteView>, Seq<char>>
    decreases n,
{
    if n <= 0 {
        Ok(Seq::empty())
    } else {
        match writes_of(entries, n - 1) {
            Ok(head) => match write_of(entries[n - 1], (n - 1) as nat) {
                Ok(w) => Ok(head.push(w)),
                Err(e) => Err(e),
            },
            Err(e) => Err(e),
        }
    }
}

/// The writes that a request asks for, or what is wrong with it. One without writes is refused:
/// it would succeed without touching the device.
pub open spec fn requested_writes(request: JsonView) -> Result<Seq<WriteView>, Seq<char>> {
    match member(request, "writes"@) {
        Some(JsonView::Array(entries)) => if entries.len() == 0 {
            Err("write-batch request has no writes"@)
        } else {
            writes_of(entries, entries.len() as int)
        },
        _ => Err("write-batch request needs a `writes` array"@),
    }
}

/// The writes that were read, or what is wrong.
pub open spec fn writes_result(r: Result<Vec<BatchWrite>, String>) -> Result<
    Seq<WriteView>,
    Seq<char>,
> {
    match r {
        Ok(v) => Ok(write_views(v@)),
        Err(e) => Err(e@),
    }
}

fn place(i: usize) -> (r: String)
    ensures
        r@ == "writes["@ + decimal_text(i as nat),
{
    let mut out: String = "writes[".to_owned();
    push_decimal(&mut out, i as u64);
    out
}

fn parse_write(entry: &Json, i: usize) -> (r: Result<BatchWrite, String>)
    ensures
        match r {
            Ok(w) => write_of(entry@, i as nat) == Ok::<WriteView, Seq<char>>(w@),
            Err(e) => write_of(entry@, i as nat) == Err::<WriteView, Seq<char>>(e@),
        },
{
    let point: &str = match entry.get_str("point") {
        Some(p) => p,
        None => "",
    };
    if point.is_empty() {
        let mut reason: String = place(i);
        reason.append("] has no `point`");
        proof {
            reveal_strlit("");
        }
        return Err(reason);
    }
    let value: Option<Json> = match entry.get("value") {
        Some(v) => {
            proof {
                v.lemma_view();
            }
            match v {
                Json::Null => None,
                _ => Some(v.clone()),
            }
        },
        None => None,
    };
    let raw: Option<String> = match entry.get_str("raw") {
        Some(s) => Some(s.to_owned()),
        None => None,
    };
    proof {
        reveal_strlit("");
    }
    if value.is_none() && raw.is_none() {
        let mut reason: String = place(i);
        reason.append("] (");
        reason.append(point);
        reason.append(") has neither `value` nor `raw`");
        return Err(reason);
    }
    Ok(BatchWrite { point: point.to_owned(), value, raw })
}

/// The writes that a request asks for, or what is wrong with it.
pub fn parse_batch_writes(request: &Json) -> (r: Result<Vec<BatchWrite>, String>)
    ensures
        writes_result(r) == requested_writes(request@),
{
    let entries: &Vec<Json> = match request.get("writes") {
        Some(w) => match w.as_array() {
            Some(a) => a,
            None => {
                return Err("write-batch request needs a `writes` array".to_owned());
            },
        },
        None => {
            return Err("write-batch request needs a `writes` array".to_owned());
        },
    };
    let ghost all = views(entries@);
    if entries.len() == 0 {
        return Err("write-batch request has no writes".to_owned());
    }
    let mut out: Vec<BatchWrite> = Vec::new();
    let mut i: usize = 0;
    assert(write_views(out@) =~= Seq::<WriteView>::empty());
    while i < entries.len()
        invariant
            i <= entries@.len() == all.len(),
            all == views(entries@),
            all.len() > 0,
            member(request@, "writes"@) == Some(JsonView::Array(all)),
            writes_of(all, i as int) == Ok::<Seq<WriteView>, Seq<char>>(write_views(out@)),
        decreases entries@.len() - i,
    {
        assert(all[i as int] == entries@[i as int]@);
        assert(writes_of(all, i + 1) == match write_of(all[i as int], i as nat) {
            Ok(w) => Ok(write_views(out@).push(w)),
            Err(e) => Err(e),
        });
        match parse_write(&entries[i], i) {
            Ok(w) => {
                let ghost was = write_views(out@);
                out.push(w);
                assert(write_views(out@) =~= was.push(w@));
            },
            Err(e) => {
                proof {
                    wrong_entry_stays_wrong(all, i + 1, all.len() as int);
                }
                return Err(e);
            },
        }
        i = i + 1;
    }
    Ok(out)
}

proof fn wrong_entry_stays_wrong(entries: Seq<JsonView>, n: int, m: int)
    requires
        0 <= n <= m,
        writes_of(entries, n) is Err,
    ensures
        writes_of(entries, m) == writes_of(entries, n),
    decreases m,
{
    if n < m {
        wrong_entry_stays_wrong(entries, n, m - 1);
    }
}

proof fn as_many_as_entries(entries: Seq<JsonView>, n: int)
    requires
        0 <= n,
        writes_of(entries, n) is Ok,
    ensures
        writes_of(entries, n)->Ok_0.len() == n,
    decreases n,
{
    if n > 0 {
        as_many_as_entries(entries, n - 1);
    }
}

/// A request that is taken has a write for each of its entries, and at least one.
pub proof fn taken_requests_have_writes(request: JsonView)
    requires
        requested_writes(request) is Ok,
    ensures
        member(request, "writes"@) matches Some(JsonView::Array(entries)) && requested_writes(
            request,
        )->Ok_0.len() == entries.len() && entries.len() > 0,
{
    match member(request, "writes"@) {
        Some(JsonView::Array(entries)) => as_many_as_entries(entries, entries.len() as int),
        _ => {},
    }
}

/// What a batch came to: that every write was made, or why one was not; and each result.
pub open spec fn batch_fields(failure: Option<Seq<char>>, results: Seq<JsonView>) -> Fields {
    let f = Fields::empty();
    let f = match failure {
        None => with_field(f, "status"@, JsonView::Text("successful"@)),
        Some(reason) => with_field(
            with_field(f, "status"@, JsonView::Text("failed"@)),
            "reason"@,
            JsonView::Text(reason),
        ),
    };
    with_field(f, "results"@, JsonView::Array(results))
}

/// What a batch came to.
pub fn batch_result(failure: Option<String>, results: Vec<Json>) -> (r: Json)
    ensures
        r@ == JsonView::Object(batch_fields(text_of(failure), views(results@))),
{
    let mut obj = JsonObject::new();
    match failure {
        None => {
            obj.insert("status", Json::text("successful"));
        },
        Some(reason) => {
            obj.insert("status", Json::text("failed"));
            obj.insert("reason", Json::of_string(reason));
        },
    }
    obj.insert("results", Json::of_items(results));
    Json::of_object(obj)
}

/// What a write did.
#[verifier::ext_equal]
pub struct ResultView {
    pub point: Seq<char>,
    pub value: Option<JsonView>,
    pub raw: Option<Seq<char>>,
}

impl View for CommandResult {
    type V = ResultView;

    open spec fn view(&self) -> ResultView {
        ResultView { point: self.point@, value: view_of(self.value), raw: text_of(self.raw) }
    }
}

/// What came of a write: what it did, or why it failed.
pub open spec fn outcome_of(r: Result<CommandResult, String>) -> Result<ResultView, Seq<char>> {
    match r {
        Ok(v) => Ok(v@),
        Err(e) => Err(e@),
    }
}

/// The fields that tell of a write that was made.
pub open spec fn success_fields(r: ResultView) -> Fields {
    let f = with_field(Fields::empty(), "status"@, JsonView::Text("successful"@));
    let f = with_field(f, "point"@, JsonView::Text(r.point));
    let f = with_optional(f, "value"@, r.value);
    with_optional(f, "raw"@, text_view(r.raw))
}

/// The fields that tell of a write that failed.
pub open spec fn failure_fields(point: Seq<char>, reason: Seq<char>) -> Fields {
    let f = with_field(Fields::empty(), "status"@, JsonView::Text("failed"@));
    let f = with_field(f, "point"@, JsonView::Text(point));
    with_field(f, "reason"@, JsonView::Text(reason))
}

/// The fields that tell of a write that was made.
pub fn success(result: CommandResult) -> (r: JsonObject)
    ensures
        r@ == success_fields(result@),
{
    let mut obj = JsonObject::new();
    obj.insert("status", Json::text("successful"));
    obj.insert("point", Json::of_string(result.point));
    obj.insert_optional("value", result.value);
    obj.insert_text("raw", as_deref(&result.raw));
    obj
}

/// The fields that tell of a write that failed.
pub fn failure(point: &str, reason: &str) -> (r: JsonObject)
    ensures
        r@ == failure_fields(point@, reason@),
{
    let mut obj = JsonObject::new();
    obj.insert("status", Json::text("failed"));
    obj.insert("point", Json::text(point));
    obj.insert("reason", Json::text(reason));
    obj
}

/// Why a write of a batch failed.
pub open spec fn write_failure(point: Seq<char>, error: Seq<char>) -> Seq<char> {
    "write to "@ + point + " failed: "@ + error
}

/// How far a batch has come.
#[verifier::ext_equal]
pub struct BatchView {
    pub writes: Seq<WriteView>,
    pub results: Seq<JsonView>,
    pub failure: Option<Seq<char>>,
}

/// A batch that is under way.
#[derive(Debug, PartialEq)]
pub struct BatchRun {
    writes: Vec<BatchWrite>,
    results: Vec<Json>,
    failure: Option<String>,
}

impl View for BatchRun {
    type V = BatchView;

    closed spec fn view(&self) -> BatchView {
        BatchView {
            writes: write_views(self.writes@),
            results: views(self.results@),
            failure: text_of(self.failure),
        }
    }
}

/// What a module is asked for.
#[verifier::ext_equal]
pub struct RequestView {
    pub point: Seq<char>,
    pub value: Option<JsonView>,
    pub value_repr: Option<Seq<char>>,
    pub raw: Option<Seq<char>>,
}

impl View for CommandRequest {
    type V = RequestView;

    open spec fn view(&self) -> RequestView {
        RequestView {
            point: self.point@,
            value: view_of(self.value),
            value_repr: text_of(self.value_repr),
            raw: text_of(self.raw),
        }
    }
}

/// What an optional request is.
pub open spec fn request_of(r: Option<CommandRequest>) -> Option<RequestView> {
    match r {
        Some(x) => Some(x@),
        None => None,
    }
}

/// The write that is to be made next: none once one failed.
pub open spec fn next_write(b: BatchView) -> Option<RequestView> {
    if b.failure is None && b.results.len() < b.writes.len() {
        let w = b.writes[b.results.len() as int];
        Some(RequestView { point: w.point, value: w.value, value_repr: None, raw: w.raw })
    } else {
        None
    }
}

/// The batch once the next write was made or failed.
pub open spec fn after_write(b: BatchView, outcome: Result<ResultView, Seq<char>>) -> BatchView {
    match outcome {
        Ok(r) => BatchView { results: b.results.push(JsonView::Object(success_fields(r))), ..b },
        Err(e) => {
            let point = b.writes[b.results.len() as int].point;
            let reason = write_failure(point, e);
            BatchView {
                results: b.results.push(JsonView::Object(failure_fields(point, reason))),
                failure: Some(reason),
                ..b
            }
        },
    }
}

/// The batch of a request, before its first write.
pub open spec fn fresh_batch(writes: Seq<WriteView>) -> BatchView {
    BatchView { writes, results: Seq::empty(), failure: None }
}

/// The points of writes, in turn.
pub open spec fn write_points(writes: Seq<WriteView>) -> Seq<Seq<char>> {
    writes.map_values(|w: WriteView| w.point)
}

/// The fields that tell that a batch is under way.
pub open spec fn batch_started(writes: Seq<WriteView>) -> Fields {
    let f = with_field(Fields::empty(), "status"@, JsonView::Text("executing"@));
    with_field(f, "points"@, JsonView::Array(text_views(write_points(writes))))
}

/// The fields that tell why a batch is refused.
pub open spec fn batch_refused(reason: Seq<char>) -> Fields {
    batch_fields(Some(reason), Seq::empty())
}

impl BatchRun {
    /// The batch of these writes, before its first write.
    pub fn new(writes: Vec<BatchWrite>) -> (r: BatchRun)
        ensures
            r@ == fresh_batch(write_views(writes@)),
    {
        let r = BatchRun { writes, results: Vec::new(), failure: None };
        assert(views(r.results@) =~= Seq::<JsonView>::empty());
        r
    }

    /// That the batch is under way.
    pub fn started(&self) -> (r: JsonObject)
        ensures
            r@ == batch_started(self@.writes),
    {
        let mut points: Vec<String> = Vec::new();
        let mut i: usize = 0;
        while i < self.writes.len()
            invariant
                i <= self.writes@.len(),
                points@.len() == i,
                forall|k: int| 0 <= k < i ==> (#[trigger] points@[k])@ == self.writes@[k].point@,
            decreases self.writes@.len() - i,
        {
            points.push(self.writes[i].point.clone());
            i = i + 1;
        }
        assert(texts(points@) =~= write_points(self@.writes));
        let mut obj = JsonObject::new();
        obj.insert("status", Json::text("executing"));
        obj.insert("points", Json::of_texts(&points));
        obj
    }

    /// The write that is to be made next.
    pub fn next(&self) -> (r: Option<CommandRequest>)
        ensures
            request_of(r) == next_write(self@),
    {
        if self.failure.is_some() || self.results.len() >= self.writes.len() {
            return None;
        }
        let w: &BatchWrite = &self.writes[self.results.len()];
        assert(self@.writes[self@.results.len() as int] == w@);
        Some(
            CommandRequest {
                point: w.point.clone(),
                value: copy_json(&w.value),
                value_repr: None,
                raw: copy_text(&w.raw),
            },
        )
    }

    /// Notes what came of that write.
    pub fn note(&mut self, outcome: Result<CommandResult, String>)
        requires
            next_write(old(self)@) is Some,
        ensures
            final(self)@ == after_write(old(self)@, outcome_of(outcome)),
    {
        let ghost before = self@;
        match outcome {
            Ok(result) => {
                let json: Json = Json::of_object(success(result));
                self.results.push(json);
                assert(views(self.results@) =~= before.results.push(json@));
            },
            Err(e) => {
                let i: usize = self.results.len();
                let mut reason: String = concat3(
                    "write to ",
                    self.writes[i].point.as_str(),
                    " failed: ",
                );
                reason.append(e.as_str());
                assert(before.writes[i as int] == self.writes@[i as int]@);
                let json: Json = Json::of_object(
                    failure(self.writes[i].point.as_str(), reason.as_str()),
                );
                self.results.push(json);
                assert(views(self.results@) =~= before.results.push(json@));
                self.failure = Some(reason);
            },
        }
    }

    /// What the batch came to.
    pub fn finish(self) -> (r: Json)
        ensures
            r@ == JsonView::Object(batch_fields(self@.failure, self@.results)),
    {
        batch_result(self.failure, self.results)
    }
}

/// The batch after these outcomes of its writes.
pub open spec fn batch_after(
    writes: Seq<WriteView>,
    outcomes: Seq<Result<ResultView, Seq<char>>>,
) -> BatchView
    decreases outcomes.len(),
{
    if outcomes.len() == 0 {
        fresh_batch(writes)
    } else {
        after_write(batch_after(writes, outcomes.drop_last()), outcomes.last())
    }
}

/// A batch makes its writes in turn: after as many as succeeded, the next one is made, until
/// none is left.
pub proof fn writes_are_made_in_turn(
    writes: Seq<WriteView>,
    outcomes: Seq<Result<ResultView, Seq<char>>>,
)
    requires
        outcomes.len() <= writes.len(),
        forall|i: int| 0 <= i < outcomes.len() ==> (#[trigger] outcomes[i]) is Ok,
    ensures
        batch_after(writes, outcomes).failure is None,
        batch_after(writes, outcomes).results.len() == outcomes.len(),
        outcomes.len() < writes.len() ==> next_write(batch_after(writes, outcomes)) == Some(
            RequestView {
                point: writes[outcomes.len() as int].point,
                value: writes[outcomes.len() as int].value,
                value_repr: None,
                raw: writes[outcomes.len() as int].raw,
            },
        ),
        outcomes.len() == writes.len() ==> next_write(batch_after(writes, outcomes)) is None,
        batch_after(writes, outcomes).writes == writes,
    decreases outcomes.len(),
{
    if outcomes.len() > 0 {
        let init = outcomes.drop_last();
        assert(outcomes.last() is Ok);
        assert forall|i: int| 0 <= i < init.len() implies (#[trigger] init[i]) is Ok by {
            assert(init[i] == outcomes[i]);
        }
        writes_are_made_in_turn(writes, init);
    }
}

/// A batch ends with the first write that fails: no later one is made, its result is the last,
/// and the batch says why.
pub proof fn a_failed_write_ends_the_batch(
    writes: Seq<WriteView>,
    outcomes: Seq<Result<ResultView, Seq<char>>>,
    error: Seq<char>,
)
    requires
        outcomes.len() < writes.len(),
        forall|i: int| 0 <= i < outcomes.len() ==> (#[trigger] outcomes[i]) is Ok,
    ensures
        ({
            let b = batch_after(writes, outcomes.push(Err(error)));
            let reason = write_failure(writes[outcomes.len() as int].point, error);
            &&& next_write(b) is None
            &&& b.failure == Some(reason)
            &&& b.results.len() == outcomes.len() + 1
            &&& b.results.last() == JsonView::Object(
                failure_fields(writes[outcomes.len() as int].point, reason),
            )
        }),
{
    writes_are_made_in_turn(writes, outcomes);
    assert(outcomes.push(Err(error)).drop_last() =~= outcomes);
}

/// An entry asks for a write: it names a point, and gives a value that is not null, or bytes.
pub open spec fn asks_for_a_write(entry: JsonView) -> bool {
    &&& text_member(entry, "point"@) matches Some(p) && p.len() > 0
    &&& (member(entry, "value"@) is Some && member(entry, "value"@)->0 !is Null) || text_member(
        entry,
        "raw"@,
    ) is Some
}

/// The first `n` entries are taken exactly where each asks for a write; and each write is of the
/// point, the value and the bytes that its entry gives.
pub proof fn writes_are_those_of_the_entries(entries: Seq<JsonView>, n: int)
    requires
        0 <= n <= entries.len(),
    ensures
        writes_of(entries, n) is Ok <==> (forall|i: int|
            0 <= i < n ==> asks_for_a_write(#[trigger] entries[i])),
        writes_of(entries, n) matches Ok(w) ==> w.len() == n && forall|i: int|
            0 <= i < n ==> Some((#[trigger] w[i]).point) == text_member(entries[i], "point"@)
                && w[i].raw == text_member(entries[i], "raw"@) && w[i].value == (if member(
                entries[i],
                "value"@,
            ) == Some(JsonView::Null) {
                None
            } else {
                member(entries[i], "value"@)
            }),
    decreases n,
{
    if n > 0 {
        writes_are_those_of_the_entries(entries, n - 1);
        if writes_of(entries, n) is Ok {
            assert forall|i: int| 0 <= i < n implies asks_for_a_write(#[trigger] entries[i]) by {
                if i == n - 1 {
                    assert(write_of(entries[n - 1], (n - 1) as nat) is Ok);
                }
            }
        }
        if forall|i: int| 0 <= i < n ==> asks_for_a_write(#[trigger] entries[i]) {
            assert(asks_for_a_write(entries[n - 1]));
        }
    }
}

proof fn answer_keys()
    ensures
        "status"@.len() == 6 && "reason"@.len() == 6 && "point"@.len() == 5 && "value"@.len() == 5
            && "raw"@.len() == 3 && "results"@.len() == 7 && "points"@.len() == 6,
        "status"@ != "reason"@ && "status"@ != "points"@ && "point"@ != "value"@,
        "successful"@ != "failed"@ && "executing"@ != "failed"@ && "executing"@ != "successful"@,
{
    reveal_strlit("status");
    reveal_strlit("reason");
    reveal_strlit("point");
    reveal_strlit("points");
    reveal_strlit("value");
    reveal_strlit("raw");
    reveal_strlit("results");
    reveal_strlit("successful");
    reveal_strlit("failed");
    reveal_strlit("executing");
    assert("status"@[0] == 's' && "reason"@[0] == 'r' && "points"@[0] == 'p' && "point"@[0] == 'p'
        && "value"@[0] == 'v');
    assert("successful"@.len() == 10 && "failed"@.len() == 6 && "executing"@.len() == 9);
}

/// What is told of a write is whether it was made: then with the point and what was written to it,
/// and else with the point and the reason.
pub proof fn results_say_what_came_of_a_write(r: ResultView, point: Seq<char>, reason: Seq<char>)
    ensures
        ({
            let f = success_fields(r);
            &&& field(f, "status"@) == Some(JsonView::Text("successful"@))
            &&& field(f, "point"@) == Some(JsonView::Text(r.point))
            &&& field(f, "value"@) == r.value
            &&& r.raw matches Some(t) ==> field(f, "raw"@) == Some(JsonView::Text(t))
            &&& r.raw is None ==> field(f, "raw"@) is None
            &&& field(f, "reason"@) is None
        }),
        ({
            let f = failure_fields(point, reason);
            &&& field(f, "status"@) == Some(JsonView::Text("failed"@))
            &&& field(f, "point"@) == Some(JsonView::Text(point))
            &&& field(f, "reason"@) == Some(JsonView::Text(reason))
            &&& field(f, "value"@) is None
        }),
{
    broadcast use crate::keyed::field_once_set;

    answer_keys();
}

/// What is told of a batch is successful where, and only where, no write failed; it carries the
/// result of each write that was tried, and the reason of the failure.
pub proof fn batches_say_what_came_of_them(failure: Option<Seq<char>>, results: Seq<JsonView>)
    ensures
        ({
            let f = batch_fields(failure, results);
            &&& failure is None <==> field(f, "status"@) == Some(JsonView::Text("successful"@))
            &&& failure is Some <==> field(f, "status"@) == Some(JsonView::Text("failed"@))
            &&& failure matches Some(reason) ==> field(f, "reason"@) == Some(JsonView::Text(reason))
            &&& failure is None ==> field(f, "reason"@) is None
            &&& field(f, "results"@) == Some(JsonView::Array(results))
        }),
{
    broadcast use crate::keyed::field_once_set;

    answer_keys();
}

/// Each write that was tried adds its result to those before it, and only one that failed ends the
/// batch.
pub proof fn each_write_adds_its_result(b: BatchView, outcome: Result<ResultView, Seq<char>>)
    ensures
        after_write(b, outcome).writes == b.writes,
        after_write(b, outcome).results.len() == b.results.len() + 1,
        after_write(b, outcome).results.drop_last() == b.results,
        outcome matches Ok(r) ==> after_write(b, outcome).results.last() == JsonView::Object(
            success_fields(r),
        ) && after_write(b, outcome).failure == b.failure,
        outcome is Err ==> after_write(b, outcome).failure is Some && next_write(
            after_write(b, outcome),
        ) is None && member(after_write(b, outcome).results.last(), "status"@) == Some(
            JsonView::Text("failed"@),
        ),
{
    results_say_what_came_of_a_write(
        ResultView { point: Seq::empty(), value: None, raw: None },
        b.writes[b.results.len() as int].point,
        write_failure(b.writes[b.results.len() as int].point, outcome->Err_0),
    );
    assert(after_write(b, outcome).results.drop_last() =~= b.results);
}

} // verus!
