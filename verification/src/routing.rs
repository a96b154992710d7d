//! Commands: whom one is for, what it asks for, and what is answered.
use crate::batch::{
    batch_fields, batch_refused, batch_started, failure, failure_fields, fresh_batch, outcome_of,
    parse_batch_writes, requested_writes, success, success_fields, BatchRun, RequestView,
    ResultView, WriteView,
};
use crate::commands::{is_management_verb, management_verb};
use crate::config::{ConnectorConfig, DeviceConfig};
use crate::connector::{CommandRequest, CommandResult};
use crate::json::{
    member, parsed, text_member, view_of, view_of_ref, with_optional, Fields, Json, JsonObject,
    JsonView,
};
use crate::keyed::{field, with_field};
use crate::links::{device_among, has_device};
use crate::message::{retained, retained_message, Message, MessageView};
use crate::text::{concat3, same_text, split, split_parts, texts};
use vstd::prelude::*;

verus! {

/// Whom a command is for.
#[derive(Debug, PartialEq)]
pub enum CommandRoute {
    /// A device that this connector owns.
    Device { device: String, verb: String },
    /// This connector's service.
    Service { verb: String },
    /// Someone else. It is left alone: an answer would race the one of whom it is for.
    Elsewhere,
}

/// Whom a command is for.
#[verifier::ext_equal]
pub enum RouteView {
    Device { device: Seq<char>, verb: Seq<char> },
    Service { verb: Seq<char> },
    Elsewhere,
}

impl View for CommandRoute {
    type V = RouteView;

    open spec fn view(&self) -> RouteView {
        match self {
            CommandRoute::Device { device, verb } => RouteView::Device {
                device: device@,
                verb: verb@,
            },
            CommandRoute::Service { verb } => RouteView::Service { verb: verb@ },
            CommandRoute::Elsewhere => RouteView::Elsewhere,
        }
    }
}

/// The levels of a topic of a device command: `te/device/<device>/ot/<protocol>/cmd/<verb>/<id>`.
pub open spec fn device_command_levels(p: Seq<Seq<char>>, protocol: Seq<char>) -> bool {
    &&& p.len() == 8
    &&& p[0] == "te"@
    &&& p[1] == "device"@
    &&& p[3] == "ot"@
    &&& p[4] == protocol
    &&& p[5] == "cmd"@
}

/// The levels of a topic of a service command:
/// `te/device/main/service/<service>/ot/cmd/<verb>/<id>`.
pub open spec fn service_command_levels(p: Seq<Seq<char>>, service: Seq<char>) -> bool {
    &&& p.len() == 9
    &&& p[0] == "te"@
    &&& p[1] == "device"@
    &&& p[2] == "main"@
    &&& p[3] == "service"@
    &&& p[4] == service
    &&& p[5] == "ot"@
    &&& p[6] == "cmd"@
}

/// Whom a command on a topic with these levels is for.
pub open spec fn route_of(
    p: Seq<Seq<char>>,
    protocol: Seq<char>,
    service: Seq<char>,
    devices: Seq<DeviceConfig>,
) -> RouteView {
    if device_command_levels(p, protocol) && device_among(devices, p[2]) {
        RouteView::Device { device: p[2], verb: p[6] }
    } else if service_command_levels(p, service) {
        RouteView::Service { verb: p[7] }
    } else {
        RouteView::Elsewhere
    }
}

fn level(parts: &Vec<String>, i: usize, name: &str) -> (r: bool)
    requires
        i < parts@.len(),
    ensures
        r == (texts(parts@)[i as int] == name@),
{
    same_text(parts[i].as_str(), name)
}

/// Whom a command on a topic is for, by the configuration as it is now.
pub fn route_command(topic: &str, protocol: &str, service: &str, config: &ConnectorConfig) -> (r:
    CommandRoute)
    ensures
        r@ == route_of(split_parts(topic@, '/'), protocol@, service@, config.devices@),
{
    let parts: Vec<String> = split(topic, '/');
    let ghost p = texts(parts@);
    if parts.len() == 8 {
        if level(&parts, 0, "te") && level(&parts, 1, "device") && level(&parts, 3, "ot") && level(
            &parts,
            4,
            protocol,
        ) && level(&parts, 5, "cmd") && has_device(config, parts[2].as_str()) {
            return CommandRoute::Device { device: parts[2].clone(), verb: parts[6].clone() };
        }
    } else if parts.len() == 9 {
        if level(&parts, 0, "te") && level(&parts, 1, "device") && level(&parts, 2, "main")
            && level(&parts, 3, "service") && level(&parts, 4, service) && level(&parts, 5, "ot")
            && level(&parts, 6, "cmd") {
            return CommandRoute::Service { verb: parts[7].clone() };
        }
    }
    CommandRoute::Elsewhere
}

/// Of two connectors whose configurations share no device and whose services have different
/// names, at most one is meant by a command.
pub proof fn a_command_is_for_one_connector(
    p: Seq<Seq<char>>,
    protocol: Seq<char>,
    service: Seq<char>,
    devices: Seq<DeviceConfig>,
    other_service: Seq<char>,
    other_devices: Seq<DeviceConfig>,
)
    requires
        service != other_service,
        forall|name: Seq<char>|
            #![trigger device_among(devices, name)]
            !(device_among(devices, name) && device_among(other_devices, name)),
    ensures
        route_of(p, protocol, service, devices) is Elsewhere || route_of(
            p,
            protocol,
            other_service,
            other_devices,
        ) is Elsewhere,
{
    if p.len() > 2 {
        assert(!(device_among(devices, p[2]) && device_among(other_devices, p[2])));
    }
}

/// A value with the request's `origin`, where it is an object and the request has one.
pub open spec fn originated(value: JsonView, origin: Option<JsonView>) -> JsonView {
    match value {
        JsonView::Object(f) => JsonView::Object(with_optional(f, "origin"@, origin)),
        _ => value,
    }
}

/// Carries the `origin` of a request over into what is told of it. A topic keeps one message, so
/// that what is told replaces the request: whoever comes later finds the origin only there.
pub fn with_origin(payload: Json, origin: Option<&Json>) -> (r: Json)
    ensures
        r@ == originated(payload@, view_of_ref(origin)),
{
    proof {
        payload.lemma_view();
    }
    match payload {
        Json::Object(mut obj) => {
            if let Some(o) = origin {
                obj.insert("origin", o.clone());
            }
            Json::of_object(obj)
        },
        other => other,
    }
}

/// The message that tells how a command stands, on the topic of the request.
pub open spec fn transition(topic: Seq<char>, fields: Fields, origin: Option<JsonView>) -> MessageView {
    retained_message(topic, originated(JsonView::Object(fields), origin))
}

fn tell(topic: &str, obj: JsonObject, origin: Option<&Json>) -> (r: Message)
    ensures
        r@ == transition(topic@, obj@, view_of_ref(origin)),
{
    retained(topic, &with_origin(Json::of_object(obj), origin))
}

/// Every message that tells how a command stands carries the request's origin.
pub proof fn transitions_carry_the_origin(fields: Fields, origin: JsonView)
    ensures
        member(originated(JsonView::Object(fields), Some(origin)), "origin"@) == Some(origin),
{
    crate::keyed::set_field_reads_back(fields, "origin"@, origin, "origin"@);
}

/// Why a verb is refused on the topic that it came on.
pub open spec fn refusal(verb: Seq<char>, on_service: bool, protocol: Seq<char>, service: Seq<char>) -> Seq<
    char,
> {
    if on_service {
        "'"@ + verb
            + "' is not a service command: only set-config, define-device and remove-device are; device commands go to te/device/<device>/ot/"@
            + protocol + "/cmd/"@ + verb + "/<id>"@
    } else {
        "management verb '"@ + verb
            + "' is addressed to the connector service: te/device/main/service/"@ + service
            + "/ot/cmd/"@ + verb + "/<id>"@
    }
}

fn refuse(verb: &str, on_service: bool, protocol: &str, service: &str) -> (r: String)
    ensures
        r@ == refusal(verb@, on_service, protocol@, service@),
{
    if on_service {
        let mut out: String = concat3(
            "'",
            verb,
            "' is not a service command: only set-config, define-device and remove-device are; device commands go to te/device/<device>/ot/",
        );
        out.append(protocol);
        out.append("/cmd/");
        out.append(verb);
        out.append("/<id>");
        out
    } else {
        let mut out: String = concat3(
            "management verb '",
            verb,
            "' is addressed to the connector service: te/device/main/service/",
        );
        out.append(service);
        out.append("/ot/cmd/");
        out.append(verb);
        out.append("/<id>");
        out
    }
}

/// The fields that tell why something was not done.
pub open spec fn refused_fields(reason: Seq<char>) -> Fields {
    let f = with_field(Fields::empty(), "status"@, JsonView::Text("failed"@));
    with_field(f, "reason"@, JsonView::Text(reason))
}

fn refused(reason: &str) -> (r: JsonObject)
    ensures
        r@ == refused_fields(reason@),
{
    let mut obj = JsonObject::new();
    obj.insert("status", Json::text("failed"));
    obj.insert("reason", Json::text(reason));
    obj
}

/// The fields that tell that a command for a point is under way.
pub open spec fn executing_fields(point: Seq<char>) -> Fields {
    let f = with_field(Fields::empty(), "status"@, JsonView::Text("executing"@));
    with_field(f, "point"@, JsonView::Text(point))
}

/// The text that is there, or none.
pub open spec fn or_empty(s: Option<Seq<char>>) -> Seq<char> {
    match s {
        Some(t) => t,
        None => Seq::empty(),
    }
}

/// What a module is asked for by a request.
pub open spec fn point_request(request: JsonView) -> RequestView {
    RequestView {
        point: or_empty(text_member(request, "point"@)),
        value: member(request, "value"@),
        value_repr: text_member(request, "value_repr"@),
        raw: text_member(request, "raw"@),
    }
}

/// What is to be done about a command.
#[derive(Debug, PartialEq)]
pub enum Plan {
    /// Nothing.
    Ignore,
    /// The configuration is to be changed.
    Manage { verb: String },
    /// It is refused.
    Refuse { answer: Message },
    /// Its writes cannot be made out.
    RefuseBatch { answer: Message },
    /// Its writes are to be made in turn.
    Batch { device: String, run: BatchRun, announcement: Message },
    /// The module is to be asked.
    Execute { device: String, verb: String, request: CommandRequest, announcement: Message },
}

/// What is to be done about a command.
#[verifier::ext_equal]
pub enum PlanView {
    Ignore,
    Manage { verb: Seq<char> },
    Refuse { answer: MessageView },
    RefuseBatch { answer: MessageView },
    Batch { device: Seq<char>, run: crate::batch::BatchView, announcement: MessageView },
    Execute {
        device: Seq<char>,
        verb: Seq<char>,
        request: RequestView,
        announcement: MessageView,
    },
}

impl View for Plan {
    type V = PlanView;

    open spec fn view(&self) -> PlanView {
        match self {
            Plan::Ignore => PlanView::Ignore,
            Plan::Manage { verb } => PlanView::Manage { verb: verb@ },
            Plan::Refuse { answer } => PlanView::Refuse { answer: answer@ },
            Plan::RefuseBatch { answer } => PlanView::RefuseBatch { answer: answer@ },
            Plan::Batch { device, run, announcement } => PlanView::Batch {
                device: device@,
                run: run@,
                announcement: announcement@,
            },
            Plan::Execute { device, verb, request, announcement } => PlanView::Execute {
                device: device@,
                verb: verb@,
                request: request@,
                announcement: announcement@,
            },
        }
    }
}

/// What is to be done about a device command.
pub open spec fn device_plan(
    topic: Seq<char>,
    device: Seq<char>,
    verb: Seq<char>,
    request: JsonView,
) -> PlanView {
    let origin = member(request, "origin"@);
    if verb == "write-batch"@ {
        match requested_writes(request) {
            Ok(writes) => PlanView::Batch {
                device,
                run: fresh_batch(writes),
                announcement: transition(topic, batch_started(writes), origin),
            },
            Err(reason) => PlanView::RefuseBatch {
                answer: transition(topic, batch_refused(reason), origin),
            },
        }
    } else {
        PlanView::Execute {
            device,
            verb,
            request: point_request(request),
            announcement: transition(
                topic,
                executing_fields(point_request(request).point),
                origin,
            ),
        }
    }
}

/// What is to be done about a request. Only a new one is acted on: the others are what was told
/// of it. A verb on the wrong kind of topic is refused, for no one else is meant by it.
pub open spec fn request_plan(
    topic: Seq<char>,
    route: RouteView,
    protocol: Seq<char>,
    service: Seq<char>,
    request: JsonView,
) -> PlanView {
    let origin = member(request, "origin"@);
    if text_member(request, "status"@) != Some("init"@) {
        PlanView::Ignore
    } else {
        match route {
            RouteView::Elsewhere => PlanView::Ignore,
            RouteView::Service { verb } => if management_verb(verb) {
                PlanView::Manage { verb }
            } else {
                PlanView::Refuse {
                    answer: transition(
                        topic,
                        refused_fields(refusal(verb, true, protocol, service)),
                        origin,
                    ),
                }
            },
            RouteView::Device { device, verb } => if management_verb(verb) {
                PlanView::Refuse {
                    answer: transition(
                        topic,
                        refused_fields(refusal(verb, false, protocol, service)),
                        origin,
                    ),
                }
            } else {
                device_plan(topic, device, verb, request)
            },
        }
    }
}

fn plan_device(topic: &str, device: String, verb: String, request: &Json) -> (r: Plan)
    ensures
        r@ == device_plan(topic@, device@, verb@, request@),
{
    let origin: Option<&Json> = request.get("origin");
    if same_text(verb.as_str(), "write-batch") {
        match parse_batch_writes(request) {
            Ok(writes) => {
                let run: BatchRun = BatchRun::new(writes);
                let announcement: Message = tell(topic, run.started(), origin);
                Plan::Batch { device, run, announcement }
            },
            Err(reason) => {
                let mut obj = JsonObject::new();
                obj.insert("status", Json::text("failed"));
                obj.insert("reason", Json::of_string(reason));
                let none: Vec<Json> = Vec::new();
                assert(crate::json::views(none@) =~= Seq::<JsonView>::empty());
                obj.insert("results", Json::of_items(none));
                Plan::RefuseBatch { answer: tell(topic, obj, origin) }
            },
        }
    } else {
        let point: String = match request.get_str("point") {
            Some(p) => p.to_owned(),
            None => String::new(),
        };
        let value: Option<Json> = match request.get("value") {
            Some(v) => Some(v.clone()),
            None => None,
        };
        let value_repr: Option<String> = match request.get_str("value_repr") {
            Some(s) => Some(s.to_owned()),
            None => None,
        };
        let raw: Option<String> = match request.get_str("raw") {
            Some(s) => Some(s.to_owned()),
            None => None,
        };
        let mut obj = JsonObject::new();
        obj.insert("status", Json::text("executing"));
        obj.insert("point", Json::text(point.as_str()));
        let announcement: Message = tell(topic, obj, origin);
        Plan::Execute {
            device,
            verb,
            request: CommandRequest { point, value, value_repr, raw },
            announcement,
        }
    }
}

/// What is to be done about a request.
pub fn plan_request(
    topic: &str,
    route: CommandRoute,
    protocol: &str,
    service: &str,
    request: &Json,
) -> (r: Plan)
    ensures
        r@ == request_plan(topic@, route@, protocol@, service@, request@),
{
    let fresh: bool = match request.get_str("status") {
        Some(s) => same_text(s, "init"),
        None => false,
    };
    if !fresh {
        return Plan::Ignore;
    }
    let origin: Option<&Json> = request.get("origin");
    match route {
        CommandRoute::Elsewhere => Plan::Ignore,
        CommandRoute::Service { verb } => {
            if is_management_verb(verb.as_str()) {
                Plan::Manage { verb }
            } else {
                let reason: String = refuse(verb.as_str(), true, protocol, service);
                Plan::Refuse { answer: tell(topic, refused(reason.as_str()), origin) }
            }
        },
        CommandRoute::Device { device, verb } => {
            if is_management_verb(verb.as_str()) {
                let reason: String = refuse(verb.as_str(), false, protocol, service);
                Plan::Refuse { answer: tell(topic, refused(reason.as_str()), origin) }
            } else {
                plan_device(topic, device, verb, request)
            }
        },
    }
}

/// A new request that is for this connector is never left alone.
pub proof fn new_requests_are_answered(
    topic: Seq<char>,
    route: RouteView,
    protocol: Seq<char>,
    service: Seq<char>,
    request: JsonView,
)
    requires
        text_member(request, "status"@) == Some("init"@),
        route !is Elsewhere,
    ensures
        request_plan(topic, route, protocol, service, request) !is Ignore,
{
}

/// The fields that tell how a command stands, in each of the ways that a connector tells it.
pub open spec fn tells_how_it_stands(f: Fields) -> bool {
    ||| exists|point: Seq<char>| f == #[trigger] executing_fields(point)
    ||| exists|reason: Seq<char>| f == #[trigger] refused_fields(reason)
    ||| f == status_fields("executing"@)
    ||| f == status_fields("successful"@)
    ||| exists|r: ResultView| f == #[trigger] success_fields(r)
    ||| exists|point: Seq<char>, reason: Seq<char>| f == #[trigger] failure_fields(point, reason)
    ||| exists|writes: Seq<WriteView>| f == #[trigger] batch_started(writes)
    ||| exists|failure: Option<Seq<char>>, results: Seq<JsonView>|
        f == #[trigger] batch_fields(failure, results)
}

/// What a connector tells of a command is no new request, neither to itself nor to another
/// connector that hears it on the same topic.
pub proof fn what_is_told_is_no_request(
    topic: Seq<char>,
    route: RouteView,
    protocol: Seq<char>,
    service: Seq<char>,
    fields: Fields,
    origin: Option<JsonView>,
)
    requires
        tells_how_it_stands(fields),
    ensures
        request_plan(
            topic,
            route,
            protocol,
            service,
            originated(JsonView::Object(fields), origin),
        ) is Ignore,
{
    broadcast use crate::keyed::field_once_set;

    reveal_strlit("status");
    reveal_strlit("origin");
    reveal_strlit("point");
    reveal_strlit("points");
    reveal_strlit("reason");
    reveal_strlit("results");
    reveal_strlit("value");
    reveal_strlit("raw");
    reveal_strlit("init");
    reveal_strlit("executing");
    reveal_strlit("successful");
    reveal_strlit("failed");
    assert("status"@[0] == 's');
    assert("origin"@[0] == 'o');
    assert("point"@[0] == 'p');
    assert("points"@[0] == 'p');
    assert("reason"@[0] == 'r');
    assert("results"@[0] == 'r');
    assert("value"@[0] == 'v');
    assert("raw"@[0] == 'r');
    assert("init"@.len() == 4 && "executing"@.len() == 9 && "successful"@.len() == 10
        && "failed"@.len() == 6);
    assert(field(fields, "status"@) matches Some(JsonView::Text(s)) && s != "init"@);
}

/// What is to be done about a command, by what its payload is. One that is no JSON, such as the
/// empty one that clears a topic, is left alone.
pub open spec fn command_plan(
    topic: Seq<char>,
    protocol: Seq<char>,
    service: Seq<char>,
    devices: Seq<DeviceConfig>,
    request: Option<JsonView>,
) -> PlanView {
    match request {
        Some(v) => request_plan(
            topic,
            route_of(split_parts(topic, '/'), protocol, service, devices),
            protocol,
            service,
            v,
        ),
        None => PlanView::Ignore,
    }
}

/// What is to be done about a command, and the request that it carries.
pub fn handle_command(
    topic: &str,
    payload: &[u8],
    protocol: &str,
    service: &str,
    config: &ConnectorConfig,
) -> (r: (Plan, Option<Json>))
    ensures
        view_of(r.1) == parsed(payload@),
        r.0@ == command_plan(topic@, protocol@, service@, config.devices@, view_of(r.1)),
{
    match Json::parse(payload) {
        Some(request) => {
            let route: CommandRoute = route_command(topic, protocol, service, config);
            let plan: Plan = plan_request(topic, route, protocol, service, &request);
            (plan, Some(request))
        },
        None => (Plan::Ignore, None),
    }
}

/// The message that tells what came of a command for a point.
pub open spec fn answer_message(
    topic: Seq<char>,
    point: Seq<char>,
    outcome: Result<ResultView, Seq<char>>,
    origin: Option<JsonView>,
) -> MessageView {
    match outcome {
        Ok(r) => transition(topic, success_fields(r), origin),
        Err(e) => transition(topic, failure_fields(point, e), origin),
    }
}

/// The message that tells what came of a command for a point.
pub fn answer(
    topic: &str,
    point: &str,
    outcome: Result<CommandResult, String>,
    origin: Option<&Json>,
) -> (r: Message)
    ensures
        r@ == answer_message(topic@, point@, outcome_of(outcome), view_of_ref(origin)),
{
    match outcome {
        Ok(result) => tell(topic, success(result), origin),
        Err(e) => tell(topic, failure(point, e.as_str()), origin),
    }
}

/// The message that tells what came of a batch.
pub fn answer_batch(topic: &str, run: BatchRun, origin: Option<&Json>) -> (r: Message)
    ensures
        r@ == retained_message(
            topic@,
            originated(
                JsonView::Object(crate::batch::batch_fields(run@.failure, run@.results)),
                view_of_ref(origin),
            ),
        ),
{
    retained(topic, &with_origin(run.finish(), origin))
}

/// The fields that tell only how a command stands.
pub open spec fn status_fields(status: Seq<char>) -> Fields {
    with_field(Fields::empty(), "status"@, JsonView::Text(status))
}

/// The message that tells only how a command stands.
pub fn tell_status(topic: &str, status: &str, origin: Option<&Json>) -> (r: Message)
    ensures
        r@ == transition(topic@, status_fields(status@), view_of_ref(origin)),
{
    let mut obj = JsonObject::new();
    obj.insert("status", Json::text(status));
    tell(topic, obj, origin)
}

/// The message that tells why a command was not carried out.
pub fn tell_failed(topic: &str, reason: &str, origin: Option<&Json>) -> (r: Message)
    ensures
        r@ == transition(topic@, refused_fields(reason@), view_of_ref(origin)),
{
    tell(topic, refused(reason), origin)
}

/// A new request to a device that is no change of the configuration is carried out on that device,
/// by that verb, with the point, the value and the bytes that it gives; a batch with the writes
/// that it gives, unless one of them cannot be made out.
pub proof fn device_commands_are_carried_out(
    topic: Seq<char>,
    device: Seq<char>,
    verb: Seq<char>,
    protocol: Seq<char>,
    service: Seq<char>,
    request: JsonView,
)
    requires
        text_member(request, "status"@) == Some("init"@),
        verb != "set-config"@ && verb != "define-device"@ && verb != "remove-device"@,
    ensures
        ({
            let plan = request_plan(
                topic,
                RouteView::Device { device, verb },
                protocol,
                service,
                request,
            );
            &&& verb != "write-batch"@ ==> (plan matches PlanView::Execute {
                device: d,
                verb: v,
                request: r,
                announcement: _,
            } && d == device && v == verb && r.value == member(request, "value"@) && r.raw
                == text_member(request, "raw"@) && r.value_repr == text_member(
                request,
                "value_repr"@,
            ) && r.point == match text_member(request, "point"@) {
                Some(p) => p,
                None => Seq::empty(),
            })
            &&& verb == "write-batch"@ ==> (plan is Batch <==> requested_writes(request) is Ok)
            &&& verb == "write-batch"@ ==> (plan is RefuseBatch <==> requested_writes(
                request,
            ) is Err)
            &&& plan matches PlanView::Batch { device: d, run, announcement: _ } ==> d == device
                && run.writes == requested_writes(request)->Ok_0 && run.results.len() == 0
                && run.failure is None
        }),
{
}

/// Only the service takes changes of the configuration, and takes nothing else; and what is no new
/// request, or for someone else, is left alone.
pub proof fn changes_are_taken_by_the_service(
    topic: Seq<char>,
    device: Seq<char>,
    verb: Seq<char>,
    protocol: Seq<char>,
    service: Seq<char>,
    request: JsonView,
)
    ensures
        ({
            let changes = verb == "set-config"@ || verb == "define-device"@ || verb
                == "remove-device"@;
            let fresh = text_member(request, "status"@) == Some("init"@);
            let of_service = request_plan(
                topic,
                RouteView::Service { verb },
                protocol,
                service,
                request,
            );
            let of_device = request_plan(
                topic,
                RouteView::Device { device, verb },
                protocol,
                service,
                request,
            );
            &&& fresh && changes <==> of_service is Manage
            &&& of_service matches PlanView::Manage { verb: v } ==> v == verb
            &&& fresh && !changes <==> of_service is Refuse
            &&& fresh && changes <==> of_device is Refuse
            &&& !fresh ==> of_service is Ignore && of_device is Ignore
            &&& request_plan(topic, RouteView::Elsewhere, protocol, service, request) is Ignore
        }),
{
}

/// What is told of a command says everything that it says without the origin, too.
pub proof fn the_origin_hides_nothing(fields: Fields, origin: Option<JsonView>, key: Seq<char>)
    ensures
        key != "origin"@ ==> member(originated(JsonView::Object(fields), origin), key) == field(
            fields,
            key,
        ),
        origin is None ==> originated(JsonView::Object(fields), origin) == JsonView::Object(fields),
{
    broadcast use crate::keyed::field_once_set;

}

/// A device command is one for a device of this connector, by its topic: the device, the protocol
/// and the verb are each a level of it. A service command is one for this connector's service.
pub proof fn commands_are_routed_by_their_topic(
    p: Seq<Seq<char>>,
    protocol: Seq<char>,
    service: Seq<char>,
    devices: Seq<DeviceConfig>,
    d: int,
)
    ensures
        0 <= d < devices.len() && p == seq![
            "te"@,
            "device"@,
            devices[d].name@,
            "ot"@,
            protocol,
            "cmd"@,
            p[6],
            p[7],
        ] ==> route_of(p, protocol, service, devices) == (RouteView::Device {
            device: devices[d].name@,
            verb: p[6],
        }),
        p == seq![
            "te"@,
            "device"@,
            "main"@,
            "service"@,
            service,
            "ot"@,
            "cmd"@,
            p[7],
            p[8],
        ] ==> route_of(p, protocol, service, devices) == (RouteView::Service { verb: p[7] }),
        route_of(p, protocol, service, devices) is Device ==> p.len() == 8 && p[4] == protocol,
        route_of(p, protocol, service, devices) is Service ==> p.len() == 9 && p[4] == service,
{
    if 0 <= d < devices.len() && p == seq![
        "te"@,
        "device"@,
        devices[d].name@,
        "ot"@,
        protocol,
        "cmd"@,
        p[6],
        p[7],
    ] {
        assert(p.len() == 8);
        assert(device_among(devices, p[2]));
    }
}

/// What is no JSON is left alone; a request is acted on as its topic says, and only a new one.
pub proof fn only_new_requests_are_acted_on(
    topic: Seq<char>,
    protocol: Seq<char>,
    service: Seq<char>,
    devices: Seq<DeviceConfig>,
    v: JsonView,
)
    ensures
        command_plan(topic, protocol, service, devices, None) is Ignore,
        text_member(v, "status"@) != Some("init"@) ==> command_plan(
            topic,
            protocol,
            service,
            devices,
            Some(v),
        ) is Ignore,
        text_member(v, "status"@) == Some("init"@) ==> (command_plan(
            topic,
            protocol,
            service,
            devices,
            Some(v),
        ) is Ignore <==> route_of(split_parts(topic, '/'), protocol, service, devices) is Elsewhere),
        field(status_fields(topic), "status"@) == Some(JsonView::Text(topic)),
{
    broadcast use crate::keyed::field_once_set;

}

/// What came of a command is told on its topic: what was written, or why nothing was.
pub proof fn answers_tell_what_came_of_a_command(
    topic: Seq<char>,
    point: Seq<char>,
    r: ResultView,
    e: Seq<char>,
    origin: Option<JsonView>,
)
    ensures
        answer_message(topic, point, Ok(r), origin) == transition(topic, success_fields(r), origin),
        answer_message(topic, point, Err(e), origin) == transition(
            topic,
            failure_fields(point, e),
            origin,
        ),
        answer_message(topic, point, Ok(r), origin).topic == topic,
        answer_message(topic, point, Err(e), origin).topic == topic,
{
}

} // verus!
