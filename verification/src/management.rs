//! Changes of the configuration while the connector runs: by a command, or by its file.
use crate::clock::nanos;
use crate::config::ConnectorConfig;
use crate::clock::{parse_duration, duration_text};
use crate::connector::ConnectorError;
use crate::text::{concat2, decimal_text, push_decimal, same_text};
use std::time::Duration;
use vstd::prelude::*;

verus! {

/// How long a module's calls may take.
#[derive(Clone, Copy, Debug)]
pub struct Limits {
    pub operation: Duration,
}

/// How long one call may take, in nanoseconds: as configured, or half a minute where that is no
/// duration or none at all.
pub open spec fn operation_limit(text: Seq<char>) -> nat {
    match duration_text(text) {
        Some(n) => if n > 0 {
            n
        } else {
            30_000_000_000
        },
        None => 30_000_000_000,
    }
}

impl Limits {
    /// How long a module's calls may take by a configuration.
    pub fn from_config(config: &ConnectorConfig) -> (r: Limits)
        ensures
            nanos(r.operation) == operation_limit(config.connector.operation_timeout@),
    {
        match parse_duration(config.connector.operation_timeout.as_str()) {
            Some(d) => if d.as_nanos() > 0 {
                Limits { operation: d }
            } else {
                Limits { operation: Duration::from_secs(30) }
            },
            None => Limits { operation: Duration::from_secs(30) },
        }
    }
}

/// What is said of a call that took too long.
pub open spec fn overdue(what: Seq<char>, limit: nat) -> Seq<char> {
    what + " did not return within "@ + decimal_text(limit / 1_000_000_000)
        + "s (operation_timeout)"@
}

/// The error of a call that took too long: a device that stays silent is as good as lost.
pub fn timed_out(limits: &Limits, what: &str) -> (r: ConnectorError)
    ensures
        r matches ConnectorError::Transport(t) && t@ == overdue(what@, nanos(limits.operation)),
{
    let mut out: String = concat2(what, " did not return within ");
    push_decimal(&mut out, limits.operation.as_secs());
    out.append("s (operation_timeout)");
    ConnectorError::Transport(out)
}

/// How a run of a connector ended.
#[derive(Clone, Copy, Debug, PartialEq, Eq, Structural)]
pub enum RunExit {
    /// It was asked to stop.
    Stopped,
    /// Its file changed in a way that it cannot take over while it runs.
    Restart,
}

/// A change that a running connector cannot take over: its session is named after the service
/// and the protocol, it is connected to one broker, and its watch was set when it started.
pub open spec fn restarts(running: ConnectorConfig, new: ConnectorConfig) -> bool {
    ||| running.connector.protocol@ != new.connector.protocol@
    ||| running.connector.service() != new.connector.service()
    ||| running.mqtt.host@ != new.mqtt.host@
    ||| running.mqtt.port != new.mqtt.port
    ||| running.stall_nanos() != new.stall_nanos()
}

/// Whether a change is one that a running connector cannot take over.
pub fn needs_restart(running: &ConnectorConfig, new: &ConnectorConfig) -> (r: bool)
    ensures
        r == restarts(*running, *new),
{
    let a: String = running.connector.service_name();
    let b: String = new.connector.service_name();
    !same_text(running.connector.protocol.as_str(), new.connector.protocol.as_str()) || !same_text(
        a.as_str(),
        b.as_str(),
    ) || !same_text(running.mqtt.host.as_str(), new.mqtt.host.as_str()) || running.mqtt.port
        != new.mqtt.port || running.stall_limit().as_nanos() != new.stall_limit().as_nanos()
}

/// What does not change needs no restart, and what needs one to come needs one to go back.
pub proof fn restarts_are_for_changes(a: ConnectorConfig, b: ConnectorConfig)
    ensures
        !restarts(a, a),
        restarts(a, b) == restarts(b, a),
{
}

/// The devices, the intervals and the calls' limit are taken over in place: the latter as long as
/// the watch stays as long as it was.
pub proof fn devices_change_in_place(a: ConnectorConfig, b: ConnectorConfig)
    requires
        a.connector.protocol == b.connector.protocol,
        a.connector.configured_service_name == b.connector.configured_service_name,
        a.mqtt == b.mqtt,
        a.stall_nanos() == b.stall_nanos(),
    ensures
        !restarts(a, b),
{
}

/// What a reload did.
#[derive(Clone, Copy, Debug, PartialEq, Eq, Structural)]
pub enum Reloaded {
    /// The file says what the connector runs by: nothing was touched.
    Unchanged,
    /// The file could not be used, and the connector runs on as it did.
    Kept,
    /// The connector runs by the file now.
    Applied,
    /// The connector is to be started again.
    Restart,
}

/// What a reload is to do next.
#[derive(Clone, Copy, Debug, PartialEq, Eq, Structural)]
pub enum ReloadStep {
    /// It is done.
    Done(Reloaded),
    /// The module is to be asked whether it takes the new configuration.
    Configure,
}

/// What a reload is to do with a file that was read, or could not be.
pub open spec fn reload_step(
    running: ConnectorConfig,
    loaded: Option<ConnectorConfig>,
    same: bool,
) -> ReloadStep {
    match loaded {
        None => ReloadStep::Done(Reloaded::Kept),
        Some(new) => if restarts(running, new) {
            ReloadStep::Done(Reloaded::Restart)
        } else if same {
            ReloadStep::Done(Reloaded::Unchanged)
        } else {
            ReloadStep::Configure
        },
    }
}

/// What a reload is to do with a file that was read, or could not be. `same` is whether it says
/// what the connector runs by.
pub fn plan_reload(running: &ConnectorConfig, loaded: Option<&ConnectorConfig>, same: bool) -> (r:
    ReloadStep)
    ensures
        r == match loaded {
            Some(new) => reload_step(*running, Some(*new), same),
            None => reload_step(*running, None, same),
        },
{
    match loaded {
        None => ReloadStep::Done(Reloaded::Kept),
        Some(new) => if needs_restart(running, new) {
            ReloadStep::Done(Reloaded::Restart)
        } else if same {
            ReloadStep::Done(Reloaded::Unchanged)
        } else {
            ReloadStep::Configure
        },
    }
}

/// Whether the document of the file is taken, to be changed by later commands: not where the file
/// could not be used.
pub open spec fn takes_document(r: Reloaded) -> bool {
    r is Unchanged || r is Applied
}

/// What a reload did, once the module was asked.
pub fn reload_outcome(accepted: bool) -> (r: Reloaded)
    ensures
        r == if accepted {
            Reloaded::Applied
        } else {
            Reloaded::Kept
        },
{
    if accepted {
        Reloaded::Applied
    } else {
        Reloaded::Kept
    }
}

/// Whether the document of the file is taken.
pub fn keeps_document(r: Reloaded) -> (b: bool)
    ensures
        b == takes_document(r),
{
    match r {
        Reloaded::Unchanged => true,
        Reloaded::Applied => true,
        _ => false,
    }
}

/// Whether what follows from the configuration is to be set up anew, and whether the run ends.
pub fn after_reload(r: Reloaded) -> (x: (bool, Option<RunExit>))
    ensures
        x.0 == (r is Applied),
        x.1 == if r is Restart {
            Some(RunExit::Restart)
        } else {
            None
        },
{
    match r {
        Reloaded::Applied => (true, None),
        Reloaded::Restart => (false, Some(RunExit::Restart)),
        _ => (false, None),
    }
}

/// What came of a step of a command that changes the configuration.
pub enum ManageEvent {
    /// The change was made to a copy of the document.
    Edited(Result<(), String>),
    /// The copy refers to no file that the document did not refer to.
    Checked(Result<(), String>),
    /// The copy was read as a configuration.
    Resolved(Result<(), String>),
    /// The module was asked whether it takes the configuration.
    Configured(Result<(), String>),
}

/// The next step of such a command.
#[derive(Debug, PartialEq)]
pub enum ManageStep {
    Check,
    Resolve,
    Configure,
    /// The copy becomes the document, and the connector runs by it.
    Commit,
    /// The command is refused; the module gets its configuration back where it was asked.
    Refuse { reason: String, restore: bool },
}

/// The next step, or why there is none and whether the module was asked.
pub open spec fn managed(event: ManageEvent, r: ManageStep) -> bool {
    match event {
        ManageEvent::Edited(Ok(_)) => r is Check,
        ManageEvent::Edited(Err(e)) => r matches ManageStep::Refuse { reason, restore } && reason@
            == e@ && !restore,
        ManageEvent::Checked(Ok(_)) => r is Resolve,
        ManageEvent::Checked(Err(e)) => r matches ManageStep::Refuse { reason, restore } && reason@
            == e@ && !restore,
        ManageEvent::Resolved(Ok(_)) => r is Configure,
        ManageEvent::Resolved(Err(e)) => r matches ManageStep::Refuse { reason, restore } && reason@
            == "resulting config is invalid: "@ + e@ && !restore,
        ManageEvent::Configured(Ok(_)) => r is Commit,
        ManageEvent::Configured(Err(e)) => r matches ManageStep::Refuse { reason, restore }
            && reason@ == "configure failed: "@ + e@ && restore,
    }
}

/// The next step of a command that changes the configuration.
pub fn manage(event: ManageEvent) -> (r: ManageStep)
    ensures
        managed(event, r),
{
    match event {
        ManageEvent::Edited(Ok(_)) => ManageStep::Check,
        ManageEvent::Edited(Err(e)) => ManageStep::Refuse { reason: e, restore: false },
        ManageEvent::Checked(Ok(_)) => ManageStep::Resolve,
        ManageEvent::Checked(Err(e)) => ManageStep::Refuse { reason: e, restore: false },
        ManageEvent::Resolved(Ok(_)) => ManageStep::Configure,
        ManageEvent::Resolved(Err(e)) => ManageStep::Refuse {
            reason: concat2("resulting config is invalid: ", e.as_str()),
            restore: false,
        },
        ManageEvent::Configured(Ok(_)) => ManageStep::Commit,
        ManageEvent::Configured(Err(e)) => ManageStep::Refuse {
            reason: concat2("configure failed: ", e.as_str()),
            restore: true,
        },
    }
}

/// A change of the protocol, of the service's name, of the broker or of the watch needs a restart.
pub proof fn what_cannot_be_taken_over_restarts(a: ConnectorConfig, b: ConnectorConfig)
    ensures
        a.connector.protocol@ != b.connector.protocol@ ==> restarts(a, b),
        a.mqtt.host@ != b.mqtt.host@ || a.mqtt.port != b.mqtt.port ==> restarts(a, b),
        a.stall_nanos() != b.stall_nanos() ==> restarts(a, b),
        (a.connector.configured_service_name matches Some(x) && b.connector.configured_service_name matches Some(
            y,
        ) && x@ != y@) ==> restarts(a, b),
{
}

/// A call may take as long as is configured, and half a minute where that is no duration or none
/// at all.
pub proof fn calls_may_take_as_long_as_configured(text: Seq<char>)
    ensures
        duration_text(text) matches Some(n) ==> n > 0 ==> operation_limit(text) == n,
        duration_text(text) is None || duration_text(text) == Some(0nat) ==> operation_limit(text)
            == 30_000_000_000,
        operation_limit(text) > 0,
{
}

/// A file that cannot be read changes nothing; one that cannot be taken over restarts the
/// connector, one that says the same leaves it alone, and any other is put to the module.
pub proof fn files_are_reloaded_as_far_as_they_can_be(
    running: ConnectorConfig,
    new: ConnectorConfig,
    same: bool,
)
    ensures
        reload_step(running, None, same) == ReloadStep::Done(Reloaded::Kept),
        restarts(running, new) <==> reload_step(running, Some(new), same) == ReloadStep::Done(
            Reloaded::Restart,
        ),
        !restarts(running, new) && same <==> reload_step(running, Some(new), same)
            == ReloadStep::Done(Reloaded::Unchanged),
        !restarts(running, new) && !same <==> reload_step(running, Some(new), same)
            == ReloadStep::Configure,
        takes_document(Reloaded::Applied) && takes_document(Reloaded::Unchanged)
            && !takes_document(Reloaded::Kept) && !takes_document(Reloaded::Restart),
{
}

/// A change is committed only once the module took it, and each step before that has to go well
/// first; the module gets its configuration back only where it was asked and declined.
pub proof fn changes_are_committed_once_the_module_took_them(event: ManageEvent, r: ManageStep)
    requires
        managed(event, r),
    ensures
        r is Commit <==> (event matches ManageEvent::Configured(x) && x is Ok),
        r is Configure <==> (event matches ManageEvent::Resolved(x) && x is Ok),
        r is Resolve <==> (event matches ManageEvent::Checked(x) && x is Ok),
        r is Check <==> (event matches ManageEvent::Edited(x) && x is Ok),
        r matches ManageStep::Refuse { reason: _, restore } ==> (restore <==> event is Configured),
{
}

/// A call that took too long is told by what it was and by the seconds that it had.
pub proof fn overdue_calls_are_told_by_their_seconds(what: Seq<char>, seconds: nat)
    ensures
        overdue(what, seconds * 1_000_000_000) == what + " did not return within "@ + decimal_text(
            seconds,
        ) + "s (operation_timeout)"@,
{
}

} // verus!
