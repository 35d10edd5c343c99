//! The manager as a service: its transport, its monitors, and what a turn of its loop does.

use crate::config::{
    ComputeMonitorConfig, Config, EnergyMonitorConfig, ExternalMonitorConfig, MemoryMonitorConfig,
    ThermalMonitorConfig,
};
use crate::float::F64;
use crate::pipeline::{DirectiveDeduplicator, Passed, PolicyStrategy, SeqCounter};
use crate::signal::SystemSignal;
use crate::text::{after_prefix, same, strip_str_prefix};
use crate::wire::{EngineCommand, EngineDirective};
use vstd::prelude::*;
use vstd::string::*;

verus! {

/// How the engine is reached.
#[derive(Debug, Clone)]
pub enum Transport {
    /// A socket under this path.
    Unix(String),
    /// A socket at this address.
    Tcp(String),
    /// The system bus, which carries nothing back.
    Dbus,
}

/// No transport is written so.
#[derive(Debug, Clone)]
pub struct UnknownTransport {
    pub text: String,
}

/// Whether a text is read as a transport: `unix:<path>`, `tcp:<host:port>` or `dbus`.
pub open spec fn transport_read(text: Seq<char>, r: Result<Transport, UnknownTransport>) -> bool {
    match after_prefix(text, "unix:"@) {
        Some(path) => r is Ok && r->Ok_0 is Unix && r->Ok_0->Unix_0@ == path,
        None => match after_prefix(text, "tcp:"@) {
            Some(addr) => r is Ok && r->Ok_0 is Tcp && r->Ok_0->Tcp_0@ == addr,
            None => if text == "dbus"@ {
                r is Ok && r->Ok_0 is Dbus
            } else {
                r is Err && r->Err_0.text@ == text
            },
        },
    }
}

pub fn parse_transport(text: &str) -> (r: Result<Transport, UnknownTransport>)
    ensures
        transport_read(text@, r),
{
    if let Some(path) = strip_str_prefix(text, "unix:") {
        Ok(Transport::Unix(path.to_owned()))
    } else if let Some(addr) = strip_str_prefix(text, "tcp:") {
        Ok(Transport::Tcp(addr.to_owned()))
    } else if same(text, "dbus") {
        Ok(Transport::Dbus)
    } else {
        Err(UnknownTransport { text: text.to_owned() })
    }
}

impl Transport {
    /// Whether the engine can answer over it.
    ///
    /// The policy lives on heartbeats: a budget is a fraction of what only the engine knows. On
    /// a transport that carries nothing back the manager would run forever, look healthy and
    /// never send a directive, so a start on one is refused.
    pub fn is_bidirectional(&self) -> (r: bool)
        ensures
            r == !(self is Dbus),
    {
        match self {
            Transport::Unix(_) => true,
            Transport::Tcp(_) => true,
            Transport::Dbus => false,
        }
    }
}

/// What comes of waiting for the engine.
#[derive(Debug, Clone, Copy, PartialEq, Eq, Structural)]
pub enum ClientWait {
    Connected,
    /// Go on without an engine.
    ProceedAnyway,
    /// Stop: the service is shutting down.
    ShuttingDown,
    /// Stop: no engine came.
    NoClient,
}

/// A service on a path goes on without an engine, one at an address does not; neither does where
/// it was told to shut down meanwhile. The bus has no engine to wait for.
pub open spec fn waited(transport: Transport, connected: bool, shutdown: bool) -> ClientWait {
    if connected || transport is Dbus {
        ClientWait::Connected
    } else if shutdown {
        ClientWait::ShuttingDown
    } else if transport is Unix {
        ClientWait::ProceedAnyway
    } else {
        ClientWait::NoClient
    }
}

pub fn after_client_wait(transport: &Transport, connected: bool, shutdown: bool) -> (r: ClientWait)
    ensures
        r == waited(*transport, connected, shutdown),
{
    match transport {
        Transport::Dbus => ClientWait::Connected,
        Transport::Unix(_) => if connected {
            ClientWait::Connected
        } else if shutdown {
            ClientWait::ShuttingDown
        } else {
            ClientWait::ProceedAnyway
        },
        Transport::Tcp(_) => if connected {
            ClientWait::Connected
        } else if shutdown {
            ClientWait::ShuttingDown
        } else {
            ClientWait::NoClient
        },
    }
}

/// The monitors to run, each with its settings.
#[derive(Debug, Clone)]
pub struct MonitorPlan {
    /// The polling interval of a monitor that sets none.
    pub default_poll_ms: u64,
    pub memory: Option<MemoryMonitorConfig>,
    pub thermal: Option<ThermalMonitorConfig>,
    pub compute: Option<ComputeMonitorConfig>,
    pub energy: Option<EnergyMonitorConfig>,
    pub external: Option<ExternalMonitorConfig>,
}

/// Plans the monitors. One without a section runs on its defaults, except the external one, which
/// runs only where it is enabled.
pub fn plan_monitors(config: Config) -> (r: MonitorPlan)
    ensures
        r.default_poll_ms == config.manager.poll_interval_ms,
        r.memory == match config.memory {
            Some(c) => if c.enabled {
                Some(c)
            } else {
                None
            },
            None => Some(MemoryMonitorConfig::standard()),
        },
        match config.thermal {
            Some(c) => r.thermal == if c.enabled {
                Some(c)
            } else {
                None
            },
            None => r.thermal is Some && r.thermal->Some_0.is_standard(),
        },
        match config.compute {
            Some(c) => r.compute == if c.enabled {
                Some(c)
            } else {
                None
            },
            None => r.compute is Some && r.compute->Some_0.is_standard(),
        },
        r.energy == match config.energy {
            Some(c) => if c.enabled {
                Some(c)
            } else {
                None
            },
            None => Some(EnergyMonitorConfig::standard()),
        },
        r.external == match config.external {
            Some(c) => if c.enabled {
                Some(c)
            } else {
                None
            },
            None => None,
        },
{
    MonitorPlan {
        default_poll_ms: config.manager.poll_interval_ms,
        memory: match config.memory {
            Some(c) => if c.enabled {
                Some(c)
            } else {
                None
            },
            None => Some(MemoryMonitorConfig::default()),
        },
        thermal: match config.thermal {
            Some(c) => if c.enabled {
                Some(c)
            } else {
                None
            },
            None => Some(ThermalMonitorConfig::default()),
        },
        compute: match config.compute {
            Some(c) => if c.enabled {
                Some(c)
            } else {
                None
            },
            None => Some(ComputeMonitorConfig::default()),
        },
        energy: match config.energy {
            Some(c) => if c.enabled {
                Some(c)
            } else {
                None
            },
            None => Some(EnergyMonitorConfig::default()),
        },
        external: match config.external {
            Some(c) => if c.enabled {
                Some(c)
            } else {
                None
            },
            None => None,
        },
    }
}

/// What a turn of the loop found.
#[derive(Debug, Clone, Copy)]
pub enum Inbox {
    Signal(SystemSignal),
    /// No signal came in time.
    Quiet,
    /// No monitor is left to send one.
    Closed,
}

/// What a turn of the loop does.
#[derive(Debug, Clone)]
pub enum Turn {
    Send(EngineDirective),
    GoOn,
    Stop,
}

/// The service's own state: what has passed, and the next number.
pub ghost struct ServiceState {
    pub passed: Passed,
    pub ids: SeqCounter,
}

/// Whether a signal can lead from one state to another and to this directive. Commands that come
/// of it make a directive under the next number; one that repeats the last is held back, and the
/// policy takes back what it queued for it.
pub open spec fn signal_handled<P: PolicyStrategy>(
    policy: P,
    before: ServiceState,
    signal: SystemSignal,
    now_secs: F64,
    sent: Option<EngineDirective>,
    policy_after: P,
    after: ServiceState,
) -> bool {
    exists|commands: Seq<EngineCommand>, processed: P|
        #![trigger policy.may_process(signal, commands, processed)]
        policy.may_process(signal, commands, processed) && if commands.len() == 0 {
            sent is None && policy_after == processed && after == before
        } else {
            &&& after.ids == before.ids.taken()
            &&& after.passed == before.passed.after(commands, now_secs)
            &&& if before.passed.lets_pass(commands, now_secs) {
                &&& sent is Some
                &&& sent->Some_0.seq_id == before.ids.next
                &&& sent->Some_0.commands@ == commands
                &&& policy_after == processed
            } else {
                sent is None && policy_after == processed.uncounted()
            }
        }
}

/// Handles a signal: the policy decides, and what repeats is held back.
pub fn handle_signal<P: PolicyStrategy>(
    policy: &mut P,
    dedup: &mut DirectiveDeduplicator,
    ids: &mut SeqCounter,
    signal: &SystemSignal,
    now_secs: F64,
) -> (r: Option<EngineDirective>)
    requires
        old(policy).valid(),
    ensures
        final(policy).valid(),
        signal_handled(
            *old(policy),
            (ServiceState { passed: old(dedup)@, ids: *old(ids) }),
            *signal,
            now_secs,
            r,
            *final(policy),
            (ServiceState { passed: final(dedup)@, ids: *final(ids) }),
        ),
{
    match policy.process_signal(signal, ids) {
        Some(directive) => {
            let ghost commands = directive.commands@;
            let ghost processed = *policy;
            let sent: Option<EngineDirective> = dedup.process(directive, now_secs);
            if sent.is_none() {
                policy.cancel_last_observation();
            }
            proof {
                assert(old(policy).may_process(*signal, commands, processed));
            }
            sent
        },
        None => {
            proof {
                assert(old(policy).may_process(*signal, Seq::empty(), *policy));
            }
            None
        },
    }
}

/// One turn of the loop. A signal is handled, silence changes nothing, and without monitors the
/// loop ends.
pub fn take_turn<P: PolicyStrategy>(
    policy: &mut P,
    dedup: &mut DirectiveDeduplicator,
    ids: &mut SeqCounter,
    inbox: &Inbox,
    now_secs: F64,
) -> (r: Turn)
    requires
        old(policy).valid(),
    ensures
        final(policy).valid(),
        match *inbox {
            Inbox::Signal(signal) => !(r is Stop) && signal_handled(
                *old(policy),
                ServiceState { passed: old(dedup)@, ids: *old(ids) },
                signal,
                now_secs,
                match r {
                    Turn::Send(d) => Some(d),
                    _ => None,
                },
                *final(policy),
                ServiceState { passed: final(dedup)@, ids: *final(ids) },
            ),
            Inbox::Quiet => r is GoOn && *final(policy) == *old(policy) && final(dedup)@ == old(
                dedup,
            )@ && *final(ids) == *old(ids),
            Inbox::Closed => r is Stop && *final(policy) == *old(policy) && final(dedup)@ == old(
                dedup,
            )@ && *final(ids) == *old(ids),
        },
{
    match inbox {
        Inbox::Signal(signal) => match handle_signal(policy, dedup, ids, signal, now_secs) {
            Some(directive) => Turn::Send(directive),
            None => Turn::GoOn,
        },
        Inbox::Quiet => Turn::GoOn,
        Inbox::Closed => Turn::Stop,
    }
}

/// Every directive that is sent has commands and a number that no earlier one had: numbers only
/// go up, and one that was taken for a directive that was held back is not given again.
pub proof fn law_sent_directives_are_numbered<P: PolicyStrategy>(
    policy: P,
    before: ServiceState,
    signal: SystemSignal,
    now_secs: F64,
    sent: Option<EngineDirective>,
    policy_after: P,
    after: ServiceState,
)
    requires
        signal_handled(policy, before, signal, now_secs, sent, policy_after, after),
        before.ids.next < u64::MAX,
    ensures
        before.ids.next <= after.ids.next <= before.ids.next + 1,
        sent is Some ==> sent->Some_0.commands@.len() > 0,
        sent is Some ==> sent->Some_0.seq_id == before.ids.next && after.ids.next
            == before.ids.next + 1,
{
}

} // verus!
