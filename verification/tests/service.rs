use argus_manager::config::{
    AdaptationConfig, Config, ExternalMonitorConfig, MemoryMonitorConfig, ThermalMonitorConfig,
};
use argus_manager::float::F64;
use argus_manager::lua_policy::LuaPolicy;
use argus_manager::pipeline::{DirectiveDeduplicator, SeqCounter};
use argus_manager::service::{
    after_client_wait, handle_signal, parse_transport, plan_monitors, take_turn, ClientWait, Inbox,
    Transport, Turn,
};
use argus_manager::signal::{Level, SystemSignal};

fn secs(x: f64) -> F64 {
    F64 { bits: x.to_bits() }
}

#[test]
fn transports_are_read() {
    assert!(matches!(parse_transport("unix:/tmp/a.sock"), Ok(Transport::Unix(p)) if p == "/tmp/a.sock"));
    assert!(matches!(parse_transport("tcp:127.0.0.1:9"), Ok(Transport::Tcp(a)) if a == "127.0.0.1:9"));
    assert!(matches!(parse_transport("dbus"), Ok(Transport::Dbus)));
    assert!(matches!(parse_transport("unix:tcp:x"), Ok(Transport::Unix(p)) if p == "tcp:x"));
    assert_eq!(parse_transport("dbus:").unwrap_err().text, "dbus:");
    assert_eq!(parse_transport("").unwrap_err().text, "");
}

#[test]
fn the_bus_carries_nothing_back() {
    assert!(Transport::Unix("x".to_string()).is_bidirectional());
    assert!(Transport::Tcp("x".to_string()).is_bidirectional());
    assert!(!Transport::Dbus.is_bidirectional());
}

#[test]
fn waiting_for_the_engine() {
    let unix = Transport::Unix("x".to_string());
    let tcp = Transport::Tcp("x".to_string());
    assert_eq!(after_client_wait(&unix, true, true), ClientWait::Connected);
    assert_eq!(after_client_wait(&unix, false, true), ClientWait::ShuttingDown);
    assert_eq!(after_client_wait(&unix, false, false), ClientWait::ProceedAnyway);
    assert_eq!(after_client_wait(&tcp, true, false), ClientWait::Connected);
    assert_eq!(after_client_wait(&tcp, false, true), ClientWait::ShuttingDown);
    assert_eq!(after_client_wait(&tcp, false, false), ClientWait::NoClient);
    assert_eq!(after_client_wait(&Transport::Dbus, false, false), ClientWait::Connected);
}

#[test]
fn monitors_run_unless_they_are_switched_off() {
    let plan = plan_monitors(Config::default());
    assert_eq!(plan.default_poll_ms, 1000);
    assert!(plan.memory.is_some() && plan.thermal.is_some());
    assert!(plan.compute.is_some() && plan.energy.is_some());
    assert!(plan.external.is_none());
    let mut config = Config::default();
    config.memory = Some(MemoryMonitorConfig { enabled: false, ..MemoryMonitorConfig::default() });
    config.thermal = Some(ThermalMonitorConfig {
        zone_types: vec!["x86_pkg_temp".to_string()],
        ..ThermalMonitorConfig::default()
    });
    config.external = Some(ExternalMonitorConfig { enabled: true, transport: "stdin".to_string() });
    let plan = plan_monitors(config);
    assert!(plan.memory.is_none());
    assert_eq!(plan.thermal.unwrap().zone_types, vec!["x86_pkg_temp".to_string()]);
    assert_eq!(plan.external.unwrap().transport, "stdin");
    let mut config = Config::default();
    config.external = Some(ExternalMonitorConfig::default());
    assert!(plan_monitors(config).external.is_none());
}

#[test]
fn a_turn_of_the_loop() {
    let script = "function decide(ctx)
        if ctx.trigger.mem_low then return { type = 'kv.compress', budget = 0.5 } end
    end";
    let nothing = |_: &mlua::Lua| -> mlua::Result<()> { Ok(()) };
    let mut policy = match LuaPolicy::new(script, "p", AdaptationConfig::default(), &nothing) {
        Ok(p) => p,
        Err(e) => panic!("{e:?}"),
    };
    let mut dedup = DirectiveDeduplicator::new();
    let mut ids = SeqCounter::new();
    let mem = |available: u64| {
        SystemSignal::MemoryPressure {
            level: Level::Critical,
            available_bytes: available,
            total_bytes: 1000,
            reclaim_target_bytes: 0,
        }
    };
    assert!(handle_signal(&mut policy, &mut dedup, &mut ids, &mem(900), secs(0.0)).is_none());
    assert_eq!(ids.next, 1);
    match take_turn(&mut policy, &mut dedup, &mut ids, &Inbox::Signal(mem(100)), secs(1.0)) {
        Turn::Send(d) => assert_eq!((d.seq_id, d.commands.len()), (1, 1)),
        other => panic!("{other:?}"),
    }
    // A repeated directive is held back, and its number is gone.
    assert!(matches!(
        take_turn(&mut policy, &mut dedup, &mut ids, &Inbox::Signal(mem(100)), secs(2.0)),
        Turn::GoOn
    ));
    assert_eq!(ids.next, 3);
    match take_turn(&mut policy, &mut dedup, &mut ids, &Inbox::Signal(mem(100)), secs(61.0)) {
        Turn::Send(d) => assert_eq!(d.seq_id, 3),
        other => panic!("{other:?}"),
    }
    assert!(matches!(
        take_turn(&mut policy, &mut dedup, &mut ids, &Inbox::Quiet, secs(62.0)),
        Turn::GoOn
    ));
    assert!(matches!(
        take_turn(&mut policy, &mut dedup, &mut ids, &Inbox::Closed, secs(63.0)),
        Turn::Stop
    ));
}
