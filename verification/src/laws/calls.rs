//! What calls give back, by what goes in.

use crate::config::{ComputeMonitorConfig, Config, GpuBackend};
use crate::emitter::dbus::{initial_messages, signal_content, DbusMessage, DbusValue};
use crate::float::decimal::{float_in, FloatText};
use crate::float::meaning::law_from_whole64;
use crate::float::{law_whole_is_finite, F64};
use crate::laws::gpu::{lemma_utilization_word, separates};
use crate::laws::sensors::{law_degrees_are_thousandths, law_rounded_is_nearest};
use crate::laws::texts::{
    blank, law_numbers_are_read_back, law_trimming_takes_only_the_ends, lemma_decimal,
};
use crate::lua::sys::{
    cpu_freq, cpu_freq_path, file_text, gpu_busy, gpu_freq, thermal_zone_path, zone_temperature,
};
use crate::mock_manager::{
    await_answer, choose_task, emit_single, select_response, validate_response, AnswerStep,
    Selected, SignalParams, Task, UnknownSignal,
};
use crate::monitor::gpu_provider::{
    devfreq_dir, parse_util_pct, provider_after_start, GpuProvider,
};
use crate::pipeline::{DirectiveDeduplicator, SeqCounter};
use crate::service::{plan_monitors, MonitorPlan, Transport};
use crate::signal::SystemSignal;
use crate::text::{decimal, is_space};
use crate::wire::{after_prefix, frame, AfterPrefix, CommandResponse, EngineMessage, PrefixRead};
use vstd::arithmetic::power2::{lemma2_to64, lemma_pow2_adds, pow2};
use vstd::prelude::*;

verus! {

/// A frequency is given as it was read where a signed number holds it, and as what is left of it by
/// the range of the unsigned ones where not; minus one stands for none.
pub proof fn law_frequency_is_given(freq_hz: Option<u64>, r: i64)
    requires
        call_ensures(gpu_freq, (freq_hz,), r),
    ensures
        freq_hz is Some && freq_hz->Some_0 <= i64::MAX ==> r == freq_hz->Some_0,
        freq_hz is Some && freq_hz->Some_0 > i64::MAX ==> r < 0 && freq_hz->Some_0 - r
            == 0x1_0000_0000_0000_0000,
        freq_hz is None ==> r == -1,
{
}

/// The utilization is given as the nearest whole number, and minus one stands for none.
pub proof fn law_utilization_is_given(util: Option<F64>, r: i64)
    requires
        call_ensures(gpu_busy, (util,), r),
    ensures
        util is None ==> r == -1,
        util is Some && util->Some_0.is_finite() && i64::MIN < r < i64::MAX ==> 2 * r * pow2(1074)
            - pow2(1074) <= 2 * util->Some_0.value() <= 2 * r * pow2(1074) + pow2(1074),
{
    if let Some(x) = util {
        if x.is_finite() && i64::MIN < r < i64::MAX {
            law_rounded_is_nearest(x);
        }
    }
}

/// The frequency of a processor is the number between the white space of its file, and minus one
/// where there is no file.
pub proof fn law_processor_frequency_is_read(
    content: Option<&str>,
    before: Seq<char>,
    n: nat,
    after: Seq<char>,
    r: i64,
)
    requires
        call_ensures(cpu_freq, (content,), r),
        blank(before),
        blank(after),
        n <= i64::MAX,
    ensures
        content is None ==> r == -1,
        content is Some && content->Some_0@ == before + decimal(n) + after ==> r == n,
{
    lemma_number_between(before, n, after);
    law_numbers_are_read_back(n, 0);
}

proof fn lemma_number_between(before: Seq<char>, n: nat, after: Seq<char>)
    requires
        blank(before),
        blank(after),
    ensures
        crate::text::trimmed(before + decimal(n) + after) == decimal(n),
{
    let word = decimal(n);
    lemma_decimal(n);
    assert('0' as u32 <= word[0] as u32 <= '9' as u32);
    assert('0' as u32 <= word[word.len() - 1] as u32 <= '9' as u32);
    law_trimming_takes_only_the_ends(before, word, after);
}

/// What is read of a file is all that stands between the white space at its ends; of a file that
/// cannot be read it is nothing.
pub proof fn law_file_is_read(
    content: Option<&str>,
    before: Seq<char>,
    core: Seq<char>,
    after: Seq<char>,
    r: String,
)
    requires
        call_ensures(file_text, (content,), r),
        blank(before),
        blank(after),
        core.len() > 0 ==> !is_space(core[0]) && !is_space(core.last()),
    ensures
        content is None ==> r@.len() == 0,
        content is Some && content->Some_0@ == before + core + after ==> r@ == core,
{
    law_trimming_takes_only_the_ends(before, core, after);
}

/// The temperature of a zone is the thousandth of the number in its file, each as near as numbers
/// get, and minus one degree where there is no file.
pub proof fn law_zone_temperature_is_read(
    content: Option<&str>,
    before: Seq<char>,
    n: u64,
    after: Seq<char>,
    r: F64,
)
    requires
        call_ensures(zone_temperature, (content,), r),
        blank(before),
        blank(after),
    ensures
        content is None ==> r.value() == -pow2(1074),
        content is Some && content->Some_0@ == before + decimal(n as nat) + after ==> exists|mc: F64|
         #[trigger] mc.is(n * pow2(1074), 1) && r.is(mc.value(), 1000),
{
    let mc = F64::from_whole(n);
    law_degrees_are_thousandths(None);
    law_degrees_are_thousandths(Some(mc));
    law_from_whole64(n);
    law_whole_is_finite(n);
    lemma_number_between(before, n as nat, after);
    lemma_decimal(n as nat);
    assert(float_in(decimal(n as nat)) == FloatText::Whole(n as nat));
}

/// The utilization that leads a text is the whole number there, as near as numbers get, whatever
/// unit follows it.
pub proof fn law_whole_utilization_is_read(
    content: &str,
    before: Seq<char>,
    n: u64,
    rest: Seq<char>,
    r: Option<F64>,
)
    requires
        call_ensures(parse_util_pct, (content,), r),
        content@ == before + decimal(n as nat) + rest,
        forall|i: int| 0 <= i < before.len() ==> separates(#[trigger] before[i]),
        rest.len() > 0 ==> separates(rest[0]),
    ensures
        r is Some,
        r->Some_0.is(n * pow2(1074), 1),
{
    let word = decimal(n as nat);
    lemma_decimal(n as nat);
    assert forall|i: int| 0 <= i < word.len() implies !separates(#[trigger] word[i]) by {
        assert('0' as u32 <= word[i] as u32 <= '9' as u32);
    }
    lemma_utilization_word(before, word, rest);
    law_from_whole64(n);
    assert(float_in(word) == FloatText::Whole(n as nat));
}

/// Each thermal zone and each processor has its own file.
pub proof fn law_sensors_have_their_own_files(
    zone: u32,
    cpu: u32,
    zone_path: String,
    cpu_path: String,
)
    requires
        call_ensures(thermal_zone_path, (zone,), zone_path),
        call_ensures(cpu_freq_path, (cpu,), cpu_path),
    ensures
        zone_path@ == "/sys/class/thermal/thermal_zone"@ + decimal(zone as nat) + "/temp"@,
        cpu_path@ == "/sys/devices/system/cpu/cpu"@ + decimal(cpu as nat)
            + "/cpufreq/scaling_cur_freq"@,
{
}

/// A scenario is played before a single command, whatever the transport is, and only over a socket
/// is there a need for one of them.
pub proof fn law_scenarios_go_first(scenario: bool, command: bool, dbus: bool, r: Task)
    requires
        call_ensures(choose_task, (scenario, command, dbus), r),
    ensures
        r == Task::Scenario <==> scenario,
        r == Task::Single <==> !scenario && command,
        r == Task::Missing <==> !scenario && !command && !dbus,
        r == Task::Nothing <==> !scenario && !command && dbus,
{
}

/// A response that comes in time is the answer, a heartbeat is not, and nothing is taken in once
/// the time is over.
pub proof fn law_answers_are_responses_in_time(
    expired: bool,
    received: Option<EngineMessage>,
    r: AnswerStep,
)
    requires
        call_ensures(await_answer, (expired, received), r),
    ensures
        expired <==> r is GiveUp,
        r is Answered <==> !expired && received is Some && received->Some_0 is Response,
        r is Answered ==> received == Some(EngineMessage::Response(r->Answered_0)),
        r is Skipped <==> !expired && received is Some && received->Some_0 is Heartbeat,
        r is Skipped ==> received == Some(r->Skipped_0),
        r is Rest <==> !expired && received is None,
{
}

/// Responses are picked and heartbeats are skipped, each as it came.
pub proof fn law_responses_are_picked(msg: EngineMessage, r: Selected<CommandResponse>)
    requires
        call_ensures(select_response, (msg,), r),
    ensures
        msg is Response <==> r is Match,
        r is Match ==> msg == EngineMessage::Response(r->Match_0),
        r is Skip ==> msg == r->Skip_0,
{
}

/// An answer is valid only with the number that was sent and as many results as commands.
pub proof fn law_valid_answers(seq_id: u64, response: CommandResponse, commands: usize, r: bool)
    requires
        call_ensures(validate_response, (seq_id, &response, commands), r),
    ensures
        r <==> response.seq_id == seq_id && response.results@.len() == commands,
{
}

/// A framed payload is four bytes longer than the payload, ends in it, and is read back by the
/// reader that gets its first four bytes.
pub proof fn law_frames_are_read(payload: &[u8], framed: Vec<u8>, bytes: [u8; 4], r: AfterPrefix)
    requires
        call_ensures(frame, (payload,), framed),
        payload@.len() < 0x1_0000_0000,
        bytes@ == framed@.take(4),
        call_ensures(after_prefix, (PrefixRead::Bytes(bytes),), r),
    ensures
        framed@.len() == payload@.len() + 4,
        framed@.skip(4) == payload@,
        r == AfterPrefix::ReadPayload(payload@.len() as usize),
{
    crate::wire::law_frame_is_read_back(payload@, Seq::empty());
    let prefix = crate::wire::length_prefix(payload@.len());
    assert(prefix + payload@ + Seq::<u8>::empty() =~= framed@);
    assert(framed@.skip(4) =~= payload@);
}

/// A prefix that does not come in time is no message, and one that cannot be read is a failure.
pub proof fn law_missing_prefixes(read: PrefixRead, r: AfterPrefix)
    requires
        call_ensures(after_prefix, (read,), r),
    ensures
        read is NotReady <==> r == AfterPrefix::NoMessage,
        read is Failed <==> r == AfterPrefix::Fail,
{
}

/// A backend that is given is the one to use. Where it is left open, a path of the old setting is.
pub proof fn law_given_backends_are_used(config: ComputeMonitorConfig, r: GpuBackend)
    requires
        call_ensures(ComputeMonitorConfig::resolve_backend, (&config,), r),
    ensures
        !(config.gpu_backend is Auto) ==> r == config.gpu_backend,
        config.gpu_backend is Auto && config.gpu_sysfs_path is None ==> r is Auto,
        config.gpu_backend is Auto && config.gpu_sysfs_path is Some ==> r is CustomSysfs && r->path
            == config.gpu_sysfs_path->Some_0,
{
}

/// A monitor that has a section runs exactly where that enables it, with the settings of that; one
/// without a section runs, but for the external one.
pub proof fn law_enabled_monitors_run(config: Config, r: MonitorPlan)
    requires
        call_ensures(plan_monitors, (config,), r),
    ensures
        r.default_poll_ms == config.manager.poll_interval_ms,
        config.memory is None ==> r.memory is Some,
        config.thermal is None ==> r.thermal is Some,
        config.compute is None ==> r.compute is Some,
        config.energy is None ==> r.energy is Some,
        config.external is None ==> r.external is None,
        config.memory is Some && config.memory->Some_0.enabled ==> r.memory == config.memory,
        config.thermal is Some && config.thermal->Some_0.enabled ==> r.thermal == config.thermal,
        config.compute is Some && config.compute->Some_0.enabled ==> r.compute == config.compute,
        config.energy is Some && config.energy->Some_0.enabled ==> r.energy == config.energy,
        config.external is Some && config.external->Some_0.enabled ==> r.external
            == config.external,
        config.memory is Some && !config.memory->Some_0.enabled ==> r.memory is None,
        config.thermal is Some && !config.thermal->Some_0.enabled ==> r.thermal is None,
        config.compute is Some && !config.compute->Some_0.enabled ==> r.compute is None,
        config.energy is Some && !config.energy->Some_0.enabled ==> r.energy is None,
        config.external is Some && !config.external->Some_0.enabled ==> r.external is None,
{
}

/// A Jetson whose `tegrastats` did not start still gives its frequency, where it has a file for
/// that; one that did start waits for its first line.
pub proof fn law_jetson_after_start(freq_path: Option<String>, started: bool, r: GpuProvider)
    requires
        call_ensures(provider_after_start, (freq_path, started), r),
    ensures
        r is Null <==> !started && freq_path is None,
        r is Jetson <==> started || freq_path is Some,
        r is Jetson ==> r->Jetson_0.freq_path == freq_path && r->Jetson_0.streaming == started
            && r->Jetson_0.util() is None,
{
}

/// The devices of a root are listed under its class of device frequencies.
pub proof fn law_devices_of_a_root(root: &str, r: String)
    requires
        call_ensures(devfreq_dir, (root,), r),
        root@.len() > 0,
        root@.last() != '/',
    ensures
        r@ == root@ + "/class/devfreq"@,
{
    reveal_strlit("class/devfreq");
    reveal_strlit("/class/devfreq");
    assert(r@ =~= root@ + "/class/devfreq"@);
}

/// A single signal has the level that is given, and the normal one where none is.
pub proof fn law_single_signals_have_their_level(
    name: &str,
    level: Option<String>,
    params: SignalParams,
    r: Result<DbusMessage, UnknownSignal>,
)
    requires
        call_ensures(emit_single, (name, &level, &params), r),
    ensures
        r is Ok ==> r->Ok_0@.member == name@ && r->Ok_0@.args.len() > 0 && r->Ok_0@.args[0]
            == DbusValue::Text(
            match level {
                Some(l) => l@,
                None => "normal"@,
            },
        ),
        r is Err ==> r->Err_0.name@ == name@,
{
}

/// There is one message for each signal, in their order.
pub proof fn law_one_message_for_each_signal(
    signals: Vec<SystemSignal>,
    r: Vec<DbusMessage>,
    i: int,
)
    requires
        call_ensures(initial_messages, (&signals,), r),
        0 <= i < signals@.len(),
    ensures
        r@.len() == signals@.len(),
        r@[i]@ == signal_content(signals@[i]),
{
}

/// Over the bus alone the engine cannot answer.
pub proof fn law_only_the_bus_is_mute(t: Transport, r: bool)
    requires
        call_ensures(Transport::is_bidirectional, (&t,), r),
    ensures
        r <==> t is Unix || t is Tcp,
{
}

/// A deduplicator starts with nothing passed, and with a cooldown of sixty seconds where none is
/// given; a counter starts with one.
pub proof fn law_fresh_starts(
    cooldown_secs: F64,
    standard: DirectiveDeduplicator,
    given: DirectiveDeduplicator,
    ids: SeqCounter,
)
    requires
        call_ensures(DirectiveDeduplicator::new, (), standard),
        call_ensures(DirectiveDeduplicator::with_cooldown, (cooldown_secs,), given),
        call_ensures(SeqCounter::new, (), ids),
    ensures
        standard.last_commands is None,
        given.last_commands is None,
        standard.cooldown_secs.value() == 60 * pow2(1074),
        given.cooldown_secs == cooldown_secs,
        ids.next == 1,
{
    reveal(F64::value);
    crate::float::lemma_formats();
    lemma2_to64();
    vstd::arithmetic::power2::lemma2_to64_rest();
    crate::float::model::lemma_units_at(crate::float::binary64(), 1027, 0x1e_0000_0000_0000);
    lemma_pow2_adds(47, 1027);
    assert(0x1e_0000_0000_0000 * pow2(1027) == 60 * (0x8000_0000_0000 * pow2(1027)))
        by (nonlinear_arith);
    assert(standard@.last_commands is None && given@.last_commands is None);
}

} // verus!
