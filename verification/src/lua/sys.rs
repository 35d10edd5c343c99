//! What the `sys` functions of a script compute.
//!
//! Files and the compositor's dump are read by the caller; here is what is read out of them, and
//! what a script gets where there is nothing to read.

use crate::float::decimal::{float_in, float_of, parse_float, whole_float, FloatText};
use crate::float::order::law_quotient_is_not_negative;
use crate::float::signed::infinity;
use crate::float::{binary64, law_whole_is_finite, lemma_formats, F32, F64};
use crate::lua::context::may_fail_to_build;
use crate::lua::vm::{
    create_table, fields, held_once, home, machine, put_unsigned, unsigned_field, Field,
};
use crate::text::{
    after_line, after_prefix, characters, decimal, decimal_text, find, find_from, first_line,
    first_token, found, found_from, lemma_found_from, lemma_run, parse_signed, parse_unsigned, run,
    run_length, signed, split_line, strip_prefix, token, trim, trimmed, unsigned, Class,
};
use vstd::prelude::*;
use vstd::slice::slice_subrange;
use vstd::string::*;

verus! {

/// The value of a line of `/proc/meminfo` after its name: the first word, where it is a number.
pub open spec fn meminfo_value(s: Seq<char>) -> nat {
    match first_token(s, Class::Space) {
        Some(word) => match unsigned(word, u64::MAX as nat) {
            Some(n) => n,
            None => 0,
        },
        None => 0,
    }
}

fn meminfo_number(s: &[char]) -> (r: u64)
    ensures
        r == meminfo_value(s@),
{
    match token(s, Class::Space) {
        Some(word) => match parse_unsigned(word, u64::MAX) {
            Some(n) => n,
            None => 0,
        },
        None => 0,
    }
}

/// Reads a value such as `  12345 kB`.
pub fn parse_meminfo_value(s: &str) -> (r: u64)
    ensures
        r == meminfo_value(s@),
{
    meminfo_number(&characters(s))
}

/// Total, available and free memory, in kilobytes.
pub ghost struct Meminfo {
    pub total: nat,
    pub available: nat,
    pub free: nat,
}

impl Meminfo {
    /// What is known after one more line. A later line of a name replaces an earlier one.
    pub open spec fn with_line(self, line: Seq<char>) -> Meminfo {
        match after_prefix(line, "MemTotal:"@) {
            Some(rest) => Meminfo { total: meminfo_value(rest), ..self },
            None => match after_prefix(line, "MemAvailable:"@) {
                Some(rest) => Meminfo { available: meminfo_value(rest), ..self },
                None => match after_prefix(line, "MemFree:"@) {
                    Some(rest) => Meminfo { free: meminfo_value(rest), ..self },
                    None => self,
                },
            },
        }
    }

    /// What is known after all the lines of a text.
    pub open spec fn with_text(self, text: Seq<char>) -> Meminfo
        decreases text.len(),
    {
        if text.len() == 0 {
            self
        } else {
            self.with_line(first_line(text)).with_text(after_line(text))
        }
    }
}

/// What `/proc/meminfo` tells, where it can be read.
pub open spec fn known_meminfo(content: Option<&str>) -> Meminfo {
    (Meminfo { total: 0, available: 0, free: 0 }).with_text(
        match content {
            Some(text) => text@,
            None => Seq::empty(),
        },
    )
}

/// Reads total, available and free memory out of `/proc/meminfo`. What it does not say is zero,
/// and so is everything where it cannot be read.
pub fn parse_meminfo(content: Option<&str>) -> (r: (u64, u64, u64))
    ensures
        ({
            let known = known_meminfo(content);
            r.0 == known.total && r.1 == known.available && r.2 == known.free
        }),
{
    let text: Vec<char> = match content {
        Some(text) => characters(text),
        None => Vec::new(),
    };
    let ghost start = Meminfo { total: 0, available: 0, free: 0 };
    let total_name: Vec<char> = characters("MemTotal:");
    let available_name: Vec<char> = characters("MemAvailable:");
    let free_name: Vec<char> = characters("MemFree:");
    let mut total: u64 = 0;
    let mut available: u64 = 0;
    let mut free: u64 = 0;
    let mut rest: &[char] = text.as_slice();
    while rest.len() > 0
        invariant
            total_name@ == "MemTotal:"@,
            available_name@ == "MemAvailable:"@,
            free_name@ == "MemFree:"@,
            (Meminfo { total: total as nat, available: available as nat, free: free as nat })
                .with_text(rest@) == start.with_text(text@),
        decreases rest.len(),
    {
        let (line, after) = split_line(rest);
        if let Some(value) = strip_prefix(line, &total_name) {
            total = meminfo_number(value);
        } else if let Some(value) = strip_prefix(line, &available_name) {
            available = meminfo_number(value);
        } else if let Some(value) = strip_prefix(line, &free_name) {
            free = meminfo_number(value);
        }
        rest = after;
    }
    (total, available, free)
}

/// What `sys.meminfo()` gives a script.
pub open spec fn meminfo_fields(known: Meminfo) -> Map<Seq<char>, Field> {
    Map::empty()
        .insert("total"@, unsigned_field(known.total as u64))
        .insert("available"@, unsigned_field(known.available as u64))
        .insert("free"@, unsigned_field(known.free as u64))
}

/// Builds the table of `sys.meminfo()` from `/proc/meminfo`.
pub fn meminfo_table(lua: &mlua::Lua, content: Option<&str>) -> (r: Result<mlua::Table, mlua::Error>)
    ensures
        r is Ok ==> home(r->Ok_0) == machine(*lua) && held_once(r->Ok_0),
        r is Ok ==> fields(r->Ok_0) == meminfo_fields(known_meminfo(content)),
        r is Err ==> may_fail_to_build(r->Err_0),
{
    let (total, available, free) = parse_meminfo(content);
    let mut table = create_table(lua)?;
    put_unsigned(lua, &mut table, "total", total)?;
    put_unsigned(lua, &mut table, "available", available)?;
    put_unsigned(lua, &mut table, "free", free)?;
    Ok(table)
}

/// Where the temperature of a thermal zone is.
pub fn thermal_zone_path(zone: u32) -> (r: String)
    ensures
        r@ == "/sys/class/thermal/thermal_zone"@ + decimal(zone as nat) + "/temp"@,
{
    "/sys/class/thermal/thermal_zone".to_owned().concat(decimal_text(zone).as_str()).concat("/temp")
}

/// Degrees of what is given in millidegrees, and minus one where nothing is given.
pub open spec fn degrees(millidegrees: Option<F64>) -> F64 {
    match millidegrees {
        Some(mc) => mc.over(F64 { bits: 0x408f_4000_0000_0000 }),
        None => F64 { bits: 0xbff0_0000_0000_0000 },
    }
}

pub fn to_degrees(millidegrees: Option<F64>) -> (r: F64)
    ensures
        r == degrees(millidegrees),
{
    match millidegrees {
        Some(mc) => mc.over(F64 { bits: 0x408f_4000_0000_0000 }),
        None => F64 { bits: 0xbff0_0000_0000_0000 },
    }
}

/// The temperature that a thermal zone's file gives, where it can be read.
pub fn zone_temperature(content: Option<&str>) -> (r: F64)
    ensures
        r == degrees(
            match content {
                Some(text) => float_of(trimmed(text@)),
                None => None,
            },
        ),
        content is Some ==> match float_in(trimmed(content->Some_0@)) {
            FloatText::Whole(n) => r == degrees(Some(whole_float(n))),
            FloatText::Infinity(negative) => r == degrees(
                Some(F64::of(infinity(binary64(), negative))),
            ),
            FloatText::Nan => r.is_nan(),
            FloatText::Nothing => r == degrees(None),
            FloatText::Other => true,
        },
{
    match content {
        Some(text) => {
            proof {
                lemma_formats();
            }
            to_degrees(parse_float(trim(&characters(text))))
        },
        None => to_degrees(None),
    }
}

/// The utilization as a whole number, and minus one where there is none.
pub fn gpu_busy(util_pct: Option<F64>) -> (r: i64)
    ensures
        r == match util_pct {
            Some(v) => v.rounded() as int,
            None => -1,
        },
{
    match util_pct {
        Some(v) => v.rounded(),
        None => -1,
    }
}

/// The frequency, and minus one where there is none. One that is past the signed numbers comes
/// out negative.
pub fn gpu_freq(freq_hz: Option<u64>) -> (r: i64)
    ensures
        r == match freq_hz {
            Some(v) => if v <= i64::MAX {
                v as int
            } else {
                v - 0x1_0000_0000_0000_0000
            },
            None => -1,
        },
{
    match freq_hz {
        Some(v) => if v <= i64::MAX as u64 {
            v as i64
        } else {
            -((u64::MAX - v) as i64) - 1
        },
        None => -1,
    }
}

/// Where the frequency of a processor is.
pub fn cpu_freq_path(cpu: u32) -> (r: String)
    ensures
        r@ == "/sys/devices/system/cpu/cpu"@ + decimal(cpu as nat)
            + "/cpufreq/scaling_cur_freq"@,
{
    "/sys/devices/system/cpu/cpu".to_owned().concat(decimal_text(cpu).as_str()).concat(
        "/cpufreq/scaling_cur_freq",
    )
}

/// The frequency that a processor's file gives, and minus one where it gives none.
pub fn cpu_freq(content: Option<&str>) -> (r: i64)
    ensures
        r == match content {
            Some(text) => match signed(trimmed(text@)) {
                Some(n) => n,
                None => -1,
            },
            None => -1,
        },
{
    match content {
        Some(text) => match parse_signed(trim(&characters(text))) {
            Some(n) => n,
            None => -1,
        },
        None => -1,
    }
}

/// The number after the first `frame=` of a line.
pub open spec fn frame_in_line(line: Seq<char>) -> Option<nat> {
    match found(line, "frame="@) {
        Some(i) => {
            let rest = line.skip(i as int + "frame="@.len());
            unsigned(rest.take(run(rest, Class::Digit, true) as int), u64::MAX as nat)
        },
        None => None,
    }
}

fn read_frame(line: &[char]) -> (r: Option<u64>)
    ensures
        match r {
            Some(n) => frame_in_line(line@) == Some(n as nat),
            None => frame_in_line(line@) is None,
        },
{
    let key: Vec<char> = characters("frame=");
    match find(line, &key) {
        Some(i) => {
            let rest: &[char] = slice_subrange(line, i + key.len(), line.len());
            let n: usize = run_length(rest, Class::Digit, true);
            let number: &[char] = slice_subrange(rest, 0, n);
            proof {
                assert(rest@ == line@.skip(i as int + key@.len()));
                assert(number@ == rest@.take(n as int));
            }
            parse_unsigned(number, u64::MAX)
        },
        None => None,
    }
}

/// The first frame number in at most `n` lines.
pub open spec fn frame_in_lines(text: Seq<char>, n: nat) -> Option<nat>
    decreases n,
{
    if n == 0 || text.len() == 0 {
        None
    } else {
        match frame_in_line(first_line(text)) {
            Some(frame) => Some(frame),
            None => frame_in_lines(after_line(text), (n - 1) as nat),
        }
    }
}

fn read_frame_near(text: &[char]) -> (r: Option<u64>)
    ensures
        match r {
            Some(n) => frame_in_lines(text@, 5) == Some(n as nat),
            None => frame_in_lines(text@, 5) is None,
        },
{
    let mut rest: &[char] = text;
    let mut left: u8 = 5;
    while left > 0 && rest.len() > 0
        invariant
            frame_in_lines(rest@, left as nat) == frame_in_lines(text@, 5),
        decreases left,
    {
        let (line, after) = split_line(rest);
        if let Some(frame) = read_frame(line) {
            return Some(frame);
        }
        rest = after;
        left = left - 1;
    }
    None
}

/// What a package's layers are listed under.
pub open spec fn layer_marker(pkg: Seq<char>) -> Seq<char> {
    "SurfaceView["@ + pkg
}

/// The frame number of the first layer, at or after `from`, that has one in the line of its
/// marker or the four after it. A package may have layers without a frame number.
pub open spec fn frame_from(text: Seq<char>, pkg: Seq<char>, from: nat) -> Option<nat>
    decreases text.len() - from via lemma_frame_from_decreases
{
    match found_from(text, layer_marker(pkg), from) {
        Some(i) => match frame_in_lines(text.skip(i as int), 5) {
            Some(frame) => Some(frame),
            None => frame_from(text, pkg, i + layer_marker(pkg).len()),
        },
        None => None,
    }
}

#[via_fn]
proof fn lemma_frame_from_decreases(text: Seq<char>, pkg: Seq<char>, from: nat) {
    reveal_strlit("SurfaceView[");
    lemma_found_from(text, layer_marker(pkg), from);
}

/// Finds the frame number of a package in the dump of the compositor.
pub fn frame_count(dump: &str, pkg: &str) -> (r: Option<u64>)
    ensures
        match r {
            Some(n) => frame_from(dump@, pkg@, 0) == Some(n as nat),
            None => frame_from(dump@, pkg@, 0) is None,
        },
{
    let text: Vec<char> = characters(dump);
    let marker: Vec<char> = characters("SurfaceView[".to_owned().concat(pkg).as_str());
    proof {
        reveal_strlit("SurfaceView[");
    }
    let mut from: usize = 0;
    while from <= text.len()
        invariant
            text@ == dump@,
            marker@ == layer_marker(pkg@),
            marker@.len() > 0,
            from <= text@.len(),
            frame_from(text@, pkg@, from as nat) == frame_from(text@, pkg@, 0),
        decreases text.len() - from,
    {
        proof {
            lemma_found_from(text@, marker@, from as nat);
        }
        match find_from(&text, &marker, from) {
            Some(pos) => {
                let after: &[char] = slice_subrange(text.as_slice(), pos, text.len());
                proof {
                    assert(after@ == text@.skip(pos as int));
                }
                if let Some(frame) = read_frame_near(after) {
                    return Some(frame);
                }
                from = pos + marker.len();
            },
            None => return None,
        }
    }
    None
}

/// Counts frames between two calls.
#[derive(Debug, Clone, Copy)]
pub struct FpsState {
    pub prev_frame: u64,
    pub initialized: bool,
}

/// What a call gives, and whether the time is measured from this call on.
#[derive(Debug, Clone, Copy)]
pub struct FpsTick {
    pub fps: Option<F32>,
    pub restart: bool,
}

impl FpsState {
    pub fn new() -> (r: Self)
        ensures
            r == (FpsState { prev_frame: 0, initialized: false }),
    {
        FpsState { prev_frame: 0, initialized: false }
    }

    /// What a call at `frame`, `dt` seconds after the last measured one, gives: nothing the first
    /// time and nothing before a tenth of a second has gone by, else the frames per second.
    pub open spec fn tick(self, frame: u64, dt: F32) -> FpsTick {
        if !self.initialized {
            FpsTick { fps: None, restart: true }
        } else if dt.lt(F32 { bits: 0x3dcc_cccd }) {
            FpsTick { fps: None, restart: false }
        } else {
            FpsTick {
                fps: Some(
                    F32::from_whole(
                        if frame >= self.prev_frame {
                            (frame - self.prev_frame) as u64
                        } else {
                            0
                        },
                    ).over(dt),
                ),
                restart: true,
            }
        }
    }

    /// The state after such a call: a call that is measured is what the next one counts from.
    pub open spec fn after(self, frame: u64, dt: F32) -> FpsState {
        if self.tick(frame, dt).restart {
            FpsState { prev_frame: frame, initialized: true }
        } else {
            self
        }
    }

    pub fn measure(&mut self, frame: u64, dt: F32) -> (r: FpsTick)
        ensures
            r == old(self).tick(frame, dt),
            *final(self) == old(self).after(frame, dt),
    {
        if !self.initialized {
            self.prev_frame = frame;
            self.initialized = true;
            return FpsTick { fps: None, restart: true };
        }
        if dt.lt(F32 { bits: 0x3dcc_cccd }) {
            return FpsTick { fps: None, restart: false };
        }
        let delta: u64 = if frame >= self.prev_frame {
            frame - self.prev_frame
        } else {
            0
        };
        self.prev_frame = frame;
        FpsTick { fps: Some(F32::from_whole(delta).over(dt)), restart: true }
    }
}

impl Default for FpsState {
    fn default() -> (r: Self)
        ensures
            r == (FpsState { prev_frame: 0, initialized: false }),
    {
        FpsState::new()
    }
}

/// The state after a row of calls, each at its frame and so many seconds after the last measured
/// one.
pub open spec fn after_calls(state: FpsState, calls: Seq<(u64, F32)>) -> FpsState
    decreases calls.len(),
{
    if calls.len() == 0 {
        state
    } else {
        after_calls(state, calls.drop_last()).after(calls.last().0, calls.last().1)
    }
}

/// The first call gives nothing, and is what the next one counts from.
pub proof fn law_first_call_gives_nothing(frame: u64, dt: F32)
    ensures
        ({
            let fresh = FpsState { prev_frame: 0, initialized: false };
            &&& fresh.tick(frame, dt) == (FpsTick { fps: None, restart: true })
            &&& fresh.after(frame, dt) == (FpsState { prev_frame: frame, initialized: true })
        }),
{
}

/// Calls that come too soon give nothing and leave the start of the measurement as it was, however
/// many there are: the next call gives what it would have given without them.
pub proof fn law_calls_too_soon_change_nothing(
    state: FpsState,
    soon: Seq<(u64, F32)>,
    frame: u64,
    dt: F32,
)
    requires
        state.initialized,
        forall|i: int|
            0 <= i < soon.len() ==> (#[trigger] soon[i]).1.lt(F32 { bits: 0x3dcc_cccd }),
    ensures
        after_calls(state, soon) == state,
        after_calls(state, soon).tick(frame, dt) == state.tick(frame, dt),
        forall|i: int|
            0 <= i < soon.len() ==> state.tick((#[trigger] soon[i]).0, soon[i].1).fps is None,
    decreases soon.len(),
{
    if soon.len() > 0 {
        let before = soon.drop_last();
        assert forall|i: int| 0 <= i < before.len() implies (#[trigger] before[i]).1.lt(
            F32 { bits: 0x3dcc_cccd },
        ) by {
            assert(before[i] == soon[i]);
        }
        law_calls_too_soon_change_nothing(state, before, frame, dt);
        assert(soon.last() == soon[soon.len() - 1]);
    }
}

/// A rate that is given is not negative, and there is one exactly for a call that is neither the
/// first nor too soon.
pub proof fn law_rate_is_not_negative(state: FpsState, frame: u64, dt: F32)
    ensures
        ({
            let fps = state.tick(frame, dt).fps;
            &&& fps is Some <==> state.initialized && !dt.lt(F32 { bits: 0x3dcc_cccd })
            &&& fps is Some ==> !fps->Some_0.lt(F32 { bits: 0 })
            &&& fps is Some && !dt.is_nan() ==> fps->Some_0.at_least(F32 { bits: 0 })
        }),
{
    let delta: u64 = if frame >= state.prev_frame {
        (frame - state.prev_frame) as u64
    } else {
        0
    };
    lemma_formats();
    law_whole_is_finite(delta);
    if state.initialized && !dt.lt(F32 { bits: 0x3dcc_cccd }) && !dt.is_nan() {
        law_quotient_is_not_negative(F32::from_whole(delta), dt);
    }
}

/// What is read of a file: its text without the white space at its ends, or nothing.
pub fn file_text(content: Option<&str>) -> (r: String)
    ensures
        r@ == match content {
            Some(text) => trimmed(text@),
            None => Seq::empty(),
        },
{
    match content {
        Some(text) => {
            let all: Vec<char> = characters(text);
            let start: usize = run_length(&all, Class::Space, true);
            let inner: &[char] = trim(&all);
            let count: usize = all.len();
            proof {
                lemma_trimmed(all@);
                assert(start + inner@.len() <= count);
            }
            text.substring_char(start, start + inner.len()).to_owned()
        },
        None => String::new(),
    }
}

proof fn lemma_trimmed(s: Seq<char>)
    ensures
        ({
            let start = run(s, Class::Space, true) as int;
            &&& start + trimmed(s).len() <= s.len()
            &&& s.subrange(start, start + trimmed(s).len()) == trimmed(s)
        }),
{
    lemma_run(s, Class::Space, true);
    let start = run(s, Class::Space, true) as int;
    let t = s.skip(start);
    lemma_without_trailing(t);
    assert(s.subrange(start, start + trimmed(s).len()) =~= t.take(trimmed(s).len() as int));
}

proof fn lemma_without_trailing(s: Seq<char>)
    ensures
        crate::text::without_trailing_space(s).len() <= s.len(),
        s.take(crate::text::without_trailing_space(s).len() as int)
            == crate::text::without_trailing_space(s),
    decreases s.len(),
{
    if s.len() > 0 && crate::text::is_space(s.last()) {
        lemma_without_trailing(s.drop_last());
        let n = crate::text::without_trailing_space(s).len() as int;
        assert(s.take(n) =~= s.drop_last().take(n));
    } else {
        assert(s.take(s.len() as int) =~= s);
    }
}

} // verus!
