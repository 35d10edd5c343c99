//! GPU readings, however the platform gives them.
//!
//! On Adreno and Mali a file of `/sys` holds the utilization. On a Jetson the frequency is in a
//! file and the utilization comes from the lines that `tegrastats` prints. Elsewhere there is
//! nothing. Utilization and frequency are apart because their sources fail independently.
//!
//! Files are read by the caller: a provider is handed what reads a file and gives its text, or
//! nothing where it cannot be read.

use crate::config::GpuBackend;
use crate::float::decimal::{float_in, float_of, parse_float, whole_float, FloatText};
use crate::float::signed::infinity;
use crate::float::{binary64, F64};
use crate::text::{
    after_prefix, characters, contains, find, first_token, found, join, joined, parse_unsigned,
    strip_str_prefix, token, trim, trimmed, unsigned, Class,
};
use vstd::prelude::*;
use vstd::slice::slice_subrange;
use vstd::string::*;

verus! {

/// The files that may hold the utilization, the most telling first.
///
/// The names under `class/kgsl` exist whatever the chip is called. Of those two `gpu_load` comes
/// first because it is a bare number and is not reset by being read.
pub open spec fn util_candidates() -> Seq<Seq<char>> {
    seq![
        "/sys/class/kgsl/kgsl-3d0/devfreq/gpu_load"@,
        "/sys/class/kgsl/kgsl-3d0/gpu_busy_percentage"@,
        "/sys/kernel/gpu/gpu_busy_percentage"@,
        "/sys/devices/platform/kgsl-3d0.0/kgsl/kgsl-3d0/gpu_busy_percentage"@,
        "/sys/class/misc/mali0/device/utilization"@,
    ]
}

/// The files that may hold the frequency in hertz.
pub open spec fn freq_candidates() -> Seq<Seq<char>> {
    seq!["/sys/class/kgsl/kgsl-3d0/gpuclk"@, "/sys/class/kgsl/kgsl-3d0/devfreq/cur_freq"@]
}

/// The contents of strings.
pub open spec fn texts(v: Seq<String>) -> Seq<Seq<char>> {
    v.map_values(|s: String| s@)
}

pub fn sysfs_util_candidates() -> (r: Vec<String>)
    ensures
        texts(r@) == util_candidates(),
{
    let r: Vec<String> = vec![
        "/sys/class/kgsl/kgsl-3d0/devfreq/gpu_load".to_owned(),
        "/sys/class/kgsl/kgsl-3d0/gpu_busy_percentage".to_owned(),
        "/sys/kernel/gpu/gpu_busy_percentage".to_owned(),
        "/sys/devices/platform/kgsl-3d0.0/kgsl/kgsl-3d0/gpu_busy_percentage".to_owned(),
        "/sys/class/misc/mali0/device/utilization".to_owned(),
    ];
    proof {
        assert(texts(r@) =~= util_candidates());
    }
    r
}

pub fn sysfs_freq_candidates() -> (r: Vec<String>)
    ensures
        texts(r@) == freq_candidates(),
{
    let r: Vec<String> = vec![
        "/sys/class/kgsl/kgsl-3d0/gpuclk".to_owned(),
        "/sys/class/kgsl/kgsl-3d0/devfreq/cur_freq".to_owned(),
    ];
    proof {
        assert(texts(r@) =~= freq_candidates());
    }
    r
}

/// The number that leads a reading of the utilization.
///
/// A file may say `90 %`. Only the first token counts and what follows is its unit: to refuse
/// that would read as "no GPU telemetry", which looks like an idle GPU.
pub open spec fn util_number(content: Seq<char>) -> Option<F64> {
    match first_token(trimmed(content), Class::SpaceOrPercent) {
        Some(head) => float_of(head),
        None => None,
    }
}

pub fn parse_util_pct(content: &str) -> (r: Option<F64>)
    ensures
        r == util_number(content@),
        match first_token(trimmed(content@), Class::SpaceOrPercent) {
            Some(head) => match float_in(head) {
                FloatText::Whole(n) => r == Some(whole_float(n)),
                FloatText::Infinity(negative) => r == Some(
                    F64::of(infinity(binary64(), negative)),
                ),
                FloatText::Nan => r is Some && r->Some_0.is_nan(),
                FloatText::Nothing => r is None,
                FloatText::Other => true,
            },
            None => r is None,
        },
{
    let content: Vec<char> = characters(content);
    match token(trim(&content), Class::SpaceOrPercent) {
        Some(head) => parse_float(head),
        None => None,
    }
}

/// A percentage: a number cut to 0 and 100. What is not a number is no percentage.
pub open spec fn percentage(number: Option<F64>) -> Option<F64> {
    match number {
        Some(v) => if v.is_nan() {
            None
        } else {
            Some(v.clamped(F64 { bits: 0 }, F64 { bits: 0x4059_0000_0000_0000 }))
        },
        None => None,
    }
}

pub fn to_percentage(number: Option<F64>) -> (r: Option<F64>)
    ensures
        r == percentage(number),
{
    match number {
        Some(v) => if v.is_nan() {
            None
        } else {
            Some(v.clamped(F64 { bits: 0 }, F64 { bits: 0x4059_0000_0000_0000 }))
        },
        None => None,
    }
}

/// The utilization that a file's text gives, where it could be read and holds one.
pub open spec fn utilization(content: Option<String>) -> Option<F64> {
    match content {
        Some(text) => percentage(util_number(text@)),
        None => None,
    }
}

/// The frequency that a file's text gives, where it could be read and is a number.
pub open spec fn frequency(content: Option<String>) -> Option<nat> {
    match content {
        Some(text) => unsigned(trimmed(text@), u64::MAX as nat),
        None => None,
    }
}

pub fn parse_freq_hz(content: &Option<String>) -> (r: Option<u64>)
    ensures
        match r {
            Some(n) => frequency(*content) == Some(n as nat),
            None => frequency(*content) is None,
        },
{
    match content {
        Some(text) => {
            let text: Vec<char> = characters(text.as_str());
            parse_unsigned(trim(&text), u64::MAX)
        },
        None => None,
    }
}

/// What is looked for in files.
pub ghost enum Wanted {
    Utilization,
    Frequency,
}

impl Wanted {
    /// Whether a file gives it.
    pub open spec fn in_content(self, content: Option<String>) -> bool {
        match self {
            Wanted::Utilization => utilization(content) is Some,
            Wanted::Frequency => frequency(content) is Some,
        }
    }
}

/// Files are read in turn until one gives what is looked for; `contents` is what was read.
pub open spec fn read_in_turn<R: Fn(&String) -> Option<String>>(
    read: R,
    paths: Seq<String>,
    contents: Seq<Option<String>>,
    wanted: Wanted,
) -> bool {
    &&& contents.len() <= paths.len()
    &&& forall|i: int|
        0 <= i < contents.len() ==> call_ensures(read, (&paths[i],), #[trigger] contents[i])
    &&& forall|i: int| 0 <= i < contents.len() - 1 ==> !wanted.in_content(#[trigger] contents[i])
    &&& contents.len() < paths.len() ==> contents.len() > 0 && wanted.in_content(contents.last())
}

/// What gives GPU readings.
pub trait GpuTelemetryProvider: Send {
    /// The utilization in percent, where it can be measured.
    fn util_pct<R: Fn(&String) -> Option<String>>(&mut self, read: &R) -> (r: Option<F64>)
        requires
            forall|p: &String| call_requires(*read, (p,)),
    ;

    /// The frequency in hertz, where it can be measured.
    fn freq_hz<R: Fn(&String) -> Option<String>>(&mut self, read: &R) -> (r: Option<u64>)
        requires
            forall|p: &String| call_requires(*read, (p,)),
    ;

    /// A short name for logs.
    fn describe(&self) -> (r: &str);
}

/// No GPU, or one that is not supported.
pub struct NullGpuProvider;

impl GpuTelemetryProvider for NullGpuProvider {
    fn util_pct<R: Fn(&String) -> Option<String>>(&mut self, read: &R) -> (r: Option<F64>)
        ensures
            r is None,
    {
        None
    }

    fn freq_hz<R: Fn(&String) -> Option<String>>(&mut self, read: &R) -> (r: Option<u64>)
        ensures
            r is None,
    {
        None
    }

    fn describe(&self) -> (r: &str)
        ensures
            r@ == "null"@,
    {
        "null"
    }
}

/// Files of `/sys`, each tried in turn.
pub struct SysfsGpuProvider {
    pub util_paths: Vec<String>,
    pub freq_paths: Vec<String>,
    pub desc: String,
}

impl SysfsGpuProvider {
    /// All the known files.
    pub fn with_defaults() -> (r: Self)
        ensures
            texts(r.util_paths@) == util_candidates(),
            texts(r.freq_paths@) == freq_candidates(),
            r.desc@ == "sysfs(adreno|mali)"@,
    {
        SysfsGpuProvider {
            util_paths: sysfs_util_candidates(),
            freq_paths: sysfs_freq_candidates(),
            desc: "sysfs(adreno|mali)".to_owned(),
        }
    }

    /// One given file for the utilization.
    pub fn with_custom_util(path: String) -> (r: Self)
        ensures
            texts(r.util_paths@) == seq![path@],
            texts(r.freq_paths@) == freq_candidates(),
            r.desc@ == "sysfs(custom="@ + path@ + ")"@,
    {
        let desc: String = "sysfs(custom=".to_owned().concat(path.as_str()).concat(")");
        let util_paths: Vec<String> = vec![path];
        proof {
            assert(texts(util_paths@) =~= seq![path@]);
        }
        SysfsGpuProvider { util_paths, freq_paths: sysfs_freq_candidates(), desc }
    }

    /// Whether the utilization can be read so: it is that of the first file that gives one.
    pub open spec fn may_give_util<R: Fn(&String) -> Option<String>>(
        self,
        read: R,
        util: Option<F64>,
    ) -> bool {
        exists|contents: Seq<Option<String>>|
            #[trigger] read_in_turn(read, self.util_paths@, contents, Wanted::Utilization) && util
                == if contents.len() == 0 {
                None
            } else {
                utilization(contents.last())
            }
    }

    /// Whether the frequency can be read so: it is that of the first file that gives one.
    pub open spec fn may_give_freq<R: Fn(&String) -> Option<String>>(
        self,
        read: R,
        freq: Option<u64>,
    ) -> bool {
        exists|contents: Seq<Option<String>>|
            #[trigger] read_in_turn(read, self.freq_paths@, contents, Wanted::Frequency)
                && match freq {
                Some(n) => contents.len() > 0 && frequency(contents.last()) == Some(n as nat),
                None => contents.len() > 0 ==> frequency(contents.last()) is None,
            }
    }
}

impl GpuTelemetryProvider for SysfsGpuProvider {
    fn util_pct<R: Fn(&String) -> Option<String>>(&mut self, read: &R) -> (r: Option<F64>)
        ensures
            *final(self) == *old(self),
            old(self).may_give_util(*read, r),
    {
        let ghost wanted = Wanted::Utilization;
        let ghost mut contents: Seq<Option<String>> = Seq::empty();
        let mut i: usize = 0;
        while i < self.util_paths.len()
            invariant
                *self == *old(self),
                i <= self.util_paths.len(),
                contents.len() == i,
                wanted == Wanted::Utilization,
                forall|p: &String| call_requires(*read, (p,)),
                forall|j: int|
                    0 <= j < i ==> call_ensures(
                        *read,
                        (&self.util_paths@[j],),
                        #[trigger] contents[j],
                    ),
                forall|j: int| 0 <= j < i ==> !wanted.in_content(#[trigger] contents[j]),
            decreases self.util_paths.len() - i,
        {
            let content: Option<String> = read(&self.util_paths[i]);
            proof {
                contents = contents.push(content);
            }
            if let Some(text) = &content {
                if let Some(v) = to_percentage(parse_util_pct(text.as_str())) {
                    proof {
                        assert(contents.last() == content);
                        assert(read_in_turn(*read, self.util_paths@, contents, wanted));
                    }
                    return Some(v);
                }
            }
            i = i + 1;
        }
        proof {
            assert(read_in_turn(*read, self.util_paths@, contents, wanted));
            if contents.len() > 0 {
                assert(!wanted.in_content(contents[contents.len() - 1]));
            }
        }
        None
    }

    fn freq_hz<R: Fn(&String) -> Option<String>>(&mut self, read: &R) -> (r: Option<u64>)
        ensures
            *final(self) == *old(self),
            old(self).may_give_freq(*read, r),
    {
        let ghost wanted = Wanted::Frequency;
        let ghost mut contents: Seq<Option<String>> = Seq::empty();
        let mut i: usize = 0;
        while i < self.freq_paths.len()
            invariant
                *self == *old(self),
                i <= self.freq_paths.len(),
                contents.len() == i,
                wanted == Wanted::Frequency,
                forall|p: &String| call_requires(*read, (p,)),
                forall|j: int|
                    0 <= j < i ==> call_ensures(
                        *read,
                        (&self.freq_paths@[j],),
                        #[trigger] contents[j],
                    ),
                forall|j: int| 0 <= j < i ==> !wanted.in_content(#[trigger] contents[j]),
            decreases self.freq_paths.len() - i,
        {
            let content: Option<String> = read(&self.freq_paths[i]);
            proof {
                contents = contents.push(content);
            }
            if let Some(v) = parse_freq_hz(&content) {
                proof {
                    assert(contents.last() == content);
                    assert(read_in_turn(*read, self.freq_paths@, contents, wanted));
                }
                return Some(v);
            }
            i = i + 1;
        }
        proof {
            assert(read_in_turn(*read, self.freq_paths@, contents, wanted));
            if contents.len() > 0 {
                assert(!wanted.in_content(contents[contents.len() - 1]));
            }
        }
        None
    }

    fn describe(&self) -> (r: &str)
        ensures
            r@ == self.desc@,
    {
        self.desc.as_str()
    }
}

/// What stands for `XX` in a line with `GR3D_FREQ XX%`, at most 100.
pub open spec fn gr3d_freq(line: Seq<char>) -> Option<nat> {
    match found(line, "GR3D_FREQ "@) {
        Some(i) => {
            let tail = line.skip(i as int + "GR3D_FREQ "@.len());
            match found(tail, "%"@) {
                Some(n) => match unsigned(trimmed(tail.take(n as int)), u32::MAX as nat) {
                    Some(v) => Some(
                        if v <= 100 {
                            v
                        } else {
                            100
                        },
                    ),
                    None => None,
                },
                None => None,
            }
        },
        None => None,
    }
}

/// Reads the utilization out of a line of `tegrastats`.
pub fn parse_gr3d_freq(line: &str) -> (r: Option<u8>)
    ensures
        match r {
            Some(v) => gr3d_freq(line@) == Some(v as nat),
            None => gr3d_freq(line@) is None,
        },
{
    let line: Vec<char> = characters(line);
    let key: Vec<char> = characters("GR3D_FREQ ");
    let start: usize = match find(&line, &key) {
        Some(i) => i + key.len(),
        None => return None,
    };
    let tail: &[char] = slice_subrange(line.as_slice(), start, line.len());
    proof {
        assert(tail@ == line@.skip(start as int));
    }
    let num_end: usize = match find(tail, &characters("%")) {
        Some(n) => n,
        None => return None,
    };
    let number: &[char] = slice_subrange(tail, 0, num_end);
    proof {
        assert(number@ == tail@.take(num_end as int));
    }
    match parse_unsigned(trim(number), u32::MAX as u64) {
        Some(v) => if v <= 100 {
            Some(v as u8)
        } else {
            Some(100)
        },
        None => None,
    }
}

/// A Jetson: the frequency of a file, and the utilization of the lines that `tegrastats` prints.
pub struct JetsonGpuProvider {
    pub freq_path: Option<String>,
    pub util_percent: u8,
    /// Whether a line has given a utilization yet.
    pub util_seen: bool,
    /// Whether there is a source of lines at all.
    pub streaming: bool,
    pub desc: String,
}

impl JetsonGpuProvider {
    /// A provider whose lines come from a running `tegrastats`.
    pub fn new(freq_path: Option<String>) -> (r: Self)
        ensures
            r.freq_path == freq_path,
            r.util_percent == 0,
            !r.util_seen,
            r.streaming,
            r.desc@ == "jetson(gv11b+tegrastats)"@,
    {
        Self::new_with_source(freq_path, "jetson(gv11b+tegrastats)")
    }

    /// A provider with lines of any source.
    pub fn new_with_source(freq_path: Option<String>, desc: &str) -> (r: Self)
        ensures
            r.freq_path == freq_path,
            r.util_percent == 0,
            !r.util_seen,
            r.streaming,
            r.desc@ == desc@,
    {
        JetsonGpuProvider {
            freq_path,
            util_percent: 0,
            util_seen: false,
            streaming: true,
            desc: desc.to_owned(),
        }
    }

    /// A provider of the frequency alone, for want of `tegrastats`.
    pub fn freq_only(freq_path: String) -> (r: Self)
        ensures
            r.freq_path == Some(freq_path),
            r.util_percent == 0,
            !r.util_seen,
            !r.streaming,
            r.desc@ == "jetson(gv11b,freq-only)"@,
    {
        JetsonGpuProvider {
            freq_path: Some(freq_path),
            util_percent: 0,
            util_seen: false,
            streaming: false,
            desc: "jetson(gv11b,freq-only)".to_owned(),
        }
    }

    /// Before the first line there is no value to trust.
    pub open spec fn util(self) -> Option<F64> {
        if self.streaming && self.util_seen {
            Some(F64::from_whole(self.util_percent as u64))
        } else {
            None
        }
    }

    /// Whether the frequency can be read so: it is that of the frequency file, if there is one.
    pub open spec fn may_give_freq<R: Fn(&String) -> Option<String>>(
        self,
        read: R,
        freq: Option<u64>,
    ) -> bool {
        match self.freq_path {
            Some(path) => exists|content: Option<String>|
                #[trigger] call_ensures(read, (&path,), content) && match freq {
                    Some(n) => frequency(content) == Some(n as nat),
                    None => frequency(content) is None,
                },
            None => freq is None,
        }
    }

    /// The provider after a line. One without a utilization changes nothing.
    pub open spec fn with_line(self, line: Seq<char>) -> JetsonGpuProvider {
        match gr3d_freq(line) {
            Some(v) => JetsonGpuProvider { util_percent: v as u8, util_seen: true, ..self },
            None => self,
        }
    }

    /// Takes in the next line of the source, and tells whether to wait for another: there is
    /// none after the end of the source.
    pub fn take_line(&mut self, line: Option<&str>) -> (r: bool)
        ensures
            r == line is Some,
            *final(self) == match line {
                Some(text) => old(self).with_line(text@),
                None => *old(self),
            },
    {
        match line {
            Some(text) => {
                if let Some(pct) = parse_gr3d_freq(text) {
                    self.util_percent = pct;
                    self.util_seen = true;
                }
                true
            },
            None => false,
        }
    }
}

impl GpuTelemetryProvider for JetsonGpuProvider {
    fn util_pct<R: Fn(&String) -> Option<String>>(&mut self, read: &R) -> (r: Option<F64>)
        ensures
            *final(self) == *old(self),
            r == old(self).util(),
    {
        if !self.streaming || !self.util_seen {
            return None;
        }
        Some(F64::from_whole(self.util_percent as u64))
    }

    fn freq_hz<R: Fn(&String) -> Option<String>>(&mut self, read: &R) -> (r: Option<u64>)
        ensures
            *final(self) == *old(self),
            old(self).may_give_freq(*read, r),
    {
        match &self.freq_path {
            Some(path) => {
                let content: Option<String> = read(path);
                parse_freq_hz(&content)
            },
            None => None,
        }
    }

    fn describe(&self) -> (r: &str)
        ensures
            r@ == self.desc@,
    {
        self.desc.as_str()
    }
}

/// Whether a device frequency entry is that of a Jetson's GPU.
pub open spec fn spec_is_jetson(name: Seq<char>) -> bool {
    found(name, "gv11b"@) is Some || found(name, "ga10b"@) is Some
}

pub fn is_jetson(name: &str) -> (r: bool)
    ensures
        r == spec_is_jetson(name@),
{
    contains(name, "gv11b") || contains(name, "ga10b")
}

/// The first entry that is that of a Jetson's GPU, at or after `from`.
pub open spec fn jetson_entry(names: Seq<Seq<char>>, from: int) -> Option<int>
    decreases names.len() - from,
{
    if from < 0 || from >= names.len() {
        None
    } else if spec_is_jetson(names[from]) {
        Some(from)
    } else {
        jetson_entry(names, from + 1)
    }
}

fn find_jetson(names: &Vec<String>) -> (r: Option<usize>)
    ensures
        match r {
            Some(i) => jetson_entry(texts(names@), 0) == Some(i as int) && i < names.len(),
            None => jetson_entry(texts(names@), 0) is None,
        },
{
    let mut i: usize = 0;
    while i < names.len()
        invariant
            i <= names.len(),
            jetson_entry(texts(names@), i as int) == jetson_entry(texts(names@), 0),
        decreases names.len() - i,
    {
        if is_jetson(names[i].as_str()) {
            return Some(i);
        }
        i = i + 1;
    }
    None
}

/// The directory of device frequencies under a root.
pub fn devfreq_dir(sys_root: &str) -> (r: String)
    ensures
        r@ == joined(sys_root@, "class/devfreq"@),
{
    join(sys_root, "class/devfreq")
}

/// The frequency file of the first Jetson entry among the names in the directory of device
/// frequencies.
pub open spec fn jetson_freq_path(sys_root: Seq<char>, names: Seq<Seq<char>>) -> Option<Seq<char>> {
    match jetson_entry(names, 0) {
        Some(i) => Some(
            joined(joined(joined(sys_root, "class/devfreq"@), names[i]), "cur_freq"@),
        ),
        None => None,
    }
}

pub fn discover_jetson_freq_path(sys_root: &str, names: &Vec<String>) -> (r: Option<String>)
    ensures
        match r {
            Some(path) => jetson_freq_path(sys_root@, texts(names@)) == Some(path@),
            None => jetson_freq_path(sys_root@, texts(names@)) is None,
        },
{
    match find_jetson(names) {
        Some(i) => {
            let dir: String = devfreq_dir(sys_root);
            let entry: String = join(dir.as_str(), names[i].as_str());
            Some(join(entry.as_str(), "cur_freq"))
        },
        None => None,
    }
}

/// A candidate under another root than `/sys`.
pub open spec fn under_root(sys_root: Seq<char>, candidate: Seq<char>) -> Seq<char> {
    match after_prefix(candidate, "/sys/"@) {
        Some(rest) => joined(sys_root, rest),
        None => joined(sys_root, candidate),
    }
}

fn place_under_root(sys_root: &str, candidate: &str) -> (r: String)
    ensures
        r@ == under_root(sys_root@, candidate@),
{
    match strip_str_prefix(candidate, "/sys/") {
        Some(rest) => join(sys_root, rest),
        None => join(sys_root, candidate),
    }
}

/// Whether asking for a path can be answered so.
pub open spec fn may_exist<E: Fn(&String) -> bool>(exists_at: E, path: Seq<char>, there: bool) -> bool {
    exists|p: String| p@ == path && #[trigger] call_ensures(exists_at, (&p,), there)
}

/// Files are asked for in turn until one exists; `there` is what was found out.
pub open spec fn asked_in_turn<E: Fn(&String) -> bool>(
    exists_at: E,
    sys_root: Seq<char>,
    candidates: Seq<Seq<char>>,
    there: Seq<bool>,
) -> bool {
    &&& there.len() <= candidates.len()
    &&& forall|i: int|
        0 <= i < there.len() ==> may_exist(
            exists_at,
            under_root(sys_root, candidates[i]),
            #[trigger] there[i],
        )
    &&& forall|i: int| 0 <= i < there.len() - 1 ==> !#[trigger] there[i]
    &&& there.len() < candidates.len() ==> there.len() > 0 && there.last()
}

/// The backend that a root offers: a Jetson where its GPU has an entry among the names in the
/// directory of device frequencies, else the files of Adreno and Mali where one of them exists,
/// else none.
pub open spec fn may_detect<E: Fn(&String) -> bool>(
    sys_root: Seq<char>,
    names: Seq<Seq<char>>,
    exists_at: E,
    backend: GpuBackend,
) -> bool {
    if jetson_entry(names, 0) is Some {
        backend is Jetson
    } else {
        exists|there: Seq<bool>|
            #[trigger] asked_in_turn(exists_at, sys_root, util_candidates(), there) && backend
                == if there.last() {
                GpuBackend::Sysfs
            } else {
                GpuBackend::Null
            }
    }
}

pub fn detect_backend<E: Fn(&String) -> bool>(
    sys_root: &str,
    names: &Vec<String>,
    exists_at: &E,
) -> (r: GpuBackend)
    requires
        forall|p: &String| call_requires(*exists_at, (p,)),
    ensures
        may_detect(sys_root@, texts(names@), *exists_at, r),
{
    if find_jetson(names).is_some() {
        return GpuBackend::Jetson;
    }
    let candidates: Vec<String> = sysfs_util_candidates();
    let ghost mut there: Seq<bool> = Seq::empty();
    let mut i: usize = 0;
    while i < candidates.len()
        invariant
            i <= candidates.len(),
            jetson_entry(texts(names@), 0) is None,
            texts(candidates@) == util_candidates(),
            there.len() == i,
            forall|p: &String| call_requires(*exists_at, (p,)),
            forall|j: int|
                0 <= j < i ==> may_exist(
                    *exists_at,
                    under_root(sys_root@, util_candidates()[j]),
                    #[trigger] there[j],
                ),
            forall|j: int| 0 <= j < i ==> !#[trigger] there[j],
        decreases candidates.len() - i,
    {
        let path: String = place_under_root(sys_root, candidates[i].as_str());
        let known: bool = exists_at(&path);
        proof {
            assert(texts(candidates@)[i as int] == candidates@[i as int]@);
            there = there.push(known);
        }
        if known {
            proof {
                assert(there.last());
                assert(asked_in_turn(*exists_at, sys_root@, util_candidates(), there));
            }
            return GpuBackend::Sysfs;
        }
        i = i + 1;
    }
    proof {
        assert(candidates@.len() == util_candidates().len());
        assert(asked_in_turn(*exists_at, sys_root@, util_candidates(), there));
        assert(!there[there.len() - 1]);
    }
    GpuBackend::Null
}

/// A provider of any kind.
pub enum GpuProvider {
    Null(NullGpuProvider),
    Sysfs(SysfsGpuProvider),
    Jetson(JetsonGpuProvider),
}

impl GpuTelemetryProvider for GpuProvider {
    fn util_pct<R: Fn(&String) -> Option<String>>(&mut self, read: &R) -> (r: Option<F64>)
        ensures
            *final(self) == *old(self),
            match *old(self) {
                GpuProvider::Null(_) => r is None,
                GpuProvider::Sysfs(p) => p.may_give_util(*read, r),
                GpuProvider::Jetson(p) => r == p.util(),
            },
    {
        match self {
            GpuProvider::Null(_) => None,
            GpuProvider::Sysfs(p) => p.util_pct(read),
            GpuProvider::Jetson(p) => p.util_pct(read),
        }
    }

    fn freq_hz<R: Fn(&String) -> Option<String>>(&mut self, read: &R) -> (r: Option<u64>)
        ensures
            *final(self) == *old(self),
            match *old(self) {
                GpuProvider::Null(_) => r is None,
                GpuProvider::Sysfs(p) => p.may_give_freq(*read, r),
                GpuProvider::Jetson(p) => p.may_give_freq(*read, r),
            },
    {
        match self {
            GpuProvider::Null(_) => None,
            GpuProvider::Sysfs(p) => p.freq_hz(read),
            GpuProvider::Jetson(p) => p.freq_hz(read),
        }
    }

    fn describe(&self) -> (r: &str)
        ensures
            r@ == match *self {
                GpuProvider::Null(_) => "null"@,
                GpuProvider::Sysfs(p) => p.desc@,
                GpuProvider::Jetson(p) => p.desc@,
            },
    {
        match self {
            GpuProvider::Null(p) => p.describe(),
            GpuProvider::Sysfs(p) => p.describe(),
            GpuProvider::Jetson(p) => p.describe(),
        }
    }
}

/// What it takes to have a provider.
pub enum ProviderPlan {
    Ready(GpuProvider),
    /// Start `tegrastats`, and then see [`provider_after_start`].
    Start { freq_path: Option<String>, tegrastats_bin: String },
}

/// How a backend is provided. A Jetson's frequency file is the one that was discovered, if any,
/// and what is left open is taken for the known files.
pub open spec fn planned(
    backend: GpuBackend,
    discovered: Option<String>,
    plan: ProviderPlan,
) -> bool {
    match (backend, plan) {
        (GpuBackend::Null, ProviderPlan::Ready(GpuProvider::Null(_))) => true,
        (
            GpuBackend::Sysfs | GpuBackend::Auto,
            ProviderPlan::Ready(GpuProvider::Sysfs(p)),
        ) => {
            &&& texts(p.util_paths@) == util_candidates()
            &&& texts(p.freq_paths@) == freq_candidates()
            &&& p.desc@ == "sysfs(adreno|mali)"@
        },
        (GpuBackend::CustomSysfs { path }, ProviderPlan::Ready(GpuProvider::Sysfs(p))) => {
            &&& texts(p.util_paths@) == seq![path@]
            &&& texts(p.freq_paths@) == freq_candidates()
            &&& p.desc@ == "sysfs(custom="@ + path@ + ")"@
        },
        (GpuBackend::Jetson, ProviderPlan::Start { freq_path, tegrastats_bin }) => {
            &&& freq_path == discovered
            &&& tegrastats_bin@ == "tegrastats"@
        },
        (
            GpuBackend::JetsonExplicit { freq_path: given, tegrastats_bin: bin },
            ProviderPlan::Start { freq_path, tegrastats_bin },
        ) => {
            &&& freq_path == Some(given)
            &&& tegrastats_bin@ == match bin {
                Some(b) => b@,
                None => "tegrastats"@,
            }
        },
        _ => false,
    }
}

pub fn plan_provider(backend: &GpuBackend, discovered: Option<String>) -> (r: ProviderPlan)
    ensures
        planned(*backend, discovered, r),
{
    match backend {
        GpuBackend::Null => ProviderPlan::Ready(GpuProvider::Null(NullGpuProvider)),
        GpuBackend::CustomSysfs { path } => ProviderPlan::Ready(
            GpuProvider::Sysfs(SysfsGpuProvider::with_custom_util(path.clone())),
        ),
        GpuBackend::Jetson => ProviderPlan::Start {
            freq_path: discovered,
            tegrastats_bin: "tegrastats".to_owned(),
        },
        GpuBackend::JetsonExplicit { freq_path, tegrastats_bin } => ProviderPlan::Start {
            freq_path: Some(freq_path.clone()),
            tegrastats_bin: match tegrastats_bin {
                Some(b) => b.clone(),
                None => "tegrastats".to_owned(),
            },
        },
        GpuBackend::Sysfs | GpuBackend::Auto => ProviderPlan::Ready(
            GpuProvider::Sysfs(SysfsGpuProvider::with_defaults()),
        ),
    }
}

/// The provider after `tegrastats` was started, or could not be: then the frequency alone, and
/// nothing where there is no file for that either.
pub fn provider_after_start(freq_path: Option<String>, started: bool) -> (r: GpuProvider)
    ensures
        match (started, freq_path, r) {
            (true, _, GpuProvider::Jetson(p)) => {
                &&& p.streaming && !p.util_seen && p.util_percent == 0
                &&& p.freq_path == freq_path
                &&& p.desc@ == "jetson(gv11b+tegrastats)"@
            },
            (false, Some(path), GpuProvider::Jetson(p)) => {
                &&& !p.streaming && !p.util_seen && p.util_percent == 0
                &&& p.freq_path == Some(path)
                &&& p.desc@ == "jetson(gv11b,freq-only)"@
            },
            (false, None, GpuProvider::Null(_)) => true,
            _ => false,
        },
{
    if started {
        GpuProvider::Jetson(JetsonGpuProvider::new(freq_path))
    } else {
        match freq_path {
            Some(path) => GpuProvider::Jetson(JetsonGpuProvider::freq_only(path)),
            None => GpuProvider::Null(NullGpuProvider),
        }
    }
}

/// Plans the provider of a backend. One that is left open is detected under `/sys`, from the
/// names in its directory of device frequencies and what else exists there.
pub fn build_provider<E: Fn(&String) -> bool>(
    backend: &GpuBackend,
    names: &Vec<String>,
    exists_at: &E,
) -> (r: ProviderPlan)
    requires
        forall|p: &String| call_requires(*exists_at, (p,)),
    ensures
        exists|resolved: GpuBackend, discovered: Option<String>|
            #[trigger] planned(resolved, discovered, r) && match backend {
                GpuBackend::Auto => may_detect("/sys"@, texts(names@), *exists_at, resolved),
                _ => resolved == *backend,
            } && match discovered {
                Some(path) => jetson_freq_path("/sys"@, texts(names@)) == Some(path@),
                None => jetson_freq_path("/sys"@, texts(names@)) is None,
            },
{
    let discovered: Option<String> = discover_jetson_freq_path("/sys", names);
    match backend {
        GpuBackend::Auto => {
            let detected: GpuBackend = detect_backend("/sys", names, exists_at);
            plan_provider(&detected, discovered)
        },
        _ => plan_provider(backend, discovered),
    }
}

/// Whatever the files hold, a utilization is a number from 0 to 100.
pub proof fn law_utilization_is_a_percentage(content: Option<String>)
    ensures
        match utilization(content) {
            Some(v) => {
                &&& !v.is_nan()
                &&& v.at_least(F64 { bits: 0 })
                &&& (F64 { bits: 0x4059_0000_0000_0000 }).at_least(v)
            },
            None => true,
        },
{
}

/// A line that says nothing of the utilization leaves the last one in place, and the first line
/// that does makes it known.
pub proof fn law_lines_without_utilization_change_nothing(p: JetsonGpuProvider, line: Seq<char>)
    requires
        p.streaming,
    ensures
        gr3d_freq(line) is None ==> p.with_line(line) == p,
        gr3d_freq(line) is Some ==> p.with_line(line).util() is Some,
{
}

} // verus!
