//! What is read of the GPU, and where.

use crate::config::GpuBackend;
use crate::float::decimal::{float_of, names_infinity, names_nan, without_sign};
use crate::float::meaning::{law_from_whole64, lemma_constants, lemma_order64};
use crate::float::{lemma_formats, F64};
use crate::laws::texts::{
    blank, law_first_word, law_no_place, law_numbers_are_digits, law_numbers_are_read_back,
    law_only_blanks_are_taken_off, law_prefix_is_taken_off, law_trimming_takes_only_the_ends,
    law_what_follows_the_first_place, lemma_decimal,
};
use crate::monitor::gpu_provider::{
    asked_in_turn, freq_candidates, frequency, gr3d_freq, jetson_entry, jetson_freq_path,
    may_detect, may_exist, percentage, planned, read_in_turn, spec_is_jetson, texts, under_root,
    util_candidates, util_number, utilization, JetsonGpuProvider, ProviderPlan,
    SysfsGpuProvider, Wanted,
};
use crate::text::{
    decimal, first_token, found, is_space, joined, lemma_run, occurs_at, run, trimmed, unsigned,
    without_leading_space, without_trailing_space, Class,
};
use vstd::arithmetic::power2::pow2;
use vstd::prelude::*;

verus! {

/// A number from 0 to 100 is a percentage as it is, one below is none, and one above is all; what is
/// not a number is no percentage.
pub proof fn law_percentages(x: F64)
    ensures
        x.is_nan() ==> percentage(Some(x)) is None,
        percentage(None) is None,
        !x.is_nan() ==> percentage(Some(x)) is Some,
        !x.is_nan() && 0 <= x.value() <= 100 * pow2(1074) ==> percentage(Some(x)) == Some(x),
        !x.is_nan() && x.value() < 0 ==> percentage(Some(x))->Some_0.value() == 0,
        !x.is_nan() && x.value() > 100 * pow2(1074) ==> percentage(Some(x))->Some_0.value() == 100
            * pow2(1074),
{
    lemma_formats();
    lemma_constants();
    if !x.is_nan() {
        lemma_order64(x, F64 { bits: 0 });
        lemma_order64(F64 { bits: 0x4059_0000_0000_0000 }, x);
    }
}

proof fn lemma_blank_off_the_end(word: Seq<char>, rest: Seq<char>) -> (k: int)
    requires
        word.len() > 0,
        !is_space(word.last()),
    ensures
        0 <= k <= rest.len(),
        without_trailing_space(word + rest) == word + rest.take(k),
    decreases rest.len(),
{
    let s = word + rest;
    if rest.len() == 0 {
        assert(s =~= word);
        assert(word + rest.take(0) =~= word);
        0
    } else if is_space(rest.last()) {
        assert(s.last() == rest.last());
        assert(s.drop_last() =~= word + rest.drop_last());
        let k = lemma_blank_off_the_end(word, rest.drop_last());
        assert(rest.drop_last().take(k) =~= rest.take(k));
        k
    } else {
        assert(s.last() == rest.last());
        assert(rest.take(rest.len() as int) =~= rest);
        rest.len() as int
    }
}

/// The name of what is not a number, in any case and with a sign or none, is read as such.
pub proof fn law_nan_is_read(text: Seq<char>, name: Seq<char>)
    requires
        name == "nan"@ || name == "NaN"@ || name == "NAN"@,
        text == name || text == seq!['+'] + name || text == seq!['-'] + name,
    ensures
        float_of(text) is Some,
        float_of(text)->Some_0.is_nan(),
{
    reveal_strlit("nan");
    reveal_strlit("NaN");
    reveal_strlit("NAN");
    reveal_strlit("inf");
    reveal_strlit("infinity");
    lemma_formats();
    let bare = without_sign(text);
    assert(bare =~= name);
    assert(names_nan(text));
    assert(!names_infinity(text)) by {
        assert(bare[0] == 'n' || bare[0] == 'N');
        assert("inf"@[0] == 'i' && "infinity"@.len() == 8);
    }
    lemma_run(text, Class::Digit, true);
    if run(text, Class::Digit, true) == text.len() {
        assert(Class::Digit.has(text[0]) == true);
    }
}

/// Whether a character ends a number of the utilization.
pub open spec fn separates(c: char) -> bool {
    is_space(c) || c == '%'
}

/// The utilization in a text is the number that leads it: white space and percent signs before it
/// do not count, nor does anything from the first of them after it on.
pub proof fn law_leading_number_is_the_utilization(
    before: Seq<char>,
    word: Seq<char>,
    rest: Seq<char>,
)
    requires
        forall|i: int| 0 <= i < before.len() ==> separates(#[trigger] before[i]),
        word.len() > 0,
        forall|i: int| 0 <= i < word.len() ==> !separates(#[trigger] word[i]),
        rest.len() > 0 ==> separates(rest[0]),
    ensures
        util_number(before + word + rest) == float_of(word),
{
    lemma_utilization_word(before, word, rest);
}

pub proof fn lemma_utilization_word(before: Seq<char>, word: Seq<char>, rest: Seq<char>)
    requires
        forall|i: int| 0 <= i < before.len() ==> separates(#[trigger] before[i]),
        word.len() > 0,
        forall|i: int| 0 <= i < word.len() ==> !separates(#[trigger] word[i]),
        rest.len() > 0 ==> separates(rest[0]),
    ensures
        first_token(trimmed(before + word + rest), Class::SpaceOrPercent) == Some(word),
{
    let s = before + word + rest;
    let n = run(s, Class::Space, true) as int;
    lemma_run(s, Class::Space, true);
    assert(s[before.len() as int] == word[0]);
    assert(!separates(word[0]) && !separates(word[word.len() - 1]));
    assert(n <= before.len()) by {
        if n > before.len() {
            assert(Class::Space.has(s[before.len() as int]) == true);
        }
    }
    let start = before.skip(n);
    let head = start + word;
    assert(without_leading_space(s) =~= head + rest);
    let k = lemma_blank_off_the_end(head, rest);
    let end = rest.take(k);
    if end.len() > 0 {
        assert(end[0] == rest[0]);
    }
    assert forall|i: int| 0 <= i < start.len() implies Class::SpaceOrPercent.has(
        #[trigger] start[i],
    ) by {
        assert(separates(before[n + i]));
    }
    assert forall|i: int| 0 <= i < word.len() implies !Class::SpaceOrPercent.has(
        #[trigger] word[i],
    ) by {
        assert(!separates(word[i]));
    }
    law_first_word(start, word, end, Class::SpaceOrPercent);
}

/// A text of white space and percent signs alone gives no utilization.
pub proof fn law_no_number_no_utilization(s: Seq<char>)
    requires
        forall|i: int| 0 <= i < s.len() ==> separates(#[trigger] s[i]),
    ensures
        util_number(s) is None,
{
    let ends = law_only_blanks_are_taken_off(s);
    let t = trimmed(s);
    let none = Seq::<char>::empty();
    assert forall|i: int| 0 <= i < t.len() implies Class::SpaceOrPercent.has(#[trigger] t[i]) by {
        assert(t[i] == s[ends.0.len() + i]);
        assert(separates(s[ends.0.len() + i]));
    }
    law_first_word(t, none, none, Class::SpaceOrPercent);
}

/// The utilization of a file is the number of its text as a percentage; a file that cannot be read
/// gives none.
pub proof fn law_utilization_of_a_file(text: String, x: F64)
    requires
        util_number(text@) == Some(x),
    ensures
        x.is_nan() ==> utilization(Some(text)) is None,
        !x.is_nan() && 0 <= x.value() <= 100 * pow2(1074) ==> utilization(Some(text)) == Some(x),
        !x.is_nan() ==> utilization(Some(text)) is Some,
        utilization(None) is None,
{
    law_percentages(x);
}

/// A file without a number gives no utilization.
pub proof fn law_no_utilization_of_a_file(text: String)
    requires
        util_number(text@) is None,
    ensures
        utilization(Some(text)) is None,
{
    law_percentages(F64 { bits: 0 });
}

/// A file that holds anything but digits, a plus sign and white space gives no frequency.
pub proof fn law_other_text_is_no_frequency(text: String, i: int)
    requires
        0 <= i < text@.len(),
        !is_space(text@[i]),
        text@[i] != '+',
        !('0' as u32 <= text@[i] as u32 <= '9' as u32),
    ensures
        frequency(Some(text)) is None,
{
    let s = text@;
    let ends = law_only_blanks_are_taken_off(s);
    let t = trimmed(s);
    if unsigned(t, u64::MAX as nat) is Some {
        law_numbers_are_digits(t, u64::MAX as nat);
        let k = i - ends.0.len();
        if k < 0 {
            assert(is_space(ends.0[i]));
        } else if k >= t.len() {
            assert(is_space(ends.1[k - t.len()]));
        } else {
            assert(s[i] == t[k]);
            if t[0] == '+' {
                assert(t.drop_first()[k - 1] == t[k]);
            }
        }
    }
}

/// The frequency of a file is the number that it holds between white space; a file that cannot be
/// read gives none.
pub proof fn law_frequency_is_read(before: Seq<char>, n: u64, after: Seq<char>, text: String)
    requires
        blank(before),
        blank(after),
        text@ == before + decimal(n as nat) + after,
    ensures
        frequency(Some(text)) == Some(n as nat),
        frequency(None) is None,
{
    let word = decimal(n as nat);
    lemma_decimal(n as nat);
    assert('0' as u32 <= word[0] as u32 <= '9' as u32);
    assert('0' as u32 <= word[word.len() - 1] as u32 <= '9' as u32);
    law_trimming_takes_only_the_ends(before, word, after);
    law_numbers_are_read_back(n as nat, u64::MAX as nat);
}

/// A line of `tegrastats` gives the number that stands between its first `GR3D_FREQ ` and the percent
/// sign after that, and 100 where it is more; what stands there and is no number gives none.
pub proof fn law_gr3d_is_read(before: Seq<char>, number: Seq<char>, rest: Seq<char>)
    requires
        forall|i: int| 0 <= i < number.len() ==> (#[trigger] number[i]) != '%',
        forall|j: int|
            0 <= j < before.len() ==> !occurs_at(
                before + "GR3D_FREQ "@ + (number + "%"@ + rest),
                "GR3D_FREQ "@,
                j,
            ),
    ensures
        gr3d_freq(before + "GR3D_FREQ "@ + (number + "%"@ + rest)) == match unsigned(
            trimmed(number),
            u32::MAX as nat,
        ) {
            Some(n) => Some(
                if n <= 100 {
                    n
                } else {
                    100
                },
            ),
            None => None,
        },
{
    let tail = number + "%"@ + rest;
    reveal_strlit("%");
    law_what_follows_the_first_place(before, "GR3D_FREQ "@, tail);
    assert forall|j: int| 0 <= j < number.len() implies !occurs_at(tail, "%"@, j) by {
        assert(tail[j] == number[j]);
        if occurs_at(tail, "%"@, j) {
            assert(tail.subrange(j, j + 1)[0] == tail[j]);
        }
    }
    law_what_follows_the_first_place(number, "%"@, rest);
    assert(tail.take(number.len() as int) =~= number);
}

/// A line with no percent sign after its first `GR3D_FREQ ` gives no utilization.
pub proof fn law_no_percent_sign_no_utilization(before: Seq<char>, tail: Seq<char>)
    requires
        forall|i: int| 0 <= i < tail.len() ==> (#[trigger] tail[i]) != '%',
        forall|j: int|
            0 <= j < before.len() ==> !occurs_at(
                before + "GR3D_FREQ "@ + tail,
                "GR3D_FREQ "@,
                j,
            ),
    ensures
        gr3d_freq(before + "GR3D_FREQ "@ + tail) is None,
{
    reveal_strlit("%");
    law_what_follows_the_first_place(before, "GR3D_FREQ "@, tail);
    law_no_place(tail, "%"@);
    assert forall|j: int| !occurs_at(tail, "%"@, j) by {
        if occurs_at(tail, "%"@, j) {
            assert(tail.subrange(j, j + 1)[0] == tail[j]);
            assert(tail[j] != '%');
        }
    }
}

/// A line without `GR3D_FREQ ` gives no utilization.
pub proof fn law_other_lines_give_no_utilization(line: Seq<char>)
    requires
        forall|j: int| !occurs_at(line, "GR3D_FREQ "@, j),
    ensures
        gr3d_freq(line) is None,
{
    law_no_place(line, "GR3D_FREQ "@);
}

/// A Jetson's utilization is that of the last line that had one, as it stood there; there is none
/// before the first such line, nor without a source of lines. Lines change nothing else.
pub proof fn law_last_line_is_the_utilization(p: JetsonGpuProvider, line: Seq<char>)
    ensures
        ({
            let after = p.with_line(line);
            &&& after.freq_path == p.freq_path
            &&& after.streaming == p.streaming
            &&& after.desc == p.desc
            &&& !p.streaming ==> after.util() is None
            &&& !p.util_seen ==> p.util() is None
            &&& gr3d_freq(line) is None ==> after.util() == p.util()
            &&& gr3d_freq(line) is Some && p.streaming ==> after.util() is Some
                && after.util()->Some_0.is((gr3d_freq(line)->Some_0 * pow2(1074)) as int, 1)
        }),
{
    if let Some(v) = gr3d_freq(line) {
        assert(v <= 100);
        law_from_whole64(v as u64);
    }
}

/// A device is a Jetson's GPU exactly where one of the two names of such GPUs stands anywhere in its
/// name, and the first such device is the one that is found.
pub proof fn law_first_jetson_is_found(names: Seq<Seq<char>>, name: Seq<char>, from: int)
    requires
        0 <= from,
    ensures
        spec_is_jetson(name) <==> exists|j: int|
            occurs_at(name, "gv11b"@, j) || occurs_at(name, "ga10b"@, j),
        match jetson_entry(names, from) {
            Some(i) => from <= i < names.len() && spec_is_jetson(names[i]) && forall|j: int|
                from <= j < i ==> !spec_is_jetson(#[trigger] names[j]),
            None => forall|j: int| from <= j < names.len() ==> !spec_is_jetson(#[trigger] names[j]),
        },
    decreases names.len() - from,
{
    law_no_place(name, "gv11b"@);
    law_no_place(name, "ga10b"@);
    if spec_is_jetson(name) {
        if found(name, "gv11b"@) is Some {
            let j = choose|j: int| occurs_at(name, "gv11b"@, j);
            assert(occurs_at(name, "gv11b"@, j) || occurs_at(name, "ga10b"@, j));
        } else {
            let j = choose|j: int| occurs_at(name, "ga10b"@, j);
            assert(occurs_at(name, "gv11b"@, j) || occurs_at(name, "ga10b"@, j));
        }
    }
    if from < names.len() && !spec_is_jetson(names[from]) {
        law_first_jetson_is_found(names, name, from + 1);
    }
}

/// The frequency file of a Jetson is `cur_freq` under its device, among the device frequencies of
/// the root.
pub proof fn law_jetson_frequency_file(root: Seq<char>, names: Seq<Seq<char>>, i: int)
    requires
        root.len() > 0,
        root.last() != '/',
        0 <= i < names.len(),
        names[i].len() > 0,
        names[i][0] != '/',
        names[i].last() != '/',
        spec_is_jetson(names[i]),
        forall|j: int| 0 <= j < i ==> !spec_is_jetson(#[trigger] names[j]),
    ensures
        jetson_freq_path(root, names) == Some(
            root + "/class/devfreq/"@ + names[i] + "/cur_freq"@,
        ),
{
    law_first_jetson_is_found(names, names[i], 0);
    reveal_strlit("class/devfreq");
    reveal_strlit("/class/devfreq/");
    reveal_strlit("cur_freq");
    reveal_strlit("/cur_freq");
    let dir = joined(root, "class/devfreq"@);
    assert(dir + seq!['/'] =~= root + "/class/devfreq/"@);
    assert(dir.last() == 'q');
    let entry = joined(dir, names[i]);
    assert(entry =~= root + "/class/devfreq/"@ + names[i]);
    assert(entry.last() == names[i].last());
    assert(joined(entry, "cur_freq"@) =~= root + "/class/devfreq/"@ + names[i] + "/cur_freq"@);
}

/// A known file under another root is the same file with that root in the place of `/sys`.
pub proof fn law_another_root(root: Seq<char>, rest: Seq<char>)
    requires
        root.len() > 0,
        root.last() != '/',
        rest.len() > 0,
        rest[0] != '/',
    ensures
        under_root(root, "/sys/"@ + rest) == root + seq!['/'] + rest,
        under_root(root, rest) == root + seq!['/'] + rest,
{
    reveal_strlit("/sys/");
    law_prefix_is_taken_off("/sys/"@ + rest, "/sys/"@, rest);
    assert(root.push('/') + rest =~= root + seq!['/'] + rest);
}

/// What a root offers: a Jetson exactly where one of the devices is one; else, and only where one of
/// the known files is found, those; else nothing.
pub proof fn law_what_a_root_offers<E: Fn(&String) -> bool>(
    root: Seq<char>,
    names: Seq<Seq<char>>,
    exists_at: E,
    backend: GpuBackend,
)
    requires
        may_detect(root, names, exists_at, backend),
    ensures
        backend is Jetson || backend is Sysfs || backend is Null,
        backend is Jetson <==> exists|i: int| 0 <= i < names.len() && #[trigger]
            spec_is_jetson(names[i]),
        backend is Sysfs ==> exists|i: int|
            0 <= i < util_candidates().len() && #[trigger] may_exist(
                exists_at,
                under_root(root, util_candidates()[i]),
                true,
            ),
        backend is Null ==> forall|i: int|
            0 <= i < util_candidates().len() ==> #[trigger] may_exist(
                exists_at,
                under_root(root, util_candidates()[i]),
                false,
            ),
{
    law_first_jetson_is_found(names, root, 0);
    if jetson_entry(names, 0) is Some {
        assert(spec_is_jetson(names[jetson_entry(names, 0)->Some_0]));
    } else {
        let there = choose|there: Seq<bool>|
            #[trigger] asked_in_turn(exists_at, root, util_candidates(), there) && backend
                == if there.last() {
                GpuBackend::Sysfs
            } else {
                GpuBackend::Null
            };
        assert(there.len() > 0);
        let last = there.len() - 1;
        assert(may_exist(exists_at, under_root(root, util_candidates()[last]), there[last]));
        if !there.last() {
            assert forall|i: int| 0 <= i < util_candidates().len() implies #[trigger] may_exist(
                exists_at,
                under_root(root, util_candidates()[i]),
                false,
            ) by {
                assert(!there[i]);
            }
        }
    }
}

/// The known files of the utilization and of the frequency, in the order in which they are tried:
/// those of the class of Adreno devices first, and a bare number before one with a unit.
pub proof fn law_known_files()
    ensures
        util_candidates().len() == 5,
        freq_candidates().len() == 2,
        util_candidates()[0] == "/sys/class/kgsl/kgsl-3d0/devfreq/gpu_load"@,
        util_candidates()[1] == "/sys/class/kgsl/kgsl-3d0/gpu_busy_percentage"@,
        util_candidates()[2] == "/sys/kernel/gpu/gpu_busy_percentage"@,
        util_candidates()[3]
            == "/sys/devices/platform/kgsl-3d0.0/kgsl/kgsl-3d0/gpu_busy_percentage"@,
        util_candidates()[4] == "/sys/class/misc/mali0/device/utilization"@,
        freq_candidates()[0] == "/sys/class/kgsl/kgsl-3d0/gpuclk"@,
        freq_candidates()[1] == "/sys/class/kgsl/kgsl-3d0/devfreq/cur_freq"@,
{
}

/// Every backend has its own provider: what names a file or a program is given that one and no
/// other, and a Jetson's frequency file is the one that was found.
pub proof fn law_backends_have_their_providers(
    backend: GpuBackend,
    discovered: Option<String>,
    plan: ProviderPlan,
)
    requires
        planned(backend, discovered, plan),
    ensures
        backend is Null <==> plan is Ready && plan->Ready_0 is Null,
        plan is Start <==> backend is Jetson || backend is JetsonExplicit,
        backend is Jetson ==> plan->freq_path == discovered && plan->tegrastats_bin@
            == "tegrastats"@,
        backend is JetsonExplicit ==> plan->freq_path == Some(backend->freq_path)
            && plan->tegrastats_bin@ == match backend->tegrastats_bin {
            Some(b) => b@,
            None => "tegrastats"@,
        },
        backend is CustomSysfs ==> {
            &&& plan is Ready && plan->Ready_0 is Sysfs
            &&& plan->Ready_0->Sysfs_0.desc@ == "sysfs(custom="@ + backend->path@ + ")"@
            &&& texts(plan->Ready_0->Sysfs_0.util_paths@) == seq![backend->path@]
            &&& texts(plan->Ready_0->Sysfs_0.freq_paths@) == freq_candidates()
        },
        backend is Sysfs || backend is Auto ==> {
            &&& plan is Ready && plan->Ready_0 is Sysfs
            &&& plan->Ready_0->Sysfs_0.desc@ == "sysfs(adreno|mali)"@
            &&& texts(plan->Ready_0->Sysfs_0.util_paths@) == util_candidates()
            &&& texts(plan->Ready_0->Sysfs_0.freq_paths@) == freq_candidates()
        },
{
}

/// Whether a file can be read to give this utilization, or none.
pub open spec fn may_hold<R: Fn(&String) -> Option<String>>(
    read: R,
    path: String,
    util: Option<F64>,
) -> bool {
    exists|content: Option<String>| #[trigger]
        call_ensures(read, (&path,), content) && utilization(content) == util
}

/// A utilization is what one of the files gives, in the order of the files: the files before it were
/// read and gave none.
pub proof fn law_first_file_with_a_utilization<R: Fn(&String) -> Option<String>>(
    p: SysfsGpuProvider,
    read: R,
    util: Option<F64>,
)
    requires
        p.may_give_util(read, util),
    ensures
        util is Some ==> exists|i: int|
            0 <= i < p.util_paths@.len() && #[trigger] may_hold(read, p.util_paths@[i], util)
                && forall|j: int|
                0 <= j < i ==> #[trigger] may_hold(read, p.util_paths@[j], None),
        util is None ==> forall|j: int|
            0 <= j < p.util_paths@.len() ==> #[trigger] may_hold(read, p.util_paths@[j], None),
{
    let contents = choose|contents: Seq<Option<String>>|
        #[trigger] read_in_turn(read, p.util_paths@, contents, Wanted::Utilization) && util
            == if contents.len() == 0 {
            None
        } else {
            utilization(contents.last())
        };
    let n = contents.len() as int;
    assert forall|j: int| 0 <= j < n - 1 implies #[trigger] may_hold(
        read,
        p.util_paths@[j],
        None,
    ) by {
        assert(!Wanted::Utilization.in_content(contents[j]));
        assert(call_ensures(read, (&p.util_paths@[j],), contents[j]));
    }
    if n > 0 {
        assert(call_ensures(read, (&p.util_paths@[n - 1],), contents[n - 1]));
        assert(may_hold(read, p.util_paths@[n - 1], util));
    }
}

/// Whether a file can be read to give this frequency, or none.
pub open spec fn may_hold_frequency<R: Fn(&String) -> Option<String>>(
    read: R,
    path: String,
    freq: Option<nat>,
) -> bool {
    exists|content: Option<String>| #[trigger]
        call_ensures(read, (&path,), content) && frequency(content) == freq
}

/// The same of the frequency.
pub proof fn law_first_file_with_a_frequency<R: Fn(&String) -> Option<String>>(
    p: SysfsGpuProvider,
    read: R,
    freq: Option<u64>,
)
    requires
        p.may_give_freq(read, freq),
    ensures
        freq is Some ==> exists|i: int|
            0 <= i < p.freq_paths@.len() && #[trigger] may_hold_frequency(
                read,
                p.freq_paths@[i],
                Some(freq->Some_0 as nat),
            ) && forall|j: int|
                0 <= j < i ==> #[trigger] may_hold_frequency(read, p.freq_paths@[j], None),
        freq is None ==> forall|j: int|
            0 <= j < p.freq_paths@.len() ==> #[trigger] may_hold_frequency(
                read,
                p.freq_paths@[j],
                None,
            ),
{
    let contents = choose|contents: Seq<Option<String>>|
        #[trigger] read_in_turn(read, p.freq_paths@, contents, Wanted::Frequency) && match freq {
            Some(n) => contents.len() > 0 && frequency(contents.last()) == Some(n as nat),
            None => contents.len() > 0 ==> frequency(contents.last()) is None,
        };
    let n = contents.len() as int;
    assert forall|j: int| 0 <= j < n - 1 implies #[trigger] may_hold_frequency(
        read,
        p.freq_paths@[j],
        None,
    ) by {
        assert(!Wanted::Frequency.in_content(contents[j]));
        assert(call_ensures(read, (&p.freq_paths@[j],), contents[j]));
    }
    if n > 0 {
        assert(call_ensures(read, (&p.freq_paths@[n - 1],), contents[n - 1]));
        assert(may_hold_frequency(read, p.freq_paths@[n - 1], frequency(contents[n - 1])));
    }
}

/// A Jetson's frequency is what its own frequency file gives, and none without such a file.
pub proof fn law_jetson_frequency_is_its_files<R: Fn(&String) -> Option<String>>(
    p: JetsonGpuProvider,
    read: R,
    freq: Option<u64>,
)
    requires
        p.may_give_freq(read, freq),
    ensures
        p.freq_path is None ==> freq is None,
        p.freq_path is Some ==> may_hold_frequency(
            read,
            p.freq_path->Some_0,
            match freq {
                Some(n) => Some(n as nat),
                None => None,
            },
        ),
{
}

} // verus!
