//! What is read out of the files and the programs that measure the machine.

use crate::float::meaning::{
    law_from_whole32, law_from_whole64, law_over32, law_over64, lemma_constants, lemma_exact32,
    lemma_order64, lemma_scaled64,
};
use crate::float::shares::lemma_fractions;
use crate::float::signed::nearest_whole;
use crate::float::{binary64, law_whole_is_finite, lemma_formats, F32, F64};
use crate::laws::context::is_unsigned;
use crate::laws::texts::{
    all_digits, blank, law_first_word, law_lines_end_at_line_feeds, law_no_place,
    law_numbers_are_read_back, law_prefix_is_taken_off, law_what_follows_the_first_place,
    lemma_decimal,
};
use crate::lua::sys::{
    degrees, frame_from, frame_in_line, frame_in_lines, known_meminfo, layer_marker,
    meminfo_fields, meminfo_value, FpsState, Meminfo,
};
use crate::text::{
    after_prefix, decimal, found_from, is_space, lemma_found_from, lemma_run_is, occurs_at,
    unsigned, Class,
};
use vstd::arithmetic::power2::{lemma_pow2_pos, pow2};
use vstd::prelude::*;

verus! {

/// A value of `/proc/meminfo` is the number that stands first after the name, whatever unit or other
/// words follow it.
pub proof fn law_meminfo_value(before: Seq<char>, n: u64, rest: Seq<char>)
    requires
        blank(before),
        rest.len() > 0 ==> is_space(rest[0]),
    ensures
        meminfo_value(before + decimal(n as nat) + rest) == n,
{
    let word = decimal(n as nat);
    lemma_decimal(n as nat);
    law_numbers_are_read_back(n as nat, u64::MAX as nat);
    assert forall|i: int| 0 <= i < before.len() implies Class::Space.has(#[trigger] before[i]) by {
        assert(is_space(before[i]));
    }
    assert forall|i: int| 0 <= i < word.len() implies !Class::Space.has(#[trigger] word[i]) by {
        assert('0' as u32 <= word[i] as u32 <= '9' as u32);
    }
    law_first_word(before, word, rest, Class::Space);
}

/// A value that does not begin with a number is none.
pub proof fn law_meminfo_value_without_a_number(
    before: Seq<char>,
    word: Seq<char>,
    rest: Seq<char>,
)
    requires
        blank(before),
        forall|i: int| 0 <= i < word.len() ==> !is_space(#[trigger] word[i]),
        unsigned(word, u64::MAX as nat) is None,
        rest.len() > 0 ==> is_space(rest[0]),
    ensures
        meminfo_value(before) == 0,
        word.len() > 0 ==> meminfo_value(before + word + rest) == 0,
{
    assert forall|i: int| 0 <= i < before.len() implies Class::Space.has(#[trigger] before[i]) by {
        assert(is_space(before[i]));
    }
    assert forall|i: int| 0 <= i < word.len() implies !Class::Space.has(#[trigger] word[i]) by {
        assert(!is_space(word[i]));
    }
    law_first_word(before, word, rest, Class::Space);
}

proof fn lemma_memory_names(rest: Seq<char>)
    ensures
        after_prefix("MemTotal:"@ + rest, "MemTotal:"@) == Some(rest),
        after_prefix("MemAvailable:"@ + rest, "MemAvailable:"@) == Some(rest),
        after_prefix("MemFree:"@ + rest, "MemFree:"@) == Some(rest),
        after_prefix("MemAvailable:"@ + rest, "MemTotal:"@) is None,
        after_prefix("MemFree:"@ + rest, "MemTotal:"@) is None,
        after_prefix("MemFree:"@ + rest, "MemAvailable:"@) is None,
{
    reveal_strlit("MemTotal:");
    reveal_strlit("MemAvailable:");
    reveal_strlit("MemFree:");
    law_prefix_is_taken_off("MemTotal:"@ + rest, "MemTotal:"@, rest);
    law_prefix_is_taken_off("MemAvailable:"@ + rest, "MemAvailable:"@, rest);
    law_prefix_is_taken_off("MemFree:"@ + rest, "MemFree:"@, rest);
    lemma_differs("MemAvailable:"@ + rest, "MemTotal:"@, 3);
    lemma_differs("MemFree:"@ + rest, "MemTotal:"@, 3);
    lemma_differs("MemFree:"@ + rest, "MemAvailable:"@, 3);
}

proof fn lemma_differs(s: Seq<char>, prefix: Seq<char>, i: int)
    requires
        0 <= i < prefix.len(),
        i < s.len(),
        s[i] != prefix[i],
    ensures
        after_prefix(s, prefix) is None,
{
    if occurs_at(s, prefix, 0) {
        assert(s.subrange(0, prefix.len() as int)[i] == s[i]);
    }
}

/// A line of a name sets what that name stands for and nothing else.
pub proof fn law_meminfo_lines_set_their_own(m: Meminfo, rest: Seq<char>)
    ensures
        m.with_line("MemTotal:"@ + rest) == (Meminfo { total: meminfo_value(rest), ..m }),
        m.with_line("MemAvailable:"@ + rest) == (Meminfo { available: meminfo_value(rest), ..m }),
        m.with_line("MemFree:"@ + rest) == (Meminfo { free: meminfo_value(rest), ..m }),
{
    lemma_memory_names(rest);
}

/// A line that begins with none of the three names changes nothing.
pub proof fn law_other_meminfo_lines_change_nothing(m: Meminfo, line: Seq<char>)
    requires
        forall|rest: Seq<char>|
            line != #[trigger] ("MemTotal:"@ + rest) && line != "MemAvailable:"@ + rest && line
                != "MemFree:"@ + rest,
    ensures
        m.with_line(line) == m,
{
    if let Some(rest) = after_prefix(line, "MemTotal:"@) {
        law_prefix_is_taken_off(line, "MemTotal:"@, rest);
        assert(line != "MemTotal:"@ + rest);
    }
    if let Some(rest) = after_prefix(line, "MemAvailable:"@) {
        law_prefix_is_taken_off(line, "MemAvailable:"@, rest);
        assert(line != "MemTotal:"@ + rest);
    }
    if let Some(rest) = after_prefix(line, "MemFree:"@) {
        law_prefix_is_taken_off(line, "MemFree:"@, rest);
        assert(line != "MemTotal:"@ + rest);
    }
}

/// The lines of a text are taken in one by one, each of them once; a text that cannot be read, and
/// one without lines, tells nothing.
pub proof fn law_meminfo_is_read_by_lines(m: Meminfo, line: Seq<char>, rest: Seq<char>)
    requires
        forall|i: int| 0 <= i < line.len() ==> (#[trigger] line[i]) != '\n',
        line.len() == 0 || line.last() != '\r',
    ensures
        m.with_text(line + seq!['\n'] + rest) == m.with_line(line).with_text(rest),
        line.len() > 0 ==> m.with_text(line) == m.with_line(line),
        m.with_text(Seq::empty()) == m,
        known_meminfo(None) == (Meminfo { total: 0, available: 0, free: 0 }),
{
    law_lines_end_at_line_feeds(line, rest);
    assert(crate::text::after_line(line) =~= Seq::<char>::empty());
    assert(m.with_line(line).with_text(Seq::<char>::empty()) == m.with_line(line));
    assert((Meminfo { total: 0, available: 0, free: 0 }).with_text(Seq::<char>::empty())
        == (Meminfo { total: 0, available: 0, free: 0 }));
}

/// A script finds each of the three under its own name.
pub proof fn law_meminfo_is_shown(known: Meminfo)
    requires
        known.total <= u64::MAX,
        known.available <= u64::MAX,
        known.free <= u64::MAX,
    ensures
        ({
            let table = meminfo_fields(known);
            &&& table.dom() =~= set!["total"@, "available"@, "free"@]
            &&& is_unsigned(table["total"@], known.total as u64)
            &&& is_unsigned(table["available"@], known.available as u64)
            &&& is_unsigned(table["free"@], known.free as u64)
        }),
{
    reveal_strlit("total");
    reveal_strlit("available");
    reveal_strlit("free");
    assert("total"@.len() == 5 && "available"@.len() == 9 && "free"@.len() == 4);
    law_from_whole64(known.total as u64);
    law_from_whole64(known.available as u64);
    law_from_whole64(known.free as u64);
}

/// Degrees are the thousandth of millidegrees, as near as numbers get, and minus one where nothing
/// was read.
pub proof fn law_degrees_are_thousandths(millidegrees: Option<F64>)
    ensures
        match millidegrees {
            Some(mc) => mc.is_finite() ==> degrees(millidegrees).is(mc.value(), 1000),
            None => degrees(millidegrees).value() == -pow2(1074),
        },
{
    lemma_constants();
    lemma_pow2_pos(1074);
    lemma_formats();
    if let Some(mc) = millidegrees {
        if mc.is_finite() {
            let thousand = F64 { bits: 0x408f_4000_0000_0000 };
            law_over64(mc, thousand);
            lemma_scaled64(mc.over(thousand), mc.value(), 1000, pow2(1074));
        }
    }
}

proof fn lemma_halves(u: nat, w: nat, n: nat)
    requires
        w > 0,
        n == (2 * u + w) / (2 * w),
    ensures
        2 * n * w - w <= 2 * u < 2 * n * w + w,
{
    vstd::arithmetic::div_mod::lemma_fundamental_div_mod((2 * u + w) as int, (2 * w) as int);
    vstd::arithmetic::div_mod::lemma_mod_bound((2 * u + w) as int, (2 * w) as int);
    assert((2 * w) * n == 2 * n * w) by (nonlinear_arith);
}

/// A rounded number is the nearest whole one, and of two equally near the one farther from zero.
pub proof fn law_rounded_is_nearest(x: F64)
    requires
        x.is_finite(),
        i64::MIN < x.rounded() < i64::MAX,
    ensures
        2 * x.rounded() * pow2(1074) - pow2(1074) <= 2 * x.value() <= 2 * x.rounded() * pow2(1074)
            + pow2(1074),
        x.value() > 0 ==> 2 * x.value() < 2 * x.rounded() * pow2(1074) + pow2(1074),
        x.value() < 0 ==> 2 * x.value() > 2 * x.rounded() * pow2(1074) - pow2(1074),
{
    let n = nearest_whole(binary64(), x.signed().key as nat);
    let w = pow2(1074);
    reveal(F64::value);
    lemma_formats();
    lemma_pow2_pos(1074);
    lemma_halves(crate::float::model::units(binary64(), x.signed().key as nat), w, n);
    let r = x.rounded() as int;
    assert(r == n || r == -(n as int));
    assert(2 * (-(n as int)) * w == -(2 * n * w)) by (nonlinear_arith);
}

/// What is not a number rounds to zero, and what is past the whole numbers to the last of them on
/// its side.
pub proof fn law_rounding_ends(x: F64)
    ensures
        x.is_nan() ==> x.rounded() == 0,
        !x.is_nan() && !x.is_finite() && x.value() > 0 ==> x.rounded() == i64::MAX,
        !x.is_nan() && !x.is_finite() && x.value() < 0 ==> x.rounded() == i64::MIN,
        x.is_finite() && x.rounded() == i64::MAX ==> 2 * x.value() >= 2 * i64::MAX * pow2(1074)
            - pow2(1074),
        x.is_finite() && x.rounded() == i64::MIN ==> 2 * x.value() <= 2 * i64::MIN * pow2(1074)
            + pow2(1074),
{
    let key = x.signed().key as nat;
    let u = crate::float::model::units(binary64(), key);
    let w = pow2(1074);
    reveal(F64::value);
    lemma_formats();
    lemma_pow2_pos(1074);
    if x.is_finite() {
        let n = nearest_whole(binary64(), key);
        lemma_halves(u, w, n);
        if x.rounded() == i64::MAX {
            assert(n >= i64::MAX);
            assert(2 * n * w >= 2 * i64::MAX * w) by (nonlinear_arith)
                requires
                    n >= i64::MAX,
                    w > 0,
            ;
        }
        if x.rounded() == i64::MIN {
            assert(n >= 0x8000_0000_0000_0000);
            assert(2 * n * w >= 2 * 0x8000_0000_0000_0000 * w) by (nonlinear_arith)
                requires
                    n >= 0x8000_0000_0000_0000,
                    w > 0,
            ;
            assert(2 * i64::MIN * w == -(2 * 0x8000_0000_0000_0000 * w)) by (nonlinear_arith);
        }
    } else if !x.is_nan() {
        lemma_order64(x, F64 { bits: 0 });
        lemma_order64(F64 { bits: 0 }, x);
    }
}

/// The number of a frame is what the digits after the first `frame=` of its line say, up to the
/// first character that is no digit; without a digit there, or with too great a number, there is
/// none.
pub proof fn law_frame_number(before: Seq<char>, digits: Seq<char>, rest: Seq<char>)
    requires
        all_digits(digits),
        rest.len() > 0 ==> !all_digits(seq![rest[0]]),
        forall|j: int|
            0 <= j < before.len() ==> !occurs_at(
                before + "frame="@ + (digits + rest),
                "frame="@,
                j,
            ),
    ensures
        frame_in_line(before + "frame="@ + (digits + rest)) == unsigned(digits, u64::MAX as nat),
{
    let after = digits + rest;
    law_what_follows_the_first_place(before, "frame="@, after);
    assert forall|i: int| 0 <= i < digits.len() implies Class::Digit.has(after[i]) == true by {
        assert('0' as u32 <= digits[i] as u32 <= '9' as u32);
        assert(after[i] == digits[i]);
    }
    if rest.len() > 0 {
        assert(after[digits.len() as int] == rest[0]);
        let one = seq![rest[0]];
        assert(one[0] == rest[0]);
        if Class::Digit.has(rest[0]) {
            assert(all_digits(one));
        }
    }
    lemma_run_is(after, Class::Digit, true, digits.len());
    assert(after.take(digits.len() as int) =~= digits);
}

/// A line without `frame=` has no frame number.
pub proof fn law_no_frame_number(line: Seq<char>)
    requires
        forall|j: int| !occurs_at(line, "frame="@, j),
    ensures
        frame_in_line(line) is None,
{
    law_no_place(line, "frame="@);
}

/// Of several lines the first that has a frame number gives it, and no more lines are looked at
/// than were asked for.
pub proof fn law_first_line_with_a_frame(line: Seq<char>, rest: Seq<char>, lines: nat)
    requires
        forall|i: int| 0 <= i < line.len() ==> (#[trigger] line[i]) != '\n',
        line.len() == 0 || line.last() != '\r',
    ensures
        frame_in_lines(line + seq!['\n'] + rest, 0) is None,
        frame_in_line(line) is Some ==> frame_in_lines(line + seq!['\n'] + rest, lines + 1)
            == frame_in_line(line),
        frame_in_line(line) is None ==> frame_in_lines(line + seq!['\n'] + rest, lines + 1)
            == frame_in_lines(rest, lines),
{
    law_lines_end_at_line_feeds(line, rest);
}

/// The frame number of a package is that of its first layer that has one in the line of its marker
/// or the four lines after that; a package without a layer has none.
pub proof fn law_frames_stand_near_their_layer(text: Seq<char>, pkg: Seq<char>, from: nat, i: nat)
    requires
        from <= i,
        occurs_at(text, "SurfaceView["@ + pkg, i as int),
        forall|j: int| from <= j < i ==> !occurs_at(text, "SurfaceView["@ + pkg, j),
    ensures
        frame_in_lines(text.skip(i as int), 5) is Some ==> frame_from(text, pkg, from)
            == frame_in_lines(text.skip(i as int), 5),
        frame_in_lines(text.skip(i as int), 5) is None ==> frame_from(text, pkg, from)
            == frame_from(text, pkg, i + ("SurfaceView["@ + pkg).len()),
{
    lemma_found_from(text, layer_marker(pkg), from);
    if let Some(k) = found_from(text, layer_marker(pkg), from) {
        if k < i {
            assert(!occurs_at(text, "SurfaceView["@ + pkg, k as int));
        }
    }
}

/// A package without a layer has no frame number.
pub proof fn law_no_layer_no_frame(text: Seq<char>, pkg: Seq<char>, from: nat)
    requires
        forall|j: int| from <= j ==> !occurs_at(text, "SurfaceView["@ + pkg, j),
    ensures
        frame_from(text, pkg, from) is None,
{
    lemma_found_from(text, layer_marker(pkg), from);
}

/// A rate is the frames since the last measured call over the seconds since then, each as near as
/// numbers get, and nothing where the count went back.
pub proof fn law_rate_is_frames_over_seconds(state: FpsState, frame: u64, dt: F32)
    requires
        state.initialized,
        dt.is_finite(),
        dt.value() > 0,
        state.tick(frame, dt).fps is Some,
    ensures
        frame >= state.prev_frame ==> exists|count: F32| #[trigger]
            count.is((frame - state.prev_frame) * pow2(149), 1)
                && state.tick(frame, dt).fps->Some_0.is(
                count.value() * pow2(149),
                dt.value() as nat,
            ),
        frame <= state.prev_frame ==> state.tick(frame, dt).fps->Some_0.value() == 0,
{
    let delta: u64 = if frame >= state.prev_frame {
        (frame - state.prev_frame) as u64
    } else {
        0
    };
    let count = F32::from_whole(delta);
    law_from_whole32(delta);
    law_whole_is_finite(delta);
    law_over32(count, dt);
    if delta == 0 {
        lemma_constants();
        lemma_none_counted();
        lemma_exact32(count.over(dt), F32 { bits: 0 }, 0, dt.value() as nat);
    }
}

proof fn lemma_none_counted()
    ensures
        F32::from_whole(0).is_finite(),
        F32::from_whole(0).value() == 0,
        0 * pow2(149) == 0,
        forall|d: int| #[trigger] (0 * d) == 0,
{
    law_from_whole32(0);
    lemma_constants();
    lemma_formats();
    assert(0 * pow2(149) == 0);
    lemma_exact32(F32::from_whole(0), F32 { bits: 0 }, 0, 1);
}

/// There is a rate exactly where the call is not the first and at least a tenth of a second after
/// the last measured one; and a call is measured where it is the first or there is a rate.
pub proof fn law_a_tenth_of_a_second(state: FpsState, frame: u64, dt: F32)
    requires
        !dt.is_nan(),
    ensures
        exists|tenth: F32| #[trigger]
            tenth.is(pow2(149) as int, 10) && (state.tick(frame, dt).fps is Some
                <==> state.initialized && dt.value() >= tenth.value()),
        state.tick(frame, dt).restart <==> !state.initialized || state.tick(frame, dt).fps is Some,
        state.tick(frame, dt).restart ==> state.after(frame, dt).prev_frame == frame
            && state.after(frame, dt).initialized,
        !state.tick(frame, dt).restart ==> state.after(frame, dt) == state,
{
    let tenth = F32 { bits: 0x3dcc_cccd };
    lemma_fractions();
    lemma_formats();
    crate::float::meaning::lemma_order32(dt, tenth);
}

} // verus!
