//! How text is read: numbers, words, lines and paths.

use crate::text::{
    after_line, after_prefix, decimal, decimal_value, digits_value, first_line, first_token,
    found, is_space, joined, lemma_found_from, lemma_run, lemma_run_is, occurs_at, run, signed,
    trimmed, unsigned, without_leading_space, without_trailing_space, Class,
};
use vstd::prelude::*;

verus! {

/// Every character of a text is white space.
pub open spec fn blank(s: Seq<char>) -> bool {
    forall|i: int| 0 <= i < s.len() ==> is_space(#[trigger] s[i])
}

/// Of the characters of ASCII, white space is the blank and those from the tabulator to the return.
pub proof fn law_white_space(c: char)
    ensures
        is_space(' ') && is_space('\t') && is_space('\n') && is_space('\r'),
        c as u32 <= 0x7f ==> (is_space(c) <==> c == ' ' || 9 <= c as u32 <= 13),
        c as u32 > 0x7f ==> (is_space(c) <==> (seq![
            0x85u32,
            0xa0u32,
            0x1680u32,
            0x2028u32,
            0x2029u32,
            0x202fu32,
            0x205fu32,
            0x3000u32,
        ]).contains(c as u32) || 0x2000 <= c as u32 <= 0x200a),
{
    let rare = seq![
        0x85u32,
        0xa0u32,
        0x1680u32,
        0x2028u32,
        0x2029u32,
        0x202fu32,
        0x205fu32,
        0x3000u32,
    ];
    assert(rare[0] == 0x85 && rare[1] == 0xa0 && rare[2] == 0x1680 && rare[3] == 0x2028 && rare[4]
        == 0x2029 && rare[5] == 0x202f && rare[6] == 0x205f && rare[7] == 0x3000);
}

/// What stands between white space is what is left when that is taken off, and all of it.
pub proof fn law_trimming_takes_only_the_ends(before: Seq<char>, core: Seq<char>, after: Seq<char>)
    requires
        blank(before),
        blank(after),
        core.len() > 0 ==> !is_space(core[0]) && !is_space(core.last()),
    ensures
        trimmed(before + core + after) == core,
{
    let s = before + core + after;
    if core.len() == 0 {
        assert forall|i: int| 0 <= i < s.len() implies Class::Space.has(#[trigger] s[i]) == true by {
            if i < before.len() {
                assert(is_space(before[i]));
            } else {
                assert(is_space(after[i - before.len()]));
            }
        }
        lemma_run_is(s, Class::Space, true, s.len());
        assert(without_leading_space(s) =~= core);
    } else {
        assert forall|i: int| 0 <= i < before.len() implies Class::Space.has(#[trigger] s[i])
            == true by {
            assert(is_space(before[i]));
        }
        assert(s[before.len() as int] == core[0]);
        lemma_run_is(s, Class::Space, true, before.len());
        assert(without_leading_space(s) =~= core + after);
        lemma_blank_end(core, after);
    }
}

/// Whatever a text is, only white space is taken off its ends, and all of it.
pub proof fn law_only_blanks_are_taken_off(s: Seq<char>) -> (ends: (Seq<char>, Seq<char>))
    ensures
        s == ends.0 + trimmed(s) + ends.1,
        blank(ends.0),
        blank(ends.1),
        trimmed(s).len() > 0 ==> !is_space(trimmed(s)[0]) && !is_space(trimmed(s).last()),
{
    let n = run(s, Class::Space, true);
    lemma_run(s, Class::Space, true);
    let t = s.skip(n as int);
    let before = s.take(n as int);
    assert forall|i: int| 0 <= i < before.len() implies is_space(#[trigger] before[i]) by {
        assert(Class::Space.has(s[i]) == true);
    }
    let after = lemma_end(t);
    assert(s =~= before + t);
    assert(before + trimmed(s) + after =~= before + (trimmed(s) + after));
    if trimmed(s).len() > 0 {
        assert(t[0] == s[n as int]);
        assert(trimmed(s)[0] == t[0]);
    }
    (before, after)
}

proof fn lemma_end(t: Seq<char>) -> (after: Seq<char>)
    ensures
        t == without_trailing_space(t) + after,
        blank(after),
        without_trailing_space(t).len() > 0 ==> !is_space(without_trailing_space(t).last()),
    decreases t.len(),
{
    if t.len() > 0 && is_space(t.last()) {
        let end = lemma_end(t.drop_last());
        let after = end.push(t.last());
        assert(t =~= t.drop_last().push(t.last()));
        assert(without_trailing_space(t) + after =~= (without_trailing_space(t) + end).push(
            t.last(),
        ));
        after
    } else {
        assert(t =~= t + Seq::<char>::empty());
        Seq::empty()
    }
}

proof fn lemma_blank_end(core: Seq<char>, after: Seq<char>)
    requires
        blank(after),
        core.len() > 0,
        !is_space(core.last()),
    ensures
        without_trailing_space(core + after) == core,
    decreases after.len(),
{
    if after.len() > 0 {
        assert(is_space(after[after.len() - 1]));
        assert((core + after).last() == after.last());
        assert((core + after).drop_last() =~= core + after.drop_last());
        assert forall|i: int| 0 <= i < after.drop_last().len() implies is_space(
            #[trigger] after.drop_last()[i],
        ) by {
            assert(is_space(after[i]));
        }
        lemma_blank_end(core, after.drop_last());
    } else {
        assert(core + after =~= core);
    }
}

/// Every character of a text is a decimal digit.
pub open spec fn all_digits(s: Seq<char>) -> bool {
    forall|i: int| 0 <= i < s.len() ==> '0' as u32 <= (#[trigger] s[i]) as u32 <= '9' as u32
}

pub proof fn lemma_decimal(n: nat)
    ensures
        decimal(n).len() > 0,
        all_digits(decimal(n)),
        decimal_value(decimal(n)) == n,
        digits_value(decimal(n)) == Some(n),
    decreases n,
{
    let s = decimal(n);
    if n < 10 {
        assert(s.drop_last() =~= Seq::<char>::empty());
        assert(s.last() as u32 == 48 + n);
        assert(decimal_value(s.drop_last()) == 0);
    } else {
        let t = decimal(n / 10);
        lemma_decimal(n / 10);
        assert(s.drop_last() =~= t);
        assert(s.last() as u32 == 48 + n % 10);
        assert forall|i: int| 0 <= i < s.len() implies '0' as u32 <= (#[trigger] s[i]) as u32
            <= '9' as u32 by {
            if i < t.len() {
                assert(s[i] == t[i]);
            }
        }
    }
    assert forall|i: int| 0 <= i < s.len() implies Class::Digit.has(s[i]) == true by {
        assert('0' as u32 <= s[i] as u32 <= '9' as u32);
    }
    lemma_run_is(s, Class::Digit, true, s.len());
}

/// A number that was written in decimal is read back where it is not too great, and is no number
/// where it is. A plus sign before it makes no difference.
pub proof fn law_numbers_are_read_back(n: nat, max: nat)
    ensures
        unsigned(decimal(n), max) == if n <= max {
            Some(n)
        } else {
            None
        },
        unsigned(seq!['+'] + decimal(n), max) == unsigned(decimal(n), max),
        signed(decimal(n)) == if n <= i64::MAX {
            Some(n as int)
        } else {
            None
        },
        signed(seq!['-'] + decimal(n)) == if n <= 0x8000_0000_0000_0000 {
            Some(-(n as int))
        } else {
            None
        },
{
    let s = decimal(n);
    lemma_decimal(n);
    assert('0' as u32 <= s[0] as u32 <= '9' as u32);
    assert((seq!['+'] + s).drop_first() =~= s);
    assert((seq!['-'] + s).drop_first() =~= s);
}

/// The digits of a number are those of its tenth and then that of its rest.
pub proof fn law_digits_of_a_number(n: nat)
    ensures
        decimal(n).last() as u32 == '0' as u32 + n % 10,
        n < 10 ==> decimal(n).len() == 1,
        n >= 10 ==> decimal(n).drop_last() == decimal(n / 10),
{
    lemma_decimal(n);
    if n >= 10 {
        assert(decimal(n).drop_last() =~= decimal(n / 10));
    }
}

/// A plus sign before digits makes no difference; a minus sign before them makes the number
/// negative, and a number with a sign that is read is made of digits behind it.
pub proof fn law_signs_stand_before_digits(s: Seq<char>, max: nat)
    ensures
        s.len() > 0 && s[0] != '+' ==> unsigned(seq!['+'] + s, max) == unsigned(s, max),
        unsigned(seq!['+'] + s, 0x8000_0000_0000_0000) is Some ==> signed(seq!['-'] + s) is Some,
        signed(seq!['-'] + s) is Some ==> s.len() > 0 && all_digits(s) && unsigned(
            s,
            0x8000_0000_0000_0000,
        ) == Some((-signed(seq!['-'] + s)->Some_0) as nat),
        (s.len() == 0 || s[0] != '-') ==> signed(s) == match unsigned(s, i64::MAX as nat) {
            Some(n) => Some(n as int),
            None => None,
        },
{
    assert((seq!['+'] + s).drop_first() =~= s);
    assert((seq!['-'] + s).drop_first() =~= s);
    lemma_run(s, Class::Digit, true);
    if signed(seq!['-'] + s) is Some {
        assert forall|i: int| 0 <= i < s.len() implies '0' as u32 <= (#[trigger] s[i]) as u32
            <= '9' as u32 by {
            assert(Class::Digit.has(s[i]) == true);
        }
        assert('0' as u32 <= s[0] as u32 <= '9' as u32);
    }
}

/// Whatever is a number is made of digits but for a sign before them, and has at least one.
pub proof fn law_numbers_are_digits(s: Seq<char>, max: nat)
    requires
        unsigned(s, max) is Some,
    ensures
        ({
            let d = if s.len() > 0 && s[0] == '+' {
                s.drop_first()
            } else {
                s
            };
            d.len() > 0 && all_digits(d)
        }),
        unsigned(s, max)->Some_0 <= max,
{
    let d = if s.len() > 0 && s[0] == '+' {
        s.drop_first()
    } else {
        s
    };
    lemma_run(d, Class::Digit, true);
    assert forall|i: int| 0 <= i < d.len() implies '0' as u32 <= (#[trigger] d[i]) as u32
        <= '9' as u32 by {
        assert(Class::Digit.has(d[i]) == true);
    }
}

proof fn lemma_leading_zero(s: Seq<char>)
    ensures
        decimal_value(seq!['0'] + s) == decimal_value(s),
    decreases s.len(),
{
    let t = seq!['0'] + s;
    if s.len() == 0 {
        assert(t.drop_last() =~= s);
        assert(t.last() == '0');
    } else {
        assert(t.drop_last() =~= seq!['0'] + s.drop_last());
        assert(t.last() == s.last());
        lemma_leading_zero(s.drop_last());
    }
}

/// A zero before a number does not change it.
pub proof fn law_leading_zeros_do_not_count(s: Seq<char>, max: nat)
    requires
        s.len() > 0,
        all_digits(s),
    ensures
        unsigned(seq!['0'] + s, max) == unsigned(s, max),
{
    let t = seq!['0'] + s;
    lemma_leading_zero(s);
    assert('0' as u32 <= s[0] as u32 <= '9' as u32);
    assert forall|i: int| 0 <= i < s.len() implies Class::Digit.has(s[i]) == true by {
        assert('0' as u32 <= s[i] as u32 <= '9' as u32);
    }
    assert forall|i: int| 0 <= i < t.len() implies Class::Digit.has(t[i]) == true by {
        if i > 0 {
            assert(t[i] == s[i - 1]);
        }
    }
    lemma_run_is(s, Class::Digit, true, s.len());
    lemma_run_is(t, Class::Digit, true, t.len());
}

/// The first word is what stands after the separators up to the next one, and there is none where
/// there are only separators.
pub proof fn law_first_word(before: Seq<char>, word: Seq<char>, rest: Seq<char>, separators: Class)
    requires
        forall|i: int| 0 <= i < before.len() ==> separators.has(#[trigger] before[i]),
        forall|i: int| 0 <= i < word.len() ==> !separators.has(#[trigger] word[i]),
        rest.len() > 0 ==> separators.has(rest[0]),
    ensures
        word.len() > 0 ==> first_token(before + word + rest, separators) == Some(word),
        first_token(before, separators) is None,
{
    let s = before + word + rest;
    assert forall|i: int| 0 <= i < before.len() implies separators.has(before[i]) == true by {}
    lemma_run_is(before, separators, true, before.len());
    assert(before.skip(before.len() as int) =~= Seq::<char>::empty());
    lemma_run_is(Seq::<char>::empty(), separators, false, 0);
    if word.len() > 0 {
        assert forall|i: int| 0 <= i < before.len() implies separators.has(s[i]) == true by {
            assert(s[i] == before[i]);
        }
        assert(s[before.len() as int] == word[0]);
        lemma_run_is(s, separators, true, before.len());
        let t = s.skip(before.len() as int);
        assert(t =~= word + rest);
        assert forall|i: int| 0 <= i < word.len() implies separators.has(t[i]) == false by {
            assert(t[i] == word[i]);
        }
        if rest.len() > 0 {
            assert(t[word.len() as int] == rest[0]);
        }
        lemma_run_is(t, separators, false, word.len());
        assert(t.take(word.len() as int) =~= word);
    }
}

/// A line ends before a line feed, or before a return and a line feed, and what follows that is the
/// rest; without a line feed the whole text is a line.
pub proof fn law_lines_end_at_line_feeds(line: Seq<char>, rest: Seq<char>)
    requires
        forall|i: int| 0 <= i < line.len() ==> (#[trigger] line[i]) != '\n',
    ensures
        (line.len() == 0 || line.last() != '\r') ==> first_line(line + seq!['\n'] + rest) == line,
        after_line(line + seq!['\n'] + rest) == rest,
        first_line(line + seq!['\r', '\n'] + rest) == line,
        after_line(line + seq!['\r', '\n'] + rest) == rest,
        first_line(line) == line,
        after_line(line).len() == 0,
{
    let n = line.len() as int;
    let s = line + seq!['\n'] + rest;
    let t = line + seq!['\r', '\n'] + rest;
    assert forall|i: int| 0 <= i < n implies Class::LineFeed.has(s[i]) == false by {
        assert(s[i] == line[i]);
    }
    assert(s[n] == '\n');
    lemma_run_is(s, Class::LineFeed, false, n as nat);
    assert(s.skip(n + 1) =~= rest);
    assert(s.take(n) =~= line);
    if n > 0 {
        assert(s[n - 1] == line.last());
    }
    assert forall|i: int| 0 <= i < n + 1 implies Class::LineFeed.has(t[i]) == false by {
        if i < n {
            assert(t[i] == line[i]);
        } else {
            assert(t[i] == '\r');
        }
    }
    assert(t[n + 1] == '\n');
    lemma_run_is(t, Class::LineFeed, false, (n + 1) as nat);
    assert(t.skip(n + 2) =~= rest);
    assert(t.take(n) =~= line);
    assert forall|i: int| 0 <= i < n implies Class::LineFeed.has(line[i]) == false by {}
    lemma_run_is(line, Class::LineFeed, false, n as nat);
    assert(line.take(n) =~= line);
}

/// Whether a path is an absolute one.
pub open spec fn begins_at_the_root(path: Seq<char>) -> bool {
    path.len() > 0 && path[0] == '/'
}

/// A relative path stands under its directory, with one slash between them; an absolute one stands
/// for itself.
pub proof fn law_paths_stand_under_their_directory(dir: Seq<char>, path: Seq<char>)
    ensures
        joined(dir, seq!['/'] + path) == seq!['/'] + path,
        !begins_at_the_root(path) && dir.len() > 0 && dir.last() != '/' ==> joined(dir, path) == dir
            + seq!['/'] + path,
        !begins_at_the_root(path) ==> joined(dir + seq!['/'], path) == dir + seq!['/'] + path,
        !begins_at_the_root(path) ==> joined(Seq::empty(), path) == path,
{
    assert(dir.push('/') =~= dir + seq!['/']);
    assert((dir + seq!['/']).last() == '/');
    assert(Seq::<char>::empty() + path =~= path);
}

/// What follows a prefix is what was written after it, and only a text that begins with the prefix
/// has it.
pub proof fn law_prefix_is_taken_off(text: Seq<char>, prefix: Seq<char>, rest: Seq<char>)
    ensures
        text == prefix + rest <==> after_prefix(text, prefix) == Some(rest),
        occurs_at(text, prefix, 0) && prefix.len() > 0 ==> text.len() > 0 && text[0] == prefix[0],
{
    if text == prefix + rest {
        assert(text.subrange(0, prefix.len() as int) =~= prefix);
        assert(text.skip(prefix.len() as int) =~= rest);
    }
    if occurs_at(text, prefix, 0) {
        assert(text =~= prefix + text.skip(prefix.len() as int)) by {
            assert(forall|i: int| 0 <= i < prefix.len() ==> text[i] == prefix[i]) by {
                assert(text.subrange(0, prefix.len() as int) =~= prefix);
                assert(forall|i: int|
                    0 <= i < prefix.len() ==> text.subrange(0, prefix.len() as int)[i] == text[i]);
            }
        }
    }
}

/// The place of a text in another one is the first at which it stands.
pub proof fn law_first_place(s: Seq<char>, needle: Seq<char>, i: int)
    requires
        occurs_at(s, needle, i),
        forall|j: int| 0 <= j < i ==> !occurs_at(s, needle, j),
    ensures
        found(s, needle) == Some(i as nat),
{
    lemma_found_from(s, needle, 0);
    let k = found(s, needle);
    if let Some(k) = k {
        if k < i {
            assert(!occurs_at(s, needle, k as int));
        }
    }
}

/// A text that stands nowhere in another one has no place there.
pub proof fn law_no_place(s: Seq<char>, needle: Seq<char>)
    ensures
        found(s, needle) is Some <==> exists|i: int| occurs_at(s, needle, i),
{
    lemma_found_from(s, needle, 0);
}

proof fn lemma_occurs(before: Seq<char>, needle: Seq<char>, after: Seq<char>)
    ensures
        occurs_at(before + needle + after, needle, before.len() as int),
        (before + needle + after).skip(before.len() as int + needle.len()) == after,
{
    let s = before + needle + after;
    assert(s.subrange(before.len() as int, before.len() as int + needle.len()) =~= needle);
    assert(s.skip(before.len() as int + needle.len()) =~= after);
}

/// A text that is found for the first time after `before` is found there, and what follows it is
/// what was written after it.
pub proof fn law_what_follows_the_first_place(
    before: Seq<char>,
    needle: Seq<char>,
    after: Seq<char>,
)
    requires
        forall|j: int|
            0 <= j < before.len() ==> !occurs_at(before + needle + after, needle, j),
    ensures
        found(before + needle + after, needle) == Some(before.len()),
        (before + needle + after).skip(before.len() as int + needle.len()) == after,
{
    lemma_occurs(before, needle, after);
    law_first_place(before + needle + after, needle, before.len() as int);
}

} // verus!
