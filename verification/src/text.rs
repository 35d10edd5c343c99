//! Reading of plain text: blanks, lines, words and whole numbers.
//!
//! Text is looked at as a sequence of characters. The kernel's text files, the dump of the
//! compositor and the lines of a statistics stream are all read with these functions.

use vstd::prelude::*;
use vstd::slice::slice_subrange;
use vstd::string::*;

verus! {

/// A class of characters that a reader skips or collects.
#[derive(Clone, Copy)]
pub enum Class {
    /// The characters with the Unicode property `White_Space`.
    Space,
    /// White space and the percent sign.
    SpaceOrPercent,
    /// The ten decimal digits.
    Digit,
    /// The line feed.
    LineFeed,
}

impl Class {
    pub open spec fn spec_has(self, c: char) -> bool {
        match self {
            Class::Space => is_space(c),
            Class::SpaceOrPercent => is_space(c) || c == '%',
            Class::Digit => 48 <= c as u32 <= 57,
            Class::LineFeed => c == '\n',
        }
    }

    #[verifier::when_used_as_spec(spec_has)]
    pub fn has(self, c: char) -> (r: bool)
        ensures
            r == self.has(c),
    {
        match self {
            Class::Space => is_space(c),
            Class::SpaceOrPercent => is_space(c) || c == '%',
            Class::Digit => 48 <= c as u32 && c as u32 <= 57,
            Class::LineFeed => c == '\n',
        }
    }
}

pub open spec fn spec_is_space(c: char) -> bool {
    let n = c as u32;
    ||| 0x9 <= n <= 0xd
    ||| n == 0x20
    ||| n == 0x85
    ||| n == 0xa0
    ||| n == 0x1680
    ||| 0x2000 <= n <= 0x200a
    ||| n == 0x2028
    ||| n == 0x2029
    ||| n == 0x202f
    ||| n == 0x205f
    ||| n == 0x3000
}

/// Whether a character has the Unicode property `White_Space`.
#[verifier::when_used_as_spec(spec_is_space)]
pub fn is_space(c: char) -> (r: bool)
    ensures
        r == is_space(c),
{
    let n: u32 = c as u32;
    (0x9 <= n && n <= 0xd) || n == 0x20 || n == 0x85 || n == 0xa0 || n == 0x1680 || (0x2000 <= n
        && n <= 0x200a) || n == 0x2028 || n == 0x2029 || n == 0x202f || n == 0x205f || n == 0x3000
}

/// The characters of a string.
pub fn characters(s: &str) -> (r: Vec<char>)
    ensures
        r@ == s@,
{
    let mut r: Vec<char> = Vec::new();
    for c in it: s.chars()
        invariant
            it.seq() == s@,
            r@ == s@.take(it.index() as int),
    {
        proof {
            let i = it.index() as int;
            assert(s@.take(i).push(s@[i]) == s@.take(i + 1));
        }
        r.push(c);
    }
    proof {
        assert(s@.take(s@.len() as int) == s@);
    }
    r
}

/// Whether two strings hold the same characters.
pub fn same(a: &str, b: &str) -> (r: bool)
    ensures
        r == (a@ == b@),
{
    same_characters(&characters(a), &characters(b))
}

pub fn same_characters(a: &[char], b: &[char]) -> (r: bool)
    ensures
        r == (a@ == b@),
{
    if a.len() != b.len() {
        return false;
    }
    let mut i: usize = 0;
    while i < a.len()
        invariant
            i <= a.len(),
            a.len() == b.len(),
            forall|j: int| 0 <= j < i ==> a@[j] == b@[j],
        decreases a.len() - i,
    {
        if a[i] != b[i] {
            return false;
        }
        i = i + 1;
    }
    proof {
        assert(a@ =~= b@);
    }
    true
}

/// How many characters at the start of a text are all inside, or all outside, of a class.
pub open spec fn run(s: Seq<char>, class: Class, inside: bool) -> nat
    decreases s.len(),
{
    if s.len() > 0 && class.has(s[0]) == inside {
        1 + run(s.drop_first(), class, inside)
    } else {
        0
    }
}

pub proof fn lemma_run(s: Seq<char>, class: Class, inside: bool)
    ensures
        run(s, class, inside) <= s.len(),
        forall|i: int| 0 <= i < run(s, class, inside) ==> class.has(s[i]) == inside,
        run(s, class, inside) < s.len() ==> class.has(s[run(s, class, inside) as int]) != inside,
    decreases s.len(),
{
    if s.len() > 0 && class.has(s[0]) == inside {
        let t = s.drop_first();
        lemma_run(t, class, inside);
        assert forall|i: int| 0 <= i < run(s, class, inside) implies class.has(s[i]) == inside by {
            if i > 0 {
                assert(s[i] == t[i - 1]);
            }
        }
    }
}

/// A text that starts with `n` characters on one side of the class and then changes, or ends.
pub proof fn lemma_run_is(s: Seq<char>, class: Class, inside: bool, n: nat)
    requires
        n <= s.len(),
        forall|i: int| 0 <= i < n ==> class.has(s[i]) == inside,
        n < s.len() ==> class.has(s[n as int]) != inside,
    ensures
        run(s, class, inside) == n,
{
    let m = run(s, class, inside);
    lemma_run(s, class, inside);
    if m < n {
        assert(class.has(s[m as int]) == inside);
    } else if n < m {
        assert(class.has(s[n as int]) == inside);
    }
}

pub fn run_length(s: &[char], class: Class, inside: bool) -> (n: usize)
    ensures
        n == run(s@, class, inside),
        n <= s@.len(),
{
    let mut n: usize = 0;
    while n < s.len() && class.has(s[n]) == inside
        invariant
            n <= s.len(),
            forall|i: int| 0 <= i < n ==> class.has(s@[i]) == inside,
        decreases s.len() - n,
    {
        n = n + 1;
    }
    proof {
        lemma_run_is(s@, class, inside, n as nat);
    }
    n
}

pub open spec fn without_leading_space(s: Seq<char>) -> Seq<char> {
    s.skip(run(s, Class::Space, true) as int)
}

pub open spec fn without_trailing_space(s: Seq<char>) -> Seq<char>
    decreases s.len(),
{
    if s.len() > 0 && is_space(s.last()) {
        without_trailing_space(s.drop_last())
    } else {
        s
    }
}

/// A text without the white space at its two ends.
pub open spec fn trimmed(s: Seq<char>) -> Seq<char> {
    without_trailing_space(without_leading_space(s))
}

pub fn trim(s: &[char]) -> (r: &[char])
    ensures
        r@ == trimmed(s@),
{
    let start: usize = run_length(s, Class::Space, true);
    let mut end: usize = s.len();
    let ghost all = without_leading_space(s@);
    proof {
        assert(s@.subrange(start as int, end as int) == all);
    }
    while end > start && is_space(s[end - 1])
        invariant
            start <= end <= s.len(),
            without_trailing_space(s@.subrange(start as int, end as int))
                == without_trailing_space(all),
        decreases end,
    {
        proof {
            let t = s@.subrange(start as int, end as int);
            assert(t.drop_last() == s@.subrange(start as int, end as int - 1));
            assert(t.last() == s@[end as int - 1]);
        }
        end = end - 1;
    }
    proof {
        let t = s@.subrange(start as int, end as int);
        if end > start {
            assert(t.last() == s@[end as int - 1]);
        }
    }
    slice_subrange(s, start, end)
}

/// The first run of characters outside of a class, if there is one.
pub open spec fn first_token(s: Seq<char>, separators: Class) -> Option<Seq<char>> {
    let t = s.skip(run(s, separators, true) as int);
    let n = run(t, separators, false);
    if n == 0 {
        None
    } else {
        Some(t.take(n as int))
    }
}

pub fn token(s: &[char], separators: Class) -> (r: Option<&[char]>)
    ensures
        match r {
            Some(t) => first_token(s@, separators) == Some(t@),
            None => first_token(s@, separators) is None,
        },
{
    let start: usize = run_length(s, separators, true);
    let rest: &[char] = slice_subrange(s, start, s.len());
    proof {
        assert(rest@ == s@.skip(start as int));
    }
    let n: usize = run_length(rest, separators, false);
    if n == 0 {
        None
    } else {
        proof {
            assert(rest@.subrange(0, n as int) == rest@.take(n as int));
        }
        Some(slice_subrange(rest, 0, n))
    }
}

/// Whether `needle` stands in `s` at `i`.
pub open spec fn occurs_at(s: Seq<char>, needle: Seq<char>, i: int) -> bool {
    &&& 0 <= i
    &&& i + needle.len() <= s.len()
    &&& s.subrange(i, i + needle.len()) == needle
}

/// The first place at or after `from` where `needle` stands.
pub open spec fn found_from(s: Seq<char>, needle: Seq<char>, from: nat) -> Option<nat>
    decreases s.len() + 1 - from,
{
    if from + needle.len() > s.len() {
        None
    } else if occurs_at(s, needle, from as int) {
        Some(from)
    } else {
        found_from(s, needle, from + 1)
    }
}

/// The first place where `needle` stands.
pub open spec fn found(s: Seq<char>, needle: Seq<char>) -> Option<nat> {
    found_from(s, needle, 0)
}

/// [`found_from`] gives the least place, and nothing only where there is none.
pub proof fn lemma_found_from(s: Seq<char>, needle: Seq<char>, from: nat)
    ensures
        match found_from(s, needle, from) {
            Some(i) => {
                &&& from <= i
                &&& occurs_at(s, needle, i as int)
                &&& forall|j: int| from <= j < i ==> !occurs_at(s, needle, j)
            },
            None => forall|j: int| from <= j ==> !occurs_at(s, needle, j),
        },
    decreases s.len() + 1 - from,
{
    if from + needle.len() <= s.len() && !occurs_at(s, needle, from as int) {
        lemma_found_from(s, needle, from + 1);
    }
}

fn stands_at(s: &[char], needle: &[char], i: usize) -> (r: bool)
    requires
        i + needle@.len() <= s@.len(),
    ensures
        r == occurs_at(s@, needle@, i as int),
{
    let n: usize = s.len();
    same_characters(slice_subrange(s, i, i + needle.len()), needle)
}

/// Looks for `needle` at or after `from`.
pub fn find_from(s: &[char], needle: &[char], from: usize) -> (r: Option<usize>)
    requires
        from <= s@.len(),
    ensures
        match r {
            Some(i) => found_from(s@, needle@, from as nat) == Some(i as nat) && i + needle@.len()
                <= s@.len() <= usize::MAX,
            None => found_from(s@, needle@, from as nat) is None,
        },
{
    if needle.len() > s.len() {
        return None;
    }
    let last: usize = s.len() - needle.len();
    let mut i: usize = from;
    while i <= last
        invariant
            last + needle@.len() == s@.len(),
            from <= s@.len(),
            i <= s@.len(),
            found_from(s@, needle@, i as nat) == found_from(s@, needle@, from as nat),
        decreases s.len() - i,
    {
        if stands_at(s, needle, i) {
            return Some(i);
        }
        proof {
            if i == s@.len() {
                assert(s@.subrange(i as int, i as int) =~= needle@);
            }
        }
        i = i + 1;
    }
    None
}

pub fn find(s: &[char], needle: &[char]) -> (r: Option<usize>)
    ensures
        match r {
            Some(i) => found(s@, needle@) == Some(i as nat) && i + needle@.len() <= s@.len()
                <= usize::MAX,
            None => found(s@, needle@) is None,
        },
{
    find_from(s, needle, 0)
}

/// Whether `needle` stands anywhere in `s`.
pub fn contains(s: &str, needle: &str) -> (r: bool)
    ensures
        r <==> found(s@, needle@) is Some,
{
    find(&characters(s), &characters(needle)).is_some()
}

/// What follows a prefix.
pub open spec fn after_prefix(s: Seq<char>, prefix: Seq<char>) -> Option<Seq<char>> {
    if occurs_at(s, prefix, 0) {
        Some(s.skip(prefix.len() as int))
    } else {
        None
    }
}

pub fn strip_prefix<'a>(s: &'a [char], prefix: &[char]) -> (r: Option<&'a [char]>)
    ensures
        match r {
            Some(rest) => after_prefix(s@, prefix@) == Some(rest@),
            None => after_prefix(s@, prefix@) is None,
        },
{
    if prefix.len() <= s.len() && stands_at(s, prefix, 0) {
        proof {
            assert(s@.subrange(prefix@.len() as int, s@.len() as int) == s@.skip(
                prefix@.len() as int,
            ));
        }
        Some(slice_subrange(s, prefix.len(), s.len()))
    } else {
        None
    }
}

/// What follows a prefix of a string.
pub fn strip_str_prefix<'a>(s: &'a str, prefix: &str) -> (r: Option<&'a str>)
    ensures
        match r {
            Some(rest) => after_prefix(s@, prefix@) == Some(rest@),
            None => after_prefix(s@, prefix@) is None,
        },
{
    let n: usize = prefix.unicode_len();
    let m: usize = s.unicode_len();
    if n <= m && stands_at(&characters(s), &characters(prefix), 0) {
        proof {
            assert(s@.subrange(n as int, m as int) == s@.skip(n as int));
        }
        Some(s.substring_char(n, m))
    } else {
        None
    }
}

/// The first line of a text, without its line feed and a carriage return before that.
pub open spec fn first_line(s: Seq<char>) -> Seq<char> {
    let n = run(s, Class::LineFeed, false);
    if n < s.len() && n > 0 && s[n - 1] == '\r' {
        s.take(n - 1)
    } else {
        s.take(n as int)
    }
}

/// What follows the first line.
pub open spec fn after_line(s: Seq<char>) -> Seq<char> {
    let n = run(s, Class::LineFeed, false);
    if n < s.len() {
        s.skip(n as int + 1)
    } else {
        Seq::empty()
    }
}

/// The first line of a text, and what follows it.
pub fn split_line(s: &[char]) -> (r: (&[char], &[char]))
    ensures
        r.0@ == first_line(s@),
        r.1@ == after_line(s@),
        s@.len() > 0 ==> r.1@.len() < s@.len(),
{
    let n: usize = run_length(s, Class::LineFeed, false);
    proof {
        assert(forall|k: int| 0 <= k <= s@.len() ==> s@.subrange(0, k) == #[trigger] s@.take(k));
        assert(forall|k: int|
            0 <= k <= s@.len() ==> s@.subrange(k, s@.len() as int) == #[trigger] s@.skip(k));
        assert(s@.skip(s@.len() as int) == Seq::<char>::empty());
    }
    if n < s.len() {
        let rest: &[char] = slice_subrange(s, n + 1, s.len());
        if n > 0 && s[n - 1] == '\r' {
            (slice_subrange(s, 0, n - 1), rest)
        } else {
            (slice_subrange(s, 0, n), rest)
        }
    } else {
        (slice_subrange(s, 0, n), slice_subrange(s, n, n))
    }
}

/// The value of a row of decimal digits.
pub open spec fn decimal_value(s: Seq<char>) -> nat
    decreases s.len(),
{
    if s.len() == 0 {
        0
    } else {
        10 * decimal_value(s.drop_last()) + (s.last() as u32 - 48) as nat
    }
}

/// The value of a text that is one or more decimal digits and nothing else.
pub open spec fn digits_value(s: Seq<char>) -> Option<nat> {
    if s.len() > 0 && run(s, Class::Digit, true) == s.len() {
        Some(decimal_value(s))
    } else {
        None
    }
}

proof fn lemma_longer_is_greater(s: Seq<char>, n: int)
    requires
        0 <= n <= s.len(),
    ensures
        decimal_value(s.take(n)) <= decimal_value(s),
    decreases s.len(),
{
    if n < s.len() {
        lemma_longer_is_greater(s.drop_last(), n);
        assert(s.drop_last().take(n) == s.take(n));
    } else {
        assert(s.take(n) == s);
    }
}

/// Reads decimal digits whose value is at most `max`.
fn digits(s: &[char], max: u64) -> (r: Option<u64>)
    ensures
        match r {
            Some(n) => digits_value(s@) == Some(n as nat) && n <= max,
            None => match digits_value(s@) {
                Some(n) => n > max,
                None => true,
            },
        },
{
    if s.len() == 0 || run_length(s, Class::Digit, true) != s.len() {
        return None;
    }
    proof {
        lemma_run(s@, Class::Digit, true);
    }
    let mut value: u64 = 0;
    let mut i: usize = 0;
    while i < s.len()
        invariant
            i <= s.len(),
            forall|j: int| 0 <= j < s.len() ==> Class::Digit.has(s@[j]),
            value == decimal_value(s@.take(i as int)),
            value <= max,
            s@.len() > 0,
            digits_value(s@) == Some(decimal_value(s@)),
        decreases s.len() - i,
    {
        let d: u64 = (s[i] as u32 - 48) as u64;
        let next: u128 = 10 * (value as u128) + d as u128;
        proof {
            let t = s@.take(i as int + 1);
            assert(t.drop_last() == s@.take(i as int));
            assert(t.last() == s@[i as int]);
            lemma_longer_is_greater(s@, i as int + 1);
        }
        if next > max as u128 {
            return None;
        }
        value = next as u64;
        i = i + 1;
    }
    proof {
        assert(s@.take(i as int) == s@);
    }
    Some(value)
}

/// A whole number of at most `max`: decimal digits, with a plus sign before them or none.
pub open spec fn unsigned(s: Seq<char>, max: nat) -> Option<nat> {
    let d = if s.len() > 0 && s[0] == '+' {
        s.drop_first()
    } else {
        s
    };
    match digits_value(d) {
        Some(n) => if n <= max {
            Some(n)
        } else {
            None
        },
        None => None,
    }
}

pub fn parse_unsigned(s: &[char], max: u64) -> (r: Option<u64>)
    ensures
        match r {
            Some(n) => unsigned(s@, max as nat) == Some(n as nat) && n <= max,
            None => unsigned(s@, max as nat) is None,
        },
{
    if s.len() > 0 && s[0] == '+' {
        proof {
            assert(s@.subrange(1, s@.len() as int) == s@.drop_first());
        }
        digits(slice_subrange(s, 1, s.len()), max)
    } else {
        digits(s, max)
    }
}

/// A whole number within the bounds of an `i64`, with a sign before it or none.
pub open spec fn signed(s: Seq<char>) -> Option<int> {
    if s.len() > 0 && s[0] == '-' {
        match digits_value(s.drop_first()) {
            Some(n) => if n <= 0x8000_0000_0000_0000 {
                Some(-(n as int))
            } else {
                None
            },
            None => None,
        }
    } else {
        match unsigned(s, i64::MAX as nat) {
            Some(n) => Some(n as int),
            None => None,
        }
    }
}

pub fn parse_signed(s: &[char]) -> (r: Option<i64>)
    ensures
        match r {
            Some(n) => signed(s@) == Some(n as int),
            None => signed(s@) is None,
        },
{
    if s.len() > 0 && s[0] == '-' {
        proof {
            assert(s@.subrange(1, s@.len() as int) == s@.drop_first());
        }
        match digits(slice_subrange(s, 1, s.len()), 0x8000_0000_0000_0000) {
            Some(n) => if n == 0x8000_0000_0000_0000 {
                Some(i64::MIN)
            } else {
                Some(-(n as i64))
            },
            None => None,
        }
    } else {
        match parse_unsigned(s, i64::MAX as u64) {
            Some(n) => Some(n as i64),
            None => None,
        }
    }
}

/// The decimal digits of a number.
pub open spec fn decimal(n: nat) -> Seq<char>
    decreases n,
{
    if n < 10 {
        seq![((48 + n) as u32) as char]
    } else {
        decimal(n / 10).push(((48 + n % 10) as u32) as char)
    }
}

fn digit(n: u32) -> (r: &'static str)
    requires
        n < 10,
    ensures
        r@ == decimal(n as nat),
{
    proof {
        reveal_strlit("0");
        reveal_strlit("1");
        reveal_strlit("2");
        reveal_strlit("3");
        reveal_strlit("4");
        reveal_strlit("5");
        reveal_strlit("6");
        reveal_strlit("7");
        reveal_strlit("8");
        reveal_strlit("9");
    }
    let r: &'static str = match n {
        0 => "0",
        1 => "1",
        2 => "2",
        3 => "3",
        4 => "4",
        5 => "5",
        6 => "6",
        7 => "7",
        8 => "8",
        _ => "9",
    };
    proof {
        assert(r@ =~= decimal(n as nat));
    }
    r
}

/// Writes a number in decimal.
pub fn decimal_text(n: u32) -> (r: String)
    ensures
        r@ == decimal(n as nat),
    decreases n,
{
    if n < 10 {
        digit(n).to_owned()
    } else {
        let mut r: String = decimal_text(n / 10);
        r.append(digit(n % 10));
        proof {
            assert(r@ =~= decimal(n as nat));
        }
        r
    }
}

/// A path under a directory. An absolute path stands for itself.
pub open spec fn joined(dir: Seq<char>, path: Seq<char>) -> Seq<char> {
    if path.len() > 0 && path[0] == '/' {
        path
    } else if dir.len() == 0 || dir.last() == '/' {
        dir + path
    } else {
        dir.push('/') + path
    }
}

pub fn join(dir: &str, path: &str) -> (r: String)
    ensures
        r@ == joined(dir@, path@),
{
    proof {
        reveal_strlit("/");
    }
    let n: usize = dir.unicode_len();
    if path.unicode_len() > 0 && path.get_char(0) == '/' {
        path.to_owned()
    } else if n == 0 || dir.get_char(n - 1) == '/' {
        dir.to_owned().concat(path)
    } else {
        proof {
            assert(dir@ + "/"@ =~= dir@.push('/'));
        }
        dir.to_owned().concat("/").concat(path)
    }
}

} // verus!
