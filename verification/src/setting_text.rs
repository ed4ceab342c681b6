//! Values in settings: durations, which are numbers with units, such as `10s` or
//! `1h30m`, and flags, such as `yes` or `0`.
use crate::clock::Duration;
use crate::paths::digits;
use vstd::prelude::*;
use vstd::string::{StrSliceExecFns, StringExecFns};

verus! {

pub open spec fn is_digit(c: char) -> bool {
    '0' <= c && c <= '9'
}

/// How many characters at the start of `s` are digits, or, with `digit` false,
/// are none.
pub open spec fn lead(s: Seq<char>, digit: bool) -> nat
    decreases s.len(),
{
    if s.len() == 0 || is_digit(s[0]) != digit {
        0
    } else {
        1 + lead(s.skip(1), digit)
    }
}

/// The number that the digits `s` stand for.
pub open spec fn number(s: Seq<char>) -> nat
    decreases s.len(),
{
    if s.len() == 0 {
        0
    } else {
        (number(s.drop_last()) * 10 + (s.last() as int - '0' as int)) as nat
    }
}

/// The nanoseconds of a unit: days, hours, minutes, seconds, milliseconds,
/// microseconds or nanoseconds.
pub open spec fn unit(s: Seq<char>) -> Option<u128> {
    if s == "d"@ {
        Some(86_400_000_000_000)
    } else if s == "h"@ {
        Some(3_600_000_000_000)
    } else if s == "m"@ {
        Some(60_000_000_000)
    } else if s == "s"@ {
        Some(1_000_000_000)
    } else if s == "ms"@ {
        Some(1_000_000)
    } else if s == "us"@ {
        Some(1_000)
    } else if s == "ns"@ {
        Some(1)
    } else {
        None
    }
}

/// The sum of the parts of `s`, in nanoseconds, each a number with its unit.
pub open spec fn parts(s: Seq<char>) -> Option<nat>
    decreases s.len(),
{
    let n = lead(s, true) as int;
    let k = lead(s.skip(n), false) as int;
    if s.len() == 0 {
        Some(0)
    } else if n == 0 || k == 0 || n + k > s.len() {
        None
    } else {
        match (unit(s.subrange(n, n + k)), parts(s.skip(n + k))) {
            (Some(u), Some(rest)) => Some(number(s.take(n)) * (u as nat) + rest),
            _ => None,
        }
    }
}

/// The duration that `s` stands for, if it does for one that can be held.
pub open spec fn duration_of(s: Seq<char>) -> Option<Duration> {
    match parts(s) {
        Some(n) if s.len() > 0 && n <= u128::MAX => Some(n as u128),
        _ => None,
    }
}

proof fn lemma_lead(s: Seq<char>, digit: bool)
    ensures
        lead(s, digit) <= s.len(),
    decreases s.len(),
{
    if s.len() > 0 && is_digit(s[0]) == digit {
        lemma_lead(s.skip(1), digit);
    }
}

fn digit_at(s: &str, i: usize) -> (r: bool)
    requires
        i < s@.len(),
    ensures
        r == is_digit(s@[i as int]),
{
    let c: char = s.get_char(i);
    '0' <= c && c <= '9'
}

/// Where the characters from `from` on end that are digits, or, with `digit`
/// false, are none.
fn run_end(s: &str, n: usize, from: usize, digit: bool) -> (end: usize)
    requires
        n == s@.len(),
        from <= n,
    ensures
        from <= end <= n,
        end - from == lead(s@.skip(from as int), digit),
{
    let mut i: usize = from;
    while i < n && digit_at(s, i) == digit
        invariant
            n == s@.len(),
            from <= i <= n,
            lead(s@.skip(from as int), digit) == (i - from) + lead(s@.skip(i as int), digit),
        decreases n - i,
    {
        assert(s@.skip(i as int)[0] == s@[i as int]);
        assert(s@.skip(i as int).skip(1) =~= s@.skip(i + 1));
        i += 1;
    }
    if i < n {
        assert(s@.skip(i as int)[0] == s@[i as int]);
    }
    i
}

/// Whether every character of `s` is a digit.
spec fn all_digits(s: Seq<char>) -> bool {
    forall|i: int| 0 <= i < s.len() ==> is_digit(#[trigger] s[i])
}

proof fn lemma_lead_digits(s: Seq<char>)
    ensures
        all_digits(s.take(lead(s, true) as int)),
    decreases s.len(),
{
    lemma_lead(s, true);
    let k = lead(s, true) as int;
    if k > 0 {
        lemma_lead_digits(s.skip(1));
        lemma_lead(s.skip(1), true);
        assert forall|i: int| 0 <= i < k implies is_digit(#[trigger] s.take(k)[i]) by {
            if i > 0 {
                assert(s.skip(1).take(k - 1)[i - 1] == s[i]);
            }
        }
    }
}

/// The number that some digits stand for, if it can be held.
fn read_number(s: &str, from: usize, to: usize) -> (r: Option<u128>)
    requires
        from <= to <= s@.len(),
        all_digits(s@.subrange(from as int, to as int)),
    ensures
        r == (if number(s@.subrange(from as int, to as int)) <= u128::MAX {
            Some(number(s@.subrange(from as int, to as int)) as u128)
        } else {
            None
        }),
{
    let ghost ds = s@.subrange(from as int, to as int);
    let mut r: Option<u128> = Some(0);
    let mut i: usize = from;
    while i < to
        invariant
            from <= i <= to <= s@.len(),
            ds == s@.subrange(from as int, to as int),
            all_digits(ds),
            r == (if number(ds.take(i - from)) <= u128::MAX {
                Some(number(ds.take(i - from)) as u128)
            } else {
                None
            }),
        decreases to - i,
    {
        let ghost next = ds.take(i - from + 1);
        assert(next.drop_last() =~= ds.take(i - from));
        assert(next.last() == s@[i as int]);
        assert(is_digit(ds[i - from]));
        let d: u128 = s.get_char(i) as u128 - '0' as u128;
        r = match r {
            Some(x) => match x.checked_mul(10) {
                Some(y) => y.checked_add(d),
                None => None,
            },
            None => None,
        };
        i += 1;
    }
    assert(ds.take(to - from) =~= ds);
    r
}

fn same(a: &String, b: &str) -> (r: bool)
    ensures
        r == (a@ == b@),
{
    *a == String::from_str(b)
}

fn read_unit(s: &str) -> (r: Option<u128>)
    ensures
        r == unit(s@),
{
    let u: String = String::from_str(s);
    if same(&u, "d") {
        Some(86_400_000_000_000)
    } else if same(&u, "h") {
        Some(3_600_000_000_000)
    } else if same(&u, "m") {
        Some(60_000_000_000)
    } else if same(&u, "s") {
        Some(1_000_000_000)
    } else if same(&u, "ms") {
        Some(1_000_000)
    } else if same(&u, "us") {
        Some(1_000)
    } else if same(&u, "ns") {
        Some(1)
    } else {
        None
    }
}

/// Reads a duration.
pub fn parse_duration(s: &str) -> (r: Option<Duration>)
    ensures
        r == duration_of(s@),
{
    let n: usize = s.unicode_len();
    if n == 0 {
        return None;
    }
    let mut total: u128 = 0;
    let mut i: usize = 0;
    assert(s@.skip(0) =~= s@);
    while i < n
        invariant
            n == s@.len(),
            n > 0,
            i <= n,
            parts(s@) == (match parts(s@.skip(i as int)) {
                Some(rest) => Some(total as nat + rest),
                None => None,
            }),
        decreases n - i,
    {
        let ghost t = s@.skip(i as int);
        let j: usize = run_end(s, n, i, true);
        let k: usize = run_end(s, n, j, false);
        let ghost a = (j - i) as int;
        let ghost b = (k - j) as int;
        assert(t.skip(a) =~= s@.skip(j as int));
        assert(t.subrange(a, a + b) =~= s@.subrange(j as int, k as int));
        assert(t.take(a) =~= s@.subrange(i as int, j as int));
        assert(t.skip(a + b) =~= s@.skip(k as int));
        proof {
            lemma_lead_digits(t);
        }
        if j == i || k == j {
            return None;
        }
        let unit: u128 = match read_unit(s.substring_char(j, k)) {
            Some(u) => u,
            None => {
                return None;
            },
        };
        let ghost x = number(t.take(a));
        let ghost rest = parts(s@.skip(k as int));
        assert(x * (unit as nat) >= x) by (nonlinear_arith)
            requires
                unit >= 1,
        ;
        let sum: Option<u128> = match read_number(s, i, j) {
            Some(y) => match y.checked_mul(unit) {
                Some(v) => total.checked_add(v),
                None => None,
            },
            None => None,
        };
        match sum {
            Some(v) => {
                total = v;
            },
            None => {
                return None;
            },
        }
        i = k;
    }
    assert(s@.skip(i as int).len() == 0);
    Some(total)
}

/// The parts of a duration add up.
pub proof fn law_parts_add_up(a: Seq<char>, b: Seq<char>)
    requires
        parts(a) is Some,
        b.len() > 0 ==> is_digit(b[0]),
    ensures
        parts(a + b) == (match parts(b) {
            Some(y) => Some(parts(a)->0 + y),
            None => None,
        }),
    decreases a.len(),
{
    let s = a + b;
    if a.len() == 0 {
        assert(s =~= b);
    } else {
        let n = lead(a, true) as int;
        let k = lead(a.skip(n), false) as int;
        lemma_lead(a, true);
        lemma_lead(a.skip(n), false);
        lemma_lead_stops(a, b, true);
        assert(s.skip(n) =~= a.skip(n) + b);
        lemma_lead_stops(a.skip(n), b, false);
        assert(s.take(n) =~= a.take(n));
        assert(s.subrange(n, n + k) =~= a.subrange(n, n + k));
        assert(s.skip(n + k) =~= a.skip(n + k) + b);
        law_parts_add_up(a.skip(n + k), b);
    }
}

/// A run of characters does not go on behind its end.
proof fn lemma_lead_stops(a: Seq<char>, b: Seq<char>, digit: bool)
    requires
        lead(a, digit) < a.len() || b.len() == 0 || is_digit(b[0]) != digit,
    ensures
        lead(a + b, digit) == lead(a, digit),
    decreases a.len(),
{
    let s = a + b;
    if a.len() == 0 {
        assert(s =~= b);
    } else {
        assert(s[0] == a[0]);
        if is_digit(a[0]) == digit {
            assert(s.skip(1) =~= a.skip(1) + b);
            lemma_lead_stops(a.skip(1), b, digit);
        }
    }
}

// ----------------------------------------------------------------------- flags

/// The small letter of an ASCII capital; any other character stays.
pub open spec fn lower(c: char) -> char {
    if 'A' <= c && c <= 'Z' {
        (c as u8 + 32) as char
    } else {
        c
    }
}

pub open spec fn lowered(s: Seq<char>) -> Seq<char> {
    Seq::new(s.len(), |i: int| lower(s[i]))
}

/// What a flag stands for, in capitals or not.
pub open spec fn flag_of(s: Seq<char>) -> Option<bool> {
    let t = lowered(s);
    if t == "true"@ || t == "yes"@ || t == "y"@ || t == "1"@ {
        Some(true)
    } else if t == "false"@ || t == "no"@ || t == "n"@ || t == "0"@ {
        Some(false)
    } else {
        None
    }
}

fn lower_char(c: char) -> (r: char)
    ensures
        r == lower(c),
{
    if 'A' <= c && c <= 'Z' {
        (c as u8 + 32) as char
    } else {
        c
    }
}

/// Whether `s` is the word `word` but for capitals.
fn is_word(s: &str, word: &str) -> (r: bool)
    ensures
        r == (lowered(s@) == word@),
{
    let n: usize = s.unicode_len();
    if n != word.unicode_len() {
        return false;
    }
    let mut i: usize = 0;
    while i < n
        invariant
            i <= n,
            n == s@.len(),
            n == word@.len(),
            forall|j: int| 0 <= j < i ==> lower(#[trigger] s@[j]) == word@[j],
        decreases n - i,
    {
        if lower_char(s.get_char(i)) != word.get_char(i) {
            assert(lowered(s@)[i as int] != word@[i as int]);
            return false;
        }
        i += 1;
    }
    assert(lowered(s@) =~= word@);
    true
}

/// Reads a flag.
pub fn parse_flag(text: &str) -> (r: Option<bool>)
    ensures
        r == flag_of(text@),
{
    if is_word(text, "true") || is_word(text, "yes") || is_word(text, "y") || is_word(text, "1") {
        Some(true)
    } else if is_word(text, "false") || is_word(text, "no") || is_word(text, "n") || is_word(
        text,
        "0",
    ) {
        Some(false)
    } else {
        None
    }
}

/// Capitals make no difference to a flag.
pub proof fn law_flags_ignore_capitals(s: Seq<char>)
    ensures
        flag_of(lowered(s)) == flag_of(s),
{
    assert(lowered(lowered(s)) =~= lowered(s));
}

// ----------------------------------------------------------------------- laws

proof fn lemma_lead_all(s: Seq<char>, t: Seq<char>, digit: bool)
    requires
        forall|i: int| 0 <= i < s.len() ==> is_digit(#[trigger] s[i]) == digit,
        t.len() > 0 ==> is_digit(t[0]) != digit,
    ensures
        lead(s + t, digit) == s.len(),
    decreases s.len(),
{
    if s.len() == 0 {
        assert(s + t =~= t);
    } else {
        assert((s + t)[0] == s[0]);
        assert((s + t).skip(1) =~= s.skip(1) + t);
        assert forall|i: int| 0 <= i < s.skip(1).len() implies is_digit(#[trigger] s.skip(1)[i])
            == digit by {
            assert(s.skip(1)[i] == s[i + 1]);
        }
        lemma_lead_all(s.skip(1), t, digit);
    }
}

/// A number that is written is read back as it was.
pub proof fn law_written_numbers_are_read_back(n: nat)
    ensures
        number(digits(n)) == n,
        digits(n).len() > 0,
        forall|i: int| 0 <= i < digits(n).len() ==> is_digit(#[trigger] digits(n)[i]),
    decreases n,
{
    if n >= 10 {
        law_written_numbers_are_read_back(n / 10);
        assert(digits(n).drop_last() =~= digits(n / 10));
        assert(digits(n).last() as int - '0' as int == n % 10);
        assert(number(digits(n)) == (n / 10) * 10 + n % 10);
        assert forall|i: int| 0 <= i < digits(n).len() implies is_digit(#[trigger] digits(n)[i]) by {
            if i < digits(n / 10).len() {
                assert(digits(n)[i] == digits(n / 10)[i]);
            }
        }
    } else {
        let d = digits(n);
        assert(d.drop_last() =~= Seq::<char>::empty());
        assert(number(d.drop_last()) == 0);
        assert(d.last() as int - '0' as int == n);
        assert(number(d) == 0 * 10 + n);
    }
}

/// Whether `s` is a unit of `ns` nanoseconds, written without digits.
spec fn is_unit(s: Seq<char>, ns: u128) -> bool {
    &&& unit(s) == Some(ns)
    &&& s.len() > 0
    &&& forall|i: int| 0 <= i < s.len() ==> !is_digit(#[trigger] s[i])
}

proof fn lemma_one_part(n: nat, u: Seq<char>, ns: u128)
    requires
        is_unit(u, ns),
    ensures
        n * ns <= u128::MAX ==> duration_of(digits(n) + u) == Some((n * ns) as u128),
{
    let d = digits(n);
    let s = d + u;
    law_written_numbers_are_read_back(n);
    lemma_lead_all(d, u, true);
    let k = d.len() as int;
    assert(s.skip(k) =~= u);
    lemma_lead_all(u, Seq::empty(), false);
    assert(u + Seq::<char>::empty() =~= u);
    assert(s.subrange(k, k + u.len()) =~= u);
    assert(s.take(k) =~= d);
    assert(s.skip(k + u.len()) =~= Seq::<char>::empty());
    assert(parts(Seq::<char>::empty()) == Some(0nat));
    assert(parts(s) == Some(n * (ns as nat) + 0));
}

proof fn lemma_units()
    ensures
        is_unit("d"@, 86_400_000_000_000),
        is_unit("h"@, 3_600_000_000_000),
        is_unit("m"@, 60_000_000_000),
        is_unit("s"@, 1_000_000_000),
        is_unit("ms"@, 1_000_000),
        is_unit("us"@, 1_000),
        is_unit("ns"@, 1),
{
    reveal_strlit("d");
    reveal_strlit("h");
    reveal_strlit("m");
    reveal_strlit("s");
    reveal_strlit("ms");
    reveal_strlit("us");
    reveal_strlit("ns");
    assert("d"@.len() == 1 && "h"@.len() == 1 && "m"@.len() == 1 && "s"@.len() == 1);
    assert("d"@[0] == 'd' && "h"@[0] == 'h' && "m"@[0] == 'm' && "s"@[0] == 's');
    assert("ms"@[0] == 'm' && "us"@[0] == 'u' && "ns"@[0] == 'n' && "ms"@.len() == 2);
    assert("us"@.len() == 2 && "ns"@.len() == 2);
    assert("ms"@[1] == 's' && "us"@[1] == 's' && "ns"@[1] == 's');
}

/// A number with a unit stands for as much time: days, hours, minutes, seconds,
/// and the parts of a second down to nanoseconds.
pub proof fn law_durations_have_units(n: nat)
    ensures
        n * 86_400_000_000_000 <= u128::MAX ==> duration_of(digits(n) + "d"@) == Some(
            (n * 86_400_000_000_000) as u128,
        ),
        n * 3_600_000_000_000 <= u128::MAX ==> duration_of(digits(n) + "h"@) == Some(
            (n * 3_600_000_000_000) as u128,
        ),
        n * 60_000_000_000 <= u128::MAX ==> duration_of(digits(n) + "m"@) == Some(
            (n * 60_000_000_000) as u128,
        ),
        n * 1_000_000_000 <= u128::MAX ==> duration_of(digits(n) + "s"@) == Some(
            (n * 1_000_000_000) as u128,
        ),
        n * 1_000_000 <= u128::MAX ==> duration_of(digits(n) + "ms"@) == Some(
            (n * 1_000_000) as u128,
        ),
        n * 1_000 <= u128::MAX ==> duration_of(digits(n) + "us"@) == Some(
            (n * 1_000) as u128,
        ),
        n * 1 <= u128::MAX ==> duration_of(digits(n) + "ns"@) == Some(
            (n * 1) as u128,
        ),
{
    lemma_units();
    lemma_one_part(n, "d"@, 86_400_000_000_000);
    lemma_one_part(n, "h"@, 3_600_000_000_000);
    lemma_one_part(n, "m"@, 60_000_000_000);
    lemma_one_part(n, "s"@, 1_000_000_000);
    lemma_one_part(n, "ms"@, 1_000_000);
    lemma_one_part(n, "us"@, 1_000);
    lemma_one_part(n, "ns"@, 1);
}

/// A text that starts with a unit, or ends with a number, is no duration, nor is
/// one without anything in it.
pub proof fn law_durations_need_numbers_and_units(n: nat, s: Seq<char>)
    ensures
        duration_of(Seq::empty()) is None,
        duration_of(digits(n)) is None,
        s.len() > 0 && !is_digit(s[0]) ==> duration_of(s) is None,
{
    let d = digits(n);
    law_written_numbers_are_read_back(n);
    lemma_lead_all(d, Seq::empty(), true);
    assert(d + Seq::<char>::empty() =~= d);
    assert(d.skip(d.len() as int) =~= Seq::<char>::empty());
    assert(lead(Seq::<char>::empty(), false) == 0);
}

/// Whether `c` is the small letter `small` or its capital `big`.
pub open spec fn either(c: char, small: char, big: char) -> bool {
    c == small || c == big
}

/// A flag is on where it reads as true, yes, y or 1, and off where it reads as
/// false, no, n or 0, each letter small or a capital. Nothing else is a flag.
pub proof fn law_flags_are_words(s: Seq<char>)
    ensures
        flag_of(s) == Some(true) <==> ({
            ||| s.len() == 1 && (s[0] == '1' || either(s[0], 'y', 'Y'))
            ||| s.len() == 3 && either(s[0], 'y', 'Y') && either(s[1], 'e', 'E') && either(
                s[2],
                's',
                'S',
            )
            ||| s.len() == 4 && either(s[0], 't', 'T') && either(s[1], 'r', 'R') && either(
                s[2],
                'u',
                'U',
            ) && either(s[3], 'e', 'E')
        }),
        flag_of(s) == Some(false) <==> ({
            ||| s.len() == 1 && (s[0] == '0' || either(s[0], 'n', 'N'))
            ||| s.len() == 2 && either(s[0], 'n', 'N') && either(s[1], 'o', 'O')
            ||| s.len() == 5 && either(s[0], 'f', 'F') && either(s[1], 'a', 'A') && either(
                s[2],
                'l',
                'L',
            ) && either(s[3], 's', 'S') && either(s[4], 'e', 'E')
        }),
{
    reveal_strlit("true");
    reveal_strlit("yes");
    reveal_strlit("y");
    reveal_strlit("1");
    reveal_strlit("false");
    reveal_strlit("no");
    reveal_strlit("n");
    reveal_strlit("0");
    let t = lowered(s);
    lemma_is_word(s, "true"@);
    lemma_is_word(s, "yes"@);
    lemma_is_word(s, "y"@);
    lemma_is_word(s, "1"@);
    lemma_is_word(s, "false"@);
    lemma_is_word(s, "no"@);
    lemma_is_word(s, "n"@);
    lemma_is_word(s, "0"@);
}

proof fn lemma_is_word(s: Seq<char>, word: Seq<char>)
    requires
        word.len() <= 5,
    ensures
        lowered(s) == word <==> s.len() == word.len() && (s.len() > 0 ==> lower(s[0]) == word[0])
            && (s.len() > 1 ==> lower(s[1]) == word[1]) && (s.len() > 2 ==> lower(s[2]) == word[2])
            && (s.len() > 3 ==> lower(s[3]) == word[3]) && (s.len() > 4 ==> lower(s[4]) == word[4]),
{
    let same = s.len() == word.len() && (s.len() > 0 ==> lower(s[0]) == word[0]) && (s.len() > 1
        ==> lower(s[1]) == word[1]) && (s.len() > 2 ==> lower(s[2]) == word[2]) && (s.len() > 3
        ==> lower(s[3]) == word[3]) && (s.len() > 4 ==> lower(s[4]) == word[4]);
    if same {
        assert(lowered(s) =~= word);
    }
    if lowered(s) == word {
        assert(lowered(s).len() == s.len());
        assert forall|i: int| 0 <= i < s.len() implies lower(#[trigger] s[i]) == word[i] by {
            assert(lowered(s)[i] == lower(s[i]));
        }
    }
}

} // verus!
