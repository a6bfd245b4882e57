//! The frequency of a tracker as written in its definition: `every <n> <unit>` or
//! `every <unit>`, with `Every` accepted too.
use vstd::prelude::*;
use crate::frequency::Frequency;
use crate::text::{
    advance, all_digits, chars_eq, chars_of, decimal, digits_to_u64, digits_value, starts_with,
    starts_with_at, lemma_differ_at,
};
use crate::token::{digit_run, digit_run_end, lemma_digit_run, lemma_digit_run_over, ParseError};

verus! {

/// Number of unit words.
pub const UNIT_WORDS: usize = 17;

/// The unit words in the order they are tried: a word comes before the words it
/// starts with.
pub open spec fn unit_word(k: int) -> Seq<char> {
    if k == 0 {
        "minutes"@
    } else if k == 1 {
        "minute"@
    } else if k == 2 {
        "hours"@
    } else if k == 3 {
        "hour"@
    } else if k == 4 {
        "h"@
    } else if k == 5 {
        "days"@
    } else if k == 6 {
        "day"@
    } else if k == 7 {
        "d"@
    } else if k == 8 {
        "weeks"@
    } else if k == 9 {
        "week"@
    } else if k == 10 {
        "w"@
    } else if k == 11 {
        "months"@
    } else if k == 12 {
        "month"@
    } else if k == 13 {
        "m"@
    } else if k == 14 {
        "years"@
    } else if k == 15 {
        "year"@
    } else {
        "y"@
    }
}

/// The first unit word, from the `k`-th on, that `s` starts with.
pub open spec fn first_unit(s: Seq<char>, k: int) -> Option<int>
    decreases UNIT_WORDS - k,
{
    if k < 0 || k >= UNIT_WORDS {
        None
    } else if starts_with(s, unit_word(k)) {
        Some(k)
    } else {
        first_unit(s, k + 1)
    }
}

/// The frequency of `n` units named by the word `w`; any other word names years.
pub open spec fn frequency_of(n: u64, w: Seq<char>) -> Frequency {
    if w == "minutes"@ || w == "minute"@ {
        Frequency::EveryXMinutes(n)
    } else if w == "hours"@ || w == "hour"@ || w == "h"@ {
        Frequency::EveryXHours(n)
    } else if w == "days"@ || w == "day"@ || w == "d"@ {
        Frequency::EveryXDays(n)
    } else if w == "weeks"@ || w == "week"@ || w == "w"@ {
        Frequency::EveryXWeeks(n)
    } else if w == "months"@ || w == "month"@ || w == "m"@ {
        Frequency::EveryXMonths(n)
    } else {
        Frequency::EveryXYears(n)
    }
}

/// Space or tab.
pub open spec fn is_blank(c: char) -> bool {
    c == ' ' || c == '\t'
}

/// Length of the run of spaces and tabs of `s` from `i` on.
pub open spec fn blank_run(s: Seq<char>, i: int) -> nat
    decreases s.len() - i,
{
    if 0 <= i < s.len() && is_blank(s[i]) {
        1 + blank_run(s, i + 1)
    } else {
        0
    }
}

/// A unit word at `i`: the frequency of `n` such units and the position after the word.
pub open spec fn unit_after(s: Seq<char>, i: int, n: u64) -> Option<(Frequency, nat)> {
    match first_unit(s.skip(i), 0) {
        Some(k) => Some((frequency_of(n, unit_word(k)), (i + unit_word(k).len()) as nat)),
        None => None,
    }
}

/// `every` or `Every`, then spaces or tabs: the position after them.
pub open spec fn every_prefix(s: Seq<char>) -> Option<nat> {
    if (starts_with(s, "every"@) || starts_with(s, "Every"@)) && blank_run(s, 5) >= 1 {
        Some(5 + blank_run(s, 5))
    } else {
        None
    }
}

/// `every <n><unit>`, where spaces or tabs may stand between the number and the unit.
pub open spec fn every_digit_spec(s: Seq<char>) -> Option<(Frequency, nat)> {
    match every_prefix(s) {
        None => None,
        Some(i) => {
            let i = i as int;
            let k = digit_run(s, i) as int;
            let v = digits_value(s.subrange(i, i + k));
            if k >= 1 && v <= u64::MAX {
                let j = i + k + blank_run(s, i + k);
                unit_after(s, j, v as u64)
            } else {
                None
            }
        },
    }
}

/// `every <unit>`: one unit.
pub open spec fn every_spec(s: Seq<char>) -> Option<(Frequency, nat)> {
    match every_prefix(s) {
        None => None,
        Some(i) => unit_after(s, i as int, 1),
    }
}

/// A frequency at the start of `s`, and the characters read.
pub open spec fn frequency_spec(s: Seq<char>) -> Option<(Frequency, nat)> {
    match every_digit_spec(s) {
        Some(r) => Some(r),
        None => every_spec(s),
    }
}

/// The frequency of `freq` units named by `s`: see `frequency_of`.
pub fn string_to_frequency(freq: u64, s: &str) -> (r: Frequency)
    ensures
        r == frequency_of(freq, s@),
{
    let cs = chars_of(s);
    if chars_eq(&cs, "minutes") || chars_eq(&cs, "minute") {
        Frequency::EveryXMinutes(freq)
    } else if chars_eq(&cs, "hours") || chars_eq(&cs, "hour") || chars_eq(&cs, "h") {
        Frequency::EveryXHours(freq)
    } else if chars_eq(&cs, "days") || chars_eq(&cs, "day") || chars_eq(&cs, "d") {
        Frequency::EveryXDays(freq)
    } else if chars_eq(&cs, "weeks") || chars_eq(&cs, "week") || chars_eq(&cs, "w") {
        Frequency::EveryXWeeks(freq)
    } else if chars_eq(&cs, "months") || chars_eq(&cs, "month") || chars_eq(&cs, "m") {
        Frequency::EveryXMonths(freq)
    } else {
        Frequency::EveryXYears(freq)
    }
}

/// End of the run of spaces and tabs of `cs` from `i` on.
pub fn blank_run_end(cs: &[char], i: usize) -> (r: usize)
    requires
        i <= cs@.len(),
    ensures
        r == i + blank_run(cs@, i as int),
        r <= cs@.len(),
{
    let mut j = i;
    while j < cs.len() && (cs[j] == ' ' || cs[j] == '\t')
        invariant
            i <= j <= cs@.len(),
            blank_run(cs@, i as int) == (j - i) + blank_run(cs@, j as int),
        decreases cs@.len() - j,
    {
        j = j + 1;
    }
    j
}

/// The first unit word that `cs[i..]` starts with, and its length.
fn parse_literal_generic(cs: &[char], i: usize) -> (r: Option<(&'static str, usize)>)
    requires
        i <= cs@.len(),
    ensures
        match first_unit(cs@.skip(i as int), 0) {
            Some(k) => r matches Some((w, n)) && w@ == unit_word(k) && n == w@.len() && i + n
                <= cs@.len(),
            None => r is None,
        },
        r matches Some((w, n)) ==> i + n <= cs@.len(),
{
    let words: [&'static str; 17] = [
        "minutes",
        "minute",
        "hours",
        "hour",
        "h",
        "days",
        "day",
        "d",
        "weeks",
        "week",
        "w",
        "months",
        "month",
        "m",
        "years",
        "year",
        "y",
    ];
    proof {
        reveal_strlit("minutes");
        reveal_strlit("minute");
        reveal_strlit("hours");
        reveal_strlit("hour");
        reveal_strlit("h");
        reveal_strlit("days");
        reveal_strlit("day");
        reveal_strlit("d");
        reveal_strlit("weeks");
        reveal_strlit("week");
        reveal_strlit("w");
        reveal_strlit("months");
        reveal_strlit("month");
        reveal_strlit("m");
        reveal_strlit("years");
        reveal_strlit("year");
        reveal_strlit("y");
    }
    let ghost rest = cs@.skip(i as int);
    let mut k: usize = 0;
    while k < UNIT_WORDS
        invariant
            k <= UNIT_WORDS,
            i <= cs@.len(),
            rest == cs@.skip(i as int),
            words@.len() == UNIT_WORDS,
            forall|j: int| 0 <= j < UNIT_WORDS ==> (#[trigger] words@[j])@ == unit_word(j),
            first_unit(rest, 0) == first_unit(rest, k as int),
        decreases UNIT_WORDS - k,
    {
        let w = words[k];
        assert(w@ == unit_word(k as int));
        let m = starts_with_at(cs, i, w);
        assert(m == starts_with(rest, unit_word(k as int))) by {
            if i + w@.len() <= cs@.len() {
                assert(cs@.subrange(i as int, i + w@.len()) =~= rest.subrange(0, w@.len() as int));
            }
        }
        if m {
            let n = w.unicode_len();
            return Some((w, n));
        }
        k = k + 1;
    }
    None
}

/// Reads `every` or `Every` and the spaces after it; see `every_prefix`.
fn every_prefix_end(cs: &[char]) -> (r: Option<usize>)
    ensures
        match r {
            Some(i) => every_prefix(cs@) == Some(i as nat) && i <= cs@.len(),
            None => every_prefix(cs@) is None,
        },
{
    proof {
        reveal_strlit("every");
        reveal_strlit("Every");
    }
    if starts_with_at(cs, 0, "every") || starts_with_at(cs, 0, "Every") {
        let j = blank_run_end(cs, 5);
        if j > 5 {
            return Some(j);
        }
    }
    None
}

/// Reads `every <n><unit>` at the start of `cs`; see `every_digit_spec`.
fn parse_every_digit(cs: &[char]) -> (r: Option<(Frequency, usize)>)
    ensures
        match r {
            Some((f, n)) => every_digit_spec(cs@) == Some((f, n as nat)) && n <= cs@.len(),
            None => every_digit_spec(cs@) is None,
        },
{
    let _len = cs.len();
    let i = match every_prefix_end(cs) {
        Some(i) => i,
        None => {
            return None;
        },
    };
    let e = digit_run_end(cs, i);
    proof {
        lemma_digit_run(cs@, i as int);
    }
    if e == i {
        return None;
    }
    let v = match digits_to_u64(cs, i, e, u64::MAX) {
        Some(v) => v,
        None => {
            return None;
        },
    };
    let j = blank_run_end(cs, e);
    match parse_literal_generic(cs, j) {
        Some((w, n)) => {
            Some((string_to_frequency(v, w), j + n))
        },
        None => None,
    }
}

/// Reads `every <unit>` at the start of `cs`; see `every_spec`.
fn parse_every(cs: &[char]) -> (r: Option<(Frequency, usize)>)
    ensures
        match r {
            Some((f, n)) => every_spec(cs@) == Some((f, n as nat)) && n <= cs@.len(),
            None => every_spec(cs@) is None,
        },
{
    let _len = cs.len();
    let i = match every_prefix_end(cs) {
        Some(i) => i,
        None => {
            return None;
        },
    };
    match parse_literal_generic(cs, i) {
        Some((w, n)) => Some((string_to_frequency(1, w), i + n)),
        None => None,
    }
}

/// Reads a frequency at the start of `cs`; see `frequency_spec`.
pub fn frequency_prefix(cs: &[char]) -> (r: Option<(Frequency, usize)>)
    ensures
        match r {
            Some((f, n)) => frequency_spec(cs@) == Some((f, n as nat)) && n <= cs@.len(),
            None => frequency_spec(cs@) is None,
        },
{
    match parse_every_digit(cs) {
        Some(r) => Some(r),
        None => parse_every(cs),
    }
}

/// Reads a frequency at the start of `input` and leaves the rest in `input`; on
/// failure `input` is left as it was.
pub fn parse_frequency(input: &mut &str) -> (r: Result<Frequency, ParseError>)
    ensures
        match frequency_spec(old(input)@) {
            Some((f, n)) => r == Ok::<Frequency, ParseError>(f) && n <= old(input)@.len()
                && final(input)@ == old(input)@.skip(n as int),
            None => r is Err && final(input)@ == old(input)@,
        },
{
    let cs = chars_of(*input);
    match frequency_prefix(&cs) {
        Some((f, n)) => {
            advance(input, n);
            Ok(f)
        },
        None => Err(ParseError),
    }
}

/// The unit words that a frequency writes are read as their own unit.
proof fn lemma_unit_words()
    ensures
        first_unit("minute"@, 0) == Some(1int),
        first_unit("minutes"@, 0) == Some(0int),
        first_unit("hour"@, 0) == Some(3int),
        first_unit("hours"@, 0) == Some(2int),
        first_unit("day"@, 0) == Some(6int),
        first_unit("days"@, 0) == Some(5int),
        first_unit("week"@, 0) == Some(9int),
        first_unit("weeks"@, 0) == Some(8int),
        first_unit("month"@, 0) == Some(12int),
        first_unit("months"@, 0) == Some(11int),
        first_unit("year"@, 0) == Some(15int),
        first_unit("years"@, 0) == Some(14int),
{
    reveal_strlit("minutes");
    reveal_strlit("minute");
    reveal_strlit("hours");
    reveal_strlit("hour");
    reveal_strlit("h");
    reveal_strlit("days");
    reveal_strlit("day");
    reveal_strlit("d");
    reveal_strlit("weeks");
    reveal_strlit("week");
    reveal_strlit("w");
    reveal_strlit("months");
    reveal_strlit("month");
    reveal_strlit("m");
    reveal_strlit("years");
    reveal_strlit("year");
    reveal_strlit("y");
    lemma_differ_at("day"@, "h"@, 0);
    lemma_differ_at("days"@, "hour"@, 0);
    lemma_differ_at("days"@, "h"@, 0);
    lemma_differ_at("week"@, "hour"@, 0);
    lemma_differ_at("week"@, "h"@, 0);
    lemma_differ_at("week"@, "days"@, 0);
    lemma_differ_at("week"@, "day"@, 0);
    lemma_differ_at("week"@, "d"@, 0);
    lemma_differ_at("weeks"@, "hours"@, 0);
    lemma_differ_at("weeks"@, "hour"@, 0);
    lemma_differ_at("weeks"@, "h"@, 0);
    lemma_differ_at("weeks"@, "days"@, 0);
    lemma_differ_at("weeks"@, "day"@, 0);
    lemma_differ_at("weeks"@, "d"@, 0);
    lemma_differ_at("month"@, "hours"@, 0);
    lemma_differ_at("month"@, "hour"@, 0);
    lemma_differ_at("month"@, "h"@, 0);
    lemma_differ_at("month"@, "days"@, 0);
    lemma_differ_at("month"@, "day"@, 0);
    lemma_differ_at("month"@, "d"@, 0);
    lemma_differ_at("month"@, "weeks"@, 0);
    lemma_differ_at("month"@, "week"@, 0);
    lemma_differ_at("month"@, "w"@, 0);
    lemma_differ_at("months"@, "minute"@, 1);
    lemma_differ_at("months"@, "hours"@, 0);
    lemma_differ_at("months"@, "hour"@, 0);
    lemma_differ_at("months"@, "h"@, 0);
    lemma_differ_at("months"@, "days"@, 0);
    lemma_differ_at("months"@, "day"@, 0);
    lemma_differ_at("months"@, "d"@, 0);
    lemma_differ_at("months"@, "weeks"@, 0);
    lemma_differ_at("months"@, "week"@, 0);
    lemma_differ_at("months"@, "w"@, 0);
    lemma_differ_at("year"@, "hour"@, 0);
    lemma_differ_at("year"@, "h"@, 0);
    lemma_differ_at("year"@, "days"@, 0);
    lemma_differ_at("year"@, "day"@, 0);
    lemma_differ_at("year"@, "d"@, 0);
    lemma_differ_at("year"@, "week"@, 0);
    lemma_differ_at("year"@, "w"@, 0);
    lemma_differ_at("year"@, "m"@, 0);
    lemma_differ_at("years"@, "hours"@, 0);
    lemma_differ_at("years"@, "hour"@, 0);
    lemma_differ_at("years"@, "h"@, 0);
    lemma_differ_at("years"@, "days"@, 0);
    lemma_differ_at("years"@, "day"@, 0);
    lemma_differ_at("years"@, "d"@, 0);
    lemma_differ_at("years"@, "weeks"@, 0);
    lemma_differ_at("years"@, "week"@, 0);
    lemma_differ_at("years"@, "w"@, 0);
    lemma_differ_at("years"@, "month"@, 0);
    lemma_differ_at("years"@, "m"@, 0);
    reveal_with_fuel(first_unit, 18);
    assert("minute"@.subrange(0, 6) =~= "minute"@);
    assert("minutes"@.subrange(0, 7) =~= "minutes"@);
    assert("hour"@.subrange(0, 4) =~= "hour"@);
    assert("hours"@.subrange(0, 5) =~= "hours"@);
    assert("day"@.subrange(0, 3) =~= "day"@);
    assert("days"@.subrange(0, 4) =~= "days"@);
    assert("week"@.subrange(0, 4) =~= "week"@);
    assert("weeks"@.subrange(0, 5) =~= "weeks"@);
    assert("month"@.subrange(0, 5) =~= "month"@);
    assert("months"@.subrange(0, 6) =~= "months"@);
    assert("year"@.subrange(0, 4) =~= "year"@);
    assert("years"@.subrange(0, 5) =~= "years"@);
}

/// The unit word of a frequency, and its plural, as a frequency writes them.
spec fn written_unit(f: Frequency) -> Seq<char> {
    if f.count() == 1 {
        f.word()
    } else {
        f.word() + seq!['s']
    }
}

/// A frequency as `Frequency::to_string` writes it reads back as itself, the whole
/// text read: the header of a tracker keeps its frequency.
pub proof fn lemma_frequency_text_round_trip(f: Frequency)
    ensures
        frequency_spec(f.text()) == Some((f, f.text().len())),
{
    let s = f.text();
    let w = written_unit(f);
    reveal_strlit("Every ");
    reveal_strlit("every");
    reveal_strlit("Every");
    reveal_strlit("minute");
    reveal_strlit("hour");
    reveal_strlit("day");
    reveal_strlit("week");
    reveal_strlit("month");
    reveal_strlit("year");
    reveal_strlit("minutes");
    reveal_strlit("hours");
    reveal_strlit("days");
    reveal_strlit("weeks");
    reveal_strlit("months");
    reveal_strlit("years");
    reveal_strlit("h");
    reveal_strlit("d");
    reveal_strlit("w");
    reveal_strlit("m");
    lemma_unit_words();
    lemma_differ_at("minute"@, "months"@, 1);
    lemma_differ_at("hour"@, "days"@, 0);
    lemma_differ_at("hour"@, "week"@, 0);
    lemma_differ_at("hour"@, "year"@, 0);
    lemma_differ_at("week"@, "hour"@, 0);
    lemma_differ_at("week"@, "days"@, 0);
    lemma_differ_at("week"@, "year"@, 0);
    lemma_differ_at("month"@, "hours"@, 0);
    lemma_differ_at("month"@, "weeks"@, 0);
    lemma_differ_at("month"@, "years"@, 0);
    lemma_differ_at("year"@, "hour"@, 0);
    lemma_differ_at("year"@, "days"@, 0);
    lemma_differ_at("year"@, "week"@, 0);
    lemma_differ_at("hours"@, "weeks"@, 0);
    lemma_differ_at("hours"@, "month"@, 0);
    lemma_differ_at("hours"@, "years"@, 0);
    lemma_differ_at("days"@, "hour"@, 0);
    lemma_differ_at("days"@, "week"@, 0);
    lemma_differ_at("days"@, "year"@, 0);
    lemma_differ_at("weeks"@, "hours"@, 0);
    lemma_differ_at("weeks"@, "month"@, 0);
    lemma_differ_at("weeks"@, "years"@, 0);
    lemma_differ_at("months"@, "minute"@, 1);
    lemma_differ_at("years"@, "hours"@, 0);
    lemma_differ_at("years"@, "weeks"@, 0);
    lemma_differ_at("years"@, "month"@, 0);
    assert(f.word() + seq!['s'] == match f {
        Frequency::EveryXMinutes(_) => "minutes"@,
        Frequency::EveryXHours(_) => "hours"@,
        Frequency::EveryXDays(_) => "days"@,
        Frequency::EveryXWeeks(_) => "weeks"@,
        Frequency::EveryXMonths(_) => "months"@,
        Frequency::EveryXYears(_) => "years"@,
    });
    let k = match first_unit(w, 0) {
        Some(k) => k,
        None => 0,
    };
    assert(first_unit(w, 0) == Some(k));
    assert(unit_word(k) == w);
    assert(frequency_of(f.count() as u64, w) == f) by {
        match f {
            Frequency::EveryXMinutes(n) => {
                assert(f.count() as u64 == n);
                if n == 1 {
                    assert(w == "minute"@);
                    assert("minute"@ != "minutes"@);
                } else {
                    assert(w == "minutes"@);

                }
            },
            Frequency::EveryXHours(n) => {
                assert(f.count() as u64 == n);
                if n == 1 {
                    assert(w == "hour"@);
                    assert("hour"@ != "minutes"@);
                    assert("hour"@ != "minute"@);
                    assert("hour"@ != "hours"@);
                } else {
                    assert(w == "hours"@);
                    assert("hours"@ != "minutes"@);
                    assert("hours"@ != "minute"@);
                }
            },
            Frequency::EveryXDays(n) => {
                assert(f.count() as u64 == n);
                if n == 1 {
                    assert(w == "day"@);
                    assert("day"@ != "minutes"@);
                    assert("day"@ != "minute"@);
                    assert("day"@ != "hours"@);
                    assert("day"@ != "hour"@);
                    assert("day"@ != "h"@);
                    assert("day"@ != "days"@);
                } else {
                    assert(w == "days"@);
                    assert("days"@ != "minutes"@);
                    assert("days"@ != "minute"@);
                    assert("days"@ != "hours"@);
                    assert("days"@ != "hour"@);
                    assert("days"@ != "h"@);
                }
            },
            Frequency::EveryXWeeks(n) => {
                assert(f.count() as u64 == n);
                if n == 1 {
                    assert(w == "week"@);
                    assert("week"@ != "minutes"@);
                    assert("week"@ != "minute"@);
                    assert("week"@ != "hours"@);
                    assert("week"@ != "hour"@);
                    assert("week"@ != "h"@);
                    assert("week"@ != "days"@);
                    assert("week"@ != "day"@);
                    assert("week"@ != "d"@);
                    assert("week"@ != "weeks"@);
                } else {
                    assert(w == "weeks"@);
                    assert("weeks"@ != "minutes"@);
                    assert("weeks"@ != "minute"@);
                    assert("weeks"@ != "hours"@);
                    assert("weeks"@ != "hour"@);
                    assert("weeks"@ != "h"@);
                    assert("weeks"@ != "days"@);
                    assert("weeks"@ != "day"@);
                    assert("weeks"@ != "d"@);
                }
            },
            Frequency::EveryXMonths(n) => {
                assert(f.count() as u64 == n);
                if n == 1 {
                    assert(w == "month"@);
                    assert("month"@ != "minutes"@);
                    assert("month"@ != "minute"@);
                    assert("month"@ != "hours"@);
                    assert("month"@ != "hour"@);
                    assert("month"@ != "h"@);
                    assert("month"@ != "days"@);
                    assert("month"@ != "day"@);
                    assert("month"@ != "d"@);
                    assert("month"@ != "weeks"@);
                    assert("month"@ != "week"@);
                    assert("month"@ != "w"@);
                    assert("month"@ != "months"@);
                } else {
                    assert(w == "months"@);
                    assert("months"@ != "minutes"@);
                    assert("months"@ != "minute"@);
                    assert("months"@ != "hours"@);
                    assert("months"@ != "hour"@);
                    assert("months"@ != "h"@);
                    assert("months"@ != "days"@);
                    assert("months"@ != "day"@);
                    assert("months"@ != "d"@);
                    assert("months"@ != "weeks"@);
                    assert("months"@ != "week"@);
                    assert("months"@ != "w"@);
                }
            },
            Frequency::EveryXYears(n) => {
                assert(f.count() as u64 == n);
                if n == 1 {
                    assert(w == "year"@);
                    assert("year"@ != "minutes"@);
                    assert("year"@ != "minute"@);
                    assert("year"@ != "hours"@);
                    assert("year"@ != "hour"@);
                    assert("year"@ != "h"@);
                    assert("year"@ != "days"@);
                    assert("year"@ != "day"@);
                    assert("year"@ != "d"@);
                    assert("year"@ != "weeks"@);
                    assert("year"@ != "week"@);
                    assert("year"@ != "w"@);
                    assert("year"@ != "months"@);
                    assert("year"@ != "month"@);
                    assert("year"@ != "m"@);
                } else {
                    assert(w == "years"@);
                    assert("years"@ != "minutes"@);
                    assert("years"@ != "minute"@);
                    assert("years"@ != "hours"@);
                    assert("years"@ != "hour"@);
                    assert("years"@ != "h"@);
                    assert("years"@ != "days"@);
                    assert("years"@ != "day"@);
                    assert("years"@ != "d"@);
                    assert("years"@ != "weeks"@);
                    assert("years"@ != "week"@);
                    assert("years"@ != "w"@);
                    assert("years"@ != "months"@);
                    assert("years"@ != "month"@);
                    assert("years"@ != "m"@);
                }
            },
        }
    }
    assert(s.subrange(0, 5) =~= "Every"@);
    assert(!starts_with(s, "every"@)) by {
        assert(s[0] == 'E');
        lemma_differ_at(s, "every"@, 0);
    }
    assert(s[5] == ' ');
    assert(!is_blank(s[6])) by {
        if f.count() == 1 {
            assert(s[6] == w[0]);
        } else {
            crate::text::lemma_decimal_digits(f.count());
            assert(s[6] == decimal(f.count())[0]);
            assert(crate::text::is_digit(decimal(f.count())[0]));
        }
    }
    assert(blank_run(s, 6) == 0);
    assert(blank_run(s, 5) == 1);
    assert(every_prefix(s) == Some(6nat));
    if f.count() == 1 {
        assert(s =~= "Every "@ + w);
        assert(digit_run(s, 6) == 0) by {
            assert(!crate::text::is_digit(s[6]));
        }
        assert(every_digit_spec(s) is None);
        assert(s.skip(6) =~= w);
        assert(w.len() == unit_word(k).len());
    } else {
        let d = decimal(f.count());
        let dl = d.len() as int;
        crate::text::lemma_decimal_digits(f.count());
        assert(s =~= "Every "@ + d + seq![' '] + w);
        assert(s.subrange(6, 6 + dl) =~= d);
        assert(s[6 + dl] == ' ');
        lemma_digit_run_over(s, 6, d);
        assert(s.len() == 7 + dl + w.len());
        assert(w.len() >= 1);
        assert(s[7 + dl] == w[0]);
        assert(!is_blank(w[0]));
        assert(blank_run(s, 7 + dl) == 0);
        assert(blank_run(s, 6 + dl) == 1);
        assert(s.skip(7 + dl) =~= w);
        assert(f.count() <= u64::MAX);
    }
}

} // verus!
