//! The words of a task line: tags, priorities, completion, today flag, times and
//! dates. Each parser reads a prefix of a word and says how many characters it read.
use vstd::prelude::*;
use crate::date::{
    add_days, date_of_days, days_in_month_exec, lemma_date_of_days, lemma_valid_days_range,
    max_day_number, number_from_monday, NaiveDate, NaiveTime,
};
use crate::task::State;
use crate::text::{advance, chars_of, all_digits, digits_to_u64, digits_value, is_digit, starts_with, starts_with_at, string_of};

verus! {

/// A word of a task line, as the task parser reads it.
#[derive(Debug, PartialEq, Eq)]
pub enum Token {
    DueDate(NaiveDate),
    DueTime(NaiveTime),
    Name(String),
    Priority(usize),
    Tag(String),
    State(State),
    TodayFlag,
    CompletionPercentage(usize),
}

/// A token as a mathematical value.
pub enum TokenView {
    DueDate(NaiveDate),
    DueTime(NaiveTime),
    Name(Seq<char>),
    Priority(usize),
    Tag(Seq<char>),
    State(State),
    TodayFlag,
    CompletionPercentage(usize),
}

impl View for Token {
    type V = TokenView;

    open spec fn view(&self) -> TokenView {
        match self {
            Token::DueDate(d) => TokenView::DueDate(*d),
            Token::DueTime(t) => TokenView::DueTime(*t),
            Token::Name(s) => TokenView::Name(s@),
            Token::Priority(p) => TokenView::Priority(*p),
            Token::Tag(s) => TokenView::Tag(s@),
            Token::State(s) => TokenView::State(*s),
            Token::TodayFlag => TokenView::TodayFlag,
            Token::CompletionPercentage(c) => TokenView::CompletionPercentage(*c),
        }
    }
}

/// The input did not read as the expected token.
#[derive(Debug, Clone, Copy, PartialEq, Eq)]
pub struct ParseError;

/// Characters allowed in a tag: `_`, digits and ASCII letters.
pub open spec fn is_tag_char(c: char) -> bool {
    c == '_' || ('0' <= c <= '9') || ('A' <= c <= 'Z') || ('a' <= c <= 'z')
}

/// Length of the run of digits of `s` from `i` on.
pub open spec fn digit_run(s: Seq<char>, i: int) -> nat
    decreases s.len() - i,
{
    if 0 <= i < s.len() && is_digit(s[i]) {
        1 + digit_run(s, i + 1)
    } else {
        0
    }
}

/// Length of the run of tag characters of `s` from `i` on.
pub open spec fn tag_run(s: Seq<char>, i: int) -> nat
    decreases s.len() - i,
{
    if 0 <= i < s.len() && is_tag_char(s[i]) {
        1 + tag_run(s, i + 1)
    } else {
        0
    }
}

pub proof fn lemma_digit_run(s: Seq<char>, i: int)
    requires
        0 <= i <= s.len(),
    ensures
        i + digit_run(s, i) <= s.len(),
        all_digits(s.subrange(i, i + digit_run(s, i))),
        i + digit_run(s, i) < s.len() ==> !is_digit(s[i + digit_run(s, i)]),
    decreases s.len() - i,
{
    if i < s.len() && is_digit(s[i]) {
        lemma_digit_run(s, i + 1);
        assert forall|k: int| 0 <= k < digit_run(s, i) implies #[trigger] is_digit(
            s.subrange(i, i + digit_run(s, i))[k],
        ) by {
            if k > 0 {
                assert(s.subrange(i, i + digit_run(s, i))[k] == s.subrange(
                    i + 1,
                    i + 1 + digit_run(s, i + 1),
                )[k - 1]);
            }
        }
    }
}

pub proof fn lemma_tag_run(s: Seq<char>, i: int)
    requires
        0 <= i <= s.len(),
    ensures
        i + tag_run(s, i) <= s.len(),
        i + tag_run(s, i) < s.len() ==> !is_tag_char(s[i + tag_run(s, i)]),
    decreases s.len() - i,
{
    if i < s.len() && is_tag_char(s[i]) {
        lemma_tag_run(s, i + 1);
    }
}

/// A run of digits `d` at `i`, followed by a character other than a digit or by the
/// end, is read whole.
pub proof fn lemma_digit_run_over(s: Seq<char>, i: int, d: Seq<char>)
    requires
        0 <= i,
        i + d.len() <= s.len(),
        s.subrange(i, i + d.len()) == d,
        all_digits(d),
        i + d.len() < s.len() ==> !is_digit(s[i + d.len()]),
    ensures
        digit_run(s, i) == d.len(),
    decreases d.len(),
{
    if d.len() > 0 {
        assert(s[i] == d[0]);
        let d1 = d.drop_first();
        assert(s.subrange(i + 1, i + 1 + d1.len()) =~= d1);
        assert forall|k: int| 0 <= k < d1.len() implies #[trigger] is_digit(d1[k]) by {
            assert(d1[k] == d[k + 1]);
        }
        lemma_digit_run_over(s, i + 1, d1);
    }
}

/// End of the run of digits of `cs` from `i` on.
pub fn digit_run_end(cs: &[char], i: usize) -> (r: usize)
    requires
        i <= cs@.len(),
    ensures
        r == i + digit_run(cs@, i as int),
{
    let mut j = i;
    while j < cs.len() && '0' <= cs[j] && cs[j] <= '9'
        invariant
            i <= j <= cs@.len(),
            digit_run(cs@, i as int) == (j - i) + digit_run(cs@, j as int),
        decreases cs@.len() - j,
    {
        j = j + 1;
    }
    j
}

/// End of the run of tag characters of `cs` from `i` on.
pub fn tag_run_end(cs: &[char], i: usize) -> (r: usize)
    requires
        i <= cs@.len(),
    ensures
        r == i + tag_run(cs@, i as int),
{
    let mut j = i;
    while j < cs.len() && (cs[j] == '_' || ('0' <= cs[j] && cs[j] <= '9') || ('A' <= cs[j]
        && cs[j] <= 'Z') || ('a' <= cs[j] && cs[j] <= 'z'))
        invariant
            i <= j <= cs@.len(),
            tag_run(cs@, i as int) == (j - i) + tag_run(cs@, j as int),
        decreases cs@.len() - j,
    {
        j = j + 1;
    }
    j
}

/// `#<tag>`: the tag and the characters read.
pub open spec fn tag_spec(s: Seq<char>) -> Option<(Seq<char>, nat)> {
    if s.len() >= 1 && s[0] == '#' && tag_run(s, 1) >= 1 {
        Some((s.subrange(1, 1 + tag_run(s, 1) as int), 1 + tag_run(s, 1)))
    } else {
        None
    }
}

/// `<letter><digits>`: the number, when it fits in a `usize`, and the characters read.
pub open spec fn letter_number_spec(s: Seq<char>, letter: char) -> Option<(usize, nat)> {
    if s.len() >= 1 && s[0] == letter && digit_run(s, 1) >= 1 && digits_value(
        s.subrange(1, 1 + digit_run(s, 1) as int),
    ) <= usize::MAX {
        Some(
            (
                digits_value(s.subrange(1, 1 + digit_run(s, 1) as int)) as usize,
                1 + digit_run(s, 1),
            ),
        )
    } else {
        None
    }
}

/// `@today`, `@tod`, `@tdy` or `@t`: the characters read.
pub open spec fn today_spec(s: Seq<char>) -> Option<nat> {
    if s.len() >= 6 && s.take(6) == "@today"@ {
        Some(6)
    } else if s.len() >= 4 && s.take(4) == "@tod"@ {
        Some(4)
    } else if s.len() >= 4 && s.take(4) == "@tdy"@ {
        Some(4)
    } else if s.len() >= 2 && s.take(2) == "@t"@ {
        Some(2)
    } else {
        None
    }
}

/// Reads `#<tag>` at the start of `cs`.
pub fn tag_prefix(cs: &[char]) -> (r: Option<(String, usize)>)
    ensures
        match tag_spec(cs@) {
            Some((t, n)) => r matches Some((s, m)) && s@ == t && m == n,
            None => r is None,
        },
        r matches Some((s, m)) ==> m <= cs@.len(),
{
    if cs.len() >= 1 && cs[0] == '#' {
        let e = tag_run_end(cs, 1);
        proof {
            lemma_tag_run(cs@, 1);
        }
        if e >= 2 {
            return Some((string_of(cs, 1, e), e));
        }
    }
    None
}

/// Reads `<letter><digits>` at the start of `cs`.
pub fn letter_number_prefix(cs: &[char], letter: char) -> (r: Option<(usize, usize)>)
    ensures
        match r {
            Some((v, n)) => letter_number_spec(cs@, letter) == Some((v, n as nat)) && n
                <= cs@.len(),
            None => letter_number_spec(cs@, letter) is None,
        },
{
    if cs.len() >= 1 && cs[0] == letter {
        let e = digit_run_end(cs, 1);
        if e >= 2 {
            proof {
                lemma_digit_run(cs@, 1);
            }
            match digits_to_u64(cs, 1, e, usize::MAX as u64) {
                Some(v) => {
                    return Some((v as usize, e));
                },
                None => {},
            }
        }
    }
    None
}

/// Reads `@today`, `@tod`, `@tdy` or `@t` at the start of `cs`.
pub fn today_prefix(cs: &[char]) -> (r: Option<usize>)
    ensures
        match today_spec(cs@) {
            Some(n) => r == Some(n as usize),
            None => r is None,
        },
        r matches Some(n) ==> n <= cs@.len(),
{
    proof {
        reveal_strlit("@today");
        reveal_strlit("@tod");
        reveal_strlit("@tdy");
        reveal_strlit("@t");
        if cs@.len() >= 6 {
            assert(cs@.take(6) =~= cs@.subrange(0, 6));
        }
        if cs@.len() >= 4 {
            assert(cs@.take(4) =~= cs@.subrange(0, 4));
        }
        if cs@.len() >= 2 {
            assert(cs@.take(2) =~= cs@.subrange(0, 2));
        }
    }
    if starts_with_at(cs, 0, "@today") {
        Some(6)
    } else if starts_with_at(cs, 0, "@tod") {
        Some(4)
    } else if starts_with_at(cs, 0, "@tdy") {
        Some(4)
    } else if starts_with_at(cs, 0, "@t") {
        Some(2)
    } else {
        None
    }
}


/// The number written by the run of digits of `s` from `i` on, when the run is not
/// empty and the number fits in a `u32`, and the length of the run.
pub open spec fn u32_at(s: Seq<char>, i: int) -> Option<(u32, nat)> {
    let k = digit_run(s, i);
    if k >= 1 && digits_value(s.subrange(i, i + k)) <= u32::MAX {
        Some((digits_value(s.subrange(i, i + k)) as u32, k))
    } else {
        None
    }
}

/// Reads the number of the run of digits of `cs` from `i` on; see `u32_at`.
pub fn u32_prefix(cs: &[char], i: usize) -> (r: Option<(u32, usize)>)
    requires
        i <= cs@.len(),
    ensures
        match r {
            Some((v, k)) => u32_at(cs@, i as int) == Some((v, k as nat)) && i + k <= cs@.len(),
            None => u32_at(cs@, i as int) is None,
        },
{
    let e = digit_run_end(cs, i);
    proof {
        lemma_digit_run(cs@, i as int);
    }
    if e > i {
        match digits_to_u64(cs, i, e, u32::MAX as u64) {
            Some(v) => Some((v as u32, e - i)),
            None => None,
        }
    } else {
        None
    }
}

/// Whether `s` has the character `c` at `i`.
pub open spec fn char_at(s: Seq<char>, i: int, c: char) -> bool {
    0 <= i < s.len() && s[i] == c
}

/// `h:m` or `h:m:s` with `h < 24`, `m < 60` and `s < 60`: the time and the characters
/// read.
pub open spec fn time_spec(s: Seq<char>) -> Option<(NaiveTime, nat)> {
    match u32_at(s, 0) {
        None => None,
        Some((h, k1)) => if !char_at(s, k1 as int, ':') {
            None
        } else {
            match u32_at(s, k1 as int + 1) {
                None => None,
                Some((m, k2)) => {
                    let e2: int = k1 as int + 1 + k2 as int;
                    let third = if char_at(s, e2, ':') {
                        u32_at(s, e2 + 1)
                    } else {
                        None
                    };
                    let (sec, e) = match third {
                        Some((v, k3)) => (v, e2 + 1 + k3),
                        None => (0u32, e2),
                    };
                    if h < 24 && m < 60 && sec < 60 {
                        Some((NaiveTime { hour: h, minute: m, second: sec, nano: 0 }, e as nat))
                    } else {
                        None
                    }
                },
            }
        },
    }
}

/// Reads `h:m` or `h:m:s` at the start of `cs`.
pub fn time_prefix(cs: &[char]) -> (r: Option<(NaiveTime, usize)>)
    ensures
        match r {
            Some((t, n)) => time_spec(cs@) == Some((t, n as nat)) && n <= cs@.len(),
            None => time_spec(cs@) is None,
        },
{
    let _n = cs.len();
    let (h, k1) = match u32_prefix(cs, 0) {
        Some(x) => x,
        None => {
            return None;
        },
    };
    if !(k1 < cs.len() && cs[k1] == ':') {
        return None;
    }
    let (m, k2) = match u32_prefix(cs, k1 + 1) {
        Some(x) => x,
        None => {
            return None;
        },
    };
    let e2 = k1 + 1 + k2;
    let third = if e2 < cs.len() && cs[e2] == ':' {
        u32_prefix(cs, e2 + 1)
    } else {
        None
    };
    let (sec, e) = match third {
        Some((v, k3)) => (v, e2 + 1 + k3),
        None => (0u32, e2),
    };
    if h < 24 && m < 60 && sec < 60 {
        Some((NaiveTime { hour: h, minute: m, second: sec, nano: 0 }, e))
    } else {
        None
    }
}

/// The name of weekday `k`, 1 for Monday up to 7 for Sunday.
pub open spec fn weekday_name(k: int) -> Seq<char> {
    if k == 1 {
        "monday"@
    } else if k == 2 {
        "tuesday"@
    } else if k == 3 {
        "wednesday"@
    } else if k == 4 {
        "thursday"@
    } else if k == 5 {
        "friday"@
    } else if k == 6 {
        "saturday"@
    } else {
        "sunday"@
    }
}

/// The first weekday whose name `s` starts with, and the length of the name.
pub open spec fn weekday_prefix(s: Seq<char>) -> Option<(int, nat)> {
    if starts_with(s, weekday_name(1)) {
        Some((1, weekday_name(1).len()))
    } else if starts_with(s, weekday_name(2)) {
        Some((2, weekday_name(2).len()))
    } else if starts_with(s, weekday_name(3)) {
        Some((3, weekday_name(3).len()))
    } else if starts_with(s, weekday_name(4)) {
        Some((4, weekday_name(4).len()))
    } else if starts_with(s, weekday_name(5)) {
        Some((5, weekday_name(5).len()))
    } else if starts_with(s, weekday_name(6)) {
        Some((6, weekday_name(6).len()))
    } else if starts_with(s, weekday_name(7)) {
        Some((7, weekday_name(7).len()))
    } else {
        None
    }
}

/// Days from `today` to the next weekday `k` (1 for Monday): from 1 up to 7.
pub open spec fn days_until_weekday(today: NaiveDate, k: int) -> int {
    let w = (today.days() - 1) % 7 + 1;
    7 - (w - k) % 7
}

/// A date written with numbers: in american format `m/d` or `y/m/d`, otherwise `d/m`
/// or `d/m/y`; the year is the one of `today` when it is not written.
pub open spec fn numeric_date_spec(s: Seq<char>, american: bool, year: i32) -> Option<
    (NaiveDate, nat),
> {
    match u32_at(s, 0) {
        None => None,
        Some((a, k1)) => if !char_at(s, k1 as int, '/') {
            None
        } else {
            match u32_at(s, k1 as int + 1) {
                None => None,
                Some((b, k2)) => {
                    let e2: int = k1 as int + 1 + k2 as int;
                    let third = if char_at(s, e2, '/') {
                        u32_at(s, e2 + 1)
                    } else {
                        None
                    };
                    match third {
                        None => {
                            let d = if american {
                                NaiveDate { year, month: a, day: b }
                            } else {
                                NaiveDate { year, month: b, day: a }
                            };
                            if d.valid() {
                                Some((d, e2 as nat))
                            } else {
                                None
                            }
                        },
                        Some((c, k3)) => {
                            let (y, m, dd) = if american {
                                (a, b, c)
                            } else {
                                (c, b, a)
                            };
                            let d = NaiveDate { year: y as i32, month: m, day: dd };
                            if y <= i32::MAX && d.valid() {
                                Some((d, (e2 + 1 + k3) as nat))
                            } else {
                                None
                            }
                        },
                    }
                },
            }
        },
    }
}

/// A due date: `today`, `tomorrow`, a weekday name (the next such day), or a date
/// written with numbers; the date and the characters read.
pub open spec fn date_spec(s: Seq<char>, american: bool, today: NaiveDate) -> Option<
    (NaiveDate, nat),
> {
    if starts_with(s, "today"@) {
        Some((today, 5))
    } else if starts_with(s, "tomorrow"@) {
        Some((date_of_days(today.days() + 1), 8))
    } else {
        match weekday_prefix(s) {
            Some((k, n)) => Some((date_of_days(today.days() + days_until_weekday(today, k)), n)),
            None => numeric_date_spec(s, american, today.year),
        }
    }
}

/// The days numbered after `today` up to a week later include exactly one of weekday
/// `k` (1 for Monday, as `number_from_monday` counts): `date_spec` reads the name of
/// that weekday, of `n` characters, as that day.
pub open spec fn reads_as_weekday(s: Seq<char>, american: bool, today: NaiveDate, k: int, n: nat) -> bool {
    exists|m: int|
        today.days() < m <= today.days() + 7 && (m - 1) % 7 + 1 == k && date_spec(s, american, today)
            == Some((date_of_days(m), n))
}

/// A text that starts with `a` does not start with a word that differs from `a` at `i`.
proof fn lemma_not_both(s: Seq<char>, a: Seq<char>, b: Seq<char>, i: int)
    requires
        starts_with(s, a),
        0 <= i < a.len(),
        i < b.len(),
        a[i] != b[i],
    ensures
        !starts_with(s, b),
{
    assert(s.subrange(0, a.len() as int)[i] == s[i]);
    if starts_with(s, b) {
        assert(s.subrange(0, b.len() as int)[i] == s[i]);
    }
}

/// The next day of weekday `k` lies one to seven days ahead.
proof fn lemma_days_until_weekday(today: NaiveDate, k: int)
    requires
        1 <= k <= 7,
    ensures
        ({
            let m = today.days() + days_until_weekday(today, k);
            today.days() < m <= today.days() + 7 && (m - 1) % 7 + 1 == k
        }),
{
    let t = today.days();
    let w = (t - 1) % 7 + 1;
    let d = (w - k) % 7;
    let m = t + 7 - d;
    assert(0 <= d < 7);
    assert((m - 1) % 7 + 1 == k) by {
        assert(t - 1 == 7 * ((t - 1) / 7) + (w - 1));
        assert(w - k == 7 * ((w - k) / 7) + d);
        assert(m - 1 == 7 * ((t - 1) / 7 + (w - k) / 7 + 1) + (k - 1));
        vstd::arithmetic::div_mod::lemma_fundamental_div_mod_converse(
            m - 1,
            7,
            (t - 1) / 7 + (w - k) / 7 + 1,
            k - 1,
        );
    }
}

/// A weekday name is read as the next day of that weekday, one to seven days after
/// `today`: `monday` a Monday up to `sunday` a Sunday (weekdays counted from Monday as
/// 1, day 1 of the count being a Monday).
pub proof fn lemma_weekday_names_read_as_their_day(s: Seq<char>, american: bool, today: NaiveDate)
    ensures
        starts_with(s, "monday"@) ==> reads_as_weekday(s, american, today, 1, 6),
        starts_with(s, "tuesday"@) ==> reads_as_weekday(s, american, today, 2, 7),
        starts_with(s, "wednesday"@) ==> reads_as_weekday(s, american, today, 3, 9),
        starts_with(s, "thursday"@) ==> reads_as_weekday(s, american, today, 4, 8),
        starts_with(s, "friday"@) ==> reads_as_weekday(s, american, today, 5, 6),
        starts_with(s, "saturday"@) ==> reads_as_weekday(s, american, today, 6, 8),
        starts_with(s, "sunday"@) ==> reads_as_weekday(s, american, today, 7, 6),
{
    reveal_strlit("today");
    reveal_strlit("tomorrow");
    reveal_strlit("monday");
    reveal_strlit("tuesday");
    reveal_strlit("wednesday");
    reveal_strlit("thursday");
    reveal_strlit("friday");
    reveal_strlit("saturday");
    reveal_strlit("sunday");
    let words = seq!["today"@, "tomorrow"@, "monday"@, "tuesday"@, "wednesday"@, "thursday"@, "friday"@, "saturday"@, "sunday"@];
    assert forall|k: int| 1 <= k <= 7 && #[trigger] starts_with(s, weekday_name(k)) implies reads_as_weekday(
        s,
        american,
        today,
        k,
        weekday_name(k).len(),
    ) by {
        let a = weekday_name(k);
        assert(a == words[k + 1]);
        assert forall|j: int| 0 <= j < 9 && j != k + 1 implies !starts_with(s, #[trigger] words[j]) by {
            let b = words[j];
            if a[0] != b[0] {
                lemma_not_both(s, a, b, 0);
            } else if a[1] != b[1] {
                lemma_not_both(s, a, b, 1);
            } else {
                lemma_not_both(s, a, b, 2);
            }
        }
        assert(!starts_with(s, words[0]));
        assert(!starts_with(s, words[1]));
        assert(forall|j: int| 1 <= j < k ==> !starts_with(s, #[trigger] weekday_name(j))) by {
            assert forall|j: int| 1 <= j < k implies !starts_with(s, #[trigger] weekday_name(j)) by {
                assert(weekday_name(j) == words[j + 1]);
            }
        }
        assert(weekday_prefix(s) == Some((k, a.len())));
        lemma_days_until_weekday(today, k);
        let m = today.days() + days_until_weekday(today, k);
        assert(date_spec(s, american, today) == Some((date_of_days(m), a.len())));
    }
    assert(weekday_name(1) == "monday"@);
    assert(weekday_name(2) == "tuesday"@);
    assert(weekday_name(3) == "wednesday"@);
    assert(weekday_name(4) == "thursday"@);
    assert(weekday_name(5) == "friday"@);
    assert(weekday_name(6) == "saturday"@);
    assert(weekday_name(7) == "sunday"@);
}

/// Reads a date written with numbers at the start of `cs`; see `numeric_date_spec`.
pub fn numeric_date_prefix(cs: &[char], american: bool, year: i32) -> (r: Option<
    (NaiveDate, usize),
>)
    ensures
        match r {
            Some((d, n)) => numeric_date_spec(cs@, american, year) == Some((d, n as nat)) && n
                <= cs@.len(),
            None => numeric_date_spec(cs@, american, year) is None,
        },
{
    let _n = cs.len();
    let (a, k1) = match u32_prefix(cs, 0) {
        Some(x) => x,
        None => {
            return None;
        },
    };
    if !(k1 < cs.len() && cs[k1] == '/') {
        return None;
    }
    let (b, k2) = match u32_prefix(cs, k1 + 1) {
        Some(x) => x,
        None => {
            return None;
        },
    };
    let e2 = k1 + 1 + k2;
    let third = if e2 < cs.len() && cs[e2] == '/' {
        u32_prefix(cs, e2 + 1)
    } else {
        None
    };
    match third {
        None => {
            let r = if american {
                NaiveDate::from_ymd_opt(year, a, b)
            } else {
                NaiveDate::from_ymd_opt(year, b, a)
            };
            match r {
                Some(d) => Some((d, e2)),
                None => None,
            }
        },
        Some((c, k3)) => {
            let (y, m, dd) = if american {
                (a, b, c)
            } else {
                (c, b, a)
            };
            if y > i32::MAX as u32 {
                return None;
            }
            match NaiveDate::from_ymd_opt(y as i32, m, dd) {
                Some(d) => Some((d, e2 + 1 + k3)),
                None => None,
            }
        },
    }
}

/// Reads a due date at the start of `cs`; see `date_spec`.
pub fn date_prefix(cs: &[char], american: bool, today: NaiveDate) -> (r: Option<(NaiveDate, usize)>)
    requires
        today.valid(),
        today.days() + 7 <= max_day_number(),
    ensures
        match r {
            Some((d, n)) => date_spec(cs@, american, today) == Some((d, n as nat)) && n
                <= cs@.len() && d.valid(),
            None => date_spec(cs@, american, today) is None,
        },
{
    proof {
        reveal_strlit("today");
        reveal_strlit("tomorrow");
        reveal_strlit("monday");
        reveal_strlit("tuesday");
        reveal_strlit("wednesday");
        reveal_strlit("thursday");
        reveal_strlit("friday");
        reveal_strlit("saturday");
        reveal_strlit("sunday");
        lemma_valid_days_range(today);
    }
    if starts_with_at(cs, 0, "today") {
        return Some((today, 5));
    }
    if starts_with_at(cs, 0, "tomorrow") {
        let d = add_days(today, 1);
        proof {
            lemma_date_of_days(d);
        }
        return Some((d, 8));
    }
    let names = ["monday", "tuesday", "wednesday", "thursday", "friday", "saturday", "sunday"];
    let mut k: usize = 0;
    while k < 7
        invariant
            k <= 7,
            today.valid(),
            today.days() + 7 <= max_day_number(),
            crate::date::min_day_number() <= today.days(),
            names@ == seq!["monday", "tuesday", "wednesday", "thursday", "friday", "saturday", "sunday"],
            forall|j: int| 1 <= j <= k ==> !starts_with(cs@, #[trigger] weekday_name(j)),
            !starts_with(cs@, "today"@),
            !starts_with(cs@, "tomorrow"@),
        decreases 7 - k,
    {
        let name = names[k];
        assert(name@ == weekday_name(k + 1));
        if starts_with_at(cs, 0, name) {
            let w = number_from_monday(today);
            let wd = (k + 1) as u32;
            let ahead: u32 = 7 - ((w + 7 - wd) % 7);
            proof {
                assert((w + 7 - wd) % 7 == (w - wd) % 7) by {
                    vstd::arithmetic::div_mod::lemma_mod_add_multiples_vanish(w - wd, 7);
                }
            }
            let d = add_days(today, ahead as i64);
            let len = name.unicode_len();
            proof {
                lemma_date_of_days(d);
                assert(weekday_prefix(cs@) == Some(((k + 1) as int, weekday_name(k + 1).len())));
                assert(ahead == days_until_weekday(today, (k + 1) as int));
            }
            return Some((d, len));
        }
        k = k + 1;
    }
    assert(weekday_prefix(cs@) is None);
    let r = numeric_date_prefix(cs, american, today.year);
    proof {
        match r {
            Some((d, n)) => {
                assert(d.valid());
            },
            None => {},
        }
    }
    r
}

/// Reads `#<tag>` at the start of `input` and leaves the rest in `input`; on failure
/// `input` is left as it was.
pub fn parse_tag(input: &mut &str) -> (r: Result<Token, ParseError>)
    ensures
        match tag_spec(old(input)@) {
            Some((t, n)) => r matches Ok(tok) && tok@ == TokenView::Tag(t) && final(input)@
                == old(input)@.skip(n as int),
            None => r is Err && final(input)@ == old(input)@,
        },
{
    let cs = chars_of(*input);
    match tag_prefix(&cs) {
        Some((t, n)) => {
            advance(input, n);
            Ok(Token::Tag(t))
        },
        None => Err(ParseError),
    }
}

/// Reads `p<digits>` at the start of `input` and leaves the rest in `input`; on
/// failure `input` is left as it was.
pub fn parse_priority(input: &mut &str) -> (r: Result<Token, ParseError>)
    ensures
        match letter_number_spec(old(input)@, 'p') {
            Some((v, n)) => r == Ok::<Token, ParseError>(Token::Priority(v)) && final(input)@
                == old(input)@.skip(n as int),
            None => r is Err && final(input)@ == old(input)@,
        },
{
    let cs = chars_of(*input);
    match letter_number_prefix(&cs, 'p') {
        Some((v, n)) => {
            advance(input, n);
            Ok(Token::Priority(v))
        },
        None => Err(ParseError),
    }
}

/// Reads `c<digits>` at the start of `input` and leaves the rest in `input`; on
/// failure `input` is left as it was.
pub fn parse_completion(input: &mut &str) -> (r: Result<Token, ParseError>)
    ensures
        match letter_number_spec(old(input)@, 'c') {
            Some((v, n)) => r == Ok::<Token, ParseError>(Token::CompletionPercentage(v))
                && final(input)@ == old(input)@.skip(n as int),
            None => r is Err && final(input)@ == old(input)@,
        },
{
    let cs = chars_of(*input);
    match letter_number_prefix(&cs, 'c') {
        Some((v, n)) => {
            advance(input, n);
            Ok(Token::CompletionPercentage(v))
        },
        None => Err(ParseError),
    }
}

/// Reads `@today`, `@tod`, `@tdy` or `@t` at the start of `input` and leaves the rest
/// in `input`; on failure `input` is left as it was.
pub fn parse_today(input: &mut &str) -> (r: Result<Token, ParseError>)
    ensures
        match today_spec(old(input)@) {
            Some(n) => r == Ok::<Token, ParseError>(Token::TodayFlag) && final(input)@ == old(
                input,
            )@.skip(n as int),
            None => r is Err && final(input)@ == old(input)@,
        },
{
    let cs = chars_of(*input);
    match today_prefix(&cs) {
        Some(n) => {
            advance(input, n);
            Ok(Token::TodayFlag)
        },
        None => Err(ParseError),
    }
}

/// Reads `h:m` or `h:m:s` at the start of `input` and leaves the rest in `input`; on
/// failure `input` is left as it was.
pub fn parse_naive_time(input: &mut &str) -> (r: Result<Token, ParseError>)
    ensures
        match time_spec(old(input)@) {
            Some((t, n)) => r == Ok::<Token, ParseError>(Token::DueTime(t)) && final(input)@
                == old(input)@.skip(n as int),
            None => r is Err && final(input)@ == old(input)@,
        },
{
    let cs = chars_of(*input);
    match time_prefix(&cs) {
        Some((t, n)) => {
            advance(input, n);
            Ok(Token::DueTime(t))
        },
        None => Err(ParseError),
    }
}

/// Reads a due date at the start of `input` on `today` and leaves the rest in `input`;
/// on failure `input` is left as it was.
pub fn parse_naive_date(input: &mut &str, american: bool, today: NaiveDate) -> (r: Result<
    Token,
    ParseError,
>)
    requires
        today.valid(),
        today.days() + 7 <= max_day_number(),
    ensures
        match date_spec(old(input)@, american, today) {
            Some((d, n)) => r == Ok::<Token, ParseError>(Token::DueDate(d)) && final(input)@
                == old(input)@.skip(n as int),
            None => r is Err && final(input)@ == old(input)@,
        },
{
    let cs = chars_of(*input);
    match date_prefix(&cs, american, today) {
        Some((d, n)) => {
            advance(input, n);
            Ok(Token::DueDate(d))
        },
        None => Err(ParseError),
    }
}

} // verus!
