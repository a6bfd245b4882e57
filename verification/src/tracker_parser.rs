//! The two lines that open a tracker: `Tracker: <name> (<date> [<time>])`, then the
//! table header `| <frequency> | <category> | ... |`.
use vstd::prelude::*;
use crate::config::TasksConfig;
use crate::date::{max_day_number, now, Date, NaiveDate, NaiveDateTime};
use crate::parse_frequency::{blank_run, blank_run_end};
use crate::text::{advance, chars_of, is_whitespace, is_whitespace_exec, starts_with, starts_with_at, string_of, trim_end};
use crate::token::{date_spec, parse_naive_date, parse_naive_time, time_spec, ParseError, Token};
use crate::task::strings_view;
use crate::tracker::NewTracker;

verus! {

/// Length of the run of characters of `s` from `i` on that are neither `(` nor a
/// line break.
pub open spec fn name_run(s: Seq<char>, i: int) -> nat
    decreases s.len() - i,
{
    if 0 <= i < s.len() && s[i] != '(' && s[i] != '\n' {
        1 + name_run(s, i + 1)
    } else {
        0
    }
}

proof fn lemma_name_run(s: Seq<char>, i: int)
    requires
        0 <= i <= s.len(),
    ensures
        i + name_run(s, i) <= s.len(),
    decreases s.len() - i,
{
    if i < s.len() && s[i] != '(' && s[i] != '\n' {
        lemma_name_run(s, i + 1);
    }
}

/// Length of the run of whitespace of `s` from `i` on.
pub open spec fn space_run(s: Seq<char>, i: int) -> nat
    decreases s.len() - i,
{
    if 0 <= i < s.len() && is_whitespace(s[i]) {
        1 + space_run(s, i + 1)
    } else {
        0
    }
}

proof fn lemma_space_run(s: Seq<char>, i: int)
    requires
        0 <= i <= s.len(),
    ensures
        i + space_run(s, i) <= s.len(),
    decreases s.len() - i,
{
    if i < s.len() && is_whitespace(s[i]) {
        lemma_space_run(s, i + 1);
    }
}

/// `s` without its leading and trailing whitespace, as `str::trim` gives it.
pub open spec fn trim(s: Seq<char>) -> Seq<char> {
    trim_end(s.skip(space_run(s, 0) as int))
}

/// `s` without its leading and trailing whitespace.
pub fn trim_string(s: &String) -> (r: String)
    ensures
        r@ == trim(s@),
{
    let cs = chars_of(s.as_str());
    let mut a: usize = 0;
    while a < cs.len() && is_whitespace_exec(cs[a])
        invariant
            a <= cs@.len(),
            space_run(cs@, 0) == a + space_run(cs@, a as int),
        decreases cs@.len() - a,
    {
        a = a + 1;
    }
    let rest = string_of(&cs, a, cs.len());
    proof {
        assert(rest@ =~= s@.skip(space_run(s@, 0) as int));
    }
    crate::text::trim_end_string(&rest)
}

/// Whether `s` starts with `)`.
pub open spec fn closes(s: Seq<char>) -> bool {
    s.len() > 0 && s[0] == ')'
}

/// The start of a tracker written after `(`: a date, then, after spaces or tabs, a
/// time if one reads there, then `)`; the start and what follows the `)`.
pub open spec fn start_spec(s: Seq<char>, american: bool, today: NaiveDate) -> Option<(Date, Seq<char>)> {
    match date_spec(s, american, today) {
        None => None,
        Some((d, n)) => {
            let r = s.skip(n as int);
            let t_at = r.skip(blank_run(r, 0) as int);
            match time_spec(t_at) {
                Some((t, m)) => if closes(t_at.skip(m as int)) {
                    Some(
                        (
                            Date::DayTime(NaiveDateTime { date: d, time: t }),
                            t_at.skip(m as int).skip(1),
                        ),
                    )
                } else {
                    None
                },
                None => if closes(r) {
                    Some((Date::Day(d), r.skip(1)))
                } else {
                    None
                },
            }
        },
    }
}

/// The definition line of a tracker read on `today`: `Tracker:`, spaces or tabs, the
/// name up to `(` (trimmed), then the start as `start_spec` reads it; the name, the
/// start and what follows.
pub open spec fn definition_spec(s: Seq<char>, american: bool, today: NaiveDate) -> Option<
    (Seq<char>, Date, Seq<char>),
> {
    if !starts_with(s, "Tracker:"@) {
        None
    } else {
        let i: int = 8 + blank_run(s, 8) as int;
        let p: int = i + name_run(s, i) as int;
        if p < s.len() && s[p] == '(' {
            match start_spec(s.skip(p + 1), american, today) {
                Some((d, rest)) => Some((trim(s.subrange(i, p)), d, rest)),
                None => None,
            }
        } else {
            None
        }
    }
}

/// Whether the text `s` starts with `)`.
fn closes_exec(s: &str) -> (r: bool)
    ensures
        r == closes(s@),
{
    let cs = chars_of(s);
    cs.len() > 0 && cs[0] == ')'
}

/// Reads the start of a tracker after `(`; see `start_spec`. On failure `input` is
/// left as it was.
fn parse_start(input: &mut &str, american: bool, today: NaiveDate) -> (r: Result<Date, ParseError>)
    requires
        today.valid(),
        today.days() + 7 <= max_day_number(),
    ensures
        match start_spec(old(input)@, american, today) {
            Some((d, rest)) => r == Ok::<Date, ParseError>(d) && final(input)@ == rest,
            None => r is Err && final(input)@ == old(input)@,
        },
{
    let mut rest: &str = *input;
    let d = match parse_naive_date(&mut rest, american, today) {
        Ok(Token::DueDate(d)) => d,
        _ => return Err(ParseError),
    };
    let rcs = chars_of(rest);
    let b = blank_run_end(&rcs, 0);
    let mut at_time: &str = rest;
    advance(&mut at_time, b);
    match parse_naive_time(&mut at_time) {
        Ok(Token::DueTime(t)) => {
            if closes_exec(at_time) {
                advance(&mut at_time, 1);
                *input = at_time;
                Ok(Date::DayTime(NaiveDateTime { date: d, time: t }))
            } else {
                Err(ParseError)
            }
        },
        _ => {
            if closes_exec(rest) {
                advance(&mut rest, 1);
                *input = rest;
                Ok(Date::Day(d))
            } else {
                Err(ParseError)
            }
        },
    }
}

/// Reads the definition line of a tracker on `today` and leaves the rest in `input`;
/// see `definition_spec`. On failure `input` is left as it was.
pub fn parse_tracker_definition_at(input: &mut &str, config: &TasksConfig, today: NaiveDate) -> (r:
    Result<NewTracker, ParseError>)
    requires
        today.valid(),
        today.days() + 7 <= max_day_number(),
    ensures
        match definition_spec(old(input)@, config.use_american_format, today) {
            Some((name, start, rest)) => r matches Ok(t) && t.name@ == name && t.start_date
                == start && final(input)@ == rest,
            None => r is Err && final(input)@ == old(input)@,
        },
{
    let cs = chars_of(*input);
    if !starts_with_at(&cs, 0, "Tracker:") {
        proof {
            reveal_strlit("Tracker:");
        }
        return Err(ParseError);
    }
    proof {
        reveal_strlit("Tracker:");
    }
    let i = blank_run_end(&cs, 8);
    let mut p = i;
    while p < cs.len() && cs[p] != '(' && cs[p] != '\n'
        invariant
            i <= p <= cs@.len(),
            name_run(cs@, i as int) == (p - i) + name_run(cs@, p as int),
        decreases cs@.len() - p,
    {
        p = p + 1;
    }
    if p >= cs.len() || cs[p] != '(' {
        return Err(ParseError);
    }
    let raw = string_of(&cs, i, p);
    let name = trim_string(&raw);
    let mut rest: &str = *input;
    advance(&mut rest, p + 1);
    match parse_start(&mut rest, config.use_american_format, today) {
        Ok(start) => {
            *input = rest;
            Ok(NewTracker::new(name, start))
        },
        Err(e) => Err(e),
    }
}

/// Reads the definition line of a tracker on the day of the system clock; see
/// `definition_spec`. Fails in the last week that dates express, where a weekday
/// could not be placed.
pub fn parse_tracker_definition(input: &mut &str, config: &TasksConfig) -> (r: Result<
    NewTracker,
    ParseError,
>)
    ensures
        r is Err ==> final(input)@ == old(input)@ && exists|today: NaiveDate|
            today.valid() && (definition_spec(old(input)@, config.use_american_format, today) is None
                || (today.year == crate::date::MAX_YEAR && today.month == 12 && today.day > 24)),
        r matches Ok(t) ==> exists|today: NaiveDate|
            today.valid() && definition_spec(old(input)@, config.use_american_format, today)
                == Some((t.name@, t.start_date, final(input)@)),
{
    let today = now().date;
    if crate::file_parser::week_left(today) {
        parse_tracker_definition_at(input, config, today)
    } else {
        Err(ParseError)
    }
}

/// The blanks of a suffix are the blanks of the text at that point.
proof fn lemma_blank_run_skip(s: Seq<char>, i: int, m: int)
    requires
        0 <= i <= s.len(),
        0 <= m,
    ensures
        blank_run(s.skip(i), m) == blank_run(s, i + m),
    decreases s.len() - i - m,
{
    if i + m < s.len() && crate::parse_frequency::is_blank(s[i + m]) {
        lemma_blank_run_skip(s, i, m + 1);
    }
}

/// The characters of one category at the start of `x`: each character that is no `|`,
/// with the spaces and tabs around it left out; the characters, and what follows
/// them. Nothing is read when no such character comes.
pub open spec fn cat_items(x: Seq<char>) -> (Seq<char>, Seq<char>)
    decreases x.len(),
{
    let y = x.skip(blank_run(x, 0) as int);
    if y.len() == 0 || y[0] == '|' {
        (seq![], x)
    } else {
        let z = y.skip(1);
        let w = z.skip(blank_run(z, 0) as int);
        proof {
            crate::file_parser::lemma_blank_run(x, 0);
            crate::file_parser::lemma_blank_run(z, 0);
        }
        let (cs, rest) = cat_items(w);
        (seq![y[0]] + cs, rest)
    }
}

pub proof fn lemma_cat_items(x: Seq<char>)
    ensures
        cat_items(x).1.len() <= x.len(),
        cat_items(x).0.len() > 0 ==> cat_items(x).1.len() < x.len(),
    decreases x.len(),
{
    let y = x.skip(blank_run(x, 0) as int);
    crate::file_parser::lemma_blank_run(x, 0);
    if !(y.len() == 0 || y[0] == '|') {
        let z = y.skip(1);
        crate::file_parser::lemma_blank_run(z, 0);
        let w = z.skip(blank_run(z, 0) as int);
        lemma_cat_items(w);
    }
}

/// The categories after the first: each is `|` and a category, until no category
/// follows a `|`; the categories, and what follows them.
pub open spec fn more_categories(y: Seq<char>) -> (Seq<Seq<char>>, Seq<char>)
    decreases y.len(),
{
    if y.len() > 0 && y[0] == '|' {
        let (c, rest) = cat_items(y.skip(1));
        if c.len() == 0 {
            (seq![], y)
        } else {
            proof {
                lemma_cat_items(y.skip(1));
            }
            let (cs, r2) = more_categories(rest);
            (seq![c] + cs, r2)
        }
    } else {
        (seq![], y)
    }
}

/// The categories separated by `|` at the start of `x`, and what follows them.
pub open spec fn categories_spec(x: Seq<char>) -> (Seq<Seq<char>>, Seq<char>) {
    let (c, rest) = cat_items(x);
    if c.len() == 0 {
        (seq![], x)
    } else {
        let (cs, r2) = more_categories(rest);
        (seq![c] + cs, r2)
    }
}

/// The table header of a tracker: `|`, the frequency between spaces or tabs, `|`, and
/// the categories; the last category read is dropped. The frequency, the categories
/// and what follows.
pub open spec fn header_spec(s: Seq<char>) -> Option<(crate::frequency::Frequency, Seq<Seq<char>>, Seq<char>)> {
    if s.len() > 0 && s[0] == '|' {
        let r1 = s.skip(1);
        let a = r1.skip(blank_run(r1, 0) as int);
        match crate::parse_frequency::frequency_spec(a) {
            None => None,
            Some((f, n)) => {
                let r2 = a.skip(n as int);
                let r3 = r2.skip(blank_run(r2, 0) as int);
                if r3.len() > 0 && r3[0] == '|' {
                    let (cats, rest) = categories_spec(r3.skip(1));
                    Some(
                        (
                            f,
                            if cats.len() > 0 {
                                cats.drop_last()
                            } else {
                                cats
                            },
                            rest,
                        ),
                    )
                } else {
                    None
                }
            },
        }
    } else {
        None
    }
}

/// Reads one category at `cs[j..]`; see `cat_items`. Gives its characters and where
/// what follows them starts.
fn read_category(cs: &[char], j: usize) -> (r: (String, usize))
    requires
        j <= cs@.len(),
    ensures
        r.0@ == cat_items(cs@.skip(j as int)).0,
        cs@.skip(r.1 as int) == cat_items(cs@.skip(j as int)).1,
        j <= r.1 <= cs@.len(),
        r.0@.len() == 0 ==> r.1 == j,
{
    let mut s = String::new();
    let mut k = j;
    loop
        invariant
            j <= k <= cs@.len(),
            cat_items(cs@.skip(j as int)) == (s@ + cat_items(cs@.skip(k as int)).0, cat_items(
                cs@.skip(k as int),
            ).1),
            s@.len() == 0 ==> k == j,
        decreases cs@.len() - k,
    {
        let b = blank_run_end(cs, k);
        proof {
            lemma_blank_run_skip(cs@, k as int, 0);
            assert(cs@.skip(k as int).skip(blank_run(cs@.skip(k as int), 0) as int) =~= cs@.skip(
                b as int,
            ));
        }
        if b >= cs.len() || cs[b] == '|' {
            proof {
                assert(s@ + Seq::<char>::empty() =~= s@);
            }
            return (s, k);
        }
        let ghost before = s@;
        crate::text::push_char(&mut s, cs[b]);
        let w = blank_run_end(cs, b + 1);
        proof {
            lemma_blank_run_skip(cs@, b + 1, 0);
            let z = cs@.skip(b as int).skip(1);
            assert(z =~= cs@.skip(b + 1));
            assert(z.skip(blank_run(z, 0) as int) =~= cs@.skip(w as int));
            assert(cs@.skip(b as int)[0] == cs@[b as int]);
            assert(before + (seq![cs@[b as int]] + cat_items(cs@.skip(w as int)).0) =~= s@
                + cat_items(cs@.skip(w as int)).0);
        }
        k = w;
    }
}

/// Reads the categories separated by `|` at `cs[j..]`; see `categories_spec`. Gives
/// them and where what follows them starts.
fn read_categories(cs: &[char], j: usize) -> (r: (Vec<String>, usize))
    requires
        j <= cs@.len(),
    ensures
        strings_view(r.0@) == categories_spec(cs@.skip(j as int)).0,
        cs@.skip(r.1 as int) == categories_spec(cs@.skip(j as int)).1,
        r.1 <= cs@.len(),
{
    let (c, k) = read_category(cs, j);
    if c.as_str().unicode_len() == 0 {
        let none: Vec<String> = Vec::new();
        proof {
            assert(strings_view(none@) =~= Seq::<Seq<char>>::empty());
        }
        return (none, j);
    }
    let mut out: Vec<String> = Vec::new();
    out.push(c);
    let mut pos = k;
    proof {
        assert(strings_view(out@) =~= seq![c@]);
    }
    loop
        invariant
            pos <= cs@.len(),
            categories_spec(cs@.skip(j as int)) == (strings_view(out@) + more_categories(
                cs@.skip(pos as int),
            ).0, more_categories(cs@.skip(pos as int)).1),
        decreases cs@.len() - pos,
    {
        let ghost y = cs@.skip(pos as int);
        if pos < cs.len() && cs[pos] == '|' {
            let (c2, k2) = read_category(cs, pos + 1);
            proof {
                assert(y.skip(1) =~= cs@.skip(pos + 1));
                assert(y[0] == cs@[pos as int]);
            }
            if c2.as_str().unicode_len() == 0 {
                proof {
                    assert(strings_view(out@) + Seq::<Seq<char>>::empty() =~= strings_view(out@));
                }
                return (out, pos);
            }
            let ghost before = strings_view(out@);
            out.push(c2);
            proof {
                assert(strings_view(out@) =~= before.push(c2@));
                assert(before + (seq![c2@] + more_categories(cs@.skip(k2 as int)).0) =~= strings_view(
                    out@,
                ) + more_categories(cs@.skip(k2 as int)).0);
            }
            pos = k2;
        } else {
            proof {
                assert(strings_view(out@) + Seq::<Seq<char>>::empty() =~= strings_view(out@));
            }
            return (out, pos);
        }
    }
}

/// Reads the table header of the tracker `new_tracker`, found at line `line_number`
/// of the file `filename`, and leaves the rest in `input`; see `header_spec`. The
/// tracker has no entry yet. On failure `input` is left as it was.
pub fn parse_header(
    new_tracker: NewTracker,
    filename: String,
    line_number: usize,
    input: &mut &str,
) -> (r: Result<crate::tracker::Tracker, ParseError>)
    ensures
        match header_spec(old(input)@) {
            Some((f, cats, rest)) => r matches Ok(t) && t@.name == new_tracker.name@
                && t@.filename == filename@ && t.line_number == line_number && t.frequency == f
                && t.length == 0 && t@.categories.len() == cats.len() && (forall|i: int|
                0 <= i < cats.len() ==> (#[trigger] t@.categories[i]).name == cats[i]
                    && t@.categories[i].entries.len() == 0) && final(input)@ == rest,
            None => r is Err && final(input)@ == old(input)@,
        },
{
    let cs = chars_of(*input);
    if !(cs.len() > 0 && cs[0] == '|') {
        return Err(ParseError);
    }
    let a = blank_run_end(&cs, 1);
    let mut at_freq: &str = *input;
    advance(&mut at_freq, a);
    proof {
        lemma_blank_run_skip(cs@, 1, 0);
        assert(cs@.skip(1).skip(blank_run(cs@.skip(1), 0) as int) =~= cs@.skip(a as int));
    }
    let f = match crate::parse_frequency::parse_frequency(&mut at_freq) {
        Ok(f) => f,
        Err(e) => return Err(e),
    };
    let ghost n: int = crate::parse_frequency::frequency_spec(cs@.skip(a as int))->Some_0.1 as int;
    let e = cs.len() - at_freq.unicode_len();
    proof {
        assert(e == a + n);
        assert(cs@.skip(a as int).skip(n) =~= cs@.skip(e as int));
    }
    let b = blank_run_end(&cs, e);
    proof {
        lemma_blank_run_skip(cs@, e as int, 0);
        assert(cs@.skip(e as int).skip(blank_run(cs@.skip(e as int), 0) as int) =~= cs@.skip(
            b as int,
        ));
    }
    if !(b < cs.len() && cs[b] == '|') {
        proof {
            assert(b < cs@.len() ==> cs@.skip(b as int)[0] == cs@[b as int]);
        }
        return Err(ParseError);
    }
    let (mut cats, end) = read_categories(&cs, b + 1);
    proof {
        assert(cs@.skip(b as int).skip(1) =~= cs@.skip(b + 1));
        assert(cs@.skip(b as int)[0] == cs@[b as int]);
    }
    let ghost read = strings_view(cats@);
    if cats.len() > 0 {
        let _ = cats.pop();
        proof {
            assert(strings_view(cats@) =~= read.drop_last());
        }
    }
    let mut rest: &str = *input;
    advance(&mut rest, end);
    *input = rest;
    Ok(new_tracker.to_tracker(filename, line_number, f, cats))
}

} // verus!
