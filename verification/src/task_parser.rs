//! The task line: `- [c] ` and then words. Each word is a due date, a due time, a tag,
//! a priority, a completion, the today flag, or a word of the name.
use vstd::prelude::*;
use crate::config::{TaskMarkerConfig, TasksConfig};
use crate::date::{max_day_number, now, Date, NaiveDate, NaiveDateTime, NaiveTime};
use crate::task::{State, Task, TaskView, strings_view, task_view, tasks_view};
use crate::text::{advance, chars_of, join, push_char, push_str, string_of};
use crate::token::{
    date_prefix, date_spec, letter_number_prefix, letter_number_spec, tag_prefix, tag_spec,
    time_prefix, time_spec, today_prefix, today_spec, ParseError, Token, TokenView,
};

verus! {

/// The state written between the brackets, under the markers `m`: a character that is
/// no marker of another state marks the task done.
pub open spec fn state_of(c: char, m: TaskMarkerConfig) -> State {
    if c == m.todo {
        State::ToDo
    } else if c == m.done {
        State::Done
    } else if c == m.incomplete {
        State::Incomplete
    } else if c == m.canceled {
        State::Canceled
    } else {
        State::Done
    }
}

/// `- [c]` at the start of `s`: the state and the characters read.
pub open spec fn state_spec(s: Seq<char>, m: TaskMarkerConfig) -> Option<(State, nat)> {
    if s.len() >= 5 && s[0] == '-' && s[1] == ' ' && s[2] == '[' && s[4] == ']' {
        Some((state_of(s[3], m), 5))
    } else {
        None
    }
}

/// Whitespace as `split_ascii_whitespace` of std sees it.
pub open spec fn is_ascii_space(c: char) -> bool {
    c == ' ' || c == '\t' || c == '\n' || c == '\x0C' || c == '\r'
}

/// Length of the run of non-whitespace characters of `s` from `i` on.
pub open spec fn word_run(s: Seq<char>, i: int) -> nat
    decreases s.len() - i,
{
    if 0 <= i < s.len() && !is_ascii_space(s[i]) {
        1 + word_run(s, i + 1)
    } else {
        0
    }
}

pub proof fn lemma_word_run(s: Seq<char>, i: int)
    requires
        0 <= i <= s.len(),
    ensures
        i + word_run(s, i) <= s.len(),
    decreases s.len() - i,
{
    if i < s.len() && !is_ascii_space(s[i]) {
        lemma_word_run(s, i + 1);
    }
}

pub proof fn lemma_word_run_skip(s: Seq<char>, i: int, m: int)
    requires
        0 <= i <= s.len(),
        0 <= m,
    ensures
        word_run(s.skip(i), m) == word_run(s, i + m),
    decreases s.len() - i - m,
{
    if i + m < s.len() && !is_ascii_space(s[i + m]) {
        lemma_word_run_skip(s, i, m + 1);
    }
}

/// The words of `s`, as `split_ascii_whitespace` of std gives them.
pub open spec fn split_words(s: Seq<char>) -> Seq<Seq<char>>
    decreases s.len(),
{
    if s.len() == 0 {
        seq![]
    } else if is_ascii_space(s[0]) {
        split_words(s.drop_first())
    } else {
        let k = word_run(s, 0);
        proof {
            lemma_word_run(s, 0);
        }
        seq![s.take(k as int)] + split_words(s.skip(k as int))
    }
}

/// What a word of a task line says. A word that one reader reads only in part says
/// nothing; a word that no reader reads is a word of the name.
pub open spec fn word_token(w: Seq<char>, american: bool, today: NaiveDate) -> Option<TokenView> {
    match date_spec(w, american, today) {
        Some((d, n)) => if n == w.len() {
            Some(TokenView::DueDate(d))
        } else {
            None
        },
        None => match time_spec(w) {
            Some((t, n)) => if n == w.len() {
                Some(TokenView::DueTime(t))
            } else {
                None
            },
            None => match tag_spec(w) {
                Some((t, n)) => if n == w.len() {
                    Some(TokenView::Tag(t))
                } else {
                    None
                },
                None => match letter_number_spec(w, 'p') {
                    Some((p, n)) => if n == w.len() {
                        Some(TokenView::Priority(p))
                    } else {
                        None
                    },
                    None => match letter_number_spec(w, 'c') {
                        Some((c, n)) => if n == w.len() {
                            Some(TokenView::CompletionPercentage(c))
                        } else {
                            None
                        },
                        None => match today_spec(w) {
                            Some(n) => if n == w.len() {
                                Some(TokenView::TodayFlag)
                            } else {
                                None
                            },
                            None => Some(TokenView::Name(w)),
                        },
                    },
                },
            },
        },
    }
}

/// What the words of a task line have said so far.
pub struct TaskWords {
    pub names: Seq<Seq<char>>,
    pub priority: usize,
    pub completion: Option<usize>,
    pub tags: Option<Seq<Seq<char>>>,
    pub is_today: bool,
    pub date: Option<NaiveDate>,
    pub time: Option<NaiveTime>,
}

pub open spec fn no_words() -> TaskWords {
    TaskWords {
        names: seq![],
        priority: 0,
        completion: None,
        tags: None,
        is_today: false,
        date: None,
        time: None,
    }
}

/// The effect of one more word: the last date, time, priority and completion win,
/// tags and name words add up.
pub open spec fn read_word(acc: TaskWords, t: Option<TokenView>) -> TaskWords {
    match t {
        None => acc,
        Some(TokenView::DueDate(d)) => TaskWords { date: Some(d), ..acc },
        Some(TokenView::DueTime(t)) => TaskWords { time: Some(t), ..acc },
        Some(TokenView::Name(w)) => TaskWords { names: acc.names.push(w), ..acc },
        Some(TokenView::Priority(p)) => TaskWords { priority: p, ..acc },
        Some(TokenView::Tag(g)) => TaskWords {
            tags: match acc.tags {
                Some(ts) => Some(ts.push(g)),
                None => Some(seq![g]),
            },
            ..acc
        },
        Some(TokenView::State(_)) => acc,
        Some(TokenView::TodayFlag) => TaskWords { is_today: true, ..acc },
        Some(TokenView::CompletionPercentage(c)) => TaskWords { completion: Some(c), ..acc },
    }
}

/// What the words `ws` say, read in order.
pub open spec fn read_words(ws: Seq<Seq<char>>, american: bool, today: NaiveDate) -> TaskWords
    decreases ws.len(),
{
    if ws.len() == 0 {
        no_words()
    } else {
        read_word(read_words(ws.drop_last(), american, today), word_token(ws.last(), american, today))
    }
}

/// The due date of a task line: none without date and time; a time without a date is
/// on `today`.
pub open spec fn due_of(date: Option<NaiveDate>, time: Option<NaiveTime>, today: NaiveDate) -> Option<Date> {
    match time {
        None => match date {
            None => None,
            Some(d) => Some(Date::Day(d)),
        },
        Some(t) => Some(
            Date::DayTime(
                NaiveDateTime {
                    date: match date {
                        Some(d) => d,
                        None => today,
                    },
                    time: t,
                },
            ),
        ),
    }
}

/// The task that the line `s` of file `filename` writes, read on `today`.
pub open spec fn parse_task_spec(
    s: Seq<char>,
    filename: Seq<char>,
    config: TasksConfig,
    today: NaiveDate,
) -> Option<TaskView> {
    match state_spec(s, config.task_state_markers) {
        None => None,
        Some((state, n)) => {
            let w = read_words(split_words(s.skip(n as int)), config.use_american_format, today);
            Some(
                TaskView {
                    subtasks: seq![],
                    description: None,
                    due_date: due_of(w.date, w.time, today),
                    filename,
                    line_number: Some(1usize),
                    name: join(w.names, " "@),
                    priority: w.priority,
                    completion: w.completion,
                    state,
                    tags: w.tags,
                    is_today: w.is_today,
                },
            )
        },
    }
}

/// Reads `- [c]` at the start of `cs` under the markers `m`.
pub fn state_prefix(cs: &[char], m: &TaskMarkerConfig) -> (r: Option<(State, usize)>)
    ensures
        match r {
            Some((st, n)) => state_spec(cs@, *m) == Some((st, n as nat)) && n <= cs@.len(),
            None => state_spec(cs@, *m) is None,
        },
{
    if cs.len() >= 5 && cs[0] == '-' && cs[1] == ' ' && cs[2] == '[' && cs[4] == ']' {
        let c = cs[3];
        let st = if c == m.todo {
            State::ToDo
        } else if c == m.done {
            State::Done
        } else if c == m.incomplete {
            State::Incomplete
        } else if c == m.canceled {
            State::Canceled
        } else {
            State::Done
        };
        Some((st, 5))
    } else {
        None
    }
}

/// Reads the state of a task line under the markers `markers` and leaves the rest
/// in `input`; on failure `input` is left as it was.
pub fn parse_task_state_with(input: &mut &str, markers: &TaskMarkerConfig) -> (r: Result<
    Token,
    ParseError,
>)
    ensures
        match state_spec(old(input)@, *markers) {
            Some((st, n)) => r == Ok::<Token, ParseError>(Token::State(st)) && final(input)@
                == old(input)@.skip(n as int),
            None => r is Err && final(input)@ == old(input)@,
        },
{
    let cs = chars_of(*input);
    match state_prefix(&cs, markers) {
        Some((st, n)) => {
            advance(input, n);
            Ok(Token::State(st))
        },
        None => Err(ParseError),
    }
}

/// Reads the state of a task line under the default markers: ` ` to do, `x` done,
/// `/` incomplete, `-` canceled, any other character done.
pub fn parse_task_state(input: &mut &str) -> (r: Result<Token, ParseError>)
    ensures
        match state_spec(
            old(input)@,
            TaskMarkerConfig { done: 'x', todo: ' ', incomplete: '/', canceled: '-' },
        ) {
            Some((st, n)) => r == Ok::<Token, ParseError>(Token::State(st)) && final(input)@
                == old(input)@.skip(n as int),
            None => r is Err && final(input)@ == old(input)@,
        },
{
    let markers = TaskMarkerConfig::default();
    parse_task_state_with(input, &markers)
}

/// What the word `cs` says; see `word_token`.
pub fn parse_token(cs: &[char], american: bool, today: NaiveDate) -> (r: Option<Token>)
    requires
        today.valid(),
        today.days() + 7 <= max_day_number(),
    ensures
        match r {
            Some(t) => word_token(cs@, american, today) == Some(t@),
            None => word_token(cs@, american, today) is None,
        },
{
    let len = cs.len();
    if let Some((d, n)) = date_prefix(cs, american, today) {
        return if n == len {
            Some(Token::DueDate(d))
        } else {
            None
        };
    }
    if let Some((t, n)) = time_prefix(cs) {
        return if n == len {
            Some(Token::DueTime(t))
        } else {
            None
        };
    }
    if let Some((g, n)) = tag_prefix(cs) {
        return if n == len {
            Some(Token::Tag(g))
        } else {
            None
        };
    }
    if let Some((p, n)) = letter_number_prefix(cs, 'p') {
        return if n == len {
            Some(Token::Priority(p))
        } else {
            None
        };
    }
    if let Some((c, n)) = letter_number_prefix(cs, 'c') {
        return if n == len {
            Some(Token::CompletionPercentage(c))
        } else {
            None
        };
    }
    if let Some(n) = today_prefix(cs) {
        return if n == len {
            Some(Token::TodayFlag)
        } else {
            None
        };
    }
    let name = string_of(cs, 0, len);
    assert(name@ =~= cs@);
    Some(Token::Name(name))
}

/// Joins the strings `parts`, with `sep` between two of them.
pub fn join_strings(parts: &Vec<String>, sep: &str) -> (r: String)
    ensures
        r@ == join(strings_view(parts@), sep@),
{
    let mut s = String::new();
    let mut i: usize = 0;
    while i < parts.len()
        invariant
            i <= parts@.len(),
            s@ == join(strings_view(parts@.take(i as int)), sep@),
        decreases parts@.len() - i,
    {
        let ghost before = strings_view(parts@.take(i as int));
        let ghost after = strings_view(parts@.take(i + 1));
        assert(after.drop_last() =~= before);
        assert(after.len() == i + 1);
        assert(after.last() == parts@[i as int]@);
        if i > 0 {
            push_str(&mut s, sep);
        }
        push_str(&mut s, parts[i].as_str());
        proof {
            if i == 0 {
                assert(s@ =~= after[0]);
            } else {
                assert(s@ =~= join(before, sep@) + sep@ + after.last());
            }
        }
        i = i + 1;
    }
    assert(parts@.take(i as int) =~= parts@);
    s
}

/// The characters `cs[from..to]`.
pub fn chars_range(cs: &[char], from: usize, to: usize) -> (r: Vec<char>)
    requires
        from <= to <= cs@.len(),
    ensures
        r@ == cs@.subrange(from as int, to as int),
{
    let mut v: Vec<char> = Vec::new();
    let mut i = from;
    while i < to
        invariant
            from <= i <= to <= cs@.len(),
            v@ == cs@.subrange(from as int, i as int),
        decreases to - i,
    {
        v.push(cs[i]);
        i = i + 1;
        assert(v@ =~= cs@.subrange(from as int, i as int));
    }
    v
}

/// End of the run of non-whitespace characters of `cs` from `i` on.
fn word_end(cs: &[char], i: usize) -> (r: usize)
    requires
        i <= cs@.len(),
    ensures
        r == i + word_run(cs@, i as int),
        r <= cs@.len(),
{
    let mut j = i;
    while j < cs.len() && !(cs[j] == ' ' || cs[j] == '\t' || cs[j] == '\n' || cs[j] == '\x0C'
        || cs[j] == '\r')
        invariant
            i <= j <= cs@.len(),
            word_run(cs@, i as int) == (j - i) + word_run(cs@, j as int),
        decreases cs@.len() - j,
    {
        j = j + 1;
    }
    j
}

/// The due date of a task line; see `due_of`.
fn due_date_of(date: Option<NaiveDate>, time: Option<NaiveTime>, today: NaiveDate) -> (r: Option<Date>)
    ensures
        r == due_of(date, time, today),
{
    match time {
        None => match date {
            None => None,
            Some(d) => Some(Date::Day(d)),
        },
        Some(t) => {
            let d = match date {
                Some(d) => d,
                None => today,
            };
            Some(Date::DayTime(NaiveDateTime { date: d, time: t }))
        },
    }
}

/// Reads the task line `input` of the file `filename` on `today`; see
/// `parse_task_spec`. Fails when the line does not start with `- [c]`.
pub fn parse_task_at(input: &str, filename: String, config: &TasksConfig, today: NaiveDate) -> (r:
    Result<Task, ParseError>)
    requires
        today.valid(),
        today.days() + 7 <= max_day_number(),
    ensures
        match parse_task_spec(input@, filename@, *config, today) {
            Some(t) => r matches Ok(task) && task@ == t,
            None => r is Err,
        },
{
    let cs = chars_of(input);
    parse_task_chars(&cs, filename, config, today)
}

/// Reads the task line made of the characters `cs`; see `parse_task_at`.
pub fn parse_task_chars(cs: &[char], filename: String, config: &TasksConfig, today: NaiveDate) -> (r:
    Result<Task, ParseError>)
    requires
        today.valid(),
        today.days() + 7 <= max_day_number(),
    ensures
        match parse_task_spec(cs@, filename@, *config, today) {
            Some(t) => r matches Ok(task) && task@ == t,
            None => r is Err,
        },
{
    let (state, start) = match state_prefix(cs, &config.task_state_markers) {
        Some(x) => x,
        None => {
            return Err(ParseError);
        },
    };
    let american = config.use_american_format;
    let mut names: Vec<String> = Vec::new();
    let mut priority: usize = 0;
    let mut completion: Option<usize> = None;
    let mut tags: Option<Vec<String>> = None;
    let mut is_today = false;
    let mut date: Option<NaiveDate> = None;
    let mut time: Option<NaiveTime> = None;
    let ghost rest = cs@.skip(start as int);
    let ghost mut done: Seq<Seq<char>> = seq![];
    let mut i = start;
    while i < cs.len()
        invariant
            start <= i <= cs@.len(),
            rest == cs@.skip(start as int),
            done + split_words(cs@.skip(i as int)) == split_words(rest),
            today.valid(),
            today.days() + 7 <= max_day_number(),
            american == config.use_american_format,
            strings_view(names@) == read_words(done, american, today).names,
            priority == read_words(done, american, today).priority,
            completion == read_words(done, american, today).completion,
            crate::task::tags_view(tags) == read_words(done, american, today).tags,
            is_today == read_words(done, american, today).is_today,
            date == read_words(done, american, today).date,
            time == read_words(done, american, today).time,
        decreases cs@.len() - i,
    {
        let c = cs[i];
        if c == ' ' || c == '\t' || c == '\n' || c == '\x0C' || c == '\r' {
            proof {
                assert(cs@.skip(i as int).drop_first() =~= cs@.skip(i + 1));
            }
            i = i + 1;
        } else {
            let j = word_end(cs, i);
            let w = chars_range(cs, i, j);
            let tok = parse_token(&w, american, today);
            proof {
                let sk = cs@.skip(i as int);
                lemma_word_run_skip(cs@, i as int, 0);
                assert(word_run(sk, 0) == j - i);
                assert(sk.take((j - i) as int) =~= w@);
                assert(sk.skip((j - i) as int) =~= cs@.skip(j as int));
                assert(split_words(sk) == seq![w@] + split_words(cs@.skip(j as int)));
                assert(done.push(w@) + split_words(cs@.skip(j as int)) =~= done + split_words(sk));
                assert(done.push(w@).drop_last() =~= done);
            }
            let ghost before = read_words(done, american, today);
            match tok {
                None => {},
                Some(Token::DueDate(d)) => {
                    date = Some(d);
                },
                Some(Token::DueTime(t)) => {
                    time = Some(t);
                },
                Some(Token::Name(n)) => {
                    let ghost old_names = names@;
                    names.push(n);
                    proof {
                        assert(strings_view(names@) =~= strings_view(old_names).push(n@));
                    }
                },
                Some(Token::Priority(p)) => {
                    priority = p;
                },
                Some(Token::Tag(g)) => {
                    tags = match tags {
                        Some(mut ts) => {
                            let ghost old_ts = ts@;
                            ts.push(g);
                            proof {
                                assert(strings_view(ts@) =~= strings_view(old_ts).push(g@));
                            }
                            Some(ts)
                        },
                        None => {
                            let mut ts: Vec<String> = Vec::new();
                            ts.push(g);
                            proof {
                                assert(strings_view(ts@) =~= seq![g@]);
                            }
                            Some(ts)
                        },
                    };
                },
                Some(Token::State(_)) => {},
                Some(Token::TodayFlag) => {
                    is_today = true;
                },
                Some(Token::CompletionPercentage(p)) => {
                    completion = Some(p);
                },
            }
            proof {
                done = done.push(w@);
            }
            i = j;
        }
    }
    proof {
        assert(cs@.skip(i as int).len() == 0);
        assert(done + split_words(cs@.skip(i as int)) =~= done);
    }
    let name = join_strings(&names, " ");
    let due_date = due_date_of(date, time, today);
    let task = Task {
        subtasks: Vec::new(),
        description: None,
        due_date,
        filename,
        line_number: Some(1),
        name,
        priority,
        completion,
        state,
        tags,
        is_today,
    };
    proof {
        assert(tasks_view(task.subtasks@) =~= seq![]);
    }
    Ok(task)
}

/// Reads the task line `input` of the file `filename` on the day of the system clock;
/// see `parse_task_spec`. Fails when the line does not start with `- [c]`, and in the
/// last week that dates can express, where a weekday could not be placed.
pub fn parse_task(input: &str, filename: String, config: &TasksConfig) -> (r: Result<
    Task,
    ParseError,
>)
    ensures
        state_spec(input@, config.task_state_markers) is None ==> r is Err,
        r matches Ok(task) ==> exists|today: NaiveDate|
            today.valid() && parse_task_spec(input@, filename@, *config, today) == Some(task@),
        r is Err ==> exists|today: NaiveDate|
            today.valid() && (parse_task_spec(input@, filename@, *config, today) is None || (
            today.year == crate::date::MAX_YEAR && today.month == 12 && today.day > 24)),
{
    let today = now().date;
    proof {
        crate::date::lemma_valid_days_range(today);
    }
    if today.year >= crate::date::MAX_YEAR && today.month == 12 && today.day > 24 {
        return Err(ParseError);
    }
    let r = parse_task_at(input, filename, config, today);
    r
}

} // verus!
