//! A task line written by `Task::get_fixed_attributes` reads back, through the task
//! parser, as the task that wrote it.
use vstd::prelude::*;
use crate::config::TasksConfig;
use crate::date::Date;
use crate::task::{
    fixed_attributes, fixed_parts, completion_text, due_text, priority_text, tags_text, today_text, TaskView,
};
use crate::date::{fmt2, fmt_date, fmt_time, fmt_year, NaiveDate, NaiveTime};
use crate::task_parser::{
    is_ascii_space, lemma_word_run, no_words, read_word, read_words, split_words, word_run,
    word_token, TaskWords,
};
use crate::text::{
    all_digits, decimal, digits_value, is_digit, join_nonempty, lemma_decimal_digits,
    lemma_decimal_len, lemma_differ_at, lemma_zero_pad_digits, starts_with, zero_pad,
};
use crate::token::{
    date_spec, digit_run, is_tag_char, lemma_digit_run_over, letter_number_spec, numeric_date_spec,
    tag_run, tag_spec, time_spec, today_spec, u32_at, weekday_name, weekday_prefix, TokenView,
};

verus! {

/// Whether `w` is a word: not empty, and without whitespace.
pub open spec fn is_word(w: Seq<char>) -> bool {
    w.len() > 0 && forall|i: int| 0 <= i < w.len() ==> !#[trigger] crate::text::is_whitespace(w[i])
}

/// Whitespace as `split_ascii_whitespace` sees it is whitespace as `char::is_whitespace`
/// sees it.
pub proof fn lemma_ascii_space_is_whitespace(c: char)
    ensures
        is_ascii_space(c) ==> crate::text::is_whitespace(c),
{
}

/// The run of a word does not go past a space that follows it.
proof fn lemma_word_run_concat(a: Seq<char>, b: Seq<char>, i: int)
    requires
        0 <= i <= a.len(),
        b.len() > 0,
        is_ascii_space(b[0]),
    ensures
        word_run(a + b, i) == word_run(a, i),
    decreases a.len() - i,
{
    if i < a.len() {
        assert((a + b)[i] == a[i]);
        if !is_ascii_space(a[i]) {
            lemma_word_run_concat(a, b, i + 1);
        }
    } else {
        assert((a + b)[i] == b[0]);
    }
}

/// Splitting at a space splits the words.
pub proof fn lemma_split_words_space(a: Seq<char>, b: Seq<char>)
    ensures
        split_words(a + seq![' '] + b) == split_words(a) + split_words(b),
    decreases a.len(),
{
    let s = a + seq![' '] + b;
    if a.len() == 0 {
        assert(s =~= seq![' '] + b);
        assert(s.drop_first() =~= b);
        assert(split_words(a) =~= Seq::<Seq<char>>::empty());
        assert(split_words(s) =~= split_words(a) + split_words(b));
    } else if is_ascii_space(a[0]) {
        assert(s[0] == a[0]);
        assert(s.drop_first() =~= a.drop_first() + seq![' '] + b);
        lemma_split_words_space(a.drop_first(), b);
        assert(split_words(s) =~= split_words(a) + split_words(b));
    } else {
        assert(s[0] == a[0]);
        assert(s =~= a + (seq![' '] + b));
        lemma_word_run_concat(a, seq![' '] + b, 0);
        let k = word_run(a, 0);
        lemma_word_run(a, 0);
        assert(k >= 1);
        assert(s.take(k as int) =~= a.take(k as int));
        assert(s.skip(k as int) =~= a.skip(k as int) + seq![' '] + b);
        lemma_split_words_space(a.skip(k as int), b);
        assert(split_words(s) =~= split_words(a) + split_words(b));
    }
}

/// The run of a word covers it all.
proof fn lemma_word_run_word(w: Seq<char>, i: int)
    requires
        is_word(w),
        0 <= i <= w.len(),
    ensures
        word_run(w, i) == w.len() - i,
    decreases w.len() - i,
{
    if i < w.len() {
        lemma_ascii_space_is_whitespace(w[i]);
        lemma_word_run_word(w, i + 1);
    }
}

/// A word splits into itself.
pub proof fn lemma_split_word(w: Seq<char>)
    requires
        is_word(w),
    ensures
        split_words(w) == seq![w],
{
    lemma_ascii_space_is_whitespace(w[0]);
    assert(!crate::text::is_whitespace(w[0]));
    assert(!is_ascii_space(w[0]));
    lemma_word_run_word(w, 0);
    assert(w.take(w.len() as int) =~= w);
    assert(w.skip(w.len() as int) =~= Seq::<char>::empty());
    assert(split_words(Seq::<char>::empty()) =~= Seq::<Seq<char>>::empty());
    assert(split_words(w) == seq![w.take(w.len() as int)] + split_words(w.skip(w.len() as int)));
    assert(split_words(w) =~= seq![w]);
}

/// The words of each part, in order.
pub open spec fn words_of_parts(ps: Seq<Seq<char>>) -> Seq<Seq<char>>
    decreases ps.len(),
{
    if ps.len() == 0 {
        seq![]
    } else {
        words_of_parts(ps.drop_last()) + split_words(ps.last())
    }
}

proof fn lemma_join_nonempty_empty(ps: Seq<Seq<char>>)
    requires
        join_nonempty(ps).len() == 0,
    ensures
        words_of_parts(ps) == Seq::<Seq<char>>::empty(),
    decreases ps.len(),
{
    if ps.len() > 0 {
        let rest = join_nonempty(ps.drop_last());
        if ps.last().len() == 0 {
            lemma_join_nonempty_empty(ps.drop_last());
            assert(split_words(ps.last()) =~= Seq::<Seq<char>>::empty());
            assert(words_of_parts(ps) =~= Seq::<Seq<char>>::empty());
        } else {
            assert(rest.len() == 0 ==> join_nonempty(ps) == ps.last());
        }
    }
}

/// The words of parts joined by spaces are the words of the parts.
pub proof fn lemma_split_join_nonempty(ps: Seq<Seq<char>>)
    ensures
        split_words(join_nonempty(ps)) == words_of_parts(ps),
    decreases ps.len(),
{
    if ps.len() == 0 {
        assert(split_words(Seq::<char>::empty()) =~= Seq::<Seq<char>>::empty());
    } else {
        let rest = join_nonempty(ps.drop_last());
        let last = ps.last();
        lemma_split_join_nonempty(ps.drop_last());
        if last.len() == 0 {
            assert(split_words(last) =~= Seq::<Seq<char>>::empty());
            assert(words_of_parts(ps) =~= words_of_parts(ps.drop_last()));
        } else if rest.len() == 0 {
            lemma_join_nonempty_empty(ps.drop_last());
            assert(words_of_parts(ps) =~= split_words(last));
        } else {
            lemma_split_words_space(rest, last);
        }
    }
}

/// Words joined by single spaces split back into the words.
pub proof fn lemma_split_join(ws: Seq<Seq<char>>)
    requires
        forall|i: int| 0 <= i < ws.len() ==> is_word(#[trigger] ws[i]),
    ensures
        split_words(crate::text::join(ws, seq![' '])) == ws,
    decreases ws.len(),
{
    if ws.len() == 0 {
        assert(split_words(Seq::<char>::empty()) =~= Seq::<Seq<char>>::empty());
    } else if ws.len() == 1 {
        lemma_split_word(ws[0]);
        assert(seq![ws[0]] =~= ws);
    } else {
        lemma_split_join(ws.drop_last());
        lemma_split_word(ws.last());
        lemma_split_words_space(crate::text::join(ws.drop_last(), seq![' ']), ws.last());
        assert(ws.drop_last() + seq![ws.last()] =~= ws);
    }
}

/// Zeros in front of the decimal digits of `n`, read at `i` and followed by no digit,
/// give `n`.
proof fn lemma_u32_at_padded(s: Seq<char>, i: int, n: nat, width: nat)
    requires
        0 <= i,
        n <= u32::MAX,
        i + zero_pad(decimal(n), width).len() <= s.len(),
        s.subrange(i, i + zero_pad(decimal(n), width).len()) == zero_pad(decimal(n), width),
        i + zero_pad(decimal(n), width).len() < s.len() ==> !is_digit(
            s[i + zero_pad(decimal(n), width).len()],
        ),
    ensures
        u32_at(s, i) == Some((n as u32, zero_pad(decimal(n), width).len())),
{
    let p = zero_pad(decimal(n), width);
    lemma_decimal_digits(n);
    lemma_zero_pad_digits(decimal(n), width);
    lemma_digit_run_over(s, i, p);
}

/// `fmt2` writes two digits below a hundred.
proof fn lemma_fmt2_len(n: nat)
    requires
        n < 100,
    ensures
        zero_pad(decimal(n), 2).len() == 2,
        all_digits(zero_pad(decimal(n), 2)),
{
    lemma_decimal_len(n);
    lemma_decimal_digits(n);
    lemma_zero_pad_digits(decimal(n), 2);
}

/// `fmt_year` writes four digits for the years 0 to 9999.
proof fn lemma_fmt_year_len(y: int)
    requires
        0 <= y <= 9999,
    ensures
        fmt_year(y) == zero_pad(decimal(y as nat), 4),
        fmt_year(y).len() == 4,
        all_digits(fmt_year(y)),
{
    lemma_decimal_len(y as nat);
    lemma_decimal_digits(y as nat);
    lemma_zero_pad_digits(decimal(y as nat), 4);
}

/// A word whose first character starts no special date word is read by the date
/// reader only as numbers.
proof fn lemma_no_date_word(w: Seq<char>)
    requires
        w.len() > 0,
        w[0] != 't',
        w[0] != 'm',
        w[0] != 'w',
        w[0] != 'f',
        w[0] != 's',
    ensures
        !starts_with(w, "today"@),
        !starts_with(w, "tomorrow"@),
        weekday_prefix(w) is None,
{
    reveal_strlit("today");
    reveal_strlit("tomorrow");
    reveal_strlit("monday");
    reveal_strlit("tuesday");
    reveal_strlit("wednesday");
    reveal_strlit("thursday");
    reveal_strlit("friday");
    reveal_strlit("saturday");
    reveal_strlit("sunday");
    lemma_differ_at(w, "today"@, 0);
    lemma_differ_at(w, "tomorrow"@, 0);
    lemma_differ_at(w, "monday"@, 0);
    lemma_differ_at(w, "tuesday"@, 0);
    lemma_differ_at(w, "wednesday"@, 0);
    lemma_differ_at(w, "thursday"@, 0);
    lemma_differ_at(w, "friday"@, 0);
    lemma_differ_at(w, "saturday"@, 0);
    lemma_differ_at(w, "sunday"@, 0);
}

/// The date word of a task line reads back as its date.
pub proof fn lemma_date_word(d: NaiveDate, american: bool, today: NaiveDate)
    requires
        d.valid(),
        0 <= d.year <= 9999,
    ensures
        date_spec(fmt_date(d, !american), american, today) == Some((d, 10nat)),
        fmt_date(d, !american).len() == 10,
{
    let w = fmt_date(d, !american);
    lemma_fmt2_len(d.day as nat);
    lemma_fmt2_len(d.month as nat);
    lemma_fmt_year_len(d.year as int);
    let y4 = fmt_year(d.year as int);
    let m2 = fmt2(d.month as int);
    let d2 = fmt2(d.day as int);
    assert(m2 == zero_pad(decimal(d.month as nat), 2));
    assert(d2 == zero_pad(decimal(d.day as nat), 2));
    if american {
        assert(w =~= y4 + seq!['/'] + m2 + seq!['/'] + d2);
        assert(is_digit(w[0])) by {
            assert(w[0] == y4[0]);
        }
        lemma_no_date_word(w);
        assert(w.subrange(0, 4) =~= y4);
        lemma_u32_at_padded(w, 0, d.year as nat, 4);
        assert(w.subrange(5, 7) =~= m2);
        lemma_u32_at_padded(w, 5, d.month as nat, 2);
        assert(w.subrange(8, 10) =~= d2);
        lemma_u32_at_padded(w, 8, d.day as nat, 2);
        assert(((d.year as nat) as u32) as i32 == d.year);
        assert(numeric_date_spec(w, american, today.year) == Some((d, 10nat)));
    } else {
        assert(w =~= d2 + seq!['/'] + m2 + seq!['/'] + y4);
        assert(is_digit(w[0])) by {
            assert(w[0] == d2[0]);
        }
        lemma_no_date_word(w);
        assert(w.subrange(0, 2) =~= d2);
        lemma_u32_at_padded(w, 0, d.day as nat, 2);
        assert(w.subrange(3, 5) =~= m2);
        lemma_u32_at_padded(w, 3, d.month as nat, 2);
        assert(w.subrange(6, 10) =~= y4);
        lemma_u32_at_padded(w, 6, d.year as nat, 4);
        assert(((d.year as nat) as u32) as i32 == d.year);
        assert(numeric_date_spec(w, american, today.year) == Some((d, 10nat)));
    }
}

/// The date word of a task line is read as its due date.
pub proof fn lemma_date_token(d: NaiveDate, american: bool, today: NaiveDate)
    requires
        d.valid(),
        0 <= d.year <= 9999,
    ensures
        word_token(fmt_date(d, !american), american, today) == Some(TokenView::DueDate(d)),
{
    lemma_date_word(d, american, today);
}

/// The time word of a task line is read as its due time.
pub proof fn lemma_time_token(t: NaiveTime, american: bool, today: NaiveDate)
    requires
        t.valid(),
        t.nano == 0,
    ensures
        word_token(fmt_time(t), american, today) == Some(TokenView::DueTime(t)),
        fmt_time(t).len() == 8,
{
    let w = fmt_time(t);
    lemma_fmt2_len(t.hour as nat);
    lemma_fmt2_len(t.minute as nat);
    lemma_fmt2_len(t.second as nat);
    let h2 = fmt2(t.hour as int);
    let m2 = fmt2(t.minute as int);
    let s2 = fmt2(t.second as int);
    assert(w =~= h2 + seq![':'] + m2 + seq![':'] + s2);
    assert(is_digit(w[0])) by {
        assert(w[0] == h2[0]);
    }
    lemma_no_date_word(w);
    assert(w.subrange(0, 2) =~= h2);
    lemma_u32_at_padded(w, 0, t.hour as nat, 2);
    assert(w.subrange(3, 5) =~= m2);
    lemma_u32_at_padded(w, 3, t.minute as nat, 2);
    assert(w.subrange(6, 8) =~= s2);
    lemma_u32_at_padded(w, 6, t.second as nat, 2);
    assert(numeric_date_spec(w, american, today.year) is None);
    assert(date_spec(w, american, today) is None);
    assert(time_spec(w) == Some((t, 8nat)));
}

/// A letter and the decimal digits of `n` are read as that letter's number.
proof fn lemma_letter_number(c: char, n: nat)
    requires
        n <= usize::MAX,
        !is_digit(c),
    ensures
        letter_number_spec(seq![c] + decimal(n), c) == Some((n as usize, 1 + decimal(n).len())),
        u32_at(seq![c] + decimal(n), 0) is None,
{
    let w = seq![c] + decimal(n);
    lemma_decimal_digits(n);
    assert(w.subrange(1, 1 + decimal(n).len() as int) =~= decimal(n));
    lemma_digit_run_over(w, 1, decimal(n));
    assert(digit_run(w, 0) == 0);
}

/// The completion word of a task line is read as its completion.
pub proof fn lemma_completion_token(n: usize, american: bool, today: NaiveDate)
    ensures
        word_token(seq!['c'] + decimal(n as nat), american, today) == Some(
            TokenView::CompletionPercentage(n),
        ),
{
    let w = seq!['c'] + decimal(n as nat);
    lemma_letter_number('c', n as nat);
    lemma_no_date_word(w);
    assert(date_spec(w, american, today) is None);
    assert(time_spec(w) is None);
    assert(tag_spec(w) is None);
    assert(letter_number_spec(w, 'p') is None);
}

/// The priority word of a task line is read as its priority.
pub proof fn lemma_priority_token(n: usize, american: bool, today: NaiveDate)
    ensures
        word_token(seq!['p'] + decimal(n as nat), american, today) == Some(
            TokenView::Priority(n),
        ),
{
    let w = seq!['p'] + decimal(n as nat);
    lemma_letter_number('p', n as nat);
    lemma_no_date_word(w);
    assert(date_spec(w, american, today) is None);
    assert(time_spec(w) is None);
    assert(tag_spec(w) is None);
}

/// Whether `t` can be written as a tag: not empty, and made of tag characters.
pub open spec fn is_tag(t: Seq<char>) -> bool {
    t.len() > 0 && forall|i: int| 0 <= i < t.len() ==> #[trigger] is_tag_char(t[i])
}

proof fn lemma_tag_run_over(w: Seq<char>, i: int)
    requires
        1 <= i <= w.len(),
        forall|k: int| 1 <= k < w.len() ==> #[trigger] is_tag_char(w[k]),
    ensures
        tag_run(w, i) == w.len() - i,
    decreases w.len() - i,
{
    if i < w.len() {
        lemma_tag_run_over(w, i + 1);
    }
}

/// The word of a tag in a task line is read as that tag.
pub proof fn lemma_tag_token(t: Seq<char>, american: bool, today: NaiveDate)
    requires
        is_tag(t),
    ensures
        word_token(seq!['#'] + t, american, today) == Some(TokenView::Tag(t)),
{
    let w = seq!['#'] + t;
    assert forall|k: int| 1 <= k < w.len() implies #[trigger] is_tag_char(w[k]) by {
        assert(w[k] == t[k - 1]);
    }
    lemma_tag_run_over(w, 1);
    lemma_no_date_word(w);
    assert(digit_run(w, 0) == 0);
    assert(w.subrange(1, 1 + t.len() as int) =~= t);
    assert(date_spec(w, american, today) is None);
    assert(time_spec(w) is None);
}

/// The today word of a task line is read as the today flag.
pub proof fn lemma_today_token(american: bool, today: NaiveDate)
    ensures
        word_token("@today"@, american, today) == Some(TokenView::TodayFlag),
{
    reveal_strlit("@today");
    let w = "@today"@;
    lemma_no_date_word(w);
    assert(digit_run(w, 0) == 0);
    assert(w.take(6) =~= w);
    assert(date_spec(w, american, today) is None);
    assert(time_spec(w) is None);
    assert(tag_spec(w) is None);
    assert(letter_number_spec(w, 'p') is None);
    assert(letter_number_spec(w, 'c') is None);
}

/// What the words `ws` say after what `acc` says.
pub open spec fn read_more(acc: TaskWords, ws: Seq<Seq<char>>, american: bool, today: NaiveDate) -> TaskWords
    decreases ws.len(),
{
    if ws.len() == 0 {
        acc
    } else {
        read_word(read_more(acc, ws.drop_last(), american, today), word_token(ws.last(), american, today))
    }
}

pub proof fn lemma_read_words_more(ws: Seq<Seq<char>>, american: bool, today: NaiveDate)
    ensures
        read_words(ws, american, today) == read_more(no_words(), ws, american, today),
    decreases ws.len(),
{
    if ws.len() > 0 {
        lemma_read_words_more(ws.drop_last(), american, today);
    }
}

pub proof fn lemma_read_more_concat(
    acc: TaskWords,
    a: Seq<Seq<char>>,
    b: Seq<Seq<char>>,
    american: bool,
    today: NaiveDate,
)
    ensures
        read_more(acc, a + b, american, today) == read_more(
            read_more(acc, a, american, today),
            b,
            american,
            today,
        ),
    decreases b.len(),
{
    if b.len() == 0 {
        assert(a + b =~= a);
    } else {
        assert((a + b).drop_last() =~= a + b.drop_last());
        assert((a + b).last() == b.last());
        lemma_read_more_concat(acc, a, b.drop_last(), american, today);
    }
}

/// Words of the name add to the name.
pub proof fn lemma_read_names(acc: TaskWords, ws: Seq<Seq<char>>, american: bool, today: NaiveDate)
    requires
        forall|i: int|
            0 <= i < ws.len() ==> word_token(#[trigger] ws[i], american, today) == Some(
                TokenView::Name(ws[i]),
            ),
    ensures
        read_more(acc, ws, american, today) == (TaskWords { names: acc.names + ws, ..acc }),
    decreases ws.len(),
{
    if ws.len() == 0 {
        assert(acc.names + ws =~= acc.names);
    } else {
        assert forall|i: int| 0 <= i < ws.drop_last().len() implies word_token(
            #[trigger] ws.drop_last()[i],
            american,
            today,
        ) == Some(TokenView::Name(ws.drop_last()[i])) by {
            assert(ws.drop_last()[i] == ws[i]);
        }
        lemma_read_names(acc, ws.drop_last(), american, today);
        assert(word_token(ws.last(), american, today) == Some(TokenView::Name(ws.last())));
        assert((acc.names + ws.drop_last()).push(ws.last()) =~= acc.names + ws);
    }
}

/// The words of the tags `ts`, as a task line writes them.
pub open spec fn tag_words(ts: Seq<Seq<char>>) -> Seq<Seq<char>> {
    ts.map_values(|t: Seq<char>| seq!['#'] + t)
}

/// Tag words add to the tags, which start empty.
pub proof fn lemma_read_tags(acc: TaskWords, ts: Seq<Seq<char>>, american: bool, today: NaiveDate)
    requires
        acc.tags is None,
        forall|i: int| 0 <= i < ts.len() ==> is_tag(#[trigger] ts[i]),
    ensures
        read_more(acc, tag_words(ts), american, today) == (TaskWords {
            tags: if ts.len() == 0 {
                None
            } else {
                Some(ts)
            },
            ..acc
        }),
    decreases ts.len(),
{
    if ts.len() > 0 {
        let pre = ts.drop_last();
        assert(tag_words(ts).drop_last() =~= tag_words(pre));
        assert(tag_words(ts).last() == seq!['#'] + ts.last());
        lemma_read_tags(acc, pre, american, today);
        lemma_tag_token(ts.last(), american, today);
        if pre.len() == 0 {
            assert(seq![ts.last()] =~= ts);
        } else {
            assert(pre.push(ts.last()) =~= ts);
        }
    }
}

/// Whether the last character of `p`, if any, is no whitespace.
pub open spec fn ends_plain(p: Seq<char>) -> bool {
    p.len() == 0 || !crate::text::is_whitespace(p.last())
}

/// A date from the year 0 to the year 9999 is written as one word.
proof fn lemma_date_is_word(d: NaiveDate, day_first: bool)
    requires
        d.valid(),
        0 <= d.year <= 9999,
    ensures
        is_word(fmt_date(d, day_first)),
        fmt_date(d, day_first).len() == 10,
{
    lemma_fmt2_len(d.day as nat);
    lemma_fmt2_len(d.month as nat);
    lemma_fmt_year_len(d.year as int);
    let w = fmt_date(d, day_first);
    let y4 = fmt_year(d.year as int);
    let m2 = fmt2(d.month as int);
    let d2 = fmt2(d.day as int);
    if day_first {
        assert forall|i: int| 0 <= i < w.len() implies !#[trigger] crate::text::is_whitespace(
            w[i],
        ) by {
            if i < 2 {
                assert(is_digit(d2[i]));
            } else if 3 <= i < 5 {
                assert(is_digit(m2[i - 3]));
            } else if 6 <= i {
                assert(is_digit(y4[i - 6]));
            }
        }
    } else {
        assert forall|i: int| 0 <= i < w.len() implies !#[trigger] crate::text::is_whitespace(
            w[i],
        ) by {
            if i < 4 {
                assert(is_digit(y4[i]));
            } else if 5 <= i < 7 {
                assert(is_digit(m2[i - 5]));
            } else if 8 <= i {
                assert(is_digit(d2[i - 8]));
            }
        }
    }
}

/// A time of day is written as one word.
proof fn lemma_time_is_word(t: NaiveTime)
    requires
        t.valid(),
    ensures
        is_word(fmt_time(t)),
{
    lemma_fmt2_len(t.hour as nat);
    lemma_fmt2_len(t.minute as nat);
    lemma_fmt2_len(t.second as nat);
    let w = fmt_time(t);
    let h2 = fmt2(t.hour as int);
    let m2 = fmt2(t.minute as int);
    let s2 = fmt2(t.second as int);
    assert forall|i: int| 0 <= i < w.len() implies !#[trigger] crate::text::is_whitespace(w[i]) by {
        if i < 2 {
            assert(is_digit(h2[i]));
        } else if 3 <= i < 5 {
            assert(is_digit(m2[i - 3]));
        } else if 6 <= i {
            assert(is_digit(s2[i - 6]));
        }
    }
}

/// A letter that is no whitespace, followed by decimal digits, is one word.
proof fn lemma_letter_number_is_word(c: char, n: nat)
    requires
        !crate::text::is_whitespace(c),
    ensures
        is_word(seq![c] + decimal(n)),
{
    lemma_decimal_digits(n);
    let w = seq![c] + decimal(n);
    assert forall|i: int| 0 <= i < w.len() implies !#[trigger] crate::text::is_whitespace(w[i]) by {
        if i > 0 {
            assert(is_digit(decimal(n)[i - 1]));
        }
    }
}

/// Words joined by single spaces end with the last word.
proof fn lemma_join_ends_plain(ws: Seq<Seq<char>>)
    requires
        forall|i: int| 0 <= i < ws.len() ==> is_word(#[trigger] ws[i]),
    ensures
        ends_plain(crate::text::join(ws, seq![' '])),
{
    if ws.len() == 1 {
        assert(is_word(ws[0]));
    } else if ws.len() > 1 {
        assert(is_word(ws[ws.len() - 1]));
    }
}

/// Parts joined by spaces end with the last nonempty part.
proof fn lemma_join_nonempty_ends_plain(ps: Seq<Seq<char>>)
    requires
        forall|i: int| 0 <= i < ps.len() ==> ends_plain(#[trigger] ps[i]),
    ensures
        ends_plain(join_nonempty(ps)),
    decreases ps.len(),
{
    if ps.len() > 0 {
        assert(ends_plain(ps[ps.len() - 1]));
        lemma_join_nonempty_ends_plain(ps.drop_last());
    }
}

/// The words of one more part follow the words of the parts before it.
proof fn lemma_words_of_parts_push(ps: Seq<Seq<char>>, p: Seq<char>)
    ensures
        words_of_parts(ps.push(p)) == words_of_parts(ps) + split_words(p),
{
    assert(ps.push(p).drop_last() =~= ps);
}

/// Whether a due date can be written on a task line and read back: its year has four
/// digits and its time has no fraction of a second.
pub open spec fn due_writable(due: Option<Date>) -> bool {
    match due {
        None => true,
        Some(Date::Day(d)) => d.valid() && 0 <= d.year <= 9999,
        Some(Date::DayTime(dt)) => dt.valid() && 0 <= dt.date.year <= 9999
            && dt.time.nano == 0,
    }
}

/// One word read after `acc`.
proof fn lemma_read_one(acc: TaskWords, w: Seq<char>, american: bool, today: NaiveDate)
    ensures
        read_more(acc, seq![w], american, today) == read_word(
            acc,
            word_token(w, american, today),
        ),
{
    let e = seq![w].drop_last();
    assert(e =~= Seq::<Seq<char>>::empty());
    assert(read_more(acc, e, american, today) == acc);
    assert(seq![w].last() == w);
}

/// Two words read after `acc`.
proof fn lemma_read_two(
    acc: TaskWords,
    w1: Seq<char>,
    w2: Seq<char>,
    american: bool,
    today: NaiveDate,
)
    ensures
        read_more(acc, seq![w1, w2], american, today) == read_word(
            read_word(acc, word_token(w1, american, today)),
            word_token(w2, american, today),
        ),
{
    assert(seq![w1, w2].drop_last() =~= seq![w1]);
    assert(seq![w1, w2].last() == w2);
    lemma_read_one(acc, w1, american, today);
}

/// The words of a day say that day.
proof fn lemma_day_words(acc: TaskWords, d: NaiveDate, american: bool, today: NaiveDate)
    requires
        d.valid(),
        0 <= d.year <= 9999,
    ensures
        read_more(acc, split_words(fmt_date(d, !american)), american, today) == (TaskWords {
            date: Some(d),
            ..acc
        }),
        ends_plain(fmt_date(d, !american)),
{
    let dw = fmt_date(d, !american);
    lemma_date_is_word(d, !american);
    lemma_split_word(dw);
    lemma_date_token(d, american, today);
    lemma_read_one(acc, dw, american, today);
}

/// The words of a day and a time say that day and that time.
proof fn lemma_day_time_words(
    acc: TaskWords,
    d: NaiveDate,
    t: NaiveTime,
    american: bool,
    today: NaiveDate,
)
    requires
        d.valid(),
        0 <= d.year <= 9999,
        t.valid(),
        t.nano == 0,
    ensures
        read_more(
            acc,
            split_words(fmt_date(d, !american) + seq![' '] + fmt_time(t)),
            american,
            today,
        ) == (TaskWords { date: Some(d), time: Some(t), ..acc }),
        ends_plain(fmt_date(d, !american) + seq![' '] + fmt_time(t)),
{
    let dw = fmt_date(d, !american);
    let tw = fmt_time(t);
    lemma_date_is_word(d, !american);
    lemma_time_is_word(t);
    lemma_split_word(dw);
    lemma_split_word(tw);
    lemma_split_words_space(dw, tw);
    assert(seq![dw] + seq![tw] =~= seq![dw, tw]);
    lemma_date_token(d, american, today);
    lemma_time_token(t, american, today);
    lemma_read_two(acc, dw, tw, american, today);
    assert(tw.last() == (dw + seq![' '] + tw).last());
}

/// The words of a due date say that due date.
proof fn lemma_due_words(acc: TaskWords, due: Option<Date>, american: bool, today: NaiveDate)
    requires
        due_writable(due),
        acc.date is None,
        acc.time is None,
    ensures
        ({
            let r = read_more(acc, split_words(due_text(due, american)), american, today);
            &&& r == (TaskWords { date: r.date, time: r.time, ..acc })
            &&& crate::task_parser::due_of(r.date, r.time, today) == due
        }),
        ends_plain(due_text(due, american)),
{
    match due {
        None => {
            assert(due_text(due, american) =~= Seq::<char>::empty());
            assert(split_words(Seq::<char>::empty()) =~= Seq::<Seq<char>>::empty());
        },
        Some(Date::Day(d)) => {
            lemma_day_words(acc, d, american, today);
        },
        Some(Date::DayTime(dt)) => {
            lemma_day_time_words(acc, dt.date, dt.time, american, today);
        },
    }
}

/// Whether a task can be written as a task line under `config` and read back on
/// `today` as itself: the words of its name are words of the name and nothing else,
/// separated by single spaces; its due date is writable; its tags, if any, are
/// nonempty tag words; and its marker reads as its state.
pub open spec fn line_readable(t: TaskView, config: TasksConfig, today: NaiveDate) -> bool {
    let ws = split_words(t.name);
    &&& t.name == crate::text::join(ws, seq![' '])
    &&& forall|i: int|
        0 <= i < ws.len() ==> is_word(#[trigger] ws[i]) && word_token(
            ws[i],
            config.use_american_format,
            today,
        ) == Some(TokenView::Name(ws[i]))
    &&& due_writable(t.due_date)
    &&& match t.tags {
        Some(ts) => ts.len() > 0 && forall|i: int| 0 <= i < ts.len() ==> is_tag(#[trigger] ts[i]),
        None => true,
    }
    &&& crate::task_parser::state_of(
        crate::task::state_marker(t.state, config),
        config.task_state_markers,
    ) == t.state
}

/// The words of a completion say that completion.
proof fn lemma_completion_words(
    acc: TaskWords,
    c: Option<usize>,
    american: bool,
    today: NaiveDate,
)
    requires
        acc.completion is None,
    ensures
        read_more(acc, split_words(completion_text(c)), american, today) == (TaskWords {
            completion: c,
            ..acc
        }),
        ends_plain(completion_text(c)),
{
    match c {
        None => {
            assert(completion_text(c) =~= Seq::<char>::empty());
            assert(split_words(Seq::<char>::empty()) =~= Seq::<Seq<char>>::empty());
        },
        Some(n) => {
            let w = seq!['c'] + decimal(n as nat);
            lemma_letter_number_is_word('c', n as nat);
            lemma_split_word(w);
            lemma_completion_token(n, american, today);
            lemma_read_one(acc, w, american, today);
        },
    }
}

/// The words of a priority say that priority.
proof fn lemma_priority_words(acc: TaskWords, p: usize, american: bool, today: NaiveDate)
    requires
        acc.priority == 0,
    ensures
        read_more(acc, split_words(priority_text(p)), american, today) == (TaskWords {
            priority: p,
            ..acc
        }),
        ends_plain(priority_text(p)),
{
    if p > 0 {
        let w = seq!['p'] + decimal(p as nat);
        lemma_letter_number_is_word('p', p as nat);
        lemma_split_word(w);
        lemma_priority_token(p, american, today);
        lemma_read_one(acc, w, american, today);
    } else {
        assert(priority_text(p) =~= Seq::<char>::empty());
        assert(split_words(Seq::<char>::empty()) =~= Seq::<Seq<char>>::empty());
    }
}

/// The words of the tags say those tags.
proof fn lemma_tags_words(
    acc: TaskWords,
    tags: Option<Seq<Seq<char>>>,
    american: bool,
    today: NaiveDate,
)
    requires
        acc.tags is None,
        match tags {
            Some(ts) => ts.len() > 0 && forall|i: int| 0 <= i < ts.len() ==> is_tag(#[trigger] ts[i]),
            None => true,
        },
    ensures
        read_more(acc, split_words(tags_text(tags)), american, today) == (TaskWords {
            tags,
            ..acc
        }),
        ends_plain(tags_text(tags)),
{
    match tags {
        None => {
            assert(tags_text(tags) =~= Seq::<char>::empty());
            assert(split_words(Seq::<char>::empty()) =~= Seq::<Seq<char>>::empty());
        },
        Some(ts) => {
            let tw = tag_words(ts);
            assert(tags_text(tags) == crate::text::join(tw, seq![' '])) by {
                assert(ts.map_values(|t: Seq<char>| seq!['#'] + t) =~= tw);
            }
            assert forall|i: int| 0 <= i < tw.len() implies is_word(#[trigger] tw[i]) by {
                let w = tw[i];
                assert(w == seq!['#'] + ts[i]);
                assert(is_tag(ts[i]));
                assert forall|k: int| 0 <= k < w.len() implies !#[trigger] crate::text::is_whitespace(
                    w[k],
                ) by {
                    if k > 0 {
                        assert(is_tag_char(ts[i][k - 1]));
                    }
                }
            }
            lemma_split_join(tw);
            lemma_join_ends_plain(tw);
            lemma_read_tags(acc, ts, american, today);
        },
    }
}

/// The words of the today flag say it.
proof fn lemma_today_words(acc: TaskWords, b: bool, american: bool, today: NaiveDate)
    requires
        !acc.is_today,
    ensures
        read_more(acc, split_words(today_text(b)), american, today) == (TaskWords {
            is_today: b,
            ..acc
        }),
        ends_plain(today_text(b)),
{
    if b {
        reveal_strlit("@today");
        let w = "@today"@;
        assert(is_word(w));
        lemma_split_word(w);
        lemma_today_token(american, today);
        lemma_read_one(acc, w, american, today);
    } else {
        assert(today_text(b) =~= Seq::<char>::empty());
        assert(split_words(Seq::<char>::empty()) =~= Seq::<Seq<char>>::empty());
    }
}

/// The words of the parts of a readable task say that task.
proof fn lemma_parts_read(t: TaskView, config: TasksConfig, today: NaiveDate)
    requires
        line_readable(t, config, today),
    ensures
        ({
            let r = read_words(
                words_of_parts(fixed_parts(t, config)),
                config.use_american_format,
                today,
            );
            &&& r.names == split_words(t.name)
            &&& r.priority == t.priority
            &&& r.completion == t.completion
            &&& r.tags == t.tags
            &&& r.is_today == t.is_today
            &&& crate::task_parser::due_of(r.date, r.time, today) == t.due_date
        }),
        forall|i: int|
            0 <= i < fixed_parts(t, config).len() ==> ends_plain(#[trigger] fixed_parts(t, config)[i]),
{
    let am = config.use_american_format;
    let ps = fixed_parts(t, config);
    let w0 = split_words(ps[0]);
    let w1 = split_words(ps[1]);
    let w2 = split_words(ps[2]);
    let w3 = split_words(ps[3]);
    let w4 = split_words(ps[4]);
    let w5 = split_words(ps[5]);
    let q0 = seq![ps[0]];
    let q1 = q0.push(ps[1]);
    let q2 = q1.push(ps[2]);
    let q3 = q2.push(ps[3]);
    let q4 = q3.push(ps[4]);
    assert(q4.push(ps[5]) =~= ps);
    lemma_words_of_parts_push(Seq::<Seq<char>>::empty(), ps[0]);
    assert(Seq::<Seq<char>>::empty().push(ps[0]) =~= q0);
    assert(words_of_parts(Seq::<Seq<char>>::empty()) =~= Seq::<Seq<char>>::empty());
    assert(words_of_parts(q0) =~= w0);
    lemma_words_of_parts_push(q0, ps[1]);
    lemma_words_of_parts_push(q1, ps[2]);
    lemma_words_of_parts_push(q2, ps[3]);
    lemma_words_of_parts_push(q3, ps[4]);
    lemma_words_of_parts_push(q4, ps[5]);
    let a0 = w0;
    let a1 = a0 + w1;
    let a2 = a1 + w2;
    let a3 = a2 + w3;
    let a4 = a3 + w4;
    let a5 = a4 + w5;
    assert(words_of_parts(ps) == a5);
    lemma_read_words_more(a5, am, today);
    lemma_read_more_concat(no_words(), a4, w5, am, today);
    lemma_read_more_concat(no_words(), a3, w4, am, today);
    lemma_read_more_concat(no_words(), a2, w3, am, today);
    lemma_read_more_concat(no_words(), a1, w2, am, today);
    lemma_read_more_concat(no_words(), a0, w1, am, today);
    lemma_read_names(no_words(), w0, am, today);
    assert(no_words().names + w0 =~= w0);
    let r0 = read_more(no_words(), a0, am, today);
    lemma_due_words(r0, t.due_date, am, today);
    let r1 = read_more(r0, w1, am, today);
    lemma_completion_words(r1, t.completion, am, today);
    let r2 = read_more(r1, w2, am, today);
    lemma_priority_words(r2, t.priority, am, today);
    let r3 = read_more(r2, w3, am, today);
    lemma_tags_words(r3, t.tags, am, today);
    let r4 = read_more(r3, w4, am, today);
    lemma_today_words(r4, t.is_today, am, today);
    lemma_join_ends_plain(w0);
    assert(ends_plain(ps[0]));
}

/// The line of a task, after its state, holds the words of its parts.
proof fn lemma_line_words(t: TaskView, config: TasksConfig, today: NaiveDate)
    requires
        forall|i: int|
            0 <= i < fixed_parts(t, config).len() ==> ends_plain(#[trigger] fixed_parts(t, config)[i]),
    ensures
        ({
            let line = fixed_attributes(t, config, 0);
            &&& crate::task_parser::state_spec(line, config.task_state_markers) == Some(
                (
                    crate::task_parser::state_of(
                        crate::task::state_marker(t.state, config),
                        config.task_state_markers,
                    ),
                    5nat,
                ),
            )
            &&& split_words(line.skip(5)) == words_of_parts(fixed_parts(t, config))
        }),
{
    let ps = fixed_parts(t, config);
    let j = join_nonempty(ps);
    let m = crate::task::state_marker(t.state, config);
    lemma_join_nonempty_ends_plain(ps);
    lemma_split_join_nonempty(ps);
    reveal_strlit("- [");
    reveal_strlit("] ");
    let head = seq!['-', ' ', '[', m, ']', ' '];
    let l0 = crate::text::spaces(0) + "- ["@ + seq![m] + "] "@ + j;
    assert(l0 =~= head + j);
    let line = fixed_attributes(t, config, 0);
    if j.len() == 0 {
        assert(l0 =~= head);
        let h5 = seq!['-', ' ', '[', m, ']'];
        assert(head.drop_last() =~= h5);
        assert(crate::text::is_whitespace(head.last()));
        assert(!crate::text::is_whitespace(h5.last()));
        assert(crate::text::trimmed_end_len(h5) == 5);
        assert(crate::text::trimmed_end_len(l0) == 5);
        assert(line =~= seq!['-', ' ', '[', m, ']']);
        assert(line.skip(5) =~= Seq::<char>::empty());
        assert(split_words(Seq::<char>::empty()) =~= Seq::<Seq<char>>::empty());
    } else {
        assert(l0.last() == j.last());
        assert(crate::text::trimmed_end_len(l0) == l0.len());
        assert(line =~= l0);
        assert(line.skip(5) =~= Seq::<char>::empty() + seq![' '] + j);
        lemma_split_words_space(Seq::<char>::empty(), j);
        assert(split_words(Seq::<char>::empty()) =~= Seq::<Seq<char>>::empty());
        assert(split_words(Seq::<char>::empty()) + split_words(j) =~= split_words(j));
    }
}

/// A task that `get_fixed_attributes` writes on a line of its own, without indent, is
/// read back by the task parser as the same task, without subtasks and description,
/// at line 1 of its file.
pub proof fn lemma_task_line_round_trip(t: TaskView, config: TasksConfig, today: NaiveDate)
    requires
        line_readable(t, config, today),
    ensures
        crate::task_parser::parse_task_spec(fixed_attributes(t, config, 0), t.filename, config, today)
            == Some(
            TaskView { subtasks: seq![], description: None, line_number: Some(1usize), ..t },
        ),
{
    lemma_parts_read(t, config, today);
    lemma_line_words(t, config, today);
    assert(t.name == crate::text::join(split_words(t.name), " "@)) by {
        reveal_strlit(" ");
        assert(" "@ =~= seq![' ']);
    }
}

} // verus!
