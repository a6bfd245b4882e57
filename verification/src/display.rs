//! Tasks and vault trees as text, the way a terminal lists them.
use vstd::prelude::*;
use crate::date::{relative_text, seconds_until_now, Date, NaiveDateTime};
use crate::file_parser::{split_lines, text_run};
use crate::task::{completion_bar, tags_text, tags_string, State, Task, TaskView, task_view, tasks_view, lemma_tasks_view};
use crate::text::{decimal, join, push_char, push_decimal, push_str, chars_of};
use crate::vault::{lemma_vaults_view, vault_view, vaults_view, VaultData, VaultView};

verus! {

/// The default symbol of a state.
pub open spec fn state_symbol(s: State) -> Seq<char> {
    match s {
        State::Done => "✅"@,
        State::ToDo => "❌"@,
        State::Incomplete => "⏳"@,
        State::Canceled => "🚫"@,
    }
}

/// The lines of `s`, as `str::lines` of std gives them: split at line feeds, a
/// carriage return before a line feed dropped, no last empty line after a final line
/// feed.
pub open spec fn text_lines(s: Seq<char>) -> Seq<Seq<char>>
    decreases s.len(),
{
    if s.len() == 0 {
        seq![]
    } else {
        let k = text_run(s, 0);
        let line = if k > 0 && k < s.len() && s[k - 1] == '\r' {
            s.take(k - 1)
        } else {
            s.take(k as int)
        };
        if k >= s.len() {
            seq![s]
        } else {
            seq![line] + text_lines(s.skip((k + 1) as int))
        }
    }
}

/// Each line followed by a line feed.
pub open spec fn lines_block(ls: Seq<Seq<char>>) -> Seq<char>
    decreases ls.len(),
{
    if ls.len() == 0 {
        seq![]
    } else {
        lines_block(ls.drop_last()) + ls.last() + seq!['\n']
    }
}

/// The line of dates, priority and progress of a task, as listed at `now`.
pub open spec fn data_text(t: TaskView, now: NaiveDateTime) -> Seq<char> {
    (if t.is_today {
        "☀️"@ + seq![' ']
    } else {
        seq![]
    }) + (match t.due_date {
        Some(d) => "📅"@ + seq![' '] + d.display_text() + " ("@ + relative_text(
            seconds_until_now(d, now),
        ) + ") "@,
        None => seq![],
    }) + (if t.priority > 0 {
        "❗"@ + decimal(t.priority as nat) + seq![' ']
    } else {
        seq![]
    }) + (match t.completion {
        Some(c) => completion_bar(5, c as int, "⬜️"@, "🟩"@),
        None => seq![],
    })
}

/// A task as listed at `now`: the state symbol and the name; the line of dates,
/// priority and progress; the line of tags; the lines of the description. Empty lines
/// are left out, and each line ends with a line feed.
pub open spec fn task_text(t: TaskView, now: NaiveDateTime) -> Seq<char> {
    let title = state_symbol(t.state) + seq![' '] + t.name + seq!['\n'];
    let data = data_text(t, now);
    let tags = tags_text(t.tags);
    title + (if data.len() > 0 {
        data + seq!['\n']
    } else {
        seq![]
    }) + (if tags.len() > 0 {
        tags + seq!['\n']
    } else {
        seq![]
    }) + (match t.description {
        Some(d) => lines_block(text_lines(d)),
        None => seq![],
    })
}

/// A listed task begins with the symbol of its state among the default symbols (`✅`
/// done, `❌` to do, `⏳` incomplete, `🚫` canceled), a space, its name and a line feed.
pub proof fn lemma_listing_starts_with_state(t: TaskView, now: NaiveDateTime)
    ensures
        ({
            let symbol = match t.state {
                State::Done => "✅"@,
                State::ToDo => "❌"@,
                State::Incomplete => "⏳"@,
                State::Canceled => "🚫"@,
            };
            let head = symbol + seq![' '] + t.name + seq!['\n'];
            task_text(t, now).take(head.len() as int) == head
        }),
{
    let head = state_symbol(t.state) + seq![' '] + t.name + seq!['\n'];
    let rest = task_text(t, now).skip(head.len() as int);
    assert(task_text(t, now) =~= head + rest);
    assert(task_text(t, now).take(head.len() as int) =~= head);
}

/// Whether every due date of the task and of its subtasks is a valid date.
pub open spec fn dates_valid(t: TaskView) -> bool
    decreases t,
{
    &&& t.due_date matches Some(d) ==> d.valid()
    &&& all_dates_valid(t.subtasks)
}

/// Whether every due date of the tasks `ts` and of their subtasks is a valid date.
pub open spec fn all_dates_valid(ts: Seq<TaskView>) -> bool
    decreases ts,
{
    ts.len() == 0 || (all_dates_valid(ts.subrange(0, ts.len() - 1)) && dates_valid(
        ts[ts.len() - 1],
    ))
}

pub proof fn lemma_all_dates_valid(ts: Seq<TaskView>, i: int)
    requires
        all_dates_valid(ts),
        0 <= i < ts.len(),
    ensures
        dates_valid(ts[i]),
    decreases ts.len(),
{
    if i < ts.len() - 1 {
        let pre = ts.subrange(0, ts.len() - 1);
        lemma_all_dates_valid(pre, i);
        assert(pre[i] == ts[i]);
    }
}

/// Appends each line of `s` and a line feed; see `text_lines`.
fn push_lines(out: &mut String, s: &str)
    ensures
        final(out)@ == old(out)@ + lines_block(text_lines(s@)),
{
    let cs = chars_of(s);
    let ghost start = out@;
    let ghost mut done: Seq<Seq<char>> = seq![];
    let mut i: usize = 0;
    proof {
        assert(cs@.skip(0) =~= cs@);
        assert(done + text_lines(cs@) =~= text_lines(cs@));
    }
    while i < cs.len()
        invariant
            i <= cs@.len(),
            cs@ == s@,
            done + text_lines(cs@.skip(i as int)) == text_lines(cs@),
            out@ == start + lines_block(done),
        decreases cs@.len() - i,
    {
        let mut j = i;
        while j < cs.len() && cs[j] != '\n'
            invariant
                i <= j <= cs@.len(),
                text_run(cs@, i as int) == (j - i) + text_run(cs@, j as int),
            decreases cs@.len() - j,
        {
            j = j + 1;
        }
        let ghost sk = cs@.skip(i as int);
        proof {
            crate::file_parser::lemma_text_run_skip(cs@, i as int, 0);
            crate::file_parser::lemma_text_run(cs@, i as int);
        }
        let end = if j < cs.len() && j > i && cs[j - 1] == '\r' {
            j - 1
        } else {
            j
        };
        let ghost before = out@;
        let mut k = i;
        while k < end
            invariant
                i <= k <= end <= j <= cs@.len(),
                out@ == before + cs@.subrange(i as int, k as int),
            decreases end - k,
        {
            push_char(out, cs[k]);
            k = k + 1;
            assert(out@ =~= before + cs@.subrange(i as int, k as int));
        }
        push_char(out, '\n');
        let ghost line = cs@.subrange(i as int, end as int);
        proof {
            if j < cs@.len() {
                if j > i && cs@[j - 1] == '\r' {
                    assert(sk.take(j - i - 1) =~= line);
                } else {
                    assert(sk.take((j - i) as int) =~= line);
                }
                assert(sk.skip(j - i + 1) =~= cs@.skip(j + 1));
                assert(text_lines(sk) == seq![line] + text_lines(cs@.skip(j + 1)));
                assert(done.push(line) + text_lines(cs@.skip(j + 1)) =~= done + text_lines(sk));
            } else {
                assert(sk =~= line);
                assert(text_lines(sk) == seq![line]);
                assert(cs@.skip(j as int).len() == 0);
                assert(done.push(line) + text_lines(cs@.skip(j as int)) =~= done + text_lines(sk));
            }
            let nd = done.push(line);
            assert(nd.drop_last() =~= done);
            assert(out@ =~= start + lines_block(nd));
            done = nd;
        }
        i = if j < cs.len() {
            j + 1
        } else {
            j
        };
    }
    proof {
        assert(cs@.skip(i as int).len() == 0);
        assert(done =~= text_lines(cs@));
    }
}

/// The due date part of the data line: symbol, date, and the date relative to `now`.
fn due_part(d: &Date, now: NaiveDateTime) -> (r: String)
    requires
        now.valid(),
        d.valid(),
    ensures
        r@ == "📅"@ + seq![' '] + d.display_text() + " ("@ + relative_text(seconds_until_now(*d, now))
            + ") "@,
{
    let mut data = String::new();
    push_str(&mut data, "📅");
    push_char(&mut data, ' ');
    let shown = d.to_display_string();
    push_str(&mut data, shown.as_str());
    push_str(&mut data, " (");
    let rel = match d.get_relative_str_at(now) {
        Some(x) => x,
        None => String::new(),
    };
    push_str(&mut data, rel.as_str());
    push_str(&mut data, ") ");
    data
}

impl Task {
    /// The line of dates, priority and progress of the task at `now`; see `data_text`.
    fn data_string(&self, now: NaiveDateTime) -> (r: String)
        requires
            now.valid(),
            self.due_date matches Some(d) ==> d.valid(),
        ensures
            r@ == data_text(self@, now),
    {
        let mut data = String::new();
        if self.is_today {
            push_str(&mut data, "☀️");
            push_char(&mut data, ' ');
        }
        let due = match &self.due_date {
            Some(d) => due_part(d, now),
            None => String::new(),
        };
        push_str(&mut data, due.as_str());
        let mut prio = String::new();
        if self.priority > 0 {
            push_str(&mut prio, "❗");
            push_decimal(&mut prio, self.priority as u64);
            push_char(&mut prio, ' ');
        }
        push_str(&mut data, prio.as_str());
        let bar = match self.get_completion_bar(
            5,
            &(String::from_str("⬜️"), String::from_str("🟩")),
        ) {
            Some(b) => b,
            None => String::new(),
        };
        push_str(&mut data, bar.as_str());
        proof {
            assert(data@ =~= data_text(self@, now));
        }
        data
    }

    /// The task as listed at `now`; see `task_text`.
    pub fn to_string_at(&self, now: NaiveDateTime) -> (r: String)
        requires
            now.valid(),
            self.due_date matches Some(d) ==> d.valid(),
        ensures
            r@ == task_text(self@, now),
    {
        let mut out = String::new();
        let state = match self.state {
            State::Done => "✅",
            State::ToDo => "❌",
            State::Incomplete => "⏳",
            State::Canceled => "🚫",
        };
        push_str(&mut out, state);
        push_char(&mut out, ' ');
        push_str(&mut out, self.name.as_str());
        push_char(&mut out, '\n');
        let ghost title = out@;
        proof {
            assert(title =~= state_symbol(self.state) + seq![' '] + self@.name + seq!['\n']);
        }
        let data = self.data_string(now);
        if data.as_str().unicode_len() > 0 {
            push_str(&mut out, data.as_str());
            push_char(&mut out, '\n');
        }
        let ghost o2 = out@;
        let tags = tags_string(&self.tags);
        if tags.as_str().unicode_len() > 0 {
            push_str(&mut out, tags.as_str());
            push_char(&mut out, '\n');
        }
        let ghost o3 = out@;
        match &self.description {
            Some(d) => push_lines(&mut out, d.as_str()),
            None => {},
        }
        proof {
            let dt = data_text(self@, now);
            let tt = tags_text(self@.tags);
            let dl = if dt.len() > 0 {
                dt + seq!['\n']
            } else {
                seq![]
            };
            let tl = if tt.len() > 0 {
                tt + seq!['\n']
            } else {
                seq![]
            };
            assert(o2 =~= title + dl);
            assert(o3 =~= title + dl + tl);
            let ds = match self@.description {
                Some(d) => lines_block(text_lines(d)),
                None => seq![],
            };
            assert(out@ =~= title + dl + tl + ds);
        }
        out
    }
}

/// `n` tabs.
pub open spec fn tabs(n: nat) -> Seq<char> {
    Seq::new(n, |_i: int| '\t')
}

/// Number of bytes of the UTF-8 encoding of `c`.
pub open spec fn char_utf8_len(c: char) -> nat {
    if (c as u32) < 0x80 {
        1
    } else if (c as u32) < 0x800 {
        2
    } else if (c as u32) < 0x10000 {
        3
    } else {
        4
    }
}

/// Number of bytes of the UTF-8 encoding of `s`, which `str::len` of std gives.
pub open spec fn utf8_len(s: Seq<char>) -> nat
    decreases s.len(),
{
    if s.len() == 0 {
        0
    } else {
        utf8_len(s.drop_last()) + char_utf8_len(s.last())
    }
}

/// A title at `depth`: its line, and a line of `‾` as long as its number of bytes.
pub open spec fn underlined(text: Seq<char>, depth: nat) -> Seq<char> {
    tabs(depth) + text + seq!['\n'] + tabs(depth) + Seq::new(utf8_len(text), |_i: int| '‾')
        + seq!['\n']
}

/// Each line after `depth` tabs and followed by a line feed.
pub open spec fn indented_lines(ls: Seq<Seq<char>>, depth: nat) -> Seq<char>
    decreases ls.len(),
{
    if ls.len() == 0 {
        seq![]
    } else {
        indented_lines(ls.drop_last(), depth) + tabs(depth) + ls.last() + seq!['\n']
    }
}

/// A task and its subtasks at `depth`, listed at `now`: each line of the task, then
/// each subtask listed on its own and shifted one level deeper.
pub open spec fn task_tree_text(t: TaskView, depth: nat, now: NaiveDateTime) -> Seq<char>
    decreases t,
{
    indented_lines(split_lines(task_text(t, now)), depth) + subtasks_text(
        t.subtasks,
        depth + 1,
        now,
    )
}

/// The subtasks `ts`, each listed on its own and shifted to `depth`.
pub open spec fn subtasks_text(ts: Seq<TaskView>, depth: nat, now: NaiveDateTime) -> Seq<char>
    decreases ts,
{
    if ts.len() == 0 {
        seq![]
    } else {
        subtasks_text(ts.subrange(0, ts.len() - 1), depth, now) + indented_lines(
            split_lines(task_tree_text(ts[ts.len() - 1], 0, now)),
            depth,
        )
    }
}

/// The tree `v` at `depth`, listed at `now`: headers and directories underlined, their
/// content one level deeper; trackers are not listed.
pub open spec fn vault_text(v: VaultView, depth: nat, now: NaiveDateTime) -> Seq<char>
    decreases v,
{
    match v {
        VaultView::Header(_, h, cs) => underlined(h, depth) + children_text(cs, depth + 1, now),
        VaultView::Directory(n, cs) => underlined(n, depth) + children_text(cs, depth + 1, now),
        VaultView::Task(t) => task_tree_text(t, depth, now),
        VaultView::Tracker(_) => seq![],
    }
}

/// The nodes `cs` listed at `depth`.
pub open spec fn children_text(cs: Seq<VaultView>, depth: nat, now: NaiveDateTime) -> Seq<char>
    decreases cs,
{
    if cs.len() == 0 {
        seq![]
    } else {
        children_text(cs.subrange(0, cs.len() - 1), depth, now) + vault_text(
            cs[cs.len() - 1],
            depth,
            now,
        )
    }
}

/// Whether every due date of the tree is a valid date.
pub open spec fn tree_dates_valid(v: VaultView) -> bool
    decreases v,
{
    match v {
        VaultView::Header(_, _, cs) => children_dates_valid(cs),
        VaultView::Directory(_, cs) => children_dates_valid(cs),
        VaultView::Task(t) => dates_valid(t),
        VaultView::Tracker(_) => true,
    }
}

/// Whether every due date of the trees `cs` is a valid date.
pub open spec fn children_dates_valid(cs: Seq<VaultView>) -> bool
    decreases cs,
{
    cs.len() == 0 || (children_dates_valid(cs.subrange(0, cs.len() - 1)) && tree_dates_valid(
        cs[cs.len() - 1],
    ))
}

pub proof fn lemma_children_dates_valid(cs: Seq<VaultView>, i: int)
    requires
        children_dates_valid(cs),
        0 <= i < cs.len(),
    ensures
        tree_dates_valid(cs[i]),
    decreases cs.len(),
{
    if i < cs.len() - 1 {
        let pre = cs.subrange(0, cs.len() - 1);
        lemma_children_dates_valid(pre, i);
        assert(pre[i] == cs[i]);
    }
}

/// The number of levels of the task tree `t`.
pub open spec fn task_height(t: TaskView) -> nat
    decreases t,
{
    1 + tasks_height(t.subtasks)
}

/// The number of levels of the highest task tree of `ts`.
pub open spec fn tasks_height(ts: Seq<TaskView>) -> nat
    decreases ts,
{
    if ts.len() == 0 {
        0
    } else {
        let a = tasks_height(ts.subrange(0, ts.len() - 1));
        let b = task_height(ts[ts.len() - 1]);
        if a >= b {
            a
        } else {
            b
        }
    }
}

/// The number of levels of the tree `v`.
pub open spec fn vault_height(v: VaultView) -> nat
    decreases v,
{
    match v {
        VaultView::Header(_, _, cs) => 1 + children_height(cs),
        VaultView::Directory(_, cs) => 1 + children_height(cs),
        VaultView::Task(t) => task_height(t),
        VaultView::Tracker(_) => 1,
    }
}

/// The number of levels of the highest tree of `cs`.
pub open spec fn children_height(cs: Seq<VaultView>) -> nat
    decreases cs,
{
    if cs.len() == 0 {
        0
    } else {
        let a = children_height(cs.subrange(0, cs.len() - 1));
        let b = vault_height(cs[cs.len() - 1]);
        if a >= b {
            a
        } else {
            b
        }
    }
}

pub proof fn lemma_tasks_height(ts: Seq<TaskView>, i: int)
    requires
        0 <= i < ts.len(),
    ensures
        task_height(ts[i]) <= tasks_height(ts),
    decreases ts.len(),
{
    if i < ts.len() - 1 {
        let pre = ts.subrange(0, ts.len() - 1);
        lemma_tasks_height(pre, i);
        assert(pre[i] == ts[i]);
    }
}

pub proof fn lemma_children_height(cs: Seq<VaultView>, i: int)
    requires
        0 <= i < cs.len(),
    ensures
        vault_height(cs[i]) <= children_height(cs),
    decreases cs.len(),
{
    if i < cs.len() - 1 {
        let pre = cs.subrange(0, cs.len() - 1);
        lemma_children_height(pre, i);
        assert(pre[i] == cs[i]);
    }
}

fn push_tabs(out: &mut String, n: usize)
    ensures
        final(out)@ == old(out)@ + tabs(n as nat),
{
    let ghost start = out@;
    let mut k: usize = 0;
    while k < n
        invariant
            k <= n,
            out@ == start + tabs(k as nat),
        decreases n - k,
    {
        push_char(out, '\t');
        k = k + 1;
        assert(out@ =~= start + tabs(k as nat));
    }
}

/// Appends each line of `s`, as `split('\n')` gives them, after `depth` tabs and
/// followed by a line feed; see `indented_lines`.
fn push_indented(out: &mut String, s: &str, depth: usize)
    ensures
        final(out)@ == old(out)@ + indented_lines(split_lines(s@), depth as nat),
{
    let cs = chars_of(s);
    let ghost start = out@;
    let ghost mut done: Seq<Seq<char>> = seq![];
    let mut i: usize = 0;
    let mut finished = false;
    proof {
        assert(cs@.skip(0) =~= cs@);
        assert(done + split_lines(cs@) =~= split_lines(cs@));
    }
    while !finished
        invariant
            i <= cs@.len(),
            cs@ == s@,
            finished ==> done == split_lines(cs@),
            !finished ==> done + split_lines(cs@.skip(i as int)) == split_lines(cs@),
            out@ == start + indented_lines(done, depth as nat),
        decreases (if finished { 0 } else { cs@.len() + 1 - i }),
    {
        let mut j = i;
        while j < cs.len() && cs[j] != '\n'
            invariant
                i <= j <= cs@.len(),
                text_run(cs@, i as int) == (j - i) + text_run(cs@, j as int),
            decreases cs@.len() - j,
        {
            j = j + 1;
        }
        let ghost sk = cs@.skip(i as int);
        let ghost line = cs@.subrange(i as int, j as int);
        proof {
            crate::file_parser::lemma_text_run_skip(cs@, i as int, 0);
            crate::file_parser::lemma_text_run(cs@, i as int);
            assert(sk.take((j - i) as int) =~= line);
            if j < cs@.len() {
                assert(sk.skip(j - i + 1) =~= cs@.skip(j + 1));
                assert(split_lines(sk) == seq![line] + split_lines(cs@.skip(j + 1)));
            } else {
                assert(sk =~= line);
                assert(split_lines(sk) == seq![line]);
            }
        }
        push_tabs(out, depth);
        let ghost before = out@;
        let mut k = i;
        while k < j
            invariant
                i <= k <= j <= cs@.len(),
                out@ == before + cs@.subrange(i as int, k as int),
            decreases j - k,
        {
            push_char(out, cs[k]);
            k = k + 1;
            assert(out@ =~= before + cs@.subrange(i as int, k as int));
        }
        push_char(out, '\n');
        proof {
            let nd = done.push(line);
            assert(nd.drop_last() =~= done);
            assert(out@ =~= start + indented_lines(nd, depth as nat));
            if j < cs@.len() {
                assert(nd + split_lines(cs@.skip(j + 1)) =~= done + split_lines(sk));
            } else {
                assert(nd =~= done + split_lines(sk));
            }
            done = nd;
        }
        if j == cs.len() {
            finished = true;
        } else {
            i = j + 1;
        }
    }
}

/// Appends the number of bytes of `s` in `‾`; see `underlined`.
fn push_underline(out: &mut String, text: &str, depth: usize)
    ensures
        final(out)@ == old(out)@ + underlined(text@, depth as nat),
{
    let ghost start = out@;
    push_tabs(out, depth);
    push_str(out, text);
    push_char(out, '\n');
    push_tabs(out, depth);
    let cs = chars_of(text);
    let ghost mid = out@;
    let mut i: usize = 0;
    while i < cs.len()
        invariant
            i <= cs@.len(),
            cs@ == text@,
            out@ == mid + Seq::new(utf8_len(cs@.take(i as int)), |_k: int| '‾'),
        decreases cs@.len() - i,
    {
        let c = cs[i];
        let u = c as u32;
        let n: usize = if u < 0x80 {
            1
        } else if u < 0x800 {
            2
        } else if u < 0x10000 {
            3
        } else {
            4
        };
        let mut m: usize = 0;
        let ghost before = out@;
        while m < n
            invariant
                m <= n,
                out@ == before + Seq::new(m as nat, |_k: int| '‾'),
            decreases n - m,
        {
            push_char(out, '‾');
            m = m + 1;
            assert(out@ =~= before + Seq::new(m as nat, |_k: int| '‾'));
        }
        proof {
            let t = cs@.take(i + 1);
            assert(t.drop_last() =~= cs@.take(i as int));
            assert(t.last() == c);
            assert(out@ =~= mid + Seq::new(utf8_len(t), |_k: int| '‾'));
        }
        i = i + 1;
    }
    push_char(out, '\n');
    proof {
        assert(cs@.take(i as int) =~= cs@);
        assert(out@ =~= start + underlined(text@, depth as nat));
    }
}

/// Appends the task tree `t` at `depth`; see `task_tree_text`.
fn push_task_tree(out: &mut String, t: &Task, depth: usize, now: NaiveDateTime)
    requires
        now.valid(),
        dates_valid(t@),
        depth + task_height(t@) < usize::MAX,
    ensures
        final(out)@ == old(out)@ + task_tree_text(t@, depth as nat, now),
    decreases t,
{
    let ghost start = out@;
    let text = t.to_string_at(now);
    push_indented(out, text.as_str(), depth);
    let ghost mid = out@;
    let ghost tv = tasks_view(t.subtasks@);
    proof {
        lemma_tasks_view(t.subtasks@);
        assert(tv.take(0) =~= Seq::<TaskView>::empty());
        assert(mid + seq![] =~= mid);
    }
    let mut i: usize = 0;
    while i < t.subtasks.len()
        invariant
            i <= t.subtasks@.len(),
            now.valid(),
            depth + task_height(t@) < usize::MAX,
            dates_valid(t@),
            tv == tasks_view(t.subtasks@),
            tv.len() == t.subtasks@.len(),
            forall|k: int| 0 <= k < t.subtasks@.len() ==> #[trigger] tv[k] == task_view(t.subtasks@[k]),
            out@ == mid + subtasks_text(tv.take(i as int), (depth + 1) as nat, now),
        decreases t.subtasks@.len() - i,
    {
        proof {
            vstd::std_specs::vec::axiom_vec_index_decreases(t.subtasks, i as int);
            let pre = tv.take(i + 1);
            assert(pre.subrange(0, pre.len() - 1) =~= tv.take(i as int));
            assert(pre[pre.len() - 1] == tv[i as int]);
            assert(t@.subtasks == tv);
            lemma_all_dates_valid(tv, i as int);
            lemma_tasks_height(tv, i as int);
        }
        let mut sub = String::new();
        push_task_tree(&mut sub, &t.subtasks[i], 0, now);
        proof {
            assert(sub@ =~= task_tree_text(tv[i as int], 0, now));
        }
        let ghost before = out@;
        push_indented(out, sub.as_str(), depth + 1);
        proof {
            let d1 = (depth + 1) as nat;
            assert(out@ =~= mid + subtasks_text(tv.take(i + 1), d1, now));
        }
        i = i + 1;
    }
    proof {
        assert(tv.take(i as int) =~= tv);
        assert(out@ =~= start + task_tree_text(t@, depth as nat, now));
    }
}

/// Appends the tree `v` at `depth`; see `vault_text`.
fn push_vault(out: &mut String, v: &VaultData, depth: usize, now: NaiveDateTime)
    requires
        now.valid(),
        tree_dates_valid(v@),
        depth + vault_height(v@) < usize::MAX,
    ensures
        final(out)@ == old(out)@ + vault_text(v@, depth as nat, now),
    decreases v,
{
    let ghost start = out@;
    match v {
        VaultData::Header(_, h, cs) => {
            push_underline(out, h.as_str(), depth);
            push_children(out, cs, depth + 1, now);
        },
        VaultData::Directory(n, cs) => {
            push_underline(out, n.as_str(), depth);
            push_children(out, cs, depth + 1, now);
        },
        VaultData::Task(t) => {
            push_task_tree(out, t, depth, now);
        },
        VaultData::Tracker(_) => {
            proof {
                assert(out@ =~= start + seq![]);
            }
        },
    }
}

/// Appends the nodes `cs` at `depth`; see `children_text`.
fn push_children(out: &mut String, cs: &Vec<VaultData>, depth: usize, now: NaiveDateTime)
    requires
        now.valid(),
        children_dates_valid(vaults_view(cs@)),
        depth + children_height(vaults_view(cs@)) < usize::MAX,
    ensures
        final(out)@ == old(out)@ + children_text(vaults_view(cs@), depth as nat, now),
    decreases cs,
{
    let ghost start = out@;
    let ghost cv = vaults_view(cs@);
    proof {
        lemma_vaults_view(cs@);
        assert(cv.take(0) =~= Seq::<VaultView>::empty());
        assert(start + seq![] =~= start);
    }
    let mut i: usize = 0;
    while i < cs.len()
        invariant
            i <= cs@.len(),
            now.valid(),
            depth + children_height(vaults_view(cs@)) < usize::MAX,
            children_dates_valid(vaults_view(cs@)),
            cv == vaults_view(cs@),
            cv.len() == cs@.len(),
            forall|k: int| 0 <= k < cs@.len() ==> #[trigger] cv[k] == vault_view(cs@[k]),
            out@ == start + children_text(cv.take(i as int), depth as nat, now),
        decreases cs@.len() - i,
    {
        proof {
            vstd::std_specs::vec::axiom_vec_index_decreases(*cs, i as int);
            let pre = cv.take(i + 1);
            assert(pre.subrange(0, pre.len() - 1) =~= cv.take(i as int));
            assert(pre[pre.len() - 1] == cv[i as int]);
            lemma_children_dates_valid(cv, i as int);
            lemma_children_height(cv, i as int);
        }
        push_vault(out, &cs[i], depth, now);
        proof {
            assert(out@ =~= start + children_text(cv.take(i + 1), depth as nat, now));
        }
        i = i + 1;
    }
    proof {
        assert(cv.take(i as int) =~= cv);
    }
}

impl VaultData {
    /// The tree as listed at `now`; see `vault_text`.
    pub fn to_string_at(&self, now: NaiveDateTime) -> (r: String)
        requires
            now.valid(),
            tree_dates_valid(self@),
            vault_height(self@) < usize::MAX,
        ensures
            r@ == vault_text(self@, 0, now),
    {
        let mut out = String::new();
        push_vault(&mut out, self, 0, now);
        proof {
            assert(out@ =~= vault_text(self@, 0, now));
        }
        out
    }

    /// The tree as listed now, by the system clock; see `vault_text`.
    pub fn to_string(&self) -> (r: String)
        requires
            tree_dates_valid(self@),
            vault_height(self@) < usize::MAX,
        ensures
            exists|now: NaiveDateTime| now.valid() && r@ == vault_text(self@, 0, now),
    {
        self.to_string_at(crate::date::now())
    }
}

impl Task {
    /// The task as listed now, by the system clock; see `task_text`.
    pub fn to_string(&self) -> (r: String)
        requires
            self.due_date matches Some(d) ==> d.valid(),
        ensures
            exists|now: NaiveDateTime| now.valid() && r@ == task_text(self@, now),
    {
        self.to_string_at(crate::date::now())
    }
}

} // verus!
