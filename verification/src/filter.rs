//! Search filters: a filter is a task read from the search prompt, and a task matches
//! it when it agrees with every attribute that the prompt sets.
use vstd::prelude::*;
use crate::config::TasksConfig;
use crate::date::{max_day_number, Date, NaiveDate};
use crate::task::{
    State, Task, TaskView, default_task_view, lemma_tasks_view, lemma_tasks_view_push, strings_view, task_view,
    tasks_view,
};
use crate::task_parser::{parse_task_at, parse_task_spec};
use crate::text::{chars_of, is_whitespace, is_whitespace_exec, push_str};
use crate::vault::{lemma_vaults_view, vault_view, vaults_view, VaultData, VaultView};
use crate::file_parser::week_left;

verus! {

/// What `str::to_lowercase` of std gives for `s`: the lowercase mapping of Unicode,
/// which may change the number of characters.
pub uninterp spec fn lowercase(s: Seq<char>) -> Seq<char>;

/// `str::to_lowercase` of std.
#[verifier::external_body]
pub fn to_lowercase(s: &str) -> (r: String)
    ensures
        r@ == lowercase(s@),
{
    s.to_lowercase()
}

/// Whether `needle` occurs in `hay` at `i`.
pub open spec fn occurs_at(hay: Seq<char>, needle: Seq<char>, i: int) -> bool {
    0 <= i && i + needle.len() <= hay.len() && hay.subrange(i, i + needle.len()) == needle
}

/// Whether `needle` occurs in `hay`, as `str::contains` of std says.
pub open spec fn contains(hay: Seq<char>, needle: Seq<char>) -> bool {
    exists|i: int| occurs_at(hay, needle, i)
}

/// Whether `needle` occurs in `hay`; see `contains`.
pub fn contains_chars(hay: &[char], needle: &[char]) -> (r: bool)
    ensures
        r == contains(hay@, needle@),
{
    let n = needle.len();
    let h = hay.len();
    if n > h {
        proof {
            assert forall|i: int| !occurs_at(hay@, needle@, i) by {}
        }
        return false;
    }
    let mut i: usize = 0;
    while i <= h - n
        invariant
            n == needle@.len(),
            h == hay@.len(),
            n <= h,
            i <= h - n + 1,
            forall|j: int| 0 <= j < i ==> !#[trigger] occurs_at(hay@, needle@, j),
        decreases h - n + 1 - i,
    {
        let mut k: usize = 0;
        let mut same = true;
        while k < n
            invariant
                n == needle@.len(),
                h == hay@.len(),
                i + n <= h,
                k <= n,
                same == (forall|m: int| 0 <= m < k ==> hay@[i + m] == needle@[m]),
            decreases n - k,
        {
            if hay[i + k] != needle[k] {
                same = false;
            }
            k = k + 1;
        }
        if same {
            proof {
                assert(hay@.subrange(i as int, i + n) =~= needle@);
                assert(occurs_at(hay@, needle@, i as int));
            }
            return true;
        }
        proof {
            assert(!occurs_at(hay@, needle@, i as int)) by {
                if occurs_at(hay@, needle@, i as int) {
                    assert forall|m: int| 0 <= m < n implies hay@[i + m] == needle@[m] by {
                        assert(hay@.subrange(i as int, i + n)[m] == hay@[i + m]);
                    }
                }
            }
        }
        i = i + 1;
    }
    proof {
        assert forall|j: int| !occurs_at(hay@, needle@, j) by {
            if occurs_at(hay@, needle@, j) {
                assert(0 <= j < i);
            }
        }
    }
    false
}

/// Length of the run of characters other than whitespace in `s` from `i` on.
pub open spec fn unicode_word_run(s: Seq<char>, i: int) -> nat
    decreases s.len() - i,
{
    if 0 <= i < s.len() && !is_whitespace(s[i]) {
        1 + unicode_word_run(s, i + 1)
    } else {
        0
    }
}

pub proof fn lemma_unicode_word_run(s: Seq<char>, i: int)
    requires
        0 <= i <= s.len(),
    ensures
        i + unicode_word_run(s, i) <= s.len(),
    decreases s.len() - i,
{
    if i < s.len() && !is_whitespace(s[i]) {
        lemma_unicode_word_run(s, i + 1);
    }
}

pub proof fn lemma_unicode_word_run_skip(s: Seq<char>, i: int, m: int)
    requires
        0 <= i <= s.len(),
        0 <= m,
    ensures
        unicode_word_run(s.skip(i), m) == unicode_word_run(s, i + m),
    decreases s.len() - i - m,
{
    if i + m < s.len() && !is_whitespace(s[i + m]) {
        lemma_unicode_word_run_skip(s, i, m + 1);
    }
}

/// The words of `s`, as `split_whitespace` of std gives them.
pub open spec fn split_whitespace(s: Seq<char>) -> Seq<Seq<char>>
    decreases s.len(),
{
    if s.len() == 0 {
        seq![]
    } else if is_whitespace(s[0]) {
        split_whitespace(s.drop_first())
    } else {
        let k = unicode_word_run(s, 0);
        proof {
            lemma_unicode_word_run(s, 0);
        }
        seq![s.take(k as int)] + split_whitespace(s.skip(k as int))
    }
}

/// The words of `cs`; see `split_whitespace`.
pub fn words_of(cs: &[char]) -> (r: Vec<Vec<char>>)
    ensures
        r@.len() == split_whitespace(cs@).len(),
        forall|j: int| 0 <= j < r@.len() ==> #[trigger] r@[j]@ == split_whitespace(cs@)[j],
{
    let ghost words = split_whitespace(cs@);
    let ghost mut done: Seq<Seq<char>> = seq![];
    let mut out: Vec<Vec<char>> = Vec::new();
    let mut i: usize = 0;
    proof {
        assert(cs@.skip(0) =~= cs@);
        assert(done + split_whitespace(cs@) =~= split_whitespace(cs@));
    }
    while i < cs.len()
        invariant
            i <= cs@.len(),
            words == split_whitespace(cs@),
            done + split_whitespace(cs@.skip(i as int)) == words,
            out@.len() == done.len(),
            forall|j: int| 0 <= j < out@.len() ==> #[trigger] out@[j]@ == done[j],
        decreases cs@.len() - i,
    {
        if is_whitespace_exec(cs[i]) {
            proof {
                assert(cs@.skip(i as int).drop_first() =~= cs@.skip(i + 1));
            }
            i = i + 1;
        } else {
            let mut j = i;
            while j < cs.len() && !is_whitespace_exec(cs[j])
                invariant
                    i <= j <= cs@.len(),
                    unicode_word_run(cs@, i as int) == (j - i) + unicode_word_run(cs@, j as int),
                decreases cs@.len() - j,
            {
                j = j + 1;
            }
            let w = crate::task_parser::chars_range(cs, i, j);
            proof {
                let sk = cs@.skip(i as int);
                lemma_unicode_word_run_skip(cs@, i as int, 0);
                assert(sk.take((j - i) as int) =~= w@);
                assert(sk.skip((j - i) as int) =~= cs@.skip(j as int));
                assert(split_whitespace(sk) == seq![w@] + split_whitespace(cs@.skip(j as int)));
                assert(done.push(w@) + split_whitespace(cs@.skip(j as int)) =~= done
                    + split_whitespace(sk));
            }
            out.push(w);
            proof {
                done = done.push(out@[out@.len() - 1]@);
            }
            i = j;
        }
    }
    proof {
        assert(cs@.skip(i as int).len() == 0);
        assert(done =~= words);
    }
    out
}

/// Whether a task named `name` matches the name `filter_name` of a filter: an empty
/// filter name matches every name, otherwise one of its words, in lowercase, must
/// occur in the lowercase name.
pub open spec fn names_match_spec(name: Seq<char>, filter_name: Seq<char>) -> bool {
    filter_name.len() == 0 || exists|i: int|
        0 <= i < split_whitespace(lowercase(filter_name)).len() && contains(
            lowercase(name),
            #[trigger] split_whitespace(lowercase(filter_name))[i],
        )
}

/// Whether the task named `name` matches the filter name `filter_name`; see
/// `names_match_spec`.
pub fn names_match(name: &str, filter_name: &str) -> (r: bool)
    ensures
        r == names_match_spec(name@, filter_name@),
{
    if filter_name.unicode_len() == 0 {
        return true;
    }
    let lname = chars_of(to_lowercase(name).as_str());
    let lfilter = chars_of(to_lowercase(filter_name).as_str());
    let ghost words = split_whitespace(lfilter@);
    let ghost mut done: Seq<Seq<char>> = seq![];
    let mut i: usize = 0;
    proof {
        assert(lfilter@.skip(0) =~= lfilter@);
        assert(done + split_whitespace(lfilter@) =~= split_whitespace(lfilter@));
    }
    while i < lfilter.len()
        invariant
            i <= lfilter@.len(),
            lname@ == lowercase(name@),
            lfilter@ == lowercase(filter_name@),
            words == split_whitespace(lfilter@),
            done + split_whitespace(lfilter@.skip(i as int)) == words,
            forall|j: int| 0 <= j < done.len() ==> !contains(lname@, #[trigger] done[j]),
        decreases lfilter@.len() - i,
    {
        if is_whitespace_exec(lfilter[i]) {
            proof {
                assert(lfilter@.skip(i as int).drop_first() =~= lfilter@.skip(i + 1));
            }
            i = i + 1;
        } else {
            let mut j = i;
            while j < lfilter.len() && !is_whitespace_exec(lfilter[j])
                invariant
                    i <= j <= lfilter@.len(),
                    unicode_word_run(lfilter@, i as int) == (j - i) + unicode_word_run(
                        lfilter@,
                        j as int,
                    ),
                decreases lfilter@.len() - j,
            {
                j = j + 1;
            }
            let w = crate::task_parser::chars_range(&lfilter, i, j);
            proof {
                let sk = lfilter@.skip(i as int);
                lemma_unicode_word_run_skip(lfilter@, i as int, 0);
                assert(sk.take((j - i) as int) =~= w@);
                assert(sk.skip((j - i) as int) =~= lfilter@.skip(j as int));
                assert(split_whitespace(sk) == seq![w@] + split_whitespace(lfilter@.skip(j as int)));
                assert(done.push(w@) + split_whitespace(lfilter@.skip(j as int)) =~= done
                    + split_whitespace(sk));
            }
            if contains_chars(&lname, &w) {
                proof {
                    assert(words[done.len() as int] == w@);
                    assert(lname@ == lowercase(name@));
                    assert(lfilter@ == lowercase(filter_name@));
                    assert(contains(
                        lowercase(name@),
                        split_whitespace(lowercase(filter_name@))[done.len() as int],
                    ));
                }
                return true;
            }
            proof {
                done = done.push(w@);
            }
            i = j;
        }
    }
    proof {
        assert(lfilter@.skip(i as int).len() == 0);
        assert(done =~= words);
    }
    false
}

/// A search filter: the attributes of `task` that are set, and the state when the
/// prompt gave one.
#[derive(Default, PartialEq, Eq, Debug)]
pub struct Filter {
    pub task: Task,
    pub state: Option<State>,
}

/// Whether a task in state `t` matches a filter on state `s`: to do and incomplete
/// match each other, and so do done and canceled.
pub open spec fn states_match(s: State, t: State) -> bool {
    ((s is ToDo || s is Incomplete) && (t is ToDo || t is Incomplete)) || ((s is Done
        || s is Canceled) && (t is Done || t is Canceled))
}

/// Whether a due date matches the due date of a filter: a filter without one matches
/// any; otherwise both are the same day, or the same day and time.
pub open spec fn dates_match(task: Option<Date>, filter: Option<Date>) -> bool {
    match filter {
        None => true,
        Some(Date::DayTime(b)) => task matches Some(Date::DayTime(a)) && a == b,
        Some(Date::Day(b)) => task matches Some(Date::Day(a)) && a == b,
    }
}

/// The tags of a task or filter, no tags when there are none.
pub open spec fn tags_or_empty(t: Option<Seq<Seq<char>>>) -> Seq<Seq<char>> {
    match t {
        Some(s) => s,
        None => seq![],
    }
}

/// Whether every tag of the filter, in lowercase, occurs in some tag of the task, in
/// lowercase.
pub open spec fn tags_match(task: Seq<Seq<char>>, filter: Seq<Seq<char>>) -> bool {
    forall|i: int| 0 <= i < filter.len() ==> #[trigger] tag_found(task, filter[i])
}

/// Whether the tag `f`, in lowercase, occurs in some tag of `task`, in lowercase.
pub open spec fn tag_found(task: Seq<Seq<char>>, f: Seq<char>) -> bool {
    exists|j: int| 0 <= j < task.len() && contains(lowercase(#[trigger] task[j]), lowercase(f))
}

/// Whether the task `t` matches the filter made of `f` and the state `s`.
pub open spec fn task_matches(t: TaskView, f: TaskView, s: Option<State>) -> bool {
    &&& match s {
        None => true,
        Some(st) => states_match(st, t.state),
    }
    &&& names_match_spec(t.name, f.name)
    &&& (f.is_today ==> t.is_today)
    &&& dates_match(t.due_date, f.due_date)
    &&& tags_match(tags_or_empty(t.tags), tags_or_empty(f.tags))
    &&& (f.priority > 0 ==> f.priority == t.priority)
}

fn state_matches(filter_state: Option<State>, task_state: State) -> (r: bool)
    ensures
        r == match filter_state {
            None => true,
            Some(st) => states_match(st, task_state),
        },
{
    match filter_state {
        None => true,
        Some(st) => match (st, task_state) {
            (State::ToDo, State::ToDo) | (State::ToDo, State::Incomplete) | (
                State::Incomplete,
                State::ToDo,
            ) | (State::Incomplete, State::Incomplete) => true,
            (State::Done, State::Done) | (State::Done, State::Canceled) | (
                State::Canceled,
                State::Done,
            ) | (State::Canceled, State::Canceled) => true,
            _ => false,
        },
    }
}

fn due_dates_match(task: &Option<Date>, filter: &Option<Date>) -> (r: bool)
    ensures
        r == dates_match(*task, *filter),
{
    match (task, filter) {
        (_, None) => true,
        (Some(Date::DayTime(a)), Some(Date::DayTime(b))) => a.date.year == b.date.year
            && a.date.month == b.date.month && a.date.day == b.date.day && a.time.hour
            == b.time.hour && a.time.minute == b.time.minute && a.time.second == b.time.second
            && a.time.nano == b.time.nano,
        (Some(Date::Day(a)), Some(Date::Day(b))) => a.year == b.year && a.month == b.month && a.day
            == b.day,
        (_, _) => false,
    }
}

/// Whether every tag of `filter` occurs, in lowercase, in some tag of `task`.
fn all_tags_match(task: &Option<Vec<String>>, filter: &Option<Vec<String>>) -> (r: bool)
    ensures
        r == tags_match(
            tags_or_empty(crate::task::tags_view(*task)),
            tags_or_empty(crate::task::tags_view(*filter)),
        ),
{
    let empty: Vec<String> = Vec::new();
    let tt = match task {
        Some(v) => v,
        None => &empty,
    };
    let ft = match filter {
        Some(v) => v,
        None => &empty,
    };
    let ghost tv = tags_or_empty(crate::task::tags_view(*task));
    let ghost fv = tags_or_empty(crate::task::tags_view(*filter));
    proof {
        assert(tv =~= strings_view(tt@));
        assert(fv =~= strings_view(ft@));
    }
    let mut lower_tags: Vec<Vec<char>> = Vec::new();
    let mut j: usize = 0;
    while j < tt.len()
        invariant
            j <= tt@.len(),
            tv == strings_view(tt@),
            lower_tags@.len() == j,
            forall|m: int| 0 <= m < j ==> (#[trigger] lower_tags@[m])@ == lowercase(tv[m]),
        decreases tt@.len() - j,
    {
        lower_tags.push(chars_of(to_lowercase(tt[j].as_str()).as_str()));
        j = j + 1;
    }
    let mut i: usize = 0;
    while i < ft.len()
        invariant
            i <= ft@.len(),
            tv == strings_view(tt@),
            fv == strings_view(ft@),
            tv == tags_or_empty(crate::task::tags_view(*task)),
            fv == tags_or_empty(crate::task::tags_view(*filter)),
            lower_tags@.len() == tt@.len(),
            forall|m: int| 0 <= m < tt@.len() ==> (#[trigger] lower_tags@[m])@ == lowercase(tv[m]),
            forall|k: int| 0 <= k < i ==> #[trigger] tag_found(tv, fv[k]),
        decreases ft@.len() - i,
    {
        let lf = chars_of(to_lowercase(ft[i].as_str()).as_str());
        let mut found = false;
        let mut m: usize = 0;
        while m < lower_tags.len()
            invariant
                i < ft@.len(),
                fv == strings_view(ft@),
                tv == strings_view(tt@),
                lf@ == lowercase(fv[i as int]),
                m <= lower_tags@.len(),
                lower_tags@.len() == tt@.len(),
                forall|q: int|
                    0 <= q < tt@.len() ==> (#[trigger] lower_tags@[q])@ == lowercase(tv[q]),
                found ==> tag_found(tv, fv[i as int]),
                !found ==> forall|q: int|
                    0 <= q < m ==> !contains(lowercase(#[trigger] tv[q]), lowercase(fv[i as int])),
            decreases lower_tags@.len() - m,
        {
            if !found {
                if contains_chars(&lower_tags[m], &lf) {
                    found = true;
                }
            }
            m = m + 1;
        }
        if !found {
            proof {
                assert(!tag_found(tv, fv[i as int]));
                assert(0 <= i < fv.len());
                assert(!tags_match(tv, fv));
            }
            return false;
        }
        i = i + 1;
    }
    true
}

/// A filter that names a priority keeps only tasks of exactly that priority: a task of
/// any other priority, higher or lower, does not match, whatever else it holds.
pub proof fn lemma_priority_filter_is_exact(t: TaskView, f: TaskView, s: Option<State>)
    ensures
        f.priority > 0 && t.priority != f.priority ==> !task_matches(t, f, s),
        task_matches(t, f, s) && f.priority > 0 ==> t.priority == f.priority,
{
}

/// Whether `task` matches `filter`; see `task_matches`.
pub fn filter_task(task: &Task, filter: &Filter) -> (r: bool)
    ensures
        r == task_matches(task@, filter.task@, filter.state),
        r && filter.task.priority > 0 ==> task.priority == filter.task.priority,
{
    let state_match = state_matches(filter.state, task.state);
    let name_match = names_match(task.name.as_str(), filter.task.name.as_str());
    let today_flag_match = if filter.task.is_today {
        task.is_today
    } else {
        true
    };
    let date_match = due_dates_match(&task.due_date, &filter.task.due_date);
    let tag_match = all_tags_match(&task.tags, &filter.task.tags);
    let priority_match = if filter.task.priority > 0 {
        filter.task.priority == task.priority
    } else {
        true
    };
    state_match && name_match && today_flag_match && date_match && tag_match && priority_match
}

/// `t` when it matches the filter; otherwise `t` with only its subtasks that match,
/// or that hold a subtask that matches; `None` when none is left.
pub open spec fn filtered_task(t: TaskView, f: TaskView, s: Option<State>) -> Option<TaskView>
    decreases t,
{
    if task_matches(t, f, s) {
        Some(t)
    } else {
        let kept = filtered_subtasks(t.subtasks, f, s);
        if kept.len() == 0 {
            None
        } else {
            Some(TaskView { subtasks: kept, ..t })
        }
    }
}

/// The tasks of `ts` that are kept by the filter, each filtered, in order.
pub open spec fn filtered_subtasks(ts: Seq<TaskView>, f: TaskView, s: Option<State>) -> Seq<TaskView>
    decreases ts,
{
    if ts.len() == 0 {
        seq![]
    } else {
        let rest = filtered_subtasks(ts.subrange(0, ts.len() - 1), f, s);
        match filtered_task(ts[ts.len() - 1], f, s) {
            Some(c) => rest.push(c),
            None => rest,
        }
    }
}

/// The part of the tree `v` that the filter keeps: the tasks that match, with the
/// headers and directories that lead to them, and the trackers whose name matches;
/// `None` when nothing is left.
pub open spec fn filter_spec(v: VaultView, f: TaskView, s: Option<State>) -> Option<VaultView>
    decreases v,
{
    match v {
        VaultView::Header(l, n, cs) => {
            let k = filter_children(cs, f, s);
            if k.len() == 0 {
                None
            } else {
                Some(VaultView::Header(l, n, k))
            }
        },
        VaultView::Directory(n, cs) => {
            let k = filter_children(cs, f, s);
            if k.len() == 0 {
                None
            } else {
                Some(VaultView::Directory(n, k))
            }
        },
        VaultView::Task(t) => match filtered_task(t, f, s) {
            Some(c) => Some(VaultView::Task(c)),
            None => None,
        },
        VaultView::Tracker(tr) => if names_match_spec(tr.name, f.name) {
            Some(v)
        } else {
            None
        },
    }
}

/// The nodes of `cs` that the filter keeps, each filtered, in order.
pub open spec fn filter_children(cs: Seq<VaultView>, f: TaskView, s: Option<State>) -> Seq<VaultView>
    decreases cs,
{
    if cs.len() == 0 {
        seq![]
    } else {
        let rest = filter_children(cs.subrange(0, cs.len() - 1), f, s);
        match filter_spec(cs[cs.len() - 1], f, s) {
            Some(c) => rest.push(c),
            None => rest,
        }
    }
}

/// Whether `t` or one of the tasks below it matches the filter.
pub open spec fn task_has_match(t: TaskView, f: TaskView, s: Option<State>) -> bool
    decreases t,
{
    task_matches(t, f, s) || subtasks_have_match(t.subtasks, f, s)
}

/// Whether one of the tasks of `ts`, or of the tasks below them, matches the filter.
pub open spec fn subtasks_have_match(ts: Seq<TaskView>, f: TaskView, s: Option<State>) -> bool
    decreases ts,
{
    if ts.len() == 0 {
        false
    } else {
        subtasks_have_match(ts.subrange(0, ts.len() - 1), f, s) || task_has_match(
            ts[ts.len() - 1],
            f,
            s,
        )
    }
}

/// Whether the tree `v` holds a task that matches the filter, or a tracker whose name
/// matches it.
pub open spec fn vault_has_match(v: VaultView, f: TaskView, s: Option<State>) -> bool
    decreases v,
{
    match v {
        VaultView::Header(_, _, cs) => children_have_match(cs, f, s),
        VaultView::Directory(_, cs) => children_have_match(cs, f, s),
        VaultView::Task(t) => task_has_match(t, f, s),
        VaultView::Tracker(tr) => names_match_spec(tr.name, f.name),
    }
}

/// Whether one of the trees of `cs` holds a match; see `vault_has_match`.
pub open spec fn children_have_match(cs: Seq<VaultView>, f: TaskView, s: Option<State>) -> bool
    decreases cs,
{
    if cs.len() == 0 {
        false
    } else {
        children_have_match(cs.subrange(0, cs.len() - 1), f, s) || vault_has_match(
            cs[cs.len() - 1],
            f,
            s,
        )
    }
}

proof fn lemma_filtered_task_none(t: TaskView, f: TaskView, s: Option<State>)
    ensures
        (filtered_task(t, f, s) is None) == !task_has_match(t, f, s),
    decreases t,
{
    lemma_filtered_subtasks_empty(t.subtasks, f, s);
}

proof fn lemma_filtered_subtasks_empty(ts: Seq<TaskView>, f: TaskView, s: Option<State>)
    ensures
        (filtered_subtasks(ts, f, s).len() == 0) == !subtasks_have_match(ts, f, s),
    decreases ts,
{
    if ts.len() > 0 {
        lemma_filtered_subtasks_empty(ts.subrange(0, ts.len() - 1), f, s);
        lemma_filtered_task_none(ts[ts.len() - 1], f, s);
    }
}

proof fn lemma_filter_spec_none(v: VaultView, f: TaskView, s: Option<State>)
    ensures
        (filter_spec(v, f, s) is None) == !vault_has_match(v, f, s),
    decreases v,
{
    match v {
        VaultView::Header(_, _, cs) => lemma_filter_children_empty(cs, f, s),
        VaultView::Directory(_, cs) => lemma_filter_children_empty(cs, f, s),
        VaultView::Task(t) => lemma_filtered_task_none(t, f, s),
        VaultView::Tracker(_) => {},
    }
}

proof fn lemma_filter_children_empty(cs: Seq<VaultView>, f: TaskView, s: Option<State>)
    ensures
        (filter_children(cs, f, s).len() == 0) == !children_have_match(cs, f, s),
    decreases cs,
{
    if cs.len() > 0 {
        lemma_filter_children_empty(cs.subrange(0, cs.len() - 1), f, s);
        lemma_filter_spec_none(cs[cs.len() - 1], f, s);
    }
}

/// Filtering a tree leaves nothing exactly when no task in it matches the filter and
/// no tracker in it has a name that matches.
pub proof fn lemma_filter_none_iff_no_match(v: VaultView, f: TaskView, s: Option<State>)
    ensures
        (filter_spec(v, f, s) is None) == !vault_has_match(v, f, s),
{
    lemma_filter_spec_none(v, f, s);
}

/// Filters the task `t`; see `filtered_task`.
pub fn filter_task_tree(t: &Task, task_filter: &Filter) -> (r: Option<Task>)
    ensures
        match filtered_task(t@, task_filter.task@, task_filter.state) {
            Some(v) => r matches Some(c) && c@ == v,
            None => r is None,
        },
    decreases t,
{
    if filter_task(t, task_filter) {
        return Some(t.duplicate());
    }
    let ghost ts = tasks_view(t.subtasks@);
    proof {
        lemma_tasks_view(t.subtasks@);
    }
    let mut kept: Vec<Task> = Vec::new();
    let mut i: usize = 0;
    proof {
        assert(ts.take(0) =~= Seq::<TaskView>::empty());
        assert(tasks_view(kept@) =~= seq![]);
    }
    while i < t.subtasks.len()
        invariant
            i <= t.subtasks@.len(),
            ts == tasks_view(t.subtasks@),
            ts.len() == t.subtasks@.len(),
            forall|j: int| 0 <= j < t.subtasks@.len() ==> #[trigger] ts[j] == task_view(t.subtasks@[j]),
            tasks_view(kept@) == filtered_subtasks(
                ts.take(i as int),
                task_filter.task@,
                task_filter.state,
            ),
        decreases t.subtasks@.len() - i,
    {
        proof {
            vstd::std_specs::vec::axiom_vec_index_decreases(t.subtasks, i as int);
            let pre = ts.take(i + 1);
            assert(pre.subrange(0, pre.len() - 1) =~= ts.take(i as int));
            assert(pre[pre.len() - 1] == ts[i as int]);
        }
        let ghost before = kept@;
        match filter_task_tree(&t.subtasks[i], task_filter) {
            Some(c) => {
                kept.push(c);
                proof {
                    lemma_tasks_view_push(before, c);
                }
            },
            None => {},
        }
        i = i + 1;
    }
    proof {
        assert(ts.take(i as int) =~= ts);
    }
    if kept.len() == 0 {
        proof {
            lemma_tasks_view(kept@);
        }
        None
    } else {
        proof {
            lemma_tasks_view(kept@);
        }
        let mut c = t.duplicate();
        c.subtasks = kept;
        Some(c)
    }
}

/// Filters the tree `vault_data`; see `filter_spec`. Gives `None` exactly when no task
/// in it matches the filter and no tracker in it has a name that matches.
pub fn filter(vault_data: &VaultData, task_filter: &Filter) -> (r: Option<VaultData>)
    ensures
        match filter_spec(vault_data@, task_filter.task@, task_filter.state) {
            Some(v) => r matches Some(c) && c@ == v,
            None => r is None,
        },
        r is None <==> !vault_has_match(vault_data@, task_filter.task@, task_filter.state),
    decreases vault_data,
{
    proof {
        lemma_filter_none_iff_no_match(vault_data@, task_filter.task@, task_filter.state);
    }
    match vault_data {
        VaultData::Header(level, name, children) => {
            let k = filter_nodes(children, task_filter);
            if k.len() == 0 {
                proof {
                    lemma_vaults_view(k@);
                }
                None
            } else {
                proof {
                    lemma_vaults_view(k@);
                }
                Some(VaultData::Header(*level, name.clone(), k))
            }
        },
        VaultData::Directory(name, children) => {
            let k = filter_nodes(children, task_filter);
            if k.len() == 0 {
                proof {
                    lemma_vaults_view(k@);
                }
                None
            } else {
                proof {
                    lemma_vaults_view(k@);
                }
                Some(VaultData::Directory(name.clone(), k))
            }
        },
        VaultData::Task(task) => match filter_task_tree(task, task_filter) {
            Some(c) => Some(VaultData::Task(c)),
            None => None,
        },
        VaultData::Tracker(tracker) => {
            if names_match(tracker.name.as_str(), task_filter.task.name.as_str()) {
                Some(VaultData::Tracker(tracker.duplicate()))
            } else {
                None
            }
        },
    }
}

/// Filters each node of `children`; see `filter_children`.
fn filter_nodes(children: &Vec<VaultData>, task_filter: &Filter) -> (r: Vec<VaultData>)
    ensures
        vaults_view(r@) == filter_children(
            vaults_view(children@),
            task_filter.task@,
            task_filter.state,
        ),
    decreases children,
{
    let ghost cs = vaults_view(children@);
    proof {
        lemma_vaults_view(children@);
    }
    let mut kept: Vec<VaultData> = Vec::new();
    let mut i: usize = 0;
    proof {
        assert(cs.take(0) =~= Seq::<VaultView>::empty());
        assert(vaults_view(kept@) =~= seq![]);
    }
    while i < children.len()
        invariant
            i <= children@.len(),
            cs == vaults_view(children@),
            cs.len() == children@.len(),
            forall|j: int| 0 <= j < children@.len() ==> #[trigger] cs[j] == vault_view(children@[j]),
            vaults_view(kept@) == filter_children(
                cs.take(i as int),
                task_filter.task@,
                task_filter.state,
            ),
        decreases children@.len() - i,
    {
        proof {
            vstd::std_specs::vec::axiom_vec_index_decreases(*children, i as int);
            let pre = cs.take(i + 1);
            assert(pre.subrange(0, pre.len() - 1) =~= cs.take(i as int));
            assert(pre[pre.len() - 1] == cs[i as int]);
        }
        let ghost before = kept@;
        match filter(&children[i], task_filter) {
            Some(c) => {
                kept.push(c);
                proof {
                    crate::file_parser::lemma_vaults_push(before, c);
                }
            },
            None => {},
        }
        i = i + 1;
    }
    proof {
        assert(cs.take(i as int) =~= cs);
    }
    kept
}

/// The tasks of the task tree `t` that match the filter: with `explore`, those among
/// its subtasks first, then `t` itself when it matches.
pub open spec fn task_to_vec(t: TaskView, f: TaskView, s: Option<State>, explore: bool) -> Seq<TaskView>
    decreases t,
{
    (if explore {
        subtasks_to_vec(t.subtasks, f, s, explore)
    } else {
        seq![]
    }) + (if task_matches(t, f, s) {
        seq![t]
    } else {
        seq![]
    })
}

/// The matching tasks of each task tree of `ts`, in order.
pub open spec fn subtasks_to_vec(ts: Seq<TaskView>, f: TaskView, s: Option<State>, explore: bool) -> Seq<TaskView>
    decreases ts,
{
    if ts.len() == 0 {
        seq![]
    } else {
        subtasks_to_vec(ts.subrange(0, ts.len() - 1), f, s, explore) + task_to_vec(
            ts[ts.len() - 1],
            f,
            s,
            explore,
        )
    }
}

/// The tasks of the tree `v` that match the filter, in the order of the tree; trackers
/// give none.
pub open spec fn vault_to_vec(v: VaultView, f: TaskView, s: Option<State>, explore: bool) -> Seq<TaskView>
    decreases v,
{
    match v {
        VaultView::Header(_, _, cs) => children_to_vec(cs, f, s, explore),
        VaultView::Directory(_, cs) => children_to_vec(cs, f, s, explore),
        VaultView::Task(t) => task_to_vec(t, f, s, explore),
        VaultView::Tracker(_) => seq![],
    }
}

/// The matching tasks of each node of `cs`, in order.
pub open spec fn children_to_vec(cs: Seq<VaultView>, f: TaskView, s: Option<State>, explore: bool) -> Seq<TaskView>
    decreases cs,
{
    if cs.len() == 0 {
        seq![]
    } else {
        children_to_vec(cs.subrange(0, cs.len() - 1), f, s, explore) + vault_to_vec(
            cs[cs.len() - 1],
            f,
            s,
            explore,
        )
    }
}

/// Appends to `res` the tasks of the task tree `t` that match; see `task_to_vec`.
fn task_to_vec_layer(t: &Task, task_filter: &Filter, explore_children: bool, res: &mut Vec<Task>)
    ensures
        tasks_view(final(res)@) == tasks_view(old(res)@) + task_to_vec(
            t@,
            task_filter.task@,
            task_filter.state,
            explore_children,
        ),
    decreases t,
{
    let ghost start = tasks_view(res@);
    if explore_children {
        let ghost ts = tasks_view(t.subtasks@);
        proof {
            lemma_tasks_view(t.subtasks@);
            assert(ts.take(0) =~= Seq::<TaskView>::empty());
            assert(start + seq![] =~= start);
        }
        let mut i: usize = 0;
        while i < t.subtasks.len()
            invariant
                i <= t.subtasks@.len(),
                ts == tasks_view(t.subtasks@),
                ts.len() == t.subtasks@.len(),
                forall|j: int|
                    0 <= j < t.subtasks@.len() ==> #[trigger] ts[j] == task_view(t.subtasks@[j]),
                tasks_view(res@) == start + subtasks_to_vec(
                    ts.take(i as int),
                    task_filter.task@,
                    task_filter.state,
                    explore_children,
                ),
                explore_children,
            decreases t.subtasks@.len() - i,
        {
            proof {
                vstd::std_specs::vec::axiom_vec_index_decreases(t.subtasks, i as int);
                let pre = ts.take(i + 1);
                assert(pre.subrange(0, pre.len() - 1) =~= ts.take(i as int));
                assert(pre[pre.len() - 1] == ts[i as int]);
            }
            task_to_vec_layer(&t.subtasks[i], task_filter, explore_children, res);
            proof {
                let f = task_filter.task@;
                let st = task_filter.state;
                assert(start + subtasks_to_vec(ts.take(i + 1), f, st, explore_children) =~= start
                    + subtasks_to_vec(ts.take(i as int), f, st, explore_children) + task_to_vec(
                    ts[i as int],
                    f,
                    st,
                    explore_children,
                ));
            }
            i = i + 1;
        }
        proof {
            assert(ts.take(i as int) =~= ts);
        }
    } else {
        proof {
            assert(start + seq![] =~= start);
        }
    }
    let ghost mid = tasks_view(res@);
    if filter_task(t, task_filter) {
        let ghost before = res@;
        let c = t.duplicate();
        res.push(c);
        proof {
            lemma_tasks_view_push(before, c);
        }
    }
    proof {
        let f = task_filter.task@;
        let st = task_filter.state;
        let sub = if explore_children {
            subtasks_to_vec(t@.subtasks, f, st, explore_children)
        } else {
            seq![]
        };
        if task_matches(t@, f, st) {
            assert(tasks_view(res@) =~= start + (sub + seq![t@]));
        } else {
            assert(tasks_view(res@) =~= start + (sub + seq![]));
        }
    }
}

/// Appends to `res` the tasks of the tree `vault_data` that match `task_filter`, and,
/// with `explore_children`, those among the subtasks too; see `vault_to_vec`.
pub fn filter_to_vec_layer(
    vault_data: &VaultData,
    task_filter: &Filter,
    explore_children: bool,
    res: &mut Vec<Task>,
)
    ensures
        tasks_view(final(res)@) == tasks_view(old(res)@) + vault_to_vec(
            vault_data@,
            task_filter.task@,
            task_filter.state,
            explore_children,
        ),
    decreases vault_data,
{
    let ghost start = tasks_view(res@);
    match vault_data {
        VaultData::Header(_, _, children) => {
            children_to_vec_layer(children, task_filter, explore_children, res);
        },
        VaultData::Directory(_, children) => {
            children_to_vec_layer(children, task_filter, explore_children, res);
        },
        VaultData::Task(task) => {
            task_to_vec_layer(task, task_filter, explore_children, res);
        },
        VaultData::Tracker(_) => {
            proof {
                assert(start + seq![] =~= start);
            }
        },
    }
}

/// Appends to `res` the matching tasks of each node of `children`; see
/// `children_to_vec`.
fn children_to_vec_layer(
    children: &Vec<VaultData>,
    task_filter: &Filter,
    explore_children: bool,
    res: &mut Vec<Task>,
)
    ensures
        tasks_view(final(res)@) == tasks_view(old(res)@) + children_to_vec(
            vaults_view(children@),
            task_filter.task@,
            task_filter.state,
            explore_children,
        ),
    decreases children,
{
    let ghost start = tasks_view(res@);
    let ghost cs = vaults_view(children@);
    proof {
        lemma_vaults_view(children@);
        assert(cs.take(0) =~= Seq::<VaultView>::empty());
        assert(start + seq![] =~= start);
    }
    let mut i: usize = 0;
    while i < children.len()
        invariant
            i <= children@.len(),
            cs == vaults_view(children@),
            cs.len() == children@.len(),
            forall|j: int|
                0 <= j < children@.len() ==> #[trigger] cs[j] == vault_view(children@[j]),
            tasks_view(res@) == start + children_to_vec(
                cs.take(i as int),
                task_filter.task@,
                task_filter.state,
                explore_children,
            ),
        decreases children@.len() - i,
    {
        proof {
            vstd::std_specs::vec::axiom_vec_index_decreases(*children, i as int);
            let pre = cs.take(i + 1);
            assert(pre.subrange(0, pre.len() - 1) =~= cs.take(i as int));
            assert(pre[pre.len() - 1] == cs[i as int]);
        }
        filter_to_vec_layer(&children[i], task_filter, explore_children, res);
        proof {
            let f = task_filter.task@;
            let st = task_filter.state;
            assert(start + children_to_vec(cs.take(i + 1), f, st, explore_children)
                =~= start + children_to_vec(cs.take(i as int), f, st, explore_children)
                + vault_to_vec(cs[i as int], f, st, explore_children));
        }
        i = i + 1;
    }
    proof {
        assert(cs.take(i as int) =~= cs);
    }
}

/// The tasks of `vault_data` that match `filter`, subtasks included, each after its
/// own matching subtasks; see `vault_to_vec`.
pub fn filter_to_vec(vault_data: &VaultData, filter: &Filter) -> (r: Vec<Task>)
    ensures
        tasks_view(r@) == vault_to_vec(vault_data@, filter.task@, filter.state, true),
{
    let mut res: Vec<Task> = Vec::new();
    proof {
        assert(tasks_view(res@) =~= seq![]);
    }
    filter_to_vec_layer(vault_data, filter, true, &mut res);
    proof {
        assert(seq![] + vault_to_vec(vault_data@, filter.task@, filter.state, true) =~= vault_to_vec(
            vault_data@,
            filter.task@,
            filter.state,
            true,
        ));
    }
    res
}

/// Whether `s` starts with `- [`.
pub open spec fn has_state_prefix(s: Seq<char>) -> bool {
    s.len() >= 3 && s[0] == '-' && s[1] == ' ' && s[2] == '['
}

/// The task of a search prompt that does not read as a task.
pub open spec fn incomplete_prompt_task() -> TaskView {
    TaskView { name: "Incomplete search prompt"@, ..default_task_view() }
}

/// The filter that the search prompt `input` writes, read on `today`: the prompt is
/// read as a task line, `- [ ]` put in front when it does not start with `- [`; the
/// state counts only when the prompt gave one. A prompt that does not read as a task
/// gives the task named `Incomplete search prompt`.
pub open spec fn search_spec(input: Seq<char>, config: TasksConfig, today: NaiveDate) -> (TaskView, Option<State>) {
    let has_state = has_state_prefix(input);
    let line = if has_state {
        input
    } else {
        "- [ ]"@ + input
    };
    let task = match parse_task_spec(line, seq![], config, today) {
        Some(t) => t,
        None => incomplete_prompt_task(),
    };
    (task, if has_state {
        Some(task.state)
    } else {
        None
    })
}

/// Reads the search prompt `input` on `today`; see `search_spec`.
pub fn parse_search_input_at(input: &str, config: &TasksConfig, today: NaiveDate) -> (r: Filter)
    requires
        today.valid(),
        today.days() + 7 <= max_day_number(),
    ensures
        (r.task@, r.state) == search_spec(input@, *config, today),
{
    let cs = chars_of(input);
    let has_state = cs.len() >= 3 && cs[0] == '-' && cs[1] == ' ' && cs[2] == '[';
    let mut line = String::new();
    if !has_state {
        push_str(&mut line, "- [ ]");
    }
    push_str(&mut line, input);
    proof {
        reveal_strlit("- [ ]");
        if has_state {
            assert(line@ =~= input@);
        }
    }
    let task = match parse_task_at(line.as_str(), String::new(), config, today) {
        Ok(t) => t,
        Err(_) => incomplete_prompt(),
    };
    let state = if has_state {
        Some(task.state)
    } else {
        None
    };
    Filter { task, state }
}

/// The task of a search prompt that does not read as a task.
fn incomplete_prompt() -> (r: Task)
    ensures
        r@ == incomplete_prompt_task(),
{
    let mut t = Task::default();
    t.name = String::from_str("Incomplete search prompt");
    proof {
        reveal_strlit("Incomplete search prompt");
    }
    t
}

/// Reads the search prompt `input` on the day of the system clock; see `search_spec`.
/// In the last week that dates express, the prompt is read as the task named
/// `Incomplete search prompt`.
pub fn parse_search_input(input: &str, config: &TasksConfig) -> (r: Filter)
    ensures
        (r.task@, r.state) == (incomplete_prompt_task(), None::<State>) || exists|today: NaiveDate|
            today.valid() && (r.task@, r.state) == search_spec(input@, *config, today),
{
    let today = crate::date::now().date;
    if week_left(today) {
        parse_search_input_at(input, config, today)
    } else {
        Filter { task: incomplete_prompt(), state: None }
    }
}

/// An empty search prompt keeps every task: the filter it gives matches any task.
pub proof fn lemma_empty_search_matches_all(t: TaskView, config: TasksConfig, today: NaiveDate)
    ensures
        ({
            let (f, s) = search_spec(seq![], config, today);
            task_matches(t, f, s)
        }),
{
    reveal_strlit("- [ ]");
    let line = "- [ ]"@ + Seq::<char>::empty();
    assert(line =~= seq!['-', ' ', '[', ' ', ']']);
    assert(line.skip(5) =~= Seq::<char>::empty());
    assert(crate::task_parser::split_words(Seq::<char>::empty()) =~= Seq::<Seq<char>>::empty());
    let (f, s) = search_spec(seq![], config, today);
    assert(f.name =~= Seq::<char>::empty());
    assert(tags_or_empty(f.tags) =~= Seq::<Seq<char>>::empty());
}

/// Whether every task of `ts` matches the filter made of `f` and `s`.
pub open spec fn all_match(ts: Seq<TaskView>, f: TaskView, s: Option<State>) -> bool {
    forall|i: int| 0 <= i < ts.len() ==> task_matches(#[trigger] ts[i], f, s)
}

proof fn lemma_all_match_concat(a: Seq<TaskView>, b: Seq<TaskView>, f: TaskView, s: Option<State>)
    requires
        all_match(a, f, s),
        all_match(b, f, s),
    ensures
        all_match(a + b, f, s),
{
    assert forall|i: int| 0 <= i < (a + b).len() implies task_matches(#[trigger] (a + b)[i], f, s) by {
        if i < a.len() {
            assert((a + b)[i] == a[i]);
        } else {
            assert((a + b)[i] == b[i - a.len()]);
        }
    }
}

/// The tasks that a task tree gives to the list all match the filter.
pub proof fn lemma_task_to_vec_matches(t: TaskView, f: TaskView, s: Option<State>, explore: bool)
    ensures
        all_match(task_to_vec(t, f, s, explore), f, s),
    decreases t,
{
    let own: Seq<TaskView> = if task_matches(t, f, s) {
        seq![t]
    } else {
        seq![]
    };
    assert(all_match(own, f, s));
    if explore {
        lemma_subtasks_to_vec_matches(t.subtasks, f, s, explore);
        lemma_all_match_concat(subtasks_to_vec(t.subtasks, f, s, explore), own, f, s);
    } else {
        assert(Seq::<TaskView>::empty() + own =~= own);
    }
}

/// The tasks that task trees give to the list all match the filter.
pub proof fn lemma_subtasks_to_vec_matches(ts: Seq<TaskView>, f: TaskView, s: Option<State>, explore: bool)
    ensures
        all_match(subtasks_to_vec(ts, f, s, explore), f, s),
    decreases ts,
{
    if ts.len() > 0 {
        let last = ts[ts.len() - 1];
        assert(decreases_to!(ts => last));
        lemma_subtasks_to_vec_matches(ts.subrange(0, ts.len() - 1), f, s, explore);
        lemma_task_to_vec_matches(last, f, s, explore);
        lemma_all_match_concat(
            subtasks_to_vec(ts.subrange(0, ts.len() - 1), f, s, explore),
            task_to_vec(last, f, s, explore),
            f,
            s,
        );
    }
}

/// Every task in the list of a search matches the search: `filter_to_vec` gives only
/// tasks that match the filter.
pub proof fn lemma_vault_to_vec_matches(v: VaultView, f: TaskView, s: Option<State>, explore: bool)
    ensures
        all_match(vault_to_vec(v, f, s, explore), f, s),
    decreases v,
{
    match v {
        VaultView::Header(_, _, cs) => lemma_children_to_vec_matches(cs, f, s, explore),
        VaultView::Directory(_, cs) => lemma_children_to_vec_matches(cs, f, s, explore),
        VaultView::Task(t) => lemma_task_to_vec_matches(t, f, s, explore),
        VaultView::Tracker(_) => {},
    }
}

/// The tasks that nodes give to the list all match the filter.
pub proof fn lemma_children_to_vec_matches(cs: Seq<VaultView>, f: TaskView, s: Option<State>, explore: bool)
    ensures
        all_match(children_to_vec(cs, f, s, explore), f, s),
    decreases cs,
{
    if cs.len() > 0 {
        let last = cs[cs.len() - 1];
        assert(decreases_to!(cs => last));
        lemma_children_to_vec_matches(cs.subrange(0, cs.len() - 1), f, s, explore);
        lemma_vault_to_vec_matches(last, f, s, explore);
        lemma_all_match_concat(
            children_to_vec(cs.subrange(0, cs.len() - 1), f, s, explore),
            vault_to_vec(last, f, s, explore),
            f,
            s,
        );
    }
}

} // verus!
