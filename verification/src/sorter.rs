//! Sorting of task lists, by due date or by name.
use vstd::prelude::*;
use std::cmp::Ordering;
use crate::date::Date;
use crate::task::{lemma_tasks_view, task_view, tasks_view, Task, TaskView};

verus! {

/// The order a task list is shown in.
#[derive(Debug, Clone, Copy, PartialEq, Eq, Structural)]
pub enum SortingMode {
    ByDueDate,
    ByName,
}

impl Default for SortingMode {
    fn default() -> (r: Self)
        ensures
            r == SortingMode::ByDueDate,
    {
        SortingMode::ByDueDate
    }
}

/// What `lexical_sort::lexical_cmp` gives for two strings: they are compared after
/// transliteration to ASCII, letters and digits after other characters.
pub uninterp spec fn lexical_order(a: Seq<char>, b: Seq<char>) -> Ordering;

/// The reverse of an order.
pub open spec fn opposite(o: Ordering) -> Ordering {
    match o {
        Ordering::Less => Ordering::Greater,
        Ordering::Equal => Ordering::Equal,
        Ordering::Greater => Ordering::Less,
    }
}

/// What the order gives once `a` is known to come no later than `b`: any string `c`
/// that comes no later than `a` comes no later than `b`, one that comes strictly before
/// `a` comes strictly before `b`, and only `a` itself compares equal to `a`.
pub open spec fn lex_ready(a: Seq<char>, b: Seq<char>) -> bool {
    forall|c: Seq<char>|
        #![trigger lexical_order(c, a)]
        {
            &&& lexical_order(c, a) == Ordering::Equal ==> c == a
            &&& lexical_order(c, a) != Ordering::Greater ==> lexical_order(c, b) != Ordering::Greater
            &&& lexical_order(c, a) == Ordering::Less ==> lexical_order(c, b) == Ordering::Less
        }
}

/// `lexical_sort::lexical_cmp`. Its source compares the two strings symmetrically and
/// ends, when no difference is found, with the comparison of the strings themselves:
/// it gives `Equal` exactly for equal strings, and the reverse order when the two are
/// swapped. It is a total order (the lexicographic order of the transliterated
/// characters, each ranked by whether it is a letter or digit and then by its code,
/// the shorter sequence first, and then the order of the strings themselves), so when
/// `a` comes no later than `b`, what comes before `a` comes before `b` (see
/// `lex_ready`).
#[verifier::external_body]
fn lexical_compare(a: &str, b: &str) -> (r: Ordering)
    ensures
        r == lexical_order(a@, b@),
        opposite(r) == lexical_order(b@, a@),
        (r == Ordering::Equal) == (a@ == b@),
        r != Ordering::Greater ==> lex_ready(a@, b@),
{
    lexical_sort::lexical_cmp(a, b)
}

/// The order of two integers.
pub open spec fn int_order(a: int, b: int) -> Ordering {
    if a < b {
        Ordering::Less
    } else if a == b {
        Ordering::Equal
    } else {
        Ordering::Greater
    }
}

/// The fields of a due date from the largest to the smallest; a whole day counts from
/// its midnight.
pub open spec fn date_key(d: Date) -> (int, int, int, int, int, int, int) {
    let day = d.day_of();
    let t = d.time_of();
    (
        day.year as int,
        day.month as int,
        day.day as int,
        t.hour as int,
        t.minute as int,
        t.second as int,
        t.nano as int,
    )
}

/// The lexicographic order of the fields of two due dates.
pub open spec fn key_order(x: Date, y: Date) -> Ordering {
    let a = date_key(x);
    let b = date_key(y);
    if a.0 != b.0 {
        int_order(a.0, b.0)
    } else if a.1 != b.1 {
        int_order(a.1, b.1)
    } else if a.2 != b.2 {
        int_order(a.2, b.2)
    } else if a.3 != b.3 {
        int_order(a.3, b.3)
    } else if a.4 != b.4 {
        int_order(a.4, b.4)
    } else if a.5 != b.5 {
        int_order(a.5, b.5)
    } else {
        int_order(a.6, b.6)
    }
}

/// The order of two due dates: the earlier first, and tasks without a due date last.
pub open spec fn date_order(a: Option<Date>, b: Option<Date>) -> Ordering {
    match (a, b) {
        (Some(x), Some(y)) => key_order(x, y),
        (None, Some(_)) => Ordering::Greater,
        (Some(_), None) => Ordering::Less,
        (None, None) => Ordering::Equal,
    }
}

/// The order of two tasks under `mode`: by the mode first, then by state, then by the
/// other mode, then by priority.
pub open spec fn task_order(a: TaskView, b: TaskView, mode: SortingMode) -> Ordering {
    let first = match mode {
        SortingMode::ByDueDate => date_order(a.due_date, b.due_date),
        SortingMode::ByName => lexical_order(a.name, b.name),
    };
    if first != Ordering::Equal {
        first
    } else {
        let st = int_order(a.state.rank(), b.state.rank());
        if st != Ordering::Equal {
            st
        } else {
            let second = match mode {
                SortingMode::ByDueDate => lexical_order(a.name, b.name),
                SortingMode::ByName => date_order(a.due_date, b.due_date),
            };
            if second != Ordering::Equal {
                second
            } else {
                int_order(usize_int(a.priority), usize_int(b.priority))
            }
        }
    }
}

/// Whether `a` comes after `b` under `mode`.
pub open spec fn comes_after(a: TaskView, b: TaskView, mode: SortingMode) -> bool {
    task_order(a, b, mode) == Ordering::Greater
}

/// Whether `a` comes before `b` under `mode`.
pub open spec fn comes_before(a: TaskView, b: TaskView, mode: SortingMode) -> bool {
    task_order(a, b, mode) == Ordering::Less
}

/// Between two tasks whose sorting key (due date or name) compares equal, the state
/// decides: an incomplete task comes first, then one to do, then a canceled one, a
/// done one last.
pub proof fn lemma_state_breaks_ties(a: TaskView, b: TaskView, mode: SortingMode)
    requires
        match mode {
            SortingMode::ByDueDate => date_order(a.due_date, b.due_date) == Ordering::Equal,
            SortingMode::ByName => lexical_order(a.name, b.name) == Ordering::Equal,
        },
    ensures
        a.state.listed_before(b.state) ==> comes_before(a, b, mode),
        b.state.listed_before(a.state) ==> comes_after(a, b, mode),
{
}

/// What the order of tasks gives once `a` is known to come no later than `b`: every
/// task that comes no later than `a` comes no later than `b`.
pub open spec fn task_ready(a: TaskView, b: TaskView, mode: SortingMode) -> bool {
    forall|c: TaskView| #![trigger task_order(c, a, mode)]
        !comes_after(c, a, mode) ==> !comes_after(c, b, mode)
}

/// Whether comparing `a` with `b` under `mode` reaches their names.
pub open spec fn names_reached(a: TaskView, b: TaskView, mode: SortingMode) -> bool {
    match mode {
        SortingMode::ByName => true,
        SortingMode::ByDueDate => date_order(a.due_date, b.due_date) == Ordering::Equal
            && a.state.rank() == b.state.rank(),
    }
}

proof fn lemma_key_order(c: Date, a: Date, b: Date)
    requires
        key_order(a, b) != Ordering::Greater,
    ensures
        key_order(c, a) == Ordering::Less ==> key_order(c, b) == Ordering::Less,
        key_order(c, a) == Ordering::Equal ==> key_order(c, b) == key_order(a, b),
{
}

proof fn lemma_date_order(c: Option<Date>, a: Option<Date>, b: Option<Date>)
    requires
        date_order(a, b) != Ordering::Greater,
    ensures
        date_order(c, a) == Ordering::Less ==> date_order(c, b) == Ordering::Less,
        date_order(c, a) == Ordering::Equal ==> date_order(c, b) == date_order(a, b),
{
    match (c, a, b) {
        (Some(x), Some(y), Some(z)) => lemma_key_order(x, y, z),
        _ => {},
    }
}

/// When `a` comes no later than `b`, and the names of the two are ready for the
/// comparison where it reaches them, every task that comes no later than `a` comes no
/// later than `b`.
proof fn lemma_task_ready(a: TaskView, b: TaskView, mode: SortingMode)
    requires
        task_order(a, b, mode) != Ordering::Greater,
        names_reached(a, b, mode) && lexical_order(a.name, b.name) != Ordering::Greater ==> lex_ready(
            a.name,
            b.name,
        ),
    ensures
        task_ready(a, b, mode),
{
    assert forall|c: TaskView| #![trigger task_order(c, a, mode)]
        !comes_after(c, a, mode) implies !comes_after(c, b, mode) by {
        if date_order(a.due_date, b.due_date) != Ordering::Greater {
            lemma_date_order(c.due_date, a.due_date, b.due_date);
        }
        match mode {
            SortingMode::ByName => {
                let ln = lexical_order(a.name, b.name);
                if ln != Ordering::Greater {
                    assert(lexical_order(c.name, a.name) == Ordering::Equal ==> c.name == a.name);
                    assert(lexical_order(c.name, a.name) != Ordering::Greater ==> lexical_order(c.name, b.name) != Ordering::Greater);
                    assert(lexical_order(c.name, a.name) == Ordering::Less ==> lexical_order(c.name, b.name) == Ordering::Less);
                }
            },
            SortingMode::ByDueDate => {
                if names_reached(a, b, mode) && lexical_order(a.name, b.name) != Ordering::Greater {
                    assert(lexical_order(c.name, a.name) == Ordering::Equal ==> c.name == a.name);
                    assert(lexical_order(c.name, a.name) == Ordering::Less ==> lexical_order(c.name, b.name) == Ordering::Less);
                }
            },
        }
    }
}

/// Whether each task of `s` comes no later than every task after it under `mode`.
pub open spec fn sorted_all(s: Seq<TaskView>, mode: SortingMode) -> bool {
    forall|i: int, j: int| 0 <= i < j < s.len() ==> !comes_after(#[trigger] s[i], #[trigger] s[j], mode)
}

/// Whether each task of `s` is in order with the next under `mode`.
pub open spec fn sorted_by(s: Seq<TaskView>, mode: SortingMode) -> bool {
    forall|i: int, j: int|
        0 <= i && j == i + 1 && j < s.len() ==> !comes_after(#[trigger] s[i], #[trigger] s[j], mode)
}

/// `perm` lists, for each position of `s`, the position in `o` that its task comes
/// from; every position of `o` is listed once, and two tasks of `o` change order in `s`
/// only where the one put first comes strictly before the other under `mode`.
pub open spec fn stable_perm(s: Seq<TaskView>, o: Seq<TaskView>, perm: Seq<int>, mode: SortingMode) -> bool {
    &&& perm.len() == s.len()
    &&& o.len() == s.len()
    &&& forall|k: int| 0 <= k < perm.len() ==> 0 <= #[trigger] perm[k] < perm.len()
    &&& forall|k: int, l: int|
        #![trigger perm[k], perm[l]]
        0 <= k < l < perm.len() ==> perm[k] != perm[l]
    &&& forall|k: int| 0 <= k < s.len() ==> #[trigger] s[k] == o[perm[k]]
    &&& forall|k: int, l: int|
        #![trigger perm[k], perm[l]]
        0 <= k < l < s.len() && perm[k] > perm[l] ==> comes_before(s[k], s[l], mode)
}

/// `s` holds the tasks of `o` reordered as a stable sort under `mode` may reorder
/// them: tasks that do not compare strictly keep their order.
pub open spec fn stable_reorder(s: Seq<TaskView>, o: Seq<TaskView>, mode: SortingMode) -> bool {
    exists|perm: Seq<int>| stable_perm(s, o, perm, mode)
}

/// `s` with the tasks at `j - 1` and `j` exchanged.
pub open spec fn swapped<A>(s: Seq<A>, j: int) -> Seq<A> {
    s.update(j - 1, s[j]).update(j, s[j - 1])
}

/// Exchanging two neighbours where the second comes strictly before the first keeps a
/// stable reordering.
proof fn lemma_swap_stable(s: Seq<TaskView>, o: Seq<TaskView>, perm: Seq<int>, j: int, mode: SortingMode)
    requires
        stable_perm(s, o, perm, mode),
        0 < j < s.len(),
        comes_before(s[j], s[j - 1], mode),
    ensures
        stable_perm(swapped(s, j), o, swapped(perm, j), mode),
{
    let s2 = swapped(s, j);
    let p2 = swapped(perm, j);
    assert forall|k: int| 0 <= k < p2.len() implies 0 <= #[trigger] p2[k] < p2.len() by {
        if k == j - 1 {
            assert(p2[k] == perm[j]);
        } else if k == j {
            assert(p2[k] == perm[j - 1]);
        } else {
            assert(p2[k] == perm[k]);
        }
    }
    assert forall|k: int| 0 <= k < s2.len() implies #[trigger] s2[k] == o[p2[k]] by {
        if k == j - 1 {
            assert(s2[k] == s[j] && p2[k] == perm[j]);
        } else if k == j {
            assert(s2[k] == s[j - 1] && p2[k] == perm[j - 1]);
        } else {
            assert(s2[k] == s[k] && p2[k] == perm[k]);
        }
    }
    assert forall|k: int, l: int| 0 <= k < l < p2.len() implies #[trigger] p2[k] != #[trigger] p2[l] by {
        let kk = if k == j - 1 { j } else if k == j { j - 1 } else { k };
        let ll = if l == j - 1 { j } else if l == j { j - 1 } else { l };
        assert(p2[k] == perm[kk] && p2[l] == perm[ll]);
        assert(kk != ll);
        if kk < ll {
            assert(perm[kk] != perm[ll]);
        } else {
            assert(perm[ll] != perm[kk]);
        }
    }
    assert forall|k: int, l: int|
        0 <= k < l < s2.len() && #[trigger] p2[k] > #[trigger] p2[l] implies comes_before(
        s2[k],
        s2[l],
        mode,
    ) by {
        let kk = if k == j - 1 { j } else if k == j { j - 1 } else { k };
        let ll = if l == j - 1 { j } else if l == j { j - 1 } else { l };
        assert(p2[k] == perm[kk] && p2[l] == perm[ll]);
        assert(s2[k] == s[kk] && s2[l] == s[ll]);
        if k == j - 1 && l == j {
        } else {
            assert(kk < ll);
            assert(perm[kk] > perm[ll]);
        }
    }
}

/// A `usize` as an integer.
pub open spec fn usize_int(x: usize) -> int {
    x as int
}

/// Compares two integers; see `int_order`.
fn compare_usize(a: usize, b: usize) -> (r: Ordering)
    ensures
        r == int_order(usize_int(a), usize_int(b)),
        opposite(r) == int_order(usize_int(b), usize_int(a)),
{
    if a < b {
        Ordering::Less
    } else if a == b {
        Ordering::Equal
    } else {
        Ordering::Greater
    }
}

impl SortingMode {
    /// The other mode.
    pub fn next(self) -> (r: Self)
        ensures
            r != self,
    {
        match self {
            SortingMode::ByDueDate => SortingMode::ByName,
            SortingMode::ByName => SortingMode::ByDueDate,
        }
    }

    /// The name of the mode: `Due Date` or `Title`.
    pub fn to_string(&self) -> (r: String)
        ensures
            r@ == match self {
                SortingMode::ByDueDate => "Due Date"@,
                SortingMode::ByName => "Title"@,
            },
    {
        match self {
            SortingMode::ByDueDate => String::from_str("Due Date"),
            SortingMode::ByName => String::from_str("Title"),
        }
    }
}

/// A `u32` as an integer.
pub open spec fn u32_int(x: u32) -> int {
    x as int
}

/// A `i32` as an integer.
pub open spec fn i32_int(x: i32) -> int {
    x as int
}

fn compare_u32(a: u32, b: u32) -> (r: Ordering)
    ensures
        r == int_order(u32_int(a), u32_int(b)),
        opposite(r) == int_order(u32_int(b), u32_int(a)),
{
    if a < b {
        Ordering::Less
    } else if a == b {
        Ordering::Equal
    } else {
        Ordering::Greater
    }
}

fn compare_i32(a: i32, b: i32) -> (r: Ordering)
    ensures
        r == int_order(i32_int(a), i32_int(b)),
        opposite(r) == int_order(i32_int(b), i32_int(a)),
{
    if a < b {
        Ordering::Less
    } else if a == b {
        Ordering::Equal
    } else {
        Ordering::Greater
    }
}

/// The fields of a due date; see `date_key`.
fn date_fields(d: &Date) -> (r: (i32, u32, u32, u32, u32, u32, u32))
    ensures
        date_key(*d) == (
            i32_int(r.0),
            u32_int(r.1),
            u32_int(r.2),
            u32_int(r.3),
            u32_int(r.4),
            u32_int(r.5),
            u32_int(r.6),
        ),
{
    match d {
        Date::Day(x) => (x.year, x.month, x.day, 0, 0, 0, 0),
        Date::DayTime(x) => (
            x.date.year,
            x.date.month,
            x.date.day,
            x.time.hour,
            x.time.minute,
            x.time.second,
            x.time.nano,
        ),
    }
}

/// Compares two due dates field by field; see `key_order`.
fn compare_dates(x: &Date, y: &Date) -> (r: Ordering)
    ensures
        r == key_order(*x, *y),
        opposite(r) == key_order(*y, *x),
{
    let a = date_fields(x);
    let b = date_fields(y);
    let c = compare_i32(a.0, b.0);
    if a.0 != b.0 {
        return c;
    }
    let c = compare_u32(a.1, b.1);
    if a.1 != b.1 {
        return c;
    }
    let c = compare_u32(a.2, b.2);
    if a.2 != b.2 {
        return c;
    }
    let c = compare_u32(a.3, b.3);
    if a.3 != b.3 {
        return c;
    }
    let c = compare_u32(a.4, b.4);
    if a.4 != b.4 {
        return c;
    }
    let c = compare_u32(a.5, b.5);
    if a.5 != b.5 {
        return c;
    }
    compare_u32(a.6, b.6)
}

/// Whether an order is `Equal`.
fn is_equal(o: Ordering) -> (r: bool)
    ensures
        r == (o == Ordering::Equal),
{
    match o {
        Ordering::Equal => true,
        _ => false,
    }
}

impl SortingMode {
    /// Compares two tasks by due date; see `date_order`.
    pub fn cmp_due_date(t1: &Task, t2: &Task) -> (r: Ordering)
        ensures
            r == date_order(t1.due_date, t2.due_date),
            opposite(r) == date_order(t2.due_date, t1.due_date),
    {
        match (&t1.due_date, &t2.due_date) {
            (Some(a), Some(b)) => compare_dates(a, b),
            (None, Some(_)) => Ordering::Greater,
            (Some(_), None) => Ordering::Less,
            (None, None) => Ordering::Equal,
        }
    }

    /// Compares two tasks under `sorter`; see `task_order`. When `t1` comes no later
    /// than `t2`, whatever comes no later than `t1` comes no later than `t2`.
    pub fn cmp(t1: &Task, t2: &Task, sorter: SortingMode) -> (r: Ordering)
        ensures
            r == task_order(t1@, t2@, sorter),
            opposite(r) == task_order(t2@, t1@, sorter),
            r != Ordering::Greater ==> task_ready(t1@, t2@, sorter),
    {
        let first = match sorter {
            SortingMode::ByDueDate => SortingMode::cmp_due_date(t1, t2),
            SortingMode::ByName => lexical_compare(t1.name.as_str(), t2.name.as_str()),
        };
        let r = if !is_equal(first) {
            first
        } else {
            let st = t1.state.cmp(&t2.state);
            if !is_equal(st) {
                st
            } else {
                let second = match sorter {
                    SortingMode::ByDueDate => lexical_compare(t1.name.as_str(), t2.name.as_str()),
                    SortingMode::ByName => SortingMode::cmp_due_date(t1, t2),
                };
                if !is_equal(second) {
                    second
                } else {
                    compare_usize(t1.priority, t2.priority)
                }
            }
        };
        proof {
            if r != Ordering::Greater {
                lemma_task_ready(t1@, t2@, sorter);
            }
        }
        r
    }
}

impl SortingMode {
    /// Sorts `tasks` under `sorter`: the result holds the same tasks, and no task comes
    /// after one that follows it. Tasks that compare equal keep their order.
    pub fn sort(tasks: &mut Vec<Task>, sorter: SortingMode)
        ensures
            tasks_view(final(tasks)@).to_multiset() == tasks_view(old(tasks)@).to_multiset(),
            sorted_all(tasks_view(final(tasks)@), sorter),
            sorted_by(tasks_view(final(tasks)@), sorter),
            stable_reorder(tasks_view(final(tasks)@), tasks_view(old(tasks)@), sorter),
    {
        let ghost orig = tasks_view(tasks@).to_multiset();
        let ghost ov = tasks_view(tasks@);
        proof {
            lemma_tasks_view(tasks@);
        }
        let n = tasks.len();
        let ghost mut perm: Seq<int> = Seq::new(n as nat, |k: int| k);
        assert(stable_perm(tasks_view(tasks@), ov, perm, sorter));
        if n == 0 {
            return;
        }
        let mut i: usize = 1;
        while i < n
            invariant
                1 <= i <= n,
                n == tasks@.len(),
                tasks_view(tasks@).len() == n,
                tasks_view(tasks@).to_multiset() == orig,
                sorted_all(tasks_view(tasks@).take(i as int), sorter),
                stable_perm(tasks_view(tasks@), ov, perm, sorter),
            decreases n - i,
        {
            let ghost p = tasks_view(tasks@).take(i as int);
            let ghost rest = tasks_view(tasks@).skip(i + 1);
            let ghost x = tasks_view(tasks@)[i as int];
            proof {
                assert(tasks_view(tasks@) =~= p + seq![x] + rest);
            }
            let mut j: usize = i;
            proof {
                lemma_tasks_view(tasks@);
            }
            let mut go = SortingMode::is_greater(&tasks[j - 1], &tasks[j], sorter);
            while go
                invariant
                    go ==> j > 0 && comes_after(tasks_view(tasks@)[j - 1], tasks_view(tasks@)[j as int], sorter),
                    go ==> comes_before(tasks_view(tasks@)[j as int], tasks_view(tasks@)[j - 1], sorter),
                    !go ==> j == 0 || !comes_after(tasks_view(tasks@)[j - 1], tasks_view(tasks@)[j as int], sorter),
                    !go && j > 0 ==> task_ready(tasks_view(tasks@)[j - 1], tasks_view(tasks@)[j as int], sorter),
                    0 <= j <= i < n,
                    n == tasks@.len(),
                    tasks_view(tasks@).len() == n,
                    tasks_view(tasks@).to_multiset() == orig,
                    stable_perm(tasks_view(tasks@), ov, perm, sorter),
                    sorted_all(p, sorter),
                    p.len() == i,
                    tasks_view(tasks@) == p.take(j as int) + seq![x] + p.skip(j as int) + rest,
                    forall|m: int| j <= m < i ==> comes_before(x, #[trigger] p[m], sorter),
                decreases j,
            {
                let ghost before = tasks@;
                proof {
                    lemma_tasks_view(before);
                }
                proof {
                    lemma_tasks_view(tasks@);
                }
                let t = tasks.remove(j);
                tasks.insert(j - 1, t);
                proof {
                    let v = tasks_view(before);
                    vstd::seq_lib::to_multiset_remove(v, j as int);
                    lemma_tasks_view(tasks@);
                    lemma_tasks_view(before.remove(j as int));
                    assert(tasks_view(before.remove(j as int)) =~= v.remove(j as int));
                    assert(tasks_view(tasks@) =~= v.remove(j as int).insert(j - 1, v[j as int]));
                    vstd::seq_lib::to_multiset_insert(v.remove(j as int), j - 1, v[j as int]);
                    broadcast use vstd::multiset::group_multiset_axioms;
                    assert(v.contains(v[j as int]));
                    vstd::seq_lib::to_multiset_contains(v, v[j as int]);
                    assert(v.to_multiset().remove(v[j as int]).insert(v[j as int]) =~= v.to_multiset());
                    assert(v[j as int] == x);
                    assert(v[j - 1] == p[j - 1]);
                    assert(p.take(j - 1) + seq![x] + p.skip(j - 1) + rest =~= v.remove(
                        j as int,
                    ).insert(j - 1, x));
                    assert(v.remove(j as int).insert(j - 1, x) =~= swapped(v, j as int));
                    lemma_swap_stable(v, ov, perm, j as int, sorter);
                    perm = swapped(perm, j as int);
                    assert(comes_before(x, p[j - 1], sorter));
                }
                j = j - 1;
                proof {
                    lemma_tasks_view(tasks@);
                }
                go = if j > 0 {
                    SortingMode::is_greater(&tasks[j - 1], &tasks[j], sorter)
                } else {
                    false
                };
            }
            proof {
                let v = tasks_view(tasks@);
                let q = v.take(i + 1);
                assert(q =~= p.take(j as int) + seq![x] + p.skip(j as int));
                assert(j > 0 ==> v[j - 1] == p[j - 1]);
                assert(v[j as int] == x);
                assert(q.len() == i + 1);
                assert forall|a: int, b: int| 0 <= a < b < q.len() implies !comes_after(
                    #[trigger] q[a],
                    #[trigger] q[b],
                    sorter,
                ) by {
                    if b < j {
                        assert(q[a] == p[a] && q[b] == p[b]);
                    } else if b == j {
                        assert(q[a] == p[a] && q[b] == x);
                        if a < j - 1 {
                            assert(!comes_after(p[a], p[j - 1], sorter));
                            assert(task_ready(p[j - 1], x, sorter));
                        }
                    } else if a < j {
                        assert(q[a] == p[a] && q[b] == p[b - 1]);
                    } else if a == j {
                        assert(q[a] == x && q[b] == p[b - 1]);
                        assert(comes_before(x, p[b - 1], sorter));
                    } else {
                        assert(q[a] == p[a - 1] && q[b] == p[b - 1]);
                    }
                }
            }
            i = i + 1;
        }
        proof {
            assert(tasks_view(tasks@).take(n as int) =~= tasks_view(tasks@));
            assert(stable_perm(tasks_view(tasks@), ov, perm, sorter));
            let v = tasks_view(tasks@);
            assert forall|a: int, b: int| 0 <= a && b == a + 1 && b < v.len() implies !comes_after(
                #[trigger] v[a],
                #[trigger] v[b],
                sorter,
            ) by {
                assert(sorted_all(v, sorter));
            }
        }
    }

    /// Whether `t1` comes after `t2` under `sorter`.
    fn is_greater(t1: &Task, t2: &Task, sorter: SortingMode) -> (r: bool)
        ensures
            r == comes_after(t1@, t2@, sorter),
            r ==> comes_before(t2@, t1@, sorter),
            !r ==> task_ready(t1@, t2@, sorter),
    {
        match SortingMode::cmp(t1, t2, sorter) {
            Ordering::Greater => true,
            _ => false,
        }
    }
}

} // verus!
