//! A Markdown file as a tree: headers nest by level, tasks by indentation, and the
//! indented lines under a task are its description.
use vstd::prelude::*;
use crate::task::{lemma_tasks_view, lemma_tasks_view_push, task_view, tasks_view, Task, TaskView};
use crate::text::{push_char, push_str};
use crate::vault::{lemma_vaults_view, lemma_vaults_view_ext, vault_view, vaults_view, VaultData, VaultView};
use crate::config::TasksConfig;
use crate::date::{max_day_number, now, NaiveDate, MAX_YEAR};
use crate::parse_frequency::blank_run;
use crate::task_parser::{chars_range, parse_task_chars, parse_task_spec};
use crate::text::{chars_of, string_of};

verus! {

/// The index of the last task of `cs`.
pub open spec fn last_task(cs: Seq<VaultView>) -> Option<int>
    decreases cs.len(),
{
    if cs.len() == 0 {
        None
    } else if cs.last() is Task {
        Some(cs.len() - 1)
    } else {
        last_task(cs.drop_last())
    }
}

/// The index of the last header of `cs`.
pub open spec fn last_header(cs: Seq<VaultView>) -> Option<int>
    decreases cs.len(),
{
    if cs.len() == 0 {
        None
    } else if cs.last() is Header {
        Some(cs.len() - 1)
    } else {
        last_header(cs.drop_last())
    }
}

pub proof fn lemma_last_task(cs: Seq<VaultView>)
    ensures
        last_task(cs) matches Some(i) ==> 0 <= i < cs.len() && cs[i] is Task,
    decreases cs.len(),
{
    if cs.len() > 0 && !(cs.last() is Task) {
        lemma_last_task(cs.drop_last());
    }
}

pub proof fn lemma_last_header(cs: Seq<VaultView>)
    ensures
        last_header(cs) matches Some(i) ==> 0 <= i < cs.len() && cs[i] is Header,
    decreases cs.len(),
{
    if cs.len() > 0 && !(cs.last() is Header) {
        lemma_last_header(cs.drop_last());
    }
}

/// `t` with the task `new` added `steps` levels down, always into the last subtask.
pub open spec fn push_deep(t: TaskView, new: TaskView, steps: nat) -> Option<TaskView>
    decreases steps,
{
    if steps == 0 {
        Some(TaskView { subtasks: t.subtasks.push(new), ..t })
    } else if t.subtasks.len() == 0 {
        None
    } else {
        match push_deep(t.subtasks.last(), new, (steps - 1) as nat) {
            Some(l) => Some(
                TaskView { subtasks: t.subtasks.update(t.subtasks.len() - 1, l), ..t },
            ),
            None => None,
        }
    }
}

/// Where a task read at header level `th` and task level `tt` goes, searching from
/// header level `ch` and task level `ct` in `e`; `None` when there is no place for it.
pub open spec fn insert_task_spec(e: VaultView, t: TaskView, ch: nat, th: nat, ct: nat, tt: nat) -> Option<VaultView>
    decreases e,
{
    match e {
        VaultView::Header(l, n, cs) => if ch > th {
            None
        } else if ch == th {
            if ct == tt {
                Some(VaultView::Header(l, n, cs.push(VaultView::Task(t))))
            } else {
                match last_task(cs) {
                    Some(i) => if 0 <= i < cs.len() {
                        match insert_task_spec(cs[i], t, ch, th, ct + 1, tt) {
                            Some(c) => Some(VaultView::Header(l, n, cs.update(i, c))),
                            None => None,
                        }
                    } else {
                        None
                    },
                    None => None,
                }
            }
        } else {
            match last_header(cs) {
                Some(i) => if 0 <= i < cs.len() {
                    match insert_task_spec(cs[i], t, ch + 1, th, ct, tt) {
                        Some(c) => Some(VaultView::Header(l, n, cs.update(i, c))),
                        None => None,
                    }
                } else {
                    None
                },
                None => None,
            }
        },
        VaultView::Task(task) => {
            let steps: nat = if ct < tt && ct < th {
                (th - ct) as nat
            } else {
                0
            };
            match push_deep(task, t, steps) {
                Some(t2) => Some(VaultView::Task(t2)),
                None => None,
            }
        },
        _ => None,
    }
}

/// Where a header read at header level `th` goes, searching from header level `ch`
/// and task level `ct` in `e`; the node is left as it is where there is no place.
pub open spec fn insert_header_spec(e: VaultView, o: VaultView, ch: nat, th: nat, ct: nat, tt: nat) -> VaultView
    decreases e,
{
    match e {
        VaultView::Header(l, n, cs) => if ch > th {
            e
        } else if ch == th {
            if ct == tt {
                VaultView::Header(l, n, cs.push(o))
            } else {
                match last_task(cs) {
                    Some(i) => if 0 <= i < cs.len() {
                        VaultView::Header(
                            l,
                            n,
                            cs.update(i, insert_header_spec(cs[i], o, ch, th, ct + 1, tt)),
                        )
                    } else {
                        e
                    },
                    None => e,
                }
            }
        } else {
            match last_header(cs) {
                Some(i) => if 0 <= i < cs.len() {
                    VaultView::Header(
                        l,
                        n,
                        cs.update(i, insert_header_spec(cs[i], o, ch + 1, th, ct, tt)),
                    )
                } else {
                    e
                },
                None => VaultView::Header(l, n, cs.push(o)),
            }
        },
        _ => e,
    }
}

/// `t` with `d` added as a new line of its description.
pub open spec fn with_desc(t: TaskView, d: Seq<char>) -> TaskView {
    TaskView {
        description: Some(
            match t.description {
                Some(x) => x + seq!['\n'] + d,
                None => d,
            },
        ),
        ..t
    }
}

/// `t` with `d` added to the description of the task `tt - ct` levels down, always in
/// the last subtask.
pub open spec fn desc_deep(t: TaskView, d: Seq<char>, ct: nat, tt: nat) -> Option<TaskView>
    decreases tt - ct,
{
    if ct >= tt {
        if ct == tt {
            Some(with_desc(t, d))
        } else {
            None
        }
    } else if t.subtasks.len() == 0 {
        None
    } else {
        match desc_deep(t.subtasks.last(), d, ct + 1, tt) {
            Some(l) => Some(
                TaskView { subtasks: t.subtasks.update(t.subtasks.len() - 1, l), ..t },
            ),
            None => None,
        }
    }
}

/// Where a description line read at header level `th` and task level `tt` goes,
/// searching from header level `ch` and task level `ct` in `e`; `None` when there is
/// no task for it.
pub open spec fn append_desc_spec(e: VaultView, d: Seq<char>, ch: nat, th: nat, ct: nat, tt: nat) -> Option<VaultView>
    decreases e,
{
    match e {
        VaultView::Header(l, n, cs) => if ch > th {
            None
        } else if ch == th {
            if ct == tt {
                match last_task(cs) {
                    Some(i) => if 0 <= i < cs.len() {
                        match cs[i] {
                            VaultView::Task(t) => Some(
                                VaultView::Header(l, n, cs.update(i, VaultView::Task(with_desc(t, d)))),
                            ),
                            _ => None,
                        }
                    } else {
                        None
                    },
                    None => Some(e),
                }
            } else {
                match last_task(cs) {
                    Some(i) => if 0 <= i < cs.len() {
                        match append_desc_spec(cs[i], d, ch, th, ct + 1, tt) {
                            Some(c) => Some(VaultView::Header(l, n, cs.update(i, c))),
                            None => None,
                        }
                    } else {
                        None
                    },
                    None => Some(e),
                }
            }
        } else {
            match last_header(cs) {
                Some(i) => if 0 <= i < cs.len() {
                    match append_desc_spec(cs[i], d, ch + 1, th, ct, tt) {
                        Some(c) => Some(VaultView::Header(l, n, cs.update(i, c))),
                        None => None,
                    }
                } else {
                    None
                },
                None => None,
            }
        },
        VaultView::Task(task) => match desc_deep(task, d, ct, tt) {
            Some(t2) => Some(VaultView::Task(t2)),
            None => None,
        },
        _ => None,
    }
}

/// Replacing the `i`-th node by `c` replaces its view.
pub proof fn lemma_vaults_replace(s: Seq<VaultData>, i: int, c: VaultData)
    requires
        0 <= i < s.len(),
    ensures
        vaults_view(s.remove(i).insert(i, c)) == vaults_view(s).update(i, vault_view(c)),
        vaults_view(s)[i] == vault_view(s[i]),
        vaults_view(s).len() == s.len(),
{
    lemma_vaults_view(s);
    let t = s.remove(i).insert(i, c);
    assert forall|j: int| 0 <= j < t.len() implies #[trigger] vault_view(t[j]) == vaults_view(
        s,
    ).update(i, vault_view(c))[j] by {
        if j != i {
            assert(t[j] == s[j]);
        }
    }
    lemma_vaults_view_ext(t, vaults_view(s).update(i, vault_view(c)));
}

/// Adding a node at the end adds its view.
pub proof fn lemma_vaults_push(s: Seq<VaultData>, c: VaultData)
    ensures
        vaults_view(s.push(c)) == vaults_view(s).push(vault_view(c)),
{
    lemma_vaults_view(s);
    let t = s.push(c);
    assert forall|j: int| 0 <= j < t.len() implies #[trigger] vault_view(t[j]) == vaults_view(
        s,
    ).push(vault_view(c))[j] by {}
    lemma_vaults_view_ext(t, vaults_view(s).push(vault_view(c)));
}

/// The index of the last task of `children`; see `last_task`.
fn last_task_index(children: &Vec<VaultData>) -> (r: Option<usize>)
    ensures
        match r {
            Some(i) => last_task(vaults_view(children@)) == Some(i as int) && i
                < children@.len(),
            None => last_task(vaults_view(children@)) is None,
        },
{
    let ghost cs = vaults_view(children@);
    proof {
        lemma_vaults_view(children@);
        assert(cs.take(cs.len() as int) =~= cs);
    }
    let mut k = children.len();
    while k > 0
        invariant
            k <= children@.len(),
            cs == vaults_view(children@),
            cs.len() == children@.len(),
            forall|j: int| 0 <= j < children@.len() ==> #[trigger] cs[j] == vault_view(children@[j]),
            last_task(cs) == last_task(cs.take(k as int)),
        decreases k,
    {
        let ghost pre = cs.take(k as int);
        assert(pre.drop_last() =~= cs.take(k - 1));
        assert(pre.last() == cs[k - 1]);
        if let VaultData::Task(_) = &children[k - 1] {
            return Some(k - 1);
        }
        k = k - 1;
    }
    assert(cs.take(0) =~= Seq::<VaultView>::empty());
    None
}

/// The index of the last header of `children`; see `last_header`.
fn last_header_index(children: &Vec<VaultData>) -> (r: Option<usize>)
    ensures
        match r {
            Some(i) => last_header(vaults_view(children@)) == Some(i as int) && i
                < children@.len(),
            None => last_header(vaults_view(children@)) is None,
        },
{
    let ghost cs = vaults_view(children@);
    proof {
        lemma_vaults_view(children@);
        assert(cs.take(cs.len() as int) =~= cs);
    }
    let mut k = children.len();
    while k > 0
        invariant
            k <= children@.len(),
            cs == vaults_view(children@),
            cs.len() == children@.len(),
            forall|j: int| 0 <= j < children@.len() ==> #[trigger] cs[j] == vault_view(children@[j]),
            last_header(cs) == last_header(cs.take(k as int)),
        decreases k,
    {
        let ghost pre = cs.take(k as int);
        assert(pre.drop_last() =~= cs.take(k - 1));
        assert(pre.last() == cs[k - 1]);
        if let VaultData::Header(_, _, _) = &children[k - 1] {
            return Some(k - 1);
        }
        k = k - 1;
    }
    assert(cs.take(0) =~= Seq::<VaultView>::empty());
    None
}

/// Adds `new` `steps` levels down in `task`; see `push_deep`. On failure the task is
/// given back as it was.
fn push_task_deep(task: Task, new: Task, steps: usize) -> (r: Result<Task, Task>)
    ensures
        match push_deep(task@, new@, steps as nat) {
            Some(v) => r matches Ok(t) && t@ == v,
            None => r matches Err(t) && t@ == task@,
        },
    decreases steps,
{
    let mut task = task;
    if steps == 0 {
        let ghost old_sub = task.subtasks@;
        task.subtasks.push(new);
        proof {
            lemma_tasks_view_push(old_sub, new);
        }
        return Ok(task);
    }
    let ghost old_sub = task.subtasks@;
    proof {
        lemma_tasks_view(old_sub);
    }
    match task.subtasks.pop() {
        None => Err(task),
        Some(last) => {
            proof {
                assert(old_sub == task.subtasks@.push(last));
                lemma_tasks_view_push(task.subtasks@, last);
            }
            match push_task_deep(last, new, steps - 1) {
                Ok(l) => {
                    let ghost rest = task.subtasks@;
                    task.subtasks.push(l);
                    proof {
                        lemma_tasks_view_push(rest, l);
                        assert(tasks_view(task.subtasks@) =~= tasks_view(old_sub).update(
                            old_sub.len() - 1,
                            l@,
                        ));
                    }
                    Ok(task)
                },
                Err(l) => {
                    let ghost rest = task.subtasks@;
                    task.subtasks.push(l);
                    proof {
                        lemma_tasks_view_push(rest, l);
                        assert(tasks_view(task.subtasks@) =~= tasks_view(old_sub));
                    }
                    Err(task)
                },
            }
        },
    }
}

/// Adds `t` under `entry`; see `insert_task_spec`. On failure the node is given back
/// as it was.
fn insert_task_aux(entry: VaultData, t: Task, ch: usize, th: usize, ct: usize, tt: usize) -> (r:
    Result<VaultData, VaultData>)
    requires
        ch <= th,
        ct <= tt,
    ensures
        match insert_task_spec(entry@, t@, ch as nat, th as nat, ct as nat, tt as nat) {
            Some(v) => r matches Ok(e) && e@ == v,
            None => r matches Err(e) && e@ == entry@,
        },
    decreases entry,
{
    match entry {
        VaultData::Header(l, n, children) => {
            let mut children = children;
            let ghost old_children = children@;
            proof {
                lemma_vaults_view(old_children);
            }
            if ch == th {
                if ct == tt {
                    children.push(VaultData::Task(t));
                    proof {
                        lemma_vaults_push(old_children, VaultData::Task(t));
                    }
                    return Ok(VaultData::Header(l, n, children));
                }
                let i = match last_task_index(&children) {
                    Some(i) => i,
                    None => {
                        return Err(VaultData::Header(l, n, children));
                    },
                };
                proof {
                    vstd::std_specs::vec::axiom_vec_index_decreases(children, i as int);
                }
                let child = children.remove(i);
                match insert_task_aux(child, t, ch, th, ct + 1, tt) {
                    Ok(c) => {
                        children.insert(i, c);
                        proof {
                            lemma_vaults_replace(old_children, i as int, c);
                        }
                        Ok(VaultData::Header(l, n, children))
                    },
                    Err(c) => {
                        children.insert(i, c);
                        proof {
                            lemma_vaults_replace(old_children, i as int, c);
                            assert(vaults_view(children@) =~= vaults_view(old_children));
                        }
                        Err(VaultData::Header(l, n, children))
                    },
                }
            } else {
                let i = match last_header_index(&children) {
                    Some(i) => i,
                    None => {
                        return Err(VaultData::Header(l, n, children));
                    },
                };
                proof {
                    vstd::std_specs::vec::axiom_vec_index_decreases(children, i as int);
                }
                let child = children.remove(i);
                match insert_task_aux(child, t, ch + 1, th, ct, tt) {
                    Ok(c) => {
                        children.insert(i, c);
                        proof {
                            lemma_vaults_replace(old_children, i as int, c);
                        }
                        Ok(VaultData::Header(l, n, children))
                    },
                    Err(c) => {
                        children.insert(i, c);
                        proof {
                            lemma_vaults_replace(old_children, i as int, c);
                            assert(vaults_view(children@) =~= vaults_view(old_children));
                        }
                        Err(VaultData::Header(l, n, children))
                    },
                }
            }
        },
        VaultData::Task(task) => {
            let steps: usize = if ct < tt && ct < th {
                th - ct
            } else {
                0
            };
            match push_task_deep(task, t, steps) {
                Ok(t2) => Ok(VaultData::Task(t2)),
                Err(t2) => Err(VaultData::Task(t2)),
            }
        },
        VaultData::Directory(n, c) => Err(VaultData::Directory(n, c)),
        VaultData::Tracker(k) => Err(VaultData::Tracker(k)),
    }
}

/// Adds the task `task`, read at header level `header_depth` and task level
/// `indent_length`, to the tree `file_entry`: under the last header of that level, and
/// under the last task of each lower task level. Fails, leaving the tree as it was,
/// when there is no such header or task.
pub fn insert_task_at(
    file_entry: &mut VaultData,
    task: Task,
    header_depth: usize,
    indent_length: usize,
) -> (r: Result<(), crate::token::ParseError>)
    ensures
        match insert_task_spec(
            old(file_entry)@,
            task@,
            0,
            header_depth as nat,
            0,
            indent_length as nat,
        ) {
            Some(v) => r is Ok && final(file_entry)@ == v,
            None => r is Err && final(file_entry)@ == old(file_entry)@,
        },
{
    let mut entry = VaultData::Directory(String::new(), Vec::new());
    std::mem::swap(&mut entry, file_entry);
    match insert_task_aux(entry, task, 0, header_depth, 0, indent_length) {
        Ok(e) => {
            *file_entry = e;
            Ok(())
        },
        Err(e) => {
            *file_entry = e;
            Err(crate::token::ParseError)
        },
    }
}

/// Adds the node `o` under `entry`; see `insert_header_spec`.
fn insert_header_aux(entry: VaultData, o: VaultData, ch: usize, th: usize, ct: usize, tt: usize) -> (r:
    VaultData)
    requires
        ch <= th,
        ct <= tt,
    ensures
        r@ == insert_header_spec(entry@, o@, ch as nat, th as nat, ct as nat, tt as nat),
    decreases entry,
{
    match entry {
        VaultData::Header(l, n, children) => {
            let mut children = children;
            let ghost old_children = children@;
            proof {
                lemma_vaults_view(old_children);
            }
            if ch == th {
                if ct == tt {
                    children.push(o);
                    proof {
                        lemma_vaults_push(old_children, o);
                    }
                    return VaultData::Header(l, n, children);
                }
                let i = match last_task_index(&children) {
                    Some(i) => i,
                    None => {
                        return VaultData::Header(l, n, children);
                    },
                };
                proof {
                    vstd::std_specs::vec::axiom_vec_index_decreases(children, i as int);
                }
                let child = children.remove(i);
                let c = insert_header_aux(child, o, ch, th, ct + 1, tt);
                children.insert(i, c);
                proof {
                    lemma_vaults_replace(old_children, i as int, c);
                }
                VaultData::Header(l, n, children)
            } else {
                let i = match last_header_index(&children) {
                    Some(i) => i,
                    None => {
                        children.push(o);
                        proof {
                            lemma_vaults_push(old_children, o);
                        }
                        return VaultData::Header(l, n, children);
                    },
                };
                proof {
                    vstd::std_specs::vec::axiom_vec_index_decreases(children, i as int);
                }
                let child = children.remove(i);
                let c = insert_header_aux(child, o, ch + 1, th, ct, tt);
                children.insert(i, c);
                proof {
                    lemma_vaults_replace(old_children, i as int, c);
                }
                VaultData::Header(l, n, children)
            }
        },
        VaultData::Task(task) => VaultData::Task(task),
        VaultData::Directory(n, c) => VaultData::Directory(n, c),
        VaultData::Tracker(k) => VaultData::Tracker(k),
    }
}

/// Adds the header `object`, of level `target_header_depth + 1`, to the tree
/// `file_entry`: under the last header of level `target_header_depth`, or as deep as
/// the headers go.
pub fn insert_header_at(
    file_entry: &mut VaultData,
    object: VaultData,
    target_header_depth: usize,
    target_task_depth: usize,
)
    ensures
        final(file_entry)@ == insert_header_spec(
            old(file_entry)@,
            object@,
            0,
            target_header_depth as nat,
            0,
            target_task_depth as nat,
        ),
{
    let mut entry = VaultData::Directory(String::new(), Vec::new());
    std::mem::swap(&mut entry, file_entry);
    let e = insert_header_aux(entry, object, 0, target_header_depth, 0, target_task_depth);
    *file_entry = e;
}

/// `task` with `desc` added as a new line of its description; see `with_desc`.
fn add_description(task: Task, desc: &String) -> (r: Task)
    ensures
        r@ == with_desc(task@, desc@),
{
    let mut task = task;
    let ghost t0 = task@;
    let d = match &task.description {
        Some(x) => {
            let mut y = x.clone();
            push_char(&mut y, '\n');
            push_str(&mut y, desc.as_str());
            y
        },
        None => desc.clone(),
    };
    task.description = Some(d);
    proof {
        assert(task@.description == with_desc(t0, desc@).description);
        assert(task@.subtasks == t0.subtasks);
    }
    task
}

/// Adds `desc` to the description of the task `tt - ct` levels down in `task`; see
/// `desc_deep`. On failure the task is given back as it was.
fn insert_desc_task(desc: &String, task: Task, ct: usize, tt: usize) -> (r: Result<Task, Task>)
    requires
        ct <= tt,
    ensures
        match desc_deep(task@, desc@, ct as nat, tt as nat) {
            Some(v) => r matches Ok(t) && t@ == v,
            None => r matches Err(t) && t@ == task@,
        },
    decreases tt - ct,
{
    if ct == tt {
        return Ok(add_description(task, desc));
    }
    let mut task = task;
    let ghost old_sub = task.subtasks@;
    proof {
        lemma_tasks_view(old_sub);
    }
    match task.subtasks.pop() {
        None => Err(task),
        Some(last) => {
            proof {
                assert(old_sub == task.subtasks@.push(last));
                lemma_tasks_view_push(task.subtasks@, last);
            }
            match insert_desc_task(desc, last, ct + 1, tt) {
                Ok(l) => {
                    let ghost rest = task.subtasks@;
                    task.subtasks.push(l);
                    proof {
                        lemma_tasks_view_push(rest, l);
                        assert(tasks_view(task.subtasks@) =~= tasks_view(old_sub).update(
                            old_sub.len() - 1,
                            l@,
                        ));
                    }
                    Ok(task)
                },
                Err(l) => {
                    let ghost rest = task.subtasks@;
                    task.subtasks.push(l);
                    proof {
                        lemma_tasks_view_push(rest, l);
                        assert(tasks_view(task.subtasks@) =~= tasks_view(old_sub));
                    }
                    Err(task)
                },
            }
        },
    }
}

/// Adds `desc` under `entry`; see `append_desc_spec`. On failure the node is given
/// back as it was.
fn append_description_aux(
    entry: VaultData,
    desc: &String,
    ch: usize,
    th: usize,
    ct: usize,
    tt: usize,
) -> (r: Result<VaultData, VaultData>)
    requires
        ch <= th,
        ct <= tt,
    ensures
        match append_desc_spec(entry@, desc@, ch as nat, th as nat, ct as nat, tt as nat) {
            Some(v) => r matches Ok(e) && e@ == v,
            None => r matches Err(e) && e@ == entry@,
        },
    decreases entry,
{
    match entry {
        VaultData::Header(l, n, children) => {
            let mut children = children;
            let ghost old_children = children@;
            proof {
                lemma_vaults_view(old_children);
            }
            if ch == th {
                if ct == tt {
                    let i = match last_task_index(&children) {
                        Some(i) => i,
                        None => {
                            return Ok(VaultData::Header(l, n, children));
                        },
                    };
                    let child = children.remove(i);
                    match child {
                        VaultData::Task(t) => {
                            let c = VaultData::Task(add_description(t, desc));
                            children.insert(i, c);
                            proof {
                                lemma_vaults_replace(old_children, i as int, c);
                            }
                            return Ok(VaultData::Header(l, n, children));
                        },
                        other => {
                            children.insert(i, other);
                            proof {
                                lemma_vaults_replace(old_children, i as int, other);
                                assert(vaults_view(children@) =~= vaults_view(old_children));
                            }
                            return Err(VaultData::Header(l, n, children));
                        },
                    }
                }
                let i = match last_task_index(&children) {
                    Some(i) => i,
                    None => {
                        return Ok(VaultData::Header(l, n, children));
                    },
                };
                proof {
                    vstd::std_specs::vec::axiom_vec_index_decreases(children, i as int);
                }
                let child = children.remove(i);
                match append_description_aux(child, desc, ch, th, ct + 1, tt) {
                    Ok(c) => {
                        children.insert(i, c);
                        proof {
                            lemma_vaults_replace(old_children, i as int, c);
                        }
                        Ok(VaultData::Header(l, n, children))
                    },
                    Err(c) => {
                        children.insert(i, c);
                        proof {
                            lemma_vaults_replace(old_children, i as int, c);
                            assert(vaults_view(children@) =~= vaults_view(old_children));
                        }
                        Err(VaultData::Header(l, n, children))
                    },
                }
            } else {
                let i = match last_header_index(&children) {
                    Some(i) => i,
                    None => {
                        return Err(VaultData::Header(l, n, children));
                    },
                };
                proof {
                    vstd::std_specs::vec::axiom_vec_index_decreases(children, i as int);
                }
                let child = children.remove(i);
                match append_description_aux(child, desc, ch + 1, th, ct, tt) {
                    Ok(c) => {
                        children.insert(i, c);
                        proof {
                            lemma_vaults_replace(old_children, i as int, c);
                        }
                        Ok(VaultData::Header(l, n, children))
                    },
                    Err(c) => {
                        children.insert(i, c);
                        proof {
                            lemma_vaults_replace(old_children, i as int, c);
                            assert(vaults_view(children@) =~= vaults_view(old_children));
                        }
                        Err(VaultData::Header(l, n, children))
                    },
                }
            }
        },
        VaultData::Task(task) => match insert_desc_task(desc, task, ct, tt) {
            Ok(t2) => Ok(VaultData::Task(t2)),
            Err(t2) => Err(VaultData::Task(t2)),
        },
        VaultData::Directory(n, c) => Err(VaultData::Directory(n, c)),
        VaultData::Tracker(k) => Err(VaultData::Tracker(k)),
    }
}

/// The tree `v` with `d` added to the description of the one task that the path `p`
/// reaches: each step of the path picks a child of a header or a directory, or a
/// subtask of a task, by its position; the rest of the tree stays as it is. `None` when
/// the path does not end on a task.
pub open spec fn desc_at_path(v: VaultView, p: Seq<int>, d: Seq<char>) -> Option<VaultView>
    decreases p.len(),
{
    if p.len() == 0 {
        match v {
            VaultView::Task(t) => Some(VaultView::Task(with_desc(t, d))),
            _ => None,
        }
    } else {
        let i = p[0];
        match v {
            VaultView::Header(l, n, cs) => if 0 <= i < cs.len() {
                match desc_at_path(cs[i], p.drop_first(), d) {
                    Some(c) => Some(VaultView::Header(l, n, cs.update(i, c))),
                    None => None,
                }
            } else {
                None
            },
            VaultView::Directory(n, cs) => if 0 <= i < cs.len() {
                match desc_at_path(cs[i], p.drop_first(), d) {
                    Some(c) => Some(VaultView::Directory(n, cs.update(i, c))),
                    None => None,
                }
            } else {
                None
            },
            VaultView::Task(t) => if 0 <= i < t.subtasks.len() {
                match desc_at_path(VaultView::Task(t.subtasks[i]), p.drop_first(), d) {
                    Some(VaultView::Task(u)) => Some(
                        VaultView::Task(TaskView { subtasks: t.subtasks.update(i, u), ..t }),
                    ),
                    _ => None,
                }
            } else {
                None
            },
            VaultView::Tracker(_) => None,
        }
    }
}

/// Adding a description down the chain of last subtasks changes one task.
proof fn lemma_desc_deep_one_task(t: TaskView, d: Seq<char>, ct: nat, tt: nat)
    requires
        desc_deep(t, d, ct, tt) is Some,
    ensures
        exists|p: Seq<int>|
            desc_at_path(VaultView::Task(t), p, d) == Some(VaultView::Task(desc_deep(t, d, ct, tt).unwrap())),
    decreases tt - ct,
{
    if ct >= tt {
        assert(desc_at_path(VaultView::Task(t), seq![], d) == Some(
            VaultView::Task(desc_deep(t, d, ct, tt).unwrap()),
        ));
    } else {
        let k = t.subtasks.len() - 1;
        let last = t.subtasks.last();
        lemma_desc_deep_one_task(last, d, ct + 1, tt);
        let l = desc_deep(last, d, ct + 1, tt).unwrap();
        let q = choose|q: Seq<int>| desc_at_path(VaultView::Task(last), q, d) == Some(VaultView::Task(l));
        let p = seq![k].add(q);
        assert(p.drop_first() =~= q);
        assert(t.subtasks[k] == last);
        assert(desc_at_path(VaultView::Task(t), p, d) == Some(
            VaultView::Task(desc_deep(t, d, ct, tt).unwrap()),
        ));
    }
}

/// What a description line gives is the tree as it was, or the tree with the
/// description of one task extended; see `lemma_append_description_one_task`.
proof fn lemma_append_desc_one_task(e: VaultView, d: Seq<char>, ch: nat, th: nat, ct: nat, tt: nat)
    requires
        append_desc_spec(e, d, ch, th, ct, tt) is Some,
    ensures
        ({
            let v = append_desc_spec(e, d, ch, th, ct, tt).unwrap();
            v == e || exists|p: Seq<int>| desc_at_path(e, p, d) == Some(v)
        }),
    decreases e,
{
    let v = append_desc_spec(e, d, ch, th, ct, tt).unwrap();
    match e {
        VaultView::Header(l, n, cs) => {
            if ch == th {
                if ct == tt {
                    match last_task(cs) {
                        Some(i) => {
                            lemma_last_task(cs);
                            let p = seq![i];
                            assert(p.drop_first() =~= Seq::<int>::empty());
                            assert(desc_at_path(cs[i], seq![], d) == Some(
                                VaultView::Task(with_desc(cs[i]->Task_0, d)),
                            ));
                            assert(desc_at_path(e, p, d) == Some(v));
                        },
                        None => {},
                    }
                } else {
                    match last_task(cs) {
                        Some(i) => {
                            lemma_append_desc_one_task(cs[i], d, ch, th, ct + 1, tt);
                            let c = append_desc_spec(cs[i], d, ch, th, ct + 1, tt).unwrap();
                            if c == cs[i] {
                                assert(cs.update(i, c) =~= cs);
                            } else {
                                let q = choose|q: Seq<int>| desc_at_path(cs[i], q, d) == Some(c);
                                let p = seq![i].add(q);
                                assert(p.drop_first() =~= q);
                                assert(desc_at_path(e, p, d) == Some(v));
                            }
                        },
                        None => {},
                    }
                }
            } else {
                match last_header(cs) {
                    Some(i) => {
                        lemma_append_desc_one_task(cs[i], d, ch + 1, th, ct, tt);
                        let c = append_desc_spec(cs[i], d, ch + 1, th, ct, tt).unwrap();
                        if c == cs[i] {
                            assert(cs.update(i, c) =~= cs);
                        } else {
                            let q = choose|q: Seq<int>| desc_at_path(cs[i], q, d) == Some(c);
                            let p = seq![i].add(q);
                            assert(p.drop_first() =~= q);
                            assert(desc_at_path(e, p, d) == Some(v));
                        }
                    },
                    None => {},
                }
            }
        },
        VaultView::Task(t) => {
            lemma_desc_deep_one_task(t, d, ct, tt);
        },
        _ => {},
    }
}

/// A description line changes at most one task, and of it only the description: the
/// tree that `append_description` leaves is the tree it was given, or that tree with
/// `desc` added as a new line to the description of the one task that some path reaches
/// (see `desc_at_path` and `with_desc`), every other node as it was.
pub proof fn lemma_append_description_one_task(
    e: VaultView,
    desc: Seq<char>,
    target_header_depth: nat,
    target_task_depth: nat,
)
    ensures
        append_desc_spec(e, desc, 0, target_header_depth, 0, target_task_depth) matches Some(v) ==> (
        v == e || exists|p: Seq<int>| desc_at_path(e, p, desc) == Some(v)),
{
    if append_desc_spec(e, desc, 0, target_header_depth, 0, target_task_depth) is Some {
        lemma_append_desc_one_task(e, desc, 0, target_header_depth, 0, target_task_depth);
    }
}

/// Adds the description line `desc`, read at header level `target_header_depth` and
/// task level `target_task_depth`, to the tree `file_entry`: it goes to the last task of
/// the last header at that depth, or, deeper, to the last subtask of each level; the
/// other nodes stay as they were. A header without tasks is left as it is. Fails,
/// leaving the tree as it was, when the header or a subtask level is missing. Either
/// way at most one task changes, and of it only its description.
pub fn append_description(
    file_entry: &mut VaultData,
    desc: String,
    target_header_depth: usize,
    target_task_depth: usize,
) -> (r: Result<(), crate::token::ParseError>)
    ensures
        match append_desc_spec(
            old(file_entry)@,
            desc@,
            0,
            target_header_depth as nat,
            0,
            target_task_depth as nat,
        ) {
            Some(v) => r is Ok && final(file_entry)@ == v,
            None => r is Err && final(file_entry)@ == old(file_entry)@,
        },
        final(file_entry)@ == old(file_entry)@ || exists|p: Seq<int>|
            desc_at_path(old(file_entry)@, p, desc@) == Some(final(file_entry)@),
{
    proof {
        lemma_append_description_one_task(
            file_entry@,
            desc@,
            target_header_depth as nat,
            target_task_depth as nat,
        );
    }
    let mut entry = VaultData::Directory(String::new(), Vec::new());
    std::mem::swap(&mut entry, file_entry);
    match append_description_aux(entry, &desc, 0, target_header_depth, 0, target_task_depth) {
        Ok(e) => {
            *file_entry = e;
            Ok(())
        },
        Err(e) => {
            *file_entry = e;
            Err(crate::token::ParseError)
        },
    }
}

/// `e` with every header and directory below it that holds no task left out.
pub open spec fn cleaned(e: VaultView) -> VaultView
    decreases e,
{
    match e {
        VaultView::Header(l, n, cs) => VaultView::Header(l, n, clean_children(cs)),
        VaultView::Directory(n, cs) => VaultView::Directory(n, clean_children(cs)),
        _ => e,
    }
}

/// Whether a cleaned node is kept: a header or a directory only when it holds
/// something.
pub open spec fn is_kept(c: VaultView) -> bool {
    match c {
        VaultView::Header(_, _, k) => k.len() > 0,
        VaultView::Directory(_, k) => k.len() > 0,
        _ => true,
    }
}

/// The cleaned nodes of `cs` that are kept, in order.
pub open spec fn clean_children(cs: Seq<VaultView>) -> Seq<VaultView>
    decreases cs,
{
    if cs.len() == 0 {
        seq![]
    } else {
        let c = cleaned(cs[cs.len() - 1]);
        let rest = clean_children(cs.subrange(0, cs.len() - 1));
        if is_kept(c) {
            rest.push(c)
        } else {
            rest
        }
    }
}

/// Cleaning is idempotent: a cleaned node is left as it is by a second cleaning.
pub proof fn lemma_cleaned_idempotent(e: VaultView)
    ensures
        cleaned(cleaned(e)) == cleaned(e),
    decreases e,
{
    match e {
        VaultView::Header(l, n, cs) => {
            lemma_clean_children_idempotent(cs);
        },
        VaultView::Directory(n, cs) => {
            lemma_clean_children_idempotent(cs);
        },
        _ => {},
    }
}

/// Cleaning the kept nodes once more keeps them all, unchanged.
pub proof fn lemma_clean_children_idempotent(cs: Seq<VaultView>)
    ensures
        clean_children(clean_children(cs)) == clean_children(cs),
    decreases cs,
{
    if cs.len() > 0 {
        let last = cs[cs.len() - 1];
        let prefix = cs.subrange(0, cs.len() - 1);
        assert(decreases_to!(cs => last));
        lemma_cleaned_idempotent(last);
        lemma_clean_children_idempotent(prefix);
        let c = cleaned(last);
        let rest = clean_children(prefix);
        if is_kept(c) {
            let r = rest.push(c);
            assert(r.subrange(0, r.len() - 1) =~= rest);
            assert(r[r.len() - 1] == c);
            assert(is_kept(cleaned(c)));
            assert(clean_children(r) =~= clean_children(rest).push(cleaned(c)));
        }
    }
}

/// Cleans `entry`; see `cleaned`.
fn clean_node(entry: VaultData) -> (r: VaultData)
    ensures
        r@ == cleaned(entry@),
    decreases entry,
{
    match entry {
        VaultData::Header(l, n, children) => {
            let c = clean_nodes(children);
            VaultData::Header(l, n, c)
        },
        VaultData::Directory(n, children) => {
            let c = clean_nodes(children);
            VaultData::Directory(n, c)
        },
        other => other,
    }
}

/// Cleans each node of `children` and keeps those that hold something; see
/// `clean_children`.
fn clean_nodes(children: Vec<VaultData>) -> (r: Vec<VaultData>)
    ensures
        vaults_view(r@) == clean_children(vaults_view(children@)),
    decreases children,
{
    let ghost orig = children;
    let ghost ov = vaults_view(children@);
    proof {
        lemma_vaults_view(children@);
    }
    let n = children.len();
    let mut rest = children;
    let mut kept: Vec<VaultData> = Vec::new();
    let mut k: usize = 0;
    while rest.len() > 0
        invariant
            orig == children,
            n == orig@.len(),
            k <= orig@.len(),
            rest@ == orig@.skip(k as int),
            ov == vaults_view(orig@),
            ov.len() == orig@.len(),
            forall|j: int| 0 <= j < orig@.len() ==> #[trigger] ov[j] == vault_view(orig@[j]),
            vaults_view(kept@) == clean_children(ov.take(k as int)),
        decreases rest@.len(),
    {
        proof {
            vstd::std_specs::vec::axiom_vec_index_decreases(orig, k as int);
        }
        let c = rest.remove(0);
        proof {
            assert(c == orig@[k as int]);
            assert(rest@ =~= orig@.skip(k + 1));
        }
        let cl = clean_node(c);
        let keep = match &cl {
            VaultData::Header(_, _, cs) => cs.len() > 0,
            VaultData::Directory(_, cs) => cs.len() > 0,
            _ => true,
        };
        let ghost before = kept@;
        proof {
            let t = ov.take(k + 1);
            assert(t.subrange(0, t.len() - 1) =~= ov.take(k as int));
            assert(t[t.len() - 1] == ov[k as int]);
            match &cl {
                VaultData::Header(_, _, cs) => lemma_vaults_view(cs@),
                VaultData::Directory(_, cs) => lemma_vaults_view(cs@),
                _ => {},
            }
        }
        if keep {
            kept.push(cl);
            proof {
                lemma_vaults_push(before, cl);
            }
        }
        k = k + 1;
    }
    proof {
        assert(ov.take(k as int) =~= ov);
    }
    kept
}

/// Leaves out of `file_entry` every header and directory that holds no task; says
/// whether `file_entry` itself is kept.
pub fn clean_file_entry(file_entry: &mut VaultData) -> (r: bool)
    ensures
        final(file_entry)@ == cleaned(old(file_entry)@),
        r == is_kept(cleaned(old(file_entry)@)),
{
    let mut entry = VaultData::Directory(String::new(), Vec::new());
    std::mem::swap(&mut entry, file_entry);
    let e = clean_node(entry);
    let keep = match &e {
        VaultData::Header(_, _, cs) => cs.len() > 0,
        VaultData::Directory(_, cs) => cs.len() > 0,
        _ => true,
    };
    proof {
        match &e {
            VaultData::Header(_, _, cs) => lemma_vaults_view(cs@),
            VaultData::Directory(_, cs) => lemma_vaults_view(cs@),
            _ => {},
        }
    }
    *file_entry = e;
    keep
}

/// Length of the run of `c` in `s` from `i` on.
pub open spec fn char_run(s: Seq<char>, i: int, c: char) -> nat
    decreases s.len() - i,
{
    if 0 <= i < s.len() && s[i] == c {
        1 + char_run(s, i + 1, c)
    } else {
        0
    }
}

/// Length of the run of characters other than a line feed in `s` from `i` on.
pub open spec fn text_run(s: Seq<char>, i: int) -> nat
    decreases s.len() - i,
{
    if 0 <= i < s.len() && s[i] != '\n' {
        1 + text_run(s, i + 1)
    } else {
        0
    }
}

pub proof fn lemma_char_run(s: Seq<char>, i: int, c: char)
    requires
        0 <= i <= s.len(),
    ensures
        i + char_run(s, i, c) <= s.len(),
    decreases s.len() - i,
{
    if i < s.len() && s[i] == c {
        lemma_char_run(s, i + 1, c);
    }
}

pub proof fn lemma_text_run(s: Seq<char>, i: int)
    requires
        0 <= i <= s.len(),
    ensures
        i + text_run(s, i) <= s.len(),
        i + text_run(s, i) < s.len() ==> s[i + text_run(s, i)] == '\n',
    decreases s.len() - i,
{
    if i < s.len() && s[i] != '\n' {
        lemma_text_run(s, i + 1);
    }
}

pub proof fn lemma_blank_run(s: Seq<char>, i: int)
    requires
        0 <= i <= s.len(),
    ensures
        i + blank_run(s, i) <= s.len(),
    decreases s.len() - i,
{
    if i < s.len() && crate::parse_frequency::is_blank(s[i]) {
        lemma_blank_run(s, i + 1);
    }
}

/// What a line of a file is.
pub enum LineView {
    /// Name, level.
    Header(Seq<char>, nat),
    /// Content, indentation.
    Description(Seq<char>, nat),
    /// Task, indentation.
    Task(TaskView, nat),
}

/// A header line: `#` once or more, spaces or tabs, and some text.
pub open spec fn header_line(s: Seq<char>) -> Option<(Seq<char>, nat)> {
    let h = char_run(s, 0, '#');
    let b = h + blank_run(s, h as int);
    let t = text_run(s, b as int);
    if h >= 1 && t >= 1 {
        Some((s.subrange(b as int, (b + t) as int), h))
    } else {
        None
    }
}

/// A description line: spaces or tabs, and some text.
pub open spec fn description_line(s: Seq<char>) -> Option<(Seq<char>, nat)> {
    let b = blank_run(s, 0);
    let t = text_run(s, b as int);
    if b >= 1 && t >= 1 {
        Some((s.subrange(b as int, (b + t) as int), b))
    } else {
        None
    }
}

/// What the line `s` of the file `filename` is, read on `today`: a header, else a
/// task (after its indentation of spaces), else a description.
pub open spec fn line_spec(s: Seq<char>, filename: Seq<char>, config: TasksConfig, today: NaiveDate) -> Option<LineView> {
    match header_line(s) {
        Some((n, h)) => Some(LineView::Header(n, h)),
        None => {
            let ind = char_run(s, 0, ' ');
            match parse_task_spec(s.skip(ind as int), filename, config, today) {
                Some(t) => Some(LineView::Task(t, ind)),
                None => match description_line(s) {
                    Some((d, b)) => Some(LineView::Description(d, b)),
                    None => None,
                },
            }
        },
    }
}

/// A line of a file, as read.
pub enum FileToken {
    /// Name, level.
    Header(String, usize),
    /// Content, indentation.
    Description(String, usize),
    /// Task, indentation.
    Task(Task, usize),
}

impl View for FileToken {
    type V = LineView;

    open spec fn view(&self) -> LineView {
        match self {
            FileToken::Header(n, h) => LineView::Header(n@, *h as nat),
            FileToken::Description(d, b) => LineView::Description(d@, *b as nat),
            FileToken::Task(t, i) => LineView::Task(t@, *i as nat),
        }
    }
}

/// End of the run of `c` in `cs` from `i` on.
fn char_run_end(cs: &[char], i: usize, c: char) -> (r: usize)
    requires
        i <= cs@.len(),
    ensures
        r == i + char_run(cs@, i as int, c),
        r <= cs@.len(),
{
    let mut j = i;
    while j < cs.len() && cs[j] == c
        invariant
            i <= j <= cs@.len(),
            char_run(cs@, i as int, c) == (j - i) + char_run(cs@, j as int, c),
        decreases cs@.len() - j,
    {
        j = j + 1;
    }
    j
}

/// End of the run of characters other than a line feed in `cs` from `i` on.
fn text_run_end(cs: &[char], i: usize) -> (r: usize)
    requires
        i <= cs@.len(),
    ensures
        r == i + text_run(cs@, i as int),
        r <= cs@.len(),
{
    let mut j = i;
    while j < cs.len() && cs[j] != '\n'
        invariant
            i <= j <= cs@.len(),
            text_run(cs@, i as int) == (j - i) + text_run(cs@, j as int),
        decreases cs@.len() - j,
    {
        j = j + 1;
    }
    j
}

/// End of the run of spaces and tabs in `cs` from `i` on.
fn blank_end(cs: &[char], i: usize) -> (r: usize)
    requires
        i <= cs@.len(),
    ensures
        r == i + blank_run(cs@, i as int),
        r <= cs@.len(),
{
    let mut j = i;
    while j < cs.len() && (cs[j] == ' ' || cs[j] == '\t')
        invariant
            i <= j <= cs@.len(),
            blank_run(cs@, i as int) == (j - i) + blank_run(cs@, j as int),
        decreases cs@.len() - j,
    {
        j = j + 1;
    }
    j
}

/// Reads a header line; see `header_line`.
fn parse_header(cs: &[char]) -> (r: Option<(String, usize)>)
    ensures
        match r {
            Some((n, h)) => header_line(cs@) == Some((n@, h as nat)),
            None => header_line(cs@) is None,
        },
{
    let h = char_run_end(cs, 0, '#');
    let b = blank_end(cs, h);
    let e = text_run_end(cs, b);
    if h >= 1 && e > b {
        Some((string_of(cs, b, e), h))
    } else {
        None
    }
}

/// Reads a description line; see `description_line`.
fn parse_description(cs: &[char]) -> (r: Option<(String, usize)>)
    ensures
        match r {
            Some((d, b)) => description_line(cs@) == Some((d@, b as nat)),
            None => description_line(cs@) is None,
        },
{
    let b = blank_end(cs, 0);
    let e = text_run_end(cs, b);
    if b >= 1 && e > b {
        Some((string_of(cs, b, e), b))
    } else {
        None
    }
}

/// Reads the line `cs` of the file `filename` on `today`; see `line_spec`.
pub fn parse_line(cs: &[char], filename: &String, config: &TasksConfig, today: NaiveDate) -> (r:
    Option<FileToken>)
    requires
        today.valid(),
        today.days() + 7 <= max_day_number(),
    ensures
        match r {
            Some(t) => line_spec(cs@, filename@, *config, today) == Some(t@),
            None => line_spec(cs@, filename@, *config, today) is None,
        },
{
    if let Some((n, h)) = parse_header(cs) {
        return Some(FileToken::Header(n, h));
    }
    let ind = char_run_end(cs, 0, ' ');
    let rest = chars_range(cs, ind, cs.len());
    proof {
        assert(rest@ =~= cs@.skip(ind as int));
    }
    match parse_task_chars(&rest, filename.clone(), config, today) {
        Ok(t) => {
            return Some(FileToken::Task(t, ind));
        },
        Err(_) => {},
    }
    match parse_description(cs) {
        Some((d, b)) => Some(FileToken::Description(d, b)),
        None => None,
    }
}

/// The lines of `s`, as `split('\n')` of std gives them: a line feed at the end
/// leaves an empty last line.
pub open spec fn split_lines(s: Seq<char>) -> Seq<Seq<char>>
    decreases s.len(),
{
    let k = text_run(s, 0);
    if k >= s.len() {
        seq![s]
    } else {
        seq![s.take(k as int)] + split_lines(s.skip((k + 1) as int))
    }
}

/// The tree and the current header level after the line `line`, numbered `number`
/// from 0, of the file `filename`. A line that reads as nothing, and a task or a
/// description that finds no place, leave both as they were.
pub open spec fn file_step(
    st: (VaultView, nat),
    line: Seq<char>,
    number: nat,
    filename: Seq<char>,
    config: TasksConfig,
    today: NaiveDate,
) -> (VaultView, nat) {
    let (e, depth) = st;
    match line_spec(line, filename, config, today) {
        None => st,
        Some(LineView::Task(t, ind)) => {
            let t2 = TaskView { line_number: Some((number + 1) as usize), ..t };
            match insert_task_spec(e, t2, 0, depth, 0, ind / (config.indent_length as nat)) {
                Some(e2) => (e2, depth),
                None => st,
            }
        },
        Some(LineView::Header(n, h)) => (
            insert_header_spec(
                e,
                VaultView::Header(h as usize, n, seq![]),
                0,
                (h - 1) as nat,
                0,
                0,
            ),
            h,
        ),
        Some(LineView::Description(d, ind)) => match append_desc_spec(
            e,
            d,
            0,
            depth,
            0,
            ind / (config.indent_length as nat),
        ) {
            Some(e2) => (e2, depth),
            None => st,
        },
    }
}

/// The tree and the current header level after the lines `lines` of a file whose
/// tasks carry the file name `filename`, starting from `st0`.
pub open spec fn file_steps(
    lines: Seq<Seq<char>>,
    st0: (VaultView, nat),
    filename: Seq<char>,
    config: TasksConfig,
    today: NaiveDate,
) -> (VaultView, nat)
    decreases lines.len(),
{
    if lines.len() == 0 {
        st0
    } else {
        file_step(
            file_steps(lines.drop_last(), st0, filename, config, today),
            lines.last(),
            (lines.len() - 1) as nat,
            filename,
            config,
            today,
        )
    }
}

/// The tree of the file `name` with content `input`, whose tasks carry the file name
/// `filename`, read on `today`: a header of level 0, cleaned of the headers that hold
/// no task; `None` when nothing is left.
pub open spec fn parse_file_spec(
    name: Seq<char>,
    filename: Seq<char>,
    input: Seq<char>,
    config: TasksConfig,
    today: NaiveDate,
) -> Option<VaultView> {
    let c = cleaned(
        file_steps(
            split_lines(input),
            (VaultView::Header(0, name, seq![]), 0),
            filename,
            config,
            today,
        ).0,
    );
    if is_kept(c) {
        Some(c)
    } else {
        None
    }
}

/// Reads the lines of `input` into the tree `file_entry`, the current header level
/// being `header_depth`; the tasks carry the file name `filename`. Gives the header
/// level reached; see `file_steps`.
pub fn read_lines(
    input: &str,
    file_entry: &mut VaultData,
    header_depth: usize,
    filename: &String,
    config: &TasksConfig,
    today: NaiveDate,
) -> (r: usize)
    requires
        today.valid(),
        today.days() + 7 <= max_day_number(),
        config.indent_length > 0,
        input@.len() < usize::MAX,
    ensures
        (final(file_entry)@, r as nat) == file_steps(
            split_lines(input@),
            (old(file_entry)@, header_depth as nat),
            filename@,
            *config,
            today,
        ),
{
    let cs = chars_of(input);
    let ghost st0 = (file_entry@, header_depth as nat);
    let mut header_depth = header_depth;
    let mut i: usize = 0;
    let mut k: usize = 0;
    let mut done = false;
    let ghost mut lines: Seq<Seq<char>> = seq![];
    proof {
        assert(cs@.skip(0) =~= cs@);
        assert(lines + split_lines(cs@) =~= split_lines(cs@));
    }
    while !done
        invariant
            today.valid(),
            today.days() + 7 <= max_day_number(),
            config.indent_length > 0,
            cs@ == input@,
            cs@.len() < usize::MAX,
            i <= cs@.len(),
            k == lines.len(),
            !done ==> k <= i,
            done ==> lines == split_lines(cs@),
            !done ==> lines + split_lines(cs@.skip(i as int)) == split_lines(cs@),
            file_steps(lines, st0, filename@, *config, today) == (file_entry@, header_depth as nat),
        decreases (if done { 0 } else { cs@.len() + 1 - i }),
    {
        let j = text_run_end(&cs, i);
        let line = chars_range(&cs, i, j);
        let ghost sk = cs@.skip(i as int);
        proof {
            lemma_text_run(cs@, i as int);
            assert(text_run(sk, 0) == text_run(cs@, i as int)) by {
                lemma_text_run_skip(cs@, i as int, 0);
            }
            assert(sk.take((j - i) as int) =~= line@);
            if j < cs@.len() {
                assert(sk.skip(j - i + 1) =~= cs@.skip(j + 1));
                assert(split_lines(sk) == seq![line@] + split_lines(cs@.skip(j + 1)));
            } else {
                assert(sk =~= line@);
                assert(split_lines(sk) == seq![line@]);
            }
        }
        let ghost st = (file_entry@, header_depth as nat);
        match parse_line(&line, filename, config, today) {
            None => {},
            Some(FileToken::Task(task, indent)) => {
                let mut task = task;
                task.line_number = Some(k + 1);
                let _ = insert_task_at(file_entry, task, header_depth, indent / config.indent_length);
            },
            Some(FileToken::Header(n, h)) => {
                insert_header_at(file_entry, VaultData::Header(h, n, Vec::new()), h - 1, 0);
                header_depth = h;
            },
            Some(FileToken::Description(d, indent)) => {
                let _ = append_description(
                    file_entry,
                    d,
                    header_depth,
                    indent / config.indent_length,
                );
            },
        }
        proof {
            let nl = lines.push(line@);
            assert(nl.drop_last() =~= lines);
            assert(file_steps(nl, st0, filename@, *config, today) == file_step(
                st,
                line@,
                k as nat,
                filename@,
                *config,
                today,
            ));
            lines = nl;
        }
        if j == cs.len() {
            done = true;
            proof {
                assert(lines =~= (lines.drop_last() + split_lines(sk)));
            }
        } else {
            proof {
                assert(lines + split_lines(cs@.skip(j + 1)) =~= lines.drop_last() + split_lines(
                    sk,
                ));
            }
            i = j + 1;
        }
        k = k + 1;
    }
    header_depth
}

/// Reads the file `name` with content `input` on `today`, its tasks carrying the file
/// name `filename`; see `parse_file_spec`.
pub fn parse_file_at(
    name: &str,
    filename: &String,
    input: &str,
    config: &TasksConfig,
    today: NaiveDate,
) -> (r: Option<VaultData>)
    requires
        today.valid(),
        today.days() + 7 <= max_day_number(),
        config.indent_length > 0,
        input@.len() < usize::MAX,
    ensures
        match parse_file_spec(name@, filename@, input@, *config, today) {
            Some(v) => r matches Some(e) && e@ == v,
            None => r is None,
        },
{
    let mut res = VaultData::Header(0, String::from_str(name), Vec::new());
    proof {
        assert(vaults_view(Seq::<VaultData>::empty()) =~= seq![]);
    }
    let _ = read_lines(input, &mut res, 0, filename, config, today);
    if clean_file_entry(&mut res) {
        Some(res)
    } else {
        None
    }
}

/// Whether `today` is more than a week before the last day that dates express: it is
/// not one of the last seven days of year `MAX_YEAR`.
pub open spec fn week_left_spec(today: NaiveDate) -> bool {
    !(today.year == MAX_YEAR && today.month == 12 && today.day > 24)
}

/// Whether `today` is more than a week before the last day that dates express.
pub fn week_left(today: NaiveDate) -> (r: bool)
    requires
        today.valid(),
    ensures
        r ==> today.days() + 7 <= max_day_number(),
        r == !(today.year == MAX_YEAR && today.month == 12 && today.day > 24),
        r == week_left_spec(today),
{
    proof {
        crate::date::lemma_valid_days_range(today);
    }
    !(today.year >= MAX_YEAR && today.month == 12 && today.day > 24)
}

/// Reads the files of a vault.
pub struct ParserFileEntry<'a> {
    pub config: &'a TasksConfig,
    /// The file name that the tasks read carry.
    pub filename: String,
}

impl<'a> ParserFileEntry<'a> {
    /// Reads the lines of `input` into `file_entry` on the day of the system clock,
    /// the current header level being `header_depth`; see `read_lines`. Nothing is
    /// read in the last week that dates express.
    pub fn parse_file_aux(&self, input: &str, file_entry: &mut VaultData, header_depth: usize)
        requires
            self.config.indent_length > 0,
            input@.len() < usize::MAX,
        ensures
            exists|today: NaiveDate|
                today.valid() && if week_left_spec(today) {
                    final(file_entry)@ == file_steps(
                        split_lines(input@),
                        (old(file_entry)@, header_depth as nat),
                        self.filename@,
                        *self.config,
                        today,
                    ).0
                } else {
                    final(file_entry)@ == old(file_entry)@
                },
    {
        let today = now().date;
        if week_left(today) {
            let _ = read_lines(input, file_entry, header_depth, &self.filename, self.config, today);
        }
    }

    /// Reads the file `filename` with content `input` on the day of the system clock;
    /// see `parse_file_spec`. Gives `None` in the last week that dates express.
    pub fn parse_file(&self, filename: &str, input: &&str) -> (r: Option<VaultData>)
        requires
            self.config.indent_length > 0,
            input@.len() < usize::MAX,
        ensures
            exists|today: NaiveDate|
                today.valid() && if week_left_spec(today) {
                    match parse_file_spec(filename@, self.filename@, input@, *self.config, today) {
                        Some(v) => r matches Some(e) && e@ == v,
                        None => r is None,
                    }
                } else {
                    r is None
                },
    {
        let today = now().date;
        if week_left(today) {
            parse_file_at(filename, &self.filename, *input, self.config, today)
        } else {
            None
        }
    }
}

pub proof fn lemma_text_run_skip(s: Seq<char>, i: int, m: int)
    requires
        0 <= i <= s.len(),
        0 <= m,
    ensures
        text_run(s.skip(i), m) == text_run(s, i + m),
    decreases s.len() - i - m,
{
    if i + m < s.len() && s[i + m] != '\n' {
        lemma_text_run_skip(s, i, m + 1);
    }
}

/// The task that the line `input`, added to the file `filename`, writes: the file must
/// read as a header holding that one task; it has no line number.
pub open spec fn single_task_spec(input: Seq<char>, filename: Seq<char>, config: TasksConfig, today: NaiveDate) -> Option<TaskView> {
    match parse_file_spec(filename, filename, input, config, today) {
        Some(VaultView::Header(_, _, cs)) => if cs.len() == 1 {
            match cs[0] {
                VaultView::Task(t) => Some(TaskView { line_number: None, ..t }),
                _ => None,
            }
        } else {
            None
        },
        _ => None,
    }
}

/// Reads the task `task` to be added to the file `filename`, on `today`; see
/// `single_task_spec`.
pub fn parse_single_task_at(task: &str, filename: &str, config: &TasksConfig, today: NaiveDate) -> (r:
    Result<Task, crate::token::ParseError>)
    requires
        today.valid(),
        today.days() + 7 <= max_day_number(),
        config.indent_length > 0,
        task@.len() < usize::MAX,
    ensures
        match single_task_spec(task@, filename@, *config, today) {
            Some(t) => r matches Ok(x) && x@ == t,
            None => r is Err,
        },
{
    let name = String::from_str(filename);
    match parse_file_at(filename, &name, task, config, today) {
        Some(VaultData::Header(_, _, content)) => {
            proof {
                lemma_vaults_view(content@);
            }
            if content.len() != 1 {
                return Err(crate::token::ParseError);
            }
            match &content[0] {
                VaultData::Task(t) => {
                    let mut t = t.duplicate();
                    t.line_number = None;
                    Ok(t)
                },
                _ => Err(crate::token::ParseError),
            }
        },
        _ => Err(crate::token::ParseError),
    }
}

/// Reads the task `task` to be added to the file `filename`, on the day of the system
/// clock; see `single_task_spec`. Fails in the last week that dates express.
pub fn parse_single_task(task: &str, filename: &str, config: &TasksConfig) -> (r: Result<
    Task,
    crate::token::ParseError,
>)
    requires
        config.indent_length > 0,
        task@.len() < usize::MAX,
    ensures
        r matches Ok(x) ==> exists|today: NaiveDate|
            today.valid() && single_task_spec(task@, filename@, *config, today) == Some(x@),
        r is Err ==> exists|today: NaiveDate|
            today.valid() && (single_task_spec(task@, filename@, *config, today) is None || (
            today.year == MAX_YEAR && today.month == 12 && today.day > 24)),
{
    let today = now().date;
    if week_left(today) {
        parse_single_task_at(task, filename, config, today)
    } else {
        Err(crate::token::ParseError)
    }
}

} // verus!
