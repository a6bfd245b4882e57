//! Writing tasks back to their files: which file each task belongs to, and the new
//! content of a file once a task line is written in its fixed form.
use vstd::prelude::*;
use crate::config::TasksConfig;
use crate::file_parser::{split_lines, text_run};
use crate::task::{fixed_attributes, lemma_tasks_view, task_view, tasks_view, Task, TaskView};
use crate::text::{chars_of, is_whitespace, is_whitespace_exec, join, push_char, push_str, string_of};
use crate::vault::{lemma_vaults_view, vault_view, vaults_view, VaultData, VaultView};
use crate::manager::TaskManager;

verus! {

/// Length of the run of whitespace at the start of `s`.
pub open spec fn indent_len(s: Seq<char>, i: int) -> nat
    decreases s.len() - i,
{
    if 0 <= i < s.len() && is_whitespace(s[i]) {
        1 + indent_len(s, i + 1)
    } else {
        0
    }
}

/// Why a file could not be given its fixed task line.
#[derive(Debug, Clone, Copy, PartialEq, Eq, Structural)]
pub enum FixError {
    /// The task's line number lies beyond the end of the file.
    LineBeyondEnd,
}

/// The content of a file once the line of task `t` is written in its fixed form: the
/// line numbered by the task, keeping its indentation; a task without a line number
/// is added at the end, followed by an empty line.
pub open spec fn fixed_content(content: Seq<char>, t: TaskView, config: TasksConfig) -> Result<
    Seq<char>,
    FixError,
> {
    let lines = split_lines(content);
    match t.line_number {
        Some(n) => if lines.len() < n - 1 {
            Err(FixError::LineBeyondEnd)
        } else {
            let old = lines[n - 1];
            let fixed = fixed_attributes(t, config, indent_len(old, 0));
            Ok(join(lines.update(n - 1, fixed), seq!['\n']))
        },
        None => Ok(
            join(lines.push(fixed_attributes(t, config, 0)).push(seq![]), seq!['\n']),
        ),
    }
}

/// The lines of `s`, as `split('\n')` gives them.
pub(crate) fn lines_of(s: &str) -> (r: Vec<String>)
    ensures
        crate::task::strings_view(r@) == split_lines(s@),
{
    let cs = chars_of(s);
    let mut res: Vec<String> = Vec::new();
    let ghost mut done: Seq<Seq<char>> = seq![];
    let mut i: usize = 0;
    let mut finished = false;
    proof {
        assert(cs@.skip(0) =~= cs@);
        assert(done + split_lines(cs@) =~= split_lines(cs@));
        assert(crate::task::strings_view(res@) =~= done);
    }
    while !finished
        invariant
            i <= cs@.len(),
            cs@ == s@,
            finished ==> done == split_lines(cs@),
            !finished ==> done + split_lines(cs@.skip(i as int)) == split_lines(cs@),
            crate::task::strings_view(res@) == done,
        decreases (if finished { 0 } else { cs@.len() + 1 - i }),
    {
        let mut j = i;
        while j < cs.len() && cs[j] != '\n'
            invariant
                i <= j <= cs@.len(),
                text_run(cs@, i as int) == (j - i) + text_run(cs@, j as int),
            decreases cs@.len() - j,
        {
            j = j + 1;
        }
        let ghost sk = cs@.skip(i as int);
        let line = string_of(&cs, i, j);
        proof {
            crate::file_parser::lemma_text_run_skip(cs@, i as int, 0);
            crate::file_parser::lemma_text_run(cs@, i as int);
            assert(sk.take((j - i) as int) =~= line@);
            if j < cs@.len() {
                assert(sk.skip(j - i + 1) =~= cs@.skip(j + 1));
                assert(split_lines(sk) == seq![line@] + split_lines(cs@.skip(j + 1)));
            } else {
                assert(sk =~= line@);
                assert(split_lines(sk) == seq![line@]);
            }
        }
        let ghost before = res@;
        res.push(line);
        proof {
            let nd = done.push(line@);
            assert(crate::task::strings_view(res@) =~= nd);
            if j < cs@.len() {
                assert(nd + split_lines(cs@.skip(j + 1)) =~= done + split_lines(sk));
            } else {
                assert(nd =~= done + split_lines(sk));
            }
            done = nd;
        }
        if j == cs.len() {
            finished = true;
        } else {
            i = j + 1;
        }
    }
    res
}

/// Joins `parts` with line feeds.
pub(crate) fn join_lines(parts: &Vec<String>) -> (r: String)
    ensures
        r@ == join(crate::task::strings_view(parts@), seq!['\n']),
{
    proof {
        reveal_strlit("\n");
        assert("\n"@ =~= seq!['\n']);
    }
    crate::task_parser::join_strings(parts, "\n")
}

/// Counts the whitespace at the start of `s`; see `indent_len`.
fn indent_of(s: &str) -> (r: usize)
    ensures
        r == indent_len(s@, 0),
{
    let cs = chars_of(s);
    let mut j: usize = 0;
    while j < cs.len() && is_whitespace_exec(cs[j])
        invariant
            j <= cs@.len(),
            cs@ == s@,
            indent_len(cs@, 0) == j + indent_len(cs@, j as int),
        decreases cs@.len() - j,
    {
        j = j + 1;
    }
    j
}

/// The content of the file `content` once the line of `task` is written in its fixed
/// form; see `fixed_content`.
pub fn fix_task_content(content: &str, task: &Task, config: &TasksConfig) -> (r: Result<
    String,
    FixError,
>)
    requires
        task.line_number != Some(0usize),
        task.line_number matches Some(n) ==> split_lines(content@).len() != n - 1,
    ensures
        match fixed_content(content@, task@, *config) {
            Ok(c) => r matches Ok(s) && s@ == c,
            Err(e) => r == Err::<String, FixError>(e),
        },
{
    let mut lines = lines_of(content);
    let ghost lv = crate::task::strings_view(lines@);
    match task.line_number {
        Some(n) => {
            if lines.len() < n - 1 {
                return Err(FixError::LineBeyondEnd);
            }
            let indent = indent_of(lines[n - 1].as_str());
            let fixed = task.get_fixed_attributes(config, indent);
            let _ = lines.remove(n - 1);
            lines.insert(n - 1, fixed);
            proof {
                assert(crate::task::strings_view(lines@) =~= lv.update(n - 1, fixed@));
            }
            Ok(join_lines(&lines))
        },
        None => {
            let fixed = task.get_fixed_attributes(config, 0);
            lines.push(fixed);
            lines.push(String::new());
            proof {
                assert(crate::task::strings_view(lines@) =~= lv.push(fixed@).push(seq![]));
            }
            Ok(join_lines(&lines))
        },
    }
}

/// The tasks that rewriting the vault fixes, each with the path of its file: the path
/// of a node grows by the name of each directory and of each file, a header of level
/// 0, on the way; a task comes with its direct subtasks.
pub open spec fn rewrite_list(v: VaultView, path: Seq<Seq<char>>) -> Seq<(Seq<Seq<char>>, TaskView)>
    decreases v,
{
    match v {
        VaultView::Header(l, n, cs) => children_rewrite_list(
            cs,
            if l == 0 {
                path.push(n)
            } else {
                path
            },
        ),
        VaultView::Directory(n, cs) => children_rewrite_list(cs, path.push(n)),
        VaultView::Task(t) => seq![(path, t)] + t.subtasks.map_values(
            |s: TaskView| (path, s),
        ),
        VaultView::Tracker(_) => seq![],
    }
}

/// `rewrite_list` for each node of `cs`, in order.
pub open spec fn children_rewrite_list(cs: Seq<VaultView>, path: Seq<Seq<char>>) -> Seq<
    (Seq<Seq<char>>, TaskView),
>
    decreases cs,
{
    if cs.len() == 0 {
        seq![]
    } else {
        children_rewrite_list(cs.subrange(0, cs.len() - 1), path) + rewrite_list(
            cs[cs.len() - 1],
            path,
        )
    }
}

/// The view of a list of paths and tasks.
pub open spec fn pairs_view(v: Seq<(Vec<String>, Task)>) -> Seq<(Seq<Seq<char>>, TaskView)> {
    v.map_values(|p: (Vec<String>, Task)| (crate::task::strings_view(p.0@), p.1@))
}

/// Appends `(path, t)` to `out`.
fn push_pair(out: &mut Vec<(Vec<String>, Task)>, path: &Vec<String>, t: &Task)
    ensures
        pairs_view(final(out)@) == pairs_view(old(out)@).push(
            (crate::task::strings_view(path@), t@),
        ),
{
    let p = crate::task::clone_strings(path);
    let c = t.duplicate();
    let ghost before = out@;
    out.push((p, c));
    proof {
        assert(pairs_view(out@) =~= pairs_view(before).push(
            (crate::task::strings_view(path@), t@),
        ));
    }
}

/// `path` with `name` added.
fn path_with(path: &Vec<String>, name: &String) -> (r: Vec<String>)
    ensures
        crate::task::strings_view(r@) == crate::task::strings_view(path@).push(name@),
{
    let mut p = crate::task::clone_strings(path);
    let ghost before = p@;
    p.push(name.clone());
    proof {
        assert(crate::task::strings_view(p@) =~= crate::task::strings_view(before).push(name@));
    }
    p
}

/// Appends `rewrite_list(v, path)` to `out`.
fn collect_rewrites(v: &VaultData, path: &Vec<String>, out: &mut Vec<(Vec<String>, Task)>)
    ensures
        pairs_view(final(out)@) == pairs_view(old(out)@) + rewrite_list(
            v@,
            crate::task::strings_view(path@),
        ),
    decreases v,
{
    let ghost start = pairs_view(out@);
    let ghost pv = crate::task::strings_view(path@);
    match v {
        VaultData::Header(l, n, cs) => {
            if *l == 0 {
                let p = path_with(path, n);
                collect_children_rewrites(cs, &p, out);
            } else {
                collect_children_rewrites(cs, path, out);
            }
        },
        VaultData::Directory(n, cs) => {
            let p = path_with(path, n);
            collect_children_rewrites(cs, &p, out);
        },
        VaultData::Task(t) => {
            push_pair(out, path, t);
            let ghost tv = tasks_view(t.subtasks@);
            let ghost mid = pairs_view(out@);
            proof {
                lemma_tasks_view(t.subtasks@);
            }
            let mut i: usize = 0;
            while i < t.subtasks.len()
                invariant
                    i <= t.subtasks@.len(),
                    tv == tasks_view(t.subtasks@),
                    tv.len() == t.subtasks@.len(),
                    pv == crate::task::strings_view(path@),
                    forall|k: int|
                        0 <= k < t.subtasks@.len() ==> #[trigger] tv[k] == task_view(t.subtasks@[k]),
                    pairs_view(out@) == mid + tv.take(i as int).map_values(
                        |s: TaskView| (pv, s),
                    ),
                decreases t.subtasks@.len() - i,
            {
                let ghost before = pairs_view(out@);
                push_pair(out, path, &t.subtasks[i]);
                proof {
                    assert(tv.take(i + 1).map_values(|s: TaskView| (pv, s)) =~= tv.take(
                        i as int,
                    ).map_values(|s: TaskView| (pv, s)).push((pv, tv[i as int])));
                }
                i = i + 1;
            }
            proof {
                assert(tv.take(i as int) =~= tv);
                assert(pairs_view(out@) =~= start + rewrite_list(v@, pv));
            }
        },
        VaultData::Tracker(_) => {
            proof {
                assert(pairs_view(out@) =~= start + seq![]);
            }
        },
    }
}

/// Appends `children_rewrite_list(cs, path)` to `out`.
fn collect_children_rewrites(cs: &Vec<VaultData>, path: &Vec<String>, out: &mut Vec<(Vec<String>, Task)>)
    ensures
        pairs_view(final(out)@) == pairs_view(old(out)@) + children_rewrite_list(
            vaults_view(cs@),
            crate::task::strings_view(path@),
        ),
    decreases cs,
{
    let ghost start = pairs_view(out@);
    let ghost pv = crate::task::strings_view(path@);
    let ghost cv = vaults_view(cs@);
    proof {
        lemma_vaults_view(cs@);
        assert(cv.take(0) =~= Seq::<VaultView>::empty());
        assert(start + seq![] =~= start);
    }
    let mut i: usize = 0;
    while i < cs.len()
        invariant
            i <= cs@.len(),
            cv == vaults_view(cs@),
            cv.len() == cs@.len(),
            pv == crate::task::strings_view(path@),
            forall|k: int| 0 <= k < cs@.len() ==> #[trigger] cv[k] == vault_view(cs@[k]),
            pairs_view(out@) == start + children_rewrite_list(cv.take(i as int), pv),
        decreases cs@.len() - i,
    {
        proof {
            vstd::std_specs::vec::axiom_vec_index_decreases(*cs, i as int);
            let pre = cv.take(i + 1);
            assert(pre.subrange(0, pre.len() - 1) =~= cv.take(i as int));
            assert(pre[pre.len() - 1] == cv[i as int]);
        }
        collect_rewrites(&cs[i], path, out);
        proof {
            assert(pairs_view(out@) =~= start + children_rewrite_list(cv.take(i + 1), pv));
        }
        i = i + 1;
    }
    proof {
        assert(cv.take(i as int) =~= cv);
    }
}

impl TaskManager {
    /// The tasks that rewriting the vault `tasks` fixes, each with the path of its
    /// file as components; see `rewrite_list`.
    pub fn tasks_to_rewrite(tasks: &VaultData) -> (r: Vec<(Vec<String>, Task)>)
        ensures
            pairs_view(r@) == rewrite_list(tasks@, seq![]),
    {
        let mut out: Vec<(Vec<String>, Task)> = Vec::new();
        let path: Vec<String> = Vec::new();
        proof {
            assert(pairs_view(out@) =~= seq![]);
            assert(crate::task::strings_view(path@) =~= seq![]);
        }
        collect_rewrites(tasks, &path, &mut out);
        proof {
            assert(pairs_view(out@) =~= rewrite_list(tasks@, seq![]));
        }
        out
    }
}

} // verus!
