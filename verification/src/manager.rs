//! The vault held in memory: its tree, its tags, the current filter, and the queries
//! of the explorer over the tree.
use vstd::prelude::*;
use crate::config::TasksConfig;
use crate::filter::{filter, filter_spec, Filter};
use crate::task::{lemma_tasks_view, strings_view, task_view, tasks_view, Task, TaskView};
use crate::text::{chars_of, str_eq};
use crate::vault::{
    lemma_vaults_view, lemma_vaults_view_ext, tasks_as_nodes, tasks_to_nodes, vault_view,
    vaults_view, VaultData, VaultView,
};

verus! {

/// Why a query over the vault found nothing.
#[derive(Debug, Clone, Copy, PartialEq, Eq, Structural)]
pub enum VaultError {
    /// The filter keeps nothing of the vault.
    EmptyVault,
    /// The root of the vault is not a directory.
    NotADirectory,
    /// No entry has the name that the path gives.
    EntryNotFound,
    /// A task cannot take a new task under it.
    CannotAddUnderTask,
}

/// The name of a node that a path can name: directories, headers and tasks.
pub open spec fn node_name(v: VaultView) -> Option<Seq<char>> {
    match v {
        VaultView::Directory(n, _) => Some(n),
        VaultView::Header(_, n, _) => Some(n),
        VaultView::Task(t) => Some(t.name),
        VaultView::Tracker(_) => None,
    }
}

/// The nodes under a node: the content of a directory or a header, the subtasks of a
/// task.
pub open spec fn node_children(v: VaultView) -> Seq<VaultView> {
    match v {
        VaultView::Directory(_, cs) => cs,
        VaultView::Header(_, _, cs) => cs,
        VaultView::Task(t) => tasks_as_nodes(t.subtasks),
        VaultView::Tracker(_) => seq![],
    }
}

/// The index of the first node of `cs` named `name`.
pub open spec fn first_named(cs: Seq<VaultView>, name: Seq<char>) -> Option<int>
    decreases cs.len(),
{
    if cs.len() == 0 {
        None
    } else if node_name(cs[0]) == Some(name) {
        Some(0)
    } else {
        match first_named(cs.drop_first(), name) {
            Some(i) => Some(i + 1),
            None => None,
        }
    }
}

/// The nodes that the path `path`, from its element `idx` on, leads to from the
/// layer `entries`: each element names the first node of its layer with that name.
pub open spec fn explorer_entries(entries: Seq<VaultView>, path: Seq<Seq<char>>, idx: nat) -> Option<
    Seq<VaultView>,
>
    decreases path.len() - idx,
{
    if idx >= path.len() {
        Some(entries)
    } else {
        match first_named(entries, path[idx as int]) {
            Some(k) => if 0 <= k < entries.len() {
                explorer_entries(node_children(entries[k]), path, idx + 1)
            } else {
                None
            },
            None => None,
        }
    }
}

/// The tree that the explorer shows: the vault, or what the current filter keeps of
/// it.
pub open spec fn shown_tree(tasks: VaultView, current: Option<(TaskView, Option<crate::task::State>)>) -> Option<
    VaultView,
> {
    match current {
        Some((f, s)) => filter_spec(tasks, f, s),
        None => Some(tasks),
    }
}

/// The vault held in memory.
pub struct TaskManager {
    pub tasks: VaultData,
    pub config: TasksConfig,
    /// Every tag of the vault, once each.
    pub tags: Vec<String>,
    pub current_filter: Option<Filter>,
}

/// The view of the current filter of a manager.
pub open spec fn filter_view(f: Option<Filter>) -> Option<(TaskView, Option<crate::task::State>)> {
    match f {
        Some(x) => Some((x.task@, x.state)),
        None => None,
    }
}

pub proof fn lemma_first_named(cs: Seq<VaultView>, name: Seq<char>)
    ensures
        first_named(cs, name) matches Some(i) ==> 0 <= i < cs.len() && node_name(cs[i]) == Some(
            name,
        ) && forall|j: int| 0 <= j < i ==> node_name(#[trigger] cs[j]) != Some(name),
        first_named(cs, name) is None ==> forall|j: int|
            0 <= j < cs.len() ==> node_name(#[trigger] cs[j]) != Some(name),
    decreases cs.len(),
{
    if cs.len() > 0 && node_name(cs[0]) != Some(name) {
        lemma_first_named(cs.drop_first(), name);
        assert forall|j: int| 1 <= j < cs.len() implies cs[j] == cs.drop_first()[j - 1] by {}
    }
}

/// Whether the node `v` has the name `name`.
fn has_name(v: &VaultData, name: &String) -> (r: bool)
    ensures
        r == (node_name(v@) == Some(name@)),
{
    match v {
        VaultData::Directory(n, _) => str_eq(n.as_str(), name.as_str()),
        VaultData::Header(_, n, _) => str_eq(n.as_str(), name.as_str()),
        VaultData::Task(t) => str_eq(t.name.as_str(), name.as_str()),
        VaultData::Tracker(_) => false,
    }
}

/// The nodes under the node `v`; see `node_children`.
fn children_of(v: &VaultData) -> (r: Vec<VaultData>)
    ensures
        vaults_view(r@) == node_children(v@),
{
    match v {
        VaultData::Directory(_, cs) => crate::vault::duplicate_children(cs),
        VaultData::Header(_, _, cs) => crate::vault::duplicate_children(cs),
        VaultData::Task(t) => tasks_to_nodes(&t.subtasks),
        VaultData::Tracker(_) => {
            let r: Vec<VaultData> = Vec::new();
            proof {
                assert(vaults_view(r@) =~= seq![]);
            }
            r
        },
    }
}

/// Follows `path` from the layer `entries`; see `explorer_entries`.
fn explorer_entries_aux(entries: Vec<VaultData>, path: &[String], path_index: usize) -> (r: Result<
    Vec<VaultData>,
    VaultError,
>)
    requires
        path_index <= path@.len(),
    ensures
        match explorer_entries(vaults_view(entries@), strings_view(path@), path_index as nat) {
            Some(v) => r matches Ok(e) && vaults_view(e@) == v,
            None => r == Err::<Vec<VaultData>, VaultError>(VaultError::EntryNotFound),
        },
    decreases path@.len() - path_index,
{
    if path_index == path.len() {
        return Ok(entries);
    }
    let ghost cs = vaults_view(entries@);
    let ghost name = path@[path_index as int]@;
    proof {
        lemma_vaults_view(entries@);
        lemma_first_named(cs, name);
        assert(strings_view(path@)[path_index as int] == name);
    }
    let mut i: usize = 0;
    while i < entries.len()
        invariant
            i <= entries@.len(),
            path_index < path@.len(),
            cs == vaults_view(entries@),
            cs.len() == entries@.len(),
            name == path@[path_index as int]@,
            forall|j: int| 0 <= j < entries@.len() ==> #[trigger] cs[j] == vault_view(entries@[j]),
            forall|j: int| 0 <= j < i ==> node_name(#[trigger] cs[j]) != Some(name),
        decreases entries@.len() - i,
    {
        if has_name(&entries[i], &path[path_index]) {
            proof {
                assert(first_named(cs, name) == Some(i as int)) by {
                    lemma_first_named(cs, name);
                    match first_named(cs, name) {
                        Some(k) => {
                            if k < i {
                                assert(node_name(cs[k]) != Some(name));
                            }
                            if k > i {
                                assert(node_name(cs[i as int]) != Some(name));
                            }
                        },
                        None => {
                            assert(node_name(cs[i as int]) != Some(name));
                        },
                    }
                }
            }
            let c = children_of(&entries[i]);
            return explorer_entries_aux(c, path, path_index + 1);
        }
        i = i + 1;
    }
    proof {
        lemma_first_named(cs, name);
        if let Some(k) = first_named(cs, name) {
            assert(node_name(cs[k]) != Some(name));
        }
    }
    Err(VaultError::EntryNotFound)
}

/// What the explorer shows at `path` in `shown`: nothing when the filter keeps
/// nothing, an error when the root is no directory, else the layer the path leads to.
pub open spec fn entries_at(shown: Option<VaultView>, path: Seq<Seq<char>>) -> Result<
    Seq<VaultView>,
    VaultError,
> {
    match shown {
        None => Err(VaultError::EmptyVault),
        Some(VaultView::Directory(_, entries)) => match explorer_entries(entries, path, 0) {
            Some(e) => Ok(e),
            None => Err(VaultError::EntryNotFound),
        },
        Some(_) => Err(VaultError::NotADirectory),
    }
}

/// A node without what lies under it.
pub open spec fn without_children(v: VaultView) -> VaultView {
    match v {
        VaultView::Directory(n, _) => VaultView::Directory(n, seq![]),
        VaultView::Header(l, n, _) => VaultView::Header(l, n, seq![]),
        VaultView::Task(t) => VaultView::Task(TaskView { subtasks: seq![], ..t }),
        VaultView::Tracker(k) => VaultView::Tracker(k),
    }
}

/// The node that the path `path`, from its element `idx` on, names in the tree `v`:
/// `v` itself when the path is used up; else `v` must have the name the path gives,
/// and the rest of the path is followed in the first node under `v` where it leads.
pub open spec fn data_at(v: VaultView, path: Seq<Seq<char>>, idx: nat) -> Option<VaultView>
    decreases v,
{
    if idx >= path.len() {
        Some(v)
    } else {
        match v {
            VaultView::Directory(n, cs) => if n == path[idx as int] {
                if idx + 1 == path.len() {
                    Some(v)
                } else {
                    first_found(cs, path, idx + 1)
                }
            } else {
                None
            },
            VaultView::Header(_, n, cs) => if n == path[idx as int] {
                if idx + 1 == path.len() {
                    Some(v)
                } else {
                    first_found(cs, path, idx + 1)
                }
            } else {
                None
            },
            VaultView::Task(t) => match task_at(t, path, idx) {
                Some(x) => Some(VaultView::Task(x)),
                None => None,
            },
            VaultView::Tracker(_) => None,
        }
    }
}

/// The first result of `data_at` among the nodes `cs`.
pub open spec fn first_found(cs: Seq<VaultView>, path: Seq<Seq<char>>, idx: nat) -> Option<VaultView>
    decreases cs,
{
    if cs.len() == 0 {
        None
    } else {
        match data_at(cs[0], path, idx) {
            Some(x) => Some(x),
            None => first_found(cs.subrange(1, cs.len() as int), path, idx),
        }
    }
}

/// `data_at` for a task and its subtasks.
pub open spec fn task_at(t: TaskView, path: Seq<Seq<char>>, idx: nat) -> Option<TaskView>
    decreases t,
{
    if idx >= path.len() {
        Some(t)
    } else if t.name == path[idx as int] {
        if idx + 1 == path.len() {
            Some(t)
        } else {
            first_task_found(t.subtasks, path, idx + 1)
        }
    } else {
        None
    }
}

/// The first result of `task_at` among the tasks `ts`.
pub open spec fn first_task_found(ts: Seq<TaskView>, path: Seq<Seq<char>>, idx: nat) -> Option<TaskView>
    decreases ts,
{
    if ts.len() == 0 {
        None
    } else {
        match task_at(ts[0], path, idx) {
            Some(x) => Some(x),
            None => first_task_found(ts.subrange(1, ts.len() as int), path, idx),
        }
    }
}

/// What `get_vault_data_from_path` gives for `path` in `shown`.
pub open spec fn vault_data_at(shown: Option<VaultView>, path: Seq<Seq<char>>) -> Result<
    VaultView,
    VaultError,
> {
    match shown {
        None => Err(VaultError::EmptyVault),
        Some(VaultView::Directory(_, entries)) => match first_found(entries, path, 0) {
            Some(x) => Ok(x),
            None => Err(VaultError::EntryNotFound),
        },
        Some(_) => Err(VaultError::EmptyVault),
    }
}

/// Whether the path `path`, from its element `idx` on, leads through `v` to a node
/// that holds something.
pub open spec fn enterable(v: VaultView, path: Seq<Seq<char>>, idx: nat) -> bool
    decreases v,
{
    if idx >= path.len() {
        true
    } else {
        match v {
            VaultView::Directory(n, cs) => n == path[idx as int] && any_enterable(
                cs,
                path,
                idx + 1,
            ),
            VaultView::Header(_, n, cs) => n == path[idx as int] && any_enterable(
                cs,
                path,
                idx + 1,
            ),
            VaultView::Task(t) => task_enterable(t, path, idx),
            VaultView::Tracker(_) => false,
        }
    }
}

/// Whether one node of `cs` is `enterable`.
pub open spec fn any_enterable(cs: Seq<VaultView>, path: Seq<Seq<char>>, idx: nat) -> bool
    decreases cs,
{
    if cs.len() == 0 {
        false
    } else {
        enterable(cs[0], path, idx) || any_enterable(cs.subrange(1, cs.len() as int), path, idx)
    }
}

/// `enterable` for a task and its subtasks.
pub open spec fn task_enterable(t: TaskView, path: Seq<Seq<char>>, idx: nat) -> bool
    decreases t,
{
    if idx >= path.len() {
        true
    } else {
        t.name == path[idx as int] && any_task_enterable(t.subtasks, path, idx + 1)
    }
}

/// Whether one task of `ts` is `task_enterable`.
pub open spec fn any_task_enterable(ts: Seq<TaskView>, path: Seq<Seq<char>>, idx: nat) -> bool
    decreases ts,
{
    if ts.len() == 0 {
        false
    } else {
        task_enterable(ts[0], path, idx) || any_task_enterable(
            ts.subrange(1, ts.len() as int),
            path,
            idx,
        )
    }
}

/// Whether the explorer can enter `path`: the path leads, in the tree shown under the
/// current filter (or the whole vault without one), to a directory, a header or a task
/// that holds something.
pub open spec fn can_enter_spec(
    tasks: VaultView,
    current: Option<(TaskView, Option<crate::task::State>)>,
    path: Seq<Seq<char>>,
) -> bool {
    match shown_tree(tasks, current) {
        Some(VaultView::Directory(_, entries)) => any_enterable(entries, path, 0),
        _ => false,
    }
}

/// The tags of the tree `v`.
pub open spec fn vault_tags(v: VaultView) -> Set<Seq<char>>
    decreases v,
{
    match v {
        VaultView::Directory(_, cs) => children_tags(cs),
        VaultView::Header(_, _, cs) => children_tags(cs),
        VaultView::Task(t) => task_tags(t),
        VaultView::Tracker(_) => Set::empty(),
    }
}

/// The tags of the nodes `cs`.
pub open spec fn children_tags(cs: Seq<VaultView>) -> Set<Seq<char>>
    decreases cs,
{
    if cs.len() == 0 {
        Set::empty()
    } else {
        children_tags(cs.subrange(0, cs.len() - 1)).union(vault_tags(cs[cs.len() - 1]))
    }
}

/// The tags of a task and of its subtasks.
pub open spec fn task_tags(t: TaskView) -> Set<Seq<char>>
    decreases t,
{
    crate::filter::tags_or_empty(t.tags).to_set().union(subtasks_tags(t.subtasks))
}

/// The tags of the tasks `ts` and of their subtasks.
pub open spec fn subtasks_tags(ts: Seq<TaskView>) -> Set<Seq<char>>
    decreases ts,
{
    if ts.len() == 0 {
        Set::empty()
    } else {
        subtasks_tags(ts.subrange(0, ts.len() - 1)).union(task_tags(ts[ts.len() - 1]))
    }
}

/// The tree `v` with a task `t` added to the first header named `filename`, looking
/// through directories and headers in order; `None` when there is none.
pub open spec fn add_spec(v: VaultView, filename: Seq<char>, t: TaskView) -> Option<VaultView>
    decreases v,
{
    match v {
        VaultView::Directory(n, cs) => match add_children(cs, filename, t) {
            Some(k) => Some(VaultView::Directory(n, k)),
            None => None,
        },
        VaultView::Header(l, n, cs) => if n == filename {
            Some(VaultView::Header(l, n, cs.push(VaultView::Task(t))))
        } else {
            match add_children(cs, filename, t) {
                Some(k) => Some(VaultView::Header(l, n, k)),
                None => None,
            }
        },
        _ => None,
    }
}

/// The nodes `cs` with the task added under the first one that takes it.
pub open spec fn add_children(cs: Seq<VaultView>, filename: Seq<char>, t: TaskView) -> Option<
    Seq<VaultView>,
>
    decreases cs,
{
    if cs.len() == 0 {
        None
    } else {
        match add_spec(cs[0], filename, t) {
            Some(c) => Some(cs.update(0, c)),
            None => match add_children(cs.subrange(1, cs.len() as int), filename, t) {
                Some(k) => Some(seq![cs[0]] + k),
                None => None,
            },
        }
    }
}

impl TaskManager {
    /// The tree that the explorer shows: the vault, or what the current filter keeps.
    fn shown(&self) -> (r: Option<VaultData>)
        ensures
            match shown_tree(self.tasks@, filter_view(self.current_filter)) {
                Some(v) => r matches Some(e) && e@ == v,
                None => r is None,
            },
    {
        match &self.current_filter {
            Some(f) => filter(&self.tasks, f),
            None => Some(self.tasks.duplicate()),
        }
    }

    /// The layer of the shown tree that `selected_header_path` leads to; see
    /// `entries_at`.
    pub fn get_explorer_entries(&self, selected_header_path: &[String]) -> (r: Result<
        Vec<VaultData>,
        VaultError,
    >)
        ensures
            match entries_at(
                shown_tree(self.tasks@, filter_view(self.current_filter)),
                strings_view(selected_header_path@),
            ) {
                Ok(v) => r matches Ok(e) && vaults_view(e@) == v,
                Err(x) => r == Err::<Vec<VaultData>, VaultError>(x),
            },
    {
        match self.shown() {
            Some(VaultData::Directory(_, entries)) => explorer_entries_aux(
                entries,
                selected_header_path,
                0,
            ),
            None => Err(VaultError::EmptyVault),
            Some(_) => Err(VaultError::NotADirectory),
        }
    }

    /// Same as `get_explorer_entries`, each entry without what lies under it.
    pub fn get_explorer_entries_without_children(&self, path: &[String]) -> (r: Result<
        Vec<VaultData>,
        VaultError,
    >)
        ensures
            match entries_at(
                shown_tree(self.tasks@, filter_view(self.current_filter)),
                strings_view(path@),
            ) {
                Ok(v) => r matches Ok(e) && vaults_view(e@) == v.map_values(
                    |x: VaultView| without_children(x),
                ),
                Err(x) => r == Err::<Vec<VaultData>, VaultError>(x),
            },
    {
        let entries = match self.get_explorer_entries(path) {
            Ok(e) => e,
            Err(x) => {
                return Err(x);
            },
        };
        let ghost ev = vaults_view(entries@);
        proof {
            lemma_vaults_view(entries@);
        }
        let mut res: Vec<VaultData> = Vec::new();
        let mut i: usize = 0;
        while i < entries.len()
            invariant
                i <= entries@.len(),
                ev == vaults_view(entries@),
                ev.len() == entries@.len(),
                forall|j: int| 0 <= j < entries@.len() ==> #[trigger] ev[j] == vault_view(entries@[j]),
                res@.len() == i,
                forall|j: int|
                    0 <= j < i ==> #[trigger] vault_view(res@[j]) == without_children(ev[j]),
            decreases entries@.len() - i,
        {
            let e = match &entries[i] {
                VaultData::Directory(name, _) => VaultData::Directory(name.clone(), Vec::new()),
                VaultData::Header(level, name, _) => VaultData::Header(
                    *level,
                    name.clone(),
                    Vec::new(),
                ),
                VaultData::Task(t) => {
                    let mut t = t.duplicate();
                    t.subtasks = Vec::new();
                    VaultData::Task(t)
                },
                VaultData::Tracker(k) => VaultData::Tracker(k.duplicate()),
            };
            proof {
                assert(vaults_view(Seq::<VaultData>::empty()) =~= seq![]);
                assert(tasks_view(Seq::<Task>::empty()) =~= seq![]);
            }
            res.push(e);
            i = i + 1;
        }
        proof {
            lemma_vaults_view_ext(res@, ev.map_values(|x: VaultView| without_children(x)));
        }
        Ok(res)
    }
}

/// Follows `path` from element `idx` on in the tree `entry`; see `data_at`.
fn data_at_aux(entry: &VaultData, path: &[String], idx: usize) -> (r: Option<VaultData>)
    requires
        idx <= path@.len(),
    ensures
        match data_at(entry@, strings_view(path@), idx as nat) {
            Some(v) => r matches Some(e) && e@ == v,
            None => r is None,
        },
    decreases entry,
{
    if idx == path.len() {
        return Some(entry.duplicate());
    }
    proof {
        assert(strings_view(path@)[idx as int] == path@[idx as int]@);
    }
    match entry {
        VaultData::Directory(n, cs) => {
            if str_eq(n.as_str(), path[idx].as_str()) {
                if idx + 1 == path.len() {
                    Some(entry.duplicate())
                } else {
                    first_found_aux(cs, path, idx + 1)
                }
            } else {
                None
            }
        },
        VaultData::Header(_, n, cs) => {
            if str_eq(n.as_str(), path[idx].as_str()) {
                if idx + 1 == path.len() {
                    Some(entry.duplicate())
                } else {
                    first_found_aux(cs, path, idx + 1)
                }
            } else {
                None
            }
        },
        VaultData::Task(t) => match task_at_aux(t, path, idx) {
            Some(x) => Some(VaultData::Task(x)),
            None => None,
        },
        VaultData::Tracker(_) => None,
    }
}

/// The first result of `data_at_aux` among `cs`; see `first_found`.
fn first_found_aux(cs: &Vec<VaultData>, path: &[String], idx: usize) -> (r: Option<VaultData>)
    requires
        idx <= path@.len(),
    ensures
        match first_found(vaults_view(cs@), strings_view(path@), idx as nat) {
            Some(v) => r matches Some(e) && e@ == v,
            None => r is None,
        },
    decreases cs,
{
    let ghost cv = vaults_view(cs@);
    let ghost p = strings_view(path@);
    proof {
        lemma_vaults_view(cs@);
        assert(cv.subrange(0, cv.len() as int) =~= cv);
    }
    let mut i: usize = 0;
    while i < cs.len()
        invariant
            i <= cs@.len(),
            idx <= path@.len(),
            cv == vaults_view(cs@),
            p == strings_view(path@),
            cv.len() == cs@.len(),
            forall|j: int| 0 <= j < cs@.len() ==> #[trigger] cv[j] == vault_view(cs@[j]),
            first_found(cv, p, idx as nat) == first_found(
                cv.subrange(i as int, cv.len() as int),
                p,
                idx as nat,
            ),
        decreases cs@.len() - i,
    {
        proof {
            vstd::std_specs::vec::axiom_vec_index_decreases(*cs, i as int);
            let sub = cv.subrange(i as int, cv.len() as int);
            assert(sub[0] == cv[i as int]);
            assert(sub.subrange(1, sub.len() as int) =~= cv.subrange(i + 1, cv.len() as int));
        }
        match data_at_aux(&cs[i], path, idx) {
            Some(x) => {
                return Some(x);
            },
            None => {},
        }
        i = i + 1;
    }
    None
}

/// Follows `path` from element `idx` on in the task `t`; see `task_at`.
fn task_at_aux(t: &Task, path: &[String], idx: usize) -> (r: Option<Task>)
    requires
        idx <= path@.len(),
    ensures
        match task_at(t@, strings_view(path@), idx as nat) {
            Some(v) => r matches Some(e) && e@ == v,
            None => r is None,
        },
    decreases t,
{
    if idx == path.len() {
        return Some(t.duplicate());
    }
    proof {
        assert(strings_view(path@)[idx as int] == path@[idx as int]@);
    }
    if !str_eq(t.name.as_str(), path[idx].as_str()) {
        return None;
    }
    if idx + 1 == path.len() {
        return Some(t.duplicate());
    }
    let ghost tv = tasks_view(t.subtasks@);
    let ghost p = strings_view(path@);
    proof {
        lemma_tasks_view(t.subtasks@);
        assert(tv.subrange(0, tv.len() as int) =~= tv);
    }
    let plen = path.len();
    let mut i: usize = 0;
    while i < t.subtasks.len()
        invariant
            i <= t.subtasks@.len(),
            idx + 1 < path@.len(),
            plen == path@.len(),
            tv == tasks_view(t.subtasks@),
            p == strings_view(path@),
            tv.len() == t.subtasks@.len(),
            forall|j: int| 0 <= j < t.subtasks@.len() ==> #[trigger] tv[j] == task_view(t.subtasks@[j]),
            task_at(t@, p, idx as nat) == first_task_found(tv, p, (idx + 1) as nat),
            first_task_found(tv, p, (idx + 1) as nat) == first_task_found(
                tv.subrange(i as int, tv.len() as int),
                p,
                (idx + 1) as nat,
            ),
        decreases t.subtasks@.len() - i,
    {
        proof {
            vstd::std_specs::vec::axiom_vec_index_decreases(t.subtasks, i as int);
            let sub = tv.subrange(i as int, tv.len() as int);
            assert(sub[0] == tv[i as int]);
            assert(sub.subrange(1, sub.len() as int) =~= tv.subrange(i + 1, tv.len() as int));
        }
        match task_at_aux(&t.subtasks[i], path, idx + 1) {
            Some(x) => {
                return Some(x);
            },
            None => {},
        }
        i = i + 1;
    }
    None
}

/// Whether `path` from element `idx` on leads through `entry` to a node that holds
/// something; see `enterable`.
fn enterable_aux(entry: &VaultData, path: &[String], idx: usize) -> (r: bool)
    requires
        idx <= path@.len(),
    ensures
        r == enterable(entry@, strings_view(path@), idx as nat),
    decreases entry,
{
    if idx == path.len() {
        return true;
    }
    proof {
        assert(strings_view(path@)[idx as int] == path@[idx as int]@);
    }
    match entry {
        VaultData::Directory(n, cs) => str_eq(n.as_str(), path[idx].as_str()) && any_enterable_aux(
            cs,
            path,
            idx + 1,
        ),
        VaultData::Header(_, n, cs) => str_eq(n.as_str(), path[idx].as_str())
            && any_enterable_aux(cs, path, idx + 1),
        VaultData::Task(t) => task_enterable_aux(t, path, idx),
        VaultData::Tracker(_) => false,
    }
}

/// Whether one node of `cs` is enterable; see `any_enterable`.
fn any_enterable_aux(cs: &Vec<VaultData>, path: &[String], idx: usize) -> (r: bool)
    requires
        idx <= path@.len(),
    ensures
        r == any_enterable(vaults_view(cs@), strings_view(path@), idx as nat),
    decreases cs,
{
    let ghost cv = vaults_view(cs@);
    let ghost p = strings_view(path@);
    proof {
        lemma_vaults_view(cs@);
        assert(cv.subrange(0, cv.len() as int) =~= cv);
    }
    let mut i: usize = 0;
    while i < cs.len()
        invariant
            i <= cs@.len(),
            idx <= path@.len(),
            cv == vaults_view(cs@),
            p == strings_view(path@),
            cv.len() == cs@.len(),
            forall|j: int| 0 <= j < cs@.len() ==> #[trigger] cv[j] == vault_view(cs@[j]),
            any_enterable(cv, p, idx as nat) == any_enterable(
                cv.subrange(i as int, cv.len() as int),
                p,
                idx as nat,
            ),
        decreases cs@.len() - i,
    {
        proof {
            vstd::std_specs::vec::axiom_vec_index_decreases(*cs, i as int);
            let sub = cv.subrange(i as int, cv.len() as int);
            assert(sub[0] == cv[i as int]);
            assert(sub.subrange(1, sub.len() as int) =~= cv.subrange(i + 1, cv.len() as int));
        }
        if enterable_aux(&cs[i], path, idx) {
            return true;
        }
        i = i + 1;
    }
    false
}

/// `enterable_aux` for a task; see `task_enterable`.
fn task_enterable_aux(t: &Task, path: &[String], idx: usize) -> (r: bool)
    requires
        idx <= path@.len(),
    ensures
        r == task_enterable(t@, strings_view(path@), idx as nat),
    decreases t,
{
    if idx == path.len() {
        return true;
    }
    proof {
        assert(strings_view(path@)[idx as int] == path@[idx as int]@);
    }
    if !str_eq(t.name.as_str(), path[idx].as_str()) {
        return false;
    }
    let ghost tv = tasks_view(t.subtasks@);
    let ghost p = strings_view(path@);
    proof {
        lemma_tasks_view(t.subtasks@);
        assert(tv.subrange(0, tv.len() as int) =~= tv);
    }
    let plen = path.len();
    let mut i: usize = 0;
    while i < t.subtasks.len()
        invariant
            i <= t.subtasks@.len(),
            idx < path@.len(),
            plen == path@.len(),
            tv == tasks_view(t.subtasks@),
            p == strings_view(path@),
            tv.len() == t.subtasks@.len(),
            forall|j: int| 0 <= j < t.subtasks@.len() ==> #[trigger] tv[j] == task_view(t.subtasks@[j]),
            task_enterable(t@, p, idx as nat) == any_task_enterable(tv, p, (idx + 1) as nat),
            any_task_enterable(tv, p, (idx + 1) as nat) == any_task_enterable(
                tv.subrange(i as int, tv.len() as int),
                p,
                (idx + 1) as nat,
            ),
        decreases t.subtasks@.len() - i,
    {
        proof {
            vstd::std_specs::vec::axiom_vec_index_decreases(t.subtasks, i as int);
            let sub = tv.subrange(i as int, tv.len() as int);
            assert(sub[0] == tv[i as int]);
            assert(sub.subrange(1, sub.len() as int) =~= tv.subrange(i + 1, tv.len() as int));
        }
        if task_enterable_aux(&t.subtasks[i], path, idx + 1) {
            return true;
        }
        i = i + 1;
    }
    false
}

impl TaskManager {
    /// The node that `path` names in the shown tree, searching the root's entries in
    /// order; see `vault_data_at`.
    pub fn get_vault_data_from_path(&self, path: &[String]) -> (r: Result<VaultData, VaultError>)
        ensures
            match vault_data_at(
                shown_tree(self.tasks@, filter_view(self.current_filter)),
                strings_view(path@),
            ) {
                Ok(v) => r matches Ok(e) && e@ == v,
                Err(x) => r == Err::<VaultData, VaultError>(x),
            },
    {
        match self.shown() {
            Some(VaultData::Directory(_, entries)) => match first_found_aux(&entries, path, 0) {
                Some(x) => Ok(x),
                None => Err(VaultError::EntryNotFound),
            },
            None => Err(VaultError::EmptyVault),
            Some(_) => Err(VaultError::EmptyVault),
        }
    }

    /// Whether the explorer can enter `selected_header_path`; see `can_enter_spec`.
    pub fn can_enter(&self, selected_header_path: &[String]) -> (r: bool)
        ensures
            r == can_enter_spec(
                self.tasks@,
                filter_view(self.current_filter),
                strings_view(selected_header_path@),
            ),
    {
        match self.shown() {
            Some(VaultData::Directory(_, entries)) => any_enterable_aux(
                &entries,
                selected_header_path,
                0,
            ),
            _ => false,
        }
    }
}

pub proof fn lemma_push_to_set<A>(s: Seq<A>, x: A)
    ensures
        s.push(x).to_set() == s.to_set().insert(x),
{
    assert forall|a: A| #[trigger] s.push(x).to_set().contains(a) == s.to_set().insert(x).contains(
        a,
    ) by {
        if s.contains(a) {
            let k = choose|k: int| 0 <= k < s.len() && s[k] == a;
            assert(s.push(x)[k] == a);
        }
        if a == x {
            assert(s.push(x)[s.len() as int] == a);
        }
        if s.push(x).contains(a) {
            let k = choose|k: int| 0 <= k < s.len() + 1 && s.push(x)[k] == a;
            if k < s.len() {
                assert(s[k] == a);
            }
        }
    }
    assert(s.push(x).to_set() =~= s.to_set().insert(x));
}

/// Adds the tag `t` to `tags` unless it is there already.
fn insert_tag(tags: &mut Vec<String>, t: &String)
    ensures
        strings_view(final(tags)@).to_set() == strings_view(old(tags)@).to_set().insert(t@),
        strings_view(old(tags)@).no_duplicates() ==> strings_view(final(tags)@).no_duplicates(),
{
    let ghost sv = strings_view(tags@);
    let mut i: usize = 0;
    while i < tags.len()
        invariant
            i <= tags@.len(),
            sv == strings_view(tags@),
            sv.len() == tags@.len(),
            forall|j: int| 0 <= j < i ==> #[trigger] sv[j] != t@,
        decreases tags@.len() - i,
    {
        assert(sv[i as int] == tags@[i as int]@);
        if str_eq(tags[i].as_str(), t.as_str()) {
            proof {
                assert(sv.contains(t@));
                assert(sv.to_set().insert(t@) =~= sv.to_set());
            }
            return;
        }
        i = i + 1;
    }
    let ghost before = tags@;
    tags.push(t.clone());
    proof {
        assert(strings_view(tags@) =~= sv.push(t@));
        lemma_push_to_set(sv, t@);
        assert(!sv.contains(t@));
    }
}

impl TaskManager {
    /// Adds to `tags` every tag of the tree `tasks`, once each.
    pub fn collect_tags(tasks: &VaultData, tags: &mut Vec<String>)
        ensures
            strings_view(final(tags)@).to_set() == strings_view(old(tags)@).to_set().union(
                vault_tags(tasks@),
            ),
            strings_view(old(tags)@).no_duplicates() ==> strings_view(
                final(tags)@,
            ).no_duplicates(),
        decreases tasks,
    {
        let ghost start = strings_view(tags@).to_set();
        let ghost nd = strings_view(tags@).no_duplicates();
        match tasks {
            VaultData::Directory(_, children) => {
                collect_children_tags(children, tags);
            },
            VaultData::Header(_, _, children) => {
                collect_children_tags(children, tags);
            },
            VaultData::Task(task) => {
                collect_task_tags(task, tags);
            },
            VaultData::Tracker(_) => {
                proof {
                    assert(start.union(Set::empty()) =~= start);
                }
            },
        }
    }
}

/// Adds to `tags` every tag of the nodes `children`; see `children_tags`.
fn collect_children_tags(children: &Vec<VaultData>, tags: &mut Vec<String>)
    ensures
        strings_view(final(tags)@).to_set() == strings_view(old(tags)@).to_set().union(
            children_tags(vaults_view(children@)),
        ),
        strings_view(old(tags)@).no_duplicates() ==> strings_view(final(tags)@).no_duplicates(),
    decreases children,
{
    let ghost start = strings_view(tags@).to_set();
    let ghost nd = strings_view(tags@).no_duplicates();
    let ghost cv = vaults_view(children@);
    proof {
        lemma_vaults_view(children@);
        assert(cv.take(0) =~= Seq::<VaultView>::empty());
        assert(start.union(Set::empty()) =~= start);
    }
    let mut i: usize = 0;
    while i < children.len()
        invariant
            i <= children@.len(),
            cv == vaults_view(children@),
            cv.len() == children@.len(),
            forall|j: int| 0 <= j < children@.len() ==> #[trigger] cv[j] == vault_view(children@[j]),
            strings_view(tags@).to_set() == start.union(children_tags(cv.take(i as int))),
            nd ==> strings_view(tags@).no_duplicates(),
        decreases children@.len() - i,
    {
        proof {
            vstd::std_specs::vec::axiom_vec_index_decreases(*children, i as int);
            let pre = cv.take(i + 1);
            assert(pre.subrange(0, pre.len() - 1) =~= cv.take(i as int));
            assert(pre[pre.len() - 1] == cv[i as int]);
        }
        TaskManager::collect_tags(&children[i], tags);
        proof {
            assert(start.union(children_tags(cv.take(i + 1))) =~= start.union(
                children_tags(cv.take(i as int)),
            ).union(vault_tags(cv[i as int])));
        }
        i = i + 1;
    }
    proof {
        assert(cv.take(i as int) =~= cv);
    }
}

/// Adds to `tags` every tag of the task `task` and of its subtasks; see `task_tags`.
fn collect_task_tags(task: &Task, tags: &mut Vec<String>)
    ensures
        strings_view(final(tags)@).to_set() == strings_view(old(tags)@).to_set().union(
            task_tags(task@),
        ),
        strings_view(old(tags)@).no_duplicates() ==> strings_view(final(tags)@).no_duplicates(),
    decreases task,
{
    let ghost start = strings_view(tags@).to_set();
    let ghost nd = strings_view(tags@).no_duplicates();
    let empty: Vec<String> = Vec::new();
    let own = match &task.tags {
        Some(v) => v,
        None => &empty,
    };
    let ghost ov = strings_view(own@);
    proof {
        assert(ov =~= crate::filter::tags_or_empty(task@.tags));
        assert(ov.take(0).to_set() =~= Set::empty());
        assert(start.union(Set::empty()) =~= start);
    }
    let mut j: usize = 0;
    while j < own.len()
        invariant
            j <= own@.len(),
            ov == strings_view(own@),
            ov.len() == own@.len(),
            strings_view(tags@).to_set() == start.union(ov.take(j as int).to_set()),
            nd ==> strings_view(tags@).no_duplicates(),
        decreases own@.len() - j,
    {
        insert_tag(tags, &own[j]);
        proof {
            assert(ov.take(j + 1) =~= ov.take(j as int).push(ov[j as int]));
            lemma_push_to_set(ov.take(j as int), ov[j as int]);
            assert(start.union(ov.take(j + 1).to_set()) =~= start.union(
                ov.take(j as int).to_set(),
            ).insert(own@[j as int]@));
        }
        j = j + 1;
    }
    proof {
        assert(ov.take(j as int) =~= ov);
    }
    let ghost mid = strings_view(tags@).to_set();
    let ghost tv = tasks_view(task.subtasks@);
    proof {
        lemma_tasks_view(task.subtasks@);
        assert(tv.take(0) =~= Seq::<TaskView>::empty());
        assert(mid.union(Set::empty()) =~= mid);
    }
    let mut i: usize = 0;
    while i < task.subtasks.len()
        invariant
            i <= task.subtasks@.len(),
            tv == tasks_view(task.subtasks@),
            tv.len() == task.subtasks@.len(),
            forall|k: int|
                0 <= k < task.subtasks@.len() ==> #[trigger] tv[k] == task_view(task.subtasks@[k]),
            strings_view(tags@).to_set() == mid.union(subtasks_tags(tv.take(i as int))),
            nd ==> strings_view(tags@).no_duplicates(),
        decreases task.subtasks@.len() - i,
    {
        proof {
            vstd::std_specs::vec::axiom_vec_index_decreases(task.subtasks, i as int);
            let pre = tv.take(i + 1);
            assert(pre.subrange(0, pre.len() - 1) =~= tv.take(i as int));
            assert(pre[pre.len() - 1] == tv[i as int]);
        }
        collect_task_tags(&task.subtasks[i], tags);
        proof {
            assert(mid.union(subtasks_tags(tv.take(i + 1))) =~= mid.union(
                subtasks_tags(tv.take(i as int)),
            ).union(task_tags(tv[i as int])));
        }
        i = i + 1;
    }
    proof {
        assert(tv.take(i as int) =~= tv);
        assert(mid.union(subtasks_tags(tv)) =~= start.union(task_tags(task@)));
    }
}

/// Length of the run of characters other than `c` in `s` from `i` on.
pub open spec fn until_run(s: Seq<char>, i: int, c: char) -> nat
    decreases s.len() - i,
{
    if 0 <= i < s.len() && s[i] != c {
        1 + until_run(s, i + 1, c)
    } else {
        0
    }
}

pub proof fn lemma_until_run_skip(s: Seq<char>, i: int, m: int, c: char)
    requires
        0 <= i <= s.len(),
        0 <= m,
    ensures
        until_run(s.skip(i), m, c) == until_run(s, i + m, c),
        i + m <= s.len() ==> i + m + until_run(s, i + m, c) <= s.len(),
    decreases s.len() - i - m,
{
    if i + m < s.len() && s[i + m] != c {
        lemma_until_run_skip(s, i, m + 1, c);
    }
}

/// The pieces of `s` between the characters `c`, as `split(c)` of std gives them.
pub open spec fn split_on(s: Seq<char>, c: char) -> Seq<Seq<char>>
    decreases s.len(),
{
    let k = until_run(s, 0, c);
    if k >= s.len() {
        seq![s]
    } else {
        seq![s.take(k as int)] + split_on(s.skip((k + 1) as int), c)
    }
}

/// Whether a piece of a path is a component: neither empty nor `.`.
pub open spec fn is_component(x: Seq<char>) -> bool {
    x.len() > 0 && x != seq!['.']
}

/// The last component among the pieces `cs`.
pub open spec fn last_component(cs: Seq<Seq<char>>) -> Option<Seq<char>>
    decreases cs.len(),
{
    if cs.len() == 0 {
        None
    } else if is_component(cs.last()) {
        Some(cs.last())
    } else {
        last_component(cs.drop_last())
    }
}

/// The file name of the path `s`, as `Path::file_name` of std gives it on Unix: its
/// last component, unless that is `..`.
pub open spec fn file_name(s: Seq<char>) -> Option<Seq<char>> {
    match last_component(split_on(s, '/')) {
        Some(x) => if x == seq!['.', '.'] {
            None
        } else {
            Some(x)
        },
        None => None,
    }
}

/// The index of the last `.` of `name`.
pub open spec fn last_dot(name: Seq<char>) -> Option<int>
    decreases name.len(),
{
    if name.len() == 0 {
        None
    } else if name.last() == '.' {
        Some(name.len() - 1)
    } else {
        last_dot(name.drop_last())
    }
}

/// Whether the path `s` has the extension `md`, in any ASCII case, as
/// `Path::extension` of std finds it: after the last `.` of the file name, when that
/// `.` is not its first character.
pub open spec fn has_md_extension(s: Seq<char>) -> bool {
    match file_name(s) {
        None => false,
        Some(name) => match last_dot(name) {
            Some(k) => k > 0 && name.len() == k + 3 && (name[k + 1] == 'm' || name[k + 1]
                == 'M') && (name[k + 2] == 'd' || name[k + 2] == 'D'),
            None => false,
        },
    }
}

/// Whether the path `filename` has the extension `md`; see `has_md_extension`.
pub fn md_extension(filename: &str) -> (r: bool)
    ensures
        r == has_md_extension(filename@),
{
    let cs = chars_of(filename);
    let mut last: Option<(usize, usize)> = None;
    let mut i: usize = 0;
    let mut done = false;
    let ghost mut pieces: Seq<Seq<char>> = seq![];
    proof {
        assert(cs@.skip(0) =~= cs@);
        assert(pieces + split_on(cs@, '/') =~= split_on(cs@, '/'));
    }
    while !done
        invariant
            i <= cs@.len(),
            cs@ == filename@,
            done ==> pieces == split_on(cs@, '/'),
            !done ==> pieces + split_on(cs@.skip(i as int), '/') == split_on(cs@, '/'),
            match last {
                Some((a, b)) => a <= b <= cs@.len() && last_component(pieces) == Some(
                    cs@.subrange(a as int, b as int),
                ),
                None => last_component(pieces) is None,
            },
        decreases (if done { 0 } else { cs@.len() + 1 - i }),
    {
        let mut j = i;
        while j < cs.len() && cs[j] != '/'
            invariant
                i <= j <= cs@.len(),
                until_run(cs@, i as int, '/') == (j - i) + until_run(cs@, j as int, '/'),
            decreases cs@.len() - j,
        {
            j = j + 1;
        }
        let ghost sk = cs@.skip(i as int);
        let ghost piece = cs@.subrange(i as int, j as int);
        proof {
            lemma_until_run_skip(cs@, i as int, 0, '/');
            assert(sk.take((j - i) as int) =~= piece);
            if j < cs@.len() {
                assert(sk.skip(j - i + 1) =~= cs@.skip(j + 1));
                assert(split_on(sk, '/') == seq![piece] + split_on(cs@.skip(j + 1), '/'));
            } else {
                assert(sk =~= piece);
                assert(split_on(sk, '/') == seq![piece]);
            }
        }
        let is_comp = j > i && !(j == i + 1 && cs[i] == '.');
        proof {
            if j == i + 1 {
                assert(piece =~= seq![cs@[i as int]]);
            }
            assert(is_comp == is_component(piece));
        }
        if is_comp {
            last = Some((i, j));
        }
        proof {
            let np = pieces.push(piece);
            assert(np.drop_last() =~= pieces);
            pieces = np;
        }
        if j == cs.len() {
            done = true;
            proof {
                assert(pieces =~= pieces.drop_last() + split_on(sk, '/'));
            }
        } else {
            proof {
                assert(pieces + split_on(cs@.skip(j + 1), '/') =~= pieces.drop_last() + split_on(
                    sk,
                    '/',
                ));
            }
            i = j + 1;
        }
    }
    let (a, b) = match last {
        Some(x) => x,
        None => {
            return false;
        },
    };
    let ghost name = cs@.subrange(a as int, b as int);
    if b - a == 2 && cs[a] == '.' && cs[a + 1] == '.' {
        proof {
            assert(name =~= seq!['.', '.']);
        }
        return false;
    }
    proof {
        assert(name != seq!['.', '.']) by {
            if name == seq!['.', '.'] {
                assert(name[0] == cs@[a as int]);
                assert(name[1] == cs@[a + 1]);
            }
        }
    }
    proof {
        assert(name.take(b - a) =~= name);
    }
    let mut k = b;
    while k > a && cs[k - 1] != '.'
        invariant
            a <= k <= b <= cs@.len(),
            name == cs@.subrange(a as int, b as int),
            last_dot(name) == last_dot(name.take(k - a)),
        decreases k,
    {
        proof {
            let t = name.take(k - a);
            assert(t.drop_last() =~= name.take(k - 1 - a));
            assert(t.last() == cs@[k - 1]);
        }
        k = k - 1;
    }
    if k == a {
        proof {
            assert(name.take(0) =~= Seq::<char>::empty());
        }
        return false;
    }
    proof {
        let t = name.take(k - a);
        assert(t.last() == cs@[k - 1]);
        assert(last_dot(name) == Some(k - 1 - a));
    }
    let d = k - 1;
    let r = d > a && b - d == 3 && (cs[d + 1] == 'm' || cs[d + 1] == 'M') && (cs[d + 2] == 'd'
        || cs[d + 2] == 'D');
    proof {
        if b == d + 3 {
            assert(name[d + 1 - a] == cs@[d + 1]);
            assert(name[d + 2 - a] == cs@[d + 2]);
        }
    }
    r
}

/// The tree `entry` with the task `t` added to the first header named `filename`; see
/// `add_spec`.
fn add_aux(entry: &VaultData, filename: &str, t: &Task) -> (r: Option<VaultData>)
    ensures
        match add_spec(entry@, filename@, t@) {
            Some(v) => r matches Some(e) && e@ == v,
            None => r is None,
        },
    decreases entry,
{
    match entry {
        VaultData::Directory(n, children) => match add_to_children(children, filename, t) {
            Some(c) => Some(VaultData::Directory(n.clone(), c)),
            None => None,
        },
        VaultData::Header(l, n, children) => {
            if str_eq(n.as_str(), filename) {
                let mut c = crate::vault::duplicate_children(children);
                let ghost before = c@;
                let node = VaultData::Task(t.duplicate());
                c.push(node);
                proof {
                    crate::file_parser::lemma_vaults_push(before, node);
                }
                Some(VaultData::Header(*l, n.clone(), c))
            } else {
                match add_to_children(children, filename, t) {
                    Some(c) => Some(VaultData::Header(*l, n.clone(), c)),
                    None => None,
                }
            }
        },
        VaultData::Task(_) => None,
        VaultData::Tracker(_) => None,
    }
}

/// The nodes `children` with the task `t` added under the first that takes it; see
/// `add_children`.
fn add_to_children(children: &Vec<VaultData>, filename: &str, t: &Task) -> (r: Option<
    Vec<VaultData>,
>)
    ensures
        match add_children(vaults_view(children@), filename@, t@) {
            Some(v) => r matches Some(e) && vaults_view(e@) == v,
            None => r is None,
        },
    decreases children,
{
    let ghost cv = vaults_view(children@);
    proof {
        lemma_vaults_view(children@);
        assert(cv.subrange(0, cv.len() as int) =~= cv);
        assert(cv.take(0) =~= Seq::<VaultView>::empty());
    }
    let mut i: usize = 0;
    while i < children.len()
        invariant
            i <= children@.len(),
            cv == vaults_view(children@),
            cv.len() == children@.len(),
            forall|j: int| 0 <= j < children@.len() ==> #[trigger] cv[j] == vault_view(children@[j]),
            match add_children(cv.subrange(i as int, cv.len() as int), filename@, t@) {
                Some(k) => add_children(cv, filename@, t@) == Some(cv.take(i as int) + k),
                None => add_children(cv, filename@, t@) is None,
            },
        decreases children@.len() - i,
    {
        proof {
            vstd::std_specs::vec::axiom_vec_index_decreases(*children, i as int);
            let sub = cv.subrange(i as int, cv.len() as int);
            assert(sub[0] == cv[i as int]);
            assert(sub.subrange(1, sub.len() as int) =~= cv.subrange(i + 1, cv.len() as int));
            assert(cv.take(i + 1) =~= cv.take(i as int) + seq![cv[i as int]]);
            match add_children(cv.subrange(i + 1, cv.len() as int), filename@, t@) {
                Some(k) => {
                    assert(cv.take(i as int) + (seq![cv[i as int]] + k) =~= cv.take(i + 1) + k);
                },
                None => {},
            }
        }
        match add_aux(&children[i], filename, t) {
            Some(c) => {
                let mut res = crate::vault::duplicate_children(children);
                let ghost before = res@;
                proof {
                    lemma_vaults_view(res@);
                }
                let _ = res.remove(i);
                res.insert(i, c);
                proof {
                    crate::file_parser::lemma_vaults_replace(before, i as int, c);
                    let sub = cv.subrange(i as int, cv.len() as int);
                    assert(cv.take(i as int) + sub.update(0, c@) =~= cv.update(i as int, c@));
                }
                return Some(res);
            },
            None => {},
        }
        i = i + 1;
    }
    None
}

/// Why a task could not be added.
#[derive(Debug, Clone, Copy, PartialEq, Eq, Structural)]
pub enum AddTaskError {
    /// No file was given and the configuration names no drop file.
    NoDropFile,
    /// The file does not have the `md` extension.
    NotMarkdown,
    /// The task does not read as a task line.
    Malformed,
    /// No file of the vault has that name.
    FileNotFound,
    /// The day of the system clock lies in the last week that dates express.
    DateOutOfRange,
}

impl TaskManager {
    /// The file that a new task goes to: the one given, else the drop file of the
    /// configuration; it must be named and have the `md` extension.
    pub fn drop_file(&self, filename_opt: Option<String>) -> (r: Result<String, AddTaskError>)
        ensures
            ({
                let f = match filename_opt {
                    Some(x) => x@,
                    None => self.config.tasks_drop_file@,
                };
                if f.len() == 0 {
                    r == Err::<String, AddTaskError>(AddTaskError::NoDropFile)
                } else if !has_md_extension(f) {
                    r == Err::<String, AddTaskError>(AddTaskError::NotMarkdown)
                } else {
                    r matches Ok(s) && s@ == f
                }
            }),
    {
        let filename = match filename_opt {
            Some(x) => x,
            None => self.config.tasks_drop_file.clone(),
        };
        if filename.as_str().unicode_len() == 0 {
            return Err(AddTaskError::NoDropFile);
        }
        if !md_extension(filename.as_str()) {
            return Err(AddTaskError::NotMarkdown);
        }
        Ok(filename)
    }

    /// Reads `task_desc` on `today` as a task of the file `filename` and adds it to the
    /// first header of the vault with that name. On failure the vault is left as it
    /// was.
    pub fn add_task_at(&mut self, task_desc: &str, filename: &str, today: crate::date::NaiveDate) -> (r:
        Result<(), AddTaskError>)
        requires
            today.valid(),
            today.days() + 7 <= crate::date::max_day_number(),
            old(self).config.indent_length > 0,
            task_desc@.len() < usize::MAX,
        ensures
            final(self).config == old(self).config,
            final(self).tags == old(self).tags,
            final(self).current_filter == old(self).current_filter,
            match crate::file_parser::single_task_spec(
                task_desc@,
                filename@,
                old(self).config,
                today,
            ) {
                None => r == Err::<(), AddTaskError>(AddTaskError::Malformed) && final(self).tasks@
                    == old(self).tasks@,
                Some(t) => match add_spec(old(self).tasks@, filename@, t) {
                    Some(v) => r is Ok && final(self).tasks@ == v,
                    None => r == Err::<(), AddTaskError>(AddTaskError::FileNotFound)
                        && final(self).tasks@ == old(self).tasks@,
                },
            },
    {
        let task = match crate::file_parser::parse_single_task_at(
            task_desc,
            filename,
            &self.config,
            today,
        ) {
            Ok(t) => t,
            Err(_) => {
                return Err(AddTaskError::Malformed);
            },
        };
        match add_aux(&self.tasks, filename, &task) {
            Some(e) => {
                self.tasks = e;
                Ok(())
            },
            None => Err(AddTaskError::FileNotFound),
        }
    }
}

/// What adding the task line `desc` to the file `f` of the vault `tasks` gives when it
/// is read on `today`: `DateOutOfRange` in the last week that dates express, then as
/// `add_task_at` does: `Malformed` when the line is no task, `FileNotFound` when no file
/// has that name, and otherwise the vault `after` with the task added.
pub open spec fn add_outcome(
    tasks: VaultView,
    config: TasksConfig,
    desc: Seq<char>,
    f: Seq<char>,
    today: crate::date::NaiveDate,
    r: Result<(), AddTaskError>,
    after: VaultView,
) -> bool {
    if !crate::file_parser::week_left_spec(today) {
        r == Err::<(), AddTaskError>(AddTaskError::DateOutOfRange) && after == tasks
    } else {
        match crate::file_parser::single_task_spec(desc, f, config, today) {
            None => r == Err::<(), AddTaskError>(AddTaskError::Malformed) && after == tasks,
            Some(t) => match add_spec(tasks, f, t) {
                Some(v) => r is Ok && after == v,
                None => r == Err::<(), AddTaskError>(AddTaskError::FileNotFound) && after == tasks,
            },
        }
    }
}

impl TaskManager {
    /// Adds the task `task_desc` to the file `filename_opt` (or the drop file of the
    /// configuration), read on the day of the system clock; see `drop_file` and
    /// `add_outcome`. `NoDropFile` and `NotMarkdown` come exactly when the file name is
    /// empty or lacks the `md` extension; otherwise the outcome is that of the day the
    /// clock gave. On failure the vault is left as it was.
    pub fn add_task(&mut self, task_desc: &str, filename_opt: Option<String>) -> (r: Result<
        (),
        AddTaskError,
    >)
        requires
            old(self).config.indent_length > 0,
            task_desc@.len() < usize::MAX,
        ensures
            final(self).config == old(self).config,
            final(self).tags == old(self).tags,
            final(self).current_filter == old(self).current_filter,
            r is Err ==> final(self).tasks@ == old(self).tasks@,
            ({
                let f = match filename_opt {
                    Some(x) => x@,
                    None => old(self).config.tasks_drop_file@,
                };
                &&& (r == Err::<(), AddTaskError>(AddTaskError::NoDropFile)) <==> f.len() == 0
                &&& (r == Err::<(), AddTaskError>(AddTaskError::NotMarkdown)) <==> (f.len() > 0
                    && !has_md_extension(f))
                &&& (f.len() > 0 && has_md_extension(f)) ==> exists|today: crate::date::NaiveDate|
                    today.valid() && add_outcome(
                        old(self).tasks@,
                        old(self).config,
                        task_desc@,
                        f,
                        today,
                        r,
                        final(self).tasks@,
                    )
            }),
    {
        let filename = match self.drop_file(filename_opt) {
            Ok(f) => f,
            Err(e) => return Err(e),
        };
        let today = crate::date::now().date;
        if !crate::file_parser::week_left(today) {
            return Err(AddTaskError::DateOutOfRange);
        }
        let r = self.add_task_at(task_desc, filename.as_str(), today);
        proof {
            assert(add_outcome(
                old(self).tasks@,
                old(self).config,
                task_desc@,
                filename@,
                today,
                r,
                self.tasks@,
            ));
        }
        r
    }
}

impl Default for TaskManager {
    fn default() -> (r: Self)
        ensures
            r.tasks@ == VaultView::Directory("Empty Vault"@, seq![]),
            r.tags@.len() == 0,
            r.current_filter is None,
    {
        let r = TaskManager {
            tasks: VaultData::Directory(String::from_str("Empty Vault"), Vec::new()),
            config: TasksConfig::default(),
            tags: Vec::new(),
            current_filter: None,
        };
        proof {
            assert(vaults_view(Seq::<VaultData>::empty()) =~= seq![]);
        }
        r
    }
}

impl TaskManager {
    /// Takes the vault read from the disk under `config`: its tree, and every tag of
    /// it, once each.
    pub fn load(&mut self, config: TasksConfig, tasks: VaultData)
        ensures
            final(self).config == config,
            final(self).tasks == tasks,
            final(self).current_filter == old(self).current_filter,
            strings_view(final(self).tags@).to_set() == vault_tags(tasks@),
            strings_view(final(self).tags@).no_duplicates(),
    {
        let mut tags: Vec<String> = Vec::new();
        proof {
            assert(strings_view(tags@) =~= seq![]);
            assert(strings_view(tags@).to_set() =~= Set::empty());
        }
        TaskManager::collect_tags(&tasks, &mut tags);
        proof {
            assert(Set::<Seq<char>>::empty().union(vault_tags(tasks@)) =~= vault_tags(tasks@));
        }
        self.config = config;
        self.tasks = tasks;
        self.tags = tags;
    }
}

} // verus!
