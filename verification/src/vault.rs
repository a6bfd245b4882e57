//! The vault as a tree: directories, the headers of the files, and tasks.
use vstd::prelude::*;
use crate::task::{lemma_tasks_view, task_view, tasks_view, Task, TaskView};
use crate::tracker::{Tracker, TrackerView};

verus! {

/// A node of the vault tree.
#[derive(Debug, PartialEq, Eq)]
pub enum VaultData {
    /// Name, content.
    Directory(String, Vec<VaultData>),
    /// Level, name, content. A file is a header of level 0.
    Header(usize, String, Vec<VaultData>),
    /// A task, with its subtasks.
    Task(Task),
    /// A tracker.
    Tracker(Tracker),
}

/// A node of the vault tree as a mathematical value.
pub enum VaultView {
    Directory(Seq<char>, Seq<VaultView>),
    Header(usize, Seq<char>, Seq<VaultView>),
    Task(TaskView),
    Tracker(TrackerView),
}

pub open spec fn vault_view(v: VaultData) -> VaultView
    decreases v,
{
    match v {
        VaultData::Directory(name, children) => VaultView::Directory(
            name@,
            vaults_view(children@),
        ),
        VaultData::Header(level, name, children) => VaultView::Header(
            level,
            name@,
            vaults_view(children@),
        ),
        VaultData::Task(t) => VaultView::Task(task_view(t)),
        VaultData::Tracker(t) => VaultView::Tracker(t@),
    }
}

pub open spec fn vaults_view(s: Seq<VaultData>) -> Seq<VaultView>
    decreases s,
{
    if s.len() == 0 {
        seq![]
    } else {
        seq![vault_view(s[0])] + vaults_view(s.drop_first())
    }
}

impl View for VaultData {
    type V = VaultView;

    open spec fn view(&self) -> VaultView {
        vault_view(*self)
    }
}

pub proof fn lemma_vaults_view(s: Seq<VaultData>)
    ensures
        vaults_view(s).len() == s.len(),
        forall|i: int| 0 <= i < s.len() ==> #[trigger] vaults_view(s)[i] == vault_view(s[i]),
    decreases s.len(),
{
    if s.len() > 0 {
        lemma_vaults_view(s.drop_first());
        assert forall|i: int| 0 <= i < s.len() implies #[trigger] vaults_view(s)[i]
            == vault_view(s[i]) by {
            if i > 0 {
                assert(s.drop_first()[i - 1] == s[i]);
            }
        }
    }
}

/// Two sequences of nodes whose nodes have the same views have the same view.
pub proof fn lemma_vaults_view_ext(a: Seq<VaultData>, b: Seq<VaultView>)
    requires
        a.len() == b.len(),
        forall|i: int| 0 <= i < a.len() ==> #[trigger] vault_view(a[i]) == b[i],
    ensures
        vaults_view(a) == b,
{
    lemma_vaults_view(a);
    assert(vaults_view(a) =~= b);
}

/// The view of the tasks of `s`, each as a node.
pub open spec fn tasks_as_nodes(s: Seq<TaskView>) -> Seq<VaultView> {
    s.map_values(|t: TaskView| VaultView::Task(t))
}

impl VaultData {
    /// A copy of the node.
    pub fn duplicate(&self) -> (r: VaultData)
        ensures
            r@ == self@,
        decreases self,
    {
        match self {
            VaultData::Directory(name, children) => {
                let c = duplicate_children(children);
                VaultData::Directory(name.clone(), c)
            },
            VaultData::Header(level, name, children) => {
                let c = duplicate_children(children);
                VaultData::Header(*level, name.clone(), c)
            },
            VaultData::Task(t) => VaultData::Task(t.duplicate()),
            VaultData::Tracker(t) => VaultData::Tracker(t.duplicate()),
        }
    }
}

/// A copy of each node of `children`.
pub fn duplicate_children(children: &Vec<VaultData>) -> (r: Vec<VaultData>)
    ensures
        vaults_view(r@) == vaults_view(children@),
    decreases children,
{
    let mut c: Vec<VaultData> = Vec::new();
    let mut i: usize = 0;
    while i < children.len()
        invariant
            i <= children@.len(),
            c@.len() == i,
            forall|j: int| 0 <= j < i ==> #[trigger] vault_view(c@[j]) == vault_view(
                children@[j],
            ),
        decreases children@.len() - i,
    {
        proof {
            vstd::std_specs::vec::axiom_vec_index_decreases(*children, i as int);
        }
        let d = children[i].duplicate();
        c.push(d);
        i = i + 1;
    }
    proof {
        lemma_vaults_view(children@);
        lemma_vaults_view_ext(c@, vaults_view(children@));
    }
    c
}

impl Clone for VaultData {
    fn clone(&self) -> (r: Self)
        ensures
            r@ == self@,
    {
        self.duplicate()
    }
}

/// Each task of `tasks` as a node.
pub fn tasks_to_nodes(tasks: &Vec<Task>) -> (r: Vec<VaultData>)
    ensures
        vaults_view(r@) == tasks_as_nodes(tasks_view(tasks@)),
{
    let mut c: Vec<VaultData> = Vec::new();
    let mut i: usize = 0;
    proof {
        lemma_tasks_view(tasks@);
    }
    while i < tasks.len()
        invariant
            i <= tasks@.len(),
            c@.len() == i,
            tasks_view(tasks@).len() == tasks@.len(),
            forall|j: int| 0 <= j < i ==> #[trigger] vault_view(c@[j]) == VaultView::Task(
                task_view(tasks@[j]),
            ),
        decreases tasks@.len() - i,
    {
        let t = tasks[i].duplicate();
        c.push(VaultData::Task(t));
        i = i + 1;
    }
    proof {
        lemma_tasks_view(tasks@);
        lemma_vaults_view_ext(c@, tasks_as_nodes(tasks_view(tasks@)));
    }
    c
}

} // verus!
