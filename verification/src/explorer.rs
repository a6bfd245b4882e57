//! The lines of the explorer: each entry of a layer of the vault as a prefix (a mark
//! for directories and files, `#`s for headers, the state symbol for tasks) and a name,
//! with directories listed first and every list of directories and files ordered by
//! name.
use vstd::prelude::*;
use crate::filter::{contains, contains_chars};
use crate::manager::{entries_at, filter_view, shown_tree, TaskManager, VaultError};
use crate::task::State;
use crate::text::{chars_of, push_char, push_str, str_eq};
use crate::vault::{vaults_view, VaultData, VaultView};

verus! {

/// The order of two strings as `String` orders them: character by character by code
/// point, a proper prefix first.
pub open spec fn text_before(a: Seq<char>, b: Seq<char>) -> bool
    decreases a.len(),
{
    if a.len() == 0 {
        b.len() > 0
    } else if b.len() == 0 {
        false
    } else if a[0] != b[0] {
        a[0] < b[0]
    } else {
        text_before(a.drop_first(), b.drop_first())
    }
}

/// `text_before` is a strict total order.
pub proof fn lemma_text_order(a: Seq<char>, b: Seq<char>, c: Seq<char>)
    ensures
        !text_before(a, a),
        text_before(a, b) ==> !text_before(b, a),
        a != b ==> text_before(a, b) || text_before(b, a),
        text_before(a, b) && text_before(b, c) ==> text_before(a, c),
    decreases a.len(),
{
    if a.len() > 0 && b.len() > 0 && c.len() > 0 {
        lemma_text_order(a.drop_first(), b.drop_first(), c.drop_first());
    } else if a.len() > 0 && b.len() > 0 {
        lemma_text_order(a.drop_first(), b.drop_first(), b.drop_first());
    } else if a.len() > 0 {
        lemma_text_order(a.drop_first(), a.drop_first(), a.drop_first());
    }
    if a.len() > 0 && b.len() > 0 && a[0] == b[0] && a != b {
        assert(a.drop_first() != b.drop_first()) by {
            if a.drop_first() == b.drop_first() {
                assert(a =~= seq![a[0]] + a.drop_first());
                assert(b =~= seq![b[0]] + b.drop_first());
            }
        }
    }
    if a.len() == 0 && b.len() == 0 {
        assert(a =~= b);
    }
}

/// Two strings that agree on their first `i` characters compare as what follows.
proof fn lemma_text_before_skip(a: Seq<char>, b: Seq<char>, i: int)
    requires
        0 <= i <= a.len(),
        i <= b.len(),
        forall|k: int| 0 <= k < i ==> a[k] == b[k],
    ensures
        text_before(a, b) == text_before(a.skip(i), b.skip(i)),
    decreases i,
{
    if i > 0 {
        lemma_text_before_skip(a.drop_first(), b.drop_first(), i - 1);
        assert(a.drop_first().skip(i - 1) =~= a.skip(i));
        assert(b.drop_first().skip(i - 1) =~= b.skip(i));
    } else {
        assert(a.skip(0) =~= a);
        assert(b.skip(0) =~= b);
    }
}

/// Whether `a` comes strictly before `b`; see `text_before`.
pub fn text_less(a: &str, b: &str) -> (r: bool)
    ensures
        r == text_before(a@, b@),
{
    let x = chars_of(a);
    let y = chars_of(b);
    let mut i: usize = 0;
    while i < x.len() && i < y.len()
        invariant
            x@ == a@,
            y@ == b@,
            i <= x@.len(),
            i <= y@.len(),
            forall|k: int| 0 <= k < i ==> x@[k] == y@[k],
        decreases x@.len() - i,
    {
        if x[i] != y[i] {
            proof {
                lemma_text_before_skip(a@, b@, i as int);
                assert(a@.skip(i as int)[0] == x@[i as int]);
                assert(b@.skip(i as int)[0] == y@[i as int]);
            }
            return x[i] < y[i];
        }
        i = i + 1;
    }
    proof {
        lemma_text_before_skip(a@, b@, i as int);
    }
    i == x.len() && i < y.len()
}

/// An entry of the explorer: its prefix and its name.
pub type Label = (Seq<char>, Seq<char>);

/// The prefix of a directory.
pub open spec fn directory_mark() -> Seq<char> {
    "📁"@
}

/// The prefix of a Markdown file.
pub open spec fn file_mark() -> Seq<char> {
    "📄"@
}

/// The prefix of a header of level `level`: as many `#`.
pub open spec fn header_mark(level: nat) -> Seq<char> {
    Seq::new(level, |i: int| '#')
}

/// The symbol of a task state.
pub open spec fn state_mark(s: State) -> Seq<char> {
    match s {
        State::Done => "✅"@,
        State::ToDo => "❌"@,
        State::Incomplete => "⏳"@,
        State::Canceled => "🚫"@,
    }
}

/// The entry of a node: a directory whose name holds `.md` is a file; a tracker has no
/// prefix.
pub open spec fn prefix_name(v: VaultView) -> Label {
    match v {
        VaultView::Directory(n, _) => (
            if contains(n, ".md"@) {
                file_mark()
            } else {
                directory_mark()
            },
            n,
        ),
        VaultView::Header(l, n, _) => (header_mark(l as nat), n),
        VaultView::Task(t) => (state_mark(t.state), t.name),
        VaultView::Tracker(t) => (seq![], t.name),
    }
}

/// Directories come first.
pub open spec fn dir_rank(l: Label) -> int {
    if l.0 == directory_mark() {
        0
    } else {
        1
    }
}

/// Whether the entry `a` is listed strictly before `b`: a directory before anything
/// else, and otherwise by name.
pub open spec fn label_before(a: Label, b: Label) -> bool {
    dir_rank(a) < dir_rank(b) || (dir_rank(a) == dir_rank(b) && text_before(a.1, b.1))
}

/// `label_before` is a strict order whose "no later than" is transitive.
proof fn lemma_label_order(a: Label, b: Label, c: Label)
    ensures
        label_before(a, b) ==> !label_before(b, a),
        !label_before(b, a) && !label_before(c, b) ==> !label_before(c, a),
{
    lemma_text_order(a.1, b.1, c.1);
    lemma_text_order(b.1, c.1, a.1);
    lemma_text_order(c.1, a.1, b.1);
    lemma_text_order(a.1, c.1, b.1);
    lemma_text_order(c.1, b.1, a.1);
    lemma_text_order(b.1, a.1, c.1);
}


/// The entries of the nodes `vs`, in order.
pub open spec fn prefix_names(vs: Seq<VaultView>) -> Seq<Label> {
    vs.map_values(|v: VaultView| prefix_name(v))
}

/// An explorer list as prefixes and names.
pub open spec fn labels_view(s: Seq<(String, String)>) -> Seq<Label> {
    s.map_values(|p: (String, String)| (p.0@, p.1@))
}

/// Whether no entry of `s` is listed strictly before one that precedes it.
pub open spec fn sorted_labels(s: Seq<Label>) -> bool {
    forall|i: int, j: int| 0 <= i < j < s.len() ==> !label_before(#[trigger] s[j], #[trigger] s[i])
}

/// `perm` lists, for each position of `s`, the position in `o` that its entry comes
/// from; every position of `o` is listed once, and two entries of `o` change order in
/// `s` only where the one put first is listed strictly before the other.
pub open spec fn stable_perm_of(s: Seq<Label>, o: Seq<Label>, perm: Seq<int>) -> bool {
    &&& perm.len() == s.len()
    &&& o.len() == s.len()
    &&& forall|k: int| 0 <= k < perm.len() ==> 0 <= #[trigger] perm[k] < perm.len()
    &&& forall|k: int, l: int|
        #![trigger perm[k], perm[l]]
        0 <= k < l < perm.len() ==> perm[k] != perm[l]
    &&& forall|k: int| 0 <= k < s.len() ==> #[trigger] s[k] == o[perm[k]]
    &&& forall|k: int, l: int|
        #![trigger perm[k], perm[l]]
        0 <= k < l < s.len() && perm[k] > perm[l] ==> label_before(s[k], s[l])
}

/// `s` is `o` sorted by `label_before`, entries that are not listed strictly apart
/// keeping their order: the one list that a stable sort gives.
pub open spec fn stable_sort_of(s: Seq<Label>, o: Seq<Label>) -> bool {
    sorted_labels(s) && exists|perm: Seq<int>| stable_perm_of(s, o, perm)
}

/// Whether a list is one of directories and files: its first entry is one.
pub open spec fn needs_sorting(m: Seq<Label>) -> bool {
    m.len() > 0 && (m[0].0 == directory_mark() || m[0].0 == file_mark())
}

/// `out` is the explorer list of the nodes `vs`: their entries, sorted (directories
/// first, then by name) when the first of them is a directory or a file.
pub open spec fn entry_list_ok(vs: Seq<VaultView>, out: Seq<Label>) -> bool {
    let m = prefix_names(vs);
    if needs_sorting(m) {
        stable_sort_of(out, m)
    } else {
        out == m
    }
}

/// `s` with the entries at `j - 1` and `j` exchanged.
pub open spec fn swapped_at<A>(s: Seq<A>, j: int) -> Seq<A> {
    s.update(j - 1, s[j]).update(j, s[j - 1])
}

/// Exchanging two neighbours where the second is listed strictly before the first
/// keeps a stable reordering.
proof fn lemma_swap_keeps_stable(s: Seq<Label>, o: Seq<Label>, perm: Seq<int>, j: int)
    requires
        stable_perm_of(s, o, perm),
        0 < j < s.len(),
        label_before(s[j], s[j - 1]),
    ensures
        stable_perm_of(swapped_at(s, j), o, swapped_at(perm, j)),
{
    let s2 = swapped_at(s, j);
    let p2 = swapped_at(perm, j);
    assert forall|k: int| 0 <= k < p2.len() implies 0 <= #[trigger] p2[k] < p2.len() by {
        if k == j - 1 {
            assert(p2[k] == perm[j]);
        } else if k == j {
            assert(p2[k] == perm[j - 1]);
        } else {
            assert(p2[k] == perm[k]);
        }
    }
    assert forall|k: int| 0 <= k < s2.len() implies #[trigger] s2[k] == o[p2[k]] by {
        if k == j - 1 {
            assert(s2[k] == s[j] && p2[k] == perm[j]);
        } else if k == j {
            assert(s2[k] == s[j - 1] && p2[k] == perm[j - 1]);
        } else {
            assert(s2[k] == s[k] && p2[k] == perm[k]);
        }
    }
    assert forall|k: int, l: int| 0 <= k < l < p2.len() implies #[trigger] p2[k] != #[trigger] p2[l] by {
        let kk = if k == j - 1 { j } else if k == j { j - 1 } else { k };
        let ll = if l == j - 1 { j } else if l == j { j - 1 } else { l };
        assert(p2[k] == perm[kk] && p2[l] == perm[ll]);
        if kk < ll {
            assert(perm[kk] != perm[ll]);
        } else {
            assert(perm[ll] != perm[kk]);
        }
    }
    assert forall|k: int, l: int|
        0 <= k < l < s2.len() && #[trigger] p2[k] > #[trigger] p2[l] implies label_before(
        s2[k],
        s2[l],
    ) by {
        let kk = if k == j - 1 { j } else if k == j { j - 1 } else { k };
        let ll = if l == j - 1 { j } else if l == j { j - 1 } else { l };
        assert(p2[k] == perm[kk] && p2[l] == perm[ll]);
        assert(s2[k] == s[kk] && s2[l] == s[ll]);
        if k == j - 1 && l == j {
        } else {
            assert(kk < ll);
            assert(perm[kk] > perm[ll]);
        }
    }
}

/// Whether the entry `a` is listed strictly before `b`; see `label_before`.
fn label_less(a: &(String, String), b: &(String, String)) -> (r: bool)
    ensures
        r == label_before((a.0@, a.1@), (b.0@, b.1@)),
{
    let da = str_eq(a.0.as_str(), "📁");
    let db = str_eq(b.0.as_str(), "📁");
    if da != db {
        da
    } else {
        text_less(a.1.as_str(), b.1.as_str())
    }
}

/// Sorts the explorer list `v` stably by `label_before`.
pub fn sort_labels(v: &mut Vec<(String, String)>)
    ensures
        stable_sort_of(labels_view(final(v)@), labels_view(old(v)@)),
{
    let ghost ov = labels_view(v@);
    let n = v.len();
    let ghost mut perm: Seq<int> = Seq::new(n as nat, |k: int| k);
    assert(stable_perm_of(labels_view(v@), ov, perm));
    if n == 0 {
        return;
    }
    let mut i: usize = 1;
    while i < n
        invariant
            1 <= i <= n,
            n == v@.len(),
            sorted_labels(labels_view(v@).take(i as int)),
            stable_perm_of(labels_view(v@), ov, perm),
        decreases n - i,
    {
        let ghost p = labels_view(v@).take(i as int);
        let ghost rest = labels_view(v@).skip(i + 1);
        let ghost x = labels_view(v@)[i as int];
        proof {
            assert(labels_view(v@) =~= p + seq![x] + rest);
        }
        let mut j: usize = i;
        let mut go = label_less(&v[j], &v[j - 1]);
        while go
            invariant
                go ==> j > 0 && label_before(labels_view(v@)[j as int], labels_view(v@)[j - 1]),
                !go ==> j == 0 || !label_before(labels_view(v@)[j as int], labels_view(v@)[j - 1]),
                0 <= j <= i < n,
                n == v@.len(),
                stable_perm_of(labels_view(v@), ov, perm),
                sorted_labels(p),
                p.len() == i,
                labels_view(v@) == p.take(j as int) + seq![x] + p.skip(j as int) + rest,
                forall|m: int| j <= m < i ==> label_before(x, #[trigger] p[m]),
            decreases j,
        {
            let ghost w = labels_view(v@);
            let ghost before = v@;
            let t = v.remove(j);
            v.insert(j - 1, t);
            proof {
                assert(labels_view(v@) =~= swapped_at(w, j as int));
                assert(w[j as int] == x);
                assert(w[j - 1] == p[j - 1]);
                assert(p.take(j - 1) + seq![x] + p.skip(j - 1) + rest =~= swapped_at(w, j as int));
                lemma_swap_keeps_stable(w, ov, perm, j as int);
                perm = swapped_at(perm, j as int);
            }
            j = j - 1;
            go = if j > 0 {
                label_less(&v[j], &v[j - 1])
            } else {
                false
            };
        }
        proof {
            let w = labels_view(v@);
            let q = w.take(i + 1);
            assert(q =~= p.take(j as int) + seq![x] + p.skip(j as int));
            assert(j > 0 ==> w[j - 1] == p[j - 1]);
            assert(w[j as int] == x);
            assert forall|a: int, b: int| 0 <= a < b < q.len() implies !label_before(
                #[trigger] q[b],
                #[trigger] q[a],
            ) by {
                if b < j {
                    assert(q[a] == p[a] && q[b] == p[b]);
                } else if b == j {
                    assert(q[a] == p[a] && q[b] == x);
                    if a < j - 1 {
                        assert(!label_before(p[j - 1], p[a]));
                        lemma_label_order(p[a], p[j - 1], x);
                    }
                } else if a < j {
                    assert(q[a] == p[a] && q[b] == p[b - 1]);
                } else if a == j {
                    assert(q[a] == x && q[b] == p[b - 1]);
                    assert(label_before(x, p[b - 1]));
                    lemma_label_order(x, p[b - 1], x);
                } else {
                    assert(q[a] == p[a - 1] && q[b] == p[b - 1]);
                }
            }
        }
        i = i + 1;
    }
    proof {
        assert(labels_view(v@).take(n as int) =~= labels_view(v@));
    }
}


/// `level` times `#`; see `header_mark`.
fn header_prefix(level: usize) -> (r: String)
    ensures
        r@ == header_mark(level as nat),
{
    let mut s = String::new();
    let mut k: usize = 0;
    while k < level
        invariant
            k <= level,
            s@ == header_mark(k as nat),
        decreases level - k,
    {
        push_char(&mut s, '#');
        k = k + 1;
        assert(s@ =~= header_mark(k as nat));
    }
    s
}

/// The entry of the node `vd`; see `prefix_name`.
pub fn vault_data_to_prefix_name(vd: &VaultData) -> (r: (String, String))
    ensures
        (r.0@, r.1@) == prefix_name(vd@),
{
    match vd {
        VaultData::Directory(name, _) => {
            let prefix = if contains_chars(&chars_of(name.as_str()), &chars_of(".md")) {
                String::from_str("📄")
            } else {
                String::from_str("📁")
            };
            (prefix, name.clone())
        },
        VaultData::Header(level, name, _) => (header_prefix(*level), name.clone()),
        VaultData::Task(t) => (t.state.to_string(), t.name.clone()),
        VaultData::Tracker(t) => (String::new(), t.name.clone()),
    }
}

/// The explorer list of the nodes `vd`; see `entry_list_ok`.
pub fn vault_data_to_entry_list(vd: &[VaultData]) -> (r: Vec<(String, String)>)
    ensures
        entry_list_ok(vaults_view(vd@), labels_view(r@)),
{
    let ghost m = prefix_names(vaults_view(vd@));
    proof {
        crate::vault::lemma_vaults_view(vd@);
    }
    let mut res: Vec<(String, String)> = Vec::new();
    let mut i: usize = 0;
    while i < vd.len()
        invariant
            i <= vd@.len(),
            m == prefix_names(vaults_view(vd@)),
            vaults_view(vd@).len() == vd@.len(),
            forall|k: int| 0 <= k < vd@.len() ==> #[trigger] vaults_view(vd@)[k] == vd@[k]@,
            labels_view(res@) == m.take(i as int),
        decreases vd@.len() - i,
    {
        let e = vault_data_to_prefix_name(&vd[i]);
        assert(m[i as int] == prefix_name(vd@[i as int]@));
        let ghost old_res = res@;
        let ghost el = (e.0@, e.1@);
        res.push(e);
        proof {
            assert(res@ == old_res.push(e));
            assert(labels_view(res@) =~= labels_view(old_res).push(el));
            assert(m.take(i + 1) =~= m.take(i as int).push(m[i as int]));
        }
        i = i + 1;
    }
    assert(m.take(i as int) =~= m);
    if res.len() > 0 && (str_eq(res[0].0.as_str(), "📁") || str_eq(res[0].0.as_str(), "📄")) {
        sort_labels(&mut res);
    }
    res
}

/// Each entry of `entries` as one line: its prefix, a space, its name.
pub fn apply_prefixes(entries: &[(String, String)]) -> (r: Vec<String>)
    ensures
        r@.len() == entries@.len(),
        forall|i: int|
            0 <= i < entries@.len() ==> #[trigger] r@[i]@ == entries@[i].0@ + seq![' '] + entries@[i].1@,
{
    let mut res: Vec<String> = Vec::new();
    let mut i: usize = 0;
    while i < entries.len()
        invariant
            i <= entries@.len(),
            res@.len() == i,
            forall|k: int|
                0 <= k < i ==> #[trigger] res@[k]@ == entries@[k].0@ + seq![' '] + entries@[k].1@,
        decreases entries@.len() - i,
    {
        let mut line = String::new();
        push_str(&mut line, entries[i].0.as_str());
        push_char(&mut line, ' ');
        push_str(&mut line, entries[i].1.as_str());
        assert(line@ =~= entries@[i as int].0@ + seq![' '] + entries@[i as int].1@);
        res.push(line);
        i = i + 1;
    }
    res
}

impl TaskManager {
    /// The layer of the shown tree that `selected_header_path` leads to, as the lines
    /// of the explorer: prefixes and names, directories first and by name where the
    /// layer is one of directories and files; see `entries_at` and `entry_list_ok`.
    pub fn get_explorer_entry_labels(&self, selected_header_path: &[String]) -> (r: Result<
        Vec<(String, String)>,
        VaultError,
    >)
        ensures
            match entries_at(
                shown_tree(self.tasks@, filter_view(self.current_filter)),
                crate::task::strings_view(selected_header_path@),
            ) {
                Ok(v) => r matches Ok(e) && entry_list_ok(v, labels_view(e@)),
                Err(x) => r == Err::<Vec<(String, String)>, VaultError>(x),
            },
    {
        match self.get_explorer_entries(selected_header_path) {
            Ok(entries) => Ok(vault_data_to_entry_list(entries.as_slice())),
            Err(e) => Err(e),
        }
    }
}

} // verus!
