//! The configuration the application runs with: the user's, completed by the defaults
//! where it leaves a key binding, a style or the settings of a method out, with the
//! vault path given on the command line in place of the configured one.
use vstd::prelude::*;
use crate::config::{AppConfig, Mode, TasksConfig};
use crate::keys::KeyEvent;
use crate::settings::{MethodSettingsEntry, MethodsAvailable};
use crate::style::Style;
use crate::text::str_eq;

verus! {

/// Whether some pair of `s` has the key `k`.
pub open spec fn has_key<K, V>(s: Seq<(K, V)>, k: K) -> bool {
    exists|i: int| 0 <= i < s.len() && s[i].0 == k
}

/// The position of the first pair of `s` with the key `k`, from `i` on.
pub open spec fn key_index_from<K, V>(s: Seq<(K, V)>, k: K, i: int) -> Option<int>
    decreases s.len() - i,
{
    if i < 0 || i >= s.len() {
        None
    } else if s[i].0 == k {
        Some(i)
    } else {
        key_index_from(s, k, i + 1)
    }
}

proof fn lemma_key_index_from<K, V>(s: Seq<(K, V)>, k: K, i: int)
    requires
        0 <= i,
    ensures
        key_index_from(s, k, i) matches Some(j) ==> i <= j < s.len() && s[j].0 == k,
        key_index_from(s, k, i) is None ==> forall|j: int| i <= j < s.len() ==> s[j].0 != k,
    decreases s.len() - i,
{
    if i < s.len() && s[i].0 != k {
        lemma_key_index_from(s, k, i + 1);
    }
}

/// The user's pairs `user`, then each pair of `defaults` whose key is not there yet, in
/// order: the default fills in what the user left out.
pub open spec fn fill_spec<K, V>(user: Seq<(K, V)>, defaults: Seq<(K, V)>) -> Seq<(K, V)>
    decreases defaults.len(),
{
    if defaults.len() == 0 {
        user
    } else {
        let p = defaults[0];
        let next = if has_key(user, p.0) {
            user
        } else {
            user.push(p)
        };
        fill_spec(next, defaults.drop_first())
    }
}

/// Each mode of `defaults`, in order, completes the pairs the user gives for it (no
/// pairs where the user gives the mode no entry) with its default pairs.
pub open spec fn nested_fill_spec<M, K, V>(
    user: Seq<(M, Seq<(K, V)>)>,
    defaults: Seq<(M, Seq<(K, V)>)>,
) -> Seq<(M, Seq<(K, V)>)>
    decreases defaults.len(),
{
    if defaults.len() == 0 {
        user
    } else {
        let (m, d) = defaults[0];
        let u1 = if has_key(user, m) {
            user
        } else {
            user.push((m, seq![]))
        };
        let i = key_index_from(u1, m, 0).unwrap();
        let u2 = u1.update(i, (m, fill_spec(u1[i].1, d)));
        nested_fill_spec(u2, defaults.drop_first())
    }
}

/// The pairs of named styles with their names as text.
pub open spec fn styles_view(s: Seq<(String, Style)>) -> Seq<(Seq<char>, Style)> {
    s.map_values(|p: (String, Style)| (p.0@, p.1))
}

/// The styles of each mode, names as text.
pub open spec fn mode_styles_view(s: Seq<(Mode, Vec<(String, Style)>)>) -> Seq<(Mode, Seq<(Seq<char>, Style)>)> {
    s.map_values(|p: (Mode, Vec<(String, Style)>)| (p.0, styles_view(p.1@)))
}

/// The bindings with their key sequences as sequences.
pub open spec fn bindings_view<A>(s: Seq<(Vec<KeyEvent>, A)>) -> Seq<(Seq<KeyEvent>, A)> {
    s.map_values(|p: (Vec<KeyEvent>, A)| (p.0@, p.1))
}

/// The bindings of each mode, key sequences as sequences.
pub open spec fn mode_bindings_view<A>(s: Seq<(Mode, Vec<(Vec<KeyEvent>, A)>)>) -> Seq<
    (Mode, Seq<(Seq<KeyEvent>, A)>),
> {
    s.map_values(|p: (Mode, Vec<(Vec<KeyEvent>, A)>)| (p.0, bindings_view(p.1@)))
}

/// Whether `a` and `b` are the same sequence of keys.
fn same_keys(a: &Vec<KeyEvent>, b: &Vec<KeyEvent>) -> (r: bool)
    ensures
        r == (a@ == b@),
{
    if a.len() != b.len() {
        return false;
    }
    let mut i: usize = 0;
    while i < a.len()
        invariant
            i <= a@.len(),
            a@.len() == b@.len(),
            forall|j: int| 0 <= j < i ==> a@[j] == b@[j],
        decreases a@.len() - i,
    {
        if a[i] != b[i] {
            return false;
        }
        i = i + 1;
    }
    assert(a@ =~= b@);
    true
}

/// Completes the styles `user` with the default styles `defaults`; see `fill_spec`.
pub fn fill_styles(user: Vec<(String, Style)>, defaults: Vec<(String, Style)>) -> (r: Vec<(String, Style)>)
    ensures
        styles_view(r@) == fill_spec(styles_view(user@), styles_view(defaults@)),
{
    let mut out = user;
    let mut rest = defaults;
    while rest.len() > 0
        invariant
            fill_spec(styles_view(out@), styles_view(rest@)) == fill_spec(
                styles_view(user@),
                styles_view(defaults@),
            ),
        decreases rest@.len(),
    {
        let ghost before = rest@;
        let p = rest.remove(0);
        proof {
            assert(styles_view(rest@) =~= styles_view(before).drop_first());
            assert(styles_view(before)[0] == (p.0@, p.1));
        }
        let mut found = false;
        let mut i: usize = 0;
        while i < out.len()
            invariant
                i <= out@.len(),
                found == exists|j: int| 0 <= j < i && out@[j].0@ == p.0@,
            decreases out@.len() - i,
        {
            if str_eq(out[i].0.as_str(), p.0.as_str()) {
                found = true;
            }
            i = i + 1;
        }
        proof {
            let v = styles_view(out@);
            if found {
                let j = choose|j: int| 0 <= j < out@.len() && out@[j].0@ == p.0@;
                assert(v[j].0 == p.0@);
            } else {
                assert forall|j: int| 0 <= j < v.len() implies v[j].0 != p.0@ by {
                    assert(v[j].0 == out@[j].0@);
                }
            }
        }
        if !found {
            let ghost o = out@;
            out.push(p);
            proof {
                assert(styles_view(out@) =~= styles_view(o).push((p.0@, p.1)));
            }
        }
    }
    out
}

/// Completes the bindings `user` with the default bindings `defaults`; see `fill_spec`.
pub fn fill_bindings<A>(user: Vec<(Vec<KeyEvent>, A)>, defaults: Vec<(Vec<KeyEvent>, A)>) -> (r: Vec<(Vec<KeyEvent>, A)>)
    ensures
        bindings_view(r@) == fill_spec(bindings_view(user@), bindings_view(defaults@)),
{
    let mut out = user;
    let mut rest = defaults;
    while rest.len() > 0
        invariant
            fill_spec(bindings_view(out@), bindings_view(rest@)) == fill_spec(
                bindings_view(user@),
                bindings_view(defaults@),
            ),
        decreases rest@.len(),
    {
        let ghost before = rest@;
        let p = rest.remove(0);
        proof {
            assert(bindings_view(rest@) =~= bindings_view(before).drop_first());
            assert(bindings_view(before)[0] == (p.0@, p.1));
        }
        let mut found = false;
        let mut i: usize = 0;
        while i < out.len()
            invariant
                i <= out@.len(),
                found == exists|j: int| 0 <= j < i && out@[j].0@ == p.0@,
            decreases out@.len() - i,
        {
            if same_keys(&out[i].0, &p.0) {
                found = true;
            }
            i = i + 1;
        }
        proof {
            let v = bindings_view(out@);
            if found {
                let j = choose|j: int| 0 <= j < out@.len() && out@[j].0@ == p.0@;
                assert(v[j].0 == p.0@);
            } else {
                assert forall|j: int| 0 <= j < v.len() implies v[j].0 != p.0@ by {
                    assert(v[j].0 == out@[j].0@);
                }
            }
        }
        if !found {
            let ghost o = out@;
            out.push(p);
            proof {
                assert(bindings_view(out@) =~= bindings_view(o).push((p.0@, p.1)));
            }
        }
    }
    out
}

/// Two sequences of pairs with the same keys in the same places find a key at the
/// same place.
proof fn lemma_same_keys<K, V, W>(s: Seq<(K, V)>, t: Seq<(K, W)>, k: K, i: int)
    requires
        s.len() == t.len(),
        forall|j: int| 0 <= j < s.len() ==> #[trigger] s[j].0 == t[j].0,
        0 <= i,
    ensures
        key_index_from(s, k, i) == key_index_from(t, k, i),
        has_key(s, k) == has_key(t, k),
    decreases s.len() - i,
{
    if i < s.len() {
        lemma_same_keys(s, t, k, i + 1);
    }
    if has_key(s, k) {
        let j = choose|j: int| 0 <= j < s.len() && s[j].0 == k;
        assert(t[j].0 == k);
    }
    if has_key(t, k) {
        let j = choose|j: int| 0 <= j < t.len() && t[j].0 == k;
        assert(s[j].0 == k);
    }
}

/// The position of the first pair of `s` for the mode `m`.
fn mode_index<T>(s: &Vec<(Mode, T)>, m: Mode) -> (r: Option<usize>)
    ensures
        match r {
            Some(i) => key_index_from(s@, m, 0) == Some(i as int) && i < s@.len(),
            None => key_index_from(s@, m, 0) is None && !has_key(s@, m),
        },
{
    let mut i: usize = 0;
    while i < s.len()
        invariant
            i <= s@.len(),
            key_index_from(s@, m, 0) == key_index_from(s@, m, i as int),
        decreases s@.len() - i,
    {
        if s[i].0 == m {
            return Some(i);
        }
        i = i + 1;
    }
    proof {
        lemma_key_index_from(s@, m, 0);
    }
    None
}

/// Completes the styles of each mode in `user` with those of `defaults`; see
/// `nested_fill_spec`.
pub fn merge_styles(user: Vec<(Mode, Vec<(String, Style)>)>, defaults: Vec<(Mode, Vec<(String, Style)>)>) -> (r:
    Vec<(Mode, Vec<(String, Style)>)>)
    ensures
        mode_styles_view(r@) == nested_fill_spec(mode_styles_view(user@), mode_styles_view(defaults@)),
{
    let mut out = user;
    let mut rest = defaults;
    while rest.len() > 0
        invariant
            nested_fill_spec(mode_styles_view(out@), mode_styles_view(rest@)) == nested_fill_spec(
                mode_styles_view(user@),
                mode_styles_view(defaults@),
            ),
        decreases rest@.len(),
    {
        let ghost before = rest@;
        let (m, d) = rest.remove(0);
        proof {
            assert(mode_styles_view(rest@) =~= mode_styles_view(before).drop_first());
            assert(mode_styles_view(before)[0] == (m, styles_view(d@)));
        }
        let ghost v = mode_styles_view(out@);
        proof {
            lemma_same_keys(out@, v, m, 0);
        }
        let idx = match mode_index(&out, m) {
            Some(i) => i,
            None => {
                let ghost o = out@;
                out.push((m, Vec::new()));
                proof {
                    assert(styles_view(out@[o.len() as int].1@) =~= seq![]);
                    assert(mode_styles_view(out@) =~= v.push((m, seq![])));
                    lemma_key_index_from(o, m, 0);
                    lemma_key_index_from(out@, m, 0);
                    assert(key_index_from(out@, m, o.len() as int) == Some(o.len() as int));
                    assert forall|j: int| 0 <= j < o.len() implies out@[j].0 != m by {
                        assert(out@[j] == o[j]);
                    }
                    lemma_first_after(out@, m, o.len() as int);
                }
                out.len() - 1
            },
        };
        let ghost u1 = mode_styles_view(out@);
        let ghost o2 = out@;
        proof {
            lemma_same_keys(out@, u1, m, 0);
            lemma_key_index_from(o2, m, 0);
            assert(u1 == (if has_key(v, m) { v } else { v.push((m, seq![])) }));
            assert(key_index_from(u1, m, 0) == Some(idx as int));
        }
        let (mm, inner) = out.remove(idx);
        let filled = fill_styles(inner, d);
        out.insert(idx, (mm, filled));
        proof {
            assert(out@ =~= o2.update(idx as int, (mm, filled)));
            assert(mm == m);
            assert(u1[idx as int].1 == styles_view(inner@));
            assert(mode_styles_view(out@) =~= u1.update(idx as int, (m, fill_spec(u1[idx as int].1, styles_view(d@)))));
        }
    }
    out
}

/// Completes the key bindings of each mode in `user` with those of `defaults`; see
/// `nested_fill_spec`.
pub fn merge_bindings<A>(user: Vec<(Mode, Vec<(Vec<KeyEvent>, A)>)>, defaults: Vec<(Mode, Vec<(Vec<KeyEvent>, A)>)>) -> (r:
    Vec<(Mode, Vec<(Vec<KeyEvent>, A)>)>)
    ensures
        mode_bindings_view(r@) == nested_fill_spec(mode_bindings_view(user@), mode_bindings_view(defaults@)),
{
    let mut out = user;
    let mut rest = defaults;
    while rest.len() > 0
        invariant
            nested_fill_spec(mode_bindings_view(out@), mode_bindings_view(rest@)) == nested_fill_spec(
                mode_bindings_view(user@),
                mode_bindings_view(defaults@),
            ),
        decreases rest@.len(),
    {
        let ghost before = rest@;
        let (m, d) = rest.remove(0);
        proof {
            assert(mode_bindings_view(rest@) =~= mode_bindings_view(before).drop_first());
            assert(mode_bindings_view(before)[0] == (m, bindings_view(d@)));
        }
        let ghost v = mode_bindings_view(out@);
        proof {
            lemma_same_keys(out@, v, m, 0);
        }
        let idx = match mode_index(&out, m) {
            Some(i) => i,
            None => {
                let ghost o = out@;
                out.push((m, Vec::new()));
                proof {
                    assert(bindings_view(out@[o.len() as int].1@) =~= seq![]);
                    assert(mode_bindings_view(out@) =~= v.push((m, seq![])));
                    lemma_key_index_from(o, m, 0);
                    lemma_key_index_from(out@, m, 0);
                    assert(key_index_from(out@, m, o.len() as int) == Some(o.len() as int));
                    assert forall|j: int| 0 <= j < o.len() implies out@[j].0 != m by {
                        assert(out@[j] == o[j]);
                    }
                    lemma_first_after(out@, m, o.len() as int);
                }
                out.len() - 1
            },
        };
        let ghost u1 = mode_bindings_view(out@);
        let ghost o2 = out@;
        proof {
            lemma_same_keys(out@, u1, m, 0);
            lemma_key_index_from(o2, m, 0);
            assert(u1 == (if has_key(v, m) { v } else { v.push((m, seq![])) }));
            assert(key_index_from(u1, m, 0) == Some(idx as int));
        }
        let (mm, inner) = out.remove(idx);
        let filled = fill_bindings(inner, d);
        out.insert(idx, (mm, filled));
        proof {
            assert(out@ =~= o2.update(idx as int, (mm, filled)));
            assert(mm == m);
            assert(u1[idx as int].1 == bindings_view(inner@));
            assert(mode_bindings_view(out@) =~= u1.update(idx as int, (m, fill_spec(u1[idx as int].1, bindings_view(d@)))));
        }
    }
    out
}

/// When no pair before `i` has the key `k` and the pair at `i` has it, the first pair
/// with `k` is at `i`.
proof fn lemma_first_after<K, V>(s: Seq<(K, V)>, k: K, i: int)
    requires
        0 <= i < s.len(),
        s[i].0 == k,
        forall|j: int| 0 <= j < i ==> s[j].0 != k,
    ensures
        key_index_from(s, k, 0) == Some(i),
    decreases i,
{
    lemma_first_from(s, k, 0, i);
}

proof fn lemma_first_from<K, V>(s: Seq<(K, V)>, k: K, a: int, i: int)
    requires
        0 <= a <= i < s.len(),
        s[i].0 == k,
        forall|j: int| 0 <= j < i ==> s[j].0 != k,
    ensures
        key_index_from(s, k, a) == Some(i),
    decreases i - a,
{
    if a < i {
        lemma_first_from(s, k, a + 1, i);
    }
}

/// The settings of method `m` in `defaults`: those of its first entry.
pub open spec fn default_settings(
    defaults: Seq<(MethodsAvailable, Vec<MethodSettingsEntry>)>,
    m: MethodsAvailable,
) -> Vec<MethodSettingsEntry> {
    defaults[key_index_from(defaults, m, 0).unwrap()].1
}

/// The settings of `user`, with the default settings of the Pomodoro method, then of
/// the Flowtime method, added where the user gives that method none.
pub open spec fn settings_fill_spec(
    user: Seq<(MethodsAvailable, Vec<MethodSettingsEntry>)>,
    defaults: Seq<(MethodsAvailable, Vec<MethodSettingsEntry>)>,
) -> Seq<(MethodsAvailable, Vec<MethodSettingsEntry>)> {
    let u1 = if has_key(user, MethodsAvailable::Pomodoro) {
        user
    } else {
        user.push((MethodsAvailable::Pomodoro, default_settings(defaults, MethodsAvailable::Pomodoro)))
    };
    if has_key(u1, MethodsAvailable::FlowTime) {
        u1
    } else {
        u1.push((MethodsAvailable::FlowTime, default_settings(defaults, MethodsAvailable::FlowTime)))
    }
}

/// Whether the defaults hold the settings of each method that the user leaves out.
pub open spec fn settings_fill_ok(
    user: Seq<(MethodsAvailable, Vec<MethodSettingsEntry>)>,
    defaults: Seq<(MethodsAvailable, Vec<MethodSettingsEntry>)>,
) -> bool {
    &&& !has_key(user, MethodsAvailable::Pomodoro) ==> has_key(defaults, MethodsAvailable::Pomodoro)
    &&& !has_key(user, MethodsAvailable::FlowTime) ==> has_key(defaults, MethodsAvailable::FlowTime)
}

/// The position of the first pair of `s` for the method `m`.
fn method_index<T>(s: &Vec<(MethodsAvailable, T)>, m: MethodsAvailable) -> (r: Option<usize>)
    ensures
        match r {
            Some(i) => key_index_from(s@, m, 0) == Some(i as int) && i < s@.len() && has_key(s@, m),
            None => key_index_from(s@, m, 0) is None && !has_key(s@, m),
        },
{
    let mut i: usize = 0;
    while i < s.len()
        invariant
            i <= s@.len(),
            key_index_from(s@, m, 0) == key_index_from(s@, m, i as int),
        decreases s@.len() - i,
    {
        if s[i].0 == m {
            return Some(i);
        }
        i = i + 1;
    }
    proof {
        lemma_key_index_from(s@, m, 0);
    }
    None
}

/// Completes the settings of the methods; see `settings_fill_spec`.
pub fn fill_settings(
    user: Vec<(MethodsAvailable, Vec<MethodSettingsEntry>)>,
    defaults: Vec<(MethodsAvailable, Vec<MethodSettingsEntry>)>,
) -> (r: Vec<(MethodsAvailable, Vec<MethodSettingsEntry>)>)
    requires
        settings_fill_ok(user@, defaults@),
    ensures
        r@ == settings_fill_spec(user@, defaults@),
{
    let ghost d0 = defaults@;
    let ghost u0 = user@;
    let mut out = user;
    let mut defaults = defaults;
    let need_p = method_index(&out, MethodsAvailable::Pomodoro).is_none();
    let need_f = method_index(&out, MethodsAvailable::FlowTime).is_none();
    let ip = method_index(&defaults, MethodsAvailable::Pomodoro);
    let jf = method_index(&defaults, MethodsAvailable::FlowTime);
    proof {
        lemma_key_index_from(d0, MethodsAvailable::Pomodoro, 0);
        lemma_key_index_from(d0, MethodsAvailable::FlowTime, 0);
    }
    // Take the later entry out first, so the earlier keeps its place.
    let mut pom: Option<Vec<MethodSettingsEntry>> = None;
    let mut flow: Option<Vec<MethodSettingsEntry>> = None;
    match (ip, jf) {
        (Some(i), Some(j)) => {
            if i < j {
                if need_f {
                    flow = Some(defaults.remove(j).1);
                }
                if need_p {
                    pom = Some(defaults.remove(i).1);
                }
            } else {
                if need_p {
                    pom = Some(defaults.remove(i).1);
                }
                if need_f {
                    flow = Some(defaults.remove(j).1);
                }
            }
        },
        (Some(i), None) => {
            if need_p {
                pom = Some(defaults.remove(i).1);
            }
        },
        (None, Some(j)) => {
            if need_f {
                flow = Some(defaults.remove(j).1);
            }
        },
        (None, None) => {},
    }
    if need_p {
        match pom {
            Some(v) => out.push((MethodsAvailable::Pomodoro, v)),
            None => {},
        }
    }
    let ghost u1 = out@;
    proof {
        assert(u1 == (if has_key(u0, MethodsAvailable::Pomodoro) {
            u0
        } else {
            u0.push((MethodsAvailable::Pomodoro, default_settings(d0, MethodsAvailable::Pomodoro)))
        }));
        if has_key(u1, MethodsAvailable::FlowTime) {
            let k = choose|k: int| 0 <= k < u1.len() && u1[k].0 == MethodsAvailable::FlowTime;
            if k < u0.len() {
                assert(u0[k] == u1[k]);
            }
        }
        if has_key(u0, MethodsAvailable::FlowTime) {
            let k = choose|k: int| 0 <= k < u0.len() && u0[k].0 == MethodsAvailable::FlowTime;
            assert(u1[k] == u0[k]);
        }
    }
    if need_f {
        match flow {
            Some(v) => out.push((MethodsAvailable::FlowTime, v)),
            None => {},
        }
    }
    out
}

/// Why the configuration cannot be used.
#[derive(Debug, Clone, Copy, PartialEq, Eq, Hash, Structural)]
pub enum ConfigError {
    /// No vault path: neither the command line nor the configuration gives one.
    NoVaultPath,
}

/// The whole configuration: key bindings (to actions `A`) and styles for each mode, the
/// settings of the task logic and of each time management method.
pub struct Config<A> {
    pub config: AppConfig,
    pub keybindings: Vec<(Mode, Vec<(Vec<KeyEvent>, A)>)>,
    pub styles: Vec<(Mode, Vec<(String, Style)>)>,
    pub tasks_config: TasksConfig,
    pub time_management_methods_settings: Vec<(MethodsAvailable, Vec<MethodSettingsEntry>)>,
}

/// The vault path the application runs on: the one given on the command line, else the
/// configured one.
pub open spec fn chosen_vault_path(user: TasksConfig, vault_path: Option<String>) -> Seq<char> {
    match vault_path {
        Some(p) => p@,
        None => user.vault_path@,
    }
}

/// Whether `c` is the user's configuration `user` completed by `defaults`, with the
/// vault path `vault_path` of the command line and the frame rate shown or not as
/// `show_fps` says; see `merge_config`.
pub open spec fn merged<A>(c: Config<A>, defaults: Config<A>, user: Config<A>, vault_path: Option<String>, show_fps: bool) -> bool {
    &&& mode_bindings_view(c.keybindings@) == nested_fill_spec(
        mode_bindings_view(user.keybindings@),
        mode_bindings_view(defaults.keybindings@),
    )
    &&& mode_styles_view(c.styles@) == nested_fill_spec(
        mode_styles_view(user.styles@),
        mode_styles_view(defaults.styles@),
    )
    &&& c.time_management_methods_settings@ == settings_fill_spec(
        user.time_management_methods_settings@,
        defaults.time_management_methods_settings@,
    )
    &&& c.tasks_config.vault_path@ == chosen_vault_path(user.tasks_config, vault_path)
    &&& c.tasks_config == (TasksConfig {
        vault_path: c.tasks_config.vault_path,
        indent_length: if user.tasks_config.indent_length == 0 {
            defaults.tasks_config.indent_length
        } else {
            user.tasks_config.indent_length
        },
        ..user.tasks_config
    })
    &&& c.config == (AppConfig { show_fps, ..user.config })
}

/// The configuration the application runs with, from the user's configuration `user`
/// and the defaults: the key bindings and styles completed mode by mode, the settings
/// of the methods completed, the vault path of the command line in place of the
/// configured one, the frame rate shown as the command line says, and an indent length
/// of 0 replaced by the default's. Refused when there is no vault path.
pub fn merge_config<A>(defaults: Config<A>, user: Config<A>, vault_path: Option<String>, show_fps: bool) -> (r: Result<
    Config<A>,
    ConfigError,
>)
    requires
        settings_fill_ok(user.time_management_methods_settings@, defaults.time_management_methods_settings@),
    ensures
        chosen_vault_path(user.tasks_config, vault_path).len() == 0 ==> r == Err::<Config<A>, ConfigError>(
            ConfigError::NoVaultPath,
        ),
        chosen_vault_path(user.tasks_config, vault_path).len() > 0 ==> (r matches Ok(c) && merged(
            c,
            defaults,
            user,
            vault_path,
            show_fps,
        )),
{
    let Config { config, keybindings, styles, tasks_config, time_management_methods_settings } = user;
    let Config {
        config: _,
        keybindings: default_keybindings,
        styles: default_styles,
        tasks_config: default_tasks_config,
        time_management_methods_settings: default_settings_of,
    } = defaults;
    let keybindings = merge_bindings(keybindings, default_keybindings);
    let styles = merge_styles(styles, default_styles);
    let settings = fill_settings(time_management_methods_settings, default_settings_of);
    let mut tasks_config = tasks_config;
    match vault_path {
        Some(p) => {
            tasks_config.vault_path = p;
        },
        None => {},
    }
    let mut config = config;
    config.show_fps = show_fps;
    if tasks_config.vault_path.unicode_len() == 0 {
        return Err(ConfigError::NoVaultPath);
    }
    if tasks_config.indent_length == 0 {
        tasks_config.indent_length = default_tasks_config.indent_length;
    }
    Ok(Config { config, keybindings, styles, tasks_config, time_management_methods_settings: settings })
}

} // verus!
