//! Tasks: their state, attributes and the line that writes them back to a file.
use vstd::prelude::*;
use std::cmp::Ordering;
use crate::config::{PrettySymbolsConfig, TasksConfig};
use crate::date::{Date, fmt_date, fmt_time};
use crate::text::{spaces, decimal, join_nonempty, join, push_char, push_decimal, push_str, trim_end};

verus! {

/// A task's state.
#[derive(Debug, Hash, Clone, Copy, PartialEq, Eq, Structural)]
pub enum State {
    ToDo,
    Done,
    Incomplete,
    Canceled,
}

impl State {
    /// Rank of the state in the order `Incomplete < ToDo < Canceled < Done`.
    pub open spec fn rank(self) -> int {
        match self {
            State::Incomplete => 0,
            State::ToDo => 1,
            State::Canceled => 2,
            State::Done => 3,
        }
    }

    /// Whether `self` is listed before `other`: an incomplete task first, then one to
    /// do, then a canceled one, a done one last.
    pub open spec fn listed_before(self, other: State) -> bool {
        match (self, other) {
            (State::Incomplete, State::ToDo) => true,
            (State::Incomplete, State::Canceled) => true,
            (State::Incomplete, State::Done) => true,
            (State::ToDo, State::Canceled) => true,
            (State::ToDo, State::Done) => true,
            (State::Canceled, State::Done) => true,
            _ => false,
        }
    }

    /// Compares two states in the order `Incomplete < ToDo < Canceled < Done`.
    pub fn cmp(&self, other: &State) -> (r: Ordering)
        ensures
            (r == Ordering::Less) == self.listed_before(*other),
            (r == Ordering::Greater) == other.listed_before(*self),
            (r == Ordering::Less) == (self.rank() < other.rank()),
            (r == Ordering::Equal) == (self.rank() == other.rank()),
            (r == Ordering::Greater) == (self.rank() > other.rank()),
    {
        let a = self.rank_exec();
        let b = other.rank_exec();
        if a < b {
            Ordering::Less
        } else if a == b {
            Ordering::Equal
        } else {
            Ordering::Greater
        }
    }

    /// The rank of a state orders states as they are listed: `Incomplete`, `ToDo`,
    /// `Canceled`, `Done`.
    pub proof fn lemma_rank_lists_states(a: State, b: State)
        ensures
            (a.rank() < b.rank()) == a.listed_before(b),
    {
    }

    fn rank_exec(&self) -> (r: u8)
        ensures
            r == self.rank(),
    {
        match self {
            State::Incomplete => 0,
            State::ToDo => 1,
            State::Canceled => 2,
            State::Done => 3,
        }
    }

    /// The symbol of the state among `state_symbols`.
    pub fn display(&self, state_symbols: PrettySymbolsConfig) -> (r: String)
        ensures
            r@ == match self {
                State::Done => state_symbols.task_done@,
                State::ToDo => state_symbols.task_todo@,
                State::Incomplete => state_symbols.task_incomplete@,
                State::Canceled => state_symbols.task_canceled@,
            },
    {
        match self {
            State::Done => state_symbols.task_done,
            State::ToDo => state_symbols.task_todo,
            State::Incomplete => state_symbols.task_incomplete,
            State::Canceled => state_symbols.task_canceled,
        }
    }

    /// The symbol of the state among the default symbols.
    pub fn to_string(&self) -> (r: String)
        ensures
            r@ == match self {
                State::Done => "✅"@,
                State::ToDo => "❌"@,
                State::Incomplete => "⏳"@,
                State::Canceled => "🚫"@,
            },
    {
        self.display(PrettySymbolsConfig::default())
    }
}

/// A task of the vault.
#[derive(Debug, Hash, PartialEq, Eq)]
pub struct Task {
    pub subtasks: Vec<Task>,
    pub description: Option<String>,
    /// None means the task has no due date.
    pub due_date: Option<Date>,
    pub filename: String,
    /// Line number in the file; None when the task was not read from a file
    /// but added from the command line, to be appended at the end.
    pub line_number: Option<usize>,
    pub name: String,
    pub priority: usize,
    pub completion: Option<usize>,
    pub state: State,
    pub tags: Option<Vec<String>>,
    pub is_today: bool,
}

/// A task as a mathematical value.
pub struct TaskView {
    pub subtasks: Seq<TaskView>,
    pub description: Option<Seq<char>>,
    pub due_date: Option<Date>,
    pub filename: Seq<char>,
    pub line_number: Option<usize>,
    pub name: Seq<char>,
    pub priority: usize,
    pub completion: Option<usize>,
    pub state: State,
    pub tags: Option<Seq<Seq<char>>>,
    pub is_today: bool,
}

pub open spec fn opt_view(o: Option<String>) -> Option<Seq<char>> {
    match o {
        Some(s) => Some(s@),
        None => None,
    }
}

pub open spec fn strings_view(v: Seq<String>) -> Seq<Seq<char>> {
    v.map_values(|s: String| s@)
}

pub open spec fn tags_view(o: Option<Vec<String>>) -> Option<Seq<Seq<char>>> {
    match o {
        Some(v) => Some(strings_view(v@)),
        None => None,
    }
}

pub open spec fn task_view(t: Task) -> TaskView
    decreases t,
{
    TaskView {
        subtasks: tasks_view(t.subtasks@),
        description: opt_view(t.description),
        due_date: t.due_date,
        filename: t.filename@,
        line_number: t.line_number,
        name: t.name@,
        priority: t.priority,
        completion: t.completion,
        state: t.state,
        tags: tags_view(t.tags),
        is_today: t.is_today,
    }
}

pub open spec fn tasks_view(s: Seq<Task>) -> Seq<TaskView>
    decreases s,
{
    if s.len() == 0 {
        seq![]
    } else {
        seq![task_view(s[0])] + tasks_view(s.drop_first())
    }
}

pub proof fn lemma_tasks_view(s: Seq<Task>)
    ensures
        tasks_view(s).len() == s.len(),
        forall|i: int| 0 <= i < s.len() ==> #[trigger] tasks_view(s)[i] == task_view(s[i]),
    decreases s.len(),
{
    if s.len() > 0 {
        lemma_tasks_view(s.drop_first());
        assert forall|i: int| 0 <= i < s.len() implies #[trigger] tasks_view(s)[i] == task_view(
            s[i],
        ) by {
            if i > 0 {
                assert(s.drop_first()[i - 1] == s[i]);
            }
        }
    }
}

pub proof fn lemma_tasks_view_ext(a: Seq<Task>, b: Seq<Task>)
    requires
        a.len() == b.len(),
        forall|i: int| 0 <= i < a.len() ==> #[trigger] task_view(a[i]) == task_view(b[i]),
    ensures
        tasks_view(a) == tasks_view(b),
{
    lemma_tasks_view(a);
    lemma_tasks_view(b);
    assert(tasks_view(a) =~= tasks_view(b));
}

pub proof fn lemma_tasks_view_push(s: Seq<Task>, t: Task)
    ensures
        tasks_view(s.push(t)) == tasks_view(s).push(task_view(t)),
{
    lemma_tasks_view(s);
    lemma_tasks_view(s.push(t));
    assert(tasks_view(s.push(t)) =~= tasks_view(s).push(task_view(t)));
}

impl View for Task {
    type V = TaskView;

    open spec fn view(&self) -> TaskView {
        task_view(*self)
    }
}

pub fn clone_opt_string(o: &Option<String>) -> (r: Option<String>)
    ensures
        opt_view(r) == opt_view(*o),
{
    match o {
        Some(s) => Some(s.clone()),
        None => None,
    }
}

pub fn clone_strings(v: &Vec<String>) -> (r: Vec<String>)
    ensures
        strings_view(r@) == strings_view(v@),
{
    let mut r: Vec<String> = Vec::new();
    let mut i: usize = 0;
    while i < v.len()
        invariant
            i <= v@.len(),
            r@.len() == i,
            forall|j: int| 0 <= j < i ==> #[trigger] r@[j]@ == v@[j]@,
        decreases v@.len() - i,
    {
        let c = v[i].clone();
        r.push(c);
        i = i + 1;
    }
    assert(strings_view(r@) =~= strings_view(v@));
    r
}

pub fn clone_tags(o: &Option<Vec<String>>) -> (r: Option<Vec<String>>)
    ensures
        tags_view(r) == tags_view(*o),
{
    match o {
        Some(v) => Some(clone_strings(v)),
        None => None,
    }
}

impl Task {
    /// A copy of the task.
    pub fn duplicate(&self) -> (r: Task)
        ensures
            r@ == self@,
        decreases self,
    {
        let mut subtasks: Vec<Task> = Vec::new();
        let mut i: usize = 0;
        while i < self.subtasks.len()
            invariant
                i <= self.subtasks@.len(),
                subtasks@.len() == i,
                forall|j: int| 0 <= j < i ==> #[trigger] task_view(subtasks@[j]) == task_view(
                    self.subtasks@[j],
                ),
            decreases self.subtasks@.len() - i,
        {
            proof {
                vstd::std_specs::vec::axiom_vec_index_decreases(self.subtasks, i as int);
            }
            let t = self.subtasks[i].duplicate();
            subtasks.push(t);
            i = i + 1;
        }
        proof {
            lemma_tasks_view_ext(subtasks@, self.subtasks@);
        }
        Task {
            subtasks,
            description: clone_opt_string(&self.description),
            due_date: self.due_date,
            filename: self.filename.clone(),
            line_number: self.line_number,
            name: self.name.clone(),
            priority: self.priority,
            completion: self.completion,
            state: self.state,
            tags: clone_tags(&self.tags),
            is_today: self.is_today,
        }
    }
}

impl Clone for Task {
    fn clone(&self) -> (r: Self)
        ensures
            r@ == self@,
    {
        self.duplicate()
    }
}

/// The view of the default task: to do, line 1, and nothing else set.
pub open spec fn default_task_view() -> TaskView {
    TaskView {
        subtasks: seq![],
        description: None,
        due_date: None,
        filename: seq![],
        line_number: Some(1usize),
        name: seq![],
        priority: 0,
        completion: None,
        state: State::ToDo,
        tags: None,
        is_today: false,
    }
}

impl Default for Task {
    fn default() -> (r: Self)
        ensures
            r@ == default_task_view(),
            r.subtasks@.len() == 0,
            r.description is None,
            r.due_date is None,
            r.filename@.len() == 0,
            r.line_number == Some(1usize),
            r.name@.len() == 0,
            r.priority == 0,
            r.completion is None,
            r.state == State::ToDo,
            r.tags is None,
            !r.is_today,
    {
        let r = Task {
            subtasks: Vec::new(),
            description: None,
            due_date: None,
            filename: String::new(),
            line_number: Some(1),
            name: String::new(),
            priority: 0,
            completion: None,
            state: State::ToDo,
            tags: None,
            is_today: false,
        };
        proof {
            assert(tasks_view(r.subtasks@) =~= seq![]);
        }
        r
    }
}

/// The progress bar of `percentage` on `length` cells: cell `c` (from 1) is full when
/// `c * (100 / length) <= percentage`.
pub open spec fn bar_cells(length: int, percentage: int, empty: Seq<char>, full: Seq<char>, c: int)
    -> Seq<char>
    decreases c,
{
    if c <= 0 {
        seq![]
    } else {
        bar_cells(length, percentage, empty, full, c - 1) + if c * (100int / length) <= percentage {
            full
        } else {
            empty
        }
    }
}

/// `[<bar> <percentage>%] `
pub open spec fn completion_bar(length: int, percentage: int, empty: Seq<char>, full: Seq<char>)
    -> Seq<char> {
    seq!['['] + bar_cells(length, percentage, empty, full, length) + seq![' '] + decimal(
        percentage as nat,
    ) + "%] "@
}

/// The characters between the brackets for each state.
pub open spec fn state_marker(state: State, config: TasksConfig) -> char {
    match state {
        State::Done => config.task_state_markers.done,
        State::ToDo => config.task_state_markers.todo,
        State::Incomplete => config.task_state_markers.incomplete,
        State::Canceled => config.task_state_markers.canceled,
    }
}

pub open spec fn tags_text(tags: Option<Seq<Seq<char>>>) -> Seq<char> {
    match tags {
        Some(ts) => join(ts.map_values(|t: Seq<char>| seq!['#'] + t), seq![' ']),
        None => seq![],
    }
}

/// What a task line writes for a due date: `%d/%m/%Y` (or `%Y/%m/%d`), and the time.
pub open spec fn due_text(due: Option<Date>, american: bool) -> Seq<char> {
    match due {
        Some(d) => d.string_format(!american),
        None => seq![],
    }
}

/// What a task line writes for a completion: `c` and the percentage.
pub open spec fn completion_text(c: Option<usize>) -> Seq<char> {
    match c {
        Some(n) => seq!['c'] + decimal(n as nat),
        None => seq![],
    }
}

/// What a task line writes for a priority: `p` and the priority, nothing for 0.
pub open spec fn priority_text(p: usize) -> Seq<char> {
    if p > 0 {
        seq!['p'] + decimal(p as nat)
    } else {
        seq![]
    }
}

/// What a task line writes for the today flag.
pub open spec fn today_text(is_today: bool) -> Seq<char> {
    if is_today {
        "@today"@
    } else {
        seq![]
    }
}

/// The attributes written after the state of a task, in order; empty ones are left out.
pub open spec fn fixed_parts(t: TaskView, config: TasksConfig) -> Seq<Seq<char>> {
    seq![
        t.name,
        due_text(t.due_date, config.use_american_format),
        completion_text(t.completion),
        priority_text(t.priority),
        tags_text(t.tags),
        today_text(t.is_today),
    ]
}

/// The line that writes a task back to its file.
pub open spec fn fixed_attributes(t: TaskView, config: TasksConfig, indent_length: nat) -> Seq<
    char,
> {
    trim_end(
        spaces(indent_length) + "- ["@ + seq![state_marker(t.state, config)] + "] "@
            + join_nonempty(fixed_parts(t, config)),
    )
}

/// `#tag1 #tag2 ...`
pub fn tags_string(tags: &Option<Vec<String>>) -> (r: String)
    ensures
        r@ == tags_text(tags_view(*tags)),
{
    let mut s = String::new();
    match tags {
        None => {},
        Some(ts) => {
            let ghost hashed = strings_view(ts@).map_values(|t: Seq<char>| seq!['#'] + t);
            let mut i: usize = 0;
            while i < ts.len()
                invariant
                    i <= ts@.len(),
                    hashed == strings_view(ts@).map_values(|t: Seq<char>| seq!['#'] + t),
                    s@ == join(hashed.take(i as int), seq![' ']),
                decreases ts@.len() - i,
            {
                assert(hashed.take(i + 1).drop_last() =~= hashed.take(i as int));
                assert(hashed.take(i + 1).last() == seq!['#'] + ts@[i as int]@);
                if i > 0 {
                    push_char(&mut s, ' ');
                }
                push_char(&mut s, '#');
                push_str(&mut s, ts[i].as_str());
                i = i + 1;
            }
            assert(hashed.take(ts@.len() as int) =~= hashed);
        },
    }
    s
}

impl Task {
    /// The progress bar of the task's completion, `None` when it has none.
    pub fn get_completion_bar(&self, length: usize, symbols: &(String, String)) -> (r: Option<
        String,
    >)
        requires
            self.completion is Some ==> length > 0,
        ensures
            r is Some <==> self.completion is Some,
            r matches Some(b) ==> b@ == completion_bar(
                length as int,
                self.completion->0 as int,
                symbols.0@,
                symbols.1@,
            ),
    {
        match self.completion {
            None => None,
            Some(percentage) => {
                let mut bar = String::new();
                push_char(&mut bar, '[');
                let step = 100 / length;
                let mut i: usize = 0;
                while i < length
                    invariant
                        i <= length,
                        length > 0,
                        step == 100int / length as int,
                        bar@ == seq!['['] + bar_cells(
                            length as int,
                            percentage as int,
                            symbols.0@,
                            symbols.1@,
                            i as int,
                        ),
                    decreases length - i,
                {
                    let c = i + 1;
                    assert(c * step <= 100) by (nonlinear_arith)
                        requires
                            c <= length,
                            length > 0,
                            step == 100int / length as int,
                    ;
                    if c * step <= percentage {
                        push_str(&mut bar, symbols.1.as_str());
                    } else {
                        push_str(&mut bar, symbols.0.as_str());
                    }
                    i = c;
                }
                push_char(&mut bar, ' ');
                push_decimal(&mut bar, percentage as u64);
                push_str(&mut bar, "%] ");
                assert(bar@ =~= completion_bar(
                    length as int,
                    percentage as int,
                    symbols.0@,
                    symbols.1@,
                ));
                Some(bar)
            },
        }
    }

    /// The line of the task as it is written back to its file: indent, state, name,
    /// due date, completion, priority, tags and today flag, the empty ones left out.
    pub fn get_fixed_attributes(&self, config: &TasksConfig, indent_length: usize) -> (r: String)
        ensures
            r@ == fixed_attributes(self@, *config, indent_length as nat),
    {
        let mut line = String::new();
        crate::text::push_spaces(&mut line, indent_length);
        push_str(&mut line, "- [");
        let marker = match self.state {
            State::Done => config.task_state_markers.done,
            State::ToDo => config.task_state_markers.todo,
            State::Incomplete => config.task_state_markers.incomplete,
            State::Canceled => config.task_state_markers.canceled,
        };
        push_char(&mut line, marker);
        push_str(&mut line, "] ");
        let due = match &self.due_date {
            Some(d) => d.to_string_format(!config.use_american_format),
            None => String::new(),
        };
        let mut completion = String::new();
        match self.completion {
            Some(c) => {
                push_char(&mut completion, 'c');
                push_decimal(&mut completion, c as u64);
            },
            None => {},
        }
        let mut priority = String::new();
        if self.priority > 0 {
            push_char(&mut priority, 'p');
            push_decimal(&mut priority, self.priority as u64);
        }
        let tags = tags_string(&self.tags);
        let mut today = String::new();
        if self.is_today {
            push_str(&mut today, "@today");
        }
        let mut parts: Vec<String> = Vec::new();
        parts.push(self.name.clone());
        parts.push(due);
        parts.push(completion);
        parts.push(priority);
        parts.push(tags);
        parts.push(today);
        let joined = crate::text::join_nonempty_strings(&parts);
        push_str(&mut line, joined.as_str());
        proof {
            let ps = parts@.map_values(|p: String| p@);
            assert(ps =~= fixed_parts(self@, *config));
            assert(line@ =~= spaces(indent_length as nat) + "- ["@ + seq![
                state_marker(self.state, *config),
            ] + "] "@ + join_nonempty(fixed_parts(self@, *config)));
        }
        crate::text::trim_end_string(&line)
    }
}

} // verus!
