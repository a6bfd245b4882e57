//! Trackers: tables of entries, one row per period, one column per category.
use vstd::prelude::*;
use crate::config::PrettySymbolsConfig;
use crate::date::{Date, NaiveTime, now};
use crate::frequency::Frequency;
use crate::text::{decimal, push_char, push_decimal, push_str};

verus! {

/// A numeric entry.
#[derive(Debug, Clone, Copy, PartialEq, Eq, Structural)]
pub struct ScoreEntry {
    pub score: i32,
}

/// A checkbox entry.
#[derive(Debug, Clone, Copy, PartialEq, Eq, Structural)]
pub struct BoolEntry {
    pub value: bool,
}

/// A free text entry.
#[derive(Debug, PartialEq, Eq)]
pub struct NoteEntry {
    pub value: String,
}

/// One cell of a tracker.
#[derive(Debug, PartialEq, Eq)]
pub enum TrackerEntry {
    Score(ScoreEntry),
    Bool(BoolEntry),
    Note(NoteEntry),
    Blank,
}

/// A cell as a mathematical value.
pub enum EntryView {
    Score(i32),
    Bool(bool),
    Note(Seq<char>),
    Blank,
}

impl View for TrackerEntry {
    type V = EntryView;

    open spec fn view(&self) -> EntryView {
        match self {
            TrackerEntry::Score(s) => EntryView::Score(s.score),
            TrackerEntry::Bool(b) => EntryView::Bool(b.value),
            TrackerEntry::Note(n) => EntryView::Note(n.value@),
            TrackerEntry::Blank => EntryView::Blank,
        }
    }
}

/// Decimal text of a signed number.
pub open spec fn signed_decimal(n: int) -> Seq<char> {
    if n < 0 {
        seq!['-'] + decimal((-n) as nat)
    } else {
        decimal(n as nat)
    }
}

/// How a cell is written in a tracker table.
pub open spec fn entry_text(e: EntryView) -> Seq<char> {
    match e {
        EntryView::Score(n) => signed_decimal(n as int),
        EntryView::Bool(b) => if b {
            "[x]"@
        } else {
            "[ ]"@
        },
        EntryView::Note(s) => s,
        EntryView::Blank => seq![],
    }
}

/// A boolean cell is written as a Markdown checkbox, `[x]` for true and `[ ]` for
/// false, which the task syntax reads back as the same value: checked (done) for true,
/// unchecked (to do) for false.
pub proof fn lemma_bool_cell_is_checkbox(b: bool)
    ensures
        entry_text(EntryView::Bool(b)) == (if b {
            "[x]"@
        } else {
            "[ ]"@
        }),
        crate::task_parser::state_spec(
            seq!['-', ' '] + entry_text(EntryView::Bool(b)),
            crate::config::TaskMarkerConfig { done: 'x', todo: ' ', incomplete: '/', canceled: '-' },
        ) == Some(
            (
                if b {
                    crate::task::State::Done
                } else {
                    crate::task::State::ToDo
                },
                5nat,
            ),
        ),
{
    reveal_strlit("[x]");
    reveal_strlit("[ ]");
    let t = seq!['-', ' '] + entry_text(EntryView::Bool(b));
    assert(t[3] == (if b { 'x' } else { ' ' }));
}

pub fn push_signed(s: &mut String, n: i32)
    ensures
        final(s)@ == old(s)@ + signed_decimal(n as int),
{
    let ghost start = s@;
    if n < 0 {
        push_char(s, '-');
        push_decimal(s, (0 - (n as i64)) as u64);
    } else {
        push_decimal(s, n as u64);
    }
    assert(s@ =~= start + signed_decimal(n as int));
}

impl TrackerEntry {
    /// A copy of the entry.
    pub fn duplicate(&self) -> (r: TrackerEntry)
        ensures
            r@ == self@,
    {
        match self {
            TrackerEntry::Score(s) => TrackerEntry::Score(*s),
            TrackerEntry::Bool(b) => TrackerEntry::Bool(*b),
            TrackerEntry::Note(n) => TrackerEntry::Note(NoteEntry { value: n.value.clone() }),
            TrackerEntry::Blank => TrackerEntry::Blank,
        }
    }

    /// How the cell is written in a tracker table: the score, `[x]` or `[ ]`, the
    /// note, or nothing.
    pub fn to_string(&self) -> (r: String)
        ensures
            r@ == entry_text(self@),
    {
        let mut s = String::new();
        match self {
            TrackerEntry::Score(e) => push_signed(&mut s, e.score),
            TrackerEntry::Bool(e) => {
                if e.value {
                    push_str(&mut s, "[x]");
                } else {
                    push_str(&mut s, "[ ]");
                }
            },
            TrackerEntry::Note(e) => push_str(&mut s, e.value.as_str()),
            TrackerEntry::Blank => {},
        }
        s
    }

    /// How the cell is displayed: the score, the done or to-do symbol, the note,
    /// or nothing.
    pub fn pretty_fmt(&self, pretty_symbols: &PrettySymbolsConfig) -> (r: String)
        ensures
            r@ == match self@ {
                EntryView::Score(n) => signed_decimal(n as int),
                EntryView::Bool(b) => if b {
                    pretty_symbols.task_done@
                } else {
                    pretty_symbols.task_todo@
                },
                EntryView::Note(s) => s,
                EntryView::Blank => seq![],
            },
    {
        match self {
            TrackerEntry::Score(e) => {
                let mut s = String::new();
                push_signed(&mut s, e.score);
                s
            },
            TrackerEntry::Bool(e) => {
                if e.value {
                    pretty_symbols.task_done.clone()
                } else {
                    pretty_symbols.task_todo.clone()
                }
            },
            TrackerEntry::Note(e) => e.value.clone(),
            TrackerEntry::Blank => String::new(),
        }
    }
}

/// A column of a tracker.
#[derive(Debug, PartialEq, Eq)]
pub struct TrackerCategory {
    /// Name of the tracker category
    pub name: String,
    /// Entries in this tracker category
    pub entries: Vec<TrackerEntry>,
}

pub struct CategoryView {
    pub name: Seq<char>,
    pub entries: Seq<EntryView>,
}

pub open spec fn entries_view(s: Seq<TrackerEntry>) -> Seq<EntryView> {
    s.map_values(|e: TrackerEntry| e@)
}

impl View for TrackerCategory {
    type V = CategoryView;

    open spec fn view(&self) -> CategoryView {
        CategoryView { name: self.name@, entries: entries_view(self.entries@) }
    }
}

pub open spec fn categories_view(s: Seq<TrackerCategory>) -> Seq<CategoryView> {
    s.map_values(|c: TrackerCategory| c@)
}

/// `n` blank cells.
pub open spec fn blanks(n: nat) -> Seq<EntryView> {
    Seq::new(n, |_i: int| EntryView::Blank)
}

impl TrackerCategory {
    pub fn duplicate(&self) -> (r: TrackerCategory)
        ensures
            r@ == self@,
    {
        let mut entries: Vec<TrackerEntry> = Vec::new();
        let mut i: usize = 0;
        while i < self.entries.len()
            invariant
                i <= self.entries@.len(),
                entries@.len() == i,
                forall|j: int| 0 <= j < i ==> #[trigger] entries@[j]@ == self.entries@[j]@,
            decreases self.entries@.len() - i,
        {
            entries.push(self.entries[i].duplicate());
            i = i + 1;
        }
        assert(entries_view(entries@) =~= entries_view(self.entries@));
        TrackerCategory { name: self.name.clone(), entries }
    }
}

/// A tracker whose table header is not read yet.
pub struct NewTracker {
    pub name: String,
    pub start_date: Date,
}

/// A tracker: `start_date + frequency * n` is the date of row `n`.
#[derive(Debug, PartialEq, Eq)]
pub struct Tracker {
    /// Name of the tracker
    pub name: String,
    /// Filename
    pub filename: String,
    /// Line number in the file where the tracker is defined
    pub line_number: usize,
    /// Date of the first occurrence
    pub start_date: Date,
    /// Total number of occurrences
    pub length: usize,
    /// Frequency (`start_date` + `frequency` * `n` = n-th occurrence)
    pub frequency: Frequency,
    /// Categories of the tracker
    pub categories: Vec<TrackerCategory>,
}

pub struct TrackerView {
    pub name: Seq<char>,
    pub filename: Seq<char>,
    pub line_number: usize,
    pub start_date: Date,
    pub length: usize,
    pub frequency: Frequency,
    pub categories: Seq<CategoryView>,
}

impl View for Tracker {
    type V = TrackerView;

    open spec fn view(&self) -> TrackerView {
        TrackerView {
            name: self.name@,
            filename: self.filename@,
            line_number: self.line_number,
            start_date: self.start_date,
            length: self.length,
            frequency: self.frequency,
            categories: categories_view(self.categories@),
        }
    }
}

impl Tracker {
    /// A copy of the tracker.
    pub fn duplicate(&self) -> (r: Tracker)
        ensures
            r@ == self@,
    {
        let mut categories: Vec<TrackerCategory> = Vec::new();
        let mut i: usize = 0;
        while i < self.categories.len()
            invariant
                i <= self.categories@.len(),
                categories@.len() == i,
                forall|j: int| 0 <= j < i ==> #[trigger] categories@[j]@ == self.categories@[j]@,
            decreases self.categories@.len() - i,
        {
            categories.push(self.categories[i].duplicate());
            i = i + 1;
        }
        assert(categories_view(categories@) =~= categories_view(self.categories@));
        Tracker {
            name: self.name.clone(),
            filename: self.filename.clone(),
            line_number: self.line_number,
            start_date: self.start_date,
            length: self.length,
            frequency: self.frequency,
            categories,
        }
    }
}

impl NewTracker {
    pub fn new(name: String, start_date: Date) -> (r: Self)
        ensures
            r.name == name,
            r.start_date == start_date,
    {
        Self { name, start_date }
    }

    /// The tracker with no entry, the given categories and the start date as the
    /// frequency reads it (a whole day gets the time `now_time` for periods in
    /// minutes or hours).
    pub fn to_tracker_at(
        &self,
        filename: String,
        line_number: usize,
        frequency: Frequency,
        categories: Vec<String>,
        now_time: NaiveTime,
    ) -> (r: Tracker)
        ensures
            r@.name == self.name@,
            r@.filename == filename@,
            r.line_number == line_number,
            r.frequency == frequency,
            r.start_date == frequency.fix_date(self.start_date, now_time),
            r.length == 0,
            r@.categories.len() == categories@.len(),
            forall|i: int|
                0 <= i < categories@.len() ==> (#[trigger] r@.categories[i]).name == categories@[i]@
                    && r@.categories[i].entries.len() == 0,
    {
        let mut cats: Vec<TrackerCategory> = Vec::new();
        let mut i: usize = 0;
        while i < categories.len()
            invariant
                i <= categories@.len(),
                cats@.len() == i,
                forall|j: int|
                    0 <= j < i ==> (#[trigger] cats@[j])@.name == categories@[j]@
                        && cats@[j].entries@.len() == 0,
            decreases categories@.len() - i,
        {
            cats.push(TrackerCategory { name: categories[i].clone(), entries: Vec::new() });
            i = i + 1;
        }
        let start_date = match self.start_date {
            Date::Day(day) => match frequency {
                Frequency::EveryXHours(_) | Frequency::EveryXMinutes(_) => Date::DayTime(
                    crate::date::NaiveDateTime { date: day, time: now_time },
                ),
                _ => self.start_date,
            },
            Date::DayTime(dt) => match frequency {
                Frequency::EveryXHours(_) | Frequency::EveryXMinutes(_) => self.start_date,
                _ => Date::Day(dt.date),
            },
        };
        Tracker {
            name: self.name.clone(),
            frequency,
            categories: cats,
            start_date,
            length: 0,
            filename,
            line_number,
        }
    }

    /// Converts the `NewTracker` into a `Tracker` which has no entry; a whole start
    /// day gets the current local time when the frequency counts in minutes or hours.
    pub fn to_tracker(
        &self,
        filename: String,
        line_number: usize,
        frequency: Frequency,
        categories: Vec<String>,
    ) -> (r: Tracker)
        ensures
            r@.name == self.name@,
            r@.filename == filename@,
            r.line_number == line_number,
            r.frequency == frequency,
            r.length == 0,
            r@.categories.len() == categories@.len(),
            forall|i: int|
                0 <= i < categories@.len() ==> (#[trigger] r@.categories[i]).name == categories@[i]@
                    && r@.categories[i].entries.len() == 0,
            !frequency.is_timed() ==> r.start_date == frequency.fix_date(
                self.start_date,
                NaiveTime { hour: 0, minute: 0, second: 0, nano: 0 },
            ),
            frequency.is_timed() ==> exists|t: NaiveTime|
                t.valid() && r.start_date == #[trigger] frequency.fix_date(self.start_date, t),
    {
        let t = now().time;
        let r = self.to_tracker_at(filename, line_number, frequency, categories, t);
        assert(t.valid() && r.start_date == frequency.fix_date(self.start_date, t));
        r
    }
}

/// The date of row `k` of a tracker.
pub open spec fn nth_date(f: Frequency, start: Date, k: nat, now_time: NaiveTime) -> Date
    decreases k,
{
    if k == 0 {
        start
    } else {
        f.next_spec(nth_date(f, start, (k - 1) as nat, now_time), now_time)
    }
}

/// `b` rows from row `base` on come strictly before `date`, and row `base + b` does not.
pub open spec fn is_blank_count(
    f: Frequency,
    start: Date,
    base: nat,
    date: Date,
    now_time: NaiveTime,
    b: nat,
) -> bool {
    &&& forall|j: nat| j < b ==> (#[trigger] nth_date(f, start, base + j, now_time)).instant()
        < date.instant()
    &&& !(nth_date(f, start, base + b, now_time).instant() < date.instant())
}

/// How many rows from row `base` on come strictly before `date`.
pub open spec fn blank_count(f: Frequency, start: Date, base: nat, date: Date, now_time: NaiveTime)
    -> nat {
    choose|b: nat| is_blank_count(f, start, base, date, now_time, b)
}

/// The tracker `new` is `old` with the row of `date` added, holding `entries`, one per
/// category in order (extra entries dropped, missing ones leaving their category
/// short), after blank rows for the rows skipped before `date`.
pub open spec fn event_added(old: Tracker, new: TrackerView, date: Date, entries: Seq<EntryView>, now_time: NaiveTime) -> bool {
    let b = blank_count(old.frequency, old.start_date, old.parsed_rows(), date, now_time);
    &&& new.name == old@.name
    &&& new.filename == old@.filename
    &&& new.line_number == old.line_number
    &&& new.start_date == old.start_date
    &&& new.frequency == old.frequency
    &&& new.length == old.length + b + 1
    &&& new.categories.len() == old@.categories.len()
    &&& forall|i: int|
        0 <= i < old@.categories.len() ==> (#[trigger] new.categories[i]).name == old@.categories[i].name
            && new.categories[i].entries == old@.categories[i].entries + blanks(b) + if i
            < entries.len() {
            seq![entries[i]]
        } else {
            seq![]
        }
}

/// Whether `add_event_at` may run with `now_time`: the rows up to `date` are counted,
/// their dates stay within the range of `chrono`, and the row count fits.
pub open spec fn event_ok(t: Tracker, date: Date, now_time: NaiveTime) -> bool {
    &&& exists|b: nat| is_blank_count(t.frequency, t.start_date, t.parsed_rows(), date, now_time, b)
    &&& forall|k: nat|
        k < t.parsed_rows() + blank_count(t.frequency, t.start_date, t.parsed_rows(), date, now_time)
            ==> t.frequency.next_ok(#[trigger] nth_date(t.frequency, t.start_date, k, now_time), now_time)
    &&& t.length + blank_count(t.frequency, t.start_date, t.parsed_rows(), date, now_time) + 1
        <= usize::MAX
}

impl Tracker {
    /// Number of rows already read: the entries of the first category.
    pub open spec fn parsed_rows(self) -> nat {
        if self.categories@.len() == 0 {
            0
        } else {
            self.categories@[0].entries@.len()
        }
    }

    /// Adds the row of `date` with `entries`, one per category in order (extra
    /// entries are dropped, missing ones leave their category short); when `date`
    /// comes after the next expected row, blank rows fill the rows skipped.
    /// A whole start day gets the time `now_time` when the frequency counts in minutes
    /// or hours.
    pub fn add_event_at(&mut self, date: &Date, entries: &[TrackerEntry], now_time: NaiveTime)
        requires
            old(self).start_date.valid(),
            date.valid(),
            now_time.valid(),
            exists|b: nat|
                is_blank_count(
                    old(self).frequency,
                    old(self).start_date,
                    old(self).parsed_rows(),
                    *date,
                    now_time,
                    b,
                ),
            forall|k: nat|
                k < old(self).parsed_rows() + blank_count(
                    old(self).frequency,
                    old(self).start_date,
                    old(self).parsed_rows(),
                    *date,
                    now_time,
                ) ==> old(self).frequency.next_ok(
                    #[trigger] nth_date(old(self).frequency, old(self).start_date, k, now_time),
                    now_time,
                ),
            old(self).length + blank_count(
                old(self).frequency,
                old(self).start_date,
                old(self).parsed_rows(),
                *date,
                now_time,
            ) + 1 <= usize::MAX,
        ensures
            event_added(*old(self), final(self)@, *date, entries_view(entries@), now_time),
    {
        let ghost f = self.frequency;
        let ghost start = self.start_date;
        let ghost base = self.parsed_rows();
        let ghost b = blank_count(f, start, base, *date, now_time);
        let ghost old_cats = self@.categories;
        let parsed = if self.categories.len() == 0 {
            0
        } else {
            self.categories[0].entries.len()
        };
        let mut next = self.start_date;
        let mut k: usize = 0;
        while k < parsed
            invariant
                k <= parsed,
                parsed == base,
                next == nth_date(f, start, k as nat, now_time),
                next.valid(),
                now_time.valid(),
                f == self.frequency,
                forall|k: nat|
                    k < base + b ==> f.next_ok(#[trigger] nth_date(f, start, k, now_time), now_time),
            decreases parsed - k,
        {
            next = self.frequency.next_date_at(&next, now_time);
            k = k + 1;
        }
        proof {
            assert(is_blank_count(f, start, base, *date, now_time, b));
        }
        let mut j: usize = 0;
        while next.is_before(date)
            invariant
                j <= b,
                next == nth_date(f, start, (base + j) as nat, now_time),
                next.valid(),
                date.valid(),
                now_time.valid(),
                is_blank_count(f, start, base, *date, now_time, b),
                forall|k: nat|
                    k < base + b ==> f.next_ok(#[trigger] nth_date(f, start, k, now_time), now_time),
                self.frequency == f,
                self.start_date == start,
                self.length == old(self).length + j,
                old(self).length + b + 1 <= usize::MAX,
                self@.name == old(self)@.name,
                self@.filename == old(self)@.filename,
                self.line_number == old(self).line_number,
                self@.categories.len() == old_cats.len(),
                forall|i: int|
                    0 <= i < old_cats.len() ==> (#[trigger] self@.categories[i]).name
                        == old_cats[i].name && self@.categories[i].entries == old_cats[i].entries
                        + blanks(j as nat),
            decreases b - j,
        {
            proof {
                if j == b {
                    assert(false);
                }
            }
            self.push_blank_row();
            self.length = self.length + 1;
            proof {
                assert(nth_date(f, start, (base + j) as nat, now_time) == next);
                assert((base + j + 1) as nat - 1 == (base + j) as nat);
            }
            next = self.frequency.next_date_at(&next, now_time);
            j = j + 1;
            proof {
                assert forall|i: int| 0 <= i < old_cats.len() implies (#[trigger] self@.categories[
                    i]).entries == old_cats[i].entries + blanks(j as nat) by {
                    assert(old_cats[i].entries + blanks((j - 1) as nat) + seq![EntryView::Blank]
                        =~= old_cats[i].entries + blanks(j as nat));
                }
            }
        }
        proof {
            if j < b {
                assert(nth_date(f, start, (base + j) as nat, now_time).instant() < date.instant());
            }
        }
        let mut i: usize = 0;
        let n = self.categories.len();
        while i < n
            invariant
                i <= n,
                n == old_cats.len(),
                j == b,
                self.frequency == f,
                self.start_date == start,
                self.length == old(self).length + b,
                self@.name == old(self)@.name,
                self@.filename == old(self)@.filename,
                self.line_number == old(self).line_number,
                self@.categories.len() == old_cats.len(),
                forall|c: int|
                    0 <= c < old_cats.len() ==> (#[trigger] self@.categories[c]).name
                        == old_cats[c].name && self@.categories[c].entries == old_cats[c].entries
                        + blanks(b) + if c < i && c < entries@.len() {
                        seq![entries@[c]@]
                    } else {
                        seq![]
                    },
            decreases n - i,
        {
            if i < entries.len() {
                let e = entries[i].duplicate();
                self.push_entry(i, e);
            }
            i = i + 1;
            proof {
                assert forall|c: int| 0 <= c < old_cats.len() implies (#[trigger] self@.categories[
                    c]).entries == old_cats[c].entries + blanks(b) + if c < i && c < entries@.len() {
                    seq![entries@[c]@]
                } else {
                    seq![]
                } by {
                    if c == i - 1 {
                        assert(self@.categories[c].entries =~= old_cats[c].entries + blanks(b) + if c
                            < i && c < entries@.len() {
                            seq![entries@[c]@]
                        } else {
                            seq![]
                        });
                    } else {
                        assert(self@.categories[c].entries =~= old_cats[c].entries + blanks(b) + if c
                            < i && c < entries@.len() {
                            seq![entries@[c]@]
                        } else {
                            seq![]
                        });
                    }
                }
            }
        }
        self.length = self.length + 1;
    }

    /// The rows up to the count of `event_ok` have a next date.
    proof fn lemma_event_ok_row(self, date: Date, now_time: NaiveTime, k: nat)
        requires
            event_ok(self, date, now_time),
            k < self.parsed_rows() + blank_count(
                self.frequency,
                self.start_date,
                self.parsed_rows(),
                date,
                now_time,
            ),
        ensures
            self.frequency.next_ok(nth_date(self.frequency, self.start_date, k, now_time), now_time),
    {
    }

    /// When the rows from `parsed_rows` up to `j` all come before `date`, the rows
    /// counted up to `date` are more than `j`.
    proof fn lemma_count_beyond(self, date: Date, now_time: NaiveTime, j: nat)
        requires
            event_ok(self, date, now_time),
            forall|jj: nat|
                jj <= j ==> (#[trigger] nth_date(self.frequency, self.start_date, self.parsed_rows() + jj, now_time)).instant()
                    < date.instant(),
        ensures
            j < blank_count(self.frequency, self.start_date, self.parsed_rows(), date, now_time),
    {
        let bc = blank_count(self.frequency, self.start_date, self.parsed_rows(), date, now_time);
        assert(is_blank_count(self.frequency, self.start_date, self.parsed_rows(), date, now_time, bc));
        if bc <= j {
            assert(nth_date(self.frequency, self.start_date, self.parsed_rows() + bc, now_time).instant()
                < date.instant());
        }
    }

    /// With a period of no unit, when two rows in a row come before `date`, no count of
    /// rows reaches `date`.
    proof fn lemma_zero_no_count(self, date: Date, now_time: NaiveTime, j: nat)
        requires
            self.frequency.count() == 0,
            now_time.valid(),
            nth_date(self.frequency, self.start_date, self.parsed_rows() + j, now_time).valid(),
            forall|jj: nat|
                jj <= j + 1 ==> (#[trigger] nth_date(self.frequency, self.start_date, self.parsed_rows() + jj, now_time)).instant()
                    < date.instant(),
        ensures
            !event_ok(self, date, now_time),
    {
        let f = self.frequency;
        let start = self.start_date;
        let base = self.parsed_rows();
        if event_ok(self, date, now_time) {
            let bc = blank_count(f, start, base, date, now_time);
            assert(is_blank_count(f, start, base, date, now_time, bc));
            if bc <= j + 1 {
                assert(nth_date(f, start, base + bc, now_time).instant() < date.instant());
            } else {
                let k: nat = base + j;
                let m: nat = (bc - j - 1) as nat;
                lemma_zero_rows_stay(f, start, k, m, now_time);
                let j1: nat = j + 1;
                assert(nth_date(f, start, base + j1, now_time).instant() < date.instant());
                assert(k + 1 == base + j1);
                assert(k + 1 + m == base + bc);
                assert(nth_date(f, start, base + bc, now_time) == nth_date(f, start, base + j1, now_time));
            }
        }
    }

    #[verifier::rlimit(60)]
    /// Whether `add_event_at` may run on these arguments: the rows up to `date` stay
    /// within the range of `chrono`, they reach `date`, and the row count fits.
    pub fn add_event_ok(&self, date: &Date, now_time: NaiveTime) -> (r: bool)
        requires
            self.start_date.valid(),
            date.valid(),
            now_time.valid(),
        ensures
            r ==> exists|b: nat|
                is_blank_count(
                    self.frequency,
                    self.start_date,
                    self.parsed_rows(),
                    *date,
                    now_time,
                    b,
                ),
            r ==> forall|k: nat|
                k < self.parsed_rows() + blank_count(
                    self.frequency,
                    self.start_date,
                    self.parsed_rows(),
                    *date,
                    now_time,
                ) ==> self.frequency.next_ok(
                    #[trigger] nth_date(self.frequency, self.start_date, k, now_time),
                    now_time,
                ),
            r ==> self.length + blank_count(
                self.frequency,
                self.start_date,
                self.parsed_rows(),
                *date,
                now_time,
            ) + 1 <= usize::MAX,
            r == event_ok(*self, *date, now_time),
    {
        let ghost f = self.frequency;
        let ghost start = self.start_date;
        let ghost base = self.parsed_rows();
        let parsed = if self.categories.len() == 0 {
            0
        } else {
            self.categories[0].entries.len()
        };
        let mut next = self.start_date;
        let mut k: usize = 0;
        while k < parsed
            invariant
                k <= parsed,
                parsed == base,
                base == self.parsed_rows(),
                start == self.start_date,
                next == nth_date(f, start, k as nat, now_time),
                next.valid(),
                now_time.valid(),
                f == self.frequency,
                forall|kk: nat| kk < k ==> f.next_ok(#[trigger] nth_date(f, start, kk, now_time), now_time),
            decreases parsed - k,
        {
            if !self.frequency.next_ok_exec(&next, now_time) {
                proof {
                    if event_ok(*self, *date, now_time) {
                        self.lemma_event_ok_row(*date, now_time, k as nat);
                    }
                }
                return false;
            }
            next = self.frequency.next_date_at(&next, now_time);
            k = k + 1;
        }
        let zero = match self.frequency {
            Frequency::EveryXMinutes(n) | Frequency::EveryXHours(n) | Frequency::EveryXDays(n)
            | Frequency::EveryXWeeks(n) | Frequency::EveryXMonths(n) | Frequency::EveryXYears(n) => n
                == 0,
        };
        if self.length == usize::MAX {
            proof {
                if event_ok(*self, *date, now_time) {
                    let bc = blank_count(f, start, base, *date, now_time);
                    assert(self.length + bc + 1 <= usize::MAX);
                }
            }
            return false;
        }
        let mut j: usize = 0;
        while next.is_before(date)
            invariant
                next == nth_date(f, start, (base + j) as nat, now_time),
                next.valid(),
                date.valid(),
                now_time.valid(),
                f == self.frequency,
                base == self.parsed_rows(),
                start == self.start_date,
                zero == (f.count() == 0),
                forall|kk: nat| kk < base + j ==> f.next_ok(#[trigger] nth_date(f, start, kk, now_time), now_time),
                forall|jj: nat| jj < j ==> (#[trigger] nth_date(f, start, base + jj, now_time)).instant() < date.instant(),
                self.length + j + 1 <= usize::MAX,
            decreases (if next.instant() < date.instant() { date.instant() - next.instant() } else { 0 }),
        {
            proof {
                assert forall|jj: nat| jj <= j implies (#[trigger] nth_date(
                    self.frequency,
                    self.start_date,
                    self.parsed_rows() + jj,
                    now_time,
                )).instant() < date.instant() by {
                    if jj == j {
                        assert(self.parsed_rows() + jj == (base + j) as nat);
                    } else {
                        assert(nth_date(f, start, base + jj, now_time).instant() < date.instant());
                    }
                }
                if event_ok(*self, *date, now_time) {
                    self.lemma_count_beyond(*date, now_time, j as nat);
                }
            }
            if !self.frequency.next_ok_exec(&next, now_time) {
                proof {
                    if event_ok(*self, *date, now_time) {
                        self.lemma_event_ok_row(*date, now_time, (base + j) as nat);
                    }
                }
                return false;
            }
            if self.length + j + 1 == usize::MAX {
                return false;
            }
            let prev = next;
            next = self.frequency.next_date_at(&next, now_time);
            proof {
                assert((base + j + 1) as nat - 1 == (base + j) as nat);
            }
            if zero {
                if next.is_before(date) {
                    proof {
                        assert forall|jj: nat| jj <= j + 1 implies (#[trigger] nth_date(
                            self.frequency,
                            self.start_date,
                            self.parsed_rows() + jj,
                            now_time,
                        )).instant() < date.instant() by {
                            if jj == j + 1 {
                                assert(self.parsed_rows() + jj == (base + j + 1) as nat);
                            } else if jj == j {
                                assert(self.parsed_rows() + jj == (base + j) as nat);
                            } else {
                                assert(nth_date(f, start, base + jj, now_time).instant()
                                    < date.instant());
                            }
                        }
                        assert(self.parsed_rows() + j == (base + j) as nat);
                        if event_ok(*self, *date, now_time) {
                            self.lemma_zero_no_count(*date, now_time, j as nat);
                        }
                    }
                    return false;
                }
                proof {
                    assert(next.instant() >= date.instant());
                }
            }
            j = j + 1;
        }
        proof {
            assert(is_blank_count(f, start, base, *date, now_time, j as nat));
            lemma_blank_count_unique(f, start, base, *date, now_time, j as nat);
        }
        true
    }

    /// Adds the row of `date` with `entries` when `add_event_ok` holds, and says whether
    /// it did; a whole start day gets the current local time when the frequency counts
    /// in minutes or hours. See `add_event_at`.
    pub fn add_event(&mut self, date: &Date, entries: &[TrackerEntry]) -> (r: bool)
        requires
            old(self).start_date.valid(),
            date.valid(),
        ensures
            !r ==> final(self)@ == old(self)@,
            !r ==> exists|t: NaiveTime| t.valid() && !event_ok(*old(self), *date, t),
            r ==> exists|t: NaiveTime|
                t.valid() && event_ok(*old(self), *date, t) && event_added(
                    *old(self),
                    final(self)@,
                    *date,
                    entries_view(entries@),
                    t,
                ),
    {
        let t = now().time;
        if self.add_event_ok(date, t) {
            self.add_event_at(date, entries, t);
            true
        } else {
            false
        }
    }

    /// Pushes a blank cell at the end of every category.
    pub(crate) fn push_blank_row(&mut self)
        ensures
            final(self).frequency == old(self).frequency,
            final(self).start_date == old(self).start_date,
            final(self).length == old(self).length,
            final(self)@.name == old(self)@.name,
            final(self)@.filename == old(self)@.filename,
            final(self).line_number == old(self).line_number,
            final(self)@.categories.len() == old(self)@.categories.len(),
            forall|i: int|
                0 <= i < old(self)@.categories.len() ==> (#[trigger] final(self)@.categories[i]).name
                    == old(self)@.categories[i].name && final(self)@.categories[i].entries == old(self)@.categories[i].entries.push(EntryView::Blank),
    {
        let ghost start = self@.categories;
        let mut i: usize = 0;
        let n = self.categories.len();
        while i < n
            invariant
                i <= n,
                n == start.len(),
                self.frequency == old(self).frequency,
                self.start_date == old(self).start_date,
                self.length == old(self).length,
                self@.name == old(self)@.name,
                self@.filename == old(self)@.filename,
                self.line_number == old(self).line_number,
                self@.categories.len() == start.len(),
                forall|c: int|
                    0 <= c < start.len() ==> (#[trigger] self@.categories[c]).name == start[c].name
                        && self@.categories[c].entries == if c < i {
                        start[c].entries.push(EntryView::Blank)
                    } else {
                        start[c].entries
                    },
            decreases n - i,
        {
            self.push_entry(i, TrackerEntry::Blank);
            i = i + 1;
        }
    }

    /// Pushes `e` at the end of category `i`.
    fn push_entry(&mut self, i: usize, e: TrackerEntry)
        requires
            i < old(self).categories@.len(),
        ensures
            final(self).frequency == old(self).frequency,
            final(self).start_date == old(self).start_date,
            final(self).length == old(self).length,
            final(self)@.name == old(self)@.name,
            final(self)@.filename == old(self)@.filename,
            final(self).line_number == old(self).line_number,
            final(self)@.categories.len() == old(self)@.categories.len(),
            forall|c: int|
                0 <= c < old(self)@.categories.len() ==> (#[trigger] final(self)@.categories[c]).name
                    == old(self)@.categories[c].name && final(self)@.categories[c].entries == if c
                    == i {
                    old(self)@.categories[c].entries.push(e@)
                } else {
                    old(self)@.categories[c].entries
                },
    {
        let mut cats: Vec<TrackerCategory> = Vec::new();
        std::mem::swap(&mut cats, &mut self.categories);
        let mut cat = cats.remove(i);
        cat.entries.push(e);
        cats.insert(i, cat);
        self.categories = cats;
        proof {
            assert forall|c: int| 0 <= c < old(self)@.categories.len() implies (#[trigger] self@.categories[c]).entries == if c == i {
                old(self)@.categories[c].entries.push(e@)
            } else {
                old(self)@.categories[c].entries
            } by {
                if c == i {
                    assert(entries_view(self.categories@[c].entries@) =~= old(self)@.categories[c].entries.push(e@));
                }
            }
        }
    }
}


/// With a period of no unit, the rows after row `k + 1` all have the date of row
/// `k + 1`.
pub proof fn lemma_zero_rows_stay(f: Frequency, start: Date, k: nat, m: nat, now_time: NaiveTime)
    requires
        f.count() == 0,
        now_time.valid(),
        nth_date(f, start, k, now_time).valid(),
    ensures
        nth_date(f, start, k + 1 + m, now_time) == nth_date(f, start, k + 1, now_time),
    decreases m,
{
    let d = nth_date(f, start, k, now_time);
    crate::frequency::lemma_zero_period(f, d, now_time);
    assert((k + 1) as nat - 1 == k);
    if m > 0 {
        lemma_zero_rows_stay(f, start, k, (m - 1) as nat, now_time);
        let e = nth_date(f, start, k + 1, now_time);
        assert(e == f.fix_date(d, now_time));
        crate::frequency::lemma_zero_period(f, e, now_time);
        assert((k + 1 + m) as nat - 1 == k + 1 + (m - 1) as nat);
    }
}

/// The count of blank rows is the only one that fits.
pub proof fn lemma_blank_count_unique(
    f: Frequency,
    start: Date,
    base: nat,
    date: Date,
    now_time: NaiveTime,
    b: nat,
)
    requires
        is_blank_count(f, start, base, date, now_time, b),
    ensures
        blank_count(f, start, base, date, now_time) == b,
{
    let c = blank_count(f, start, base, date, now_time);
    assert(is_blank_count(f, start, base, date, now_time, c));
    if c < b {
        assert(nth_date(f, start, base + c, now_time).instant() < date.instant());
    } else if b < c {
        assert(nth_date(f, start, base + b, now_time).instant() < date.instant());
    }
}

} // verus!
