//! Blank rows of a tracker: rows for every date up to now that has none yet, and a
//! number of blank rows ahead.
use vstd::prelude::*;
use crate::config::TasksConfig;
use crate::date::{Date, NaiveDateTime, NaiveTime};
use crate::frequency::Frequency;
use crate::tracker::{
    blanks, lemma_zero_rows_stay, nth_date, CategoryView, EntryView, Tracker, TrackerEntry,
    TrackerView,
};

verus! {

/// The date that the blanks of a tracker reach: `now`, moved `extra` rows ahead.
pub open spec fn blanks_target(f: Frequency, now: NaiveDateTime, extra: nat) -> Date {
    nth_date(f, Date::DayTime(now), extra, now.time)
}

/// `b` rows from row `base` on have dates up to `target`, and row `base + b` comes
/// after it.
pub open spec fn is_due_count(
    f: Frequency,
    start: Date,
    base: nat,
    target: Date,
    now_time: NaiveTime,
    b: nat,
) -> bool {
    &&& forall|j: nat| j < b ==> !(target.instant() < (#[trigger] nth_date(f, start, base + j, now_time)).instant())
    &&& target.instant() < nth_date(f, start, base + b, now_time).instant()
}

/// How many rows from row `base` on have dates up to `target`.
pub open spec fn due_count(f: Frequency, start: Date, base: nat, target: Date, now_time: NaiveTime) -> nat {
    choose|b: nat| is_due_count(f, start, base, target, now_time, b)
}

/// The count of rows up to a date is the only one that fits.
pub proof fn lemma_due_count_unique(
    f: Frequency,
    start: Date,
    base: nat,
    target: Date,
    now_time: NaiveTime,
    b: nat,
)
    requires
        is_due_count(f, start, base, target, now_time, b),
    ensures
        due_count(f, start, base, target, now_time) == b,
{
    let c = due_count(f, start, base, target, now_time);
    assert(is_due_count(f, start, base, target, now_time, c));
    if c < b {
        assert(!(target.instant() < nth_date(f, start, base + c, now_time).instant()));
    } else if b < c {
        assert(!(target.instant() < nth_date(f, start, base + b, now_time).instant()));
    }
}

/// A cell that counts as blank at the end of a tracker: a blank cell or an empty note.
pub open spec fn blank_like(e: EntryView) -> bool {
    e is Blank || e == EntryView::Note(seq![])
}

/// Whether every category has a blank-like cell `back` cells before its end.
pub open spec fn row_blank_from_end(cats: Seq<CategoryView>, back: nat) -> bool {
    forall|i: int|
        0 <= i < cats.len() ==> back < (#[trigger] cats[i]).entries.len() && blank_like(
            cats[i].entries[cats[i].entries.len() - 1 - back],
        )
}

/// How many rows, from row `from` back from the end on and at most up to `extra`, are
/// blank in every category.
pub open spec fn trailing_blank_rows(cats: Seq<CategoryView>, from: nat, extra: nat) -> nat
    decreases extra - from,
{
    if from < extra && row_blank_from_end(cats, from) {
        1 + trailing_blank_rows(cats, from + 1, extra)
    } else {
        0
    }
}

/// The categories with `n` blank cells added at the end of each.
pub open spec fn with_blanks(cats: Seq<CategoryView>, n: nat) -> Seq<CategoryView> {
    cats.map_values(|c: CategoryView| CategoryView { name: c.name, entries: c.entries + blanks(n) })
}

/// Whether `add_blanks_at` can run: the dates it computes stay within the range of
/// `chrono`, the rows up to the target are counted, and the row count fits.
pub open spec fn blanks_ok(t: Tracker, extra: nat, now: NaiveDateTime) -> bool {
    let f = t.frequency;
    let target = blanks_target(f, now, extra);
    let base = t.parsed_rows();
    &&& forall|j: nat|
        j < extra ==> f.next_ok(#[trigger] nth_date(f, Date::DayTime(now), j, now.time), now.time)
    &&& exists|b: nat| is_due_count(f, t.start_date, base, target, now.time, b)
    &&& forall|k: nat|
        k < base + due_count(f, t.start_date, base, target, now.time) ==> f.next_ok(
            #[trigger] nth_date(f, t.start_date, k, now.time),
            now.time,
        )
    &&& t.length + due_count(f, t.start_date, base, target, now.time) + extra <= usize::MAX
}

/// The tracker `new` is `t` with a blank row for each date up to the target that has no
/// row yet, then blank rows so that `extra` rows at its end are blank.
pub open spec fn blanks_added(t: Tracker, new: TrackerView, extra: nat, now: NaiveDateTime) -> bool {
    let f = t.frequency;
    let b1 = due_count(
        f,
        t.start_date,
        t.parsed_rows(),
        blanks_target(f, now, extra),
        now.time,
    );
    let b2 = trailing_blank_rows(with_blanks(t@.categories, b1), 0, extra);
    &&& new.name == t@.name
    &&& new.filename == t@.filename
    &&& new.line_number == t.line_number
    &&& new.start_date == t.start_date
    &&& new.frequency == t.frequency
    &&& new.length == t.length + b1 + extra - b2
    &&& new.categories == with_blanks(t@.categories, (b1 + extra - b2) as nat)
}

proof fn lemma_trailing_le(cats: Seq<CategoryView>, from: nat, extra: nat)
    ensures
        from <= extra ==> from + trailing_blank_rows(cats, from, extra) <= extra,
    decreases extra - from,
{
    if from < extra && row_blank_from_end(cats, from) {
        lemma_trailing_le(cats, from + 1, extra);
    }
}

/// Whether a cell counts as blank at the end of a tracker; see `blank_like`.
fn is_blank_like(e: &TrackerEntry) -> (r: bool)
    ensures
        r == blank_like(e@),
{
    match e {
        TrackerEntry::Blank => true,
        TrackerEntry::Note(n) => {
            let r = n.value.as_str().unicode_len() == 0;
            proof {
                if r {
                    assert(n.value@ =~= Seq::<char>::empty());
                }
            }
            r
        },
        _ => false,
    }
}

impl Tracker {
    /// Whether every category has a blank-like cell `back` cells before its end; see
    /// `row_blank_from_end`.
    fn row_blank_from_end_exec(&self, back: usize) -> (r: bool)
        ensures
            r == row_blank_from_end(self@.categories, back as nat),
    {
        let mut i: usize = 0;
        while i < self.categories.len()
            invariant
                i <= self.categories@.len(),
                forall|c: int|
                    0 <= c < i ==> back < (#[trigger] self@.categories[c]).entries.len()
                        && blank_like(
                        self@.categories[c].entries[self@.categories[c].entries.len() - 1 - back],
                    ),
            decreases self.categories@.len() - i,
        {
            let n = self.categories[i].entries.len();
            proof {
                assert(self@.categories[i as int].entries.len() == n);
            }
            if n <= back {
                return false;
            }
            proof {
                assert(self@.categories[i as int].entries[n - 1 - back] == self.categories@[i as int].entries@[n - 1 - back]@);
            }
            if !is_blank_like(&self.categories[i].entries[n - 1 - back]) {
                return false;
            }
            i = i + 1;
        }
        true
    }

    /// When the rows from `parsed_rows` up to `j` all have dates up to `target`, the rows
    /// counted up to `target` are more than `j`.
    proof fn lemma_due_beyond(self, target: Date, now_time: NaiveTime, j: nat)
        requires
            exists|b: nat| is_due_count(self.frequency, self.start_date, self.parsed_rows(), target, now_time, b),
            forall|jj: nat|
                jj <= j ==> !(target.instant() < (#[trigger] nth_date(self.frequency, self.start_date, self.parsed_rows() + jj, now_time)).instant()),
        ensures
            j < due_count(self.frequency, self.start_date, self.parsed_rows(), target, now_time),
    {
        let bc = due_count(self.frequency, self.start_date, self.parsed_rows(), target, now_time);
        assert(is_due_count(self.frequency, self.start_date, self.parsed_rows(), target, now_time, bc));
        if bc <= j {
            assert(!(target.instant() < nth_date(self.frequency, self.start_date, self.parsed_rows() + bc, now_time).instant()));
        }
    }

    /// With a period of no unit, when two rows in a row have dates up to `target`, no
    /// count of rows passes `target`.
    proof fn lemma_zero_no_due(self, target: Date, now_time: NaiveTime, j: nat)
        requires
            self.frequency.count() == 0,
            now_time.valid(),
            nth_date(self.frequency, self.start_date, self.parsed_rows() + j, now_time).valid(),
            forall|jj: nat|
                jj <= j + 1 ==> !(target.instant() < (#[trigger] nth_date(self.frequency, self.start_date, self.parsed_rows() + jj, now_time)).instant()),
        ensures
            !exists|b: nat| is_due_count(self.frequency, self.start_date, self.parsed_rows(), target, now_time, b),
    {
        let f = self.frequency;
        let start = self.start_date;
        let base = self.parsed_rows();
        if exists|b: nat| is_due_count(f, start, base, target, now_time, b) {
            let bc = due_count(f, start, base, target, now_time);
            assert(is_due_count(f, start, base, target, now_time, bc));
            if bc <= j + 1 {
                assert(!(target.instant() < nth_date(f, start, base + bc, now_time).instant()));
            } else {
                let k: nat = base + j;
                let m: nat = (bc - j - 1) as nat;
                lemma_zero_rows_stay(f, start, k, m, now_time);
                let j1: nat = j + 1;
                assert(!(target.instant() < nth_date(f, start, base + j1, now_time).instant()));
                assert(k + 1 == base + j1);
                assert(k + 1 + m == base + bc);
                assert(nth_date(f, start, base + bc, now_time) == nth_date(f, start, base + j1, now_time));
            }
        }
    }

    /// `now` moved `extra_blanks` rows ahead; `None` when a date passes the range of
    /// `chrono`.
    fn target_exec(&self, extra_blanks: usize, now: NaiveDateTime) -> (r: Option<Date>)
        requires
            now.valid(),
        ensures
            r is Some == forall|j: nat|
                j < extra_blanks ==> self.frequency.next_ok(
                    #[trigger] nth_date(self.frequency, Date::DayTime(now), j, now.time),
                    now.time,
                ),
            r matches Some(d) ==> d == blanks_target(self.frequency, now, extra_blanks as nat)
                && d.valid(),
    {
        let ghost f = self.frequency;
        let now_time = now.time;
        let mut target = Date::DayTime(now);
        let mut i: usize = 0;
        while i < extra_blanks
            invariant
                i <= extra_blanks,
                target == nth_date(f, Date::DayTime(now), i as nat, now_time),
                target.valid(),
                now_time == now.time,
                now.valid(),
                f == self.frequency,
                forall|jj: nat| jj < i ==> f.next_ok(#[trigger] nth_date(f, Date::DayTime(now), jj, now.time), now.time),
            decreases extra_blanks - i,
        {
            if !self.frequency.next_ok_exec(&target, now_time) {
                return None;
            }
            target = self.frequency.next_date_at(&target, now_time);
            proof {
                assert((i + 1) as nat - 1 == i as nat);
            }
            i = i + 1;
        }
        Some(target)
    }

    /// The date of the first row without a cell; `None` when a date passes the range of
    /// `chrono`.
    fn first_free_date(&self, now_time: NaiveTime) -> (r: Option<Date>)
        requires
            self.start_date.valid(),
            now_time.valid(),
        ensures
            r is Some == forall|k: nat|
                k < self.parsed_rows() ==> self.frequency.next_ok(
                    #[trigger] nth_date(self.frequency, self.start_date, k, now_time),
                    now_time,
                ),
            r matches Some(d) ==> d == nth_date(self.frequency, self.start_date, self.parsed_rows(), now_time)
                && d.valid(),
    {
        let ghost f = self.frequency;
        let ghost start = self.start_date;
        let ghost base = self.parsed_rows();
        let parsed = if self.categories.len() == 0 {
            0
        } else {
            self.categories[0].entries.len()
        };
        let mut last = self.start_date;
        let mut k: usize = 0;
        while k < parsed
            invariant
                k <= parsed,
                parsed == base,
                base == self.parsed_rows(),
                start == self.start_date,
                f == self.frequency,
                now_time.valid(),
                last == nth_date(f, start, k as nat, now_time),
                last.valid(),
                forall|kk: nat| kk < k ==> f.next_ok(#[trigger] nth_date(f, start, kk, now_time), now_time),
            decreases parsed - k,
        {
            if !self.frequency.next_ok_exec(&last, now_time) {
                return None;
            }
            last = self.frequency.next_date_at(&last, now_time);
            k = k + 1;
        }
        Some(last)
    }

    /// How many rows from the first row without a cell have dates up to `target`, when
    /// their dates stay within the range of `chrono` and `length` plus that count plus
    /// `extra_blanks` fits; see `due_count`.
    #[verifier::rlimit(60)]
    fn count_due_rows(&self, last0: Date, target: Date, now_time: NaiveTime, extra_blanks: usize) -> (r: Option<usize>)
        requires
            last0 == nth_date(self.frequency, self.start_date, self.parsed_rows(), now_time),
            last0.valid(),
            target.valid(),
            now_time.valid(),
            forall|k: nat|
                k < self.parsed_rows() ==> self.frequency.next_ok(
                    #[trigger] nth_date(self.frequency, self.start_date, k, now_time),
                    now_time,
                ),
        ensures
            r is Some == ({
                &&& exists|b: nat| is_due_count(self.frequency, self.start_date, self.parsed_rows(), target, now_time, b)
                &&& forall|k: nat|
                    k < self.parsed_rows() + due_count(self.frequency, self.start_date, self.parsed_rows(), target, now_time)
                        ==> self.frequency.next_ok(#[trigger] nth_date(self.frequency, self.start_date, k, now_time), now_time)
                &&& self.length + due_count(self.frequency, self.start_date, self.parsed_rows(), target, now_time) + extra_blanks <= usize::MAX
            }),
            r matches Some(n) ==> n == due_count(self.frequency, self.start_date, self.parsed_rows(), target, now_time),
    {
        let ghost f = self.frequency;
        let ghost start = self.start_date;
        let ghost base = self.parsed_rows();
        let zero = match self.frequency {
            Frequency::EveryXMinutes(n) | Frequency::EveryXHours(n) | Frequency::EveryXDays(n)
            | Frequency::EveryXWeeks(n) | Frequency::EveryXMonths(n) | Frequency::EveryXYears(n) => n
                == 0,
        };
        if self.length > usize::MAX - extra_blanks {
            return None;
        }
        let mut last = last0;
        let mut j: usize = 0;
        while !target.is_before(&last)
            invariant
                last == nth_date(f, start, (base + j) as nat, now_time),
                last.valid(),
                target.valid(),
                now_time.valid(),
                f == self.frequency,
                base == self.parsed_rows(),
                start == self.start_date,
                zero == (f.count() == 0),
                forall|kk: nat| kk < base + j ==> f.next_ok(#[trigger] nth_date(f, start, kk, now_time), now_time),
                forall|jj: nat| jj < j ==> !(target.instant() < (#[trigger] nth_date(f, start, base + jj, now_time)).instant()),
                self.length + j + extra_blanks <= usize::MAX,
            decreases (if last.instant() <= target.instant() { target.instant() - last.instant() + 1 } else { 0 }),
        {
            proof {
                assert forall|jj: nat| jj <= j implies !(target.instant() < (#[trigger] nth_date(
                    self.frequency,
                    self.start_date,
                    self.parsed_rows() + jj,
                    now_time,
                )).instant()) by {
                    if jj == j {
                        assert(self.parsed_rows() + jj == (base + j) as nat);
                    } else {
                        assert(!(target.instant() < nth_date(f, start, base + jj, now_time).instant()));
                    }
                }
                if exists|b: nat| is_due_count(f, start, base, target, now_time, b) {
                    self.lemma_due_beyond(target, now_time, j as nat);
                }
            }
            if !self.frequency.next_ok_exec(&last, now_time) {
                return None;
            }
            if self.length + j + extra_blanks == usize::MAX {
                return None;
            }
            last = self.frequency.next_date_at(&last, now_time);
            proof {
                assert((base + j + 1) as nat - 1 == (base + j) as nat);
            }
            if zero {
                if !target.is_before(&last) {
                    proof {
                        assert forall|jj: nat| jj <= j + 1 implies !(target.instant() < (#[trigger] nth_date(
                            self.frequency,
                            self.start_date,
                            self.parsed_rows() + jj,
                            now_time,
                        )).instant()) by {
                            if jj == j + 1 {
                                assert(self.parsed_rows() + jj == (base + j + 1) as nat);
                            } else if jj == j {
                                assert(self.parsed_rows() + jj == (base + j) as nat);
                            } else {
                                assert(!(target.instant() < nth_date(f, start, base + jj, now_time).instant()));
                            }
                        }
                        assert(self.parsed_rows() + j == (base + j) as nat);
                        self.lemma_zero_no_due(target, now_time, j as nat);
                    }
                    return None;
                }
            }
            j = j + 1;
        }
        proof {
            assert(is_due_count(f, start, base, target, now_time, j as nat));
            lemma_due_count_unique(f, start, base, target, now_time, j as nat);
        }
        Some(j)
    }

    /// `self` with `n` blank rows added.
    fn with_blank_rows(&self, n: usize) -> (r: Tracker)
        requires
            self.length + n <= usize::MAX,
        ensures
            r@ == (TrackerView {
                length: (self.length + n) as usize,
                categories: with_blanks(self@.categories, n as nat),
                ..self@
            }),
    {
        let ghost old_cats = self@.categories;
        let mut res = self.duplicate();
        proof {
            assert(with_blanks(old_cats, 0) =~= old_cats) by {
                assert forall|c: int| 0 <= c < old_cats.len() implies with_blanks(old_cats, 0)[c] == old_cats[c] by {
                    assert(old_cats[c].entries + blanks(0) =~= old_cats[c].entries);
                }
            }
        }
        let mut b: usize = 0;
        while b < n
            invariant
                b <= n,
                self.length + n <= usize::MAX,
                res.frequency == self.frequency,
                res.start_date == self.start_date,
                res.length == self.length + b,
                res@.name == self@.name,
                res@.filename == self@.filename,
                res.line_number == self.line_number,
                old_cats == self@.categories,
                res@.categories == with_blanks(old_cats, b as nat),
            decreases n - b,
        {
            let ghost before = res@.categories;
            res.push_blank_row();
            res.length = res.length + 1;
            proof {
                assert forall|c: int| 0 <= c < old_cats.len() implies #[trigger] res@.categories[c] == with_blanks(old_cats, (b + 1) as nat)[c] by {
                    assert(before[c] == with_blanks(old_cats, b as nat)[c]);
                    assert(before[c].entries == old_cats[c].entries + blanks(b as nat));
                    assert(res@.categories[c].entries == before[c].entries.push(EntryView::Blank));
                    assert((old_cats[c].entries + blanks(b as nat)).push(EntryView::Blank) =~= old_cats[c].entries + blanks((b + 1) as nat));
                }
                assert(res@.categories =~= with_blanks(old_cats, (b + 1) as nat));
            }
            b = b + 1;
        }
        res
    }

    /// The tracker with a blank row for each date up to `now` moved `extra_blanks` rows
    /// ahead that has no row yet, then blank rows so that `extra_blanks` rows at its end
    /// are blank; `None` when `blanks_ok` does not hold.
    pub fn add_blanks_at(&self, extra_blanks: usize, now: NaiveDateTime) -> (r: Option<Tracker>)
        requires
            self.start_date.valid(),
            now.valid(),
        ensures
            r is Some == blanks_ok(*self, extra_blanks as nat, now),
            r matches Some(t) ==> blanks_added(*self, t@, extra_blanks as nat, now),
    {
        let ghost extra = extra_blanks as nat;
        let target = match self.target_exec(extra_blanks, now) {
            Some(d) => d,
            None => return None,
        };
        let last = match self.first_free_date(now.time) {
            Some(d) => d,
            None => {
                proof {
                    if blanks_ok(*self, extra, now) {
                        assert forall|k: nat| k < self.parsed_rows() implies self.frequency.next_ok(
                            #[trigger] nth_date(self.frequency, self.start_date, k, now.time),
                            now.time,
                        ) by {
                            assert(k < self.parsed_rows() + due_count(self.frequency, self.start_date, self.parsed_rows(), target, now.time));
                        }
                    }
                }
                return None;
            },
        };
        let b1 = match self.count_due_rows(last, target, now.time, extra_blanks) {
            Some(n) => n,
            None => return None,
        };
        let res = self.with_blank_rows(b1);
        let ghost cats1 = res@.categories;
        let mut t: usize = 0;
        while t < extra_blanks && res.row_blank_from_end_exec(t)
            invariant
                t <= extra_blanks,
                cats1 == res@.categories,
                trailing_blank_rows(cats1, 0, extra_blanks as nat) == t + trailing_blank_rows(cats1, t as nat, extra_blanks as nat),
            decreases extra_blanks - t,
        {
            t = t + 1;
        }
        proof {
            assert(trailing_blank_rows(cats1, t as nat, extra) == 0);
            assert forall|c: int| 0 <= c < self@.categories.len() implies #[trigger] with_blanks(cats1, (extra_blanks - t) as nat)[c]
                == with_blanks(self@.categories, (b1 + extra_blanks - t) as nat)[c] by {
                assert(self@.categories[c].entries + blanks(b1 as nat) + blanks((extra_blanks - t) as nat)
                    =~= self@.categories[c].entries + blanks((b1 + extra_blanks - t) as nat));
            }
            assert(with_blanks(cats1, (extra_blanks - t) as nat) =~= with_blanks(self@.categories, (b1 + extra_blanks - t) as nat));
        }
        let r = res.with_blank_rows(extra_blanks - t);
        Some(r)
    }

    /// The tracker with its blank rows up to the current time, and `tracker_extra_blanks`
    /// blank rows at its end (see `add_blanks_at`); the current time is the UTC time of
    /// the system clock.
    pub fn add_blanks(&self, config: &TasksConfig) -> (r: Option<Tracker>)
        requires
            self.start_date.valid(),
        ensures
            r matches Some(t) ==> exists|now: NaiveDateTime|
                now.valid() && blanks_ok(*self, config.tracker_extra_blanks as nat, now)
                    && blanks_added(*self, t@, config.tracker_extra_blanks as nat, now),
            r is None ==> exists|now: NaiveDateTime|
                now.valid() && !blanks_ok(*self, config.tracker_extra_blanks as nat, now),
    {
        self.add_blanks_at(config.tracker_extra_blanks, crate::date::utc_now())
    }
}

} // verus!
