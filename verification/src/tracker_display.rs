//! How a tracker is written back: its definition line, then a Markdown table with a
//! header row (the frequency and the category names) and one row per date.
use vstd::prelude::*;
use crate::date::{now, Date, NaiveTime};
use crate::task::strings_view;
use crate::text::{push_char, push_str};
use crate::tracker::{entry_text, nth_date, Tracker, TrackerView};

verus! {

/// The Markdown table that `tabled` writes for the rows `rows`, the first one as the
/// header.
pub uninterp spec fn markdown_table(rows: Seq<Seq<Seq<char>>>) -> Seq<char>;

/// The rows of a table as text.
pub open spec fn rows_view(rows: Seq<Vec<String>>) -> Seq<Seq<Seq<char>>> {
    rows.map_values(|r: Vec<String>| strings_view(r@))
}

/// Builds a table from the rows with `tabled::builder::Builder::from`, gives it
/// `tabled::settings::Style::markdown()` and writes it out. The text is named, not
/// stated: it depends on the rows alone.
#[verifier::external_body]
fn render_markdown_table(rows: Vec<Vec<String>>) -> (r: String)
    ensures
        r@ == markdown_table(rows_view(rows@)),
{
    let mut table = tabled::builder::Builder::from(rows).build();
    table.with(tabled::settings::Style::markdown());
    table.to_string()
}

/// How a row date is written: as `Display` writes it when `display`, else in the task
/// format (`%d/%m/%Y`, or `%Y/%m/%d` in american format).
pub open spec fn row_date_text(d: Date, display: bool, american: bool) -> Seq<char> {
    if display {
        d.display_text()
    } else {
        d.string_format(!american)
    }
}

/// The header row: the frequency, then the name of each category.
pub open spec fn header_row(t: TrackerView) -> Seq<Seq<char>> {
    seq![t.frequency.text()] + t.categories.map_values(|c: crate::tracker::CategoryView| c.name)
}

/// Row `n` of the table: the date of the row, then the cell of each category.
pub open spec fn data_row(t: TrackerView, n: int, display: bool, american: bool, now_time: NaiveTime) -> Seq<
    Seq<char>,
> {
    seq![row_date_text(nth_date(t.frequency, t.start_date, n as nat, now_time), display, american)]
        + t.categories.map_values(|c: crate::tracker::CategoryView| entry_text(c.entries[n]))
}

/// The rows of the table of the tracker `t`: the header row, then the `length` rows.
pub open spec fn table_rows(t: TrackerView, display: bool, american: bool, now_time: NaiveTime) -> Seq<
    Seq<Seq<char>>,
> {
    seq![header_row(t)] + Seq::new(
        t.length as nat,
        |n: int| data_row(t, n, display, american, now_time),
    )
}

/// Whether the table of `t` can be written: each category holds a cell for each row,
/// and the date after each row stays within the range of `chrono`.
pub open spec fn table_writable(t: Tracker, now_time: NaiveTime) -> bool {
    &&& t.start_date.valid()
    &&& now_time.valid()
    &&& forall|i: int|
        0 <= i < t.categories@.len() ==> (#[trigger] t.categories@[i]).entries@.len() >= t.length
    &&& forall|k: nat|
        k < t.length ==> t.frequency.next_ok(
            #[trigger] nth_date(t.frequency, t.start_date, k, now_time),
            now_time,
        )
}

/// The definition line and the table, as the tracker is written in its file.
pub open spec fn tracker_text(t: TrackerView, american: bool, now_time: NaiveTime) -> Seq<char> {
    "Tracker: "@ + t.name + " ("@ + t.start_date.string_format(!american) + ")\n"@ + "\n"@
        + markdown_table(table_rows(t, false, american, now_time))
}

/// The tracker as `Display` writes it.
pub open spec fn tracker_display_text(t: TrackerView, now_time: NaiveTime) -> Seq<char> {
    "Tracker: "@ + t.name + " ("@ + t.start_date.display_text() + ")\n\n"@ + markdown_table(
        table_rows(t, true, false, now_time),
    )
}

impl Tracker {
    /// The rows of the table of the tracker; see `table_rows`.
    fn table_rows_exec(&self, display: bool, american: bool, now_time: NaiveTime) -> (r: Vec<
        Vec<String>,
    >)
        requires
            table_writable(*self, now_time),
        ensures
            rows_view(r@) == table_rows(self@, display, american, now_time),
    {
        let ghost tv = self@;
        let mut rows: Vec<Vec<String>> = Vec::new();
        let mut header: Vec<String> = Vec::new();
        header.push(self.frequency.to_string());
        let mut i: usize = 0;
        while i < self.categories.len()
            invariant
                i <= self.categories@.len(),
                strings_view(header@) == seq![self.frequency.text()] + tv.categories.take(
                    i as int,
                ).map_values(|c: crate::tracker::CategoryView| c.name),
                tv == self@,
            decreases self.categories@.len() - i,
        {
            let ghost before = strings_view(header@);
            header.push(self.categories[i].name.clone());
            proof {
                assert(tv.categories.take(i + 1) =~= tv.categories.take(i as int).push(
                    tv.categories[i as int],
                ));
                assert(strings_view(header@) =~= before.push(self.categories@[i as int].name@));
                assert(tv.categories[i as int].name == self.categories@[i as int].name@);
                assert(seq![self.frequency.text()] + tv.categories.take(i + 1).map_values(
                    |c: crate::tracker::CategoryView| c.name,
                ) =~= before.push(tv.categories[i as int].name));
            }
            i = i + 1;
        }
        proof {
            assert(tv.categories.take(tv.categories.len() as int) =~= tv.categories);
            assert(strings_view(header@) == header_row(tv));
        }
        rows.push(header);
        proof {
            assert(rows_view(rows@) =~= seq![header_row(tv)]);
        }
        let mut date = self.start_date;
        let mut n: usize = 0;
        while n < self.length
            invariant
                n <= self.length,
                tv == self@,
                table_writable(*self, now_time),
                date == nth_date(self.frequency, self.start_date, n as nat, now_time),
                date.valid(),
                rows_view(rows@) == seq![header_row(tv)] + Seq::new(
                    n as nat,
                    |k: int| data_row(tv, k, display, american, now_time),
                ),
            decreases self.length - n,
        {
            let mut row: Vec<String> = Vec::new();
            if display {
                row.push(date.to_display_string());
            } else {
                row.push(date.to_string_format(!american));
            }
            let mut j: usize = 0;
            while j < self.categories.len()
                invariant
                    j <= self.categories@.len(),
                    n < self.length,
                    tv == self@,
                    table_writable(*self, now_time),
                    strings_view(row@) == seq![
                        row_date_text(
                            nth_date(self.frequency, self.start_date, n as nat, now_time),
                            display,
                            american,
                        ),
                    ] + tv.categories.take(j as int).map_values(
                        |c: crate::tracker::CategoryView| entry_text(c.entries[n as int]),
                    ),
                decreases self.categories@.len() - j,
            {
                assert(self.categories@[j as int].entries@.len() >= self.length);
                let ghost before = strings_view(row@);
                row.push(self.categories[j].entries[n].to_string());
                proof {
                    assert(tv.categories.take(j + 1) =~= tv.categories.take(j as int).push(
                        tv.categories[j as int],
                    ));
                    assert(tv.categories[j as int].entries[n as int] == self.categories@[j as int].entries@[n as int]@);
                    assert(strings_view(row@) =~= before.push(
                        entry_text(tv.categories[j as int].entries[n as int]),
                    ));
                }
                j = j + 1;
            }
            proof {
                assert(tv.categories.take(tv.categories.len() as int) =~= tv.categories);
                assert(strings_view(row@) == data_row(tv, n as int, display, american, now_time));
            }
            let ghost before_rows = rows_view(rows@);
            rows.push(row);
            proof {
                assert(rows_view(rows@) =~= before_rows.push(data_row(tv, n as int, display, american, now_time)));
                assert(seq![header_row(tv)] + Seq::new(
                    (n + 1) as nat,
                    |k: int| data_row(tv, k, display, american, now_time),
                ) =~= before_rows.push(data_row(tv, n as int, display, american, now_time)));
            }
            assert(self.frequency.next_ok(nth_date(self.frequency, self.start_date, n as nat, now_time), now_time));
            date = self.frequency.next_date_at(&date, now_time);
            proof {
                assert((n + 1) as nat - 1 == n as nat);
            }
            n = n + 1;
        }
        rows
    }

    /// The tracker as it is written in its file: the definition line, an empty line,
    /// and the table; see `tracker_text`.
    pub fn fmt_at(&self, american_format: bool, now_time: NaiveTime) -> (r: String)
        requires
            table_writable(*self, now_time),
        ensures
            r@ == tracker_text(self@, american_format, now_time),
    {
        let rows = self.table_rows_exec(false, american_format, now_time);
        let table = render_markdown_table(rows);
        let mut s = String::new();
        push_str(&mut s, "Tracker: ");
        push_str(&mut s, self.name.as_str());
        push_str(&mut s, " (");
        push_str(&mut s, self.start_date.to_string_format(!american_format).as_str());
        push_str(&mut s, ")\n");
        push_char(&mut s, '\n');
        push_str(&mut s, table.as_str());
        proof {
            reveal_strlit("\n");
            assert("\n"@ =~= seq!['\n']);
        }
        s
    }

    /// The tracker as `Display` writes it; see `tracker_display_text`.
    pub fn to_string_at(&self, now_time: NaiveTime) -> (r: String)
        requires
            table_writable(*self, now_time),
        ensures
            r@ == tracker_display_text(self@, now_time),
    {
        let rows = self.table_rows_exec(true, false, now_time);
        let table = render_markdown_table(rows);
        let mut s = String::new();
        push_str(&mut s, "Tracker: ");
        push_str(&mut s, self.name.as_str());
        push_str(&mut s, " (");
        push_str(&mut s, self.start_date.to_display_string().as_str());
        push_str(&mut s, ")\n\n");
        push_str(&mut s, table.as_str());
        s
    }
}

impl Tracker {
    /// Whether the table of the tracker can be written with `now_time` as the time of
    /// day; see `table_writable`.
    pub fn table_writable_exec(&self, now_time: NaiveTime) -> (r: bool)
        requires
            self.start_date.valid(),
            now_time.valid(),
        ensures
            r == table_writable(*self, now_time),
    {
        let mut i: usize = 0;
        while i < self.categories.len()
            invariant
                i <= self.categories@.len(),
                forall|k: int| 0 <= k < i ==> (#[trigger] self.categories@[k]).entries@.len() >= self.length,
            decreases self.categories@.len() - i,
        {
            if self.categories[i].entries.len() < self.length {
                return false;
            }
            i = i + 1;
        }
        let mut date = self.start_date;
        let mut n: usize = 0;
        while n < self.length
            invariant
                n <= self.length,
                date == nth_date(self.frequency, self.start_date, n as nat, now_time),
                date.valid(),
                now_time.valid(),
                forall|k: nat| k < n ==> self.frequency.next_ok(
                    #[trigger] nth_date(self.frequency, self.start_date, k, now_time),
                    now_time,
                ),
            decreases self.length - n,
        {
            if !self.frequency.next_ok_exec(&date, now_time) {
                return false;
            }
            date = self.frequency.next_date_at(&date, now_time);
            proof {
                assert((n + 1) as nat - 1 == n as nat);
            }
            n = n + 1;
        }
        true
    }

    /// The tracker as it is written in its file, with the local time of day for the
    /// dates of a period in minutes or hours that starts on a whole day; `None` when
    /// the table cannot be written (see `table_writable`).
    pub fn fmt(&self, american_format: bool) -> (r: Option<String>)
        requires
            self.start_date.valid(),
        ensures
            r matches Some(s) ==> exists|t: NaiveTime|
                table_writable(*self, t) && s@ == tracker_text(self@, american_format, t),
            r is None ==> exists|t: NaiveTime| t.valid() && !table_writable(*self, t),
    {
        let t = now().time;
        if self.table_writable_exec(t) {
            Some(self.fmt_at(american_format, t))
        } else {
            None
        }
    }

    /// The tracker as `Display` writes it, with the local time of day as in `fmt`;
    /// `None` when the table cannot be written.
    pub fn to_string(&self) -> (r: Option<String>)
        requires
            self.start_date.valid(),
        ensures
            r matches Some(s) ==> exists|t: NaiveTime|
                table_writable(*self, t) && s@ == tracker_display_text(self@, t),
            r is None ==> exists|t: NaiveTime| t.valid() && !table_writable(*self, t),
    {
        let t = now().time;
        if self.table_writable_exec(t) {
            Some(self.to_string_at(t))
        } else {
            None
        }
    }
}

/// The lines `lines` once the lines `new` are written from line `at` on: each new line
/// replaces the line at its place, or is added at the end when the file is shorter.
pub open spec fn overlay(lines: Seq<Seq<char>>, new: Seq<Seq<char>>, at: nat) -> Seq<Seq<char>>
    decreases new.len(),
{
    if new.len() == 0 {
        lines
    } else {
        let l = overlay(lines, new.drop_last(), at);
        let n = new.len() - 1;
        if l.len() <= at + n {
            l.push(new.last())
        } else {
            l.update(at + n, new.last())
        }
    }
}

/// The content of a file once the tracker text `text` is written over it from line
/// `line_number` on (counted from 0); see `overlay`.
pub open spec fn fixed_tracker_content(content: Seq<char>, text: Seq<char>, line_number: nat) -> Seq<char> {
    crate::text::join(
        overlay(
            crate::file_parser::split_lines(content),
            crate::file_parser::split_lines(text),
            line_number,
        ),
        seq!['\n'],
    )
}

/// Writes the text `text` of a tracker over the content `content` of its file, from
/// line `line_number` on; see `fixed_tracker_content`.
pub fn fix_tracker_content(content: &str, text: &str, line_number: usize) -> (r: String)
    ensures
        r@ == fixed_tracker_content(content@, text@, line_number as nat),
{
    let mut lines = crate::rewrite::lines_of(content);
    let new_lines = crate::rewrite::lines_of(text);
    let ghost base = strings_view(lines@);
    let mut n: usize = 0;
    proof {
        assert(strings_view(new_lines@).take(0) =~= Seq::<Seq<char>>::empty());
    }
    while n < new_lines.len()
        invariant
            n <= new_lines@.len(),
            base == crate::file_parser::split_lines(content@),
            strings_view(new_lines@) == crate::file_parser::split_lines(text@),
            strings_view(lines@) == overlay(base, strings_view(new_lines@).take(n as int), line_number as nat),
        decreases new_lines@.len() - n,
    {
        let ghost nv = strings_view(new_lines@);
        proof {
            assert(nv.take(n + 1).drop_last() =~= nv.take(n as int));
            assert(nv.take(n + 1).last() == new_lines@[n as int]@);
        }
        let ghost before = strings_view(lines@);
        if lines.len() <= line_number || lines.len() - line_number <= n {
            lines.push(new_lines[n].clone());
            proof {
                assert(strings_view(lines@) =~= before.push(new_lines@[n as int]@));
            }
        } else {
            lines.set(line_number + n, new_lines[n].clone());
            proof {
                assert(strings_view(lines@) =~= before.update(line_number + n, new_lines@[n as int]@));
            }
        }
        n = n + 1;
    }
    proof {
        assert(strings_view(new_lines@).take(new_lines@.len() as int) =~= strings_view(new_lines@));
    }
    crate::rewrite::join_lines(&lines)
}

} // verus!
