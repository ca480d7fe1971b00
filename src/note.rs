//! Notes: one per heading found in a file, with the errors that stop
//! extraction.

use vstd::prelude::*;
use crate::date::{date_timestamp, is_valid_date, month_number, month_of, note_timestamp};
use crate::heading::{digit_value, find_headings, heading_line, heading_views, headings_of, lemma_heading_round_trip, lemma_two_headings, well_formed_parts, HeadingView};

verus! {

/// A heading found in a file.
#[derive(Debug)]
pub struct Note {
    /// The file the heading was found in.
    pub path: String,
    /// Its line in that file, counted from 1.
    pub line: usize,
    /// Seconds since 1970-01-01T00:00:00Z of its date, at the fixed time of
    /// day.
    pub timestamp: i64,
    pub title: String,
}

pub struct NoteView {
    pub path: Seq<char>,
    pub line: int,
    pub timestamp: int,
    pub title: Seq<char>,
}

impl View for Note {
    type V = NoteView;

    open spec fn view(&self) -> NoteView {
        NoteView {
            path: self.path@,
            line: self.line as int,
            timestamp: self.timestamp as int,
            title: self.title@,
        }
    }
}

/// Why extraction stopped.
#[derive(Debug)]
pub enum HeadingError {
    /// A heading names a month that is not one of `Jan` to `Dec`.
    InvalidMonth { token: String, line: String },
    /// A heading names a day that its month and year do not have.
    InvalidDate { year: u32, month: u32, day: u32, line: String },
}

pub enum HeadingErrorView {
    InvalidMonth { token: Seq<char>, line: Seq<char> },
    InvalidDate { year: int, month: int, day: int, line: Seq<char> },
}

impl View for HeadingError {
    type V = HeadingErrorView;

    open spec fn view(&self) -> HeadingErrorView {
        match self {
            HeadingError::InvalidMonth { token, line } => HeadingErrorView::InvalidMonth {
                token: token@,
                line: line@,
            },
            HeadingError::InvalidDate { year, month, day, line } => HeadingErrorView::InvalidDate {
                year: *year as int,
                month: *month as int,
                day: *day as int,
                line: line@,
            },
        }
    }
}

/// The views of a sequence of notes.
pub open spec fn note_views(s: Seq<Note>) -> Seq<NoteView> {
    s.map_values(|n: Note| n@)
}

/// The views of a sequence of lines.
pub open spec fn line_views(s: Seq<String>) -> Seq<Seq<char>> {
    s.map_values(|l: String| l@)
}

/// The note of heading `h`, found on line number `nr` of file `path`, which
/// holds `line`; or the error that stops extraction.
pub open spec fn heading_note(path: Seq<char>, nr: int, line: Seq<char>, h: HeadingView) -> Result<
    NoteView,
    HeadingErrorView,
> {
    match month_of(h.month) {
        None => Err(HeadingErrorView::InvalidMonth { token: h.month, line }),
        Some(m) => if is_valid_date(h.year, m as int, h.day) {
            Ok(
                NoteView {
                    path,
                    line: nr,
                    timestamp: note_timestamp(h.year, m as int, h.day),
                    title: h.title,
                },
            )
        } else {
            Err(HeadingErrorView::InvalidDate { year: h.year, month: m as int, day: h.day, line })
        },
    }
}

/// The notes of the headings `hs` of that line, in order, or the error of
/// the first heading that has one.
pub open spec fn headings_notes(
    path: Seq<char>,
    nr: int,
    line: Seq<char>,
    hs: Seq<HeadingView>,
) -> Result<Seq<NoteView>, HeadingErrorView>
    decreases hs.len(),
{
    if hs.len() == 0 {
        Ok(Seq::empty())
    } else {
        match headings_notes(path, nr, line, hs.drop_last()) {
            Err(e) => Err(e),
            Ok(ns) => match heading_note(path, nr, line, hs.last()) {
                Err(e) => Err(e),
                Ok(n) => Ok(ns.push(n)),
            },
        }
    }
}

/// What line number `nr` of file `path`, holding `line`, contributes: one
/// note per heading, left to right, or the error that stops extraction.
pub open spec fn line_notes(path: Seq<char>, nr: int, line: Seq<char>) -> Result<
    Seq<NoteView>,
    HeadingErrorView,
> {
    headings_notes(path, nr, line, headings_of(line))
}

/// The notes of a file `path` whose lines are `lines`, in line order, or the
/// error of the first line that has one.
pub open spec fn file_notes(path: Seq<char>, lines: Seq<Seq<char>>) -> Result<
    Seq<NoteView>,
    HeadingErrorView,
>
    decreases lines.len(),
{
    if lines.len() == 0 {
        Ok(Seq::empty())
    } else {
        match file_notes(path, lines.drop_last()) {
            Err(e) => Err(e),
            Ok(ns) => match line_notes(path, lines.len() as int, lines.last()) {
                Err(e) => Err(e),
                Ok(ls) => Ok(ns + ls),
            },
        }
    }
}

/// An error in the first `k` lines is the error of the whole file.
proof fn lemma_error_stops(path: Seq<char>, lines: Seq<Seq<char>>, k: int)
    requires
        0 <= k <= lines.len(),
        file_notes(path, lines.subrange(0, k)) is Err,
    ensures
        file_notes(path, lines) == file_notes(path, lines.subrange(0, k)),
    decreases lines.len() - k,
{
    if k < lines.len() {
        let next = lines.subrange(0, k + 1);
        assert(next.drop_last() =~= lines.subrange(0, k));
        lemma_error_stops(path, lines, k + 1);
    } else {
        assert(lines.subrange(0, k) =~= lines);
    }
}

/// An error among the first `k` headings is the error of the whole line.
proof fn lemma_heading_error_stops(
    path: Seq<char>,
    nr: int,
    line: Seq<char>,
    hs: Seq<HeadingView>,
    k: int,
)
    requires
        0 <= k <= hs.len(),
        headings_notes(path, nr, line, hs.subrange(0, k)) is Err,
    ensures
        headings_notes(path, nr, line, hs) == headings_notes(path, nr, line, hs.subrange(0, k)),
    decreases hs.len() - k,
{
    if k < hs.len() {
        let next = hs.subrange(0, k + 1);
        assert(next.drop_last() =~= hs.subrange(0, k));
        lemma_heading_error_stops(path, nr, line, hs, k + 1);
    } else {
        assert(hs.subrange(0, k) =~= hs);
    }
}

/// The notes of line number `nr` of file `path`: one per heading of the
/// line, left to right. The first heading with an unknown month or a date
/// that does not exist stops extraction with its error.
pub fn extract_line(path: &str, nr: usize, line: &str) -> (r: Result<Vec<Note>, HeadingError>)
    requires
        nr >= 1,
    ensures
        match (r, line_notes(path@, nr as int, line@)) {
            (Ok(ns), Ok(vs)) => note_views(ns@) == vs,
            (Err(e), Err(v)) => e@ == v,
            _ => false,
        },
{
    let hs = find_headings(line);
    let ghost hv = heading_views(hs@);
    let mut notes: Vec<Note> = Vec::new();
    let mut k: usize = 0;
    assert(hv.subrange(0, 0) =~= Seq::empty());
    assert(note_views(notes@) =~= Seq::empty());
    while k < hs.len()
        invariant
            hv == heading_views(hs@),
            hv == headings_of(line@),
            k <= hs@.len(),
            forall|j: int| 0 <= j < hs@.len() ==> (#[trigger] hs@[j]).year <= 9999 && hs@[j].day <= 99,
            headings_notes(path@, nr as int, line@, hv.subrange(0, k as int)) == Ok::<
                Seq<NoteView>,
                HeadingErrorView,
            >(note_views(notes@)),
        decreases hs@.len() - k,
    {
        let h = &hs[k];
        assert(hv[k as int] == h@);
        let ghost pre = hv.subrange(0, k as int + 1);
        assert(pre.drop_last() =~= hv.subrange(0, k as int));
        let month = match month_number(h.month.as_str()) {
            None => {
                proof {
                    lemma_heading_error_stops(path@, nr as int, line@, hv, k as int + 1);
                }
                return Err(HeadingError::InvalidMonth { token: h.month.clone(), line: line.to_owned() });
            },
            Some(m) => m,
        };
        match date_timestamp(h.year, month, h.day) {
            None => {
                proof {
                    lemma_heading_error_stops(path@, nr as int, line@, hv, k as int + 1);
                }
                return Err(
                    HeadingError::InvalidDate { year: h.year, month, day: h.day, line: line.to_owned() },
                );
            },
            Some(t) => {
                let n = Note { path: path.to_owned(), line: nr, timestamp: t, title: h.title.clone() };
                let ghost old_notes = notes@;
                let ghost nv = n@;
                notes.push(n);
                assert(note_views(notes@) =~= note_views(old_notes).push(nv));
            },
        }
        k = k + 1;
    }
    assert(hv.subrange(0, k as int) =~= hv);
    Ok(notes)
}

/// The notes of file `path`, whose lines are `lines`: one per heading, in
/// line order and left to right within a line, lines counted from 1. The
/// first heading with an unknown month or a date that does not exist stops
/// extraction with its error.
pub fn extract_notes(path: &str, lines: &Vec<String>) -> (r: Result<Vec<Note>, HeadingError>)
    ensures
        match (r, file_notes(path@, line_views(lines@))) {
            (Ok(ns), Ok(vs)) => note_views(ns@) == vs,
            (Err(e), Err(v)) => e@ == v,
            _ => false,
        },
{
    let mut notes: Vec<Note> = Vec::new();
    let mut i: usize = 0;
    assert(line_views(lines@).subrange(0, 0) =~= Seq::empty());
    assert(note_views(notes@) =~= Seq::empty());
    while i < lines.len()
        invariant
            i <= lines@.len(),
            file_notes(path@, line_views(lines@).subrange(0, i as int)) == Ok::<
                Seq<NoteView>,
                HeadingErrorView,
            >(note_views(notes@)),
        decreases lines@.len() - i,
    {
        let ghost prefix = line_views(lines@).subrange(0, i as int + 1);
        let ghost old_notes = notes@;
        assert(prefix.drop_last() =~= line_views(lines@).subrange(0, i as int));
        match extract_line(path, i + 1, lines[i].as_str()) {
            Err(e) => {
                proof {
                    lemma_error_stops(path@, line_views(lines@), i as int + 1);
                }
                return Err(e);
            },
            Ok(ns) => {
                let mut ns = ns;
                let ghost added = note_views(ns@);
                notes.append(&mut ns);
                assert(note_views(notes@) =~= note_views(old_notes) + added);
            },
        }
        i = i + 1;
    }
    assert(line_views(lines@).subrange(0, i as int) =~= line_views(lines@));
    Ok(notes)
}

/// The note that a heading with a known month and a date that exists gives.
pub open spec fn expected_note(
    path: Seq<char>,
    nr: int,
    day: Seq<char>,
    month: Seq<char>,
    year: Seq<char>,
    title: Seq<char>,
) -> NoteView {
    NoteView {
        path,
        line: nr,
        timestamp: note_timestamp(
            1000 * digit_value(year[0]) + 100 * digit_value(year[1]) + 10 * digit_value(year[2])
                + digit_value(year[3]),
            month_of(month)->0 as int,
            10 * digit_value(day[0]) + digit_value(day[1]),
        ),
        title,
    }
}

/// The day, month and year of a heading name a month and a date that exist.
pub open spec fn known_date(day: Seq<char>, month: Seq<char>, year: Seq<char>) -> bool {
    &&& month_of(month) is Some
    &&& is_valid_date(
        1000 * digit_value(year[0]) + 100 * digit_value(year[1]) + 10 * digit_value(year[2])
            + digit_value(year[3]),
        month_of(month)->0 as int,
        10 * digit_value(day[0]) + digit_value(day[1]),
    )
}

/// A line written as a heading with a known month and a date that exists
/// gives exactly one note: at that line, with the title as written and the
/// timestamp of that date at the fixed time of day.
pub proof fn lemma_heading_gives_note(
    path: Seq<char>,
    nr: int,
    hashes: nat,
    lead: nat,
    weekday: Seq<char>,
    day: Seq<char>,
    month: Seq<char>,
    year: Seq<char>,
    gap: nat,
    title: Seq<char>,
)
    requires
        well_formed_parts(hashes, lead, weekday, day, month, year, gap, title),
        known_date(day, month, year),
    ensures
        line_notes(path, nr, heading_line(hashes, lead, weekday, day, month, year, gap, title))
            == Ok::<Seq<NoteView>, HeadingErrorView>(
            seq![expected_note(path, nr, day, month, year, title)],
        ),
{
    lemma_heading_round_trip(hashes, lead, weekday, day, month, year, gap, title);
    let hs = headings_of(heading_line(hashes, lead, weekday, day, month, year, gap, title));
    let line = heading_line(hashes, lead, weekday, day, month, year, gap, title);
    assert(hs.drop_last() =~= Seq::<HeadingView>::empty());
    assert(headings_notes(path, nr, line, hs.drop_last()) == Ok::<Seq<NoteView>, HeadingErrorView>(
        Seq::empty(),
    ));
    assert(Seq::<NoteView>::empty().push(expected_note(path, nr, day, month, year, title))
        =~= seq![expected_note(path, nr, day, month, year, title)]);
}

/// A line holding two headings, one after the other, each with a known
/// month and a date that exists, gives two notes, left to right, both at
/// that line.
pub proof fn lemma_two_headings_two_notes(
    path: Seq<char>,
    nr: int,
    hashes1: nat,
    lead1: nat,
    weekday1: Seq<char>,
    day1: Seq<char>,
    month1: Seq<char>,
    year1: Seq<char>,
    gap1: nat,
    title1: Seq<char>,
    hashes2: nat,
    lead2: nat,
    weekday2: Seq<char>,
    day2: Seq<char>,
    month2: Seq<char>,
    year2: Seq<char>,
    gap2: nat,
    title2: Seq<char>,
)
    requires
        well_formed_parts(hashes1, lead1, weekday1, day1, month1, year1, gap1, title1),
        well_formed_parts(hashes2, lead2, weekday2, day2, month2, year2, gap2, title2),
        known_date(day1, month1, year1),
        known_date(day2, month2, year2),
    ensures
        line_notes(
            path,
            nr,
            heading_line(hashes1, lead1, weekday1, day1, month1, year1, gap1, title1)
                + heading_line(hashes2, lead2, weekday2, day2, month2, year2, gap2, title2),
        ) == Ok::<Seq<NoteView>, HeadingErrorView>(
            seq![
                expected_note(path, nr, day1, month1, year1, title1),
                expected_note(path, nr, day2, month2, year2, title2),
            ],
        ),
{
    lemma_two_headings(
        hashes1,
        lead1,
        weekday1,
        day1,
        month1,
        year1,
        gap1,
        title1,
        hashes2,
        lead2,
        weekday2,
        day2,
        month2,
        year2,
        gap2,
        title2,
    );
    let line = heading_line(hashes1, lead1, weekday1, day1, month1, year1, gap1, title1)
        + heading_line(hashes2, lead2, weekday2, day2, month2, year2, gap2, title2);
    let hs = headings_of(line);
    let n1 = expected_note(path, nr, day1, month1, year1, title1);
    let n2 = expected_note(path, nr, day2, month2, year2, title2);
    assert(hs.drop_last().drop_last() =~= Seq::<HeadingView>::empty());
    assert(headings_notes(path, nr, line, hs.drop_last().drop_last()) == Ok::<
        Seq<NoteView>,
        HeadingErrorView,
    >(Seq::empty()));
    assert(headings_notes(path, nr, line, hs.drop_last()) == Ok::<Seq<NoteView>, HeadingErrorView>(
        Seq::<NoteView>::empty().push(n1),
    ));
    assert(Seq::<NoteView>::empty().push(n1).push(n2) =~= seq![n1, n2]);
}

/// A file none of whose lines holds a heading has no note, and no error.
pub proof fn lemma_no_heading_no_notes(path: Seq<char>, lines: Seq<Seq<char>>)
    requires
        forall|i: int| 0 <= i < lines.len() ==> headings_of(#[trigger] lines[i]).len() == 0,
    ensures
        file_notes(path, lines) == Ok::<Seq<NoteView>, HeadingErrorView>(Seq::empty()),
    decreases lines.len(),
{
    if lines.len() > 0 {
        let d = lines.drop_last();
        assert forall|i: int| 0 <= i < d.len() implies headings_of(#[trigger] d[i]).len() == 0 by {
            assert(d[i] == lines[i]);
        }
        lemma_no_heading_no_notes(path, d);
        assert(headings_of(lines[lines.len() - 1]).len() == 0);
        let ns = Seq::<NoteView>::empty();
        assert(ns + Seq::<NoteView>::empty() =~= ns);
    }
}

} // verus!
