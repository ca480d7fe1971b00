//! The heading grammar.
//!
//! A heading is one or more `#`, one or more spaces, a three-letter weekday,
//! a space, a two-digit day, a space, a three-letter month, a space, a
//! four-digit year, one or more spaces and then the title, which runs to the
//! start of the next heading on the line, or to the end of the line. Headings
//! are searched for from left to right: the first starts at the leftmost
//! position where one can start, and each next one at the leftmost position
//! after the start of the previous one's title.

use vstd::prelude::*;

verus! {

pub open spec fn is_alpha(c: char) -> bool {
    ('a' <= c && c <= 'z') || ('A' <= c && c <= 'Z')
}

pub open spec fn is_digit(c: char) -> bool {
    '0' <= c && c <= '9'
}

pub open spec fn digit_value(c: char) -> int {
    c as int - '0' as int
}

/// The end of the run of `c` that starts at `i`.
pub open spec fn run_end(s: Seq<char>, i: int, c: char) -> int
    decreases s.len() - i,
{
    if 0 <= i < s.len() && s[i] == c {
        run_end(s, i + 1, c)
    } else {
        i
    }
}

/// Where the weekday of a heading that starts at `p` would stand.
pub open spec fn date_start(s: Seq<char>, p: int) -> int {
    run_end(s, run_end(s, p, '#'), ' ')
}

/// `Www DD Mmm YYYY ` stands at `q`.
pub open spec fn date_layout_at(s: Seq<char>, q: int) -> bool {
    &&& 0 <= q
    &&& q + 16 <= s.len()
    &&& is_alpha(s[q]) && is_alpha(s[q + 1]) && is_alpha(s[q + 2])
    &&& s[q + 3] == ' '
    &&& is_digit(s[q + 4]) && is_digit(s[q + 5])
    &&& s[q + 6] == ' '
    &&& is_alpha(s[q + 7]) && is_alpha(s[q + 8]) && is_alpha(s[q + 9])
    &&& s[q + 10] == ' '
    &&& is_digit(s[q + 11]) && is_digit(s[q + 12]) && is_digit(s[q + 13]) && is_digit(s[q + 14])
    &&& s[q + 15] == ' '
}

/// A heading starts at position `p` of `s`.
pub open spec fn heading_at(s: Seq<char>, p: int) -> bool {
    &&& 0 <= p < s.len()
    &&& s[p] == '#'
    &&& date_start(s, p) > run_end(s, p, '#')
    &&& date_layout_at(s, date_start(s, p))
}

/// The leftmost position at or after `i` where a heading starts.
pub open spec fn first_heading_from(s: Seq<char>, i: int) -> Option<int>
    decreases s.len() - i,
{
    if i < 0 || i >= s.len() {
        None
    } else if heading_at(s, i) {
        Some(i)
    } else {
        first_heading_from(s, i + 1)
    }
}

/// The parts of a heading, as found in a line.
#[derive(Debug)]
pub struct Heading {
    /// Where the heading starts in the line, counted in characters.
    pub start: usize,
    pub day: u32,
    /// The three-letter month token, as written.
    pub month: String,
    pub year: u32,
    /// What follows the spaces after the year, up to the next heading or
    /// the end of the line.
    pub title: String,
}

pub struct HeadingView {
    pub start: int,
    pub day: int,
    pub month: Seq<char>,
    pub year: int,
    pub title: Seq<char>,
}

impl View for Heading {
    type V = HeadingView;

    open spec fn view(&self) -> HeadingView {
        HeadingView {
            start: self.start as int,
            day: self.day as int,
            month: self.month@,
            year: self.year as int,
            title: self.title@,
        }
    }
}


/// Where the title of the heading that starts at `p` begins.
pub open spec fn title_start(s: Seq<char>, p: int) -> int {
    run_end(s, date_start(s, p) + 15, ' ')
}

/// Where the title of the heading that starts at `p` ends: at the start of
/// the next heading, or at the end of the line.
pub open spec fn title_end(s: Seq<char>, p: int) -> int {
    match first_heading_from(s, title_start(s, p)) {
        Some(n) => n,
        None => s.len() as int,
    }
}

/// The parts of the heading that starts at `p`.
pub open spec fn heading_parts(s: Seq<char>, p: int) -> HeadingView {
    let q = date_start(s, p);
    HeadingView {
        start: p,
        day: 10 * digit_value(s[q + 4]) + digit_value(s[q + 5]),
        month: s.subrange(q + 7, q + 10),
        year: 1000 * digit_value(s[q + 11]) + 100 * digit_value(s[q + 12]) + 10 * digit_value(
            s[q + 13],
        ) + digit_value(s[q + 14]),
        title: s.subrange(title_start(s, p), title_end(s, p)),
    }
}

/// The headings found from position `i` on, left to right.
pub open spec fn headings_from(s: Seq<char>, i: int) -> Seq<HeadingView>
    decreases s.len() - i,
    via headings_from_decreases
{
    match first_heading_from(s, i) {
        Some(p) => seq![heading_parts(s, p)] + headings_from(s, title_start(s, p)),
        None => Seq::empty(),
    }
}

#[via_fn]
proof fn headings_from_decreases(s: Seq<char>, i: int) {
    if first_heading_from(s, i) is Some {
        lemma_first_heading(s, i);
        lemma_title_start_after(s, first_heading_from(s, i)->0);
    }
}

/// The headings of a line, left to right.
pub open spec fn headings_of(s: Seq<char>) -> Seq<HeadingView> {
    headings_from(s, 0)
}

/// The views of a sequence of headings.
pub open spec fn heading_views(s: Seq<Heading>) -> Seq<HeadingView> {
    s.map_values(|h: Heading| h@)
}

/// The characters of `s`, in order.
pub fn chars_of(s: &str) -> (r: Vec<char>)
    ensures
        r@ == s@,
{
    let n = s.unicode_len();
    let mut r: Vec<char> = Vec::new();
    let mut i: usize = 0;
    while i < n
        invariant
            n == s@.len(),
            i <= n,
            r@ == s@.subrange(0, i as int),
        decreases n - i,
    {
        r.push(s.get_char(i));
        i = i + 1;
        assert(r@ =~= s@.subrange(0, i as int));
    }
    assert(r@ =~= s@);
    r
}

/// The end of the run of `c` that starts at `i`.
fn scan_run(s: &Vec<char>, i: usize, c: char) -> (r: usize)
    requires
        i <= s@.len(),
    ensures
        r as int == run_end(s@, i as int, c),
        i <= r <= s@.len(),
{
    let mut j = i;
    while j < s.len() && s[j] == c
        invariant
            i <= j <= s@.len(),
            run_end(s@, j as int, c) == run_end(s@, i as int, c),
        decreases s@.len() - j,
    {
        j = j + 1;
    }
    j
}

fn char_is_alpha(c: char) -> (r: bool)
    ensures
        r == is_alpha(c),
{
    ('a' <= c && c <= 'z') || ('A' <= c && c <= 'Z')
}

fn char_is_digit(c: char) -> (r: bool)
    ensures
        r == is_digit(c),
{
    '0' <= c && c <= '9'
}

fn char_digit(c: char) -> (r: u32)
    requires
        is_digit(c),
    ensures
        r == digit_value(c),
        r <= 9,
{
    (c as u32) - ('0' as u32)
}

/// Whether `Www DD Mmm YYYY ` stands at `q`.
fn check_layout(s: &Vec<char>, q: usize) -> (r: bool)
    requires
        q <= s@.len(),
    ensures
        r == date_layout_at(s@, q as int),
{
    if s.len() < 16 || q > s.len() - 16 {
        return false;
    }
    char_is_alpha(s[q]) && char_is_alpha(s[q + 1]) && char_is_alpha(s[q + 2]) && s[q + 3] == ' '
        && char_is_digit(s[q + 4]) && char_is_digit(s[q + 5]) && s[q + 6] == ' ' && char_is_alpha(
        s[q + 7],
    ) && char_is_alpha(s[q + 8]) && char_is_alpha(s[q + 9]) && s[q + 10] == ' ' && char_is_digit(
        s[q + 11],
    ) && char_is_digit(s[q + 12]) && char_is_digit(s[q + 13]) && char_is_digit(s[q + 14]) && s[q
        + 15] == ' '
}

/// Whether a heading starts at `p`.
fn check_heading_at(s: &Vec<char>, p: usize) -> (r: bool)
    requires
        p < s@.len(),
    ensures
        r == heading_at(s@, p as int),
{
    if s[p] != '#' {
        return false;
    }
    let h = scan_run(s, p, '#');
    let q = scan_run(s, h, ' ');
    q > h && check_layout(s, q)
}


/// The leftmost heading at or after `i`.
fn next_heading(s: &Vec<char>, i: usize) -> (r: Option<usize>)
    requires
        i <= s@.len(),
    ensures
        match r {
            Some(p) => first_heading_from(s@, i as int) == Some(p as int),
            None => first_heading_from(s@, i as int) is None,
        },
{
    let mut p = i;
    while p < s.len()
        invariant
            i <= p <= s@.len(),
            first_heading_from(s@, p as int) == first_heading_from(s@, i as int),
        decreases s@.len() - p,
    {
        if check_heading_at(s, p) {
            return Some(p);
        }
        p = p + 1;
    }
    None
}

/// Every heading of `line`, left to right, split into its parts.
pub fn find_headings(line: &str) -> (r: Vec<Heading>)
    ensures
        heading_views(r@) == headings_of(line@),
        forall|k: int| 0 <= k < r@.len() ==> (#[trigger] r@[k]).year <= 9999 && r@[k].day <= 99,
{
    let s = chars_of(line);
    let n = s.len();
    let mut r: Vec<Heading> = Vec::new();
    let mut next = next_heading(&s, 0);
    proof {
        lemma_headings_skip(s@, 0);
        if next is Some {
            lemma_first_heading(s@, 0);
        }
    }
    assert(heading_views(r@) =~= Seq::empty());
    assert(heading_views(r@) + headings_of(s@) =~= headings_of(s@));
    while next.is_some()
        invariant
            n == s@.len(),
            s@ == line@,
            match next {
                Some(p) => p < n && heading_at(s@, p as int) && heading_views(r@) + headings_from(
                    s@,
                    p as int,
                ) == headings_of(s@),
                None => heading_views(r@) == headings_of(s@),
            },
            forall|k: int| 0 <= k < r@.len() ==> (#[trigger] r@[k]).year <= 9999 && r@[k].day <= 99,
        decreases
            match next {
                Some(p) => n - p + 1,
                None => 0,
            },
    {
        let p = next.unwrap();
        proof {
            lemma_headings_skip(s@, p as int);
            lemma_title_start_after(s@, p as int);
            lemma_run_end_bounds(s@, run_end(s@, p as int, '#'), ' ');
        }
        let h = scan_run(&s, p, '#');
        let q = scan_run(&s, h, ' ');
        let t = scan_run(&s, q + 15, ' ');
        let following = next_heading(&s, t);
        proof {
            if following is Some {
                lemma_first_heading(s@, t as int);
                lemma_headings_skip(s@, t as int);
            }
        }
        let e = match following {
            Some(m) => m,
            None => n,
        };
        let day = 10 * char_digit(s[q + 4]) + char_digit(s[q + 5]);
        let year = 1000 * char_digit(s[q + 11]) + 100 * char_digit(s[q + 12]) + 10 * char_digit(
            s[q + 13],
        ) + char_digit(s[q + 14]);
        let month = line.substring_char(q + 7, q + 10).to_owned();
        let title = line.substring_char(t, e).to_owned();
        let found = Heading { start: p, day, month, year, title };
        assert(found@ == heading_parts(s@, p as int));
        let ghost before = r@;
        r.push(found);
        assert(heading_views(r@) =~= heading_views(before).push(heading_parts(s@, p as int)));
        assert(headings_from(s@, p as int) == seq![heading_parts(s@, p as int)] + headings_from(
            s@,
            t as int,
        ));
        assert(heading_views(before) + headings_from(s@, p as int) =~= heading_views(r@)
            + headings_from(s@, t as int));
        proof {
            if following is None {
                assert(headings_from(s@, t as int) =~= Seq::empty());
                assert(heading_views(r@) =~= heading_views(r@) + Seq::<HeadingView>::empty());
            }
        }
        next = following;
    }
    r
}

/// `n` copies of `c`.
pub open spec fn repeat(c: char, n: nat) -> Seq<char> {
    Seq::new(n, |i: int| c)
}

/// A heading line written from its parts: `hashes` times `#`, `lead`
/// spaces, the weekday, day, month and year separated by single spaces,
/// `gap` spaces and the title.
#[verifier::opaque]
pub open spec fn heading_line(
    hashes: nat,
    lead: nat,
    weekday: Seq<char>,
    day: Seq<char>,
    month: Seq<char>,
    year: Seq<char>,
    gap: nat,
    title: Seq<char>,
) -> Seq<char> {
    repeat('#', hashes) + repeat(' ', lead) + weekday + seq![' '] + day + seq![' '] + month + seq![
        ' ',
    ] + year + repeat(' ', gap) + title
}

/// The parts that `heading_line` is written from form a heading, whose
/// title holds no `#` (so that no other heading starts in it).
pub open spec fn well_formed_parts(
    hashes: nat,
    lead: nat,
    weekday: Seq<char>,
    day: Seq<char>,
    month: Seq<char>,
    year: Seq<char>,
    gap: nat,
    title: Seq<char>,
) -> bool {
    &&& hashes >= 1 && lead >= 1 && gap >= 1
    &&& weekday.len() == 3 && is_alpha(weekday[0]) && is_alpha(weekday[1]) && is_alpha(weekday[2])
    &&& day.len() == 2 && is_digit(day[0]) && is_digit(day[1])
    &&& month.len() == 3 && is_alpha(month[0]) && is_alpha(month[1]) && is_alpha(month[2])
    &&& year.len() == 4 && is_digit(year[0]) && is_digit(year[1]) && is_digit(year[2]) && is_digit(
        year[3],
    )
    &&& (title.len() == 0 || title[0] != ' ')
    &&& forall|k: int| 0 <= k < title.len() ==> title[k] != '#'
}

/// A run of `c` from `i` that stops at `j` ends at `j`.
proof fn lemma_run_end(s: Seq<char>, i: int, j: int, c: char)
    requires
        0 <= i <= j <= s.len(),
        forall|k: int| i <= k < j ==> s[k] == c,
        j == s.len() || s[j] != c,
    ensures
        run_end(s, i, c) == j,
    decreases j - i,
{
    if i < j {
        lemma_run_end(s, i + 1, j, c);
    }
}


/// A run that starts within `s` ends within it.
proof fn lemma_run_end_bounds(s: Seq<char>, i: int, c: char)
    requires
        0 <= i <= s.len(),
    ensures
        i <= run_end(s, i, c) <= s.len(),
    decreases s.len() - i,
{
    if i < s.len() && s[i] == c {
        lemma_run_end_bounds(s, i + 1, c);
    }
}

/// What `first_heading_from` finds is a heading at or after where it looked.
proof fn lemma_first_heading(s: Seq<char>, i: int)
    requires
        first_heading_from(s, i) is Some,
    ensures
        i <= first_heading_from(s, i)->0,
        heading_at(s, first_heading_from(s, i)->0),
    decreases s.len() - i,
{
    if 0 <= i < s.len() && !heading_at(s, i) {
        lemma_first_heading(s, i + 1);
    }
}

/// The title of a heading begins after its start, and within the line.
proof fn lemma_title_start_after(s: Seq<char>, p: int)
    requires
        heading_at(s, p),
    ensures
        p < title_start(s, p) <= s.len(),
        date_start(s, p) + 16 <= s.len(),
{
    lemma_run_end_bounds(s, p, '#');
    lemma_run_end_bounds(s, run_end(s, p, '#'), ' ');
    lemma_run_end_bounds(s, date_start(s, p) + 15, ' ');
}

/// Looking for headings from `i` finds those from the first heading on.
proof fn lemma_headings_skip(s: Seq<char>, i: int)
    ensures
        first_heading_from(s, i) matches Some(p) ==> headings_from(s, i) == headings_from(s, p),
{
    if first_heading_from(s, i) is Some {
        lemma_first_heading(s, i);
        let p = first_heading_from(s, i)->0;
        assert(first_heading_from(s, p) == Some(p));
    }
}

/// Between `i` and `j` no `#` stands, so no heading starts there.
proof fn lemma_skip_no_hash(s: Seq<char>, i: int, j: int)
    requires
        0 <= i <= j <= s.len(),
        forall|k: int| i <= k < j ==> s[k] != '#',
    ensures
        first_heading_from(s, i) == first_heading_from(s, j),
    decreases j - i,
{
    if i < j {
        lemma_skip_no_hash(s, i + 1, j);
    }
}

/// A heading line written from its parts, between any text before it and
/// text after it that is empty or starts with `#`, is found with its parts.
proof fn lemma_heading_in_context(
    pre: Seq<char>,
    hashes: nat,
    lead: nat,
    weekday: Seq<char>,
    day: Seq<char>,
    month: Seq<char>,
    year: Seq<char>,
    gap: nat,
    title: Seq<char>,
    post: Seq<char>,
)
    requires
        well_formed_parts(hashes, lead, weekday, day, month, year, gap, title),
        post.len() == 0 || post[0] == '#',
    ensures
        ({
            let l = heading_line(hashes, lead, weekday, day, month, year, gap, title);
            let s = pre + l + post;
            let a = pre.len() as int;
            let b = a + l.len();
            &&& l.len() > 0 && l[0] == '#'
            &&& heading_at(s, a)
            &&& title_start(s, a) == b - title.len()
            &&& first_heading_from(s, title_start(s, a)) == first_heading_from(s, b)
            &&& s.subrange(b - title.len(), b) == title
            &&& heading_parts(s, a).day == 10 * digit_value(day[0]) + digit_value(day[1])
            &&& heading_parts(s, a).month == month
            &&& heading_parts(s, a).year == 1000 * digit_value(year[0]) + 100 * digit_value(year[1])
                + 10 * digit_value(year[2]) + digit_value(year[3])
        }),
{
    reveal(heading_line);
    let l = heading_line(hashes, lead, weekday, day, month, year, gap, title);
    let s = pre + l + post;
    let a = pre.len() as int;
    let b = a + l.len();
    let h = a + hashes;
    let q = h + lead;
    let e = q + 15 + gap;
    assert(l.len() == hashes + lead + 15 + gap + title.len());
    assert(s.len() == b + post.len());
    assert forall|k: int| a <= k < h implies s[k] == '#' by {}
    assert forall|k: int| h <= k < q implies s[k] == ' ' by {}
    assert forall|k: int| q + 15 <= k < e implies s[k] == ' ' by {}
    assert forall|k: int| e <= k < b implies s[k] == title[k - e] by {}
    assert forall|k: int| e <= k < b implies s[k] != '#' by {
        assert(s[k] == title[k - e]);
    }
    assert(s[q] == weekday[0] && s[q + 1] == weekday[1] && s[q + 2] == weekday[2]);
    assert(s[q + 3] == ' ');
    assert(s[q + 4] == day[0] && s[q + 5] == day[1]);
    assert(s[q + 6] == ' ');
    assert(s[q + 7] == month[0] && s[q + 8] == month[1] && s[q + 9] == month[2]);
    assert(s[q + 10] == ' ');
    assert(s[q + 11] == year[0] && s[q + 12] == year[1] && s[q + 13] == year[2] && s[q + 14]
        == year[3]);
    lemma_run_end(s, a, h, '#');
    lemma_run_end(s, h, q, ' ');
    if e < b {
        assert(s[e] == title[0]);
    } else if b < s.len() {
        assert(s[b] == post[0]);
    }
    lemma_run_end(s, q + 15, e, ' ');
    assert(heading_at(s, a));
    lemma_skip_no_hash(s, e, b);
    assert(s.subrange(q + 7, q + 10) =~= month);
    assert(s.subrange(e, b) =~= title);
}

/// A heading line written from its parts gives back exactly one heading
/// with those parts: the day, month and year as written and the title
/// without the spaces before it.
pub proof fn lemma_heading_round_trip(
    hashes: nat,
    lead: nat,
    weekday: Seq<char>,
    day: Seq<char>,
    month: Seq<char>,
    year: Seq<char>,
    gap: nat,
    title: Seq<char>,
)
    requires
        well_formed_parts(hashes, lead, weekday, day, month, year, gap, title),
    ensures
        headings_of(heading_line(hashes, lead, weekday, day, month, year, gap, title)) == seq![
            HeadingView {
                start: 0,
                day: 10 * digit_value(day[0]) + digit_value(day[1]),
                month,
                year: 1000 * digit_value(year[0]) + 100 * digit_value(year[1]) + 10 * digit_value(
                    year[2],
                ) + digit_value(year[3]),
                title,
            },
        ],
{
    let l = heading_line(hashes, lead, weekday, day, month, year, gap, title);
    let e = Seq::<char>::empty();
    lemma_heading_in_context(e, hashes, lead, weekday, day, month, year, gap, title, e);
    let s = e + l + e;
    assert(s =~= l);
    assert(first_heading_from(s, 0) == Some(0int));
    let t = title_start(s, 0);
    assert(first_heading_from(s, t) is None);
    assert(headings_from(s, t) =~= Seq::empty());
    assert(s.subrange(t, s.len() as int) == title);
}

/// Two heading lines written one after the other give two headings, left to
/// right, each with its own parts.
pub proof fn lemma_two_headings(
    hashes1: nat,
    lead1: nat,
    weekday1: Seq<char>,
    day1: Seq<char>,
    month1: Seq<char>,
    year1: Seq<char>,
    gap1: nat,
    title1: Seq<char>,
    hashes2: nat,
    lead2: nat,
    weekday2: Seq<char>,
    day2: Seq<char>,
    month2: Seq<char>,
    year2: Seq<char>,
    gap2: nat,
    title2: Seq<char>,
)
    requires
        well_formed_parts(hashes1, lead1, weekday1, day1, month1, year1, gap1, title1),
        well_formed_parts(hashes2, lead2, weekday2, day2, month2, year2, gap2, title2),
    ensures
        ({
            let l1 = heading_line(hashes1, lead1, weekday1, day1, month1, year1, gap1, title1);
            let l2 = heading_line(hashes2, lead2, weekday2, day2, month2, year2, gap2, title2);
            headings_of(l1 + l2) == seq![
                HeadingView {
                    start: 0,
                    day: 10 * digit_value(day1[0]) + digit_value(day1[1]),
                    month: month1,
                    year: 1000 * digit_value(year1[0]) + 100 * digit_value(year1[1]) + 10
                        * digit_value(year1[2]) + digit_value(year1[3]),
                    title: title1,
                },
                HeadingView {
                    start: l1.len() as int,
                    day: 10 * digit_value(day2[0]) + digit_value(day2[1]),
                    month: month2,
                    year: 1000 * digit_value(year2[0]) + 100 * digit_value(year2[1]) + 10
                        * digit_value(year2[2]) + digit_value(year2[3]),
                    title: title2,
                },
            ]
        }),
{
    let l1 = heading_line(hashes1, lead1, weekday1, day1, month1, year1, gap1, title1);
    let l2 = heading_line(hashes2, lead2, weekday2, day2, month2, year2, gap2, title2);
    let e = Seq::<char>::empty();
    lemma_heading_in_context(l1, hashes2, lead2, weekday2, day2, month2, year2, gap2, title2, e);
    lemma_heading_in_context(e, hashes1, lead1, weekday1, day1, month1, year1, gap1, title1, l2);
    let s = l1 + l2;
    assert(e + l1 + l2 =~= s);
    assert(l1 + l2 + e =~= s);
    let a2 = l1.len() as int;
    assert(first_heading_from(s, 0) == Some(0int));
    let t1 = title_start(s, 0);
    assert(first_heading_from(s, a2) == Some(a2));
    assert(first_heading_from(s, t1) == Some(a2));
    let t2 = title_start(s, a2);
    assert(first_heading_from(s, t2) is None);
    assert(headings_from(s, t2) =~= Seq::empty());
    assert(headings_from(s, t1) =~= seq![heading_parts(s, a2)]);
    assert(s.subrange(t2, s.len() as int) == title2);
}

} // verus!
