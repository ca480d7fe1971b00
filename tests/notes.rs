use note_headings::date::{date_timestamp, month_number};
use note_headings::heading::find_headings;
use note_headings::note::{extract_line, extract_notes, HeadingError, Note};
use note_headings::walk::{enter_dir, sort_notes, NoteCollector};

fn lines(text: &[&str]) -> Vec<String> {
    text.iter().map(|l| l.to_string()).collect()
}

fn note(path: &str, line: usize, timestamp: i64, title: &str) -> Note {
    Note { path: path.to_string(), line, timestamp, title: title.to_string() }
}

fn one_heading(line: &str) -> Option<note_headings::heading::Heading> {
    let mut hs = find_headings(line);
    assert!(hs.len() <= 1);
    hs.pop()
}

fn stamps(notes: &[Note]) -> Vec<i64> {
    notes.iter().map(|n| n.timestamp).collect()
}

#[test]
fn heading_round_trip() {
    let h = one_heading("## Wed 04 Mar 2020   My Title").unwrap();
    assert_eq!(h.start, 0);
    assert_eq!(h.day, 4);
    assert_eq!(h.month, "Mar");
    assert_eq!(h.year, 2020);
    assert_eq!(h.title, "My Title");
    let ns = extract_line("a.md", 7, "## Wed 04 Mar 2020   My Title").unwrap();
    assert_eq!(ns.len(), 1);
    let n = &ns[0];
    assert_eq!(n.path, "a.md");
    assert_eq!(n.line, 7);
    assert_eq!(n.timestamp, 1583323932);
    assert_eq!(n.title, "My Title");
}

#[test]
fn line_numbers_count_from_one() {
    let text = lines(&["intro", "", "# Thu 05 Mar 2020 second", "text", "### Fri 06 Mar 2020 third"]);
    let ns = extract_notes("n.txt", &text).unwrap();
    assert_eq!(ns.len(), 2);
    assert_eq!(ns[0].line, 3);
    assert_eq!(ns[0].title, "second");
    assert_eq!(ns[1].line, 5);
    assert_eq!(ns[1].title, "third");
    assert_eq!(ns[1].timestamp - ns[0].timestamp, 86400);
}

#[test]
fn timestamps_at_the_calendar_edges() {
    assert_eq!(date_timestamp(1970, 1, 1), Some(43932));
    assert_eq!(date_timestamp(2000, 2, 29), Some(951826332));
    assert_eq!(date_timestamp(0, 1, 1), Some(-62167175268));
    assert_eq!(date_timestamp(9999, 12, 31), Some(253402258332));
    assert_eq!(date_timestamp(1, 1, 1), Some(-62135552868));
    assert_eq!(date_timestamp(0, 2, 29), Some(-62162077668));
}

#[test]
fn dates_that_do_not_exist() {
    assert_eq!(date_timestamp(2019, 2, 29), None);
    assert_eq!(date_timestamp(1900, 2, 29), None);
    assert_eq!(date_timestamp(2020, 4, 31), None);
    assert_eq!(date_timestamp(2020, 1, 0), None);
    assert_eq!(date_timestamp(2020, 13, 1), None);
    assert_eq!(date_timestamp(2020, 0, 1), None);
}

#[test]
fn invalid_date_is_an_error() {
    let r = extract_line("a", 1, "## Mon 31 Feb 2020 x");
    match r {
        Err(HeadingError::InvalidDate { year, month, day, line }) => {
            assert_eq!((year, month, day), (2020, 2, 31));
            assert_eq!(line, "## Mon 31 Feb 2020 x");
        }
        other => panic!("unexpected {:?}", other),
    }
    assert!(matches!(extract_line("a", 1, "## Mon 00 Jan 2020 x"), Err(HeadingError::InvalidDate { .. })));
}

#[test]
fn month_table() {
    let names = ["Jan", "Feb", "Mar", "Apr", "May", "Jun", "Jul", "Aug", "Sep", "Oct", "Nov", "Dec"];
    for (i, m) in names.iter().enumerate() {
        assert_eq!(month_number(m), Some(i as u32 + 1));
    }
    assert_eq!(month_number("jan"), None);
    assert_eq!(month_number("JAN"), None);
    assert_eq!(month_number("Janu"), None);
    assert_eq!(month_number(""), None);
}

#[test]
fn no_headings_no_notes() {
    let text = lines(&["", "plain text", "## not a heading", "#Wed 04 Mar 2020 x", "## Wed 4 Mar 2020 x"]);
    let ns = extract_notes("n", &text).unwrap();
    assert!(ns.is_empty());
    assert!(extract_notes("n", &Vec::new()).unwrap().is_empty());
}

#[test]
fn heading_found_anywhere_in_line() {
    let h = one_heading("see #x ## Sat 01 Feb 2020 late").unwrap();
    assert_eq!(h.start, 7);
    assert_eq!(h.title, "late");
    assert_eq!(h.day, 1);
}

#[test]
fn two_headings_on_one_line_give_two_notes() {
    let line = "## Mon 01 Jan 2024 A ## Tue 02 Jan 2024 B";
    let text = lines(&[line]);
    let ns = extract_notes("n", &text).unwrap();
    assert_eq!(ns.len(), 2);
    assert_eq!((ns[0].line, ns[1].line), (1, 1));
    assert_eq!(ns[0].timestamp, 1704111132);
    assert_eq!(ns[1].timestamp, 1704197532);
    assert_eq!(ns[0].title, "A ");
    assert_eq!(ns[1].title, "B");
    let hs = find_headings(line);
    assert_eq!(hs.len(), 2);
    assert_eq!((hs[0].start, hs[1].start), (0, 21));
}

#[test]
fn three_headings_left_to_right() {
    let line = "x # Wed 04 Mar 2020 a# Thu 05 Mar 2020 b ### Fri 06 Mar 2020 ";
    let hs = find_headings(line);
    let titles: Vec<&str> = hs.iter().map(|h| h.title.as_str()).collect();
    assert_eq!(titles, vec!["a", "b ", ""]);
    let days: Vec<u32> = hs.iter().map(|h| h.day).collect();
    assert_eq!(days, vec![4, 5, 6]);
}

#[test]
fn bad_second_heading_fails_the_line() {
    let r = extract_line("a", 2, "# Wed 04 Mar 2020 ok # Thu 05 Foo 2020 bad");
    match r {
        Err(HeadingError::InvalidMonth { token, .. }) => assert_eq!(token, "Foo"),
        other => panic!("unexpected {:?}", other),
    }
}

#[test]
fn title_kept_as_written() {
    let h = one_heading("#### Sun 01 Mar 2020     spaced  title  ").unwrap();
    assert_eq!(h.title, "spaced  title  ");
    let h = one_heading("# Sun 01 Mar 2020 ").unwrap();
    assert_eq!(h.title, "");
    assert!(one_heading("# Sun 01 Mar 2020").is_none());
}

#[test]
fn weekday_is_not_checked() {
    let h = one_heading("# Xyz 04 Mar 2020 t").unwrap();
    assert_eq!((h.day, h.year), (4, 2020));
    assert!(one_heading("# W3d 04 Mar 2020 t").is_none());
}

#[test]
fn non_ascii_digits_do_not_match() {
    assert!(one_heading("# Wed ٠٤ Mar 2020 t").is_none());
    let h = one_heading("# Wed 04 Mar 2020 été").unwrap();
    assert_eq!(h.title, "été");
}

#[test]
fn invalid_month_stops_the_run() {
    let mut c = NoteCollector::new();
    c.add_file("good", &lines(&["# Wed 04 Mar 2020 ok"])).unwrap();
    assert_eq!(c.len(), 1);
    let bad = lines(&["# Thu 05 Mar 2020 fine", "## Xyz 04 Zzz 2020 Title"]);
    match c.add_file("bad", &bad) {
        Err(HeadingError::InvalidMonth { token, line }) => {
            assert_eq!(token, "Zzz");
            assert_eq!(line, "## Xyz 04 Zzz 2020 Title");
        }
        other => panic!("unexpected {:?}", other),
    }
    assert_eq!(c.len(), 1);
    assert!(matches!(extract_notes("bad", &bad), Err(HeadingError::InvalidMonth { .. })));
}

#[test]
fn lowercase_month_is_an_error() {
    assert!(matches!(
        extract_line("a", 1, "## Wed 04 mar 2020 x"),
        Err(HeadingError::InvalidMonth { .. })
    ));
}

#[test]
fn walk_output_sorted_whatever_the_order() {
    let files = [
        ("c", "# Fri 06 Mar 2020 c"),
        ("a", "# Wed 04 Mar 2020 a"),
        ("d", "# Sat 07 Mar 2021 d"),
        ("b", "# Thu 05 Mar 2020 b"),
    ];
    let orders: [[usize; 4]; 3] = [[0, 1, 2, 3], [3, 2, 1, 0], [2, 0, 3, 1]];
    for order in orders.iter() {
        let mut c = NoteCollector::new();
        for &i in order.iter() {
            c.add_file(files[i].0, &lines(&[files[i].1])).unwrap();
        }
        let ns = c.finish();
        let titles: Vec<&str> = ns.iter().map(|n| n.title.as_str()).collect();
        assert_eq!(titles, vec!["a", "b", "c", "d"]);
        let ts = stamps(&ns);
        assert!(ts.windows(2).all(|w| w[0] <= w[1]));
    }
}

#[test]
fn walk_twice_same_output() {
    let run = || {
        let mut c = NoteCollector::new();
        c.add_file("x", &lines(&["# Wed 04 Mar 2020 one", "# Mon 02 Mar 2020 two"])).unwrap();
        c.add_file("y", &lines(&["# Wed 04 Mar 2020 three"])).unwrap();
        c.finish()
    };
    let a = run();
    let b = run();
    assert_eq!(a.len(), b.len());
    for (x, y) in a.iter().zip(b.iter()) {
        assert_eq!((&x.path, x.line, x.timestamp, &x.title), (&y.path, y.line, y.timestamp, &y.title));
    }
    let titles: Vec<&str> = a.iter().map(|n| n.title.as_str()).collect();
    assert_eq!(titles, vec!["two", "one", "three"]);
}

#[test]
fn empty_walk_is_empty() {
    assert!(NoteCollector::new().finish().is_empty());
}

#[test]
fn sort_is_stable() {
    let v = vec![note("p", 1, 5, "x"), note("p", 2, 3, "y"), note("p", 3, 5, "z"), note("p", 4, 3, "w")];
    let s = sort_notes(v);
    let titles: Vec<&str> = s.iter().map(|n| n.title.as_str()).collect();
    assert_eq!(titles, vec!["y", "w", "x", "z"]);
    assert!(sort_notes(Vec::new()).is_empty());
}

#[test]
fn cycle_guard() {
    let mut visited: Vec<(u64, u64)> = Vec::new();
    assert!(enter_dir(&mut visited, 1, 10));
    assert!(enter_dir(&mut visited, 1, 11));
    assert!(enter_dir(&mut visited, 2, 10));
    assert!(!enter_dir(&mut visited, 1, 10));
    assert_eq!(visited, vec![(1, 10), (1, 11), (2, 10)]);
}
