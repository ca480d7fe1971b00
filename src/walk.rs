//! Gathering the notes of a tree of files and ordering them by time.
//!
//! The files are read by the caller, one at a time, in the order of the walk;
//! each is handed to a [`NoteCollector`], which keeps the notes of all files
//! read so far and hands them out sorted by timestamp, once, at the end.

use vstd::prelude::*;
use vstd::multiset::Multiset;
use crate::note::{extract_notes, file_notes, line_views, note_views, HeadingError, HeadingErrorView, Note, NoteView};

verus! {

/// Timestamps never decrease along `s`.
pub open spec fn sorted_by_time(s: Seq<NoteView>) -> bool {
    forall|i: int, j: int| 0 <= i < j < s.len() ==> s[i].timestamp <= s[j].timestamp
}

/// `s` with `n` placed after every note whose timestamp is not later than
/// its own, and before the later ones at the end.
pub open spec fn insert_by_time(s: Seq<NoteView>, n: NoteView) -> Seq<NoteView>
    decreases s.len(),
{
    if s.len() == 0 {
        seq![n]
    } else if n.timestamp < s.last().timestamp {
        insert_by_time(s.drop_last(), n).push(s.last())
    } else {
        s.push(n)
    }
}

/// `s` sorted by timestamp, notes with equal timestamps kept in the order of
/// `s` (insertion sort).
pub open spec fn sort_by_time(s: Seq<NoteView>) -> Seq<NoteView>
    decreases s.len(),
{
    if s.len() == 0 {
        s
    } else {
        insert_by_time(sort_by_time(s.drop_last()), s.last())
    }
}

/// Places `n` into `v` as `insert_by_time` does.
fn insert_note(v: &mut Vec<Note>, n: Note)
    ensures
        note_views(final(v)@) == insert_by_time(note_views(old(v)@), n@),
{
    let ghost s = note_views(v@);
    let mut j: usize = v.len();
    assert(s.subrange(0, j as int) =~= s);
    assert(s.subrange(j as int, s.len() as int) =~= Seq::empty());
    while j > 0 && v[j - 1].timestamp > n.timestamp
        invariant
            j <= v@.len(),
            s == note_views(v@),
            insert_by_time(s, n@) == insert_by_time(s.subrange(0, j as int), n@) + s.subrange(
                j as int,
                s.len() as int,
            ),
        decreases j,
    {
        let ghost pre = s.subrange(0, j as int);
        assert(pre.drop_last() =~= s.subrange(0, j - 1));
        assert(insert_by_time(pre, n@) == insert_by_time(s.subrange(0, j - 1), n@).push(
            pre.last(),
        ));
        assert(insert_by_time(s.subrange(0, j - 1), n@).push(pre.last()) + s.subrange(
            j as int,
            s.len() as int,
        ) =~= insert_by_time(s.subrange(0, j - 1), n@) + s.subrange(j - 1, s.len() as int));
        j = j - 1;
    }
    let ghost nv = n@;
    v.insert(j, n);
    assert(insert_by_time(s.subrange(0, j as int), nv) =~= s.subrange(0, j as int).push(nv));
    assert(note_views(v@) =~= s.subrange(0, j as int).push(nv) + s.subrange(j as int, s.len() as int));
}

/// `notes` sorted by timestamp; notes with equal timestamps keep their order.
pub fn sort_notes(notes: Vec<Note>) -> (r: Vec<Note>)
    ensures
        note_views(r@) == sort_by_time(note_views(notes@)),
{
    let ghost s = note_views(notes@);
    let mut rest = notes;
    let mut out: Vec<Note> = Vec::new();
    let mut i: usize = 0;
    assert(s.subrange(0, 0) =~= Seq::empty());
    assert(s.subrange(0, s.len() as int) =~= s);
    assert(s.len() == rest.len());
    assert(note_views(out@) =~= Seq::empty());
    while rest.len() > 0
        invariant
            i + rest@.len() == s.len(),
            s.len() <= usize::MAX,
            note_views(rest@) == s.subrange(i as int, s.len() as int),
            note_views(out@) == sort_by_time(s.subrange(0, i as int)),
        decreases rest@.len(),
    {
        let ghost before = rest@;
        let n = rest.remove(0);
        assert(note_views(before)[0] == s[i as int]);
        assert forall|k: int| 0 <= k < rest@.len() implies note_views(rest@)[k] == s[i + 1 + k] by {
            assert(rest@[k] == before[k + 1]);
            assert(note_views(before)[k + 1] == s[i + 1 + k]);
        }
        assert(note_views(rest@) =~= s.subrange(i + 1, s.len() as int));
        assert(n@ == s[i as int]);
        let ghost pre = s.subrange(0, i + 1);
        assert(pre.drop_last() =~= s.subrange(0, i as int));
        insert_note(&mut out, n);
        i = i + 1;
    }
    assert(s.subrange(0, i as int) =~= s);
    out
}

/// The notes of the files read so far, in the order they were read.
pub struct NoteCollector {
    notes: Vec<Note>,
}

impl View for NoteCollector {
    type V = Seq<NoteView>;

    closed spec fn view(&self) -> Seq<NoteView> {
        note_views(self.notes@)
    }
}

impl NoteCollector {
    /// A collector that holds no note.
    pub fn new() -> (r: NoteCollector)
        ensures
            r@ == Seq::<NoteView>::empty(),
    {
        let r = NoteCollector { notes: Vec::new() };
        assert(r@ =~= Seq::<NoteView>::empty());
        r
    }

    /// The number of notes held.
    pub fn len(&self) -> (r: usize)
        ensures
            r == self@.len(),
    {
        self.notes.len()
    }

    /// Adds the notes of file `path`, whose lines are `lines`, after those
    /// held. Where the file holds a bad heading, nothing is added and its
    /// error is returned.
    pub fn add_file(&mut self, path: &str, lines: &Vec<String>) -> (r: Result<(), HeadingError>)
        ensures
            match file_notes(path@, line_views(lines@)) {
                Ok(ns) => r is Ok && final(self)@ == old(self)@ + ns,
                Err(v) => r matches Err(e) && e@ == v && final(self)@ == old(self)@,
            },
    {
        match extract_notes(path, lines) {
            Err(e) => Err(e),
            Ok(ns) => {
                let mut ns = ns;
                let ghost added = ns@;
                let ghost held = self.notes@;
                self.notes.append(&mut ns);
                assert(note_views(self.notes@) =~= note_views(held) + note_views(added));
                Ok(())
            },
        }
    }

    /// The notes held, sorted by timestamp; notes with equal timestamps keep
    /// the order in which they were added.
    pub fn finish(self) -> (r: Vec<Note>)
        ensures
            note_views(r@) == sort_by_time(self@),
    {
        sort_notes(self.notes)
    }
}

/// Every note of `insert_by_time(s, n)` is `n` or a note of `s`.
proof fn lemma_insert_elements(s: Seq<NoteView>, n: NoteView)
    ensures
        insert_by_time(s, n).len() == s.len() + 1,
        forall|i: int|
            0 <= i < s.len() + 1 ==> insert_by_time(s, n)[i] == n || s.contains(
                #[trigger] insert_by_time(s, n)[i],
            ),
    decreases s.len(),
{
    if s.len() > 0 && n.timestamp < s.last().timestamp {
        let d = s.drop_last();
        lemma_insert_elements(d, n);
        assert forall|i: int| 0 <= i < s.len() + 1 implies insert_by_time(s, n)[i] == n
            || s.contains(#[trigger] insert_by_time(s, n)[i]) by {
            if i < s.len() {
                let x = insert_by_time(d, n)[i];
                if x != n {
                    let k = choose|k: int| 0 <= k < d.len() && d[k] == x;
                    assert(s[k] == x);
                }
            } else {
                assert(s[s.len() - 1] == s.last());
            }
        }
    } else if s.len() > 0 {
        assert forall|i: int| 0 <= i < s.len() + 1 implies insert_by_time(s, n)[i] == n
            || s.contains(#[trigger] insert_by_time(s, n)[i]) by {
            if i < s.len() {
                assert(s[i] == insert_by_time(s, n)[i]);
            }
        }
    }
}

/// Inserting into a sorted sequence keeps it sorted and adds exactly `n`.
proof fn lemma_insert_sorted(s: Seq<NoteView>, n: NoteView)
    requires
        sorted_by_time(s),
    ensures
        sorted_by_time(insert_by_time(s, n)),
        insert_by_time(s, n).to_multiset() == s.to_multiset().insert(n),
    decreases s.len(),
{
    broadcast use vstd::seq_lib::group_to_multiset_ensures;

    if s.len() == 0 {
        assert(seq![n] =~= Seq::<NoteView>::empty().push(n));
        assert(Seq::<NoteView>::empty().to_multiset() =~= Multiset::empty());
    } else if n.timestamp < s.last().timestamp {
        let d = s.drop_last();
        let last = s.last();
        lemma_insert_sorted(d, n);
        lemma_insert_elements(d, n);
        let t = insert_by_time(d, n);
        assert(s =~= d.push(last));
        assert forall|i: int, j: int| 0 <= i < j < t.len() + 1 implies #[trigger] t.push(
            last,
        )[i].timestamp <= #[trigger] t.push(last)[j].timestamp by {
            if j == t.len() {
                if t[i] != n {
                    let k = choose|k: int| 0 <= k < d.len() && d[k] == t[i];
                    assert(s[k] == d[k]);
                    assert(s[s.len() - 1] == last);
                }
            }
        }
        assert(t.push(last).to_multiset() =~= t.to_multiset().insert(last));
        assert(s.to_multiset() =~= d.to_multiset().insert(last));
    } else {
        assert forall|i: int, j: int| 0 <= i < j < s.len() + 1 implies #[trigger] s.push(n)[i].timestamp
            <= #[trigger] s.push(n)[j].timestamp by {
            if j == s.len() {
                assert(s[s.len() - 1] == s.last());
            }
        }
    }
}

/// Whatever order the notes came in, `sort_by_time` hands out the same notes,
/// each as often, with timestamps in ascending order.
pub proof fn lemma_sort_sorted_permutation(s: Seq<NoteView>)
    ensures
        sorted_by_time(sort_by_time(s)),
        sort_by_time(s).to_multiset() == s.to_multiset(),
    decreases s.len(),
{
    broadcast use vstd::seq_lib::group_to_multiset_ensures;

    if s.len() > 0 {
        let d = s.drop_last();
        lemma_sort_sorted_permutation(d);
        lemma_insert_sorted(sort_by_time(d), s.last());
        assert(s =~= d.push(s.last()));
    }
}

/// A sequence already sorted by timestamp is left as it is.
pub proof fn lemma_sort_of_sorted(s: Seq<NoteView>)
    requires
        sorted_by_time(s),
    ensures
        sort_by_time(s) == s,
    decreases s.len(),
{
    if s.len() > 0 {
        let d = s.drop_last();
        assert(sorted_by_time(d));
        lemma_sort_of_sorted(d);
        if d.len() > 0 {
            assert(d.last() == s[s.len() - 2]);
        }
        assert(d.push(s.last()) =~= s);
    }
}

/// Sorting twice gives what sorting once gives.
pub proof fn lemma_sort_idempotent(s: Seq<NoteView>)
    ensures
        sort_by_time(sort_by_time(s)) == sort_by_time(s),
{
    lemma_sort_sorted_permutation(s);
    lemma_sort_of_sorted(sort_by_time(s));
}

/// A walk that read no file, such as one of a root that is missing or is no
/// directory, hands out no note.
pub proof fn lemma_nothing_read_no_notes()
    ensures
        sort_by_time(Seq::<NoteView>::empty()) == Seq::<NoteView>::empty(),
{
}

/// No two notes of `s` share a timestamp.
pub open spec fn distinct_times(s: Seq<NoteView>) -> bool {
    forall|i: int, j: int|
        0 <= i < s.len() && 0 <= j < s.len() && i != j ==> s[i].timestamp != s[j].timestamp
}

/// `insert_by_time` places `n` at one position of `s`.
proof fn lemma_insert_position(s: Seq<NoteView>, n: NoteView) -> (j: int)
    ensures
        0 <= j <= s.len(),
        insert_by_time(s, n) == s.insert(j, n),
    decreases s.len(),
{
    if s.len() == 0 {
        assert(seq![n] =~= s.insert(0, n));
        0
    } else if n.timestamp < s.last().timestamp {
        let d = s.drop_last();
        let j = lemma_insert_position(d, n);
        assert(d.insert(j, n).push(s.last()) =~= s.insert(j, n));
        j
    } else {
        assert(s.push(n) =~= s.insert(s.len() as int, n));
        s.len() as int
    }
}

/// Sorting keeps timestamps distinct.
proof fn lemma_sort_distinct(s: Seq<NoteView>)
    requires
        distinct_times(s),
    ensures
        distinct_times(sort_by_time(s)),
    decreases s.len(),
{
    broadcast use vstd::seq_lib::group_to_multiset_ensures;

    if s.len() > 0 {
        let d = s.drop_last();
        let n = s.last();
        assert(distinct_times(d));
        lemma_sort_distinct(d);
        lemma_sort_sorted_permutation(d);
        let t = sort_by_time(d);
        let j = lemma_insert_position(t, n);
        assert forall|k: int| 0 <= k < t.len() implies #[trigger] t[k].timestamp != n.timestamp by {
            assert(t.to_multiset().count(t[k]) > 0);
            assert(d.contains(t[k]));
            let m = choose|m: int| 0 <= m < d.len() && d[m] == t[k];
            assert(s[m] == d[m]);
            assert(s[s.len() - 1] == n);
        }
        let u = t.insert(j, n);
        assert forall|a: int, b: int|
            0 <= a < u.len() && 0 <= b < u.len() && a != b implies u[a].timestamp
            != u[b].timestamp by {
            if a != j && b != j {
                let a2 = if a < j {
                    a
                } else {
                    a - 1
                };
                let b2 = if b < j {
                    b
                } else {
                    b - 1
                };
                assert(u[a] == t[a2] && u[b] == t[b2]);
            } else if a == j {
                let b2 = if b < j {
                    b
                } else {
                    b - 1
                };
                assert(u[b] == t[b2]);
            } else {
                let a2 = if a < j {
                    a
                } else {
                    a - 1
                };
                assert(u[a] == t[a2]);
            }
        }
    }
}

/// Two sorted sequences with the same notes and distinct timestamps are
/// equal.
proof fn lemma_sorted_unique(a: Seq<NoteView>, b: Seq<NoteView>)
    requires
        sorted_by_time(a),
        sorted_by_time(b),
        distinct_times(a),
        a.to_multiset() == b.to_multiset(),
    ensures
        a == b,
    decreases a.len(),
{
    broadcast use vstd::seq_lib::group_to_multiset_ensures;

    assert(a.to_multiset().len() == a.len() && b.to_multiset().len() == b.len());
    if a.len() == 0 {
        assert(a =~= b);
    } else {
        let z = a.len() - 1;
        let la = a[z];
        let lb = b[z];
        assert(b.to_multiset().count(lb) > 0);
        assert(a.contains(lb));
        let k1 = choose|k: int| 0 <= k < a.len() && a[k] == lb;
        assert(a.to_multiset().count(la) > 0);
        assert(b.contains(la));
        let k2 = choose|k: int| 0 <= k < b.len() && b[k] == la;
        if k1 != z {
            assert(a[k1].timestamp <= la.timestamp);
        }
        if k2 != z {
            assert(b[k2].timestamp <= lb.timestamp);
        }
        assert(la == lb);
        let da = a.drop_last();
        let db = b.drop_last();
        assert(da =~= a.remove(z));
        assert(db =~= b.remove(z));
        assert(da.to_multiset() == db.to_multiset());
        assert(sorted_by_time(da));
        assert(sorted_by_time(db));
        assert(distinct_times(da));
        lemma_sorted_unique(da, db);
        assert(a =~= da.push(la));
        assert(b =~= db.push(lb));
    }
}

/// When no two notes share a timestamp, the order in which the files were
/// walked does not change the output: any reordering `s2` of the notes `s1`
/// sorts to the same sequence.
pub proof fn lemma_order_irrelevant(s1: Seq<NoteView>, s2: Seq<NoteView>)
    requires
        s1.to_multiset() == s2.to_multiset(),
        distinct_times(s1),
    ensures
        sort_by_time(s1) == sort_by_time(s2),
{
    lemma_sort_sorted_permutation(s1);
    lemma_sort_sorted_permutation(s2);
    lemma_sort_distinct(s1);
    lemma_sorted_unique(sort_by_time(s1), sort_by_time(s2));
}

/// Enters the directory with device number `device` and inode number
/// `inode`, where `visited` holds the directories that the walk is inside.
/// Returns `false`, leaving `visited` as it was, when the directory is one
/// of them: entering it would walk a cycle of links forever. Otherwise
/// records it and returns `true`.
pub fn enter_dir(visited: &mut Vec<(u64, u64)>, device: u64, inode: u64) -> (r: bool)
    ensures
        r == !old(visited)@.contains((device, inode)),
        final(visited)@ == if r {
            old(visited)@.push((device, inode))
        } else {
            old(visited)@
        },
{
    let mut i: usize = 0;
    while i < visited.len()
        invariant
            i <= visited@.len(),
            forall|k: int| 0 <= k < i ==> visited@[k] != (device, inode),
        decreases visited@.len() - i,
    {
        if visited[i].0 == device && visited[i].1 == inode {
            assert(visited@[i as int] == (device, inode));
            return false;
        }
        i = i + 1;
    }
    visited.push((device, inode));
    true
}

} // verus!
