//! The MIDI notes held down, as the sampler keeps them: sorted, lowest first,
//! so that the lowest note (the one whose period the capture follows) is the
//! first.
use vstd::prelude::*;

verus! {

/// Non-decreasing order.
pub open spec fn is_sorted(s: Seq<u8>) -> bool {
    forall|i: int, j: int| 0 <= i <= j < s.len() ==> s[i] <= s[j]
}

/// The first position at or after `i` holding a note above `x` (or the end).
pub open spec fn first_above(s: Seq<u8>, x: u8, i: int) -> int
    decreases s.len() - i,
{
    if i < 0 || i >= s.len() {
        s.len() as int
    } else if s[i] > x {
        i
    } else {
        first_above(s, x, i + 1)
    }
}

/// The held notes after a note-on: the note goes in after every note that is
/// not above it (what pushing it and sorting gives).
pub open spec fn with_note(s: Seq<u8>, x: u8) -> Seq<u8> {
    s.insert(first_above(s, x, 0), x)
}

/// Whether a held note is not `x`.
pub open spec fn other_than(x: u8) -> spec_fn(u8) -> bool {
    |n: u8| n != x
}

/// The held notes after a note-off: every copy of the note leaves.
pub open spec fn without_note(s: Seq<u8>, x: u8) -> Seq<u8> {
    s.filter(other_than(x))
}

proof fn lemma_first_above(s: Seq<u8>, x: u8, i: int)
    requires
        0 <= i <= s.len(),
        is_sorted(s),
        forall|k: int| 0 <= k < i ==> s[k] <= x,
    ensures
        0 <= first_above(s, x, i) <= s.len(),
        forall|k: int| 0 <= k < first_above(s, x, i) ==> s[k] <= x,
        forall|k: int| first_above(s, x, i) <= k < s.len() ==> s[k] > x,
    decreases s.len() - i,
{
    if i < s.len() && s[i] <= x {
        lemma_first_above(s, x, i + 1);
    }
}

/// NoteOn: adds `note` to the held notes, keeping them sorted.
pub fn note_on(notes: &mut Vec<u8>, note: u8)
    requires
        is_sorted(old(notes)@),
    ensures
        final(notes)@ == with_note(old(notes)@, note),
        is_sorted(final(notes)@),
{
    let ghost s = notes@;
    let mut i: usize = 0;
    while i < notes.len() && notes[i] <= note
        invariant
            i <= notes.len(),
            notes@ == s,
            is_sorted(s),
            forall|k: int| 0 <= k < i ==> s[k] <= note,
            first_above(s, note, 0) == first_above(s, note, i as int),
        decreases notes.len() - i,
    {
        i = i + 1;
    }
    proof {
        lemma_first_above(s, note, i as int);
    }
    notes.insert(i, note);
    let ghost r = notes@;
    assert(r =~= with_note(s, note));
    assert forall|a: int, b: int| 0 <= a <= b < r.len() implies r[a] <= r[b] by {
        if a < i && b < i {
        } else if a < i && b == i {
        } else if a < i {
            assert(r[b] == s[b - 1]);
        } else if a == i && b > i {
            assert(r[b] == s[b - 1]);
        } else if a > i {
            assert(r[a] == s[a - 1]);
            assert(r[b] == s[b - 1]);
        }
    }
}

/// NoteOff: removes every copy of `note` from the held notes.
pub fn note_off(notes: &mut Vec<u8>, note: u8)
    requires
        is_sorted(old(notes)@),
    ensures
        final(notes)@ == without_note(old(notes)@, note),
        is_sorted(final(notes)@),
        !final(notes)@.contains(note),
{
    let ghost s = notes@;
    let ghost keep = other_than(note);
    let mut kept: Vec<u8> = Vec::new();
    let mut i: usize = 0;
    assert(s.take(0) =~= seq![]);
    while i < notes.len()
        invariant
            i <= notes.len(),
            notes@ == s,
            is_sorted(s),
            keep == other_than(note),
            kept@ == s.take(i as int).filter(keep),
            is_sorted(kept@),
            forall|k: int| i <= k < s.len() ==> kept@.len() > 0 ==> kept@.last() <= s[k],
            forall|k: int| 0 <= k < kept@.len() ==> kept@[k] != note,
        decreases notes.len() - i,
    {
        let n = notes[i];
        proof {
            reveal(Seq::filter);
            let t = s.take(i as int + 1);
            assert(t.drop_last() =~= s.take(i as int));
            assert(t.last() == n);
            assert(t.filter(keep) == (if n != note {
                s.take(i as int).filter(keep).push(n)
            } else {
                s.take(i as int).filter(keep)
            }));
        }
        if n != note {
            kept.push(n);
        }
        i = i + 1;
    }
    assert(s.take(i as int) =~= s);
    *notes = kept;
}

/// The lowest held note, which sets the capture period when notes are held.
pub fn lowest_note(notes: &Vec<u8>) -> (res: Option<u8>)
    requires
        is_sorted(notes@),
    ensures
        notes@.len() == 0 ==> res is None,
        notes@.len() > 0 ==> res == Some(notes@[0]),
        res matches Some(n) ==> forall|k: int| 0 <= k < notes@.len() ==> n <= notes@[k],
{
    if notes.len() == 0 {
        None
    } else {
        Some(notes[0])
    }
}

proof fn lemma_filter_keeps_all(s: Seq<u8>, x: u8)
    requires
        !s.contains(x),
    ensures
        s.filter(other_than(x)) == s,
    decreases s.len(),
{
    reveal(Seq::filter);
    if s.len() > 0 {
        lemma_filter_keeps_all(s.drop_last(), x);
        assert(s.drop_last().push(s.last()) =~= s);
    } else {
        assert(s.filter(other_than(x)) =~= s);
    }
}

proof fn lemma_first_above_range(s: Seq<u8>, x: u8, i: int)
    requires
        0 <= i <= s.len(),
    ensures
        i <= first_above(s, x, i) <= s.len(),
    decreases s.len() - i,
{
    if i < s.len() && s[i] <= x {
        lemma_first_above_range(s, x, i + 1);
    }
}

proof fn lemma_filter_drops_one(x: u8)
    ensures
        seq![x].filter(other_than(x)) == Seq::<u8>::empty(),
{
    reveal_with_fuel(Seq::filter, 2);
    assert(seq![x].drop_last() =~= Seq::<u8>::empty());
}

proof fn lemma_not_contains_parts(s: Seq<u8>, p: int, x: u8)
    requires
        0 <= p <= s.len(),
        !s.contains(x),
    ensures
        !s.take(p).contains(x),
        !s.skip(p).contains(x),
{
    if s.take(p).contains(x) {
        let k = choose|k: int| 0 <= k < s.take(p).len() && s.take(p)[k] == x;
        assert(s[k] == x);
    }
    if s.skip(p).contains(x) {
        let k = choose|k: int| 0 <= k < s.skip(p).len() && s.skip(p)[k] == x;
        assert(s[k + p] == x);
    }
}

proof fn lemma_with_note_split(s: Seq<u8>, x: u8)
    ensures
        with_note(s, x) == s.take(first_above(s, x, 0)) + seq![x] + s.skip(first_above(s, x, 0)),
{
    lemma_first_above_range(s, x, 0);
    let p = first_above(s, x, 0);
    assert(s.insert(p, x) =~= s.take(p) + seq![x] + s.skip(p));
}

proof fn lemma_filter_around(a: Seq<u8>, b: Seq<u8>, x: u8)
    requires
        !a.contains(x),
        !b.contains(x),
    ensures
        (a + seq![x] + b).filter(other_than(x)) == a + b,
{
    let keep = other_than(x);
    let ax = a + seq![x];
    Seq::filter_distributes_over_add(ax, b, keep);
    Seq::filter_distributes_over_add(a, seq![x], keep);
    lemma_filter_keeps_all(a, x);
    lemma_filter_keeps_all(b, x);
    lemma_filter_drops_one(x);
    assert(a + Seq::<u8>::empty() =~= a);
}

/// Pressing a note that is not held and releasing it again leaves the held
/// notes as they were.
pub proof fn lemma_note_on_off(s: Seq<u8>, x: u8)
    requires
        !s.contains(x),
    ensures
        without_note(with_note(s, x), x) == s,
{
    lemma_first_above_range(s, x, 0);
    let p = first_above(s, x, 0);
    lemma_with_note_split(s, x);
    lemma_not_contains_parts(s, p, x);
    lemma_filter_around(s.take(p), s.skip(p), x);
    assert(s.take(p) + s.skip(p) =~= s);
}

} // verus!
