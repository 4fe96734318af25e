//! The plugins' capture trigger on the audio thread: each incoming sample is
//! written into the ring buffer; while a capture is armed, the first sample
//! that rises through zero (the previous one at or below zero, this one above)
//! fires it, and the single cycle that just finished is extracted from the
//! ring with the write index of that sample. Extraction is floating-point
//! work of the plugin; the plugin also tells, per sample, whether it rises.
use vstd::prelude::*;

use crate::ring::RingBuffer;

verus! {

/// The ring's slots and cursor after writing `xs` one after the other from
/// `cursor` on, wrapping around.
pub open spec fn write_seq<T>(slots: Seq<T>, cursor: int, xs: Seq<T>) -> (Seq<T>, int)
    decreases xs.len(),
{
    if xs.len() == 0 {
        (slots, cursor)
    } else {
        let before = write_seq(slots, cursor, xs.drop_last());
        (before.0.update(before.1, xs.last()), (before.1 + 1) % (before.0.len() as int))
    }
}

/// The first index at or after `i` where the signal rises through zero.
pub open spec fn first_rise(rising: Seq<bool>, i: int) -> Option<int>
    decreases rising.len() - i,
{
    if i < 0 || i >= rising.len() {
        None
    } else if rising[i] {
        Some(i)
    } else {
        first_rise(rising, i + 1)
    }
}

/// Where an armed capture fires in a block fed from `from` on: nowhere when
/// disarmed.
pub open spec fn fire_at(rising: Seq<bool>, from: int, armed: bool) -> Option<int> {
    if armed {
        first_rise(rising, from)
    } else {
        None
    }
}

proof fn lemma_first_rise_range(rising: Seq<bool>, i: int)
    requires
        0 <= i,
    ensures
        first_rise(rising, i) matches Some(k) ==> i <= k < rising.len() && rising[k],
    decreases rising.len() - i,
{
    if i < rising.len() && !rising[i] {
        lemma_first_rise_range(rising, i + 1);
    }
}

/// Writing keeps the number of slots.
proof fn lemma_write_seq_len<T>(slots: Seq<T>, cursor: int, xs: Seq<T>)
    requires
        0 <= cursor < slots.len(),
    ensures
        write_seq(slots, cursor, xs).0.len() == slots.len(),
        0 <= write_seq(slots, cursor, xs).1 < slots.len(),
    decreases xs.len(),
{
    if xs.len() > 0 {
        lemma_write_seq_len(slots, cursor, xs.drop_last());
    }
}

/// Feeds `block[from..]` into the ring, sample by sample. `rising[i]` says
/// whether `block[i]` rises through zero from the sample before it. With the
/// capture armed, feeding stops right after the first rising sample and
/// returns its index and the slot it was written to (the write index the
/// extraction starts from); otherwise the whole rest is written and `None`
/// comes back. Either way no sample is skipped: feeding on from the next
/// index writes the remainder.
pub fn feed<T: Copy>(
    ring: &mut RingBuffer<T>,
    block: &Vec<T>,
    rising: &Vec<bool>,
    from: usize,
    armed: bool,
) -> (res: Option<(usize, usize)>)
    requires
        old(ring).wf(),
        rising@.len() == block@.len(),
        from <= block@.len(),
    ensures
        final(ring).wf(),
        match fire_at(rising@, from as int, armed) {
            Some(k) => {
                &&& from <= k < block@.len()
                &&& res == Some(
                    (
                        k as usize,
                        write_seq(
                            old(ring).slots(),
                            old(ring).cursor(),
                            block@.subrange(from as int, k),
                        ).1 as usize,
                    ),
                )
                &&& (final(ring).slots(), final(ring).cursor()) == write_seq(
                    old(ring).slots(),
                    old(ring).cursor(),
                    block@.subrange(from as int, k + 1),
                )
            },
            None => {
                &&& res is None
                &&& (final(ring).slots(), final(ring).cursor()) == write_seq(
                    old(ring).slots(),
                    old(ring).cursor(),
                    block@.subrange(from as int, block@.len() as int),
                )
            },
        },
{
    let ghost s0 = ring.slots();
    let ghost c0 = ring.cursor();
    proof {
        lemma_first_rise_range(rising@, from as int);
        assert(block@.subrange(from as int, from as int) =~= Seq::<T>::empty());
    }
    let mut i: usize = from;
    while i < block.len()
        invariant
            from <= i <= block@.len(),
            rising@.len() == block@.len(),
            s0 == old(ring).slots(),
            c0 == old(ring).cursor(),
            ring.wf(),
            (ring.slots(), ring.cursor()) == write_seq(s0, c0, block@.subrange(from as int, i as int)),
            armed ==> first_rise(rising@, from as int) == first_rise(rising@, i as int),
        decreases block@.len() - i,
    {
        let w = ring.write_index();
        let x = block[i];
        ring.push(x);
        proof {
            let sub = block@.subrange(from as int, i as int + 1);
            assert(sub.drop_last() =~= block@.subrange(from as int, i as int));
            assert(sub.last() == x);
        }
        if armed && rising[i] {
            return Some((i, w));
        }
        i = i + 1;
    }
    None
}

/// Whether the audio thread keeps incoming samples at all: only while the
/// editor is open or a capture is armed (otherwise the sampler sleeps).
pub fn keeps_samples(gui_open: bool, armed: bool) -> (res: bool)
    ensures
        res == (gui_open || armed),
{
    gui_open || armed
}

/// The armed flag after a feed: a capture that fired is disarmed (one cycle
/// per button press); otherwise it stays as it was.
pub fn armed_after(armed: bool, fired: Option<(usize, usize)>) -> (res: bool)
    ensures
        res == (armed && fired is None),
{
    match fired {
        Some(_) => false,
        None => armed,
    }
}

/// Feeding never loses or reorders samples: writing `a` and then `b` leaves
/// the ring as writing `a + b` does. So stopping at a capture and feeding on
/// from the next sample writes the block exactly as feeding it whole.
pub proof fn lemma_write_seq_concat<T>(slots: Seq<T>, cursor: int, a: Seq<T>, b: Seq<T>)
    requires
        0 <= cursor < slots.len(),
    ensures
        write_seq(write_seq(slots, cursor, a).0, write_seq(slots, cursor, a).1, b) == write_seq(
            slots,
            cursor,
            a + b,
        ),
    decreases b.len(),
{
    if b.len() == 0 {
        assert(a + b =~= a);
    } else {
        lemma_write_seq_concat(slots, cursor, a, b.drop_last());
        assert((a + b).drop_last() =~= a + b.drop_last());
        assert((a + b).last() == b.last());
        lemma_write_seq_len(slots, cursor, a);
        lemma_write_seq_len(slots, cursor, a + b.drop_last());
    }
}

} // verus!
