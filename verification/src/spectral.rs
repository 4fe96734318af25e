//! Index work of the curve transforms: which harmonic amplitude goes where,
//! and where a resynthesized cycle starts. The amplitudes and samples are
//! floating-point values that the program reads off curves; here they are
//! carried as an opaque `T`, with `silent` standing for a zero amplitude.
use vstd::prelude::*;

verus! {

/// Harmonic `k` (stored at index `k - 1`) moves to harmonic `2k`: index `j`
/// of the result holds what index `j / 2` held where `j` is odd (harmonic
/// `j + 1` is even), and is silent elsewhere.
pub open spec fn spec_octave_up<T>(src: Seq<T>, silent: T) -> Seq<T> {
    Seq::new(src.len(), |j: int| if j % 2 == 1 { src[j / 2] } else { silent })
}

/// Only odd harmonics (1, 3, 5, …; even indices) keep their amplitude.
pub open spec fn spec_keep_odd<T>(amps: Seq<T>, silent: T) -> Seq<T> {
    Seq::new(amps.len(), |i: int| if i % 2 == 0 { amps[i] } else { silent })
}

/// "Oct Up": shifts the spectrum up by one octave, harmonic `k` to harmonic
/// `2k`, dropping what would land above the last harmonic.
pub fn octave_up<T: Copy>(src: &Vec<T>, silent: T) -> (res: Vec<T>)
    ensures
        res@ == spec_octave_up(src@, silent),
        res@.len() == src@.len(),
        forall|k: int| 1 <= k && 2 * k <= src@.len() ==> #[trigger] res@[2 * k - 1] == src@[k - 1],
        forall|h: int| 1 <= h <= src@.len() && h % 2 == 1 ==> #[trigger] res@[h - 1] == silent,
{
    let n = src.len();
    let mut amps: Vec<T> = Vec::new();
    let mut j: usize = 0;
    while j < n
        invariant
            j <= n,
            amps@ == Seq::new(j as nat, |k: int| silent),
        decreases n - j,
    {
        amps.push(silent);
        j = j + 1;
        assert(amps@ =~= Seq::new(j as nat, |k: int| silent));
    }
    let mut i: usize = 0;
    while i < n
        invariant
            i <= n,
            n == src.len(),
            amps@.len() == n,
            forall|j: int|
                0 <= j < n ==> #[trigger] amps@[j] == (if j % 2 == 1 && j / 2 < i {
                    src@[j / 2]
                } else {
                    silent
                }),
        decreases n - i,
    {
        // new_k = 2 * (i + 1) <= n
        if i + 1 <= n / 2 {
            let new_k = 2 * (i + 1);
            amps.set(new_k - 1, src[i]);
        }
        i = i + 1;
    }
    assert(amps@ =~= spec_octave_up(src@, silent));
    proof {
        lemma_octave_up_moves_harmonics(src@, silent);
    }
    amps
}

/// "Thin": zeroes the even harmonics, keeping only odd ones (1, 3, 5, …).
pub fn keep_odd_harmonics<T: Copy>(amps: &Vec<T>, silent: T) -> (res: Vec<T>)
    ensures
        res@ == spec_keep_odd(amps@, silent),
{
    let mut res: Vec<T> = Vec::new();
    let mut i: usize = 0;
    while i < amps.len()
        invariant
            i <= amps.len(),
            res@ == spec_keep_odd(amps@, silent).take(i as int),
        decreases amps.len() - i,
    {
        // i = 0 is harmonic 1 (odd): kept
        if i % 2 == 0 {
            res.push(amps[i]);
        } else {
            res.push(silent);
        }
        i = i + 1;
        assert(res@ =~= spec_keep_odd(amps@, silent).take(i as int));
    }
    assert(res@ =~= spec_keep_odd(amps@, silent));
    res
}

/// "Oct Up" moves harmonic `k` to harmonic `2k` wherever `2k` is among the
/// harmonics (the last one included), and leaves every odd harmonic silent;
/// the number of harmonics stays.
pub proof fn lemma_octave_up_moves_harmonics<T>(src: Seq<T>, silent: T)
    ensures
        spec_octave_up(src, silent).len() == src.len(),
        forall|k: int|
            1 <= k && 2 * k <= src.len() ==> #[trigger] spec_octave_up(src, silent)[2 * k - 1]
                == src[k - 1],
        forall|h: int|
            1 <= h <= src.len() && h % 2 == 1 ==> #[trigger] spec_octave_up(src, silent)[h - 1]
                == silent,
{
    assert forall|k: int| 1 <= k && 2 * k <= src.len() implies #[trigger] spec_octave_up(
        src,
        silent,
    )[2 * k - 1] == src[k - 1] by {
        assert((2 * k - 1) % 2 == 1);
        assert((2 * k - 1) / 2 == k - 1);
    }
    assert forall|h: int| 1 <= h <= src.len() && h % 2 == 1 implies #[trigger] spec_octave_up(
        src,
        silent,
    )[h - 1] == silent by {
        assert((h - 1) % 2 == 0);
    }
}

/// After an octave up only even harmonics sound, so thinning silences all.
pub proof fn lemma_thin_after_octave_up<T>(src: Seq<T>, silent: T)
    ensures
        spec_keep_odd(spec_octave_up(src, silent), silent) == Seq::new(src.len(), |i: int| silent),
{
    assert(spec_keep_odd(spec_octave_up(src, silent), silent) =~= Seq::new(
        src.len(),
        |i: int| silent,
    ));
}

/// Thinning twice is thinning once.
pub proof fn lemma_thin_idempotent<T>(amps: Seq<T>, silent: T)
    ensures
        spec_keep_odd(spec_keep_odd(amps, silent), silent) == spec_keep_odd(amps, silent),
{
    assert(spec_keep_odd(spec_keep_odd(amps, silent), silent) =~= spec_keep_odd(amps, silent));
}

// ── phase normalization ─────────────────────────────────────────────────────

/// Whether sample `i` is below the centre line (`below[i]`) and the next one
/// (wrapping around) is at or above it (`above[i + 1]`): an upward crossing.
/// The two flags are separate comparisons, so a sample that is neither (not
/// a number) makes no crossing on either side.
pub open spec fn crosses_up(below: Seq<bool>, above: Seq<bool>, i: int) -> bool {
    below[i] && above[(i + 1) % (below.len() as int)]
}

/// The first upward crossing at or after `i`.
pub open spec fn first_crossing_from(below: Seq<bool>, above: Seq<bool>, i: int) -> Option<int>
    decreases below.len() - i,
{
    if i < 0 || i >= below.len() {
        None
    } else if crosses_up(below, above, i) {
        Some(i)
    } else {
        first_crossing_from(below, above, i + 1)
    }
}

/// `slice::rotate_left(k)`: the first `k` items move to the end.
pub open spec fn rotate_left<T>(s: Seq<T>, k: int) -> Seq<T> {
    s.skip(k) + s.take(k)
}

/// The samples of a cycle after phase normalization: rotated so that the
/// cycle starts just after its first upward crossing, or unchanged where it
/// has none.
pub open spec fn spec_phase_normalize<T>(samples: Seq<T>, below: Seq<bool>, above: Seq<bool>) -> Seq<T> {
    match first_crossing_from(below, above, 0) {
        Some(offset) => rotate_left(samples, offset + 1),
        None => samples,
    }
}

proof fn lemma_first_crossing_range(below: Seq<bool>, above: Seq<bool>, i: int)
    requires
        0 <= i,
    ensures
        first_crossing_from(below, above, i) matches Some(k) ==> i <= k < below.len()
            && crosses_up(below, above, k),
    decreases below.len() - i,
{
    if i < below.len() && !crosses_up(below, above, i) {
        lemma_first_crossing_range(below, above, i + 1);
    }
}

/// Cyclically rotates `samples` so the cycle starts at the first upward
/// crossing of the centre line: `below[i]` says whether `samples[i]` is below
/// it, `above[i]` whether it is at or above it. Without a crossing (a flat or
/// DC-only signal) nothing moves.
pub fn phase_normalize<T: Copy>(samples: &mut Vec<T>, below: &Vec<bool>, above: &Vec<bool>)
    requires
        old(samples)@.len() == below@.len(),
        above@.len() == below@.len(),
    ensures
        final(samples)@ == spec_phase_normalize(old(samples)@, below@, above@),
{
    let n = samples.len();
    let mut i: usize = 0;
    let mut shift: Option<usize> = None;
    while i < n
        invariant_except_break
            i <= n,
            shift is None,
            first_crossing_from(below@, above@, 0) == first_crossing_from(below@, above@, i as int),
        invariant
            n == below@.len(),
            n == above@.len(),
            n == samples@.len(),
        ensures
            shift matches Some(o) ==> o < n && first_crossing_from(below@, above@, 0) == Some(
                o as int,
            ),
            shift is None ==> first_crossing_from(below@, above@, 0) is None,
        decreases n - i,
    {
        let next = if i + 1 < n {
            i + 1
        } else {
            0
        };
        proof {
            if i + 1 < n {
                vstd::arithmetic::div_mod::lemma_small_mod((i + 1) as nat, n as nat);
            } else {
                vstd::arithmetic::div_mod::lemma_mod_self_0(n as int);
            }
        }
        if below[i] && above[next] {
            shift = Some(i);
            break;
        }
        i = i + 1;
    }
    match shift {
        Some(offset) => {
            let k = offset + 1;
            let mut res: Vec<T> = Vec::new();
            let mut j = k;
            while j < n
                invariant
                    k <= j <= n,
                    n == samples@.len(),
                    res@ == samples@.subrange(k as int, j as int),
                decreases n - j,
            {
                res.push(samples[j]);
                j = j + 1;
                assert(res@ =~= samples@.subrange(k as int, j as int));
            }
            let mut j: usize = 0;
            while j < k
                invariant
                    j <= k <= n,
                    n == samples@.len(),
                    res@ == samples@.skip(k as int) + samples@.take(j as int),
                decreases k - j,
            {
                res.push(samples[j]);
                j = j + 1;
                assert(res@ =~= samples@.skip(k as int) + samples@.take(j as int));
            }
            *samples = res;
        },
        None => {},
    }
}

/// After phase normalization the cycle starts at or above the centre line
/// and ends below it: the upward crossing sits where the loop wraps.
pub proof fn lemma_phase_normalize_starts_at_crossing(below: Seq<bool>, above: Seq<bool>)
    requires
        above.len() == below.len(),
        first_crossing_from(below, above, 0) is Some,
    ensures
        spec_phase_normalize(below, below, above).last() == true,
        spec_phase_normalize(above, below, above)[0] == true,
{
    lemma_first_crossing_range(below, above, 0);
    let off = first_crossing_from(below, above, 0)->0;
    let n = below.len() as int;
    let r = spec_phase_normalize(below, below, above);
    let q = spec_phase_normalize(above, below, above);
    assert(r =~= below.skip(off + 1) + below.take(off + 1));
    assert(q =~= above.skip(off + 1) + above.take(off + 1));
    assert(r.last() == below[off]);
    if off + 1 < n {
        vstd::arithmetic::div_mod::lemma_small_mod((off + 1) as nat, n as nat);
        assert(q[0] == above[off + 1]);
    } else {
        vstd::arithmetic::div_mod::lemma_mod_self_0(n);
        assert(q[0] == above[0]);
    }
}

/// How far phase normalization rotates a cycle.
pub open spec fn phase_shift(below: Seq<bool>, above: Seq<bool>) -> int {
    match first_crossing_from(below, above, 0) {
        Some(offset) => offset + 1,
        None => 0,
    }
}

/// Phase normalization only moves samples around the loop: sample `j` of the
/// result is sample `j + k` (wrapping) of the input, for the one shift `k`.
pub proof fn lemma_phase_normalize_rotates<T>(samples: Seq<T>, below: Seq<bool>, above: Seq<bool>)
    requires
        samples.len() == below.len(),
    ensures
        spec_phase_normalize(samples, below, above).len() == samples.len(),
        0 <= phase_shift(below, above) <= samples.len(),
        forall|j: int|
            0 <= j < samples.len() ==> #[trigger] spec_phase_normalize(samples, below, above)[j]
                == samples[(j + phase_shift(below, above)) % (samples.len() as int)],
{
    lemma_first_crossing_range(below, above, 0);
    let n = samples.len() as int;
    let r = spec_phase_normalize(samples, below, above);
    let k = phase_shift(below, above);
    assert forall|j: int| 0 <= j < n implies #[trigger] r[j] == samples[(j + k) % n] by {
        if j + k < n {
            vstd::arithmetic::div_mod::lemma_small_mod((j + k) as nat, n as nat);
        } else {
            vstd::arithmetic::div_mod::lemma_small_mod((j + k - n) as nat, n as nat);
            vstd::arithmetic::div_mod::lemma_mod_sub_multiples_vanish(j + k, n);
        }
    }
}

} // verus!
