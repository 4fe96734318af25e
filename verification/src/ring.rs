//! The capture ring buffer of the plugins: the audio thread writes one sample
//! at a time at the write index, which then moves on and wraps around; the
//! UI reads the most recent samples, oldest first.
use vstd::prelude::*;

verus! {

/// A fixed-size ring of samples with a write index.
pub struct RingBuffer<T> {
    buf: Vec<T>,
    write_idx: usize,
}

/// The `n` most recent slots before `cursor`, oldest first.
pub open spec fn window<T>(slots: Seq<T>, cursor: int, n: int) -> Seq<T> {
    Seq::new(n as nat, |j: int| slots[(cursor + slots.len() - n + j) % (slots.len() as int)])
}

/// `x % m` for `0 <= x < 2m`.
proof fn lemma_mod_once(x: int, m: int)
    requires
        0 < m,
        0 <= x < 2 * m,
    ensures
        x % m == (if x < m {
            x
        } else {
            x - m
        }),
{
    if x < m {
        vstd::arithmetic::div_mod::lemma_small_mod(x as nat, m as nat);
    } else {
        vstd::arithmetic::div_mod::lemma_small_mod((x - m) as nat, m as nat);
        vstd::arithmetic::div_mod::lemma_mod_sub_multiples_vanish(x, m);
    }
}

impl<T: Copy> RingBuffer<T> {
    /// The slots, in storage order.
    pub closed spec fn slots(&self) -> Seq<T> {
        self.buf@
    }

    /// Where the next sample goes.
    pub closed spec fn cursor(&self) -> int {
        self.write_idx as int
    }

    /// The ring has at least one slot and its cursor is on one.
    pub closed spec fn wf(&self) -> bool {
        self.buf.len() > 0 && self.write_idx < self.buf.len()
    }

    /// A well-formed ring has a slot under its cursor.
    pub proof fn lemma_wf(&self)
        requires
            self.wf(),
        ensures
            self.slots().len() > 0,
            0 <= self.cursor() < self.slots().len(),
    {
    }

    /// A ring of `size` slots holding `fill`, writing at slot 0
    /// (`vec![0.0; BUFFER_SIZE]` with `write_idx = 0`).
    pub fn new(size: usize, fill: T) -> (res: Self)
        requires
            size > 0,
        ensures
            res.wf(),
            res.slots() == Seq::new(size as nat, |i: int| fill),
            res.cursor() == 0,
    {
        let mut buf: Vec<T> = Vec::new();
        let mut i: usize = 0;
        while i < size
            invariant
                i <= size,
                buf@ == Seq::new(i as nat, |k: int| fill),
            decreases size - i,
        {
            buf.push(fill);
            i = i + 1;
            assert(buf@ =~= Seq::new(i as nat, |k: int| fill));
        }
        RingBuffer { buf, write_idx: 0 }
    }

    /// The number of slots.
    pub fn len(&self) -> (res: usize)
        ensures
            res == self.slots().len(),
    {
        self.buf.len()
    }

    /// Where the next sample goes.
    pub fn write_index(&self) -> (res: usize)
        ensures
            res == self.cursor(),
    {
        self.write_idx
    }

    /// The sample in slot `i`.
    pub fn get(&self, i: usize) -> (res: T)
        requires
            i < self.slots().len(),
        ensures
            res == self.slots()[i as int],
    {
        self.buf[i]
    }

    /// Writes `x` at the write index and moves it on, wrapping around; returns
    /// the sample that was in the slot before the write index (the previous
    /// sample, which the zero-crossing trigger compares with the new one).
    pub fn push(&mut self, x: T) -> (prev: T)
        requires
            old(self).wf(),
        ensures
            final(self).wf(),
            final(self).slots() == old(self).slots().update(old(self).cursor(), x),
            final(self).cursor() == (old(self).cursor() + 1) % (old(self).slots().len() as int),
            prev == old(self).slots()[(old(self).cursor() + old(self).slots().len() - 1) % (old(
                self,
            ).slots().len() as int)],
    {
        let n = self.buf.len();
        let w = self.write_idx;
        let prev_idx = if w == 0 {
            n - 1
        } else {
            w - 1
        };
        proof {
            lemma_mod_once(w + n - 1, n as int);
        }
        let prev = self.buf[prev_idx];
        self.buf.set(w, x);
        self.write_idx = (w + 1) % n;
        prev
    }

    /// The `n` most recent samples, oldest first (the UI's snapshot).
    pub fn snapshot(&self, n: usize) -> (res: Vec<T>)
        requires
            self.wf(),
            n <= self.slots().len(),
        ensures
            res@ == window(self.slots(), self.cursor(), n as int),
    {
        let len = self.buf.len();
        let w = self.write_idx;
        let mut res: Vec<T> = Vec::new();
        let mut j: usize = 0;
        while j < n
            invariant
                j <= n,
                n <= len,
                len == self.buf.len(),
                w == self.write_idx,
                w < len,
                res@ == window(self.slots(), self.cursor(), n as int).take(j as int),
            decreases n - j,
        {
            proof {
                lemma_mod_once(w + len - n + j, len as int);
            }
            let back = n - j;
            let k = if w >= back {
                w - back
            } else {
                w + (len - back)
            };
            res.push(self.buf[k]);
            j = j + 1;
            assert(res@ =~= window(self.slots(), self.cursor(), n as int).take(j as int));
        }
        assert(res@ =~= window(self.slots(), self.cursor(), n as int));
        res
    }

    /// The slots around `i` that a four-point cubic interpolation at `i`
    /// reads: the one before (wrapping to the last), `i`, and the next two
    /// (wrapping to the first).
    pub fn cubic_neighbours(&self, i: usize) -> (res: (usize, usize, usize, usize))
        requires
            self.wf(),
            i < self.slots().len(),
        ensures
            res.0 == (i + self.slots().len() - 1) % (self.slots().len() as int),
            res.1 == i,
            res.2 == (i + 1) % (self.slots().len() as int),
            res.3 == (i + 2) % (self.slots().len() as int),
            res.0 < self.slots().len() && res.2 < self.slots().len() && res.3 < self.slots().len(),
    {
        let n = self.buf.len();
        proof {
            lemma_mod_once(i + n - 1, n as int);
            lemma_mod_once(i + 1, n as int);
        }
        let i0 = if i == 0 {
            n - 1
        } else {
            i - 1
        };
        let i2 = if i + 1 < n {
            i + 1
        } else {
            0
        };
        proof {
            lemma_mod_once(i2 + 1, n as int);
            if n > 1 {
                lemma_mod_once(i + 2, n as int);
            } else {
                vstd::arithmetic::div_mod::lemma_mod_sub_multiples_vanish(1, 1);
                vstd::arithmetic::div_mod::lemma_mod_sub_multiples_vanish(2, 1);
                vstd::arithmetic::div_mod::lemma_small_mod(0, 1);
            }
        }
        let i3 = if i2 + 1 < n {
            i2 + 1
        } else {
            0
        };
        (i0, i, i2, i3)
    }
}

/// A write shifts the window of recent samples by one: the oldest leaves and
/// the written sample comes in as the newest. So the `n` most recent samples
/// read back are always the last `n` written (for `1 <= n <=` the size).
pub proof fn lemma_window_slides<T>(slots: Seq<T>, cursor: int, x: T, n: int)
    requires
        slots.len() > 0,
        0 <= cursor < slots.len(),
        1 <= n <= slots.len(),
    ensures
        window(slots.update(cursor, x), (cursor + 1) % (slots.len() as int), n) == window(
            slots,
            cursor,
            n,
        ).drop_first().push(x),
{
    let len = slots.len() as int;
    let s2 = slots.update(cursor, x);
    lemma_mod_once(cursor + 1, len);
    let c2 = (cursor + 1) % len;
    let lhs = window(s2, c2, n);
    let rhs = window(slots, cursor, n).drop_first().push(x);
    assert forall|j: int| 0 <= j < n implies lhs[j] == rhs[j] by {
        lemma_mod_once(c2 + len - n + j, len);
        if j == n - 1 {
            assert((c2 + len - n + j) % len == cursor);
        } else {
            lemma_mod_once(cursor + len - n + j + 1, len);
            assert((c2 + len - n + j) % len == (cursor + len - n + (j + 1)) % len);
            assert((c2 + len - n + j) % len != cursor);
        }
    }
    assert(lhs =~= rhs);
}

/// What was written last is what a one-sample read gives back.
pub proof fn lemma_read_last_write<T>(slots: Seq<T>, cursor: int, x: T)
    requires
        slots.len() > 0,
        0 <= cursor < slots.len(),
    ensures
        window(slots.update(cursor, x), (cursor + 1) % (slots.len() as int), 1) == seq![x],
{
    lemma_window_slides(slots, cursor, x, 1);
    assert(window(slots, cursor, 1).drop_first().push(x) =~= seq![x]);
}

} // verus!
