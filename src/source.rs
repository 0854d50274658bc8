//! Where die values come from: the thread's random generator, or a fixed
//! sequence of values that is replayed in a cycle.
use vstd::prelude::*;
use rand::Rng;
use vstd::arithmetic::div_mod::{lemma_add_mod_noop, lemma_mod_twice};

verus! {

/// `v` brought into `[lo, hi]`.
pub open spec fn clamp(v: int, lo: int, hi: int) -> int {
    if v < lo {
        lo
    } else if v > hi {
        hi
    } else {
        v
    }
}

/// Relies on rand's `Rng::gen_range` on the thread generator: for a non-empty
/// range `0..len` it returns a value inside that range (it panics on an empty one).
#[verifier::external_body]
fn random_index(len: usize) -> (r: usize)
    requires
        len > 0,
    ensures
        r < len,
{
    rand::thread_rng().gen_range(0..len)
}

/// A source of die values. When `random` is false, draws replay `values`
/// cyclically from position `next`; an empty list yields zero, clamped.
pub struct DiceSource {
    pub random: bool,
    pub values: Vec<i64>,
    pub next: usize,
}

/// After a replayed draw, what came `k + 1` draws later now comes `k` draws later.
pub proof fn lemma_draw_shifts(old: &DiceSource, new: &DiceSource, k: int)
    requires
        !old.random,
        DiceSource::drawn(old, new),
        k >= 0,
    ensures
        new.peek_at(k) == old.peek_at(k + 1),
{
    if old.values@.len() > 0 {
        let len = old.values@.len() as int;
        let n = old.next as int;
        lemma_add_mod_noop(n, 1 + k, len);
        lemma_add_mod_noop(n % len, 1 + k, len);
        lemma_mod_twice(n, len);
        assert(new.next as int + k == n % len + (1 + k));
    }
}

impl DiceSource {
    /// The value that the draw `k` draws from now starts from (before
    /// clamping), for a replayed source.
    pub open spec fn peek_at(&self, k: int) -> int {
        if self.values@.len() == 0 {
            0
        } else {
            self.values@[(self.next as int + k) % (self.values@.len() as int)] as int
        }
    }

    /// The value the next draw starts from (before clamping), for a replayed source.
    pub open spec fn peek(&self) -> int {
        self.peek_at(0)
    }

    /// The replay position after one draw.
    pub open spec fn next_after_draw(&self) -> int {
        if self.values@.len() == 0 {
            self.next as int
        } else {
            (self.next as int) % (self.values@.len() as int) + 1
        }
    }

    /// How a draw changes the source.
    pub open spec fn drawn(old: &DiceSource, new: &DiceSource) -> bool {
        &&& new.random == old.random
        &&& new.values@ == old.values@
        &&& (!old.random ==> new.next as int == old.next_after_draw())
    }

    /// A source backed by the thread's random generator.
    pub fn random() -> (r: DiceSource)
        ensures
            r.random,
    {
        DiceSource { random: true, values: Vec::new(), next: 0 }
    }

    /// A source that replays `values` in order, starting over at the end.
    pub fn sequence(values: Vec<i64>) -> (r: DiceSource)
        ensures
            !r.random,
            r.values@ == values@,
            r.next == 0,
    {
        DiceSource { random: false, values, next: 0 }
    }

    fn take_replayed(&mut self) -> (r: i64)
        requires
            !old(self).random,
        ensures
            r as int == old(self).peek(),
            DiceSource::drawn(old(self), final(self)),
    {
        if self.values.len() == 0 {
            0
        } else {
            let k: usize = self.next % self.values.len();
            self.next = k + 1;
            self.values[k]
        }
    }

    /// Draws a value in `[lo, hi]`: uniformly at random, or the next replayed
    /// value clamped into the range.
    pub fn draw_in(&mut self, lo: i16, hi: i16) -> (r: i16)
        requires
            lo <= hi,
        ensures
            lo <= r <= hi,
            !old(self).random ==> r as int == clamp(old(self).peek(), lo as int, hi as int),
            DiceSource::drawn(old(self), final(self)),
    {
        if self.random {
            let span: usize = (hi as i32 - lo as i32 + 1) as usize;
            let k: usize = random_index(span);
            (lo as i32 + k as i32) as i16
        } else {
            let v: i64 = self.take_replayed();
            if v < lo as i64 {
                lo
            } else if v > hi as i64 {
                hi
            } else {
                v as i16
            }
        }
    }

    /// Draws an index below `len`: uniformly at random, or the next replayed
    /// value clamped into `[0, len - 1]`.
    pub fn draw_index(&mut self, len: usize) -> (r: usize)
        requires
            len > 0,
        ensures
            r < len,
            !old(self).random ==> r as int == clamp(old(self).peek(), 0, len - 1),
            DiceSource::drawn(old(self), final(self)),
    {
        if self.random {
            random_index(len)
        } else {
            let v: i64 = self.take_replayed();
            if v < 0 {
                0
            } else if v as u64 >= len as u64 {
                len - 1
            } else {
                v as usize
            }
        }
    }
}

} // verus!
