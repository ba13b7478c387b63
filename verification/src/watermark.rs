use vstd::prelude::*;

verus! {

/// Persisted pair of the minimum and maximum identity values ever ingested
/// for one source-channel. It is only ever widened: `low` never rises and
/// `high` never falls.
#[derive(Clone, Copy, Debug, PartialEq, Eq, Structural)]
pub struct Watermark {
    pub low: i64,
    pub high: i64,
}

/// The watermark `w` after absorbing a batch whose identities span `lo..=hi`.
pub open spec fn spec_widen(w: Watermark, lo: i64, hi: i64) -> Watermark {
    Watermark {
        low: if lo < w.low {
            lo
        } else {
            w.low
        },
        high: if hi > w.high {
            hi
        } else {
            w.high
        },
    }
}

impl Watermark {
    pub open spec fn wf(self) -> bool {
        self.low <= self.high
    }

    pub fn new(lo: i64, hi: i64) -> (r: Self)
        requires
            lo <= hi,
        ensures
            r == (Watermark { low: lo, high: hi }),
    {
        Watermark { low: lo, high: hi }
    }

    /// Widen-only update: compares against the old bounds, never overwrites.
    pub fn widen(&mut self, lo: i64, hi: i64)
        ensures
            *final(self) == spec_widen(*old(self), lo, hi),
    {
        if lo < self.low {
            self.low = lo;
        }
        if hi > self.high {
            self.high = hi;
        }
    }
}

/// The watermark after a sequence of batches, each given by its (min, max)
/// identity bounds, has been absorbed in order.
pub open spec fn widen_fold(w: Watermark, batches: Seq<(i64, i64)>) -> Watermark
    decreases batches.len(),
{
    if batches.len() == 0 {
        w
    } else {
        spec_widen(widen_fold(w, batches.drop_last()), batches.last().0, batches.last().1)
    }
}

/// Absorbing the same bounds a second time leaves the watermark unchanged.
pub proof fn lemma_widen_idempotent(w: Watermark, lo: i64, hi: i64)
    ensures
        spec_widen(spec_widen(w, lo, hi), lo, hi) == spec_widen(w, lo, hi),
{
}

/// A single widening step never raises `low` nor lowers `high`, and it
/// preserves well-formedness whenever the absorbed bounds are ordered.
pub proof fn lemma_widen_monotone(w: Watermark, lo: i64, hi: i64)
    ensures
        spec_widen(w, lo, hi).low <= w.low,
        spec_widen(w, lo, hi).high >= w.high,
        w.wf() && lo <= hi ==> spec_widen(w, lo, hi).wf(),
{
}

/// Monotonic watermark: along any sequence of absorbed batches, the `low`
/// bound is non-increasing and the `high` bound is non-decreasing over time.
pub proof fn lemma_watermark_monotonic(w: Watermark, batches: Seq<(i64, i64)>, i: int, j: int)
    requires
        0 <= i <= j <= batches.len(),
    ensures
        widen_fold(w, batches.take(j)).low <= widen_fold(w, batches.take(i)).low,
        widen_fold(w, batches.take(j)).high >= widen_fold(w, batches.take(i)).high,
    decreases j - i,
{
    if i < j {
        lemma_watermark_monotonic(w, batches, i, j - 1);
        assert(batches.take(j).drop_last() =~= batches.take(j - 1));
    }
}


/// The watermark as the store keeps it: a `(0, 0)` row stands for a channel
/// that never persisted one; an unordered pair is treated the same way.
pub fn watermark_from_db(low: i64, high: i64) -> (r: Option<Watermark>)
    ensures
        r == if (low == 0 && high == 0) || low > high {
            None::<Watermark>
        } else {
            Some(Watermark { low, high })
        },
        match r {
            Some(w) => w.wf(),
            None => true,
        },
{
    if (low == 0 && high == 0) || low > high {
        None
    } else {
        Some(Watermark { low, high })
    }
}

} // verus!
