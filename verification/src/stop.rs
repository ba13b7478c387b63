use vstd::prelude::*;
use crate::watermark::{spec_widen, Watermark};

verus! {

/// Paging state of one source-channel.
#[derive(Clone, Copy, Debug, PartialEq, Eq, Structural)]
pub enum Phase {
    /// Normal forward pagination.
    Scanning,
    /// The cursor has been fast-forwarded to close a coverage gap; only one
    /// such jump is permitted per invocation.
    Jumping,
    /// Terminal.
    Done,
}

/// What the pagination driver is told to do next.
#[derive(Clone, Copy, Debug, PartialEq, Eq, Structural)]
pub enum Decision {
    /// Fetch the next page under the current cursor.
    Continue,
    /// Reposition the cursor to the given identity, then keep fetching.
    Jump(i64),
    /// Terminate pagination for this channel.
    Stop,
}

/// The identity threshold below which ingestion is considered caught up:
/// `high - limit`, saturating at the lower bound of the identity type.
pub open spec fn stop_point(high: i64, limit: u32) -> i64 {
    if high - limit >= i64::MIN {
        (high - limit) as i64
    } else {
        i64::MIN
    }
}

/// A contiguous range below the persisted watermark was never backfilled:
/// the span `high - low` is narrower than `limit - 1`.
pub open spec fn has_gap(o: Watermark, limit: u32) -> bool {
    o.low > 1 && limit > 1 && o.high - o.low < limit - 1
}

/// The stop-condition evaluator of one source-channel: it widens the running
/// watermark with each committed batch and decides whether paging continues,
/// jumps back once to backfill, or terminates.
#[derive(Clone, Copy, Debug, PartialEq, Eq, Structural)]
pub struct Evaluator {
    /// Configured backlog limit: how many of the newest identities are kept
    /// fresh before the channel counts as caught up.
    pub limit: u32,
    /// The watermark persisted before this invocation, absent on a first run.
    pub origin: Option<Watermark>,
    /// The watermark as widened by the batches seen so far.
    pub current: Option<Watermark>,
    pub phase: Phase,
    /// The stop point of the jumped scan, fixed when the jump is taken.
    pub jump_stop: i64,
}

impl Evaluator {
    pub open spec fn wf(self) -> bool {
        match (self.origin, self.current) {
            (Some(o), Some(c)) => o.wf() && c.wf() && c.low <= o.low && c.high >= o.high,
            (Some(_), None) => false,
            (None, Some(c)) => c.wf(),
            (None, None) => true,
        }
    }

    pub fn new(origin: Option<Watermark>, limit: u32) -> (e: Evaluator)
        requires
            match origin {
                Some(o) => o.wf(),
                None => true,
            },
        ensures
            e == (Evaluator {
                limit,
                origin,
                current: origin,
                phase: Phase::Scanning,
                jump_stop: i64::MIN,
            }),
            e.wf(),
    {
        Evaluator { limit, origin, current: origin, phase: Phase::Scanning, jump_stop: i64::MIN }
    }
}

/// One step of the stop-condition state machine, taken after a non-empty
/// batch spanning identities `lo..=hi` was committed.
///
/// While scanning, the watermark keeps widening; the channel is caught up
/// once the batch's newest identity no longer exceeds the stop point nor the
/// previously persisted `high`. Caught up, it either stops, or — when the
/// persisted watermark shows a coverage gap — jumps once to just below the
/// persisted `low` and scans on until the stop point fixed at the jump.
pub open spec fn spec_on_batch(e: Evaluator, lo: i64, hi: i64) -> (Evaluator, Decision) {
    let cur = match e.current {
        Some(c) => spec_widen(c, lo, hi),
        None => Watermark { low: lo, high: hi },
    };
    let widened = Evaluator { current: Some(cur), ..e };
    match e.phase {
        Phase::Scanning => match e.origin {
            None => (widened, Decision::Continue),
            Some(o) => {
                let sp = stop_point(cur.high, e.limit);
                if hi > sp && hi > o.high {
                    (widened, Decision::Continue)
                } else if has_gap(o, e.limit) {
                    (
                        Evaluator { phase: Phase::Jumping, jump_stop: sp, ..widened },
                        Decision::Jump((o.low - 1) as i64),
                    )
                } else {
                    (Evaluator { phase: Phase::Done, ..widened }, Decision::Stop)
                }
            },
        },
        Phase::Jumping => if hi <= e.jump_stop {
            (Evaluator { phase: Phase::Done, ..widened }, Decision::Stop)
        } else {
            (widened, Decision::Continue)
        },
        Phase::Done => (e, Decision::Stop),
    }
}

impl Evaluator {
    /// Absorb one committed batch and decide how pagination proceeds.
    pub fn on_batch(&mut self, lo: i64, hi: i64) -> (d: Decision)
        requires
            old(self).wf(),
            lo <= hi,
        ensures
            (*final(self), d) == spec_on_batch(*old(self), lo, hi),
            final(self).wf(),
    {
        if matches!(self.phase, Phase::Done) {
            return Decision::Stop;
        }
        let cur = match self.current {
            Some(c) => {
                let mut w = c;
                w.widen(lo, hi);
                w
            },
            None => Watermark::new(lo, hi),
        };
        self.current = Some(cur);
        match self.phase {
            Phase::Scanning => {
                match self.origin {
                    None => Decision::Continue,
                    Some(o) => {
                        let sp = stop_point_exec(cur.high, self.limit);
                        if hi > sp && hi > o.high {
                            Decision::Continue
                        } else if o.low > 1 && self.limit > 1 && (o.high as i128 - o.low as i128)
                            < (self.limit as i128 - 1) {
                            self.phase = Phase::Jumping;
                            self.jump_stop = sp;
                            Decision::Jump(o.low - 1)
                        } else {
                            self.phase = Phase::Done;
                            Decision::Stop
                        }
                    },
                }
            },
            Phase::Jumping => {
                if hi <= self.jump_stop {
                    self.phase = Phase::Done;
                    Decision::Stop
                } else {
                    Decision::Continue
                }
            },
            Phase::Done => Decision::Stop,
        }
    }

    /// Rule for the end of the feed: a page from which no record could be
    /// extracted is itself a terminal signal.
    pub fn on_empty_page(&mut self) -> (d: Decision)
        ensures
            *final(self) == (Evaluator { phase: Phase::Done, ..*old(self) }),
            d == Decision::Stop,
            old(self).wf() ==> final(self).wf(),
    {
        self.phase = Phase::Done;
        Decision::Stop
    }

    /// Atomicity at the driver: a failed batch upsert commits nothing, so no
    /// rows are attributed to the batch, the watermark is left untouched, and
    /// pagination continues to the next page (availability over strictness).
    pub fn on_commit_failed(&mut self) -> (d: Decision)
        ensures
            *final(self) == *old(self),
            d == Decision::Continue,
    {
        Decision::Continue
    }
}

fn stop_point_exec(high: i64, limit: u32) -> (r: i64)
    ensures
        r == stop_point(high, limit),
{
    let l = limit as i64;
    if high >= i64::MIN + l {
        high - l
    } else {
        i64::MIN
    }
}

/// Reverse-chronological page sources without stable identities to watermark
/// stop as soon as one committed page reports zero changed rows: every record
/// on that page was already ingested unchanged.
pub fn page_decision(total: usize, succ: usize) -> (d: Decision)
    ensures
        d == if total > 0 && succ == 0 {
            Decision::Stop
        } else {
            Decision::Continue
        },
{
    if total > 0 && succ == 0 {
        Decision::Stop
    } else {
        Decision::Continue
    }
}

/// The evaluator after a sequence of committed batches, each given by its
/// identity span, has been absorbed in order.
pub open spec fn run_batches(e: Evaluator, evs: Seq<(i64, i64)>) -> Evaluator
    decreases evs.len(),
{
    if evs.len() == 0 {
        e
    } else {
        spec_on_batch(run_batches(e, evs.drop_last()), evs.last().0, evs.last().1).0
    }
}

/// How many of the decisions along a run repositioned the cursor.
pub open spec fn jump_count(e: Evaluator, evs: Seq<(i64, i64)>) -> nat
    decreases evs.len(),
{
    if evs.len() == 0 {
        0
    } else {
        jump_count(e, evs.drop_last()) + if spec_on_batch(
            run_batches(e, evs.drop_last()),
            evs.last().0,
            evs.last().1,
        ).1 is Jump {
            1nat
        } else {
            0nat
        }
    }
}

/// An evaluator that has left the `Scanning` phase has spent its one jump.
pub open spec fn jump_spent(e: Evaluator) -> bool {
    e.phase is Jumping || e.phase is Done
}

/// Once spent, an evaluator stays spent and never jumps again.
pub proof fn lemma_run_stays_spent(e: Evaluator, evs: Seq<(i64, i64)>)
    requires
        jump_spent(e),
    ensures
        jump_spent(run_batches(e, evs)),
        jump_count(e, evs) == 0,
    decreases evs.len(),
{
    if evs.len() > 0 {
        lemma_run_stays_spent(e, evs.drop_last());
    }
}

/// A run that has jumped ends spent.
pub proof fn lemma_jumped_run_spent(e: Evaluator, evs: Seq<(i64, i64)>)
    requires
        jump_count(e, evs) >= 1,
    ensures
        jump_spent(run_batches(e, evs)),
    decreases evs.len(),
{
    if evs.len() > 0 {
        let p = evs.drop_last();
        if spec_on_batch(run_batches(e, p), evs.last().0, evs.last().1).1 is Jump {
        } else {
            lemma_jumped_run_spent(e, p);
        }
    }
}

/// Only one jump is permitted per invocation: along any sequence of absorbed
/// batches the evaluator repositions the cursor at most once, and not at all
/// once the scanning phase has been left.
pub proof fn lemma_at_most_one_jump(e: Evaluator, evs: Seq<(i64, i64)>)
    ensures
        jump_count(e, evs) <= 1,
        jump_spent(e) ==> jump_count(e, evs) == 0,
    decreases evs.len(),
{
    if jump_spent(e) {
        lemma_run_stays_spent(e, evs);
    } else if evs.len() > 0 {
        let p = evs.drop_last();
        lemma_at_most_one_jump(e, p);
        if jump_count(e, p) >= 1 {
            lemma_jumped_run_spent(e, p);
        }
    }
}

/// The running watermark of `b` extends the one of `a`: it is at least as
/// wide, and never disappears.
pub open spec fn bounds_extend(a: Option<Watermark>, b: Option<Watermark>) -> bool {
    match (a, b) {
        (None, _) => true,
        (Some(c0), Some(c1)) => c1.low <= c0.low && c1.high >= c0.high,
        (Some(_), None) => false,
    }
}

/// Monotonic watermark at the evaluator: along any run, the low bound of the
/// running watermark is non-increasing and the high bound non-decreasing.
pub proof fn lemma_run_watermark_monotonic(e: Evaluator, evs: Seq<(i64, i64)>, i: int, j: int)
    requires
        0 <= i <= j <= evs.len(),
    ensures
        bounds_extend(run_batches(e, evs.take(i)).current, run_batches(e, evs.take(j)).current),
    decreases j - i,
{
    if i < j {
        lemma_run_watermark_monotonic(e, evs, i, j - 1);
        assert(evs.take(j).drop_last() =~= evs.take(j - 1));
    }
}

} // verus!
