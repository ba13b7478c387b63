use vstd::prelude::*;
use crate::record::{collect_records, dedup_batch, dedup_spec, lenient, Record};
use crate::store::{count_changed, outcomes_of, spec_changed_count, upserted, Store};

verus! {

/// One raw page as the extractor produced it: each entry either parsed into
/// a record, or was malformed (`None`) and is skipped on its own — a single
/// bad entry never aborts the page.
pub struct Page {
    pub entries: Vec<Option<Record>>,
}

/// The batch one page contributes: its well-formed entries, with duplicate
/// identities collapsed before they reach the upsert client.
pub open spec fn page_batch(p: Page) -> Seq<Record> {
    dedup_spec(lenient(p.entries@))
}

/// The row map after the first `n` pages have been committed in order. An
/// empty batch triggers no store operation.
pub open spec fn store_after(m: Map<int, Seq<u8>>, pages: Seq<Page>, n: int) -> Map<int, Seq<u8>>
    recommends
        n <= pages.len(),
    decreases n,
{
    if n <= 0 {
        m
    } else {
        let prev = store_after(m, pages, n - 1);
        let b = page_batch(pages[n - 1]);
        if b.len() == 0 {
            prev
        } else {
            upserted(prev, b)
        }
    }
}

/// Committing this page against the row map `m` stops pagination: the page
/// held records, and every one of them was already stored unchanged.
pub open spec fn page_stops(m: Map<int, Seq<u8>>, p: Page) -> bool {
    let b = page_batch(p);
    b.len() > 0 && spec_changed_count(outcomes_of(m, b)) == 0
}

/// The driver loop for reverse-chronological page sources: per page, extract
/// leniently, deduplicate, commit the batch, and stop as soon as a committed
/// page yields zero changed rows. Returns how many pages were fetched; no
/// page beyond that count is touched.
#[verifier::loop_isolation(false)]
pub fn run_pages(pages: Vec<Page>, store: &mut Store) -> (fetched: usize)
    requires
        old(store).wf(),
    ensures
        final(store).wf(),
        fetched <= pages@.len(),
        final(store)@ == store_after(old(store)@, pages@, fetched as int),
        forall|j: int|
            0 <= j < fetched - 1 ==> !page_stops(
                store_after(old(store)@, pages@, j),
                pages@[j],
            ),
        fetched < pages@.len() ==> fetched >= 1 && page_stops(
            store_after(old(store)@, pages@, fetched - 1),
            pages@[fetched - 1],
        ),
{
    let ghost m0 = old(store)@;
    let ghost porig = pages@;
    let total = pages.len();
    let mut rest = pages;
    let mut fetched: usize = 0;
    while rest.len() > 0
        invariant
            store.wf(),
            porig.len() == total,
            fetched + rest@.len() == porig.len(),
            rest@ == porig.skip(fetched as int),
            store@ == store_after(m0, porig, fetched as int),
            m0 == old(store)@,
            forall|j: int| 0 <= j < fetched ==> !page_stops(store_after(m0, porig, j), porig[j]),
        decreases rest@.len(),
    {
        let ghost pre = rest@;
        let page = rest.remove(0);
        proof {
            assert(pre.remove(0) =~= porig.skip(fetched + 1));
            assert(porig[fetched as int] == page);
        }
        let batch = dedup_batch(collect_records(page.entries));
        if batch.len() == 0 {
            fetched = fetched + 1;
        } else {
            let ghost prev = store@;
            let outcomes = store.upsert_batch(batch);
            let succ = count_changed(&outcomes);
            fetched = fetched + 1;
            if succ == 0 {
                proof {
                    assert(page_stops(prev, porig[fetched - 1]));
                }
                return fetched;
            }
            proof {
                assert(!page_stops(prev, porig[fetched - 1]));
            }
        }
    }
    fetched
}

/// Bounded retry of failed page fetches: the driver retries the same page
/// after a backoff until the budget of consecutive failures is exhausted,
/// then gives up on this channel for the run instead of crashing anything.
#[derive(Clone, Copy, Debug, PartialEq, Eq, Structural)]
pub struct RetryBudget {
    pub budget: u32,
    pub failures: u32,
}

impl RetryBudget {
    pub open spec fn wf(self) -> bool {
        self.failures <= self.budget
    }

    pub fn new(budget: u32) -> (r: Self)
        ensures
            r == (RetryBudget { budget, failures: 0 }),
            r.wf(),
    {
        RetryBudget { budget, failures: 0 }
    }

    /// Record one fetch failure; the result says whether the budget is now
    /// exhausted and the channel's run ends early.
    pub fn on_fetch_error(&mut self) -> (give_up: bool)
        requires
            old(self).wf(),
        ensures
            final(self).wf(),
            final(self).budget == old(self).budget,
            final(self).failures == if old(self).failures < old(self).budget {
                old(self).failures + 1
            } else {
                old(self).failures as int
            },
            give_up == (final(self).failures >= final(self).budget),
    {
        if self.failures < self.budget {
            self.failures = self.failures + 1;
        }
        self.failures >= self.budget
    }

    /// A successful fetch ends the failure streak.
    pub fn on_fetch_ok(&mut self)
        ensures
            *final(self) == (RetryBudget { budget: old(self).budget, failures: 0 }),
            final(self).wf(),
    {
        self.failures = 0;
    }
}

} // verus!
