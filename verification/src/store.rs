use vstd::prelude::*;
use crate::record::{distinct_ids, Record};
use crate::watermark::{spec_widen, Watermark};

verus! {

/// Per-row result of a batched upsert.
#[derive(Clone, Copy, Debug, PartialEq, Eq, Structural)]
pub enum Outcome {
    /// The row was newly inserted or its stored content changed.
    Changed,
    /// The row was already present with identical content: a no-op conflict.
    Unchanged,
}

/// Whether upserting `(id, content)` into the rows modeled by `m` would
/// insert a new row or change an existing one.
pub open spec fn row_changed(m: Map<int, Seq<u8>>, id: i64, content: Seq<u8>) -> bool {
    !(m.contains_key(id as int) && m[id as int] == content)
}

/// The row map after a whole batch has been applied, in order.
pub open spec fn upserted(m: Map<int, Seq<u8>>, batch: Seq<Record>) -> Map<int, Seq<u8>>
    decreases batch.len(),
{
    if batch.len() == 0 {
        m
    } else {
        upserted(m, batch.drop_last()).insert(batch.last().id as int, batch.last().content@)
    }
}

/// The per-row outcomes of one batch against the row map `m`. Meaningful for
/// batches with distinct identities, which deduplication guarantees.
pub open spec fn outcomes_of(m: Map<int, Seq<u8>>, batch: Seq<Record>) -> Seq<Outcome> {
    Seq::new(
        batch.len(),
        |i: int|
            if row_changed(m, batch[i].id, batch[i].content@) {
                Outcome::Changed
            } else {
                Outcome::Unchanged
            },
    )
}

/// The number of `Changed` outcomes: the batch's success count.
pub open spec fn spec_changed_count(s: Seq<Outcome>) -> nat
    decreases s.len(),
{
    if s.len() == 0 {
        0
    } else {
        spec_changed_count(s.drop_last()) + if s.last() is Changed {
            1nat
        } else {
            0nat
        }
    }
}

/// Keys untouched by a batch keep their binding.
pub proof fn lemma_upserted_other_key(m: Map<int, Seq<u8>>, batch: Seq<Record>, id: i64)
    requires
        forall|j: int| 0 <= j < batch.len() ==> batch[j].id != id,
    ensures
        upserted(m, batch).contains_key(id as int) == m.contains_key(id as int),
        m.contains_key(id as int) ==> upserted(m, batch)[id as int] == m[id as int],
    decreases batch.len(),
{
    if batch.len() > 0 {
        assert(forall|j: int|
            0 <= j < batch.drop_last().len() ==> batch.drop_last()[j] == batch[j]);
        lemma_upserted_other_key(m, batch.drop_last(), id);
    }
}

/// Every record of a distinct-identity batch ends up bound to its content.
pub proof fn lemma_upserted_batch_key(m: Map<int, Seq<u8>>, batch: Seq<Record>, i: int)
    requires
        distinct_ids(batch),
        0 <= i < batch.len(),
    ensures
        upserted(m, batch).contains_key(batch[i].id as int),
        upserted(m, batch)[batch[i].id as int] == batch[i].content@,
    decreases batch.len(),
{
    let p = batch.drop_last();
    assert(forall|j: int| 0 <= j < p.len() ==> p[j] == batch[j]);
    if i == batch.len() - 1 {
    } else {
        lemma_upserted_batch_key(m, p, i);
    }
}

/// A batch whose rows are all already stored with identical content changes
/// nothing when applied.
pub proof fn lemma_upsert_absorbed(m: Map<int, Seq<u8>>, batch: Seq<Record>)
    requires
        forall|i: int|
            0 <= i < batch.len() ==> #[trigger] m.contains_key(batch[i].id as int)
                && m[batch[i].id as int] == batch[i].content@,
    ensures
        upserted(m, batch) == m,
    decreases batch.len(),
{
    if batch.len() > 0 {
        let p = batch.drop_last();
        assert(forall|j: int| 0 <= j < p.len() ==> p[j] == batch[j]);
        lemma_upsert_absorbed(m, p);
        assert(upserted(m, batch) =~= m);
    }
}

/// Idempotence of submission: applying one batch a second time leaves the row
/// map (and with it the distinct-row count) unchanged, every outcome of the
/// second submission is a no-op, and widening the watermark again with the
/// same identity span leaves it unchanged as well.
pub proof fn lemma_idempotent_submission(
    m: Map<int, Seq<u8>>,
    batch: Seq<Record>,
    w: Watermark,
    lo: i64,
    hi: i64,
)
    requires
        distinct_ids(batch),
    ensures
        upserted(upserted(m, batch), batch) == upserted(m, batch),
        forall|i: int|
            0 <= i < batch.len() ==> #[trigger] outcomes_of(upserted(m, batch), batch)[i]
                is Unchanged,
        spec_changed_count(outcomes_of(upserted(m, batch), batch)) == 0,
        spec_widen(spec_widen(w, lo, hi), lo, hi) == spec_widen(w, lo, hi),
{
    let m1 = upserted(m, batch);
    assert forall|i: int|
        0 <= i < batch.len() implies #[trigger] m1.contains_key(batch[i].id as int)
            && m1[batch[i].id as int] == batch[i].content@ by {
        lemma_upserted_batch_key(m, batch, i);
    }
    lemma_upsert_absorbed(m1, batch);
    lemma_changed_count_zero(outcomes_of(m1, batch));
}

/// A sequence without `Changed` entries counts zero successes.
pub proof fn lemma_changed_count_zero(s: Seq<Outcome>)
    requires
        forall|i: int| 0 <= i < s.len() ==> !(#[trigger] s[i] is Changed),
    ensures
        spec_changed_count(s) == 0,
    decreases s.len(),
{
    if s.len() > 0 {
        assert(forall|i: int| 0 <= i < s.drop_last().len() ==> s.drop_last()[i] == s[i]);
        lemma_changed_count_zero(s.drop_last());
    }
}

/// The rows of a store, keyed by identity.
spec fn rows_map(rows: Seq<(i64, Vec<u8>)>) -> Map<int, Seq<u8>>
    decreases rows.len(),
{
    if rows.len() == 0 {
        Map::empty()
    } else {
        rows_map(rows.drop_last()).insert(rows.last().0 as int, rows.last().1@)
    }
}

spec fn rows_unique(rows: Seq<(i64, Vec<u8>)>) -> bool {
    forall|i: int, j: int| 0 <= i < j < rows.len() ==> rows[i].0 != rows[j].0
}

proof fn lemma_rows_map_key(rows: Seq<(i64, Vec<u8>)>, id: i64)
    ensures
        rows_map(rows).contains_key(id as int) == exists|j: int|
            0 <= j < rows.len() && rows[j].0 == id,
    decreases rows.len(),
{
    if rows.len() > 0 {
        let p = rows.drop_last();
        assert(forall|j: int| 0 <= j < p.len() ==> p[j] == rows[j]);
        lemma_rows_map_key(p, id);
        if rows.last().0 == id {
            assert(rows[rows.len() - 1].0 == id);
        }
    }
}

proof fn lemma_rows_map_get(rows: Seq<(i64, Vec<u8>)>, j: int)
    requires
        rows_unique(rows),
        0 <= j < rows.len(),
    ensures
        rows_map(rows).contains_key(rows[j].0 as int),
        rows_map(rows)[rows[j].0 as int] == rows[j].1@,
    decreases rows.len(),
{
    let p = rows.drop_last();
    assert(forall|i: int| 0 <= i < p.len() ==> p[i] == rows[i]);
    if j < rows.len() - 1 {
        lemma_rows_map_get(p, j);
    }
}

proof fn lemma_rows_map_set(rows: Seq<(i64, Vec<u8>)>, j: int, v: Vec<u8>)
    requires
        rows_unique(rows),
        0 <= j < rows.len(),
    ensures
        rows_map(rows.update(j, (rows[j].0, v))) == rows_map(rows).insert(rows[j].0 as int, v@),
    decreases rows.len(),
{
    let u = rows.update(j, (rows[j].0, v));
    let p = rows.drop_last();
    assert(forall|i: int| 0 <= i < p.len() ==> p[i] == rows[i]);
    if j == rows.len() - 1 {
        assert(u.drop_last() =~= p);
        assert(rows_map(u) =~= rows_map(rows).insert(rows[j].0 as int, v@));
    } else {
        assert(u.drop_last() =~= p.update(j, (rows[j].0, v)));
        lemma_rows_map_set(p, j, v);
        assert(rows_map(u) =~= rows_map(rows).insert(rows[j].0 as int, v@));
    }
}

proof fn lemma_rows_map_dom_len(rows: Seq<(i64, Vec<u8>)>)
    requires
        rows_unique(rows),
    ensures
        rows_map(rows).dom().finite(),
        rows_map(rows).dom().len() == rows.len(),
    decreases rows.len(),
{
    if rows.len() == 0 {
        assert(rows_map(rows).dom() =~= Set::<int>::empty());
    } else {
        let p = rows.drop_last();
        assert(forall|i: int| 0 <= i < p.len() ==> p[i] == rows[i]);
        lemma_rows_map_dom_len(p);
        lemma_rows_map_key(p, rows.last().0);
        assert(!rows_map(p).dom().contains(rows.last().0 as int));
        assert(rows_map(rows).dom() =~= rows_map(p).dom().insert(rows.last().0 as int));
    }
}

fn bytes_eq(a: &[u8], b: &[u8]) -> (r: bool)
    ensures
        r == (a@ == b@),
{
    if a.len() != b.len() {
        return false;
    }
    let mut i: usize = 0;
    while i < a.len()
        invariant
            a@.len() == b@.len(),
            i <= a@.len(),
            forall|j: int| 0 <= j < i ==> a@[j] == b@[j],
        decreases a@.len() - i,
    {
        if a[i] != b[i] {
            return false;
        }
        i = i + 1;
    }
    proof {
        assert(a@ =~= b@);
    }
    true
}

/// A reference store holding each ingested row as plain values, keyed by
/// identity. It fixes the conflict semantics a batched upsert is held to:
/// insert when the identity is new, update when the stored content differs,
/// report a no-op when an identical row is already present.
pub struct Store {
    rows: Vec<(i64, Vec<u8>)>,
}

impl View for Store {
    type V = Map<int, Seq<u8>>;

    closed spec fn view(&self) -> Map<int, Seq<u8>> {
        rows_map(self.rows@)
    }
}

impl Store {
    pub closed spec fn wf(self) -> bool {
        rows_unique(self.rows@)
    }

    pub fn new() -> (s: Store)
        ensures
            s.wf(),
            s@ == Map::<int, Seq<u8>>::empty(),
    {
        Store { rows: Vec::new() }
    }

    /// The number of distinct rows held.
    pub fn row_count(&self) -> (n: usize)
        requires
            self.wf(),
        ensures
            self@.dom().finite(),
            n == self@.dom().len(),
    {
        proof {
            lemma_rows_map_dom_len(self.rows@);
        }
        self.rows.len()
    }

    /// Apply one row, returning whether it changed anything.
    fn upsert_row(&mut self, r: Record) -> (o: Outcome)
        requires
            old(self).wf(),
        ensures
            final(self).wf(),
            final(self)@ == old(self)@.insert(r.id as int, r.content@),
            o == if row_changed(old(self)@, r.id, r.content@) {
                Outcome::Changed
            } else {
                Outcome::Unchanged
            },
    {
        let ghost rows0 = self.rows@;
        let mut i: usize = 0;
        while i < self.rows.len()
            invariant
                self.rows@ == rows0,
                rows0 == old(self).rows@,
                rows_unique(rows0),
                i <= rows0.len(),
                forall|j: int| 0 <= j < i ==> rows0[j].0 != r.id,
            decreases rows0.len() - i,
        {
            if self.rows[i].0 == r.id {
                proof {
                    lemma_rows_map_get(rows0, i as int);
                }
                if bytes_eq(self.rows[i].1.as_slice(), r.content.as_slice()) {
                    proof {
                        assert(old(self)@.insert(r.id as int, r.content@) =~= old(self)@);
                    }
                    return Outcome::Unchanged;
                }
                let ghost pre = self.rows@;
                self.rows.set(i, (r.id, r.content));
                proof {
                    let updated = self.rows@[i as int].1;
                    assert(self.rows@ =~= pre.update(i as int, (pre[i as int].0, updated)));
                    lemma_rows_map_set(pre, i as int, updated);
                    assert(rows_unique(self.rows@));
                }
                return Outcome::Changed;
            }
            i = i + 1;
        }
        proof {
            lemma_rows_map_key(rows0, r.id);
        }
        let ghost pre = self.rows@;
        self.rows.push((r.id, r.content));
        proof {
            assert(self.rows@.drop_last() =~= pre);
            assert(rows_unique(self.rows@));
        }
        Outcome::Changed
    }

    /// Submit a non-empty batch of distinct-identity rows as one set-oriented
    /// operation. The whole batch applies; each row's outcome says whether it
    /// was inserted or updated (`Changed`) or found identical (`Unchanged`).
    pub fn upsert_batch(&mut self, batch: Vec<Record>) -> (outcomes: Vec<Outcome>)
        requires
            old(self).wf(),
            distinct_ids(batch@),
            batch@.len() > 0,
        ensures
            final(self).wf(),
            final(self)@ == upserted(old(self)@, batch@),
            outcomes@ == outcomes_of(old(self)@, batch@),
    {
        let ghost m0 = old(self)@;
        let ghost orig = batch@;
        let mut rest = batch;
        let mut outcomes: Vec<Outcome> = Vec::new();
        let ghost mut k: int = 0;
        while rest.len() > 0
            invariant
                self.wf(),
                0 <= k,
                k + rest@.len() == orig.len(),
                rest@ == orig.skip(k),
                distinct_ids(orig),
                self@ == upserted(m0, orig.take(k)),
                outcomes@ == outcomes_of(m0, orig.take(k)),
            decreases rest@.len(),
        {
            let ghost pre = rest@;
            let r = rest.remove(0);
            proof {
                assert(orig.take(k + 1).drop_last() =~= orig.take(k));
                assert(orig.take(k + 1).last() == orig[k]);
                assert(pre.remove(0) =~= orig.skip(k + 1));
                assert forall|j: int| 0 <= j < orig.take(k).len() implies orig.take(k)[j].id
                    != orig[k].id by {
                    assert(orig.take(k)[j] == orig[j]);
                }
                lemma_upserted_other_key(m0, orig.take(k), orig[k].id);
            }
            let o = self.upsert_row(r);
            outcomes.push(o);
            proof {
                k = k + 1;
                assert(outcomes@ =~= outcomes_of(m0, orig.take(k)));
            }
        }
        proof {
            assert(orig.take(orig.len() as int) =~= orig);
        }
        outcomes
    }
}

/// Count the `Changed` outcomes of one batch.
pub fn count_changed(outcomes: &Vec<Outcome>) -> (n: usize)
    ensures
        n == spec_changed_count(outcomes@),
{
    let mut n: usize = 0;
    let mut i: usize = 0;
    while i < outcomes.len()
        invariant
            i <= outcomes@.len(),
            n <= i,
            n == spec_changed_count(outcomes@.take(i as int)),
        decreases outcomes@.len() - i,
    {
        proof {
            assert(outcomes@.take(i + 1).drop_last() =~= outcomes@.take(i as int));
            assert(outcomes@.take(i + 1).last() == outcomes@[i as int]);
        }
        if matches!(outcomes[i], Outcome::Changed) {
            n = n + 1;
        }
        i = i + 1;
    }
    proof {
        assert(outcomes@.take(outcomes@.len() as int) =~= outcomes@);
    }
    n
}

/// Success of one returned row of a set-oriented upsert, read from the
/// store's `xmax` system column: absent or zero means the row version was
/// freshly written, anything else a conflicting overwrite of an existing row.
pub open spec fn spec_xmax_success(x: Option<u32>) -> bool {
    match x {
        Some(p) => p == 0,
        None => true,
    }
}

/// How many of the returned rows count as successes.
pub open spec fn spec_success_count(s: Seq<Option<u32>>) -> nat
    decreases s.len(),
{
    if s.len() == 0 {
        0
    } else {
        spec_success_count(s.drop_last()) + if spec_xmax_success(s.last()) {
            1nat
        } else {
            0nat
        }
    }
}

/// The per-batch success count of a set-oriented upsert, from the `xmax`
/// column of each returned row as far as it could be read.
pub fn xmax_to_success(rows: &Vec<Option<u32>>) -> (n: usize)
    ensures
        n == spec_success_count(rows@),
{
    let mut n: usize = 0;
    let mut i: usize = 0;
    while i < rows.len()
        invariant
            i <= rows@.len(),
            n <= i,
            n == spec_success_count(rows@.take(i as int)),
        decreases rows@.len() - i,
    {
        proof {
            assert(rows@.take(i + 1).drop_last() =~= rows@.take(i as int));
            assert(rows@.take(i + 1).last() == rows@[i as int]);
        }
        let success = match rows[i] {
            Some(p) => p == 0,
            None => true,
        };
        if success {
            n = n + 1;
        }
        i = i + 1;
    }
    proof {
        assert(rows@.take(rows@.len() as int) =~= rows@);
    }
    n
}

} // verus!
