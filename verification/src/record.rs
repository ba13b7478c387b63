use vstd::prelude::*;

verus! {

/// One typed row handed to the ingestion core: a stable numeric identity that
/// serves as the upsert conflict key, and the content-bearing bytes of the
/// row (the free text a fingerprint is computed over).
#[derive(Debug)]
pub struct Record {
    pub id: i64,
    pub content: Vec<u8>,
}

/// Whether some record in `s` carries the identity `id`.
pub open spec fn has_id(s: Seq<Record>, id: i64) -> bool {
    exists|j: int| 0 <= j < s.len() && s[j].id == id
}

/// No two records of `s` share an identity.
pub open spec fn distinct_ids(s: Seq<Record>) -> bool {
    forall|i: int, j: int| 0 <= i < j < s.len() ==> s[i].id != s[j].id
}

/// The records that survive lenient extraction: malformed entries (`None`)
/// are skipped individually, everything else is kept in order.
pub open spec fn lenient(entries: Seq<Option<Record>>) -> Seq<Record>
    decreases entries.len(),
{
    if entries.len() == 0 {
        Seq::empty()
    } else {
        let rest = lenient(entries.drop_last());
        match entries.last() {
            Some(r) => rest.push(r),
            None => rest,
        }
    }
}

/// `s` with every record dropped whose identity already occurred earlier:
/// the first occurrence of each identity wins.
pub open spec fn dedup_spec(s: Seq<Record>) -> Seq<Record>
    decreases s.len(),
{
    if s.len() == 0 {
        Seq::empty()
    } else {
        let rest = dedup_spec(s.drop_last());
        if has_id(s.drop_last(), s.last().id) {
            rest
        } else {
            rest.push(s.last())
        }
    }
}

/// Deduplication keeps exactly the identities of its input.
pub proof fn lemma_dedup_same_ids(s: Seq<Record>, id: i64)
    ensures
        has_id(dedup_spec(s), id) == has_id(s, id),
    decreases s.len(),
{
    if s.len() > 0 {
        let p = s.drop_last();
        lemma_dedup_same_ids(p, id);
        assert(has_id(s, id) == (has_id(p, id) || s.last().id == id)) by {
            if has_id(s, id) {
                let j = choose|j: int| 0 <= j < s.len() && s[j].id == id;
                if j < s.len() - 1 {
                    assert(p[j] == s[j]);
                }
            }
            if has_id(p, id) {
                let j = choose|j: int| 0 <= j < p.len() && p[j].id == id;
                assert(s[j] == p[j]);
            }
            if s.last().id == id {
                assert(s[s.len() - 1].id == id);
            }
        };
        let d = dedup_spec(p);
        if has_id(p, s.last().id) {
            if s.last().id == id {
                assert(has_id(p, id));
            }
        } else {
            let e = d.push(s.last());
            assert(has_id(e, id) == (has_id(d, id) || s.last().id == id)) by {
                if has_id(d, id) {
                    let j = choose|j: int| 0 <= j < d.len() && d[j].id == id;
                    assert(e[j] == d[j]);
                }
                if s.last().id == id {
                    assert(e[d.len() as int].id == id);
                }
                if has_id(e, id) {
                    let j = choose|j: int| 0 <= j < e.len() && e[j].id == id;
                    if j < d.len() {
                        assert(d[j] == e[j]);
                    } else {
                        assert(e[j] == s.last());
                    }
                }
            };
        }
    }
}

/// After deduplication no identity occurs twice.
pub proof fn lemma_dedup_distinct(s: Seq<Record>)
    ensures
        distinct_ids(dedup_spec(s)),
    decreases s.len(),
{
    if s.len() > 0 {
        lemma_dedup_distinct(s.drop_last());
        if !has_id(s.drop_last(), s.last().id) {
            let d = dedup_spec(s.drop_last());
            lemma_dedup_same_ids(s.drop_last(), s.last().id);
            assert forall|i: int, j: int| 0 <= i < j < dedup_spec(s).len() implies dedup_spec(
                s,
            )[i].id != dedup_spec(s)[j].id by {
                if j == d.len() {
                    assert(d[i].id == dedup_spec(s)[i].id);
                    assert(has_id(d, d[i].id));
                }
            }
        }
    }
}

/// Lenient extraction: collect the well-formed entries of one raw page into a
/// batch, skipping each malformed entry on its own, never the whole page.
pub fn collect_records(entries: Vec<Option<Record>>) -> (batch: Vec<Record>)
    ensures
        batch@ == lenient(entries@),
{
    let ghost orig = entries@;
    let mut rest = entries;
    let mut batch: Vec<Record> = Vec::new();
    let ghost mut k: int = 0;
    while rest.len() > 0
        invariant
            0 <= k,
            k + rest@.len() == orig.len(),
            rest@ == orig.skip(k),
            batch@ == lenient(orig.take(k)),
        decreases rest@.len(),
    {
        let ghost pre = rest@;
        let entry = rest.remove(0);
        proof {
            assert(orig.take(k + 1).drop_last() =~= orig.take(k));
            assert(orig.take(k + 1).last() == orig[k]);
            assert(pre.remove(0) =~= orig.skip(k + 1));
        }
        match entry {
            Some(r) => {
                batch.push(r);
            },
            None => {},
        }
        proof {
            k = k + 1;
        }
    }
    proof {
        assert(orig.take(orig.len() as int) =~= orig);
    }
    batch
}

/// Collapse within-batch duplicates before the identity set reaches the
/// upsert client: of several records with one identity the first is kept.
pub fn dedup_batch(records: Vec<Record>) -> (out: Vec<Record>)
    ensures
        out@ == dedup_spec(records@),
        distinct_ids(out@),
{
    let ghost orig = records@;
    let mut rest = records;
    let mut out: Vec<Record> = Vec::new();
    let ghost mut k: int = 0;
    while rest.len() > 0
        invariant
            0 <= k,
            k + rest@.len() == orig.len(),
            rest@ == orig.skip(k),
            out@ == dedup_spec(orig.take(k)),
        decreases rest@.len(),
    {
        let ghost pre = rest@;
        let r = rest.remove(0);
        proof {
            assert(orig.take(k + 1).drop_last() =~= orig.take(k));
            assert(orig.take(k + 1).last() == orig[k]);
            assert(pre.remove(0) =~= orig.skip(k + 1));
            lemma_dedup_same_ids(orig.take(k), orig[k].id);
        }
        let mut seen = false;
        let mut i: usize = 0;
        while i < out.len()
            invariant
                i <= out@.len(),
                seen == exists|j: int| 0 <= j < i && out@[j].id == r.id,
            decreases out@.len() - i,
        {
            if out[i].id == r.id {
                seen = true;
            }
            i = i + 1;
        }
        assert(seen == has_id(out@, r.id));
        if !seen {
            out.push(r);
        }
        proof {
            k = k + 1;
        }
    }
    proof {
        assert(orig.take(orig.len() as int) =~= orig);
        lemma_dedup_distinct(orig);
    }
    out
}

/// The least identity among the records of `s`.
pub open spec fn min_id(s: Seq<Record>) -> i64
    recommends
        s.len() > 0,
    decreases s.len(),
{
    if s.len() <= 1 {
        s[0].id
    } else {
        let m = min_id(s.drop_last());
        if s.last().id < m {
            s.last().id
        } else {
            m
        }
    }
}

/// The greatest identity among the records of `s`.
pub open spec fn max_id(s: Seq<Record>) -> i64
    recommends
        s.len() > 0,
    decreases s.len(),
{
    if s.len() <= 1 {
        s[0].id
    } else {
        let m = max_id(s.drop_last());
        if s.last().id > m {
            s.last().id
        } else {
            m
        }
    }
}

/// The identity span of a batch: its least and greatest identity, or `None`
/// for an empty batch. The span covers the whole batch, changed or not, since
/// the watermark tracks coverage, not novelty.
pub fn batch_bounds(records: &Vec<Record>) -> (r: Option<(i64, i64)>)
    ensures
        r is Some <==> records@.len() > 0,
        records@.len() > 0 ==> r == Some((min_id(records@), max_id(records@))),
        records@.len() > 0 ==> min_id(records@) <= max_id(records@),
{
    if records.len() == 0 {
        return None;
    }
    let mut lo = records[0].id;
    let mut hi = records[0].id;
    let mut i: usize = 1;
    while i < records.len()
        invariant
            1 <= i <= records@.len(),
            lo == min_id(records@.take(i as int)),
            hi == max_id(records@.take(i as int)),
            lo <= hi,
        decreases records@.len() - i,
    {
        proof {
            assert(records@.take(i + 1).drop_last() =~= records@.take(i as int));
            assert(records@.take(i + 1).last() == records@[i as int]);
        }
        if records[i].id < lo {
            lo = records[i].id;
        }
        if records[i].id > hi {
            hi = records[i].id;
        }
        i = i + 1;
    }
    proof {
        assert(records@.take(records@.len() as int) =~= records@);
    }
    Some((lo, hi))
}

} // verus!
