use vstd::prelude::*;

verus! {

/// The work queues the id service hands out: thread ids still to fetch, one
/// queue per site. An explicitly owned value in place of process-global
/// state; the surrounding process guards it with its own lock.
pub struct Service {
    pub ids: Vec<i64>,
    pub bids: Vec<i64>,
}

/// Set up the service with the two id queues read at startup.
pub fn init(ids: Vec<i64>, bids: Vec<i64>) -> (s: Service)
    ensures
        s.ids@ == ids@,
        s.bids@ == bids@,
{
    Service { ids, bids }
}

/// Position of the first occurrence of `id` at or after `i`.
pub open spec fn first_index_from(s: Seq<i64>, id: i64, i: int) -> Option<int>
    decreases s.len() - i,
{
    if i < 0 || i >= s.len() {
        None
    } else if s[i] == id {
        Some(i)
    } else {
        first_index_from(s, id, i + 1)
    }
}

/// Drop the first occurrence of `id` from a queue, if it is there at all.
#[verifier::loop_isolation(false)]
pub fn remove(which: &mut Vec<i64>, id: i64)
    ensures
        final(which)@ == match first_index_from(old(which)@, id, 0) {
            Some(j) => old(which)@.remove(j),
            None => old(which)@,
        },
{
    let mut i: usize = 0;
    while i < which.len()
        invariant
            i <= which@.len(),
            which@ == old(which)@,
            first_index_from(which@, id, 0) == first_index_from(which@, id, i as int),
        decreases which@.len() - i,
    {
        if which[i] == id {
            which.remove(i);
            return ;
        }
        i = i + 1;
    }
}

/// Hand out the first `n` entries of a queue and rotate them to its back, so
/// repeated calls cycle through the whole queue.
#[verifier::loop_isolation(false)]
fn take_rotate(v: &mut Vec<i64>, n: usize) -> (out: Vec<i64>)
    requires
        n <= old(v)@.len(),
    ensures
        final(v)@ == old(v)@.skip(n as int) + old(v)@.take(n as int),
        out@ == old(v)@.take(n as int),
{
    let len = v.len();
    let mut rotated: Vec<i64> = Vec::new();
    let mut i: usize = n;
    while i < len
        invariant
            n <= i <= len,
            v@ == old(v)@,
            len == v@.len(),
            rotated@ == old(v)@.subrange(n as int, i as int),
        decreases len - i,
    {
        rotated.push(v[i]);
        proof {
            assert(rotated@ =~= old(v)@.subrange(n as int, i + 1));
        }
        i = i + 1;
    }
    let mut out: Vec<i64> = Vec::new();
    let mut j: usize = 0;
    while j < n
        invariant
            j <= n,
            v@ == old(v)@,
            out@ == old(v)@.take(j as int),
        decreases n - j,
    {
        out.push(v[j]);
        proof {
            assert(out@ =~= old(v)@.take(j + 1));
        }
        j = j + 1;
    }
    let mut back: Vec<i64> = Vec::new();
    let mut j2: usize = 0;
    while j2 < n
        invariant
            j2 <= n,
            v@ == old(v)@,
            back@ == old(v)@.take(j2 as int),
        decreases n - j2,
    {
        back.push(v[j2]);
        proof {
            assert(back@ =~= old(v)@.take(j2 + 1));
        }
        j2 = j2 + 1;
    }
    let mut rotated_all = rotated;
    rotated_all.append(&mut back);
    *v = rotated_all;
    proof {
        assert(v@ =~= old(v)@.skip(n as int) + old(v)@.take(n as int));
    }
    out
}

/// Hand out up to fifty ids: a longer queue is rotated so the handed-out
/// block moves to its back; a short queue is handed out whole and unchanged.
pub fn get(ids: &mut Vec<i64>) -> (out: Vec<i64>)
    ensures
        old(ids)@.len() > 50 ==> final(ids)@ == old(ids)@.skip(50) + old(ids)@.take(50) && out@
            == old(ids)@.take(50),
        old(ids)@.len() <= 50 ==> final(ids)@ == old(ids)@ && out@ == old(ids)@,
{
    let n: usize = if ids.len() > 50 {
        50
    } else {
        ids.len()
    };
    let out = take_rotate(ids, n);
    proof {
        if old(ids)@.len() <= 50 {
            assert(old(ids)@.take(old(ids)@.len() as int) =~= old(ids)@);
            assert(old(ids)@.skip(old(ids)@.len() as int) + old(ids)@.take(
                old(ids)@.len() as int,
            ) =~= old(ids)@);
        }
    }
    out
}

/// How many ids one call hands out of the second queue: half its length,
/// rounded up, and at most fifty.
pub open spec fn black_count(len: nat) -> int {
    let h = len / 2 + len % 2;
    if h < 50 {
        h as int
    } else {
        50
    }
}

/// Hand out the next block of the second queue — half of it, at most fifty —
/// and rotate the block to the queue's back.
pub fn get_black(bids: &mut Vec<i64>) -> (out: Vec<i64>)
    ensures
        final(bids)@ == old(bids)@.skip(black_count(old(bids)@.len())) + old(bids)@.take(
            black_count(old(bids)@.len()),
        ),
        out@ == old(bids)@.take(black_count(old(bids)@.len())),
{
    let len = bids.len();
    let half = len / 2 + len % 2;
    let n: usize = if half < 50 {
        half
    } else {
        50
    };
    take_rotate(bids, n)
}

} // verus!
