use vstd::prelude::*;
use crate::text::{prefix_at, spec_parse_i64, starts_with_at};

verus! {

/// An identifier byte of a link handle: an ASCII letter, digit, `-` or `_`.
pub open spec fn is_idc(ch: u8) -> bool {
    (48 <= ch <= 57) || (65 <= ch <= 90) || (97 <= ch <= 122) || ch == 45 || ch == 95
}

/// Whether `ch` can appear in a link handle.
pub fn idc(ch: u8) -> (r: bool)
    ensures
        r == is_idc(ch),
{
    (48 <= ch && ch <= 57) || (65 <= ch && ch <= 90) || (97 <= ch && ch <= 122) || ch == 45 || ch
        == 95
}

// The recognized link shapes, spelled byte by byte after the leading `t`:
// hosts `telegram`, `telesco`, `tg`, the bare `t`, the direct `tg://join`
// form, the domains `.me/`, `.dev/`, `.dog/`, `.pe/`, and an optional
// `joinchat` path segment.
pub open spec fn pat_elegram() -> Seq<u8> {
    seq![101u8, 108u8, 101u8, 103u8, 114u8, 97u8, 109u8]
}

pub open spec fn pat_elesco() -> Seq<u8> {
    seq![101u8, 108u8, 101u8, 115u8, 99u8, 111u8]
}

pub open spec fn pat_g_join() -> Seq<u8> {
    seq![103u8, 58u8, 47u8, 47u8, 106u8, 111u8, 105u8, 110u8]
}

pub open spec fn pat_g() -> Seq<u8> {
    seq![103u8]
}

pub open spec fn pat_me() -> Seq<u8> {
    seq![46u8, 109u8, 101u8, 47u8]
}

pub open spec fn pat_dev() -> Seq<u8> {
    seq![46u8, 100u8, 101u8, 118u8, 47u8]
}

pub open spec fn pat_dog() -> Seq<u8> {
    seq![46u8, 100u8, 111u8, 103u8, 47u8]
}

pub open spec fn pat_pe() -> Seq<u8> {
    seq![46u8, 112u8, 101u8, 47u8]
}

pub open spec fn pat_joinchat() -> Seq<u8> {
    seq![106u8, 111u8, 105u8, 110u8, 99u8, 104u8, 97u8, 116u8]
}

/// The first identifier byte at or after `q`, looking at most `w` bytes
/// ahead and never past the end.
pub open spec fn first_idc(s: Seq<u8>, q: int, w: int) -> Option<int>
    decreases w,
{
    if w <= 0 || q >= s.len() {
        None
    } else if is_idc(s[q]) {
        Some(q)
    } else {
        first_idc(s, q + 1, w - 1)
    }
}

/// Length of the maximal run of identifier bytes starting at `q`.
pub open spec fn idc_run(s: Seq<u8>, q: int) -> int
    decreases s.len() - q,
{
    if q < 0 || q >= s.len() || !is_idc(s[q]) {
        0
    } else {
        1 + idc_run(s, q + 1)
    }
}

/// Where the handle after a matched prefix lies: the first identifier byte
/// among the next eight, and the run of identifier bytes from there.
pub open spec fn payload_pos(s: Seq<u8>, q: int) -> Option<(int, int)> {
    match first_idc(s, q, 8) {
        Some(st) => Some((st, idc_run(s, st))),
        None => None,
    }
}

pub open spec fn payload_at(s: Seq<u8>, q: int) -> Option<Seq<u8>> {
    match payload_pos(s, q) {
        Some(pr) => Some(s.subrange(pr.0, pr.0 + pr.1)),
        None => None,
    }
}

/// `joinchat` is an optional path segment before the handle.
pub open spec fn payload_joinchat(s: Seq<u8>, q: int) -> Option<Seq<u8>> {
    if prefix_at(s, q, pat_joinchat()) {
        payload_at(s, q + 8)
    } else {
        payload_at(s, q)
    }
}

/// The handle of the link starting at position `p`, which must hold a `t`:
/// either the direct `tg://join` form, or a host alternative followed by one
/// of the known domains, an optional `joinchat` segment, and the handle.
pub open spec fn link_at(s: Seq<u8>, p: int) -> Option<Seq<u8>> {
    if !(0 <= p < s.len() && s[p] == 116) {
        None
    } else {
        let q0 = p + 1;
        if prefix_at(s, q0, pat_g_join()) {
            payload_at(s, q0 + 8)
        } else {
            let q1 = if prefix_at(s, q0, pat_elegram()) {
                q0 + 7
            } else if prefix_at(s, q0, pat_elesco()) {
                q0 + 6
            } else if prefix_at(s, q0, pat_g()) {
                q0 + 1
            } else {
                q0
            };
            if prefix_at(s, q1, pat_me()) {
                payload_joinchat(s, q1 + 4)
            } else if prefix_at(s, q1, pat_dev()) {
                payload_joinchat(s, q1 + 5)
            } else if prefix_at(s, q1, pat_dog()) {
                payload_joinchat(s, q1 + 5)
            } else if prefix_at(s, q1, pat_pe()) {
                payload_joinchat(s, q1 + 4)
            } else {
                None
            }
        }
    }
}

/// All handles found at positions below `p`, in order of position.
pub open spec fn links_upto(s: Seq<u8>, p: int) -> Seq<Seq<u8>>
    decreases p,
{
    if p <= 0 {
        Seq::empty()
    } else {
        let rest = links_upto(s, p - 1);
        match link_at(s, p - 1) {
            Some(l) => rest.push(l),
            None => rest,
        }
    }
}

/// All link handles of a text, in order; a handle occurring several times is
/// reported as often as it occurs.
pub open spec fn links_of(s: Seq<u8>) -> Seq<Seq<u8>> {
    links_upto(s, s.len() as int)
}

struct LinkPats {
    elegram: Vec<u8>,
    elesco: Vec<u8>,
    g_join: Vec<u8>,
    g: Vec<u8>,
    me: Vec<u8>,
    dev: Vec<u8>,
    dog: Vec<u8>,
    pe: Vec<u8>,
    joinchat: Vec<u8>,
}

impl LinkPats {
    spec fn wf(self) -> bool {
        &&& self.elegram@ == pat_elegram()
        &&& self.elesco@ == pat_elesco()
        &&& self.g_join@ == pat_g_join()
        &&& self.g@ == pat_g()
        &&& self.me@ == pat_me()
        &&& self.dev@ == pat_dev()
        &&& self.dog@ == pat_dog()
        &&& self.pe@ == pat_pe()
        &&& self.joinchat@ == pat_joinchat()
    }
}

fn push_all(v: &mut Vec<u8>, a: u8, b: u8, c: u8, d: u8)
    ensures
        final(v)@ == old(v)@ + seq![a, b, c, d],
{
    v.push(a);
    v.push(b);
    v.push(c);
    v.push(d);
    proof {
        assert(v@ =~= old(v)@ + seq![a, b, c, d]);
    }
}

fn link_pats() -> (r: LinkPats)
    ensures
        r.wf(),
{
    let mut elegram: Vec<u8> = Vec::new();
    push_all(&mut elegram, 101, 108, 101, 103);
    elegram.push(114);
    elegram.push(97);
    elegram.push(109);
    let mut elesco: Vec<u8> = Vec::new();
    push_all(&mut elesco, 101, 108, 101, 115);
    elesco.push(99);
    elesco.push(111);
    let mut g_join: Vec<u8> = Vec::new();
    push_all(&mut g_join, 103, 58, 47, 47);
    push_all(&mut g_join, 106, 111, 105, 110);
    let mut g: Vec<u8> = Vec::new();
    g.push(103);
    let mut me: Vec<u8> = Vec::new();
    push_all(&mut me, 46, 109, 101, 47);
    let mut dev: Vec<u8> = Vec::new();
    push_all(&mut dev, 46, 100, 101, 118);
    dev.push(47);
    let mut dog: Vec<u8> = Vec::new();
    push_all(&mut dog, 46, 100, 111, 103);
    dog.push(47);
    let mut pe: Vec<u8> = Vec::new();
    push_all(&mut pe, 46, 112, 101, 47);
    let mut joinchat: Vec<u8> = Vec::new();
    push_all(&mut joinchat, 106, 111, 105, 110);
    push_all(&mut joinchat, 99, 104, 97, 116);
    let r = LinkPats { elegram, elesco, g_join, g, me, dev, dog, pe, joinchat };
    proof {
        assert(r.elegram@ =~= pat_elegram());
        assert(r.elesco@ =~= pat_elesco());
        assert(r.g_join@ =~= pat_g_join());
        assert(r.g@ =~= pat_g());
        assert(r.me@ =~= pat_me());
        assert(r.dev@ =~= pat_dev());
        assert(r.dog@ =~= pat_dog());
        assert(r.pe@ =~= pat_pe());
        assert(r.joinchat@ =~= pat_joinchat());
    }
    r
}

#[verifier::loop_isolation(false)]
fn find_payload_start(s: &[u8], q: usize) -> (r: Option<usize>)
    requires
        q <= s@.len(),
    ensures
        match r {
            Some(st) => first_idc(s@, q as int, 8) == Some(st as int) && q <= st < s@.len(),
            None => first_idc(s@, q as int, 8) is None,
        },
{
    let total = s.len();
    let mut k: usize = 0;
    while k < 8
        invariant
            k <= 8,
            first_idc(s@, q as int, 8) == first_idc(s@, q + k, 8 - k),
        decreases 8 - k,
    {
        if k >= total - q {
            return None;
        }
        let b = s[q + k];
        if idc(b) {
            return Some(q + k);
        }
        k = k + 1;
    }
    None
}

#[verifier::loop_isolation(false)]
fn measure_run(s: &[u8], st: usize) -> (n: usize)
    requires
        st < s@.len(),
    ensures
        n == idc_run(s@, st as int),
        st + n <= s@.len(),
{
    let total = s.len();
    let mut n: usize = 0;
    while st + n < total && idc(s[st + n])
        invariant
            st + n <= s@.len(),
            idc_run(s@, st as int) == n + idc_run(s@, st + n),
        decreases s@.len() - st - n,
    {
        n = n + 1;
    }
    n
}

#[verifier::loop_isolation(false)]
fn payload_pos_exec(s: &[u8], q: usize) -> (r: Option<(usize, usize)>)
    requires
        q <= s@.len(),
    ensures
        match r {
            Some(pr) => payload_pos(s@, q as int) == Some((pr.0 as int, pr.1 as int)) && pr.0
                + pr.1 <= s@.len(),
            None => payload_pos(s@, q as int) is None,
        },
{
    match find_payload_start(s, q) {
        Some(st) => {
            let n = measure_run(s, st);
            Some((st, n))
        },
        None => None,
    }
}

fn link_at_exec(s: &[u8], p: usize, pats: &LinkPats) -> (r: Option<(usize, usize)>)
    requires
        pats.wf(),
        p < s@.len(),
    ensures
        match r {
            Some(pr) => link_at(s@, p as int) == Some(s@.subrange(pr.0 as int, pr.0 + pr.1))
                && pr.0 + pr.1 <= s@.len(),
            None => link_at(s@, p as int) is None,
        },
{
    if s[p] != 116 {
        return None;
    }
    let q0 = p + 1;
    if starts_with_at(s, q0, pats.g_join.as_slice()) {
        return payload_pos_exec(s, q0 + 8);
    }
    let q1: usize = if starts_with_at(s, q0, pats.elegram.as_slice()) {
        q0 + 7
    } else if starts_with_at(s, q0, pats.elesco.as_slice()) {
        q0 + 6
    } else if starts_with_at(s, q0, pats.g.as_slice()) {
        q0 + 1
    } else {
        q0
    };
    let q2: usize = if starts_with_at(s, q1, pats.me.as_slice()) {
        q1 + 4
    } else if starts_with_at(s, q1, pats.dev.as_slice()) {
        q1 + 5
    } else if starts_with_at(s, q1, pats.dog.as_slice()) {
        q1 + 5
    } else if starts_with_at(s, q1, pats.pe.as_slice()) {
        q1 + 4
    } else {
        return None;
    };
    if starts_with_at(s, q2, pats.joinchat.as_slice()) {
        payload_pos_exec(s, q2 + 8)
    } else {
        payload_pos_exec(s, q2)
    }
}

#[verifier::loop_isolation(false)]
fn copy_range(s: &[u8], st: usize, n: usize) -> (out: Vec<u8>)
    requires
        st + n <= s@.len(),
    ensures
        out@ == s@.subrange(st as int, st + n),
{
    let total = s.len();
    let mut out: Vec<u8> = Vec::new();
    let mut i: usize = 0;
    while i < n
        invariant
            i <= n,
            st + n <= s@.len(),
            out@.len() == i,
            forall|j: int| 0 <= j < i ==> out@[j] == s@[st + j],
        decreases n - i,
    {
        out.push(s[st + i]);
        i = i + 1;
    }
    proof {
        assert(out@ =~= s@.subrange(st as int, st + n));
    }
    out
}

/// Scan a text for link handles: wherever a recognized link prefix is
/// followed by identifier bytes, the handle is collected, in order of
/// position.
#[verifier::loop_isolation(false)]
pub fn scan_links(text: &[u8]) -> (handles: Vec<Vec<u8>>)
    ensures
        handles@.len() == links_of(text@).len(),
        forall|k: int| 0 <= k < handles@.len() ==> #[trigger] handles@[k]@ == links_of(text@)[k],
{
    let pats = link_pats();
    let mut out: Vec<Vec<u8>> = Vec::new();
    let mut p: usize = 0;
    while p < text.len()
        invariant
            p <= text@.len(),
            out@.len() == links_upto(text@, p as int).len(),
            forall|k: int|
                0 <= k < out@.len() ==> #[trigger] out@[k]@ == links_upto(text@, p as int)[k],
        decreases text@.len() - p,
    {
        let b = text[p];
        if b == 116 {
            match link_at_exec(text, p, &pats) {
                Some(pr) => {
                    let v = copy_range(text, pr.0, pr.1);
                    out.push(v);
                },
                None => {},
            }
        } else {
            proof {
                assert(link_at(text@, p as int) is None);
            }
        }
        p = p + 1;
        proof {
            assert(links_upto(text@, p as int).drop_last() == links_upto(text@, p - 1) || (
            links_upto(text@, p as int) == links_upto(text@, p - 1)));
        }
    }
    out
}

/// Accumulates, over the texts of fetched messages, each link found with the
/// channel and message it was found in.
pub struct Inspector {
    pub links: Vec<(i64, i32, Vec<u8>)>,
}

impl Inspector {
    pub fn new() -> (r: Inspector)
        ensures
            r.links@.len() == 0,
    {
        Inspector { links: Vec::new() }
    }

    /// Scan one message's text and record every handle it links to.
    pub fn inspect(&mut self, channel_id: i64, message_id: i32, text: &[u8])
        ensures
            final(self).links@.len() == old(self).links@.len() + links_of(text@).len(),
            forall|k: int|
                0 <= k < old(self).links@.len() ==> final(self).links@[k] == old(self).links@[k],
            forall|k: int|
                0 <= k < links_of(text@).len() ==> {
                    let e = #[trigger] final(self).links@[old(self).links@.len() + k];
                    e.0 == channel_id && e.1 == message_id && e.2@ == links_of(text@)[k]
                },
    {
        let ghost len0 = self.links@.len();
        let handles = scan_links(text);
        let mut rest = handles;
        let ghost horig = rest@;
        let ghost mut k: int = 0;
        while rest.len() > 0
            invariant
                0 <= k,
                k + rest@.len() == horig.len(),
                rest@ == horig.skip(k),
                self.links@.len() == len0 + k,
                forall|j: int| 0 <= j < len0 ==> self.links@[j] == old(self).links@[j],
                forall|j: int|
                    0 <= j < k ==> {
                        let e = #[trigger] self.links@[len0 + j];
                        e.0 == channel_id && e.1 == message_id && e.2 == horig[j]
                    },
            decreases rest@.len(),
        {
            let ghost pre = rest@;
            let h = rest.remove(0);
            proof {
                assert(pre.remove(0) =~= horig.skip(k + 1));
            }
            self.links.push((channel_id, message_id, h));
            proof {
                k = k + 1;
            }
        }
    }
}

/// A canonical case folding of a byte string: two strings are
/// case-insensitively equal exactly when their foldings agree.
pub uninterp spec fn case_fold_bytes(s: Seq<u8>) -> Seq<u8>;

/// Relies on unicase::eq: case-insensitive equality of two strings under
/// Unicode case folding; operands that are not valid UTF-8 are equal only to
/// themselves, byte for byte.
#[verifier::external_body]
fn eq_ignore_case(a: &[u8], b: &[u8]) -> (r: bool)
    ensures
        r == (case_fold_bytes(a@) == case_fold_bytes(b@)),
{
    match (core::str::from_utf8(a), core::str::from_utf8(b)) {
        (Ok(x), Ok(y)) => unicase::eq(x, y),
        _ => a == b,
    }
}

/// The identity filed under `name` in a directory of known peers, compared
/// case-insensitively; the first match wins.
pub open spec fn lookup_spec(dict: Seq<(Vec<u8>, i64)>, name: Seq<u8>) -> Option<i64>
    decreases dict.len(),
{
    if dict.len() == 0 {
        None
    } else if case_fold_bytes(dict[0].0@) == case_fold_bytes(name) {
        Some(dict[0].1)
    } else {
        lookup_spec(dict.skip(1), name)
    }
}

/// Look a name up in the directory of known peers, case-insensitively.
#[verifier::loop_isolation(false)]
pub fn lookup_ci(dict: &Vec<(Vec<u8>, i64)>, name: &[u8]) -> (r: Option<i64>)
    ensures
        r == lookup_spec(dict@, name@),
{
    proof {
        assert(dict@.skip(0) =~= dict@);
    }
    let mut i: usize = 0;
    while i < dict.len()
        invariant
            i <= dict@.len(),
            lookup_spec(dict@, name@) == lookup_spec(dict@.skip(i as int), name@),
        decreases dict@.len() - i,
    {
        if eq_ignore_case(dict[i].0.as_slice(), name) {
            return Some(dict[i].1);
        }
        proof {
            assert(dict@.skip(i as int).skip(1) =~= dict@.skip(i + 1));
        }
        i = i + 1;
    }
    None
}

/// The rows a batch of found links contributes to the link table: each link
/// whose handle resolves to a known peer other than the channel it was found
/// in, as (source channel, message, target channel).
pub open spec fn resolve_spec(links: Seq<(i64, i32, Vec<u8>)>, dict: Seq<(Vec<u8>, i64)>) -> Seq<
    (i64, i32, i64),
>
    decreases links.len(),
{
    if links.len() == 0 {
        Seq::empty()
    } else {
        let rest = resolve_spec(links.drop_last(), dict);
        let l = links.last();
        match lookup_spec(dict, l.2@) {
            Some(id2) => if id2 != l.0 {
                rest.push((l.0, l.1, id2))
            } else {
                rest
            },
            None => rest,
        }
    }
}

/// Resolve a batch of found links against the known peers, dropping
/// self-references and unknown handles.
pub fn resolve_links(links: Vec<(i64, i32, Vec<u8>)>, dict: &Vec<(Vec<u8>, i64)>) -> (rows: Vec<
    (i64, i32, i64),
>)
    ensures
        rows@ == resolve_spec(links@, dict@),
{
    let ghost orig = links@;
    let mut rest = links;
    let mut rows: Vec<(i64, i32, i64)> = Vec::new();
    let ghost mut k: int = 0;
    while rest.len() > 0
        invariant
            0 <= k,
            k + rest@.len() == orig.len(),
            rest@ == orig.skip(k),
            rows@ == resolve_spec(orig.take(k), dict@),
        decreases rest@.len(),
    {
        let ghost pre = rest@;
        let l = rest.remove(0);
        proof {
            assert(orig.take(k + 1).drop_last() =~= orig.take(k));
            assert(orig.take(k + 1).last() == orig[k]);
            assert(pre.remove(0) =~= orig.skip(k + 1));
        }
        let target = lookup_ci(dict, l.2.as_slice());
        match target {
            Some(id2) => {
                if id2 != l.0 {
                    rows.push((l.0, l.1, id2));
                }
            },
            None => {},
        }
        proof {
            k = k + 1;
        }
    }
    proof {
        assert(orig.take(orig.len() as int) =~= orig);
    }
    rows
}

/// Whether some collected name already stands for `n`, case-insensitively.
pub open spec fn name_seen(names: Seq<Vec<u8>>, n: Seq<u8>) -> bool {
    exists|j: int|
        0 <= j < names.len() && case_fold_bytes(#[trigger] names[j]@) == case_fold_bytes(n)
}

/// Whether some known peer carries the identity `id`.
pub open spec fn known_has_id(known: Seq<(Vec<u8>, i64)>, id: i64) -> bool {
    exists|j: int| 0 <= j < known.len() && (#[trigger] known[j]).1 == id
}

/// How raw keys split into identities and names: a key that parses as a
/// number is an identity, anything else a name; keys already searched are
/// left out, and duplicates collapse, names case-insensitively.
pub open spec fn separate_spec(raw: Seq<Vec<u8>>, known: Seq<(Vec<u8>, i64)>) -> (
    Seq<i64>,
    Seq<Vec<u8>>,
)
    decreases raw.len(),
{
    if raw.len() == 0 {
        (Seq::empty(), Seq::empty())
    } else {
        let acc = separate_spec(raw.drop_last(), known);
        let e = raw.last();
        match spec_parse_i64(e@) {
            Some(id) => if !known_has_id(known, id) && !acc.0.contains(id) {
                (acc.0.push(id), acc.1)
            } else {
                acc
            },
            None => if lookup_spec(known, e@) is None && !name_seen(acc.1, e@) {
                (acc.0, acc.1.push(e))
            } else {
                acc
            },
        }
    }
}

/// Split raw keys into numeric identities and names to search, leaving out
/// whatever is already known and collapsing duplicates.
#[verifier::loop_isolation(false)]
pub fn separate_id_and_names(raw: Vec<Vec<u8>>, known: &Vec<(Vec<u8>, i64)>) -> (r: (
    Vec<i64>,
    Vec<Vec<u8>>,
))
    ensures
        r.0@ == separate_spec(raw@, known@).0,
        r.1@ == separate_spec(raw@, known@).1,
{
    let ghost orig = raw@;
    let mut rest = raw;
    let mut ids: Vec<i64> = Vec::new();
    let mut names: Vec<Vec<u8>> = Vec::new();
    let ghost mut k: int = 0;
    while rest.len() > 0
        invariant
            0 <= k,
            k + rest@.len() == orig.len(),
            rest@ == orig.skip(k),
            ids@ == separate_spec(orig.take(k), known@).0,
            names@ == separate_spec(orig.take(k), known@).1,
        decreases rest@.len(),
    {
        let ghost pre = rest@;
        let e = rest.remove(0);
        proof {
            assert(orig.take(k + 1).drop_last() =~= orig.take(k));
            assert(orig.take(k + 1).last() == orig[k]);
            assert(pre.remove(0) =~= orig.skip(k + 1));
        }
        match crate::text::parse_i64(e.as_slice()) {
            Some(id) => {
                let mut in_known = false;
                let mut j: usize = 0;
                while j < known.len()
                    invariant
                        j <= known@.len(),
                        in_known == exists|q: int|
                            0 <= q < j && (#[trigger] known@[q]).1 == id,
                    decreases known@.len() - j,
                {
                    if known[j].1 == id {
                        in_known = true;
                    }
                    j = j + 1;
                }
                let mut in_ids = false;
                let mut j2: usize = 0;
                while j2 < ids.len()
                    invariant
                        j2 <= ids@.len(),
                        in_ids == exists|q: int| 0 <= q < j2 && ids@[q] == id,
                    decreases ids@.len() - j2,
                {
                    if ids[j2] == id {
                        in_ids = true;
                    }
                    j2 = j2 + 1;
                }
                proof {
                    assert(in_known == known_has_id(known@, id));
                    assert(in_ids == ids@.contains(id));
                }
                if !in_known && !in_ids {
                    ids.push(id);
                }
            },
            None => {
                let target = lookup_ci(known, e.as_slice());
                if matches!(target, None) {
                    let mut seen = false;
                    let mut j3: usize = 0;
                    while j3 < names.len()
                        invariant
                            j3 <= names@.len(),
                            seen == exists|q: int|
                                0 <= q < j3 && case_fold_bytes(#[trigger] names@[q]@)
                                    == case_fold_bytes(e@),
                        decreases names@.len() - j3,
                    {
                        if eq_ignore_case(names[j3].as_slice(), e.as_slice()) {
                            seen = true;
                        }
                        j3 = j3 + 1;
                    }
                    proof {
                        assert(seen == name_seen(names@, e@));
                    }
                    if !seen {
                        names.push(e);
                    }
                }
            },
        }
        proof {
            k = k + 1;
        }
    }
    proof {
        assert(orig.take(orig.len() as int) =~= orig);
    }
    (ids, names)
}

} // verus!
