use vstd::prelude::*;
use vstd::string::{StringExecFns, StringSliceAdditionalSpecFns};
use crate::types::ascii_lower;

verus! {

pub open spec fn is_ascii_digit(b: u8) -> bool {
    48 <= b <= 57
}

pub open spec fn all_digits(s: Seq<u8>) -> bool {
    forall|i: int| 0 <= i < s.len() ==> is_ascii_digit(#[trigger] s[i])
}

/// The number a sequence of decimal digit bytes denotes.
pub open spec fn digits_val(s: Seq<u8>) -> int
    decreases s.len(),
{
    if s.len() == 0 {
        0
    } else {
        10 * digits_val(s.drop_last()) + (s.last() - 48)
    }
}

pub proof fn lemma_digits_val_nonneg(s: Seq<u8>)
    requires
        all_digits(s),
    ensures
        digits_val(s) >= 0,
    decreases s.len(),
{
    if s.len() > 0 {
        assert(forall|i: int| 0 <= i < s.drop_last().len() ==> s.drop_last()[i] == s[i]);
        lemma_digits_val_nonneg(s.drop_last());
    }
}

/// Appending digits never shrinks the denoted number.
pub proof fn lemma_digits_val_prefix(s: Seq<u8>, i: int)
    requires
        all_digits(s),
        0 <= i <= s.len(),
    ensures
        digits_val(s) >= digits_val(s.take(i)),
    decreases s.len() - i,
{
    if i < s.len() {
        lemma_digits_val_prefix(s, i + 1);
        assert(s.take(i + 1).drop_last() =~= s.take(i));
        assert(forall|j: int| 0 <= j < s.take(i).len() ==> s.take(i)[j] == s[j]);
        lemma_digits_val_nonneg(s.take(i));
    } else {
        assert(s.take(i) =~= s);
    }
}

/// What parsing a decimal integer from bytes yields: an optional sign, then
/// one or more digits, nothing else, and a value representable in `i64`.
pub open spec fn spec_parse_i64(s: Seq<u8>) -> Option<i64> {
    if s.len() == 0 {
        None
    } else {
        let neg = s[0] == 45;
        let ds = if s[0] == 45 || s[0] == 43 {
            s.skip(1)
        } else {
            s
        };
        if ds.len() == 0 || !all_digits(ds) {
            None
        } else {
            let v = digits_val(ds);
            if neg {
                if -v >= i64::MIN {
                    Some((-v) as i64)
                } else {
                    None
                }
            } else {
                if v <= i64::MAX {
                    Some(v as i64)
                } else {
                    None
                }
            }
        }
    }
}

/// Parse a decimal `i64` from bytes: an optional `+`/`-` sign followed by
/// digits only, rejecting anything else or any value out of range.
#[verifier::loop_isolation(false)]
pub fn parse_i64(s: &[u8]) -> (r: Option<i64>)
    ensures
        r == spec_parse_i64(s@),
{
    if s.len() == 0 {
        return None;
    }
    let neg = s[0] == 45;
    let start: usize = if s[0] == 45 || s[0] == 43 {
        1
    } else {
        0
    };
    let ghost ds = s@.skip(start as int);
    proof {
        assert(s@.skip(0) =~= s@);
    }
    if start >= s.len() {
        return None;
    }
    let limit: u64 = if neg {
        9223372036854775808
    } else {
        9223372036854775807
    };
    let mut acc: u64 = 0;
    let mut i: usize = start;
    while i < s.len()
        invariant
            start <= i <= s@.len(),
            ds == s@.skip(start as int),
            start < s@.len(),
            (neg && limit == 9223372036854775808) || (!neg && limit == 9223372036854775807),
            acc <= limit,
            all_digits(ds.take(i - start)),
            acc == digits_val(ds.take(i - start)),
        decreases s@.len() - i,
    {
        let b = s[i];
        proof {
            assert(ds.take(i - start + 1).drop_last() =~= ds.take(i - start));
            assert(ds.take(i - start + 1).last() == s@[i as int]);
        }
        if !(48 <= b && b <= 57) {
            proof {
                assert(!is_ascii_digit(ds[i - start]));
            }
            return None;
        }
        let d = (b - 48) as u64;
        let stepped = match acc.checked_mul(10) {
            Some(m) => m.checked_add(d),
            None => None,
        };
        match stepped {
            Some(a) if a <= limit => {
                acc = a;
            },
            _ => {
                proof {
                    if all_digits(ds) {
                        let pre = ds.take(i - start + 1);
                        assert(digits_val(pre) == 10 * acc + d);
                        assert(digits_val(pre) > limit);
                        lemma_digits_val_prefix(ds, i - start + 1);
                    }
                }
                return None;
            },
        }
        i = i + 1;
    }
    proof {
        assert(ds.take(ds.len() as int) =~= ds);
    }
    if neg {
        if acc == 9223372036854775808 {
            Some(i64::MIN)
        } else {
            Some(-(acc as i64))
        }
    } else {
        Some(acc as i64)
    }
}

/// Each `K` expanded to three zeros and each `M` to six, as shorthands for
/// thousands and millions in scraped counters.
pub open spec fn expand_km(s: Seq<u8>) -> Seq<u8>
    decreases s.len(),
{
    if s.len() == 0 {
        Seq::empty()
    } else {
        expand_km(s.drop_last()) + if s.last() == 75 {
            seq![48u8, 48u8, 48u8]
        } else if s.last() == 77 {
            seq![48u8, 48u8, 48u8, 48u8, 48u8, 48u8]
        } else {
            seq![s.last()]
        }
    }
}

/// Parse a scraped counter that may abbreviate thousands as `K` and millions
/// as `M`: the suffixes are expanded to zeros, then the digits are parsed.
pub fn _pa(x: &str) -> (r: Option<i64>)
    ensures
        r == spec_parse_i64(expand_km(x.spec_bytes())),
{
    let bytes = x.as_bytes();
    let mut expanded: Vec<u8> = Vec::new();
    let mut i: usize = 0;
    while i < bytes.len()
        invariant
            i <= bytes@.len(),
            expanded@ == expand_km(bytes@.take(i as int)),
        decreases bytes@.len() - i,
    {
        proof {
            assert(bytes@.take(i + 1).drop_last() =~= bytes@.take(i as int));
            assert(bytes@.take(i + 1).last() == bytes@[i as int]);
        }
        let b = bytes[i];
        if b == 75 {
            expanded.push(48);
            expanded.push(48);
            expanded.push(48);
        } else if b == 77 {
            expanded.push(48);
            expanded.push(48);
            expanded.push(48);
            expanded.push(48);
            expanded.push(48);
            expanded.push(48);
        } else {
            expanded.push(b);
        }
        proof {
            assert(expanded@ =~= expand_km(bytes@.take(i + 1)));
        }
        i = i + 1;
    }
    proof {
        assert(bytes@.take(bytes@.len() as int) =~= bytes@);
    }
    parse_i64(expanded.as_slice())
}

pub open spec fn is_ascii_ws(b: u8) -> bool {
    b == 32 || b == 9 || b == 10 || b == 11 || b == 12 || b == 13
}

/// `s` with every ASCII whitespace byte removed.
pub open spec fn strip_ws(s: Seq<u8>) -> Seq<u8>
    decreases s.len(),
{
    if s.len() == 0 {
        Seq::empty()
    } else {
        strip_ws(s.drop_last()) + if is_ascii_ws(s.last()) {
            Seq::empty()
        } else {
            seq![s.last()]
        }
    }
}

/// Parse a decimal `i64` whose digits may be interspersed with ASCII
/// whitespace, as thousands separators in scraped tables often are.
pub fn parse_i64_ignoring_ws(s: &[u8]) -> (r: Option<i64>)
    ensures
        r == spec_parse_i64(strip_ws(s@)),
{
    let mut compact: Vec<u8> = Vec::new();
    let mut i: usize = 0;
    while i < s.len()
        invariant
            i <= s@.len(),
            compact@ == strip_ws(s@.take(i as int)),
        decreases s@.len() - i,
    {
        proof {
            assert(s@.take(i + 1).drop_last() =~= s@.take(i as int));
            assert(s@.take(i + 1).last() == s@[i as int]);
        }
        let b = s[i];
        let ws = b == 32 || b == 9 || b == 10 || b == 11 || b == 12 || b == 13;
        if !ws {
            compact.push(b);
        }
        proof {
            assert(compact@ =~= strip_ws(s@.take(i + 1)));
        }
        i = i + 1;
    }
    proof {
        assert(s@.take(s@.len() as int) =~= s@);
    }
    parse_i64(compact.as_slice())
}

/// The pattern `pat` occurs in `s` starting at position `p`.
pub open spec fn prefix_at(s: Seq<u8>, p: int, pat: Seq<u8>) -> bool {
    0 <= p && p + pat.len() <= s.len() && s.subrange(p, p + pat.len()) == pat
}

/// Whether `pat` occurs at `p` in `s`.
#[verifier::loop_isolation(false)]
pub fn starts_with_at(s: &[u8], p: usize, pat: &[u8]) -> (r: bool)
    ensures
        r == prefix_at(s@, p as int, pat@),
{
    if p > s.len() || pat.len() > s.len() - p {
        return false;
    }
    let mut i: usize = 0;
    while i < pat.len()
        invariant
            p + pat@.len() <= s@.len(),
            i <= pat@.len(),
            forall|j: int| 0 <= j < i ==> s@[p + j] == pat@[j],
        decreases pat@.len() - i,
    {
        if s[p + i] != pat[i] {
            return false;
        }
        i = i + 1;
    }
    proof {
        assert(s@.subrange(p as int, p + pat@.len()) =~= pat@);
    }
    true
}

/// Position of the first occurrence of `pat` in `s`, if any.
#[verifier::loop_isolation(false)]
pub fn find_first(s: &[u8], pat: &[u8]) -> (r: Option<usize>)
    ensures
        match r {
            Some(p) => prefix_at(s@, p as int, pat@) && forall|q: int|
                0 <= q < p ==> !prefix_at(s@, q, pat@),
            None => forall|q: int| !prefix_at(s@, q, pat@),
        },
{
    if pat.len() > s.len() {
        return None;
    }
    if pat.len() == 0 {
        proof {
            assert(s@.subrange(0, 0) =~= pat@);
        }
        return Some(0);
    }
    let mut p: usize = 0;
    let last = s.len() - pat.len();
    while p <= last
        invariant
            p <= last + 1,
            forall|q: int| 0 <= q < p ==> !prefix_at(s@, q, pat@),
        decreases last + 1 - p,
    {
        if starts_with_at(s, p, pat) {
            return Some(p);
        }
        p = p + 1;
    }
    None
}

/// Whether `needle` occurs wholly before the first occurrence of `marker`:
/// the shape of a sanity check that a page carries its expected title tag
/// ahead of a site marker.
#[verifier::loop_isolation(false)]
pub fn found_before_marker(s: &[u8], needle: &[u8], marker: &[u8]) -> (r: bool)
    ensures
        r == match spec_find_first(s@, marker@) {
            Some(p) => exists|i: int| prefix_at(s@, i, needle@) && i + needle@.len() <= p,
            None => false,
        },
{
    let found = find_first(s, marker);
    match found {
        Some(p) => {
            proof {
                lemma_find_first_agrees(s@, marker@, p as int);
            }
            if needle.len() == 0 {
                proof {
                    assert(s@.subrange(0, 0) =~= needle@);
                    assert(prefix_at(s@, 0, needle@) && 0 + needle@.len() <= p);
                }
                return true;
            }
            if needle.len() > p {
                return false;
            }
            let last = p - needle.len();
            let mut i: usize = 0;
            while i <= last
                invariant
                    i <= last + 1,
                    forall|q: int|
                        0 <= q < i ==> !(prefix_at(s@, q, needle@) && q + needle@.len() <= p),
                decreases last + 1 - i,
            {
                if starts_with_at(s, i, needle) {
                    return true;
                }
                i = i + 1;
            }
            false
        },
        None => {
            proof {
                lemma_find_first_agrees_none(s@, marker@);
            }
            false
        },
    }
}

/// Position of the first occurrence of `pat` in `s` at or after `p`, if any.
pub open spec fn spec_find_from(s: Seq<u8>, pat: Seq<u8>, p: int) -> Option<int>
    decreases s.len() - p,
{
    if p < 0 || p > s.len() {
        None
    } else if prefix_at(s, p, pat) {
        Some(p)
    } else if p >= s.len() {
        None
    } else {
        spec_find_from(s, pat, p + 1)
    }
}

/// Position of the first occurrence of `pat` in `s`, if any.
pub open spec fn spec_find_first(s: Seq<u8>, pat: Seq<u8>) -> Option<int> {
    spec_find_from(s, pat, 0)
}

proof fn lemma_find_from_hit(s: Seq<u8>, pat: Seq<u8>, a: int, b: int)
    requires
        0 <= a <= b,
        prefix_at(s, b, pat),
        forall|q: int| a <= q < b ==> !prefix_at(s, q, pat),
    ensures
        spec_find_from(s, pat, a) == Some(b),
    decreases b - a,
{
    if a < b {
        lemma_find_from_hit(s, pat, a + 1, b);
    }
}

proof fn lemma_find_first_agrees(s: Seq<u8>, pat: Seq<u8>, p: int)
    requires
        prefix_at(s, p, pat),
        forall|q: int| 0 <= q < p ==> !prefix_at(s, q, pat),
    ensures
        spec_find_first(s, pat) == Some(p),
{
    assert(p >= 0);
    lemma_find_from_hit(s, pat, 0, p);
}

proof fn lemma_find_from_miss(s: Seq<u8>, pat: Seq<u8>, a: int)
    requires
        forall|q: int| !prefix_at(s, q, pat),
    ensures
        spec_find_from(s, pat, a) is None,
    decreases s.len() - a,
{
    if 0 <= a < s.len() {
        lemma_find_from_miss(s, pat, a + 1);
    }
}

proof fn lemma_find_first_agrees_none(s: Seq<u8>, pat: Seq<u8>)
    requires
        forall|q: int| !prefix_at(s, q, pat),
    ensures
        spec_find_first(s, pat) is None,
{
    lemma_find_from_miss(s, pat, 0);
}


/// A piece of a scraped rich-text description: a text node, or a `br`
/// element standing for a line break; anything else was dropped upstream.
#[derive(Debug)]
pub enum Piece {
    Text(String),
    LineBreak,
}

/// The description a sequence of pieces assembles to.
pub open spec fn desc_spec(pieces: Seq<Piece>) -> Seq<char>
    decreases pieces.len(),
{
    if pieces.len() == 0 {
        Seq::empty()
    } else {
        desc_spec(pieces.drop_last()) + match pieces.last() {
            Piece::Text(t) => t@,
            Piece::LineBreak => seq!['\n'],
        }
    }
}

/// Assemble an item description from its text nodes, line breaks where the
/// markup broke the line.
pub fn assemble_description(pieces: Vec<Piece>) -> (r: String)
    ensures
        r@ == desc_spec(pieces@),
{
    let ghost orig = pieces@;
    let mut rest = pieces;
    let mut out = String::new();
    let ghost mut k: int = 0;
    while rest.len() > 0
        invariant
            0 <= k,
            k + rest@.len() == orig.len(),
            rest@ == orig.skip(k),
            out@ == desc_spec(orig.take(k)),
        decreases rest@.len(),
    {
        let ghost pre = rest@;
        let piece = rest.remove(0);
        proof {
            assert(orig.take(k + 1).drop_last() =~= orig.take(k));
            assert(orig.take(k + 1).last() == orig[k]);
            assert(pre.remove(0) =~= orig.skip(k + 1));
        }
        match piece {
            Piece::Text(t) => {
                out.append(t.as_str());
            },
            Piece::LineBreak => {
                out.append("\n");
                proof {
                    reveal_strlit("\n");
                    assert(out@ =~= desc_spec(orig.take(k + 1)));
                }
            },
        }
        proof {
            k = k + 1;
        }
    }
    proof {
        assert(orig.take(orig.len() as int) =~= orig);
    }
    out
}

/// The description persisted for a peer: its about text, then a bot's own
/// description after a blank line, then its menu button as a bracketed link
/// after another blank line.
pub open spec fn compose_spec(
    about: Option<String>,
    bot_desc: Option<String>,
    menu: Option<(String, String)>,
) -> Seq<char> {
    (match about {
        Some(a) => a@,
        None => Seq::empty(),
    }) + (match bot_desc {
        Some(d) => "\n\n"@ + d@,
        None => Seq::empty(),
    }) + (match menu {
        Some(m) => "\n\n["@ + m.0@ + "]("@ + m.1@ + ")"@,
        None => Seq::empty(),
    })
}

/// Compose the persisted description of a peer out of the parts the source
/// handed back.
pub fn compose_description(
    about: Option<String>,
    bot_desc: Option<String>,
    menu: Option<(String, String)>,
) -> (r: String)
    ensures
        r@ == compose_spec(about, bot_desc, menu),
{
    let mut base = match about {
        Some(a) => a,
        None => String::new(),
    };
    match bot_desc {
        Some(d) => {
            base.append("\n\n");
            base.append(d.as_str());
        },
        None => {},
    }
    match menu {
        Some(m) => {
            base.append("\n\n[");
            base.append(m.0.as_str());
            base.append("](");
            base.append(m.1.as_str());
            base.append(")");
        },
        None => {},
    }
    proof {
        assert(base@ =~= compose_spec(about, bot_desc, menu));
    }
    base
}


/// `a` and `b` are equal, ignoring ASCII case.
pub open spec fn ascii_ci_eq(a: Seq<u8>, b: Seq<u8>) -> bool {
    a.len() == b.len() && forall|i: int|
        0 <= i < a.len() ==> ascii_lower(#[trigger] a[i]) == ascii_lower(b[i])
}

/// Whether `a` equals `b` ignoring ASCII case.
pub fn ascii_ci_eq_exec(a: &[u8], b: &[u8]) -> (r: bool)
    ensures
        r == ascii_ci_eq(a@, b@),
{
    if a.len() != b.len() {
        return false;
    }
    let mut i: usize = 0;
    while i < a.len()
        invariant
            a@.len() == b@.len(),
            i <= a@.len(),
            forall|j: int| 0 <= j < i ==> ascii_lower(#[trigger] a@[j]) == ascii_lower(b@[j]),
        decreases a@.len() - i,
    {
        let x = a[i];
        let y = b[i];
        let lx = if 65 <= x && x <= 90 {
            x + 32
        } else {
            x
        };
        let ly = if 65 <= y && y <= 90 {
            y + 32
        } else {
            y
        };
        if lx != ly {
            return false;
        }
        i = i + 1;
    }
    true
}

pub open spec fn cookie_key() -> Seq<u8> {
    seq![99u8, 111u8, 111u8, 107u8, 105u8, 101u8]
}

pub open spec fn user_agent_key() -> Seq<u8> {
    seq![117u8, 115u8, 101u8, 114u8, 45u8, 97u8, 103u8, 101u8, 110u8, 116u8]
}

/// What a header list yields for each of the two keys of interest, the last
/// value winning, keys compared ignoring ASCII case.
pub open spec fn pick_spec(headers: Seq<(Vec<u8>, Vec<u8>)>) -> (Option<Vec<u8>>, Option<Vec<u8>>)
    decreases headers.len(),
{
    if headers.len() == 0 {
        (None, None)
    } else {
        let acc = pick_spec(headers.drop_last());
        let h = headers.last();
        if ascii_ci_eq(h.0@, cookie_key()) {
            (Some(h.1), acc.1)
        } else if ascii_ci_eq(h.0@, user_agent_key()) {
            (acc.0, Some(h.1))
        } else {
            acc
        }
    }
}

/// From an observed request's header list, the cookie and user agent worth
/// reusing: present only when both were seen.
pub fn pick_config_headers(headers: Vec<(Vec<u8>, Vec<u8>)>) -> (r: Option<(Vec<u8>, Vec<u8>)>)
    ensures
        ({
            let picked = pick_spec(headers@);
            match r {
                Some(p) => picked.0 == Some(p.0) && picked.1 == Some(p.1),
                None => picked.0 is None || picked.1 is None,
            }
        }),
{
    let mut cookie_pat: Vec<u8> = Vec::new();
    cookie_pat.push(99);
    cookie_pat.push(111);
    cookie_pat.push(111);
    cookie_pat.push(107);
    cookie_pat.push(105);
    cookie_pat.push(101);
    let mut ua_pat: Vec<u8> = Vec::new();
    ua_pat.push(117);
    ua_pat.push(115);
    ua_pat.push(101);
    ua_pat.push(114);
    ua_pat.push(45);
    ua_pat.push(97);
    ua_pat.push(103);
    ua_pat.push(101);
    ua_pat.push(110);
    ua_pat.push(116);
    proof {
        assert(cookie_pat@ =~= cookie_key());
        assert(ua_pat@ =~= user_agent_key());
    }
    let ghost orig = headers@;
    let mut rest = headers;
    let mut cookie: Option<Vec<u8>> = None;
    let mut agent: Option<Vec<u8>> = None;
    let ghost mut k: int = 0;
    while rest.len() > 0
        invariant
            0 <= k,
            k + rest@.len() == orig.len(),
            rest@ == orig.skip(k),
            cookie_pat@ == cookie_key(),
            ua_pat@ == user_agent_key(),
            cookie == pick_spec(orig.take(k)).0,
            agent == pick_spec(orig.take(k)).1,
        decreases rest@.len(),
    {
        let ghost pre = rest@;
        let h = rest.remove(0);
        proof {
            assert(orig.take(k + 1).drop_last() =~= orig.take(k));
            assert(orig.take(k + 1).last() == orig[k]);
            assert(pre.remove(0) =~= orig.skip(k + 1));
        }
        if ascii_ci_eq_exec(h.0.as_slice(), cookie_pat.as_slice()) {
            cookie = Some(h.1);
        } else if ascii_ci_eq_exec(h.0.as_slice(), ua_pat.as_slice()) {
            agent = Some(h.1);
        }
        proof {
            k = k + 1;
        }
    }
    proof {
        assert(orig.take(orig.len() as int) =~= orig);
    }
    match (cookie, agent) {
        (Some(c), Some(u)) => Some((c, u)),
        _ => None,
    }
}

} // verus!
