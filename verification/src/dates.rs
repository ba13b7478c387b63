use vstd::prelude::*;

verus! {

/// The fixed-width IMF date template a scraped timestamp is written into;
/// the underscores mark positions the substitution overwrites.
pub open spec fn date_template() -> Seq<u8> {
    seq![
        83u8, 117u8, 110u8, 44u8, 32u8, 48u8, 68u8, 32u8, 77u8, 77u8, 77u8, 32u8, 89u8, 89u8, 89u8,
        89u8, 95u8, 104u8, 104u8, 95u8, 109u8, 109u8, 58u8, 48u8, 48u8, 32u8, 71u8, 77u8, 84u8,
    ]
}

/// The hour digits pushed forward by twelve for a `PM` time, with the carry
/// between the two digits and an explicit bound on every adjusted byte.
pub open spec fn pm_adjust(b: Seq<u8>) -> Option<Seq<u8>> {
    let h1 = b[17] + 1;
    let h2 = b[18] + 2;
    if h1 > 127 || h2 > 127 {
        None
    } else if h2 > 57 {
        if h1 + 1 > 127 {
            None
        } else {
            Some(b.update(17, (h1 + 1) as u8).update(18, (h2 - 10) as u8))
        }
    } else {
        Some(b.update(17, h1 as u8).update(18, h2 as u8))
    }
}

/// A scraped timestamp of the shape `Jan 02, 2006 03:04 PM` (or with a
/// two-digit day) rewritten into the fixed-width IMF date template, month
/// first, then day, year and time, with the hours shifted for `PM`.
pub open spec fn spec_normalize_date(t: Seq<u8>) -> Option<Seq<u8>> {
    if t.len() < 20 {
        None
    } else {
        let b0 = date_template().update(8, t[0]).update(9, t[1]).update(10, t[2]);
        let b1 = if t[5] == 44 {
            b0.update(6, t[4])
        } else {
            b0.update(5, t[4]).update(6, t[5])
        };
        let rest = if t[5] == 44 {
            t.skip(7)
        } else {
            t.skip(8)
        };
        let b2 = Seq::new(
            29,
            |i: int|
                if 12 <= i < 22 {
                    rest[i - 12]
                } else {
                    b1[i]
                },
        );
        if rest[11] == 80 {
            pm_adjust(b2)
        } else {
            Some(b2)
        }
    }
}

/// What the whole conversion yields: the epoch seconds the HTTP date parser
/// assigns to the normalized template, where the substitution succeeded.
pub open spec fn spec_simple_parse(t: Seq<u8>) -> Option<u64> {
    match spec_normalize_date(t) {
        Some(b) => http_date_secs(b),
        None => None,
    }
}

/// The seconds since the Unix epoch that the HTTP date parser assigns to a
/// byte string, `None` where it rejects it.
pub uninterp spec fn http_date_secs(s: Seq<u8>) -> Option<u64>;

/// Relies on httpdate::parse_http_date: parses IMF-fixdate, RFC 850 and
/// asctime timestamps into a point in time at or after the epoch; the result
/// is a function of the input characters alone.
#[verifier::external_body]
fn parse_http_date_secs(s: &[u8]) -> (r: Option<u64>)
    ensures
        r == http_date_secs(s@),
{
    let Ok(text) = core::str::from_utf8(s) else {
        return None;
    };
    match httpdate::parse_http_date(text) {
        Ok(t) => match t.duration_since(std::time::UNIX_EPOCH) {
            Ok(d) => Some(d.as_secs()),
            Err(_) => None,
        },
        Err(_) => None,
    }
}

/// Parse a timestamp of the source format `Jan 02, 2006 03:04 PM` into epoch
/// seconds, by validated fixed-width template substitution and the HTTP date
/// parser; `None` for anything too short, out of bounds, or rejected.
#[verifier::loop_isolation(false)]
pub fn simple_parse(time: &[u8]) -> (r: Option<u64>)
    ensures
        r == spec_simple_parse(time@),
{
    if time.len() < 20 {
        return None;
    }
    let mut buf: Vec<u8> = Vec::with_capacity(29);
    buf.push(83u8);
    buf.push(117u8);
    buf.push(110u8);
    buf.push(44u8);
    buf.push(32u8);
    buf.push(48u8);
    buf.push(68u8);
    buf.push(32u8);
    buf.push(77u8);
    buf.push(77u8);
    buf.push(77u8);
    buf.push(32u8);
    buf.push(89u8);
    buf.push(89u8);
    buf.push(89u8);
    buf.push(89u8);
    buf.push(95u8);
    buf.push(104u8);
    buf.push(104u8);
    buf.push(95u8);
    buf.push(109u8);
    buf.push(109u8);
    buf.push(58u8);
    buf.push(48u8);
    buf.push(48u8);
    buf.push(32u8);
    buf.push(71u8);
    buf.push(77u8);
    buf.push(84u8);
    proof {
        assert(buf@ =~= date_template());
    }
    buf.set(8, time[0]);
    buf.set(9, time[1]);
    buf.set(10, time[2]);
    let ghost b0 = date_template().update(8, time@[0]).update(9, time@[1]).update(10, time@[2]);
    let off: usize;
    if time[5] == 44 {
        buf.set(6, time[4]);
        off = 7;
    } else {
        buf.set(5, time[4]);
        buf.set(6, time[5]);
        off = 8;
    }
    let ghost b1 = if time@[5] == 44 {
        b0.update(6, time@[4])
    } else {
        b0.update(5, time@[4]).update(6, time@[5])
    };
    let ghost rest = if time@[5] == 44 {
        time@.skip(7)
    } else {
        time@.skip(8)
    };
    proof {
        assert(buf@ =~= b1);
        assert(rest == time@.skip(off as int));
    }
    let mut i: usize = 0;
    while i < 10
        invariant
            i <= 10,
            buf@.len() == 29,
            forall|j: int| 0 <= j < 29 && !(12 <= j < 12 + i) ==> buf@[j] == b1[j],
            forall|j: int| 12 <= j < 12 + i ==> buf@[j] == rest[j - 12],
        decreases 10 - i,
    {
        buf.set(12 + i, time[off + i]);
        i = i + 1;
    }
    let ghost b2 = Seq::new(
        29,
        |j: int|
            if 12 <= j < 22 {
                rest[j - 12]
            } else {
                b1[j]
            },
    );
    proof {
        assert(buf@ =~= b2);
    }
    if time[off + 11] == 80 {
        let h1 = buf[17] as u16 + 1;
        let h2 = buf[18] as u16 + 2;
        if h1 > 127 || h2 > 127 {
            return None;
        }
        if h2 > 57 {
            if h1 + 1 > 127 {
                return None;
            }
            buf.set(17, (h1 + 1) as u8);
            buf.set(18, (h2 - 10) as u8);
        } else {
            buf.set(17, h1 as u8);
            buf.set(18, h2 as u8);
        }
        proof {
            assert(Some(buf@) =~= pm_adjust(b2));
        }
    }
    parse_http_date_secs(buf.as_slice())
}

} // verus!
