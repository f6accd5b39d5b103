//! IP address literals. The listen address of a forwarding rule must be an
//! IP address (IPv4 dotted quad or IPv6 groups, with `::` compression and an
//! optional embedded dotted quad), so the library carries its own address
//! type and a verified parser for both textual forms.

use vstd::prelude::*;

use crate::num::{
    dec_val, hex_val, is_hex_group, is_octet, parse_hex_group, parse_ipv4_octet,
};
use crate::scan::{split, split_at_byte};

verus! {

/// An IP address as plain values: four octets, or eight 16-bit groups.
#[derive(Clone, Copy, Debug, PartialEq, Eq, Structural)]
pub enum IpAddress {
    V4 { a: u8, b: u8, c: u8, d: u8 },
    V6 { g0: u16, g1: u16, g2: u16, g3: u16, g4: u16, g5: u16, g6: u16, g7: u16 },
}

/// The IPv4 address denoted by `s`: exactly four `.`-separated octets, each
/// one to three digits without a leading zero and at most 255.
pub open spec fn ipv4_spec(s: Seq<u8>) -> Option<(u8, u8, u8, u8)> {
    let ps = split_at_byte(s, 0x2e);
    if ps.len() == 4 && is_octet(ps[0]) && is_octet(ps[1]) && is_octet(ps[2]) && is_octet(
        ps[3],
    ) {
        Some(
            (
                dec_val(ps[0]) as u8,
                dec_val(ps[1]) as u8,
                dec_val(ps[2]) as u8,
                dec_val(ps[3]) as u8,
            ),
        )
    } else {
        None
    }
}

/// Parse an IPv4 dotted quad.
pub fn parse_ipv4(s: &[u8]) -> (r: Option<(u8, u8, u8, u8)>)
    ensures
        r == ipv4_spec(s@),
{
    let ps = split(s, 0x2e);
    let ghost psv = ps@.map_values(|v: Vec<u8>| v@);
    if ps.len() != 4 {
        return None;
    }
    proof {
        assert(psv[0] == ps@[0]@ && psv[1] == ps@[1]@ && psv[2] == ps@[2]@ && psv[3]
            == ps@[3]@);
    }
    let a = match parse_ipv4_octet(ps[0].as_slice()) {
        Some(v) => v,
        None => { return None },
    };
    let b = match parse_ipv4_octet(ps[1].as_slice()) {
        Some(v) => v,
        None => { return None },
    };
    let c = match parse_ipv4_octet(ps[2].as_slice()) {
        Some(v) => v,
        None => { return None },
    };
    let d = match parse_ipv4_octet(ps[3].as_slice()) {
        Some(v) => v,
        None => { return None },
    };
    Some((a, b, c, d))
}

/// Index of the first `::` in `s`, or -1 if none occurs.
pub open spec fn find_dc(s: Seq<u8>) -> int
    decreases s.len(),
{
    if s.len() < 2 {
        -1
    } else if s[0] == 0x3a && s[1] == 0x3a {
        0
    } else if find_dc(s.skip(1)) < 0 {
        -1
    } else {
        find_dc(s.skip(1)) + 1
    }
}

/// `find_dc` returns the smallest index starting a `::`, or -1 when none.
pub proof fn lemma_find_dc(s: Seq<u8>)
    ensures
        find_dc(s) < 0 ==> forall|i: int|
            0 <= i < s.len() - 1 ==> !(#[trigger] s[i] == 0x3a && s[i + 1] == 0x3a),
        find_dc(s) >= 0 ==> {
            let k = find_dc(s);
            &&& k < s.len() - 1
            &&& s[k] == 0x3a
            &&& s[k + 1] == 0x3a
            &&& forall|i: int| 0 <= i < k ==> !(#[trigger] s[i] == 0x3a && s[i + 1] == 0x3a)
        },
    decreases s.len(),
{
    if s.len() >= 2 && !(s[0] == 0x3a && s[1] == 0x3a) {
        lemma_find_dc(s.skip(1));
        let t = s.skip(1);
        assert(forall|i: int| 0 <= i < t.len() ==> #[trigger] t[i] == s[i + 1]);
        if find_dc(t) < 0 {
            assert forall|i: int| 0 <= i < s.len() - 1 implies !(#[trigger] s[i] == 0x3a && s[i
                + 1] == 0x3a) by {
                if i >= 1 {
                    assert(!(t[i - 1] == 0x3a && t[i] == 0x3a));
                }
            }
        } else {
            let k = find_dc(t);
            assert(s[k + 1] == t[k] && s[k + 2] == t[k + 1]);
            assert forall|i: int| 0 <= i < k + 1 implies !(#[trigger] s[i] == 0x3a && s[i + 1]
                == 0x3a) by {
                if i >= 1 {
                    assert(!(t[i - 1] == 0x3a && t[i] == 0x3a));
                }
            }
        }
    }
}

/// Find the first `::` in `s`.
pub fn find_double_colon(s: &[u8]) -> (r: Option<usize>)
    ensures
        match r {
            Some(i) => find_dc(s@) == i as int && i + 1 < s@.len(),
            None => find_dc(s@) < 0,
        },
{
    if s.len() < 2 {
        return None;
    }
    let mut i: usize = 0;
    while i < s.len() - 1
        invariant
            s@.len() >= 2,
            i <= s@.len() - 1,
            forall|j: int| 0 <= j < i ==> !(#[trigger] s@[j] == 0x3a && s@[j + 1] == 0x3a),
        decreases s@.len() - i,
    {
        if s[i] == 0x3a && s[i + 1] == 0x3a {
            proof {
                lemma_find_dc(s@);
                let k = find_dc(s@);
                if k < 0 {
                    assert(!(s@[i as int] == 0x3a && s@[i as int + 1] == 0x3a));
                } else if k < i {
                    assert(!(s@[k] == 0x3a && s@[k + 1] == 0x3a));
                } else if k > i {
                    assert(!(s@[i as int] == 0x3a && s@[i as int + 1] == 0x3a));
                }
            }
            return Some(i);
        }
        i = i + 1;
    }
    proof {
        lemma_find_dc(s@);
        let k = find_dc(s@);
        if k >= 0 {
            assert(!(s@[k] == 0x3a && s@[k + 1] == 0x3a));
        }
    }
    None
}

/// Values of a list of hex groups.
pub open spec fn hex_groups_vals(ps: Seq<Seq<u8>>) -> Seq<u16> {
    ps.map_values(|p: Seq<u8>| hex_val(p) as u16)
}

pub open spec fn all_hex_groups(ps: Seq<Seq<u8>>) -> bool {
    forall|i: int| 0 <= i < ps.len() ==> is_hex_group(#[trigger] ps[i])
}

/// Groups denoted by the pieces before a `::`: hex groups only.
pub open spec fn head_groups(ps: Seq<Seq<u8>>) -> Option<Seq<u16>> {
    if all_hex_groups(ps) {
        Some(hex_groups_vals(ps))
    } else {
        None
    }
}

/// Groups denoted by a piece list that may end in an embedded dotted quad,
/// which stands for the final two groups.
pub open spec fn tail_groups(ps: Seq<Seq<u8>>) -> Option<Seq<u16>> {
    if ps.len() == 0 {
        Some(Seq::<u16>::empty())
    } else if !all_hex_groups(ps.drop_last()) {
        None
    } else if is_hex_group(ps.last()) {
        Some(hex_groups_vals(ps.drop_last()).push(hex_val(ps.last()) as u16))
    } else {
        match ipv4_spec(ps.last()) {
            Some(q) => Some(
                hex_groups_vals(ps.drop_last()).push((q.0 * 256 + q.1) as u16).push(
                    (q.2 * 256 + q.3) as u16,
                ),
            ),
            None => None,
        }
    }
}

pub open spec fn zero_groups(n: nat) -> Seq<u16> {
    Seq::new(n, |i: int| 0u16)
}

/// The IPv6 address denoted by `s`, as its eight 16-bit groups: either
/// exactly eight groups, or a single `::` standing for the elided run of
/// zero groups, with an optional dotted quad as the last two groups.
pub open spec fn ipv6_spec(s: Seq<u8>) -> Option<Seq<u16>> {
    let d = find_dc(s);
    if d < 0 {
        match tail_groups(split_at_byte(s, 0x3a)) {
            Some(g) => if g.len() == 8 {
                Some(g)
            } else {
                None
            },
            None => None,
        }
    } else {
        let left = s.take(d);
        let right = s.skip(d + 2);
        let lg = if left.len() == 0 {
            Some(Seq::<u16>::empty())
        } else {
            head_groups(split_at_byte(left, 0x3a))
        };
        let rg = if right.len() == 0 {
            Some(Seq::<u16>::empty())
        } else {
            tail_groups(split_at_byte(right, 0x3a))
        };
        match (lg, rg) {
            (Some(l), Some(r)) => if l.len() + r.len() <= 7 {
                Some(l + zero_groups((8 - l.len() - r.len()) as nat) + r)
            } else {
                None
            },
            _ => None,
        }
    }
}

/// Parse the pieces before a `::`.
fn head_groups_exec(ps: &Vec<Vec<u8>>) -> (r: Option<Vec<u16>>)
    ensures
        match r {
            Some(v) => head_groups(ps@.map_values(|p: Vec<u8>| p@)) == Some(v@),
            None => head_groups(ps@.map_values(|p: Vec<u8>| p@)) is None,
        },
{
    let ghost psv = ps@.map_values(|p: Vec<u8>| p@);
    let mut out: Vec<u16> = Vec::new();
    let mut i: usize = 0;
    while i < ps.len()
        invariant
            i <= psv.len(),
            psv == ps@.map_values(|p: Vec<u8>| p@),
            all_hex_groups(psv.take(i as int)),
            out@ == hex_groups_vals(psv.take(i as int)),
        decreases psv.len() - i,
    {
        proof {
            assert(psv[i as int] == ps@[i as int]@);
        }
        match parse_hex_group(ps[i].as_slice()) {
            Some(v) => {
                out.push(v);
                proof {
                    assert(hex_groups_vals(psv.take(i + 1)) =~= hex_groups_vals(
                        psv.take(i as int),
                    ).push(hex_val(psv[i as int]) as u16));
                    assert(forall|j: int| 0 <= j < i + 1 ==> psv.take(i + 1)[j] == psv[j]);
                }
            },
            None => {
                proof {
                    assert(!is_hex_group(psv[i as int]));
                }
                return None;
            },
        }
        i = i + 1;
    }
    proof {
        assert(psv.take(i as int) =~= psv);
    }
    Some(out)
}

/// Parse a piece list that may end in an embedded dotted quad.
fn tail_groups_exec(ps: &Vec<Vec<u8>>) -> (r: Option<Vec<u16>>)
    ensures
        match r {
            Some(v) => tail_groups(ps@.map_values(|p: Vec<u8>| p@)) == Some(v@),
            None => tail_groups(ps@.map_values(|p: Vec<u8>| p@)) is None,
        },
{
    let ghost psv = ps@.map_values(|p: Vec<u8>| p@);
    if ps.len() == 0 {
        let out: Vec<u16> = Vec::new();
        proof {
            assert(out@ =~= Seq::<u16>::empty());
        }
        return Some(out);
    }
    let n = ps.len();
    let mut out: Vec<u16> = Vec::new();
    let mut i: usize = 0;
    while i < n - 1
        invariant
            n == psv.len(),
            n >= 1,
            i <= psv.len() - 1,
            psv == ps@.map_values(|p: Vec<u8>| p@),
            all_hex_groups(psv.drop_last().take(i as int)),
            out@ == hex_groups_vals(psv.drop_last().take(i as int)),
        decreases n - 1 - i,
    {
        proof {
            assert(psv[i as int] == ps@[i as int]@);
            assert(psv.drop_last()[i as int] == psv[i as int]);
        }
        match parse_hex_group(ps[i].as_slice()) {
            Some(v) => {
                out.push(v);
                proof {
                    assert(hex_groups_vals(psv.drop_last().take(i + 1)) =~= hex_groups_vals(
                        psv.drop_last().take(i as int),
                    ).push(hex_val(psv[i as int]) as u16));
                }
            },
            None => {
                proof {
                    assert(!is_hex_group(psv.drop_last()[i as int]));
                    assert(!all_hex_groups(psv.drop_last()));
                }
                return None;
            },
        }
        i = i + 1;
    }
    proof {
        assert(psv.drop_last().take(i as int) =~= psv.drop_last());
        assert(psv.last() == ps@[n - 1]@);
    }
    match parse_hex_group(ps[n - 1].as_slice()) {
        Some(v) => {
            out.push(v);
            return Some(out);
        },
        None => {},
    }
    match parse_ipv4(ps[n - 1].as_slice()) {
        Some((a, b, c, d)) => {
            let hi: u16 = (a as u16) * 256 + (b as u16);
            let lo: u16 = (c as u16) * 256 + (d as u16);
            out.push(hi);
            out.push(lo);
            Some(out)
        },
        None => None,
    }
}

/// Parse an IPv6 literal into its eight groups.
pub fn parse_ipv6(s: &[u8]) -> (r: Option<Vec<u16>>)
    ensures
        match r {
            Some(v) => ipv6_spec(s@) == Some(v@) && v@.len() == 8,
            None => ipv6_spec(s@) is None,
        },
{
    match find_double_colon(s) {
        None => {
            let ps = split(s, 0x3a);
            match tail_groups_exec(&ps) {
                Some(v) => {
                    if v.len() == 8 {
                        Some(v)
                    } else {
                        None
                    }
                },
                None => None,
            }
        },
        Some(d) => {
            let n = s.len();
            let left = vstd::slice::slice_subrange(s, 0, d);
            let right = vstd::slice::slice_subrange(s, d + 2, n);
            proof {
                assert(left@ =~= s@.take(d as int));
                assert(right@ =~= s@.skip(d + 2));
            }
            let lvals: Vec<u16> = if left.len() == 0 {
                Vec::new()
            } else {
                let lps = split(left, 0x3a);
                match head_groups_exec(&lps) {
                    Some(v) => v,
                    None => { return None },
                }
            };
            let rvals: Vec<u16> = if right.len() == 0 {
                Vec::new()
            } else {
                let rps = split(right, 0x3a);
                match tail_groups_exec(&rps) {
                    Some(v) => v,
                    None => { return None },
                }
            };
            proof {
                if left@.len() == 0 {
                    assert(lvals@ =~= Seq::<u16>::empty());
                }
                if right@.len() == 0 {
                    assert(rvals@ =~= Seq::<u16>::empty());
                }
            }
            if lvals.len() > 7 {
                return None;
            }
            if rvals.len() > 7 - lvals.len() {
                return None;
            }
            let ghost lv = lvals@;
            let ghost rv = rvals@;
            let zeros: usize = 8 - lvals.len() - rvals.len();
            let mut out = lvals;
            let mut k: usize = 0;
            while k < zeros
                invariant
                    k <= zeros,
                    out@ == lv + zero_groups(k as nat),
                decreases zeros - k,
            {
                out.push(0);
                proof {
                    assert(lv + zero_groups((k + 1) as nat) =~= (lv + zero_groups(k as nat)).push(
                        0u16,
                    ));
                }
                k = k + 1;
            }
            let mut j: usize = 0;
            while j < rvals.len()
                invariant
                    j <= rv.len(),
                    rv == rvals@,
                    out@ == lv + zero_groups(zeros as nat) + rv.take(j as int),
                decreases rv.len() - j,
            {
                out.push(rvals[j]);
                proof {
                    assert(lv + zero_groups(zeros as nat) + rv.take(j + 1) =~= (lv + zero_groups(
                        zeros as nat,
                    ) + rv.take(j as int)).push(rv[j as int]));
                }
                j = j + 1;
            }
            proof {
                assert(rv.take(rv.len() as int) =~= rv);
                assert(out@ =~= lv + zero_groups(zeros as nat) + rv);
            }
            Some(out)
        },
    }
}

/// The IP address denoted by `s`: the IPv4 form if it fits, else the IPv6
/// form.
pub open spec fn parse_ip_spec(s: Seq<u8>) -> Option<IpAddress> {
    match ipv4_spec(s) {
        Some(q) => Some(IpAddress::V4 { a: q.0, b: q.1, c: q.2, d: q.3 }),
        None => match ipv6_spec(s) {
            Some(g) => Some(
                IpAddress::V6 {
                    g0: g[0],
                    g1: g[1],
                    g2: g[2],
                    g3: g[3],
                    g4: g[4],
                    g5: g[5],
                    g6: g[6],
                    g7: g[7],
                },
            ),
            None => None,
        },
    }
}

/// Parse an IP address literal, IPv4 or IPv6.
pub fn parse_ip(s: &[u8]) -> (r: Option<IpAddress>)
    ensures
        r == parse_ip_spec(s@),
{
    if let Some((a, b, c, d)) = parse_ipv4(s) {
        return Some(IpAddress::V4 { a, b, c, d });
    }
    match parse_ipv6(s) {
        Some(g) => Some(
            IpAddress::V6 {
                g0: g[0],
                g1: g[1],
                g2: g[2],
                g3: g[3],
                g4: g[4],
                g5: g[5],
                g6: g[6],
                g7: g[7],
            },
        ),
        None => None,
    }
}

} // verus!
