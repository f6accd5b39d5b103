//! The forwarding-rule grammar. One rule is a single colon-delimited string
//! naming an optional listen address, a listen port, a destination host and
//! a destination port; every split is at the rightmost separator, so that
//! bracketed IPv6 literals and multi-colon forms need no mode flag.

use vstd::prelude::*;

use crate::ip::{parse_ip, parse_ip_spec, IpAddress};
use crate::num::{is_digit, parse_u16, parse_u16_spec, u16_str_digits};
use crate::scan::{rfind, rfind_byte, trim_lead, trim_leading, trim_trail, trim_trailing};

verus! {

/// Why a rule string was rejected.
#[derive(Clone, Copy, Debug, PartialEq, Eq, Structural)]
pub enum ParseError {
    /// The rule holds no `:` at all, so no destination port is named.
    MissingDestinationPort,
    /// What follows the last `:` is not an unsigned 16-bit integer.
    InvalidDestinationPort,
    /// No destination host remains once the destination port is removed.
    MissingDestinationAddress,
    /// The listen address is neither an IPv4 nor an IPv6 literal.
    InvalidSourceAddress,
    /// The listen port is not an unsigned 16-bit integer.
    InvalidSourcePort,
}

/// A listen endpoint: an IP address and a port.
#[derive(Clone, Copy, Debug, PartialEq, Eq, Structural)]
pub struct SocketAddress {
    pub ip: IpAddress,
    pub port: u16,
}

/// One forwarding rule: listen on `source`, relay each connection to
/// `dest_host:dest_port`. The destination host stays an uninterpreted byte
/// string (an IP literal or a hostname) so that it resolves at connect time.
#[derive(Clone, Debug, PartialEq, Eq)]
pub struct Target {
    pub source: SocketAddress,
    pub dest_host: Vec<u8>,
    pub dest_port: u16,
}

/// The mathematical value of a `Target`.
pub struct TargetView {
    pub source: SocketAddress,
    pub dest_host: Seq<u8>,
    pub dest_port: u16,
}

impl View for Target {
    type V = TargetView;

    open spec fn view(&self) -> TargetView {
        TargetView {
            source: self.source,
            dest_host: self.dest_host@,
            dest_port: self.dest_port,
        }
    }
}

/// A listen address with all surrounding brackets removed, as the grammar
/// strips them before reading an IP literal.
pub open spec fn strip_brackets(s: Seq<u8>) -> Seq<u8> {
    trim_trailing(trim_leading(s, 0x5b), 0x5d)
}

/// Split the destination host from what precedes it. `left` is the rule
/// with the destination port already removed. A trailing `]` marks a
/// bracketed IPv6 destination, split at the last `[`; anything else is
/// split at the last `:`.
pub open spec fn split_dest_spec(left: Seq<u8>) -> Result<(Seq<u8>, Seq<u8>), ParseError> {
    if left.len() > 0 && left.last() == 0x5d {
        let bi = rfind_byte(left, 0x5b);
        if bi < 0 {
            Err(ParseError::MissingDestinationAddress)
        } else {
            Ok((trim_trailing(left.take(bi), 0x3a), trim_trailing(left.skip(bi + 1), 0x5d)))
        }
    } else {
        let hi = rfind_byte(left, 0x3a);
        if hi < 0 {
            Err(ParseError::MissingDestinationAddress)
        } else {
            Ok((left.take(hi), left.skip(hi + 1)))
        }
    }
}

/// Split a whole rule into its source section, destination host and
/// destination port: the destination port is what follows the last `:`.
pub open spec fn split_target_spec(s: Seq<u8>) -> Result<(Seq<u8>, Seq<u8>, u16), ParseError> {
    let ci = rfind_byte(s, 0x3a);
    if ci < 0 {
        Err(ParseError::MissingDestinationPort)
    } else {
        match parse_u16_spec(s.skip(ci + 1)) {
            None => Err(ParseError::InvalidDestinationPort),
            Some(dport) => match split_dest_spec(s.take(ci)) {
                Err(e) => Err(e),
                Ok((rem, host)) => Ok((rem, host, dport)),
            },
        }
    }
}

/// Read the source section: `address:port`, or a bare port whose listen
/// address defaults to `0.0.0.0`.
pub open spec fn parse_source_spec(rem: Seq<u8>) -> Result<SocketAddress, ParseError> {
    let si = rfind_byte(rem, 0x3a);
    if si < 0 {
        match parse_u16_spec(rem) {
            None => Err(ParseError::InvalidSourcePort),
            Some(p) => Ok(
                SocketAddress { ip: IpAddress::V4 { a: 0, b: 0, c: 0, d: 0 }, port: p },
            ),
        }
    } else {
        match parse_ip_spec(strip_brackets(rem.take(si))) {
            None => Err(ParseError::InvalidSourceAddress),
            Some(ip) => match parse_u16_spec(rem.skip(si + 1)) {
                None => Err(ParseError::InvalidSourcePort),
                Some(p) => Ok(SocketAddress { ip, port: p }),
            },
        }
    }
}

/// The forwarding rule denoted by a rule string, or the first error the
/// grammar meets.
pub open spec fn parse_target_spec(s: Seq<u8>) -> Result<TargetView, ParseError> {
    match split_target_spec(s) {
        Err(e) => Err(e),
        Ok((rem, host, dport)) => match parse_source_spec(rem) {
            Err(e) => Err(e),
            Ok(source) => Ok(TargetView { source, dest_host: host, dest_port: dport }),
        },
    }
}

/// Parse the source section of a rule.
pub fn parse_source(rem: &[u8]) -> (r: Result<SocketAddress, ParseError>)
    ensures
        match r {
            Ok(sa) => parse_source_spec(rem@) == Ok::<SocketAddress, ParseError>(sa),
            Err(e) => parse_source_spec(rem@) == Err::<SocketAddress, ParseError>(e),
        },
{
    let n = rem.len();
    match rfind(rem, 0x3a) {
        None => match parse_u16(rem) {
            None => Err(ParseError::InvalidSourcePort),
            Some(p) => Ok(SocketAddress { ip: IpAddress::V4 { a: 0, b: 0, c: 0, d: 0 }, port: p }),
        },
        Some(si) => {
            let araw = vstd::slice::slice_subrange(rem, 0, si);
            proof {
                assert(araw@ =~= rem@.take(si as int));
            }
            let astr = trim_trail(trim_lead(araw, 0x5b), 0x5d);
            match parse_ip(astr) {
                None => Err(ParseError::InvalidSourceAddress),
                Some(ip) => {
                    let praw = vstd::slice::slice_subrange(rem, si + 1, n);
                    proof {
                        assert(praw@ =~= rem@.skip(si + 1));
                    }
                    match parse_u16(praw) {
                        None => Err(ParseError::InvalidSourcePort),
                        Some(p) => Ok(SocketAddress { ip, port: p }),
                    }
                },
            }
        },
    }
}

/// Parse one forwarding rule.
pub fn parse_target(s: &[u8]) -> (r: Result<Target, ParseError>)
    ensures
        match r {
            Ok(t) => parse_target_spec(s@) == Ok::<TargetView, ParseError>(t@),
            Err(e) => parse_target_spec(s@) == Err::<TargetView, ParseError>(e),
        },
{
    let n = s.len();
    let ci = match rfind(s, 0x3a) {
        Some(i) => i,
        None => { return Err(ParseError::MissingDestinationPort) },
    };
    let praw = vstd::slice::slice_subrange(s, ci + 1, n);
    proof {
        assert(praw@ =~= s@.skip(ci + 1));
    }
    let dest_port = match parse_u16(praw) {
        Some(p) => p,
        None => { return Err(ParseError::InvalidDestinationPort) },
    };
    let left = vstd::slice::slice_subrange(s, 0, ci);
    proof {
        assert(left@ =~= s@.take(ci as int));
    }
    let ln = left.len();
    let (rem, host): (&[u8], &[u8]) = if ln > 0 && left[ln - 1] == 0x5d {
        let bi = match rfind(left, 0x5b) {
            Some(i) => i,
            None => { return Err(ParseError::MissingDestinationAddress) },
        };
        let hraw = vstd::slice::slice_subrange(left, bi + 1, ln);
        let rraw = vstd::slice::slice_subrange(left, 0, bi);
        proof {
            assert(hraw@ =~= left@.skip(bi + 1));
            assert(rraw@ =~= left@.take(bi as int));
        }
        (trim_trail(rraw, 0x3a), trim_trail(hraw, 0x5d))
    } else {
        let hi = match rfind(left, 0x3a) {
            Some(i) => i,
            None => { return Err(ParseError::MissingDestinationAddress) },
        };
        let rraw = vstd::slice::slice_subrange(left, 0, hi);
        let hraw = vstd::slice::slice_subrange(left, hi + 1, ln);
        proof {
            assert(rraw@ =~= left@.take(hi as int));
            assert(hraw@ =~= left@.skip(hi + 1));
        }
        (rraw, hraw)
    };
    let source = match parse_source(rem) {
        Ok(sa) => sa,
        Err(e) => { return Err(e) },
    };
    Ok(Target { source, dest_host: vstd::slice::slice_to_vec(host), dest_port })
}

/// Parse a whole configuration, fail-fast: either every rule parses, in
/// order, or the first failure is the result and nothing is kept.
pub fn parse_targets(rules: &Vec<Vec<u8>>) -> (r: Result<Vec<Target>, ParseError>)
    ensures
        match r {
            Ok(ts) => ts@.len() == rules@.len() && forall|i: int|
                0 <= i < rules@.len() ==> parse_target_spec(#[trigger] rules@[i]@) == Ok::<
                    TargetView,
                    ParseError,
                >(ts@[i]@),
            Err(e) => exists|i: int|
                0 <= i < rules@.len() && parse_target_spec(#[trigger] rules@[i]@) == Err::<
                    TargetView,
                    ParseError,
                >(e) && (forall|j: int|
                    0 <= j < i ==> parse_target_spec(#[trigger] rules@[j]@) is Ok),
        },
{
    let mut ts: Vec<Target> = Vec::new();
    let mut i: usize = 0;
    while i < rules.len()
        invariant
            i <= rules@.len(),
            ts@.len() == i,
            forall|j: int|
                0 <= j < i ==> parse_target_spec(#[trigger] rules@[j]@) == Ok::<
                    TargetView,
                    ParseError,
                >(ts@[j]@),
        decreases rules@.len() - i,
    {
        match parse_target(rules[i].as_slice()) {
            Ok(t) => {
                ts.push(t);
            },
            Err(e) => {
                proof {
                    assert(forall|j: int|
                        0 <= j < i ==> parse_target_spec(#[trigger] rules@[j]@) is Ok);
                }
                return Err(e);
            },
        }
        i = i + 1;
    }
    Ok(ts)
}

/// Law: a source section without a `:` — a bare listen port — always
/// yields the wildcard listen address `0.0.0.0`, whatever the port.
pub proof fn lemma_default_listen_address(rem: Seq<u8>)
    requires
        rfind_byte(rem, 0x3a) < 0,
        parse_source_spec(rem) is Ok,
    ensures
        parse_source_spec(rem)->Ok_0.ip == (IpAddress::V4 { a: 0, b: 0, c: 0, d: 0 }),
{
}

/// Law: the default of the listen address carries to whole rules — when a
/// rule parses and its source section holds no `:`, the rule listens on
/// `0.0.0.0`.
pub proof fn lemma_default_listen_address_of_rule(s: Seq<u8>)
    requires
        split_target_spec(s) matches Ok((rem, _host, _dport)) && rfind_byte(rem, 0x3a) < 0,
        parse_target_spec(s) is Ok,
    ensures
        parse_target_spec(s)->Ok_0.source.ip == (IpAddress::V4 { a: 0, b: 0, c: 0, d: 0 }),
{
    let (rem, _host, _dport) = split_target_spec(s)->Ok_0;
    lemma_default_listen_address(rem);
}

/// Law: brackets around the listen address are transparent. For any
/// address text `a` and any colon-free source port text `p`, the source
/// sections `a:p` and `[a]:p` read the same listen endpoint — or fail with
/// the same error.
pub proof fn lemma_source_brackets_symmetric(a: Seq<u8>, p: Seq<u8>)
    requires
        forall|i: int| 0 <= i < p.len() ==> #[trigger] p[i] != 0x3a,
    ensures
        parse_source_spec(a + seq![0x3au8] + p) == parse_source_spec(
            seq![0x5bu8] + a + seq![0x5du8] + seq![0x3au8] + p,
        ),
{
    let s1 = a + seq![0x3au8] + p;
    let a2 = seq![0x5bu8] + a + seq![0x5du8];
    let s2 = seq![0x5bu8] + a + seq![0x5du8] + seq![0x3au8] + p;
    assert(s2 =~= a2 + seq![0x3au8] + p);
    crate::scan::lemma_rfind_append(a, 0x3a, p);
    crate::scan::lemma_rfind_append(a2, 0x3a, p);
    assert(rfind_byte(s1, 0x3a) == a.len());
    assert(rfind_byte(s2, 0x3a) == a2.len());
    assert(s1.take(a.len() as int) =~= a);
    assert(s1.skip(a.len() as int + 1) =~= p);
    assert(s2.take(a2.len() as int) =~= a2);
    assert(s2.skip(a2.len() as int + 1) =~= p);
    assert(strip_brackets(a2) == strip_brackets(a)) by {
        assert(a2[0] == 0x5b);
        assert(a2.skip(1) =~= a + seq![0x5du8]);
        assert(trim_leading(a2, 0x5b) == trim_leading(a + seq![0x5du8], 0x5b));
        crate::scan::lemma_trim_leading_append(a, seq![0x5du8], 0x5b);
        let x = trim_leading(a, 0x5b);
        assert(trim_leading(a2, 0x5b) == x + seq![0x5du8]);
        assert((x + seq![0x5du8]).last() == 0x5d);
        assert((x + seq![0x5du8]).drop_last() =~= x);
        assert(trim_trailing(x + seq![0x5du8], 0x5d) == trim_trailing(x, 0x5d));
    }
}

/// Law: brackets around the destination host are transparent. For any host
/// text `h` free of `:`, `[` and `]`, and any prefix `x` that does not end
/// with `:`, splitting the destination from `x:h` and from `x:[h]` both
/// yield the remainder `x` and the host `h`.
pub proof fn lemma_dest_brackets_symmetric(x: Seq<u8>, h: Seq<u8>)
    requires
        forall|i: int|
            0 <= i < h.len() ==> #[trigger] h[i] != 0x3a && h[i] != 0x5b && h[i] != 0x5d,
        x.len() == 0 || x.last() != 0x3a,
    ensures
        split_dest_spec(x + seq![0x3au8] + h) == Ok::<(Seq<u8>, Seq<u8>), ParseError>((x, h)),
        split_dest_spec(x + seq![0x3au8, 0x5bu8] + h + seq![0x5du8]) == Ok::<
            (Seq<u8>, Seq<u8>),
            ParseError,
        >((x, h)),
{
    let l1 = x + seq![0x3au8] + h;
    assert(!(l1.len() > 0 && l1.last() == 0x5d)) by {
        if h.len() > 0 {
            assert(l1.last() == h.last());
        } else {
            assert(l1 =~= x + seq![0x3au8]);
            assert(l1.last() == 0x3a);
        }
    }
    crate::scan::lemma_rfind_append(x, 0x3a, h);
    assert(rfind_byte(l1, 0x3a) == x.len());
    assert(l1.take(x.len() as int) =~= x);
    assert(l1.skip(x.len() as int + 1) =~= h);

    let l2 = x + seq![0x3au8, 0x5bu8] + h + seq![0x5du8];
    assert(l2.last() == 0x5d);
    assert(l2 =~= (x + seq![0x3au8]) + seq![0x5bu8] + (h + seq![0x5du8]));
    assert(forall|i: int|
        0 <= i < (h + seq![0x5du8]).len() ==> #[trigger] (h + seq![0x5du8])[i] != 0x5b);
    crate::scan::lemma_rfind_append(x + seq![0x3au8], 0x5b, h + seq![0x5du8]);
    let bi: int = x.len() as int + 1;
    assert(rfind_byte(l2, 0x5b) == bi);
    assert(l2.skip(bi + 1) =~= h + seq![0x5du8]);
    assert(l2.take(bi) =~= x + seq![0x3au8]);
    assert(trim_trailing(h + seq![0x5du8], 0x5d) == h) by {
        assert((h + seq![0x5du8]).last() == 0x5d);
        assert((h + seq![0x5du8]).drop_last() =~= h);
        crate::scan::lemma_trim_trailing_absent(h, 0x5d);
    }
    assert(trim_trailing(x + seq![0x3au8], 0x3a) == x) by {
        assert((x + seq![0x3au8]).last() == 0x3a);
        assert((x + seq![0x3au8]).drop_last() =~= x);
        assert(trim_trailing(x + seq![0x3au8], 0x3a) == trim_trailing(x, 0x3a));
        assert(trim_trailing(x, 0x3a) == x);
    }
}

/// A valid port text holds no colon: it is digits after an optional `+`.
proof fn lemma_port_text_has_no_colon(dp: Seq<u8>)
    requires
        parse_u16_spec(dp) is Some,
    ensures
        forall|i: int| 0 <= i < dp.len() ==> #[trigger] dp[i] != 0x3a,
{
    let d = u16_str_digits(dp);
    assert forall|i: int| 0 <= i < dp.len() implies #[trigger] dp[i] != 0x3a by {
        if dp.len() > 0 && dp[0] == 0x2b {
            if i > 0 {
                assert(d[i - 1] == dp[i]);
                assert(is_digit(d[i - 1]));
            }
        } else {
            assert(d[i] == dp[i]);
            assert(is_digit(d[i]));
        }
    }
}

/// Law: a rule of the shape `SOURCE:HOST:PORT` — the host free of `:`, `[`
/// and `]`, the port a valid 16-bit port text, the source section not
/// ending in `:` — parses to exactly those three parts, the source section
/// read by `parse_source_spec`; and the bracketed destination form
/// `SOURCE:[HOST]:PORT` parses to the very same rule.
pub proof fn lemma_rule_shape(x: Seq<u8>, h: Seq<u8>, dp: Seq<u8>)
    requires
        forall|i: int|
            0 <= i < h.len() ==> #[trigger] h[i] != 0x3a && h[i] != 0x5b && h[i] != 0x5d,
        parse_u16_spec(dp) is Some,
        x.len() == 0 || x.last() != 0x3a,
    ensures
        parse_target_spec(x + seq![0x3au8] + h + seq![0x3au8] + dp) == (
        match parse_source_spec(x) {
            Ok(sa) => Ok::<TargetView, ParseError>(
                TargetView {
                    source: sa,
                    dest_host: h,
                    dest_port: parse_u16_spec(dp)->Some_0,
                },
            ),
            Err(e) => Err(e),
        }),
        parse_target_spec(x + seq![0x3au8, 0x5bu8] + h + seq![0x5du8] + seq![0x3au8] + dp)
            == parse_target_spec(x + seq![0x3au8] + h + seq![0x3au8] + dp),
{
    lemma_port_text_has_no_colon(dp);
    lemma_dest_brackets_symmetric(x, h);

    let left = x + seq![0x3au8] + h;
    let s = x + seq![0x3au8] + h + seq![0x3au8] + dp;
    assert(s =~= left + seq![0x3au8] + dp);
    crate::scan::lemma_rfind_append(left, 0x3a, dp);
    assert(rfind_byte(s, 0x3a) == left.len());
    assert(s.take(left.len() as int) =~= left);
    assert(s.skip(left.len() as int + 1) =~= dp);

    let left2 = x + seq![0x3au8, 0x5bu8] + h + seq![0x5du8];
    let s2 = x + seq![0x3au8, 0x5bu8] + h + seq![0x5du8] + seq![0x3au8] + dp;
    assert(s2 =~= left2 + seq![0x3au8] + dp);
    crate::scan::lemma_rfind_append(left2, 0x3a, dp);
    assert(rfind_byte(s2, 0x3a) == left2.len());
    assert(s2.take(left2.len() as int) =~= left2);
    assert(s2.skip(left2.len() as int + 1) =~= dp);
}

/// Law: in a whole rule of the shape `PORT:HOST:PORT` — one whose source
/// section holds no colon, so no listen address is written — the listen
/// address is always the wildcard `0.0.0.0`.
pub proof fn lemma_default_listen_in_rule(x: Seq<u8>, h: Seq<u8>, dp: Seq<u8>)
    requires
        forall|i: int| 0 <= i < x.len() ==> #[trigger] x[i] != 0x3a,
        forall|i: int|
            0 <= i < h.len() ==> #[trigger] h[i] != 0x3a && h[i] != 0x5b && h[i] != 0x5d,
        parse_u16_spec(dp) is Some,
        parse_target_spec(x + seq![0x3au8] + h + seq![0x3au8] + dp) is Ok,
    ensures
        parse_target_spec(x + seq![0x3au8] + h + seq![0x3au8] + dp)->Ok_0.source.ip == (
        IpAddress::V4 { a: 0, b: 0, c: 0, d: 0 }),
{
    if x.len() > 0 {
        assert(x.last() != 0x3a);
    }
    lemma_rule_shape(x, h, dp);
    crate::scan::lemma_rfind_byte(x, 0x3a);
    if rfind_byte(x, 0x3a) >= 0 {
        assert(x[rfind_byte(x, 0x3a)] != 0x3a);
    }
    lemma_default_listen_address(x);
}

/// Law: brackets around the listen address are transparent in whole rules —
/// `a:sp:h:dp` and `[a]:sp:h:dp` parse identically, for any address text
/// `a`, colon-free listen port text `sp`, destination host `h` free of `:`,
/// `[` and `]`, and valid destination port text `dp`.
pub proof fn lemma_source_brackets_in_rule(a: Seq<u8>, sp: Seq<u8>, h: Seq<u8>, dp: Seq<u8>)
    requires
        sp.len() > 0,
        forall|i: int| 0 <= i < sp.len() ==> #[trigger] sp[i] != 0x3a,
        forall|i: int|
            0 <= i < h.len() ==> #[trigger] h[i] != 0x3a && h[i] != 0x5b && h[i] != 0x5d,
        parse_u16_spec(dp) is Some,
    ensures
        parse_target_spec(a + seq![0x3au8] + sp + seq![0x3au8] + h + seq![0x3au8] + dp)
            == parse_target_spec(
            seq![0x5bu8] + a + seq![0x5du8] + seq![0x3au8] + sp + seq![0x3au8] + h + seq![0x3au8]
                + dp,
        ),
{
    let x1 = a + seq![0x3au8] + sp;
    let x2 = seq![0x5bu8] + a + seq![0x5du8] + seq![0x3au8] + sp;
    assert(x1.last() == sp.last() && x2.last() == sp.last());
    assert(sp.last() != 0x3a);
    lemma_rule_shape(x1, h, dp);
    lemma_rule_shape(x2, h, dp);
    assert(a + seq![0x3au8] + sp + seq![0x3au8] + h + seq![0x3au8] + dp =~= x1 + seq![0x3au8] + h
        + seq![0x3au8] + dp);
    assert(seq![0x5bu8] + a + seq![0x5du8] + seq![0x3au8] + sp + seq![0x3au8] + h + seq![0x3au8]
        + dp =~= x2 + seq![0x3au8] + h + seq![0x3au8] + dp);
    lemma_source_brackets_symmetric(a, sp);
    assert(x1 =~= a + seq![0x3au8] + sp);
    assert(x2 =~= seq![0x5bu8] + a + seq![0x5du8] + seq![0x3au8] + sp);
}

} // verus!
