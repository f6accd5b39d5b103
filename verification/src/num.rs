//! Numeric pieces of the rule grammar: decimal port numbers, decimal IPv4
//! octets, and hexadecimal IPv6 groups, each with an exact specification of
//! which byte strings are accepted and what value they denote.

use vstd::prelude::*;

verus! {

pub open spec fn is_digit(c: u8) -> bool {
    0x30 <= c <= 0x39
}

pub open spec fn is_hex_digit(c: u8) -> bool {
    is_digit(c) || (0x41 <= c <= 0x46) || (0x61 <= c <= 0x66)
}

pub open spec fn digit_val(c: u8) -> nat {
    (c - 0x30) as nat
}

pub open spec fn hex_digit_val(c: u8) -> nat {
    if is_digit(c) {
        digit_val(c)
    } else if 0x41 <= c <= 0x46 {
        (c - 0x41 + 10) as nat
    } else {
        (c - 0x61 + 10) as nat
    }
}

pub open spec fn all_digits(s: Seq<u8>) -> bool {
    forall|i: int| 0 <= i < s.len() ==> is_digit(#[trigger] s[i])
}

pub open spec fn all_hex_digits(s: Seq<u8>) -> bool {
    forall|i: int| 0 <= i < s.len() ==> is_hex_digit(#[trigger] s[i])
}

/// Decimal value of an ASCII digit string (most significant digit first).
pub open spec fn dec_val(s: Seq<u8>) -> nat
    decreases s.len(),
{
    if s.len() == 0 {
        0
    } else {
        dec_val(s.drop_last()) * 10 + digit_val(s.last())
    }
}

/// Hexadecimal value of an ASCII hex-digit string.
pub open spec fn hex_val(s: Seq<u8>) -> nat
    decreases s.len(),
{
    if s.len() == 0 {
        0
    } else {
        hex_val(s.drop_last()) * 16 + hex_digit_val(s.last())
    }
}

/// The strings accepted as one dotted-quad octet: one to three digits, no
/// leading zero on a multi-digit octet, value at most 255.
pub open spec fn is_octet(s: Seq<u8>) -> bool {
    &&& 1 <= s.len() <= 3
    &&& all_digits(s)
    &&& (s.len() > 1 ==> s[0] != 0x30)
    &&& dec_val(s) <= 255
}

/// The strings accepted as one IPv6 group: one to four hex digits.
pub open spec fn is_hex_group(s: Seq<u8>) -> bool {
    &&& 1 <= s.len() <= 4
    &&& all_hex_digits(s)
}

/// The strings accepted as an unsigned 16-bit integer, as `str::parse::<u16>`
/// accepts them: an optional leading `+`, then one or more digits, with a
/// value at most 65535.
pub open spec fn u16_str_digits(s: Seq<u8>) -> Seq<u8> {
    if s.len() > 0 && s[0] == 0x2b {
        s.skip(1)
    } else {
        s
    }
}

pub open spec fn parse_u16_spec(s: Seq<u8>) -> Option<u16> {
    let d = u16_str_digits(s);
    if d.len() >= 1 && all_digits(d) && dec_val(d) <= 65535 {
        Some(dec_val(d) as u16)
    } else {
        None
    }
}

/// Parse the digit part of a decimal number, bounded by 65535.
/// Returns the value, or `None` on an empty string, a non-digit, or overflow.
fn parse_dec_digits(s: &[u8], from: usize) -> (r: Option<u16>)
    requires
        from <= s@.len(),
    ensures
        match r {
            Some(v) => {
                let d = s@.skip(from as int);
                d.len() >= 1 && all_digits(d) && dec_val(d) <= 65535 && v == dec_val(d)
            },
            None => {
                let d = s@.skip(from as int);
                !(d.len() >= 1 && all_digits(d) && dec_val(d) <= 65535)
            },
        },
{
    let ghost d = s@.skip(from as int);
    if from == s.len() {
        return None;
    }
    let mut i: usize = from;
    let mut acc: u32 = 0;
    let mut too_big: bool = false;
    while i < s.len()
        invariant
            from <= i <= s@.len(),
            d == s@.skip(from as int),
            all_digits(d.take(i - from)),
            !too_big ==> acc == dec_val(d.take(i - from)) && acc <= 65535,
            too_big ==> dec_val(d.take(i - from)) > 65535,
        decreases s@.len() - i,
    {
        let c = s[i];
        if c < 0x30 || c > 0x39 {
            proof {
                assert(d[i - from] == c);
                assert(!is_digit(d[i - from]));
            }
            return None;
        }
        proof {
            assert(d.take(i - from + 1).drop_last() =~= d.take(i - from));
            assert(d.take(i - from + 1).last() == d[i - from] && d[i - from] == c);
        }
        if too_big {
            proof {
                assert(dec_val(d.take(i - from + 1)) == dec_val(d.take(i - from)) * 10
                    + digit_val(c));
            }
        } else {
            let next: u32 = acc * 10 + (c - 0x30) as u32;
            if next > 65535 {
                too_big = true;
            } else {
                acc = next;
            }
        }
        i = i + 1;
    }
    proof {
        assert(d.take(i - from) =~= d);
    }
    if too_big {
        None
    } else {
        Some(acc as u16)
    }
}

/// Parse an unsigned 16-bit integer as `str::parse::<u16>` does.
pub fn parse_u16(s: &[u8]) -> (r: Option<u16>)
    ensures
        r == parse_u16_spec(s@),
{
    if s.len() > 0 && s[0] == 0x2b {
        proof {
            assert(u16_str_digits(s@) == s@.skip(1));
        }
        parse_dec_digits(s, 1)
    } else {
        proof {
            assert(u16_str_digits(s@) == s@);
            assert(s@.skip(0) =~= s@);
        }
        parse_dec_digits(s, 0)
    }
}

/// Parse one dotted-quad octet: `is_octet` strings and their value, exactly.
pub fn parse_ipv4_octet(s: &[u8]) -> (r: Option<u8>)
    ensures
        match r {
            Some(v) => is_octet(s@) && v == dec_val(s@),
            None => !is_octet(s@),
        },
{
    if s.len() < 1 || s.len() > 3 {
        return None;
    }
    if s.len() > 1 && s[0] == 0x30 {
        return None;
    }
    proof {
        assert(s@.skip(0) =~= s@);
    }
    match parse_dec_digits(s, 0) {
        None => {
            proof {
                if all_digits(s@) {
                    lemma_dec_val_small(s@);
                }
            }
            None
        },
        Some(v) => {
            if v > 255 {
                None
            } else {
                Some(v as u8)
            }
        },
    }
}

/// A digit string of at most three digits denotes a value below 1000.
proof fn lemma_dec_val_small(s: Seq<u8>)
    requires
        all_digits(s),
        s.len() <= 3,
    ensures
        s.len() == 0 ==> dec_val(s) == 0,
        s.len() <= 1 ==> dec_val(s) <= 9,
        s.len() <= 2 ==> dec_val(s) <= 99,
        dec_val(s) <= 999,
    decreases s.len(),
{
    if s.len() > 0 {
        assert(all_digits(s.drop_last())) by {
            assert(forall|i: int| 0 <= i < s.len() - 1 ==> s.drop_last()[i] == s[i]);
        }
        lemma_dec_val_small(s.drop_last());
    }
}

/// A hex string of at most four digits denotes a value that fits in 16 bits.
proof fn lemma_hex_val_small(s: Seq<u8>)
    requires
        all_hex_digits(s),
        s.len() <= 4,
    ensures
        s.len() == 0 ==> hex_val(s) == 0,
        s.len() <= 1 ==> hex_val(s) <= 0xf,
        s.len() <= 2 ==> hex_val(s) <= 0xff,
        s.len() <= 3 ==> hex_val(s) <= 0xfff,
        hex_val(s) <= 0xffff,
    decreases s.len(),
{
    if s.len() > 0 {
        assert(all_hex_digits(s.drop_last())) by {
            assert(forall|i: int| 0 <= i < s.len() - 1 ==> s.drop_last()[i] == s[i]);
        }
        lemma_hex_val_small(s.drop_last());
    }
}

/// Parse one IPv6 group: `is_hex_group` strings and their value, exactly.
pub fn parse_hex_group(s: &[u8]) -> (r: Option<u16>)
    ensures
        match r {
            Some(v) => is_hex_group(s@) && v == hex_val(s@),
            None => !is_hex_group(s@),
        },
{
    if s.len() < 1 || s.len() > 4 {
        return None;
    }
    let mut i: usize = 0;
    let mut acc: u32 = 0;
    while i < s.len()
        invariant
            i <= s@.len(),
            s@.len() <= 4,
            all_hex_digits(s@.take(i as int)),
            acc == hex_val(s@.take(i as int)),
            acc <= 0xffff,
        decreases s@.len() - i,
    {
        let c = s[i];
        let d: u32 = if 0x30 <= c && c <= 0x39 {
            (c - 0x30) as u32
        } else if 0x41 <= c && c <= 0x46 {
            (c - 0x41) as u32 + 10
        } else if 0x61 <= c && c <= 0x66 {
            (c - 0x61) as u32 + 10
        } else {
            proof {
                assert(!is_hex_digit(s@[i as int]));
            }
            return None;
        };
        proof {
            assert(s@.take(i + 1).drop_last() =~= s@.take(i as int));
            assert(s@.take(i + 1).last() == s@[i as int]);
            lemma_hex_val_small(s@.take(i + 1));
        }
        acc = acc * 16 + d;
        i = i + 1;
    }
    proof {
        assert(s@.take(i as int) =~= s@);
    }
    Some(acc as u16)
}

} // verus!
