//! Byte-level scanning primitives used by the rule grammar: locating the
//! first or last occurrence of a byte, splitting at a separator, and
//! trimming a leading or trailing run of a byte.

use vstd::prelude::*;

verus! {

/// Index of the first occurrence of `b` in `s`, or -1 if `b` does not occur.
pub open spec fn find_byte(s: Seq<u8>, b: u8) -> int
    decreases s.len(),
{
    if s.len() == 0 {
        -1
    } else if s[0] == b {
        0
    } else if find_byte(s.skip(1), b) < 0 {
        -1
    } else {
        find_byte(s.skip(1), b) + 1
    }
}

/// Index of the last occurrence of `b` in `s`, or -1 if `b` does not occur.
pub open spec fn rfind_byte(s: Seq<u8>, b: u8) -> int
    decreases s.len(),
{
    if s.len() == 0 {
        -1
    } else if s.last() == b {
        s.len() - 1
    } else {
        rfind_byte(s.drop_last(), b)
    }
}

/// `find_byte` returns the smallest index holding `b`, or -1 when none does.
pub proof fn lemma_find_byte(s: Seq<u8>, b: u8)
    ensures
        find_byte(s, b) < 0 ==> forall|i: int| 0 <= i < s.len() ==> s[i] != b,
        find_byte(s, b) >= 0 ==> find_byte(s, b) < s.len() && s[find_byte(s, b)] == b
            && (forall|i: int| 0 <= i < find_byte(s, b) ==> s[i] != b),
    decreases s.len(),
{
    if s.len() > 0 && s[0] != b {
        lemma_find_byte(s.skip(1), b);
        assert forall|i: int| 0 <= i < s.len() && i >= 1 implies s[i] == s.skip(1)[i - 1] by {}
    }
}

/// `rfind_byte` returns the largest index holding `b`, or -1 when none does.
pub proof fn lemma_rfind_byte(s: Seq<u8>, b: u8)
    ensures
        rfind_byte(s, b) < 0 ==> forall|i: int| 0 <= i < s.len() ==> s[i] != b,
        rfind_byte(s, b) >= 0 ==> rfind_byte(s, b) < s.len() && s[rfind_byte(s, b)] == b
            && (forall|i: int| rfind_byte(s, b) < i < s.len() ==> s[i] != b),
    decreases s.len(),
{
    if s.len() > 0 && s.last() != b {
        lemma_rfind_byte(s.drop_last(), b);
        assert forall|i: int| 0 <= i < s.len() - 1 implies s[i] == s.drop_last()[i] by {}
    }
}

/// An index that holds `b` with nothing before it equal to `b` is exactly
/// `find_byte`.
pub proof fn lemma_find_byte_unique(s: Seq<u8>, b: u8, i: int)
    requires
        0 <= i < s.len(),
        s[i] == b,
        forall|j: int| 0 <= j < i ==> s[j] != b,
    ensures
        find_byte(s, b) == i,
{
    lemma_find_byte(s, b);
}

/// An index that holds `b` with nothing after it equal to `b` is exactly
/// `rfind_byte`.
pub proof fn lemma_rfind_byte_unique(s: Seq<u8>, b: u8, i: int)
    requires
        0 <= i < s.len(),
        s[i] == b,
        forall|j: int| i < j < s.len() ==> s[j] != b,
    ensures
        rfind_byte(s, b) == i,
{
    lemma_rfind_byte(s, b);
}

/// Last occurrence of `b` in `s`, scanning from the end.
pub fn rfind(s: &[u8], b: u8) -> (r: Option<usize>)
    ensures
        match r {
            Some(i) => rfind_byte(s@, b) == i as int && i < s@.len(),
            None => rfind_byte(s@, b) < 0,
        },
{
    let mut i: usize = s.len();
    while i > 0
        invariant
            i <= s@.len(),
            forall|j: int| i <= j < s@.len() ==> s@[j] != b,
        decreases i,
    {
        i = i - 1;
        if s[i] == b {
            proof {
                lemma_rfind_byte_unique(s@, b, i as int);
            }
            return Some(i);
        }
    }
    proof {
        lemma_rfind_byte(s@, b);
    }
    None
}

/// First occurrence of `b` in `s`, scanning from the front.
pub fn find(s: &[u8], b: u8) -> (r: Option<usize>)
    ensures
        match r {
            Some(i) => find_byte(s@, b) == i as int && i < s@.len(),
            None => find_byte(s@, b) < 0,
        },
{
    let mut i: usize = 0;
    while i < s.len()
        invariant
            i <= s@.len(),
            forall|j: int| 0 <= j < i ==> s@[j] != b,
        decreases s@.len() - i,
    {
        if s[i] == b {
            proof {
                lemma_find_byte_unique(s@, b, i as int);
            }
            return Some(i);
        }
        i = i + 1;
    }
    proof {
        lemma_find_byte(s@, b);
    }
    None
}

/// The pieces of `s` between occurrences of `b`, as Rust's `split` yields
/// them: always at least one piece, and empty pieces where separators touch.
pub open spec fn split_at_byte(s: Seq<u8>, b: u8) -> Seq<Seq<u8>>
    decreases s.len(),
{
    if s.len() == 0 {
        seq![seq![]]
    } else if s[0] == b {
        seq![seq![]] + split_at_byte(s.skip(1), b)
    } else {
        let rest = split_at_byte(s.skip(1), b);
        seq![seq![s[0]] + rest[0]] + rest.skip(1)
    }
}

/// `split_at_byte` yields one piece when `b` is absent, and otherwise splits
/// once at the first occurrence and recurs on what follows it.
pub proof fn lemma_split_at_byte_step(s: Seq<u8>, b: u8)
    ensures
        split_at_byte(s, b).len() >= 1,
        find_byte(s, b) < 0 ==> split_at_byte(s, b) == seq![s],
        find_byte(s, b) >= 0 ==> split_at_byte(s, b) == seq![s.take(find_byte(s, b))]
            + split_at_byte(s.skip(find_byte(s, b) + 1), b),
    decreases s.len(),
{
    broadcast use vstd::seq_lib::group_seq_properties;

    if s.len() == 0 {
        assert(split_at_byte(s, b) =~= seq![s]);
    } else if s[0] == b {
        assert(s.take(0) =~= Seq::<u8>::empty());
        assert(split_at_byte(s, b) =~= seq![s.take(0)] + split_at_byte(s.skip(1), b));
    } else {
        lemma_split_at_byte_step(s.skip(1), b);
        lemma_find_byte(s.skip(1), b);
        lemma_find_byte(s, b);
        let rest = split_at_byte(s.skip(1), b);
        if find_byte(s.skip(1), b) < 0 {
            assert(seq![s[0]] + rest[0] =~= s);
            assert(split_at_byte(s, b) =~= seq![s]);
        } else {
            let i = find_byte(s.skip(1), b);
            assert(find_byte(s, b) == i + 1);
            assert(rest[0] == s.skip(1).take(i));
            assert(seq![s[0]] + s.skip(1).take(i) =~= s.take(i + 1));
            assert(s.skip(1).skip(i + 1) =~= s.skip(i + 2));
            assert(rest.skip(1) == split_at_byte(s.skip(i + 2), b));
            assert(split_at_byte(s, b) =~= seq![s.take(i + 1)] + split_at_byte(
                s.skip(i + 2),
                b,
            ));
        }
    }
}

/// Split `s` at every occurrence of `b`.
pub fn split(s: &[u8], b: u8) -> (r: Vec<Vec<u8>>)
    ensures
        r@.map_values(|v: Vec<u8>| v@) == split_at_byte(s@, b),
    decreases s@.len(),
{
    proof {
        lemma_split_at_byte_step(s@, b);
    }
    match find(s, b) {
        None => {
            let mut r: Vec<Vec<u8>> = Vec::new();
            r.push(vstd::slice::slice_to_vec(s));
            proof {
                assert(r@.map_values(|v: Vec<u8>| v@) =~= seq![s@]);
            }
            r
        },
        Some(i) => {
            let n = s.len();
            let head = vstd::slice::slice_to_vec(vstd::slice::slice_subrange(s, 0, i));
            let tail = vstd::slice::slice_subrange(s, i + 1, n);
            let mut rest = split(tail, b);
            rest.insert(0, head);
            proof {
                assert(head@ =~= s@.take(i as int));
                assert(tail@ =~= s@.skip(i + 1));
                assert(rest@.map_values(|v: Vec<u8>| v@) =~= seq![s@.take(i as int)]
                    + split_at_byte(s@.skip(i + 1), b));
            }
            rest
        },
    }
}

/// `s` without its leading run of `b` bytes.
pub open spec fn trim_leading(s: Seq<u8>, b: u8) -> Seq<u8>
    decreases s.len(),
{
    if s.len() > 0 && s[0] == b {
        trim_leading(s.skip(1), b)
    } else {
        s
    }
}

/// `s` without its trailing run of `b` bytes.
pub open spec fn trim_trailing(s: Seq<u8>, b: u8) -> Seq<u8>
    decreases s.len(),
{
    if s.len() > 0 && s.last() == b {
        trim_trailing(s.drop_last(), b)
    } else {
        s
    }
}

/// In `a + [b] + t`, where `t` avoids `b`, the last occurrence of `b` is
/// the inserted one.
pub proof fn lemma_rfind_append(a: Seq<u8>, b: u8, t: Seq<u8>)
    requires
        forall|i: int| 0 <= i < t.len() ==> #[trigger] t[i] != b,
    ensures
        rfind_byte(a + seq![b] + t, b) == a.len(),
    decreases t.len(),
{
    let s = a + seq![b] + t;
    if t.len() == 0 {
        assert(s =~= a + seq![b]);
        assert(s.last() == b);
    } else {
        assert(s.last() == t.last());
        assert(t.last() != b);
        assert(s.drop_last() =~= a + seq![b] + t.drop_last());
        assert(forall|i: int| 0 <= i < t.len() - 1 ==> #[trigger] t.drop_last()[i] == t[i]);
        lemma_rfind_append(a, b, t.drop_last());
    }
}

/// Trimming a leading run of `b` stops before a suffix that does not start
/// with `b`.
pub proof fn lemma_trim_leading_append(a: Seq<u8>, t: Seq<u8>, b: u8)
    requires
        t.len() > 0,
        t[0] != b,
    ensures
        trim_leading(a + t, b) == trim_leading(a, b) + t,
    decreases a.len(),
{
    if a.len() == 0 {
        assert(a + t =~= t);
        assert(trim_leading(a, b) + t =~= t);
    } else if a[0] == b {
        assert((a + t)[0] == b);
        assert((a + t).skip(1) =~= a.skip(1) + t);
        lemma_trim_leading_append(a.skip(1), t, b);
    } else {
        assert((a + t)[0] == a[0]);
    }
}

/// Trimming a byte that does not occur changes nothing.
pub proof fn lemma_trim_trailing_absent(s: Seq<u8>, b: u8)
    requires
        forall|i: int| 0 <= i < s.len() ==> #[trigger] s[i] != b,
    ensures
        trim_trailing(s, b) == s,
{
}

/// Drop every leading `b` byte, as `str::trim_start_matches` does.
pub fn trim_lead(s: &[u8], b: u8) -> (r: &[u8])
    ensures
        r@ == trim_leading(s@, b),
    decreases s@.len(),
{
    if s.len() > 0 && s[0] == b {
        let rest = vstd::slice::slice_subrange(s, 1, s.len());
        proof {
            assert(rest@ =~= s@.skip(1));
        }
        trim_lead(rest, b)
    } else {
        s
    }
}

/// Drop every trailing `b` byte, as `str::trim_end_matches` does.
pub fn trim_trail(s: &[u8], b: u8) -> (r: &[u8])
    ensures
        r@ == trim_trailing(s@, b),
    decreases s@.len(),
{
    if s.len() > 0 && s[s.len() - 1] == b {
        let rest = vstd::slice::slice_subrange(s, 0, s.len() - 1);
        proof {
            assert(rest@ =~= s@.drop_last());
        }
        trim_trail(rest, b)
    } else {
        s
    }
}

} // verus!
