//! Decimal names for shard numbers.
//!
//! A shard is addressed by a path whose leaf is the shard's interval number
//! written in decimal. This module renders an `i64` into that byte form and
//! parses it back, with the usual signed-integer syntax: an optional `+` or
//! `-`, then one or more ASCII digits, rejecting anything else and any value
//! outside the `i64` range.
use vstd::prelude::*;

verus! {

/// ASCII digit.
pub open spec fn is_digit(b: u8) -> bool {
    48 <= b <= 57
}

/// Every byte of `s` is an ASCII digit.
pub open spec fn all_digits(s: Seq<u8>) -> bool {
    forall|i: int| 0 <= i < s.len() ==> is_digit(#[trigger] s[i])
}

/// The decimal digits of `n`, most significant first.
pub open spec fn spec_digits(n: nat) -> Seq<u8>
    decreases n,
{
    if n < 10 {
        seq![(48 + n) as u8]
    } else {
        spec_digits(n / 10).push((48 + n % 10) as u8)
    }
}

/// The decimal digits of `n`, least significant first.
pub open spec fn spec_digits_rev(n: nat) -> Seq<u8>
    decreases n,
{
    if n < 10 {
        seq![(48 + n) as u8]
    } else {
        seq![(48 + n % 10) as u8] + spec_digits_rev(n / 10)
    }
}

/// The decimal rendering of `v`: its digits, preceded by `-` when negative.
pub open spec fn spec_render_i64(v: i64) -> Seq<u8> {
    if v >= 0 {
        spec_digits(v as nat)
    } else {
        seq![45u8] + spec_digits((-(v as int)) as nat)
    }
}

/// The numeric value of a digit string, read most significant first.
/// Meaningful only when `all_digits(s)` holds; on other bytes it is some
/// integer.
pub open spec fn spec_digits_value(s: Seq<u8>) -> int
    decreases s.len(),
{
    if s.len() == 0 {
        0
    } else {
        spec_digits_value(s.drop_last()) * 10 + (s.last() - 48)
    }
}

/// The value `spec_parse_i64` gives to a byte string: `Some(v)` exactly when
/// the string is an optional sign followed by one or more digits whose value
/// fits in an `i64`.
pub open spec fn spec_parse_i64(s: Seq<u8>) -> Option<i64> {
    if s.len() == 0 {
        None
    } else {
        let neg = s[0] == 45;
        let ds = if s[0] == 43 || s[0] == 45 {
            s.drop_first()
        } else {
            s
        };
        if ds.len() == 0 || !all_digits(ds) {
            None
        } else {
            let v = spec_digits_value(ds);
            if neg {
                if v <= 0x8000_0000_0000_0000 {
                    Some((-v) as i64)
                } else {
                    None
                }
            } else {
                if v <= 0x7fff_ffff_ffff_ffff {
                    Some(v as i64)
                } else {
                    None
                }
            }
        }
    }
}

/// A digit string's value never shrinks when more digits follow: the value of
/// a prefix bounds the value of the whole string from below.
proof fn lemma_digits_value_prefix_le(s: Seq<u8>, i: int)
    requires
        0 <= i <= s.len(),
        all_digits(s),
    ensures
        0 <= spec_digits_value(s.take(i)),
        spec_digits_value(s.take(i)) <= spec_digits_value(s),
    decreases s.len() - i,
{
    if i == s.len() {
        assert(s.take(i) =~= s);
        lemma_digits_value_nonneg(s);
    } else {
        lemma_digits_value_prefix_le(s, i + 1);
        assert(s.take(i + 1).drop_last() =~= s.take(i));
        assert(s.take(i + 1).last() == s[i]);
        lemma_digits_value_nonneg(s.take(i));
    }
}

/// On digit strings the value is nonnegative.
proof fn lemma_digits_value_nonneg(s: Seq<u8>)
    requires
        all_digits(s),
    ensures
        spec_digits_value(s) >= 0,
    decreases s.len(),
{
    if s.len() > 0 {
        assert(all_digits(s.drop_last())) by {
            assert(forall|i: int|
                0 <= i < s.len() - 1 ==> is_digit(#[trigger] s.drop_last()[i]));
        }
        lemma_digits_value_nonneg(s.drop_last());
    }
}

/// The two digit orders mirror each other.
proof fn lemma_digits_rev(n: nat)
    ensures
        spec_digits(n) == spec_digits_rev(n).reverse(),
    decreases n,
{
    if n < 10 {
        assert(spec_digits_rev(n).reverse() =~= spec_digits(n));
    } else {
        lemma_digits_rev(n / 10);
        let d = (48 + n % 10) as u8;
        assert((seq![d] + spec_digits_rev(n / 10)).reverse() =~= spec_digits_rev(
            n / 10,
        ).reverse().push(d));
    }
}

/// Rendering produces digits only.
proof fn lemma_digits_are_digits(n: nat)
    ensures
        spec_digits(n).len() >= 1,
        all_digits(spec_digits(n)),
    decreases n,
{
    if n >= 10 {
        lemma_digits_are_digits(n / 10);
    }
}

/// Reading the digits of `n` back gives `n`.
proof fn lemma_digits_value_of_digits(n: nat)
    ensures
        spec_digits_value(spec_digits(n)) == n,
    decreases n,
{
    if n < 10 {
        assert(spec_digits(n).drop_last() =~= Seq::<u8>::empty());
        assert(spec_digits_value(Seq::<u8>::empty()) == 0);
    } else {
        lemma_digits_value_of_digits(n / 10);
        let d = (48 + n % 10) as u8;
        assert(spec_digits(n).drop_last() =~= spec_digits(n / 10));
        assert(spec_digits(n).last() == d);
        vstd::arithmetic::div_mod::lemma_fundamental_div_mod(n as int, 10);
        assert(spec_digits_value(spec_digits(n)) == (n / 10) * 10 + n % 10);
    }
}

/// Every rendered ranking parses back to itself: the shard leaf names this
/// crate writes are exactly recovered by the leaf parser.
pub proof fn lemma_parse_render_i64(v: i64)
    ensures
        spec_parse_i64(spec_render_i64(v)) == Some(v),
{
    if v >= 0 {
        let n = v as nat;
        let s = spec_digits(n);
        lemma_digits_are_digits(n);
        lemma_digits_value_of_digits(n);
        assert(is_digit(s[0]));
        assert(s[0] != 43 && s[0] != 45);
    } else {
        let n = (-(v as int)) as nat;
        let s = seq![45u8] + spec_digits(n);
        lemma_digits_are_digits(n);
        lemma_digits_value_of_digits(n);
        assert(s[0] == 45);
        assert(s.drop_first() =~= spec_digits(n));
        assert(n <= 0x8000_0000_0000_0000);
        assert((-spec_digits_value(s.drop_first())) as i64 == v);
    }
}

/// Renders `v` in decimal, as the shard path leaf is written.
pub fn i64_to_decimal(v: i64) -> (s: Vec<u8>)
    ensures
        s@ == spec_render_i64(v),
{
    let neg = v < 0;
    let mut m: u64 = if v >= 0 {
        v as u64
    } else {
        (-(v as i128)) as u64
    };
    let ghost m0 = m as nat;
    let mut rev: Vec<u8> = Vec::new();
    let d0: u8 = (m % 10) as u8 + 48;
    rev.push(d0);
    m = m / 10;
    proof {
        if m > 0 {
            assert(spec_digits_rev(m0) =~= rev@ + spec_digits_rev(m as nat));
        } else {
            assert(rev@ =~= spec_digits_rev(m0));
        }
    }
    while m > 0
        invariant
            m > 0 ==> spec_digits_rev(m0) == rev@ + spec_digits_rev(m as nat),
            m == 0 ==> rev@ == spec_digits_rev(m0),
            rev@.len() >= 1,
        decreases m,
    {
        let d: u8 = (m % 10) as u8 + 48;
        rev.push(d);
        let ghost m_prev = m as nat;
        m = m / 10;
        proof {
            if m > 0 {
                assert(spec_digits_rev(m_prev) =~= seq![d] + spec_digits_rev(m as nat));
                assert(spec_digits_rev(m0) =~= rev@ + spec_digits_rev(m as nat));
            } else {
                assert(spec_digits_rev(m_prev) =~= seq![d]);
                assert(rev@ =~= spec_digits_rev(m0));
            }
        }
    }
    let rlen = rev.len();
    let mut s: Vec<u8> = Vec::new();
    let ghost pre: Seq<u8> = if neg {
        seq![45u8]
    } else {
        Seq::empty()
    };
    if neg {
        s.push(45);
    }
    let mut i = rlen;
    while i > 0
        invariant
            i <= rlen,
            rlen == rev@.len(),
            rev@ == spec_digits_rev(m0),
            s@.len() == pre.len() + (rlen - i),
            forall|k: int| 0 <= k < pre.len() ==> s@[k] == pre[k],
            forall|k: int|
                0 <= k < rlen - i ==> #[trigger] s@[pre.len() + k] == rev@[rlen - 1 - k],
        decreases i,
    {
        i = i - 1;
        s.push(rev[i]);
    }
    proof {
        lemma_digits_rev(m0);
        assert(spec_digits(m0).len() == rlen);
        let t = pre + spec_digits(m0);
        assert forall|j: int| 0 <= j < s@.len() implies s@[j] == t[j] by {
            if j < pre.len() {
            } else {
                let k = j - pre.len();
                assert(s@[pre.len() + k] == rev@[rlen - 1 - k]);
                assert(spec_digits(m0)[k] == spec_digits_rev(m0).reverse()[k]);
            }
        }
        assert(s@ =~= t);
        assert(m0 == if v >= 0 { v as int } else { -(v as int) });
        assert(t =~= spec_render_i64(v));
    }
    s
}

/// Parses a decimal `i64`, exactly as [`spec_parse_i64`] describes: `None`
/// on an empty string, a stray byte, a bare sign, or a value out of range.
pub fn parse_i64_decimal(c: &Vec<u8>) -> (r: Option<i64>)
    ensures
        r == spec_parse_i64(c@),
{
    let n = c.len();
    if n == 0 {
        return None;
    }
    let first = c[0];
    let neg = first == 45;
    let start: usize = if first == 43 || first == 45 {
        1
    } else {
        0
    };
    let ghost ds = if first == 43 || first == 45 {
        c@.drop_first()
    } else {
        c@
    };
    if start >= n {
        return None;
    }
    let limit: u64 = if neg {
        0x8000_0000_0000_0000
    } else {
        0x7fff_ffff_ffff_ffff
    };
    let mut acc: u64 = 0;
    let mut i = start;
    while i < n
        invariant
            start <= i <= n,
            n == c@.len(),
            start == 0 || start == 1,
            start == 1 <==> (c@[0] == 43 || c@[0] == 45),
            neg <==> c@[0] == 45,
            ds == (if start == 1 { c@.drop_first() } else { c@ }),
            ds.len() == n - start,
            forall|k: int| 0 <= k < ds.len() ==> ds[k] == c@[start + k],
            forall|k: int| 0 <= k < i - start ==> is_digit(#[trigger] ds[k]),
            acc == spec_digits_value(ds.take(i - start)),
            acc <= limit,
            limit == (if neg { 0x8000_0000_0000_0000u64 } else { 0x7fff_ffff_ffff_ffffu64 }),
        decreases n - i,
    {
        let b = c[i];
        if b < 48 || b > 57 {
            assert(!is_digit(ds[i - start]));
            return None;
        }
        let wide: u128 = (acc as u128) * 10 + ((b - 48) as u128);
        proof {
            assert(ds.take(i + 1 - start).drop_last() =~= ds.take(i - start));
            assert(ds.take(i + 1 - start).last() == ds[i - start]);
        }
        if wide > limit as u128 {
            proof {
                if all_digits(ds) {
                    lemma_digits_value_prefix_le(ds, i + 1 - start);
                }
            }
            return None;
        }
        acc = wide as u64;
        i = i + 1;
    }
    proof {
        assert(ds.take(n - start) =~= ds);
    }
    if neg {
        if acc == 0x8000_0000_0000_0000 {
            Some(i64::MIN)
        } else {
            Some(-(acc as i64))
        }
    } else {
        Some(acc as i64)
    }
}

} // verus!
