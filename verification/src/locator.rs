//! The shard locator.
//!
//! A ranking `r` lives in the shard numbered `r / index_interval`, with the
//! division truncating toward zero as the host's signed integer division
//! does. A shard is a node of the external namespace at the path
//! `ranking_index.<shard>`, with the shard number written in decimal. The
//! locator also turns the namespace's child leaf names back into shard
//! numbers, silently skipping children whose leaf is not a decimal number:
//! foreign nodes may share the namespace.
use crate::decimal::i64_to_decimal;
use crate::decimal::parse_i64_decimal;
use crate::decimal::spec_parse_i64;
use crate::decimal::spec_render_i64;
use crate::types::RankingIndex;
use vstd::arithmetic::div_mod::lemma_div_nonincreasing;
use vstd::arithmetic::div_mod::lemma_div_pos_is_pos;
use vstd::prelude::*;

verus! {

/// Signed division truncating toward zero, for a positive divisor: the
/// quotient of the magnitudes, with the dividend's sign.
pub open spec fn spec_trunc_div(a: int, b: int) -> int {
    if a >= 0 {
        a / b
    } else {
        -((-a) / b)
    }
}

/// The shard number of `ranking` under an interval width of `width`.
pub open spec fn spec_ranking_interval(ranking: i64, width: u64) -> int {
    spec_trunc_div(ranking as int, width as int)
}

/// Truncating division by a positive divisor never grows the magnitude, so
/// a shard number always fits the ranking's own type.
pub proof fn lemma_ranking_interval_fits(ranking: i64, width: u64)
    requires
        1 <= width <= i64::MAX as u64,
    ensures
        i64::MIN <= spec_ranking_interval(ranking, width) <= i64::MAX,
{
    if ranking >= 0 {
        lemma_div_nonincreasing(ranking as int, width as int);
        lemma_div_pos_is_pos(ranking as int, width as int);
    } else {
        lemma_div_nonincreasing(-(ranking as int), width as int);
        lemma_div_pos_is_pos(-(ranking as int), width as int);
    }
}

/// The leaf name under which the shard holding `ranking` is filed.
pub open spec fn spec_interval_leaf(ranking: i64, width: u64) -> Seq<u8> {
    spec_render_i64(spec_ranking_interval(ranking, width) as i64)
}

/// The name of the index's root node in the namespace.
pub open spec fn spec_root_path_name() -> Seq<u8> {
    seq![114u8, 97u8, 110u8, 107u8, 105u8, 110u8, 103u8, 95u8, 105u8, 110u8, 100u8, 101u8, 120u8]
}

/// The full path name of the shard holding `ranking`: the root name, a dot,
/// then the shard number in decimal.
pub open spec fn spec_ranking_path(ranking: i64, width: u64) -> Seq<u8> {
    spec_root_path_name() + seq![46u8] + spec_interval_leaf(ranking, width)
}

/// The shard leaf names parsed out of the namespace's child leaves, paired
/// with the position of the child each came from, sorted ascending by shard
/// number. A leaf that is not a decimal number is skipped; of two children
/// naming the same shard, the later one stands.
pub open spec fn spec_interval_keys(leaves: Seq<Seq<u8>>) -> Seq<(i64, int)> {
    spec_interval_keys_from(leaves, 0, Seq::empty())
}

/// The scan behind [`spec_interval_keys`], from position `i` on, folding
/// each parsed leaf into the sorted accumulator.
pub open spec fn spec_interval_keys_from(
    leaves: Seq<Seq<u8>>,
    i: int,
    acc: Seq<(i64, int)>,
) -> Seq<(i64, int)>
    decreases leaves.len() - i,
{
    if i < 0 || i >= leaves.len() {
        acc
    } else {
        let acc2 = match spec_parse_i64(leaves[i]) {
            Some(k) => spec_interval_put(acc, k, i),
            None => acc,
        };
        spec_interval_keys_from(leaves, i + 1, acc2)
    }
}

/// `s` with the pair `(k, v)` put in at `k`'s sorted place, replacing the
/// pair already keyed `k` if there is one.
pub open spec fn spec_interval_put(s: Seq<(i64, int)>, k: i64, v: int) -> Seq<(i64, int)>
    decreases s.len(),
{
    if s.len() == 0 {
        seq![(k, v)]
    } else if k < s[0].0 {
        seq![(k, v)] + s
    } else if k == s[0].0 {
        seq![(k, v)] + s.drop_first()
    } else {
        seq![s[0]] + spec_interval_put(s.drop_first(), k, v)
    }
}

/// Keys strictly ascending, and every pair pointing back at a child, before
/// position `bound`, whose leaf parses to the pair's key.
pub open spec fn interval_pairs_wf(s: Seq<(i64, int)>, leaves: Seq<Seq<u8>>, bound: int) -> bool {
    &&& forall|i: int, j: int| 0 <= i < j < s.len() ==> s[i].0 < s[j].0
    &&& forall|i: int|
        0 <= i < s.len() ==> 0 <= #[trigger] s[i].1 < bound && bound <= leaves.len()
            && spec_parse_i64(leaves[s[i].1]) == Some(s[i].0)
}

/// Putting one pair in keeps the list well formed, provided the pair itself
/// points at a child that parses to its key.
proof fn lemma_interval_put_wf(
    s: Seq<(i64, int)>,
    leaves: Seq<Seq<u8>>,
    bound: int,
    k: i64,
    v: int,
)
    requires
        interval_pairs_wf(s, leaves, bound),
        0 <= v < bound,
        bound <= leaves.len(),
        spec_parse_i64(leaves[v]) == Some(k),
    ensures
        interval_pairs_wf(spec_interval_put(s, k, v), leaves, bound),
    decreases s.len(),
{
    let res = spec_interval_put(s, k, v);
    if s.len() == 0 {
    } else if k < s[0].0 {
        assert(forall|i: int| 0 <= i < s.len() ==> res[i + 1] == s[i]);
    } else if k == s[0].0 {
        assert(forall|i: int| 0 <= i < s.len() - 1 ==> res[i + 1] == s.drop_first()[i]);
    } else {
        let rest = s.drop_first();
        assert(interval_pairs_wf(rest, leaves, bound));
        lemma_interval_put_wf(rest, leaves, bound, k, v);
        let sub = spec_interval_put(rest, k, v);
        assert(forall|i: int| 0 <= i < sub.len() ==> res[i + 1] == sub[i]);
        assert forall|i: int| 0 <= i < sub.len() implies s[0].0 < sub[i].0 by {
            lemma_interval_put_keys(rest, k, v, i);
        }
    }
}

/// Every key of the put result is the new key or one already present.
proof fn lemma_interval_put_keys(s: Seq<(i64, int)>, k: i64, v: int, i: int)
    requires
        0 <= i < spec_interval_put(s, k, v).len(),
    ensures
        spec_interval_put(s, k, v)[i].0 == k || exists|j: int|
            0 <= j < s.len() && s[j].0 == spec_interval_put(s, k, v)[i].0,
    decreases s.len(),
{
    let res = spec_interval_put(s, k, v);
    if s.len() == 0 {
    } else if k < s[0].0 {
        if i > 0 {
            assert(s[i - 1].0 == res[i].0);
        }
    } else if k == s[0].0 {
        if i > 0 {
            assert(s[i].0 == res[i].0);
        }
    } else {
        if i == 0 {
            assert(s[0].0 == res[0].0);
        } else {
            let rest = s.drop_first();
            assert(res[i] == spec_interval_put(rest, k, v)[i - 1]);
            lemma_interval_put_keys(rest, k, v, i - 1);
            if spec_interval_put(rest, k, v)[i - 1].0 != k {
                let j = choose|j: int|
                    0 <= j < rest.len() && rest[j].0 == spec_interval_put(rest, k, v)[i - 1].0;
                assert(s[j + 1].0 == res[i].0);
            }
        }
    }
}

/// The scan keeps the pair list well formed as it walks the leaves.
proof fn lemma_interval_keys_from_wf(leaves: Seq<Seq<u8>>, i: int, acc: Seq<(i64, int)>)
    requires
        0 <= i <= leaves.len(),
        interval_pairs_wf(acc, leaves, i),
    ensures
        interval_pairs_wf(spec_interval_keys_from(leaves, i, acc), leaves, leaves.len() as int),
    decreases leaves.len() - i,
{
    if i == leaves.len() {
    } else {
        let acc2 = match spec_parse_i64(leaves[i]) {
            Some(k) => spec_interval_put(acc, k, i),
            None => acc,
        };
        assert(interval_pairs_wf(acc, leaves, i + 1));
        match spec_parse_i64(leaves[i]) {
            Some(k) => {
                lemma_interval_put_wf(acc, leaves, i + 1, k, i);
            },
            None => {},
        }
        lemma_interval_keys_from_wf(leaves, i + 1, acc2);
    }
}

/// What [`spec_interval_keys`] returns is sorted, and each pair points back
/// at a child whose leaf parses to its shard number.
pub proof fn lemma_interval_keys_wf(leaves: Seq<Seq<u8>>)
    ensures
        interval_pairs_wf(spec_interval_keys(leaves), leaves, leaves.len() as int),
{
    lemma_interval_keys_from_wf(leaves, 0, Seq::empty());
}

/// Where the scan for `k`'s place stops in a sorted pair list, the
/// recursive put acts: replacing at the match, else splicing in.
proof fn lemma_interval_put_at(s: Seq<(i64, int)>, k: i64, v: int, p: int)
    requires
        0 <= p <= s.len(),
        forall|j: int| 0 <= j < p ==> s[j].0 < k,
        p == s.len() || s[p].0 >= k,
    ensures
        spec_interval_put(s, k, v) == if p < s.len() && s[p].0 == k {
            s.update(p, (k, v))
        } else {
            s.take(p) + seq![(k, v)] + s.skip(p)
        },
    decreases s.len(),
{
    if p == 0 {
        if s.len() == 0 {
            assert(spec_interval_put(s, k, v) =~= s.take(0) + seq![(k, v)] + s.skip(0));
        } else if s[0].0 == k {
            assert(spec_interval_put(s, k, v) =~= s.update(0, (k, v)));
        } else {
            assert(spec_interval_put(s, k, v) =~= s.take(0) + seq![(k, v)] + s.skip(0));
        }
    } else {
        let rest = s.drop_first();
        lemma_interval_put_at(rest, k, v, p - 1);
        if p < s.len() && s[p].0 == k {
            assert(rest.update(p - 1, (k, v)) =~= s.update(p, (k, v)).drop_first());
            assert(spec_interval_put(s, k, v) =~= s.update(p, (k, v)));
        } else {
            assert(rest.take(p - 1) =~= s.take(p).drop_first());
            assert(rest.skip(p - 1) =~= s.skip(p));
            assert(spec_interval_put(s, k, v) =~= s.take(p) + seq![(k, v)] + s.skip(p));
        }
    }
}

/// The values of a list of leaf names.
pub open spec fn spec_leaves(l: Seq<Vec<u8>>) -> Seq<Seq<u8>> {
    l.map_values(|v: Vec<u8>| v@)
}

/// The values of a shard pair list.
pub open spec fn spec_pairs(p: Seq<(i64, usize)>) -> Seq<(i64, int)> {
    p.map_values(|q: (i64, usize)| (q.0, q.1 as int))
}

impl RankingIndex {
    /// The shard number of `ranking`: `ranking / index_interval`, truncating
    /// toward zero. A pure function of the ranking and the interval width
    /// alone, so every call on the same pair gives the same shard.
    pub fn ranking_interval(&self, ranking: i64) -> (shard: i64)
        requires
            self.wf(),
        ensures
            shard == spec_ranking_interval(ranking, self.index_interval),
    {
        proof {
            lemma_ranking_interval_fits(ranking, self.index_interval);
        }
        let w = self.index_interval as i64;
        match ranking.checked_div(w) {
            Some(q) => q,
            None => {
                proof {
                    assert(false);
                }
                0
            },
        }
    }

    /// The name of the index's root node.
    pub fn root_path_name(&self) -> (name: Vec<u8>)
        ensures
            name@ == spec_root_path_name(),
    {
        let mut name: Vec<u8> = Vec::new();
        name.push(114);
        name.push(97);
        name.push(110);
        name.push(107);
        name.push(105);
        name.push(110);
        name.push(103);
        name.push(95);
        name.push(105);
        name.push(110);
        name.push(100);
        name.push(101);
        name.push(120);
        proof {
            assert(name@ =~= spec_root_path_name());
        }
        name
    }

    /// The full path name of the shard holding `ranking`, under which its
    /// entries' edges are filed.
    pub fn get_ranking_path(&self, ranking: i64) -> (path: Vec<u8>)
        requires
            self.wf(),
        ensures
            path@ == spec_ranking_path(ranking, self.index_interval),
    {
        let shard = self.ranking_interval(ranking);
        let mut path = self.root_path_name();
        path.push(46);
        let mut leaf = i64_to_decimal(shard);
        path.append(&mut leaf);
        proof {
            assert(path@ =~= spec_ranking_path(ranking, self.index_interval));
        }
        path
    }

    /// Reads a child's leaf name back as a shard number; `None` on any leaf
    /// that is not a decimal `i64`, which the locator skips.
    pub fn component_to_ranking(&self, leaf: &Vec<u8>) -> (r: Option<i64>)
        ensures
            r == spec_parse_i64(leaf@),
    {
        parse_i64_decimal(leaf)
    }

    /// The shards currently materialized under the namespace, from its
    /// children's leaf names: each parseable leaf becomes a
    /// `(shard number, child position)` pair, sorted ascending by shard
    /// number, later children shadowing earlier ones that name the same
    /// shard.
    pub fn get_interval_paths(&self, leaves: &Vec<Vec<u8>>) -> (pairs: Vec<(i64, usize)>)
        ensures
            spec_pairs(pairs@) == spec_interval_keys(spec_leaves(leaves@)),
    {
        let ghost lv = spec_leaves(leaves@);
        let n = leaves.len();
        let mut pairs: Vec<(i64, usize)> = Vec::new();
        let mut i: usize = 0;
        proof {
            assert(spec_pairs(pairs@) =~= Seq::<(i64, int)>::empty());
        }
        while i < n
            invariant
                0 <= i <= n,
                n == leaves@.len(),
                lv == spec_leaves(leaves@),
                spec_interval_keys_from(lv, i as int, spec_pairs(pairs@)) == spec_interval_keys(
                    lv,
                ),
            decreases n - i,
        {
            let ghost before = spec_pairs(pairs@);
            match parse_i64_decimal(&leaves[i]) {
                Some(k) => {
                    interval_put(&mut pairs, k, i);
                    proof {
                        assert(lv[i as int] == leaves@[i as int]@);
                        assert(spec_pairs(pairs@) == spec_interval_put(before, k, i as int));
                    }
                },
                None => {
                    proof {
                        assert(lv[i as int] == leaves@[i as int]@);
                    }
                },
            }
            i = i + 1;
        }
        pairs
    }
}

/// Puts `(k, v)` into the sorted pair list, replacing the pair keyed `k` if
/// one is there.
fn interval_put(pairs: &mut Vec<(i64, usize)>, k: i64, v: usize)
    ensures
        spec_pairs(final(pairs)@) == spec_interval_put(spec_pairs(old(pairs)@), k, v as int),
{
    let n = pairs.len();
    let mut idx: usize = 0;
    while idx < n && pairs[idx].0 < k
        invariant
            0 <= idx <= n,
            n == pairs@.len(),
            *pairs == *old(pairs),
            forall|j: int| 0 <= j < idx ==> spec_pairs(pairs@)[j].0 < k,
        decreases n - idx,
    {
        idx = idx + 1;
    }
    proof {
        lemma_interval_put_at(spec_pairs(pairs@), k, v as int, idx as int);
    }
    if idx < n && pairs[idx].0 == k {
        pairs.remove(idx);
        pairs.insert(idx, (k, v));
        proof {
            assert(spec_pairs(pairs@) =~= spec_pairs(old(pairs)@).update(idx as int, (
                k,
                v as int,
            )));
        }
    } else {
        pairs.insert(idx, (k, v));
        proof {
            assert(spec_pairs(pairs@) =~= spec_pairs(old(pairs)@).take(idx as int) + seq![
                (k, v as int),
            ] + spec_pairs(old(pairs)@).skip(idx as int));
        }
    }
}

} // verus!
