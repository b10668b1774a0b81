//! The query result: an ordered mapping from ranking to the entries that
//! share it.
//!
//! Keys are kept in ascending numeric order whatever direction the query
//! walked in, and a key is present exactly when at least one entry carries
//! it. Within one key, entries keep the order in which they were merged.
use crate::types::HashWithTag;
use crate::types::HashWithTagV;
use vstd::prelude::*;

verus! {

/// The mathematical value of a [`Ranking`]: ranking keys, ascending, each
/// with the entries that share it.
pub type RankingModel = Seq<(i64, Seq<HashWithTagV>)>;

/// The values of a group of entries.
pub open spec fn spec_group(g: Seq<HashWithTag>) -> Seq<HashWithTagV> {
    g.map_values(|h: HashWithTag| h@)
}

/// A well-formed result: keys strictly ascending, no key without entries.
pub open spec fn rm_wf(m: RankingModel) -> bool {
    &&& forall|i: int, j: int| 0 <= i < j < m.len() ==> m[i].0 < m[j].0
    &&& forall|i: int| 0 <= i < m.len() ==> #[trigger] m[i].1.len() >= 1
}

/// The entries filed under `r`; empty when `r` is absent.
pub open spec fn rm_lookup(m: RankingModel, r: i64) -> Seq<HashWithTagV>
    decreases m.len(),
{
    if m.len() == 0 {
        Seq::empty()
    } else if m[0].0 == r {
        m[0].1
    } else {
        rm_lookup(m.drop_first(), r)
    }
}

/// `m` with one entry `h` filed under `r`, keeping keys sorted: appended to
/// `r`'s group when the key exists, else a new group at `r`'s place.
pub open spec fn rm_insert(m: RankingModel, r: i64, h: HashWithTagV) -> RankingModel
    decreases m.len(),
{
    if m.len() == 0 {
        seq![(r, seq![h])]
    } else if r < m[0].0 {
        seq![(r, seq![h])] + m
    } else if r == m[0].0 {
        seq![(m[0].0, m[0].1.push(h))] + m.drop_first()
    } else {
        seq![m[0]] + rm_insert(m.drop_first(), r, h)
    }
}

/// How many entries `m` holds in all, over all keys.
pub open spec fn rm_total(m: RankingModel) -> nat
    decreases m.len(),
{
    if m.len() == 0 {
        0
    } else {
        m[0].1.len() + rm_total(m.drop_first())
    }
}

/// Inserting keeps the result well formed, and introduces no key but `r`.
pub proof fn lemma_rm_insert_wf(m: RankingModel, r: i64, h: HashWithTagV)
    requires
        rm_wf(m),
    ensures
        rm_wf(rm_insert(m, r, h)),
        forall|i: int|
            0 <= i < rm_insert(m, r, h).len() ==> (#[trigger] rm_insert(m, r, h)[i].0 == r
                || exists|j: int| 0 <= j < m.len() && m[j].0 == rm_insert(m, r, h)[i].0),
    decreases m.len(),
{
    let res = rm_insert(m, r, h);
    if m.len() == 0 {
    } else if r < m[0].0 {
        assert(forall|i: int| 0 <= i < m.len() ==> res[i + 1] == m[i]);
    } else if r == m[0].0 {
        assert(forall|i: int| 0 <= i < m.len() - 1 ==> res[i + 1] == m.drop_first()[i]);
    } else {
        let rest = m.drop_first();
        assert(rm_wf(rest));
        lemma_rm_insert_wf(rest, r, h);
        let sub = rm_insert(rest, r, h);
        assert(forall|i: int| 0 <= i < sub.len() ==> res[i + 1] == sub[i]);
        assert forall|i: int| 0 <= i < sub.len() implies m[0].0 < sub[i].0 by {
            if sub[i].0 != r {
                let j = choose|j: int| 0 <= j < rest.len() && rest[j].0 == sub[i].0;
                assert(rest[j] == m[j + 1]);
            }
        }
        assert forall|i: int|
            0 <= i < res.len() implies (#[trigger] res[i].0 == r || exists|j: int|
            0 <= j < m.len() && m[j].0 == res[i].0) by {
            if i == 0 {
                assert(m[0].0 == res[0].0);
            } else if sub[i - 1].0 != r {
                let j = choose|j: int| 0 <= j < rest.len() && rest[j].0 == sub[i - 1].0;
                assert(m[j + 1].0 == res[i].0);
            }
        }
    }
}

/// What inserting does to each key's group: `r` gains exactly `h` at the
/// end, every other key is untouched.
pub proof fn lemma_rm_insert_lookup(m: RankingModel, r: i64, h: HashWithTagV)
    requires
        rm_wf(m),
    ensures
        rm_lookup(rm_insert(m, r, h), r) == rm_lookup(m, r).push(h),
        forall|q: i64| q != r ==> rm_lookup(rm_insert(m, r, h), q) == rm_lookup(m, q),
    decreases m.len(),
{
    let res = rm_insert(m, r, h);
    let emp = Seq::<HashWithTagV>::empty();
    assert(rm_lookup(Seq::<(i64, Seq<HashWithTagV>)>::empty(), r) == emp);
    if m.len() == 0 {
        assert(res.drop_first() =~= Seq::<(i64, Seq<HashWithTagV>)>::empty());
        assert(rm_lookup(m, r) == emp);
        assert(rm_lookup(res, r) == seq![h]);
        assert(emp.push(h) =~= seq![h]);
        assert forall|q: i64| q != r implies rm_lookup(res, q) == rm_lookup(m, q) by {
            assert(rm_lookup(res.drop_first(), q) == emp);
        }
    } else if r < m[0].0 {
        assert(res.drop_first() =~= m);
        lemma_rm_lookup_absent_below(m, r);
        assert(rm_lookup(res, r) == seq![h]);
        assert(rm_lookup(m, r).push(h) =~= seq![h]);
        assert forall|q: i64| q != r implies rm_lookup(res, q) == rm_lookup(m, q) by {
            assert(rm_lookup(res, q) == rm_lookup(res.drop_first(), q));
        }
    } else if r == m[0].0 {
        assert(res.drop_first() =~= m.drop_first());
        assert(rm_lookup(res, r) == res[0].1);
        assert forall|q: i64| q != r implies rm_lookup(res, q) == rm_lookup(m, q) by {
            assert(rm_lookup(res, q) == rm_lookup(res.drop_first(), q));
            assert(rm_lookup(m, q) == rm_lookup(m.drop_first(), q));
        }
    } else {
        let rest = m.drop_first();
        assert(rm_wf(rest));
        lemma_rm_insert_lookup(rest, r, h);
        assert(res.drop_first() =~= rm_insert(rest, r, h));
        assert(res[0] == m[0]);
        assert(rm_lookup(res, r) == rm_lookup(rm_insert(rest, r, h), r));
        assert(rm_lookup(m, r) == rm_lookup(rest, r));
        assert forall|q: i64| q != r implies rm_lookup(res, q) == rm_lookup(m, q) by {
            if q == m[0].0 {
                assert(rm_lookup(res, q) == res[0].1);
                assert(rm_lookup(m, q) == m[0].1);
            } else {
                assert(rm_lookup(res, q) == rm_lookup(rm_insert(rest, r, h), q));
                assert(rm_lookup(m, q) == rm_lookup(rest, q));
            }
        }
    }
}

/// In a sorted result every key is at least the first key, so a key below
/// the first is absent.
proof fn lemma_rm_lookup_absent_below(m: RankingModel, r: i64)
    requires
        rm_wf(m),
        m.len() == 0 || r < m[0].0,
    ensures
        rm_lookup(m, r) == Seq::<HashWithTagV>::empty(),
    decreases m.len(),
{
    if m.len() > 0 {
        assert(rm_wf(m.drop_first()));
        assert(m.len() > 1 ==> m.drop_first()[0] == m[1]);
        lemma_rm_lookup_absent_below(m.drop_first(), r);
    }
}

/// Inserting grows the total entry count by exactly one.
pub proof fn lemma_rm_insert_total(m: RankingModel, r: i64, h: HashWithTagV)
    ensures
        rm_total(rm_insert(m, r, h)) == rm_total(m) + 1,
    decreases m.len(),
{
    let res = rm_insert(m, r, h);
    assert(rm_total(Seq::<(i64, Seq<HashWithTagV>)>::empty()) == 0);
    if m.len() == 0 {
        assert(res.drop_first() =~= Seq::<(i64, Seq<HashWithTagV>)>::empty());
        assert(rm_total(res) == res[0].1.len() + 0);
    } else if r < m[0].0 {
        assert(res.drop_first() =~= m);
        assert(rm_total(res) == res[0].1.len() + rm_total(m));
    } else if r == m[0].0 {
        assert(res.drop_first() =~= m.drop_first());
        assert(rm_total(res) == res[0].1.len() + rm_total(m.drop_first()));
        assert(rm_total(m) == m[0].1.len() + rm_total(m.drop_first()));
    } else {
        lemma_rm_insert_total(m.drop_first(), r, h);
        assert(res.drop_first() =~= rm_insert(m.drop_first(), r, h));
        assert(res[0] == m[0]);
        assert(rm_total(res) == m[0].1.len() + rm_total(rm_insert(m.drop_first(), r, h)));
        assert(rm_total(m) == m[0].1.len() + rm_total(m.drop_first()));
    }
}

/// Where the scan for `r`'s place stops in a sorted result, the recursive
/// insertion acts: appending into the group at `p` when the key matches,
/// else splicing a fresh group in at `p`.
proof fn lemma_rm_insert_at(m: RankingModel, r: i64, h: HashWithTagV, p: int)
    requires
        0 <= p <= m.len(),
        forall|k: int| 0 <= k < p ==> m[k].0 < r,
        p == m.len() || m[p as int].0 >= r,
    ensures
        rm_insert(m, r, h) == if p < m.len() && m[p].0 == r {
            m.update(p, (r, m[p].1.push(h)))
        } else {
            m.take(p) + seq![(r, seq![h])] + m.skip(p)
        },
    decreases m.len(),
{
    if p == 0 {
        if m.len() == 0 {
            assert(rm_insert(m, r, h) =~= m.take(0) + seq![(r, seq![h])] + m.skip(0));
        } else if m[0].0 == r {
            assert(rm_insert(m, r, h) =~= m.update(0, (r, m[0].1.push(h))));
        } else {
            assert(r < m[0].0);
            assert(rm_insert(m, r, h) =~= m.take(0) + seq![(r, seq![h])] + m.skip(0));
        }
    } else {
        let rest = m.drop_first();
        lemma_rm_insert_at(rest, r, h, p - 1);
        if p < m.len() && m[p].0 == r {
            assert(rest.update(p - 1, (r, rest[p - 1].1.push(h))) =~= m.update(
                p,
                (r, m[p].1.push(h)),
            ).drop_first());
            assert(rm_insert(m, r, h) =~= m.update(p, (r, m[p].1.push(h))));
        } else {
            assert(rest.take(p - 1) =~= m.take(p).drop_first());
            assert(rest.skip(p - 1) =~= m.skip(p));
            assert(rm_insert(m, r, h) =~= m.take(p) + seq![(r, seq![h])] + m.skip(p));
        }
    }
}

/// An ordered mapping from ranking to the entries sharing that ranking.
pub struct Ranking {
    entries: Vec<(i64, Vec<HashWithTag>)>,
}

impl View for Ranking {
    type V = RankingModel;

    closed spec fn view(&self) -> RankingModel {
        self.entries@.map_values(|p: (i64, Vec<HashWithTag>)| (p.0, spec_group(p.1@)))
    }
}

impl Ranking {
    /// Well formed: see [`rm_wf`].
    pub open spec fn wf(&self) -> bool {
        rm_wf(self@)
    }

    /// An empty result.
    pub fn new() -> (r: Ranking)
        ensures
            r@ == Seq::<(i64, Seq<HashWithTagV>)>::empty(),
            r.wf(),
    {
        let r = Ranking { entries: Vec::new() };
        proof {
            assert(r@ =~= Seq::<(i64, Seq<HashWithTagV>)>::empty());
        }
        r
    }

    /// How many distinct rankings the result holds.
    pub fn len(&self) -> (n: usize)
        ensures
            n == self@.len(),
    {
        self.entries.len()
    }

    /// The `i`th smallest ranking present.
    pub fn key_at(&self, i: usize) -> (k: i64)
        requires
            i < self@.len(),
        ensures
            k == self@[i as int].0,
    {
        self.entries[i].0
    }

    /// The entries filed under the `i`th smallest ranking.
    pub fn group_at(&self, i: usize) -> (g: &Vec<HashWithTag>)
        requires
            i < self@.len(),
        ensures
            spec_group(g@) == self@[i as int].1,
    {
        &self.entries[i].1
    }

    /// The entries filed under `ranking`, when that key is present.
    pub fn get(&self, ranking: i64) -> (g: Option<&Vec<HashWithTag>>)
        requires
            self.wf(),
        ensures
            match g {
                Some(v) => spec_group(v@) == rm_lookup(self@, ranking) && v@.len() >= 1,
                None => rm_lookup(self@, ranking) == Seq::<HashWithTagV>::empty(),
            },
    {
        let n = self.entries.len();
        let mut i: usize = 0;
        while i < n
            invariant
                0 <= i <= n,
                n == self@.len(),
                self.wf(),
                forall|k: int| 0 <= k < i ==> self@[k].0 != ranking,
            decreases n - i,
        {
            let key = self.entries[i].0;
            if key == ranking {
                proof {
                    lemma_rm_lookup_at(self@, ranking, i as int);
                    assert(self@[i as int] == (self.entries@[i as int].0, spec_group(
                        self.entries@[i as int].1@,
                    )));
                    assert(self@[i as int].1.len() >= 1);
                }
                return Some(&self.entries[i].1);
            }
            i = i + 1;
        }
        proof {
            lemma_rm_lookup_absent(self@, ranking);
        }
        None
    }

    /// Files one entry under `ranking`.
    pub fn push_entry(&mut self, ranking: i64, item: HashWithTag)
        requires
            old(self).wf(),
        ensures
            final(self)@ == rm_insert(old(self)@, ranking, item@),
            final(self).wf(),
    {
        proof {
            lemma_rm_insert_wf(old(self)@, ranking, item@);
        }
        let n = self.entries.len();
        let mut idx: usize = 0;
        while idx < n && self.entries[idx].0 < ranking
            invariant
                0 <= idx <= n,
                n == self@.len(),
                *self == *old(self),
                forall|k: int| 0 <= k < idx ==> self@[k].0 < ranking,
            decreases n - idx,
        {
            idx = idx + 1;
        }
        proof {
            lemma_rm_insert_at(self@, ranking, item@, idx as int);
        }
        if idx < n && self.entries[idx].0 == ranking {
            let mut g = self.entries.remove(idx);
            g.1.push(item);
            self.entries.insert(idx, g);
            proof {
                assert(self@ =~~= rm_insert(old(self)@, ranking, item@));
            }
        } else {
            let mut single: Vec<HashWithTag> = Vec::new();
            single.push(item);
            proof {
                assert(spec_group(single@) =~= seq![item@]);
            }
            self.entries.insert(idx, (ranking, single));
            proof {
                assert(self@ =~~= rm_insert(old(self)@, ranking, item@));
            }
        }
    }
}

/// In a sorted result, the group at the index where `r` sits is what lookup
/// returns.
proof fn lemma_rm_lookup_at(m: RankingModel, r: i64, i: int)
    requires
        rm_wf(m),
        0 <= i < m.len(),
        m[i].0 == r,
    ensures
        rm_lookup(m, r) == m[i].1,
    decreases i,
{
    if i > 0 {
        assert(rm_wf(m.drop_first()));
        assert(m[0].0 < r);
        lemma_rm_lookup_at(m.drop_first(), r, i - 1);
    }
}

/// A key no index carries is absent.
proof fn lemma_rm_lookup_absent(m: RankingModel, r: i64)
    requires
        forall|k: int| 0 <= k < m.len() ==> m[k].0 != r,
    ensures
        rm_lookup(m, r) == Seq::<HashWithTagV>::empty(),
    decreases m.len(),
{
    if m.len() > 0 {
        assert(forall|k: int|
            0 <= k < m.drop_first().len() ==> m.drop_first()[k] == m[k + 1]);
        lemma_rm_lookup_absent(m.drop_first(), r);
    }
}

/// The total number of entries in `ranking`, over all keys, capped at
/// `usize::MAX` (a count that large cannot be reached by values held in
/// memory, but the cap is what the code guarantees).
pub fn ranking_len(ranking: &Ranking) -> (n: usize)
    ensures
        n == if rm_total(ranking@) <= usize::MAX {
            rm_total(ranking@) as int
        } else {
            usize::MAX as int
        },
{
    let m = ranking.len();
    let mut n: usize = 0;
    let mut i: usize = 0;
    while i < m
        invariant
            0 <= i <= m,
            m == ranking@.len(),
            n == if rm_total(ranking@.take(i as int)) <= usize::MAX {
                rm_total(ranking@.take(i as int)) as int
            } else {
                usize::MAX as int
            },
        decreases m - i,
    {
        proof {
            assert(ranking@.take(i + 1).drop_last() =~= ranking@.take(i as int));
            lemma_rm_total_push(ranking@.take(i as int), ranking@[i as int]);
            assert(ranking@.take(i + 1) =~= ranking@.take(i as int).push(ranking@[i as int]));
        }
        let g = ranking.group_at(i);
        n = n.saturating_add(g.len());
        i = i + 1;
    }
    proof {
        assert(ranking@.take(m as int) =~= ranking@);
    }
    n
}

/// Appending one group adds its size to the total.
proof fn lemma_rm_total_push(m: RankingModel, g: (i64, Seq<HashWithTagV>))
    ensures
        rm_total(m.push(g)) == rm_total(m) + g.1.len(),
    decreases m.len(),
{
    assert(rm_total(Seq::<(i64, Seq<HashWithTagV>)>::empty()) == 0);
    if m.len() == 0 {
        assert(m.push(g).drop_first() =~= Seq::<(i64, Seq<HashWithTagV>)>::empty());
        assert(rm_total(m.push(g)) == g.1.len() + 0);
    } else {
        assert(m.push(g).drop_first() =~= m.drop_first().push(g));
        lemma_rm_total_push(m.drop_first(), g);
        assert(m.push(g)[0] == m[0]);
        assert(rm_total(m.push(g)) == m[0].1.len() + rm_total(m.drop_first().push(g)));
    }
}

} // verus!
