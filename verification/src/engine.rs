//! The write side of the index.
//!
//! Creating an entry is: ensure the shard path for the ranking exists, then
//! create one edge from the shard node to the target, carrying the encoded
//! tag ([`crate::locator`] names the path, [`crate::codec`] encodes the
//! tag). Deleting is: list the shard's edges, keep the identifiers of every
//! edge pointing at the target, and delete each. This module holds the
//! deletion filter; the embedding application performs the substrate calls
//! around it.
use crate::locator::spec_leaves;
use crate::types::Link;
use crate::types::LinkV;
use crate::types::RankingIndex;
use vstd::prelude::*;

verus! {

/// The edge identifiers a delete removes: those of the links whose target
/// is the given one, in the order the substrate listed them.
pub open spec fn spec_links_to_delete(links: Seq<LinkV>, target: Seq<u8>) -> Seq<Seq<u8>>
    decreases links.len(),
{
    if links.len() == 0 {
        Seq::empty()
    } else {
        let rest = spec_links_to_delete(links.drop_first(), target);
        if links[0].target == target {
            seq![links[0].create_link_hash] + rest
        } else {
            rest
        }
    }
}

/// When no listed link points at the target, there is nothing to delete:
/// removing a pair that was never created touches no edge.
pub proof fn lemma_links_to_delete_none(links: Seq<LinkV>, target: Seq<u8>)
    requires
        forall|i: int| 0 <= i < links.len() ==> (#[trigger] links[i]).target != target,
    ensures
        spec_links_to_delete(links, target) == Seq::<Seq<u8>>::empty(),
    decreases links.len(),
{
    if links.len() > 0 {
        assert(forall|i: int|
            0 <= i < links.drop_first().len() ==> (#[trigger] links.drop_first()[i])
                == links[i + 1]);
        lemma_links_to_delete_none(links.drop_first(), target);
    }
}

/// Only edges pointing at the target are selected, and all of them are:
/// entries under any other target, and entries in any other shard, are left
/// standing.
pub proof fn lemma_links_to_delete_exact(links: Seq<LinkV>, target: Seq<u8>, i: int)
    requires
        0 <= i < links.len(),
        links[i].target == target,
    ensures
        spec_links_to_delete(links, target).contains(links[i].create_link_hash),
    decreases links.len(),
{
    if i == 0 {
        assert(spec_links_to_delete(links, target)[0] == links[0].create_link_hash);
    } else {
        lemma_links_to_delete_exact(links.drop_first(), target, i - 1);
        let rest = spec_links_to_delete(links.drop_first(), target);
        let j = choose|j: int| 0 <= j < rest.len() && rest[j] == links[i].create_link_hash;
        if links[0].target == target {
            assert(spec_links_to_delete(links, target)[j + 1] == links[i].create_link_hash);
        }
    }
}

impl RankingIndex {
    /// The identifiers of the edges a delete must remove from a shard:
    /// exactly those of the listed links whose target equals `hash`, in
    /// listing order. Deleting a pair that was never created selects no
    /// edge at all, so such a delete is a harmless no-op.
    pub fn links_to_delete(&self, links: &Vec<Link>, hash: &Vec<u8>) -> (ids: Vec<Vec<u8>>)
        ensures
            spec_leaves(ids@) == spec_links_to_delete(crate::query::spec_links(links@), hash@),
    {
        let ghost lv = crate::query::spec_links(links@);
        let n = links.len();
        let mut ids: Vec<Vec<u8>> = Vec::new();
        let mut i: usize = 0;
        proof {
            assert(spec_leaves(ids@) =~= Seq::<Seq<u8>>::empty());
            assert(lv.skip(0) =~= lv);
        }
        while i < n
            invariant
                0 <= i <= n,
                n == links@.len(),
                lv == crate::query::spec_links(links@),
                spec_leaves(ids@) + spec_links_to_delete(lv.skip(i as int), hash@)
                    == spec_links_to_delete(lv, hash@),
            decreases n - i,
        {
            let ghost before = spec_leaves(ids@);
            let ghost suffix = lv.skip(i as int);
            proof {
                assert(lv[i as int] == links@[i as int]@);
                assert(suffix[0] == lv[i as int]);
                assert(suffix.drop_first() =~= lv.skip(i + 1));
            }
            if vecs_equal(&links[i].target, hash) {
                ids.push(links[i].create_link_hash.clone());
                proof {
                    assert(spec_leaves(ids@) =~= before.push(lv[i as int].create_link_hash));
                    assert(spec_links_to_delete(suffix, hash@) == seq![
                        lv[i as int].create_link_hash,
                    ] + spec_links_to_delete(lv.skip(i + 1), hash@));
                    assert(before.push(lv[i as int].create_link_hash) + spec_links_to_delete(
                        lv.skip(i + 1),
                        hash@,
                    ) =~= before + spec_links_to_delete(suffix, hash@));
                }
            } else {
                proof {
                    assert(spec_links_to_delete(suffix, hash@) == spec_links_to_delete(
                        lv.skip(i + 1),
                        hash@,
                    ));
                }
            }
            i = i + 1;
        }
        proof {
            assert(lv.skip(n as int) =~= Seq::<LinkV>::empty());
            assert(spec_links_to_delete(Seq::<LinkV>::empty(), hash@) == Seq::<Seq<u8>>::empty());
            assert(spec_leaves(ids@) + Seq::<Seq<u8>>::empty() =~= spec_leaves(ids@));
        }
        ids
    }
}

/// Byte-for-byte equality of two buffers.
fn vecs_equal(a: &Vec<u8>, b: &Vec<u8>) -> (eq: bool)
    ensures
        eq == (a@ == b@),
{
    if a.len() != b.len() {
        return false;
    }
    let n = a.len();
    let mut i: usize = 0;
    while i < n
        invariant
            0 <= i <= n,
            n == a@.len(),
            n == b@.len(),
            forall|k: int| 0 <= k < i ==> a@[k] == b@[k],
        decreases n - i,
    {
        if a[i] != b[i] {
            return false;
        }
        i = i + 1;
    }
    proof {
        assert(a@ =~= b@);
    }
    true
}

} // verus!
