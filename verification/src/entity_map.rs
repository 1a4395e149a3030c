//! Bidirectional map between local entity identifiers and the identifiers
//! the remote end uses for the same entities. Lookups that find nothing
//! return `None`, never fail.

use vstd::prelude::*;

verus! {

/// The remote identifier paired with `local`, searching pairs in order.
pub open spec fn spec_lookup_by_local(pairs: Seq<(u64, u64)>, local: u64) -> Option<u64>
    decreases pairs.len(),
{
    if pairs.len() == 0 {
        None
    } else if pairs[0].0 == local {
        Some(pairs[0].1)
    } else {
        spec_lookup_by_local(pairs.drop_first(), local)
    }
}

/// The local identifier paired with `remote`, searching pairs in order.
pub open spec fn spec_lookup_by_remote(pairs: Seq<(u64, u64)>, remote: u64) -> Option<u64>
    decreases pairs.len(),
{
    if pairs.len() == 0 {
        None
    } else if pairs[0].1 == remote {
        Some(pairs[0].0)
    } else {
        spec_lookup_by_remote(pairs.drop_first(), remote)
    }
}

/// Bidirectional `local <-> remote` identity map, as `(local, remote)`
/// pairs with each identifier appearing at most once on its side.
#[derive(Debug)]
pub struct EntityMap {
    pub pairs: Vec<(u64, u64)>,
}

impl EntityMap {
    pub open spec fn wf(self) -> bool {
        forall|i: int, j: int|
            0 <= i < j < self.pairs@.len()
                ==> (#[trigger] self.pairs@[i]).0 != (#[trigger] self.pairs@[j]).0
                    && self.pairs@[i].1 != self.pairs@[j].1
    }

    /// An empty map.
    pub fn new() -> (r: Self)
        ensures
            r.pairs@.len() == 0,
            r.wf(),
    {
        EntityMap { pairs: Vec::new() }
    }

    /// Records that `local` and `remote` name the same entity.
    pub fn insert(&mut self, local: u64, remote: u64)
        requires
            old(self).wf(),
            spec_lookup_by_local(old(self).pairs@, local) is None,
            spec_lookup_by_remote(old(self).pairs@, remote) is None,
        ensures
            final(self).pairs@ == old(self).pairs@.push((local, remote)),
            final(self).wf(),
    {
        proof {
            lemma_lookup_none_means_absent(self.pairs@, local, remote);
        }
        self.pairs.push((local, remote));
    }

    /// The identifier the remote end uses for local entity `local`.
    #[verifier::loop_isolation(false)]
    pub fn get_remote(&self, local: u64) -> (r: Option<u64>)
        ensures
            r == spec_lookup_by_local(self.pairs@, local),
    {
        let n = self.pairs.len();
        proof {
            assert(self.pairs@.skip(0) =~= self.pairs@);
        }
        let mut i: usize = 0;
        while i < n
            invariant
                i <= n,
                spec_lookup_by_local(self.pairs@, local)
                    == spec_lookup_by_local(self.pairs@.skip(i as int), local),
                forall|k: int| 0 <= k < i ==> (#[trigger] self.pairs@[k]).0 != local,
            decreases n - i,
        {
            proof {
                assert(self.pairs@.skip(i as int)[0] == self.pairs@[i as int]);
                assert(self.pairs@.skip(i as int).drop_first() =~= self.pairs@.skip(i + 1));
            }
            let pair = self.pairs[i];
            if pair.0 == local {
                return Some(pair.1);
            }
            i += 1;
        }
        proof {
            assert(self.pairs@.skip(n as int) =~= Seq::<(u64, u64)>::empty());
        }
        None
    }

    /// The local identifier for an entity the remote end calls `remote`.
    #[verifier::loop_isolation(false)]
    pub fn get_local(&self, remote: u64) -> (r: Option<u64>)
        ensures
            r == spec_lookup_by_remote(self.pairs@, remote),
    {
        let n = self.pairs.len();
        proof {
            assert(self.pairs@.skip(0) =~= self.pairs@);
        }
        let mut i: usize = 0;
        while i < n
            invariant
                i <= n,
                spec_lookup_by_remote(self.pairs@, remote)
                    == spec_lookup_by_remote(self.pairs@.skip(i as int), remote),
                forall|k: int| 0 <= k < i ==> (#[trigger] self.pairs@[k]).1 != remote,
            decreases n - i,
        {
            proof {
                assert(self.pairs@.skip(i as int)[0] == self.pairs@[i as int]);
                assert(self.pairs@.skip(i as int).drop_first() =~= self.pairs@.skip(i + 1));
            }
            let pair = self.pairs[i];
            if pair.1 == remote {
                return Some(pair.0);
            }
            i += 1;
        }
        proof {
            assert(self.pairs@.skip(n as int) =~= Seq::<(u64, u64)>::empty());
        }
        None
    }
}

/// A lookup that returns `None` really means no pair carries that
/// identifier, so pushing a fresh pair keeps identifiers unique.
proof fn lemma_lookup_none_means_absent(pairs: Seq<(u64, u64)>, local: u64, remote: u64)
    requires
        spec_lookup_by_local(pairs, local) is None,
        spec_lookup_by_remote(pairs, remote) is None,
    ensures
        forall|k: int|
            0 <= k < pairs.len()
                ==> (#[trigger] pairs[k]).0 != local && pairs[k].1 != remote,
    decreases pairs.len(),
{
    if pairs.len() > 0 {
        lemma_lookup_none_means_absent(pairs.drop_first(), local, remote);
        assert forall|k: int|
            0 <= k < pairs.len() implies (#[trigger] pairs[k]).0 != local
            && pairs[k].1 != remote by {
            if k > 0 {
                assert(pairs.drop_first()[k - 1] == pairs[k]);
            }
        }
    }
}

} // verus!
