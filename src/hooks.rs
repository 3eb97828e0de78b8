//! The per-tick sweep: concluded nominations and proposals leave the stores
//! at the start of the next tick, so that no operation has to scan history.
use vstd::prelude::*;

use crate::pallet::{nomination_key, nomination_wf, proposal_key, proposal_wf, Pallet, PalletView};
use crate::seqs::{lemma_filter_all, lemma_filter_distinct};
use crate::types::{
    AccountId, BlockNumber, ExpulsionProposal, ExpulsionProposalView, Nomination, NominationView,
    RosterId,
};

verus! {

/// The nominations whose key is not among `concluded`.
pub open spec fn nominations_kept(s: Seq<NominationView>, concluded: Seq<(AccountId, RosterId)>) -> Seq<
    NominationView,
> {
    s.filter(|n: NominationView| !concluded.contains((n.nominee, n.roster)))
}

/// The proposals whose key is not among `concluded`.
pub open spec fn proposals_kept(
    s: Seq<ExpulsionProposalView>,
    concluded: Seq<(RosterId, AccountId, AccountId)>,
) -> Seq<ExpulsionProposalView> {
    s.filter(|p: ExpulsionProposalView| !concluded.contains((p.roster, p.motioner, p.subject)))
}

impl PalletView {
    /// The state at the start of tick `n`: the clock reads `n`, and every
    /// concluded nomination and proposal has left its store.
    pub open spec fn on_initialize_post(self, n: BlockNumber) -> PalletView {
        PalletView {
            block_number: n,
            nominations: nominations_kept(self.nominations, self.concluded_nominations),
            concluded_nominations: Seq::empty(),
            expulsion_proposals: proposals_kept(
                self.expulsion_proposals,
                self.concluded_expulsion_proposals,
            ),
            concluded_expulsion_proposals: Seq::empty(),
            ..self
        }
    }
}

fn lists_nomination(list: &Vec<(AccountId, RosterId)>, key: (AccountId, RosterId)) -> (r: bool)
    ensures
        r == list@.contains(key),
{
    let mut i: usize = 0;
    while i < list.len()
        invariant
            i <= list@.len(),
            forall|j: int| 0 <= j < i ==> list@[j] != key,
        decreases list@.len() - i,
    {
        if list[i].0 == key.0 && list[i].1 == key.1 {
            return true;
        }
        i = i + 1;
    }
    false
}

fn lists_proposal(list: &Vec<(RosterId, AccountId, AccountId)>, key: (RosterId, AccountId, AccountId)) -> (r:
    bool)
    ensures
        r == list@.contains(key),
{
    let mut i: usize = 0;
    while i < list.len()
        invariant
            i <= list@.len(),
            forall|j: int| 0 <= j < i ==> list@[j] != key,
        decreases list@.len() - i,
    {
        if list[i].0 == key.0 && list[i].1 == key.1 && list[i].2 == key.2 {
            return true;
        }
        i = i + 1;
    }
    false
}

impl Pallet {
    /// Sets the clock.
    pub fn set_block_number(&mut self, n: BlockNumber)
        ensures
            final(self)@ == (PalletView { block_number: n, ..old(self)@ }),
    {
        self.block_number = n;
    }

    /// Starts tick `n`: sets the clock and removes every concluded nomination
    /// and proposal from its store. Safe to run with nothing pending.
    pub fn on_initialize(&mut self, n: BlockNumber)
        ensures
            final(self)@ == old(self)@.on_initialize_post(n),
            old(self)@.wf() ==> final(self)@.wf(),
    {
        self.block_number = n;
        let mut concluded: Vec<(AccountId, RosterId)> = Vec::new();
        std::mem::swap(&mut concluded, &mut self.concluded_nominations);
        let mut rest: Vec<Nomination> = Vec::new();
        std::mem::swap(&mut rest, &mut self.nominations);
        let total = rest.len();
        let ghost all = rest@.map_values(|x: Nomination| x@);
        let ghost count = total as nat;
        let ghost mid = self@;
        let mut k: usize = 0;
        while rest.len() > 0
            invariant
                all.len() == count,
                count <= usize::MAX,
                k + rest@.len() == count,
                rest@.map_values(|x: Nomination| x@) == all.skip(k as int),
                self@ == (PalletView { nominations: self@.nominations, ..mid }),
                self@.nominations == nominations_kept(all.take(k as int), concluded@),
            decreases rest@.len(),
        {
            let ghost before = rest@;
            let x = rest.remove(0);
            proof {
                reveal(Seq::filter);
                assert(all.take(k as int + 1).drop_last() =~= all.take(k as int));
                assert(x@ == before.map_values(|x: Nomination| x@)[0]);
                assert(all[k as int] == all.skip(k as int)[0]);
                assert forall|j: int| 0 <= j < rest@.len() implies (#[trigger] rest@[j])@ == all[k
                    + 1 + j] by {
                    assert(rest@[j] == before[j + 1]);
                    assert(before.map_values(|x: Nomination| x@)[j + 1] == all.skip(k as int)[j + 1]);
                }
                assert(rest@.map_values(|x: Nomination| x@) =~= all.skip(k as int + 1));
            }
            if !lists_nomination(&concluded, (x.nominee, x.roster)) {
                self.nominations.push(x);
            }
            proof {
                assert(self@.nominations =~= nominations_kept(all.take(k as int + 1), concluded@));
            }
            k = k + 1;
        }
        assert(all.take(count as int) =~= all);
        let mut concluded: Vec<(RosterId, AccountId, AccountId)> = Vec::new();
        std::mem::swap(&mut concluded, &mut self.concluded_expulsion_proposals);
        let mut rest: Vec<ExpulsionProposal> = Vec::new();
        std::mem::swap(&mut rest, &mut self.expulsion_proposals);
        let total = rest.len();
        let ghost all = rest@.map_values(|p: ExpulsionProposal| p@);
        let ghost count = total as nat;
        let ghost mid = self@;
        let mut k: usize = 0;
        while rest.len() > 0
            invariant
                all.len() == count,
                count <= usize::MAX,
                k + rest@.len() == count,
                rest@.map_values(|p: ExpulsionProposal| p@) == all.skip(k as int),
                self@ == (PalletView { expulsion_proposals: self@.expulsion_proposals, ..mid }),
                self@.expulsion_proposals == proposals_kept(all.take(k as int), concluded@),
            decreases rest@.len(),
        {
            let ghost before = rest@;
            let p = rest.remove(0);
            proof {
                reveal(Seq::filter);
                assert(all.take(k as int + 1).drop_last() =~= all.take(k as int));
                assert(p@ == before.map_values(|p: ExpulsionProposal| p@)[0]);
                assert(all[k as int] == all.skip(k as int)[0]);
                assert forall|j: int| 0 <= j < rest@.len() implies (#[trigger] rest@[j])@ == all[k
                    + 1 + j] by {
                    assert(rest@[j] == before[j + 1]);
                    assert(before.map_values(|p: ExpulsionProposal| p@)[j + 1] == all.skip(
                        k as int,
                    )[j + 1]);
                }
                assert(rest@.map_values(|p: ExpulsionProposal| p@) =~= all.skip(k as int + 1));
            }
            if !lists_proposal(&concluded, (p.roster, p.motioner, p.subject)) {
                self.expulsion_proposals.push(p);
            }
            proof {
                assert(self@.expulsion_proposals =~= proposals_kept(all.take(k as int + 1), concluded@));
            }
            k = k + 1;
        }
        assert(all.take(count as int) =~= all);
        proof {
            if old(self)@.wf() {
                lemma_filter_all(
                    old(self)@.nominations,
                    |x: NominationView| !old(self)@.concluded_nominations.contains((x.nominee, x.roster)),
                    |x: NominationView|
                        nomination_wf(x) && x.votes.len() <= old(self)@.config.nomination_votes_max,
                );
                lemma_filter_all(
                    old(self)@.expulsion_proposals,
                    |p: ExpulsionProposalView|
                        !old(self)@.concluded_expulsion_proposals.contains((p.roster, p.motioner, p.subject)),
                    |p: ExpulsionProposalView|
                        proposal_wf(p) && p.votes.len()
                            <= old(self)@.config.expulsion_proposal_votes_max,
                );
                lemma_filter_distinct(
                    old(self)@.nominations,
                    |x: NominationView| !old(self)@.concluded_nominations.contains((x.nominee, x.roster)),
                    |x: NominationView| nomination_key(x),
                );
                lemma_filter_distinct(
                    old(self)@.expulsion_proposals,
                    |p: ExpulsionProposalView|
                        !old(self)@.concluded_expulsion_proposals.contains((p.roster, p.motioner, p.subject)),
                    |p: ExpulsionProposalView| proposal_key(p),
                );
            }
        }
        assert(self@.concluded_nominations =~= Seq::<(AccountId, RosterId)>::empty());
        assert(self@.concluded_expulsion_proposals =~= Seq::<(RosterId, AccountId, AccountId)>::empty());
    }
}

} // verus!
