//! The roster registry: creating rosters, switching them on and off, and
//! removing them.
use vstd::prelude::*;

use crate::identity::roster_id_of;
use crate::pallet::{
    nomination_wf, proposal_key, proposal_wf, roster_with, roster_wf, Pallet,
    PalletView,
};
use crate::expulsions::lemma_dismiss_all_frame;
use crate::nominations::lemma_reject_all_frame;
use crate::seqs::{copy_pairs, lemma_filter_all, lemma_filter_distinct, lemma_last_index};
use crate::types::{
    AccountId, Error, Event, EventView, ExpulsionProposal, ExpulsionProposalView, ReservedCurrencyReason,
    Roster, RosterId, RosterStatus, RosterView,
};

verus! {

impl PalletView {
    /// Why `founder` cannot create a roster titled `title`, if it cannot.
    pub open spec fn roster_new_error(self, founder: AccountId, title: Seq<u8>) -> Option<Error> {
        let id = roster_id_of(founder, title);
        if title.len() > self.config.title_max_length {
            Some(Error::InvalidRosterTitle)
        } else if self.has_roster(id) {
            Some(Error::RosterExists)
        } else if !self.ledger.can_reserve(
            self.name(ReservedCurrencyReason::NewRoster(id)),
            founder,
            self.config.new_roster_deposit,
        ) {
            Some(Error::InsufficientFunds)
        } else if self.config.members_max < 1 {
            Some(Error::CouldNotAddMember)
        } else {
            None
        }
    }

    /// The state after `founder` created a roster titled `title`: the creation
    /// deposit is reserved and the founder is the roster's only member.
    pub open spec fn roster_new_post(self, founder: AccountId, title: Seq<u8>) -> PalletView {
        let id = roster_id_of(founder, title);
        PalletView {
            rosters: self.rosters.push(
                RosterView {
                    id,
                    founder,
                    title,
                    members: seq![founder],
                    nominations: Seq::empty(),
                    expulsion_proposals: Seq::empty(),
                    founded_on: self.block_number,
                    status: RosterStatus::Active,
                },
            ),
            ledger: self.ledger.reserve(
                self.name(ReservedCurrencyReason::NewRoster(id)),
                founder,
                self.config.new_roster_deposit,
            ),
            events: self.events.push(EventView::NewRoster { founder, title, roster_id: id }),
            ..self
        }
    }

    /// Why `caller` cannot set the status of roster `id` to `status`, if it cannot.
    pub open spec fn status_change_error(self, caller: AccountId, id: RosterId, status: RosterStatus) -> Option<
        Error,
    > {
        if !self.has_roster(id) {
            Some(Error::RosterDoesNotExist)
        } else if self.roster(id).founder != caller {
            Some(Error::PermissionDenied)
        } else if self.roster(id).status == status {
            Some(
                match status {
                    RosterStatus::Active => Error::RosterActive,
                    RosterStatus::Inactive => Error::RosterNotActive,
                },
            )
        } else {
            None
        }
    }

    /// The state after `caller` activated roster `id`.
    pub open spec fn roster_activate_post(self, caller: AccountId, id: RosterId) -> PalletView {
        PalletView {
            events: self.events.push(
                EventView::RosterStatusChanged {
                    changed_by: caller,
                    roster_id: id,
                    new_status: RosterStatus::Active,
                },
            ),
            ..self.with_roster(id, RosterView { status: RosterStatus::Active, ..self.roster(id) })
        }
    }
}

/// The proposals that belong to roster `id`.
pub open spec fn proposals_of(s: Seq<ExpulsionProposalView>, id: RosterId) -> Seq<ExpulsionProposalView> {
    s.filter(|p: ExpulsionProposalView| p.roster == id)
}

/// The proposals that belong to other rosters than `id`.
pub open spec fn proposals_not_of(s: Seq<ExpulsionProposalView>, id: RosterId) -> Seq<ExpulsionProposalView> {
    s.filter(|p: ExpulsionProposalView| p.roster != id)
}

impl PalletView {
    /// Why `caller` cannot deactivate roster `id`, if it cannot.
    pub open spec fn roster_deactivate_error(self, caller: AccountId, id: RosterId) -> Option<Error> {
        let r = self.roster(id);
        if self.status_change_error(caller, id, RosterStatus::Inactive) is Some {
            self.status_change_error(caller, id, RosterStatus::Inactive)
        } else if exists|k: int|
            0 <= k < r.nominations.len() && !self.has_nomination(#[trigger] r.nominations[k], id) {
            Some(Error::NominationDoesNotExist)
        } else if self.concluded_nominations.len() + r.nominations.len()
            > self.config.concluded_nominations_max {
            Some(Error::CouldNotAddToConcluded)
        } else if exists|k: int|
            0 <= k < r.expulsion_proposals.len() && !self.has_proposal(
                id,
                (#[trigger] r.expulsion_proposals[k]).0,
                r.expulsion_proposals[k].1,
            ) {
            Some(Error::ExpulsionProposalDoesNotExist)
        } else if self.concluded_expulsion_proposals.len() + r.expulsion_proposals.len()
            > self.config.concluded_expulsion_proposals_max {
            Some(Error::CouldNotAddToConcluded)
        } else {
            None
        }
    }

    /// The state after `caller` deactivated roster `id`: the roster is
    /// inactive and holds no references any more; each nomination it
    /// referenced is rejected (its deposit released) and each proposal it
    /// referenced is dismissed (its deposit kept in reserve), in order.
    pub open spec fn roster_deactivate_post(self, caller: AccountId, id: RosterId) -> PalletView {
        let r = self.roster(id);
        let switched = PalletView {
            events: self.events.push(
                EventView::RosterStatusChanged {
                    changed_by: caller,
                    roster_id: id,
                    new_status: RosterStatus::Inactive,
                },
            ),
            ..self.with_roster(
                id,
                RosterView {
                    status: RosterStatus::Inactive,
                    nominations: Seq::empty(),
                    expulsion_proposals: Seq::empty(),
                    ..r
                },
            )
        };
        switched.reject_nominations(caller, id, r.nominations).dismiss_proposals(
            caller,
            id,
            r.expulsion_proposals,
        )
    }

    /// Why `caller` cannot remove roster `id`, if it cannot.
    pub open spec fn roster_remove_error(self, caller: AccountId, id: RosterId) -> Option<Error> {
        if !self.has_roster(id) {
            Some(Error::RosterDoesNotExist)
        } else if self.roster(id).founder != caller {
            Some(Error::PermissionDenied)
        } else if self.roster(id).status == RosterStatus::Active {
            Some(Error::RosterActive)
        } else if proposals_of(self.expulsion_proposals, id).len()
            > self.config.expulsion_proposals_per_roster_max {
            Some(Error::CouldNotRemoveAllExpulsionProposals)
        } else {
            None
        }
    }

    /// The state after `caller` removed roster `id`: the roster and every
    /// proposal of it are gone, and the creation deposit is released.
    pub open spec fn roster_remove_post(self, caller: AccountId, id: RosterId) -> PalletView {
        PalletView {
            rosters: self.rosters.remove(self.roster_index(id)),
            expulsion_proposals: proposals_not_of(self.expulsion_proposals, id),
            ledger: self.ledger.unreserve(
                self.name(ReservedCurrencyReason::NewRoster(id)),
                self.roster(id).founder,
                self.config.new_roster_deposit,
            ),
            events: self.events.push(EventView::RosterRemoved { removed_by: caller, roster_id: id }),
            ..self
        }
    }
}

impl Pallet {
    /// Creates a roster founded by `founder` under `title`.
    pub fn roster_new(&mut self, founder: AccountId, title: Vec<u8>) -> (r: Result<(), Error>)
        ensures
            match r {
                Ok(()) => old(self)@.roster_new_error(founder, title@) is None && final(self)@
                    == old(self)@.roster_new_post(founder, title@),
                Err(e) => old(self)@.roster_new_error(founder, title@) == Some(e) && final(self)@
                    == old(self)@,
            },
            old(self)@.wf() ==> final(self)@.wf(),
    {
        if title.len() as u64 > self.config.title_max_length as u64 {
            return Err(Error::InvalidRosterTitle);
        }
        let id = RosterId::from_tuple(founder, &title);
        if self.find_roster(id).is_some() {
            return Err(Error::RosterExists);
        }
        let name = self.reserved_currency_name(ReservedCurrencyReason::NewRoster(id));
        let deposit = self.config.new_roster_deposit;
        if !self.ledger.can_reserve(&name, founder, deposit) {
            return Err(Error::InsufficientFunds);
        }
        if self.config.members_max < 1 {
            return Err(Error::CouldNotAddMember);
        }
        let reserved = self.ledger.reserve_named(&name, founder, deposit);
        assert(reserved is Ok);
        let announced = title.clone();
        assert(announced@ =~= title@);
        let roster = Roster::new(id, founder, title, self.block_number);
        self.rosters.push(roster);
        self.emit(Event::NewRoster { founder, title: announced, roster_id: id });
        assert(self@.rosters =~= old(self)@.roster_new_post(founder, title@).rosters);
        proof {
            if old(self)@.wf() {
                lemma_last_index(old(self)@.rosters, roster_with(id));
                assert forall|a: int, b: int| 0 <= a < b < self@.rosters.len() implies (
                #[trigger] self@.rosters[a]).id != (#[trigger] self@.rosters[b]).id by {
                    if b == self@.rosters.len() - 1 {
                        assert(!roster_with(id)(old(self)@.rosters[a]));
                    } else {
                        assert(self@.rosters[a] == old(self)@.rosters[a]);
                        assert(self@.rosters[b] == old(self)@.rosters[b]);
                    }
                }
                assert forall|i: int| 0 <= i < self@.rosters.len() implies roster_wf(
                    #[trigger] self@.rosters[i],
                ) by {
                    if i == self@.rosters.len() - 1 {
                        assert(self@.rosters[i].members[0] == founder);
                    } else {
                        assert(self@.rosters[i] == old(self)@.rosters[i]);
                    }
                }
            }
        }
        Ok(())
    }

    /// Sets the status of roster `id`, which `caller` must have founded.
    fn update_roster_status(&mut self, caller: AccountId, id: RosterId, status: RosterStatus) -> (r:
        Result<usize, Error>)
        ensures
            match r {
                Ok(i) => old(self)@.status_change_error(caller, id, status) is None && i as int
                    == old(self)@.roster_index(id) && i < old(self)@.rosters.len() && final(self)@
                    == old(self)@.with_roster(
                    id,
                    RosterView { status, ..old(self)@.roster(id) },
                ),
                Err(e) => old(self)@.status_change_error(caller, id, status) == Some(e)
                    && final(self)@ == old(self)@,
            },
    {
        let i = match self.find_roster(id) {
            Some(i) => i,
            None => return Err(Error::RosterDoesNotExist),
        };
        if self.rosters[i].founder != caller {
            return Err(Error::PermissionDenied);
        }
        if self.rosters[i].status == status {
            return Err(
                match status {
                    RosterStatus::Active => Error::RosterActive,
                    RosterStatus::Inactive => Error::RosterNotActive,
                },
            );
        }
        self.rosters[i].status = status;
        assert(self@.rosters =~= old(self)@.rosters.update(
            i as int,
            RosterView { status, ..old(self)@.roster(id) },
        ));
        Ok(i)
    }

    /// Activates roster `id`; only its founder may.
    pub fn roster_activate(&mut self, caller: AccountId, id: RosterId) -> (r: Result<(), Error>)
        ensures
            match r {
                Ok(()) => old(self)@.status_change_error(caller, id, RosterStatus::Active) is None
                    && final(self)@ == old(self)@.roster_activate_post(caller, id),
                Err(e) => old(self)@.status_change_error(caller, id, RosterStatus::Active) == Some(
                    e,
                ) && final(self)@ == old(self)@,
            },
            old(self)@.wf() ==> final(self)@.wf(),
    {
        let i = match self.update_roster_status(caller, id, RosterStatus::Active) {
            Ok(i) => i,
            Err(e) => return Err(e),
        };
        self.emit(
            Event::RosterStatusChanged {
                changed_by: caller,
                roster_id: id,
                new_status: RosterStatus::Active,
            },
        );
        proof {
            if old(self)@.wf() {
                assert forall|j: int| 0 <= j < self@.rosters.len() implies roster_wf(
                    #[trigger] self@.rosters[j],
                ) by {
                    assert(roster_wf(old(self)@.rosters[j]));
                }
            }
        }
        Ok(())
    }

    fn all_nominations_exist(&self, nominees: &Vec<AccountId>, id: RosterId) -> (r: bool)
        ensures
            r == forall|k: int|
                0 <= k < nominees@.len() ==> self@.has_nomination(#[trigger] nominees@[k], id),
    {
        let mut k: usize = 0;
        while k < nominees.len()
            invariant
                k <= nominees@.len(),
                forall|j: int| 0 <= j < k ==> self@.has_nomination(#[trigger] nominees@[j], id),
            decreases nominees@.len() - k,
        {
            if self.find_nomination(nominees[k], id).is_none() {
                return false;
            }
            k = k + 1;
        }
        true
    }

    fn all_proposals_exist(&self, pairs: &Vec<(AccountId, AccountId)>, id: RosterId) -> (r: bool)
        ensures
            r == forall|k: int|
                0 <= k < pairs@.len() ==> self@.has_proposal(
                    id,
                    (#[trigger] pairs@[k]).0,
                    pairs@[k].1,
                ),
    {
        let mut k: usize = 0;
        while k < pairs.len()
            invariant
                k <= pairs@.len(),
                forall|j: int|
                    0 <= j < k ==> self@.has_proposal(id, (#[trigger] pairs@[j]).0, pairs@[j].1),
            decreases pairs@.len() - k,
        {
            if self.find_proposal(id, pairs[k].0, pairs[k].1).is_none() {
                return false;
            }
            k = k + 1;
        }
        true
    }

    /// Deactivates roster `id`; only its founder may. Every nomination the
    /// roster references is rejected (refunding its nominator) and every
    /// proposal it references is dismissed.
    pub fn roster_deactivate(&mut self, caller: AccountId, id: RosterId) -> (r: Result<(), Error>)
        ensures
            match r {
                Ok(()) => old(self)@.roster_deactivate_error(caller, id) is None && final(self)@
                    == old(self)@.roster_deactivate_post(caller, id),
                Err(e) => old(self)@.roster_deactivate_error(caller, id) == Some(e) && final(self)@
                    == old(self)@,
            },
            old(self)@.wf() ==> final(self)@.wf(),
    {
        let i = match self.find_roster(id) {
            Some(i) => i,
            None => return Err(Error::RosterDoesNotExist),
        };
        if self.rosters[i].founder != caller {
            return Err(Error::PermissionDenied);
        }
        if self.rosters[i].status == RosterStatus::Inactive {
            return Err(Error::RosterNotActive);
        }
        let nominees = self.rosters[i].nominations.clone();
        let pairs = copy_pairs(&self.rosters[i].expulsion_proposals);
        assert(nominees@ =~= old(self)@.roster(id).nominations);
        assert(pairs@ =~= old(self)@.roster(id).expulsion_proposals);
        if !self.all_nominations_exist(&nominees, id) {
            return Err(Error::NominationDoesNotExist);
        }
        if self.concluded_nominations.len() as u128 + nominees.len() as u128
            > self.config.concluded_nominations_max as u128 {
            return Err(Error::CouldNotAddToConcluded);
        }
        if !self.all_proposals_exist(&pairs, id) {
            return Err(Error::ExpulsionProposalDoesNotExist);
        }
        if self.concluded_expulsion_proposals.len() as u128 + pairs.len() as u128
            > self.config.concluded_expulsion_proposals_max as u128 {
            return Err(Error::CouldNotAddToConcluded);
        }
        self.rosters[i].status = RosterStatus::Inactive;
        self.rosters[i].nominations = Vec::new();
        self.rosters[i].expulsion_proposals = Vec::new();
        self.emit(
            Event::RosterStatusChanged {
                changed_by: caller,
                roster_id: id,
                new_status: RosterStatus::Inactive,
            },
        );
        let ghost switched = self@;
        proof {
            let r = old(self)@.roster(id);
            assert(self@.rosters =~= old(self)@.rosters.update(
                i as int,
                RosterView {
                    status: RosterStatus::Inactive,
                    nominations: Seq::empty(),
                    expulsion_proposals: Seq::empty(),
                    ..r
                },
            ));
        }
        let mut k: usize = 0;
        while k < nominees.len()
            invariant
                k <= nominees@.len(),
                self@ == switched.reject_nominations(caller, id, nominees@.take(k as int)),
                forall|j: int|
                    0 <= j < nominees@.len() ==> switched.has_nomination(#[trigger] nominees@[j], id),
            decreases nominees@.len() - k,
        {
            proof {
                lemma_reject_all_frame(switched, caller, id, nominees@.take(k as int));
                assert(switched.has_nomination(nominees@[k as int], id));
            }
            self.reject_nomination(caller, id, nominees[k]);
            assert(nominees@.take(k as int + 1).drop_last() =~= nominees@.take(k as int));
            k = k + 1;
        }
        assert(nominees@.take(nominees@.len() as int) =~= nominees@);
        proof {
            lemma_reject_all_frame(switched, caller, id, nominees@);
        }
        let ghost rejected = self@;
        let mut k: usize = 0;
        while k < pairs.len()
            invariant
                k <= pairs@.len(),
                self@ == rejected.dismiss_proposals(caller, id, pairs@.take(k as int)),
                forall|j: int|
                    0 <= j < pairs@.len() ==> rejected.has_proposal(
                        id,
                        (#[trigger] pairs@[j]).0,
                        pairs@[j].1,
                    ),
            decreases pairs@.len() - k,
        {
            proof {
                lemma_dismiss_all_frame(rejected, caller, id, pairs@.take(k as int));
                assert(rejected.has_proposal(id, pairs@[k as int].0, pairs@[k as int].1));
            }
            self.dismiss_proposal(caller, id, pairs[k].0, pairs[k].1);
            assert(pairs@.take(k as int + 1).drop_last() =~= pairs@.take(k as int));
            k = k + 1;
        }
        assert(pairs@.take(pairs@.len() as int) =~= pairs@);
        proof {
            lemma_dismiss_all_frame(rejected, caller, id, pairs@);
            if old(self)@.wf() {
                assert forall|j: int| 0 <= j < self@.rosters.len() implies roster_wf(
                    #[trigger] self@.rosters[j],
                ) by {
                    assert(roster_wf(old(self)@.rosters[j]));
                }
                assert forall|j: int| 0 <= j < self@.nominations.len() implies nomination_wf(
                    #[trigger] self@.nominations[j],
                ) by {
                    assert(nomination_wf(old(self)@.nominations[j]));
                    assert(self@.nominations[j].votes == rejected.nominations[j].votes);
                    assert(rejected.nominations[j].votes == switched.nominations[j].votes);
                }
                assert forall|j: int| 0 <= j < self@.expulsion_proposals.len() implies proposal_wf(
                    #[trigger] self@.expulsion_proposals[j],
                ) by {
                    assert(proposal_wf(old(self)@.expulsion_proposals[j]));
                    assert(self@.expulsion_proposals[j].votes == rejected.expulsion_proposals[j].votes);
                }
            }
        }
        Ok(())
    }

    /// Removes roster `id`, which must be inactive; only its founder may. The
    /// roster's proposals are removed with it and the creation deposit is
    /// released to the founder.
    pub fn roster_remove(&mut self, caller: AccountId, id: RosterId) -> (r: Result<(), Error>)
        ensures
            match r {
                Ok(()) => old(self)@.roster_remove_error(caller, id) is None && final(self)@
                    == old(self)@.roster_remove_post(caller, id),
                Err(e) => old(self)@.roster_remove_error(caller, id) == Some(e) && final(self)@
                    == old(self)@,
            },
            old(self)@.wf() ==> final(self)@.wf(),
    {
        let i = match self.find_roster(id) {
            Some(i) => i,
            None => return Err(Error::RosterDoesNotExist),
        };
        if self.rosters[i].founder != caller {
            return Err(Error::PermissionDenied);
        }
        if self.rosters[i].status == RosterStatus::Active {
            return Err(Error::RosterActive);
        }
        let ghost all = self@.expulsion_proposals;
        let mut count: u64 = 0;
        let mut k: usize = 0;
        while k < self.expulsion_proposals.len()
            invariant
                k <= all.len(),
                all == self@.expulsion_proposals,
                count == proposals_of(all.take(k as int), id).len(),
                count <= k,
            decreases all.len() - k,
        {
            proof {
                reveal(Seq::filter);
                assert(all.take(k as int + 1).drop_last() =~= all.take(k as int));
            }
            if self.expulsion_proposals[k].roster == id {
                count = count + 1;
            }
            k = k + 1;
        }
        assert(all.take(all.len() as int) =~= all);
        if count > self.config.expulsion_proposals_per_roster_max as u64 {
            return Err(Error::CouldNotRemoveAllExpulsionProposals);
        }
        let founder = self.rosters[i].founder;
        let ghost before_rosters = self.rosters@;
        self.rosters.remove(i);
        proof {
            assert forall|j: int| 0 <= j < self.rosters@.len() implies #[trigger] self.rosters@[j]
                == (if j < i {
                before_rosters[j]
            } else {
                before_rosters[j + 1]
            }) by {}
            assert(self@.rosters =~= old(self)@.rosters.remove(i as int));
        }
        let mut rest: Vec<ExpulsionProposal> = Vec::new();
        std::mem::swap(&mut rest, &mut self.expulsion_proposals);
        let ghost n = rest@.len();
        let ghost mid = self@;
        let mut k: usize = 0;
        while rest.len() > 0
            invariant
                all.len() == n,
                n <= usize::MAX,
                k + rest@.len() == n,
                self@ == (PalletView { expulsion_proposals: self@.expulsion_proposals, ..mid }),
                rest@.map_values(|p: ExpulsionProposal| p@) == all.skip(k as int),
                self@.expulsion_proposals == proposals_not_of(all.take(k as int), id),
            decreases rest@.len(),
        {
            let ghost before = rest@;
            let p = rest.remove(0);
            proof {
                reveal(Seq::filter);
                assert(all.take(k as int + 1).drop_last() =~= all.take(k as int));
                assert(p@ == before.map_values(|p: ExpulsionProposal| p@)[0]);
                assert(all[k as int] == all.skip(k as int)[0]);
                assert forall|j: int| 0 <= j < rest@.len() implies #[trigger] rest@[j] == before[j
                    + 1] by {}
                assert forall|j: int| 0 <= j < rest@.len() implies (#[trigger] rest@[j])@ == all[k
                    + 1 + j] by {
                    assert(before.map_values(|p: ExpulsionProposal| p@)[j + 1] == all.skip(
                        k as int,
                    )[j + 1]);
                }
                assert(rest@.map_values(|p: ExpulsionProposal| p@) =~= all.skip(k as int + 1));
            }
            if p.roster != id {
                self.expulsion_proposals.push(p);
            }
            proof {
                assert(self@.expulsion_proposals =~= proposals_not_of(all.take(k as int + 1), id));
            }
            k = k + 1;
        }
        assert(all.take(n as int) =~= all);
        let name = self.reserved_currency_name(ReservedCurrencyReason::NewRoster(id));
        self.ledger.unreserve_named(&name, founder, self.config.new_roster_deposit);
        self.emit(Event::RosterRemoved { removed_by: caller, roster_id: id });
        proof {
            if old(self)@.wf() {
                lemma_filter_all(
                    old(self)@.expulsion_proposals,
                    |p: ExpulsionProposalView| p.roster != id,
                    |p: ExpulsionProposalView|
                        proposal_wf(p) && p.votes.len()
                            <= old(self)@.config.expulsion_proposal_votes_max,
                );
                lemma_filter_distinct(
                    old(self)@.expulsion_proposals,
                    |p: ExpulsionProposalView| p.roster != id,
                    |p: ExpulsionProposalView| proposal_key(p),
                );
                assert(self@.rosters.len() + 1 == old(self)@.rosters.len());
                assert forall|a: int, b: int| 0 <= a < b < self@.rosters.len() implies (
                #[trigger] self@.rosters[a]).id != (#[trigger] self@.rosters[b]).id by {
                    let a1 = if a < i { a } else { a + 1 };
                    let b1 = if b < i { b } else { b + 1 };
                    assert(self@.rosters[a] == old(self)@.rosters[a1]);
                    assert(self@.rosters[b] == old(self)@.rosters[b1]);
                }
                assert forall|j: int| 0 <= j < self@.rosters.len() implies roster_wf(
                    #[trigger] self@.rosters[j],
                ) by {
                    assert(self@.rosters.len() + 1 == old(self)@.rosters.len());
                    if j < i {
                        assert(self@.rosters[j] == old(self)@.rosters[j]);
                        assert(roster_wf(old(self)@.rosters[j]));
                    } else {
                        assert(self@.rosters[j] == old(self)@.rosters[j + 1]);
                        assert(roster_wf(old(self)@.rosters[j + 1]));
                    }
                }
            }
        }
        Ok(())
    }
}

} // verus!
