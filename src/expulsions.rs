//! The expulsion engine: a member motions to expel another, other members
//! second the motion, the roster votes, and the proposal passes, is dismissed,
//! or is dismissed with prejudice, which slashes the motioner's deposit.
use vstd::prelude::*;

use crate::pallet::{
    is_open, proposal_for, proposal_key, proposal_wf, roster_with, roster_wf, Pallet, PalletView,
};
use crate::quorum::{percent_nearest, percent_of_count};
use crate::seqs::{
    contains_account, lemma_filter_distinct, lemma_last_index, lemma_last_index_update,
    lemma_without, remove_account, remove_pair, without,
};
use crate::types::{
    AccountId, BlockNumber, Error, Event, EventView, ExpulsionProposal, ExpulsionProposalStatus,
    ExpulsionProposalView, ExpulsionProposalVote, ExpulsionProposalVoteValue,
    ReservedCurrencyReason, RosterId, RosterStatus, RosterView,
};

verus! {


/// How many of `votes` have value `value`.
pub open spec fn expulsion_tally(votes: Seq<ExpulsionProposalVote>, value: ExpulsionProposalVoteValue) -> nat {
    votes.filter(|v: ExpulsionProposalVote| v.vote == value).len()
}

/// Whether `voter` has a vote among `votes`.
pub open spec fn has_expulsion_vote(votes: Seq<ExpulsionProposalVote>, voter: AccountId) -> bool {
    exists|k: int| 0 <= k < votes.len() && (#[trigger] votes[k]).voter == voter
}

/// `votes` without the votes of `voter`.
pub open spec fn expulsion_votes_without(votes: Seq<ExpulsionProposalVote>, voter: AccountId) -> Seq<
    ExpulsionProposalVote,
> {
    votes.filter(|v: ExpulsionProposalVote| v.voter != voter)
}

/// Whether proposal `p` of roster `id` keeps `account` locked out at `now`:
/// `account` motioned or seconded it, it was dismissed with prejudice, and
/// the lockout period since then has not passed.
pub open spec fn locks_out(
    p: ExpulsionProposalView,
    account: AccountId,
    id: RosterId,
    period: BlockNumber,
    now: BlockNumber,
) -> bool {
    &&& p.roster == id
    &&& p.status == ExpulsionProposalStatus::DismissedWithPrejudice
    &&& p.decided_on is Some
    &&& p.seconds.contains(account) || p.motioner == account
    &&& p.decided_on->0 + period >= now
}

/// Whether `pairs` holds a proposal against `subject`.
pub open spec fn targets(pairs: Seq<(AccountId, AccountId)>, subject: AccountId) -> bool {
    exists|k: int| 0 <= k < pairs.len() && (#[trigger] pairs[k]).1 == subject
}

impl PalletView {
    /// Why roster `id` cannot be acted on, if it is missing or inactive.
    pub open spec fn active_roster_error(self, id: RosterId) -> Option<Error> {
        if !self.has_roster(id) {
            Some(Error::RosterDoesNotExist)
        } else if self.roster(id).status != RosterStatus::Active {
            Some(Error::RosterNotActive)
        } else {
            None
        }
    }

    /// Whether `account` may not motion or second in roster `id` now.
    pub open spec fn in_lockout(self, account: AccountId, id: RosterId) -> bool {
        exists|k: int|
            0 <= k < self.expulsion_proposals.len() && locks_out(
                #[trigger] self.expulsion_proposals[k],
                account,
                id,
                self.config.expulsion_proposal_lockout_period,
                self.block_number,
            )
    }

    /// Whether `motioner` already has an open proposal in roster `id`.
    pub open spec fn has_open_proposal(self, motioner: AccountId, id: RosterId) -> bool {
        exists|k: int|
            0 <= k < self.expulsion_proposals.len() && {
                let p = #[trigger] self.expulsion_proposals[k];
                &&& p.roster == id
                &&& p.motioner == motioner
                &&& is_open(p.status)
            }
    }

    /// Whether `motioner` may propose to expel `subject` from roster `id`:
    /// both are members, `subject` is not the founder, `motioner` is not
    /// locked out and has no other open proposal, and no open proposal
    /// already targets `subject`.
    pub open spec fn may_propose(self, motioner: AccountId, subject: AccountId, id: RosterId) -> bool {
        let r = self.roster(id);
        &&& r.members.contains(motioner)
        &&& r.members.contains(subject)
        &&& r.founder != subject
        &&& !self.in_lockout(motioner, id)
        &&& !self.has_open_proposal(motioner, id)
        &&& !targets(r.expulsion_proposals, subject)
    }

    /// Why `motioner` cannot propose to expel `subject` from roster `id` for
    /// `reason`, if it cannot.
    pub open spec fn proposal_new_error(
        self,
        motioner: AccountId,
        subject: AccountId,
        id: RosterId,
        reason: Seq<u8>,
    ) -> Option<Error> {
        if self.active_roster_error(id) is Some {
            self.active_roster_error(id)
        } else if reason.len() > self.config.expulsion_reason_max_length || reason.len()
            < self.config.expulsion_reason_min_length {
            Some(Error::InvalidExpulsionReason)
        } else if !self.may_propose(motioner, subject, id) {
            Some(Error::PermissionDenied)
        } else if self.roster(id).expulsion_proposals.len()
            >= self.config.expulsion_proposals_per_roster_max {
            Some(Error::CouldNotAddExpulsionProposal)
        } else if !self.ledger.can_reserve(
            self.name(ReservedCurrencyReason::NewExpulsionProposal(id, subject)),
            motioner,
            self.config.new_expulsion_proposal_deposit,
        ) {
            Some(Error::InsufficientFunds)
        } else {
            None
        }
    }

    /// The state after `motioner` proposed to expel `subject` from roster
    /// `id`: a fresh proposal (replacing a concluded one under the same key)
    /// is referenced by the roster and the deposit is reserved.
    pub open spec fn proposal_new_post(
        self,
        motioner: AccountId,
        subject: AccountId,
        id: RosterId,
        reason: Seq<u8>,
    ) -> PalletView {
        let r = self.roster(id);
        let p = ExpulsionProposalView {
            motioner,
            seconds: Seq::empty(),
            subject,
            roster: id,
            reason,
            proposed_on: self.block_number,
            voting_opened_on: None,
            decided_on: None,
            votes: Seq::empty(),
            status: ExpulsionProposalStatus::Proposed,
        };
        PalletView {
            expulsion_proposals: if self.has_proposal(id, motioner, subject) {
                self.expulsion_proposals.update(self.proposal_index(id, motioner, subject), p)
            } else {
                self.expulsion_proposals.push(p)
            },
            ledger: self.ledger.reserve(
                self.name(ReservedCurrencyReason::NewExpulsionProposal(id, subject)),
                motioner,
                self.config.new_expulsion_proposal_deposit,
            ),
            events: self.events.push(
                EventView::NewExpulsionProposal { motioner, subject, roster_id: id, reason },
            ),
            ..self.with_roster(
                id,
                RosterView { expulsion_proposals: r.expulsion_proposals.push((motioner, subject)), ..r },
            )
        }
    }

    /// Why `seconder` cannot second the proposal of `motioner` against
    /// `subject` in roster `id`, if it cannot.
    pub open spec fn second_error(
        self,
        seconder: AccountId,
        motioner: AccountId,
        subject: AccountId,
        id: RosterId,
    ) -> Option<Error> {
        let p = self.proposal(id, motioner, subject);
        if self.active_roster_error(id) is Some {
            self.active_roster_error(id)
        } else if !self.has_proposal(id, motioner, subject) {
            Some(Error::ExpulsionProposalDoesNotExist)
        } else if !self.roster(id).members.contains(seconder) {
            Some(Error::PermissionDenied)
        } else if p.status != ExpulsionProposalStatus::Proposed && p.status
            != ExpulsionProposalStatus::Seconded {
            Some(Error::PermissionDenied)
        } else if self.in_lockout(seconder, id) {
            Some(Error::PermissionDenied)
        } else if !p.seconds.contains(seconder) && p.seconds.len() >= self.config.seconds_max {
            Some(Error::CouldNotAddSeconder)
        } else {
            None
        }
    }

    /// The seconds of the proposal once `seconder` has seconded it: a new
    /// seconder joins the end, one who already seconded is not listed twice.
    pub open spec fn seconds_with(self, seconder: AccountId, motioner: AccountId, subject: AccountId, id: RosterId) -> Seq<
        AccountId,
    > {
        let p = self.proposal(id, motioner, subject);
        if p.seconds.contains(seconder) {
            p.seconds
        } else {
            p.seconds.push(seconder)
        }
    }

    /// The state after `seconder` seconded the proposal: it is seconded,
    /// `seconder` is among its seconds once, and the second is announced.
    pub open spec fn second_post(
        self,
        seconder: AccountId,
        motioner: AccountId,
        subject: AccountId,
        id: RosterId,
    ) -> PalletView {
        let p = self.proposal(id, motioner, subject);
        let seconds = self.seconds_with(seconder, motioner, subject, id);
        PalletView {
            events: self.events.push(
                EventView::SeconderAddedToExpulsionProposal {
                    seconder,
                    motioner,
                    subject,
                    roster_id: id,
                    seconds_count: seconds.len() as u64,
                },
            ),
            ..self.with_proposal(
                id,
                motioner,
                subject,
                ExpulsionProposalView { seconds, status: ExpulsionProposalStatus::Seconded, ..p },
            )
        }
    }

    /// Why the proposal of `motioner` against `subject` in roster `id`
    /// cannot be opened for voting, if it cannot.
    pub open spec fn open_error(self, motioner: AccountId, subject: AccountId, id: RosterId) -> Option<
        Error,
    > {
        let p = self.proposal(id, motioner, subject);
        if self.active_roster_error(id) is Some {
            self.active_roster_error(id)
        } else if !self.has_proposal(id, motioner, subject) {
            Some(Error::ExpulsionProposalDoesNotExist)
        } else if p.seconds.len() < self.config.expulsion_proposal_second_threshold {
            Some(Error::InsufficientSeconds)
        } else if p.status != ExpulsionProposalStatus::Seconded {
            Some(Error::PermissionDenied)
        } else {
            None
        }
    }

    /// The state after the proposal was opened for voting now.
    pub open spec fn open_post(self, motioner: AccountId, subject: AccountId, id: RosterId) -> PalletView {
        let p = self.proposal(id, motioner, subject);
        PalletView {
            events: self.events.push(
                EventView::ExpulsionVoteOpened { motioner, subject, roster_id: id },
            ),
            ..self.with_proposal(
                id,
                motioner,
                subject,
                ExpulsionProposalView {
                    status: ExpulsionProposalStatus::Voting,
                    voting_opened_on: Some(self.block_number),
                    ..p
                },
            )
        }
    }

    /// Why the proposal is not open for votes now, if it is not.
    pub open spec fn voting_window_error(self, p: ExpulsionProposalView) -> Option<Error> {
        if p.status != ExpulsionProposalStatus::Voting || p.voting_opened_on is None {
            Some(Error::VotingPeriodHasNotStarted)
        } else if p.voting_opened_on->0 + self.config.expulsion_proposal_voting_period
            < self.block_number {
            Some(Error::VotingPeriodHasEnded)
        } else {
            None
        }
    }

    /// Why `voter` cannot vote on the proposal, if it cannot.
    pub open spec fn expulsion_vote_error(
        self,
        voter: AccountId,
        motioner: AccountId,
        subject: AccountId,
        id: RosterId,
    ) -> Option<Error> {
        let p = self.proposal(id, motioner, subject);
        if self.active_roster_error(id) is Some {
            self.active_roster_error(id)
        } else if !self.has_proposal(id, motioner, subject) {
            Some(Error::ExpulsionProposalDoesNotExist)
        } else if !self.roster(id).members.contains(voter) {
            Some(Error::PermissionDenied)
        } else if self.voting_window_error(p) is Some {
            self.voting_window_error(p)
        } else if has_expulsion_vote(p.votes, voter) {
            Some(Error::AlreadyVoted)
        } else if p.votes.len() >= self.config.expulsion_proposal_votes_max {
            Some(Error::CouldNotAddVote)
        } else {
            None
        }
    }

    /// The state after `voter` voted `vote` on the proposal.
    pub open spec fn expulsion_vote_post(
        self,
        voter: AccountId,
        motioner: AccountId,
        subject: AccountId,
        id: RosterId,
        vote: ExpulsionProposalVoteValue,
    ) -> PalletView {
        let p = self.proposal(id, motioner, subject);
        PalletView {
            events: self.events.push(
                EventView::ExpulsionVoteSubmitted { voter, motioner, subject, roster_id: id, vote },
            ),
            ..self.with_proposal(
                id,
                motioner,
                subject,
                ExpulsionProposalView {
                    votes: p.votes.push(
                        ExpulsionProposalVote { voter, vote, voted_on: self.block_number },
                    ),
                    ..p
                },
            )
        }
    }

    /// Why `voter` cannot recant a vote on the proposal, if it cannot.
    pub open spec fn expulsion_recant_error(
        self,
        voter: AccountId,
        motioner: AccountId,
        subject: AccountId,
        id: RosterId,
    ) -> Option<Error> {
        let p = self.proposal(id, motioner, subject);
        if self.active_roster_error(id) is Some {
            self.active_roster_error(id)
        } else if !self.has_proposal(id, motioner, subject) {
            Some(Error::ExpulsionProposalDoesNotExist)
        } else if self.voting_window_error(p) is Some {
            self.voting_window_error(p)
        } else if !has_expulsion_vote(p.votes, voter) {
            Some(Error::NotVoted)
        } else {
            None
        }
    }

    /// The state after `voter` recanted a vote on the proposal.
    pub open spec fn expulsion_recant_post(
        self,
        voter: AccountId,
        motioner: AccountId,
        subject: AccountId,
        id: RosterId,
    ) -> PalletView {
        let p = self.proposal(id, motioner, subject);
        PalletView {
            events: self.events.push(
                EventView::ExpulsionVoteRecanted { voter, motioner, subject, roster_id: id },
            ),
            ..self.with_proposal(
                id,
                motioner,
                subject,
                ExpulsionProposalView { votes: expulsion_votes_without(p.votes, voter), ..p },
            )
        }
    }

    /// Whether the proposal is due to be dismissed with prejudice: the
    /// awaiting-second period passed without enough seconds, or the voting
    /// period passed with a supermajority of the members voting nay.
    pub open spec fn prejudice_due(self, motioner: AccountId, subject: AccountId, id: RosterId) -> bool {
        let p = self.proposal(id, motioner, subject);
        let c = self.config;
        ||| p.seconds.len() < c.expulsion_proposal_second_threshold && p.proposed_on
            + c.expulsion_proposal_awaiting_second_period < self.block_number
        ||| p.voting_opened_on is Some && p.voting_opened_on->0 + c.expulsion_proposal_voting_period
            < self.block_number && expulsion_tally(p.votes, ExpulsionProposalVoteValue::Nay)
            >= percent_nearest(c.expulsion_proposal_super_majority, self.roster(id).members.len() as u64)
    }

    /// Whether a proposal whose vote has ended is dismissed: nays at least
    /// match ayes, or too few members voted.
    pub open spec fn proposal_dismissed(self, motioner: AccountId, subject: AccountId, id: RosterId) -> bool {
        let p = self.proposal(id, motioner, subject);
        ||| expulsion_tally(p.votes, ExpulsionProposalVoteValue::Nay) >= expulsion_tally(
            p.votes,
            ExpulsionProposalVoteValue::Aye,
        )
        ||| p.votes.len() < percent_nearest(
            self.config.expulsion_proposal_quorum,
            self.roster(id).members.len() as u64,
        )
    }

    /// Why `closer` cannot close the proposal, if it cannot.
    pub open spec fn proposal_close_error(
        self,
        closer: AccountId,
        motioner: AccountId,
        subject: AccountId,
        id: RosterId,
    ) -> Option<Error> {
        let p = self.proposal(id, motioner, subject);
        if self.active_roster_error(id) is Some {
            self.active_roster_error(id)
        } else if !self.has_proposal(id, motioner, subject) {
            Some(Error::ExpulsionProposalDoesNotExist)
        } else if !self.roster(id).members.contains(closer) || !is_open(p.status) {
            Some(Error::PermissionDenied)
        } else if self.prejudice_due(motioner, subject, id) {
            if self.treasury is None {
                Some(Error::TreasuryDoesNotExist)
            } else {
                None
            }
        } else if p.status != ExpulsionProposalStatus::Voting {
            Some(Error::PermissionDenied)
        } else if !(p.voting_opened_on is Some && p.voting_opened_on->0
            + self.config.expulsion_proposal_voting_period < self.block_number) {
            Some(Error::VotingPeriodHasNotEnded)
        } else if !self.proposal_dismissed(motioner, subject, id) && self.roster(id).founder
            == subject {
            Some(Error::PermissionDenied)
        } else if !self.proposal_dismissed(motioner, subject, id) && self.treasury is None {
            Some(Error::TreasuryDoesNotExist)
        } else if self.concluded_expulsion_proposals.len()
            >= self.config.concluded_expulsion_proposals_max {
            Some(Error::CouldNotAddToConcluded)
        } else {
            None
        }
    }

    /// The state with the proposal decided now as `status` and the roster's
    /// reference to it dropped.
    pub open spec fn decide(
        self,
        motioner: AccountId,
        subject: AccountId,
        id: RosterId,
        status: ExpulsionProposalStatus,
    ) -> PalletView {
        let r = self.roster(id);
        let p = self.proposal(id, motioner, subject);
        self.with_roster(
            id,
            RosterView {
                expulsion_proposals: without(r.expulsion_proposals, (motioner, subject)),
                ..r
            },
        ).with_proposal(
            id,
            motioner,
            subject,
            ExpulsionProposalView { status, decided_on: Some(self.block_number), ..p },
        )
    }

    /// The state after `closer` closed the proposal.
    ///
    /// Dismissed with prejudice: the motioner's deposit is split, the
    /// reparations share going to the subject and the rest to the treasury.
    /// Dismissed: the proposal is concluded and nothing is slashed. Passed:
    /// the subject leaves the roster and their membership dues go to the
    /// treasury. Only a dismissal with prejudice moves the motioner's
    /// deposit; after a plain dismissal or a pass it stays reserved under
    /// its name, and nothing is refunded to the motioner or the seconders.
    pub open spec fn proposal_close_post(
        self,
        closer: AccountId,
        motioner: AccountId,
        subject: AccountId,
        id: RosterId,
    ) -> PalletView {
        let pot = self.treasury->0;
        if self.prejudice_due(motioner, subject, id) {
            let name = self.name(ReservedCurrencyReason::NewExpulsionProposal(id, subject));
            let reparations = percent_nearest(
                self.config.expulsion_proposal_reparations,
                self.config.new_expulsion_proposal_deposit,
            );
            let repaid = self.ledger.repatriate(name, motioner, subject, reparations);
            let decided = self.decide(
                motioner,
                subject,
                id,
                ExpulsionProposalStatus::DismissedWithPrejudice,
            );
            PalletView {
                ledger: repaid.repatriate(name, motioner, pot, repaid.reserved_of(name, motioner)),
                events: self.events.push(
                    EventView::ExpulsionProposalDismissedWithPrejudice {
                        closer,
                        motioner,
                        subject,
                        roster_id: id,
                    },
                ),
                ..decided
            }
        } else if self.proposal_dismissed(motioner, subject, id) {
            let r = self.roster(id);
            self.with_roster(
                id,
                RosterView {
                    expulsion_proposals: without(r.expulsion_proposals, (motioner, subject)),
                    ..r
                },
            ).dismiss_proposal(closer, id, motioner, subject)
        } else {
            let name = self.name(ReservedCurrencyReason::MembershipDues(id));
            let decided = self.decide(motioner, subject, id, ExpulsionProposalStatus::Passed);
            let r = decided.roster(id);
            PalletView {
                ledger: self.ledger.repatriate(
                    name,
                    subject,
                    pot,
                    self.ledger.reserved_of(name, subject),
                ),
                concluded_expulsion_proposals: self.concluded_expulsion_proposals.push(
                    (id, motioner, subject),
                ),
                events: self.events.push(
                    EventView::ExpulsionProposalPassed { closer, motioner, subject, roster_id: id },
                ).push(EventView::MemberRemoved { member: subject, roster_id: id }),
                ..decided.with_roster(id, RosterView { members: without(r.members, subject), ..r })
            }
        }
    }
}

impl PalletView {
    /// The state after `closer` dismissed the proposal of `motioner` against
    /// `subject` in roster `id`: it is decided now, waits for removal, and the
    /// dismissal is announced. The roster's reference is left as it is, and
    /// the motioner's deposit stays reserved.
    pub open spec fn dismiss_proposal(
        self,
        closer: AccountId,
        id: RosterId,
        motioner: AccountId,
        subject: AccountId,
    ) -> PalletView {
        PalletView {
            expulsion_proposals: self.expulsion_proposals.update(
                self.proposal_index(id, motioner, subject),
                ExpulsionProposalView {
                    status: ExpulsionProposalStatus::Dismissed,
                    decided_on: Some(self.block_number),
                    ..self.proposal(id, motioner, subject)
                },
            ),
            concluded_expulsion_proposals: self.concluded_expulsion_proposals.push(
                (id, motioner, subject),
            ),
            events: self.events.push(
                EventView::ExpulsionProposalDismissed { closer, motioner, subject, roster_id: id },
            ),
            ..self
        }
    }

    /// `dismiss_proposal` for each (motioner, subject) of `pairs` in turn.
    pub open spec fn dismiss_proposals(
        self,
        closer: AccountId,
        id: RosterId,
        pairs: Seq<(AccountId, AccountId)>,
    ) -> PalletView
        decreases pairs.len(),
    {
        if pairs.len() == 0 {
            self
        } else {
            self.dismiss_proposals(closer, id, pairs.drop_last()).dismiss_proposal(
                closer,
                id,
                pairs.last().0,
                pairs.last().1,
            )
        }
    }
}

/// Dismissing a proposal keeps every lookup, and all but the proposals, their
/// pending list and the events.
pub proof fn lemma_dismiss_frame(
    s: PalletView,
    closer: AccountId,
    id: RosterId,
    motioner: AccountId,
    subject: AccountId,
)
    requires
        s.has_proposal(id, motioner, subject),
    ensures
        ({
            let t = s.dismiss_proposal(closer, id, motioner, subject);
            &&& t.rosters == s.rosters
            &&& t.nominations == s.nominations
            &&& t.concluded_nominations == s.concluded_nominations
            &&& t.ledger == s.ledger
            &&& t.config == s.config
            &&& t.block_number == s.block_number
            &&& t.treasury == s.treasury
            &&& t.concluded_expulsion_proposals.len() == s.concluded_expulsion_proposals.len() + 1
            &&& forall|r: RosterId, m: AccountId, x: AccountId| #[trigger]
                t.proposal_index(r, m, x) == s.proposal_index(r, m, x)
            &&& t.expulsion_proposals.len() == s.expulsion_proposals.len()
            &&& forall|i: int|
                0 <= i < s.expulsion_proposals.len() ==> (#[trigger] t.expulsion_proposals[i]).votes
                    == s.expulsion_proposals[i].votes && t.expulsion_proposals[i].seconds
                    == s.expulsion_proposals[i].seconds && proposal_key(t.expulsion_proposals[i])
                    == proposal_key(s.expulsion_proposals[i])
        }),
{
    let i = s.proposal_index(id, motioner, subject);
    lemma_last_index(s.expulsion_proposals, proposal_for(id, motioner, subject));
    let e = ExpulsionProposalView {
        status: ExpulsionProposalStatus::Dismissed,
        decided_on: Some(s.block_number),
        ..s.proposal(id, motioner, subject)
    };
    assert forall|r: RosterId, m: AccountId, x: AccountId| #[trigger]
        s.dismiss_proposal(closer, id, motioner, subject).proposal_index(r, m, x)
            == s.proposal_index(r, m, x) by {
        lemma_last_index_update(s.expulsion_proposals, proposal_for(r, m, x), i, e);
    }
}

/// Dismissing several proposals in turn keeps what a single dismissal keeps.
pub proof fn lemma_dismiss_all_frame(
    s: PalletView,
    closer: AccountId,
    id: RosterId,
    pairs: Seq<(AccountId, AccountId)>,
)
    requires
        forall|k: int|
            0 <= k < pairs.len() ==> s.has_proposal(id, (#[trigger] pairs[k]).0, pairs[k].1),
    ensures
        ({
            let t = s.dismiss_proposals(closer, id, pairs);
            &&& t.rosters == s.rosters
            &&& t.nominations == s.nominations
            &&& t.concluded_nominations == s.concluded_nominations
            &&& t.ledger == s.ledger
            &&& t.config == s.config
            &&& t.block_number == s.block_number
            &&& t.treasury == s.treasury
            &&& t.concluded_expulsion_proposals.len() == s.concluded_expulsion_proposals.len()
                + pairs.len()
            &&& forall|r: RosterId, m: AccountId, x: AccountId| #[trigger]
                t.proposal_index(r, m, x) == s.proposal_index(r, m, x)
            &&& t.expulsion_proposals.len() == s.expulsion_proposals.len()
            &&& forall|i: int|
                0 <= i < s.expulsion_proposals.len() ==> (#[trigger] t.expulsion_proposals[i]).votes
                    == s.expulsion_proposals[i].votes && t.expulsion_proposals[i].seconds
                    == s.expulsion_proposals[i].seconds && proposal_key(t.expulsion_proposals[i])
                    == proposal_key(s.expulsion_proposals[i])
        }),
    decreases pairs.len(),
{
    if pairs.len() > 0 {
        let rest = pairs.drop_last();
        assert forall|k: int| 0 <= k < rest.len() implies s.has_proposal(
            id,
            (#[trigger] rest[k]).0,
            rest[k].1,
        ) by {
            assert(rest[k] == pairs[k]);
        }
        lemma_dismiss_all_frame(s, closer, id, rest);
        let m = s.dismiss_proposals(closer, id, rest);
        let last = pairs[pairs.len() - 1];
        assert(s.has_proposal(id, last.0, last.1));
        assert(m.proposal_index(id, last.0, last.1) == s.proposal_index(id, last.0, last.1));
        lemma_dismiss_frame(m, closer, id, last.0, last.1);
    }
}

/// After dismissing several proposals in turn, each of them is dismissed.
pub proof fn lemma_dismiss_all_marks(
    s: PalletView,
    closer: AccountId,
    id: RosterId,
    pairs: Seq<(AccountId, AccountId)>,
)
    requires
        forall|k: int|
            0 <= k < pairs.len() ==> s.has_proposal(id, (#[trigger] pairs[k]).0, pairs[k].1),
    ensures
        forall|k: int|
            0 <= k < pairs.len() ==> #[trigger] s.dismiss_proposals(closer, id, pairs).proposal(
                id,
                pairs[k].0,
                pairs[k].1,
            ).status == ExpulsionProposalStatus::Dismissed,
    decreases pairs.len(),
{
    if pairs.len() > 0 {
        let rest = pairs.drop_last();
        assert forall|k: int| 0 <= k < rest.len() implies s.has_proposal(
            id,
            (#[trigger] rest[k]).0,
            rest[k].1,
        ) by {
            assert(rest[k] == pairs[k]);
        }
        lemma_dismiss_all_marks(s, closer, id, rest);
        lemma_dismiss_all_frame(s, closer, id, rest);
        let m = s.dismiss_proposals(closer, id, rest);
        let last = pairs[pairs.len() - 1];
        assert(s.has_proposal(id, last.0, last.1));
        assert(m.proposal_index(id, last.0, last.1) == s.proposal_index(id, last.0, last.1));
        lemma_dismiss_frame(m, closer, id, last.0, last.1);
        let t = m.dismiss_proposal(closer, id, last.0, last.1);
        let il = m.proposal_index(id, last.0, last.1);
        lemma_last_index(m.expulsion_proposals, proposal_for(id, last.0, last.1));
        assert forall|k: int| 0 <= k < pairs.len() implies #[trigger] t.proposal(
            id,
            pairs[k].0,
            pairs[k].1,
        ).status == ExpulsionProposalStatus::Dismissed by {
            let x = pairs[k];
            if x != last {
                assert(k < rest.len() && rest[k] == x);
                assert(m.proposal(id, rest[k].0, rest[k].1).status
                    == ExpulsionProposalStatus::Dismissed);
                assert(s.has_proposal(id, x.0, x.1));
                let ik = m.proposal_index(id, x.0, x.1);
                assert(ik == s.proposal_index(id, x.0, x.1));
                lemma_last_index(m.expulsion_proposals, proposal_for(id, x.0, x.1));
                assert(ik != il);
                assert(t.proposal_index(id, x.0, x.1) == ik);
                assert(t.expulsion_proposals[ik] == m.expulsion_proposals[ik]);
            }
        }
    }
}

impl Pallet {
    /// Dismisses the proposal of `motioner` against `subject` in roster `id`;
    /// the roster's reference is left to the caller.
    pub(crate) fn dismiss_proposal(
        &mut self,
        closer: AccountId,
        id: RosterId,
        motioner: AccountId,
        subject: AccountId,
    )
        requires
            old(self)@.has_proposal(id, motioner, subject),
        ensures
            final(self)@ == old(self)@.dismiss_proposal(closer, id, motioner, subject),
    {
        let j = match self.find_proposal(id, motioner, subject) {
            Some(j) => j,
            None => return,
        };
        self.expulsion_proposals[j].status = ExpulsionProposalStatus::Dismissed;
        self.expulsion_proposals[j].decided_on = Some(self.block_number);
        self.concluded_expulsion_proposals.push((id, motioner, subject));
        self.emit(
            Event::ExpulsionProposalDismissed { closer, motioner, subject, roster_id: id },
        );
        assert(self@.expulsion_proposals =~= old(self)@.dismiss_proposal(
            closer,
            id,
            motioner,
            subject,
        ).expulsion_proposals);
    }
}

/// Whether `voter` has a vote among `votes`.
fn has_voted_on_proposal(votes: &Vec<ExpulsionProposalVote>, voter: AccountId) -> (r: bool)
    ensures
        r == has_expulsion_vote(votes@, voter),
{
    let mut i: usize = 0;
    while i < votes.len()
        invariant
            i <= votes@.len(),
            forall|j: int| 0 <= j < i ==> (#[trigger] votes@[j]).voter != voter,
        decreases votes@.len() - i,
    {
        if votes[i].voter == voter {
            return true;
        }
        i = i + 1;
    }
    false
}

/// How many of `votes` have value `value`.
pub fn count_expulsion_votes(votes: &Vec<ExpulsionProposalVote>, value: ExpulsionProposalVoteValue) -> (r:
    u64)
    ensures
        r == expulsion_tally(votes@, value),
{
    let mut count: u64 = 0;
    let mut i: usize = 0;
    while i < votes.len()
        invariant
            i <= votes@.len(),
            count == expulsion_tally(votes@.take(i as int), value),
            count <= i,
        decreases votes@.len() - i,
    {
        proof {
            reveal(Seq::filter);
            assert(votes@.take(i as int + 1).drop_last() =~= votes@.take(i as int));
        }
        if votes[i].vote == value {
            count = count + 1;
        }
        i = i + 1;
    }
    assert(votes@.take(votes@.len() as int) =~= votes@);
    count
}

/// Takes the votes of `voter` out of `votes`.
fn remove_expulsion_votes(votes: &mut Vec<ExpulsionProposalVote>, voter: AccountId)
    ensures
        final(votes)@ == expulsion_votes_without(old(votes)@, voter),
{
    let mut out: Vec<ExpulsionProposalVote> = Vec::new();
    let mut i: usize = 0;
    while i < votes.len()
        invariant
            i <= votes@.len(),
            votes@ == old(votes)@,
            out@ == expulsion_votes_without(votes@.take(i as int), voter),
        decreases votes@.len() - i,
    {
        proof {
            reveal(Seq::filter);
            assert(votes@.take(i as int + 1).drop_last() =~= votes@.take(i as int));
        }
        if votes[i].voter != voter {
            out.push(votes[i]);
        }
        i = i + 1;
    }
    assert(votes@.take(votes@.len() as int) =~= votes@);
    *votes = out;
}

/// Whether `pairs` holds a proposal against `subject`.
fn targets_subject(pairs: &Vec<(AccountId, AccountId)>, subject: AccountId) -> (r: bool)
    ensures
        r == targets(pairs@, subject),
{
    let mut i: usize = 0;
    while i < pairs.len()
        invariant
            i <= pairs@.len(),
            forall|j: int| 0 <= j < i ==> (#[trigger] pairs@[j]).1 != subject,
        decreases pairs@.len() - i,
    {
        if pairs[i].1 == subject {
            return true;
        }
        i = i + 1;
    }
    false
}

/// Whether the proposal is still open: proposed, seconded or being voted on.
fn proposal_is_open(status: ExpulsionProposalStatus) -> (r: bool)
    ensures
        r == is_open(status),
{
    match status {
        ExpulsionProposalStatus::Proposed => true,
        ExpulsionProposalStatus::Seconded => true,
        ExpulsionProposalStatus::Voting => true,
        _ => false,
    }
}

impl Pallet {
    /// The position of roster `id`, which must exist and be active.
    fn active_roster(&self, id: RosterId) -> (r: Result<usize, Error>)
        ensures
            match r {
                Ok(i) => self@.active_roster_error(id) is None && i < self@.rosters.len() && i as int
                    == self@.roster_index(id),
                Err(e) => self@.active_roster_error(id) == Some(e),
            },
    {
        let i = match self.find_roster(id) {
            Some(i) => i,
            None => return Err(Error::RosterDoesNotExist),
        };
        if self.rosters[i].status != RosterStatus::Active {
            return Err(Error::RosterNotActive);
        }
        Ok(i)
    }

    /// Whether `account` may not motion or second in roster `id` now, having
    /// motioned or seconded a proposal that was dismissed with prejudice
    /// within the lockout period.
    pub fn in_lockout_period(&self, account: AccountId, id: RosterId) -> (r: bool)
        ensures
            r == self@.in_lockout(account, id),
    {
        let period = self.config.expulsion_proposal_lockout_period;
        let now = self.block_number;
        let mut k: usize = 0;
        while k < self.expulsion_proposals.len()
            invariant
                k <= self@.expulsion_proposals.len(),
                period == self@.config.expulsion_proposal_lockout_period,
                now == self@.block_number,
                forall|j: int|
                    0 <= j < k ==> !locks_out(
                        #[trigger] self@.expulsion_proposals[j],
                        account,
                        id,
                        period,
                        now,
                    ),
            decreases self@.expulsion_proposals.len() - k,
        {
            let p = &self.expulsion_proposals[k];
            if p.roster == id && p.status == ExpulsionProposalStatus::DismissedWithPrejudice {
                match p.decided_on {
                    Some(decided) => {
                        if (contains_account(&p.seconds, account) || p.motioner == account)
                            && (decided as u128) + (period as u128) >= now as u128 {
                            assert(locks_out(self@.expulsion_proposals[k as int], account, id, period, now));
                            return true;
                        }
                    },
                    None => {},
                }
            }
            k = k + 1;
        }
        false
    }

    /// Whether `motioner` already has an open proposal in roster `id`.
    fn has_open_proposal(&self, motioner: AccountId, id: RosterId) -> (r: bool)
        ensures
            r == self@.has_open_proposal(motioner, id),
    {
        let mut k: usize = 0;
        while k < self.expulsion_proposals.len()
            invariant
                k <= self@.expulsion_proposals.len(),
                forall|j: int|
                    0 <= j < k ==> {
                        let p = #[trigger] self@.expulsion_proposals[j];
                        !(p.roster == id && p.motioner == motioner && is_open(p.status))
                    },
            decreases self@.expulsion_proposals.len() - k,
        {
            let p = &self.expulsion_proposals[k];
            if p.roster == id && p.motioner == motioner && proposal_is_open(p.status) {
                assert(self@.expulsion_proposals[k as int].status == p.status);
                return true;
            }
            k = k + 1;
        }
        false
    }

    /// Whether `motioner` may propose to expel `subject` from the roster at
    /// position `i`, whose identifier is `id`.
    fn can_call_expulsion_vote(&self, motioner: AccountId, subject: AccountId, id: RosterId, i: usize) -> (r:
        bool)
        requires
            i < self@.rosters.len(),
            i as int == self@.roster_index(id),
        ensures
            r == self@.may_propose(motioner, subject, id),
    {
        let roster = &self.rosters[i];
        contains_account(&roster.members, motioner) && contains_account(&roster.members, subject)
            && roster.founder != subject && !self.in_lockout_period(motioner, id)
            && !self.has_open_proposal(motioner, id) && !targets_subject(
            &roster.expulsion_proposals,
            subject,
        )
    }

    /// `motioner` proposes to expel `subject` from roster `id` for `reason`,
    /// reserving the proposal deposit.
    pub fn expulsion_proposal_new(
        &mut self,
        motioner: AccountId,
        subject: AccountId,
        id: RosterId,
        reason: Vec<u8>,
    ) -> (r: Result<(), Error>)
        ensures
            match r {
                Ok(()) => old(self)@.proposal_new_error(motioner, subject, id, reason@) is None
                    && final(self)@ == old(self)@.proposal_new_post(motioner, subject, id, reason@),
                Err(e) => old(self)@.proposal_new_error(motioner, subject, id, reason@) == Some(e)
                    && final(self)@ == old(self)@,
            },
            old(self)@.wf() ==> final(self)@.wf(),
    {
        let i = match self.active_roster(id) {
            Ok(i) => i,
            Err(e) => return Err(e),
        };
        if reason.len() as u64 > self.config.expulsion_reason_max_length as u64 || (reason.len() as u64)
            < self.config.expulsion_reason_min_length as u64 {
            return Err(Error::InvalidExpulsionReason);
        }
        if !self.can_call_expulsion_vote(motioner, subject, id, i) {
            return Err(Error::PermissionDenied);
        }
        if self.rosters[i].expulsion_proposals.len() as u64
            >= self.config.expulsion_proposals_per_roster_max as u64 {
            return Err(Error::CouldNotAddExpulsionProposal);
        }
        let name = self.reserved_currency_name(
            ReservedCurrencyReason::NewExpulsionProposal(id, subject),
        );
        let deposit = self.config.new_expulsion_proposal_deposit;
        if !self.ledger.can_reserve(&name, motioner, deposit) {
            return Err(Error::InsufficientFunds);
        }
        let reserved = self.ledger.reserve_named(&name, motioner, deposit);
        assert(reserved is Ok);
        let announced = reason.clone();
        assert(announced@ =~= reason@);
        let proposal = ExpulsionProposal::new(motioner, subject, id, reason, self.block_number);
        let ghost pv = proposal@;
        match self.find_proposal(id, motioner, subject) {
            Some(k) => {
                self.expulsion_proposals[k] = proposal;
                assert(self@.expulsion_proposals =~= old(self)@.expulsion_proposals.update(
                    k as int,
                    pv,
                ));
                proof {
                    lemma_last_index(
                        old(self)@.expulsion_proposals,
                        proposal_for(id, motioner, subject),
                    );
                    assert(proposal_key(pv) == proposal_key(old(self)@.expulsion_proposals[k as int]));
                    if old(self)@.wf() {
                        assert forall|a: int, b: int|
                            0 <= a < b < self@.expulsion_proposals.len() implies proposal_key(
                            #[trigger] self@.expulsion_proposals[a],
                        ) != proposal_key(#[trigger] self@.expulsion_proposals[b]) by {
                            assert(proposal_key(self@.expulsion_proposals[a]) == proposal_key(
                                old(self)@.expulsion_proposals[a],
                            ));
                            assert(proposal_key(self@.expulsion_proposals[b]) == proposal_key(
                                old(self)@.expulsion_proposals[b],
                            ));
                        }
                    }
                }
            },
            None => {
                self.expulsion_proposals.push(proposal);
                assert(self@.expulsion_proposals =~= old(self)@.expulsion_proposals.push(pv));
                proof {
                    if old(self)@.wf() {
                        lemma_last_index(
                            old(self)@.expulsion_proposals,
                            proposal_for(id, motioner, subject),
                        );
                        assert forall|a: int, b: int|
                            0 <= a < b < self@.expulsion_proposals.len() implies proposal_key(
                            #[trigger] self@.expulsion_proposals[a],
                        ) != proposal_key(#[trigger] self@.expulsion_proposals[b]) by {
                            if b == self@.expulsion_proposals.len() - 1 {
                                assert(!proposal_for(id, motioner, subject)(
                                    old(self)@.expulsion_proposals[a],
                                ));
                            } else {
                                assert(self@.expulsion_proposals[a] == old(
                                    self,
                                )@.expulsion_proposals[a]);
                                assert(self@.expulsion_proposals[b] == old(
                                    self,
                                )@.expulsion_proposals[b]);
                            }
                        }
                    }
                }
            },
        }
        self.rosters[i].expulsion_proposals.push((motioner, subject));
        self.emit(Event::NewExpulsionProposal { motioner, subject, roster_id: id, reason: announced });
        proof {
            let r = old(self)@.roster(id);
            assert(self@.rosters =~= old(self)@.rosters.update(
                i as int,
                RosterView { expulsion_proposals: r.expulsion_proposals.push((motioner, subject)), ..r },
            ));
            if old(self)@.wf() {
                assert forall|q: int| 0 <= q < self@.rosters.len() implies roster_wf(
                    #[trigger] self@.rosters[q],
                ) by {
                    assert(roster_wf(old(self)@.rosters[q]));
                }
            }
        }
        Ok(())
    }

    /// `seconder` seconds the proposal of `motioner` against `subject` in
    /// roster `id`.
    pub fn expulsion_proposal_second(
        &mut self,
        seconder: AccountId,
        motioner: AccountId,
        subject: AccountId,
        id: RosterId,
    ) -> (r: Result<(), Error>)
        ensures
            match r {
                Ok(()) => old(self)@.second_error(seconder, motioner, subject, id) is None && final(
                    self)@ == old(self)@.second_post(seconder, motioner, subject, id),
                Err(e) => old(self)@.second_error(seconder, motioner, subject, id) == Some(e)
                    && final(self)@ == old(self)@,
            },
            old(self)@.wf() ==> final(self)@.wf(),
    {
        let i = match self.active_roster(id) {
            Ok(i) => i,
            Err(e) => return Err(e),
        };
        let k = match self.find_proposal(id, motioner, subject) {
            Some(k) => k,
            None => return Err(Error::ExpulsionProposalDoesNotExist),
        };
        match self.can_second_expulsion_proposal(seconder, i, k, id) {
            Ok(()) => {},
            Err(e) => return Err(e),
        }
        let already = contains_account(&self.expulsion_proposals[k].seconds, seconder);
        if !already && self.expulsion_proposals[k].seconds.len() as u64
            >= self.config.seconds_max as u64 {
            return Err(Error::CouldNotAddSeconder);
        }
        if !already {
            self.expulsion_proposals[k].seconds.push(seconder);
        }
        self.expulsion_proposals[k].status = ExpulsionProposalStatus::Seconded;
        let seconds_count = self.expulsion_proposals[k].seconds.len() as u64;
        self.emit(
            Event::SeconderAddedToExpulsionProposal {
                seconder,
                motioner,
                subject,
                roster_id: id,
                seconds_count,
            },
        );
        proof {
            let p = old(self)@.proposal(id, motioner, subject);
            assert(self@.expulsion_proposals =~= old(self)@.expulsion_proposals.update(
                k as int,
                ExpulsionProposalView {
                    seconds: old(self)@.seconds_with(seconder, motioner, subject, id),
                    status: ExpulsionProposalStatus::Seconded,
                    ..p
                },
            ));
        }
        Ok(())
    }

    /// Opens the proposal of `motioner` against `subject` in roster `id` for
    /// voting, once it has enough seconds.
    pub fn expulsion_vote_open(&mut self, motioner: AccountId, subject: AccountId, id: RosterId) -> (r:
        Result<(), Error>)
        ensures
            match r {
                Ok(()) => old(self)@.open_error(motioner, subject, id) is None && final(self)@ == old(
                    self)@.open_post(motioner, subject, id),
                Err(e) => old(self)@.open_error(motioner, subject, id) == Some(e) && final(self)@
                    == old(self)@,
            },
            old(self)@.wf() ==> final(self)@.wf(),
    {
        match self.active_roster(id) {
            Ok(_) => {},
            Err(e) => return Err(e),
        }
        let k = match self.find_proposal(id, motioner, subject) {
            Some(k) => k,
            None => return Err(Error::ExpulsionProposalDoesNotExist),
        };
        if (self.expulsion_proposals[k].seconds.len() as u64)
            < self.config.expulsion_proposal_second_threshold as u64 {
            return Err(Error::InsufficientSeconds);
        }
        if self.expulsion_proposals[k].status != ExpulsionProposalStatus::Seconded {
            return Err(Error::PermissionDenied);
        }
        self.expulsion_proposals[k].status = ExpulsionProposalStatus::Voting;
        self.expulsion_proposals[k].voting_opened_on = Some(self.block_number);
        self.emit(Event::ExpulsionVoteOpened { motioner, subject, roster_id: id });
        proof {
            let p = old(self)@.proposal(id, motioner, subject);
            assert(self@.expulsion_proposals =~= old(self)@.expulsion_proposals.update(
                k as int,
                ExpulsionProposalView {
                    status: ExpulsionProposalStatus::Voting,
                    voting_opened_on: Some(self.block_number),
                    ..p
                },
            ));
        }
        Ok(())
    }

    /// Whether the proposal at position `k` is open for votes now.
    fn check_voting_window(&self, k: usize) -> (r: Result<(), Error>)
        requires
            k < self@.expulsion_proposals.len(),
        ensures
            match self@.voting_window_error(self@.expulsion_proposals[k as int]) {
                Some(e) => r == Err::<(), Error>(e),
                None => r is Ok,
            },
    {
        if self.expulsion_proposals[k].status != ExpulsionProposalStatus::Voting {
            return Err(Error::VotingPeriodHasNotStarted);
        }
        let opened = match self.expulsion_proposals[k].voting_opened_on {
            Some(b) => b,
            None => return Err(Error::VotingPeriodHasNotStarted),
        };
        if (opened as u128) + (self.config.expulsion_proposal_voting_period as u128)
            < self.block_number as u128 {
            return Err(Error::VotingPeriodHasEnded);
        }
        Ok(())
    }

    /// `voter`, a member, votes on the proposal of `motioner` against
    /// `subject` in roster `id`.
    pub fn expulsion_vote_submit_vote(
        &mut self,
        voter: AccountId,
        motioner: AccountId,
        subject: AccountId,
        id: RosterId,
        vote: ExpulsionProposalVoteValue,
    ) -> (r: Result<(), Error>)
        ensures
            match r {
                Ok(()) => old(self)@.expulsion_vote_error(voter, motioner, subject, id) is None
                    && final(self)@ == old(self)@.expulsion_vote_post(
                    voter,
                    motioner,
                    subject,
                    id,
                    vote,
                ),
                Err(e) => old(self)@.expulsion_vote_error(voter, motioner, subject, id) == Some(e)
                    && final(self)@ == old(self)@,
            },
            old(self)@.wf() ==> final(self)@.wf(),
    {
        let i = match self.active_roster(id) {
            Ok(i) => i,
            Err(e) => return Err(e),
        };
        let k = match self.find_proposal(id, motioner, subject) {
            Some(k) => k,
            None => return Err(Error::ExpulsionProposalDoesNotExist),
        };
        if !contains_account(&self.rosters[i].members, voter) {
            return Err(Error::PermissionDenied);
        }
        match self.check_voting_window(k) {
            Ok(()) => {},
            Err(e) => return Err(e),
        }
        if has_voted_on_proposal(&self.expulsion_proposals[k].votes, voter) {
            return Err(Error::AlreadyVoted);
        }
        if self.expulsion_proposals[k].votes.len() as u64
            >= self.config.expulsion_proposal_votes_max as u64 {
            return Err(Error::CouldNotAddVote);
        }
        let ballot = ExpulsionProposalVote::new(voter, vote, self.block_number);
        self.expulsion_proposals[k].votes.push(ballot);
        self.emit(
            Event::ExpulsionVoteSubmitted { voter, motioner, subject, roster_id: id, vote },
        );
        proof {
            let p = old(self)@.proposal(id, motioner, subject);
            assert(self@.expulsion_proposals =~= old(self)@.expulsion_proposals.update(
                k as int,
                ExpulsionProposalView { votes: p.votes.push(ballot), ..p },
            ));
        }
        Ok(())
    }

    /// `voter` withdraws their vote on the proposal of `motioner` against
    /// `subject` in roster `id`.
    pub fn expulsion_vote_recant_vote(
        &mut self,
        voter: AccountId,
        motioner: AccountId,
        subject: AccountId,
        id: RosterId,
    ) -> (r: Result<(), Error>)
        ensures
            match r {
                Ok(()) => old(self)@.expulsion_recant_error(voter, motioner, subject, id) is None
                    && final(self)@ == old(self)@.expulsion_recant_post(voter, motioner, subject, id),
                Err(e) => old(self)@.expulsion_recant_error(voter, motioner, subject, id) == Some(e)
                    && final(self)@ == old(self)@,
            },
            old(self)@.wf() ==> final(self)@.wf(),
    {
        match self.active_roster(id) {
            Ok(_) => {},
            Err(e) => return Err(e),
        }
        let k = match self.find_proposal(id, motioner, subject) {
            Some(k) => k,
            None => return Err(Error::ExpulsionProposalDoesNotExist),
        };
        match self.check_voting_window(k) {
            Ok(()) => {},
            Err(e) => return Err(e),
        }
        if !has_voted_on_proposal(&self.expulsion_proposals[k].votes, voter) {
            return Err(Error::NotVoted);
        }
        remove_expulsion_votes(&mut self.expulsion_proposals[k].votes, voter);
        self.emit(Event::ExpulsionVoteRecanted { voter, motioner, subject, roster_id: id });
        proof {
            let p = old(self)@.proposal(id, motioner, subject);
            assert(self@.expulsion_proposals =~= old(self)@.expulsion_proposals.update(
                k as int,
                ExpulsionProposalView { votes: expulsion_votes_without(p.votes, voter), ..p },
            ));
            if old(self)@.wf() {
                assert(proposal_wf(old(self)@.expulsion_proposals[k as int]));
                lemma_filter_distinct(
                    p.votes,
                    |v: ExpulsionProposalVote| v.voter != voter,
                    |v: ExpulsionProposalVote| v.voter,
                );
                assert forall|q: int| 0 <= q < self@.expulsion_proposals.len() implies proposal_wf(
                    #[trigger] self@.expulsion_proposals[q],
                ) by {
                    assert(proposal_wf(old(self)@.expulsion_proposals[q]));
                }
            }
        }
        Ok(())
    }

    /// Whether the proposal at position `k`, of the roster at position `i`,
    /// is due to be dismissed with prejudice.
    fn can_dismiss_expulsion_proposal_with_prejudice(
        &self,
        i: usize,
        k: usize,
        id: RosterId,
        motioner: AccountId,
        subject: AccountId,
    ) -> (r: bool)
        requires
            i < self@.rosters.len(),
            i as int == self@.roster_index(id),
            k < self@.expulsion_proposals.len(),
            k as int == self@.proposal_index(id, motioner, subject),
        ensures
            r == self@.prejudice_due(motioner, subject, id),
    {
        let now = self.block_number;
        let c = &self.config;
        let p = &self.expulsion_proposals[k];
        if (p.seconds.len() as u64) < c.expulsion_proposal_second_threshold as u64 && (
        p.proposed_on as u128) + (c.expulsion_proposal_awaiting_second_period as u128)
            < now as u128 {
            return true;
        }
        let voting_over = match p.voting_opened_on {
            Some(opened) => (opened as u128) + (c.expulsion_proposal_voting_period as u128)
                < now as u128,
            None => false,
        };
        let nays = count_expulsion_votes(&p.votes, ExpulsionProposalVoteValue::Nay);
        let nays_needed = percent_of_count(
            c.expulsion_proposal_super_majority,
            self.rosters[i].members.len() as u64,
        );
        voting_over && nays >= nays_needed
    }

    /// Whether `seconder` may second the proposal at position `k` of the
    /// roster at position `i`.
    fn can_second_expulsion_proposal(&self, seconder: AccountId, i: usize, k: usize, id: RosterId) -> (r:
        Result<(), Error>)
        requires
            i < self@.rosters.len(),
            i as int == self@.roster_index(id),
            k < self@.expulsion_proposals.len(),
        ensures
            ({
                let p = self@.expulsion_proposals[k as int];
                let refused = !self@.roster(id).members.contains(seconder) || (p.status
                    != ExpulsionProposalStatus::Proposed && p.status
                    != ExpulsionProposalStatus::Seconded) || self@.in_lockout(seconder, id);
                r is Ok <==> !refused
            }),
            r is Err ==> r == Err::<(), Error>(Error::PermissionDenied),
    {
        if !contains_account(&self.rosters[i].members, seconder) {
            return Err(Error::PermissionDenied);
        }
        let status = self.expulsion_proposals[k].status;
        if status != ExpulsionProposalStatus::Proposed && status != ExpulsionProposalStatus::Seconded {
            return Err(Error::PermissionDenied);
        }
        if self.in_lockout_period(seconder, id) {
            return Err(Error::PermissionDenied);
        }
        Ok(())
    }

    /// Decides the proposal at position `k` as `status` now and drops the
    /// reference of the roster at position `i` to it.
    fn decide(
        &mut self,
        i: usize,
        k: usize,
        id: RosterId,
        motioner: AccountId,
        subject: AccountId,
        status: ExpulsionProposalStatus,
    )
        requires
            i < old(self)@.rosters.len(),
            i as int == old(self)@.roster_index(id),
            k < old(self)@.expulsion_proposals.len(),
            k as int == old(self)@.proposal_index(id, motioner, subject),
        ensures
            final(self)@ == old(self)@.decide(motioner, subject, id, status),
            final(self)@.roster_index(id) == i,
            final(self)@.proposal_index(id, motioner, subject) == k,
    {
        remove_pair(&mut self.rosters[i].expulsion_proposals, (motioner, subject));
        self.expulsion_proposals[k].status = status;
        self.expulsion_proposals[k].decided_on = Some(self.block_number);
        proof {
            let r = old(self)@.roster(id);
            let r2 = RosterView {
                expulsion_proposals: without(r.expulsion_proposals, (motioner, subject)),
                ..r
            };
            assert(self@.rosters =~= old(self)@.rosters.update(i as int, r2));
            lemma_last_index(old(self)@.rosters, roster_with(id));
            lemma_last_index_update(old(self)@.rosters, roster_with(id), i as int, r2);
            let p = old(self)@.proposal(id, motioner, subject);
            let p2 = ExpulsionProposalView { status, decided_on: Some(self.block_number), ..p };
            assert(self@.expulsion_proposals =~= old(self)@.expulsion_proposals.update(k as int, p2));
            lemma_last_index(old(self)@.expulsion_proposals, proposal_for(id, motioner, subject));
            lemma_last_index_update(
                old(self)@.expulsion_proposals,
                proposal_for(id, motioner, subject),
                k as int,
                p2,
            );
        }
    }

    /// `closer`, a member, closes the proposal of `motioner` against
    /// `subject` in roster `id`: it is dismissed with prejudice when due,
    /// and otherwise, once its vote has ended, it is dismissed or passes.
    pub fn expulsion_proposal_close(
        &mut self,
        closer: AccountId,
        motioner: AccountId,
        subject: AccountId,
        id: RosterId,
    ) -> (r: Result<(), Error>)
        ensures
            match r {
                Ok(()) => old(self)@.proposal_close_error(closer, motioner, subject, id) is None
                    && final(self)@ == old(self)@.proposal_close_post(closer, motioner, subject, id),
                Err(e) => old(self)@.proposal_close_error(closer, motioner, subject, id) == Some(e)
                    && final(self)@ == old(self)@,
            },
            old(self)@.wf() ==> final(self)@.wf(),
    {
        let i = match self.active_roster(id) {
            Ok(i) => i,
            Err(e) => return Err(e),
        };
        let k = match self.find_proposal(id, motioner, subject) {
            Some(k) => k,
            None => return Err(Error::ExpulsionProposalDoesNotExist),
        };
        let status = self.expulsion_proposals[k].status;
        if !contains_account(&self.rosters[i].members, closer) || !proposal_is_open(status) {
            return Err(Error::PermissionDenied);
        }
        let c = self.config;
        if self.can_dismiss_expulsion_proposal_with_prejudice(i, k, id, motioner, subject) {
            let pot = match self.treasury {
                Some(a) => a,
                None => return Err(Error::TreasuryDoesNotExist),
            };
            self.decide(i, k, id, motioner, subject, ExpulsionProposalStatus::DismissedWithPrejudice);
            let name = self.reserved_currency_name(
                ReservedCurrencyReason::NewExpulsionProposal(id, subject),
            );
            let reparations = percent_of_count(
                c.expulsion_proposal_reparations,
                c.new_expulsion_proposal_deposit,
            );
            self.ledger.repatriate_reserved_named(&name, motioner, subject, reparations);
            let held = self.ledger.reserved_named(&name, motioner);
            self.ledger.repatriate_reserved_named(&name, motioner, pot, held);
            self.emit(
                Event::ExpulsionProposalDismissedWithPrejudice {
                    closer,
                    motioner,
                    subject,
                    roster_id: id,
                },
            );
            proof {
                if old(self)@.wf() {
                    assert forall|q: int| 0 <= q < self@.rosters.len() implies roster_wf(
                        #[trigger] self@.rosters[q],
                    ) by {
                        assert(roster_wf(old(self)@.rosters[q]));
                    }
                }
            }
            return Ok(());
        }
        if status != ExpulsionProposalStatus::Voting {
            return Err(Error::PermissionDenied);
        }
        let voting_over = match self.expulsion_proposals[k].voting_opened_on {
            Some(opened) => (opened as u128) + (c.expulsion_proposal_voting_period as u128)
                < self.block_number as u128,
            None => false,
        };
        if !voting_over {
            return Err(Error::VotingPeriodHasNotEnded);
        }
        let ayes = count_expulsion_votes(
            &self.expulsion_proposals[k].votes,
            ExpulsionProposalVoteValue::Aye,
        );
        let nays = count_expulsion_votes(
            &self.expulsion_proposals[k].votes,
            ExpulsionProposalVoteValue::Nay,
        );
        let total = self.expulsion_proposals[k].votes.len() as u64;
        let members = self.rosters[i].members.len() as u64;
        let quorum = percent_of_count(c.expulsion_proposal_quorum, members);
        if nays >= ayes || total < quorum {
            if self.concluded_expulsion_proposals.len() as u64
                >= c.concluded_expulsion_proposals_max as u64 {
                return Err(Error::CouldNotAddToConcluded);
            }
            remove_pair(&mut self.rosters[i].expulsion_proposals, (motioner, subject));
            proof {
                let r = old(self)@.roster(id);
                assert(self@.rosters =~= old(self)@.rosters.update(
                    i as int,
                    RosterView {
                        expulsion_proposals: without(r.expulsion_proposals, (motioner, subject)),
                        ..r
                    },
                ));
            }
            self.dismiss_proposal(closer, id, motioner, subject);
            proof {
                if old(self)@.wf() {
                    assert forall|q: int| 0 <= q < self@.rosters.len() implies roster_wf(
                        #[trigger] self@.rosters[q],
                    ) by {
                        assert(roster_wf(old(self)@.rosters[q]));
                    }
                }
            }
            return Ok(());
        }
        if self.rosters[i].founder == subject {
            return Err(Error::PermissionDenied);
        }
        let pot = match self.treasury {
            Some(a) => a,
            None => return Err(Error::TreasuryDoesNotExist),
        };
        if self.concluded_expulsion_proposals.len() as u64
            >= c.concluded_expulsion_proposals_max as u64 {
            return Err(Error::CouldNotAddToConcluded);
        }
        let name = self.reserved_currency_name(ReservedCurrencyReason::MembershipDues(id));
        let dues = self.ledger.reserved_named(&name, subject);
        self.decide(i, k, id, motioner, subject, ExpulsionProposalStatus::Passed);
        let ghost decided = self@;
        remove_account(&mut self.rosters[i].members, subject);
        proof {
            let r = decided.roster(id);
            assert(self@.rosters =~= decided.rosters.update(
                i as int,
                RosterView { members: without(r.members, subject), ..r },
            ));
        }
        self.concluded_expulsion_proposals.push((id, motioner, subject));
        self.emit(Event::ExpulsionProposalPassed { closer, motioner, subject, roster_id: id });
        self.emit(Event::MemberRemoved { member: subject, roster_id: id });
        self.ledger.repatriate_reserved_named(&name, subject, pot, dues);
        proof {
            if old(self)@.wf() {
                assert forall|q: int| 0 <= q < self@.rosters.len() implies roster_wf(
                    #[trigger] self@.rosters[q],
                ) by {
                    assert(roster_wf(old(self)@.rosters[q]));
                    if q == i {
                        lemma_without(old(self)@.rosters[q].members, subject);
                    }
                }
            }
        }
        Ok(())
    }
}

} // verus!
