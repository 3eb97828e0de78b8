//! The nomination engine: nominating a non-member, voting, recanting, closing
//! the vote against a decaying quorum, and admitting an approved nominee.
use vstd::prelude::*;

use crate::ledger::{lemma_reserve, LedgerView};
use crate::pallet::{
    nomination_for, nomination_key, nomination_wf, roster_with, roster_wf, Pallet, PalletView,
};
use crate::quorum::{calculate_quorum_threshold, quorum_threshold};
use crate::seqs::{
    contains_account, lemma_filter_distinct, lemma_last_index, lemma_last_index_update,
    lemma_without, remove_account, without,
};
use crate::types::{
    AccountId, BlockNumber, Error, Event, EventView, Nomination, NominationStatus, NominationView,
    NominationVote, NominationVoteValue, ReservedCurrencyReason, RosterId, RosterStatus,
    RosterView,
};

verus! {


/// How many of `votes` have value `value`.
pub open spec fn tally(votes: Seq<NominationVote>, value: NominationVoteValue) -> nat {
    votes.filter(|v: NominationVote| v.vote == value).len()
}

/// Whether `voter` has a vote among `votes`.
pub open spec fn has_voted(votes: Seq<NominationVote>, voter: AccountId) -> bool {
    exists|k: int| 0 <= k < votes.len() && (#[trigger] votes[k]).voter == voter
}

/// `votes` without the votes of `voter`.
pub open spec fn votes_without(votes: Seq<NominationVote>, voter: AccountId) -> Seq<NominationVote> {
    votes.filter(|v: NominationVote| v.voter != voter)
}

/// Why nomination `n` is outside its voting period at `now`, if it is.
pub open spec fn voting_period_error(n: NominationView, period: BlockNumber, now: BlockNumber) -> Option<Error> {
    if n.status == NominationStatus::Approved {
        Some(Error::NominationAlreadyApproved)
    } else if n.status == NominationStatus::Rejected {
        Some(Error::NominationAlreadyRejected)
    } else if n.nominated_on + period < now {
        Some(Error::VotingPeriodEnded)
    } else {
        None
    }
}

impl PalletView {
    /// Why `nominator` cannot nominate `nominee` to roster `id`, if it cannot.
    pub open spec fn nomination_new_error(self, nominator: AccountId, id: RosterId, nominee: AccountId) -> Option<
        Error,
    > {
        let r = self.roster(id);
        if !self.has_roster(id) {
            Some(Error::RosterDoesNotExist)
        } else if r.status != RosterStatus::Active {
            Some(Error::RosterNotActive)
        } else if !r.members.contains(nominator) {
            Some(Error::PermissionDenied)
        } else if r.members.contains(nominee) {
            Some(Error::AlreadyMember)
        } else if self.has_nomination(nominee, id) {
            Some(Error::AlreadyNominated)
        } else if !self.ledger.can_reserve(
            self.name(ReservedCurrencyReason::NewNomination(id, nominee)),
            nominator,
            self.config.new_nomination_deposit,
        ) {
            Some(Error::InsufficientFunds)
        } else if r.nominations.len() >= self.config.nominations_per_roster_max {
            Some(Error::CouldNotAddNomination)
        } else {
            None
        }
    }

    /// The state after `nominator` nominated `nominee` to roster `id`: the
    /// deposit is reserved, a pending nomination with no votes exists and the
    /// roster references it.
    pub open spec fn nomination_new_post(self, nominator: AccountId, id: RosterId, nominee: AccountId) -> PalletView {
        let r = self.roster(id);
        PalletView {
            nominations: self.nominations.push(
                NominationView {
                    roster: id,
                    nominee,
                    nominator,
                    nominated_on: self.block_number,
                    votes: Seq::empty(),
                    status: NominationStatus::Pending,
                },
            ),
            ledger: self.ledger.reserve(
                self.name(ReservedCurrencyReason::NewNomination(id, nominee)),
                nominator,
                self.config.new_nomination_deposit,
            ),
            events: self.events.push(EventView::NewNomination { nominator, nominee, roster_id: id }),
            ..self.with_roster(id, RosterView { nominations: r.nominations.push(nominee), ..r })
        }
    }

    /// Why `voter` cannot vote on the nomination of `nominee` to roster `id`, if it cannot.
    pub open spec fn nomination_vote_error(self, voter: AccountId, id: RosterId, nominee: AccountId) -> Option<
        Error,
    > {
        let n = self.nomination(nominee, id);
        if !self.has_nomination(nominee, id) {
            Some(Error::NominationDoesNotExist)
        } else if voting_period_error(n, self.config.nomination_voting_period, self.block_number) is Some {
            voting_period_error(n, self.config.nomination_voting_period, self.block_number)
        } else if !self.has_roster(id) {
            Some(Error::RosterDoesNotExist)
        } else if !self.roster(id).members.contains(voter) {
            Some(Error::PermissionDenied)
        } else if has_voted(n.votes, voter) {
            Some(Error::AlreadyVoted)
        } else if n.votes.len() >= self.config.nomination_votes_max {
            Some(Error::CouldNotAddVote)
        } else {
            None
        }
    }

    /// The state after `voter` voted `vote` on the nomination of `nominee` to roster `id`.
    pub open spec fn nomination_vote_post(
        self,
        voter: AccountId,
        id: RosterId,
        nominee: AccountId,
        vote: NominationVoteValue,
    ) -> PalletView {
        let n = self.nomination(nominee, id);
        PalletView {
            events: self.events.push(EventView::Voted { voter, vote, nominee, roster_id: id }),
            ..self.with_nomination(
                nominee,
                id,
                NominationView {
                    votes: n.votes.push(NominationVote { voter, vote, voted_on: self.block_number }),
                    ..n
                },
            )
        }
    }

    /// Why `voter` cannot recant a vote on the nomination of `nominee` to roster `id`, if it cannot.
    pub open spec fn nomination_recant_error(self, voter: AccountId, id: RosterId, nominee: AccountId) -> Option<
        Error,
    > {
        let n = self.nomination(nominee, id);
        if !self.has_nomination(nominee, id) {
            Some(Error::NominationDoesNotExist)
        } else if voting_period_error(n, self.config.nomination_voting_period, self.block_number) is Some {
            voting_period_error(n, self.config.nomination_voting_period, self.block_number)
        } else if !has_voted(n.votes, voter) {
            Some(Error::NotVoted)
        } else {
            None
        }
    }

    /// The state after `voter` recanted a vote on the nomination of `nominee` to roster `id`.
    pub open spec fn nomination_recant_post(self, voter: AccountId, id: RosterId, nominee: AccountId) -> PalletView {
        let n = self.nomination(nominee, id);
        PalletView {
            events: self.events.push(EventView::VoteRecanted { voter, nominee, roster_id: id }),
            ..self.with_nomination(
                nominee,
                id,
                NominationView { votes: votes_without(n.votes, voter), ..n },
            )
        }
    }

    /// Whether the vote on the nomination of `nominee` to roster `id` may
    /// close now: its period has passed, the ayes and nays together reach the
    /// quorum, or every member has voted.
    pub open spec fn nomination_closable(self, id: RosterId, nominee: AccountId) -> bool {
        let n = self.nomination(nominee, id);
        let members = self.roster(id).members.len();
        ||| n.nominated_on + self.config.nomination_voting_period < self.block_number
        ||| tally(n.votes, NominationVoteValue::Aye) + tally(n.votes, NominationVoteValue::Nay)
            >= quorum_threshold(
            members as u64,
            self.config.quorum_min,
            self.config.quorum_modifier,
            self.config.nomination_voting_period,
            n.nominated_on,
            self.block_number,
        )
        ||| n.votes.len() >= members
    }

    /// Whether the nomination of `nominee` to roster `id` has more ayes than
    /// nays; a tie rejects.
    pub open spec fn nomination_approved(self, id: RosterId, nominee: AccountId) -> bool {
        let n = self.nomination(nominee, id);
        tally(n.votes, NominationVoteValue::Aye) > tally(n.votes, NominationVoteValue::Nay)
    }

    /// Why the nomination of `nominee` to roster `id` cannot be closed now, if it cannot.
    pub open spec fn nomination_close_error(self, id: RosterId, nominee: AccountId) -> Option<Error> {
        if !self.has_nomination(nominee, id) {
            Some(Error::NominationDoesNotExist)
        } else if self.nomination(nominee, id).status != NominationStatus::Pending {
            Some(Error::VotingPeriodHasEnded)
        } else if !self.has_roster(id) {
            Some(Error::RosterDoesNotExist)
        } else if !self.nomination_closable(id, nominee) {
            Some(Error::VotingPeriodHasNotEnded)
        } else if !self.nomination_approved(id, nominee) && self.concluded_nominations.len()
            >= self.config.concluded_nominations_max {
            Some(Error::CouldNotAddToConcluded)
        } else {
            None
        }
    }

    /// The state after `closer` closed the nomination of `nominee` to roster
    /// `id`: approved, it waits for the nominee to join; rejected, it is
    /// concluded, its deposit released and the roster's reference dropped.
    pub open spec fn nomination_close_post(self, closer: AccountId, id: RosterId, nominee: AccountId) -> PalletView {
        let n = self.nomination(nominee, id);
        if self.nomination_approved(id, nominee) {
            PalletView {
                events: self.events.push(
                    EventView::NominationClosed {
                        nominee,
                        closed_by: closer,
                        roster_id: id,
                        status: NominationStatus::Approved,
                    },
                ),
                ..self.with_nomination(
                    nominee,
                    id,
                    NominationView { status: NominationStatus::Approved, ..n },
                )
            }
        } else {
            let r = self.roster(id);
            self.with_roster(
                id,
                RosterView { nominations: without(r.nominations, nominee), ..r },
            ).reject_nomination(closer, id, nominee)
        }
    }

    /// Why `member` cannot join roster `id` on an approved nomination, if it cannot.
    pub open spec fn add_member_error(self, member: AccountId, id: RosterId) -> Option<Error> {
        let r = self.roster(id);
        if !self.has_nomination(member, id) {
            Some(Error::NominationDoesNotExist)
        } else if self.nomination(member, id).status != NominationStatus::Approved {
            Some(Error::NotApproved)
        } else if !self.has_roster(id) {
            Some(Error::RosterDoesNotExist)
        } else if r.members.contains(member) {
            Some(Error::AlreadyMember)
        } else if r.members.len() >= self.config.members_max {
            Some(Error::CouldNotAddMember)
        } else if !self.ledger.can_reserve(
            self.name(ReservedCurrencyReason::MembershipDues(id)),
            member,
            self.config.membership_dues,
        ) {
            Some(Error::InsufficientFunds)
        } else if self.concluded_nominations.len() >= self.config.concluded_nominations_max {
            Some(Error::CouldNotAddToConcluded)
        } else {
            None
        }
    }

    /// The state after `member` joined roster `id`: the dues are reserved from
    /// the member, the nominator's deposit is released, the nomination is
    /// concluded and the roster's reference dropped.
    pub open spec fn add_member_post(self, member: AccountId, id: RosterId) -> PalletView {
        let r = self.roster(id);
        let n = self.nomination(member, id);
        PalletView {
            ledger: self.ledger.reserve(
                self.name(ReservedCurrencyReason::MembershipDues(id)),
                member,
                self.config.membership_dues,
            ).unreserve(
                self.name(ReservedCurrencyReason::NewNomination(id, member)),
                n.nominator,
                self.config.new_nomination_deposit,
            ),
            concluded_nominations: self.concluded_nominations.push((member, id)),
            events: self.events.push(EventView::MemberAdded { member, roster_id: id }),
            ..self.with_roster(
                id,
                RosterView {
                    members: r.members.push(member),
                    nominations: without(r.nominations, member),
                    ..r
                },
            )
        }
    }

    /// Why `member` cannot be removed from roster `id`, if it cannot.
    pub open spec fn remove_member_error(self, member: AccountId, id: RosterId) -> Option<Error> {
        if !self.has_roster(id) {
            Some(Error::RosterDoesNotExist)
        } else if !self.roster(id).members.contains(member) {
            Some(Error::PermissionDenied)
        } else if self.roster(id).founder == member {
            Some(Error::PermissionDenied)
        } else {
            None
        }
    }

    /// The state after `member` left roster `id`, with the dues released.
    pub open spec fn remove_member_post(self, member: AccountId, id: RosterId) -> PalletView {
        let r = self.roster(id);
        PalletView {
            ledger: self.ledger.unreserve(
                self.name(ReservedCurrencyReason::MembershipDues(id)),
                member,
                self.config.membership_dues,
            ),
            events: self.events.push(EventView::MemberRemoved { member, roster_id: id }),
            ..self.with_roster(id, RosterView { members: without(r.members, member), ..r })
        }
    }

    /// Why `member` cannot be added to roster `id` without a vote, if it cannot.
    pub open spec fn force_add_member_error(self, member: AccountId, id: RosterId) -> Option<Error> {
        let r = self.roster(id);
        if !self.has_roster(id) {
            Some(Error::RosterDoesNotExist)
        } else if r.members.contains(member) {
            Some(Error::AlreadyMember)
        } else if r.members.len() >= self.config.members_max {
            Some(Error::CouldNotAddMember)
        } else if !self.ledger.can_reserve(
            self.name(ReservedCurrencyReason::MembershipDues(id)),
            member,
            self.config.membership_dues,
        ) {
            Some(Error::InsufficientFunds)
        } else {
            None
        }
    }

    /// The state after `member` was added to roster `id` without a vote, with
    /// the dues reserved.
    pub open spec fn force_add_member_post(self, member: AccountId, id: RosterId) -> PalletView {
        let r = self.roster(id);
        PalletView {
            ledger: self.ledger.reserve(
                self.name(ReservedCurrencyReason::MembershipDues(id)),
                member,
                self.config.membership_dues,
            ),
            events: self.events.push(EventView::MemberAdded { member, roster_id: id }),
            ..self.with_roster(id, RosterView { members: r.members.push(member), ..r })
        }
    }
}

impl PalletView {
    /// The state after the nomination of `nominee` to roster `id` was rejected
    /// by `closer`: the nominator's deposit is released, the nomination waits
    /// for removal, and the closing is announced.
    pub open spec fn reject_nomination(self, closer: AccountId, id: RosterId, nominee: AccountId) -> PalletView {
        let n = self.nomination(nominee, id);
        PalletView {
            nominations: self.nominations.update(
                self.nomination_index(nominee, id),
                NominationView { status: NominationStatus::Rejected, ..n },
            ),
            concluded_nominations: self.concluded_nominations.push((nominee, id)),
            ledger: self.ledger.unreserve(
                self.name(ReservedCurrencyReason::NewNomination(id, nominee)),
                n.nominator,
                self.config.new_nomination_deposit,
            ),
            events: self.events.push(
                EventView::NominationClosed {
                    nominee,
                    closed_by: closer,
                    roster_id: id,
                    status: NominationStatus::Rejected,
                },
            ),
            ..self
        }
    }

    /// `reject_nomination` for each of `nominees` in turn.
    pub open spec fn reject_nominations(self, closer: AccountId, id: RosterId, nominees: Seq<AccountId>) -> PalletView
        decreases nominees.len(),
    {
        if nominees.len() == 0 {
            self
        } else {
            self.reject_nominations(closer, id, nominees.drop_last()).reject_nomination(
                closer,
                id,
                nominees.last(),
            )
        }
    }
}

/// Rejecting a nomination keeps every lookup, and all but the nominations,
/// the pending list, the ledger and the events.
pub proof fn lemma_reject_frame(s: PalletView, closer: AccountId, id: RosterId, nominee: AccountId)
    requires
        s.has_nomination(nominee, id),
    ensures
        ({
            let t = s.reject_nomination(closer, id, nominee);
            &&& t.rosters == s.rosters
            &&& t.expulsion_proposals == s.expulsion_proposals
            &&& t.concluded_expulsion_proposals == s.concluded_expulsion_proposals
            &&& t.config == s.config
            &&& t.block_number == s.block_number
            &&& t.treasury == s.treasury
            &&& t.concluded_nominations.len() == s.concluded_nominations.len() + 1
            &&& forall|x: AccountId, r: RosterId| #[trigger]
                t.nomination_index(x, r) == s.nomination_index(x, r)
            &&& t.nominations.len() == s.nominations.len()
            &&& forall|i: int|
                0 <= i < s.nominations.len() ==> (#[trigger] t.nominations[i]).votes
                    == s.nominations[i].votes && nomination_key(t.nominations[i]) == nomination_key(
                    s.nominations[i],
                )
        }),
{
    let i = s.nomination_index(nominee, id);
    lemma_last_index(s.nominations, nomination_for(nominee, id));
    let e = NominationView { status: NominationStatus::Rejected, ..s.nomination(nominee, id) };
    assert forall|x: AccountId, r: RosterId| #[trigger]
        s.reject_nomination(closer, id, nominee).nomination_index(x, r) == s.nomination_index(
            x,
            r,
        ) by {
        lemma_last_index_update(s.nominations, nomination_for(x, r), i, e);
    }
}

/// Rejecting several nominations in turn keeps what a single rejection keeps.
pub proof fn lemma_reject_all_frame(s: PalletView, closer: AccountId, id: RosterId, nominees: Seq<AccountId>)
    requires
        forall|k: int| 0 <= k < nominees.len() ==> s.has_nomination(#[trigger] nominees[k], id),
    ensures
        ({
            let t = s.reject_nominations(closer, id, nominees);
            &&& t.rosters == s.rosters
            &&& t.expulsion_proposals == s.expulsion_proposals
            &&& t.concluded_expulsion_proposals == s.concluded_expulsion_proposals
            &&& t.config == s.config
            &&& t.block_number == s.block_number
            &&& t.treasury == s.treasury
            &&& t.concluded_nominations.len() == s.concluded_nominations.len() + nominees.len()
            &&& forall|x: AccountId, r: RosterId| #[trigger]
                t.nomination_index(x, r) == s.nomination_index(x, r)
            &&& t.nominations.len() == s.nominations.len()
            &&& forall|i: int|
                0 <= i < s.nominations.len() ==> (#[trigger] t.nominations[i]).votes
                    == s.nominations[i].votes && nomination_key(t.nominations[i]) == nomination_key(
                    s.nominations[i],
                )
        }),
    decreases nominees.len(),
{
    if nominees.len() > 0 {
        let rest = nominees.drop_last();
        assert forall|k: int| 0 <= k < rest.len() implies s.has_nomination(#[trigger] rest[k], id) by {
            assert(rest[k] == nominees[k]);
        }
        lemma_reject_all_frame(s, closer, id, rest);
        let m = s.reject_nominations(closer, id, rest);
        assert(s.has_nomination(nominees[nominees.len() - 1], id));
        assert(m.nomination_index(nominees.last(), id) == s.nomination_index(nominees.last(), id));
        lemma_reject_frame(m, closer, id, nominees.last());
    }
}


impl PalletView {
    /// `force_add_member` for each of `members` in turn: the final state, or
    /// the first refusal.
    pub open spec fn force_add_members_outcome(self, members: Seq<AccountId>, id: RosterId) -> Result<
        PalletView,
        Error,
    >
        decreases members.len(),
    {
        if members.len() == 0 {
            Ok(self)
        } else {
            match self.force_add_members_outcome(members.drop_last(), id) {
                Err(e) => Err(e),
                Ok(t) => match t.force_add_member_error(members.last(), id) {
                    Some(e) => Err(e),
                    None => Ok(t.force_add_member_post(members.last(), id)),
                },
            }
        }
    }
}

/// Why the `j`th of `members` would be refused, judged on the state before
/// any of them is added, when all before it were added.
pub open spec fn force_add_check(s: PalletView, members: Seq<AccountId>, id: RosterId, j: int) -> Option<Error> {
    let r = s.roster(id);
    let m = members[j];
    if r.members.contains(m) || members.take(j).contains(m) {
        Some(Error::AlreadyMember)
    } else if r.members.len() + j >= s.config.members_max {
        Some(Error::CouldNotAddMember)
    } else if !s.ledger.can_reserve(
        s.name(ReservedCurrencyReason::MembershipDues(id)),
        m,
        s.config.membership_dues,
    ) {
        Some(Error::InsufficientFunds)
    } else {
        None
    }
}

/// Outside `accounts`, the free balances and the reservations under `name`
/// of `t` are those of `s`.
pub open spec fn balances_kept(t: LedgerView, s: LedgerView, name: Seq<u8>, accounts: Seq<AccountId>) -> bool {
    forall|a: AccountId|
        !accounts.contains(a) ==> #[trigger] t.free_of(a) == s.free_of(a) && t.reserved_of(name, a)
            == s.reserved_of(name, a)
}

/// Once a prefix of the additions is refused, so is every longer one.
pub proof fn lemma_outcome_err_persists(s: PalletView, members: Seq<AccountId>, id: RosterId, j: int, e: Error)
    requires
        0 <= j <= members.len(),
        s.force_add_members_outcome(members.take(j), id) == Err::<PalletView, Error>(e),
    ensures
        forall|k: int| j <= k <= members.len() ==> #[trigger] s.force_add_members_outcome(members.take(k), id)
            == Err::<PalletView, Error>(e),
    decreases members.len() - j,
{
    if j < members.len() {
        assert(members.take(j + 1).drop_last() =~= members.take(j));
        lemma_outcome_err_persists(s, members, id, j + 1, e);
    }
}

/// While no addition is refused, the additions so far put the prefix after
/// the roster's members and leave every other account's balances alone.
pub proof fn lemma_force_add_prefix(s: PalletView, members: Seq<AccountId>, id: RosterId, j: int)
    requires
        s.has_roster(id),
        0 <= j <= members.len(),
        forall|k: int| 0 <= k < j ==> #[trigger] force_add_check(s, members, id, k) is None,
    ensures
        s.force_add_members_outcome(members.take(j), id) is Ok,
        ({
            let t = s.force_add_members_outcome(members.take(j), id)->Ok_0;
            let name = s.name(ReservedCurrencyReason::MembershipDues(id));
            &&& t.config == s.config
            &&& t.roster_index(id) == s.roster_index(id)
            &&& t.rosters.len() == s.rosters.len()
            &&& t.roster(id).members == s.roster(id).members + members.take(j)
            &&& balances_kept(t.ledger, s.ledger, name, members.take(j))
        }),
    decreases j,
{
    let name = s.name(ReservedCurrencyReason::MembershipDues(id));
    lemma_last_index(s.rosters, roster_with(id));
    if j == 0 {
        assert(members.take(0) =~= Seq::<AccountId>::empty());
        assert(s.roster(id).members + members.take(0) =~= s.roster(id).members);
        assert(s.force_add_members_outcome(members.take(0), id) == Ok::<PalletView, Error>(s));
    } else {
        lemma_force_add_prefix(s, members, id, j - 1);
        assert(members.take(j).drop_last() =~= members.take(j - 1));
        let t = s.force_add_members_outcome(members.take(j - 1), id)->Ok_0;
        let m = members[j - 1];
        assert(force_add_check(s, members, id, j - 1) is None);
        assert(!members.take(j - 1).contains(m));
        assert(!t.roster(id).members.contains(m)) by {
            if t.roster(id).members.contains(m) {
                let w = choose|w: int| 0 <= w < t.roster(id).members.len() && t.roster(id).members[w] == m;
                if w < s.roster(id).members.len() {
                    assert(s.roster(id).members[w] == m);
                } else {
                    assert(members.take(j - 1)[w - s.roster(id).members.len()] == m);
                }
            }
        }
        assert(t.force_add_member_error(m, id) is None);
        let u = t.force_add_member_post(m, id);
        let r = t.roster(id);
        let r2 = RosterView { members: r.members.push(m), ..r };
        lemma_last_index(t.rosters, roster_with(id));
        lemma_last_index_update(t.rosters, roster_with(id), t.roster_index(id), r2);
        assert(u.roster(id) == r2);
        assert(r2.members =~= s.roster(id).members + members.take(j));
        assert(members.take(j).last() == m);
        assert(s.force_add_members_outcome(members.take(j), id) == Ok::<PalletView, Error>(u));
        lemma_reserve(t.ledger, name, m, t.config.membership_dues);
        assert(u.ledger == t.ledger.reserve(name, m, t.config.membership_dues));
        assert forall|a: AccountId|
            !members.take(j).contains(a) implies #[trigger] u.ledger.free_of(a) == s.ledger.free_of(a)
                && u.ledger.reserved_of(name, a) == s.ledger.reserved_of(name, a) by {
            assert(members.take(j)[j - 1] == m);
            if !members.take(j - 1).contains(a) {
                assert(t.ledger.free_of(a) == s.ledger.free_of(a));
            }
            if members.take(j - 1).contains(a) {
                let w = choose|w: int| 0 <= w < members.take(j - 1).len() && #[trigger] members.take(j - 1)[w] == a;
                assert(members.take(j)[w] == a);
            }
        }
        assert(balances_kept(u.ledger, s.ledger, name, members.take(j)));
        assert(u.config == s.config);
        assert(u.roster_index(id) == s.roster_index(id));
        assert(u.rosters.len() == s.rosters.len());
        assert(u.roster(id).members == s.roster(id).members + members.take(j));
    }
}

/// The first refused addition, judged on the state before any is added, is
/// the refusal of the whole.
pub proof fn lemma_force_add_fails(s: PalletView, members: Seq<AccountId>, id: RosterId, j: int)
    requires
        s.has_roster(id),
        0 <= j < members.len(),
        forall|k: int| 0 <= k < j ==> #[trigger] force_add_check(s, members, id, k) is None,
        force_add_check(s, members, id, j) is Some,
    ensures
        s.force_add_members_outcome(members.take(j + 1), id) == Err::<PalletView, Error>(
            force_add_check(s, members, id, j)->Some_0,
        ),
{
    lemma_force_add_prefix(s, members, id, j);
    assert(members.take(j + 1).drop_last() =~= members.take(j));
    let t = s.force_add_members_outcome(members.take(j), id)->Ok_0;
    let m = members[j];
    let name = s.name(ReservedCurrencyReason::MembershipDues(id));
    if s.roster(id).members.contains(m) {
        let w = choose|w: int| 0 <= w < s.roster(id).members.len() && s.roster(id).members[w] == m;
        assert(t.roster(id).members[w] == m);
    } else if members.take(j).contains(m) {
        let w = choose|w: int| 0 <= w < members.take(j).len() && #[trigger] members.take(j)[w] == m;
        assert(t.roster(id).members[s.roster(id).members.len() + w] == m);
    } else {
        assert(t.ledger.free_of(m) == s.ledger.free_of(m));
    }
}

/// After rejecting several nominations in turn, each of them is rejected.
pub proof fn lemma_reject_all_marks(s: PalletView, closer: AccountId, id: RosterId, nominees: Seq<AccountId>)
    requires
        forall|k: int| 0 <= k < nominees.len() ==> s.has_nomination(#[trigger] nominees[k], id),
    ensures
        forall|k: int|
            0 <= k < nominees.len() ==> #[trigger] s.reject_nominations(closer, id, nominees).nomination(
                nominees[k],
                id,
            ).status == NominationStatus::Rejected,
    decreases nominees.len(),
{
    if nominees.len() > 0 {
        let rest = nominees.drop_last();
        assert forall|k: int| 0 <= k < rest.len() implies s.has_nomination(#[trigger] rest[k], id) by {
            assert(rest[k] == nominees[k]);
        }
        lemma_reject_all_marks(s, closer, id, rest);
        lemma_reject_all_frame(s, closer, id, rest);
        let m = s.reject_nominations(closer, id, rest);
        let last = nominees.last();
        assert(s.has_nomination(nominees[nominees.len() - 1], id));
        assert(m.nomination_index(last, id) == s.nomination_index(last, id));
        lemma_reject_frame(m, closer, id, last);
        let t = m.reject_nomination(closer, id, last);
        let il = m.nomination_index(last, id);
        lemma_last_index(m.nominations, nomination_for(last, id));
        assert forall|k: int| 0 <= k < nominees.len() implies #[trigger] t.nomination(
            nominees[k],
            id,
        ).status == NominationStatus::Rejected by {
            let x = nominees[k];
            if x != last {
                assert(k < rest.len() && rest[k] == x);
                assert(m.nomination(rest[k], id).status == NominationStatus::Rejected);
                assert(s.has_nomination(x, id));
                let ik = m.nomination_index(x, id);
                assert(ik == s.nomination_index(x, id));
                lemma_last_index(m.nominations, nomination_for(x, id));
                assert(ik != il);
                assert(t.nomination_index(x, id) == ik);
                assert(t.nominations[ik] == m.nominations[ik]);
            }
        }
    }
}

impl Pallet {
    /// Rejects the nomination of `nominee` to roster `id`, releasing the
    /// nominator's deposit; the roster's reference is left to the caller.
    pub(crate) fn reject_nomination(&mut self, closer: AccountId, id: RosterId, nominee: AccountId)
        requires
            old(self)@.has_nomination(nominee, id),
        ensures
            final(self)@ == old(self)@.reject_nomination(closer, id, nominee),
    {
        let j = match self.find_nomination(nominee, id) {
            Some(j) => j,
            None => return,
        };
        self.nominations[j].status = NominationStatus::Rejected;
        let nominator = self.nominations[j].nominator;
        let name = self.reserved_currency_name(ReservedCurrencyReason::NewNomination(id, nominee));
        self.ledger.unreserve_named(&name, nominator, self.config.new_nomination_deposit);
        self.concluded_nominations.push((nominee, id));
        self.emit(
            Event::NominationClosed {
                nominee,
                closed_by: closer,
                roster_id: id,
                status: NominationStatus::Rejected,
            },
        );
        assert(self@.nominations =~= old(self)@.reject_nomination(closer, id, nominee).nominations);
    }
}

/// Whether `voter` has a vote among `votes`.
pub fn has_nomination_vote(votes: &Vec<NominationVote>, voter: AccountId) -> (r: bool)
    ensures
        r == has_voted(votes@, voter),
{
    let mut i: usize = 0;
    while i < votes.len()
        invariant
            i <= votes@.len(),
            forall|j: int| 0 <= j < i ==> (#[trigger] votes@[j]).voter != voter,
        decreases votes@.len() - i,
    {
        if votes[i].voter == voter {
            return true;
        }
        i = i + 1;
    }
    false
}

/// How many of `votes` have value `value`.
pub fn count_nomination_votes(votes: &Vec<NominationVote>, value: NominationVoteValue) -> (r: u64)
    ensures
        r == tally(votes@, value),
{
    let mut count: u64 = 0;
    let mut i: usize = 0;
    while i < votes.len()
        invariant
            i <= votes@.len(),
            count == tally(votes@.take(i as int), value),
            count <= i,
        decreases votes@.len() - i,
    {
        proof {
            reveal(Seq::filter);
            assert(votes@.take(i as int + 1).drop_last() =~= votes@.take(i as int));
        }
        if votes[i].vote == value {
            count = count + 1;
        }
        i = i + 1;
    }
    assert(votes@.take(votes@.len() as int) =~= votes@);
    count
}

/// Takes the votes of `voter` out of `votes`.
fn remove_nomination_votes(votes: &mut Vec<NominationVote>, voter: AccountId)
    ensures
        final(votes)@ == votes_without(old(votes)@, voter),
{
    let mut out: Vec<NominationVote> = Vec::new();
    let mut i: usize = 0;
    while i < votes.len()
        invariant
            i <= votes@.len(),
            votes@ == old(votes)@,
            out@ == votes_without(votes@.take(i as int), voter),
        decreases votes@.len() - i,
    {
        proof {
            reveal(Seq::filter);
            assert(votes@.take(i as int + 1).drop_last() =~= votes@.take(i as int));
        }
        if votes[i].voter != voter {
            out.push(votes[i]);
        }
        i = i + 1;
    }
    assert(votes@.take(votes@.len() as int) =~= votes@);
    *votes = out;
}

impl Pallet {
    /// Whether `nomination` is open for votes now.
    pub fn in_voting_period(&self, nomination: &Nomination) -> (r: Result<bool, Error>)
        ensures
            match voting_period_error(
                nomination@,
                self@.config.nomination_voting_period,
                self@.block_number,
            ) {
                Some(e) => r == Err::<bool, Error>(e),
                None => r == Ok::<bool, Error>(true),
            },
    {
        if nomination.status == NominationStatus::Approved {
            return Err(Error::NominationAlreadyApproved);
        }
        if nomination.status == NominationStatus::Rejected {
            return Err(Error::NominationAlreadyRejected);
        }
        if (nomination.nominated_on as u128) + (self.config.nomination_voting_period as u128)
            < self.block_number as u128 {
            return Err(Error::VotingPeriodEnded);
        }
        Ok(true)
    }

    /// `nominator`, a member of roster `id`, nominates `nominee` to join it.
    pub fn nomination_new(&mut self, nominator: AccountId, id: RosterId, nominee: AccountId) -> (r:
        Result<(), Error>)
        ensures
            match r {
                Ok(()) => old(self)@.nomination_new_error(nominator, id, nominee) is None && final(
                    self)@ == old(self)@.nomination_new_post(nominator, id, nominee),
                Err(e) => old(self)@.nomination_new_error(nominator, id, nominee) == Some(e)
                    && final(self)@ == old(self)@,
            },
            old(self)@.wf() ==> final(self)@.wf(),
    {
        let i = match self.find_roster(id) {
            Some(i) => i,
            None => return Err(Error::RosterDoesNotExist),
        };
        if self.rosters[i].status != RosterStatus::Active {
            return Err(Error::RosterNotActive);
        }
        if !contains_account(&self.rosters[i].members, nominator) {
            return Err(Error::PermissionDenied);
        }
        if contains_account(&self.rosters[i].members, nominee) {
            return Err(Error::AlreadyMember);
        }
        if self.find_nomination(nominee, id).is_some() {
            return Err(Error::AlreadyNominated);
        }
        let name = self.reserved_currency_name(ReservedCurrencyReason::NewNomination(id, nominee));
        let deposit = self.config.new_nomination_deposit;
        if !self.ledger.can_reserve(&name, nominator, deposit) {
            return Err(Error::InsufficientFunds);
        }
        if self.rosters[i].nominations.len() as u64 >= self.config.nominations_per_roster_max as u64 {
            return Err(Error::CouldNotAddNomination);
        }
        let reserved = self.ledger.reserve_named(&name, nominator, deposit);
        assert(reserved is Ok);
        self.nominations.push(Nomination::new(id, nominee, nominator, self.block_number));
        self.rosters[i].nominations.push(nominee);
        self.emit(Event::NewNomination { nominator, nominee, roster_id: id });
        proof {
            let r = old(self)@.roster(id);
            assert(self@.rosters =~= old(self)@.rosters.update(
                i as int,
                RosterView { nominations: r.nominations.push(nominee), ..r },
            ));
            assert(self@.nominations =~= old(self)@.nomination_new_post(
                nominator,
                id,
                nominee,
            ).nominations);
            if old(self)@.wf() {
                lemma_last_index(old(self)@.nominations, nomination_for(nominee, id));
                assert forall|a: int, b: int| 0 <= a < b < self@.nominations.len() implies nomination_key(
                    #[trigger] self@.nominations[a],
                ) != nomination_key(#[trigger] self@.nominations[b]) by {
                    if b == self@.nominations.len() - 1 {
                        assert(!nomination_for(nominee, id)(old(self)@.nominations[a]));
                    } else {
                        assert(self@.nominations[a] == old(self)@.nominations[a]);
                        assert(self@.nominations[b] == old(self)@.nominations[b]);
                    }
                }
                assert forall|j: int| 0 <= j < self@.rosters.len() implies roster_wf(
                    #[trigger] self@.rosters[j],
                ) by {
                    assert(roster_wf(old(self)@.rosters[j]));
                }
            }
        }
        Ok(())
    }

    /// `voter`, a member of roster `id`, votes on the nomination of `nominee`.
    pub fn nomination_vote(
        &mut self,
        voter: AccountId,
        id: RosterId,
        nominee: AccountId,
        vote: NominationVoteValue,
    ) -> (r: Result<(), Error>)
        ensures
            match r {
                Ok(()) => old(self)@.nomination_vote_error(voter, id, nominee) is None && final(
                    self)@ == old(self)@.nomination_vote_post(voter, id, nominee, vote),
                Err(e) => old(self)@.nomination_vote_error(voter, id, nominee) == Some(e) && final(
                    self)@ == old(self)@,
            },
            old(self)@.wf() ==> final(self)@.wf(),
    {
        let j = match self.find_nomination(nominee, id) {
            Some(j) => j,
            None => return Err(Error::NominationDoesNotExist),
        };
        match self.in_voting_period(&self.nominations[j]) {
            Ok(_) => {},
            Err(e) => return Err(e),
        }
        let i = match self.find_roster(id) {
            Some(i) => i,
            None => return Err(Error::RosterDoesNotExist),
        };
        if !contains_account(&self.rosters[i].members, voter) {
            return Err(Error::PermissionDenied);
        }
        if has_nomination_vote(&self.nominations[j].votes, voter) {
            return Err(Error::AlreadyVoted);
        }
        if self.nominations[j].votes.len() as u64 >= self.config.nomination_votes_max as u64 {
            return Err(Error::CouldNotAddVote);
        }
        let ballot = NominationVote::new(voter, vote, self.block_number);
        self.nominations[j].votes.push(ballot);
        self.emit(Event::Voted { voter, vote, nominee, roster_id: id });
        proof {
            let n = old(self)@.nomination(nominee, id);
            assert(self@.nominations =~= old(self)@.nominations.update(
                j as int,
                NominationView { votes: n.votes.push(ballot), ..n },
            ));
        }
        Ok(())
    }

    /// `voter` withdraws their vote on the nomination of `nominee` to roster `id`.
    pub fn nomination_recant_vote(&mut self, voter: AccountId, id: RosterId, nominee: AccountId) -> (r:
        Result<(), Error>)
        ensures
            match r {
                Ok(()) => old(self)@.nomination_recant_error(voter, id, nominee) is None && final(
                    self)@ == old(self)@.nomination_recant_post(voter, id, nominee),
                Err(e) => old(self)@.nomination_recant_error(voter, id, nominee) == Some(e)
                    && final(self)@ == old(self)@,
            },
            old(self)@.wf() ==> final(self)@.wf(),
    {
        let j = match self.find_nomination(nominee, id) {
            Some(j) => j,
            None => return Err(Error::NominationDoesNotExist),
        };
        match self.in_voting_period(&self.nominations[j]) {
            Ok(_) => {},
            Err(e) => return Err(e),
        }
        if !has_nomination_vote(&self.nominations[j].votes, voter) {
            return Err(Error::NotVoted);
        }
        remove_nomination_votes(&mut self.nominations[j].votes, voter);
        self.emit(Event::VoteRecanted { voter, nominee, roster_id: id });
        proof {
            let n = old(self)@.nomination(nominee, id);
            assert(self@.nominations =~= old(self)@.nominations.update(
                j as int,
                NominationView { votes: votes_without(n.votes, voter), ..n },
            ));
            if old(self)@.wf() {
                assert(nomination_wf(old(self)@.nominations[j as int]));
                lemma_filter_distinct(
                    n.votes,
                    |v: NominationVote| v.voter != voter,
                    |v: NominationVote| v.voter,
                );
                assert forall|q: int| 0 <= q < self@.nominations.len() implies nomination_wf(
                    #[trigger] self@.nominations[q],
                ) by {
                    assert(nomination_wf(old(self)@.nominations[q]));
                }
            }
        }
        Ok(())
    }

    /// Closes the vote on the nomination of `nominee` to roster `id`; anyone
    /// may. More ayes than nays approve it; otherwise it is rejected.
    pub fn nomination_close(&mut self, closer: AccountId, id: RosterId, nominee: AccountId) -> (r:
        Result<(), Error>)
        ensures
            match r {
                Ok(()) => old(self)@.nomination_close_error(id, nominee) is None && final(self)@
                    == old(self)@.nomination_close_post(closer, id, nominee),
                Err(e) => old(self)@.nomination_close_error(id, nominee) == Some(e) && final(self)@
                    == old(self)@,
            },
            old(self)@.wf() ==> final(self)@.wf(),
    {
        let j = match self.find_nomination(nominee, id) {
            Some(j) => j,
            None => return Err(Error::NominationDoesNotExist),
        };
        if self.nominations[j].status != NominationStatus::Pending {
            return Err(Error::VotingPeriodHasEnded);
        }
        let i = match self.find_roster(id) {
            Some(i) => i,
            None => return Err(Error::RosterDoesNotExist),
        };
        let ayes = count_nomination_votes(&self.nominations[j].votes, NominationVoteValue::Aye);
        let nays = count_nomination_votes(&self.nominations[j].votes, NominationVoteValue::Nay);
        let members = self.rosters[i].members.len() as u64;
        let opened = self.nominations[j].nominated_on;
        let period = self.config.nomination_voting_period;
        let quorum = calculate_quorum_threshold(
            members,
            self.config.quorum_min,
            self.config.quorum_modifier,
            period,
            opened,
            self.block_number,
        );
        let elapsed = (opened as u128) + (period as u128) < self.block_number as u128;
        let reached = (ayes as u128) + (nays as u128) >= quorum as u128;
        let everyone = self.nominations[j].votes.len() as u64 >= members;
        if !(elapsed || reached || everyone) {
            return Err(Error::VotingPeriodHasNotEnded);
        }
        if ayes > nays {
            self.nominations[j].status = NominationStatus::Approved;
            self.emit(
                Event::NominationClosed {
                    nominee,
                    closed_by: closer,
                    roster_id: id,
                    status: NominationStatus::Approved,
                },
            );
            proof {
                let n = old(self)@.nomination(nominee, id);
                assert(self@.nominations =~= old(self)@.nominations.update(
                    j as int,
                    NominationView { status: NominationStatus::Approved, ..n },
                ));
            }
        } else {
            if self.concluded_nominations.len() as u64 >= self.config.concluded_nominations_max as u64 {
                return Err(Error::CouldNotAddToConcluded);
            }
            remove_account(&mut self.rosters[i].nominations, nominee);
            proof {
                let r = old(self)@.roster(id);
                assert(self@.rosters =~= old(self)@.rosters.update(
                    i as int,
                    RosterView { nominations: without(r.nominations, nominee), ..r },
                ));
            }
            self.reject_nomination(closer, id, nominee);
        }
        proof {
            if old(self)@.wf() {
                assert forall|k: int| 0 <= k < self@.rosters.len() implies roster_wf(
                    #[trigger] self@.rosters[k],
                ) by {
                    assert(roster_wf(old(self)@.rosters[k]));
                }
            }
        }
        Ok(())
    }

    /// `member`, whose nomination to roster `id` was approved, joins it: the
    /// membership dues are reserved from them and the nominator's deposit is
    /// released.
    pub fn add_member(&mut self, member: AccountId, id: RosterId) -> (r: Result<(), Error>)
        ensures
            match r {
                Ok(()) => old(self)@.add_member_error(member, id) is None && final(self)@ == old(
                    self)@.add_member_post(member, id),
                Err(e) => old(self)@.add_member_error(member, id) == Some(e) && final(self)@ == old(
                    self)@,
            },
            old(self)@.wf() ==> final(self)@.wf(),
    {
        let j = match self.find_nomination(member, id) {
            Some(j) => j,
            None => return Err(Error::NominationDoesNotExist),
        };
        if self.nominations[j].status != NominationStatus::Approved {
            return Err(Error::NotApproved);
        }
        let i = match self.find_roster(id) {
            Some(i) => i,
            None => return Err(Error::RosterDoesNotExist),
        };
        if contains_account(&self.rosters[i].members, member) {
            return Err(Error::AlreadyMember);
        }
        if self.rosters[i].members.len() as u64 >= self.config.members_max as u64 {
            return Err(Error::CouldNotAddMember);
        }
        let dues_name = self.reserved_currency_name(ReservedCurrencyReason::MembershipDues(id));
        let dues = self.config.membership_dues;
        if !self.ledger.can_reserve(&dues_name, member, dues) {
            return Err(Error::InsufficientFunds);
        }
        if self.concluded_nominations.len() as u64 >= self.config.concluded_nominations_max as u64 {
            return Err(Error::CouldNotAddToConcluded);
        }
        self.rosters[i].members.push(member);
        remove_account(&mut self.rosters[i].nominations, member);
        let reserved = self.ledger.reserve_named(&dues_name, member, dues);
        assert(reserved is Ok);
        let nominator = self.nominations[j].nominator;
        let deposit_name = self.reserved_currency_name(
            ReservedCurrencyReason::NewNomination(id, member),
        );
        self.ledger.unreserve_named(&deposit_name, nominator, self.config.new_nomination_deposit);
        self.concluded_nominations.push((member, id));
        self.emit(Event::MemberAdded { member, roster_id: id });
        proof {
            let r = old(self)@.roster(id);
            let r2 = RosterView {
                members: r.members.push(member),
                nominations: without(r.nominations, member),
                ..r
            };
            assert(self@.rosters =~= old(self)@.rosters.update(i as int, r2));
            if old(self)@.wf() {
                assert forall|k: int| 0 <= k < self@.rosters.len() implies roster_wf(
                    #[trigger] self@.rosters[k],
                ) by {
                    assert(roster_wf(old(self)@.rosters[k]));
                    if k == i {
                        assert(r2.members[r.members.len() as int] == member);
                        assert(r.members.contains(r.founder));
                        let w = choose|w: int| 0 <= w < r.members.len() && r.members[w] == r.founder;
                        assert(r2.members[w] == r.founder);
                    }
                }
            }
        }
        Ok(())
    }

    /// Removes `member`, who is not the founder, from roster `id`, releasing
    /// their membership dues.
    pub fn remove_member(&mut self, member: AccountId, id: RosterId) -> (r: Result<(), Error>)
        ensures
            match r {
                Ok(()) => old(self)@.remove_member_error(member, id) is None && final(self)@ == old(
                    self)@.remove_member_post(member, id),
                Err(e) => old(self)@.remove_member_error(member, id) == Some(e) && final(self)@
                    == old(self)@,
            },
            old(self)@.wf() ==> final(self)@.wf(),
    {
        let i = match self.find_roster(id) {
            Some(i) => i,
            None => return Err(Error::RosterDoesNotExist),
        };
        if !contains_account(&self.rosters[i].members, member) {
            return Err(Error::PermissionDenied);
        }
        if self.rosters[i].founder == member {
            return Err(Error::PermissionDenied);
        }
        remove_account(&mut self.rosters[i].members, member);
        let dues_name = self.reserved_currency_name(ReservedCurrencyReason::MembershipDues(id));
        self.ledger.unreserve_named(&dues_name, member, self.config.membership_dues);
        self.emit(Event::MemberRemoved { member, roster_id: id });
        proof {
            let r = old(self)@.roster(id);
            assert(self@.rosters =~= old(self)@.rosters.update(
                i as int,
                RosterView { members: without(r.members, member), ..r },
            ));
            lemma_without(r.members, member);
            if old(self)@.wf() {
                assert forall|k: int| 0 <= k < self@.rosters.len() implies roster_wf(
                    #[trigger] self@.rosters[k],
                ) by {
                    assert(roster_wf(old(self)@.rosters[k]));
                }
            }
        }
        Ok(())
    }

    /// Adds `member` to roster `id` without a vote, reserving their dues.
    pub fn force_add_member(&mut self, member: AccountId, id: RosterId) -> (r: Result<(), Error>)
        ensures
            match r {
                Ok(()) => old(self)@.force_add_member_error(member, id) is None && final(self)@
                    == old(self)@.force_add_member_post(member, id),
                Err(e) => old(self)@.force_add_member_error(member, id) == Some(e) && final(self)@
                    == old(self)@,
            },
            old(self)@.wf() ==> final(self)@.wf(),
    {
        let i = match self.find_roster(id) {
            Some(i) => i,
            None => return Err(Error::RosterDoesNotExist),
        };
        if contains_account(&self.rosters[i].members, member) {
            return Err(Error::AlreadyMember);
        }
        if self.rosters[i].members.len() as u64 >= self.config.members_max as u64 {
            return Err(Error::CouldNotAddMember);
        }
        let dues_name = self.reserved_currency_name(ReservedCurrencyReason::MembershipDues(id));
        let dues = self.config.membership_dues;
        if !self.ledger.can_reserve(&dues_name, member, dues) {
            return Err(Error::InsufficientFunds);
        }
        self.rosters[i].members.push(member);
        let reserved = self.ledger.reserve_named(&dues_name, member, dues);
        assert(reserved is Ok);
        self.emit(Event::MemberAdded { member, roster_id: id });
        proof {
            let r = old(self)@.roster(id);
            let r2 = RosterView { members: r.members.push(member), ..r };
            assert(self@.rosters =~= old(self)@.rosters.update(i as int, r2));
            if old(self)@.wf() {
                assert forall|k: int| 0 <= k < self@.rosters.len() implies roster_wf(
                    #[trigger] self@.rosters[k],
                ) by {
                    assert(roster_wf(old(self)@.rosters[k]));
                    if k == i {
                        assert(r2.members[r.members.len() as int] == member);
                        let w = choose|w: int| 0 <= w < r.members.len() && r.members[w] == r.founder;
                        assert(r2.members[w] == r.founder);
                    }
                }
            }
        }
        Ok(())
    }

    /// Adds each of `members` to roster `id` without a vote, in order, or
    /// none of them: the outcome is that of `force_add_member` for each in
    /// turn, and the first refusal refuses the whole.
    pub fn force_add_members(&mut self, members: Vec<AccountId>, id: RosterId) -> (r: Result<(), Error>)
        ensures
            match r {
                Ok(()) => old(self)@.force_add_members_outcome(members@, id) == Ok::<PalletView, Error>(final(self)@),
                Err(e) => old(self)@.force_add_members_outcome(members@, id) == Err::<PalletView, Error>(e)
                    && final(self)@ == old(self)@,
            },
            old(self)@.wf() ==> final(self)@.wf(),
    {
        let n = members.len();
        if n == 0 {
            assert(members@.take(0) =~= members@);
            return Ok(());
        }
        let i = match self.find_roster(id) {
            Some(i) => i,
            None => {
                proof {
                    assert(members@.take(1).drop_last() =~= members@.take(0));
                    assert(members@.take(0).len() == 0);
                    assert(self@.force_add_members_outcome(members@.take(0), id) == Ok::<PalletView, Error>(self@));
                    assert(members@.take(1).last() == members@[0]);
                    assert(self@.force_add_members_outcome(members@.take(1), id) == Err::<PalletView, Error>(Error::RosterDoesNotExist));
                    lemma_outcome_err_persists(self@, members@, id, 1, Error::RosterDoesNotExist);
                    assert(members@.take(n as int) =~= members@);
                }
                return Err(Error::RosterDoesNotExist);
            },
        };
        let dues_name = self.reserved_currency_name(ReservedCurrencyReason::MembershipDues(id));
        let dues = self.config.membership_dues;
        let mut j: usize = 0;
        while j < n
            invariant
                n == members@.len(),
                j <= n,
                i < self@.rosters.len(),
                i as int == self@.roster_index(id),
                self@ == old(self)@,
                dues_name@ == self@.name(ReservedCurrencyReason::MembershipDues(id)),
                dues == self@.config.membership_dues,
                forall|k: int| 0 <= k < j ==> #[trigger] force_add_check(self@, members@, id, k) is None,
            decreases n - j,
        {
            let m = members[j];
            let mut seen = false;
            let mut q: usize = 0;
            while q < j
                invariant
                    j < n,
                    n == members@.len(),
                    q <= j,
                    m == members@[j as int],
                    seen == exists|w: int| 0 <= w < q && #[trigger] members@[w] == m,
                decreases j - q,
            {
                if members[q] == m {
                    seen = true;
                }
                q = q + 1;
            }
            proof {
                if seen {
                    let w = choose|w: int| 0 <= w < j && #[trigger] members@[w] == m;
                    assert(members@.take(j as int)[w] == m);
                }
                if members@.take(j as int).contains(m) {
                    let w = choose|w: int| 0 <= w < members@.take(j as int).len() && #[trigger] members@.take(j as int)[w] == m;
                    assert(members@[w] == m);
                }
            }
            let error = if contains_account(&self.rosters[i].members, m) || seen {
                Some(Error::AlreadyMember)
            } else if self.rosters[i].members.len() as u128 + j as u128 >= self.config.members_max as u128 {
                Some(Error::CouldNotAddMember)
            } else if !self.ledger.can_reserve(&dues_name, m, dues) {
                Some(Error::InsufficientFunds)
            } else {
                None
            };
            match error {
                Some(e) => {
                    proof {
                        assert(force_add_check(self@, members@, id, j as int) == Some(e));
                        lemma_force_add_fails(self@, members@, id, j as int);
                        lemma_outcome_err_persists(self@, members@, id, j as int + 1, e);
                        assert(members@.take(n as int) =~= members@);
                    }
                    return Err(e);
                },
                None => {},
            }
            j = j + 1;
        }
        let ghost start = self@;
        let mut j: usize = 0;
        while j < n
            invariant
                n == members@.len(),
                j <= n,
                start == old(self)@,
                start.has_roster(id),
                forall|k: int| 0 <= k < n ==> #[trigger] force_add_check(start, members@, id, k) is None,
                start.force_add_members_outcome(members@.take(j as int), id) == Ok::<PalletView, Error>(self@),
                old(self)@.wf() ==> self@.wf(),
            decreases n - j,
        {
            proof {
                lemma_force_add_prefix(start, members@, id, j as int + 1);
                assert(members@.take(j as int + 1).drop_last() =~= members@.take(j as int));
            }
            let added = self.force_add_member(members[j], id);
            assert(added is Ok);
            j = j + 1;
        }
        assert(members@.take(n as int) =~= members@);
        Ok(())
    }
}

} // verus!
