//! Plain data of the roster engine: identifiers, entities, their views,
//! configuration, events and errors.
use vstd::prelude::*;

verus! {

/// An already-authenticated account identity.
pub type AccountId = u64;

/// A tick of the host's logical clock.
pub type BlockNumber = u64;

/// An amount of currency.
pub type Balance = u64;

/// A 16-byte roster identifier, held as the big-endian value of its bytes.
#[derive(Clone, Copy, Debug, PartialEq, Eq, Structural, Hash)]
pub struct RosterId(pub u128);

#[derive(Clone, Copy, Debug, PartialEq, Eq, Structural)]
pub enum RosterStatus {
    Active,
    Inactive,
}

#[derive(Clone, Copy, Debug, PartialEq, Eq, Structural)]
pub enum NominationStatus {
    Pending,
    Approved,
    Rejected,
}

#[derive(Clone, Copy, Debug, PartialEq, Eq, Structural)]
pub enum NominationVoteValue {
    Aye,
    Nay,
}

#[derive(Clone, Copy, Debug, PartialEq, Eq, Structural)]
pub enum ExpulsionProposalStatus {
    Proposed,
    Seconded,
    Voting,
    Passed,
    Dismissed,
    DismissedWithPrejudice,
}

#[derive(Clone, Copy, Debug, PartialEq, Eq, Structural)]
pub enum ExpulsionProposalVoteValue {
    Aye,
    Nay,
    Abstain,
}

/// Why an amount is held in reserve; each reason names its own reservation.
#[derive(Clone, Copy, Debug, PartialEq, Eq, Structural)]
pub enum ReservedCurrencyReason {
    NewRoster(RosterId),
    NewNomination(RosterId, AccountId),
    MembershipDues(RosterId),
    NewExpulsionProposal(RosterId, AccountId),
}

/// A named group with a founder, a status and a member list.
#[derive(Debug)]
pub struct Roster {
    pub id: RosterId,
    pub founder: AccountId,
    pub title: Vec<u8>,
    pub members: Vec<AccountId>,
    /// Nominees whose nomination to this roster is still referenced.
    pub nominations: Vec<AccountId>,
    /// Open expulsion proposals, as (motioner, subject) pairs.
    pub expulsion_proposals: Vec<(AccountId, AccountId)>,
    pub founded_on: BlockNumber,
    pub status: RosterStatus,
}

pub struct RosterView {
    pub id: RosterId,
    pub founder: AccountId,
    pub title: Seq<u8>,
    pub members: Seq<AccountId>,
    pub nominations: Seq<AccountId>,
    pub expulsion_proposals: Seq<(AccountId, AccountId)>,
    pub founded_on: BlockNumber,
    pub status: RosterStatus,
}

impl View for Roster {
    type V = RosterView;

    open spec fn view(&self) -> RosterView {
        RosterView {
            id: self.id,
            founder: self.founder,
            title: self.title@,
            members: self.members@,
            nominations: self.nominations@,
            expulsion_proposals: self.expulsion_proposals@,
            founded_on: self.founded_on,
            status: self.status,
        }
    }
}

impl Roster {
    /// A fresh active roster whose only member is its founder.
    pub fn new(id: RosterId, founder: AccountId, title: Vec<u8>, founded_on: BlockNumber) -> (r:
        Roster)
        ensures
            r@ == (RosterView {
                id,
                founder,
                title: title@,
                members: seq![founder],
                nominations: Seq::empty(),
                expulsion_proposals: Seq::empty(),
                founded_on,
                status: RosterStatus::Active,
            }),
    {
        let mut members: Vec<AccountId> = Vec::new();
        members.push(founder);
        let r = Roster {
            id,
            founder,
            title,
            members,
            nominations: Vec::new(),
            expulsion_proposals: Vec::new(),
            founded_on,
            status: RosterStatus::Active,
        };
        assert(r@.members =~= seq![founder]);
        assert(r@.nominations =~= Seq::empty());
        assert(r@.expulsion_proposals =~= Seq::empty());
        r
    }
}

#[derive(Clone, Copy, Debug, PartialEq, Eq, Structural)]
pub struct NominationVote {
    pub voter: AccountId,
    pub vote: NominationVoteValue,
    pub voted_on: BlockNumber,
}

impl NominationVote {
    pub fn new(voter: AccountId, vote: NominationVoteValue, voted_on: BlockNumber) -> (r:
        NominationVote)
        ensures
            r == (NominationVote { voter, vote, voted_on }),
    {
        NominationVote { voter, vote, voted_on }
    }
}

/// A proposal to admit `nominee` into roster `roster`, decided by member vote.
#[derive(Debug)]
pub struct Nomination {
    pub roster: RosterId,
    pub nominee: AccountId,
    pub nominator: AccountId,
    pub nominated_on: BlockNumber,
    pub votes: Vec<NominationVote>,
    pub status: NominationStatus,
}

pub struct NominationView {
    pub roster: RosterId,
    pub nominee: AccountId,
    pub nominator: AccountId,
    pub nominated_on: BlockNumber,
    pub votes: Seq<NominationVote>,
    pub status: NominationStatus,
}

impl View for Nomination {
    type V = NominationView;

    open spec fn view(&self) -> NominationView {
        NominationView {
            roster: self.roster,
            nominee: self.nominee,
            nominator: self.nominator,
            nominated_on: self.nominated_on,
            votes: self.votes@,
            status: self.status,
        }
    }
}

impl Nomination {
    /// A pending nomination with no votes.
    pub fn new(
        roster: RosterId,
        nominee: AccountId,
        nominator: AccountId,
        nominated_on: BlockNumber,
    ) -> (r: Nomination)
        ensures
            r@ == (NominationView {
                roster,
                nominee,
                nominator,
                nominated_on,
                votes: Seq::empty(),
                status: NominationStatus::Pending,
            }),
    {
        let r = Nomination {
            roster,
            nominee,
            nominator,
            nominated_on,
            votes: Vec::new(),
            status: NominationStatus::Pending,
        };
        assert(r@.votes =~= Seq::empty());
        r
    }
}

#[derive(Clone, Copy, Debug, PartialEq, Eq, Structural)]
pub struct ExpulsionProposalVote {
    pub voter: AccountId,
    pub vote: ExpulsionProposalVoteValue,
    pub voted_on: BlockNumber,
}

impl ExpulsionProposalVote {
    pub fn new(voter: AccountId, vote: ExpulsionProposalVoteValue, voted_on: BlockNumber) -> (r:
        ExpulsionProposalVote)
        ensures
            r == (ExpulsionProposalVote { voter, vote, voted_on }),
    {
        ExpulsionProposalVote { voter, vote, voted_on }
    }
}

/// A proposal by `motioner` to expel `subject` from roster `roster`.
#[derive(Debug)]
pub struct ExpulsionProposal {
    pub motioner: AccountId,
    pub seconds: Vec<AccountId>,
    pub subject: AccountId,
    pub roster: RosterId,
    pub reason: Vec<u8>,
    pub proposed_on: BlockNumber,
    pub voting_opened_on: Option<BlockNumber>,
    pub decided_on: Option<BlockNumber>,
    pub votes: Vec<ExpulsionProposalVote>,
    pub status: ExpulsionProposalStatus,
}

pub struct ExpulsionProposalView {
    pub motioner: AccountId,
    pub seconds: Seq<AccountId>,
    pub subject: AccountId,
    pub roster: RosterId,
    pub reason: Seq<u8>,
    pub proposed_on: BlockNumber,
    pub voting_opened_on: Option<BlockNumber>,
    pub decided_on: Option<BlockNumber>,
    pub votes: Seq<ExpulsionProposalVote>,
    pub status: ExpulsionProposalStatus,
}

impl View for ExpulsionProposal {
    type V = ExpulsionProposalView;

    open spec fn view(&self) -> ExpulsionProposalView {
        ExpulsionProposalView {
            motioner: self.motioner,
            seconds: self.seconds@,
            subject: self.subject,
            roster: self.roster,
            reason: self.reason@,
            proposed_on: self.proposed_on,
            voting_opened_on: self.voting_opened_on,
            decided_on: self.decided_on,
            votes: self.votes@,
            status: self.status,
        }
    }
}

impl ExpulsionProposal {
    /// A freshly proposed expulsion with no seconds and no votes.
    pub fn new(
        motioner: AccountId,
        subject: AccountId,
        roster: RosterId,
        reason: Vec<u8>,
        proposed_on: BlockNumber,
    ) -> (r: ExpulsionProposal)
        ensures
            r@ == (ExpulsionProposalView {
                motioner,
                seconds: Seq::empty(),
                subject,
                roster,
                reason: reason@,
                proposed_on,
                voting_opened_on: None,
                decided_on: None,
                votes: Seq::empty(),
                status: ExpulsionProposalStatus::Proposed,
            }),
    {
        let r = ExpulsionProposal {
            motioner,
            seconds: Vec::new(),
            subject,
            roster,
            reason,
            proposed_on,
            voting_opened_on: None,
            decided_on: None,
            votes: Vec::new(),
            status: ExpulsionProposalStatus::Proposed,
        };
        assert(r@.seconds =~= Seq::empty());
        assert(r@.votes =~= Seq::empty());
        r
    }
}

/// The engine's parameters.
#[derive(Clone, Copy, Debug)]
pub struct Config {
    /// Eight bytes that every reservation name of this engine carries.
    pub pallet_id: [u8; 8],
    pub new_roster_deposit: Balance,
    pub membership_dues: Balance,
    pub new_nomination_deposit: Balance,
    pub new_expulsion_proposal_deposit: Balance,
    /// Percent of a slashed proposal deposit that goes to the subject.
    pub expulsion_proposal_reparations: u8,
    pub title_max_length: u32,
    pub members_max: u32,
    pub nomination_votes_max: u32,
    pub nomination_voting_period: BlockNumber,
    pub nominations_per_roster_max: u32,
    pub concluded_nominations_max: u32,
    /// Lowest quorum, in percent of the members.
    pub quorum_min: u8,
    /// Percent applied to the share of the voting period that remains.
    pub quorum_modifier: u8,
    pub expulsion_proposal_awaiting_second_period: BlockNumber,
    pub expulsion_proposal_voting_period: BlockNumber,
    pub expulsion_proposals_per_roster_max: u32,
    pub expulsion_proposal_second_threshold: u32,
    pub seconds_max: u32,
    pub expulsion_reason_max_length: u32,
    pub expulsion_reason_min_length: u32,
    pub expulsion_proposal_votes_max: u32,
    pub concluded_expulsion_proposals_max: u32,
    pub expulsion_proposal_lockout_period: BlockNumber,
    /// Percent of the members voting nay that dismisses with prejudice.
    pub expulsion_proposal_super_majority: u8,
    /// Percent of the members that must vote for a proposal to pass.
    pub expulsion_proposal_quorum: u8,
}

/// A notification of one state transition.
#[derive(Clone, Debug, PartialEq, Eq)]
pub enum Event {
    NewRoster { founder: AccountId, title: Vec<u8>, roster_id: RosterId },
    RosterStatusChanged { changed_by: AccountId, roster_id: RosterId, new_status: RosterStatus },
    RosterRemoved { removed_by: AccountId, roster_id: RosterId },
    NewNomination { nominator: AccountId, nominee: AccountId, roster_id: RosterId },
    NominationClosed {
        nominee: AccountId,
        closed_by: AccountId,
        roster_id: RosterId,
        status: NominationStatus,
    },
    Voted {
        voter: AccountId,
        vote: NominationVoteValue,
        nominee: AccountId,
        roster_id: RosterId,
    },
    VoteRecanted { voter: AccountId, nominee: AccountId, roster_id: RosterId },
    MemberAdded { member: AccountId, roster_id: RosterId },
    MemberRemoved { member: AccountId, roster_id: RosterId },
    NewExpulsionProposal {
        motioner: AccountId,
        subject: AccountId,
        roster_id: RosterId,
        reason: Vec<u8>,
    },
    SeconderAddedToExpulsionProposal {
        seconder: AccountId,
        motioner: AccountId,
        subject: AccountId,
        roster_id: RosterId,
        seconds_count: u64,
    },
    ExpulsionVoteOpened { motioner: AccountId, subject: AccountId, roster_id: RosterId },
    ExpulsionVoteSubmitted {
        voter: AccountId,
        motioner: AccountId,
        subject: AccountId,
        roster_id: RosterId,
        vote: ExpulsionProposalVoteValue,
    },
    ExpulsionVoteRecanted {
        voter: AccountId,
        motioner: AccountId,
        subject: AccountId,
        roster_id: RosterId,
    },
    ExpulsionProposalDismissedWithPrejudice {
        closer: AccountId,
        motioner: AccountId,
        subject: AccountId,
        roster_id: RosterId,
    },
    ExpulsionProposalDismissed {
        closer: AccountId,
        motioner: AccountId,
        subject: AccountId,
        roster_id: RosterId,
    },
    ExpulsionProposalPassed {
        closer: AccountId,
        motioner: AccountId,
        subject: AccountId,
        roster_id: RosterId,
    },
}

/// The abstract value of an event.
pub enum EventView {
    NewRoster { founder: AccountId, title: Seq<u8>, roster_id: RosterId },
    RosterStatusChanged { changed_by: AccountId, roster_id: RosterId, new_status: RosterStatus },
    RosterRemoved { removed_by: AccountId, roster_id: RosterId },
    NewNomination { nominator: AccountId, nominee: AccountId, roster_id: RosterId },
    NominationClosed {
        nominee: AccountId,
        closed_by: AccountId,
        roster_id: RosterId,
        status: NominationStatus,
    },
    Voted {
        voter: AccountId,
        vote: NominationVoteValue,
        nominee: AccountId,
        roster_id: RosterId,
    },
    VoteRecanted { voter: AccountId, nominee: AccountId, roster_id: RosterId },
    MemberAdded { member: AccountId, roster_id: RosterId },
    MemberRemoved { member: AccountId, roster_id: RosterId },
    NewExpulsionProposal {
        motioner: AccountId,
        subject: AccountId,
        roster_id: RosterId,
        reason: Seq<u8>,
    },
    SeconderAddedToExpulsionProposal {
        seconder: AccountId,
        motioner: AccountId,
        subject: AccountId,
        roster_id: RosterId,
        seconds_count: u64,
    },
    ExpulsionVoteOpened { motioner: AccountId, subject: AccountId, roster_id: RosterId },
    ExpulsionVoteSubmitted {
        voter: AccountId,
        motioner: AccountId,
        subject: AccountId,
        roster_id: RosterId,
        vote: ExpulsionProposalVoteValue,
    },
    ExpulsionVoteRecanted {
        voter: AccountId,
        motioner: AccountId,
        subject: AccountId,
        roster_id: RosterId,
    },
    ExpulsionProposalDismissedWithPrejudice {
        closer: AccountId,
        motioner: AccountId,
        subject: AccountId,
        roster_id: RosterId,
    },
    ExpulsionProposalDismissed {
        closer: AccountId,
        motioner: AccountId,
        subject: AccountId,
        roster_id: RosterId,
    },
    ExpulsionProposalPassed {
        closer: AccountId,
        motioner: AccountId,
        subject: AccountId,
        roster_id: RosterId,
    },
}

impl View for Event {
    type V = EventView;

    open spec fn view(&self) -> EventView {
        match self {
            Event::NewRoster { founder, title, roster_id } => EventView::NewRoster {
                founder: *founder,
                title: title@,
                roster_id: *roster_id,
            },
            Event::RosterStatusChanged {
                changed_by,
                roster_id,
                new_status,
            } => EventView::RosterStatusChanged {
                changed_by: *changed_by,
                roster_id: *roster_id,
                new_status: *new_status,
            },
            Event::RosterRemoved { removed_by, roster_id } => EventView::RosterRemoved {
                removed_by: *removed_by,
                roster_id: *roster_id,
            },
            Event::NewNomination { nominator, nominee, roster_id } => EventView::NewNomination {
                nominator: *nominator,
                nominee: *nominee,
                roster_id: *roster_id,
            },
            Event::NominationClosed {
                nominee,
                closed_by,
                roster_id,
                status,
            } => EventView::NominationClosed {
                nominee: *nominee,
                closed_by: *closed_by,
                roster_id: *roster_id,
                status: *status,
            },
            Event::Voted { voter, vote, nominee, roster_id } => EventView::Voted {
                voter: *voter,
                vote: *vote,
                nominee: *nominee,
                roster_id: *roster_id,
            },
            Event::VoteRecanted { voter, nominee, roster_id } => EventView::VoteRecanted {
                voter: *voter,
                nominee: *nominee,
                roster_id: *roster_id,
            },
            Event::MemberAdded { member, roster_id } => EventView::MemberAdded {
                member: *member,
                roster_id: *roster_id,
            },
            Event::MemberRemoved { member, roster_id } => EventView::MemberRemoved {
                member: *member,
                roster_id: *roster_id,
            },
            Event::NewExpulsionProposal {
                motioner,
                subject,
                roster_id,
                reason,
            } => EventView::NewExpulsionProposal {
                motioner: *motioner,
                subject: *subject,
                roster_id: *roster_id,
                reason: reason@,
            },
            Event::SeconderAddedToExpulsionProposal {
                seconder,
                motioner,
                subject,
                roster_id,
                seconds_count,
            } => EventView::SeconderAddedToExpulsionProposal {
                seconder: *seconder,
                motioner: *motioner,
                subject: *subject,
                roster_id: *roster_id,
                seconds_count: *seconds_count,
            },
            Event::ExpulsionVoteOpened {
                motioner,
                subject,
                roster_id,
            } => EventView::ExpulsionVoteOpened {
                motioner: *motioner,
                subject: *subject,
                roster_id: *roster_id,
            },
            Event::ExpulsionVoteSubmitted {
                voter,
                motioner,
                subject,
                roster_id,
                vote,
            } => EventView::ExpulsionVoteSubmitted {
                voter: *voter,
                motioner: *motioner,
                subject: *subject,
                roster_id: *roster_id,
                vote: *vote,
            },
            Event::ExpulsionVoteRecanted {
                voter,
                motioner,
                subject,
                roster_id,
            } => EventView::ExpulsionVoteRecanted {
                voter: *voter,
                motioner: *motioner,
                subject: *subject,
                roster_id: *roster_id,
            },
            Event::ExpulsionProposalDismissedWithPrejudice {
                closer,
                motioner,
                subject,
                roster_id,
            } => EventView::ExpulsionProposalDismissedWithPrejudice {
                closer: *closer,
                motioner: *motioner,
                subject: *subject,
                roster_id: *roster_id,
            },
            Event::ExpulsionProposalDismissed {
                closer,
                motioner,
                subject,
                roster_id,
            } => EventView::ExpulsionProposalDismissed {
                closer: *closer,
                motioner: *motioner,
                subject: *subject,
                roster_id: *roster_id,
            },
            Event::ExpulsionProposalPassed {
                closer,
                motioner,
                subject,
                roster_id,
            } => EventView::ExpulsionProposalPassed {
                closer: *closer,
                motioner: *motioner,
                subject: *subject,
                roster_id: *roster_id,
            },
        }
    }
}

/// Why an operation was refused. A refused operation changes nothing.
#[derive(Clone, Copy, Debug, PartialEq, Eq, Structural)]
pub enum Error {
    TreasuryDoesNotExist,
    InsufficientFunds,
    VotingPeriodHasNotStarted,
    VotingPeriodEnded,
    VotingPeriodHasNotEnded,
    VotingPeriodHasEnded,
    AlreadyVoted,
    NotVoted,
    CouldNotAddVote,
    InvalidRosterTitle,
    RosterExists,
    RosterDoesNotExist,
    RosterActive,
    RosterNotActive,
    PermissionDenied,
    AlreadyMember,
    AlreadyNominated,
    NominationDoesNotExist,
    NominationAlreadyApproved,
    NominationAlreadyRejected,
    NotApproved,
    CouldNotAddMember,
    CouldNotAddNomination,
    CouldNotAddToConcluded,
    InvalidExpulsionReason,
    ExpulsionProposalDoesNotExist,
    CouldNotAddExpulsionProposal,
    CouldNotAddSeconder,
    InsufficientSeconds,
    CouldNotRemoveAllExpulsionProposals,
}

} // verus!
