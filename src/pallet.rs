//! The engine's state: rosters, nominations and expulsion proposals, the
//! pending-removal lists of concluded ones, the reservation ledger, the event
//! log and the clock, with the lookups that every operation shares.
use vstd::prelude::*;

use crate::identity::{currency_name, reserved_currency_name};
use crate::ledger::{Ledger, LedgerView};
use crate::seqs::{last_index, lemma_last_index_at};
use crate::types::{
    AccountId, Balance, BlockNumber, Config, Event, EventView, ExpulsionProposal, ExpulsionProposalStatus,
    ExpulsionProposalView, Nomination, NominationView, ReservedCurrencyReason, Roster, RosterId,
    RosterView,
};

verus! {

pub struct Pallet {
    pub config: Config,
    pub block_number: BlockNumber,
    pub treasury: Option<AccountId>,
    pub rosters: Vec<Roster>,
    pub nominations: Vec<Nomination>,
    /// (nominee, roster) of each concluded nomination, removed at the next tick.
    pub concluded_nominations: Vec<(AccountId, RosterId)>,
    pub expulsion_proposals: Vec<ExpulsionProposal>,
    /// (roster, motioner, subject) of each concluded proposal that is removed
    /// at the next tick.
    pub concluded_expulsion_proposals: Vec<(RosterId, AccountId, AccountId)>,
    pub ledger: Ledger,
    pub events: Vec<Event>,
}

pub struct PalletView {
    pub config: Config,
    pub block_number: BlockNumber,
    pub treasury: Option<AccountId>,
    pub rosters: Seq<RosterView>,
    pub nominations: Seq<NominationView>,
    pub concluded_nominations: Seq<(AccountId, RosterId)>,
    pub expulsion_proposals: Seq<ExpulsionProposalView>,
    pub concluded_expulsion_proposals: Seq<(RosterId, AccountId, AccountId)>,
    pub ledger: LedgerView,
    pub events: Seq<EventView>,
}

impl View for Pallet {
    type V = PalletView;

    open spec fn view(&self) -> PalletView {
        PalletView {
            config: self.config,
            block_number: self.block_number,
            treasury: self.treasury,
            rosters: self.rosters@.map_values(|r: Roster| r@),
            nominations: self.nominations@.map_values(|n: Nomination| n@),
            concluded_nominations: self.concluded_nominations@,
            expulsion_proposals: self.expulsion_proposals@.map_values(|p: ExpulsionProposal| p@),
            concluded_expulsion_proposals: self.concluded_expulsion_proposals@,
            ledger: self.ledger@,
            events: self.events@.map_values(|e: Event| e@),
        }
    }
}

/// Whether a roster has identifier `id`.
pub open spec fn roster_with(id: RosterId) -> spec_fn(RosterView) -> bool {
    |r: RosterView| r.id == id
}

/// Whether a nomination is the one of `nominee` to roster `id`.
pub open spec fn nomination_for(nominee: AccountId, id: RosterId) -> spec_fn(NominationView) -> bool {
    |n: NominationView| n.nominee == nominee && n.roster == id
}

/// Whether a proposal is the one of `motioner` against `subject` in roster `id`.
pub open spec fn proposal_for(id: RosterId, motioner: AccountId, subject: AccountId) -> spec_fn(
    ExpulsionProposalView,
) -> bool {
    |p: ExpulsionProposalView| p.roster == id && p.motioner == motioner && p.subject == subject
}

/// Whether a proposal is still open: proposed, seconded or being voted on.
pub open spec fn is_open(status: ExpulsionProposalStatus) -> bool {
    status == ExpulsionProposalStatus::Proposed || status == ExpulsionProposalStatus::Seconded
        || status == ExpulsionProposalStatus::Voting
}

/// The roster counts its founder among its members and lists no member twice.
pub open spec fn roster_wf(r: RosterView) -> bool {
    r.members.contains(r.founder) && r.members.no_duplicates()
}

/// No two votes on the nomination come from one voter.
pub open spec fn nomination_wf(n: NominationView) -> bool {
    forall|i: int, j: int|
        0 <= i < j < n.votes.len() ==> (#[trigger] n.votes[i]).voter != (#[trigger] n.votes[j]).voter
}

/// No two votes on the proposal come from one voter, and no seconder is
/// listed twice.
pub open spec fn proposal_wf(p: ExpulsionProposalView) -> bool {
    &&& forall|i: int, j: int|
        0 <= i < j < p.votes.len() ==> (#[trigger] p.votes[i]).voter != (#[trigger] p.votes[j]).voter
    &&& p.seconds.no_duplicates()
}

/// The key of a nomination: its nominee and roster.
pub open spec fn nomination_key(n: NominationView) -> (AccountId, RosterId) {
    (n.nominee, n.roster)
}

/// The key of a proposal: its roster, motioner and subject.
pub open spec fn proposal_key(p: ExpulsionProposalView) -> (RosterId, AccountId, AccountId) {
    (p.roster, p.motioner, p.subject)
}

impl PalletView {
    pub open spec fn roster_index(self, id: RosterId) -> int {
        last_index(self.rosters, roster_with(id))
    }

    pub open spec fn has_roster(self, id: RosterId) -> bool {
        self.roster_index(id) >= 0
    }

    /// The roster with identifier `id` (meaningful when it exists).
    pub open spec fn roster(self, id: RosterId) -> RosterView {
        self.rosters[self.roster_index(id)]
    }

    pub open spec fn nomination_index(self, nominee: AccountId, id: RosterId) -> int {
        last_index(self.nominations, nomination_for(nominee, id))
    }

    pub open spec fn has_nomination(self, nominee: AccountId, id: RosterId) -> bool {
        self.nomination_index(nominee, id) >= 0
    }

    pub open spec fn nomination(self, nominee: AccountId, id: RosterId) -> NominationView {
        self.nominations[self.nomination_index(nominee, id)]
    }

    pub open spec fn proposal_index(self, id: RosterId, motioner: AccountId, subject: AccountId) -> int {
        last_index(self.expulsion_proposals, proposal_for(id, motioner, subject))
    }

    pub open spec fn has_proposal(self, id: RosterId, motioner: AccountId, subject: AccountId) -> bool {
        self.proposal_index(id, motioner, subject) >= 0
    }

    pub open spec fn proposal(
        self,
        id: RosterId,
        motioner: AccountId,
        subject: AccountId,
    ) -> ExpulsionProposalView {
        self.expulsion_proposals[self.proposal_index(id, motioner, subject)]
    }

    /// The name of the reservation kept for `reason`.
    pub open spec fn name(self, reason: ReservedCurrencyReason) -> Seq<u8> {
        currency_name(self.config.pallet_id@, reason)
    }

    /// The state with the roster `id` replaced by `r`.
    pub open spec fn with_roster(self, id: RosterId, r: RosterView) -> PalletView {
        PalletView { rosters: self.rosters.update(self.roster_index(id), r), ..self }
    }

    /// The state with the nomination of `nominee` to `id` replaced by `n`.
    pub open spec fn with_nomination(self, nominee: AccountId, id: RosterId, n: NominationView) -> PalletView {
        PalletView {
            nominations: self.nominations.update(self.nomination_index(nominee, id), n),
            ..self
        }
    }

    /// The state with the proposal of `motioner` against `subject` in `id`
    /// replaced by `p`.
    pub open spec fn with_proposal(
        self,
        id: RosterId,
        motioner: AccountId,
        subject: AccountId,
        p: ExpulsionProposalView,
    ) -> PalletView {
        PalletView {
            expulsion_proposals: self.expulsion_proposals.update(
                self.proposal_index(id, motioner, subject),
                p,
            ),
            ..self
        }
    }

    /// Every roster counts its founder among its members and lists no member
    /// twice; no nomination or proposal holds two votes of one voter or more
    /// votes than its bound, and no proposal lists a seconder twice; and no
    /// two rosters, nominations or proposals share a key.
    pub open spec fn wf(self) -> bool {
        &&& forall|i: int| 0 <= i < self.rosters.len() ==> roster_wf(#[trigger] self.rosters[i])
        &&& forall|i: int|
            0 <= i < self.nominations.len() ==> nomination_wf(#[trigger] self.nominations[i])
                && self.nominations[i].votes.len() <= self.config.nomination_votes_max
        &&& forall|i: int|
            0 <= i < self.expulsion_proposals.len() ==> proposal_wf(
                #[trigger] self.expulsion_proposals[i],
            ) && self.expulsion_proposals[i].votes.len()
                <= self.config.expulsion_proposal_votes_max
        &&& forall|i: int, j: int|
            0 <= i < j < self.rosters.len() ==> (#[trigger] self.rosters[i]).id
                != (#[trigger] self.rosters[j]).id
        &&& forall|i: int, j: int|
            0 <= i < j < self.nominations.len() ==> nomination_key(#[trigger] self.nominations[i])
                != nomination_key(#[trigger] self.nominations[j])
        &&& forall|i: int, j: int|
            0 <= i < j < self.expulsion_proposals.len() ==> proposal_key(
                #[trigger] self.expulsion_proposals[i],
            ) != proposal_key(#[trigger] self.expulsion_proposals[j])
    }
}

impl Pallet {
    /// An engine with no rosters, no balances and the clock at zero.
    pub fn new(config: Config) -> (r: Pallet)
        ensures
            r@.config == config,
            r@.block_number == 0,
            r@.treasury is None,
            r@.rosters.len() == 0,
            r@.nominations.len() == 0,
            r@.concluded_nominations.len() == 0,
            r@.expulsion_proposals.len() == 0,
            r@.concluded_expulsion_proposals.len() == 0,
            r@.ledger.free == Map::<AccountId, Balance>::empty(),
            r@.ledger.reserves.len() == 0,
            r@.events.len() == 0,
            r@.wf(),
    {
        Pallet {
            config,
            block_number: 0,
            treasury: None,
            rosters: Vec::new(),
            nominations: Vec::new(),
            concluded_nominations: Vec::new(),
            expulsion_proposals: Vec::new(),
            concluded_expulsion_proposals: Vec::new(),
            ledger: Ledger::new(),
            events: Vec::new(),
        }
    }

    /// The account of the treasury pot, if one is configured.
    pub fn account_id(&self) -> (r: Option<AccountId>)
        ensures
            r == self@.treasury,
    {
        self.treasury
    }

    /// Designates the treasury pot.
    pub fn set_treasury_account(&mut self, account: AccountId)
        ensures
            final(self)@ == (PalletView { treasury: Some(account), ..old(self)@ }),
    {
        self.treasury = Some(account);
    }

    /// Sets the free balance of `account`.
    pub fn set_free_balance(&mut self, account: AccountId, amount: Balance)
        ensures
            final(self)@ == (PalletView {
                ledger: LedgerView { free: old(self)@.ledger.free.insert(account, amount), ..old(self)@.ledger },
                ..old(self)@
            }),
    {
        self.ledger.set_free_balance(account, amount);
    }

    /// The name of the reservation kept for `reason`.
    pub fn reserved_currency_name(&self, reason: ReservedCurrencyReason) -> (r: Vec<u8>)
        ensures
            r@ == self@.name(reason),
            r@.len() == 27,
    {
        reserved_currency_name(&self.config.pallet_id, reason)
    }

    /// The roster with identifier `id`, if there is one.
    pub fn roster(&self, id: RosterId) -> (r: Option<&Roster>)
        ensures
            match r {
                Some(x) => self@.has_roster(id) && x@ == self@.roster(id),
                None => !self@.has_roster(id),
            },
    {
        match self.find_roster(id) {
            Some(i) => Some(&self.rosters[i]),
            None => None,
        }
    }

    /// The nomination of `nominee` to roster `id`, if there is one.
    pub fn nomination(&self, nominee: AccountId, id: RosterId) -> (r: Option<&Nomination>)
        ensures
            match r {
                Some(x) => self@.has_nomination(nominee, id) && x@ == self@.nomination(nominee, id),
                None => !self@.has_nomination(nominee, id),
            },
    {
        match self.find_nomination(nominee, id) {
            Some(i) => Some(&self.nominations[i]),
            None => None,
        }
    }

    /// The proposal of `motioner` against `subject` in roster `id`, if there is one.
    pub fn expulsion_proposal(&self, id: RosterId, motioner: AccountId, subject: AccountId) -> (r:
        Option<&ExpulsionProposal>)
        ensures
            match r {
                Some(x) => self@.has_proposal(id, motioner, subject) && x@ == self@.proposal(
                    id,
                    motioner,
                    subject,
                ),
                None => !self@.has_proposal(id, motioner, subject),
            },
    {
        match self.find_proposal(id, motioner, subject) {
            Some(i) => Some(&self.expulsion_proposals[i]),
            None => None,
        }
    }

    /// Hands out the events announced so far and starts a fresh log.
    pub fn take_events(&mut self) -> (r: Vec<Event>)
        ensures
            r@.map_values(|e: Event| e@) == old(self)@.events,
            final(self)@ == (PalletView { events: Seq::empty(), ..old(self)@ }),
    {
        let mut out: Vec<Event> = Vec::new();
        std::mem::swap(&mut out, &mut self.events);
        assert(self@.events =~= Seq::<EventView>::empty());
        out
    }

    /// Announces `e`.
    pub(crate) fn emit(&mut self, e: Event)
        ensures
            final(self)@ == (PalletView { events: old(self)@.events.push(e@), ..old(self)@ }),
    {
        let ghost v = e@;
        self.events.push(e);
        assert(self@.events =~= old(self)@.events.push(v));
    }

    pub fn find_roster(&self, id: RosterId) -> (r: Option<usize>)
        ensures
            match r {
                Some(i) => i < self@.rosters.len() && i as int == self@.roster_index(id),
                None => self@.roster_index(id) == -1,
            },
    {
        let ghost p = roster_with(id);
        let mut i: usize = self.rosters.len();
        while i > 0
            invariant
                i <= self@.rosters.len(),
                p == roster_with(id),
                forall|j: int| i <= j < self@.rosters.len() ==> !p(#[trigger] self@.rosters[j]),
            decreases i,
        {
            i = i - 1;
            if self.rosters[i].id == id {
                proof {
                    lemma_last_index_at(self@.rosters, p, i as int);
                }
                return Some(i);
            }
        }
        proof {
            lemma_last_index_at(self@.rosters, p, -1);
        }
        None
    }

    pub fn find_nomination(&self, nominee: AccountId, id: RosterId) -> (r: Option<usize>)
        ensures
            match r {
                Some(i) => i < self@.nominations.len() && i as int == self@.nomination_index(
                    nominee,
                    id,
                ),
                None => self@.nomination_index(nominee, id) == -1,
            },
    {
        let ghost p = nomination_for(nominee, id);
        let mut i: usize = self.nominations.len();
        while i > 0
            invariant
                i <= self@.nominations.len(),
                p == nomination_for(nominee, id),
                forall|j: int| i <= j < self@.nominations.len() ==> !p(#[trigger] self@.nominations[j]),
            decreases i,
        {
            i = i - 1;
            if self.nominations[i].nominee == nominee && self.nominations[i].roster == id {
                proof {
                    lemma_last_index_at(self@.nominations, p, i as int);
                }
                return Some(i);
            }
        }
        proof {
            lemma_last_index_at(self@.nominations, p, -1);
        }
        None
    }

    pub fn find_proposal(&self, id: RosterId, motioner: AccountId, subject: AccountId) -> (r: Option<
        usize,
    >)
        ensures
            match r {
                Some(i) => i < self@.expulsion_proposals.len() && i as int == self@.proposal_index(
                    id,
                    motioner,
                    subject,
                ),
                None => self@.proposal_index(id, motioner, subject) == -1,
            },
    {
        let ghost p = proposal_for(id, motioner, subject);
        let mut i: usize = self.expulsion_proposals.len();
        while i > 0
            invariant
                i <= self@.expulsion_proposals.len(),
                p == proposal_for(id, motioner, subject),
                forall|j: int|
                    i <= j < self@.expulsion_proposals.len() ==> !p(
                        #[trigger] self@.expulsion_proposals[j],
                    ),
            decreases i,
        {
            i = i - 1;
            if self.expulsion_proposals[i].roster == id && self.expulsion_proposals[i].motioner
                == motioner && self.expulsion_proposals[i].subject == subject {
                proof {
                    lemma_last_index_at(self@.expulsion_proposals, p, i as int);
                }
                return Some(i);
            }
        }
        proof {
            lemma_last_index_at(self@.expulsion_proposals, p, -1);
        }
        None
    }
}

} // verus!
