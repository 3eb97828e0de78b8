//! Laws of the engine that relate several operations, proved over the
//! transitions that the operations' contracts state.
use vstd::prelude::*;

use crate::expulsions::{
    expulsion_votes_without, has_expulsion_vote, lemma_dismiss_all_frame, lemma_dismiss_all_marks,
};
use crate::hooks::{nominations_kept, proposals_kept};
use crate::identity::{account_bytes, roster_id_of};
use crate::ledger::{
    lemma_repatriate, lemma_repatriate_total, lemma_reserve, lemma_reserve_total, saturating_add,
    total_reserved,
};
use crate::quorum::{lemma_percent_nearest_bound, percent_nearest};
use crate::nominations::{
    has_voted, lemma_reject_all_frame, lemma_reject_all_marks, lemma_reject_frame, tally,
    votes_without,
};
use crate::pallet::{nomination_for, nomination_wf, proposal_for, proposal_wf, roster_with, PalletView};
use crate::seqs::{lemma_last_index, lemma_last_index_update, lemma_without, without};
use crate::types::{
    AccountId, BlockNumber, Error, EventView, ExpulsionProposalStatus, ExpulsionProposalView,
    ExpulsionProposalVote, ExpulsionProposalVoteValue, NominationStatus, NominationView,
    NominationVote, NominationVoteValue, ReservedCurrencyReason, RosterId, RosterStatus,
    RosterView,
};

verus! {

/// A roster's identifier is a function of its founder and title: the same
/// pair always yields the same identifier.
pub proof fn lemma_roster_id_deterministic(
    founder1: AccountId,
    title1: Seq<u8>,
    founder2: AccountId,
    title2: Seq<u8>,
)
    requires
        founder1 == founder2,
        title1 == title2,
    ensures
        roster_id_of(founder1, title1) == roster_id_of(founder2, title2),
{
}

/// Distinct founders put distinct identity bytes into the namespace hash, so
/// their identifiers for one title differ unless the hash collides.
pub proof fn lemma_founder_bytes_distinct(a: AccountId, b: AccountId)
    requires
        a != b,
    ensures
        account_bytes(a) != account_bytes(b),
{
    if account_bytes(a) == account_bytes(b) {
        assert(account_bytes(a)[0] == account_bytes(b)[0]);
        assert((8 * 0int) as u64 == 0u64);
        lemma_low_byte(a, b, 0u64);
        assert(account_bytes(a)[1] == account_bytes(b)[1]);
        assert((8 * 1int) as u64 == 8u64);
        lemma_low_byte(a, b, 8u64);
        assert(account_bytes(a)[2] == account_bytes(b)[2]);
        assert((8 * 2int) as u64 == 16u64);
        lemma_low_byte(a, b, 16u64);
        assert(account_bytes(a)[3] == account_bytes(b)[3]);
        assert((8 * 3int) as u64 == 24u64);
        lemma_low_byte(a, b, 24u64);
        assert(account_bytes(a)[4] == account_bytes(b)[4]);
        assert((8 * 4int) as u64 == 32u64);
        lemma_low_byte(a, b, 32u64);
        assert(account_bytes(a)[5] == account_bytes(b)[5]);
        assert((8 * 5int) as u64 == 40u64);
        lemma_low_byte(a, b, 40u64);
        assert(account_bytes(a)[6] == account_bytes(b)[6]);
        assert((8 * 6int) as u64 == 48u64);
        lemma_low_byte(a, b, 48u64);
        assert(account_bytes(a)[7] == account_bytes(b)[7]);
        assert((8 * 7int) as u64 == 56u64);
        lemma_low_byte(a, b, 56u64);
        assert(a == b) by (bit_vector)
            requires
                ((a >> 0u64) & 0xff) == ((b >> 0u64) & 0xff),
                ((a >> 8u64) & 0xff) == ((b >> 8u64) & 0xff),
                ((a >> 16u64) & 0xff) == ((b >> 16u64) & 0xff),
                ((a >> 24u64) & 0xff) == ((b >> 24u64) & 0xff),
                ((a >> 32u64) & 0xff) == ((b >> 32u64) & 0xff),
                ((a >> 40u64) & 0xff) == ((b >> 40u64) & 0xff),
                ((a >> 48u64) & 0xff) == ((b >> 48u64) & 0xff),
                ((a >> 56u64) & 0xff) == ((b >> 56u64) & 0xff),
        ;
    }
}

/// Two bytes cut from the same place agree as numbers when they agree as bytes.
proof fn lemma_low_byte(a: u64, b: u64, k: u64)
    requires
        ((a >> k) & 0xff) as u8 == ((b >> k) & 0xff) as u8,
    ensures
        ((a >> k) & 0xff) == ((b >> k) & 0xff),
{
    let x = a >> k;
    let y = b >> k;
    assert(x & 0xff <= 0xff) by (bit_vector);
    assert(y & 0xff <= 0xff) by (bit_vector);
}

/// Once a founder has created a roster under a title, creating another
/// under the same title fails with `RosterExists`.
pub proof fn lemma_title_unique(s: PalletView, founder: AccountId, title: Seq<u8>)
    requires
        s.roster_new_error(founder, title) is None,
    ensures
        s.roster_new_post(founder, title).roster_new_error(founder, title) == Some(
            Error::RosterExists,
        ),
{
    let t = s.roster_new_post(founder, title);
    let id = roster_id_of(founder, title);
    assert(t.rosters.drop_last() =~= s.rosters);
    assert(roster_with(id)(t.rosters.last()));
    assert(t.roster_index(id) == t.rosters.len() - 1);
}

/// Two founders may use one title: once one has created a roster under it,
/// the other can still create theirs, as long as the two identifiers differ
/// (which the hash makes overwhelmingly likely, see
/// `lemma_founder_bytes_distinct`).
pub proof fn lemma_title_per_founder(s: PalletView, a: AccountId, b: AccountId, title: Seq<u8>)
    requires
        a != b,
        roster_id_of(a, title) != roster_id_of(b, title),
        s.roster_new_error(a, title) is None,
        s.roster_new_error(b, title) is None,
    ensures
        s.roster_new_post(a, title).roster_new_error(b, title) is None,
{
    let t = s.roster_new_post(a, title);
    let id = roster_id_of(b, title);
    assert(t.rosters.drop_last() =~= s.rosters);
    assert(!roster_with(id)(t.rosters.last()));
    assert(t.roster_index(id) == s.roster_index(id));
    lemma_reserve(
        s.ledger,
        s.name(ReservedCurrencyReason::NewRoster(roster_id_of(a, title))),
        a,
        s.config.new_roster_deposit,
    );
}

/// The per-tick sweep is idempotent: a second sweep at the same tick, with
/// nothing pending, changes nothing.
pub proof fn lemma_sweep_idempotent(s: PalletView, n: BlockNumber)
    ensures
        s.on_initialize_post(n).on_initialize_post(n) == s.on_initialize_post(n),
{
    let t = s.on_initialize_post(n);
    lemma_filter_keeps_all(t.nominations, |x: NominationView| !t.concluded_nominations.contains((x.nominee, x.roster)));
    lemma_filter_keeps_all(
        t.expulsion_proposals,
        |p: ExpulsionProposalView| !t.concluded_expulsion_proposals.contains((p.roster, p.motioner, p.subject)),
    );
    assert(nominations_kept(t.nominations, t.concluded_nominations) =~= t.nominations);
    assert(proposals_kept(t.expulsion_proposals, t.concluded_expulsion_proposals) =~= t.expulsion_proposals);
}

/// Filtering by a predicate that every element meets keeps the sequence.
proof fn lemma_filter_keeps_all<T>(s: Seq<T>, p: spec_fn(T) -> bool)
    requires
        forall|i: int| 0 <= i < s.len() ==> p(#[trigger] s[i]),
    ensures
        s.filter(p) == s,
    decreases s.len(),
{
    reveal(Seq::filter);
    if s.len() > 0 {
        assert forall|i: int| 0 <= i < s.drop_last().len() implies p(#[trigger] s.drop_last()[i]) by {
            assert(s.drop_last()[i] == s[i]);
        }
        lemma_filter_keeps_all(s.drop_last(), p);
        assert(s.drop_last().push(s.last()) =~= s);
    }
}

/// A well-formed state counts the founder of each roster among its members.
pub proof fn lemma_founder_is_member(s: PalletView, id: RosterId)
    requires
        s.wf(),
        s.has_roster(id),
    ensures
        s.roster(id).members.contains(s.roster(id).founder),
{
    lemma_last_index(s.rosters, roster_with(id));
}

/// No proposal can be made to expel a roster's founder.
pub proof fn lemma_founder_cannot_be_expelled(
    s: PalletView,
    motioner: AccountId,
    id: RosterId,
    reason: Seq<u8>,
)
    requires
        s.has_roster(id),
    ensures
        s.proposal_new_error(motioner, s.roster(id).founder, id, reason) is Some,
{
}

/// In a well-formed state, which every operation keeps, no voter holds two
/// votes on one nomination or one proposal at once.
pub proof fn lemma_one_vote_per_voter(s: PalletView, nominee: AccountId, motioner: AccountId, subject: AccountId, id: RosterId)
    requires
        s.wf(),
    ensures
        s.has_nomination(nominee, id) ==> forall|i: int, j: int|
            0 <= i < j < s.nomination(nominee, id).votes.len() ==> (#[trigger] s.nomination(
                nominee,
                id,
            ).votes[i]).voter != (#[trigger] s.nomination(nominee, id).votes[j]).voter,
        s.has_proposal(id, motioner, subject) ==> forall|i: int, j: int|
            0 <= i < j < s.proposal(id, motioner, subject).votes.len() ==> (#[trigger] s.proposal(
                id,
                motioner,
                subject,
            ).votes[i]).voter != (#[trigger] s.proposal(id, motioner, subject).votes[j]).voter,
{
    lemma_last_index(s.nominations, nomination_for(nominee, id));
    lemma_last_index(s.expulsion_proposals, proposal_for(id, motioner, subject));
    if s.has_nomination(nominee, id) {
        assert(nomination_wf(s.nominations[s.nomination_index(nominee, id)]));
    }
    if s.has_proposal(id, motioner, subject) {
        assert(proposal_wf(s.expulsion_proposals[s.proposal_index(id, motioner, subject)]));
    }
}

/// Once `voter` has voted on a nomination, voting on it again is refused
/// with `AlreadyVoted`.
pub proof fn lemma_nomination_vote_exclusive(
    s: PalletView,
    voter: AccountId,
    id: RosterId,
    nominee: AccountId,
    vote: NominationVoteValue,
)
    requires
        s.nomination_vote_error(voter, id, nominee) is None,
    ensures
        s.nomination_vote_post(voter, id, nominee, vote).nomination_vote_error(voter, id, nominee)
            == Some(Error::AlreadyVoted),
{
    let t = s.nomination_vote_post(voter, id, nominee, vote);
    let i = s.nomination_index(nominee, id);
    let n = s.nomination(nominee, id);
    let e = NominationView {
        votes: n.votes.push(NominationVote { voter, vote, voted_on: s.block_number }),
        ..n
    };
    lemma_last_index(s.nominations, nomination_for(nominee, id));
    lemma_last_index_update(s.nominations, nomination_for(nominee, id), i, e);
    assert(t.nomination(nominee, id) == e);
    assert(e.votes[e.votes.len() - 1].voter == voter);
    assert(has_voted(e.votes, voter));
}

/// Taking out an element that `p` rejects leaves `filter` strictly shorter.
proof fn lemma_filter_shorter<T>(s: Seq<T>, p: spec_fn(T) -> bool, k: int)
    requires
        0 <= k < s.len(),
        !p(s[k]),
    ensures
        s.filter(p).len() < s.len(),
    decreases s.len(),
{
    reveal(Seq::filter);
    s.drop_last().filter_lemma(p);
    if k < s.len() - 1 {
        assert(s.drop_last()[k] == s[k]);
        lemma_filter_shorter(s.drop_last(), p, k);
    }
}

/// The votes on the nomination of `nominee` to roster `id` after `voter`
/// recants and then votes `value`.
pub open spec fn revoted(
    s: PalletView,
    voter: AccountId,
    id: RosterId,
    nominee: AccountId,
    value: NominationVoteValue,
) -> Seq<NominationVote> {
    s.nomination_recant_post(voter, id, nominee).nomination_vote_post(voter, id, nominee, value).nomination(
        nominee,
        id,
    ).votes
}

/// In a well-formed state, after recanting, a member may vote on the
/// nomination again, and then holds exactly one vote on it: the new one.
pub proof fn lemma_nomination_recant_then_vote(
    s: PalletView,
    voter: AccountId,
    id: RosterId,
    nominee: AccountId,
)
    requires
        s.nomination_recant_error(voter, id, nominee) is None,
        s.has_roster(id),
        s.roster(id).members.contains(voter),
        s.wf(),
    ensures
        s.nomination_recant_post(voter, id, nominee).nomination_vote_error(voter, id, nominee) is None,
        forall|value: NominationVoteValue, k: int|
            0 <= k < revoted(s, voter, id, nominee, value).len() && (#[trigger] revoted(
                s,
                voter,
                id,
                nominee,
                value,
            )[k]).voter == voter ==> k == revoted(s, voter, id, nominee, value).len() - 1
                && revoted(s, voter, id, nominee, value)[k].vote == value,
{
    let t = s.nomination_recant_post(voter, id, nominee);
    let i = s.nomination_index(nominee, id);
    let n = s.nomination(nominee, id);
    let kept = votes_without(n.votes, voter);
    let e = NominationView { votes: kept, ..n };
    lemma_last_index(s.nominations, nomination_for(nominee, id));
    assert(nomination_wf(s.nominations[i]));
    lemma_last_index_update(s.nominations, nomination_for(nominee, id), i, e);
    assert(t.nomination(nominee, id) == e);
    let pred = |v: NominationVote| v.voter != voter;
    n.votes.filter_lemma(pred);
    let k = choose|k: int| 0 <= k < n.votes.len() && (#[trigger] n.votes[k]).voter == voter;
    lemma_filter_shorter(n.votes, pred, k);
    assert(!has_voted(kept, voter)) by {
        if has_voted(kept, voter) {
            let j = choose|j: int| 0 <= j < kept.len() && (#[trigger] kept[j]).voter == voter;
            assert(pred(kept[j]));
        }
    }
    assert forall|value: NominationVoteValue, k: int|
        0 <= k < revoted(s, voter, id, nominee, value).len() && (#[trigger] revoted(
            s,
            voter,
            id,
            nominee,
            value,
        )[k]).voter == voter implies k == revoted(s, voter, id, nominee, value).len() - 1
            && revoted(s, voter, id, nominee, value)[k].vote == value by {
        let ti = t.nomination_index(nominee, id);
        let ballot = NominationVote { voter, vote: value, voted_on: t.block_number };
        let e2 = NominationView { votes: kept.push(ballot), ..e };
        lemma_last_index(t.nominations, nomination_for(nominee, id));
        lemma_last_index_update(t.nominations, nomination_for(nominee, id), ti, e2);
        let votes = t.nomination_vote_post(voter, id, nominee, value).nomination(nominee, id).votes;
        assert(votes == kept.push(ballot));
        assert(revoted(s, voter, id, nominee, value) == votes);
        if k < kept.len() {
            assert(votes[k] == kept[k]);
            assert(has_voted(kept, voter));
        }
    }
}

/// Once `voter` has voted on an expulsion proposal, voting on it again is
/// refused with `AlreadyVoted`.
pub proof fn lemma_expulsion_vote_exclusive(
    s: PalletView,
    voter: AccountId,
    motioner: AccountId,
    subject: AccountId,
    id: RosterId,
    vote: ExpulsionProposalVoteValue,
)
    requires
        s.expulsion_vote_error(voter, motioner, subject, id) is None,
    ensures
        s.expulsion_vote_post(voter, motioner, subject, id, vote).expulsion_vote_error(
            voter,
            motioner,
            subject,
            id,
        ) == Some(Error::AlreadyVoted),
{
    let t = s.expulsion_vote_post(voter, motioner, subject, id, vote);
    let i = s.proposal_index(id, motioner, subject);
    let p = s.proposal(id, motioner, subject);
    let e = ExpulsionProposalView {
        votes: p.votes.push(
            ExpulsionProposalVote { voter, vote, voted_on: s.block_number },
        ),
        ..p
    };
    lemma_last_index(s.expulsion_proposals, proposal_for(id, motioner, subject));
    lemma_last_index_update(s.expulsion_proposals, proposal_for(id, motioner, subject), i, e);
    assert(t.proposal(id, motioner, subject) == e);
    assert(e.votes[e.votes.len() - 1].voter == voter);
    assert(has_expulsion_vote(e.votes, voter));
}

/// In a well-formed state, after recanting, a member may vote on the
/// expulsion proposal again.
pub proof fn lemma_expulsion_recant_then_vote(
    s: PalletView,
    voter: AccountId,
    motioner: AccountId,
    subject: AccountId,
    id: RosterId,
)
    requires
        s.expulsion_recant_error(voter, motioner, subject, id) is None,
        s.roster(id).members.contains(voter),
        s.wf(),
    ensures
        s.expulsion_recant_post(voter, motioner, subject, id).expulsion_vote_error(
            voter,
            motioner,
            subject,
            id,
        ) is None,
{
    let t = s.expulsion_recant_post(voter, motioner, subject, id);
    let i = s.proposal_index(id, motioner, subject);
    let p = s.proposal(id, motioner, subject);
    let kept = expulsion_votes_without(p.votes, voter);
    let e = ExpulsionProposalView { votes: kept, ..p };
    lemma_last_index(s.expulsion_proposals, proposal_for(id, motioner, subject));
    assert(proposal_wf(s.expulsion_proposals[i]));
    lemma_last_index_update(s.expulsion_proposals, proposal_for(id, motioner, subject), i, e);
    assert(t.proposal(id, motioner, subject) == e);
    let pred = |v: ExpulsionProposalVote| v.voter != voter;
    p.votes.filter_lemma(pred);
    let k = choose|k: int| 0 <= k < p.votes.len() && (#[trigger] p.votes[k]).voter == voter;
    lemma_filter_shorter(p.votes, pred, k);
    assert(!has_expulsion_vote(kept, voter)) by {
        if has_expulsion_vote(kept, voter) {
            let j = choose|j: int| 0 <= j < kept.len() && (#[trigger] kept[j]).voter == voter;
            assert(pred(kept[j]));
        }
    }
}

/// A tie rejects: a nomination that closes with as many ayes as nays ends
/// rejected, its nominee does not join, and the roster drops its reference.
pub proof fn lemma_tie_rejects(s: PalletView, closer: AccountId, id: RosterId, nominee: AccountId)
    requires
        s.nomination_close_error(id, nominee) is None,
        tally(s.nomination(nominee, id).votes, NominationVoteValue::Aye) == tally(
            s.nomination(nominee, id).votes,
            NominationVoteValue::Nay,
        ),
    ensures
        ({
            let t = s.nomination_close_post(closer, id, nominee);
            &&& t.has_nomination(nominee, id)
            &&& t.nomination(nominee, id).status == NominationStatus::Rejected
            &&& t.has_roster(id)
            &&& t.roster(id).members == s.roster(id).members
            &&& !t.roster(id).nominations.contains(nominee)
        }),
{
    let r = s.roster(id);
    let r2 = RosterView { nominations: without(r.nominations, nominee), ..r };
    let u = s.with_roster(id, r2);
    lemma_last_index(s.rosters, roster_with(id));
    lemma_last_index_update(s.rosters, roster_with(id), s.roster_index(id), r2);
    lemma_reject_frame(u, closer, id, nominee);
    lemma_without(r.nominations, nominee);
    let t = u.reject_nomination(closer, id, nominee);
    assert(t == s.nomination_close_post(closer, id, nominee));
    lemma_last_index(s.nominations, nomination_for(nominee, id));
}

/// Deactivating a roster concludes its open work in the same operation: the
/// roster is inactive and references nothing, every nomination it referenced
/// is rejected and every proposal it referenced is dismissed.
pub proof fn lemma_deactivate_cascades(s: PalletView, caller: AccountId, id: RosterId)
    requires
        s.roster_deactivate_error(caller, id) is None,
    ensures
        ({
            let t = s.roster_deactivate_post(caller, id);
            let r = s.roster(id);
            &&& t.has_roster(id)
            &&& t.roster(id).status == RosterStatus::Inactive
            &&& t.roster(id).nominations.len() == 0
            &&& t.roster(id).expulsion_proposals.len() == 0
            &&& forall|k: int|
                0 <= k < r.nominations.len() ==> #[trigger] t.nomination(r.nominations[k], id).status
                    == NominationStatus::Rejected
            &&& forall|k: int|
                0 <= k < r.expulsion_proposals.len() ==> #[trigger] t.proposal(
                    id,
                    r.expulsion_proposals[k].0,
                    r.expulsion_proposals[k].1,
                ).status == ExpulsionProposalStatus::Dismissed
        }),
{
    let r = s.roster(id);
    let r2 = RosterView {
        status: RosterStatus::Inactive,
        nominations: Seq::empty(),
        expulsion_proposals: Seq::empty(),
        ..r
    };
    lemma_last_index(s.rosters, roster_with(id));
    lemma_last_index_update(s.rosters, roster_with(id), s.roster_index(id), r2);
    let switched = PalletView {
        events: s.events.push(
            EventView::RosterStatusChanged {
                changed_by: caller,
                roster_id: id,
                new_status: RosterStatus::Inactive,
            },
        ),
        ..s.with_roster(id, r2)
    };
    assert forall|k: int| 0 <= k < r.nominations.len() implies switched.has_nomination(
        #[trigger] r.nominations[k],
        id,
    ) by {
        assert(s.has_nomination(r.nominations[k], id));
    }
    assert forall|k: int| 0 <= k < r.expulsion_proposals.len() implies switched.has_proposal(
        id,
        (#[trigger] r.expulsion_proposals[k]).0,
        r.expulsion_proposals[k].1,
    ) by {
        assert(s.has_proposal(id, r.expulsion_proposals[k].0, r.expulsion_proposals[k].1));
    }
    lemma_reject_all_marks(switched, caller, id, r.nominations);
    lemma_reject_all_frame(switched, caller, id, r.nominations);
    let rejected = switched.reject_nominations(caller, id, r.nominations);
    lemma_dismiss_all_marks(rejected, caller, id, r.expulsion_proposals);
    lemma_dismiss_all_frame(rejected, caller, id, r.expulsion_proposals);
    let t = rejected.dismiss_proposals(caller, id, r.expulsion_proposals);
    assert(t == s.roster_deactivate_post(caller, id));
    assert forall|k: int| 0 <= k < r.nominations.len() implies #[trigger] t.nomination(
        r.nominations[k],
        id,
    ).status == NominationStatus::Rejected by {
        assert(rejected.nomination(r.nominations[k], id).status == NominationStatus::Rejected);
    }
}

/// A proposal still short of seconds after the awaiting-second period is
/// dismissed with prejudice when closed: it is decided now, the roster drops
/// its reference and keeps the subject, and the motioner's deposit is split
/// exactly, the reparations share to the subject and the rest to the
/// treasury (when the reservation holds just that deposit and the motioner,
/// the subject and the treasury are three accounts).
pub proof fn lemma_unseconded_proposal_slashed(
    s: PalletView,
    closer: AccountId,
    motioner: AccountId,
    subject: AccountId,
    id: RosterId,
)
    requires
        s.proposal_close_error(closer, motioner, subject, id) is None,
        s.proposal(id, motioner, subject).seconds.len() < s.config.expulsion_proposal_second_threshold,
        s.proposal(id, motioner, subject).proposed_on
            + s.config.expulsion_proposal_awaiting_second_period < s.block_number,
    ensures
        ({
            let t = s.proposal_close_post(closer, motioner, subject, id);
            let name = s.name(ReservedCurrencyReason::NewExpulsionProposal(id, subject));
            let deposit = s.config.new_expulsion_proposal_deposit;
            let reparations = percent_nearest(s.config.expulsion_proposal_reparations, deposit);
            let pot = s.treasury->0;
            &&& t.has_proposal(id, motioner, subject)
            &&& t.proposal(id, motioner, subject).status
                == ExpulsionProposalStatus::DismissedWithPrejudice
            &&& t.proposal(id, motioner, subject).decided_on == Some(s.block_number)
            &&& t.has_roster(id)
            &&& !t.roster(id).expulsion_proposals.contains((motioner, subject))
            &&& t.roster(id).members == s.roster(id).members
            &&& (s.ledger.reserved_of(name, motioner) == deposit && motioner != subject && motioner
                != pot && subject != pot) ==> {
                &&& t.ledger.reserved_of(name, motioner) == 0
                &&& t.ledger.free_of(subject) == saturating_add(
                    s.ledger.free_of(subject),
                    reparations,
                )
                &&& t.ledger.free_of(pot) == saturating_add(
                    s.ledger.free_of(pot),
                    (deposit - reparations) as u64,
                )
            }
        }),
{
    let r = s.roster(id);
    let r2 = RosterView {
        expulsion_proposals: without(r.expulsion_proposals, (motioner, subject)),
        ..r
    };
    let p = s.proposal(id, motioner, subject);
    let p2 = ExpulsionProposalView {
        status: ExpulsionProposalStatus::DismissedWithPrejudice,
        decided_on: Some(s.block_number),
        ..p
    };
    lemma_last_index(s.rosters, roster_with(id));
    lemma_last_index_update(s.rosters, roster_with(id), s.roster_index(id), r2);
    lemma_last_index(s.expulsion_proposals, proposal_for(id, motioner, subject));
    lemma_last_index_update(
        s.expulsion_proposals,
        proposal_for(id, motioner, subject),
        s.proposal_index(id, motioner, subject),
        p2,
    );
    lemma_without(r.expulsion_proposals, (motioner, subject));
    let name = s.name(ReservedCurrencyReason::NewExpulsionProposal(id, subject));
    let deposit = s.config.new_expulsion_proposal_deposit;
    let reparations = percent_nearest(s.config.expulsion_proposal_reparations, deposit);
    let pot = s.treasury->0;
    lemma_percent_nearest_bound(s.config.expulsion_proposal_reparations, deposit);
    let l1 = s.ledger.repatriate(name, motioner, subject, reparations);
    lemma_repatriate(s.ledger, name, motioner, subject, reparations);
    lemma_repatriate(l1, name, motioner, pot, l1.reserved_of(name, motioner));
}

/// A nomination that ends rejected gives back exactly what nominating
/// reserved: every free balance, every named reservation and every
/// account's total in reserve is as it was before the nomination. `s1` is the state when the vote is closed; between
/// nominating and closing, nothing touched the ledger or the configuration.
pub proof fn lemma_rejected_nomination_refunds(
    s0: PalletView,
    s1: PalletView,
    nominator: AccountId,
    id: RosterId,
    nominee: AccountId,
    closer: AccountId,
)
    requires
        s0.nomination_new_error(nominator, id, nominee) is None,
        s1.config == s0.config,
        s1.ledger == s0.nomination_new_post(nominator, id, nominee).ledger,
        s1.has_nomination(nominee, id),
        s1.nomination(nominee, id).nominator == nominator,
        s1.nomination_close_error(id, nominee) is None,
        !s1.nomination_approved(id, nominee),
    ensures
        forall|n: Seq<u8>, a: AccountId| #[trigger]
            s1.nomination_close_post(closer, id, nominee).ledger.reserved_of(n, a)
                == s0.ledger.reserved_of(n, a),
        forall|a: AccountId| #[trigger]
            s1.nomination_close_post(closer, id, nominee).ledger.free_of(a) == s0.ledger.free_of(
                a,
            ),
        forall|a: AccountId| #[trigger]
            total_reserved(s1.nomination_close_post(closer, id, nominee).ledger.reserves, a)
                == total_reserved(s0.ledger.reserves, a),
{
    let name = s0.name(ReservedCurrencyReason::NewNomination(id, nominee));
    let d = s0.config.new_nomination_deposit;
    let l1 = s0.ledger.reserve(name, nominator, d);
    lemma_reserve(s0.ledger, name, nominator, d);
    lemma_repatriate(l1, name, nominator, nominator, d);
    lemma_reserve_total(s0.ledger, name, nominator, d);
    lemma_repatriate_total(l1, name, nominator, nominator, d);
    assert(s1.nomination_close_post(closer, id, nominee).ledger == l1.unreserve(name, nominator, d));
}

/// Closing a nomination as approved leaves the ledger as it was.
pub proof fn lemma_approval_keeps_ledger(s: PalletView, closer: AccountId, id: RosterId, nominee: AccountId)
    requires
        s.nomination_approved(id, nominee),
    ensures
        s.nomination_close_post(closer, id, nominee).ledger == s.ledger,
{
}

/// Across nominating, an approving close and the nominee joining, the
/// nominator's deposit is released exactly once and the member's dues are
/// reserved exactly once, in each name and in each account's total; no other
/// reservation changes. `s2` is the state when
/// the nominee joins; since nominating, nothing touched the ledger or the
/// configuration (an approving close does not).
pub proof fn lemma_admission_deposits(
    s0: PalletView,
    s2: PalletView,
    nominator: AccountId,
    id: RosterId,
    nominee: AccountId,
)
    requires
        s0.nomination_new_error(nominator, id, nominee) is None,
        s2.config == s0.config,
        s2.ledger == s0.nomination_new_post(nominator, id, nominee).ledger,
        s2.has_nomination(nominee, id),
        s2.nomination(nominee, id).nominator == nominator,
        s2.add_member_error(nominee, id) is None,
    ensures
        ({
            let l3 = s2.add_member_post(nominee, id).ledger;
            let deposit = s0.name(ReservedCurrencyReason::NewNomination(id, nominee));
            let dues = s0.name(ReservedCurrencyReason::MembershipDues(id));
            &&& l3.reserved_of(deposit, nominator) == s0.ledger.reserved_of(deposit, nominator)
            &&& l3.free_of(nominator) == s0.ledger.free_of(nominator)
            &&& l3.reserved_of(dues, nominee) == s0.ledger.reserved_of(dues, nominee)
                + s0.config.membership_dues
            &&& l3.free_of(nominee) == s0.ledger.free_of(nominee) - s0.config.membership_dues
            &&& forall|n: Seq<u8>, a: AccountId|
                !(n == deposit && a == nominator) && !(n == dues && a == nominee)
                    ==> #[trigger] l3.reserved_of(n, a) == s0.ledger.reserved_of(n, a)
            &&& total_reserved(l3.reserves, nominator) == total_reserved(s0.ledger.reserves, nominator)
            &&& total_reserved(l3.reserves, nominee) == total_reserved(s0.ledger.reserves, nominee)
                + s0.config.membership_dues
        }),
{
    let deposit = s0.name(ReservedCurrencyReason::NewNomination(id, nominee));
    let dues = s0.name(ReservedCurrencyReason::MembershipDues(id));
    let d = s0.config.new_nomination_deposit;
    let m = s0.config.membership_dues;
    assert(deposit[2] == 2u8);
    assert(dues[2] == 3u8);
    assert(deposit != dues);
    lemma_last_index(s0.rosters, roster_with(id));
    assert(nominator != nominee);
    let l1 = s0.ledger.reserve(deposit, nominator, d);
    lemma_reserve(s0.ledger, deposit, nominator, d);
    let l2 = l1.reserve(dues, nominee, m);
    lemma_reserve(l1, dues, nominee, m);
    lemma_repatriate(l2, deposit, nominator, nominator, d);
    lemma_reserve_total(s0.ledger, deposit, nominator, d);
    lemma_reserve_total(l1, dues, nominee, m);
    lemma_repatriate_total(l2, deposit, nominator, nominator, d);
    assert(s2.add_member_post(nominee, id).ledger == l2.unreserve(deposit, nominator, d));
}

} // verus!
