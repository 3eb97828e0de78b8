use roster::identity::{reserved_currency_name, roster_id_bytes};
use roster::pallet::Pallet;
use roster::quorum::{
    calculate_percentage_elapsed, calculate_quorum_threshold, percent_of_count, scale_ceil,
};
use roster::types::{
    Config, Error, Event, ExpulsionProposalStatus, ExpulsionProposalVoteValue, NominationStatus,
    NominationVoteValue, ReservedCurrencyReason, RosterId, RosterStatus,
};

const FOUNDER: u64 = 1;
const POT: u64 = 99;
const DEPOSIT: u64 = 1_000;
const DUES: u64 = 10;

fn config() -> Config {
    Config {
        pallet_id: *b"py/rster",
        new_roster_deposit: DEPOSIT,
        membership_dues: DUES,
        new_nomination_deposit: DEPOSIT,
        new_expulsion_proposal_deposit: DEPOSIT,
        expulsion_proposal_reparations: 30,
        title_max_length: 16,
        members_max: 20,
        nomination_votes_max: 20,
        nomination_voting_period: 10,
        nominations_per_roster_max: 5,
        concluded_nominations_max: 10,
        quorum_min: 50,
        quorum_modifier: 100,
        expulsion_proposal_awaiting_second_period: 5,
        expulsion_proposal_voting_period: 5,
        expulsion_proposals_per_roster_max: 5,
        expulsion_proposal_second_threshold: 1,
        seconds_max: 5,
        expulsion_reason_max_length: 50,
        expulsion_reason_min_length: 3,
        expulsion_proposal_votes_max: 20,
        concluded_expulsion_proposals_max: 10,
        expulsion_proposal_lockout_period: 3,
        expulsion_proposal_super_majority: 75,
        expulsion_proposal_quorum: 50,
    }
}

/// An engine at block 1 with one roster of `members` members (the founder
/// is account 1, the others 2, 3, ...), every account well funded.
fn with_roster(members: u64) -> (Pallet, RosterId) {
    let mut p = Pallet::new(config());
    p.set_treasury_account(POT);
    p.set_block_number(1);
    for a in 1..=40 {
        p.set_free_balance(a, 1_000_000);
    }
    p.set_free_balance(POT, 0);
    assert_eq!(p.roster_new(FOUNDER, b"club".to_vec()), Ok(()));
    let id = RosterId::from_tuple(FOUNDER, &b"club".to_vec());
    for a in 2..=members {
        assert_eq!(p.force_add_member(a, id), Ok(()));
    }
    (p, id)
}

fn reserved(p: &Pallet, reason: ReservedCurrencyReason, account: u64) -> u64 {
    let name = p.reserved_currency_name(reason);
    p.ledger.reserved_named(&name, account)
}

// Identifiers and names.

#[test]
fn roster_id_is_deterministic_and_founder_scoped() {
    let a = RosterId::from_tuple(1, &b"X".to_vec());
    let b = RosterId::from_tuple(1, &b"X".to_vec());
    let c = RosterId::from_tuple(2, &b"X".to_vec());
    let d = RosterId::from_tuple(1, &b"Y".to_vec());
    assert_eq!(a, b);
    assert_ne!(a, c);
    assert_ne!(a, d);
}

#[test]
fn roster_id_is_the_name_based_uuid_of_the_title() {
    let namespace = uuid::Uuid::from_bytes(md5::compute(7u64.to_le_bytes()).0);
    let expected = uuid::Uuid::new_v3(&namespace, b"My Roster").as_u128();
    let id = RosterId::from_tuple(7, &b"My Roster".to_vec());
    assert_eq!(id, RosterId(expected));
    assert_ne!(id.0, 7);
    assert_eq!(uuid::Uuid::from_u128(id.0).get_version_num(), 3);
}

#[test]
fn roster_id_bytes_are_big_endian() {
    let bytes = roster_id_bytes(RosterId(0x0102030405060708090a0b0c0d0e0f10));
    assert_eq!(bytes, (1u8..=16).collect::<Vec<u8>>());
}

#[test]
fn reservation_names_carry_kind_engine_and_roster() {
    let id = RosterId(0x0102030405060708090a0b0c0d0e0f10);
    let pallet_id = *b"py/rster";
    let roster = reserved_currency_name(&pallet_id, ReservedCurrencyReason::NewRoster(id));
    let mut expected = vec![0u8, 0, 1];
    expected.extend_from_slice(b"py/rster");
    expected.extend(1u8..=16);
    assert_eq!(roster, expected);

    let nomination =
        reserved_currency_name(&pallet_id, ReservedCurrencyReason::NewNomination(id, 0x0a0b));
    let mut expected = vec![0u8, 0, 2];
    expected.extend_from_slice(b"py/rster");
    expected.extend(1u8..=8);
    expected.extend_from_slice(&[0x0b, 0x0a, 0, 0, 0, 0, 0, 0]);
    assert_eq!(nomination, expected);

    let dues = reserved_currency_name(&pallet_id, ReservedCurrencyReason::MembershipDues(id));
    assert_eq!(dues.len(), 27);
    assert_eq!(dues[2], 3);
    let proposal =
        reserved_currency_name(&pallet_id, ReservedCurrencyReason::NewExpulsionProposal(id, 5));
    assert_eq!(proposal.len(), 27);
    assert_eq!(proposal[2], 4);
    assert_eq!(proposal[19], 5);
}

// Percent arithmetic and the quorum.

#[test]
fn percentages_round_as_documented() {
    assert_eq!(calculate_percentage_elapsed(10, 0, 5), 50);
    assert_eq!(calculate_percentage_elapsed(3, 0, 2), 66);
    assert_eq!(calculate_percentage_elapsed(10, 5, 3), 0);
    assert_eq!(calculate_percentage_elapsed(10, 0, 30), 100);
    assert_eq!(calculate_percentage_elapsed(0, 0, 0), 100);
    assert_eq!(percent_of_count(50, 10_000_000_000), 5_000_000_000);
    assert_eq!(percent_of_count(75, 3), 2);
    assert_eq!(percent_of_count(50, 3), 1);
    assert_eq!(percent_of_count(30, 1_000), 300);
    assert_eq!(percent_of_count(150, 7), 7);
    assert_eq!(scale_ceil(110, 180), 198);
    assert_eq!(scale_ceil(150, 7), 11);
    assert_eq!(scale_ceil(255, u64::MAX), (255 * u64::MAX as u128 + 99) / 100);
}

#[test]
fn quorum_decays_with_the_voting_period() {
    // Nothing elapsed: everyone.
    assert_eq!(calculate_quorum_threshold(10, 50, 100, 10, 0, 0), 10);
    // Half elapsed: half.
    assert_eq!(calculate_quorum_threshold(10, 50, 100, 10, 0, 5), 5);
    // Fully elapsed: the minimum.
    assert_eq!(calculate_quorum_threshold(10, 50, 100, 10, 0, 10), 5);
    // Rounded up at each step.
    assert_eq!(calculate_quorum_threshold(7, 50, 100, 10, 0, 5), 4);
    // A modifier above one hundred percent raises the quorum.
    assert_eq!(calculate_quorum_threshold(300, 50, 110, 100, 0, 40), 198);
    assert_eq!(calculate_quorum_threshold(300, 50, 110, 100, 0, 60), 150);
    assert_eq!(calculate_quorum_threshold(10, 50, 200, 10, 0, 5), 10);
    assert_eq!(calculate_quorum_threshold(300, 40, 90, 100, 0, 40), 162);
    // Never above the member count.
    assert_eq!(calculate_quorum_threshold(3, 200, 100, 10, 0, 10), 3);
    assert_eq!(calculate_quorum_threshold(0, 50, 100, 10, 0, 0), 0);
}

// Scenarios.

#[test]
fn early_approval_at_half_the_period() {
    let (mut p, id) = with_roster(10);
    let nominee = 30;
    assert_eq!(p.nomination_new(FOUNDER, id, nominee), Ok(()));
    p.set_block_number(6);
    for voter in 1..=6 {
        assert_eq!(p.nomination_vote(voter, id, nominee, NominationVoteValue::Aye), Ok(()));
    }
    assert_eq!(p.nomination_close(nominee, id, nominee), Ok(()));
    assert_eq!(p.nomination(nominee, id).unwrap().status, NominationStatus::Approved);
    assert_eq!(
        p.events.last(),
        Some(&Event::NominationClosed {
            nominee,
            closed_by: nominee,
            roster_id: id,
            status: NominationStatus::Approved,
        })
    );
}

#[test]
fn high_turnout_too_early_cannot_close() {
    let (mut p, id) = with_roster(10);
    let nominee = 30;
    assert_eq!(p.nomination_new(FOUNDER, id, nominee), Ok(()));
    for voter in 1..=6 {
        assert_eq!(p.nomination_vote(voter, id, nominee, NominationVoteValue::Aye), Ok(()));
    }
    assert_eq!(p.nomination_close(nominee, id, nominee), Err(Error::VotingPeriodHasNotEnded));
    p.set_block_number(3);
    assert_eq!(p.nomination_close(nominee, id, nominee), Err(Error::VotingPeriodHasNotEnded));
    p.set_block_number(5);
    assert_eq!(p.nomination_close(nominee, id, nominee), Ok(()));
}

#[test]
fn low_turnout_closes_once_the_period_ends() {
    let (mut p, id) = with_roster(10);
    let nominee = 30;
    assert_eq!(p.nomination_new(FOUNDER, id, nominee), Ok(()));
    assert_eq!(p.nomination_vote(2, id, nominee, NominationVoteValue::Aye), Ok(()));
    p.set_block_number(11);
    assert_eq!(p.nomination_close(nominee, id, nominee), Err(Error::VotingPeriodHasNotEnded));
    p.set_block_number(12);
    assert_eq!(p.nomination_close(nominee, id, nominee), Ok(()));
    assert_eq!(p.nomination(nominee, id).unwrap().status, NominationStatus::Approved);
}

#[test]
fn tie_defaults_to_rejection() {
    let (mut p, id) = with_roster(10);
    let nominee = 30;
    let before = p.ledger.reserved_balance(FOUNDER);
    let free_before = p.ledger.free_balance(FOUNDER);
    assert_eq!(p.nomination_new(FOUNDER, id, nominee), Ok(()));
    assert_eq!(p.nomination_vote(1, id, nominee, NominationVoteValue::Aye), Ok(()));
    assert_eq!(p.nomination_vote(2, id, nominee, NominationVoteValue::Aye), Ok(()));
    assert_eq!(p.nomination_vote(3, id, nominee, NominationVoteValue::Nay), Ok(()));
    assert_eq!(p.nomination_vote(4, id, nominee, NominationVoteValue::Nay), Ok(()));
    p.set_block_number(12);
    assert_eq!(p.nomination_close(5, id, nominee), Ok(()));
    assert_eq!(p.nomination(nominee, id).unwrap().status, NominationStatus::Rejected);
    assert!(p.roster(id).unwrap().nominations.is_empty());
    assert_eq!(p.ledger.reserved_balance(FOUNDER), before);
    assert_eq!(p.ledger.free_balance(FOUNDER), free_before);
    assert_eq!(p.add_member(nominee, id), Err(Error::NotApproved));
    p.on_initialize(13);
    assert!(p.nomination(nominee, id).is_none());
}

#[test]
fn dismissal_with_prejudice_splits_the_deposit() {
    let (mut p, id) = with_roster(4);
    assert_eq!(p.expulsion_proposal_new(2, 3, id, b"rude".to_vec()), Ok(()));
    let free_subject = p.ledger.free_balance(3);
    p.set_block_number(6);
    assert_eq!(p.expulsion_proposal_close(4, 2, 3, id), Err(Error::PermissionDenied));
    p.set_block_number(7);
    assert_eq!(p.expulsion_proposal_close(4, 2, 3, id), Ok(()));
    let proposal = p.expulsion_proposal(id, 2, 3).unwrap();
    assert_eq!(proposal.status, ExpulsionProposalStatus::DismissedWithPrejudice);
    assert_eq!(proposal.decided_on, Some(7));
    assert_eq!(p.ledger.free_balance(3), free_subject + 300);
    assert_eq!(p.ledger.free_balance(POT), 700);
    assert_eq!(reserved(&p, ReservedCurrencyReason::NewExpulsionProposal(id, 3), 2), 0);
    assert!(p.roster(id).unwrap().expulsion_proposals.is_empty());
    assert_eq!(
        p.events.last(),
        Some(&Event::ExpulsionProposalDismissedWithPrejudice {
            closer: 4,
            motioner: 2,
            subject: 3,
            roster_id: id,
        })
    );
    // The motioner is locked out for a while, then may motion again.
    assert_eq!(p.in_lockout_period(2, id), true);
    assert_eq!(p.expulsion_proposal_new(2, 4, id, b"loud".to_vec()), Err(Error::PermissionDenied));
    assert_eq!(p.expulsion_proposal_new(2, 3, id, b"rude".to_vec()), Err(Error::PermissionDenied));
    p.set_block_number(11);
    assert_eq!(p.in_lockout_period(2, id), false);
    assert_eq!(p.expulsion_proposal_new(2, 3, id, b"rude".to_vec()), Ok(()));
    assert_eq!(
        p.expulsion_proposal(id, 2, 3).unwrap().status,
        ExpulsionProposalStatus::Proposed
    );
    // One open proposal per motioner.
    assert_eq!(p.expulsion_proposal_new(2, 4, id, b"loud".to_vec()), Err(Error::PermissionDenied));
}

#[test]
fn deactivation_concludes_open_work() {
    let (mut p, id) = with_roster(3);
    let nominee = 30;
    let free_before = p.ledger.free_balance(FOUNDER);
    assert_eq!(p.nomination_new(FOUNDER, id, nominee), Ok(()));
    assert_eq!(p.expulsion_proposal_new(2, 3, id, b"rude".to_vec()), Ok(()));
    p.take_events();
    assert_eq!(p.roster_deactivate(FOUNDER, id), Ok(()));
    let roster = p.roster(id).unwrap();
    assert_eq!(roster.status, RosterStatus::Inactive);
    assert!(roster.nominations.is_empty());
    assert!(roster.expulsion_proposals.is_empty());
    assert_eq!(p.nomination(nominee, id).unwrap().status, NominationStatus::Rejected);
    assert_eq!(p.expulsion_proposal(id, 2, 3).unwrap().status, ExpulsionProposalStatus::Dismissed);
    assert_eq!(p.ledger.free_balance(FOUNDER), free_before);
    assert_eq!(
        p.events,
        vec![
            Event::RosterStatusChanged {
                changed_by: FOUNDER,
                roster_id: id,
                new_status: RosterStatus::Inactive,
            },
            Event::NominationClosed {
                nominee,
                closed_by: FOUNDER,
                roster_id: id,
                status: NominationStatus::Rejected,
            },
            Event::ExpulsionProposalDismissed {
                closer: FOUNDER,
                motioner: 2,
                subject: 3,
                roster_id: id,
            },
        ]
    );
    p.on_initialize(2);
    assert!(p.nomination(nominee, id).is_none());
    assert!(p.expulsion_proposal(id, 2, 3).is_none());
    assert_eq!(p.roster_remove(FOUNDER, id), Ok(()));
    assert!(p.roster(id).is_none());
}

// Laws on concrete values.

#[test]
fn founder_is_protected() {
    let (mut p, id) = with_roster(3);
    assert_eq!(p.expulsion_proposal_new(2, FOUNDER, id, b"rude".to_vec()), Err(Error::PermissionDenied));
    assert_eq!(p.remove_member(FOUNDER, id), Err(Error::PermissionDenied));
    assert_eq!(p.remove_member(3, id), Ok(()));
    assert_eq!(p.roster(id).unwrap().members, vec![1, 2]);
    assert_eq!(reserved(&p, ReservedCurrencyReason::MembershipDues(id), 3), 0);
}

#[test]
fn vote_then_vote_again_is_refused() {
    let (mut p, id) = with_roster(3);
    let nominee = 30;
    assert_eq!(p.nomination_new(FOUNDER, id, nominee), Ok(()));
    assert_eq!(p.nomination_vote(2, id, nominee, NominationVoteValue::Aye), Ok(()));
    assert_eq!(p.nomination_vote(2, id, nominee, NominationVoteValue::Nay), Err(Error::AlreadyVoted));
    assert_eq!(p.nomination_recant_vote(2, id, nominee), Ok(()));
    assert_eq!(p.nomination_recant_vote(2, id, nominee), Err(Error::NotVoted));
    assert_eq!(p.nomination_vote(2, id, nominee, NominationVoteValue::Nay), Ok(()));
    let votes = &p.nomination(nominee, id).unwrap().votes;
    assert_eq!(votes.len(), 1);
    assert_eq!(votes[0].vote, NominationVoteValue::Nay);
}

#[test]
fn expulsion_vote_then_vote_again_is_refused() {
    let (mut p, id) = with_roster(4);
    assert_eq!(p.expulsion_proposal_new(2, 3, id, b"rude".to_vec()), Ok(()));
    assert_eq!(p.expulsion_vote_open(2, 3, id), Err(Error::InsufficientSeconds));
    assert_eq!(p.expulsion_proposal_second(4, 2, 3, id), Ok(()));
    // Seconding again is accepted and lists the seconder once.
    assert_eq!(p.expulsion_proposal_second(4, 2, 3, id), Ok(()));
    assert_eq!(p.expulsion_proposal(id, 2, 3).unwrap().seconds, vec![4]);
    assert_eq!(
        p.events.last(),
        Some(&Event::SeconderAddedToExpulsionProposal {
            seconder: 4,
            motioner: 2,
            subject: 3,
            roster_id: id,
            seconds_count: 1,
        })
    );
    assert_eq!(
        p.expulsion_vote_submit_vote(1, 2, 3, id, ExpulsionProposalVoteValue::Aye),
        Err(Error::VotingPeriodHasNotStarted)
    );
    assert_eq!(p.expulsion_vote_open(2, 3, id), Ok(()));
    assert_eq!(p.expulsion_vote_submit_vote(1, 2, 3, id, ExpulsionProposalVoteValue::Aye), Ok(()));
    assert_eq!(
        p.expulsion_vote_submit_vote(1, 2, 3, id, ExpulsionProposalVoteValue::Nay),
        Err(Error::AlreadyVoted)
    );
    assert_eq!(p.expulsion_vote_recant_vote(1, 2, 3, id), Ok(()));
    assert_eq!(p.expulsion_vote_recant_vote(1, 2, 3, id), Err(Error::NotVoted));
    assert_eq!(p.expulsion_vote_submit_vote(1, 2, 3, id, ExpulsionProposalVoteValue::Nay), Ok(()));
}

#[test]
fn admission_moves_each_deposit_once() {
    let (mut p, id) = with_roster(2);
    let nominee = 30;
    let nominator_free = p.ledger.free_balance(FOUNDER);
    let nominee_free = p.ledger.free_balance(nominee);
    let deposit = ReservedCurrencyReason::NewNomination(id, nominee);
    let dues = ReservedCurrencyReason::MembershipDues(id);
    assert_eq!(p.nomination_new(FOUNDER, id, nominee), Ok(()));
    assert_eq!(reserved(&p, deposit, FOUNDER), DEPOSIT);
    assert_eq!(p.nomination_vote(1, id, nominee, NominationVoteValue::Aye), Ok(()));
    assert_eq!(p.nomination_vote(2, id, nominee, NominationVoteValue::Aye), Ok(()));
    assert_eq!(p.nomination_close(nominee, id, nominee), Ok(()));
    assert_eq!(reserved(&p, deposit, FOUNDER), DEPOSIT);
    assert_eq!(p.add_member(nominee, id), Ok(()));
    assert_eq!(reserved(&p, deposit, FOUNDER), 0);
    assert_eq!(p.ledger.free_balance(FOUNDER), nominator_free);
    assert_eq!(reserved(&p, dues, nominee), DUES);
    assert_eq!(p.ledger.free_balance(nominee), nominee_free - DUES);
    assert_eq!(p.add_member(nominee, id), Err(Error::AlreadyMember));
    assert!(p.roster(id).unwrap().members.contains(&nominee));
    assert!(p.roster(id).unwrap().nominations.is_empty());
}

#[test]
fn passed_expulsion_slashes_dues() {
    let (mut p, id) = with_roster(4);
    assert_eq!(p.expulsion_proposal_new(2, 3, id, b"rude".to_vec()), Ok(()));
    assert_eq!(p.expulsion_proposal_second(4, 2, 3, id), Ok(()));
    assert_eq!(p.expulsion_vote_open(2, 3, id), Ok(()));
    for voter in [1, 2, 4] {
        assert_eq!(
            p.expulsion_vote_submit_vote(voter, 2, 3, id, ExpulsionProposalVoteValue::Aye),
            Ok(())
        );
    }
    assert_eq!(p.expulsion_proposal_close(1, 2, 3, id), Err(Error::VotingPeriodHasNotEnded));
    p.set_block_number(7);
    assert_eq!(p.expulsion_proposal_close(1, 2, 3, id), Ok(()));
    assert_eq!(p.expulsion_proposal(id, 2, 3).unwrap().status, ExpulsionProposalStatus::Passed);
    assert_eq!(p.roster(id).unwrap().members, vec![1, 2, 4]);
    assert_eq!(p.ledger.free_balance(POT), DUES);
    assert_eq!(reserved(&p, ReservedCurrencyReason::MembershipDues(id), 3), 0);
    assert_eq!(p.events.last(), Some(&Event::MemberRemoved { member: 3, roster_id: id }));
    // Assumption: a passed expulsion refunds nothing to its motioner or seconders.
    assert_eq!(reserved(&p, ReservedCurrencyReason::NewExpulsionProposal(id, 3), 2), DEPOSIT);
    assert_eq!(reserved(&p, ReservedCurrencyReason::MembershipDues(id), 4), DUES);
}

#[test]
fn expulsion_without_quorum_is_dismissed() {
    let (mut p, id) = with_roster(6);
    assert_eq!(p.expulsion_proposal_new(2, 3, id, b"rude".to_vec()), Ok(()));
    assert_eq!(p.expulsion_proposal_second(4, 2, 3, id), Ok(()));
    assert_eq!(p.expulsion_vote_open(2, 3, id), Ok(()));
    assert_eq!(p.expulsion_vote_submit_vote(1, 2, 3, id, ExpulsionProposalVoteValue::Aye), Ok(()));
    assert_eq!(p.expulsion_vote_submit_vote(4, 2, 3, id, ExpulsionProposalVoteValue::Aye), Ok(()));
    p.set_block_number(7);
    assert_eq!(p.expulsion_proposal_close(1, 2, 3, id), Ok(()));
    assert_eq!(p.expulsion_proposal(id, 2, 3).unwrap().status, ExpulsionProposalStatus::Dismissed);
    assert_eq!(p.roster(id).unwrap().members.len(), 6);
    assert_eq!(p.ledger.free_balance(POT), 0);
    // A plain dismissal slashes nothing and keeps the motioner's deposit reserved.
    assert_eq!(reserved(&p, ReservedCurrencyReason::NewExpulsionProposal(id, 3), 2), DEPOSIT);
}

#[test]
fn supermajority_of_nays_dismisses_with_prejudice() {
    let (mut p, id) = with_roster(4);
    assert_eq!(p.expulsion_proposal_new(2, 3, id, b"rude".to_vec()), Ok(()));
    assert_eq!(p.expulsion_proposal_second(4, 2, 3, id), Ok(()));
    assert_eq!(p.expulsion_vote_open(2, 3, id), Ok(()));
    for voter in [1, 3, 4] {
        assert_eq!(
            p.expulsion_vote_submit_vote(voter, 2, 3, id, ExpulsionProposalVoteValue::Nay),
            Ok(())
        );
    }
    p.set_block_number(7);
    assert_eq!(p.expulsion_proposal_close(1, 2, 3, id), Ok(()));
    assert_eq!(
        p.expulsion_proposal(id, 2, 3).unwrap().status,
        ExpulsionProposalStatus::DismissedWithPrejudice
    );
    assert_eq!(p.in_lockout_period(4, id), true);
    assert_eq!(p.in_lockout_period(1, id), false);
}

// Refusals.

#[test]
fn roster_refusals() {
    let (mut p, id) = with_roster(2);
    assert_eq!(p.roster_new(FOUNDER, vec![b'a'; 17]), Err(Error::InvalidRosterTitle));
    assert_eq!(p.roster_new(FOUNDER, b"club".to_vec()), Err(Error::RosterExists));
    p.set_free_balance(50, 10);
    assert_eq!(p.roster_new(50, b"poor".to_vec()), Err(Error::InsufficientFunds));
    assert_eq!(p.roster_activate(FOUNDER, RosterId(5)), Err(Error::RosterDoesNotExist));
    assert_eq!(p.roster_remove(FOUNDER, RosterId(5)), Err(Error::RosterDoesNotExist));
    assert_eq!(p.nomination_new(FOUNDER, RosterId(5), 30), Err(Error::RosterDoesNotExist));
    assert_eq!(p.roster_deactivate(FOUNDER, id), Ok(()));
    assert_eq!(p.nomination_new(FOUNDER, id, 30), Err(Error::RosterNotActive));
    assert_eq!(p.expulsion_proposal_new(2, 1, id, b"rude".to_vec()), Err(Error::RosterNotActive));
}

#[test]
fn capacity_refusals() {
    let mut small = config();
    small.members_max = 0;
    let mut p = Pallet::new(small);
    p.set_free_balance(FOUNDER, 1_000_000);
    assert_eq!(p.roster_new(FOUNDER, b"club".to_vec()), Err(Error::CouldNotAddMember));

    let (mut p, id) = with_roster(20);
    assert_eq!(p.force_add_member(21, id), Err(Error::CouldNotAddMember));
    for nominee in 30..35 {
        assert_eq!(p.nomination_new(FOUNDER, id, nominee), Ok(()));
    }
    assert_eq!(p.nomination_new(FOUNDER, id, 35), Err(Error::CouldNotAddNomination));
    assert_eq!(p.nomination_new(FOUNDER, id, 30), Err(Error::AlreadyNominated));
    assert_eq!(p.nomination_new(FOUNDER, id, 2), Err(Error::AlreadyMember));
    assert_eq!(p.nomination_new(30, id, 36), Err(Error::PermissionDenied));
}

#[test]
fn vote_limits_and_windows() {
    let mut few = config();
    few.nomination_votes_max = 1;
    few.seconds_max = 1;
    few.expulsion_proposal_votes_max = 1;
    let mut p = Pallet::new(few);
    p.set_treasury_account(POT);
    for a in 1..=10 {
        p.set_free_balance(a, 1_000_000);
    }
    assert_eq!(p.roster_new(FOUNDER, b"club".to_vec()), Ok(()));
    let id = RosterId::from_tuple(FOUNDER, &b"club".to_vec());
    for a in 2..=4 {
        assert_eq!(p.force_add_member(a, id), Ok(()));
    }
    assert_eq!(p.nomination_new(FOUNDER, id, 9), Ok(()));
    assert_eq!(p.nomination_vote(1, id, 9, NominationVoteValue::Aye), Ok(()));
    assert_eq!(p.nomination_vote(2, id, 9, NominationVoteValue::Aye), Err(Error::CouldNotAddVote));
    assert_eq!(p.nomination_vote(8, id, 9, NominationVoteValue::Aye), Err(Error::PermissionDenied));
    assert_eq!(p.nomination_vote(2, id, 8, NominationVoteValue::Aye), Err(Error::NominationDoesNotExist));
    p.set_block_number(11);
    assert_eq!(p.nomination_vote(2, id, 9, NominationVoteValue::Aye), Err(Error::VotingPeriodEnded));
    assert_eq!(p.nomination_close(1, id, 9), Ok(()));
    assert_eq!(p.nomination_vote(2, id, 9, NominationVoteValue::Aye), Err(Error::NominationAlreadyApproved));
    assert_eq!(p.nomination_close(1, id, 9), Err(Error::VotingPeriodHasEnded));

    assert_eq!(p.expulsion_proposal_new(2, 3, id, b"no".to_vec()), Err(Error::InvalidExpulsionReason));
    assert_eq!(p.expulsion_proposal_new(2, 3, id, vec![b'a'; 51]), Err(Error::InvalidExpulsionReason));
    assert_eq!(p.expulsion_proposal_second(4, 2, 3, id), Err(Error::ExpulsionProposalDoesNotExist));
    assert_eq!(p.expulsion_proposal_new(2, 3, id, b"rude".to_vec()), Ok(()));
    assert_eq!(p.expulsion_proposal_new(4, 3, id, b"rude".to_vec()), Err(Error::PermissionDenied));
    assert_eq!(p.expulsion_proposal_second(4, 2, 3, id), Ok(()));
    assert_eq!(p.expulsion_proposal_second(1, 2, 3, id), Err(Error::CouldNotAddSeconder));
    assert_eq!(p.expulsion_proposal_second(4, 2, 3, id), Ok(()));
    assert_eq!(p.expulsion_vote_open(2, 3, id), Ok(()));
    assert_eq!(p.expulsion_vote_submit_vote(1, 2, 3, id, ExpulsionProposalVoteValue::Abstain), Ok(()));
    assert_eq!(
        p.expulsion_vote_submit_vote(4, 2, 3, id, ExpulsionProposalVoteValue::Aye),
        Err(Error::CouldNotAddVote)
    );
    p.set_block_number(17);
    assert_eq!(
        p.expulsion_vote_submit_vote(4, 2, 3, id, ExpulsionProposalVoteValue::Aye),
        Err(Error::VotingPeriodHasEnded)
    );
}

#[test]
fn close_needs_a_treasury_and_room() {
    let mut tight = config();
    tight.concluded_nominations_max = 0;
    let mut p = Pallet::new(tight);
    for a in 1..=10 {
        p.set_free_balance(a, 1_000_000);
    }
    assert_eq!(p.roster_new(FOUNDER, b"club".to_vec()), Ok(()));
    let id = RosterId::from_tuple(FOUNDER, &b"club".to_vec());
    for a in 2..=4 {
        assert_eq!(p.force_add_member(a, id), Ok(()));
    }
    assert_eq!(p.nomination_new(FOUNDER, id, 9), Ok(()));
    p.set_block_number(20);
    assert_eq!(p.nomination_close(1, id, 9), Err(Error::CouldNotAddToConcluded));
    assert_eq!(p.roster_deactivate(FOUNDER, id), Err(Error::CouldNotAddToConcluded));

    assert_eq!(p.expulsion_proposal_new(2, 3, id, b"rude".to_vec()), Ok(()));
    p.set_block_number(30);
    assert_eq!(p.expulsion_proposal_close(1, 2, 3, id), Err(Error::TreasuryDoesNotExist));
    p.set_treasury_account(POT);
    assert_eq!(p.expulsion_proposal_close(1, 2, 3, id), Ok(()));
    assert_eq!(p.expulsion_proposal_close(1, 2, 3, id), Err(Error::PermissionDenied));
    assert_eq!(p.add_member(9, id), Err(Error::NotApproved));
    assert_eq!(p.add_member(8, id), Err(Error::NominationDoesNotExist));
}

#[test]
fn removal_needs_room_for_every_proposal() {
    let mut tight = config();
    tight.expulsion_proposals_per_roster_max = 1;
    let mut p = Pallet::new(tight);
    p.set_treasury_account(POT);
    for a in 1..=10 {
        p.set_free_balance(a, 1_000_000);
    }
    assert_eq!(p.roster_new(FOUNDER, b"club".to_vec()), Ok(()));
    let id = RosterId::from_tuple(FOUNDER, &b"club".to_vec());
    for a in 2..=5 {
        assert_eq!(p.force_add_member(a, id), Ok(()));
    }
    assert_eq!(p.expulsion_proposal_new(2, 3, id, b"rude".to_vec()), Ok(()));
    assert_eq!(p.expulsion_proposal_new(4, 5, id, b"rude".to_vec()), Err(Error::CouldNotAddExpulsionProposal));
    p.set_block_number(10);
    assert_eq!(p.expulsion_proposal_close(1, 2, 3, id), Ok(()));
    assert_eq!(p.expulsion_proposal_new(4, 5, id, b"rude".to_vec()), Ok(()));
    assert_eq!(p.roster_deactivate(FOUNDER, id), Ok(()));
    assert_eq!(p.roster_remove(FOUNDER, id), Err(Error::CouldNotRemoveAllExpulsionProposals));
    p.on_initialize(11);
    assert_eq!(p.roster_remove(FOUNDER, id), Ok(()));
    assert!(p.expulsion_proposal(id, 2, 3).is_none());
    assert_eq!(p.ledger.reserved_balance(FOUNDER), 0);
}

#[test]
fn sweep_with_nothing_pending_changes_nothing() {
    let (mut p, id) = with_roster(2);
    assert_eq!(p.nomination_new(FOUNDER, id, 30), Ok(()));
    p.on_initialize(2);
    p.on_initialize(3);
    assert_eq!(p.block_number, 3);
    assert!(p.nomination(30, id).is_some());
    assert!(p.concluded_nominations.is_empty());
}

#[test]
fn adding_several_members_is_all_or_nothing() {
    let (mut p, id) = with_roster(2);
    assert_eq!(p.force_add_members(vec![5, 6, 5], id), Err(Error::AlreadyMember));
    assert_eq!(p.roster(id).unwrap().members, vec![1, 2]);
    assert_eq!(reserved(&p, ReservedCurrencyReason::MembershipDues(id), 5), 0);
    p.set_free_balance(7, 1);
    assert_eq!(p.force_add_members(vec![5, 7], id), Err(Error::InsufficientFunds));
    assert_eq!(p.roster(id).unwrap().members, vec![1, 2]);
    assert_eq!(p.force_add_members(vec![5, 6], id), Ok(()));
    assert_eq!(p.roster(id).unwrap().members, vec![1, 2, 5, 6]);
    assert_eq!(reserved(&p, ReservedCurrencyReason::MembershipDues(id), 6), DUES);
    assert_eq!(p.force_add_members(vec![], RosterId(5)), Ok(()));
    assert_eq!(p.force_add_members(vec![8], RosterId(5)), Err(Error::RosterDoesNotExist));
}
