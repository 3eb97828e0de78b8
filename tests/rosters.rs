use roster::pallet::Pallet;
use roster::types::{Config, Error, Event, NominationStatus, RosterId, RosterStatus};

const ALICE: u64 = 1;
const BOB: u64 = 2;
const CHARLIE: u64 = 3;
const POT: u64 = 99;
const CENTIUNIT: u64 = 10_000_000_000;

fn config() -> Config {
    Config {
        pallet_id: *b"py/rster",
        new_roster_deposit: CENTIUNIT,
        membership_dues: 1,
        new_nomination_deposit: CENTIUNIT,
        new_expulsion_proposal_deposit: CENTIUNIT,
        expulsion_proposal_reparations: 50,
        title_max_length: 200,
        members_max: u32::MAX,
        nomination_votes_max: u32::MAX,
        nomination_voting_period: 1,
        nominations_per_roster_max: u32::MAX,
        concluded_nominations_max: u32::MAX,
        quorum_min: 50,
        quorum_modifier: 100,
        expulsion_proposal_awaiting_second_period: 1,
        expulsion_proposal_voting_period: 1,
        expulsion_proposals_per_roster_max: u32::MAX,
        expulsion_proposal_second_threshold: 1,
        seconds_max: u32::MAX,
        expulsion_reason_max_length: 5000,
        expulsion_reason_min_length: 1,
        expulsion_proposal_votes_max: u32::MAX,
        concluded_expulsion_proposals_max: u32::MAX,
        expulsion_proposal_lockout_period: 1,
        expulsion_proposal_super_majority: 75,
        expulsion_proposal_quorum: 50,
    }
}

fn new_test_ext() -> Pallet {
    let mut p = Pallet::new(config());
    p.set_treasury_account(POT);
    p
}

/// Runs the clock up to block `n`, clearing the event log before each block.
fn run_to_block(p: &mut Pallet, n: u64) {
    while p.block_number < n {
        p.take_events();
        let next = p.block_number + 1;
        p.on_initialize(next);
    }
}

fn title() -> Vec<u8> {
    "My Roster".as_bytes().to_vec()
}

#[test]
fn test_can_create_new_roster() {
    let mut p = new_test_ext();
    p.set_block_number(1);
    p.set_free_balance(ALICE, p.config.new_roster_deposit + 100);
    let roster_title = title();
    assert!(roster_title.len() <= 200);
    let roster_id = RosterId::from_tuple(ALICE, &roster_title);

    assert_eq!(p.roster_new(ALICE, title()), Ok(()));
    assert_eq!(p.events.last(), Some(&Event::NewRoster { founder: ALICE, title: title(), roster_id }));

    let query_response = p.roster(roster_id);
    assert!(query_response.is_some());
    let roster = query_response.unwrap();
    assert_eq!(roster.id, roster_id);
    assert_eq!(roster.founder, ALICE);
    assert_eq!(roster.title, roster_title);
    assert_eq!(roster.status, RosterStatus::Active);
    assert_eq!(roster.founded_on, 1);

    assert_eq!(roster.nominations.len(), 0);
    assert_eq!(roster.expulsion_proposals.len(), 0);

    assert_eq!(roster.members.len(), 1);
    assert_eq!(roster.members[0], ALICE);
}

#[test]
fn test_roster_title_unique_to_account() {
    let mut p = new_test_ext();
    p.set_block_number(1);
    p.set_free_balance(ALICE, p.config.new_roster_deposit * 2 + 100);
    p.set_free_balance(BOB, p.config.new_roster_deposit + 100);
    let alice_roster_id = RosterId::from_tuple(ALICE, &title());
    let bob_roster_id = RosterId::from_tuple(BOB, &title());

    assert_eq!(p.roster_new(ALICE, title()), Ok(()));
    assert_eq!(
        p.events.last(),
        Some(&Event::NewRoster { founder: ALICE, title: title(), roster_id: alice_roster_id })
    );

    assert_eq!(p.roster_new(BOB, title()), Ok(()));
    assert_eq!(p.events.last(), Some(&Event::NewRoster { founder: BOB, title: title(), roster_id: bob_roster_id }));

    let rosters_before = p.rosters.len();
    let events_before = p.events.clone();
    let reserved_before = p.ledger.reserved_balance(ALICE);
    let free_before = p.ledger.free_balance(ALICE);
    assert_eq!(p.roster_new(ALICE, title()), Err(Error::RosterExists));
    assert_eq!(p.rosters.len(), rosters_before);
    assert_eq!(p.events, events_before);
    assert_eq!(p.ledger.reserved_balance(ALICE), reserved_before);
    assert_eq!(p.ledger.free_balance(ALICE), free_before);
    assert_eq!(p.roster(alice_roster_id).unwrap().founder, ALICE);
}

#[test]
fn test_toggle_roster_status() {
    let mut p = new_test_ext();
    p.set_block_number(1);
    p.set_free_balance(ALICE, p.config.new_roster_deposit + 100);
    let roster_id = RosterId::from_tuple(ALICE, &title());

    assert_eq!(p.roster_new(ALICE, title()), Ok(()));
    assert_eq!(p.events.last(), Some(&Event::NewRoster { founder: ALICE, title: title(), roster_id }));
    assert_eq!(p.roster(roster_id).unwrap().status, RosterStatus::Active);

    assert_eq!(p.roster_deactivate(ALICE, roster_id), Ok(()));
    assert!(p.events.contains(&Event::RosterStatusChanged {
        changed_by: ALICE,
        roster_id,
        new_status: RosterStatus::Inactive,
    }));

    run_to_block(&mut p, 2);
    assert_eq!(p.roster(roster_id).unwrap().status, RosterStatus::Inactive);

    assert_eq!(p.roster_activate(ALICE, roster_id), Ok(()));
    assert!(p.events.contains(&Event::RosterStatusChanged {
        changed_by: ALICE,
        roster_id,
        new_status: RosterStatus::Active,
    }));

    run_to_block(&mut p, 3);
    assert_eq!(p.roster(roster_id).unwrap().status, RosterStatus::Active);
}

#[test]
fn test_cannot_activate_active_roster() {
    let mut p = new_test_ext();
    p.set_block_number(1);
    p.set_free_balance(ALICE, p.config.new_roster_deposit + 100);
    let roster_id = RosterId::from_tuple(ALICE, &title());

    assert_eq!(p.roster_new(ALICE, title()), Ok(()));
    assert_eq!(p.events.last(), Some(&Event::NewRoster { founder: ALICE, title: title(), roster_id }));
    assert_eq!(p.roster(roster_id).unwrap().status, RosterStatus::Active);

    run_to_block(&mut p, 2);
    assert_eq!(p.roster_activate(ALICE, roster_id), Err(Error::RosterActive));
}

#[test]
fn test_cannot_deactivate_inactive_roster() {
    let mut p = new_test_ext();
    p.set_block_number(1);
    p.set_free_balance(ALICE, p.config.new_roster_deposit + 100);
    let roster_id = RosterId::from_tuple(ALICE, &title());

    assert_eq!(p.roster_new(ALICE, title()), Ok(()));
    assert_eq!(p.events.last(), Some(&Event::NewRoster { founder: ALICE, title: title(), roster_id }));
    assert_eq!(p.roster(roster_id).unwrap().status, RosterStatus::Active);

    run_to_block(&mut p, 2);
    assert_eq!(p.roster_deactivate(ALICE, roster_id), Ok(()));
    assert!(p.events.contains(&Event::RosterStatusChanged {
        changed_by: ALICE,
        roster_id,
        new_status: RosterStatus::Inactive,
    }));

    run_to_block(&mut p, 3);
    assert_eq!(p.roster_deactivate(ALICE, roster_id), Err(Error::RosterNotActive));
}

#[test]
fn test_conclude_nominations_when_roster_deactivated() {
    let mut p = new_test_ext();
    p.set_block_number(1);
    p.set_free_balance(ALICE, p.config.new_roster_deposit + p.config.new_nomination_deposit + 100);
    let roster_id = RosterId::from_tuple(ALICE, &title());

    assert_eq!(p.roster_new(ALICE, title()), Ok(()));
    assert_eq!(p.events.last(), Some(&Event::NewRoster { founder: ALICE, title: title(), roster_id }));

    assert_eq!(p.nomination_new(ALICE, roster_id, BOB), Ok(()));
    assert_eq!(
        p.events.last(),
        Some(&Event::NewNomination { nominator: ALICE, nominee: BOB, roster_id })
    );

    run_to_block(&mut p, 2);

    assert_eq!(p.roster_deactivate(ALICE, roster_id), Ok(()));
    assert_eq!(
        p.events.len(),
        2,
        "Expected 2 events to be emitted: 1 for nomination dismissal and 1 for roster deactivation"
    );
    assert!(p.events.contains(&Event::NominationClosed {
        nominee: BOB,
        closed_by: ALICE,
        roster_id,
        status: NominationStatus::Rejected,
    }));
    assert!(p.events.contains(&Event::RosterStatusChanged {
        changed_by: ALICE,
        roster_id,
        new_status: RosterStatus::Inactive,
    }));
}

#[test]
fn test_cannot_remove_active_roster() {
    let mut p = new_test_ext();
    p.set_block_number(1);
    p.set_free_balance(ALICE, p.config.new_roster_deposit + 100);
    let roster_id = RosterId::from_tuple(ALICE, &title());

    assert_eq!(p.roster_new(ALICE, title()), Ok(()));
    assert_eq!(p.events.last(), Some(&Event::NewRoster { founder: ALICE, title: title(), roster_id }));

    run_to_block(&mut p, 2);
    assert_eq!(p.roster_remove(ALICE, roster_id), Err(Error::RosterActive));
}

#[test]
fn test_can_remove_inactive_roster() {
    let mut p = new_test_ext();
    p.set_block_number(1);
    p.set_free_balance(ALICE, p.config.new_roster_deposit + 100);
    let roster_id = RosterId::from_tuple(ALICE, &title());

    assert_eq!(p.roster_new(ALICE, title()), Ok(()));
    assert_eq!(p.events.last(), Some(&Event::NewRoster { founder: ALICE, title: title(), roster_id }));

    run_to_block(&mut p, 2);
    assert_eq!(p.roster_deactivate(ALICE, roster_id), Ok(()));
    assert!(p.events.contains(&Event::RosterStatusChanged {
        changed_by: ALICE,
        roster_id,
        new_status: RosterStatus::Inactive,
    }));

    assert_eq!(p.roster_remove(ALICE, roster_id), Ok(()));
    assert!(p.events.contains(&Event::RosterRemoved { removed_by: ALICE, roster_id }));
}

#[test]
fn test_only_founder_can_deactivate_roster() {
    let mut p = new_test_ext();
    p.set_block_number(1);
    p.set_free_balance(ALICE, p.config.new_roster_deposit + 100);
    let roster_id = RosterId::from_tuple(ALICE, &title());

    assert_eq!(p.roster_new(ALICE, title()), Ok(()));
    assert_eq!(p.events.last(), Some(&Event::NewRoster { founder: ALICE, title: title(), roster_id }));

    run_to_block(&mut p, 2);
    assert_eq!(p.roster_deactivate(BOB, roster_id), Err(Error::PermissionDenied));
}

#[test]
fn test_only_founder_can_activate_roster() {
    let mut p = new_test_ext();
    p.set_block_number(1);
    p.set_free_balance(ALICE, p.config.new_roster_deposit + 100);
    let roster_id = RosterId::from_tuple(ALICE, &title());

    assert_eq!(p.roster_new(ALICE, title()), Ok(()));
    assert_eq!(p.events.last(), Some(&Event::NewRoster { founder: ALICE, title: title(), roster_id }));

    run_to_block(&mut p, 2);
    assert_eq!(p.roster_deactivate(ALICE, roster_id), Ok(()));
    assert!(p.events.contains(&Event::RosterStatusChanged {
        changed_by: ALICE,
        roster_id,
        new_status: RosterStatus::Inactive,
    }));

    run_to_block(&mut p, 3);
    assert_eq!(p.roster_activate(BOB, roster_id), Err(Error::PermissionDenied));
}

#[test]
fn test_only_founder_can_remove_roster() {
    let mut p = new_test_ext();
    p.set_block_number(1);
    p.set_free_balance(ALICE, p.config.new_roster_deposit + 100);
    let roster_id = RosterId::from_tuple(ALICE, &title());

    assert_eq!(p.roster_new(ALICE, title()), Ok(()));
    assert_eq!(p.events.last(), Some(&Event::NewRoster { founder: ALICE, title: title(), roster_id }));

    run_to_block(&mut p, 2);
    assert_eq!(p.roster_deactivate(ALICE, roster_id), Ok(()));
    assert!(p.events.contains(&Event::RosterStatusChanged {
        changed_by: ALICE,
        roster_id,
        new_status: RosterStatus::Inactive,
    }));

    run_to_block(&mut p, 3);
    assert_eq!(p.roster_remove(BOB, roster_id), Err(Error::PermissionDenied));
}

#[test]
fn test_deposit_reserved_on_new_roster() {
    let mut p = new_test_ext();
    p.set_block_number(1);
    p.set_free_balance(ALICE, p.config.new_roster_deposit + 100);

    assert_eq!(p.roster_new(ALICE, title()), Ok(()));
    assert_eq!(p.ledger.reserved_balance(ALICE), 10000000000);
    assert_eq!(p.ledger.free_balance(ALICE), 100);
}

#[test]
fn test_deposit_returned_when_roster_removed() {
    let mut p = new_test_ext();
    p.set_block_number(1);
    p.set_free_balance(ALICE, p.config.new_roster_deposit + 100);
    let roster_id = RosterId::from_tuple(ALICE, &title());

    assert_eq!(p.roster_new(ALICE, title()), Ok(()));
    assert_eq!(p.ledger.reserved_balance(ALICE), 10000000000);
    assert_eq!(p.ledger.free_balance(ALICE), 100);

    run_to_block(&mut p, 2);
    assert_eq!(p.roster_deactivate(ALICE, roster_id), Ok(()));

    run_to_block(&mut p, 3);
    assert_eq!(p.roster_remove(ALICE, roster_id), Ok(()));
    assert_eq!(p.ledger.reserved_balance(ALICE), 0);
    assert_eq!(p.ledger.free_balance(ALICE), 10000000100);
}

#[test]
fn test_deposit_slashed_when_expulsion_proposal_dismissed_with_prejudice() {
    let mut p = new_test_ext();
    p.set_block_number(1);
    let pot = p.account_id().unwrap();

    let roster_deposit = p.config.new_roster_deposit;
    let nomination_deposit = p.config.new_nomination_deposit;
    let membership_dues = p.config.membership_dues;
    let expulsion_proposal_deposit = p.config.new_expulsion_proposal_deposit;
    let overage = 100;
    let reparations =
        expulsion_proposal_deposit * p.config.expulsion_proposal_reparations as u64 / 100;

    p.set_free_balance(ALICE, roster_deposit + nomination_deposit * 2 + overage);
    p.set_free_balance(BOB, membership_dues + expulsion_proposal_deposit + overage);
    p.set_free_balance(CHARLIE, membership_dues + overage);
    p.set_free_balance(pot, overage);

    let roster_id = RosterId::from_tuple(ALICE, &title());

    assert_eq!(p.roster_new(ALICE, title()), Ok(()));
    assert_eq!(p.ledger.reserved_balance(ALICE), roster_deposit as u128);

    run_to_block(&mut p, 2);

    assert_eq!(p.nomination_new(ALICE, roster_id, BOB), Ok(()));
    assert_eq!(p.nomination_new(ALICE, roster_id, CHARLIE), Ok(()));
    assert_eq!(p.ledger.reserved_balance(ALICE), (roster_deposit + nomination_deposit * 2) as u128);

    run_to_block(&mut p, 3);

    assert_eq!(p.nomination_vote(ALICE, roster_id, BOB, roster::types::NominationVoteValue::Aye), Ok(()));
    assert_eq!(p.nomination_close(ALICE, roster_id, BOB), Ok(()));
    assert_eq!(p.add_member(BOB, roster_id), Ok(()));

    assert_eq!(p.ledger.reserved_balance(ALICE), (roster_deposit + nomination_deposit) as u128);
    assert_eq!(p.ledger.reserved_balance(BOB), membership_dues as u128);

    run_to_block(&mut p, 3);

    assert_eq!(
        p.nomination_vote(ALICE, roster_id, CHARLIE, roster::types::NominationVoteValue::Aye),
        Ok(())
    );
    assert_eq!(
        p.nomination_vote(BOB, roster_id, CHARLIE, roster::types::NominationVoteValue::Aye),
        Ok(())
    );
    assert_eq!(p.nomination_close(BOB, roster_id, CHARLIE), Ok(()));
    assert_eq!(p.add_member(CHARLIE, roster_id), Ok(()));

    assert_eq!(p.ledger.reserved_balance(ALICE), roster_deposit as u128);
    assert_eq!(p.ledger.reserved_balance(CHARLIE), membership_dues as u128);
    assert_eq!(p.ledger.free_balance(CHARLIE), overage);

    run_to_block(&mut p, 4);

    let reason = "Two is a party. Three is a crowd".as_bytes().to_vec();
    assert_eq!(p.expulsion_proposal_new(BOB, CHARLIE, roster_id, reason.clone()), Ok(()));
    assert!(p.events.contains(&Event::NewExpulsionProposal {
        motioner: BOB,
        subject: CHARLIE,
        roster_id,
        reason: reason.clone(),
    }));
    assert_eq!(p.expulsion_proposal(roster_id, BOB, CHARLIE).unwrap().reason, reason);

    assert_eq!(
        p.ledger.reserved_balance(BOB),
        (membership_dues + expulsion_proposal_deposit) as u128
    );
    assert_eq!(p.ledger.free_balance(BOB), overage);
    assert_eq!(p.ledger.free_balance(pot), overage);

    let awaiting_second_period = p.config.expulsion_proposal_awaiting_second_period;
    run_to_block(&mut p, awaiting_second_period + 10);

    assert_eq!(p.expulsion_proposal_close(CHARLIE, BOB, CHARLIE, roster_id), Ok(()));
    assert!(p.events.contains(&Event::ExpulsionProposalDismissedWithPrejudice {
        closer: CHARLIE,
        motioner: BOB,
        subject: CHARLIE,
        roster_id,
    }));

    assert_eq!(p.ledger.reserved_balance(BOB), membership_dues as u128);
    assert_eq!(p.ledger.free_balance(BOB), overage);
    assert_eq!(p.ledger.free_balance(CHARLIE), overage + reparations);
    assert_eq!(p.ledger.free_balance(pot), overage + reparations);
}
