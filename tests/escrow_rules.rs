use std::collections::HashMap;

use cotravel_escrow::{
    AccountId, Config, CotravelEscrow, Trip, EscrowError, Event, Operation, Outcome, Payout, Recipient,
    Status, TripKey, MAX_PARTICIPANTS, MAX_RECIPIENTS, MAX_TRIPS,
};

const TOKEN: AccountId = 100;
const ORG: AccountId = 1;
const A: AccountId = 11;
const B: AccountId = 12;
const C: AccountId = 13;
const V1: AccountId = 21;
const V2: AccountId = 22;

fn rec(list: &[(AccountId, i128)]) -> Vec<Recipient> {
    list.iter().map(|&(address, amount)| Recipient { address, amount }).collect()
}

fn paid_to(o: &Outcome, who: AccountId) -> i128 {
    o.payouts.iter().filter(|p| p.to == who).map(|p| p.amount).sum()
}

fn total_paid(o: &Outcome) -> i128 {
    o.payouts.iter().map(|p| p.amount).sum()
}

fn trip(e: &mut CotravelEscrow, target: i128, min: u32, penalty: u32) -> u64 {
    e.create_trip(ORG, TOKEN, target, min, 2000, penalty).unwrap().trip_id
}

#[test]
fn scenario_basic_funding_and_auto_complete() {
    let mut e = CotravelEscrow::new();
    let t = trip(&mut e, 1_000_000, 2, 10);
    e.contribute(t, A, 500_000, 1000).unwrap();
    assert_eq!(e.get_state(t).unwrap().status, Status::Funding);
    let o = e.contribute(t, B, 500_000, 1000).unwrap();
    let s = e.get_state(t).unwrap();
    assert_eq!(s.status, Status::Completed);
    assert_eq!(s.total_collected, 1_000_000);
    assert!(o.payouts.is_empty());
}

#[test]
fn scenario_penalized_withdrawal_then_cancel() {
    let mut e = CotravelEscrow::new();
    let t = trip(&mut e, 1_000_000, 2, 10);
    e.contribute(t, A, 500_000, 1000).unwrap();
    e.contribute(t, B, 500_000, 1000).unwrap();

    let w = e.withdraw(t, A).unwrap();
    assert_eq!(w.payouts, vec![Payout { to: A, amount: 450_000 }]);
    assert_eq!(e.get_penalty(t, A), 50_000);
    assert_eq!(e.get_balance(t, A), 0);
    assert_eq!(e.get_balance(t, B), 500_000);
    assert_eq!(e.get_state(t).unwrap().total_collected, 550_000);
    assert_eq!(e.get_state(t).unwrap().status, Status::Funding);

    let c = e.cancel(t, 1500).unwrap();
    assert_eq!(paid_to(&c, A), 50_000);
    assert_eq!(paid_to(&c, B), 500_000);
    assert_eq!(total_paid(&c), 550_000);
    assert_eq!(e.get_penalty(t, A), 0);
    assert_eq!(e.get_state(t).unwrap().total_collected, 0);
    assert_eq!(c.events, vec![Event::Cancelled(cotravel_escrow::CancelledEvent { trip_id: t, timestamp: 1500 })]);
}

#[test]
fn scenario_multi_recipient_release_exact_funding() {
    let mut e = CotravelEscrow::new();
    let t = e
        .create_invoice(ORG, TOKEN, 1_000_000, 2, 2000, 10, rec(&[(V1, 600_000), (V2, 400_000)]), false)
        .unwrap()
        .trip_id;
    e.contribute(t, A, 300_000, 1000).unwrap();
    e.contribute(t, B, 700_000, 1000).unwrap();
    let o = e.release(t).unwrap();
    assert_eq!(o.payouts, vec![Payout { to: V1, amount: 600_000 }, Payout { to: V2, amount: 400_000 }]);
    assert_eq!(paid_to(&o, ORG), 0);
}

#[test]
fn scenario_deadline_refund() {
    let mut e = CotravelEscrow::new();
    let t = trip(&mut e, 1_000_000, 2, 10);
    e.contribute(t, A, 300_000, 1000).unwrap();
    e.contribute(t, B, 200_000, 1000).unwrap();
    assert!(matches!(e.claim_deadline(t, 2000), Err(EscrowError::DeadlineNotPassed)));
    assert_eq!(e.get_state(t).unwrap().status, Status::Funding);
    let o = e.claim_deadline(t, 2001).unwrap();
    assert_eq!(o.payouts, vec![Payout { to: A, amount: 300_000 }, Payout { to: B, amount: 200_000 }]);
    assert_eq!(e.get_state(t).unwrap().status, Status::Cancelled);
    match o.events[0] {
        Event::DeadlineExpired(d) => {
            assert_eq!(d.refunded_participants, 2);
            assert_eq!(d.timestamp, 2001);
        }
        _ => panic!("expected a deadline event"),
    }
}

#[test]
fn conservation_over_a_mixed_history() {
    let mut e = CotravelEscrow::new();
    let t = trip(&mut e, 1_000_000, 2, 15);
    let mut contributed: i128 = 0;
    let mut paid: i128 = 0;
    for (who, amount) in [(A, 300_000), (B, 250_000), (C, 100_000)] {
        e.contribute(t, who, amount, 1000).unwrap();
        contributed += amount;
    }
    paid += total_paid(&e.withdraw(t, B).unwrap());
    e.contribute(t, B, 33_333, 1000).unwrap();
    contributed += 33_333;
    paid += total_paid(&e.withdraw(t, C).unwrap());
    let held = |e: &CotravelEscrow| -> i128 {
        [A, B, C].iter().map(|&p| e.get_balance(t, p) + e.get_penalty(t, p)).sum()
    };
    assert_eq!(held(&e) + paid, contributed);
    assert_eq!(held(&e), e.get_state(t).unwrap().total_collected);
    paid += total_paid(&e.cancel(t, 1000).unwrap());
    assert_eq!(held(&e), 0);
    assert_eq!(paid, contributed);
}

#[test]
fn recontribution_after_withdrawal_is_refunded_once() {
    let mut e = CotravelEscrow::new();
    let t = trip(&mut e, 1_000_000, 3, 10);
    e.contribute(t, A, 100_000, 1000).unwrap();
    e.withdraw(t, A).unwrap();
    e.contribute(t, A, 200_000, 1000).unwrap();
    assert_eq!(e.get_participants(t), vec![A]);
    assert_eq!(e.get_state(t).unwrap().participant_count, 1);
    let o = e.cancel(t, 1000).unwrap();
    assert_eq!(o.payouts, vec![Payout { to: A, amount: 200_000 }, Payout { to: A, amount: 10_000 }]);
}

#[test]
fn terminal_states_refuse_every_operation() {
    let mut e = CotravelEscrow::new();
    let t = trip(&mut e, 1_000_000, 1, 10);
    e.contribute(t, A, 1_000_000, 1000).unwrap();
    e.release(t).unwrap();
    assert!(matches!(e.contribute(t, B, 1, 1000), Err(EscrowError::NotFunding)));
    assert!(matches!(e.withdraw(t, A), Err(EscrowError::AlreadyFinalized)));
    assert!(matches!(e.release(t), Err(EscrowError::NotCompleted)));
    assert!(matches!(e.cancel(t, 1000), Err(EscrowError::AlreadyFinalized)));
    assert!(matches!(e.confirm_release(t, A), Err(EscrowError::NotCompleted)));
    assert!(matches!(e.claim_deadline(t, 3000), Err(EscrowError::NotFunding)));
    assert!(matches!(e.update_recipients(t, Vec::new()), Err(EscrowError::AlreadyFinalized)));
    assert_eq!(e.get_state(t).unwrap().status, Status::Released);

    let u = trip(&mut e, 1_000_000, 1, 10);
    e.cancel(u, 1000).unwrap();
    assert!(matches!(e.cancel(u, 1000), Err(EscrowError::AlreadyFinalized)));
    assert!(matches!(e.contribute(u, A, 5, 1000), Err(EscrowError::NotFunding)));
    assert_eq!(e.get_state(u).unwrap().status, Status::Cancelled);
}

#[test]
fn status_admits_only_what_the_state_machine_allows() {
    assert_eq!(Status::Funding.admits(Operation::Contribute), Ok(()));
    assert_eq!(Status::Completed.admits(Operation::Contribute), Err(EscrowError::NotFunding));
    assert_eq!(Status::Completed.admits(Operation::Release), Ok(()));
    assert_eq!(Status::Funding.admits(Operation::ConfirmRelease), Err(EscrowError::NotCompleted));
    assert_eq!(Status::Completed.admits(Operation::Withdraw), Ok(()));
    assert_eq!(Status::Cancelled.admits(Operation::UpdateRecipients), Err(EscrowError::AlreadyFinalized));
    assert_eq!(Status::Released.admits(Operation::Cancel), Err(EscrowError::AlreadyFinalized));
}

#[test]
fn penalty_waived_only_for_earlier_contributors() {
    let mut e = CotravelEscrow::new();
    let t = e
        .create_invoice(ORG, TOKEN, 1_000_000, 3, 2000, 20, rec(&[(V1, 1_000_000)]), false)
        .unwrap()
        .trip_id;
    e.contribute(t, A, 100_000, 1000).unwrap();
    e.update_recipients(t, rec(&[(V1, 500_000), (V2, 500_000)])).unwrap();
    e.contribute(t, B, 100_000, 1000).unwrap();
    assert_eq!(total_paid(&e.withdraw(t, A).unwrap()), 100_000);
    assert_eq!(e.get_penalty(t, A), 0);
    assert_eq!(total_paid(&e.withdraw(t, B).unwrap()), 80_000);
    assert_eq!(e.get_penalty(t, B), 20_000);
}

#[test]
fn penalty_rounds_down() {
    let mut e = CotravelEscrow::new();
    let t = trip(&mut e, 1_000_000, 2, 7);
    e.contribute(t, A, 999, 1000).unwrap();
    let o = e.withdraw(t, A).unwrap();
    assert_eq!(total_paid(&o), 930);
    assert_eq!(e.get_penalty(t, A), 69);
}

#[test]
fn full_penalty_pays_no_refund() {
    let mut e = CotravelEscrow::new();
    let t = trip(&mut e, 1_000_000, 2, 100);
    e.contribute(t, A, 400, 1000).unwrap();
    let o = e.withdraw(t, A).unwrap();
    assert!(o.payouts.is_empty());
    assert_eq!(e.get_penalty(t, A), 400);
    assert_eq!(e.get_state(t).unwrap().total_collected, 400);
}

#[test]
fn penalty_of_a_huge_balance_does_not_overflow() {
    let mut e = CotravelEscrow::new();
    let t = trip(&mut e, i128::MAX, 1, 99);
    e.contribute(t, A, i128::MAX - 1, 1000).unwrap();
    e.withdraw(t, A).unwrap();
    let expected = ((i128::MAX - 1) / 100) * 99 + (((i128::MAX - 1) % 100) * 99) / 100;
    assert_eq!(e.get_penalty(t, A), expected);
}

#[test]
fn quorum_releases_only_on_the_last_consent() {
    let mut e = CotravelEscrow::new();
    let t = trip(&mut e, 900, 3, 0);
    for p in [A, B, C] {
        e.contribute(t, p, 300, 1000).unwrap();
    }
    let o = e.confirm_release(t, A).unwrap();
    assert!(o.payouts.is_empty());
    e.confirm_release(t, B).unwrap();
    assert_eq!(e.get_state(t).unwrap().status, Status::Completed);
    let o = e.confirm_release(t, C).unwrap();
    assert_eq!(e.get_state(t).unwrap().status, Status::Released);
    assert_eq!(e.get_state(t).unwrap().confirmation_count, 3);
    assert_eq!(o.payouts, vec![Payout { to: ORG, amount: 900 }]);
    assert_eq!(o.events.len(), 2);
}

#[test]
fn auto_release_completes_straight_to_released() {
    let mut e = CotravelEscrow::new();
    let t = e.create_invoice(ORG, TOKEN, 100, 1, 2000, 0, Vec::new(), true).unwrap().trip_id;
    e.contribute(t, A, 50, 1000).unwrap();
    let o = e.contribute(t, B, 50, 1000).unwrap();
    assert_eq!(e.get_state(t).unwrap().status, Status::Released);
    assert_eq!(o.payouts, vec![Payout { to: ORG, amount: 100 }]);
    let u = e.create_invoice(ORG, TOKEN, 100, 2, 2000, 0, Vec::new(), true).unwrap().trip_id;
    e.contribute(u, A, 100, 1000).unwrap();
    assert_eq!(e.get_state(u).unwrap().status, Status::Funding);
    assert!(matches!(e.confirm_release(u, A), Err(EscrowError::NotCompleted)));
}

#[test]
fn withdrawing_a_confirmer_keeps_completion_when_thresholds_hold() {
    let mut e = CotravelEscrow::new();
    let t = trip(&mut e, 900, 2, 100);
    for p in [A, B, C] {
        e.contribute(t, p, 300, 1000).unwrap();
    }
    e.confirm_release(t, A).unwrap();
    e.confirm_release(t, B).unwrap();
    let w = e.withdraw(t, A).unwrap();
    assert!(w.payouts.is_empty());
    let s = e.get_state(t).unwrap();
    assert_eq!(s.status, Status::Completed);
    assert_eq!(s.total_collected, 900);
    assert_eq!(s.participant_count, 2);
    assert_eq!(s.confirmation_count, 1);
    assert!(!e.get_confirmation(t, A));
    assert!(e.get_confirmation(t, B));
    let o = e.confirm_release(t, C).unwrap();
    assert_eq!(e.get_state(t).unwrap().status, Status::Released);
    assert_eq!(o.payouts, vec![Payout { to: ORG, amount: 900 }]);
}

#[test]
fn penalties_help_fund_the_payout() {
    let mut e = CotravelEscrow::new();
    let t = e
        .create_invoice(ORG, TOKEN, 1_000, 1, 2000, 50, rec(&[(V1, 1_000)]), false)
        .unwrap()
        .trip_id;
    e.contribute(t, A, 400, 1000).unwrap();
    e.withdraw(t, A).unwrap();
    e.contribute(t, B, 800, 1000).unwrap();
    assert_eq!(e.get_state(t).unwrap().status, Status::Completed);
    let o = e.release(t).unwrap();
    assert_eq!(o.payouts, vec![Payout { to: V1, amount: 1_000 }]);
    assert_eq!(o.events, vec![Event::Released(cotravel_escrow::ReleasedEvent { trip_id: t, organizer: ORG, amount: 1_000 })]);
}

#[test]
fn contribution_event_reports_balance_and_total() {
    let mut e = CotravelEscrow::new();
    let t = trip(&mut e, 1_000, 2, 0);
    e.contribute(t, A, 100, 1000).unwrap();
    let o = e.contribute(t, A, 150, 1000).unwrap();
    assert_eq!(
        o.events,
        vec![Event::Contribution(cotravel_escrow::ContributionEvent {
            trip_id: t,
            participant: A,
            amount: 150,
            new_balance: 250,
            total: 250,
        })]
    );
    assert_eq!(e.get_state(t).unwrap().participant_count, 1);
}

#[test]
fn creation_errors() {
    let mut e = CotravelEscrow::new();
    assert!(matches!(e.create_trip(ORG, TOKEN, 0, 1, 2000, 0), Err(EscrowError::InvalidTarget)));
    assert!(matches!(e.create_trip(ORG, TOKEN, 10, 0, 2000, 0), Err(EscrowError::InvalidMinParticipants)));
    assert!(matches!(e.create_trip(ORG, TOKEN, 10, 1, 2000, 101), Err(EscrowError::InvalidPenaltyPercent)));
    let many: Vec<(AccountId, i128)> = (0..(MAX_RECIPIENTS as u64 + 1)).map(|i| (i, 1)).collect();
    assert!(matches!(
        e.create_invoice(ORG, TOKEN, MAX_RECIPIENTS as i128 + 1, 1, 2000, 0, rec(&many), false),
        Err(EscrowError::TooManyRecipients)
    ));
    assert!(matches!(
        e.create_invoice(ORG, TOKEN, 10, 1, 2000, 0, rec(&[(V1, 11), (V2, -1)]), false),
        Err(EscrowError::InvalidRecipientAmount)
    ));
    assert!(matches!(
        e.create_invoice(ORG, TOKEN, 10, 1, 2000, 0, rec(&[(V1, 4), (V2, 5)]), false),
        Err(EscrowError::RecipientSumMismatch)
    ));
    assert!(matches!(
        e.create_invoice(ORG, TOKEN, 10, 1, 2000, 0, rec(&[(V1, i128::MAX), (V2, i128::MAX)]), false),
        Err(EscrowError::RecipientSumMismatch)
    ));
    assert_eq!(e.get_trip_count(), 0);
    let exact: Vec<(AccountId, i128)> = (0..(MAX_RECIPIENTS as u64)).map(|i| (i, 2)).collect();
    assert!(e.create_invoice(ORG, TOKEN, 2 * MAX_RECIPIENTS as i128, 1, 2000, 0, rec(&exact), false).is_ok());
}

#[test]
fn trip_cap_is_enforced() {
    let mut e = CotravelEscrow::new();
    for i in 0..MAX_TRIPS {
        assert_eq!(trip(&mut e, 10, 1, 0), i);
    }
    assert!(matches!(e.create_trip(ORG, TOKEN, 10, 1, 2000, 0), Err(EscrowError::MaxTripsReached)));
    assert_eq!(e.get_trip_count(), MAX_TRIPS);
}

#[test]
fn participant_cap_is_enforced() {
    let mut e = CotravelEscrow::new();
    let t = trip(&mut e, 1_000_000, 1, 0);
    for p in 0..(MAX_PARTICIPANTS as u64) {
        e.contribute(t, 1000 + p, 1, 1000).unwrap();
    }
    assert!(matches!(e.contribute(t, 5000, 1, 1000), Err(EscrowError::MaxParticipantsReached)));
    e.withdraw(t, 1000).unwrap();
    assert!(matches!(e.contribute(t, 5000, 1, 1000), Err(EscrowError::MaxParticipantsReached)));
    e.contribute(t, 1000, 1, 1000).unwrap();
    assert_eq!(e.get_participants(t).len(), MAX_PARTICIPANTS as usize);
}

#[test]
fn operation_errors() {
    let mut e = CotravelEscrow::new();
    assert!(matches!(e.contribute(7, A, 1, 1000), Err(EscrowError::TripNotFound)));
    assert!(matches!(e.get_trip(7), Err(EscrowError::TripNotFound)));
    assert!(matches!(e.get_config(7), Err(EscrowError::TripNotFound)));
    assert_eq!(e.get_balance(7, A), 0);
    assert!(e.get_participants(7).is_empty());
    assert!(e.get_recipients(7).is_empty());
    let t = trip(&mut e, 1_000, 2, 10);
    assert!(matches!(e.contribute(t, A, 0, 1000), Err(EscrowError::InvalidAmount)));
    assert!(matches!(e.contribute(t, A, -5, 1000), Err(EscrowError::InvalidAmount)));
    assert!(matches!(e.contribute(t, A, 5, 2001), Err(EscrowError::DeadlinePassed)));
    assert!(e.contribute(t, A, 5, 2000).is_ok());
    assert!(matches!(e.contribute(t, A, 996, 1000), Err(EscrowError::ExceedsTarget)));
    assert!(matches!(e.contribute(t, A, i128::MAX, 1000), Err(EscrowError::ExceedsTarget)));
    assert!(matches!(e.withdraw(t, B), Err(EscrowError::NoBalance)));
    assert!(matches!(e.release(t), Err(EscrowError::NotCompleted)));
    e.contribute(t, B, 995, 1000).unwrap();
    assert!(matches!(e.confirm_release(t, C), Err(EscrowError::NotActiveParticipant)));
    assert!(matches!(e.claim_deadline(t, 3000), Err(EscrowError::NotFunding)));
    let u = e.create_invoice(ORG, TOKEN, 10, 1, 2000, 0, Vec::new(), true).unwrap().trip_id;
    e.update_recipients(u, Vec::new()).unwrap();
    assert!(matches!(e.confirm_release(u, A), Err(EscrowError::NotCompleted)));
    assert_eq!(e.get_state(u).unwrap().version, 1);
}

#[test]
fn errors_only_stored_records_can_reach() {
    let config = Config {
        organizer: ORG,
        token: TOKEN,
        target_amount: 10,
        min_participants: 1,
        deadline: 2000,
        penalty_percent: 0,
        auto_release: true,
    };
    let completed = cotravel_escrow::State {
        status: Status::Completed,
        total_collected: 10,
        participant_count: 1,
        version: u32::MAX,
        confirmation_count: 0,
    };
    let members = vec![cotravel_escrow::Member { account: A, balance: 10, contrib_version: 0, penalty: 0, confirmed: false }];
    let mut t = Trip::from_parts(config, completed, Vec::new(), members).unwrap();
    assert!(matches!(t.confirm_release(0, A), Err(EscrowError::AutoReleaseEnabled)));
    assert!(matches!(t.update_recipients(0, Vec::new()), Err(EscrowError::VersionOverflow)));
    assert_eq!(t.state.version, u32::MAX);
    assert_eq!(t.state.status, Status::Completed);
}

#[test]
fn single_consent_releases_a_single_participant_pool() {
    let mut e = CotravelEscrow::new();
    let u = e.create_invoice(ORG, TOKEN, 10, 1, 2000, 0, Vec::new(), false).unwrap().trip_id;
    e.contribute(u, A, 10, 1000).unwrap();
    assert_eq!(e.get_state(u).unwrap().status, Status::Completed);
    let o = e.confirm_release(u, A).unwrap();
    assert_eq!(paid_to(&o, ORG), 10);
    assert_eq!(e.get_state(u).unwrap().status, Status::Released);
}

#[test]
fn trip_key_names_its_trip() {
    assert_eq!(TripKey::Balances(4).trip_id(), 4);
    assert_eq!(TripKey::Config(9).trip_id(), 9);
    assert_eq!(TripKey::Confirmations(0).trip_id(), 0);
}

#[test]
fn trips_are_isolated() {
    let mut e = CotravelEscrow::new();
    let t = trip(&mut e, 100, 1, 0);
    let u = trip(&mut e, 100, 1, 0);
    e.contribute(t, A, 60, 1000).unwrap();
    e.cancel(u, 1000).unwrap();
    assert_eq!(e.get_state(t).unwrap().total_collected, 60);
    assert_eq!(e.get_state(t).unwrap().status, Status::Funding);
    assert_eq!(e.get_balance(u, A), 0);
    let mut wallets: HashMap<AccountId, i128> = HashMap::new();
    let o = e.contribute(t, B, 40, 1000).unwrap();
    for p in o.payouts.iter() {
        *wallets.entry(p.to).or_insert(0) += p.amount;
    }
    assert!(wallets.is_empty());
    assert_eq!(e.get_state(t).unwrap().status, Status::Completed);
}

fn sample_config() -> Config {
    Config {
        organizer: ORG,
        token: TOKEN,
        target_amount: 1_000,
        min_participants: 2,
        deadline: 2000,
        penalty_percent: 10,
        auto_release: false,
    }
}

fn member(account: AccountId, balance: i128, penalty: i128, confirmed: bool) -> cotravel_escrow::Member {
    cotravel_escrow::Member { account, balance, contrib_version: 0, penalty, confirmed }
}

fn state(status: Status, total: i128, participants: u32, confirmations: u32) -> cotravel_escrow::State {
    cotravel_escrow::State {
        status,
        total_collected: total,
        participant_count: participants,
        version: 0,
        confirmation_count: confirmations,
    }
}

#[test]
fn stored_records_are_accepted_when_consistent() {
    let t = Trip::from_parts(
        sample_config(),
        state(Status::Completed, 1_000, 2, 1),
        rec(&[(V1, 1_000)]),
        vec![member(A, 600, 0, true), member(B, 300, 0, false), member(C, 0, 100, false)],
    );
    let mut t = t.expect("consistent records");
    assert_eq!(t.members.len(), 3);
    let o = t.confirm_release(3, B).unwrap();
    assert_eq!(o.payouts, vec![Payout { to: V1, amount: 1_000 }]);
    assert_eq!(t.state.status, Status::Released);
}

#[test]
fn stored_records_are_refused_when_inconsistent() {
    let ok_members = || vec![member(A, 600, 0, false), member(B, 300, 100, false)];
    assert!(Trip::from_parts(sample_config(), state(Status::Funding, 1_000, 2, 0), rec(&[]), ok_members()).is_some());
    assert!(Trip::from_parts(sample_config(), state(Status::Funding, 999, 2, 0), rec(&[]), ok_members()).is_none());
    assert!(Trip::from_parts(sample_config(), state(Status::Funding, 1_000, 1, 0), rec(&[]), ok_members()).is_none());
    assert!(Trip::from_parts(sample_config(), state(Status::Funding, 1_000, 2, 1), rec(&[]), ok_members()).is_none());
    assert!(Trip::from_parts(sample_config(), state(Status::Funding, 1_000, 2, 0), rec(&[(V1, 5)]), ok_members()).is_none());
    assert!(Trip::from_parts(
        sample_config(),
        state(Status::Funding, 900, 2, 0),
        rec(&[]),
        vec![member(A, 600, 0, false), member(A, 300, 0, false)]
    )
    .is_none());
    assert!(Trip::from_parts(
        sample_config(),
        state(Status::Funding, 500, 1, 0),
        rec(&[]),
        vec![member(A, 600, -100, false)]
    )
    .is_none());
    assert!(Trip::from_parts(
        sample_config(),
        state(Status::Completed, 600, 1, 0),
        rec(&[]),
        vec![member(A, 600, 0, false)]
    )
    .is_none());
    assert!(Trip::from_parts(
        sample_config(),
        state(Status::Funding, 600, 1, 1),
        rec(&[]),
        vec![member(A, 600, 0, false), member(B, 0, 0, true)]
    )
    .is_none());
    assert!(Trip::from_parts(sample_config(), state(Status::Released, 0, 2, 0), rec(&[]), vec![member(A, 0, 0, false)]).is_some());
    assert!(Trip::from_parts(sample_config(), state(Status::Cancelled, 5, 0, 0), rec(&[]), vec![member(A, 5, 0, false)]).is_none());
    assert!(Trip::from_parts(
        sample_config(),
        state(Status::Funding, 2, 1, 0),
        rec(&[]),
        vec![member(A, i128::MAX, 0, false), member(B, i128::MAX, 0, false)]
    )
    .is_none());
}

#[test]
fn opening_a_trip_checks_its_configuration() {
    let t = Trip::open(ORG, TOKEN, 500, 1, 2000, 0, rec(&[(V1, 200), (V2, 300)]), true).unwrap();
    assert_eq!(t.state.status, Status::Funding);
    assert_eq!(t.recipients.len(), 2);
    assert!(t.config.auto_release);
    assert!(matches!(Trip::open(ORG, TOKEN, -1, 1, 2000, 0, Vec::new(), false), Err(EscrowError::InvalidTarget)));
    assert!(matches!(Trip::open(ORG, TOKEN, 500, 1, 2000, 0, rec(&[(V1, 200), (V2, 200)]), false), Err(EscrowError::RecipientSumMismatch)));
}

#[test]
fn trip_identifiers_come_from_the_count() {
    assert_eq!(cotravel_escrow::admit_trip(0), Ok(0));
    assert_eq!(cotravel_escrow::admit_trip(MAX_TRIPS - 1), Ok(MAX_TRIPS - 1));
    assert_eq!(cotravel_escrow::admit_trip(MAX_TRIPS), Err(EscrowError::MaxTripsReached));
}
