//! Properties of the escrow that span operations, proved from the
//! transitions' own contracts.
use vstd::prelude::*;
use crate::types::{AccountId, Outcome, EscrowError, Recipient, Status};
use crate::ledger::{
    balance_of, has_account, index_of,
    lemma_index_of, lemma_total_le, lemma_total_update, sum_balances, sum_penalties, Tally,
};
use crate::trip::{
    cancel_post, claim_post, confirm_post, contribute_post, credited, release_post, update_post,
    withdraw_check, withdraw_penalty, withdraw_post, Trip,
};
use crate::escrow::CotravelEscrow;

verus! {

/// Conservation of value: in every trip, the active balances plus the
/// withheld penalties plus everything already paid out equal everything ever
/// contributed. Every operation keeps the escrow well formed, adds to
/// `deposited` exactly the amount contributed and to `paid_out` exactly the
/// sum of the payouts it hands back.
pub proof fn conservation(e: CotravelEscrow, trip_id: u64)
    requires
        e.wf(),
        e.has_trip(trip_id),
    ensures
        sum_balances(e.trip(trip_id).members@) + sum_penalties(e.trip(trip_id).members@)
            + e.trip(trip_id).paid_out@ == e.trip(trip_id).deposited@,
{
    assert(e.trip(trip_id).wf());
}

/// No overfunding: a contribution that would take the pool past its target
/// is refused and leaves the trip as it was; after one that succeeds the pool
/// is within its target.
pub proof fn no_overfunding(
    t: Trip,
    t2: Trip,
    trip_id: u64,
    p: AccountId,
    amount: i128,
    now: u64,
    r: Result<Outcome, EscrowError>,
)
    requires
        t.wf(),
        t2.wf(),
        contribute_post(t, t2, trip_id, p, amount, now, r),
    ensures
        t.state.total_collected + amount > t.config.target_amount ==> r is Err && t2 == t,
        r is Err ==> t2.state.total_collected == t.state.total_collected,
        r is Ok ==> t2.state.total_collected <= t2.config.target_amount,
{
}

/// Terminal states are final: once a trip is released or cancelled, every
/// mutating operation on it is refused and leaves it unchanged.
pub proof fn terminal_is_final(
    t: Trip,
    t2: Trip,
    trip_id: u64,
    p: AccountId,
    amount: i128,
    now: u64,
    rs: Seq<Recipient>,
    r: Result<Outcome, EscrowError>,
)
    requires
        t.state.status.is_terminal(),
    ensures
        contribute_post(t, t2, trip_id, p, amount, now, r) ==> r is Err && t2 == t,
        withdraw_post(t, t2, trip_id, p, r) ==> r is Err && t2 == t,
        release_post(t, t2, trip_id, r) ==> r is Err && t2 == t,
        cancel_post(t, t2, trip_id, now, r) ==> r is Err && t2 == t,
        confirm_post(t, t2, trip_id, p, r) ==> r is Err && t2 == t,
        claim_post(t, t2, trip_id, now, r) ==> r is Err && t2 == t,
        update_post(t, t2, trip_id, rs, r) ==> r is Err && t2 == t,
{
}

/// After a contribution that leaves the trip open, the contributor's entry
/// carries the trip's current version.
proof fn lemma_contributor_at_version(
    t: Trip,
    t1: Trip,
    trip_id: u64,
    p: AccountId,
    amount: i128,
    now: u64,
    r: Result<Outcome, EscrowError>,
)
    requires
        t.wf(),
        t1.wf(),
        contribute_post(t, t1, trip_id, p, amount, now, r),
        r is Ok,
        !t1.state.status.is_terminal(),
    ensures
        has_account(t1.members@, p),
        t1.members@[index_of(t1.members@, p)].contrib_version == t1.state.version,
        balance_of(t1.members@, p) > 0,
{
    let ms = t.members@;
    let ms1 = t1.members@;
    assert(ms1 == credited(ms, p, amount as int, t.state.version));
    assert(amount > 0);
    if has_account(ms, p) {
        let i = index_of(ms, p);
        assert(0 <= i < ms.len() && ms[i].account == p);
        t.lemma_member_bounds(i);
        assert(ms1[i].account == p);
        lemma_index_of(ms1, p, i);
    } else {
        let i = ms.len() as int;
        assert(ms1[i].account == p);
        lemma_index_of(ms1, p, i);
    }
}

/// Penalty waiver, first half: whoever contributed before the recipient list
/// last changed leaves without penalty.
pub proof fn waiver_after_change(
    t0: Trip,
    t1: Trip,
    t2: Trip,
    trip_id: u64,
    p: AccountId,
    amount: i128,
    now: u64,
    rs: Seq<Recipient>,
    r1: Result<Outcome, EscrowError>,
    r2: Result<Outcome, EscrowError>,
)
    requires
        t0.wf(),
        t1.wf(),
        t2.wf(),
        contribute_post(t0, t1, trip_id, p, amount, now, r1),
        r1 is Ok,
        update_post(t1, t2, trip_id, rs, r2),
        r2 is Ok,
    ensures
        withdraw_check(t2, p) is Ok,
        withdraw_penalty(t2, p) == 0,
{
    lemma_contributor_at_version(t0, t1, trip_id, p, amount, now, r1);
}

/// Penalty waiver, second half: whoever contributed after the recipient list
/// last changed pays the configured share of the balance on leaving.
pub proof fn penalty_without_change(
    t0: Trip,
    t1: Trip,
    trip_id: u64,
    p: AccountId,
    amount: i128,
    now: u64,
    r1: Result<Outcome, EscrowError>,
)
    requires
        t0.wf(),
        t1.wf(),
        contribute_post(t0, t1, trip_id, p, amount, now, r1),
        r1 is Ok,
        !t1.state.status.is_terminal(),
    ensures
        withdraw_check(t1, p) is Ok,
        withdraw_penalty(t1, p) == balance_of(t1.members@, p) * t1.config.penalty_percent / 100,
{
    lemma_contributor_at_version(t0, t1, trip_id, p, amount, now, r1);
}

/// Quorum gating: consent never releases a pool with auto-release on, and it
/// releases exactly when the count of consents reaches the number of active
/// participants.
pub proof fn quorum_gating(
    t: Trip,
    t2: Trip,
    trip_id: u64,
    p: AccountId,
    r: Result<Outcome, EscrowError>,
)
    requires
        t.wf(),
        confirm_post(t, t2, trip_id, p, r),
    ensures
        t.config.auto_release ==> r is Err,
        r is Ok ==> t.state.confirmation_count < t.state.participant_count,
        r is Ok ==> (t2.state.status == Status::Released <==> t2.state.confirmation_count
            == t.state.participant_count),
        r is Ok ==> t2.state.confirmation_count == t.state.confirmation_count + 1,
{
    if r is Ok {
        let ms = t.members@;
        let i = index_of(ms, p);
        assert(has_account(ms, p));
        assert(0 <= i < ms.len() && ms[i].account == p);
        let m2 = crate::types::Member { confirmed: true, ..ms[i] };
        let ms1 = ms.update(i, m2);
        lemma_total_update(ms, i, m2, Tally::Active);
        lemma_total_update(ms, i, m2, Tally::Confirmed);
        assert forall|j: int| 0 <= j < ms1.len() implies crate::ledger::part(
            #[trigger] ms1[j],
            Tally::Confirmed,
        ) <= crate::ledger::part(ms1[j], Tally::Active) by {
            if j != i {
                assert(ms1[j] == ms[j]);
            }
        }
        lemma_total_le(ms1, Tally::Confirmed, Tally::Active);
    }
}

} // verus!
