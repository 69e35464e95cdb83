//! One trip: its configuration, state and ledgers, the invariant that ties
//! them together, and each operation of the lifecycle as a verified
//! transition.
use vstd::prelude::*;
use crate::types::{
    AccountId, Config, ContributionEvent, ConfirmReleaseEvent, CancelledEvent,
    DeadlineExpiredEvent, EscrowError, Event, InvoiceModifiedEvent, Member, Operation,
    Outcome, Payout, Recipient, ReleasedEvent, State, Status, WithdrawalEvent,
    MAX_PARTICIPANTS, MAX_RECIPIENTS,
};
use crate::ledger::{
    active_count, all_positive, balance_of, balance_refunds, cleared, cleared_member,
    confirmed_count, confirmed_of, distinct_accounts, has_account, index_of,
    lemma_active_le_len, lemma_balance_refunds_sum, lemma_index_of, lemma_part_le_total,
    lemma_penalty_refunds_sum, lemma_release_payouts_sum, lemma_sum_payouts_concat,
    lemma_sum_payouts_single, lemma_total_cleared, lemma_total_le, lemma_total_nonneg,
    lemma_total_prefix_le, lemma_total_push, lemma_total_unconfirmed, lemma_total_update,
    parts_nonneg, penalty_refunds, recipient_payouts, recipients_valid, refund_payouts,
    release_payouts, sum_amounts, sum_balances, sum_payouts, sum_penalties, unconfirmed,
    unconfirmed_member, Tally,
};

verus! {

/// All records of one trip. `deposited` and `paid_out` count, over the trip's
/// whole history, what came into the pool and what left it.
pub struct Trip {
    pub config: Config,
    pub state: State,
    pub recipients: Vec<Recipient>,
    pub members: Vec<Member>,
    pub deposited: Ghost<int>,
    pub paid_out: Ghost<int>,
}

pub open spec fn released_state(s: State) -> State {
    State { status: Status::Released, total_collected: 0, ..s }
}

pub open spec fn cancelled_state(s: State) -> State {
    State { status: Status::Cancelled, total_collected: 0, ..s }
}

/// The first reason, in the order they are checked, why a recipient list is
/// refused for a target.
pub open spec fn recipients_check(rs: Seq<Recipient>, target: int) -> Result<(), EscrowError> {
    if rs.len() > MAX_RECIPIENTS {
        Err(EscrowError::TooManyRecipients)
    } else if rs.len() > 0 && !all_positive(rs) {
        Err(EscrowError::InvalidRecipientAmount)
    } else if rs.len() > 0 && sum_amounts(rs) != target {
        Err(EscrowError::RecipientSumMismatch)
    } else {
        Ok(())
    }
}

/// The first reason, in the order they are checked, why a configuration is refused.
pub open spec fn config_check(
    target_amount: i128,
    min_participants: u32,
    penalty_percent: u32,
    rs: Seq<Recipient>,
) -> Result<(), EscrowError> {
    if target_amount <= 0 {
        Err(EscrowError::InvalidTarget)
    } else if min_participants == 0 {
        Err(EscrowError::InvalidMinParticipants)
    } else if penalty_percent > 100 {
        Err(EscrowError::InvalidPenaltyPercent)
    } else {
        recipients_check(rs, target_amount as int)
    }
}

proof fn lemma_sum_prefix_le(rs: Seq<Recipient>, j: int)
    requires
        all_positive(rs),
        0 <= j <= rs.len(),
    ensures
        sum_amounts(rs.subrange(0, j)) <= sum_amounts(rs),
    decreases rs.len(),
{
    if j < rs.len() {
        assert(rs.drop_last() =~= rs.subrange(0, rs.len() - 1));
        lemma_sum_prefix_le(rs.drop_last(), j);
        assert(rs.drop_last().subrange(0, j) =~= rs.subrange(0, j));
    } else {
        assert(rs.subrange(0, j) =~= rs);
    }
}

/// Checks a recipient list against a target.
pub fn validate_recipients(rs: &Vec<Recipient>, target: i128) -> (r: Result<(), EscrowError>)
    requires
        target > 0,
    ensures
        r == recipients_check(rs@, target as int),
{
    if rs.len() > MAX_RECIPIENTS as usize {
        return Err(EscrowError::TooManyRecipients);
    }
    if rs.len() == 0 {
        return Ok(());
    }
    let mut i: usize = 0;
    while i < rs.len()
        invariant
            0 < rs@.len() <= MAX_RECIPIENTS,
            i <= rs@.len(),
            forall|j: int| 0 <= j < i ==> #[trigger] rs@[j].amount > 0,
        decreases rs@.len() - i,
    {
        if rs[i].amount <= 0 {
            assert(!all_positive(rs@));
            return Err(EscrowError::InvalidRecipientAmount);
        }
        i = i + 1;
    }
    assert(all_positive(rs@));
    let mut sum: i128 = 0;
    let mut k: usize = 0;
    while k < rs.len()
        invariant
            0 < rs@.len() <= MAX_RECIPIENTS,
            k <= rs@.len(),
            all_positive(rs@),
            0 <= sum <= target,
            sum == sum_amounts(rs@.subrange(0, k as int)),
        decreases rs@.len() - k,
    {
        let a = rs[k].amount;
        proof {
            assert(rs@.subrange(0, k + 1).drop_last() =~= rs@.subrange(0, k as int));
        }
        if a > target - sum {
            proof {
                lemma_sum_prefix_le(rs@, k + 1);
                assert(sum_amounts(rs@.subrange(0, k + 1)) == sum + a);
            }
            return Err(EscrowError::RecipientSumMismatch);
        }
        sum = sum + a;
        k = k + 1;
    }
    assert(rs@.subrange(0, rs@.len() as int) =~= rs@);
    if sum != target {
        return Err(EscrowError::RecipientSumMismatch);
    }
    Ok(())
}

/// `floor(balance * percent / 100)`, computed without an intermediate overflow.
pub fn penalty_amount(balance: i128, percent: u32) -> (p: i128)
    requires
        balance >= 0,
        percent <= 100,
    ensures
        p == balance * percent / 100,
        0 <= p <= balance,
{
    let q = balance / 100;
    let r = balance % 100;
    let pc = percent as i128;
    proof {
        assert(balance == 100 * q + r && 0 <= r < 100 && q >= 0);
        assert(q * pc <= q * 100) by (nonlinear_arith)
            requires
                q >= 0,
                pc <= 100,
        ;
        assert(0 <= r * pc <= 99 * 100) by (nonlinear_arith)
            requires
                0 <= r < 100,
                0 <= pc <= 100,
        ;
        assert(q * pc >= 0) by (nonlinear_arith)
            requires
                q >= 0,
                pc >= 0,
        ;
        assert((balance * pc) / 100 == q * pc + (r * pc) / 100) by (nonlinear_arith)
            requires
                balance == 100 * q + r,
                0 <= r < 100,
                q >= 0,
                0 <= pc <= 100,
        ;
        assert((balance * pc) / 100 <= balance) by (nonlinear_arith)
            requires
                balance >= 0,
                0 <= pc <= 100,
        ;
    }
    q * pc + (r * pc) / 100
}

/// The position of `p` in a member list, if `p` ever contributed.
pub fn find_member(ms: &Vec<Member>, p: AccountId) -> (r: Option<usize>)
    ensures
        match r {
            Some(i) => i < ms@.len() && ms@[i as int].account == p,
            None => !has_account(ms@, p),
        },
{
    let mut i: usize = 0;
    while i < ms.len()
        invariant
            i <= ms@.len(),
            forall|j: int| 0 <= j < i ==> #[trigger] ms@[j].account != p,
        decreases ms@.len() - i,
    {
        if ms[i].account == p {
            return Some(i);
        }
        i = i + 1;
    }
    None
}

/// The first reason, in the order they are checked, why a contribution is refused.
pub open spec fn contribute_check(t: Trip, p: AccountId, amount: i128, now: u64) -> Result<(), EscrowError> {
    match t.state.status.spec_admits(Operation::Contribute) {
        Err(e) => Err(e),
        Ok(_) => if amount <= 0 {
            Err(EscrowError::InvalidAmount)
        } else if now > t.config.deadline {
            Err(EscrowError::DeadlinePassed)
        } else if t.state.total_collected + amount > t.config.target_amount {
            Err(EscrowError::ExceedsTarget)
        } else if !has_account(t.members@, p) && t.members@.len() >= MAX_PARTICIPANTS {
            Err(EscrowError::MaxParticipantsReached)
        } else {
            Ok(())
        },
    }
}

/// The member list after `p` put in `amount` while the trip is at `version`:
/// the balance grows and the version is recorded; a newcomer is appended.
pub open spec fn credited(ms: Seq<Member>, p: AccountId, amount: int, version: u32) -> Seq<Member> {
    if has_account(ms, p) {
        let i = index_of(ms, p);
        ms.update(i, Member { balance: (ms[i].balance + amount) as i128, contrib_version: version, ..ms[i] })
    } else {
        ms.push(
            Member { account: p, balance: amount as i128, contrib_version: version, penalty: 0, confirmed: false },
        )
    }
}

/// How a contribution of `amount` by `p` at time `now` turns `t` into `t2`
/// with result `r`. The pool completes when it reaches both the target and
/// the minimum number of participants; with auto-release it is then paid out
/// at once.
pub open spec fn contribute_post(
    t: Trip,
    t2: Trip,
    trip_id: u64,
    p: AccountId,
    amount: i128,
    now: u64,
    r: Result<Outcome, EscrowError>,
) -> bool {
    match contribute_check(t, p, amount, now) {
        Err(e) => r == Err::<Outcome, EscrowError>(e) && t2 == t,
        Ok(_) => {
            let ms1 = credited(t.members@, p, amount as int, t.state.version);
            let pc1 = t.state.participant_count + if balance_of(t.members@, p) == 0 { 1int } else { 0 };
            let total1 = t.state.total_collected + amount;
            let completes = total1 >= t.config.target_amount && pc1 >= t.config.min_participants;
            let fires = completes && t.config.auto_release;
            let contributed = Event::Contribution(ContributionEvent {
                trip_id,
                participant: p,
                amount,
                new_balance: (balance_of(t.members@, p) + amount) as i128,
                total: total1 as i128,
            });
            &&& r is Ok
            &&& r->Ok_0.trip_id == trip_id
            &&& t2.config == t.config
            &&& t2.recipients@ == t.recipients@
            &&& t2.deposited@ == t.deposited@ + amount
            &&& t2.paid_out@ == t.paid_out@ + sum_payouts(r->Ok_0.payouts@)
            &&& t2.state == (State {
                status: if fires {
                    Status::Released
                } else if completes {
                    Status::Completed
                } else {
                    Status::Funding
                },
                total_collected: if fires { 0 } else { total1 as i128 },
                participant_count: pc1 as u32,
                ..t.state
            })
            &&& t2.members@ == if fires { cleared(ms1) } else { ms1 }
            &&& r->Ok_0.payouts@ == if fires {
                release_payouts(t.recipients@, t.config.organizer, t.config.target_amount as int, total1)
            } else {
                Seq::<Payout>::empty()
            }
            &&& r->Ok_0.events@ == if fires {
                seq![
                    contributed,
                    Event::Released(
                        ReleasedEvent { trip_id, organizer: t.config.organizer, amount: total1 as i128 },
                    ),
                ]
            } else {
                seq![contributed]
            }
        },
    }
}

/// The first reason, in the order they are checked, why a withdrawal is refused.
pub open spec fn withdraw_check(t: Trip, p: AccountId) -> Result<(), EscrowError> {
    match t.state.status.spec_admits(Operation::Withdraw) {
        Err(e) => Err(e),
        Ok(_) => if balance_of(t.members@, p) <= 0 {
            Err(EscrowError::NoBalance)
        } else {
            Ok(())
        },
    }
}

/// What `p` forfeits on leaving now: nothing when the recipient list changed
/// after `p`'s latest contribution, else the configured share of the balance,
/// rounded down.
pub open spec fn withdraw_penalty(t: Trip, p: AccountId) -> int {
    let m = t.members@[index_of(t.members@, p)];
    if t.state.version > m.contrib_version {
        0
    } else {
        m.balance * t.config.penalty_percent / 100
    }
}

/// How `p` leaving turns `t` into `t2` with result `r`. The refund is the
/// balance less the penalty; the penalty stays in the pool, booked to `p`.
/// A completed pool that no longer meets its thresholds goes back to funding
/// and forgets every consent to release.
pub open spec fn withdraw_post(
    t: Trip,
    t2: Trip,
    trip_id: u64,
    p: AccountId,
    r: Result<Outcome, EscrowError>,
) -> bool {
    match withdraw_check(t, p) {
        Err(e) => r == Err::<Outcome, EscrowError>(e) && t2 == t,
        Ok(_) => {
            let ms = t.members@;
            let i = index_of(ms, p);
            let m = ms[i];
            let penalty = withdraw_penalty(t, p);
            let refund = m.balance - penalty;
            let ms1 = ms.update(
                i,
                Member { balance: 0, penalty: (m.penalty + penalty) as i128, confirmed: false, ..m },
            );
            let total1 = t.state.total_collected - refund;
            let pc1 = t.state.participant_count - 1;
            let cc1 = t.state.confirmation_count - if m.confirmed { 1int } else { 0 };
            let reverts = t.state.status == Status::Completed && (total1 < t.config.target_amount
                || pc1 < t.config.min_participants);
            &&& r is Ok
            &&& r->Ok_0.trip_id == trip_id
            &&& t2.config == t.config
            &&& t2.recipients@ == t.recipients@
            &&& t2.deposited@ == t.deposited@
            &&& t2.paid_out@ == t.paid_out@ + refund
            &&& t2.state == (State {
                status: if reverts { Status::Funding } else { t.state.status },
                total_collected: total1 as i128,
                participant_count: pc1 as u32,
                confirmation_count: if reverts { 0 } else { cc1 as u32 },
                ..t.state
            })
            &&& t2.members@ == if reverts { unconfirmed(ms1) } else { ms1 }
            &&& r->Ok_0.payouts@ == if refund > 0 {
                seq![Payout { to: p, amount: refund as i128 }]
            } else {
                Seq::<Payout>::empty()
            }
            &&& r->Ok_0.events@ == seq![
                Event::Withdrawal(
                    WithdrawalEvent {
                        trip_id,
                        participant: p,
                        refund: refund as i128,
                        penalty: penalty as i128,
                    },
                ),
            ]
        },
    }
}

/// How a release turns `t` into `t2` with result `r`: only a completed pool
/// is paid out.
pub open spec fn release_post(t: Trip, t2: Trip, trip_id: u64, r: Result<Outcome, EscrowError>) -> bool {
    match t.state.status.spec_admits(Operation::Release) {
        Err(e) => r == Err::<Outcome, EscrowError>(e) && t2 == t,
        Ok(_) => {
            &&& r is Ok
            &&& r->Ok_0.trip_id == trip_id
            &&& t.released_as(t2)
            &&& t2.paid_out@ == t.paid_out@ + sum_payouts(r->Ok_0.payouts@)
            &&& r->Ok_0.payouts@ == release_payouts(
                t.recipients@,
                t.config.organizer,
                t.config.target_amount as int,
                t.state.total_collected as int,
            )
            &&& r->Ok_0.events@ == seq![
                Event::Released(
                    ReleasedEvent {
                        trip_id,
                        organizer: t.config.organizer,
                        amount: t.state.total_collected,
                    },
                ),
            ]
        },
    }
}

/// `t2` is `t` after every balance and withheld penalty went back to its
/// holder, paid out as `ps`.
pub open spec fn refunded_as(t: Trip, t2: Trip, ps: Seq<Payout>) -> bool {
    &&& t2.config == t.config
    &&& t2.recipients@ == t.recipients@
    &&& t2.state == cancelled_state(t.state)
    &&& t2.members@ == cleared(t.members@)
    &&& t2.deposited@ == t.deposited@
    &&& t2.paid_out@ == t.paid_out@ + sum_payouts(ps)
    &&& ps == refund_payouts(t.members@)
}

/// How cancelling at time `now` turns `t` into `t2` with result `r`.
pub open spec fn cancel_post(t: Trip, t2: Trip, trip_id: u64, now: u64, r: Result<Outcome, EscrowError>) -> bool {
    match t.state.status.spec_admits(Operation::Cancel) {
        Err(e) => r == Err::<Outcome, EscrowError>(e) && t2 == t,
        Ok(_) => {
            &&& r is Ok
            &&& r->Ok_0.trip_id == trip_id
            &&& refunded_as(t, t2, r->Ok_0.payouts@)
            &&& r->Ok_0.events@ == seq![Event::Cancelled(CancelledEvent { trip_id, timestamp: now })]
        },
    }
}

/// The first reason, in the order they are checked, why a deadline claim is refused.
pub open spec fn claim_check(t: Trip, now: u64) -> Result<(), EscrowError> {
    if now <= t.config.deadline {
        Err(EscrowError::DeadlineNotPassed)
    } else {
        t.state.status.spec_admits(Operation::ClaimDeadline)
    }
}

/// How a deadline claim at time `now` turns `t` into `t2` with result `r`.
pub open spec fn claim_post(t: Trip, t2: Trip, trip_id: u64, now: u64, r: Result<Outcome, EscrowError>) -> bool {
    match claim_check(t, now) {
        Err(e) => r == Err::<Outcome, EscrowError>(e) && t2 == t,
        Ok(_) => {
            &&& r is Ok
            &&& r->Ok_0.trip_id == trip_id
            &&& refunded_as(t, t2, r->Ok_0.payouts@)
            &&& r->Ok_0.events@ == seq![
                Event::DeadlineExpired(
                    DeadlineExpiredEvent {
                        trip_id,
                        timestamp: now,
                        refunded_participants: t.state.participant_count,
                    },
                ),
            ]
        },
    }
}

/// The first reason, in the order they are checked, why a consent is refused.
pub open spec fn confirm_check(t: Trip, p: AccountId) -> Result<(), EscrowError> {
    match t.state.status.spec_admits(Operation::ConfirmRelease) {
        Err(e) => Err(e),
        Ok(_) => if t.config.auto_release {
            Err(EscrowError::AutoReleaseEnabled)
        } else if balance_of(t.members@, p) <= 0 {
            Err(EscrowError::NotActiveParticipant)
        } else if confirmed_of(t.members@, p) {
            Err(EscrowError::AlreadyConfirmed)
        } else {
            Ok(())
        },
    }
}

/// How `p`'s consent turns `t` into `t2` with result `r`. Once every active
/// participant consented, the pool is paid out.
pub open spec fn confirm_post(
    t: Trip,
    t2: Trip,
    trip_id: u64,
    p: AccountId,
    r: Result<Outcome, EscrowError>,
) -> bool {
    match confirm_check(t, p) {
        Err(e) => r == Err::<Outcome, EscrowError>(e) && t2 == t,
        Ok(_) => {
            let ms = t.members@;
            let i = index_of(ms, p);
            let ms1 = ms.update(i, Member { confirmed: true, ..ms[i] });
            let cc1 = t.state.confirmation_count + 1;
            let fires = cc1 >= t.state.participant_count;
            let confirmed = Event::ConfirmRelease(
                ConfirmReleaseEvent {
                    trip_id,
                    participant: p,
                    confirmations: cc1 as u32,
                    required: t.state.participant_count,
                },
            );
            &&& r is Ok
            &&& r->Ok_0.trip_id == trip_id
            &&& t2.config == t.config
            &&& t2.recipients@ == t.recipients@
            &&& t2.deposited@ == t.deposited@
            &&& t2.paid_out@ == t.paid_out@ + sum_payouts(r->Ok_0.payouts@)
            &&& t2.state == if fires {
                State { confirmation_count: cc1 as u32, ..released_state(t.state) }
            } else {
                State { confirmation_count: cc1 as u32, ..t.state }
            }
            &&& t2.members@ == if fires { cleared(ms1) } else { ms1 }
            &&& r->Ok_0.payouts@ == if fires {
                release_payouts(
                    t.recipients@,
                    t.config.organizer,
                    t.config.target_amount as int,
                    t.state.total_collected as int,
                )
            } else {
                Seq::<Payout>::empty()
            }
            &&& r->Ok_0.events@ == if fires {
                seq![
                    confirmed,
                    Event::Released(
                        ReleasedEvent {
                            trip_id,
                            organizer: t.config.organizer,
                            amount: t.state.total_collected,
                        },
                    ),
                ]
            } else {
                seq![confirmed]
            }
        },
    }
}

/// The first reason, in the order they are checked, why a new recipient list is refused.
pub open spec fn update_check(t: Trip, rs: Seq<Recipient>) -> Result<(), EscrowError> {
    match t.state.status.spec_admits(Operation::UpdateRecipients) {
        Err(e) => Err(e),
        Ok(_) => match recipients_check(rs, t.config.target_amount as int) {
            Err(e) => Err(e),
            Ok(_) => if t.state.version == u32::MAX {
                Err(EscrowError::VersionOverflow)
            } else {
                Ok(())
            },
        },
    }
}

/// How replacing the recipient list by `rs` turns `t` into `t2` with result
/// `r`: the version goes up by one, which lets earlier contributors leave
/// without penalty.
pub open spec fn update_post(
    t: Trip,
    t2: Trip,
    trip_id: u64,
    rs: Seq<Recipient>,
    r: Result<Outcome, EscrowError>,
) -> bool {
    match update_check(t, rs) {
        Err(e) => r == Err::<Outcome, EscrowError>(e) && t2 == t,
        Ok(_) => {
            &&& r is Ok
            &&& r->Ok_0.trip_id == trip_id
            &&& t2.config == t.config
            &&& t2.recipients@ == rs
            &&& t2.members@ == t.members@
            &&& t2.deposited@ == t.deposited@
            &&& t2.paid_out@ == t.paid_out@
            &&& t2.state == (State { version: (t.state.version + 1) as u32, ..t.state })
            &&& r->Ok_0.payouts@.len() == 0
            &&& r->Ok_0.events@ == seq![
                Event::InvoiceModified(
                    InvoiceModifiedEvent { trip_id, version: (t.state.version + 1) as u32 },
                ),
            ]
        },
    }
}

/// When a trip's records hang together: valid configuration and recipients,
/// one entry per account, `total_collected` equal to balances plus withheld
/// penalties, consents counted, and the status consistent with the pool.
pub open spec fn records_wf(config: Config, s: State, rs: Seq<Recipient>, ms: Seq<Member>) -> bool {
    &&& config.wf()
    &&& recipients_valid(rs, config.target_amount as int)
    &&& distinct_accounts(ms)
    &&& ms.len() <= MAX_PARTICIPANTS
    &&& forall|i: int|
        0 <= i < ms.len() ==> {
            &&& (#[trigger] ms[i]).balance >= 0
            &&& ms[i].penalty >= 0
            &&& ms[i].contrib_version <= s.version
        }
    &&& s.total_collected == sum_balances(ms) + sum_penalties(ms)
    &&& s.confirmation_count == confirmed_count(ms)
    &&& if s.status.is_terminal() {
        s.total_collected == 0
    } else {
        &&& s.participant_count == active_count(ms)
        &&& s.total_collected <= config.target_amount
        &&& s.status == Status::Completed ==> s.total_collected >= config.target_amount
            && s.participant_count >= config.min_participants
        &&& forall|i: int| 0 <= i < ms.len() ==> (#[trigger] ms[i]).confirmed ==> ms[i].balance > 0
    }
}

/// Whether no two members share an account.
fn accounts_distinct(ms: &Vec<Member>) -> (r: bool)
    ensures
        r == distinct_accounts(ms@),
{
    let n = ms.len();
    let mut i: usize = 0;
    while i < n
        invariant
            n == ms@.len(),
            i <= n,
            forall|a: int, b: int|
                0 <= a < i && 0 <= b < n && a != b ==> #[trigger] ms@[a].account
                    != #[trigger] ms@[b].account,
        decreases n - i,
    {
        let mut j: usize = 0;
        while j < n
            invariant
                n == ms@.len(),
                i < n,
                j <= n,
                forall|a: int, b: int|
                    0 <= a < i && 0 <= b < n && a != b ==> #[trigger] ms@[a].account
                        != #[trigger] ms@[b].account,
                forall|b: int| 0 <= b < j && b != i ==> ms@[i as int].account != #[trigger] ms@[b].account,
            decreases n - j,
        {
            if j != i && ms[i].account == ms[j].account {
                return false;
            }
            j = j + 1;
        }
        i = i + 1;
    }
    true
}

/// Whether stored records hang together (see `records_wf`).
pub fn check_records(config: &Config, state: &State, rs: &Vec<Recipient>, ms: &Vec<Member>) -> (r: bool)
    ensures
        r == records_wf(*config, *state, rs@, ms@),
{
    if config.target_amount <= 0 || config.min_participants == 0 || config.penalty_percent > 100 {
        return false;
    }
    if validate_recipients(rs, config.target_amount).is_err() {
        return false;
    }
    if ms.len() > MAX_PARTICIPANTS as usize {
        return false;
    }
    if !accounts_distinct(ms) {
        return false;
    }
    let n = ms.len();
    let mut i: usize = 0;
    while i < n
        invariant
            n == ms@.len(),
            i <= n,
            forall|a: int|
                0 <= a < i ==> {
                    &&& (#[trigger] ms@[a]).balance >= 0
                    &&& ms@[a].penalty >= 0
                    &&& ms@[a].contrib_version <= state.version
                },
        decreases n - i,
    {
        let m = ms[i];
        if m.balance < 0 || m.penalty < 0 || m.contrib_version > state.version {
            return false;
        }
        i = i + 1;
    }
    if state.total_collected < 0 {
        proof {
            assert(parts_nonneg(ms@, Tally::Balance));
            assert(parts_nonneg(ms@, Tally::Penalty));
            lemma_total_nonneg(ms@, Tally::Balance);
            lemma_total_nonneg(ms@, Tally::Penalty);
        }
        return false;
    }
    let mut held: i128 = 0;
    let mut active: u32 = 0;
    let mut confirmed: u32 = 0;
    let mut consents_active = true;
    let mut k: usize = 0;
    while k < n
        invariant
            n == ms@.len(),
            n <= MAX_PARTICIPANTS,
            k <= n,
            parts_nonneg(ms@, Tally::Balance),
            parts_nonneg(ms@, Tally::Penalty),
            0 <= held <= state.total_collected,
            held == sum_balances(ms@.subrange(0, k as int)) + sum_penalties(ms@.subrange(0, k as int)),
            active == active_count(ms@.subrange(0, k as int)),
            confirmed == confirmed_count(ms@.subrange(0, k as int)),
            active <= k,
            confirmed <= k,
            consents_active == forall|a: int|
                0 <= a < k ==> (#[trigger] ms@[a]).confirmed ==> ms@[a].balance > 0,
        decreases n - k,
    {
        let m = ms[k];
        let ghost pre = ms@.subrange(0, k as int);
        let ghost next = ms@.subrange(0, k + 1);
        proof {
            assert(next.drop_last() =~= pre);
            assert(m.balance >= 0 && m.penalty >= 0);
        }
        if m.balance > state.total_collected - held || m.penalty > state.total_collected - held
            - m.balance {
            proof {
                lemma_total_prefix_le(ms@, k + 1, Tally::Balance);
                lemma_total_prefix_le(ms@, k + 1, Tally::Penalty);
            }
            return false;
        }
        held = held + m.balance + m.penalty;
        if m.balance > 0 {
            active = active + 1;
        }
        if m.confirmed {
            confirmed = confirmed + 1;
            if m.balance <= 0 {
                consents_active = false;
            }
        }
        k = k + 1;
    }
    assert(ms@.subrange(0, n as int) =~= ms@);
    if held != state.total_collected || state.confirmation_count != confirmed {
        return false;
    }
    if state.status == Status::Released || state.status == Status::Cancelled {
        state.total_collected == 0
    } else {
        state.participant_count == active && state.total_collected <= config.target_amount && (
        state.status != Status::Completed || (state.total_collected >= config.target_amount
            && state.participant_count >= config.min_participants)) && consents_active
    }
}

impl Trip {
    /// The trip invariant: stored records that hang together, and value
    /// conserved (what came in equals what is held plus what left).
    pub open spec fn wf(self) -> bool {
        &&& records_wf(self.config, self.state, self.recipients@, self.members@)
        &&& self.deposited@ == self.state.total_collected + self.paid_out@
    }

    /// Validates a configuration and opens a trip on it.
    pub fn open(
        organizer: AccountId,
        token: AccountId,
        target_amount: i128,
        min_participants: u32,
        deadline: u64,
        penalty_percent: u32,
        recipients: Vec<Recipient>,
        auto_release: bool,
    ) -> (r: Result<Trip, EscrowError>)
        ensures
            match config_check(target_amount, min_participants, penalty_percent, recipients@) {
                Err(e) => r is Err && r->Err_0 == e,
                Ok(_) => r matches Ok(t) && {
                    &&& t.wf()
                    &&& t.config == (Config {
                        organizer,
                        token,
                        target_amount,
                        min_participants,
                        deadline,
                        penalty_percent,
                        auto_release,
                    })
                    &&& t.recipients@ == recipients@
                    &&& t.members@.len() == 0
                    &&& t.state == (State {
                        status: Status::Funding,
                        total_collected: 0,
                        participant_count: 0,
                        version: 0,
                        confirmation_count: 0,
                    })
                },
            },
    {
        if target_amount <= 0 {
            return Err(EscrowError::InvalidTarget);
        }
        if min_participants == 0 {
            return Err(EscrowError::InvalidMinParticipants);
        }
        if penalty_percent > 100 {
            return Err(EscrowError::InvalidPenaltyPercent);
        }
        if let Err(e) = validate_recipients(&recipients, target_amount) {
            return Err(e);
        }
        let config = Config {
            organizer,
            token,
            target_amount,
            min_participants,
            deadline,
            penalty_percent,
            auto_release,
        };
        Ok(Trip::new(config, recipients))
    }

    /// Rebuilds a trip from stored records, where they hang together. The
    /// value counters start over at what the pool holds.
    pub fn from_parts(config: Config, state: State, recipients: Vec<Recipient>, members: Vec<Member>) -> (r:
        Option<Trip>)
        ensures
            r is Some <==> records_wf(config, state, recipients@, members@),
            r matches Some(t) ==> {
                &&& t.wf()
                &&& t.config == config
                &&& t.state == state
                &&& t.recipients@ == recipients@
                &&& t.members@ == members@
            },
    {
        if !check_records(&config, &state, &recipients, &members) {
            return None;
        }
        Some(
            Trip {
                config,
                state,
                recipients,
                members,
                deposited: Ghost(state.total_collected as int),
                paid_out: Ghost(0),
            },
        )
    }

    /// `t2` is `self` after its pool was paid out.
    pub open spec fn released_as(self, t2: Trip) -> bool {
        &&& t2.config == self.config
        &&& t2.recipients@ == self.recipients@
        &&& t2.state == released_state(self.state)
        &&& t2.members@ == cleared(self.members@)
        &&& t2.deposited@ == self.deposited@
        &&& t2.paid_out@ == self.paid_out@ + self.state.total_collected
    }

    /// The trip as created: funding, nothing collected, no member.
    pub fn new(config: Config, recipients: Vec<Recipient>) -> (t: Trip)
        requires
            config.wf(),
            recipients_valid(recipients@, config.target_amount as int),
        ensures
            t.wf(),
            t.config == config,
            t.recipients@ == recipients@,
            t.members@.len() == 0,
            t.state == (State {
                status: Status::Funding,
                total_collected: 0,
                participant_count: 0,
                version: 0,
                confirmation_count: 0,
            }),
    {
        Trip {
            config,
            state: State {
                status: Status::Funding,
                total_collected: 0,
                participant_count: 0,
                version: 0,
                confirmation_count: 0,
            },
            recipients,
            members: Vec::new(),
            deposited: Ghost(0),
            paid_out: Ghost(0),
        }
    }

    pub proof fn lemma_member_bounds(self, i: int)
        requires
            self.wf(),
            0 <= i < self.members@.len(),
        ensures
            0 <= self.members@[i].balance <= sum_balances(self.members@),
            0 <= self.members@[i].penalty <= sum_penalties(self.members@),
            sum_balances(self.members@) >= 0,
            sum_penalties(self.members@) >= 0,
            self.members@[i].balance + self.members@[i].penalty <= self.state.total_collected,
            self.members@[i].balance > 0 ==> self.state.participant_count >= 1
                || self.state.status.is_terminal(),
    {
        let ms = self.members@;
        assert(parts_nonneg(ms, Tally::Balance));
        assert(parts_nonneg(ms, Tally::Penalty));
        assert(parts_nonneg(ms, Tally::Active));
        lemma_part_le_total(ms, i, Tally::Balance);
        lemma_part_le_total(ms, i, Tally::Penalty);
        lemma_part_le_total(ms, i, Tally::Active);
    }

    /// Sets every balance and withheld penalty to zero.
    fn clear_members(&mut self)
        ensures
            final(self).members@ == cleared(old(self).members@),
            final(self).config == old(self).config,
            final(self).state == old(self).state,
            final(self).recipients@ == old(self).recipients@,
            final(self).deposited == old(self).deposited,
            final(self).paid_out == old(self).paid_out,
    {
        let ghost ms = self.members@;
        let mut i: usize = 0;
        while i < self.members.len()
            invariant
                i <= self.members@.len(),
                self.members@.len() == ms.len(),
                forall|j: int| 0 <= j < i ==> #[trigger] self.members@[j] == cleared_member(ms[j]),
                forall|j: int| i <= j < ms.len() ==> #[trigger] self.members@[j] == ms[j],
                self.config == old(self).config,
                self.state == old(self).state,
                self.recipients@ == old(self).recipients@,
                self.deposited == old(self).deposited,
                self.paid_out == old(self).paid_out,
            decreases ms.len() - i,
        {
            let m = self.members[i];
            self.members.set(i, Member { balance: 0, penalty: 0, ..m });
            i = i + 1;
        }
        assert(self.members@ =~= cleared(ms));
    }

    /// Clears every consent to release.
    fn unconfirm_members(&mut self)
        ensures
            final(self).members@ == unconfirmed(old(self).members@),
            final(self).config == old(self).config,
            final(self).state == old(self).state,
            final(self).recipients@ == old(self).recipients@,
            final(self).deposited == old(self).deposited,
            final(self).paid_out == old(self).paid_out,
    {
        let ghost ms = self.members@;
        let mut i: usize = 0;
        while i < self.members.len()
            invariant
                i <= self.members@.len(),
                self.members@.len() == ms.len(),
                forall|j: int|
                    0 <= j < i ==> #[trigger] self.members@[j] == unconfirmed_member(ms[j]),
                forall|j: int| i <= j < ms.len() ==> #[trigger] self.members@[j] == ms[j],
                self.config == old(self).config,
                self.state == old(self).state,
                self.recipients@ == old(self).recipients@,
                self.deposited == old(self).deposited,
                self.paid_out == old(self).paid_out,
            decreases ms.len() - i,
        {
            let m = self.members[i];
            self.members.set(i, Member { confirmed: false, ..m });
            i = i + 1;
        }
        assert(self.members@ =~= unconfirmed(ms));
    }

    /// Pays the whole pool out (see `release_payouts`) and closes the trip.
    fn release_internal(&mut self) -> (ps: Vec<Payout>)
        requires
            old(self).wf(),
            old(self).state.status == Status::Completed,
        ensures
            final(self).wf(),
            old(self).released_as(*final(self)),
            ps@ == release_payouts(
                old(self).recipients@,
                old(self).config.organizer,
                old(self).config.target_amount as int,
                old(self).state.total_collected as int,
            ),
            sum_payouts(ps@) == old(self).state.total_collected,
    {
        let ghost ms = self.members@;
        let ghost rs = self.recipients@;
        let amount = self.state.total_collected;
        let organizer = self.config.organizer;
        let target = self.config.target_amount;
        let mut ps: Vec<Payout> = Vec::new();
        if self.recipients.len() == 0 {
            ps.push(Payout { to: organizer, amount });
        } else {
            let mut i: usize = 0;
            while i < self.recipients.len()
                invariant
                    i <= rs.len(),
                    self.recipients@ == rs,
                    ps@ == recipient_payouts(rs.subrange(0, i as int)),
                decreases rs.len() - i,
            {
                let r = self.recipients[i];
                ps.push(Payout { to: r.address, amount: r.amount });
                proof {
                    assert(recipient_payouts(rs.subrange(0, i + 1)) =~= recipient_payouts(
                        rs.subrange(0, i as int),
                    ).push(Payout { to: r.address, amount: r.amount }));
                }
                i = i + 1;
            }
            assert(rs.subrange(0, rs.len() as int) =~= rs);
            let remainder = amount - target;
            if remainder > 0 {
                ps.push(Payout { to: organizer, amount: remainder });
            }
        }
        proof {
            lemma_release_payouts_sum(rs, organizer, target as int, amount as int);
            lemma_total_cleared(ms);
        }
        self.state = State { status: Status::Released, total_collected: 0, ..self.state };
        self.clear_members();
        self.paid_out = Ghost(self.paid_out@ + amount);
        proof {
            let ms2 = self.members@;
            assert forall|i: int, j: int|
                0 <= i < ms2.len() && 0 <= j < ms2.len() && i != j implies #[trigger] ms2[i].account
                != #[trigger] ms2[j].account by {
                assert(ms2[i].account == ms[i].account && ms2[j].account == ms[j].account);
            }
        }
        ps
    }

    /// Refunds every balance and every withheld penalty and cancels the trip.
    fn refund_all(&mut self) -> (ps: Vec<Payout>)
        requires
            old(self).wf(),
            !old(self).state.status.is_terminal(),
        ensures
            final(self).wf(),
            final(self).config == old(self).config,
            final(self).recipients@ == old(self).recipients@,
            final(self).state == cancelled_state(old(self).state),
            final(self).members@ == cleared(old(self).members@),
            final(self).deposited@ == old(self).deposited@,
            final(self).paid_out@ == old(self).paid_out@ + old(self).state.total_collected,
            ps@ == refund_payouts(old(self).members@),
            sum_payouts(ps@) == old(self).state.total_collected,
    {
        let ghost ms = self.members@;
        let mut ps: Vec<Payout> = Vec::new();
        let mut i: usize = 0;
        while i < self.members.len()
            invariant
                i <= ms.len(),
                self.members@ == ms,
                ps@ == balance_refunds(ms.subrange(0, i as int)),
            decreases ms.len() - i,
        {
            let m = self.members[i];
            if m.balance > 0 {
                ps.push(Payout { to: m.account, amount: m.balance });
            }
            proof {
                assert(ms.subrange(0, i + 1).drop_last() =~= ms.subrange(0, i as int));
            }
            i = i + 1;
        }
        assert(ms.subrange(0, ms.len() as int) =~= ms);
        let ghost first = ps@;
        let mut k: usize = 0;
        while k < self.members.len()
            invariant
                k <= ms.len(),
                self.members@ == ms,
                ps@ == first + penalty_refunds(ms.subrange(0, k as int)),
            decreases ms.len() - k,
        {
            let m = self.members[k];
            proof {
                assert(ms.subrange(0, k + 1).drop_last() =~= ms.subrange(0, k as int));
            }
            if m.penalty > 0 {
                ps.push(Payout { to: m.account, amount: m.penalty });
                assert(ps@ =~= first + penalty_refunds(ms.subrange(0, k + 1)));
            } else {
                assert(ps@ =~= first + penalty_refunds(ms.subrange(0, k + 1)));
            }
            k = k + 1;
        }
        proof {
            assert(parts_nonneg(ms, Tally::Balance));
            assert(parts_nonneg(ms, Tally::Penalty));
            lemma_balance_refunds_sum(ms);
            lemma_penalty_refunds_sum(ms);
            lemma_sum_payouts_concat(balance_refunds(ms), penalty_refunds(ms));
            lemma_total_cleared(ms);
        }
        let amount = self.state.total_collected;
        self.state = State { status: Status::Cancelled, total_collected: 0, ..self.state };
        self.clear_members();
        self.paid_out = Ghost(self.paid_out@ + amount);
        proof {
            let ms2 = self.members@;
            assert forall|i: int, j: int|
                0 <= i < ms2.len() && 0 <= j < ms2.len() && i != j implies #[trigger] ms2[i].account
                != #[trigger] ms2[j].account by {
                assert(ms2[i].account == ms[i].account && ms2[j].account == ms[j].account);
            }
        }
        ps
    }

    /// Takes `amount` from `p` into the pool.
    pub fn contribute(&mut self, trip_id: u64, p: AccountId, amount: i128, now: u64) -> (r: Result<
        Outcome,
        EscrowError,
    >)
        requires
            old(self).wf(),
        ensures
            final(self).wf(),
            contribute_post(*old(self), *final(self), trip_id, p, amount, now, r),
    {
        if let Err(e) = self.state.status.admits(Operation::Contribute) {
            return Err(e);
        }
        if amount <= 0 {
            return Err(EscrowError::InvalidAmount);
        }
        if now > self.config.deadline {
            return Err(EscrowError::DeadlinePassed);
        }
        proof {
            assert(parts_nonneg(self.members@, Tally::Balance));
            assert(parts_nonneg(self.members@, Tally::Penalty));
            lemma_total_nonneg(self.members@, Tally::Balance);
            lemma_total_nonneg(self.members@, Tally::Penalty);
        }
        if amount > self.config.target_amount - self.state.total_collected {
            return Err(EscrowError::ExceedsTarget);
        }
        let found = find_member(&self.members, p);
        if found.is_none() && self.members.len() >= MAX_PARTICIPANTS as usize {
            return Err(EscrowError::MaxParticipantsReached);
        }
        let ghost ms = self.members@;
        let version = self.state.version;
        proof {
            lemma_active_le_len(ms);
        }
        let new_balance: i128;
        let joins: bool;
        match found {
            Some(i) => {
                let m = self.members[i];
                proof {
                    lemma_index_of(ms, p, i as int);
                    self.lemma_member_bounds(i as int);
                }
                new_balance = m.balance + amount;
                joins = m.balance == 0;
                self.members.set(i, Member { balance: new_balance, contrib_version: version, ..m });
                proof {
                    let m2 = Member { balance: new_balance, contrib_version: version, ..m };
                    lemma_total_update(ms, i as int, m2, Tally::Balance);
                    lemma_total_update(ms, i as int, m2, Tally::Penalty);
                    lemma_total_update(ms, i as int, m2, Tally::Active);
                    lemma_total_update(ms, i as int, m2, Tally::Confirmed);
                }
            },
            None => {
                new_balance = amount;
                joins = true;
                let m2 = Member { account: p, balance: amount, contrib_version: version, penalty: 0, confirmed: false };
                self.members.push(m2);
                proof {
                    lemma_total_push(ms, m2, Tally::Balance);
                    lemma_total_push(ms, m2, Tally::Penalty);
                    lemma_total_push(ms, m2, Tally::Active);
                    lemma_total_push(ms, m2, Tally::Confirmed);
                }
            },
        }
        if joins {
            self.state.participant_count = self.state.participant_count + 1;
        }
        self.state.total_collected = self.state.total_collected + amount;
        self.deposited = Ghost(self.deposited@ + amount);
        if self.state.total_collected >= self.config.target_amount
            && self.state.participant_count >= self.config.min_participants {
            self.state.status = Status::Completed;
        }
        let mut events: Vec<Event> = Vec::new();
        events.push(
            Event::Contribution(
                ContributionEvent {
                    trip_id,
                    participant: p,
                    amount,
                    new_balance,
                    total: self.state.total_collected,
                },
            ),
        );
        let mut payouts: Vec<Payout> = Vec::new();
        if self.state.status == Status::Completed && self.config.auto_release {
            let total = self.state.total_collected;
            payouts = self.release_internal();
            events.push(
                Event::Released(
                    ReleasedEvent { trip_id, organizer: self.config.organizer, amount: total },
                ),
            );
        }
        assert(self.state.status == Status::Released ==> events@ =~= seq![events@[0], events@[1]]);
        Ok(Outcome { trip_id, payouts, events })
    }

    /// Lets `p` leave with a refund of the balance less the penalty.
    pub fn withdraw(&mut self, trip_id: u64, p: AccountId) -> (r: Result<Outcome, EscrowError>)
        requires
            old(self).wf(),
        ensures
            final(self).wf(),
            withdraw_post(*old(self), *final(self), trip_id, p, r),
    {
        if let Err(e) = self.state.status.admits(Operation::Withdraw) {
            return Err(e);
        }
        let ghost ms = self.members@;
        let i = match find_member(&self.members, p) {
            Some(i) => i,
            None => {
                return Err(EscrowError::NoBalance);
            },
        };
        proof {
            lemma_index_of(ms, p, i as int);
        }
        let m = self.members[i];
        if m.balance <= 0 {
            return Err(EscrowError::NoBalance);
        }
        proof {
            self.lemma_member_bounds(i as int);
            lemma_active_le_len(ms);
            assert(parts_nonneg(ms, Tally::Confirmed));
            lemma_part_le_total(ms, i as int, Tally::Confirmed);
        }
        let penalty: i128 = if self.state.version > m.contrib_version {
            0
        } else {
            penalty_amount(m.balance, self.config.penalty_percent)
        };
        let refund = m.balance - penalty;
        let m2 = Member { balance: 0, penalty: m.penalty + penalty, confirmed: false, ..m };
        self.members.set(i, m2);
        proof {
            lemma_total_update(ms, i as int, m2, Tally::Balance);
            lemma_total_update(ms, i as int, m2, Tally::Penalty);
            lemma_total_update(ms, i as int, m2, Tally::Active);
            lemma_total_update(ms, i as int, m2, Tally::Confirmed);
        }
        self.state.total_collected = self.state.total_collected - refund;
        self.state.participant_count = self.state.participant_count - 1;
        if m.confirmed {
            self.state.confirmation_count = self.state.confirmation_count - 1;
        }
        self.paid_out = Ghost(self.paid_out@ + refund);
        if self.state.status == Status::Completed && (self.state.total_collected
            < self.config.target_amount || self.state.participant_count
            < self.config.min_participants) {
            self.state.status = Status::Funding;
            self.state.confirmation_count = 0;
            let ghost ms1 = self.members@;
            self.unconfirm_members();
            proof {
                lemma_total_unconfirmed(ms1);
                let ms2 = self.members@;
                assert forall|a: int, b: int|
                    0 <= a < ms2.len() && 0 <= b < ms2.len() && a != b implies #[trigger] ms2[a].account
                    != #[trigger] ms2[b].account by {
                    assert(ms2[a].account == ms1[a].account && ms2[b].account == ms1[b].account);
                }
            }
        }
        let mut payouts: Vec<Payout> = Vec::new();
        if refund > 0 {
            payouts.push(Payout { to: p, amount: refund });
        }
        let mut events: Vec<Event> = Vec::new();
        events.push(
            Event::Withdrawal(WithdrawalEvent { trip_id, participant: p, refund, penalty }),
        );
        proof {
            if refund > 0 {
                lemma_sum_payouts_single(Payout { to: p, amount: refund });
            }
        }
        Ok(Outcome { trip_id, payouts, events })
    }

    /// Pays out a completed pool.
    pub fn release(&mut self, trip_id: u64) -> (r: Result<Outcome, EscrowError>)
        requires
            old(self).wf(),
        ensures
            final(self).wf(),
            release_post(*old(self), *final(self), trip_id, r),
    {
        if let Err(e) = self.state.status.admits(Operation::Release) {
            return Err(e);
        }
        let organizer = self.config.organizer;
        let amount = self.state.total_collected;
        let payouts = self.release_internal();
        let mut events: Vec<Event> = Vec::new();
        events.push(Event::Released(ReleasedEvent { trip_id, organizer, amount }));
        Ok(Outcome { trip_id, payouts, events })
    }

    /// Refunds everyone and closes a trip that is not closed yet.
    pub fn cancel(&mut self, trip_id: u64, now: u64) -> (r: Result<Outcome, EscrowError>)
        requires
            old(self).wf(),
        ensures
            final(self).wf(),
            cancel_post(*old(self), *final(self), trip_id, now, r),
    {
        if let Err(e) = self.state.status.admits(Operation::Cancel) {
            return Err(e);
        }
        let payouts = self.refund_all();
        let mut events: Vec<Event> = Vec::new();
        events.push(Event::Cancelled(CancelledEvent { trip_id, timestamp: now }));
        Ok(Outcome { trip_id, payouts, events })
    }

    /// Refunds everyone and closes a trip that is still funding after its deadline.
    pub fn claim_deadline(&mut self, trip_id: u64, now: u64) -> (r: Result<Outcome, EscrowError>)
        requires
            old(self).wf(),
        ensures
            final(self).wf(),
            claim_post(*old(self), *final(self), trip_id, now, r),
    {
        if now <= self.config.deadline {
            return Err(EscrowError::DeadlineNotPassed);
        }
        if let Err(e) = self.state.status.admits(Operation::ClaimDeadline) {
            return Err(e);
        }
        let refunded = self.state.participant_count;
        let payouts = self.refund_all();
        let mut events: Vec<Event> = Vec::new();
        events.push(
            Event::DeadlineExpired(
                DeadlineExpiredEvent { trip_id, timestamp: now, refunded_participants: refunded },
            ),
        );
        Ok(Outcome { trip_id, payouts, events })
    }

    /// Records `p`'s consent to release; the last consent pays the pool out.
    pub fn confirm_release(&mut self, trip_id: u64, p: AccountId) -> (r: Result<Outcome, EscrowError>)
        requires
            old(self).wf(),
        ensures
            final(self).wf(),
            confirm_post(*old(self), *final(self), trip_id, p, r),
    {
        if let Err(e) = self.state.status.admits(Operation::ConfirmRelease) {
            return Err(e);
        }
        if self.config.auto_release {
            return Err(EscrowError::AutoReleaseEnabled);
        }
        let ghost ms = self.members@;
        let i = match find_member(&self.members, p) {
            Some(i) => i,
            None => {
                return Err(EscrowError::NotActiveParticipant);
            },
        };
        proof {
            lemma_index_of(ms, p, i as int);
        }
        let m = self.members[i];
        if m.balance <= 0 {
            return Err(EscrowError::NotActiveParticipant);
        }
        if m.confirmed {
            return Err(EscrowError::AlreadyConfirmed);
        }
        proof {
            lemma_active_le_len(ms);
            lemma_total_le(ms, Tally::Confirmed, Tally::Active);
        }
        let m2 = Member { confirmed: true, ..m };
        self.members.set(i, m2);
        proof {
            lemma_total_update(ms, i as int, m2, Tally::Balance);
            lemma_total_update(ms, i as int, m2, Tally::Penalty);
            lemma_total_update(ms, i as int, m2, Tally::Active);
            lemma_total_update(ms, i as int, m2, Tally::Confirmed);
        }
        self.state.confirmation_count = self.state.confirmation_count + 1;
        let mut events: Vec<Event> = Vec::new();
        events.push(
            Event::ConfirmRelease(
                ConfirmReleaseEvent {
                    trip_id,
                    participant: p,
                    confirmations: self.state.confirmation_count,
                    required: self.state.participant_count,
                },
            ),
        );
        let mut payouts: Vec<Payout> = Vec::new();
        if self.state.confirmation_count >= self.state.participant_count {
            let organizer = self.config.organizer;
            let amount = self.state.total_collected;
            payouts = self.release_internal();
            events.push(Event::Released(ReleasedEvent { trip_id, organizer, amount }));
        }
        assert(self.state.status == Status::Released ==> events@ =~= seq![events@[0], events@[1]]);
        Ok(Outcome { trip_id, payouts, events })
    }

    /// Replaces the recipient list and moves the trip to its next version.
    pub fn update_recipients(&mut self, trip_id: u64, new_recipients: Vec<Recipient>) -> (r: Result<
        Outcome,
        EscrowError,
    >)
        requires
            old(self).wf(),
        ensures
            final(self).wf(),
            update_post(*old(self), *final(self), trip_id, new_recipients@, r),
    {
        if let Err(e) = self.state.status.admits(Operation::UpdateRecipients) {
            return Err(e);
        }
        if let Err(e) = validate_recipients(&new_recipients, self.config.target_amount) {
            return Err(e);
        }
        if self.state.version == u32::MAX {
            return Err(EscrowError::VersionOverflow);
        }
        self.recipients = new_recipients;
        self.state.version = self.state.version + 1;
        let mut events: Vec<Event> = Vec::new();
        events.push(
            Event::InvoiceModified(InvoiceModifiedEvent { trip_id, version: self.state.version }),
        );
        Ok(Outcome { trip_id, payouts: Vec::new(), events })
    }
}

} // verus!
