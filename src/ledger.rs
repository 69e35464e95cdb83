//! Mathematical model of a trip's ledgers: sums and counts over the member
//! list, lookup by account, and the payout sequences that refunds and
//! releases produce.
use vstd::prelude::*;
use crate::types::{AccountId, Member, Payout, Recipient};

verus! {

/// Which quantity of a member a tally adds up.
#[derive(Clone, Copy, PartialEq, Eq, Debug, Structural)]
pub enum Tally {
    Balance,
    Penalty,
    Active,
    Confirmed,
}

pub open spec fn part(m: Member, k: Tally) -> int {
    match k {
        Tally::Balance => m.balance as int,
        Tally::Penalty => m.penalty as int,
        Tally::Active => if m.balance > 0 { 1 } else { 0 },
        Tally::Confirmed => if m.confirmed { 1 } else { 0 },
    }
}

/// The sum of one quantity over all members.
pub open spec fn total(ms: Seq<Member>, k: Tally) -> int
    decreases ms.len(),
{
    if ms.len() == 0 {
        0
    } else {
        total(ms.drop_last(), k) + part(ms.last(), k)
    }
}

pub open spec fn sum_balances(ms: Seq<Member>) -> int {
    total(ms, Tally::Balance)
}

pub open spec fn sum_penalties(ms: Seq<Member>) -> int {
    total(ms, Tally::Penalty)
}

/// Number of members that currently hold a nonzero balance.
pub open spec fn active_count(ms: Seq<Member>) -> int {
    total(ms, Tally::Active)
}

/// Number of members that consented to release.
pub open spec fn confirmed_count(ms: Seq<Member>) -> int {
    total(ms, Tally::Confirmed)
}

pub open spec fn distinct_accounts(ms: Seq<Member>) -> bool {
    forall|i: int, j: int|
        0 <= i < ms.len() && 0 <= j < ms.len() && i != j ==> #[trigger] ms[i].account
            != #[trigger] ms[j].account
}

pub open spec fn has_account(ms: Seq<Member>, p: AccountId) -> bool {
    exists|i: int| 0 <= i < ms.len() && #[trigger] ms[i].account == p
}

/// Position of `p` in the member list, or -1 where `p` never contributed.
pub open spec fn index_of(ms: Seq<Member>, p: AccountId) -> int {
    if has_account(ms, p) {
        choose|i: int| 0 <= i < ms.len() && #[trigger] ms[i].account == p
    } else {
        -1
    }
}

/// Current balance of `p`; zero for an account that never contributed.
pub open spec fn balance_of(ms: Seq<Member>, p: AccountId) -> int {
    let i = index_of(ms, p);
    if i >= 0 { ms[i].balance as int } else { 0 }
}

pub open spec fn penalty_of(ms: Seq<Member>, p: AccountId) -> int {
    let i = index_of(ms, p);
    if i >= 0 { ms[i].penalty as int } else { 0 }
}

pub open spec fn confirmed_of(ms: Seq<Member>, p: AccountId) -> bool {
    let i = index_of(ms, p);
    i >= 0 && ms[i].confirmed
}

/// A member after the pool let go of its funds: balance and penalty gone.
pub open spec fn cleared_member(m: Member) -> Member {
    Member { balance: 0, penalty: 0, ..m }
}

pub open spec fn cleared(ms: Seq<Member>) -> Seq<Member> {
    ms.map_values(|m: Member| cleared_member(m))
}

pub open spec fn unconfirmed_member(m: Member) -> Member {
    Member { confirmed: false, ..m }
}

pub open spec fn unconfirmed(ms: Seq<Member>) -> Seq<Member> {
    ms.map_values(|m: Member| unconfirmed_member(m))
}

pub open spec fn sum_amounts(rs: Seq<Recipient>) -> int
    decreases rs.len(),
{
    if rs.len() == 0 {
        0
    } else {
        sum_amounts(rs.drop_last()) + rs.last().amount
    }
}

pub open spec fn all_positive(rs: Seq<Recipient>) -> bool {
    forall|i: int| 0 <= i < rs.len() ==> #[trigger] rs[i].amount > 0
}

/// A recipient list is acceptable for a target when it is within the cap and
/// either empty or made of positive amounts that add up to the target.
pub open spec fn recipients_valid(rs: Seq<Recipient>, target: int) -> bool {
    &&& rs.len() <= crate::types::MAX_RECIPIENTS
    &&& (rs.len() == 0 || (all_positive(rs) && sum_amounts(rs) == target))
}

pub open spec fn sum_payouts(ps: Seq<Payout>) -> int
    decreases ps.len(),
{
    if ps.len() == 0 {
        0
    } else {
        sum_payouts(ps.drop_last()) + ps.last().amount
    }
}

/// Refunds of the current balances, in member order, skipping empty ones.
pub open spec fn balance_refunds(ms: Seq<Member>) -> Seq<Payout>
    decreases ms.len(),
{
    if ms.len() == 0 {
        seq![]
    } else {
        let m = ms.last();
        balance_refunds(ms.drop_last()) + if m.balance > 0 {
            seq![Payout { to: m.account, amount: m.balance }]
        } else {
            seq![]
        }
    }
}

/// Refunds of the withheld penalties, in member order, skipping empty ones.
pub open spec fn penalty_refunds(ms: Seq<Member>) -> Seq<Payout>
    decreases ms.len(),
{
    if ms.len() == 0 {
        seq![]
    } else {
        let m = ms.last();
        penalty_refunds(ms.drop_last()) + if m.penalty > 0 {
            seq![Payout { to: m.account, amount: m.penalty }]
        } else {
            seq![]
        }
    }
}

/// Everything a cancellation pays back: balances first, then penalties.
pub open spec fn refund_payouts(ms: Seq<Member>) -> Seq<Payout> {
    balance_refunds(ms) + penalty_refunds(ms)
}

pub open spec fn recipient_payouts(rs: Seq<Recipient>) -> Seq<Payout> {
    rs.map_values(|r: Recipient| Payout { to: r.address, amount: r.amount })
}

/// What a release pays out of `amount` collected: all of it to the organizer
/// when no recipient is named; else each recipient its amount and the
/// organizer what exceeds the target.
pub open spec fn release_payouts(
    rs: Seq<Recipient>,
    organizer: AccountId,
    target: int,
    amount: int,
) -> Seq<Payout> {
    if rs.len() == 0 {
        seq![Payout { to: organizer, amount: amount as i128 }]
    } else if amount - target > 0 {
        recipient_payouts(rs).push(Payout { to: organizer, amount: (amount - target) as i128 })
    } else {
        recipient_payouts(rs)
    }
}

pub proof fn lemma_total_push(ms: Seq<Member>, m: Member, k: Tally)
    ensures
        total(ms.push(m), k) == total(ms, k) + part(m, k),
{
    assert(ms.push(m).drop_last() =~= ms);
}

pub proof fn lemma_total_update(ms: Seq<Member>, i: int, m: Member, k: Tally)
    requires
        0 <= i < ms.len(),
    ensures
        total(ms.update(i, m), k) == total(ms, k) - part(ms[i], k) + part(m, k),
    decreases ms.len(),
{
    let ms2 = ms.update(i, m);
    if i == ms.len() - 1 {
        assert(ms2.drop_last() =~= ms.drop_last());
    } else {
        lemma_total_update(ms.drop_last(), i, m, k);
        assert(ms2.drop_last() =~= ms.drop_last().update(i, m));
    }
}

pub open spec fn parts_nonneg(ms: Seq<Member>, k: Tally) -> bool {
    forall|i: int| 0 <= i < ms.len() ==> part(#[trigger] ms[i], k) >= 0
}

/// With no negative part, each member's part is at most the total.
pub proof fn lemma_part_le_total(ms: Seq<Member>, i: int, k: Tally)
    requires
        0 <= i < ms.len(),
        parts_nonneg(ms, k),
    ensures
        0 <= part(ms[i], k) <= total(ms, k),
        total(ms, k) >= 0,
    decreases ms.len(),
{
    lemma_total_nonneg(ms.drop_last(), k);
    if i < ms.len() - 1 {
        lemma_part_le_total(ms.drop_last(), i, k);
    }
}

pub proof fn lemma_total_nonneg(ms: Seq<Member>, k: Tally)
    requires
        forall|i: int| 0 <= i < ms.len() ==> part(#[trigger] ms[i], k) >= 0,
    ensures
        total(ms, k) >= 0,
    decreases ms.len(),
{
    if ms.len() > 0 {
        lemma_total_nonneg(ms.drop_last(), k);
    }
}

/// Where each member's first part is at most its second, so are the totals.
pub proof fn lemma_total_le(ms: Seq<Member>, k1: Tally, k2: Tally)
    requires
        forall|i: int| 0 <= i < ms.len() ==> part(#[trigger] ms[i], k1) <= part(ms[i], k2),
    ensures
        total(ms, k1) <= total(ms, k2),
    decreases ms.len(),
{
    if ms.len() > 0 {
        lemma_total_le(ms.drop_last(), k1, k2);
    }
}

pub proof fn lemma_total_cleared(ms: Seq<Member>)
    ensures
        total(cleared(ms), Tally::Balance) == 0,
        total(cleared(ms), Tally::Penalty) == 0,
        total(cleared(ms), Tally::Active) == 0,
        total(cleared(ms), Tally::Confirmed) == total(ms, Tally::Confirmed),
    decreases ms.len(),
{
    if ms.len() > 0 {
        assert(cleared(ms).drop_last() =~= cleared(ms.drop_last()));
        lemma_total_cleared(ms.drop_last());
    }
}

pub proof fn lemma_total_unconfirmed(ms: Seq<Member>)
    ensures
        total(unconfirmed(ms), Tally::Balance) == total(ms, Tally::Balance),
        total(unconfirmed(ms), Tally::Penalty) == total(ms, Tally::Penalty),
        total(unconfirmed(ms), Tally::Active) == total(ms, Tally::Active),
        total(unconfirmed(ms), Tally::Confirmed) == 0,
    decreases ms.len(),
{
    if ms.len() > 0 {
        assert(unconfirmed(ms).drop_last() =~= unconfirmed(ms.drop_last()));
        lemma_total_unconfirmed(ms.drop_last());
    }
}

/// In a list without repeated accounts, a position holding `p` is its index.
pub proof fn lemma_index_of(ms: Seq<Member>, p: AccountId, i: int)
    requires
        distinct_accounts(ms),
        0 <= i < ms.len(),
        ms[i].account == p,
    ensures
        index_of(ms, p) == i,
{
    assert(has_account(ms, p));
    let j = index_of(ms, p);
    assert(0 <= j < ms.len() && ms[j].account == p);
}

pub proof fn lemma_sum_payouts_concat(a: Seq<Payout>, b: Seq<Payout>)
    ensures
        sum_payouts(a + b) == sum_payouts(a) + sum_payouts(b),
    decreases b.len(),
{
    if b.len() == 0 {
        assert(a + b =~= a);
    } else {
        assert((a + b).drop_last() =~= a + b.drop_last());
        lemma_sum_payouts_concat(a, b.drop_last());
    }
}

pub proof fn lemma_sum_payouts_single(p: Payout)
    ensures
        sum_payouts(seq![p]) == p.amount,
{
    assert(seq![p].drop_last() =~= Seq::<Payout>::empty());
    assert(sum_payouts(Seq::<Payout>::empty()) == 0);
}

pub proof fn lemma_balance_refunds_sum(ms: Seq<Member>)
    requires
        parts_nonneg(ms, Tally::Balance),
    ensures
        sum_payouts(balance_refunds(ms)) == total(ms, Tally::Balance),
    decreases ms.len(),
{
    if ms.len() > 0 {
        let m = ms.last();
        let tail = if m.balance > 0 {
            seq![Payout { to: m.account, amount: m.balance }]
        } else {
            seq![]
        };
        lemma_balance_refunds_sum(ms.drop_last());
        lemma_sum_payouts_concat(balance_refunds(ms.drop_last()), tail);
        assert(sum_payouts(tail) == part(m, Tally::Balance)) by {
            if m.balance > 0 {
                lemma_sum_payouts_single(Payout { to: m.account, amount: m.balance });
            }
        }
    }
}

pub proof fn lemma_penalty_refunds_sum(ms: Seq<Member>)
    requires
        parts_nonneg(ms, Tally::Penalty),
    ensures
        sum_payouts(penalty_refunds(ms)) == total(ms, Tally::Penalty),
    decreases ms.len(),
{
    if ms.len() > 0 {
        let m = ms.last();
        let tail = if m.penalty > 0 {
            seq![Payout { to: m.account, amount: m.penalty }]
        } else {
            seq![]
        };
        lemma_penalty_refunds_sum(ms.drop_last());
        lemma_sum_payouts_concat(penalty_refunds(ms.drop_last()), tail);
        assert(sum_payouts(tail) == part(m, Tally::Penalty)) by {
            if m.penalty > 0 {
                lemma_sum_payouts_single(Payout { to: m.account, amount: m.penalty });
            }
        }
    }
}

pub proof fn lemma_recipient_payouts_sum(rs: Seq<Recipient>)
    ensures
        sum_payouts(recipient_payouts(rs)) == sum_amounts(rs),
    decreases rs.len(),
{
    if rs.len() > 0 {
        assert(recipient_payouts(rs).drop_last() =~= recipient_payouts(rs.drop_last()));
        lemma_recipient_payouts_sum(rs.drop_last());
    }
}

/// A release pays out exactly what was collected.
pub proof fn lemma_release_payouts_sum(
    rs: Seq<Recipient>,
    organizer: AccountId,
    target: int,
    amount: int,
)
    requires
        rs.len() == 0 || sum_amounts(rs) == target,
        0 <= target <= amount <= i128::MAX,
    ensures
        sum_payouts(release_payouts(rs, organizer, target, amount)) == amount,
{
    if rs.len() == 0 {
        lemma_sum_payouts_single(Payout { to: organizer, amount: amount as i128 });
    } else {
        lemma_recipient_payouts_sum(rs);
        if amount - target > 0 {
            let extra = Payout { to: organizer, amount: (amount - target) as i128 };
            assert(recipient_payouts(rs).push(extra).drop_last() =~= recipient_payouts(rs));
        }
    }
}

pub proof fn lemma_active_le_len(ms: Seq<Member>)
    ensures
        0 <= total(ms, Tally::Active) <= ms.len(),
    decreases ms.len(),
{
    if ms.len() > 0 {
        lemma_active_le_len(ms.drop_last());
    }
}

/// With no negative part, a prefix's total is at most the whole total.
pub proof fn lemma_total_prefix_le(ms: Seq<Member>, j: int, k: Tally)
    requires
        parts_nonneg(ms, k),
        0 <= j <= ms.len(),
    ensures
        total(ms.subrange(0, j), k) <= total(ms, k),
    decreases ms.len(),
{
    if j < ms.len() {
        assert(parts_nonneg(ms.drop_last(), k)) by {
            assert forall|i: int| 0 <= i < ms.drop_last().len() implies part(
                #[trigger] ms.drop_last()[i],
                k,
            ) >= 0 by {
                assert(ms.drop_last()[i] == ms[i]);
            }
        }
        lemma_total_prefix_le(ms.drop_last(), j, k);
        assert(ms.drop_last().subrange(0, j) =~= ms.subrange(0, j));
    } else {
        assert(ms.subrange(0, j) =~= ms);
    }
}

} // verus!
