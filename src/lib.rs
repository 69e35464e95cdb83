//! A pooled-escrow engine: groups of participants fund a shared target by a
//! deadline, after which the pool is paid out to its recipients, or refunded.
//!
//! Every operation is a verified transition on one trip's records; the
//! surrounding host performs the value transfers that an operation hands back.

pub mod types;
pub mod ledger;
pub mod trip;
pub mod escrow;
pub mod laws;

pub use escrow::{admit_trip, CotravelEscrow};
pub use trip::Trip;
pub use types::{
    AccountId, CancelledEvent, Config, ConfirmReleaseEvent, ContributionEvent,
    DeadlineExpiredEvent, EscrowError, Event, InvoiceModifiedEvent, Member, Operation, Outcome,
    Payout, Recipient, ReleasedEvent, State, Status, TripCreatedEvent, TripInfo, TripKey,
    WithdrawalEvent, MAX_PARTICIPANTS, MAX_RECIPIENTS, MAX_TRIPS,
};
