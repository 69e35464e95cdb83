use vstd::prelude::*;

verus! {

/// Identity of an account: a participant, an organizer, a payee or a token.
pub type AccountId = u64;

/// Upper bound on the number of trips one escrow holds.
pub const MAX_TRIPS: u64 = 10_000;

/// Upper bound on the number of distinct participants of one trip.
pub const MAX_PARTICIPANTS: u32 = 200;

/// Upper bound on the length of a trip's recipient list.
pub const MAX_RECIPIENTS: u32 = 50;

/// Lifecycle of a trip.
#[derive(Clone, Copy, PartialEq, Eq, Debug, Structural)]
pub enum Status {
    Funding,
    Completed,
    Cancelled,
    Released,
}

/// The mutating operations on a trip, as far as its status decides them.
#[derive(Clone, Copy, PartialEq, Eq, Debug, Structural)]
pub enum Operation {
    Contribute,
    Withdraw,
    Release,
    Cancel,
    ConfirmRelease,
    ClaimDeadline,
    UpdateRecipients,
}

/// Why an operation was refused. A refused operation changes nothing.
#[derive(Clone, Copy, PartialEq, Eq, Debug, Structural)]
pub enum EscrowError {
    TripNotFound,
    InvalidTarget,
    InvalidMinParticipants,
    InvalidPenaltyPercent,
    TooManyRecipients,
    InvalidRecipientAmount,
    RecipientSumMismatch,
    MaxTripsReached,
    MaxParticipantsReached,
    NotFunding,
    NotCompleted,
    AlreadyFinalized,
    InvalidAmount,
    DeadlinePassed,
    DeadlineNotPassed,
    ExceedsTarget,
    NoBalance,
    AutoReleaseEnabled,
    NotActiveParticipant,
    AlreadyConfirmed,
    VersionOverflow,
}

impl Status {
    pub open spec fn is_terminal(self) -> bool {
        self == Status::Released || self == Status::Cancelled
    }

    /// The one place where the state machine decides which operation a status admits.
    pub open spec fn spec_admits(self, op: Operation) -> Result<(), EscrowError> {
        match op {
            Operation::Contribute | Operation::ClaimDeadline => {
                if self == Status::Funding { Ok(()) } else { Err(EscrowError::NotFunding) }
            },
            Operation::Release | Operation::ConfirmRelease => {
                if self == Status::Completed { Ok(()) } else { Err(EscrowError::NotCompleted) }
            },
            Operation::Withdraw | Operation::Cancel | Operation::UpdateRecipients => {
                if self.is_terminal() { Err(EscrowError::AlreadyFinalized) } else { Ok(()) }
            },
        }
    }

    #[verifier::when_used_as_spec(spec_admits)]
    pub fn admits(self, op: Operation) -> (r: Result<(), EscrowError>)
        ensures
            r == self.spec_admits(op),
    {
        match op {
            Operation::Contribute | Operation::ClaimDeadline => {
                if self == Status::Funding { Ok(()) } else { Err(EscrowError::NotFunding) }
            },
            Operation::Release | Operation::ConfirmRelease => {
                if self == Status::Completed { Ok(()) } else { Err(EscrowError::NotCompleted) }
            },
            Operation::Withdraw | Operation::Cancel | Operation::UpdateRecipients => {
                if self == Status::Released || self == Status::Cancelled {
                    Err(EscrowError::AlreadyFinalized)
                } else {
                    Ok(())
                }
            },
        }
    }
}

/// A payee entitled to a fixed amount of the pool on release.
#[derive(Clone, Copy, PartialEq, Eq, Debug, Structural)]
pub struct Recipient {
    pub address: AccountId,
    pub amount: i128,
}

/// A trip's configuration, fixed at creation.
#[derive(Clone, Copy, PartialEq, Eq, Debug, Structural)]
pub struct Config {
    pub organizer: AccountId,
    pub token: AccountId,
    pub target_amount: i128,
    pub min_participants: u32,
    pub deadline: u64,
    pub penalty_percent: u32,
    pub auto_release: bool,
}

impl Config {
    pub open spec fn wf(self) -> bool {
        &&& self.target_amount > 0
        &&& self.min_participants >= 1
        &&& self.penalty_percent <= 100
    }
}

/// A trip's mutable summary.
#[derive(Clone, Copy, PartialEq, Eq, Debug, Structural)]
pub struct State {
    pub status: Status,
    pub total_collected: i128,
    pub participant_count: u32,
    pub version: u32,
    pub confirmation_count: u32,
}

/// What a listing shows of a trip.
#[derive(Clone, Copy, PartialEq, Eq, Debug, Structural)]
pub struct TripInfo {
    pub trip_id: u64,
    pub organizer: AccountId,
    pub target_amount: i128,
    pub status: Status,
    pub total_collected: i128,
    pub participant_count: u32,
}

/// One participant's ledger entry: current balance, the trip version of the
/// latest contribution, penalties withheld so far, and consent to release.
#[derive(Clone, Copy, PartialEq, Eq, Debug, Structural)]
pub struct Member {
    pub account: AccountId,
    pub balance: i128,
    pub contrib_version: u32,
    pub penalty: i128,
    pub confirmed: bool,
}

/// A transfer out of the pool that the host is to perform.
#[derive(Clone, Copy, PartialEq, Eq, Debug, Structural)]
pub struct Payout {
    pub to: AccountId,
    pub amount: i128,
}

/// Addresses one record of one trip in a keyed store.
#[derive(Clone, Copy, PartialEq, Eq, Debug, Structural)]
pub enum TripKey {
    Config(u64),
    State(u64),
    Balances(u64),
    Participants(u64),
    Recipients(u64),
    ContribVersions(u64),
    PenaltyPool(u64),
    Confirmations(u64),
}

impl TripKey {
    pub open spec fn spec_trip_id(self) -> u64 {
        match self {
            TripKey::Config(id) => id,
            TripKey::State(id) => id,
            TripKey::Balances(id) => id,
            TripKey::Participants(id) => id,
            TripKey::Recipients(id) => id,
            TripKey::ContribVersions(id) => id,
            TripKey::PenaltyPool(id) => id,
            TripKey::Confirmations(id) => id,
        }
    }

    /// The trip that owns the record: records of distinct trips never share a key.
    #[verifier::when_used_as_spec(spec_trip_id)]
    pub fn trip_id(self) -> (r: u64)
        ensures
            r == self.spec_trip_id(),
    {
        match self {
            TripKey::Config(id) => id,
            TripKey::State(id) => id,
            TripKey::Balances(id) => id,
            TripKey::Participants(id) => id,
            TripKey::Recipients(id) => id,
            TripKey::ContribVersions(id) => id,
            TripKey::PenaltyPool(id) => id,
            TripKey::Confirmations(id) => id,
        }
    }
}

#[derive(Clone, Copy, PartialEq, Eq, Debug, Structural)]
pub struct TripCreatedEvent {
    pub trip_id: u64,
    pub organizer: AccountId,
    pub target_amount: i128,
}

#[derive(Clone, Copy, PartialEq, Eq, Debug, Structural)]
pub struct ContributionEvent {
    pub trip_id: u64,
    pub participant: AccountId,
    pub amount: i128,
    pub new_balance: i128,
    pub total: i128,
}

#[derive(Clone, Copy, PartialEq, Eq, Debug, Structural)]
pub struct WithdrawalEvent {
    pub trip_id: u64,
    pub participant: AccountId,
    pub refund: i128,
    pub penalty: i128,
}

#[derive(Clone, Copy, PartialEq, Eq, Debug, Structural)]
pub struct ReleasedEvent {
    pub trip_id: u64,
    pub organizer: AccountId,
    pub amount: i128,
}

#[derive(Clone, Copy, PartialEq, Eq, Debug, Structural)]
pub struct CancelledEvent {
    pub trip_id: u64,
    pub timestamp: u64,
}

#[derive(Clone, Copy, PartialEq, Eq, Debug, Structural)]
pub struct InvoiceModifiedEvent {
    pub trip_id: u64,
    pub version: u32,
}

#[derive(Clone, Copy, PartialEq, Eq, Debug, Structural)]
pub struct ConfirmReleaseEvent {
    pub trip_id: u64,
    pub participant: AccountId,
    pub confirmations: u32,
    pub required: u32,
}

#[derive(Clone, Copy, PartialEq, Eq, Debug, Structural)]
pub struct DeadlineExpiredEvent {
    pub trip_id: u64,
    pub timestamp: u64,
    pub refunded_participants: u32,
}

/// A record for the host's event sink.
#[derive(Clone, Copy, PartialEq, Eq, Debug, Structural)]
pub enum Event {
    TripCreated(TripCreatedEvent),
    Contribution(ContributionEvent),
    Withdrawal(WithdrawalEvent),
    Released(ReleasedEvent),
    Cancelled(CancelledEvent),
    InvoiceModified(InvoiceModifiedEvent),
    ConfirmRelease(ConfirmReleaseEvent),
    DeadlineExpired(DeadlineExpiredEvent),
}

/// What a successful operation hands back: the trip it addressed, the
/// transfers out of the pool to perform, and the events to publish.
pub struct Outcome {
    pub trip_id: u64,
    pub payouts: Vec<Payout>,
    pub events: Vec<Event>,
}

} // verus!
