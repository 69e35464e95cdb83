//! The escrow: every trip, each addressed by the identifier it got at
//! creation, with operations that touch only the trip they address.
use vstd::prelude::*;
use crate::types::{
    AccountId, Config, EscrowError, Member, Event, Outcome, Recipient, State, Status, TripCreatedEvent,
    TripInfo, MAX_TRIPS,
};
use crate::ledger::{balance_of, confirmed_of, lemma_index_of, penalty_of};
use crate::trip::{
    cancel_post, claim_post, config_check, confirm_post, contribute_post, find_member,
    release_post, update_post, withdraw_post, Trip,
};

verus! {

/// All trips. A trip's identifier is its position: identifiers are handed
/// out in order from zero and never reused.
pub struct CotravelEscrow {
    pub trips: Vec<Trip>,
}

/// The first reason, in the order they are checked, why a trip is not created
/// in an escrow that already holds `count` trips.
pub open spec fn create_check(
    count: int,
    target_amount: i128,
    min_participants: u32,
    penalty_percent: u32,
    rs: Seq<Recipient>,
) -> Result<(), EscrowError> {
    match config_check(target_amount, min_participants, penalty_percent, rs) {
        Err(e) => Err(e),
        Ok(_) => if count >= MAX_TRIPS {
            Err(EscrowError::MaxTripsReached)
        } else {
            Ok(())
        },
    }
}

/// The identifier for a new trip in an escrow that holds `count` trips, as
/// long as the cap leaves room.
pub fn admit_trip(count: u64) -> (r: Result<u64, EscrowError>)
    ensures
        r == if count < MAX_TRIPS {
            Ok::<u64, EscrowError>(count)
        } else {
            Err(EscrowError::MaxTripsReached)
        },
{
    if count >= MAX_TRIPS {
        Err(EscrowError::MaxTripsReached)
    } else {
        Ok(count)
    }
}

impl CotravelEscrow {
    pub open spec fn wf(self) -> bool {
        &&& self.trips@.len() <= MAX_TRIPS
        &&& forall|i: int| 0 <= i < self.trips@.len() ==> (#[trigger] self.trips@[i]).wf()
    }

    /// `e2` differs from `self` at most in trip `id`.
    pub open spec fn others_unchanged(self, e2: CotravelEscrow, id: int) -> bool {
        &&& e2.trips@.len() == self.trips@.len()
        &&& forall|j: int| 0 <= j < self.trips@.len() && j != id ==> #[trigger] e2.trips@[j] == self.trips@[j]
    }

    pub open spec fn has_trip(self, id: u64) -> bool {
        id < self.trips@.len()
    }

    pub open spec fn trip(self, id: u64) -> Trip {
        self.trips@[id as int]
    }

    /// An escrow with no trip.
    pub fn new() -> (e: CotravelEscrow)
        ensures
            e.wf(),
            e.trips@.len() == 0,
    {
        CotravelEscrow { trips: Vec::new() }
    }

    /// Opens a trip and returns its identifier, the next one in order. With an
    /// empty recipient list the whole pool goes to the organizer on release.
    pub fn create_invoice(
        &mut self,
        organizer: AccountId,
        token: AccountId,
        target_amount: i128,
        min_participants: u32,
        deadline: u64,
        penalty_percent: u32,
        recipients: Vec<Recipient>,
        auto_release: bool,
    ) -> (r: Result<Outcome, EscrowError>)
        requires
            old(self).wf(),
        ensures
            final(self).wf(),
            match create_check(
                old(self).trips@.len() as int,
                target_amount,
                min_participants,
                penalty_percent,
                recipients@,
            ) {
                Err(e) => r == Err::<Outcome, EscrowError>(e) && final(self).trips@ == old(self).trips@,
                Ok(_) => {
                    let id = old(self).trips@.len();
                    let t = final(self).trips@[id as int];
                    &&& r is Ok
                    &&& r->Ok_0.trip_id == id
                    &&& r->Ok_0.payouts@.len() == 0
                    &&& r->Ok_0.events@ == seq![
                        Event::TripCreated(
                            TripCreatedEvent { trip_id: id as u64, organizer, target_amount },
                        ),
                    ]
                    &&& final(self).trips@.len() == id + 1
                    &&& final(self).trips@.subrange(0, id as int) == old(self).trips@
                    &&& t.config == (Config {
                        organizer,
                        token,
                        target_amount,
                        min_participants,
                        deadline,
                        penalty_percent,
                        auto_release,
                    })
                    &&& t.recipients@ == recipients@
                    &&& t.members@.len() == 0
                    &&& t.state == (State {
                        status: Status::Funding,
                        total_collected: 0,
                        participant_count: 0,
                        version: 0,
                        confirmation_count: 0,
                    })
                },
            },
    {
        let t = match Trip::open(
            organizer,
            token,
            target_amount,
            min_participants,
            deadline,
            penalty_percent,
            recipients,
            auto_release,
        ) {
            Ok(t) => t,
            Err(e) => {
                return Err(e);
            },
        };
        let trip_id = match admit_trip(self.trips.len() as u64) {
            Ok(id) => id,
            Err(e) => {
                return Err(e);
            },
        };
        let ghost old_trips = self.trips@;
        self.trips.push(t);
        assert(self.trips@.subrange(0, trip_id as int) =~= old_trips);
        let mut events: Vec<Event> = Vec::new();
        events.push(Event::TripCreated(TripCreatedEvent { trip_id, organizer, target_amount }));
        Ok(Outcome { trip_id, payouts: Vec::new(), events })
    }

    /// Opens a trip whose whole pool goes to the organizer, released by hand
    /// or by consent.
    pub fn create_trip(
        &mut self,
        organizer: AccountId,
        token: AccountId,
        target_amount: i128,
        min_participants: u32,
        deadline: u64,
        penalty_percent: u32,
    ) -> (r: Result<Outcome, EscrowError>)
        requires
            old(self).wf(),
        ensures
            final(self).wf(),
            match create_check(
                old(self).trips@.len() as int,
                target_amount,
                min_participants,
                penalty_percent,
                Seq::<Recipient>::empty(),
            ) {
                Err(e) => r == Err::<Outcome, EscrowError>(e) && final(self).trips@ == old(self).trips@,
                Ok(_) => {
                    let id = old(self).trips@.len();
                    let t = final(self).trips@[id as int];
                    &&& r is Ok
                    &&& r->Ok_0.trip_id == id
                    &&& r->Ok_0.payouts@.len() == 0
                    &&& r->Ok_0.events@ == seq![
                        Event::TripCreated(
                            TripCreatedEvent { trip_id: id as u64, organizer, target_amount },
                        ),
                    ]
                    &&& final(self).trips@.len() == id + 1
                    &&& final(self).trips@.subrange(0, id as int) == old(self).trips@
                    &&& t.config == (Config {
                        organizer,
                        token,
                        target_amount,
                        min_participants,
                        deadline,
                        penalty_percent,
                        auto_release: false,
                    })
                    &&& t.recipients@.len() == 0
                    &&& t.members@.len() == 0
                    &&& t.state == (State {
                        status: Status::Funding,
                        total_collected: 0,
                        participant_count: 0,
                        version: 0,
                        confirmation_count: 0,
                    })
                },
            },
    {
        let empty: Vec<Recipient> = Vec::new();
        proof {
            assert(empty@ =~= Seq::<Recipient>::empty());
        }
        self.create_invoice(
            organizer,
            token,
            target_amount,
            min_participants,
            deadline,
            penalty_percent,
            empty,
            false,
        )
    }

    /// Puts `amount` from `participant` into the trip's pool at time `now`.
    pub fn contribute(&mut self, trip_id: u64, participant: AccountId, amount: i128, now: u64) -> (r: Result<Outcome, EscrowError>)
        requires
            old(self).wf(),
        ensures
            final(self).wf(),
            !old(self).has_trip(trip_id) ==> r == Err::<Outcome, EscrowError>(EscrowError::TripNotFound)
                && final(self).trips@ == old(self).trips@,
            old(self).has_trip(trip_id) ==> old(self).others_unchanged(*final(self), trip_id as int)
                && contribute_post(old(self).trip(trip_id), final(self).trip(trip_id), trip_id, participant, amount, now, r),
    {
        if trip_id >= self.trips.len() as u64 {
            return Err(EscrowError::TripNotFound);
        }
        let i = trip_id as usize;
        let ghost old_trips = self.trips@;
        let mut t = self.trips.remove(i);
        assert(t.wf());
        let r = t.contribute(trip_id, participant, amount, now);
        self.trips.insert(i, t);
        assert(self.trips@ =~= old_trips.update(i as int, t));
        r
    }

    /// Lets `participant` leave the trip, less the penalty where one applies.
    pub fn withdraw(&mut self, trip_id: u64, participant: AccountId) -> (r: Result<Outcome, EscrowError>)
        requires
            old(self).wf(),
        ensures
            final(self).wf(),
            !old(self).has_trip(trip_id) ==> r == Err::<Outcome, EscrowError>(EscrowError::TripNotFound)
                && final(self).trips@ == old(self).trips@,
            old(self).has_trip(trip_id) ==> old(self).others_unchanged(*final(self), trip_id as int)
                && withdraw_post(old(self).trip(trip_id), final(self).trip(trip_id), trip_id, participant, r),
    {
        if trip_id >= self.trips.len() as u64 {
            return Err(EscrowError::TripNotFound);
        }
        let i = trip_id as usize;
        let ghost old_trips = self.trips@;
        let mut t = self.trips.remove(i);
        assert(t.wf());
        let r = t.withdraw(trip_id, participant);
        self.trips.insert(i, t);
        assert(self.trips@ =~= old_trips.update(i as int, t));
        r
    }

    /// Pays out a completed trip (the organizer's manual release).
    pub fn release(&mut self, trip_id: u64) -> (r: Result<Outcome, EscrowError>)
        requires
            old(self).wf(),
        ensures
            final(self).wf(),
            !old(self).has_trip(trip_id) ==> r == Err::<Outcome, EscrowError>(EscrowError::TripNotFound)
                && final(self).trips@ == old(self).trips@,
            old(self).has_trip(trip_id) ==> old(self).others_unchanged(*final(self), trip_id as int)
                && release_post(old(self).trip(trip_id), final(self).trip(trip_id), trip_id, r),
    {
        if trip_id >= self.trips.len() as u64 {
            return Err(EscrowError::TripNotFound);
        }
        let i = trip_id as usize;
        let ghost old_trips = self.trips@;
        let mut t = self.trips.remove(i);
        assert(t.wf());
        let r = t.release(trip_id);
        self.trips.insert(i, t);
        assert(self.trips@ =~= old_trips.update(i as int, t));
        r
    }

    /// Refunds everyone and closes the trip (the organizer's escape hatch).
    pub fn cancel(&mut self, trip_id: u64, now: u64) -> (r: Result<Outcome, EscrowError>)
        requires
            old(self).wf(),
        ensures
            final(self).wf(),
            !old(self).has_trip(trip_id) ==> r == Err::<Outcome, EscrowError>(EscrowError::TripNotFound)
                && final(self).trips@ == old(self).trips@,
            old(self).has_trip(trip_id) ==> old(self).others_unchanged(*final(self), trip_id as int)
                && cancel_post(old(self).trip(trip_id), final(self).trip(trip_id), trip_id, now, r),
    {
        if trip_id >= self.trips.len() as u64 {
            return Err(EscrowError::TripNotFound);
        }
        let i = trip_id as usize;
        let ghost old_trips = self.trips@;
        let mut t = self.trips.remove(i);
        assert(t.wf());
        let r = t.cancel(trip_id, now);
        self.trips.insert(i, t);
        assert(self.trips@ =~= old_trips.update(i as int, t));
        r
    }

    /// Records `participant`'s consent; the last consent pays the trip out.
    pub fn confirm_release(&mut self, trip_id: u64, participant: AccountId) -> (r: Result<Outcome, EscrowError>)
        requires
            old(self).wf(),
        ensures
            final(self).wf(),
            !old(self).has_trip(trip_id) ==> r == Err::<Outcome, EscrowError>(EscrowError::TripNotFound)
                && final(self).trips@ == old(self).trips@,
            old(self).has_trip(trip_id) ==> old(self).others_unchanged(*final(self), trip_id as int)
                && confirm_post(old(self).trip(trip_id), final(self).trip(trip_id), trip_id, participant, r),
    {
        if trip_id >= self.trips.len() as u64 {
            return Err(EscrowError::TripNotFound);
        }
        let i = trip_id as usize;
        let ghost old_trips = self.trips@;
        let mut t = self.trips.remove(i);
        assert(t.wf());
        let r = t.confirm_release(trip_id, participant);
        self.trips.insert(i, t);
        assert(self.trips@ =~= old_trips.update(i as int, t));
        r
    }

    /// Refunds everyone of a trip still funding after its deadline; anyone may ask.
    pub fn claim_deadline(&mut self, trip_id: u64, now: u64) -> (r: Result<Outcome, EscrowError>)
        requires
            old(self).wf(),
        ensures
            final(self).wf(),
            !old(self).has_trip(trip_id) ==> r == Err::<Outcome, EscrowError>(EscrowError::TripNotFound)
                && final(self).trips@ == old(self).trips@,
            old(self).has_trip(trip_id) ==> old(self).others_unchanged(*final(self), trip_id as int)
                && claim_post(old(self).trip(trip_id), final(self).trip(trip_id), trip_id, now, r),
    {
        if trip_id >= self.trips.len() as u64 {
            return Err(EscrowError::TripNotFound);
        }
        let i = trip_id as usize;
        let ghost old_trips = self.trips@;
        let mut t = self.trips.remove(i);
        assert(t.wf());
        let r = t.claim_deadline(trip_id, now);
        self.trips.insert(i, t);
        assert(self.trips@ =~= old_trips.update(i as int, t));
        r
    }

    /// Replaces the trip's recipient list (organizer only) and bumps its version.
    pub fn update_recipients(&mut self, trip_id: u64, new_recipients: Vec<Recipient>) -> (r: Result<Outcome, EscrowError>)
        requires
            old(self).wf(),
        ensures
            final(self).wf(),
            !old(self).has_trip(trip_id) ==> r == Err::<Outcome, EscrowError>(EscrowError::TripNotFound)
                && final(self).trips@ == old(self).trips@,
            old(self).has_trip(trip_id) ==> old(self).others_unchanged(*final(self), trip_id as int)
                && update_post(old(self).trip(trip_id), final(self).trip(trip_id), trip_id, new_recipients@, r),
    {
        if trip_id >= self.trips.len() as u64 {
            return Err(EscrowError::TripNotFound);
        }
        let i = trip_id as usize;
        let ghost old_trips = self.trips@;
        let mut t = self.trips.remove(i);
        assert(t.wf());
        let r = t.update_recipients(trip_id, new_recipients);
        self.trips.insert(i, t);
        assert(self.trips@ =~= old_trips.update(i as int, t));
        r
    }

    /// Number of trips created so far.
    pub fn get_trip_count(&self) -> (r: u64)
        requires
            self.wf(),
        ensures
            r == self.trips@.len(),
    {
        self.trips.len() as u64
    }

    /// Identifiers of all trips, in order of creation.
    pub fn get_trips(&self) -> (r: Vec<u64>)
        requires
            self.wf(),
        ensures
            r@.len() == self.trips@.len(),
            forall|i: int| 0 <= i < r@.len() ==> #[trigger] r@[i] == i,
    {
        let mut ids: Vec<u64> = Vec::new();
        let n = self.trips.len() as u64;
        let mut k: u64 = 0;
        while k < n
            invariant
                k <= n,
                n == self.trips@.len(),
                ids@.len() == k,
                forall|i: int| 0 <= i < k ==> #[trigger] ids@[i] == i,
            decreases n - k,
        {
            ids.push(k);
            k = k + 1;
        }
        ids
    }

    /// Summary of one trip.
    pub fn get_trip(&self, trip_id: u64) -> (r: Result<TripInfo, EscrowError>)
        requires
            self.wf(),
        ensures
            r == if self.has_trip(trip_id) {
                Ok(
                    TripInfo {
                        trip_id,
                        organizer: self.trip(trip_id).config.organizer,
                        target_amount: self.trip(trip_id).config.target_amount,
                        status: self.trip(trip_id).state.status,
                        total_collected: self.trip(trip_id).state.total_collected,
                        participant_count: self.trip(trip_id).state.participant_count,
                    },
                )
            } else {
                Err::<TripInfo, EscrowError>(EscrowError::TripNotFound)
            },
    {
        if trip_id >= self.trips.len() as u64 {
            return Err(EscrowError::TripNotFound);
        }
        let t = &self.trips[trip_id as usize];
        Ok(
            TripInfo {
                trip_id,
                organizer: t.config.organizer,
                target_amount: t.config.target_amount,
                status: t.state.status,
                total_collected: t.state.total_collected,
                participant_count: t.state.participant_count,
            },
        )
    }

    /// Configuration of one trip.
    pub fn get_config(&self, trip_id: u64) -> (r: Result<Config, EscrowError>)
        requires
            self.wf(),
        ensures
            r == if self.has_trip(trip_id) {
                Ok(self.trip(trip_id).config)
            } else {
                Err::<Config, EscrowError>(EscrowError::TripNotFound)
            },
    {
        if trip_id >= self.trips.len() as u64 {
            return Err(EscrowError::TripNotFound);
        }
        Ok(self.trips[trip_id as usize].config)
    }

    /// State of one trip.
    pub fn get_state(&self, trip_id: u64) -> (r: Result<State, EscrowError>)
        requires
            self.wf(),
        ensures
            r == if self.has_trip(trip_id) {
                Ok(self.trip(trip_id).state)
            } else {
                Err::<State, EscrowError>(EscrowError::TripNotFound)
            },
    {
        if trip_id >= self.trips.len() as u64 {
            return Err(EscrowError::TripNotFound);
        }
        Ok(self.trips[trip_id as usize].state)
    }

    /// Current balance of `participant` in a trip; zero where there is none.
    pub fn get_balance(&self, trip_id: u64, participant: AccountId) -> (r: i128)
        requires
            self.wf(),
        ensures
            r == if self.has_trip(trip_id) {
                balance_of(self.trip(trip_id).members@, participant)
            } else {
                0
            },
    {
        if trip_id >= self.trips.len() as u64 {
            return 0;
        }
        let t = &self.trips[trip_id as usize];
        match find_member(&t.members, participant) {
            Some(i) => {
                proof {
                    lemma_index_of(t.members@, participant, i as int);
                }
                t.members[i].balance
            },
            None => 0,
        }
    }

    /// Every account that ever contributed to a trip, in order of first contribution.
    pub fn get_participants(&self, trip_id: u64) -> (r: Vec<AccountId>)
        requires
            self.wf(),
        ensures
            self.has_trip(trip_id) ==> r@ == self.trip(trip_id).members@.map_values(
                |m: Member| m.account,
            ),
            !self.has_trip(trip_id) ==> r@.len() == 0,
    {
        let mut accounts: Vec<AccountId> = Vec::new();
        if trip_id >= self.trips.len() as u64 {
            return accounts;
        }
        let t = &self.trips[trip_id as usize];
        let mut i: usize = 0;
        while i < t.members.len()
            invariant
                i <= t.members@.len(),
                accounts@ == t.members@.subrange(0, i as int).map_values(|m: Member| m.account),
            decreases t.members@.len() - i,
        {
            accounts.push(t.members[i].account);
            proof {
                assert(t.members@.subrange(0, i + 1).map_values(|m: Member| m.account)
                    =~= t.members@.subrange(0, i as int).map_values(|m: Member| m.account).push(
                    t.members@[i as int].account,
                ));
            }
            i = i + 1;
        }
        assert(t.members@.subrange(0, t.members@.len() as int) =~= t.members@);
        accounts
    }

    /// Recipient list of a trip; empty where there is no such trip.
    pub fn get_recipients(&self, trip_id: u64) -> (r: Vec<Recipient>)
        requires
            self.wf(),
        ensures
            self.has_trip(trip_id) ==> r@ == self.trip(trip_id).recipients@,
            !self.has_trip(trip_id) ==> r@.len() == 0,
    {
        let mut rs: Vec<Recipient> = Vec::new();
        if trip_id >= self.trips.len() as u64 {
            return rs;
        }
        let t = &self.trips[trip_id as usize];
        let mut i: usize = 0;
        while i < t.recipients.len()
            invariant
                i <= t.recipients@.len(),
                rs@ == t.recipients@.subrange(0, i as int),
            decreases t.recipients@.len() - i,
        {
            rs.push(t.recipients[i]);
            proof {
                assert(t.recipients@.subrange(0, i + 1) =~= t.recipients@.subrange(0, i as int).push(
                    t.recipients@[i as int],
                ));
            }
            i = i + 1;
        }
        assert(t.recipients@.subrange(0, t.recipients@.len() as int) =~= t.recipients@);
        rs
    }

    /// Whether `participant` consented to release a trip.
    pub fn get_confirmation(&self, trip_id: u64, participant: AccountId) -> (r: bool)
        requires
            self.wf(),
        ensures
            r == (self.has_trip(trip_id) && confirmed_of(self.trip(trip_id).members@, participant)),
    {
        if trip_id >= self.trips.len() as u64 {
            return false;
        }
        let t = &self.trips[trip_id as usize];
        match find_member(&t.members, participant) {
            Some(i) => {
                proof {
                    lemma_index_of(t.members@, participant, i as int);
                }
                t.members[i].confirmed
            },
            None => false,
        }
    }

    /// Penalties withheld so far from `participant` in a trip and not yet refunded.
    pub fn get_penalty(&self, trip_id: u64, participant: AccountId) -> (r: i128)
        requires
            self.wf(),
        ensures
            r == if self.has_trip(trip_id) {
                penalty_of(self.trip(trip_id).members@, participant)
            } else {
                0
            },
    {
        if trip_id >= self.trips.len() as u64 {
            return 0;
        }
        let t = &self.trips[trip_id as usize];
        match find_member(&t.members, participant) {
            Some(i) => {
                proof {
                    lemma_index_of(t.members@, participant, i as int);
                }
                t.members[i].penalty
            },
            None => 0,
        }
    }
}

} // verus!
