//! The ticket registry: minting (paid for in points), redeeming, transferring
//! and removing tickets.
use vstd::prelude::*;
use crate::lists::{remove_id, without};
use crate::pallet::{Pallet, TicketRegistry};
use crate::types::{
    AccountId, BlockNumber, Error, Event, Ticket, TicketType, MAX_STRING_LEN,
};

verus! {

broadcast use vstd::std_specs::hash::group_hash_axioms;

/// A ticket that has an expiry at or before `now`.
pub open spec fn ticket_expired(t: Ticket, now: BlockNumber) -> bool {
    match t.expires_at {
        Some(e) => e <= now,
        None => false,
    }
}

/// The ids of `ids` that a sweep at `now` keeps: those whose ticket is missing
/// or not expired.
pub open spec fn unexpired_ids(ids: Seq<u128>, tickets: Map<u128, Ticket>, now: BlockNumber) -> Seq<u128>
    decreases ids.len(),
{
    if ids.len() == 0 {
        ids
    } else if tickets.contains_key(ids.last()) && ticket_expired(tickets[ids.last()], now) {
        unexpired_ids(ids.drop_last(), tickets, now)
    } else {
        unexpired_ids(ids.drop_last(), tickets, now).push(ids.last())
    }
}

/// Whether a byte string fits in a ticket field.
pub open spec fn fits(b: Seq<u8>) -> bool {
    b.len() <= MAX_STRING_LEN
}

impl TicketRegistry {
    /// The ticket ids that `a` owns, in the order acquired.
    pub open spec fn tickets_of(&self, a: AccountId) -> Seq<u128> {
        if self.user_tickets@.contains_key(a) {
            self.user_tickets@[a]@
        } else {
            Seq::empty()
        }
    }

    /// Every ticket is stored under its own id, and ids below the next one.
    pub open spec fn wf(&self) -> bool {
        forall|id: u128| #[trigger] self.tickets@.contains_key(id) ==> id < self.next_ticket_id && self.tickets@[id].id == id
    }
}

impl Pallet {
    /// The result `mint_ticket` gives on the current state.
    pub open spec fn mint_result(
        &self,
        issuer: AccountId,
        owner: AccountId,
        points_cost: u128,
        fields: Seq<Seq<u8>>,
    ) -> Result<(), Error> {
        if !self.access.is_issuer(issuer) {
            Err(Error::NotAuthorizedIssuer)
        } else if points_cost > 0 && self.spend_result(owner, points_cost) is Err {
            Err(Error::InsufficientPoints)
        } else if exists|i: int| 0 <= i < fields.len() && !fits(#[trigger] fields[i]) {
            Err(Error::StringTooLong)
        } else if self.tickets.tickets_of(owner).len() >= self.config.max_tickets_per_user {
            Err(Error::TooManyTickets)
        } else if self.tickets.next_ticket_id == u128::MAX {
            Err(Error::ArithmeticOverflow)
        } else {
            Ok(())
        }
    }

    /// Returns `Err(StringTooLong)` unless every field fits.
    fn check_lengths(fields: &[&Vec<u8>; 8]) -> (r: Result<(), Error>)
        ensures
            r == (if exists|i: int| 0 <= i < 8 && !fits(#[trigger] fields@[i]@) {
                Err(Error::StringTooLong)
            } else {
                Ok(())
            }),
    {
        let mut i: usize = 0;
        while i < 8
            invariant
                0 <= i <= 8,
                forall|k: int| 0 <= k < i ==> fits(#[trigger] fields@[k]@),
            decreases 8 - i,
        {
            if fields[i].len() > MAX_STRING_LEN {
                return Err(Error::StringTooLong);
            }
            i = i + 1;
        }
        Ok(())
    }

    /// Mints a ticket for `owner`, paid for with `points_cost` points of the
    /// owner (spent through `issuer`, oldest expiry first). Authorized issuers only.
    pub fn mint_ticket(
        &mut self,
        issuer: AccountId,
        owner: AccountId,
        ticket_type: TicketType,
        points_cost: u128,
        expires_at: Option<BlockNumber>,
        passenger_name: Vec<u8>,
        travel_number: Vec<u8>,
        gate: Vec<u8>,
        seat: Vec<u8>,
        departure: Vec<u8>,
        arrival: Vec<u8>,
        departure_time: Vec<u8>,
        metadata: Vec<u8>,
    ) -> (r: Result<(), Error>)
        requires
            old(self).wf(),
        ensures
            final(self).wf(),
            r == old(self).mint_result(issuer, owner, points_cost, seq![
                passenger_name@, travel_number@, gate@, seat@, departure@, arrival@, departure_time@, metadata@,
            ]),
            (r is Err) ==> *final(self) == *old(self),
            (r is Ok) ==> {
                let id = old(self).tickets.next_ticket_id;
                let t = final(self).tickets.tickets@[id];
                &&& final(self).tickets.next_ticket_id == id + 1
                &&& !old(self).tickets.tickets@.contains_key(id)
                &&& final(self).tickets.tickets@ == old(self).tickets.tickets@.insert(id, t)
                &&& t.id == id && t.owner == owner && t.issuer == issuer && t.ticket_type == ticket_type
                &&& t.created_at == old(self).block_number && t.expires_at == expires_at
                &&& t.points_cost == points_cost && !t.is_redeemed
                &&& t.passenger_name@ == passenger_name@ && t.travel_number@ == travel_number@
                &&& t.gate@ == gate@ && t.seat@ == seat@ && t.departure@ == departure@
                &&& t.arrival@ == arrival@ && t.departure_time@ == departure_time@ && t.metadata@ == metadata@
                &&& final(self).tickets.tickets_of(owner) == old(self).tickets.tickets_of(owner).push(id)
                &&& final(self).tickets.user_tickets@.remove(owner) == old(self).tickets.user_tickets@.remove(owner)
                &&& final(self).staking == old(self).staking
                &&& final(self).pools == old(self).pools
                &&& final(self).config == old(self).config
                &&& final(self).block_number == old(self).block_number
                &&& final(self).access == old(self).access
                &&& points_cost > 0 ==> {
                    &&& final(self).spend_effects(old(self), owner, points_cost, issuer)
                    &&& final(self).events@ == old(self).events@ + old(self).spend_events(owner, points_cost, issuer)
                        + seq![Event::TicketMinted { ticket_id: id, owner, issuer, ticket_type, points_cost }]
                }
                &&& points_cost == 0 ==> {
                    &&& final(self).points == old(self).points
                    &&& final(self).rewards == old(self).rewards
                    &&& final(self).events@ == old(self).events@.push(
                        Event::TicketMinted { ticket_id: id, owner, issuer, ticket_type, points_cost },
                    )
                }
            },
    {
        let ghost fields = seq![
            passenger_name@, travel_number@, gate@, seat@, departure@, arrival@, departure_time@, metadata@,
        ];
        if !self.contract_is_authorized_issuer(issuer) {
            return Err(Error::NotAuthorizedIssuer);
        }
        if points_cost > 0 && self.live_total(owner) < points_cost {
            return Err(Error::InsufficientPoints);
        }
        let checked = Self::check_lengths(
            &[&passenger_name, &travel_number, &gate, &seat, &departure, &arrival, &departure_time, &metadata],
        );
        proof {
            let arr = [&passenger_name, &travel_number, &gate, &seat, &departure, &arrival, &departure_time, &metadata];
            assert forall|i: int| 0 <= i < 8 implies #[trigger] fields[i] == arr@[i]@ by {}
        }
        checked?;
        let owned = self.owned_ticket_ids(owner);
        if owned.len() >= self.config.max_tickets_per_user as usize {
            return Err(Error::TooManyTickets);
        }
        let ticket_id = self.tickets.next_ticket_id;
        if ticket_id == u128::MAX {
            return Err(Error::ArithmeticOverflow);
        }
        if points_cost > 0 {
            let spent = self.spend_points_internal(owner, points_cost, issuer);
            proof {
                assert(spent is Ok);
            }
        }
        let ghost mid = self.events@;
        let ticket = Ticket {
            id: ticket_id,
            owner,
            issuer,
            ticket_type,
            created_at: self.block_number,
            expires_at,
            points_cost,
            is_redeemed: false,
            passenger_name,
            travel_number,
            gate,
            seat,
            departure,
            arrival,
            departure_time,
            metadata,
        };
        self.tickets.next_ticket_id = ticket_id + 1;
        self.tickets.tickets.insert(ticket_id, ticket);
        let mut owned = owned;
        owned.push(ticket_id);
        self.tickets.user_tickets.insert(owner, owned);
        self.events.push(Event::TicketMinted { ticket_id, owner, issuer, ticket_type, points_cost });
        proof {
            assert(self.tickets.user_tickets@.remove(owner) =~= old(self).tickets.user_tickets@.remove(owner));
            assert(self.tickets.tickets@ =~= old(self).tickets.tickets@.insert(ticket_id, self.tickets.tickets@[ticket_id]));
            if points_cost == 0 {
                assert(self.events@ =~= old(self).events@.push(
                    Event::TicketMinted { ticket_id, owner, issuer, ticket_type, points_cost },
                ));
            } else {
                assert(self.events@ =~= old(self).events@ + old(self).spend_events(owner, points_cost, issuer)
                    + seq![Event::TicketMinted { ticket_id, owner, issuer, ticket_type, points_cost }]);
            }
        }
        Ok(())
    }

    /// The ticket ids that `a` owns.
    fn owned_ticket_ids(&self, a: AccountId) -> (r: Vec<u128>)
        ensures
            r@ == self.tickets.tickets_of(a),
    {
        match self.tickets.user_tickets.get(&a) {
            Some(v) => {
                let mut out: Vec<u128> = Vec::new();
                let mut i: usize = 0;
                while i < v.len()
                    invariant
                        0 <= i <= v@.len(),
                        out@ == v@.take(i as int),
                    decreases v@.len() - i,
                {
                    out.push(v[i]);
                    proof {
                        assert(v@.take(i + 1) =~= v@.take(i as int).push(v@[i as int]));
                    }
                    i = i + 1;
                }
                proof {
                    assert(v@.take(v@.len() as int) =~= v@);
                }
                out
            },
            None => Vec::new(),
        }
    }

    /// The ticket with id `id`, if there is one.
    pub fn get_ticket(&self, id: u128) -> (r: Option<&Ticket>)
        ensures
            r == (if self.tickets.tickets@.contains_key(id) { Some(&self.tickets.tickets@[id]) } else { None::<&Ticket> }),
    {
        self.tickets.tickets.get(&id)
    }

    /// The ticket ids that `a` owns, in the order acquired.
    pub fn get_user_tickets(&self, a: AccountId) -> (r: Vec<u128>)
        ensures
            r@ == self.tickets.tickets_of(a),
    {
        self.owned_ticket_ids(a)
    }

    /// The id the next minted ticket gets.
    pub fn next_ticket_id(&self) -> (r: u128)
        ensures
            r == self.tickets.next_ticket_id,
    {
        self.tickets.next_ticket_id
    }

    /// The result `redeem_ticket` gives on the current state.
    pub open spec fn redeem_result(&self, caller: AccountId, id: u128) -> Result<(), Error> {
        let t = self.tickets.tickets@[id];
        if !self.tickets.tickets@.contains_key(id) {
            Err(Error::TicketNotFound)
        } else if t.owner != caller {
            Err(Error::NotTicketOwner)
        } else if t.is_redeemed {
            Err(Error::TicketAlreadyRedeemed)
        } else if ticket_expired(t, self.block_number) {
            Err(Error::TicketExpired)
        } else {
            Ok(())
        }
    }

    /// The owner uses ticket `id`. A ticket can be used once, and not at or
    /// after its expiry.
    pub fn redeem_ticket(&mut self, caller: AccountId, id: u128) -> (r: Result<(), Error>)
        requires
            old(self).wf(),
        ensures
            final(self).wf(),
            r == old(self).redeem_result(caller, id),
            (r is Err) ==> *final(self) == *old(self),
            (r is Ok) ==> {
                let t = old(self).tickets.tickets@[id];
                &&& final(self).tickets.tickets@ == old(self).tickets.tickets@.insert(id, Ticket { is_redeemed: true, ..t })
                &&& final(self).tickets.user_tickets == old(self).tickets.user_tickets
                &&& final(self).tickets.next_ticket_id == old(self).tickets.next_ticket_id
                &&& final(self).events@ == old(self).events@.push(Event::TicketRedeemed { ticket_id: id, owner: caller })
                &&& final(self).unchanged_but_tickets(old(self))
            },
    {
        match self.tickets.tickets.get(&id) {
            None => {
                return Err(Error::TicketNotFound);
            },
            Some(t) => {
                if t.owner != caller {
                    return Err(Error::NotTicketOwner);
                }
                if t.is_redeemed {
                    return Err(Error::TicketAlreadyRedeemed);
                }
                match t.expires_at {
                    Some(e) => {
                        if self.block_number >= e {
                            return Err(Error::TicketExpired);
                        }
                    },
                    None => {},
                }
            },
        }
        let removed = self.tickets.tickets.remove(&id);
        match removed {
            Some(mut t) => {
                t.is_redeemed = true;
                self.tickets.tickets.insert(id, t);
            },
            None => {},
        }
        self.events.push(Event::TicketRedeemed { ticket_id: id, owner: caller });
        proof {
            assert(self.tickets.tickets@ =~= old(self).tickets.tickets@.insert(
                id,
                Ticket { is_redeemed: true, ..old(self).tickets.tickets@[id] },
            ));
        }
        Ok(())
    }

    /// Everything but the ticket registry and the events is as in `old`.
    pub open spec fn unchanged_but_tickets(&self, old: &Self) -> bool {
        &&& self.config == old.config
        &&& self.block_number == old.block_number
        &&& self.points == old.points
        &&& self.access == old.access
        &&& self.rewards == old.rewards
        &&& self.staking == old.staking
        &&& self.pools == old.pools
    }

    /// The result `transfer_ticket` gives on the current state.
    pub open spec fn transfer_result(&self, from: AccountId, id: u128, to: AccountId) -> Result<(), Error> {
        let t = self.tickets.tickets@[id];
        let base = if to == from {
            without(self.tickets.tickets_of(from), id)
        } else {
            self.tickets.tickets_of(to)
        };
        if !self.tickets.tickets@.contains_key(id) {
            Err(Error::TicketNotFound)
        } else if t.owner != from {
            Err(Error::NotTicketOwner)
        } else if t.is_redeemed {
            Err(Error::TicketAlreadyRedeemed)
        } else if base.len() >= self.config.max_tickets_per_user {
            Err(Error::TooManyTickets)
        } else {
            Ok(())
        }
    }

    /// The owner hands ticket `id` to `to`. A used ticket cannot be handed on.
    pub fn transfer_ticket(&mut self, from: AccountId, id: u128, to: AccountId) -> (r: Result<(), Error>)
        requires
            old(self).wf(),
        ensures
            final(self).wf(),
            r == old(self).transfer_result(from, id, to),
            (r is Err) ==> *final(self) == *old(self),
            (r is Ok) ==> {
                let t = old(self).tickets.tickets@[id];
                let from_list = without(old(self).tickets.tickets_of(from), id);
                &&& final(self).tickets.tickets@ == old(self).tickets.tickets@.insert(id, Ticket { owner: to, ..t })
                &&& to != from ==> final(self).tickets.tickets_of(from) == from_list
                &&& to != from ==> final(self).tickets.tickets_of(to) == old(self).tickets.tickets_of(to).push(id)
                &&& to == from ==> final(self).tickets.tickets_of(to) == from_list.push(id)
                &&& forall|a: AccountId| a != from && a != to ==> #[trigger] final(self).tickets.tickets_of(a) == old(self).tickets.tickets_of(a)
                &&& final(self).tickets.next_ticket_id == old(self).tickets.next_ticket_id
                &&& final(self).events@ == old(self).events@.push(Event::TicketTransferred { ticket_id: id, from, to })
                &&& final(self).unchanged_but_tickets(old(self))
            },
    {
        match self.tickets.tickets.get(&id) {
            None => {
                return Err(Error::TicketNotFound);
            },
            Some(t) => {
                if t.owner != from {
                    return Err(Error::NotTicketOwner);
                }
                if t.is_redeemed {
                    return Err(Error::TicketAlreadyRedeemed);
                }
            },
        }
        let from_list = remove_id(&self.owned_ticket_ids(from), id);
        let mut to_list = if to == from {
            remove_id(&self.owned_ticket_ids(from), id)
        } else {
            self.owned_ticket_ids(to)
        };
        if to_list.len() >= self.config.max_tickets_per_user as usize {
            return Err(Error::TooManyTickets);
        }
        to_list.push(id);
        let removed = self.tickets.tickets.remove(&id);
        match removed {
            Some(mut t) => {
                t.owner = to;
                self.tickets.tickets.insert(id, t);
            },
            None => {},
        }
        self.tickets.user_tickets.insert(from, from_list);
        self.tickets.user_tickets.insert(to, to_list);
        self.events.push(Event::TicketTransferred { ticket_id: id, from, to });
        proof {
            assert(self.tickets.tickets@ =~= old(self).tickets.tickets@.insert(
                id,
                Ticket { owner: to, ..old(self).tickets.tickets@[id] },
            ));
        }
        Ok(())
    }

    /// Removes ticket `id` from the registry and from its owner's list.
    fn remove_ticket(&mut self, id: u128, owner: AccountId)
        requires
            old(self).wf(),
        ensures
            final(self).wf(),
            final(self).tickets.tickets@ == old(self).tickets.tickets@.remove(id),
            final(self).tickets.tickets_of(owner) == without(old(self).tickets.tickets_of(owner), id),
            final(self).tickets.user_tickets@.remove(owner) == old(self).tickets.user_tickets@.remove(owner),
            final(self).tickets.next_ticket_id == old(self).tickets.next_ticket_id,
            final(self).events == old(self).events,
            final(self).unchanged_but_tickets(old(self)),
    {
        let list = remove_id(&self.owned_ticket_ids(owner), id);
        self.tickets.tickets.remove(&id);
        self.tickets.user_tickets.insert(owner, list);
        proof {
            assert(self.tickets.user_tickets@.remove(owner) =~= old(self).tickets.user_tickets@.remove(owner));
        }
    }

    /// The result of removing ticket `id` on behalf of `caller`.
    pub open spec fn unmint_result(&self, caller: AccountId, id: u128) -> Result<(), Error> {
        if !self.tickets.tickets@.contains_key(id) {
            Err(Error::TicketNotFound)
        } else if self.tickets.tickets@[id].owner != caller {
            Err(Error::NotTicketOwner)
        } else {
            Ok(())
        }
    }

    /// The owner burns ticket `id`, used or not. Points paid for it are not returned.
    pub fn unmint_ticket(&mut self, caller: AccountId, id: u128) -> (r: Result<(), Error>)
        requires
            old(self).wf(),
        ensures
            final(self).wf(),
            r == old(self).unmint_result(caller, id),
            (r is Err) ==> *final(self) == *old(self),
            (r is Ok) ==> {
                &&& final(self).tickets.tickets@ == old(self).tickets.tickets@.remove(id)
                &&& final(self).tickets.tickets_of(caller) == without(old(self).tickets.tickets_of(caller), id)
                &&& final(self).tickets.user_tickets@.remove(caller) == old(self).tickets.user_tickets@.remove(caller)
                &&& final(self).tickets.next_ticket_id == old(self).tickets.next_ticket_id
                &&& final(self).events@ == old(self).events@.push(Event::TicketUnminted { ticket_id: id, owner: caller })
                &&& final(self).unchanged_but_tickets(old(self))
            },
    {
        match self.tickets.tickets.get(&id) {
            None => {
                return Err(Error::TicketNotFound);
            },
            Some(t) => {
                if t.owner != caller {
                    return Err(Error::NotTicketOwner);
                }
            },
        }
        self.remove_ticket(id, caller);
        self.events.push(Event::TicketUnminted { ticket_id: id, owner: caller });
        Ok(())
    }

    /// The result `force_unmint_ticket` gives on the current state.
    pub open spec fn force_unmint_result(&self, caller: AccountId, id: u128) -> Result<(), Error> {
        if !self.access.is_admin(caller) {
            Err(Error::NotAdmin)
        } else if !self.tickets.tickets@.contains_key(id) {
            Err(Error::TicketNotFound)
        } else {
            Ok(())
        }
    }

    /// The admin burns ticket `id`, whoever owns it.
    pub fn force_unmint_ticket(&mut self, caller: AccountId, id: u128) -> (r: Result<(), Error>)
        requires
            old(self).wf(),
        ensures
            final(self).wf(),
            r == old(self).force_unmint_result(caller, id),
            (r is Err) ==> *final(self) == *old(self),
            (r is Ok) ==> {
                let owner = old(self).tickets.tickets@[id].owner;
                &&& final(self).tickets.tickets@ == old(self).tickets.tickets@.remove(id)
                &&& final(self).tickets.tickets_of(owner) == without(old(self).tickets.tickets_of(owner), id)
                &&& final(self).tickets.user_tickets@.remove(owner) == old(self).tickets.user_tickets@.remove(owner)
                &&& final(self).tickets.next_ticket_id == old(self).tickets.next_ticket_id
                &&& final(self).events@ == old(self).events@.push(
                    Event::TicketForceUnminted { ticket_id: id, owner, admin: caller },
                )
                &&& final(self).unchanged_but_tickets(old(self))
            },
    {
        if !self.is_admin(caller) {
            return Err(Error::NotAdmin);
        }
        let owner = match self.tickets.tickets.get(&id) {
            None => {
                return Err(Error::TicketNotFound);
            },
            Some(t) => t.owner,
        };
        self.remove_ticket(id, owner);
        self.events.push(Event::TicketForceUnminted { ticket_id: id, owner, admin: caller });
        Ok(())
    }

    /// Removes the tickets of `user` that have expired at the current height.
    /// Tickets without an expiry stay. Anyone may call it.
    pub fn cleanup_expired_tickets(&mut self, caller: AccountId, user: AccountId) -> (r: Result<(), Error>)
        requires
            old(self).wf(),
        ensures
            final(self).wf(),
            r == Ok::<(), Error>(()),
            ({
                let ids = old(self).tickets.tickets_of(user);
                let old_map = old(self).tickets.tickets@;
                let now = old(self).block_number;
                let kept = unexpired_ids(ids, old_map, now);
                let removed = ids.len() - kept.len();
                &&& final(self).tickets.tickets_of(user) == kept
                &&& forall|id: u128| #[trigger] final(self).tickets.tickets@.contains_key(id) <==> (old_map.contains_key(id)
                    && !(ids.contains(id) && ticket_expired(old_map[id], now)))
                &&& forall|id: u128| #[trigger] final(self).tickets.tickets@.contains_key(id) ==> final(self).tickets.tickets@[id] == old_map[id]
                &&& final(self).tickets.user_tickets@.remove(user) == old(self).tickets.user_tickets@.remove(user)
                &&& final(self).tickets.next_ticket_id == old(self).tickets.next_ticket_id
                &&& final(self).events@ == old(self).events@ + (if removed > 0 {
                    seq![Event::ExpiredTicketsCleaned { user, tickets_removed: removed as u32 }]
                } else {
                    Seq::<Event>::empty()
                })
            }),
            final(self).unchanged_but_tickets(old(self)),
    {
        let now = self.block_number;
        let ids = self.owned_ticket_ids(user);
        let ghost old_map = self.tickets.tickets@;
        let mut kept: Vec<u128> = Vec::new();
        let mut i: usize = 0;
        while i < ids.len()
            invariant
                0 <= i <= ids@.len(),
                old_map == self.tickets.tickets@,
                kept@ == unexpired_ids(ids@.take(i as int), old_map, now),
                kept@.len() <= i,
            decreases ids@.len() - i,
        {
            let id = ids[i];
            proof {
                assert(ids@.take(i + 1).drop_last() =~= ids@.take(i as int));
            }
            let expired = match self.tickets.tickets.get(&id) {
                Some(t) => match t.expires_at {
                    Some(e) => e <= now,
                    None => false,
                },
                None => false,
            };
            if !expired {
                kept.push(id);
            }
            i = i + 1;
        }
        proof {
            assert(ids@.take(ids@.len() as int) =~= ids@);
        }
        let mut i: usize = 0;
        while i < ids.len()
            invariant
                0 <= i <= ids@.len(),
                ids@ == old(self).tickets.tickets_of(user),
                old_map == old(self).tickets.tickets@,
                now == old(self).block_number,
                self.wf(),
                forall|id: u128| #[trigger] self.tickets.tickets@.contains_key(id) <==> (old_map.contains_key(id)
                    && !(ids@.take(i as int).contains(id) && ticket_expired(old_map[id], now))),
                forall|id: u128| #[trigger] self.tickets.tickets@.contains_key(id) ==> self.tickets.tickets@[id] == old_map[id],
                self.tickets.user_tickets == old(self).tickets.user_tickets,
                self.tickets.next_ticket_id == old(self).tickets.next_ticket_id,
                self.events == old(self).events,
                self.unchanged_but_tickets(old(self)),
            decreases ids@.len() - i,
        {
            let id = ids[i];
            let expired = match self.tickets.tickets.get(&id) {
                Some(t) => match t.expires_at {
                    Some(e) => e <= now,
                    None => false,
                },
                None => false,
            };
            let ghost present_before = self.tickets.tickets@.contains_key(id);
            if expired {
                self.tickets.tickets.remove(&id);
            }
            proof {
                let t1 = ids@.take(i + 1);
                let t0 = ids@.take(i as int);
                assert forall|x: u128| t1.contains(x) <==> (t0.contains(x) || x == id) by {
                    if t1.contains(x) {
                        let k = choose|k: int| 0 <= k < t1.len() && t1[k] == x;
                        if k < i {
                            assert(t0[k] == x);
                        }
                    }
                    if t0.contains(x) {
                        let k = choose|k: int| 0 <= k < t0.len() && t0[k] == x;
                        assert(t1[k] == x);
                    }
                    if x == id {
                        assert(t1[i as int] == id);
                    }
                }
                if !expired {
                    if old_map.contains_key(id) && ticket_expired(old_map[id], now) {
                        assert(!present_before);
                        assert(t0.contains(id));
                    }
                }
            }
            i = i + 1;
        }
        proof {
            assert(ids@.take(ids@.len() as int) =~= ids@);
        }
        let removed = ids.len() - kept.len();
        self.tickets.user_tickets.insert(user, kept);
        if removed > 0 {
            let count = #[verifier::truncate] (removed as u32);
            self.events.push(Event::ExpiredTicketsCleaned { user, tickets_removed: count });
        }
        proof {
            assert(self.tickets.user_tickets@.remove(user) =~= old(self).tickets.user_tickets@.remove(user));
            assert(self.events@ =~= old(self).events@ + (if removed > 0 {
                seq![Event::ExpiredTicketsCleaned { user, tickets_removed: removed as u32 }]
            } else {
                Seq::<Event>::empty()
            }));
        }
        Ok(())
    }
}

} // verus!
