//! Offering a packet to the registrations it matches.

use vstd::prelude::*;

use super::handler::PacketHandler;
use super::interface_table::only_counts_differ;
use super::keys::{CaptureKey, RegistrationKey};
use super::sending::{Built, SendPlan};
use super::{
    law_keeping_composes, law_live_registrations_were_issued, law_steadiness_composes, DispatchState,
    PacketDispatcher, Registration,
};
use crate::arena::{lists_keys, Key};
use crate::counters::{
    fold_outcomes, law_highest_disposition_wins, law_one_reflection_makes_a_packet_reflected, Anomalies,
    Outcome,
};
use crate::net::{Ipv4Addr, MacAddr, Packet};

verus! {

/// Whether a captured frame is one of our own handed back by the link.
pub open spec fn is_own_echo_spec(src_mac: Option<MacAddr>, own_mac: Option<MacAddr>) -> bool {
    src_mac is Some && src_mac == own_mac && src_mac->0.bits() != 0
}

/// Whether a captured frame is one of our own handed back by the link: it comes from the ingress's
/// own hardware address. The all-zero address is exempt: a loopback has it and so has every frame
/// on it, so it identifies nothing.
pub fn is_own_echo(src_mac: Option<MacAddr>, own_mac: Option<MacAddr>) -> (r: bool)
    ensures
        r == is_own_echo_spec(src_mac, own_mac),
{
    match (src_mac, own_mac) {
        (Some(src), Some(own)) => src == own && !own.is_unspecified(),
        _ => false,
    }
}

/// Whether a registration is for this packet on this ingress.
pub open spec fn applies<H>(
    registration: Registration<H>,
    ingress: CaptureKey,
    packet: Packet,
    directed: Option<Ipv4Addr>,
) -> bool {
    registration.ingress == ingress && registration.filter.accepts(packet, directed)
}

/// What is offered, and to whom.
#[verifier::ext_equal]
pub struct Offer<'a> {
    pub packet: Packet<'a>,
    pub ingress: CaptureKey,
    /// The ingress's directed broadcast.
    pub directed: Option<Ipv4Addr>,
    /// The registrations live when the routing began.
    pub keys: Seq<Key>,
}

impl<'a> Offer<'a> {
    /// Whether a registration is for this packet on this ingress.
    pub open spec fn suits<H>(self, registration: Registration<H>) -> bool {
        applies(registration, self.ingress, self.packet, self.directed)
    }
}

/// The first of the offer's keys, at or after `from`, whose registration is live and for the packet.
pub open spec fn next_applying<H>(
    registrations: Map<Key, Registration<H>>,
    offer: Offer,
    from: int,
) -> Option<int>
    decreases offer.keys.len() - from,
{
    if from < 0 || from >= offer.keys.len() {
        None
    } else if registrations.contains_key(offer.keys[from]) && offer.suits(
        registrations[offer.keys[from]],
    ) {
        Some(from)
    } else {
        next_applying(registrations, offer, from + 1)
    }
}

/// Where the routing of one packet stands, as mathematical values.
#[verifier::ext_equal]
pub struct PassState<'a> {
    pub offer: Offer<'a>,
    /// How many of them had their turn.
    pub next: int,
    /// The one whose handler is being called.
    pub calling: Option<Key>,
    /// What the handlers called so far did, in order.
    pub outcomes: Seq<Outcome>,
}

/// The routing of one packet, from one handler's call to the next.
pub struct RoutePass<'a> {
    packet: Packet<'a>,
    ingress: CaptureKey,
    directed: Option<Ipv4Addr>,
    keys: Vec<Key>,
    next: usize,
    calling: Option<Key>,
    outcome: Option<Outcome>,
    outcomes: Ghost<Seq<Outcome>>,
}

impl<'a> RoutePass<'a> {
    /// Where the routing stands.
    pub closed spec fn view(&self) -> PassState<'a> {
        PassState {
            offer: Offer {
                packet: self.packet,
                ingress: self.ingress,
                directed: self.directed,
                keys: self.keys@,
            },
            next: self.next as int,
            calling: self.calling,
            outcomes: self.outcomes@,
        }
    }

    /// What every pass keeps: its running outcome is that of the calls so far.
    pub closed spec fn wf(&self) -> bool {
        &&& self.next <= self.keys@.len()
        &&& self.outcome == fold_outcomes(self.outcomes@)
    }

    /// The outcome of the calls so far as one.
    pub fn outcome(&self) -> (r: Option<Outcome>)
        requires
            self.wf(),
        ensures
            r == fold_outcomes(self@.outcomes),
    {
        self.outcome
    }
}

/// How the routing of a packet begins.
pub enum RouteStart<'a> {
    /// The packet is our own, handed back by the link: it is routed nowhere.
    Echo,
    Pass(RoutePass<'a>),
}

/// What became of a routed packet.
#[derive(Clone, Copy, PartialEq, Eq, Structural, Debug)]
pub struct Routed {
    /// The packet was our own, handed back by the link.
    pub echoed: bool,
    /// The outcome of all handlers together, where any was called.
    pub outcome: Option<Outcome>,
    /// Two handlers read different message types from the packet.
    pub type_mismatch: bool,
}

impl Routed {
    /// Whether this is how a packet fared that the handlers called for it did this with, in order.
    pub open spec fn tells(self, outcomes: Seq<Outcome>) -> bool {
        &&& !self.echoed
        &&& self.outcome == fold_outcomes(outcomes)
        &&& self.type_mismatch == some_disagree(outcomes)
    }
}

/// Whether some outcome names another message type than those before it as one.
pub open spec fn some_disagree(outcomes: Seq<Outcome>) -> bool
    decreases outcomes.len(),
{
    outcomes.len() > 0 && {
        ||| some_disagree(outcomes.drop_last())
        ||| fold_outcomes(outcomes.drop_last()) matches Some(before) && before.disagrees(
            outcomes.last(),
        )
    }
}

/// One call of a handler while a packet is routed.
#[verifier::ext_equal]
pub struct HandlerCall<S, H> {
    /// The place of its key among the offer's.
    pub at: int,
    /// The state in which its turn came.
    pub before: DispatchState<S, H>,
    /// What it reported.
    pub outcome: Outcome,
    /// The handler as the call left it.
    pub after: H,
    /// The state as the call left it, with the handler still out of its slot.
    pub left: DispatchState<S, H>,
}

impl<S, H> HandlerCall<S, H> {
    /// The handler of `key` as its turn came.
    pub open spec fn handler(self, key: Key) -> H {
        self.before.registrations[key].handler->0
    }

    /// The state with the handler of `key` out of its slot for its call.
    pub open spec fn taken(self, key: Key) -> DispatchState<S, H> {
        self.before.with_handler(key, None)
    }
}

/// What the handlers called reported, in order.
pub open spec fn reported<S, H>(calls: Seq<HandlerCall<S, H>>) -> Seq<Outcome> {
    Seq::new(calls.len(), |i: int| calls[i].outcome)
}

/// Where the search goes on after these calls.
pub open spec fn turn_after<S, H>(calls: Seq<HandlerCall<S, H>>) -> int {
    if calls.len() == 0 {
        0
    } else {
        calls.last().at + 1
    }
}

/// Whether `outcome` is what `handler`, called with this packet in this state, may report.
pub open spec fn may_report<S, H: PacketHandler<S, R>, R>(
    handler: H,
    packet: Packet,
    state: DispatchState<S, H>,
    outcome: Outcome,
) -> bool {
    exists|h: &mut H, d: &mut PacketDispatcher<S, H>, x: &mut R| #[trigger]
        call_ensures(<H as PacketHandler<S, R>>::on_packet, (h, &packet, d, x), outcome) && *h
            == handler && (*d)@ == state
}

/// Whether `call` came next after these calls and ended in the state `now`. It went to the first
/// registration, after the one called before it, that was live and for the packet. Its handler was out of
/// its slot for that one call, and is back in it `now` unless the registration is gone.
pub open spec fn call_made<S, H: PacketHandler<S, R>, R>(
    offer: Offer,
    earlier: Seq<HandlerCall<S, H>>,
    call: HandlerCall<S, H>,
    now: DispatchState<S, H>,
) -> bool {
    let key = offer.keys[call.at];
    let handler = call.before.registrations[key].handler;
    let taken = call.before.with_handler(key, None);
    &&& next_applying(call.before.registrations, offer, turn_after(earlier)) == Some(call.at)
    &&& handler is Some
    &&& may_report::<S, H, R>(handler->0, offer.packet, taken, call.outcome)
    &&& <H as PacketHandler<S, R>>::took(
        handler->0,
        offer.packet,
        taken,
        call.after,
        call.left,
        call.outcome,
    )
    &&& taken.left_by_a_call(call.left)
    &&& now == call.left.put_back(key, call.after)
}

/// Whether these are the calls made for an offer since its routing began, one after the other, up to the
/// state `now`.
pub open spec fn called_so_far<S, H: PacketHandler<S, R>, R>(
    begun: DispatchState<S, H>,
    offer: Offer,
    calls: Seq<HandlerCall<S, H>>,
    now: DispatchState<S, H>,
) -> bool
    decreases calls.len(),
{
    if calls.len() == 0 {
        now == begun
    } else {
        &&& called_so_far::<S, H, R>(begun, offer, calls.drop_last(), calls.last().before)
        &&& call_made::<S, H, R>(offer, calls.drop_last(), calls.last(), now)
    }
}

/// The state once call number `i` was over, `now` being the state after the last of them.
pub open spec fn state_after<S, H>(
    calls: Seq<HandlerCall<S, H>>,
    i: int,
    now: DispatchState<S, H>,
) -> DispatchState<S, H> {
    if i + 1 < calls.len() {
        calls[i + 1].before
    } else {
        now
    }
}

/// Whether these are all the calls made for an offer: no registration after the last one called is live
/// and for the packet.
pub open spec fn all_called<S, H: PacketHandler<S, R>, R>(
    begun: DispatchState<S, H>,
    offer: Offer,
    calls: Seq<HandlerCall<S, H>>,
    mid: DispatchState<S, H>,
) -> bool {
    &&& called_so_far::<S, H, R>(begun, offer, calls, mid)
    &&& next_applying(mid.registrations, offer, turn_after(calls)) is None
}

/// Whether `after` is `before` with one packet's routing ended: its outcome, if any handler was
/// called, counted once on the ingress.
pub open spec fn route_ended<S, H>(
    before: DispatchState<S, H>,
    after: DispatchState<S, H>,
    ingress: CaptureKey,
    outcome: Option<Outcome>,
) -> bool {
    let i = ingress.0 as int;
    &&& after == (DispatchState { rows: after.rows, routing: false, ..before })
    &&& match outcome {
        None => after.rows == before.rows,
        Some(outcome) => {
            &&& only_counts_differ(before.rows, after.rows, i)
            &&& before.rows[i].counters.after_outcome(after.rows[i].counters, outcome)
        },
    }
}

/// Whether `after` is `before` with one packet routed, whatever its handlers did: the packet is numbered,
/// its outcome, if any handler was called, is counted once on the ingress, and nothing else is counted
/// anywhere. The deadlines are as they were.
pub open spec fn packet_counted<S, H>(
    before: DispatchState<S, H>,
    after: DispatchState<S, H>,
    ingress: CaptureKey,
    outcome: Option<Outcome>,
) -> bool {
    &&& after.packet == before.packet + 1
    &&& !after.routing
    &&& after.report == before.report
    &&& after.next_reconcile == before.next_reconcile
    &&& forall|j: int|
        0 <= j < before.rows.len() ==> if j == ingress.0 && outcome is Some {
            before.rows[j].counters.after_outcome((#[trigger] after.rows[j]).counters, outcome->0)
        } else {
            after.rows[j].counters == before.rows[j].counters
        }
}

/// Whether `after` is `before` with one echoed frame counted on the ingress.
pub open spec fn echo_counted<S, H>(
    before: DispatchState<S, H>,
    after: DispatchState<S, H>,
    ingress: CaptureKey,
) -> bool {
    let i = ingress.0 as int;
    &&& after == (DispatchState { rows: after.rows, ..before })
    &&& only_counts_differ(before.rows, after.rows, i)
    &&& before.rows[i].counters.after_echo(after.rows[i].counters)
}

impl<S, H> DispatchState<S, H> {
    /// The ingress's own hardware address.
    pub open spec fn own_mac(self, ingress: CaptureKey) -> Option<MacAddr> {
        match self.addrs_behind(ingress) {
            Some(addrs) => addrs.mac,
            None => None,
        }
    }

    /// The ingress's directed broadcast.
    pub open spec fn directed_broadcast(self, ingress: CaptureKey) -> Option<Ipv4Addr> {
        match self.addrs_behind(ingress) {
            Some(addrs) => addrs.v4_directed_broadcast,
            None => None,
        }
    }

    /// Whether no live registration is for this packet on this ingress.
    pub open spec fn none_applies(self, ingress: CaptureKey, packet: Packet) -> bool {
        forall|key: Key| #[trigger]
            self.registrations.contains_key(key) ==> !applies(
                self.registrations[key],
                ingress,
                packet,
                self.directed_broadcast(ingress),
            )
    }

    /// This with the routing of the next packet begun.
    pub open spec fn routing_begun(self) -> Self {
        DispatchState { packet: (self.packet + 1) as u64, routing: true, ..self }
    }

    /// A packet on an ingress, offered to these registrations.
    pub open spec fn offer<'a>(
        self,
        ingress: CaptureKey,
        packet: Packet<'a>,
        keys: Seq<Key>,
    ) -> Offer<'a> {
        Offer { packet, ingress, directed: self.directed_broadcast(ingress), keys }
    }
}

impl<S, H> PacketDispatcher<S, H> {
    /// Whether no handler is out for a call.
    pub fn handlers_home(&self) -> (r: bool)
        requires
            self.wf(),
        ensures
            r == self@.handlers_home(),
    {
        let keys = self.registrations.keys();
        let mut i: usize = 0;
        while i < keys.len()
            invariant
                i <= keys@.len(),
                lists_keys(self@.registrations, keys@),
                forall|j: int| #![trigger keys@[j]]
                    0 <= j < i ==> self@.registrations[keys@[j]].handler is Some,
            decreases keys@.len() - i,
        {
            assert(keys@.contains(keys@[i as int]));
            match self.registrations.get(keys[i]) {
                Some(registration) => {
                    if registration.handler.is_none() {
                        return false;
                    }
                },
                None => {},
            }
            i += 1;
        }
        proof {
            assert forall|key: Key| #[trigger] self@.registrations.contains_key(key) implies
                self@.registrations[key].handler is Some by {
                assert(keys@.contains(key));
                let j = keys@.index_of(key);
                assert(keys@[j] == key);
            }
        }
        true
    }

    /// The number of the packet routed last, from 1; 0 before the first.
    pub fn packet_number(&self) -> (r: u64)
        ensures
            r == self@.packet,
    {
        self.packet
    }

    /// Take the handler of a registration out for a call. None is there if the registration is gone,
    /// or its handler is out already.
    pub fn take_handler(&mut self, key: RegistrationKey) -> (r: Option<H>)
        requires
            old(self).wf(),
        ensures
            final(self).wf(),
            match r {
                Some(handler) => {
                    &&& old(self)@.registrations.contains_key(key.0)
                    &&& old(self)@.registrations[key.0].handler == Some(handler)
                    &&& final(self)@ == old(self)@.with_handler(key.0, None)
                },
                None => {
                    &&& old(self)@.registrations.contains_key(key.0)
                        ==> old(self)@.registrations[key.0].handler is None
                    &&& final(self)@ == old(self)@
                },
            },
    {
        let taken = match self.registrations.get_mut(key.0) {
            Some(registration) => registration.handler.take(),
            None => None,
        };
        assert(self@.issued =~= old(self)@.issued);
        assert(taken is None ==> self@.registrations =~= old(self)@.registrations);
        taken
    }

    /// Put a handler back after its call. Where the call removed the registration, the handler is
    /// dropped, not revived.
    pub fn restore_handler(&mut self, key: RegistrationKey, handler: H)
        requires
            old(self).wf(),
        ensures
            final(self).wf(),
            final(self)@ == old(self)@.put_back(key.0, handler),
    {
        match self.registrations.get_mut(key.0) {
            Some(registration) => {
                registration.handler = Some(handler);
            },
            None => {},
        }
        assert(self@.issued =~= old(self)@.issued);
    }

    /// Begin routing a packet captured on `ingress`. One of our own that came back is only counted.
    /// Any other starts a pass over the registrations live now, so that one registered on the way is
    /// not offered this packet.
    pub fn begin_route<'a>(&mut self, ingress: CaptureKey, packet: &Packet<'a>) -> (r: RouteStart<'a>)
        requires
            old(self).wf(),
            ingress.0 < old(self)@.rows.len(),
            old(self)@.packet < u64::MAX,
        ensures
            final(self).wf(),
            if is_own_echo_spec(packet.src_mac, old(self)@.own_mac(ingress)) {
                &&& r is Echo
                &&& echo_counted(old(self)@, final(self)@, ingress)
            } else {
                &&& r matches RouteStart::Pass(pass)
                &&& pass.wf()
                &&& lists_keys(old(self)@.registrations, pass@.offer.keys)
                &&& pass@ == (PassState {
                    offer: old(self)@.offer(ingress, *packet, pass@.offer.keys),
                    next: 0,
                    calling: None,
                    outcomes: Seq::empty(),
                })
                &&& final(self)@ == old(self)@.routing_begun()
            },
    {
        let (own_mac, directed) = match self.table.egress_addrs(ingress) {
            Some(addrs) => (addrs.mac, addrs.v4_directed_broadcast),
            None => (None, None),
        };
        if is_own_echo(packet.src_mac, own_mac) {
            self.table.record_echo(ingress);
            return RouteStart::Echo;
        }
        let keys = self.registrations.keys();
        self.packet = self.packet + 1;
        self.routing = true;
        RouteStart::Pass(
            RoutePass {
                packet: *packet,
                ingress,
                directed,
                keys,
                next: 0,
                calling: None,
                outcome: None,
                outcomes: Ghost(Seq::empty()),
            },
        )
    }

    /// Go on to the next registration of the pass that is still live and for the packet, and take its
    /// handler out for the call. `None` means that all of them had their turn.
    pub fn next_match(&mut self, pass: &mut RoutePass) -> (r: Option<H>)
        requires
            old(self).wf(),
            old(pass).wf(),
            old(pass)@.calling is None,
            next_applying(old(self)@.registrations, old(pass)@.offer, old(pass)@.next) matches Some(i)
                ==> old(self)@.registrations[old(pass)@.offer.keys[i]].handler is Some,
        ensures
            final(self).wf(),
            final(pass).wf(),
            match next_applying(old(self)@.registrations, old(pass)@.offer, old(pass)@.next) {
                Some(i) => {
                    let key = old(pass)@.offer.keys[i];
                    &&& 0 <= i < old(pass)@.offer.keys.len()
                    &&& old(self)@.registrations.contains_key(key)
                    &&& r == old(self)@.registrations[key].handler
                    &&& r is Some
                    &&& final(self)@ == old(self)@.with_handler(key, None)
                    &&& final(pass)@ == (PassState {
                        next: i + 1,
                        calling: Some(key),
                        ..old(pass)@
                    })
                },
                None => {
                    &&& r is None
                    &&& final(self)@ == old(self)@
                    &&& final(pass)@ == (PassState {
                        next: old(pass)@.offer.keys.len() as int,
                        ..old(pass)@
                    })
                },
            },
    {
        while pass.next < pass.keys.len()
            invariant
                *self == *old(self),
                self.wf(),
                pass.wf(),
                pass@.calling is None,
                pass@ == (PassState { next: pass@.next, ..old(pass)@ }),
                next_applying(self@.registrations, old(pass)@.offer, old(pass)@.next)
                    == next_applying(self@.registrations, old(pass)@.offer, pass@.next),
                next_applying(self@.registrations, old(pass)@.offer, old(pass)@.next) matches Some(i)
                    ==> self@.registrations[old(pass)@.offer.keys[i]].handler is Some,
            decreases pass.keys@.len() - pass.next,
        {
            let key = pass.keys[pass.next];
            let matched = match self.registrations.get(key) {
                Some(registration) => registration.ingress == pass.ingress
                    && registration.filter.matches(&pass.packet, pass.directed),
                None => false,
            };
            let ghost at = pass@.next;
            pass.next = pass.next + 1;
            if matched {
                assert(next_applying(self@.registrations, old(pass)@.offer, at) == Some(at));
                pass.calling = Some(key);
                return self.take_handler(RegistrationKey(key));
            }
        }
        None
    }

    /// Take in what the handler called last did: it goes back to its slot if its registration is still
    /// there, and its outcome is folded into the packet's.
    pub fn finish_call(&mut self, pass: &mut RoutePass, handler: H, outcome: Outcome) -> (r: Anomalies)
        requires
            old(self).wf(),
            old(pass).wf(),
            old(pass)@.calling is Some,
        ensures
            final(self).wf(),
            final(pass).wf(),
            final(self)@ == old(self)@.put_back(old(pass)@.calling->0, handler),
            final(pass)@ == (PassState {
                calling: None,
                outcomes: old(pass)@.outcomes.push(outcome),
                ..old(pass)@
            }),
            r.type_mismatch == (fold_outcomes(old(pass)@.outcomes) matches Some(before)
                && before.disagrees(outcome)),
    {
        if let Some(key) = pass.calling {
            self.restore_handler(RegistrationKey(key), handler);
        }
        pass.calling = None;
        let (folded, anomalies) = match pass.outcome {
            None => (outcome, Anomalies { type_mismatch: false }),
            Some(before) => before.combine(outcome),
        };
        pass.outcome = Some(folded);
        proof {
            let before = pass.outcomes@;
            pass.outcomes@ = before.push(outcome);
            assert(before.push(outcome).drop_last() =~= before);
        }
        anomalies
    }

    /// End the routing of a packet: one packet is counted once, with the outcome of all the handlers
    /// that were called, on the capture it came in on.
    pub fn end_route(&mut self, pass: RoutePass) -> (r: Option<Outcome>)
        requires
            old(self).wf(),
            pass.wf(),
            pass@.calling is None,
            pass@.next == pass@.offer.keys.len(),
            pass@.offer.ingress.0 < old(self)@.rows.len(),
        ensures
            final(self).wf(),
            r == fold_outcomes(pass@.outcomes),
            route_ended(old(self)@, final(self)@, pass@.offer.ingress, r),
    {
        self.routing = false;
        if let Some(outcome) = pass.outcome {
            self.table.record(pass.ingress, outcome);
        }
        pass.outcome
    }

    /// Offer a packet captured on `ingress` to every registration it matches, in order, and count it
    /// once, with the outcome of all the handlers called. What the handlers do is theirs: `calls` tells
    /// what each was handed, reported and left, and `mid` is what the last one left, its handler back in
    /// its slot.
    pub fn route<R>(&mut self, ingress: CaptureKey, packet: &Packet, reactor: &mut R) -> (r:
        Routed) where H: PacketHandler<S, R>
        requires
            old(self).wf(),
            old(self)@.handlers_home(),
            ingress.0 < old(self)@.rows.len(),
            old(self)@.packet < u64::MAX,
        ensures
            final(self).wf(),
            old(self)@.kept_by(final(self)@),
            final(self)@.handlers_home(),
            if is_own_echo_spec(packet.src_mac, old(self)@.own_mac(ingress)) {
                &&& r == (Routed { echoed: true, outcome: None, type_mismatch: false })
                &&& echo_counted(old(self)@, final(self)@, ingress)
            } else {
                exists|keys: Seq<Key>, calls: Seq<HandlerCall<S, H>>, mid: DispatchState<S, H>| {
                    &&& lists_keys(old(self)@.registrations, keys)
                    &&& #[trigger] all_called::<S, H, R>(
                        old(self)@.routing_begun(),
                        old(self)@.offer(ingress, *packet, keys),
                        calls,
                        mid,
                    )
                    &&& forall|i: int|
                        0 <= i < calls.len() ==> exists|
                            h: &mut H,
                            d: &mut PacketDispatcher<S, H>,
                            x: &mut R,
                        | #[trigger]
                            call_ensures(
                                <H as PacketHandler<S, R>>::on_packet,
                                (h, packet, d, x),
                                (#[trigger] calls[i]).outcome,
                            ) && *h == calls[i].handler(keys[calls[i].at]) && (*d)@ == calls[i].taken(
                                keys[calls[i].at],
                            ) && *final(h) == calls[i].after && (*final(d))@ == calls[i].left
                    &&& r.tells(reported(calls))
                    &&& route_ended(mid, final(self)@, ingress, r.outcome)
                } && packet_counted(old(self)@, final(self)@, ingress, r.outcome)
            },
            !is_own_echo_spec(packet.src_mac, old(self)@.own_mac(ingress)) && old(
                self,
            )@.none_applies(ingress, *packet) ==> {
                &&& r == (Routed { echoed: false, outcome: None, type_mismatch: false })
                &&& final(self)@ == (DispatchState { routing: false, ..old(self)@.routing_begun() })
            },
    {
        let mut pass = match self.begin_route(ingress, packet) {
            RouteStart::Echo => {
                return Routed { echoed: true, outcome: None, type_mismatch: false };
            },
            RouteStart::Pass(pass) => pass,
        };
        let ghost begun = self@;
        let ghost offer = pass@.offer;
        let ghost mut calls: Seq<HandlerCall<S, H>> = Seq::empty();
        let mut type_mismatch = false;
        proof {
            law_live_registrations_were_issued(*self);
        }
        assert(reported(calls) =~= pass@.outcomes);
        loop
            invariant_except_break
                pass@.calling is None,
                pass@.next == turn_after(calls),
            invariant
                self.wf(),
                pass.wf(),
                pass@.offer == offer,
                offer.packet == *packet,
                offer.ingress == ingress,
                0 <= pass@.next,
                old(self)@.kept_by(self@),
                begun.live_were_issued(),
                begun.steady_by(self@),
                self@.handlers_home(),
                type_mismatch == some_disagree(pass@.outcomes),
                called_so_far::<S, H, R>(begun, offer, calls, self@),
                forall|i: int|
                    0 <= i < calls.len() ==> exists|
                        h: &mut H,
                        d: &mut PacketDispatcher<S, H>,
                        x: &mut R,
                    | #[trigger]
                        call_ensures(
                            <H as PacketHandler<S, R>>::on_packet,
                            (h, packet, d, x),
                            (#[trigger] calls[i]).outcome,
                        ) && *h == calls[i].handler(offer.keys[calls[i].at]) && (*d)@ == calls[i].taken(
                            offer.keys[calls[i].at],
                        ) && *final(h) == calls[i].after && (*final(d))@ == calls[i].left,
                reported(calls) == pass@.outcomes,
            ensures
                pass@.calling is None,
                pass@.next == offer.keys.len(),
                next_applying(self@.registrations, offer, turn_after(calls)) is None,
            decreases offer.keys.len() - pass@.next,
        {
            proof {
                lemma_next_applying(self@.registrations, offer, pass@.next);
            }
            let ghost before = self@;
            match self.next_match(&mut pass) {
                None => {
                    break;
                },
                Some(mut handler) => {
                    let ghost at = pass@.next - 1;
                    let ghost taken = self@;
                    let ghost taken_out = handler;
                    let outcome = handler.on_packet(packet, self, reactor);
                    let ghost called = self@;
                    let ghost before_it = pass@.outcomes;
                    let anomalies = self.finish_call(&mut pass, handler, outcome);
                    type_mismatch = type_mismatch || anomalies.type_mismatch;
                    proof {
                        assert(before_it.push(outcome).drop_last() =~= before_it);
                        lemma_a_call_is_steady(before, called, offer.keys[at], handler);
                        law_keeping_composes(old(self)@, before, self@);
                        law_steadiness_composes(begun, before, self@);
                        let call = HandlerCall { at, before, outcome, after: handler, left: called };
                        assert(may_report::<S, H, R>(taken_out, *packet, taken, outcome));
                        assert(calls.push(call).drop_last() =~= calls);
                        assert(reported(calls.push(call)) =~= reported(calls).push(outcome));
                        calls = calls.push(call);
                    }
                },
            }
        }
        let ghost mid = self@;
        let outcome = self.end_route(pass);
        let routed = Routed { echoed: false, outcome, type_mismatch };
        proof {
            law_keeping_composes(old(self)@, mid, self@);
            assert(all_called::<S, H, R>(begun, offer, calls, mid));
            if old(self)@.none_applies(ingress, *packet) {
                lemma_none_called::<S, H, R>(old(self)@, offer, calls, mid);
            }
        }
        routed
    }
}

proof fn lemma_next_applying<H>(registrations: Map<Key, Registration<H>>, offer: Offer, from: int)
    requires
        0 <= from,
    ensures
        match next_applying(registrations, offer, from) {
            Some(i) => {
                &&& from <= i < offer.keys.len()
                &&& registrations.contains_key(offer.keys[i])
                &&& offer.suits(registrations[offer.keys[i]])
                &&& forall|j: int| #![trigger offer.keys[j]]
                    from <= j < i && registrations.contains_key(offer.keys[j]) ==> !offer.suits(
                        registrations[offer.keys[j]],
                    )
            },
            None => forall|j: int| #![trigger offer.keys[j]]
                from <= j < offer.keys.len() && registrations.contains_key(offer.keys[j])
                    ==> !offer.suits(registrations[offer.keys[j]]),
        },
    decreases offer.keys.len() - from,
{
    if from < offer.keys.len() {
        lemma_next_applying(registrations, offer, from + 1);
    }
}

proof fn lemma_none_called<S, H: PacketHandler<S, R>, R>(
    before: DispatchState<S, H>,
    offer: Offer,
    calls: Seq<HandlerCall<S, H>>,
    mid: DispatchState<S, H>,
)
    requires
        before.none_applies(offer.ingress, offer.packet),
        offer.directed == before.directed_broadcast(offer.ingress),
        called_so_far::<S, H, R>(before.routing_begun(), offer, calls, mid),
    ensures
        calls.len() == 0,
    decreases calls.len(),
{
    if calls.len() > 0 {
        let first = calls.last();
        lemma_none_called::<S, H, R>(before, offer, calls.drop_last(), first.before);
        assert(first.before == before.routing_begun()) by {
            reveal_with_fuel(called_so_far, 2);
        }
        lemma_next_applying(before.registrations, offer, 0);
        assert(before.registrations.contains_key(offer.keys[first.at]));
    }
}

/// A call of one handler, taken out before and put back after, is as steady as the handler is, and touches
/// no other registration that it does not remove.
pub(crate) proof fn lemma_a_call_is_steady<S, H>(
    before: DispatchState<S, H>,
    left: DispatchState<S, H>,
    key: Key,
    handler: H,
)
    requires
        before.registrations.contains_key(key),
        before.registrations[key].handler is Some,
        before.with_handler(key, None).left_by_a_call(left),
    ensures
        before.steady_by(left.put_back(key, handler)),
        before.handlers_home() ==> left.put_back(key, handler).handlers_home(),
        forall|other: Key|
            other != key && left.registrations.contains_key(other)
                && before.registrations.contains_key(other) ==> #[trigger] left.put_back(
                key,
                handler,
            ).registrations[other] == before.registrations[other],
{
    let taken = before.with_handler(key, None);
    let after = left.put_back(key, handler);
    assert forall|k: Key| #[trigger]
        after.registrations.contains_key(k) && after.registrations[k].handler is None implies
        before.registrations.contains_key(k) && before.registrations[k].handler is None by {
        assert(left.registrations.contains_key(k));
        assert(k != key);
        assert(left.registrations[k].handler is None);
    }
    assert forall|k: Key| #[trigger]
        after.registrations.contains_key(k) && before.issued.contains(k) implies
        before.registrations.contains_key(k) by {
        assert(left.registrations.contains_key(k));
    }
    assert forall|k: Key| #[trigger]
        after.registrations.contains_key(k) && before.registrations.contains_key(k) implies {
        &&& after.registrations[k].ingress == before.registrations[k].ingress
        &&& after.registrations[k].filter == before.registrations[k].filter
        &&& k != key ==> after.registrations[k] == before.registrations[k]
    } by {
        assert(left.registrations.contains_key(k));
        assert(taken.registrations.contains_key(k));
        assert(left.registrations[k] == taken.registrations[k]);
    }
    assert forall|other: Key|
        other != key && left.registrations.contains_key(other) && before.registrations.contains_key(
            other,
        ) implies #[trigger] after.registrations[other] == before.registrations[other] by {
        assert(after.registrations.contains_key(other));
    }
}

/// A registration made while a packet is routed is not offered that packet: a key that had not been
/// handed out when the routing began is none of the offer's, so no later state of the registrations
/// brings it up.
pub proof fn law_a_mid_route_registration_is_not_offered_the_packet<S, H>(
    begun: PacketDispatcher<S, H>,
    offer: Offer,
    fresh: Key,
    registrations: Map<Key, Registration<H>>,
    from: int,
)
    requires
        lists_keys(begun@.registrations, offer.keys),
        !begun@.issued.contains(fresh),
        0 <= from,
    ensures
        next_applying(registrations, offer, from) matches Some(i) ==> offer.keys[i] != fresh,
{
    lemma_next_applying(registrations, offer, from);
    if let Some(i) = next_applying(registrations, offer, from) {
        let key = offer.keys[i];
        assert(offer.keys.contains(key));
        law_live_registrations_were_issued(begun);
    }
}

/// A registration removed while a packet is routed, or before, is not offered it any more.
pub proof fn law_an_unregistered_handler_is_not_called<H>(
    registrations: Map<Key, Registration<H>>,
    removed: Key,
    offer: Offer,
    from: int,
)
    requires
        0 <= from,
    ensures
        next_applying(registrations.remove(removed), offer, from) matches Some(i) ==> offer.keys[i]
            != removed,
{
    lemma_next_applying(registrations.remove(removed), offer, from);
}

/// No registration is offered a packet twice, and none is passed over that it is for: the search goes
/// on to a later place, holding another key, and every live registration between the two is for other
/// packets.
pub proof fn law_each_registration_has_one_turn<H>(
    live: Map<Key, Registration<H>>,
    registrations: Map<Key, Registration<H>>,
    offer: Offer,
    done: int,
    from: int,
)
    requires
        lists_keys(live, offer.keys),
        0 <= done < from <= offer.keys.len(),
    ensures
        next_applying(registrations, offer, from) matches Some(i) ==> {
            &&& from <= i < offer.keys.len()
            &&& offer.keys[i] != offer.keys[done]
            &&& forall|j: int| #![trigger offer.keys[j]]
                from <= j < i && registrations.contains_key(offer.keys[j]) ==> !offer.suits(
                    registrations[offer.keys[j]],
                )
        },
{
    lemma_next_applying(registrations, offer, from);
}

/// Every call of a routing begins where the one before it ended, the first where the routing began: nothing
/// happens between two calls but that a handler goes back to its slot.
pub proof fn law_calls_follow_one_another<S, H: PacketHandler<S, R>, R>(
    begun: DispatchState<S, H>,
    offer: Offer,
    calls: Seq<HandlerCall<S, H>>,
    now: DispatchState<S, H>,
    i: int,
)
    requires
        called_so_far::<S, H, R>(begun, offer, calls, now),
        0 <= i < calls.len(),
    ensures
        calls[0].before == begun,
        called_so_far::<S, H, R>(begun, offer, calls.take(i), calls[i].before),
        call_made::<S, H, R>(offer, calls.take(i), calls[i], state_after(calls, i, now)),
        state_after(calls, i, now) == calls[i].left.put_back(offer.keys[calls[i].at], calls[i].after),
    decreases calls.len(),
{
    let earlier = calls.drop_last();
    if i < earlier.len() {
        law_calls_follow_one_another::<S, H, R>(begun, offer, earlier, calls.last().before, i);
        assert(earlier.take(i) =~= calls.take(i));
    } else {
        assert(calls.take(i) =~= earlier);
        if earlier.len() > 0 {
            law_calls_follow_one_another::<S, H, R>(begun, offer, earlier, calls.last().before, 0);
        } else {
            reveal_with_fuel(called_so_far, 2);
        }
    }
}

/// The calls of a routing go through the offer's keys in order, so that none is called twice.
pub proof fn law_calls_go_forward<S, H: PacketHandler<S, R>, R>(
    begun: DispatchState<S, H>,
    offer: Offer,
    calls: Seq<HandlerCall<S, H>>,
    now: DispatchState<S, H>,
)
    requires
        called_so_far::<S, H, R>(begun, offer, calls, now),
    ensures
        forall|i: int| 0 <= i < calls.len() ==> 0 <= (#[trigger] calls[i]).at < offer.keys.len(),
        forall|i: int, j: int| #![trigger calls[i], calls[j]]
            0 <= i < j < calls.len() ==> calls[i].at < calls[j].at,
    decreases calls.len(),
{
    if calls.len() > 0 {
        let earlier = calls.drop_last();
        let last = calls.last();
        law_calls_go_forward::<S, H, R>(begun, offer, earlier, last.before);
        if earlier.len() > 0 {
            assert(earlier[earlier.len() - 1].at >= 0);
        }
        lemma_next_applying(last.before.registrations, offer, turn_after(earlier));
        assert forall|i: int, j: int| #![trigger calls[i], calls[j]]
            0 <= i < j < calls.len() implies calls[i].at < calls[j].at by {
            assert(earlier[i] == calls[i]);
            if j < earlier.len() {
                assert(earlier[j] == calls[j]);
            } else if i < earlier.len() - 1 {
                assert(earlier[i].at < earlier[earlier.len() - 1].at);
            }
        }
        assert forall|i: int| 0 <= i < calls.len() implies 0 <= (#[trigger] calls[i]).at
            < offer.keys.len() by {
            if i < earlier.len() {
                assert(earlier[i] == calls[i]);
            }
        }
    }
}

/// However many handlers are called for a packet, they leave its number, every count, and the deadlines as
/// they were when its routing began.
pub proof fn law_a_routing_is_steady<S, H: PacketHandler<S, R>, R>(
    begun: DispatchState<S, H>,
    offer: Offer,
    calls: Seq<HandlerCall<S, H>>,
    now: DispatchState<S, H>,
)
    requires
        begun.live_were_issued(),
        called_so_far::<S, H, R>(begun, offer, calls, now),
    ensures
        begun.steady_by(now),
        forall|i: int| 0 <= i < calls.len() ==> begun.steady_by((#[trigger] calls[i]).before),
    decreases calls.len(),
{
    if calls.len() > 0 {
        let earlier = calls.drop_last();
        let last = calls.last();
        law_a_routing_is_steady::<S, H, R>(begun, offer, earlier, last.before);
        law_calls_go_forward::<S, H, R>(begun, offer, earlier, last.before);
        if earlier.len() > 0 {
            assert(earlier[earlier.len() - 1].at >= 0);
        }
        lemma_next_applying(last.before.registrations, offer, turn_after(earlier));
        lemma_a_call_is_steady(last.before, last.left, offer.keys[last.at], last.after);
        law_steadiness_composes(begun, last.before, now);
        assert forall|i: int| 0 <= i < calls.len() implies begun.steady_by(
            (#[trigger] calls[i]).before,
        ) by {
            if i < earlier.len() {
                assert(earlier[i] == calls[i]);
            }
        }
    }
}

/// A registration that no handler called for a packet removed is there after all of them, for the same
/// packets, and with its own handler: as its own call left it where it was called, and as it was where it
/// was not.
pub proof fn law_a_registration_nobody_removed_stays<S, H: PacketHandler<S, R>, R>(
    begun: DispatchState<S, H>,
    offer: Offer,
    calls: Seq<HandlerCall<S, H>>,
    now: DispatchState<S, H>,
    key: Key,
)
    requires
        lists_keys(begun.registrations, offer.keys),
        called_so_far::<S, H, R>(begun, offer, calls, now),
        begun.registrations.contains_key(key),
        forall|i: int|
            0 <= i < calls.len() ==> (#[trigger] calls[i]).left.registrations.contains_key(key),
    ensures
        now.registrations.contains_key(key),
        now.registrations[key].ingress == begun.registrations[key].ingress,
        now.registrations[key].filter == begun.registrations[key].filter,
        forall|i: int| #![trigger calls[i]]
            0 <= i < calls.len() && offer.keys[calls[i].at] == key ==> {
                &&& calls[i].before.registrations[key] == begun.registrations[key]
                &&& now.registrations[key].handler == Some(calls[i].after)
            },
        (forall|i: int| 0 <= i < calls.len() ==> offer.keys[(#[trigger] calls[i]).at] != key)
            ==> now.registrations[key] == begun.registrations[key],
    decreases calls.len(),
{
    if calls.len() > 0 {
        let earlier = calls.drop_last();
        let last = calls.last();
        assert(calls[calls.len() - 1] == last);
        assert forall|i: int| 0 <= i < earlier.len() implies (
        #[trigger] earlier[i]).left.registrations.contains_key(key) by {
            assert(earlier[i] == calls[i]);
        }
        law_a_registration_nobody_removed_stays::<S, H, R>(begun, offer, earlier, last.before, key);
        law_calls_go_forward::<S, H, R>(begun, offer, calls, now);
        if earlier.len() > 0 {
            assert(earlier[earlier.len() - 1] == calls[earlier.len() - 1]);
        }
        lemma_next_applying(last.before.registrations, offer, turn_after(earlier));
        let called = offer.keys[last.at];
        lemma_a_call_is_steady(last.before, last.left, called, last.after);
        if called == key {
            assert forall|i: int| 0 <= i < earlier.len() implies offer.keys[(
            #[trigger] earlier[i]).at] != key by {
                assert(earlier[i] == calls[i]);
                assert(offer.keys[calls[i].at].index < offer.keys[last.at].index);
            }
            assert forall|i: int| #![trigger calls[i]]
                0 <= i < calls.len() && offer.keys[calls[i].at] == key implies i == calls.len() - 1 by {
                if i < earlier.len() {
                    assert(earlier[i] == calls[i]);
                }
            }
        } else {
            assert(now.registrations[key] == last.before.registrations[key]);
            assert forall|i: int| #![trigger calls[i]]
                0 <= i < calls.len() && offer.keys[calls[i].at] == key implies {
                &&& calls[i].before.registrations[key] == begun.registrations[key]
                &&& now.registrations[key].handler == Some(calls[i].after)
            } by {
                assert(earlier[i] == calls[i]);
            }
            if forall|i: int| 0 <= i < calls.len() ==> offer.keys[(#[trigger] calls[i]).at] != key {
                assert forall|i: int| 0 <= i < earlier.len() implies offer.keys[(
                #[trigger] earlier[i]).at] != key by {
                    assert(earlier[i] == calls[i]);
                }
            }
        }
    }
}

/// A registration made by a handler while a packet is routed is there after all the calls just as it was
/// made, unless a later handler removes it: the calls for this packet do not reach it.
pub proof fn law_a_mid_route_registration_stays_as_made<S, H: PacketHandler<S, R>, R>(
    begun: DispatchState<S, H>,
    offer: Offer,
    calls: Seq<HandlerCall<S, H>>,
    now: DispatchState<S, H>,
    maker: int,
    key: Key,
)
    requires
        called_so_far::<S, H, R>(begun, offer, calls, now),
        0 <= maker < calls.len(),
        !offer.keys.contains(key),
        forall|i: int|
            maker <= i < calls.len() ==> (#[trigger] calls[i]).left.registrations.contains_key(key),
    ensures
        now.registrations.contains_key(key),
        now.registrations[key] == calls[maker].left.registrations[key],
    decreases calls.len(),
{
    let earlier = calls.drop_last();
    let last = calls.last();
    law_calls_go_forward::<S, H, R>(begun, offer, calls, now);
    assert(calls[calls.len() - 1] == last);
    assert(offer.keys.contains(offer.keys[last.at]));
    if maker < earlier.len() {
        assert forall|i: int| maker <= i < earlier.len() implies (
        #[trigger] earlier[i]).left.registrations.contains_key(key) by {
            assert(earlier[i] == calls[i]);
        }
        law_a_mid_route_registration_stays_as_made::<S, H, R>(
            begun,
            offer,
            earlier,
            last.before,
            maker,
            key,
        );
        assert(last.before.with_handler(offer.keys[last.at], None).registrations[key]
            == last.before.registrations[key]);
    }
}

proof fn lemma_none_passed_over<S, H: PacketHandler<S, R>, R>(
    begun: DispatchState<S, H>,
    offer: Offer,
    calls: Seq<HandlerCall<S, H>>,
    now: DispatchState<S, H>,
    at: int,
)
    requires
        lists_keys(begun.registrations, offer.keys),
        called_so_far::<S, H, R>(begun, offer, calls, now),
        0 <= at < offer.keys.len(),
        begun.registrations.contains_key(offer.keys[at]),
        offer.suits(begun.registrations[offer.keys[at]]),
        forall|i: int|
            0 <= i < calls.len() ==> (#[trigger] calls[i]).left.registrations.contains_key(
                offer.keys[at],
            ),
        turn_after(calls) > at,
    ensures
        exists|i: int| 0 <= i < calls.len() && (#[trigger] calls[i]).at == at,
    decreases calls.len(),
{
    let earlier = calls.drop_last();
    let last = calls.last();
    if calls[calls.len() - 1].at != at {
        assert forall|i: int| 0 <= i < earlier.len() implies (
        #[trigger] earlier[i]).left.registrations.contains_key(offer.keys[at]) by {
            assert(earlier[i] == calls[i]);
        }
        law_calls_go_forward::<S, H, R>(begun, offer, earlier, last.before);
        if earlier.len() > 0 {
            assert(earlier[earlier.len() - 1].at >= 0);
        }
        if turn_after(earlier) <= at {
            law_a_registration_nobody_removed_stays::<S, H, R>(
                begun,
                offer,
                earlier,
                last.before,
                offer.keys[at],
            );
            lemma_next_applying(last.before.registrations, offer, turn_after(earlier));
        } else {
            lemma_none_passed_over::<S, H, R>(begun, offer, earlier, last.before, at);
            let i = choose|i: int| 0 <= i < earlier.len() && (#[trigger] earlier[i]).at == at;
            assert(calls[i].at == at);
        }
    }
}

/// Every registration live and for the packet when its routing began, and removed by none of the handlers,
/// is called for it exactly once.
pub proof fn law_every_match_is_called_once<S, H: PacketHandler<S, R>, R>(
    begun: DispatchState<S, H>,
    offer: Offer,
    calls: Seq<HandlerCall<S, H>>,
    mid: DispatchState<S, H>,
    key: Key,
)
    requires
        lists_keys(begun.registrations, offer.keys),
        all_called::<S, H, R>(begun, offer, calls, mid),
        begun.registrations.contains_key(key),
        offer.suits(begun.registrations[key]),
        forall|i: int|
            0 <= i < calls.len() ==> (#[trigger] calls[i]).left.registrations.contains_key(key),
    ensures
        exists|i: int| 0 <= i < calls.len() && offer.keys[(#[trigger] calls[i]).at] == key,
        forall|i: int, j: int| #![trigger calls[i], calls[j]]
            0 <= i < j < calls.len() ==> offer.keys[calls[i].at] != offer.keys[calls[j].at],
{
    assert(offer.keys.contains(key));
    let at = offer.keys.index_of(key);
    law_calls_go_forward::<S, H, R>(begun, offer, calls, mid);
    law_a_registration_nobody_removed_stays::<S, H, R>(begun, offer, calls, mid, key);
    lemma_next_applying(mid.registrations, offer, turn_after(calls));
    lemma_none_passed_over::<S, H, R>(begun, offer, calls, mid, at);
    let i = choose|i: int| 0 <= i < calls.len() && (#[trigger] calls[i]).at == at;
    assert(offer.keys[calls[i].at] == key);
    assert forall|i: int, j: int| #![trigger calls[i], calls[j]]
        0 <= i < j < calls.len() implies offer.keys[calls[i].at] != offer.keys[calls[j].at] by {
        assert(offer.keys[calls[i].at].index < offer.keys[calls[j].at].index);
    }
}

/// One packet sends one frame per egress, over its whole routing: once one handler's frame went out on a
/// capture, and as long as none after it sent another there, every later handler's equal frame on that
/// capture is a duplicate.
pub proof fn law_one_frame_per_egress_over_a_routing<S, H: PacketHandler<S, R>, R>(
    begun: DispatchState<S, H>,
    offer: Offer,
    calls: Seq<HandlerCall<S, H>>,
    now: DispatchState<S, H>,
    egress: CaptureKey,
    built: Built,
    first: int,
    second: int,
)
    requires
        begun.live_were_issued(),
        begun.routing,
        called_so_far::<S, H, R>(begun, offer, calls, now),
        0 <= first < second < calls.len(),
        egress.0 < calls[first].left.rows.len(),
        Some(calls[first].left.rows[egress.0 as int].last_sent) == begun.mark(built),
        forall|i: int|
            first < i < second ==> (#[trigger] calls[i]).left.rows[egress.0 as int].last_sent
                == calls[first].left.rows[egress.0 as int].last_sent,
    ensures
        calls[second].before.with_handler(offer.keys[calls[second].at], None).plan(egress, built)
            == SendPlan::Duplicate,
    decreases second,
{
    law_a_routing_is_steady::<S, H, R>(begun, offer, calls, now);
    assert(begun.steady_by(calls[second].before));
    law_calls_follow_one_another::<S, H, R>(begun, offer, calls, now, second - 1);
    if second - 1 > first {
        law_one_frame_per_egress_over_a_routing::<S, H, R>(
            begun,
            offer,
            calls,
            now,
            egress,
            built,
            first,
            second - 1,
        );
        let between = calls[second - 1];
        assert(egress.0 < between.left.rows.len());
    }
}

/// A frame that comes from no hardware address, on an interface without one, or from the all-zero
/// address is never taken for our own.
pub proof fn law_only_a_real_own_address_is_an_echo(src_mac: Option<MacAddr>, own_mac: Option<MacAddr>)
    requires
        src_mac is None || own_mac is None || src_mac->0.bits() == 0 || src_mac != own_mac,
    ensures
        !is_own_echo_spec(src_mac, own_mac),
{
}

/// A frame that comes from the ingress's own hardware address is our own, for every address but the all-zero
/// one, and no other frame is.
pub proof fn law_a_frame_from_our_own_address_is_an_echo(src: MacAddr, own: MacAddr)
    ensures
        src.bits() != 0 ==> is_own_echo_spec(Some(src), Some(src)),
        src.bits() == 0 ==> !is_own_echo_spec(Some(src), Some(src)),
        src != own ==> !is_own_echo_spec(Some(src), Some(own)),
        !is_own_echo_spec(None, Some(own)),
        !is_own_echo_spec(Some(src), None),
        !is_own_echo_spec(None, None),
{
}

/// A registration is for a packet exactly if it is for the capture the packet came in on and its filter accepts
/// the packet there.
pub proof fn law_a_registration_is_for_its_ingress_and_filter<H>(
    registration: Registration<H>,
    offer: Offer,
)
    ensures
        registration.ingress != offer.ingress ==> !offer.suits(registration),
        !registration.filter.accepts(offer.packet, offer.directed) ==> !offer.suits(registration),
        registration.ingress == offer.ingress && registration.filter.accepts(
            offer.packet,
            offer.directed,
        ) ==> offer.suits(registration),
{
}

/// The next registration called is the first one left that is live, for the ingress, and whose filter accepts
/// the packet; the search ends only where none is.
pub proof fn law_the_next_match_is_the_first_left<H>(
    registrations: Map<Key, Registration<H>>,
    offer: Offer,
    from: int,
)
    requires
        0 <= from,
    ensures
        match next_applying(registrations, offer, from) {
            Some(i) => {
                &&& from <= i < offer.keys.len()
                &&& registrations.contains_key(offer.keys[i])
                &&& registrations[offer.keys[i]].ingress == offer.ingress
                &&& registrations[offer.keys[i]].filter.accepts(offer.packet, offer.directed)
                &&& forall|j: int| #![trigger offer.keys[j]]
                    from <= j < i && registrations.contains_key(offer.keys[j])
                        && registrations[offer.keys[j]].ingress == offer.ingress
                        ==> !registrations[offer.keys[j]].filter.accepts(
                        offer.packet,
                        offer.directed,
                    )
            },
            None => forall|j: int| #![trigger offer.keys[j]]
                from <= j < offer.keys.len() && registrations.contains_key(offer.keys[j])
                    && registrations[offer.keys[j]].ingress == offer.ingress
                    ==> !registrations[offer.keys[j]].filter.accepts(offer.packet, offer.directed),
        },
{
    lemma_next_applying(registrations, offer, from);
}

/// Every registration on the ingress whose filter accepts the packet when its routing begins, and that no
/// handler removes, is called for it, and once.
pub proof fn law_every_registration_for_a_packet_is_called<S, H: PacketHandler<S, R>, R>(
    begun: DispatchState<S, H>,
    offer: Offer,
    calls: Seq<HandlerCall<S, H>>,
    mid: DispatchState<S, H>,
    key: Key,
)
    requires
        lists_keys(begun.registrations, offer.keys),
        all_called::<S, H, R>(begun, offer, calls, mid),
        begun.registrations.contains_key(key),
        begun.registrations[key].ingress == offer.ingress,
        begun.registrations[key].filter.accepts(offer.packet, offer.directed),
        forall|i: int|
            0 <= i < calls.len() ==> (#[trigger] calls[i]).left.registrations.contains_key(key),
    ensures
        exists|i: int| 0 <= i < calls.len() && offer.keys[(#[trigger] calls[i]).at] == key,
        forall|i: int, j: int| #![trigger calls[i], calls[j]]
            0 <= i < j < calls.len() ==> offer.keys[calls[i].at] != offer.keys[calls[j].at],
{
    law_every_match_is_called_once::<S, H, R>(begun, offer, calls, mid, key);
}

/// No handler is called for a packet but that of a registration that was live when its routing began, is live
/// when its turn comes, is for the ingress, and whose filter accepts the packet.
pub proof fn law_only_registrations_for_a_packet_are_called<S, H: PacketHandler<S, R>, R>(
    begun: DispatchState<S, H>,
    offer: Offer,
    calls: Seq<HandlerCall<S, H>>,
    now: DispatchState<S, H>,
    i: int,
)
    requires
        lists_keys(begun.registrations, offer.keys),
        called_so_far::<S, H, R>(begun, offer, calls, now),
        0 <= i < calls.len(),
    ensures
        ({
            let key = offer.keys[calls[i].at];
            &&& begun.registrations.contains_key(key)
            &&& calls[i].before.registrations.contains_key(key)
            &&& calls[i].before.registrations[key].ingress == offer.ingress
            &&& calls[i].before.registrations[key].filter.accepts(offer.packet, offer.directed)
            &&& calls[i].before.registrations[key].handler is Some
        }),
{
    law_calls_go_forward::<S, H, R>(begun, offer, calls, now);
    law_calls_follow_one_another::<S, H, R>(begun, offer, calls, now, i);
    let earlier = calls.take(i);
    if i > 0 {
        assert(earlier.last() == calls[i - 1]);
        assert(calls[i - 1].at >= 0);
    }
    lemma_next_applying(calls[i].before.registrations, offer, turn_after(earlier));
    assert(offer.keys.contains(offer.keys[calls[i].at]));
}

proof fn lemma_a_fold_names_a_type(outcomes: Seq<Outcome>)
    ensures
        fold_outcomes(outcomes) matches Some(outcome) ==> {
            &&& outcomes.contains(outcome)
            &&& outcome.type_spec() is None ==> forall|i: int|
                0 <= i < outcomes.len() ==> (#[trigger] outcomes[i]).type_spec() is None
        },
{
    law_highest_disposition_wins(outcomes);
    if let Some(outcome) = fold_outcomes(outcomes) {
        if outcome.type_spec() is None {
            assert forall|i: int| 0 <= i < outcomes.len() implies (
            #[trigger] outcomes[i]).type_spec() is None by {
                assert(outcomes[i].rank() <= outcome.rank());
            }
        }
    }
}

/// Handlers are reported to disagree on a packet exactly if two of them recognized different messages in it.
pub proof fn law_a_mismatch_is_two_types_for_one_packet(outcomes: Seq<Outcome>)
    ensures
        some_disagree(outcomes) <==> exists|i: int, j: int| {
            &&& 0 <= i < j < outcomes.len()
            &&& (#[trigger] outcomes[i]).type_spec() is Some
            &&& (#[trigger] outcomes[j]).type_spec() is Some
            &&& outcomes[i].type_spec() != outcomes[j].type_spec()
        },
    decreases outcomes.len(),
{
    if outcomes.len() > 0 {
        let before = outcomes.drop_last();
        let n = outcomes.len() - 1;
        assert(outcomes.last() == outcomes[n]);
        law_a_mismatch_is_two_types_for_one_packet(before);
        lemma_a_fold_names_a_type(before);
        if some_disagree(outcomes) {
            if some_disagree(before) {
                let (i, j) = choose|i: int, j: int| {
                    &&& 0 <= i < j < before.len()
                    &&& (#[trigger] before[i]).type_spec() is Some
                    &&& (#[trigger] before[j]).type_spec() is Some
                    &&& before[i].type_spec() != before[j].type_spec()
                };
                assert(outcomes[i] == before[i] && outcomes[j] == before[j]);
            } else {
                let outcome = fold_outcomes(before)->0;
                let i = before.index_of(outcome);
                assert(outcomes[i] == outcome);
                assert(outcomes[n].type_spec() is Some);
            }
        }
        if exists|i: int, j: int| {
            &&& 0 <= i < j < outcomes.len()
            &&& (#[trigger] outcomes[i]).type_spec() is Some
            &&& (#[trigger] outcomes[j]).type_spec() is Some
            &&& outcomes[i].type_spec() != outcomes[j].type_spec()
        } {
            let (i, j) = choose|i: int, j: int| {
                &&& 0 <= i < j < outcomes.len()
                &&& (#[trigger] outcomes[i]).type_spec() is Some
                &&& (#[trigger] outcomes[j]).type_spec() is Some
                &&& outcomes[i].type_spec() != outcomes[j].type_spec()
            };
            assert(before[i] == outcomes[i]);
            if j < n {
                assert(before[j] == outcomes[j]);
            } else if !some_disagree(before) {
                law_highest_disposition_wins(before);
                let outcome = fold_outcomes(before)->0;
                let k = before.index_of(outcome);
                assert(before[k] == outcome);
                assert(outcome.type_spec() is Some) by {
                    if outcome.type_spec() is None {
                        assert(before[i].type_spec() is None);
                    }
                }
                if before[k].type_spec() != before[i].type_spec() {
                    if k < i {
                        assert(before[k].type_spec() is Some && before[i].type_spec() is Some);
                    } else {
                        assert(before[i].type_spec() is Some && before[k].type_spec() is Some);
                    }
                }
            }
        }
    }
}

/// What becomes of a routed packet is told by its handlers alone: it was no echo, nothing where none was called,
/// and else the one outcome that stands for all.
pub proof fn law_a_packet_fares_as_its_handlers_say(routed: Routed, outcomes: Seq<Outcome>)
    requires
        routed.tells(outcomes),
    ensures
        !routed.echoed,
        routed.outcome is None <==> outcomes.len() == 0,
        routed.outcome matches Some(outcome) ==> outcomes.contains(outcome),
        routed.outcome is Some && routed.outcome->0 is Reflected <==> exists|i: int|
            0 <= i < outcomes.len() && #[trigger] outcomes[i] is Reflected,
        routed.type_mismatch <==> exists|i: int, j: int| {
            &&& 0 <= i < j < outcomes.len()
            &&& (#[trigger] outcomes[i]).type_spec() is Some
            &&& (#[trigger] outcomes[j]).type_spec() is Some
            &&& outcomes[i].type_spec() != outcomes[j].type_spec()
        },
{
    law_highest_disposition_wins(outcomes);
    law_a_mismatch_is_two_types_for_one_packet(outcomes);
    if outcomes.len() > 0 {
        law_one_reflection_makes_a_packet_reflected(outcomes);
    }
}

/// The outcomes told of are those the handlers reported, each once and in the order they were called.
pub proof fn law_every_report_is_told<S, H>(calls: Seq<HandlerCall<S, H>>, i: int)
    requires
        0 <= i < calls.len(),
    ensures
        reported(calls).len() == calls.len(),
        reported(calls)[i] == calls[i].outcome,
{
}

/// A routed packet is numbered, and counted once: with its outcome, on the capture it came in on, where any
/// handler was called, and nowhere else. Nothing is scheduled by it.
pub proof fn law_a_packet_is_counted_on_its_ingress<S, H>(
    before: DispatchState<S, H>,
    after: DispatchState<S, H>,
    ingress: CaptureKey,
    outcome: Option<Outcome>,
    j: int,
)
    requires
        packet_counted(before, after, ingress, outcome),
        0 <= j < before.rows.len(),
    ensures
        after.packet == before.packet + 1,
        !after.routing,
        after.report == before.report,
        after.next_reconcile == before.next_reconcile,
        j != ingress.0 || outcome is None ==> after.rows[j].counters == before.rows[j].counters,
        j == ingress.0 && outcome is Some ==> before.rows[j].counters.after_outcome(
            after.rows[j].counters,
            outcome->0,
        ),
{
}

/// Ending a routing counts its outcome on the ingress, where there is one, ends the routing, and does nothing
/// else.
pub proof fn law_ending_a_routing_only_counts<S, H>(
    before: DispatchState<S, H>,
    after: DispatchState<S, H>,
    ingress: CaptureKey,
    outcome: Option<Outcome>,
    j: int,
)
    requires
        route_ended(before, after, ingress, outcome),
        ingress.0 < before.rows.len(),
        0 <= j < before.rows.len(),
    ensures
        !after.routing,
        after.packet == before.packet,
        after.registrations == before.registrations,
        after.issued == before.issued,
        after.interfaces == before.interfaces,
        after.report == before.report,
        after.next_reconcile == before.next_reconcile,
        after.rows.len() == before.rows.len(),
        j != ingress.0 || outcome is None ==> after.rows[j] == before.rows[j],
        after.rows[j].capture == before.rows[j].capture,
        after.rows[j].interface == before.rows[j].interface,
        after.rows[j].last_sent == before.rows[j].last_sent,
        j == ingress.0 && outcome is Some ==> before.rows[j].counters.after_outcome(
            after.rows[j].counters,
            outcome->0,
        ),
{
}

/// An echo is counted on the ingress, and nothing else comes of it: no packet is numbered, no handler called, no
/// other count touched.
pub proof fn law_an_echo_is_only_counted<S, H>(
    before: DispatchState<S, H>,
    after: DispatchState<S, H>,
    ingress: CaptureKey,
    j: int,
)
    requires
        echo_counted(before, after, ingress),
        ingress.0 < before.rows.len(),
        before.rows[ingress.0 as int].counters.echoed_spec() < u64::MAX,
        0 <= j < before.rows.len(),
    ensures
        after.rows[ingress.0 as int].counters.echoed_spec()
            == before.rows[ingress.0 as int].counters.echoed_spec() + 1,
        after.rows[ingress.0 as int].counters.filtered_spec()
            == before.rows[ingress.0 as int].counters.filtered_spec(),
        after.rows.len() == before.rows.len(),
        j != ingress.0 ==> after.rows[j] == before.rows[j],
        after.packet == before.packet,
        after.routing == before.routing,
        after.registrations == before.registrations,
        after.interfaces == before.interfaces,
        after.report == before.report,
        after.next_reconcile == before.next_reconcile,
{
}

/// The hardware address and the directed broadcast that a packet is held against are those of the interface it
/// came in on; a capture that is not known has neither.
pub proof fn law_a_packet_is_held_against_its_own_interface<S, H>(
    state: DispatchState<S, H>,
    ingress: CaptureKey,
)
    ensures
        ingress.0 >= state.rows.len() ==> state.own_mac(ingress) is None && state.directed_broadcast(
            ingress,
        ) is None,
        ingress.0 < state.rows.len() && state.rows[ingress.0 as int].interface.0
            < state.interfaces.len() ==> {
            let addrs =
                state.interfaces[state.rows[ingress.0 as int].interface.0 as int].interface.addrs;
            &&& state.own_mac(ingress) == addrs.mac
            &&& state.directed_broadcast(ingress) == addrs.v4_directed_broadcast
        },
{
}

/// Beginning a routing numbers the packet and marks that one is being routed, and does nothing else. What is
/// offered is that packet, on its ingress, with that link's directed broadcast, to the registrations listed.
pub proof fn law_a_routing_begins_with_the_next_number<S, H>(
    state: DispatchState<S, H>,
    ingress: CaptureKey,
    packet: Packet,
    keys: Seq<Key>,
)
    requires
        state.packet < u64::MAX,
    ensures
        state.routing_begun().packet == state.packet + 1,
        state.routing_begun().routing,
        state.routing_begun().rows == state.rows,
        state.routing_begun().interfaces == state.interfaces,
        state.routing_begun().registrations == state.registrations,
        state.routing_begun().report == state.report,
        state.routing_begun().next_reconcile == state.next_reconcile,
        state.offer(ingress, packet, keys).packet == packet,
        state.offer(ingress, packet, keys).ingress == ingress,
        state.offer(ingress, packet, keys).keys == keys,
        state.offer(ingress, packet, keys).directed == state.directed_broadcast(ingress),
{
}

/// No registration is for a packet exactly if each live one is for another capture or has a filter that rejects
/// it there.
pub proof fn law_a_packet_for_nobody_is_rejected_by_everybody<S, H>(
    state: DispatchState<S, H>,
    ingress: CaptureKey,
    packet: Packet,
)
    ensures
        state.none_applies(ingress, packet) <==> forall|key: Key| #[trigger]
            state.registrations.contains_key(key) && state.registrations[key].ingress == ingress
                ==> !state.registrations[key].filter.accepts(
                packet,
                state.directed_broadcast(ingress),
            ),
{
}

/// A handler called for a packet had its own method called, as it was in its slot, with that packet, in the
/// state with its slot empty; and what it reported, and how it and the dispatcher were left, is what its own
/// contract says of such a call.
pub proof fn law_a_call_is_the_handlers_own<S, H: PacketHandler<S, R>, R>(
    offer: Offer,
    earlier: Seq<HandlerCall<S, H>>,
    call: HandlerCall<S, H>,
    now: DispatchState<S, H>,
)
    requires
        call_made::<S, H, R>(offer, earlier, call, now),
    ensures
        ({
            let key = offer.keys[call.at];
            &&& call.before.registrations[key].handler == Some(call.handler(key))
            &&& call.taken(key).registrations[key].handler is None
            &&& exists|h: &mut H, d: &mut PacketDispatcher<S, H>, x: &mut R| #[trigger]
                call_ensures(
                    <H as PacketHandler<S, R>>::on_packet,
                    (h, &offer.packet, d, x),
                    call.outcome,
                ) && *h == call.handler(key) && (*d)@ == call.taken(key)
            &&& <H as PacketHandler<S, R>>::took(
                call.handler(key),
                offer.packet,
                call.taken(key),
                call.after,
                call.left,
                call.outcome,
            )
            &&& call.left.registrations.contains_key(key) ==> now.registrations.contains_key(key)
                && now.registrations[key].handler == Some(call.after)
            &&& !call.left.registrations.contains_key(key) ==> now == call.left
            &&& now.rows == call.left.rows
            &&& now.interfaces == call.left.interfaces
        }),
{
}

/// The search for the next handler goes on right after the one called last, and begins with the first.
pub proof fn law_the_search_goes_on_after_the_last_call<S, H>(
    calls: Seq<HandlerCall<S, H>>,
    call: HandlerCall<S, H>,
)
    ensures
        turn_after(Seq::<HandlerCall<S, H>>::empty()) == 0,
        turn_after(calls.push(call)) == call.at + 1,
{
}

}
