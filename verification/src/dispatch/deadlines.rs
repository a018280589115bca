//! Timed work, and the calls that go to every handler.

use vstd::prelude::*;

use super::handler::PacketHandler;
use super::interface_table::reported_rows;
use super::keys::{CaptureKey, RegistrationKey};
use super::routing::lemma_a_call_is_steady;
use super::{
    later, later_spec, law_keeping_composes, law_live_registrations_were_issued,
    law_steadiness_composes, CounterReport, DispatchState, PacketDispatcher, Registration,
};
use crate::arena::{lists_keys, Key};
use crate::counters::CaptureCounters;

verus! {

/// What is due besides the handlers' own deadlines.
#[derive(Clone, Copy, PartialEq, Eq, Structural, Debug)]
pub struct DeadlineWork {
    /// Report the counters.
    pub report: bool,
    /// Run a reconcile pass.
    pub reconcile: bool,
}

/// Whether a deadline has come by `now`.
pub open spec fn is_due_spec(deadline: Option<u64>, now: u64) -> bool {
    deadline matches Some(at) && at <= now
}

/// Whether a deadline has come by `now`.
pub fn is_due(deadline: Option<u64>, now: u64) -> (r: bool)
    ensures
        r == is_due_spec(deadline, now),
{
    match deadline {
        Some(at) => at <= now,
        None => false,
    }
}

fn sooner(a: u64, b: Option<u64>) -> (r: u64)
    ensures
        r <= a,
        b matches Some(b) ==> r <= b,
        r == a || b == Some(r),
{
    match b {
        Some(b) => {
            if b < a {
                b
            } else {
                a
            }
        },
        None => a,
    }
}

/// Whether `deadline` is what the handler of a registration may give; one that is out gives none.
pub open spec fn deadline_of<S, H: PacketHandler<S, R>, R>(
    registration: Registration<H>,
    deadline: Option<u64>,
) -> bool {
    match registration.handler {
        Some(handler) => call_ensures(
            <H as PacketHandler<S, R>>::next_deadline,
            (&handler,),
            deadline,
        ),
        None => deadline is None,
    }
}

/// Whether `keys` lists every live registration and `deadlines` what its handler may give.
pub open spec fn deadlines_of<S, H: PacketHandler<S, R>, R>(
    registrations: Map<Key, Registration<H>>,
    keys: Seq<Key>,
    deadlines: Seq<Option<u64>>,
) -> bool {
    &&& lists_keys(registrations, keys)
    &&& deadlines.len() == keys.len()
    &&& forall|i: int|
        0 <= i < keys.len() ==> deadline_of::<S, H, R>(
            registrations[keys[i]],
            #[trigger] deadlines[i],
        )
}

/// Those of the first `n` registrations whose deadline has come by `now`, in order.
pub open spec fn due_among(
    keys: Seq<Key>,
    deadlines: Seq<Option<u64>>,
    now: u64,
    n: int,
) -> Seq<Key>
    decreases n,
{
    if n <= 0 {
        Seq::empty()
    } else {
        let before = due_among(keys, deadlines, now, n - 1);
        if is_due_spec(deadlines[n - 1], now) {
            before.push(keys[n - 1])
        } else {
            before
        }
    }
}

/// Why handlers are called one after the other.
pub enum Summons {
    /// The interfaces behind these captures changed.
    Changed(Vec<CaptureKey>),
    /// Their deadlines have come.
    Due(u64),
}

/// Whether `handler` was called for this reason in this state.
pub open spec fn summoned<S, H: PacketHandler<S, R>, R>(
    summons: Summons,
    handler: H,
    state: DispatchState<S, H>,
) -> bool {
    match summons {
        Summons::Changed(captures) => exists|
            h: &mut H,
            d: &mut PacketDispatcher<S, H>,
            x: &mut R,
        | #[trigger]
            call_ensures(<H as PacketHandler<S, R>>::on_iface_change, (h, &captures, d, x), ())
                && *h == handler && (*d)@ == state,
        Summons::Due(now) => exists|
            h: &mut H,
            d: &mut PacketDispatcher<S, H>,
            x: &mut R,
        | #[trigger]
            call_ensures(<H as PacketHandler<S, R>>::on_deadline, (h, now, d, x), ()) && *h
                == handler && (*d)@ == state,
    }
}

/// Whether one call of `handler` for this reason, in this state, may leave it as `after` and the state as
/// `left`.
pub open spec fn responded<S, H: PacketHandler<S, R>, R>(
    summons: Summons,
    handler: H,
    state: DispatchState<S, H>,
    after: H,
    left: DispatchState<S, H>,
) -> bool {
    &&& state.left_by_a_call(left)
    &&& {
        ||| after == handler && left == state
        ||| match summons {
            Summons::Changed(captures) => <H as PacketHandler<S, R>>::heeded(
                handler,
                captures,
                state,
                after,
                left,
            ),
            Summons::Due(now) => <H as PacketHandler<S, R>>::kept_time(
                handler,
                now,
                state,
                after,
                left,
            ),
        }
    }
}

/// The turn of one registration while handlers are called one after the other.
#[verifier::ext_equal]
pub struct Turn<S, H> {
    /// The state in which the turn came.
    pub before: DispatchState<S, H>,
    /// Where its handler was called, the handler and the state as the call left them, the handler still
    /// out of its slot.
    pub call: Option<(H, DispatchState<S, H>)>,
}

impl<S, H> Turn<S, H> {
    /// The handler of `key` as its turn came.
    pub open spec fn handler(self, key: Key) -> H {
        self.before.registrations[key].handler->0
    }

    /// The state with the handler of `key` out of its slot for its call.
    pub open spec fn taken(self, key: Key) -> DispatchState<S, H> {
        self.before.with_handler(key, None)
    }

    /// The handler as its call left it.
    pub open spec fn handler_after(self) -> H {
        (self.call->0).0
    }

    /// The state as the call left it, the handler still out of its slot.
    pub open spec fn left(self) -> DispatchState<S, H> {
        (self.call->0).1
    }

    /// Whether a call made in this turn left a registration there.
    pub open spec fn spares(self, key: Key) -> bool {
        self.call matches Some((_, left)) ==> left.registrations.contains_key(key)
    }
}

/// Whether this was the turn of `key`, and ended in the state `now`. A handler that was there was called
/// once, out of its slot, and is back in it `now` unless its registration is gone. Where none was there,
/// nothing happened.
pub open spec fn turn_taken<S, H: PacketHandler<S, R>, R>(
    summons: Summons,
    key: Key,
    turn: Turn<S, H>,
    now: DispatchState<S, H>,
) -> bool {
    let before = turn.before;
    if before.registrations.contains_key(key) && before.registrations[key].handler is Some {
        let handler = before.registrations[key].handler->0;
        let taken = before.with_handler(key, None);
        &&& turn.call matches Some((after, left))
        &&& summoned::<S, H, R>(summons, handler, taken)
        &&& responded::<S, H, R>(summons, handler, taken, after, left)
        &&& now == left.put_back(key, after)
    } else {
        &&& turn.call is None
        &&& now == before
    }
}

/// Whether these were the turns of the first keys, one after the other, from one state up to another.
pub open spec fn swept<S, H: PacketHandler<S, R>, R>(
    summons: Summons,
    keys: Seq<Key>,
    turns: Seq<Turn<S, H>>,
    begun: DispatchState<S, H>,
    now: DispatchState<S, H>,
) -> bool
    decreases turns.len(),
{
    if turns.len() == 0 {
        now == begun
    } else {
        &&& swept::<S, H, R>(summons, keys, turns.drop_last(), begun, turns.last().before)
        &&& turn_taken::<S, H, R>(summons, keys[turns.len() - 1], turns.last(), now)
    }
}

/// Whether every one of the keys had its turn, in order, from one state to another.
pub open spec fn all_swept<S, H: PacketHandler<S, R>, R>(
    summons: Summons,
    keys: Seq<Key>,
    turns: Seq<Turn<S, H>>,
    before: DispatchState<S, H>,
    after: DispatchState<S, H>,
) -> bool {
    &&& turns.len() == keys.len()
    &&& swept::<S, H, R>(summons, keys, turns, before, after)
}

/// How handlers were told, one after the other, that interfaces changed.
#[verifier::ext_equal]
pub struct Telling<S, H> {
    /// The registrations live when it began.
    pub keys: Seq<Key>,
    /// The turn of each of them.
    pub turns: Seq<Turn<S, H>>,
    /// The state once all of them were told.
    pub after: DispatchState<S, H>,
}

/// Whether this is how every handler was told that the interfaces behind `captures` changed. Nothing is
/// told where none did.
pub open spec fn notified<S, H: PacketHandler<S, R>, R>(
    captures: Vec<CaptureKey>,
    before: DispatchState<S, H>,
    telling: Telling<S, H>,
) -> bool {
    if captures@.len() == 0 {
        &&& telling.turns.len() == 0
        &&& telling.after == before
    } else {
        &&& lists_keys(before.registrations, telling.keys)
        &&& all_swept::<S, H, R>(
            Summons::Changed(captures),
            telling.keys,
            telling.turns,
            before,
            telling.after,
        )
    }
}

/// Whether no live registration's handler can have a deadline by `now`.
pub open spec fn none_due<S, H: PacketHandler<S, R>, R>(
    registrations: Map<Key, Registration<H>>,
    now: u64,
) -> bool {
    forall|key: Key, d: Option<u64>|
        registrations.contains_key(key) && #[trigger] deadline_of::<S, H, R>(registrations[key], d)
            ==> !is_due_spec(d, now)
}

impl<S, H> DispatchState<S, H> {
    /// When the counters are reported next.
    pub open spec fn next_report(self) -> Option<u64> {
        match self.report {
            Some(report) => Some(report.next),
            None => None,
        }
    }

    /// Whether `at` is the soonest of the handlers' deadlines, the next proxy's grace, the next report,
    /// and the next reconcile pass.
    pub open spec fn is_soonest(
        self,
        handlers: Seq<Option<u64>>,
        grace: Option<u64>,
        at: u64,
    ) -> bool {
        &&& at <= self.next_reconcile
        &&& self.next_report() matches Some(next) ==> at <= next
        &&& grace matches Some(next) ==> at <= next
        &&& forall|i: int| 0 <= i < handlers.len() ==> {
            (#[trigger] handlers[i]) matches Some(next) ==> at <= next
        }
        &&& {
            ||| at == self.next_reconcile
            ||| self.next_report() == Some(at)
            ||| grace == Some(at)
            ||| handlers.contains(Some(at))
        }
    }

    /// What is due at `now` besides the handlers' own deadlines.
    pub open spec fn work(self, now: u64) -> DeadlineWork {
        DeadlineWork { report: is_due_spec(self.next_report(), now), reconcile: now >= self.next_reconcile }
    }

    /// This with a due report set to its next time.
    pub open spec fn rescheduled(self, now: u64) -> Self {
        match self.report {
            Some(report) => if now >= report.next {
                DispatchState {
                    report: Some(
                        CounterReport { next: later_spec(now, report.interval), ..report },
                    ),
                    ..self
                }
            } else {
                self
            },
            None => self,
        }
    }
}

impl<S, H> PacketDispatcher<S, H> {
    /// The soonest of the handlers' deadlines, the next proxy's `grace`, the next report, and the next
    /// reconcile pass.
    pub fn soonest(&self, handlers: &Vec<Option<u64>>, grace: Option<u64>) -> (r: u64)
        ensures
            self@.is_soonest(handlers@, grace, r),
    {
        let mut at: u64 = sooner(self.next_reconcile, grace);
        if let Some(report) = self.report {
            at = sooner(at, Some(report.next));
        }
        let mut i: usize = 0;
        while i < handlers.len()
            invariant
                i <= handlers@.len(),
                self@.is_soonest(handlers@.take(i as int), grace, at),
            decreases handlers@.len() - i,
        {
            let ghost before = at;
            at = sooner(at, handlers[i]);
            proof {
                let so_far = handlers@.take(i + 1);
                assert(so_far[i as int] == handlers@[i as int]);
                assert forall|j: int| 0 <= j < so_far.len() implies {
                    (#[trigger] so_far[j]) matches Some(next) ==> at <= next
                } by {
                    if j < i {
                        assert(handlers@.take(i as int)[j] == so_far[j]);
                    }
                }
                if handlers@.take(i as int).contains(Some(before)) {
                    let j = handlers@.take(i as int).index_of(Some(before));
                    assert(so_far[j] == Some(before));
                }
            }
            i += 1;
        }
        assert(handlers@.take(i as int) =~= handlers@);
        at
    }

    /// The soonest deadline of all: the event loop waits no longer.
    pub fn next_deadline<R>(&self, grace: Option<u64>) -> (r: Option<u64>) where H: PacketHandler<S, R>
        requires
            self.wf(),
        ensures
            r is Some,
            exists|keys: Seq<Key>, deadlines: Seq<Option<u64>>| #[trigger]
                deadlines_of::<S, H, R>(self@.registrations, keys, deadlines) && self@.is_soonest(
                    deadlines,
                    grace,
                    r->0,
                ),
    {
        let keys = self.registrations.keys();
        let mut deadlines: Vec<Option<u64>> = Vec::new();
        let mut i: usize = 0;
        while i < keys.len()
            invariant
                i <= keys@.len(),
                lists_keys(self@.registrations, keys@),
                deadlines@.len() == i,
                forall|j: int|
                    0 <= j < i ==> deadline_of::<S, H, R>(
                        self@.registrations[keys@[j]],
                        #[trigger] deadlines@[j],
                    ),
            decreases keys@.len() - i,
        {
            assert(keys@.contains(keys@[i as int]));
            let deadline = match self.registrations.get(keys[i]) {
                Some(registration) => match &registration.handler {
                    Some(handler) => handler.next_deadline(),
                    None => None,
                },
                None => None,
            };
            deadlines.push(deadline);
            i += 1;
        }
        assert(deadlines_of::<S, H, R>(self@.registrations, keys@, deadlines@));
        Some(self.soonest(&deadlines, grace))
    }

    /// What is due at `now` besides the handlers' own deadlines. A due report is set to its next time.
    pub fn due_work(&mut self, now: u64) -> (r: DeadlineWork)
        requires
            old(self).wf(),
        ensures
            final(self).wf(),
            r == old(self)@.work(now),
            final(self)@ == old(self)@.rescheduled(now),
    {
        let mut due = false;
        if let Some(report) = self.report {
            if now >= report.next {
                due = true;
                self.report = Some(
                    CounterReport { next: later(now, report.interval), ..report },
                );
            }
        }
        DeadlineWork { report: due, reconcile: now >= self.next_reconcile }
    }

    /// The registrations whose handler's deadline has come by `now`, in slot order.
    pub fn due_handlers<R>(&self, now: u64) -> (r: Vec<Key>) where H: PacketHandler<S, R>
        requires
            self.wf(),
        ensures
            exists|keys: Seq<Key>, deadlines: Seq<Option<u64>>| #[trigger]
                deadlines_of::<S, H, R>(self@.registrations, keys, deadlines) && r@ == due_among(
                    keys,
                    deadlines,
                    now,
                    keys.len() as int,
                ),
    {
        let keys = self.registrations.keys();
        let mut due: Vec<Key> = Vec::new();
        let ghost mut deadlines: Seq<Option<u64>> = Seq::empty();
        let mut i: usize = 0;
        while i < keys.len()
            invariant
                i <= keys@.len(),
                lists_keys(self@.registrations, keys@),
                deadlines.len() == i,
                forall|j: int|
                    0 <= j < i ==> deadline_of::<S, H, R>(
                        self@.registrations[keys@[j]],
                        #[trigger] deadlines[j],
                    ),
                due@ == due_among(keys@, deadlines, now, i as int),
            decreases keys@.len() - i,
        {
            let key = keys[i];
            assert(keys@.contains(keys@[i as int]));
            let deadline = match self.registrations.get(key) {
                Some(registration) => match &registration.handler {
                    Some(handler) => handler.next_deadline(),
                    None => None,
                },
                None => None,
            };
            let ghost before = deadlines;
            proof {
                deadlines = deadlines.push(deadline);
                lemma_same_due(keys@, before, deadlines, now, i as int);
            }
            if is_due(deadline, now) {
                due.push(key);
            }
            i += 1;
        }
        assert(deadlines_of::<S, H, R>(self@.registrations, keys@, deadlines));
        due
    }

    /// Call every handler whose deadline has come by `now`, in slot order, and say what else is due. A
    /// handler that an earlier one removed is not called. What the handlers do is theirs: `turns` tells
    /// what each was handed and left, and `mid` is what the last one left, its handler back in its slot.
    pub fn on_deadline<R>(&mut self, now: u64, reactor: &mut R) -> (r: DeadlineWork) where
        H: PacketHandler<S, R>,

        requires
            old(self).wf(),
        ensures
            final(self).wf(),
            old(self)@.kept_by(final(self)@),
            old(self)@.handlers_home() ==> final(self)@.handlers_home(),
            r == old(self)@.work(now),
            old(self)@.rescheduled(now).steady_by(final(self)@),
            exists|
                keys: Seq<Key>,
                deadlines: Seq<Option<u64>>,
                due: Seq<Key>,
                turns: Seq<Turn<S, H>>,
                mid: DispatchState<S, H>,
            | {
                &&& due == due_among(keys, deadlines, now, keys.len() as int)
                &&& #[trigger] deadlines_of::<S, H, R>(old(self)@.registrations, keys, deadlines)
                &&& #[trigger] all_swept::<S, H, R>(Summons::Due(now), due, turns, old(self)@, mid)
                &&& forall|i: int|
                    0 <= i < turns.len() && (#[trigger] turns[i]).call is Some ==> exists|
                        h: &mut H,
                        d: &mut PacketDispatcher<S, H>,
                        x: &mut R,
                    | #[trigger]
                        call_ensures(<H as PacketHandler<S, R>>::on_deadline, (h, now, d, x), ()) && *h
                            == turns[i].handler(due[i]) && (*d)@ == turns[i].taken(due[i]) && *final(h)
                            == turns[i].handler_after() && (*final(d))@ == turns[i].left()
                &&& final(self)@ == mid.rescheduled(now)
            },
            none_due::<S, H, R>(old(self)@.registrations, now) ==> final(self)@ == old(
                self,
            )@.rescheduled(now),
    {
        let due = self.due_handlers::<R>(now);
        let ghost (keys, deadlines) = choose|keys: Seq<Key>, deadlines: Seq<Option<u64>>| #[trigger]
            deadlines_of::<S, H, R>(self@.registrations, keys, deadlines) && due@ == due_among(
                keys,
                deadlines,
                now,
                keys.len() as int,
            );
        proof {
            if none_due::<S, H, R>(self@.registrations, now) {
                assert forall|i: int| 0 <= i < keys.len() implies !is_due_spec(
                    #[trigger] deadlines[i],
                    now,
                ) by {
                    assert(keys.contains(keys[i]));
                }
                lemma_nothing_due(keys, deadlines, now, keys.len() as int);
            }
        }
        let ghost mut turns: Seq<Turn<S, H>> = Seq::empty();
        proof {
            law_live_registrations_were_issued(*self);
        }
        let mut i: usize = 0;
        while i < due.len()
            invariant
                i <= due@.len(),
                self.wf(),
                old(self)@.kept_by(self@),
                old(self)@.live_were_issued(),
                old(self)@.steady_by(self@),
                old(self)@.handlers_home() ==> self@.handlers_home(),
                none_due::<S, H, R>(old(self)@.registrations, now) ==> due@.len() == 0,
                turns.len() == i,
                swept::<S, H, R>(Summons::Due(now), due@, turns, old(self)@, self@),
                forall|i: int|
                    0 <= i < turns.len() && (#[trigger] turns[i]).call is Some ==> exists|
                        h: &mut H,
                        d: &mut PacketDispatcher<S, H>,
                        x: &mut R,
                    | #[trigger]
                        call_ensures(<H as PacketHandler<S, R>>::on_deadline, (h, now, d, x), ()) && *h
                            == turns[i].handler(due@[i]) && (*d)@ == turns[i].taken(due@[i]) && *final(h)
                            == turns[i].handler_after() && (*final(d))@ == turns[i].left(),
            decreases due@.len() - i,
        {
            let key = RegistrationKey(due[i]);
            let ghost before = self@;
            let ghost mut turn = Turn { before, call: None };
            if let Some(mut handler) = self.take_handler(key) {
                let ghost taken = self@;
                let ghost taken_out = handler;
                handler.on_deadline(now, self, reactor);
                let ghost called = self@;
                self.restore_handler(key, handler);
                proof {
                    turn = Turn { before, call: Some((handler, called)) };
                    lemma_a_call_is_steady(before, called, key.0, handler);
                    law_keeping_composes(old(self)@, before, self@);
                    law_steadiness_composes(old(self)@, before, self@);
                    assert(summoned::<S, H, R>(Summons::Due(now), taken_out, taken));
                }
            }
            proof {
                assert(turns.push(turn).drop_last() =~= turns);
                turns = turns.push(turn);
            }
            i += 1;
        }
        let ghost mid = self@;
        let work = self.due_work(now);
        proof {
            law_keeping_composes(old(self)@, mid, self@);
            assert(all_swept::<S, H, R>(Summons::Due(now), due@, turns, old(self)@, mid));
        }
        work
    }

    /// Tell every handler, in slot order, that the interfaces behind `captures` changed. Nothing is told
    /// where none did. A handler that an earlier one removed is not called. What the handlers do is
    /// theirs: `telling` tells what each was handed and left.
    pub fn notify_iface_change<R>(&mut self, captures: &Vec<CaptureKey>, reactor: &mut R) where
        H: PacketHandler<S, R>,

        requires
            old(self).wf(),
        ensures
            final(self).wf(),
            old(self)@.steady_by(final(self)@),
            old(self)@.handlers_home() ==> final(self)@.handlers_home(),
            exists|telling: Telling<S, H>| {
                &&& #[trigger] notified::<S, H, R>(*captures, old(self)@, telling)
                &&& forall|i: int|
                    0 <= i < telling.turns.len() && (#[trigger] telling.turns[i]).call is Some ==> exists|
                        h: &mut H,
                        d: &mut PacketDispatcher<S, H>,
                        x: &mut R,
                    | #[trigger]
                        call_ensures(
                            <H as PacketHandler<S, R>>::on_iface_change,
                            (h, captures, d, x),
                            (),
                        ) && *h == telling.turns[i].handler(telling.keys[i]) && (*d)@
                            == telling.turns[i].taken(telling.keys[i]) && *final(h)
                            == telling.turns[i].handler_after() && (*final(d))@
                            == telling.turns[i].left()
                &&& final(self)@ == telling.after
            },
            captures@.len() == 0 || old(self)@.registrations.is_empty() ==> final(self)@ == old(self)@,
    {
        let telling = self.tell_handlers(captures, reactor);
        assert(notified::<S, H, R>(*captures, old(self)@, telling@));
    }

    /// Tell every handler, as [`notify_iface_change`](Self::notify_iface_change) does, and how.
    pub(crate) fn tell_handlers<R>(&mut self, captures: &Vec<CaptureKey>, reactor: &mut R) -> (telling:
        Ghost<Telling<S, H>>) where H: PacketHandler<S, R>
        requires
            old(self).wf(),
        ensures
            final(self).wf(),
            old(self)@.steady_by(final(self)@),
            old(self)@.handlers_home() ==> final(self)@.handlers_home(),
            notified::<S, H, R>(*captures, old(self)@, telling@),
            final(self)@ == telling@.after,
            forall|i: int|
                0 <= i < telling@.turns.len() && (#[trigger] telling@.turns[i]).call is Some ==> exists|
                    h: &mut H,
                    d: &mut PacketDispatcher<S, H>,
                    x: &mut R,
                | #[trigger]
                    call_ensures(<H as PacketHandler<S, R>>::on_iface_change, (h, captures, d, x), ())
                        && *h == telling@.turns[i].handler(telling@.keys[i]) && (*d)@
                        == telling@.turns[i].taken(telling@.keys[i]) && *final(h)
                        == telling@.turns[i].handler_after() && (*final(d))@
                        == telling@.turns[i].left(),
            captures@.len() == 0 || old(self)@.registrations.is_empty() ==> final(self)@ == old(self)@,
    {
        if captures.len() == 0 {
            return Ghost(Telling { keys: Seq::empty(), turns: Seq::empty(), after: self@ });
        }
        let keys = self.registrations.keys();
        proof {
            if old(self)@.registrations.is_empty() && keys@.len() > 0 {
                assert(keys@.contains(keys@[0]));
            }
        }
        let ghost summons = Summons::Changed(*captures);
        let ghost mut turns: Seq<Turn<S, H>> = Seq::empty();
        proof {
            law_live_registrations_were_issued(*self);
        }
        let mut i: usize = 0;
        while i < keys.len()
            invariant
                i <= keys@.len(),
                self.wf(),
                old(self)@.kept_by(self@),
                old(self)@.live_were_issued(),
                old(self)@.steady_by(self@),
                old(self)@.handlers_home() ==> self@.handlers_home(),
                old(self)@.registrations.is_empty() ==> keys@.len() == 0,
                summons == Summons::Changed(*captures),
                lists_keys(old(self)@.registrations, keys@),
                turns.len() == i,
                swept::<S, H, R>(summons, keys@, turns, old(self)@, self@),
                forall|i: int|
                    0 <= i < turns.len() && (#[trigger] turns[i]).call is Some ==> exists|
                        h: &mut H,
                        d: &mut PacketDispatcher<S, H>,
                        x: &mut R,
                    | #[trigger]
                        call_ensures(<H as PacketHandler<S, R>>::on_iface_change, (h, captures, d, x), ()) && *h
                            == turns[i].handler(keys@[i]) && (*d)@ == turns[i].taken(keys@[i]) && *final(h)
                            == turns[i].handler_after() && (*final(d))@ == turns[i].left(),
            decreases keys@.len() - i,
        {
            let key = RegistrationKey(keys[i]);
            let ghost before = self@;
            let ghost mut turn = Turn { before, call: None };
            if let Some(mut handler) = self.take_handler(key) {
                let ghost taken = self@;
                let ghost taken_out = handler;
                handler.on_iface_change(captures, self, reactor);
                let ghost called = self@;
                self.restore_handler(key, handler);
                proof {
                    turn = Turn { before, call: Some((handler, called)) };
                    lemma_a_call_is_steady(before, called, key.0, handler);
                    law_keeping_composes(old(self)@, before, self@);
                    law_steadiness_composes(old(self)@, before, self@);
                    assert(summoned::<S, H, R>(summons, taken_out, taken));
                }
            }
            proof {
                assert(turns.push(turn).drop_last() =~= turns);
                turns = turns.push(turn);
            }
            i += 1;
        }
        Ghost(Telling { keys: keys@, turns, after: self@ })
    }

    /// Each capture's interface name and counts, for the periodic report or one asked for.
    pub fn counter_rows(&self) -> (r: Vec<(&str, &CaptureCounters)>)
        ensures
            ({
                let reported = reported_rows(self@.interfaces, self@.rows, self@.rows.len() as int);
                &&& r@.len() == reported.len()
                &&& forall|i: int|
                    0 <= i < r@.len() ==> (#[trigger] r@[i]).0@ == reported[i].0 && *r@[i].1
                        == reported[i].1
            }),
    {
        self.table.counter_rows()
    }

    /// A capture's counts, if it is known.
    pub fn counters(&self, capture: CaptureKey) -> (r: Option<&CaptureCounters>)
        ensures
            match r {
                Some(counters) => {
                    &&& capture.0 < self@.rows.len()
                    &&& *counters == self@.rows[capture.0 as int].counters
                },
                None => capture.0 >= self@.rows.len(),
            },
    {
        self.table.counters(capture)
    }
}

proof fn lemma_same_due(
    keys: Seq<Key>,
    before: Seq<Option<u64>>,
    after: Seq<Option<u64>>,
    now: u64,
    n: int,
)
    requires
        0 <= n <= before.len() <= after.len(),
        forall|i: int| 0 <= i < n ==> before[i] == after[i],
    ensures
        due_among(keys, before, now, n) == due_among(keys, after, now, n),
    decreases n,
{
    if n > 0 {
        lemma_same_due(keys, before, after, now, n - 1);
    }
}

proof fn lemma_nothing_due(keys: Seq<Key>, deadlines: Seq<Option<u64>>, now: u64, n: int)
    requires
        0 <= n <= deadlines.len(),
        forall|i: int| 0 <= i < n ==> !is_due_spec(#[trigger] deadlines[i], now),
    ensures
        due_among(keys, deadlines, now, n).len() == 0,
    decreases n,
{
    if n > 0 {
        lemma_nothing_due(keys, deadlines, now, n - 1);
    }
}

/// The registrations due are those whose handler's deadline has come, each once.
pub proof fn law_due_registrations_are_due_once<S, H: PacketHandler<S, R>, R>(
    registrations: Map<Key, Registration<H>>,
    keys: Seq<Key>,
    deadlines: Seq<Option<u64>>,
    now: u64,
)
    requires
        deadlines_of::<S, H, R>(registrations, keys, deadlines),
    ensures
        due_among(keys, deadlines, now, keys.len() as int).no_duplicates(),
        forall|i: int| #![trigger keys[i]]
            0 <= i < keys.len() ==> (due_among(keys, deadlines, now, keys.len() as int).contains(
                keys[i],
            ) <==> is_due_spec(deadlines[i], now)),
{
    lemma_due_among(keys, deadlines, now, keys.len() as int);
}

proof fn lemma_due_among(keys: Seq<Key>, deadlines: Seq<Option<u64>>, now: u64, n: int)
    requires
        0 <= n <= keys.len(),
        forall|i: int, j: int| 0 <= i < j < keys.len() ==> keys[i].index < keys[j].index,
    ensures
        due_among(keys, deadlines, now, n).no_duplicates(),
        forall|key: Key| #[trigger]
            due_among(keys, deadlines, now, n).contains(key) ==> exists|i: int|
                0 <= i < n && #[trigger] keys[i] == key,
        forall|i: int| #![trigger keys[i]]
            0 <= i < n ==> (due_among(keys, deadlines, now, n).contains(keys[i]) <==> is_due_spec(
                deadlines[i],
                now,
            )),
    decreases n,
{
    if n > 0 {
        lemma_due_among(keys, deadlines, now, n - 1);
        let before = due_among(keys, deadlines, now, n - 1);
        let all = due_among(keys, deadlines, now, n);
        let newest = keys[n - 1];
        assert(!before.contains(newest)) by {
            if before.contains(newest) {
                let i = choose|i: int| 0 <= i < n - 1 && #[trigger] keys[i] == newest;
                assert(keys[i].index < keys[n - 1].index);
            }
        }
        if is_due_spec(deadlines[n - 1], now) {
            assert(all[before.len() as int] == newest);
        }
        assert forall|key: Key| #[trigger] all.contains(key) == (before.contains(key) || (
        is_due_spec(deadlines[n - 1], now) && key == newest)) by {
            if before.contains(key) {
                let k = before.index_of(key);
                assert(all[k] == key);
            }
            if all.contains(key) {
                let k = all.index_of(key);
                if k < before.len() {
                    assert(before[k] == key);
                }
            }
        }
        assert forall|key: Key| #[trigger] all.contains(key) implies exists|i: int|
            0 <= i < n && #[trigger] keys[i] == key by {
            if key == newest {
                assert(keys[n - 1] == key);
            } else {
                let i = choose|i: int| 0 <= i < n - 1 && #[trigger] keys[i] == key;
                assert(keys[i] == key);
            }
        }
        assert forall|i: int| #![trigger keys[i]] 0 <= i < n implies (all.contains(keys[i])
            <==> is_due_spec(deadlines[i], now)) by {
            if i < n - 1 {
                assert(keys[i].index < keys[n - 1].index);
            }
        }
        assert(all.no_duplicates()) by {
            assert forall|i: int, j: int| 0 <= i < j < all.len() implies all[i] != all[j] by {
                assert(before[i] == all[i]);
                assert(before.contains(all[i]));
                if j < before.len() {
                    assert(before[j] == all[j]);
                }
            }
        }
    }
}

/// Every turn begins where the one before it ended, the first where the calls began: nothing happens
/// between two of them but that a handler goes back to its slot.
pub proof fn law_turns_follow_one_another<S, H: PacketHandler<S, R>, R>(
    summons: Summons,
    keys: Seq<Key>,
    turns: Seq<Turn<S, H>>,
    begun: DispatchState<S, H>,
    now: DispatchState<S, H>,
    i: int,
)
    requires
        swept::<S, H, R>(summons, keys, turns, begun, now),
        0 <= i < turns.len(),
    ensures
        turns[0].before == begun,
        turn_taken::<S, H, R>(
            summons,
            keys[i],
            turns[i],
            if i + 1 < turns.len() {
                turns[i + 1].before
            } else {
                now
            },
        ),
    decreases turns.len(),
{
    let earlier = turns.drop_last();
    if i < earlier.len() {
        law_turns_follow_one_another::<S, H, R>(
            summons,
            keys,
            earlier,
            begun,
            turns.last().before,
            i,
        );
    } else if earlier.len() > 0 {
        law_turns_follow_one_another::<S, H, R>(
            summons,
            keys,
            earlier,
            begun,
            turns.last().before,
            0,
        );
    } else {
        reveal_with_fuel(swept, 2);
    }
}

/// However many handlers are called one after the other, they leave every count, the deadlines, and the
/// routing of a packet under way as they were.
pub proof fn law_a_sweep_is_steady<S, H: PacketHandler<S, R>, R>(
    summons: Summons,
    keys: Seq<Key>,
    turns: Seq<Turn<S, H>>,
    begun: DispatchState<S, H>,
    now: DispatchState<S, H>,
)
    requires
        begun.live_were_issued(),
        swept::<S, H, R>(summons, keys, turns, begun, now),
    ensures
        begun.steady_by(now),
    decreases turns.len(),
{
    if turns.len() > 0 {
        let last = turns.last();
        let key = keys[turns.len() - 1];
        law_a_sweep_is_steady::<S, H, R>(summons, keys, turns.drop_last(), begun, last.before);
        if let Some((after, left)) = last.call {
            lemma_a_call_is_steady(last.before, left, key, after);
            law_steadiness_composes(begun, last.before, now);
        }
    }
}

/// A registration that none of the handlers called removed is there after all of them, for the same
/// packets, and with its own handler: as its own call left it where it was called, and as it was where it
/// was not.
pub proof fn law_a_registration_no_call_removed_stays<S, H: PacketHandler<S, R>, R>(
    summons: Summons,
    keys: Seq<Key>,
    turns: Seq<Turn<S, H>>,
    begun: DispatchState<S, H>,
    now: DispatchState<S, H>,
    key: Key,
)
    requires
        keys.no_duplicates(),
        turns.len() <= keys.len(),
        swept::<S, H, R>(summons, keys, turns, begun, now),
        begun.registrations.contains_key(key),
        forall|i: int| 0 <= i < turns.len() ==> (#[trigger] turns[i]).spares(key),
    ensures
        now.registrations.contains_key(key),
        now.registrations[key].ingress == begun.registrations[key].ingress,
        now.registrations[key].filter == begun.registrations[key].filter,
        forall|i: int| #![trigger turns[i]]
            0 <= i < turns.len() && keys[i] == key ==> {
                &&& turns[i].before.registrations.contains_key(key)
                &&& turns[i].before.registrations[key] == begun.registrations[key]
                &&& now.registrations[key].handler == match turns[i].call {
                    Some((after, _)) => Some(after),
                    None => None,
                }
            },
        (forall|i: int| 0 <= i < turns.len() ==> #[trigger] keys[i] != key)
            ==> now.registrations[key] == begun.registrations[key],
    decreases turns.len(),
{
    if turns.len() > 0 {
        let earlier = turns.drop_last();
        let last = turns.last();
        let called = keys[turns.len() - 1];
        assert(turns[turns.len() - 1] == last);
        assert forall|i: int| 0 <= i < earlier.len() implies (#[trigger] earlier[i]).spares(
            key,
        ) by {
            assert(earlier[i] == turns[i]);
        }
        law_a_registration_no_call_removed_stays::<S, H, R>(
            summons,
            keys,
            earlier,
            begun,
            last.before,
            key,
        );
        if let Some((after, left)) = last.call {
            lemma_a_call_is_steady(last.before, left, called, after);
        }
        if called == key {
            assert forall|i: int| #![trigger turns[i]]
                0 <= i < turns.len() && keys[i] == key implies i == turns.len() - 1 by {}
            assert(forall|i: int| 0 <= i < earlier.len() ==> #[trigger] keys[i] != key);
        } else {
            assert(now.registrations[key] == last.before.registrations[key]);
            assert forall|i: int| #![trigger turns[i]]
                0 <= i < turns.len() && keys[i] == key implies {
                &&& turns[i].before.registrations.contains_key(key)
                &&& turns[i].before.registrations[key] == begun.registrations[key]
                &&& now.registrations[key].handler == match turns[i].call {
                    Some((after, _)) => Some(after),
                    None => None,
                }
            } by {
                assert(earlier[i] == turns[i]);
            }
        }
    }
}

/// Every one of the handlers that was there when the calls began, and whose registration none of them
/// removed, is called exactly once.
pub proof fn law_every_handler_there_is_called_once<S, H: PacketHandler<S, R>, R>(
    summons: Summons,
    keys: Seq<Key>,
    turns: Seq<Turn<S, H>>,
    begun: DispatchState<S, H>,
    now: DispatchState<S, H>,
    at: int,
)
    requires
        keys.no_duplicates(),
        all_swept::<S, H, R>(summons, keys, turns, begun, now),
        0 <= at < keys.len(),
        begun.registrations.contains_key(keys[at]),
        begun.registrations[keys[at]].handler is Some,
        forall|i: int| 0 <= i < turns.len() ==> (#[trigger] turns[i]).spares(keys[at]),
    ensures
        turns[at].call is Some,
        forall|i: int| 0 <= i < turns.len() && #[trigger] keys[i] == keys[at] ==> i == at,
{
    law_a_registration_no_call_removed_stays::<S, H, R>(
        summons,
        keys,
        turns,
        begun,
        now,
        keys[at],
    );
    law_turns_follow_one_another::<S, H, R>(summons, keys, turns, begun, now, at);
}

/// A dispatcher is never without a deadline, and never sleeps past its next reconcile pass, whatever
/// its handlers want.
pub proof fn law_no_wait_outlasts_the_reconcile_tick<S, H>(
    state: DispatchState<S, H>,
    handlers: Seq<Option<u64>>,
    grace: Option<u64>,
    at: u64,
)
    requires
        state.is_soonest(handlers, grace, at),
    ensures
        at <= state.next_reconcile,
        state.next_report() matches Some(next) ==> at <= next,
{
}

/// The soonest deadline is one value: two that both are it are equal.
pub proof fn law_the_soonest_deadline_is_unique<S, H>(
    state: DispatchState<S, H>,
    handlers: Seq<Option<u64>>,
    grace: Option<u64>,
    a: u64,
    b: u64,
)
    requires
        state.is_soonest(handlers, grace, a),
        state.is_soonest(handlers, grace, b),
    ensures
        a == b,
{
    if handlers.contains(Some(a)) {
        let i = handlers.index_of(Some(a));
        assert(handlers[i] == Some(a));
    }
    if handlers.contains(Some(b)) {
        let i = handlers.index_of(Some(b));
        assert(handlers[i] == Some(b));
    }
}

/// A report fires once per interval: at its deadline it is due, and firing it moves the next one a full
/// interval out, so that it is not due again before.
pub proof fn law_a_report_fires_once_per_interval<S, H>(
    state: DispatchState<S, H>,
    now: u64,
    again: u64,
)
    requires
        state.report is Some,
        state.report->0.next <= now <= again,
        again < now + state.report->0.interval <= u64::MAX,
    ensures
        state.work(now).report,
        !state.rescheduled(now).work(again).report,
        state.rescheduled(now).next_report() == Some(later_spec(now, state.report->0.interval)),
{
}

/// A deadline is due from its own instant on, and never before; a handler without one is never due.
pub proof fn law_a_deadline_is_due_from_its_instant_on(at: u64, now: u64)
    ensures
        is_due_spec(Some(at), now) <==> now >= at,
        !is_due_spec(None, now),
{
}

/// The dispatcher waits until the soonest of everything it has to do: no handler's deadline, no proxy's grace,
/// no report and no reconcile pass comes before, and one of them comes then.
pub proof fn law_the_wait_ends_with_the_soonest<S, H>(
    state: DispatchState<S, H>,
    handlers: Seq<Option<u64>>,
    grace: Option<u64>,
    at: u64,
    i: int,
)
    requires
        state.is_soonest(handlers, grace, at),
    ensures
        at <= state.next_reconcile,
        state.report matches Some(report) ==> at <= report.next,
        grace matches Some(next) ==> at <= next,
        0 <= i < handlers.len() && handlers[i] is Some ==> at <= handlers[i]->0,
        ({
            ||| at == state.next_reconcile
            ||| state.report is Some && at == state.report->0.next
            ||| grace is Some && at == grace->0
            ||| exists|k: int| 0 <= k < handlers.len() && #[trigger] handlers[k] == Some(at)
        }),
{
    if handlers.contains(Some(at)) {
        let k = handlers.index_of(Some(at));
        assert(handlers[k] == Some(at));
    }
}

/// A report is due from its time on where reports are enabled, and a reconcile pass from its time on.
pub proof fn law_what_is_due_at_a_time<S, H>(state: DispatchState<S, H>, now: u64)
    ensures
        state.report is None ==> !state.work(now).report,
        state.report matches Some(report) ==> (state.work(now).report <==> report.next <= now),
        state.work(now).reconcile <==> state.next_reconcile <= now,
{
}

/// A report that is due is set a whole interval on from now, and keeps its interval; one that is not due, and
/// everything else, stays as it is.
pub proof fn law_only_a_due_report_is_set_on<S, H>(state: DispatchState<S, H>, now: u64)
    ensures
        ({
            let after = state.rescheduled(now);
            &&& state.report is None ==> after.report is None
            &&& state.report is Some ==> {
                let (was, is) = (state.report->0, after.report->0);
                &&& after.report is Some
                &&& is.interval == was.interval
                &&& now < was.next ==> is.next == was.next
                &&& now >= was.next && now + was.interval <= u64::MAX ==> is.next == now
                    + was.interval
                &&& now >= was.next && now + was.interval > u64::MAX ==> is.next == u64::MAX
            }
            &&& after.interfaces == state.interfaces
            &&& after.rows == state.rows
            &&& after.registrations == state.registrations
            &&& after.next_reconcile == state.next_reconcile
            &&& after.packet == state.packet
            &&& after.routing == state.routing
        }),
{
}

/// The registrations due come in the order of their slots.
pub proof fn law_due_registrations_come_in_order(
    keys: Seq<Key>,
    deadlines: Seq<Option<u64>>,
    now: u64,
    n: int,
)
    requires
        0 <= n <= keys.len(),
        forall|i: int, j: int| 0 <= i < j < keys.len() ==> keys[i].index < keys[j].index,
    ensures
        forall|i: int, j: int|
            0 <= i < j < due_among(keys, deadlines, now, n).len() ==> (#[trigger] due_among(
                keys,
                deadlines,
                now,
                n,
            )[i]).index < (#[trigger] due_among(keys, deadlines, now, n)[j]).index,
    decreases n,
{
    if n > 0 {
        law_due_registrations_come_in_order(keys, deadlines, now, n - 1);
        let (before, all) = (
            due_among(keys, deadlines, now, n - 1),
            due_among(keys, deadlines, now, n),
        );
        lemma_due_among(keys, deadlines, now, n - 1);
        assert forall|i: int, j: int| 0 <= i < j < all.len() implies (#[trigger] all[i]).index < (
        #[trigger] all[j]).index by {
            assert(all[i] == before[i]);
            if j < before.len() {
                assert(all[j] == before[j]);
            } else {
                assert(before.contains(before[i]));
                let k = choose|k: int| 0 <= k < n - 1 && #[trigger] keys[k] == before[i];
                assert(keys[k].index < keys[n - 1].index);
            }
        }
    }
}

/// Every handler whose deadline has come, and whose registration none of those called before removed, is
/// called; one whose deadline has not come is not.
pub proof fn law_exactly_the_due_handlers_are_called<S, H: PacketHandler<S, R>, R>(
    before: DispatchState<S, H>,
    keys: Seq<Key>,
    deadlines: Seq<Option<u64>>,
    now: u64,
    turns: Seq<Turn<S, H>>,
    after: DispatchState<S, H>,
    p: int,
)
    requires
        deadlines_of::<S, H, R>(before.registrations, keys, deadlines),
        all_swept::<S, H, R>(
            Summons::Due(now),
            due_among(keys, deadlines, now, keys.len() as int),
            turns,
            before,
            after,
        ),
        0 <= p < keys.len(),
        before.registrations[keys[p]].handler is Some,
        forall|i: int| 0 <= i < turns.len() ==> (#[trigger] turns[i]).spares(keys[p]),
    ensures
        deadlines[p] is Some && deadlines[p]->0 <= now ==> exists|i: int|
            0 <= i < turns.len() && #[trigger] due_among(keys, deadlines, now, keys.len() as int)[i]
                == keys[p] && turns[i].call is Some,
        deadlines[p] is None || deadlines[p]->0 > now ==> !due_among(
            keys,
            deadlines,
            now,
            keys.len() as int,
        ).contains(keys[p]),
{
    let due = due_among(keys, deadlines, now, keys.len() as int);
    law_due_registrations_are_due_once::<S, H, R>(before.registrations, keys, deadlines, now);
    assert(keys.contains(keys[p]));
    if due.contains(keys[p]) {
        let i = due.index_of(keys[p]);
        assert(due[i] == keys[p]);
        law_every_handler_there_is_called_once::<S, H, R>(
            Summons::Due(now),
            due,
            turns,
            before,
            after,
            i,
        );
    }
}

/// Every live handler is told of a change, whichever capture it is registered for, unless a handler told before
/// it removed its registration. Where no capture changed nobody is told.
pub proof fn law_every_live_handler_is_told<S, H: PacketHandler<S, R>, R>(
    captures: Vec<CaptureKey>,
    before: DispatchState<S, H>,
    telling: Telling<S, H>,
    key: Key,
)
    requires
        notified::<S, H, R>(captures, before, telling),
        before.registrations.contains_key(key),
        before.registrations[key].handler is Some,
        forall|i: int| 0 <= i < telling.turns.len() ==> (#[trigger] telling.turns[i]).spares(key),
    ensures
        captures@.len() > 0 ==> exists|i: int|
            0 <= i < telling.turns.len() && #[trigger] telling.keys[i] == key
                && telling.turns[i].call is Some,
        captures@.len() == 0 ==> telling.turns.len() == 0 && telling.after == before,
{
    if captures@.len() > 0 {
        assert(telling.keys.contains(key));
        let i = telling.keys.index_of(key);
        assert(telling.keys[i] == key);
        assert(telling.keys.no_duplicates());
        law_every_handler_there_is_called_once::<S, H, R>(
            Summons::Changed(captures),
            telling.keys,
            telling.turns,
            before,
            telling.after,
            i,
        );
    }
}

/// A handler called on its turn is the one that was in its slot, and goes back there as its call left it, unless
/// its registration is gone then. A turn without a handler to call changes nothing.
pub proof fn law_a_turn_calls_the_handler_in_the_slot<S, H: PacketHandler<S, R>, R>(
    summons: Summons,
    key: Key,
    turn: Turn<S, H>,
    now: DispatchState<S, H>,
)
    requires
        turn_taken::<S, H, R>(summons, key, turn, now),
    ensures
        turn.call is Some <==> turn.before.registrations.contains_key(key)
            && turn.before.registrations[key].handler is Some,
        turn.call is None ==> now == turn.before,
        turn.call is Some && turn.left().registrations.contains_key(key) ==> {
            &&& now.registrations.contains_key(key)
            &&& now.registrations[key].handler == Some(turn.handler_after())
        },
        turn.call is Some && !turn.left().registrations.contains_key(key) ==> now == turn.left(),
        turn.call is Some ==> {
            &&& now.rows == turn.left().rows
            &&& now.interfaces == turn.left().interfaces
            &&& turn.left().packet == turn.before.packet
            &&& turn.left().next_reconcile == turn.before.next_reconcile
        },
{
}

/// A handler that is out for a call wants nothing meanwhile; one that is home wants what its own method gives,
/// and nothing else counts.
pub proof fn law_a_deadline_is_the_handlers_own<S, H: PacketHandler<S, R>, R>(
    registration: Registration<H>,
    deadline: Option<u64>,
)
    requires
        deadline_of::<S, H, R>(registration, deadline),
    ensures
        registration.handler is None ==> deadline is None,
        registration.handler matches Some(handler) ==> call_ensures(
            <H as PacketHandler<S, R>>::next_deadline,
            (&handler,),
            deadline,
        ),
{
}

/// A handler called for its deadline had its own method for that called, as it was and in the state it was
/// called in, and one told of a change its own method for that, with the captures that changed.
pub proof fn law_a_summoned_handler_is_called_by_its_own_method<S, H: PacketHandler<S, R>, R>(
    now: u64,
    captures: Vec<CaptureKey>,
    handler: H,
    state: DispatchState<S, H>,
)
    ensures
        summoned::<S, H, R>(Summons::Due(now), handler, state) ==> exists|
            h: &mut H,
            d: &mut PacketDispatcher<S, H>,
            x: &mut R,
        | #[trigger]
            call_ensures(<H as PacketHandler<S, R>>::on_deadline, (h, now, d, x), ()) && *h == handler
                && (*d)@ == state,
        summoned::<S, H, R>(Summons::Changed(captures), handler, state) ==> exists|
            h: &mut H,
            d: &mut PacketDispatcher<S, H>,
            x: &mut R,
        | #[trigger]
            call_ensures(<H as PacketHandler<S, R>>::on_iface_change, (h, &captures, d, x), ())
                && *h == handler && (*d)@ == state,
{
}

/// A called handler is left as its own contract says, or it and the dispatcher are left wholly as they were.
pub proof fn law_a_response_is_the_handlers_own<S, H: PacketHandler<S, R>, R>(
    now: u64,
    captures: Vec<CaptureKey>,
    handler: H,
    state: DispatchState<S, H>,
    after: H,
    left: DispatchState<S, H>,
)
    requires
        after != handler || left != state,
    ensures
        responded::<S, H, R>(Summons::Due(now), handler, state, after, left) ==> {
            &&& <H as PacketHandler<S, R>>::kept_time(handler, now, state, after, left)
            &&& state.left_by_a_call(left)
        },
        responded::<S, H, R>(Summons::Changed(captures), handler, state, after, left) ==> {
            &&& <H as PacketHandler<S, R>>::heeded(handler, captures, state, after, left)
            &&& state.left_by_a_call(left)
        },
{
}

/// Every handler called on its turn was summoned, and left as it responded.
pub proof fn law_a_turn_is_a_summons_and_a_response<S, H: PacketHandler<S, R>, R>(
    summons: Summons,
    key: Key,
    turn: Turn<S, H>,
    now: DispatchState<S, H>,
)
    requires
        turn_taken::<S, H, R>(summons, key, turn, now),
        turn.call is Some,
    ensures
        summoned::<S, H, R>(summons, turn.handler(key), turn.taken(key)),
        responded::<S, H, R>(
            summons,
            turn.handler(key),
            turn.taken(key),
            turn.handler_after(),
            turn.left(),
        ),
        turn.before.registrations[key].handler == Some(turn.handler(key)),
        turn.taken(key).registrations[key].handler is None,
{
}

}
