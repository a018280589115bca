//! Repairing interfaces whose kernel identity moved.
//!
//! A pass lists the stale interfaces, then takes each in turn: it is re-pointed at its name's current
//! interface or parked absent, its captures are re-bound behind their keys, and once everyone who has
//! to know was told, the recovery is counted. The end of the pass sets when the next one is due.

use vstd::prelude::*;

use super::deadlines::{law_turns_follow_one_another, notified, Summons, Telling};
use super::handler::PacketHandler;
use super::interface_table::{
    captures_on, is_stale, law_a_completed_rebuild_is_not_stale, lemma_captures_on,
    only_counts_differ, some_absent, stale_among, CaptureEntry, CaptureRebind,
    InterfaceEntry, NameLookup, StaleInterface,
};
use super::keys::{CaptureKey, InterfaceKey};
use super::{
    later, later_spec, law_being_undisturbed_composes, law_live_registrations_were_issued,
    law_table_changes_keep, DispatchState, PacketDispatcher, RECONCILE_RETRY, RECONCILE_TICK,
};
use crate::interface::Resolution;

verus! {

/// Where a reconcile pass stands.
#[derive(Debug)]
pub struct Reconcile {
    /// The stale interfaces.
    pub stale: Vec<StaleInterface>,
    /// How many of them were repaired, or tried.
    pub next: usize,
    /// Whether a repair failed.
    pub pending: bool,
}

impl Reconcile {
    /// The stale interface whose turn it is, if any is left.
    pub fn current(&self) -> (r: Option<StaleInterface>)
        ensures
            r == if self.next < self.stale@.len() {
                Some(self.stale@[self.next as int])
            } else {
                None
            },
    {
        if self.next < self.stale.len() {
            Some(self.stale[self.next])
        } else {
            None
        }
    }
}

/// The repair of one interface.
#[derive(Debug)]
pub struct Repair {
    pub stale: StaleInterface,
    /// The interface's captures. Their proxies and sessions died with the old interface.
    pub captures: Vec<CaptureKey>,
    /// How each of them was re-bound. Nothing is re-bound to an absent interface.
    pub rebinds: Vec<CaptureRebind>,
    /// The index to re-join the recorded groups at, on fresh sockets.
    pub rejoin_at: Option<u32>,
    /// Whether the interface has to be tried again.
    pub failed: bool,
}

/// What the system gave for the repair of one interface.
#[derive(Debug)]
pub struct RepairFacts {
    /// What resolving the interface at its current index gave.
    pub resolution: Resolution,
    /// Whether re-binding each of its captures succeeded.
    pub bound: Vec<bool>,
}

/// The interfaces after the first `n` repairs.
pub open spec fn repaired(
    interfaces: Seq<InterfaceEntry>,
    stale: Seq<StaleInterface>,
    facts: Seq<RepairFacts>,
    n: int,
) -> Seq<InterfaceEntry>
    decreases n,
{
    if n <= 0 {
        interfaces
    } else {
        let before = repaired(interfaces, stale, facts, n - 1);
        let i = stale[n - 1].key.0 as int;
        before.update(i, before[i].rebound(stale[n - 1].cur, facts[n - 1].resolution))
    }
}

/// Whether each of the interfaces is known by the same name, index, and addresses in `entries`, which may
/// hold further ones.
pub open spec fn same_identities(interfaces: Seq<InterfaceEntry>, entries: Seq<InterfaceEntry>) -> bool {
    &&& interfaces.len() <= entries.len()
    &&& forall|i: int|
        0 <= i < interfaces.len() ==> (#[trigger] entries[i]).interface == interfaces[i].interface
}

/// Whether some repair has to be tried again.
pub open spec fn some_failed(repairs: Seq<Repair>) -> bool {
    exists|i: int| 0 <= i < repairs.len() && (#[trigger] repairs[i]).failed
}

/// Whether keys are in ascending order, so that none occurs twice.
pub open spec fn ascending(captures: Seq<CaptureKey>) -> bool {
    forall|i: int, j: int| 0 <= i < j < captures.len() ==> captures[i].0 < captures[j].0
}

/// Whether stale interfaces are in ascending order of their keys, so that none occurs twice.
pub open spec fn ascending_stale(stale: Seq<StaleInterface>) -> bool {
    forall|i: int, j: int| 0 <= i < j < stale.len() ==> stale[i].key.0 < stale[j].key.0
}

/// Whether a repair counts as a recovery: it did not fail, and its interface exists.
pub open spec fn is_recovery(repair: Repair) -> bool {
    repair.stale.cur != 0 && !repair.failed
}

/// How many of the first `n` repairs were a recovery of `interface`.
pub open spec fn recoveries_of(repairs: Seq<Repair>, interface: InterfaceKey, n: int) -> nat
    decreases n,
{
    if n <= 0 {
        0
    } else {
        recoveries_of(repairs, interface, n - 1) + if repairs[n - 1].stale.key == interface
            && is_recovery(repairs[n - 1]) {
            1nat
        } else {
            0
        }
    }
}

/// Whether `after` counts the recoveries that the repairs were on each capture that `before` has, and
/// counts nothing else there.
pub open spec fn only_recoveries_counted<S>(
    before: Seq<CaptureEntry<S>>,
    after: Seq<CaptureEntry<S>>,
    repairs: Seq<Repair>,
) -> bool {
    &&& before.len() <= after.len()
    &&& forall|j: int|
        0 <= j < before.len() ==> before[j].counters.after_recoveries(
            (#[trigger] after[j]).counters,
            recoveries_of(repairs, before[j].interface, repairs.len() as int),
        )
}

/// Whether re-binding capture number `i` succeeded.
pub open spec fn succeeded(bound: Seq<bool>, i: int) -> bool {
    i < bound.len() && bound[i]
}

/// How re-binding the capture behind `key` went.
pub open spec fn rebind_of<S>(
    rows: Seq<CaptureEntry<S>>,
    key: CaptureKey,
    bound: bool,
) -> CaptureRebind {
    if key.0 >= rows.len() || rows[key.0 as int].capture is None {
        CaptureRebind::Missing
    } else if bound {
        CaptureRebind::Rebound
    } else {
        CaptureRebind::Failed
    }
}

/// Whether `after` counts one more recovery on each of `captures`, and differs in nothing else.
pub open spec fn recoveries_counted<S>(
    before: Seq<CaptureEntry<S>>,
    after: Seq<CaptureEntry<S>>,
    captures: Seq<CaptureKey>,
) -> bool {
    &&& after.len() == before.len()
    &&& forall|i: int|
        0 <= i < before.len() ==> if captures.contains(CaptureKey(i as u32)) {
            &&& #[trigger] after[i] == (CaptureEntry {
                counters: after[i].counters,
                ..before[i]
            })
            &&& before[i].counters.after_recovery(after[i].counters)
        } else {
            after[i] == before[i]
        }
}

impl<S, H> DispatchState<S, H> {
    /// This with a stale interface re-pointed at its name's current index.
    pub open spec fn repointed(self, stale: StaleInterface, resolution: Resolution) -> Self {
        let i = stale.key.0 as int;
        DispatchState {
            interfaces: self.interfaces.update(
                i,
                self.interfaces[i].rebound(stale.cur, resolution),
            ),
            ..self
        }
    }

    /// Whether `repair` is that of a stale interface in this state, given what the system gave for it.
    pub open spec fn is_repair(
        self,
        stale: StaleInterface,
        resolution: Resolution,
        bound: Seq<bool>,
        repair: Repair,
    ) -> bool {
        let captures = captures_on(self.rows, stale.key, self.rows.len() as int);
        &&& repair.stale == stale
        &&& repair.captures@ == captures
        &&& repair.rebinds@ == if stale.cur != 0 {
            Seq::new(
                captures.len(),
                |j: int| rebind_of(self.rows, captures[j], succeeded(bound, j)),
            )
        } else {
            Seq::empty()
        }
        &&& repair.rejoin_at == stale.rejoin_at_spec()
        &&& repair.failed == (resolution is Failed || repair.rebinds@.contains(
            CaptureRebind::Failed,
        ))
    }

    /// Whether `after` is this with `repair` closed: a recovery counted on each of its captures if it
    /// did not fail, unless the interface was parked.
    pub open spec fn repair_closed(self, repair: Repair, after: Self) -> bool {
        &&& after == (DispatchState { rows: after.rows, ..self })
        &&& if is_recovery(repair) {
            recoveries_counted(self.rows, after.rows, repair.captures@)
        } else {
            after.rows == self.rows
        }
    }
}

/// Whether the first `n` stale interfaces were repaired in order: each re-pointed, its handlers told of
/// it, and the repair closed. `states` holds the state before each repair, and the last, and `tellings` how
/// the handlers were told of each.
pub open spec fn repairs_made<S, H: PacketHandler<S, R>, R>(
    stale: Seq<StaleInterface>,
    facts: Seq<RepairFacts>,
    repairs: Seq<Repair>,
    states: Seq<DispatchState<S, H>>,
    tellings: Seq<Telling<S, H>>,
    n: int,
) -> bool
    decreases n,
{
    n > 0 ==> {
        let before = states[n - 1];
        let repair = repairs[n - 1];
        &&& repairs_made::<S, H, R>(stale, facts, repairs, states, tellings, n - 1)
        &&& before.is_repair(
            stale[n - 1],
            facts[n - 1].resolution,
            facts[n - 1].bound@,
            repair,
        )
        &&& notified::<S, H, R>(
            repair.captures,
            before.repointed(stale[n - 1], facts[n - 1].resolution),
            tellings[n - 1],
        )
        &&& tellings[n - 1].after.repair_closed(repair, states[n])
    }
}

/// When the next pass is due: soon while a repair failed or an interface is absent, so that its
/// return is picked up even if every event about it is lost.
pub open spec fn next_pass(now: u64, pending: bool, interfaces: Seq<InterfaceEntry>) -> u64 {
    later_spec(
        now,
        if pending || some_absent(interfaces) {
            RECONCILE_RETRY
        } else {
            RECONCILE_TICK
        },
    )
}

impl<S, H> PacketDispatcher<S, H> {
    /// Every stale interface, in order. `lookups` is what each interface's name resolves to now, `bound`
    /// the index each capture is hooked to.
    pub fn stale_interfaces(&self, lookups: &Vec<NameLookup>, bound: &Vec<Option<u32>>) -> (r: Vec<
        StaleInterface,
    >)
        requires
            self.wf(),
            lookups@.len() == self@.interfaces.len(),
            bound@.len() == self@.rows.len(),
        ensures
            r@ == stale_among(
                self@.interfaces,
                self@.rows,
                lookups@,
                bound@,
                self@.interfaces.len() as int,
            ),
            ascending_stale(r@),
    {
        proof {
            law_stale_interfaces_ascend(
                self@.interfaces,
                self@.rows,
                lookups@,
                bound@,
                self@.interfaces.len() as int,
            );
        }
        self.table.stale_interfaces(lookups, bound)
    }

    /// Whether any interface is parked absent.
    pub fn any_absent(&self) -> (r: bool)
        ensures
            r == some_absent(self@.interfaces),
    {
        self.table.any_absent()
    }

    /// The captures on an interface, in order.
    pub fn captures_of(&self, interface: InterfaceKey) -> (r: Vec<CaptureKey>)
        requires
            self.wf(),
        ensures
            r@ == captures_on(self@.rows, interface, self@.rows.len() as int),
            ascending(r@),
    {
        proof {
            law_captures_ascend(self@.rows, interface, self@.rows.len() as int);
        }
        self.table.captures_of(interface)
    }

    /// Begin a pass over the stale interfaces.
    pub fn begin_reconcile(&self, lookups: &Vec<NameLookup>, bound: &Vec<Option<u32>>) -> (r:
        Reconcile)
        requires
            self.wf(),
            lookups@.len() == self@.interfaces.len(),
            bound@.len() == self@.rows.len(),
        ensures
            r.stale@ == stale_among(
                self@.interfaces,
                self@.rows,
                lookups@,
                bound@,
                self@.interfaces.len() as int,
            ),
            r.next == 0,
            !r.pending,
            ascending_stale(r.stale@),
            forall|i: int|
                0 <= i < r.stale@.len() ==> (#[trigger] r.stale@[i]).key.0 < self@.interfaces.len(),
    {
        proof {
            law_stale_interfaces_ascend(
                self@.interfaces,
                self@.rows,
                lookups@,
                bound@,
                self@.interfaces.len() as int,
            );
        }
        Reconcile { stale: self.table.stale_interfaces(lookups, bound), next: 0, pending: false }
    }

    /// Repair the interface whose turn it is. `resolution` is what resolving it at its current index
    /// gave, and `bound` says of each of its captures, in order, whether re-binding it succeeded; that
    /// counts only where the interface exists. A capture it says nothing of was not re-bound.
    pub fn repair(&mut self, pass: &Reconcile, resolution: Resolution, bound: &Vec<bool>) -> (r: Repair)
        requires
            old(self).wf(),
            pass.next < pass.stale@.len(),
            pass.stale@[pass.next as int].key.0 < old(self)@.interfaces.len(),
        ensures
            final(self).wf(),
            old(self)@.is_repair(pass.stale@[pass.next as int], resolution, bound@, r),
            final(self)@ == old(self)@.repointed(pass.stale@[pass.next as int], resolution),
            ascending(r.captures@),
            forall|j: int|
                0 <= j < r.captures@.len() ==> (#[trigger] r.captures@[j]).0 < old(
                    self,
                )@.rows.len(),
    {
        let stale = pass.stale[pass.next];
        let captures = self.table.captures_of(stale.key);
        let rebound = self.table.rebind_interface(stale.key, stale.cur, resolution);
        let mut failed = !rebound.resolved;
        let mut rebinds: Vec<CaptureRebind> = Vec::new();
        proof {
            law_captures_ascend(self@.rows, stale.key, self@.rows.len() as int);
        }
        if stale.cur != 0 {
            let mut j: usize = 0;
            while j < captures.len()
                invariant
                    self.wf(),
                    j <= captures@.len(),
                    self@.rows == old(self)@.rows,
                    rebinds@ == Seq::new(
                        j as nat,
                        |k: int| rebind_of(old(self)@.rows, captures@[k], succeeded(bound@, k)),
                    ),
                    failed == (resolution is Failed || rebinds@.contains(CaptureRebind::Failed)),
                decreases captures@.len() - j,
            {
                let rebind = self.table.rebind_capture(
                    captures[j],
                    j < bound.len() && bound[j],
                );
                if rebind == CaptureRebind::Failed {
                    failed = true;
                }
                let ghost before = rebinds@;
                rebinds.push(rebind);
                proof {
                    assert(rebinds@[before.len() as int] == rebind);
                    if before.contains(CaptureRebind::Failed) {
                        let k = before.index_of(CaptureRebind::Failed);
                        assert(rebinds@[k] == CaptureRebind::Failed);
                    }
                    if rebinds@.contains(CaptureRebind::Failed) {
                        let k = rebinds@.index_of(CaptureRebind::Failed);
                        if k < before.len() {
                            assert(before[k] == CaptureRebind::Failed);
                        }
                    }
                }
                j += 1;
            }
        }
        Repair { stale, captures, rebinds, rejoin_at: rebound.rejoin_at, failed }
    }

    /// Close a repair, once everyone who has to know of it was told, and go on to the next interface. A
    /// repair that did not fail counts as a recovery on each of the captures, unless the interface was
    /// parked; one that failed is tried again soon.
    pub fn complete_repair(&mut self, pass: &mut Reconcile, repair: &Repair)
        requires
            old(self).wf(),
            old(pass).next < old(pass).stale@.len(),
            ascending(repair.captures@),
            forall|j: int|
                0 <= j < repair.captures@.len() ==> (#[trigger] repair.captures@[j]).0 < old(
                    self,
                )@.rows.len(),
        ensures
            final(self).wf(),
            old(self)@.repair_closed(*repair, final(self)@),
            final(pass).stale@ == old(pass).stale@,
            final(pass).next == old(pass).next + 1,
            final(pass).pending == (old(pass).pending || repair.failed),
    {
        if repair.stale.cur != 0 && !repair.failed {
            let mut j: usize = 0;
            while j < repair.captures.len()
                invariant
                    self.wf(),
                    j <= repair.captures@.len(),
                    ascending(repair.captures@),
                    forall|k: int|
                        0 <= k < repair.captures@.len() ==> (#[trigger] repair.captures@[k]).0
                            < old(self)@.rows.len(),
                    self@ == (DispatchState { rows: self@.rows, ..old(self)@ }),
                    recoveries_counted(
                        old(self)@.rows,
                        self@.rows,
                        repair.captures@.take(j as int),
                    ),
                decreases repair.captures@.len() - j,
            {
                let ghost before = self@.rows;
                self.table.record_recovery(repair.captures[j]);
                proof {
                    lemma_one_more_recovery(
                        old(self)@.rows,
                        before,
                        self@.rows,
                        repair.captures@,
                        j as int,
                    );
                }
                j += 1;
            }
            assert(repair.captures@.take(j as int) =~= repair.captures@);
        }
        if repair.failed {
            pass.pending = true;
        }
        assert(pass.next < pass.stale.len());
        pass.next = pass.next + 1;
    }

    /// Run a whole pass: repair each of its interfaces, tell every handler of it, and set when the next
    /// pass is due. `facts` is what resolving each interface and re-binding its captures gave, in order.
    /// What the handlers do when told is theirs; without any, the interfaces are as repaired. `states`
    /// holds the state before each repair, and the last, and `tellings` what each handler was handed and
    /// left when told of each.
    pub fn reconcile_interfaces<R>(
        &mut self,
        pass: Reconcile,
        facts: &Vec<RepairFacts>,
        now: u64,
        reactor: &mut R,
    ) -> (r: Vec<Repair>) where H: PacketHandler<S, R>
        requires
            old(self).wf(),
            pass.next == 0,
            !pass.pending,
            facts@.len() == pass.stale@.len(),
            forall|i: int|
                0 <= i < pass.stale@.len() ==> (#[trigger] pass.stale@[i]).key.0 < old(
                    self,
                )@.interfaces.len(),
        ensures
            final(self).wf(),
            old(self)@.undisturbed_by(final(self)@),
            old(self)@.handlers_home() ==> final(self)@.handlers_home(),
            r@.len() == pass.stale@.len(),
            forall|i: int| 0 <= i < r@.len() ==> (#[trigger] r@[i]).stale == pass.stale@[i],
            only_recoveries_counted(old(self)@.rows, final(self)@.rows, r@),
            same_identities(
                repaired(old(self)@.interfaces, pass.stale@, facts@, pass.stale@.len() as int),
                final(self)@.interfaces,
            ),
            final(self)@.next_reconcile == next_pass(now, some_failed(r@), final(self)@.interfaces),
            exists|states: Seq<DispatchState<S, H>>, tellings: Seq<Telling<S, H>>| {
                &&& states.len() == pass.stale@.len() + 1
                &&& states[0] == old(self)@
                &&& tellings.len() == pass.stale@.len()
                &&& #[trigger] repairs_made::<S, H, R>(
                    pass.stale@,
                    facts@,
                    r@,
                    states,
                    tellings,
                    r@.len() as int,
                )
                &&& forall|k: int, i: int|
                    0 <= k < tellings.len() && 0 <= i < tellings[k].turns.len() && (
                    #[trigger] tellings[k].turns[i]).call is Some ==> exists|
                        h: &mut H,
                        d: &mut PacketDispatcher<S, H>,
                        x: &mut R,
                    | #[trigger]
                        call_ensures(
                            <H as PacketHandler<S, R>>::on_iface_change,
                            (h, &r@[k].captures, d, x),
                            (),
                        ) && *h == tellings[k].turns[i].handler(tellings[k].keys[i]) && (*d)@
                            == tellings[k].turns[i].taken(tellings[k].keys[i]) && *final(h)
                            == tellings[k].turns[i].handler_after() && (*final(d))@
                            == tellings[k].turns[i].left()
                &&& final(self)@ == (DispatchState {
                    next_reconcile: next_pass(now, some_failed(r@), states.last().interfaces),
                    ..states.last()
                })
            },
            pass.stale@.len() == 0 ==> final(self)@ == (DispatchState {
                next_reconcile: next_pass(now, false, old(self)@.interfaces),
                ..old(self)@
            }),
            old(self)@.registrations.is_empty() ==> final(self)@.interfaces == repaired(
                old(self)@.interfaces,
                pass.stale@,
                facts@,
                pass.stale@.len() as int,
            ),
    {
        let mut pass = pass;
        let ghost stale = pass.stale@;
        let mut repairs: Vec<Repair> = Vec::new();
        let ghost mut states: Seq<DispatchState<S, H>> = seq![self@];
        let ghost mut tellings: Seq<Telling<S, H>> = Seq::empty();
        proof {
            law_live_registrations_were_issued(*self);
        }
        while pass.next < pass.stale.len()
            invariant
                self.wf(),
                pass.stale@ == stale,
                pass.next <= stale.len(),
                facts@.len() == stale.len(),
                forall|i: int|
                    0 <= i < stale.len() ==> (#[trigger] stale[i]).key.0 < old(
                        self,
                    )@.interfaces.len(),
                old(self)@.live_were_issued(),
                old(self)@.undisturbed_by(self@),
                old(self)@.handlers_home() ==> self@.handlers_home(),
                repairs@.len() == pass.next,
                forall|i: int| 0 <= i < repairs@.len() ==> (#[trigger] repairs@[i]).stale == stale[i],
                only_recoveries_counted(old(self)@.rows, self@.rows, repairs@),
                same_identities(
                    repaired(old(self)@.interfaces, stale, facts@, pass.next as int),
                    self@.interfaces,
                ),
                states.len() == pass.next + 1,
                states[0] == old(self)@,
                states.last() == self@,
                tellings.len() == pass.next,
                repairs_made::<S, H, R>(
                    stale,
                    facts@,
                    repairs@,
                    states,
                    tellings,
                    pass.next as int,
                ),
                forall|k: int, i: int|
                    0 <= k < tellings.len() && 0 <= i < tellings[k].turns.len() && (
                    #[trigger] tellings[k].turns[i]).call is Some ==> exists|
                        h: &mut H,
                        d: &mut PacketDispatcher<S, H>,
                        x: &mut R,
                    | #[trigger]
                        call_ensures(
                            <H as PacketHandler<S, R>>::on_iface_change,
                            (h, &repairs@[k].captures, d, x),
                            (),
                        ) && *h == tellings[k].turns[i].handler(tellings[k].keys[i]) && (*d)@
                            == tellings[k].turns[i].taken(tellings[k].keys[i]) && *final(h)
                            == tellings[k].turns[i].handler_after() && (*final(d))@
                            == tellings[k].turns[i].left(),
                pass.pending == some_failed(repairs@),
                stale.len() == 0 ==> self@ == old(self)@,
                old(self)@.registrations.is_empty() ==> self@.registrations.is_empty()
                    && self@.interfaces == repaired(
                    old(self)@.interfaces,
                    stale,
                    facts@,
                    pass.next as int,
                ),
            decreases stale.len() - pass.next,
        {
            let i = pass.next;
            let ghost before = self@;
            assert(stale[i as int].key.0 < old(self)@.interfaces.len());
            proof {
                law_live_registrations_were_issued(*self);
            }
            let repair = self.repair(&pass, facts[i].resolution, &facts[i].bound);
            let ghost repaired = self@;
            let Ghost(telling) = self.tell_handlers(&repair.captures, reactor);
            let ghost told = self@;
            proof {
                assert forall|j: int| 0 <= j < repair.captures@.len() implies (
                #[trigger] repair.captures@[j]).0 < told.rows.len() by {}
            }
            self.complete_repair(&mut pass, &repair);
            proof {
                law_table_changes_keep(before, repaired);
                law_being_undisturbed_composes(before, repaired, told);
                assert forall|j: int| 0 <= j < told.rows.len() implies (
                #[trigger] self@.rows[j]).interface == told.rows[j].interface by {}
                law_table_changes_keep(told, self@);
                law_being_undisturbed_composes(before, told, self@);
                law_being_undisturbed_composes(old(self)@, before, self@);
                lemma_some_failed(repairs@, repair);
                lemma_recoveries(old(self)@.rows, before.rows, told, self@, repairs@, repair);
                lemma_repaired_len(old(self)@.interfaces, stale, facts@, i as int);
                let longer = states.push(self@);
                lemma_same_repairs::<S, H, R>(
                    stale,
                    facts@,
                    repairs@,
                    repairs@.push(repair),
                    states,
                    longer,
                    tellings,
                    tellings.push(telling),
                    i as int,
                );
                states = longer;
                tellings = tellings.push(telling);
            }
            repairs.push(repair);
        }
        let ghost done = self@;
        self.finish_reconcile(pass, now);
        proof {
            law_table_changes_keep(done, self@);
            law_being_undisturbed_composes(old(self)@, done, self@);
        }
        repairs
    }

    /// End a pass: set when the next one is due.
    pub fn finish_reconcile(&mut self, pass: Reconcile, now: u64)
        requires
            old(self).wf(),
            pass.next == pass.stale@.len(),
        ensures
            final(self).wf(),
            final(self)@ == (DispatchState {
                next_reconcile: next_pass(now, pass.pending, old(self)@.interfaces),
                ..old(self)@
            }),
    {
        let retry = pass.pending || self.table.any_absent();
        self.next_reconcile = if retry {
            later(now, RECONCILE_RETRY)
        } else {
            later(now, RECONCILE_TICK)
        };
    }
}

proof fn lemma_same_repairs<S, H: PacketHandler<S, R>, R>(
    stale: Seq<StaleInterface>,
    facts: Seq<RepairFacts>,
    repairs: Seq<Repair>,
    more_repairs: Seq<Repair>,
    states: Seq<DispatchState<S, H>>,
    more_states: Seq<DispatchState<S, H>>,
    tellings: Seq<Telling<S, H>>,
    more_tellings: Seq<Telling<S, H>>,
    n: int,
)
    requires
        0 <= n <= repairs.len() <= more_repairs.len(),
        n < states.len() <= more_states.len(),
        forall|i: int| 0 <= i < n ==> repairs[i] == more_repairs[i],
        forall|i: int| 0 <= i <= n ==> states[i] == more_states[i],
        n <= tellings.len() <= more_tellings.len(),
        forall|i: int| 0 <= i < n ==> tellings[i] == more_tellings[i],
        repairs_made::<S, H, R>(stale, facts, repairs, states, tellings, n),
    ensures
        repairs_made::<S, H, R>(stale, facts, more_repairs, more_states, more_tellings, n),
    decreases n,
{
    if n > 0 {
        lemma_same_repairs::<S, H, R>(
            stale,
            facts,
            repairs,
            more_repairs,
            states,
            more_states,
            tellings,
            more_tellings,
            n - 1,
        );
    }
}

proof fn lemma_some_failed(repairs: Seq<Repair>, repair: Repair)
    ensures
        some_failed(repairs.push(repair)) == (some_failed(repairs) || repair.failed),
{
    let all = repairs.push(repair);
    assert(all[repairs.len() as int] == repair);
    if some_failed(repairs) {
        let i = choose|i: int| 0 <= i < repairs.len() && (#[trigger] repairs[i]).failed;
        assert(all[i].failed);
    }
    if some_failed(all) {
        let i = choose|i: int| 0 <= i < all.len() && (#[trigger] all[i]).failed;
        if i < repairs.len() {
            assert(repairs[i].failed);
        }
    }
}

/// The stale interfaces are listed in order, so that none is repaired twice in one pass.
pub proof fn law_stale_interfaces_ascend<S>(
    entries: Seq<InterfaceEntry>,
    rows: Seq<CaptureEntry<S>>,
    lookups: Seq<NameLookup>,
    bound: Seq<Option<u32>>,
    n: int,
)
    requires
        0 <= n <= entries.len() <= u32::MAX + 1,
    ensures
        ascending_stale(stale_among(entries, rows, lookups, bound, n)),
        forall|i: int|
            0 <= i < stale_among(entries, rows, lookups, bound, n).len() ==> (#[trigger] stale_among(
                entries,
                rows,
                lookups,
                bound,
                n,
            )[i]).key.0 < n,
    decreases n,
{
    if n > 0 {
        law_stale_interfaces_ascend(entries, rows, lookups, bound, n - 1);
        let before = stale_among(entries, rows, lookups, bound, n - 1);
        let all = stale_among(entries, rows, lookups, bound, n);
        assert forall|i: int| 0 <= i < all.len() implies (#[trigger] all[i]).key.0 < n by {
            if i < before.len() {
                assert(all[i] == before[i]);
            }
        }
    }
}

proof fn lemma_repaired_len(
    interfaces: Seq<InterfaceEntry>,
    stale: Seq<StaleInterface>,
    facts: Seq<RepairFacts>,
    n: int,
)
    requires
        0 <= n <= stale.len(),
        forall|i: int| 0 <= i < stale.len() ==> (#[trigger] stale[i]).key.0 < interfaces.len(),
    ensures
        repaired(interfaces, stale, facts, n).len() == interfaces.len(),
    decreases n,
{
    if n > 0 {
        lemma_repaired_len(interfaces, stale, facts, n - 1);
        assert(stale[n - 1].key.0 < interfaces.len());
    }
}

proof fn lemma_same_recoveries(
    repairs: Seq<Repair>,
    repair: Repair,
    interface: InterfaceKey,
    n: int,
)
    requires
        0 <= n <= repairs.len(),
    ensures
        recoveries_of(repairs.push(repair), interface, n) == recoveries_of(repairs, interface, n),
    decreases n,
{
    if n > 0 {
        lemma_same_recoveries(repairs, repair, interface, n - 1);
    }
}

proof fn lemma_recoveries<S, H>(
    start: Seq<CaptureEntry<S>>,
    before: Seq<CaptureEntry<S>>,
    told: DispatchState<S, H>,
    after: DispatchState<S, H>,
    repairs: Seq<Repair>,
    repair: Repair,
)
    requires
        before.len() <= told.rows.len() <= u32::MAX + 1,
        forall|i: int|
            0 <= i < start.len() ==> (#[trigger] before[i]).interface == start[i].interface,
        forall|i: int|
            0 <= i < before.len() ==> (#[trigger] told.rows[i]).counters == before[i].counters,
        repair.captures@ == captures_on(before, repair.stale.key, before.len() as int),
        only_recoveries_counted(start, before, repairs),
        told.repair_closed(repair, after),
    ensures
        only_recoveries_counted(start, after.rows, repairs.push(repair)),
{
    let all = repairs.push(repair);
    assert forall|j: int| 0 <= j < start.len() implies start[j].counters.after_recoveries(
        (#[trigger] after.rows[j]).counters,
        recoveries_of(all, start[j].interface, all.len() as int),
    ) by {
        let interface = start[j].interface;
        let n = recoveries_of(repairs, interface, repairs.len() as int);
        lemma_same_recoveries(repairs, repair, interface, repairs.len() as int);
        lemma_captures_on(before, repair.stale.key, before.len() as int, CaptureKey(j as u32));
        assert(before[j].interface == interface);
        assert(start[j].counters.after_recoveries(before[j].counters, n));
        assert(told.rows[j].counters == before[j].counters);
    }
}

/// The captures on an interface are listed in order, so that none occurs twice.
pub proof fn law_captures_ascend<S>(rows: Seq<CaptureEntry<S>>, interface: InterfaceKey, n: int)
    requires
        0 <= n <= rows.len() <= u32::MAX + 1,
    ensures
        ascending(captures_on(rows, interface, n)),
        forall|i: int|
            0 <= i < captures_on(rows, interface, n).len() ==> (#[trigger] captures_on(
                rows,
                interface,
                n,
            )[i]).0 < n,
    decreases n,
{
    if n > 0 {
        law_captures_ascend(rows, interface, n - 1);
    }
}

proof fn lemma_one_more_recovery<S>(
    start: Seq<CaptureEntry<S>>,
    before: Seq<CaptureEntry<S>>,
    after: Seq<CaptureEntry<S>>,
    captures: Seq<CaptureKey>,
    j: int,
)
    requires
        0 <= j < captures.len(),
        ascending(captures),
        captures[j].0 < start.len(),
        start.len() <= u32::MAX + 1,
        recoveries_counted(start, before, captures.take(j)),
        only_counts_differ(before, after, captures[j].0 as int),
        before[captures[j].0 as int].counters.after_recovery(
            after[captures[j].0 as int].counters,
        ),
    ensures
        recoveries_counted(start, after, captures.take(j + 1)),
{
    let at = captures[j].0 as int;
    assert forall|i: int| 0 <= i < start.len() implies if captures.take(j + 1).contains(
        CaptureKey(i as u32),
    ) {
        &&& #[trigger] after[i] == (CaptureEntry { counters: after[i].counters, ..start[i] })
        &&& start[i].counters.after_recovery(after[i].counters)
    } else {
        after[i] == start[i]
    } by {
        let key = CaptureKey(i as u32);
        if captures.take(j).contains(key) {
            let k = captures.take(j).index_of(key);
            assert(captures[k] == key);
            assert(captures[k].0 < captures[j].0);
            assert(captures.take(j + 1)[k] == key);
            assert(before[i].interface == start[i].interface);
        } else if i == at {
            assert(captures.take(j + 1)[j] == key);
            assert(before[i] == start[i]);
        } else {
            if captures.take(j + 1).contains(key) {
                let k = captures.take(j + 1).index_of(key);
                assert(captures[k] == key);
                assert(k != j);
                assert(captures.take(j)[k] == key);
            }
            assert(before[i] == start[i]);
        }
    }
}

/// A repair that did not fail leaves its interface healthy: with the same lookup, and every capture whose
/// re-binding succeeded hooked to the new index, the next scan passes it over.
pub proof fn law_a_clean_repair_is_not_stale_again<S, H>(
    before: DispatchState<S, H>,
    stale: StaleInterface,
    resolution: Resolution,
    bound: Seq<bool>,
    lookups: Seq<NameLookup>,
    hooked: Seq<Option<u32>>,
)
    requires
        before.rows.len() <= u32::MAX + 1,
        stale.key.0 < before.interfaces.len(),
        lookups[stale.key.0 as int].index_spec() == Some(stale.cur),
        resolution is Found,
        ({
            let captures = captures_on(before.rows, stale.key, before.rows.len() as int);
            stale.cur != 0 ==> forall|j: int| #![trigger captures[j]]
                0 <= j < captures.len() ==> {
                    &&& rebind_of(before.rows, captures[j], succeeded(bound, j))
                        != CaptureRebind::Failed
                    &&& succeeded(bound, j) ==> hooked[captures[j].0 as int] == Some(stale.cur)
                }
        }),
    ensures
        ({
            let i = stale.key.0 as int;
            !is_stale(
                before.interfaces.update(i, before.interfaces[i].rebound(stale.cur, resolution)),
                before.rows,
                lookups,
                hooked,
                i,
            )
        }),
{
    let i = stale.key.0 as int;
    let captures = captures_on(before.rows, stale.key, before.rows.len() as int);
    if stale.cur != 0 {
        assert forall|j: int|
            0 <= j < before.rows.len() && #[trigger] before.rows[j].interface == InterfaceKey(
                i as u32,
            ) && before.rows[j].capture is Some implies hooked[j] == Some(stale.cur) by {
            let key = CaptureKey(j as u32);
            lemma_captures_on(before.rows, stale.key, before.rows.len() as int, key);
            let k = captures.index_of(key);
            assert(captures[k] == key);
        }
    }
    law_a_completed_rebuild_is_not_stale(
        before.interfaces,
        before.rows,
        lookups,
        hooked,
        i,
        stale.cur,
        resolution,
    );
}

/// One pass counts at most one recovery of an interface: exactly one if the interface was stale, exists
/// again, and its repair did not fail.
pub proof fn law_a_pass_recovers_an_interface_once(
    stale: Seq<StaleInterface>,
    repairs: Seq<Repair>,
    interface: InterfaceKey,
)
    requires
        ascending_stale(stale),
        repairs.len() == stale.len(),
        forall|i: int| 0 <= i < repairs.len() ==> (#[trigger] repairs[i]).stale == stale[i],
    ensures
        recoveries_of(repairs, interface, repairs.len() as int) == if exists|i: int|
            0 <= i < repairs.len() && (#[trigger] repairs[i]).stale.key == interface && is_recovery(
                repairs[i],
            ) {
            1nat
        } else {
            0
        },
{
    lemma_recovered_once(stale, repairs, interface, repairs.len() as int);
}

proof fn lemma_recovered_once(
    stale: Seq<StaleInterface>,
    repairs: Seq<Repair>,
    interface: InterfaceKey,
    n: int,
)
    requires
        ascending_stale(stale),
        0 <= n <= repairs.len() == stale.len(),
        forall|i: int| 0 <= i < repairs.len() ==> (#[trigger] repairs[i]).stale == stale[i],
    ensures
        recoveries_of(repairs, interface, n) == if exists|i: int|
            0 <= i < n && (#[trigger] repairs[i]).stale.key == interface && is_recovery(repairs[i]) {
            1nat
        } else {
            0
        },
    decreases n,
{
    if n > 0 {
        lemma_recovered_once(stale, repairs, interface, n - 1);
        if repairs[n - 1].stale.key == interface {
            assert forall|i: int| 0 <= i < n - 1 implies (#[trigger] repairs[i]).stale.key
                != interface by {
                assert(stale[i].key.0 < stale[n - 1].key.0);
            }
        }
    }
}

/// The next pass comes soon exactly if a repair failed or an interface is absent; a healthy table waits
/// a full tick.
pub proof fn law_the_cadence_follows_health(
    now: u64,
    pending: bool,
    interfaces: Seq<InterfaceEntry>,
)
    requires
        now + RECONCILE_TICK <= u64::MAX,
    ensures
        next_pass(now, pending, interfaces) <= now + RECONCILE_RETRY <==> pending || some_absent(
            interfaces,
        ),
        next_pass(now, pending, interfaces) > now,
{
}

/// A repair names an index to re-join at exactly if the name resolves to an interface now, and it is that
/// interface's, whatever identity the table held before; so a recovery always re-joins.
pub proof fn law_a_repair_rejoins_wherever_the_interface_exists<S, H>(
    before: DispatchState<S, H>,
    stale: StaleInterface,
    resolution: Resolution,
    bound: Seq<bool>,
    repair: Repair,
)
    requires
        before.is_repair(stale, resolution, bound, repair),
    ensures
        repair.stale == stale,
        stale.cur == 0 ==> repair.rejoin_at is None,
        stale.cur != 0 ==> repair.rejoin_at == Some(stale.cur),
        is_recovery(repair) ==> repair.rejoin_at == Some(stale.cur),
{
}

/// A repair tries every capture on the interface, in order, where the interface exists, and none where it is
/// parked: one that is taken out is missing, and else it is re-bound exactly as the system did.
pub proof fn law_a_repair_rebinds_every_capture_of_its_interface<S, H>(
    before: DispatchState<S, H>,
    stale: StaleInterface,
    resolution: Resolution,
    bound: Seq<bool>,
    repair: Repair,
    key: CaptureKey,
    j: int,
)
    requires
        before.rows.len() <= u32::MAX + 1,
        before.is_repair(stale, resolution, bound, repair),
        0 <= j < repair.captures@.len(),
    ensures
        repair.captures@.contains(key) <==> key.0 < before.rows.len()
            && before.rows[key.0 as int].interface == stale.key,
        stale.cur == 0 ==> repair.rebinds@.len() == 0,
        stale.cur != 0 ==> {
            let present = before.rows[repair.captures@[j].0 as int].capture is Some;
            let done = j < bound.len() && bound[j];
            &&& repair.rebinds@.len() == repair.captures@.len()
            &&& repair.rebinds@[j] is Missing <==> !present
            &&& repair.rebinds@[j] is Rebound <==> present && done
            &&& repair.rebinds@[j] is Failed <==> present && !done
        },
{
    lemma_captures_on(before.rows, stale.key, before.rows.len() as int, key);
    law_captures_ascend(before.rows, stale.key, before.rows.len() as int);
    assert(repair.captures@[j].0 < before.rows.len());
}

/// A repair failed exactly if the addresses could not be resolved, or the interface exists and a capture
/// present on it could not be re-bound. A capture that is taken out fails nothing.
pub proof fn law_a_repair_fails_only_for_cause<S, H>(
    before: DispatchState<S, H>,
    stale: StaleInterface,
    resolution: Resolution,
    bound: Seq<bool>,
    repair: Repair,
)
    requires
        before.rows.len() <= u32::MAX + 1,
        before.is_repair(stale, resolution, bound, repair),
    ensures
        repair.failed <==> {
            ||| resolution is Failed
            ||| stale.cur != 0 && exists|j: int| {
                &&& 0 <= j < repair.captures@.len()
                &&& before.rows[(#[trigger] repair.captures@[j]).0 as int].capture is Some
                &&& !(j < bound.len() && bound[j])
            }
        },
{
    law_captures_ascend(before.rows, stale.key, before.rows.len() as int);
    let captures = repair.captures@;
    if stale.cur != 0 {
        assert forall|j: int| 0 <= j < captures.len() implies (#[trigger] repair.rebinds@[j] is Failed
            <==> before.rows[captures[j].0 as int].capture is Some && !(j < bound.len()
            && bound[j])) by {
            assert(captures[j].0 < before.rows.len());
        }
        if repair.rebinds@.contains(CaptureRebind::Failed) {
            let j = repair.rebinds@.index_of(CaptureRebind::Failed);
            assert(repair.rebinds@[j] is Failed);
            assert(before.rows[captures[j].0 as int].capture is Some);
        }
        if exists|j: int| {
            &&& 0 <= j < captures.len()
            &&& before.rows[(#[trigger] captures[j]).0 as int].capture is Some
            &&& !(j < bound.len() && bound[j])
        } {
            let j = choose|j: int| {
                &&& 0 <= j < captures.len()
                &&& before.rows[(#[trigger] captures[j]).0 as int].capture is Some
                &&& !(j < bound.len() && bound[j])
            };
            assert(repair.rebinds@[j] is Failed);
            assert(repair.rebinds@[j] == CaptureRebind::Failed);
        }
    }
}

/// A repair counts as a recovery exactly if its interface exists and it did not fail: parking one is none.
pub proof fn law_a_recovery_is_a_clean_repair_of_an_existing_interface(repair: Repair)
    ensures
        repair.failed ==> !is_recovery(repair),
        repair.stale.cur == 0 ==> !is_recovery(repair),
        !repair.failed && repair.stale.cur != 0 ==> is_recovery(repair),
{
}

/// Re-pointing gives the stale interface its current index with the addresses found there, and touches no other
/// interface, capture or registration. Where nothing could be resolved it changes nothing.
pub proof fn law_repointing_touches_one_interface<S, H>(
    state: DispatchState<S, H>,
    stale: StaleInterface,
    resolution: Resolution,
    i: int,
)
    requires
        stale.key.0 < state.interfaces.len(),
        0 <= i < state.interfaces.len(),
    ensures
        ({
            let after = state.repointed(stale, resolution);
            let at = stale.key.0 as int;
            &&& after.interfaces.len() == state.interfaces.len()
            &&& i != at ==> after.interfaces[i] == state.interfaces[i]
            &&& after.interfaces[at].interface.name == state.interfaces[at].interface.name
            &&& after.interfaces[at].joiner == state.interfaces[at].joiner
            &&& match resolution {
                Resolution::Found(found) => {
                    &&& after.interfaces[at].interface.ifindex == stale.cur
                    &&& after.interfaces[at].interface.addrs == found.addrs
                    &&& after.interfaces[at].interface.mtu == found.mtu
                },
                Resolution::Failed => after.interfaces[at] == state.interfaces[at],
            }
            &&& after.rows == state.rows
            &&& after.registrations == state.registrations
            &&& after.next_reconcile == state.next_reconcile
            &&& after.packet == state.packet
        }),
{
}

/// Closing a repair counts one recovery on each of its captures if it was one, and counts and changes nothing
/// else.
pub proof fn law_closing_a_repair_counts_its_captures<S, H>(
    before: DispatchState<S, H>,
    repair: Repair,
    after: DispatchState<S, H>,
    key: CaptureKey,
)
    requires
        before.repair_closed(repair, after),
        key.0 < before.rows.len(),
        before.rows[key.0 as int].counters.recoveries_spec() < u64::MAX,
    ensures
        ({
            let (was, is) = (before.rows[key.0 as int], after.rows[key.0 as int]);
            let counts = !repair.failed && repair.stale.cur != 0 && repair.captures@.contains(key);
            &&& is.counters.recoveries_spec() == was.counters.recoveries_spec() + if counts {
                1int
            } else {
                0
            }
            &&& is.counters.filtered_spec() == was.counters.filtered_spec()
            &&& is.counters.echoed_spec() == was.counters.echoed_spec()
            &&& is.counters.oversized_spec() == was.counters.oversized_spec()
            &&& is.capture == was.capture
            &&& is.interface == was.interface
            &&& is.last_sent == was.last_sent
            &&& !counts ==> is == was
        }),
        after.rows.len() == before.rows.len(),
        after.interfaces == before.interfaces,
        after.registrations == before.registrations,
        after.next_reconcile == before.next_reconcile,
        after.packet == before.packet,
{
    assert(CaptureKey(key.0 as int as u32) == key);
    assert(after.rows[key.0 as int].interface == before.rows[key.0 as int].interface);
}

/// Over a whole pass a capture's recoveries grow by one if its interface was stale, exists again, and its repair
/// did not fail, and else not at all; no other count of it moves.
pub proof fn law_a_pass_counts_each_recovery_once<S>(
    before: Seq<CaptureEntry<S>>,
    after: Seq<CaptureEntry<S>>,
    stale: Seq<StaleInterface>,
    repairs: Seq<Repair>,
    j: int,
)
    requires
        only_recoveries_counted(before, after, repairs),
        ascending_stale(stale),
        repairs.len() == stale.len(),
        forall|i: int| 0 <= i < repairs.len() ==> (#[trigger] repairs[i]).stale == stale[i],
        0 <= j < before.len(),
        before[j].counters.recoveries_spec() < u64::MAX,
    ensures
        (exists|i: int|
            0 <= i < repairs.len() && (#[trigger] repairs[i]).stale.key == before[j].interface
                && repairs[i].stale.cur != 0 && !repairs[i].failed)
            ==> after[j].counters.recoveries_spec() == before[j].counters.recoveries_spec() + 1,
        (forall|i: int|
            0 <= i < repairs.len() && (#[trigger] repairs[i]).stale.key == before[j].interface
                ==> repairs[i].stale.cur == 0 || repairs[i].failed)
            ==> after[j].counters.recoveries_spec() == before[j].counters.recoveries_spec(),
        after[j].counters.filtered_spec() == before[j].counters.filtered_spec(),
        after[j].counters.echoed_spec() == before[j].counters.echoed_spec(),
        after[j].counters.oversized_spec() == before[j].counters.oversized_spec(),
{
    law_a_pass_recovers_an_interface_once(stale, repairs, before[j].interface);
    assert(before[j].counters.after_recoveries(
        after[j].counters,
        recoveries_of(repairs, before[j].interface, repairs.len() as int),
    ));
    if exists|i: int|
        0 <= i < repairs.len() && (#[trigger] repairs[i]).stale.key == before[j].interface
            && repairs[i].stale.cur != 0 && !repairs[i].failed {
        let i = choose|i: int|
            0 <= i < repairs.len() && (#[trigger] repairs[i]).stale.key == before[j].interface
                && repairs[i].stale.cur != 0 && !repairs[i].failed;
        assert(is_recovery(repairs[i]));
    }
}

/// After a pass each interface that was stale has the index its name resolves to and the addresses found there,
/// unless they could not be resolved; every other interface is as it was.
pub proof fn law_a_pass_repoints_each_stale_interface(
    interfaces: Seq<InterfaceEntry>,
    stale: Seq<StaleInterface>,
    facts: Seq<RepairFacts>,
    n: int,
    at: int,
)
    requires
        0 <= n <= stale.len(),
        ascending_stale(stale),
        forall|i: int| 0 <= i < stale.len() ==> (#[trigger] stale[i]).key.0 < interfaces.len(),
        0 <= at < interfaces.len(),
    ensures
        repaired(interfaces, stale, facts, n).len() == interfaces.len(),
        forall|i: int|
            0 <= i < n && (#[trigger] stale[i]).key.0 == at ==> {
                let after = repaired(interfaces, stale, facts, n)[at];
                &&& after.interface.name == interfaces[at].interface.name
                &&& after.joiner == interfaces[at].joiner
                &&& match facts[i].resolution {
                    Resolution::Found(found) => {
                        &&& after.interface.ifindex == stale[i].cur
                        &&& after.interface.addrs == found.addrs
                        &&& after.interface.mtu == found.mtu
                    },
                    Resolution::Failed => after == interfaces[at],
                }
            },
        (forall|i: int| 0 <= i < n ==> (#[trigger] stale[i]).key.0 != at) ==> repaired(
            interfaces,
            stale,
            facts,
            n,
        )[at] == interfaces[at],
    decreases n,
{
    if n > 0 {
        law_a_pass_repoints_each_stale_interface(interfaces, stale, facts, n - 1, at);
        assert(stale[n - 1].key.0 < interfaces.len());
        if stale[n - 1].key.0 == at {
            assert forall|i: int| 0 <= i < n - 1 implies (#[trigger] stale[i]).key.0 != at by {
                assert(stale[i].key.0 < stale[n - 1].key.0);
            }
        }
    }
}

/// Interfaces whose identities are the same have the same name, index, addresses and MTU.
pub proof fn law_the_same_identity_is_the_same_interface(
    interfaces: Seq<InterfaceEntry>,
    entries: Seq<InterfaceEntry>,
    i: int,
)
    requires
        same_identities(interfaces, entries),
        0 <= i < interfaces.len(),
    ensures
        interfaces.len() <= entries.len(),
        entries[i].interface.name == interfaces[i].interface.name,
        entries[i].interface.ifindex == interfaces[i].interface.ifindex,
        entries[i].interface.addrs == interfaces[i].interface.addrs,
        entries[i].interface.mtu == interfaces[i].interface.mtu,
{
}

/// Lists in ascending order hold nothing twice, and every earlier key is the smaller.
pub proof fn law_ascending_lists_hold_nothing_twice(
    captures: Seq<CaptureKey>,
    stale: Seq<StaleInterface>,
    i: int,
    j: int,
)
    requires
        0 <= i < j,
    ensures
        ascending(captures) && j < captures.len() ==> captures[i].0 < captures[j].0,
        ascending_stale(stale) && j < stale.len() ==> stale[i].key.0 < stale[j].key.0,
{
}

/// The next pass is one second off while a repair failed or an interface is absent, and thirty seconds off
/// otherwise.
pub proof fn law_the_next_pass_is_exactly_timed(
    now: u64,
    repairs: Seq<Repair>,
    interfaces: Seq<InterfaceEntry>,
)
    requires
        now + 30_000_000_000 <= u64::MAX,
    ensures
        (exists|i: int| 0 <= i < repairs.len() && (#[trigger] repairs[i]).failed) ==> next_pass(
            now,
            some_failed(repairs),
            interfaces,
        ) == now + 1_000_000_000,
        (exists|i: int| 0 <= i < interfaces.len() && (#[trigger] interfaces[i]).interface.ifindex == 0)
            ==> next_pass(now, some_failed(repairs), interfaces) == now + 1_000_000_000,
        (forall|i: int| 0 <= i < repairs.len() ==> !(#[trigger] repairs[i]).failed) && (forall|i: int|
            0 <= i < interfaces.len() ==> (#[trigger] interfaces[i]).interface.ifindex != 0)
            ==> next_pass(now, some_failed(repairs), interfaces) == now + 30_000_000_000,
{
}

/// Each repair of a pass begins where the one before it ended, and its handlers are told once the interface was
/// re-pointed and before the recovery is counted: every handler told sees the interface repaired.
pub proof fn law_handlers_are_told_of_a_repaired_interface<S, H: PacketHandler<S, R>, R>(
    stale: Seq<StaleInterface>,
    facts: Seq<RepairFacts>,
    repairs: Seq<Repair>,
    states: Seq<DispatchState<S, H>>,
    tellings: Seq<Telling<S, H>>,
    n: int,
    i: int,
)
    requires
        repairs_made::<S, H, R>(stale, facts, repairs, states, tellings, n),
        0 <= i < n,
        stale[i].key.0 < states[i].interfaces.len(),
    ensures
        states[i].is_repair(stale[i], facts[i].resolution, facts[i].bound@, repairs[i]),
        tellings[i].after.repair_closed(repairs[i], states[i + 1]),
        repairs[i].captures@.len() == 0 ==> tellings[i].turns.len() == 0,
        repairs[i].captures@.len() > 0 && tellings[i].turns.len() > 0 ==> {
            let first = tellings[i].turns[0].before;
            &&& first.rows == states[i].rows
            &&& first.registrations == states[i].registrations
            &&& facts[i].resolution matches Resolution::Found(found)
                ==> first.interfaces[stale[i].key.0 as int].interface.ifindex == stale[i].cur
                && first.interfaces[stale[i].key.0 as int].interface.addrs == found.addrs
        },
    decreases n,
{
    if i < n - 1 {
        law_handlers_are_told_of_a_repaired_interface::<S, H, R>(
            stale,
            facts,
            repairs,
            states,
            tellings,
            n - 1,
            i,
        );
    } else if repairs[i].captures@.len() > 0 && tellings[i].turns.len() > 0 {
        law_turns_follow_one_another::<S, H, R>(
            Summons::Changed(repairs[i].captures),
            tellings[i].keys,
            tellings[i].turns,
            states[i].repointed(stale[i], facts[i].resolution),
            tellings[i].after,
            0,
        );
    }
}

/// Re-binding a capture that is not there, out of range or taken out, neither succeeds nor fails; one that is
/// there does as the system said, and one the system says nothing of was not re-bound.
pub proof fn law_only_a_capture_that_is_there_is_rebound<S>(
    rows: Seq<CaptureEntry<S>>,
    key: CaptureKey,
    bound: Seq<bool>,
    j: int,
)
    requires
        0 <= j,
    ensures
        key.0 >= rows.len() ==> rebind_of(rows, key, succeeded(bound, j)) is Missing,
        key.0 < rows.len() && rows[key.0 as int].capture is None ==> rebind_of(
            rows,
            key,
            succeeded(bound, j),
        ) is Missing,
        key.0 < rows.len() && rows[key.0 as int].capture is Some && j < bound.len() && bound[j]
            ==> rebind_of(rows, key, succeeded(bound, j)) is Rebound,
        key.0 < rows.len() && rows[key.0 as int].capture is Some && (j >= bound.len() || !bound[j])
            ==> rebind_of(rows, key, succeeded(bound, j)) is Failed,
{
}

}
