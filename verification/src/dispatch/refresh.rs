//! Following the interfaces' changes: which were named, what is re-resolved, and who has to know.

use vstd::prelude::*;

use super::interface_table::{
    captures_at, has_dead_capture, law_an_indexs_captures_are_those_on_its_interface,
    law_present_interfaces_are_those_that_exist, law_refreshing_all_refreshes_each,
    law_what_is_looked_up_is_the_first, lemma_position_at, position_at, present_among, refresh_results, refreshed_each, CaptureEntry, InterfaceEntry,
};
use super::keys::{CaptureKey, InterfaceKey};
use super::{DispatchState, PacketDispatcher};
use crate::interface::{AddressChange, Resolution, ResolveFailed};

verus! {

/// One notification of the interface monitor.
#[derive(Clone, Copy, PartialEq, Eq, Structural, Debug)]
pub enum InterfaceEvent {
    /// Notifications were lost: anything may have changed.
    Overflow,
    /// An address of the interface with this kernel index changed.
    Address(u32),
    /// The interface with this kernel index changed itself.
    Link(u32),
}

/// What the platform's monitor can be relied on for.
#[derive(Clone, Copy, PartialEq, Eq, Structural, Debug)]
pub struct Platform {
    /// A new interface always gets a larger kernel index than any before it.
    pub indexes_monotonic: bool,
    /// Creations and removals are announced at all.
    pub lifecycle_events: bool,
}

/// The position of `ifindex` among the named interfaces, at or after `from`.
pub open spec fn position_changed(changed: Seq<(u32, bool)>, ifindex: u32, from: int) -> Option<int>
    decreases changed.len() - from,
{
    if from < 0 || from >= changed.len() {
        None
    } else if changed[from].0 == ifindex {
        Some(from)
    } else {
        position_changed(changed, ifindex, from + 1)
    }
}

/// The notifications of one wakeup, one entry per interface named: its kernel index, and whether the
/// interface itself changed.
#[derive(Debug)]
pub struct EventBatch {
    pub changed: Vec<(u32, bool)>,
    pub overflow: bool,
}

impl EventBatch {
    /// No notification yet.
    pub fn new() -> (r: Self)
        ensures
            r.changed@.len() == 0,
            !r.overflow,
    {
        EventBatch { changed: Vec::new(), overflow: false }
    }

    /// Whether no interface is named twice.
    pub open spec fn coalesced(self) -> bool {
        forall|i: int, j: int|
            0 <= i < j < self.changed@.len() ==> (#[trigger] self.changed@[i]).0 != (
            #[trigger] self.changed@[j]).0
    }

    /// Whether nothing was notified.
    pub fn is_empty(&self) -> (r: bool)
        ensures
            r == (self.changed@.len() == 0 && !self.overflow),
    {
        self.changed.len() == 0 && !self.overflow
    }

    /// Note that the interface with kernel index `ifindex` was named.
    pub open spec fn named(changed: Seq<(u32, bool)>, ifindex: u32, is_link: bool) -> Seq<(u32, bool)> {
        match position_changed(changed, ifindex, 0) {
            Some(i) => changed.update(i, (ifindex, changed[i].1 || is_link)),
            None => changed.push((ifindex, is_link)),
        }
    }

    fn name(&mut self, ifindex: u32, is_link: bool)
        requires
            old(self).coalesced(),
        ensures
            final(self).coalesced(),
            final(self).overflow == old(self).overflow,
            final(self).changed@ == EventBatch::named(old(self).changed@, ifindex, is_link),
    {
        let mut i: usize = 0;
        while i < self.changed.len()
            invariant
                *self == *old(self),
                self.coalesced(),
                i <= self.changed@.len(),
                forall|j: int| 0 <= j < i ==> (#[trigger] self.changed@[j]).0 != ifindex,
                position_changed(self.changed@, ifindex, 0) == position_changed(
                    self.changed@,
                    ifindex,
                    i as int,
                ),
            decreases self.changed@.len() - i,
        {
            if self.changed[i].0 == ifindex {
                let link = self.changed[i].1 || is_link;
                self.changed.set(i, (ifindex, link));
                return;
            }
            i += 1;
        }
        self.changed.push((ifindex, is_link));
    }

    /// Take in a notification.
    pub fn note(&mut self, event: InterfaceEvent)
        requires
            old(self).coalesced(),
        ensures
            final(self).coalesced(),
            final(self).overflow == (old(self).overflow || event is Overflow),
            final(self).changed@ == match event {
                InterfaceEvent::Overflow => old(self).changed@,
                InterfaceEvent::Address(ifindex) => EventBatch::named(
                    old(self).changed@,
                    ifindex,
                    false,
                ),
                InterfaceEvent::Link(ifindex) => EventBatch::named(
                    old(self).changed@,
                    ifindex,
                    true,
                ),
            },
    {
        match event {
            InterfaceEvent::Overflow => {
                self.overflow = true;
            },
            InterfaceEvent::Address(ifindex) => {
                self.name(ifindex, false);
            },
            InterfaceEvent::Link(ifindex) => {
                self.name(ifindex, true);
            },
        }
    }
}

/// The largest of `ceiling` and the first `n` named kernel indexes.
pub open spec fn raised(ceiling: u32, changed: Seq<(u32, bool)>, n: int) -> u32
    decreases n,
{
    if n <= 0 {
        ceiling
    } else {
        let before = raised(ceiling, changed, n - 1);
        if changed[n - 1].0 > before {
            changed[n - 1].0
        } else {
            before
        }
    }
}

/// What following a batch of notifications came to so far.
#[verifier::ext_equal]
pub struct Followed {
    pub interfaces: Seq<InterfaceEntry>,
    /// The kernel indexes whose IPv4 address moved, or may have.
    pub v4_moved: Seq<u32>,
    /// The kernel indexes any of whose addresses moved, or may have.
    pub touched: Seq<u32>,
    /// The interfaces whose recorded groups are to be re-attempted.
    pub rejoins: Seq<InterfaceKey>,
    /// Whether a reconcile pass is wanted.
    pub reconcile: bool,
}

impl Followed {
    /// Before anything is followed.
    pub open spec fn start(interfaces: Seq<InterfaceEntry>, reconcile: bool) -> Self {
        Followed {
            interfaces,
            v4_moved: Seq::empty(),
            touched: Seq::empty(),
            rejoins: Seq::empty(),
            reconcile,
        }
    }

    /// With a refresh of the interface at `ifindex`. One whose addresses cannot be confirmed counts as
    /// moved.
    pub open spec fn moved(self, ifindex: u32, result: Result<AddressChange, ResolveFailed>) -> Self {
        Followed {
            v4_moved: if result is Err || result->Ok_0.v4 {
                self.v4_moved.push(ifindex)
            } else {
                self.v4_moved
            },
            touched: if result is Err || result->Ok_0.v4 || result->Ok_0.v6 {
                self.touched.push(ifindex)
            } else {
                self.touched
            },
            ..self
        }
    }

    /// The first `n` results of refreshing every interface.
    pub open spec fn all(
        self,
        results: Seq<(u32, Result<AddressChange, ResolveFailed>)>,
        n: int,
    ) -> Self
        decreases n,
    {
        if n <= 0 {
            self
        } else {
            self.all(results, n - 1).moved(results[n - 1].0, results[n - 1].1)
        }
    }
}

/// Whether a notification on an interface that is not watched may announce one of ours, recreated
/// under a new index. Where indexes only grow, a change above every index seen so far is a creation;
/// where they do not, any change may be one; where creations are not announced, anything may.
pub open spec fn may_announce(
    platform: Platform,
    prior_ceiling: u32,
    ifindex: u32,
    is_link: bool,
) -> bool {
    ||| is_link && (platform.indexes_monotonic ==> ifindex > prior_ceiling)
    ||| !platform.lifecycle_events
}

/// What following the notifications rests on besides the interfaces.
#[verifier::ext_equal]
pub struct FollowFacts<S> {
    pub rows: Seq<CaptureEntry<S>>,
    /// What resolving the interface of each notification gave.
    pub resolutions: Seq<Resolution>,
    /// The index each capture is hooked to.
    pub bound: Seq<Option<u32>>,
    /// The largest index seen before these notifications.
    pub prior_ceiling: u32,
    pub platform: Platform,
}

impl<S> FollowFacts<S> {
    /// Whether notification number `i`, naming `entry`, calls for a reconcile pass: the interface
    /// itself changed, it could not be resolved, a capture on it lost its binding, or it may be one of
    /// ours under a new index.
    pub open spec fn wants_reconcile(
        self,
        interfaces: Seq<InterfaceEntry>,
        entry: (u32, bool),
        i: int,
    ) -> bool {
        match position_at(interfaces, entry.0, 0) {
            Some(at) => {
                ||| entry.1
                ||| self.resolutions[i] is Failed
                ||| has_dead_capture(self.rows, self.bound, InterfaceKey(at as u32), entry.0)
            },
            None => may_announce(self.platform, self.prior_ceiling, entry.0, entry.1),
        }
    }

    /// Whether notification number `i`, naming `ifindex`, moved an address of a watched interface, or
    /// may have.
    pub open spec fn touches(self, interfaces: Seq<InterfaceEntry>, ifindex: u32, i: int) -> bool {
        match position_at(interfaces, ifindex, 0) {
            Some(at) => match interfaces[at].refresh_result(self.resolutions[i]) {
                Ok(change) => change.v4 || change.v6,
                Err(_) => true,
            },
            None => false,
        }
    }

    /// Whether notification number `i`, naming `ifindex`, moved the IPv4 address of a watched interface,
    /// or may have.
    pub open spec fn moves_v4(self, interfaces: Seq<InterfaceEntry>, ifindex: u32, i: int) -> bool {
        match position_at(interfaces, ifindex, 0) {
            Some(at) => match interfaces[at].refresh_result(self.resolutions[i]) {
                Ok(change) => change.v4,
                Err(_) => true,
            },
            None => false,
        }
    }

    /// With notification number `i`, naming `entry`.
    pub open spec fn step(self, before: Followed, entry: (u32, bool), i: int) -> Followed {
        let reconcile = before.reconcile || self.wants_reconcile(before.interfaces, entry, i);
        match position_at(before.interfaces, entry.0, 0) {
            Some(at) => {
                let was = before.interfaces[at];
                let result = was.refresh_result(self.resolutions[i]);
                Followed {
                    interfaces: before.interfaces.update(at, was.refreshed(self.resolutions[i])),
                    rejoins: if result is Ok && entry.0 != 0 {
                        before.rejoins.push(InterfaceKey(at as u32))
                    } else {
                        before.rejoins
                    },
                    reconcile,
                    ..before.moved(entry.0, result)
                }
            },
            None => Followed { reconcile, ..before },
        }
    }

    /// With the first `n` notifications.
    pub open spec fn follow(
        self,
        interfaces: Seq<InterfaceEntry>,
        changed: Seq<(u32, bool)>,
        n: int,
    ) -> Followed
        decreases n,
    {
        if n <= 0 {
            Followed::start(interfaces, false)
        } else {
            self.step(self.follow(interfaces, changed, n - 1), changed[n - 1], n - 1)
        }
    }
}

/// The captures on the interfaces at the first `n` of these kernel indexes, in order.
pub open spec fn captures_for_spec<S>(
    interfaces: Seq<InterfaceEntry>,
    rows: Seq<CaptureEntry<S>>,
    ifindexes: Seq<u32>,
    n: int,
) -> Seq<CaptureKey>
    decreases n,
{
    if n <= 0 {
        Seq::empty()
    } else {
        captures_for_spec(interfaces, rows, ifindexes, n - 1) + captures_at(
            interfaces,
            rows,
            ifindexes[n - 1],
        )
    }
}

/// What a batch of notifications leaves to do.
#[derive(Debug)]
pub struct RefreshPlan {
    /// The captures whose proxies are to be dropped: their interface's IPv4 address moved.
    pub v4_captures: Vec<CaptureKey>,
    /// The captures whose handlers have to know: an address of their interface moved.
    pub touched_captures: Vec<CaptureKey>,
    /// The interfaces whose recorded groups are to be re-attempted.
    pub rejoins: Vec<InterfaceKey>,
    /// Whether to run a reconcile pass, after all else.
    pub reconcile: bool,
}

impl RefreshPlan {
    /// Whether this is the plan for what was followed, given the captures.
    pub open spec fn is_for<S>(self, followed: Followed, rows: Seq<CaptureEntry<S>>) -> bool {
        &&& self.v4_captures@ == captures_for_spec(
            followed.interfaces,
            rows,
            followed.v4_moved,
            followed.v4_moved.len() as int,
        )
        &&& self.touched_captures@ == captures_for_spec(
            followed.interfaces,
            rows,
            followed.touched,
            followed.touched.len() as int,
        )
        &&& self.rejoins@ == followed.rejoins
        &&& self.reconcile == followed.reconcile
    }
}

impl<S, H> DispatchState<S, H> {
    /// What following a batch comes to. An overflow re-resolves every interface, and any of them may
    /// have been recreated; otherwise the named ones are followed in order.
    pub open spec fn followed(
        self,
        batch: EventBatch,
        resolutions: Seq<Resolution>,
        bound: Seq<Option<u32>>,
        platform: Platform,
    ) -> Followed {
        if batch.overflow {
            let interfaces = refreshed_each(self.interfaces, resolutions);
            Followed {
                interfaces,
                rejoins: present_among(interfaces, interfaces.len() as int),
                ..Followed::start(self.interfaces, true).all(
                    refresh_results(self.interfaces, resolutions),
                    self.interfaces.len() as int,
                )
            }
        } else {
            self.follow_facts(resolutions, bound, platform).follow(
                self.interfaces,
                batch.changed@,
                batch.changed@.len() as int,
            )
        }
    }

    /// What following notifications now rests on.
    pub open spec fn follow_facts(
        self,
        resolutions: Seq<Resolution>,
        bound: Seq<Option<u32>>,
        platform: Platform,
    ) -> FollowFacts<S> {
        FollowFacts { rows: self.rows, resolutions, bound, prior_ceiling: self.ceiling, platform }
    }
}

impl<S, H> PacketDispatcher<S, H> {
    /// The captures on the interfaces at these kernel indexes, in order.
    pub fn captures_for(&self, ifindexes: &Vec<u32>) -> (r: Vec<CaptureKey>)
        requires
            self.wf(),
        ensures
            r@ == captures_for_spec(
                self@.interfaces,
                self@.rows,
                ifindexes@,
                ifindexes@.len() as int,
            ),
    {
        let mut captures: Vec<CaptureKey> = Vec::new();
        let mut i: usize = 0;
        while i < ifindexes.len()
            invariant
                self.wf(),
                i <= ifindexes@.len(),
                captures@ == captures_for_spec(self@.interfaces, self@.rows, ifindexes@, i as int),
            decreases ifindexes@.len() - i,
        {
            let mut here = self.table.captures_at_ifindex(ifindexes[i]);
            captures.append(&mut here);
            i += 1;
        }
        captures
    }

    fn raise_ceiling(&mut self, changed: &Vec<(u32, bool)>)
        requires
            old(self).wf(),
        ensures
            final(self).wf(),
            final(self)@ == (DispatchState {
                ceiling: raised(old(self)@.ceiling, changed@, changed@.len() as int),
                ..old(self)@
            }),
    {
        let mut i: usize = 0;
        while i < changed.len()
            invariant
                self.wf(),
                i <= changed@.len(),
                self@ == (DispatchState {
                    ceiling: raised(old(self)@.ceiling, changed@, i as int),
                    ..old(self)@
                }),
            decreases changed@.len() - i,
        {
            if changed[i].0 > self.max_seen_ifindex {
                self.max_seen_ifindex = changed[i].0;
            }
            i += 1;
        }
    }

    fn plan_for(
        &self,
        v4_moved: Vec<u32>,
        touched: Vec<u32>,
        rejoins: Vec<InterfaceKey>,
        reconcile: bool,
    ) -> (r: RefreshPlan)
        requires
            self.wf(),
        ensures
            r.is_for(
                Followed {
                    interfaces: self@.interfaces,
                    v4_moved: v4_moved@,
                    touched: touched@,
                    rejoins: rejoins@,
                    reconcile,
                },
                self@.rows,
            ),
    {
        RefreshPlan {
            v4_captures: self.captures_for(&v4_moved),
            touched_captures: self.captures_for(&touched),
            rejoins,
            reconcile,
        }
    }

    fn follow_overflow(&mut self, resolutions: &Vec<Resolution>) -> (r: RefreshPlan)
        requires
            old(self).wf(),
            resolutions@.len() == old(self)@.interfaces.len(),
        ensures
            final(self).wf(),
            ({
                let interfaces = refreshed_each(old(self)@.interfaces, resolutions@);
                let followed = Followed {
                    interfaces,
                    rejoins: present_among(interfaces, interfaces.len() as int),
                    ..Followed::start(old(self)@.interfaces, true).all(
                        refresh_results(old(self)@.interfaces, resolutions@),
                        old(self)@.interfaces.len() as int,
                    )
                };
                &&& final(self)@ == (DispatchState { interfaces, ..old(self)@ })
                &&& r.is_for(followed, old(self)@.rows)
            }),
    {
        let results = self.table.refresh_all(resolutions);
        let mut v4_moved: Vec<u32> = Vec::new();
        let mut touched: Vec<u32> = Vec::new();
        let ghost start = Followed::start(old(self)@.interfaces, true);
        let mut i: usize = 0;
        while i < results.len()
            invariant
                i <= results@.len(),
                start == Followed::start(old(self)@.interfaces, true),
                start.all(results@, i as int) == (Followed {
                    v4_moved: v4_moved@,
                    touched: touched@,
                    ..start
                }),
            decreases results@.len() - i,
        {
            let ifindex: u32 = results[i].0;
            match results[i].1 {
                Ok(change) => {
                    if change.v4 {
                        v4_moved.push(ifindex);
                    }
                    if change.v4 || change.v6 {
                        touched.push(ifindex);
                    }
                },
                Err(_) => {
                    v4_moved.push(ifindex);
                    touched.push(ifindex);
                },
            }
            i += 1;
        }
        let rejoins = self.table.present_interfaces();
        self.plan_for(v4_moved, touched, rejoins, true)
    }

    fn follow_changed(
        &mut self,
        changed: &Vec<(u32, bool)>,
        resolutions: &Vec<Resolution>,
        bound: &Vec<Option<u32>>,
        prior_ceiling: u32,
        platform: Platform,
    ) -> (r: RefreshPlan)
        requires
            old(self).wf(),
            resolutions@.len() == changed@.len(),
            bound@.len() == old(self)@.rows.len(),
        ensures
            final(self).wf(),
            ({
                let facts = FollowFacts {
                    rows: old(self)@.rows,
                    resolutions: resolutions@,
                    bound: bound@,
                    prior_ceiling,
                    platform,
                };
                let followed = facts.follow(
                    old(self)@.interfaces,
                    changed@,
                    changed@.len() as int,
                );
                &&& final(self)@ == (DispatchState {
                    interfaces: followed.interfaces,
                    ..old(self)@
                })
                &&& r.is_for(followed, old(self)@.rows)
            }),
    {
        let ghost facts = FollowFacts {
            rows: old(self)@.rows,
            resolutions: resolutions@,
            bound: bound@,
            prior_ceiling,
            platform,
        };
        let mut v4_moved: Vec<u32> = Vec::new();
        let mut touched: Vec<u32> = Vec::new();
        let mut rejoins: Vec<InterfaceKey> = Vec::new();
        let mut reconcile = false;
        let mut i: usize = 0;
        while i < changed.len()
            invariant
                self.wf(),
                i <= changed@.len(),
                resolutions@.len() == changed@.len(),
                bound@.len() == old(self)@.rows.len(),
                facts == (FollowFacts {
                    rows: old(self)@.rows,
                    resolutions: resolutions@,
                    bound: bound@,
                    prior_ceiling,
                    platform,
                }),
                self@ == (DispatchState { interfaces: self@.interfaces, ..old(self)@ }),
                facts.follow(old(self)@.interfaces, changed@, i as int) == (Followed {
                    interfaces: self@.interfaces,
                    v4_moved: v4_moved@,
                    touched: touched@,
                    rejoins: rejoins@,
                    reconcile,
                }),
            decreases changed@.len() - i,
        {
            let (ifindex, is_link) = changed[i];
            let ghost before = facts.follow(old(self)@.interfaces, changed@, i as int);
            proof {
                lemma_position_at(before.interfaces, ifindex, 0);
            }
            match self.table.refresh_by_ifindex(ifindex, resolutions[i]) {
                Ok(Some(refreshed)) => {
                    if refreshed.change.v4 {
                        v4_moved.push(ifindex);
                    }
                    if refreshed.change.v4 || refreshed.change.v6 {
                        touched.push(ifindex);
                    }
                    if refreshed.rejoin {
                        rejoins.push(refreshed.interface);
                    }
                    proof {
                        lemma_same_position(before.interfaces, self@.interfaces, ifindex, 0);
                    }
                    if is_link || !self.table.probe_by_ifindex(ifindex, bound) {
                        reconcile = true;
                    }
                },
                Ok(None) => {
                    let creation = if platform.indexes_monotonic {
                        is_link && ifindex > prior_ceiling
                    } else {
                        is_link
                    };
                    if creation || !platform.lifecycle_events {
                        reconcile = true;
                    }
                },
                Err(_) => {
                    v4_moved.push(ifindex);
                    touched.push(ifindex);
                    reconcile = true;
                },
            }
            i += 1;
        }
        self.plan_for(v4_moved, touched, rejoins, reconcile)
    }

    /// Follow a batch of notifications. `resolutions` is what resolving the interfaces gave: of every
    /// interface after an overflow, else of the one each entry of the batch names, where it is watched.
    /// `bound` is the index each capture is hooked to. The creation test compares against the largest
    /// index seen before the batch, which the batch then raises.
    pub fn refresh_changed_interfaces(
        &mut self,
        batch: &EventBatch,
        resolutions: &Vec<Resolution>,
        bound: &Vec<Option<u32>>,
        platform: Platform,
    ) -> (r: RefreshPlan)
        requires
            old(self).wf(),
            batch.overflow ==> resolutions@.len() == old(self)@.interfaces.len(),
            !batch.overflow ==> resolutions@.len() == batch.changed@.len(),
            bound@.len() == old(self)@.rows.len(),
        ensures
            final(self).wf(),
            ({
                let followed = old(self)@.followed(*batch, resolutions@, bound@, platform);
                &&& r.is_for(followed, old(self)@.rows)
                &&& final(self)@ == (DispatchState {
                    interfaces: followed.interfaces,
                    ceiling: raised(
                        old(self)@.ceiling,
                        batch.changed@,
                        batch.changed@.len() as int,
                    ),
                    ..old(self)@
                })
            }),
    {
        let prior_ceiling: u32 = self.max_seen_ifindex;
        self.raise_ceiling(&batch.changed);
        if batch.overflow {
            self.follow_overflow(resolutions)
        } else {
            self.follow_changed(&batch.changed, resolutions, bound, prior_ceiling, platform)
        }
    }
}

proof fn lemma_same_position(
    before: Seq<InterfaceEntry>,
    after: Seq<InterfaceEntry>,
    ifindex: u32,
    from: int,
)
    requires
        0 <= from,
        before.len() == after.len(),
        forall|i: int|
            0 <= i < before.len() ==> (#[trigger] after[i]).interface.ifindex
                == before[i].interface.ifindex,
    ensures
        position_at(after, ifindex, from) == position_at(before, ifindex, from),
    decreases before.len() - from,
{
    if from < before.len() {
        lemma_same_position(before, after, ifindex, from + 1);
    }
}

proof fn lemma_follow_keeps_identities<S>(
    facts: FollowFacts<S>,
    interfaces: Seq<InterfaceEntry>,
    changed: Seq<(u32, bool)>,
    n: int,
)
    requires
        0 <= n <= changed.len(),
    ensures
        ({
            let after = facts.follow(interfaces, changed, n).interfaces;
            &&& after.len() == interfaces.len()
            &&& forall|i: int|
                0 <= i < interfaces.len() ==> (#[trigger] after[i]).interface.ifindex
                    == interfaces[i].interface.ifindex
            &&& forall|i: int|
                0 <= i < interfaces.len() && (forall|j: int|
                    0 <= j < n ==> (#[trigger] changed[j]).0 != interfaces[i].interface.ifindex)
                    ==> #[trigger] after[i] == interfaces[i]
        }),
    decreases n,
{
    if n > 0 {
        lemma_follow_keeps_identities(facts, interfaces, changed, n - 1);
        let before = facts.follow(interfaces, changed, n - 1).interfaces;
        let after = facts.follow(interfaces, changed, n).interfaces;
        lemma_position_at(before, changed[n - 1].0, 0);
        assert forall|i: int|
            0 <= i < interfaces.len() && (forall|j: int|
                0 <= j < n ==> (#[trigger] changed[j]).0 != interfaces[i].interface.ifindex) implies
            #[trigger] after[i] == interfaces[i] by {
            assert(changed[n - 1].0 != interfaces[i].interface.ifindex);
            assert(before[i] == interfaces[i]);
        }
    }
}

/// Following the named interfaces calls for a reconcile pass exactly if one of the notifications does,
/// judged by the table as it was.
pub proof fn law_any_telling_notification_reconciles<S>(
    facts: FollowFacts<S>,
    interfaces: Seq<InterfaceEntry>,
    changed: Seq<(u32, bool)>,
    n: int,
)
    requires
        0 <= n <= changed.len(),
    ensures
        facts.follow(interfaces, changed, n).reconcile <==> exists|i: int|
            0 <= i < n && #[trigger] facts.wants_reconcile(interfaces, changed[i], i),
    decreases n,
{
    if n > 0 {
        law_any_telling_notification_reconciles(facts, interfaces, changed, n - 1);
        lemma_follow_keeps_identities(facts, interfaces, changed, n - 1);
        let before = facts.follow(interfaces, changed, n - 1);
        lemma_same_position(interfaces, before.interfaces, changed[n - 1].0, 0);
        assert(facts.wants_reconcile(before.interfaces, changed[n - 1], n - 1)
            == facts.wants_reconcile(interfaces, changed[n - 1], n - 1));
        if facts.follow(interfaces, changed, n).reconcile {
            if before.reconcile {
                let i = choose|i: int|
                    0 <= i < n - 1 && #[trigger] facts.wants_reconcile(interfaces, changed[i], i);
                assert(facts.wants_reconcile(interfaces, changed[i], i));
            } else {
                assert(facts.wants_reconcile(interfaces, changed[n - 1], n - 1));
            }
        }
    }
}

/// Only a real move is reported: a kernel index counts as touched exactly if a notification named it,
/// its interface is watched, and its addresses differ from before or could not be confirmed, and as moved
/// in IPv4 exactly if that is so of its IPv4 address. A carrier flap or a change elsewhere touches nothing.
pub proof fn law_only_a_move_touches<S>(
    facts: FollowFacts<S>,
    interfaces: Seq<InterfaceEntry>,
    changed: Seq<(u32, bool)>,
    n: int,
    ifindex: u32,
)
    requires
        0 <= n <= changed.len(),
        forall|i: int, j: int|
            0 <= i < j < changed.len() ==> (#[trigger] changed[i]).0 != (#[trigger] changed[j]).0,
    ensures
        facts.follow(interfaces, changed, n).touched.contains(ifindex) <==> exists|i: int|
            0 <= i < n && (#[trigger] changed[i]).0 == ifindex && facts.touches(
                interfaces,
                ifindex,
                i,
            ),
        facts.follow(interfaces, changed, n).v4_moved.contains(ifindex) <==> exists|i: int|
            0 <= i < n && (#[trigger] changed[i]).0 == ifindex && facts.moves_v4(
                interfaces,
                ifindex,
                i,
            ),
        facts.follow(interfaces, changed, n).v4_moved.contains(ifindex) ==> facts.follow(
            interfaces,
            changed,
            n,
        ).touched.contains(ifindex),
    decreases n,
{
    if n > 0 {
        law_only_a_move_touches(facts, interfaces, changed, n - 1, ifindex);
        lemma_follow_keeps_identities(facts, interfaces, changed, n - 1);
        let before = facts.follow(interfaces, changed, n - 1);
        let after = facts.follow(interfaces, changed, n);
        let entry = changed[n - 1];
        lemma_same_position(interfaces, before.interfaces, entry.0, 0);
        lemma_position_at(interfaces, entry.0, 0);
        if let Some(at) = position_at(interfaces, entry.0, 0) {
            assert(forall|j: int| 0 <= j < n - 1 ==> (#[trigger] changed[j]).0 != entry.0);
            assert(before.interfaces[at] == interfaces[at]);
        }
        assert(after.touched == if facts.touches(interfaces, entry.0, n - 1) {
            before.touched.push(entry.0)
        } else {
            before.touched
        });
        assert(after.v4_moved == if facts.moves_v4(interfaces, entry.0, n - 1) {
            before.v4_moved.push(entry.0)
        } else {
            before.v4_moved
        });
        lemma_push_contains(before.touched, entry.0, ifindex);
        lemma_push_contains(before.v4_moved, entry.0, ifindex);
        lemma_some_named(changed, ifindex, n, |i: int| facts.touches(interfaces, ifindex, i));
        lemma_some_named(changed, ifindex, n, |i: int| facts.moves_v4(interfaces, ifindex, i));
    }
}

proof fn lemma_some_named(
    changed: Seq<(u32, bool)>,
    ifindex: u32,
    n: int,
    moves: spec_fn(int) -> bool,
)
    requires
        0 < n <= changed.len(),
    ensures
        (exists|i: int| 0 <= i < n && (#[trigger] changed[i]).0 == ifindex && moves(i)) <==> (
        changed[n - 1].0 == ifindex && moves(n - 1)) || exists|i: int|
            0 <= i < n - 1 && (#[trigger] changed[i]).0 == ifindex && moves(i),
{
    if exists|i: int| 0 <= i < n - 1 && (#[trigger] changed[i]).0 == ifindex && moves(i) {
        let i = choose|i: int| 0 <= i < n - 1 && (#[trigger] changed[i]).0 == ifindex && moves(i);
        assert(changed[i].0 == ifindex);
    }
    if exists|i: int| 0 <= i < n && (#[trigger] changed[i]).0 == ifindex && moves(i) {
        let i = choose|i: int| 0 <= i < n && (#[trigger] changed[i]).0 == ifindex && moves(i);
        if i < n - 1 {
            assert(changed[i].0 == ifindex);
        }
    }
}

proof fn lemma_push_contains(before: Seq<u32>, pushed: u32, value: u32)
    ensures
        before.push(pushed).contains(value) <==> before.contains(value) || value == pushed,
{
    assert(before.push(pushed)[before.len() as int] == pushed);
    if before.contains(value) {
        let i = before.index_of(value);
        assert(before.push(pushed)[i] == value);
    }
    if before.push(pushed).contains(value) {
        let i = before.push(pushed).index_of(value);
        if i < before.len() {
            assert(before[i] == value);
        }
    }
}

/// The largest index seen never falls, and covers every index a batch names.
pub proof fn law_the_ceiling_only_rises(ceiling: u32, changed: Seq<(u32, bool)>, n: int)
    requires
        0 <= n <= changed.len(),
    ensures
        ceiling <= raised(ceiling, changed, n),
        forall|i: int| 0 <= i < n ==> (#[trigger] changed[i]).0 <= raised(ceiling, changed, n),
        raised(ceiling, changed, n) == ceiling || exists|i: int|
            0 <= i < n && (#[trigger] changed[i]).0 == raised(ceiling, changed, n),
    decreases n,
{
    if n > 0 {
        law_the_ceiling_only_rises(ceiling, changed, n - 1);
        let before = raised(ceiling, changed, n - 1);
        if changed[n - 1].0 <= before && before != ceiling {
            let i = choose|i: int| 0 <= i < n - 1 && (#[trigger] changed[i]).0 == before;
            assert(changed[i].0 == before);
        }
    }
}

/// Where new interfaces always get larger indexes and are announced, churn on an interface that is not
/// watched and not new calls for nothing, while a creation does.
pub proof fn law_only_a_creation_is_announced(
    platform: Platform,
    prior_ceiling: u32,
    ifindex: u32,
    is_link: bool,
)
    requires
        platform.indexes_monotonic,
        platform.lifecycle_events,
    ensures
        may_announce(platform, prior_ceiling, ifindex, is_link) <==> is_link && ifindex
            > prior_ceiling,
{
}

/// Whether interface number `p` is the first with kernel index `ifindex`.
pub open spec fn is_first_at(interfaces: Seq<InterfaceEntry>, p: int, ifindex: u32) -> bool {
    &&& 0 <= p < interfaces.len()
    &&& interfaces[p].interface.ifindex == ifindex
    &&& forall|j: int| 0 <= j < p ==> (#[trigger] interfaces[j]).interface.ifindex != ifindex
}

proof fn lemma_first_at(interfaces: Seq<InterfaceEntry>, p: int, ifindex: u32)
    ensures
        position_at(interfaces, ifindex, 0) == Some(p) <==> is_first_at(interfaces, p, ifindex),
{
    law_what_is_looked_up_is_the_first(interfaces, Seq::empty(), ifindex, 0);
    if is_first_at(interfaces, p, ifindex) {
        let found = position_at(interfaces, ifindex, 0);
        if found is None {
            assert(interfaces[p].interface.ifindex != ifindex);
        } else if found->0 < p {
            assert(interfaces[found->0].interface.ifindex != ifindex);
        } else if p < found->0 {
            assert(interfaces[p].interface.ifindex != ifindex);
        }
    }
}

/// Whether what was found of an interface has another IPv4 address than it is known by, or nothing could be
/// found.
pub open spec fn v4_differs(entry: InterfaceEntry, resolution: Resolution) -> bool {
    match resolution {
        Resolution::Found(found) => entry.interface.addrs.v4 != found.addrs.v4,
        Resolution::Failed => true,
    }
}

/// Whether what was found of an interface has another IPv4 address or another IPv6 address of either scope than
/// it is known by, or nothing could be found.
pub open spec fn address_differs(entry: InterfaceEntry, resolution: Resolution) -> bool {
    match resolution {
        Resolution::Found(found) => {
            ||| entry.interface.addrs.v4 != found.addrs.v4
            ||| entry.interface.addrs.v6_link_local != found.addrs.v6_link_local
            ||| entry.interface.addrs.v6_routable != found.addrs.v6_routable
        },
        Resolution::Failed => true,
    }
}

proof fn lemma_captures_for<S>(
    interfaces: Seq<InterfaceEntry>,
    rows: Seq<CaptureEntry<S>>,
    ifindexes: Seq<u32>,
    n: int,
    capture: CaptureKey,
)
    requires
        0 <= n <= ifindexes.len(),
    ensures
        captures_for_spec(interfaces, rows, ifindexes, n).contains(capture) <==> exists|k: int|
            0 <= k < n && captures_at(interfaces, rows, #[trigger] ifindexes[k]).contains(capture),
    decreases n,
{
    if n > 0 {
        lemma_captures_for(interfaces, rows, ifindexes, n - 1, capture);
        let before = captures_for_spec(interfaces, rows, ifindexes, n - 1);
        let here = captures_at(interfaces, rows, ifindexes[n - 1]);
        let all = before + here;
        assert(all.contains(capture) <==> before.contains(capture) || here.contains(capture)) by {
            if before.contains(capture) {
                let i = before.index_of(capture);
                assert(all[i] == capture);
            }
            if here.contains(capture) {
                let i = here.index_of(capture);
                assert(all[before.len() + i] == capture);
            }
            if all.contains(capture) {
                let i = all.index_of(capture);
                if i < before.len() {
                    assert(before[i] == capture);
                } else {
                    assert(here[i - before.len()] == capture);
                }
            }
        }
        if before.contains(capture) {
            let k = choose|k: int|
                0 <= k < n - 1 && captures_at(interfaces, rows, #[trigger] ifindexes[k]).contains(
                    capture,
                );
            assert(captures_at(interfaces, rows, ifindexes[k]).contains(capture));
        }
        if exists|k: int|
            0 <= k < n && captures_at(interfaces, rows, #[trigger] ifindexes[k]).contains(capture) {
            let k = choose|k: int|
                0 <= k < n && captures_at(interfaces, rows, #[trigger] ifindexes[k]).contains(capture);
            if k < n - 1 {
                assert(captures_at(interfaces, rows, ifindexes[k]).contains(capture));
            }
        }
    }
}

/// A capture on some index of a list is on the first interface with one of them.
proof fn lemma_captures_for_members<S>(
    interfaces: Seq<InterfaceEntry>,
    rows: Seq<CaptureEntry<S>>,
    ifindexes: Seq<u32>,
    capture: CaptureKey,
)
    requires
        rows.len() <= u32::MAX + 1,
        interfaces.len() <= u32::MAX + 1,
        capture.0 < rows.len(),
        rows[capture.0 as int].interface.0 < interfaces.len(),
    ensures
        captures_for_spec(interfaces, rows, ifindexes, ifindexes.len() as int).contains(capture) <==> {
            let p = rows[capture.0 as int].interface.0 as int;
            &&& ifindexes.contains(interfaces[p].interface.ifindex)
            &&& is_first_at(interfaces, p, interfaces[p].interface.ifindex)
        },
{
    let p = rows[capture.0 as int].interface.0 as int;
    let index = interfaces[p].interface.ifindex;
    lemma_captures_for(interfaces, rows, ifindexes, ifindexes.len() as int, capture);
    if captures_for_spec(interfaces, rows, ifindexes, ifindexes.len() as int).contains(capture) {
        let k = choose|k: int|
            0 <= k < ifindexes.len() && captures_at(
                interfaces,
                rows,
                #[trigger] ifindexes[k],
            ).contains(capture);
        law_what_is_looked_up_is_the_first(interfaces, Seq::empty(), ifindexes[k], 0);
        let found = position_at(interfaces, ifindexes[k], 0);
        assert(found is Some);
        law_an_indexs_captures_are_those_on_its_interface(
            interfaces,
            rows,
            ifindexes[k],
            found->0,
            capture,
        );
        assert(found->0 == p);
        assert(ifindexes[k] == index);
    }
    if ifindexes.contains(index) && is_first_at(interfaces, p, index) {
        let k = ifindexes.index_of(index);
        law_an_indexs_captures_are_those_on_its_interface(interfaces, rows, index, p, capture);
        assert(captures_at(interfaces, rows, ifindexes[k]).contains(capture));
    }
}

/// Which captures a batch of notifications concerns. A capture is among those whose proxies are dropped exactly
/// if a notification named its interface and that interface's IPv4 address differs from the one found, one lost
/// or gained included, or nothing could be found; and among those whose handlers have to know exactly if that
/// is so of any of its addresses.
pub proof fn law_a_moved_address_concerns_its_captures<S, H>(
    state: DispatchState<S, H>,
    batch: EventBatch,
    resolutions: Seq<Resolution>,
    bound: Seq<Option<u32>>,
    platform: Platform,
    plan: RefreshPlan,
    capture: CaptureKey,
)
    requires
        !batch.overflow,
        batch.coalesced(),
        resolutions.len() == batch.changed@.len(),
        plan.is_for(state.followed(batch, resolutions, bound, platform), state.rows),
        state.rows.len() <= u32::MAX + 1,
        state.interfaces.len() <= u32::MAX + 1,
        capture.0 < state.rows.len(),
        state.rows[capture.0 as int].interface.0 < state.interfaces.len(),
    ensures
        ({
            let p = state.rows[capture.0 as int].interface.0 as int;
            let entry = state.interfaces[p];
            &&& plan.v4_captures@.contains(capture) <==> is_first_at(
                state.interfaces,
                p,
                entry.interface.ifindex,
            ) && exists|i: int|
                0 <= i < batch.changed@.len() && (#[trigger] batch.changed@[i]).0
                    == entry.interface.ifindex && v4_differs(entry, resolutions[i])
            &&& plan.touched_captures@.contains(capture) <==> is_first_at(
                state.interfaces,
                p,
                entry.interface.ifindex,
            ) && exists|i: int|
                0 <= i < batch.changed@.len() && (#[trigger] batch.changed@[i]).0
                    == entry.interface.ifindex && address_differs(entry, resolutions[i])
        }),
{
    let facts = state.follow_facts(resolutions, bound, platform);
    let changed = batch.changed@;
    let n = changed.len() as int;
    let followed = facts.follow(state.interfaces, changed, n);
    let p = state.rows[capture.0 as int].interface.0 as int;
    let entry = state.interfaces[p];
    let index = entry.interface.ifindex;
    lemma_follow_keeps_identities(facts, state.interfaces, changed, n);
    assert(followed.interfaces[p].interface.ifindex == index);
    lemma_captures_for_members(followed.interfaces, state.rows, followed.v4_moved, capture);
    lemma_captures_for_members(followed.interfaces, state.rows, followed.touched, capture);
    law_only_a_move_touches(facts, state.interfaces, changed, n, index);
    lemma_first_at(state.interfaces, p, index);
    lemma_first_at(followed.interfaces, p, index);
    lemma_same_position(state.interfaces, followed.interfaces, index, 0);
    if is_first_at(state.interfaces, p, index) {
        assert forall|i: int| 0 <= i < n && (#[trigger] changed[i]).0 == index implies {
            &&& facts.moves_v4(state.interfaces, index, i) == v4_differs(entry, resolutions[i])
            &&& facts.touches(state.interfaces, index, i) == address_differs(entry, resolutions[i])
        } by {}
    }
}

proof fn lemma_all_results(
    start: Followed,
    results: Seq<(u32, Result<AddressChange, ResolveFailed>)>,
    n: int,
    ifindex: u32,
)
    requires
        0 <= n <= results.len(),
        start.v4_moved.len() == 0,
        start.touched.len() == 0,
    ensures
        start.all(results, n).v4_moved.contains(ifindex) <==> exists|i: int|
            0 <= i < n && (#[trigger] results[i]).0 == ifindex && (results[i].1 is Err
                || results[i].1->Ok_0.v4),
        start.all(results, n).touched.contains(ifindex) <==> exists|i: int|
            0 <= i < n && (#[trigger] results[i]).0 == ifindex && (results[i].1 is Err
                || results[i].1->Ok_0.v4 || results[i].1->Ok_0.v6),
        start.all(results, n).reconcile == start.reconcile,
    decreases n,
{
    if n > 0 {
        lemma_all_results(start, results, n - 1, ifindex);
        let before = start.all(results, n - 1);
        lemma_push_contains(before.v4_moved, results[n - 1].0, ifindex);
        lemma_push_contains(before.touched, results[n - 1].0, ifindex);
        if exists|i: int|
            0 <= i < n - 1 && (#[trigger] results[i]).0 == ifindex && (results[i].1 is Err
                || results[i].1->Ok_0.v4) {
            let i = choose|i: int|
                0 <= i < n - 1 && (#[trigger] results[i]).0 == ifindex && (results[i].1 is Err
                    || results[i].1->Ok_0.v4);
            assert(results[i].0 == ifindex);
        }
        if exists|i: int|
            0 <= i < n - 1 && (#[trigger] results[i]).0 == ifindex && (results[i].1 is Err
                || results[i].1->Ok_0.v4 || results[i].1->Ok_0.v6) {
            let i = choose|i: int|
                0 <= i < n - 1 && (#[trigger] results[i]).0 == ifindex && (results[i].1 is Err
                    || results[i].1->Ok_0.v4 || results[i].1->Ok_0.v6);
            assert(results[i].0 == ifindex);
        }
        if exists|i: int|
            0 <= i < n && (#[trigger] results[i]).0 == ifindex && (results[i].1 is Err
                || results[i].1->Ok_0.v4) {
            let i = choose|i: int|
                0 <= i < n && (#[trigger] results[i]).0 == ifindex && (results[i].1 is Err
                    || results[i].1->Ok_0.v4);
            if i < n - 1 {
                assert(results[i].0 == ifindex);
            }
        }
        if exists|i: int|
            0 <= i < n && (#[trigger] results[i]).0 == ifindex && (results[i].1 is Err
                || results[i].1->Ok_0.v4 || results[i].1->Ok_0.v6) {
            let i = choose|i: int|
                0 <= i < n && (#[trigger] results[i]).0 == ifindex && (results[i].1 is Err
                    || results[i].1->Ok_0.v4 || results[i].1->Ok_0.v6);
            if i < n - 1 {
                assert(results[i].0 == ifindex);
            }
        }
    }
}

/// Which captures an overflow concerns: after lost notifications every interface is read again, and a capture is
/// concerned exactly as after a notification of its interface. Interfaces that share a kernel index stand for
/// one another.
pub proof fn law_an_overflow_concerns_every_moved_interface<S, H>(
    state: DispatchState<S, H>,
    batch: EventBatch,
    resolutions: Seq<Resolution>,
    bound: Seq<Option<u32>>,
    platform: Platform,
    plan: RefreshPlan,
    capture: CaptureKey,
)
    requires
        batch.overflow,
        resolutions.len() == state.interfaces.len(),
        plan.is_for(state.followed(batch, resolutions, bound, platform), state.rows),
        state.rows.len() <= u32::MAX + 1,
        state.interfaces.len() <= u32::MAX + 1,
        capture.0 < state.rows.len(),
        state.rows[capture.0 as int].interface.0 < state.interfaces.len(),
    ensures
        ({
            let p = state.rows[capture.0 as int].interface.0 as int;
            let index = state.interfaces[p].interface.ifindex;
            &&& plan.v4_captures@.contains(capture) <==> is_first_at(state.interfaces, p, index)
                && exists|i: int|
                0 <= i < state.interfaces.len() && (
                #[trigger] state.interfaces[i]).interface.ifindex == index && v4_differs(
                    state.interfaces[i],
                    resolutions[i],
                )
            &&& plan.touched_captures@.contains(capture) <==> is_first_at(state.interfaces, p, index)
                && exists|i: int|
                0 <= i < state.interfaces.len() && (
                #[trigger] state.interfaces[i]).interface.ifindex == index && address_differs(
                    state.interfaces[i],
                    resolutions[i],
                )
        }),
        plan.reconcile,
{
    let interfaces = refreshed_each(state.interfaces, resolutions);
    let results = refresh_results(state.interfaces, resolutions);
    let n = state.interfaces.len() as int;
    let start = Followed::start(state.interfaces, true);
    let p = state.rows[capture.0 as int].interface.0 as int;
    let index = state.interfaces[p].interface.ifindex;
    let followed = state.followed(batch, resolutions, bound, platform);
    assert forall|i: int| 0 <= i < n implies (#[trigger] interfaces[i]).interface.ifindex
        == state.interfaces[i].interface.ifindex by {
        law_refreshing_all_refreshes_each(state.interfaces, resolutions, i);
    }
    lemma_captures_for_members(interfaces, state.rows, followed.v4_moved, capture);
    lemma_captures_for_members(interfaces, state.rows, followed.touched, capture);
    lemma_all_results(start, results, n, index);
    lemma_first_at(state.interfaces, p, index);
    lemma_first_at(interfaces, p, index);
    lemma_same_position(state.interfaces, interfaces, index, 0);
    assert forall|i: int| 0 <= i < n implies {
        &&& (#[trigger] results[i]).0 == state.interfaces[i].interface.ifindex
        &&& (results[i].1 is Err || results[i].1->Ok_0.v4) == v4_differs(
            state.interfaces[i],
            resolutions[i],
        )
        &&& (results[i].1 is Err || results[i].1->Ok_0.v4 || results[i].1->Ok_0.v6)
            == address_differs(state.interfaces[i], resolutions[i])
    } by {
        law_refreshing_all_refreshes_each(state.interfaces, resolutions, i);
    }
    if exists|i: int|
        0 <= i < n && (#[trigger] state.interfaces[i]).interface.ifindex == index && v4_differs(
            state.interfaces[i],
            resolutions[i],
        ) {
        let i = choose|i: int|
            0 <= i < n && (#[trigger] state.interfaces[i]).interface.ifindex == index && v4_differs(
                state.interfaces[i],
                resolutions[i],
            );
        assert(results[i].0 == index);
    }
    if exists|i: int|
        0 <= i < n && (#[trigger] state.interfaces[i]).interface.ifindex == index && address_differs(
            state.interfaces[i],
            resolutions[i],
        ) {
        let i = choose|i: int|
            0 <= i < n && (#[trigger] state.interfaces[i]).interface.ifindex == index
                && address_differs(state.interfaces[i], resolutions[i]);
        assert(results[i].0 == index);
    }
    if exists|i: int|
        0 <= i < n && (#[trigger] results[i]).0 == index && (results[i].1 is Err
            || results[i].1->Ok_0.v4) {
        let i = choose|i: int|
            0 <= i < n && (#[trigger] results[i]).0 == index && (results[i].1 is Err
                || results[i].1->Ok_0.v4);
        assert(state.interfaces[i].interface.ifindex == index);
    }
    if exists|i: int|
        0 <= i < n && (#[trigger] results[i]).0 == index && (results[i].1 is Err
            || results[i].1->Ok_0.v4 || results[i].1->Ok_0.v6) {
        let i = choose|i: int|
            0 <= i < n && (#[trigger] results[i]).0 == index && (results[i].1 is Err
                || results[i].1->Ok_0.v4 || results[i].1->Ok_0.v6);
        assert(state.interfaces[i].interface.ifindex == index);
    }
}

/// What a notification of a watched interface calls a reconcile pass for: the interface itself changed, it could
/// not be read, or a capture present on it is hooked to anything but its index. A change of address that reads
/// well, with every capture in place, calls for none.
pub proof fn law_what_a_watched_interface_reconciles_for<S>(
    facts: FollowFacts<S>,
    interfaces: Seq<InterfaceEntry>,
    entry: (u32, bool),
    i: int,
    p: int,
)
    requires
        interfaces.len() <= u32::MAX + 1,
        is_first_at(interfaces, p, entry.0),
    ensures
        facts.wants_reconcile(interfaces, entry, i) <==> {
            ||| entry.1
            ||| facts.resolutions[i] is Failed
            ||| exists|j: int|
                0 <= j < facts.rows.len() && (#[trigger] facts.rows[j]).interface.0 == p
                    && facts.rows[j].capture is Some && facts.bound[j] != Some(entry.0)
        },
{
    lemma_first_at(interfaces, p, entry.0);
    let interface = InterfaceKey(p as u32);
    if has_dead_capture(facts.rows, facts.bound, interface, entry.0) {
        let j = choose|j: int|
            0 <= j < facts.rows.len() && #[trigger] facts.rows[j].interface == interface
                && facts.rows[j].capture is Some && facts.bound[j] != Some(entry.0);
        assert(facts.rows[j].interface.0 == p);
    }
    if exists|j: int|
        0 <= j < facts.rows.len() && (#[trigger] facts.rows[j]).interface.0 == p
            && facts.rows[j].capture is Some && facts.bound[j] != Some(entry.0) {
        let j = choose|j: int|
            0 <= j < facts.rows.len() && (#[trigger] facts.rows[j]).interface.0 == p
                && facts.rows[j].capture is Some && facts.bound[j] != Some(entry.0);
        assert(facts.rows[j].interface == interface);
    }
}

/// What a notification of an interface that is not watched calls a reconcile pass for, by platform. Where
/// creations are announced and indexes only grow: an interface that changed itself, with an index above every
/// one seen before. Where they are announced and indexes are used again: any interface that changed itself.
/// Where they are not announced: anything.
pub proof fn law_what_an_unwatched_interface_reconciles_for<S>(
    facts: FollowFacts<S>,
    interfaces: Seq<InterfaceEntry>,
    entry: (u32, bool),
    i: int,
)
    requires
        forall|j: int| 0 <= j < interfaces.len() ==> (#[trigger] interfaces[j]).interface.ifindex
            != entry.0,
    ensures
        facts.platform.lifecycle_events && facts.platform.indexes_monotonic ==> (
        facts.wants_reconcile(interfaces, entry, i) <==> entry.1 && entry.0 > facts.prior_ceiling),
        facts.platform.lifecycle_events && !facts.platform.indexes_monotonic ==> (
        facts.wants_reconcile(interfaces, entry, i) <==> entry.1),
        !facts.platform.lifecycle_events ==> facts.wants_reconcile(interfaces, entry, i),
{
    law_what_is_looked_up_is_the_first(interfaces, Seq::empty(), entry.0, 0);
}

/// A plan calls for a reconcile pass exactly if notifications were lost or one of them calls for it, judged by
/// the table as it was and by the largest index seen before the batch.
pub proof fn law_a_plan_reconciles_for_cause<S, H>(
    state: DispatchState<S, H>,
    batch: EventBatch,
    resolutions: Seq<Resolution>,
    bound: Seq<Option<u32>>,
    platform: Platform,
    plan: RefreshPlan,
)
    requires
        plan.is_for(state.followed(batch, resolutions, bound, platform), state.rows),
    ensures
        batch.overflow ==> plan.reconcile,
        !batch.overflow ==> (plan.reconcile <==> exists|i: int|
            0 <= i < batch.changed@.len() && #[trigger] (FollowFacts {
                rows: state.rows,
                resolutions,
                bound,
                prior_ceiling: state.ceiling,
                platform,
            }).wants_reconcile(state.interfaces, batch.changed@[i], i)),
{
    let facts = state.follow_facts(resolutions, bound, platform);
    if batch.overflow {
        lemma_all_keeps(
            Followed::start(state.interfaces, true),
            refresh_results(state.interfaces, resolutions),
            state.interfaces.len() as int,
        );
    } else {
        law_any_telling_notification_reconciles(
            facts,
            state.interfaces,
            batch.changed@,
            batch.changed@.len() as int,
        );
    }
}

proof fn lemma_all_keeps(
    start: Followed,
    results: Seq<(u32, Result<AddressChange, ResolveFailed>)>,
    n: int,
)
    ensures
        start.all(results, n).reconcile == start.reconcile,
    decreases n,
{
    if n > 0 {
        lemma_all_keeps(start, results, n - 1);
    }
}

/// Following notifications reads each interface named again, as the one known by the index, and leaves every
/// other. A read that failed leaves the last-known values. No interface changes its name, its index or its
/// groups by it.
pub proof fn law_following_refreshes_what_was_named<S>(
    facts: FollowFacts<S>,
    interfaces: Seq<InterfaceEntry>,
    changed: Seq<(u32, bool)>,
    n: int,
    p: int,
)
    requires
        0 <= n <= changed.len(),
        forall|i: int, j: int|
            0 <= i < j < changed.len() ==> (#[trigger] changed[i]).0 != (#[trigger] changed[j]).0,
        0 <= p < interfaces.len(),
    ensures
        ({
            let (was, is) = (interfaces[p], facts.follow(interfaces, changed, n).interfaces[p]);
            &&& facts.follow(interfaces, changed, n).interfaces.len() == interfaces.len()
            &&& is.interface.name == was.interface.name
            &&& is.interface.ifindex == was.interface.ifindex
            &&& is.joiner == was.joiner
        }),
        forall|i: int|
            0 <= i < n && (#[trigger] changed[i]).0 == interfaces[p].interface.ifindex && is_first_at(
                interfaces,
                p,
                interfaces[p].interface.ifindex,
            ) ==> {
                let (was, is) = (interfaces[p], facts.follow(interfaces, changed, n).interfaces[p]);
                match facts.resolutions[i] {
                    Resolution::Found(found) => is.interface.addrs == found.addrs && is.interface.mtu
                        == found.mtu,
                    Resolution::Failed => is == was,
                }
            },
        !is_first_at(interfaces, p, interfaces[p].interface.ifindex) || (forall|i: int|
            0 <= i < n ==> (#[trigger] changed[i]).0 != interfaces[p].interface.ifindex)
            ==> facts.follow(interfaces, changed, n).interfaces[p] == interfaces[p],
    decreases n,
{
    if n > 0 {
        law_following_refreshes_what_was_named(facts, interfaces, changed, n - 1, p);
        lemma_follow_keeps_identities(facts, interfaces, changed, n - 1);
        let before = facts.follow(interfaces, changed, n - 1).interfaces;
        let index = changed[n - 1].0;
        lemma_same_position(interfaces, before, index, 0);
        lemma_position_at(interfaces, index, 0);
        lemma_first_at(interfaces, p, index);
        lemma_first_at(interfaces, p, interfaces[p].interface.ifindex);
        if index == interfaces[p].interface.ifindex {
            assert forall|i: int| 0 <= i < n - 1 implies (#[trigger] changed[i]).0 != index by {}
        }
    }
}

/// A named interface's recorded groups are re-attempted exactly if it exists and was read well.
pub proof fn law_groups_are_reattempted_where_an_interface_was_read<S>(
    facts: FollowFacts<S>,
    interfaces: Seq<InterfaceEntry>,
    changed: Seq<(u32, bool)>,
    n: int,
    key: InterfaceKey,
)
    requires
        0 <= n <= changed.len(),
        interfaces.len() <= u32::MAX + 1,
        key.0 < interfaces.len(),
    ensures
        facts.follow(interfaces, changed, n).rejoins.contains(key) <==> {
            let index = interfaces[key.0 as int].interface.ifindex;
            &&& index != 0
            &&& is_first_at(interfaces, key.0 as int, index)
            &&& exists|i: int|
                0 <= i < n && (#[trigger] changed[i]).0 == index && facts.resolutions[i] is Found
        },
    decreases n,
{
    let p = key.0 as int;
    let index = interfaces[p].interface.ifindex;
    if n > 0 {
        law_groups_are_reattempted_where_an_interface_was_read(
            facts,
            interfaces,
            changed,
            n - 1,
            key,
        );
        lemma_follow_keeps_identities(facts, interfaces, changed, n - 1);
        let before = facts.follow(interfaces, changed, n - 1);
        let all = facts.follow(interfaces, changed, n).rejoins;
        let named = changed[n - 1].0;
        lemma_same_position(interfaces, before.interfaces, named, 0);
        lemma_position_at(interfaces, named, 0);
        lemma_first_at(interfaces, p, named);
        lemma_first_at(interfaces, p, index);
        if let Some(at) = position_at(interfaces, named, 0) {
            let newest = InterfaceKey(at as u32);
            assert(before.rejoins.push(newest).contains(key) <==> before.rejoins.contains(key) || key
                == newest) by {
                let pushed = before.rejoins.push(newest);
                assert(pushed[before.rejoins.len() as int] == newest);
                if before.rejoins.contains(key) {
                    let i = before.rejoins.index_of(key);
                    assert(pushed[i] == key);
                }
                if pushed.contains(key) {
                    let i = pushed.index_of(key);
                    if i < before.rejoins.len() {
                        assert(before.rejoins[i] == key);
                    }
                }
            }
        }
        lemma_some_named(changed, index, n, |i: int| facts.resolutions[i] is Found);
    }
}

/// Noting a notification of an interface names it once, remembers that the interface itself changed if any
/// notification of it said so, and leaves every other entry alone.
pub proof fn law_notifications_of_one_interface_coalesce(
    changed: Seq<(u32, bool)>,
    ifindex: u32,
    is_link: bool,
    i: int,
)
    requires
        forall|a: int, b: int|
            0 <= a < b < changed.len() ==> (#[trigger] changed[a]).0 != (#[trigger] changed[b]).0,
        0 <= i < changed.len(),
    ensures
        ({
            let after = EventBatch::named(changed, ifindex, is_link);
            &&& changed[i].0 != ifindex ==> after[i] == changed[i]
            &&& changed[i].0 == ifindex ==> {
                &&& after.len() == changed.len()
                &&& after[i] == (ifindex, changed[i].1 || is_link)
            }
            &&& (forall|a: int| 0 <= a < changed.len() ==> (#[trigger] changed[a]).0 != ifindex) ==> {
                &&& after.len() == changed.len() + 1
                &&& after[changed.len() as int] == (ifindex, is_link)
            }
        }),
{
    lemma_position_changed(changed, ifindex, 0);
    if let Some(at) = position_changed(changed, ifindex, 0) {
        if changed[i].0 == ifindex && at != i {
            if at < i {
                assert(changed[at].0 != changed[i].0);
            } else {
                assert(changed[i].0 != changed[at].0);
            }
        }
    }
}

proof fn lemma_position_changed(changed: Seq<(u32, bool)>, ifindex: u32, from: int)
    requires
        0 <= from,
    ensures
        match position_changed(changed, ifindex, from) {
            Some(i) => from <= i < changed.len() && changed[i].0 == ifindex,
            None => forall|i: int| from <= i < changed.len() ==> (#[trigger] changed[i]).0 != ifindex,
        },
    decreases changed.len() - from,
{
    if from < changed.len() {
        lemma_position_changed(changed, ifindex, from + 1);
    }
}

/// The captures for several indexes are those for each, one after the other.
pub proof fn law_captures_for_indexes_come_in_order<S>(
    interfaces: Seq<InterfaceEntry>,
    rows: Seq<CaptureEntry<S>>,
    ifindexes: Seq<u32>,
    ifindex: u32,
)
    ensures
        captures_for_spec(interfaces, rows, Seq::<u32>::empty(), 0).len() == 0,
        captures_for_spec(
            interfaces,
            rows,
            ifindexes.push(ifindex),
            (ifindexes.len() + 1) as int,
        ) == captures_for_spec(interfaces, rows, ifindexes, ifindexes.len() as int) + captures_at(
            interfaces,
            rows,
            ifindex,
        ),
{
    lemma_same_captures_for(
        interfaces,
        rows,
        ifindexes,
        ifindexes.push(ifindex),
        ifindexes.len() as int,
    );
}

proof fn lemma_same_captures_for<S>(
    interfaces: Seq<InterfaceEntry>,
    rows: Seq<CaptureEntry<S>>,
    a: Seq<u32>,
    b: Seq<u32>,
    n: int,
)
    requires
        forall|i: int| 0 <= i < n ==> a[i] == b[i],
    ensures
        captures_for_spec(interfaces, rows, a, n) == captures_for_spec(interfaces, rows, b, n),
    decreases n,
{
    if n > 0 {
        lemma_same_captures_for(interfaces, rows, a, b, n - 1);
    }
}

/// After lost notifications every interface is read again, and the groups of every one that exists are
/// re-attempted.
pub proof fn law_an_overflow_reads_every_interface_again<S, H>(
    state: DispatchState<S, H>,
    batch: EventBatch,
    resolutions: Seq<Resolution>,
    bound: Seq<Option<u32>>,
    platform: Platform,
    plan: RefreshPlan,
    key: InterfaceKey,
)
    requires
        batch.overflow,
        resolutions.len() == state.interfaces.len(),
        state.interfaces.len() <= u32::MAX + 1,
        plan.is_for(state.followed(batch, resolutions, bound, platform), state.rows),
        key.0 < state.interfaces.len(),
    ensures
        plan.rejoins@.contains(key) <==> state.interfaces[key.0 as int].interface.ifindex != 0,
        ({
            let was = state.interfaces[key.0 as int];
            let is = state.followed(batch, resolutions, bound, platform).interfaces[key.0 as int];
            &&& is.interface.name == was.interface.name
            &&& is.interface.ifindex == was.interface.ifindex
            &&& is.joiner == was.joiner
            &&& match resolutions[key.0 as int] {
                Resolution::Found(found) => is.interface.addrs == found.addrs && is.interface.mtu
                    == found.mtu,
                Resolution::Failed => is == was,
            }
        }),
{
    let interfaces = refreshed_each(state.interfaces, resolutions);
    law_refreshing_all_refreshes_each(state.interfaces, resolutions, key.0 as int);
    law_present_interfaces_are_those_that_exist(interfaces, interfaces.len() as int, key);
}

/// The re-attempts of a plan are those that following the batch came to.
pub proof fn law_a_plan_reattempts_what_was_read<S, H>(
    state: DispatchState<S, H>,
    batch: EventBatch,
    resolutions: Seq<Resolution>,
    bound: Seq<Option<u32>>,
    platform: Platform,
    plan: RefreshPlan,
    key: InterfaceKey,
)
    requires
        !batch.overflow,
        state.interfaces.len() <= u32::MAX + 1,
        plan.is_for(state.followed(batch, resolutions, bound, platform), state.rows),
        key.0 < state.interfaces.len(),
    ensures
        plan.rejoins@.contains(key) <==> {
            let index = state.interfaces[key.0 as int].interface.ifindex;
            &&& index != 0
            &&& is_first_at(state.interfaces, key.0 as int, index)
            &&& exists|i: int|
                0 <= i < batch.changed@.len() && (#[trigger] batch.changed@[i]).0 == index
                    && resolutions[i] is Found
        },
{
    law_groups_are_reattempted_where_an_interface_was_read(
        state.follow_facts(resolutions, bound, platform),
        state.interfaces,
        batch.changed@,
        batch.changed@.len() as int,
        key,
    );
}

/// The table after a batch has each interface it names as it was read, and every other as it was.
pub proof fn law_a_batch_refreshes_what_it_names<S, H>(
    state: DispatchState<S, H>,
    batch: EventBatch,
    resolutions: Seq<Resolution>,
    bound: Seq<Option<u32>>,
    platform: Platform,
    p: int,
    i: int,
)
    requires
        !batch.overflow,
        batch.coalesced(),
        0 <= p < state.interfaces.len(),
        0 <= i < batch.changed@.len(),
    ensures
        ({
            let (was, is) = (
                state.interfaces[p],
                state.followed(batch, resolutions, bound, platform).interfaces[p],
            );
            &&& is.interface.name == was.interface.name
            &&& is.interface.ifindex == was.interface.ifindex
            &&& is.joiner == was.joiner
            &&& is_first_at(state.interfaces, p, was.interface.ifindex) && batch.changed@[i].0
                == was.interface.ifindex ==> match resolutions[i] {
                Resolution::Found(found) => is.interface.addrs == found.addrs && is.interface.mtu
                    == found.mtu,
                Resolution::Failed => is == was,
            }
        }),
        (forall|k: int|
            0 <= k < batch.changed@.len() ==> (#[trigger] batch.changed@[k]).0
                != state.interfaces[p].interface.ifindex) ==> state.followed(
            batch,
            resolutions,
            bound,
            platform,
        ).interfaces[p] == state.interfaces[p],
{
    law_following_refreshes_what_was_named(
        state.follow_facts(resolutions, bound, platform),
        state.interfaces,
        batch.changed@,
        batch.changed@.len() as int,
        p,
    );
}

/// A batch is coalesced exactly if it names no interface twice.
pub proof fn law_a_coalesced_batch_names_each_once(batch: EventBatch, i: int, j: int)
    requires
        0 <= i < j < batch.changed@.len(),
        batch.coalesced(),
    ensures
        batch.changed@[i].0 != batch.changed@[j].0,
{
}

}
