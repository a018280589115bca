//! What becomes of each packet, and how often.

use vstd::prelude::*;

verus! {

/// The kind of message a packet carries, whatever a handler does with it.
#[derive(Clone, Copy, PartialEq, Eq, Structural, Debug)]
pub enum MessageType {
    MdnsQuery,
    SsdpSearch,
    /// A message of any other protocol, by the number its reflector gives it.
    Other(u16),
}

/// What one handler, or all handlers together, did with a packet.
#[derive(Clone, Copy, PartialEq, Eq, Structural, Debug)]
pub enum Outcome {
    /// Not a message this handler relays.
    Filtered,
    /// A message for the other direction.
    Skipped(MessageType),
    /// A message held back.
    Stalled(MessageType),
    /// A message that should have gone out and did not.
    Dropped(MessageType),
    /// A message re-emitted.
    Reflected(MessageType),
}

/// What [`Outcome::combine`] noticed that a valid configuration rules out.
#[derive(Clone, Copy, PartialEq, Eq, Structural, Debug)]
pub struct Anomalies {
    /// Two handlers read different message types from one packet.
    pub type_mismatch: bool,
}

impl Outcome {
    /// How much was done with the packet: re-emitting it is most, filtering it out least.
    pub open spec fn rank(self) -> nat {
        match self {
            Outcome::Filtered => 0,
            Outcome::Skipped(_) => 1,
            Outcome::Stalled(_) => 2,
            Outcome::Dropped(_) => 3,
            Outcome::Reflected(_) => 4,
        }
    }

    /// The message type, where the handler recognized one.
    pub open spec fn type_spec(self) -> Option<MessageType> {
        match self {
            Outcome::Filtered => None,
            Outcome::Skipped(ty) => Some(ty),
            Outcome::Stalled(ty) => Some(ty),
            Outcome::Dropped(ty) => Some(ty),
            Outcome::Reflected(ty) => Some(ty),
        }
    }

    /// The two outcomes as one: the higher disposition wins, the earlier on a tie.
    pub open spec fn combined(self, other: Outcome) -> Outcome {
        if other.rank() > self.rank() {
            other
        } else {
            self
        }
    }

    /// Whether the two outcomes name different message types.
    pub open spec fn disagrees(self, other: Outcome) -> bool {
        self.type_spec() is Some && other.type_spec() is Some && self.type_spec()
            != other.type_spec()
    }

    /// The message type, where the handler recognized one.
    pub fn message_type(&self) -> (r: Option<MessageType>)
        ensures
            r == self.type_spec(),
    {
        match *self {
            Outcome::Filtered => None,
            Outcome::Skipped(ty) => Some(ty),
            Outcome::Stalled(ty) => Some(ty),
            Outcome::Dropped(ty) => Some(ty),
            Outcome::Reflected(ty) => Some(ty),
        }
    }

    fn disposition(&self) -> (r: u8)
        ensures
            r == self.rank(),
    {
        match self {
            Outcome::Filtered => 0,
            Outcome::Skipped(_) => 1,
            Outcome::Stalled(_) => 2,
            Outcome::Dropped(_) => 3,
            Outcome::Reflected(_) => 4,
        }
    }

    /// Fold a later handler's outcome into this one.
    pub fn combine(self, other: Outcome) -> (r: (Outcome, Anomalies))
        ensures
            r.0 == self.combined(other),
            r.1.type_mismatch == self.disagrees(other),
    {
        let merged = if other.disposition() > self.disposition() {
            other
        } else {
            self
        };
        let type_mismatch = match (self.message_type(), other.message_type()) {
            (Some(a), Some(b)) => a != b,
            _ => false,
        };
        (merged, Anomalies { type_mismatch })
    }
}

/// The outcomes of several handlers as one, or nothing where none was called.
pub open spec fn fold_outcomes(outcomes: Seq<Outcome>) -> Option<Outcome>
    decreases outcomes.len(),
{
    if outcomes.len() == 0 {
        None
    } else {
        match fold_outcomes(outcomes.drop_last()) {
            None => Some(outcomes.last()),
            Some(before) => Some(before.combined(outcomes.last())),
        }
    }
}

/// A count after one more event. It stays at the largest number it can hold.
pub open spec fn one_more(n: u64) -> u64 {
    more(n, 1)
}

/// A count after `k` more events. It stays at the largest number it can hold.
pub open spec fn more(n: u64, k: u64) -> u64 {
    if n + k <= u64::MAX {
        (n + k) as u64
    } else {
        u64::MAX
    }
}

fn add_count(n: u64, k: u64) -> (r: u64)
    ensures
        r == more(n, k),
{
    if n <= u64::MAX - k {
        n + k
    } else {
        u64::MAX
    }
}

/// How often each disposition befell one message type.
#[derive(Clone, Copy, PartialEq, Eq, Structural, Debug)]
pub struct TypedCounts {
    pub reflected: u64,
    pub skipped: u64,
    pub dropped: u64,
    pub stalled: u64,
}

impl TypedCounts {
    /// No event yet.
    pub open spec fn zero() -> Self {
        TypedCounts { reflected: 0, skipped: 0, dropped: 0, stalled: 0 }
    }

    /// The packets counted, whatever became of them.
    pub open spec fn total(self) -> int {
        self.reflected + self.skipped + self.dropped + self.stalled
    }

    /// Whether every count can still grow.
    pub open spec fn below_limit(self) -> bool {
        &&& self.reflected < u64::MAX
        &&& self.skipped < u64::MAX
        &&& self.dropped < u64::MAX
        &&& self.stalled < u64::MAX
    }

    /// The counts after one more packet with this outcome.
    pub open spec fn counted(self, outcome: Outcome) -> Self {
        match outcome {
            Outcome::Filtered => self,
            Outcome::Skipped(_) => TypedCounts { skipped: one_more(self.skipped), ..self },
            Outcome::Stalled(_) => TypedCounts { stalled: one_more(self.stalled), ..self },
            Outcome::Dropped(_) => TypedCounts { dropped: one_more(self.dropped), ..self },
            Outcome::Reflected(_) => TypedCounts { reflected: one_more(self.reflected), ..self },
        }
    }

    fn count(self, outcome: Outcome) -> (r: Self)
        ensures
            r == self.counted(outcome),
    {
        match outcome {
            Outcome::Filtered => self,
            Outcome::Skipped(_) => TypedCounts { skipped: add_count(self.skipped, 1), ..self },
            Outcome::Stalled(_) => TypedCounts { stalled: add_count(self.stalled, 1), ..self },
            Outcome::Dropped(_) => TypedCounts { dropped: add_count(self.dropped, 1), ..self },
            Outcome::Reflected(_) => TypedCounts { reflected: add_count(self.reflected, 1), ..self },
        }
    }
}

/// The first row for `ty` at or after `from`, or zeros where there is none.
spec fn counts_from(rows: Seq<(MessageType, TypedCounts)>, ty: MessageType, from: int) -> TypedCounts
    decreases rows.len() - from,
{
    if from < 0 || from >= rows.len() {
        TypedCounts::zero()
    } else if rows[from].0 == ty {
        rows[from].1
    } else {
        counts_from(rows, ty, from + 1)
    }
}

proof fn lemma_update_first(
    rows: Seq<(MessageType, TypedCounts)>,
    at: int,
    counts: TypedCounts,
    ty: MessageType,
    from: int,
)
    requires
        0 <= from <= at < rows.len(),
        forall|j: int| from <= j < at ==> rows[j].0 != rows[at].0,
    ensures
        counts_from(rows.update(at, (rows[at].0, counts)), ty, from) == if ty == rows[at].0 {
            counts
        } else {
            counts_from(rows, ty, from)
        },
    decreases at - from,
{
    let changed = rows.update(at, (rows[at].0, counts));
    if from == at {
        lemma_same_tail(rows, changed, ty, at + 1);
    } else {
        lemma_update_first(rows, at, counts, ty, from + 1);
    }
}

proof fn lemma_same_tail(
    rows: Seq<(MessageType, TypedCounts)>,
    other: Seq<(MessageType, TypedCounts)>,
    ty: MessageType,
    from: int,
)
    requires
        0 <= from,
        rows.len() == other.len(),
        forall|j: int| from <= j < rows.len() ==> rows[j] == other[j],
    ensures
        counts_from(rows, ty, from) == counts_from(other, ty, from),
    decreases rows.len() - from,
{
    if from < rows.len() {
        lemma_same_tail(rows, other, ty, from + 1);
    }
}

proof fn lemma_push_new(
    rows: Seq<(MessageType, TypedCounts)>,
    row: (MessageType, TypedCounts),
    ty: MessageType,
    from: int,
)
    requires
        0 <= from <= rows.len(),
        forall|j: int| from <= j < rows.len() ==> rows[j].0 != row.0,
    ensures
        counts_from(rows.push(row), ty, from) == if ty == row.0 {
            row.1
        } else {
            counts_from(rows, ty, from)
        },
    decreases rows.len() - from,
{
    if from < rows.len() {
        lemma_push_new(rows, row, ty, from + 1);
    } else {
        assert(counts_from(rows.push(row), ty, from + 1) == TypedCounts::zero());
    }
}

/// The counts of one capture, for as long as it is watched.
#[derive(Debug)]
pub struct CaptureCounters {
    typed: Vec<(MessageType, TypedCounts)>,
    filtered: u64,
    recoveries: u64,
    oversized: u64,
    echoed: u64,
}

impl CaptureCounters {
    /// The counts recorded for `ty`.
    pub closed spec fn counts(self, ty: MessageType) -> TypedCounts {
        counts_from(self.typed@, ty, 0)
    }

    /// The packets every matching handler filtered out.
    pub closed spec fn filtered_spec(self) -> u64 {
        self.filtered
    }

    /// The completed recoveries of the capture's interface.
    pub closed spec fn recoveries_spec(self) -> u64 {
        self.recoveries
    }

    /// The frames dropped for exceeding the receive buffer.
    pub closed spec fn oversized_spec(self) -> u64 {
        self.oversized
    }

    /// The frames of our own that the link handed back.
    pub closed spec fn echoed_spec(self) -> u64 {
        self.echoed
    }

    /// Whether the counts by message type agree.
    pub open spec fn same_typed(self, other: Self) -> bool {
        forall|ty: MessageType| #[trigger] self.counts(ty) == other.counts(ty)
    }

    /// Whether every count agrees.
    pub open spec fn same(self, other: Self) -> bool {
        &&& self.same_typed(other)
        &&& self.filtered_spec() == other.filtered_spec()
        &&& self.recoveries_spec() == other.recoveries_spec()
        &&& self.oversized_spec() == other.oversized_spec()
        &&& self.echoed_spec() == other.echoed_spec()
    }

    /// Whether nothing was counted yet.
    pub open spec fn zero(self) -> bool {
        &&& forall|ty: MessageType| #[trigger] self.counts(ty) == TypedCounts::zero()
        &&& self.filtered_spec() == 0
        &&& self.recoveries_spec() == 0
        &&& self.oversized_spec() == 0
        &&& self.echoed_spec() == 0
    }

    /// Whether `after` counts exactly one more packet than this, with this outcome.
    pub open spec fn after_outcome(self, after: Self, outcome: Outcome) -> bool {
        &&& forall|ty: MessageType| #[trigger]
            after.counts(ty) == if outcome.type_spec() == Some(ty) {
                self.counts(ty).counted(outcome)
            } else {
                self.counts(ty)
            }
        &&& after.filtered_spec() == if outcome is Filtered {
            one_more(self.filtered_spec())
        } else {
            self.filtered_spec()
        }
        &&& after.recoveries_spec() == self.recoveries_spec()
        &&& after.oversized_spec() == self.oversized_spec()
        &&& after.echoed_spec() == self.echoed_spec()
    }

    /// Whether `after` counts exactly one more recovery than this.
    pub open spec fn after_recovery(self, after: Self) -> bool {
        &&& after.same_typed(self)
        &&& after.filtered_spec() == self.filtered_spec()
        &&& after.recoveries_spec() == one_more(self.recoveries_spec())
        &&& after.oversized_spec() == self.oversized_spec()
        &&& after.echoed_spec() == self.echoed_spec()
    }

    /// Whether `after` counts exactly `n` more recoveries than this, as far as the count can hold.
    pub open spec fn after_recoveries(self, after: Self, n: nat) -> bool {
        &&& after.same_typed(self)
        &&& after.filtered_spec() == self.filtered_spec()
        &&& after.recoveries_spec() == if self.recoveries_spec() + n <= u64::MAX {
            self.recoveries_spec() + n
        } else {
            u64::MAX as int
        }
        &&& after.oversized_spec() == self.oversized_spec()
        &&& after.echoed_spec() == self.echoed_spec()
    }

    /// Whether `after` counts exactly `n` more oversized frames than this.
    pub open spec fn after_oversized(self, after: Self, n: u64) -> bool {
        &&& after.same_typed(self)
        &&& after.filtered_spec() == self.filtered_spec()
        &&& after.recoveries_spec() == self.recoveries_spec()
        &&& after.oversized_spec() == more(self.oversized_spec(), n)
        &&& after.echoed_spec() == self.echoed_spec()
    }

    /// Whether `after` counts exactly one more echo than this.
    pub open spec fn after_echo(self, after: Self) -> bool {
        &&& after.same_typed(self)
        &&& after.filtered_spec() == self.filtered_spec()
        &&& after.recoveries_spec() == self.recoveries_spec()
        &&& after.oversized_spec() == self.oversized_spec()
        &&& after.echoed_spec() == one_more(self.echoed_spec())
    }

    /// Nothing counted.
    pub fn new() -> (r: Self)
        ensures
            r.zero(),
    {
        CaptureCounters { typed: Vec::new(), filtered: 0, recoveries: 0, oversized: 0, echoed: 0 }
    }

    /// The position of the row for `ty`, if there is one.
    fn row_of(&self, ty: MessageType) -> (r: Option<usize>)
        ensures
            match r {
                Some(i) => {
                    &&& i < self.typed@.len()
                    &&& self.typed@[i as int].0 == ty
                    &&& forall|j: int| 0 <= j < i ==> self.typed@[j].0 != ty
                    &&& self.counts(ty) == self.typed@[i as int].1
                },
                None => {
                    &&& forall|j: int| 0 <= j < self.typed@.len() ==> self.typed@[j].0 != ty
                    &&& self.counts(ty) == TypedCounts::zero()
                },
            },
    {
        let mut i: usize = 0;
        while i < self.typed.len()
            invariant
                i <= self.typed@.len(),
                forall|j: int| 0 <= j < i ==> self.typed@[j].0 != ty,
                self.counts(ty) == counts_from(self.typed@, ty, i as int),
            decreases self.typed@.len() - i,
        {
            if self.typed[i].0 == ty {
                return Some(i);
            }
            i += 1;
        }
        None
    }

    /// Count one packet with this outcome.
    pub fn record(&mut self, outcome: Outcome)
        ensures
            old(self).after_outcome(*final(self), outcome),
    {
        match outcome.message_type() {
            None => {
                self.filtered = add_count(self.filtered, 1);
            },
            Some(ty) => {
                let ghost before = self.typed@;
                match self.row_of(ty) {
                    Some(i) => {
                        let counts = self.typed[i].1.count(outcome);
                        self.typed.set(i, (ty, counts));
                        proof {
                            assert forall|t: MessageType| #[trigger] self.counts(t) == if t == ty {
                                counts
                            } else {
                                old(self).counts(t)
                            } by {
                                lemma_update_first(before, i as int, counts, t, 0);
                            }
                        }
                    },
                    None => {
                        let zero = TypedCounts { reflected: 0, skipped: 0, dropped: 0, stalled: 0 };
                        let counts = zero.count(outcome);
                        self.typed.push((ty, counts));
                        proof {
                            assert forall|t: MessageType| #[trigger] self.counts(t) == if t == ty {
                                counts
                            } else {
                                old(self).counts(t)
                            } by {
                                lemma_push_new(before, (ty, counts), t, 0);
                            }
                        }
                    },
                }
            },
        }
    }

    /// Count a completed recovery of the capture's interface.
    pub fn record_recovery(&mut self)
        ensures
            old(self).after_recovery(*final(self)),
    {
        self.recoveries = add_count(self.recoveries, 1);
    }

    /// Count `n` frames dropped for exceeding the receive buffer.
    pub fn record_oversized(&mut self, n: u64)
        ensures
            old(self).after_oversized(*final(self), n),
    {
        self.oversized = add_count(self.oversized, n);
    }

    /// Count a frame of our own that the link handed back.
    pub fn record_echo(&mut self)
        ensures
            old(self).after_echo(*final(self)),
    {
        self.echoed = add_count(self.echoed, 1);
    }

    /// The counts recorded for `ty`.
    pub fn typed(&self, ty: MessageType) -> (r: TypedCounts)
        ensures
            r == self.counts(ty),
    {
        match self.row_of(ty) {
            Some(i) => self.typed[i].1,
            None => TypedCounts { reflected: 0, skipped: 0, dropped: 0, stalled: 0 },
        }
    }

    /// The packets every matching handler filtered out.
    pub fn filtered(&self) -> (r: u64)
        ensures
            r == self.filtered_spec(),
    {
        self.filtered
    }

    /// The completed recoveries of the capture's interface.
    pub fn recoveries(&self) -> (r: u64)
        ensures
            r == self.recoveries_spec(),
    {
        self.recoveries
    }

    /// The frames dropped for exceeding the receive buffer.
    pub fn oversized(&self) -> (r: u64)
        ensures
            r == self.oversized_spec(),
    {
        self.oversized
    }

    /// The frames of our own that the link handed back.
    pub fn echoed(&self) -> (r: u64)
        ensures
            r == self.echoed_spec(),
    {
        self.echoed
    }
}

/// Folding any number of handlers' outcomes gives one of them, and none of them ranks higher: a
/// packet that any handler re-emitted counts as re-emitted.
pub proof fn law_highest_disposition_wins(outcomes: Seq<Outcome>)
    ensures
        outcomes.len() == 0 <==> fold_outcomes(outcomes) is None,
        fold_outcomes(outcomes) matches Some(outcome) ==> {
            &&& outcomes.contains(outcome)
            &&& forall|i: int| 0 <= i < outcomes.len() ==> #[trigger] outcomes[i].rank()
                <= outcome.rank()
        },
    decreases outcomes.len(),
{
    if outcomes.len() > 0 {
        let before = outcomes.drop_last();
        law_highest_disposition_wins(before);
        assert(outcomes.last() == outcomes[outcomes.len() - 1]);
        match fold_outcomes(before) {
            None => {},
            Some(outcome) => {
                let i = choose|i: int| 0 <= i < before.len() && before[i] == outcome;
                assert(outcomes[i] == outcome);
                assert forall|j: int| 0 <= j < outcomes.len() implies #[trigger] outcomes[j].rank()
                    <= outcome.combined(outcomes.last()).rank() by {
                    if j < before.len() {
                        assert(before[j] == outcomes[j]);
                    }
                }
            },
        }
    }
}

/// The order in which handlers are called decides nothing but which of two equally ranked outcomes
/// stands.
pub proof fn law_combining_commutes_up_to_rank(a: Outcome, b: Outcome)
    ensures
        a.combined(b).rank() == b.combined(a).rank(),
        a.disagrees(b) == b.disagrees(a),
        a.combined(a) == a,
{
}

/// One packet is one count: recording an outcome raises exactly one number by one, the one of its
/// disposition under its message type, or that of the filtered packets.
pub proof fn law_one_packet_is_one_count(
    before: CaptureCounters,
    after: CaptureCounters,
    outcome: Outcome,
    ty: MessageType,
)
    requires
        before.after_outcome(after, outcome),
        before.filtered_spec() < u64::MAX,
        before.counts(ty).below_limit(),
    ensures
        outcome.type_spec() == Some(ty) ==> after.counts(ty).total() == before.counts(ty).total() + 1
            && after.filtered_spec() == before.filtered_spec(),
        outcome.type_spec() != Some(ty) ==> after.counts(ty) == before.counts(ty),
        outcome is Filtered ==> after.filtered_spec() == before.filtered_spec() + 1,
{
}

/// A packet that either of two handlers re-emitted counts as re-emitted; failing that one that either
/// dropped as dropped, then one held back, then one skipped, and only one that both filtered out as
/// filtered out. Of two alike the earlier stands, and what stands is one of the two.
pub proof fn law_the_order_of_dispositions(a: Outcome, b: Outcome)
    ensures
        a.combined(b) == a || a.combined(b) == b,
        a is Reflected || b is Reflected ==> a.combined(b) is Reflected,
        !(a is Reflected || b is Reflected) && (a is Dropped || b is Dropped) ==> a.combined(
            b,
        ) is Dropped,
        !(a is Reflected || b is Reflected || a is Dropped || b is Dropped) && (a is Stalled
            || b is Stalled) ==> a.combined(b) is Stalled,
        (a is Skipped && (b is Skipped || b is Filtered)) || (a is Filtered && b is Skipped)
            ==> a.combined(b) is Skipped,
        a.combined(b) is Filtered <==> a is Filtered && b is Filtered,
        a is Reflected || (a is Dropped && b is Dropped) || (a is Stalled && b is Stalled) || (
        a is Skipped && b is Skipped) ==> a.combined(b) == a,
{
}

/// Every outcome but a filtered one names the message type it carries.
pub proof fn law_an_outcome_names_its_type(ty: MessageType)
    ensures
        Outcome::Reflected(ty).type_spec() == Some(ty),
        Outcome::Dropped(ty).type_spec() == Some(ty),
        Outcome::Stalled(ty).type_spec() == Some(ty),
        Outcome::Skipped(ty).type_spec() == Some(ty),
        Outcome::Filtered.type_spec() is None,
{
}

/// Two handlers disagree exactly if both recognized a message and not the same: one that filtered the
/// packet out disagrees with none, and what they did with it does not come into it.
pub proof fn law_only_two_types_disagree(a: Outcome, b: Outcome)
    ensures
        a is Filtered || b is Filtered ==> !a.disagrees(b),
        a.type_spec() == b.type_spec() ==> !a.disagrees(b),
        a.type_spec() matches Some(x) && b.type_spec() matches Some(y) && x != y ==> a.disagrees(b),
{
}

/// The outcome of several handlers is that of the first of them that none outdoes: no handler called before
/// it did as much with the packet, and none after it did more.
pub proof fn law_the_first_of_the_highest_stands(outcomes: Seq<Outcome>)
    requires
        outcomes.len() > 0,
    ensures
        exists|i: int| {
            &&& 0 <= i < outcomes.len()
            &&& fold_outcomes(outcomes) == Some(#[trigger] outcomes[i])
            &&& forall|j: int| 0 <= j < i ==> (#[trigger] outcomes[j]).rank() < outcomes[i].rank()
            &&& forall|j: int|
                i < j < outcomes.len() ==> (#[trigger] outcomes[j]).rank() <= outcomes[i].rank()
        },
    decreases outcomes.len(),
{
    let before = outcomes.drop_last();
    let n = outcomes.len() - 1;
    assert(outcomes[n] == outcomes.last());
    if before.len() > 0 {
        law_the_first_of_the_highest_stands(before);
        let i = choose|i: int| {
            &&& 0 <= i < before.len()
            &&& fold_outcomes(before) == Some(#[trigger] before[i])
            &&& forall|j: int| 0 <= j < i ==> (#[trigger] before[j]).rank() < before[i].rank()
            &&& forall|j: int|
                i < j < before.len() ==> (#[trigger] before[j]).rank() <= before[i].rank()
        };
        assert(before[i] == outcomes[i]);
        assert forall|j: int| 0 <= j < n implies #[trigger] outcomes[j] == before[j] by {}
        if outcomes[n].rank() > before[i].rank() {
            assert(fold_outcomes(outcomes) == Some(outcomes[n]));
            assert forall|j: int| 0 <= j < n implies (#[trigger] outcomes[j]).rank()
                < outcomes[n].rank() by {
                assert(before[j].rank() <= before[i].rank());
            }
        } else {
            assert(fold_outcomes(outcomes) == Some(outcomes[i]));
        }
    } else {
        assert(fold_outcomes(before) is None);
        assert(fold_outcomes(outcomes) == Some(outcomes[n]));
    }
}

/// A packet that any of its handlers re-emitted counts as re-emitted, and none else does; one counts as
/// filtered out exactly if every handler filtered it out.
pub proof fn law_one_reflection_makes_a_packet_reflected(outcomes: Seq<Outcome>)
    requires
        outcomes.len() > 0,
    ensures
        fold_outcomes(outcomes) matches Some(outcome) && {
            &&& outcome is Reflected <==> exists|i: int|
                0 <= i < outcomes.len() && #[trigger] outcomes[i] is Reflected
            &&& outcome is Filtered <==> forall|i: int|
                0 <= i < outcomes.len() ==> #[trigger] outcomes[i] is Filtered
        },
{
    law_the_first_of_the_highest_stands(outcomes);
    law_highest_disposition_wins(outcomes);
    let outcome = fold_outcomes(outcomes)->0;
    assert forall|i: int| 0 <= i < outcomes.len() && #[trigger] outcomes[i] is Reflected implies
        outcome is Reflected by {
        assert(outcomes[i].rank() <= outcome.rank());
    }
    if outcome is Filtered {
        assert forall|i: int| 0 <= i < outcomes.len() implies #[trigger] outcomes[i] is Filtered by {
            assert(outcomes[i].rank() <= outcome.rank());
        }
    }
}

/// A count grows by exactly what is counted, and stays at the largest number it can hold instead of going
/// past it.
pub proof fn law_a_count_saturates(n: u64, k: u64)
    ensures
        n + k <= u64::MAX ==> more(n, k) == n + k,
        n + k > u64::MAX ==> more(n, k) == u64::MAX,
        n < u64::MAX ==> one_more(n) == n + 1,
        one_more(u64::MAX) == u64::MAX,
{
}

/// Each disposition has its own count: a packet raises that of what became of it by one, and no other.
pub proof fn law_each_disposition_has_its_own_count(counts: TypedCounts, ty: MessageType)
    requires
        counts.reflected < u64::MAX,
        counts.skipped < u64::MAX,
        counts.dropped < u64::MAX,
        counts.stalled < u64::MAX,
    ensures
        ({
            let after = counts.counted(Outcome::Reflected(ty));
            &&& after.reflected == counts.reflected + 1
            &&& after.skipped == counts.skipped
            &&& after.dropped == counts.dropped
            &&& after.stalled == counts.stalled
        }),
        ({
            let after = counts.counted(Outcome::Skipped(ty));
            &&& after.reflected == counts.reflected
            &&& after.skipped == counts.skipped + 1
            &&& after.dropped == counts.dropped
            &&& after.stalled == counts.stalled
        }),
        ({
            let after = counts.counted(Outcome::Dropped(ty));
            &&& after.reflected == counts.reflected
            &&& after.skipped == counts.skipped
            &&& after.dropped == counts.dropped + 1
            &&& after.stalled == counts.stalled
        }),
        ({
            let after = counts.counted(Outcome::Stalled(ty));
            &&& after.reflected == counts.reflected
            &&& after.skipped == counts.skipped
            &&& after.dropped == counts.dropped
            &&& after.stalled == counts.stalled + 1
        }),
        counts.counted(Outcome::Filtered) == counts,
{
}

/// A re-emitted packet raises the count of re-emitted ones of its type by one, and so of the others; a
/// filtered one that of the filtered packets. Nothing else is counted with it: no other type, recovery,
/// oversized frame or echo.
pub proof fn law_a_packet_is_counted_under_its_type(
    before: CaptureCounters,
    after: CaptureCounters,
    outcome: Outcome,
    ty: MessageType,
    other: MessageType,
)
    requires
        before.after_outcome(after, outcome),
        ty != other,
        before.filtered_spec() < u64::MAX,
        before.counts(ty).reflected < u64::MAX,
        before.counts(ty).skipped < u64::MAX,
        before.counts(ty).dropped < u64::MAX,
        before.counts(ty).stalled < u64::MAX,
    ensures
        outcome == Outcome::Reflected(ty) ==> after.counts(ty).reflected == before.counts(
            ty,
        ).reflected + 1,
        outcome != Outcome::Reflected(ty) ==> after.counts(ty).reflected == before.counts(
            ty,
        ).reflected,
        outcome == Outcome::Skipped(ty) ==> after.counts(ty).skipped == before.counts(ty).skipped + 1,
        outcome != Outcome::Skipped(ty) ==> after.counts(ty).skipped == before.counts(ty).skipped,
        outcome == Outcome::Dropped(ty) ==> after.counts(ty).dropped == before.counts(ty).dropped + 1,
        outcome != Outcome::Dropped(ty) ==> after.counts(ty).dropped == before.counts(ty).dropped,
        outcome == Outcome::Stalled(ty) ==> after.counts(ty).stalled == before.counts(ty).stalled + 1,
        outcome != Outcome::Stalled(ty) ==> after.counts(ty).stalled == before.counts(ty).stalled,
        outcome.type_spec() == Some(ty) ==> after.counts(other) == before.counts(other),
        outcome is Filtered ==> after.filtered_spec() == before.filtered_spec() + 1,
        !(outcome is Filtered) ==> after.filtered_spec() == before.filtered_spec(),
        after.recoveries_spec() == before.recoveries_spec(),
        after.oversized_spec() == before.oversized_spec(),
        after.echoed_spec() == before.echoed_spec(),
{
}

/// A recovery, an echo and oversized frames each raise their own count, by one, by one, and by their number,
/// and leave every other count as it was.
pub proof fn law_each_event_has_its_own_count(
    before: CaptureCounters,
    after: CaptureCounters,
    n: u64,
    k: nat,
    ty: MessageType,
)
    requires
        before.recoveries_spec() + k < u64::MAX,
        before.echoed_spec() < u64::MAX,
        before.oversized_spec() + n <= u64::MAX,
    ensures
        before.after_recovery(after) ==> {
            &&& after.recoveries_spec() == before.recoveries_spec() + 1
            &&& after.counts(ty) == before.counts(ty)
            &&& after.filtered_spec() == before.filtered_spec()
            &&& after.oversized_spec() == before.oversized_spec()
            &&& after.echoed_spec() == before.echoed_spec()
        },
        before.after_recoveries(after, k) ==> {
            &&& after.recoveries_spec() == before.recoveries_spec() + k
            &&& after.counts(ty) == before.counts(ty)
            &&& after.filtered_spec() == before.filtered_spec()
            &&& after.oversized_spec() == before.oversized_spec()
            &&& after.echoed_spec() == before.echoed_spec()
        },
        before.after_oversized(after, n) ==> {
            &&& after.oversized_spec() == before.oversized_spec() + n
            &&& after.counts(ty) == before.counts(ty)
            &&& after.filtered_spec() == before.filtered_spec()
            &&& after.recoveries_spec() == before.recoveries_spec()
            &&& after.echoed_spec() == before.echoed_spec()
        },
        before.after_echo(after) ==> {
            &&& after.echoed_spec() == before.echoed_spec() + 1
            &&& after.counts(ty) == before.counts(ty)
            &&& after.filtered_spec() == before.filtered_spec()
            &&& after.recoveries_spec() == before.recoveries_spec()
            &&& after.oversized_spec() == before.oversized_spec()
        },
{
}

/// Counters start at zero in every count.
pub proof fn law_fresh_counters_are_all_zero(counters: CaptureCounters, ty: MessageType)
    requires
        counters.zero(),
    ensures
        counters.counts(ty).reflected == 0,
        counters.counts(ty).skipped == 0,
        counters.counts(ty).dropped == 0,
        counters.counts(ty).stalled == 0,
        counters.filtered_spec() == 0,
        counters.recoveries_spec() == 0,
        counters.oversized_spec() == 0,
        counters.echoed_spec() == 0,
{
}

}
