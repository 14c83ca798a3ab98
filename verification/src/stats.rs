//! A registry of named counters and gauges.
use crate::text::str_eq;
use vstd::prelude::*;

verus! {

/// The current value of a statistic.
#[derive(Debug, Clone, Copy, PartialEq, Eq, Structural)]
pub enum StatValue {
    Counter(u64),
    GaugeU64(u64),
    GaugeI64(i64),
}

/// A statistic and the name under which it was registered.
#[derive(Debug, Clone, Copy)]
pub struct StatEntry {
    pub name: &'static str,
    pub value: StatValue,
}

/// Every registered statistic, in the order of registration.
#[derive(Debug)]
pub struct StatRegistry {
    entries: Vec<StatEntry>,
}

/// Whether entry `slot` is the newest one under the name `name`.
pub open spec fn is_newest(entries: Seq<StatEntry>, name: Seq<char>, slot: int) -> bool {
    &&& 0 <= slot < entries.len()
    &&& entries[slot].name@ == name
    &&& forall|i: int| slot < i < entries.len() ==> (#[trigger] entries[i]).name@ != name
}

impl View for StatRegistry {
    type V = Seq<StatEntry>;

    closed spec fn view(&self) -> Seq<StatEntry> {
        self.entries@
    }
}

impl StatRegistry {
    pub fn new() -> (registry: Self)
        ensures
            registry@ == Seq::<StatEntry>::empty(),
    {
        StatRegistry { entries: Vec::new() }
    }

    pub fn len(&self) -> (len: usize)
        ensures
            len == self@.len(),
    {
        self.entries.len()
    }

    /// Adds a statistic under a name and returns the place where it is kept.
    fn register(&mut self, name: &'static str, value: StatValue) -> (slot: usize)
        ensures
            slot == old(self)@.len(),
            final(self)@ == old(self)@.push(StatEntry { name, value }),
    {
        let slot = self.entries.len();
        self.entries.push(StatEntry { name, value });
        slot
    }

    /// Registers a counter that starts at zero.
    pub fn register_counter(&mut self, name: &'static str) -> (counter: StatCounter)
        ensures
            counter@ == old(self)@.len(),
            final(self)@ == old(self)@.push(StatEntry { name, value: StatValue::Counter(0) }),
    {
        StatCounter { slot: self.register(name, StatValue::Counter(0)) }
    }

    /// Registers an unsigned gauge that starts at zero.
    pub fn register_gauge_u64(&mut self, name: &'static str) -> (gauge: Gauge)
        ensures
            gauge@ == old(self)@.len(),
            final(self)@ == old(self)@.push(StatEntry { name, value: StatValue::GaugeU64(0) }),
    {
        Gauge { slot: self.register(name, StatValue::GaugeU64(0)) }
    }

    /// Registers a signed gauge that starts at zero.
    pub fn register_gauge_i64(&mut self, name: &'static str) -> (gauge: SignedGauge)
        ensures
            gauge@ == old(self)@.len(),
            final(self)@ == old(self)@.push(StatEntry { name, value: StatValue::GaugeI64(0) }),
    {
        SignedGauge { slot: self.register(name, StatValue::GaugeI64(0)) }
    }

    /// The value of the statistic that was registered last under the name.
    pub fn lookup(&self, name: &str) -> (value: Option<StatValue>)
        ensures
            match value {
                Some(found) => exists|slot: int|
                    #[trigger] is_newest(self@, name@, slot) && found == self@[slot].value,
                None => forall|i: int| 0 <= i < self@.len() ==> (#[trigger] self@[i]).name@ != name@,
            },
    {
        let mut i: usize = self.entries.len();
        while i > 0
            invariant
                i <= self@.len(),
                forall|j: int| i <= j < self@.len() ==> (#[trigger] self@[j]).name@ != name@,
            decreases i,
        {
            i = i - 1;
            if str_eq(self.entries[i].name, name) {
                assert(is_newest(self@, name@, i as int));
                return Some(self.entries[i].value);
            }
        }
        None
    }

    fn set_value(&mut self, slot: usize, value: StatValue)
        requires
            slot < old(self)@.len(),
        ensures
            final(self)@ == with_value(old(self)@, slot as int, value),
    {
        let name = self.entries[slot].name;
        self.entries.set(slot, StatEntry { name, value });
    }
}

/// The entries with another value in place `slot`.
pub open spec fn with_value(entries: Seq<StatEntry>, slot: int, value: StatValue) -> Seq<StatEntry> {
    entries.update(slot, StatEntry { name: entries[slot].name, value })
}

/// What a statistic counts as.
pub enum StatKind {
    Counter,
    GaugeU64,
    GaugeI64,
}

/// The kind of a value.
pub open spec fn kind_of(value: StatValue) -> StatKind {
    match value {
        StatValue::Counter(_) => StatKind::Counter,
        StatValue::GaugeU64(_) => StatKind::GaugeU64,
        StatValue::GaugeI64(_) => StatKind::GaugeI64,
    }
}

/// The kinds of all registered statistics. They never change.
pub open spec fn kinds(entries: Seq<StatEntry>) -> Seq<StatKind> {
    entries.map_values(|e: StatEntry| kind_of(e.value))
}

/// Whether the statistic at `slot` is of a given kind.
pub open spec fn is_kind(kinds: Seq<StatKind>, slot: int, kind: StatKind) -> bool {
    0 <= slot < kinds.len() && kinds[slot] == kind
}

pub broadcast proof fn lemma_kinds_kept(entries: Seq<StatEntry>, slot: int, value: StatValue)
    requires
        0 <= slot < entries.len(),
        kind_of(value) == kind_of(entries[slot].value),
    ensures
        #[trigger] kinds(with_value(entries, slot, value)) == kinds(entries),
{
    assert(kinds(with_value(entries, slot, value)) =~= kinds(entries));
}

/// A registered counter.
#[derive(Debug, Clone, Copy)]
pub struct StatCounter {
    slot: usize,
}

impl View for StatCounter {
    type V = int;

    closed spec fn view(&self) -> int {
        self.slot as int
    }
}

/// Whether the registry keeps a counter at `slot`.
pub open spec fn holds_counter(entries: Seq<StatEntry>, slot: int) -> bool {
    0 <= slot < entries.len() && entries[slot].value is Counter
}

/// The count that the registry keeps at `slot`.
pub open spec fn count_at(entries: Seq<StatEntry>, slot: int) -> u64 {
    entries[slot].value->Counter_0
}

/// The entries after `n` has been added to the counter at `slot`, which wraps around.
pub open spec fn with_added(entries: Seq<StatEntry>, slot: int, n: u64) -> Seq<StatEntry> {
    with_value(
        entries,
        slot,
        StatValue::Counter(vstd::wrapping::u64_specs::wrapping_add(count_at(entries, slot), n)),
    )
}

impl StatCounter {
    /// Adds to the counter, which wraps around.
    pub fn add(&self, registry: &mut StatRegistry, n: u64)
        requires
            holds_counter(old(registry)@, self@),
        ensures
            final(registry)@ == with_added(old(registry)@, self@, n),
    {
        if let StatValue::Counter(count) = registry.entries[self.slot].value {
            registry.set_value(self.slot, StatValue::Counter(count.wrapping_add(n)));
        }
    }

    /// Adds one to the counter, which wraps around.
    pub fn inc(&self, registry: &mut StatRegistry)
        requires
            holds_counter(old(registry)@, self@),
        ensures
            final(registry)@ == with_added(old(registry)@, self@, 1),
    {
        self.add(registry, 1);
    }

    pub fn get(&self, registry: &StatRegistry) -> (count: u64)
        requires
            holds_counter(registry@, self@),
        ensures
            count == count_at(registry@, self@),
    {
        match registry.entries[self.slot].value {
            StatValue::Counter(count) => count,
            _ => 0,
        }
    }
}

/// A registered gauge of an unsigned value.
#[derive(Debug, Clone, Copy)]
pub struct Gauge {
    slot: usize,
}

impl View for Gauge {
    type V = int;

    closed spec fn view(&self) -> int {
        self.slot as int
    }
}

/// A registered gauge of a signed value.
#[derive(Debug, Clone, Copy)]
pub struct SignedGauge {
    slot: usize,
}

impl View for SignedGauge {
    type V = int;

    closed spec fn view(&self) -> int {
        self.slot as int
    }
}

/// Whether the registry keeps an unsigned gauge at `slot`.
pub open spec fn holds_gauge_u64(entries: Seq<StatEntry>, slot: int) -> bool {
    0 <= slot < entries.len() && entries[slot].value is GaugeU64
}

/// Whether the registry keeps a signed gauge at `slot`.
pub open spec fn holds_gauge_i64(entries: Seq<StatEntry>, slot: int) -> bool {
    0 <= slot < entries.len() && entries[slot].value is GaugeI64
}

impl Gauge {
    pub fn set(&self, registry: &mut StatRegistry, value: u64)
        requires
            holds_gauge_u64(old(registry)@, self@),
        ensures
            final(registry)@ == with_value(old(registry)@, self@, StatValue::GaugeU64(value)),
    {
        registry.set_value(self.slot, StatValue::GaugeU64(value));
    }
}

impl SignedGauge {
    pub fn set(&self, registry: &mut StatRegistry, value: i64)
        requires
            holds_gauge_i64(old(registry)@, self@),
        ensures
            final(registry)@ == with_value(old(registry)@, self@, StatValue::GaugeI64(value)),
    {
        registry.set_value(self.slot, StatValue::GaugeI64(value));
    }
}

/// What is written to a statistic is read back under its name, as long as no other statistic was
/// registered under that name afterwards.
pub proof fn law_lookup_reads_last_write(
    entries: Seq<StatEntry>,
    name: Seq<char>,
    slot: int,
    value: StatValue,
    found: int,
)
    requires
        is_newest(entries, name, slot),
        is_newest(with_value(entries, slot, value), name, found),
    ensures
        found == slot,
        with_value(entries, slot, value)[found].value == value,
{
    let after = with_value(entries, slot, value);
    if found < slot {
        assert(after[slot].name@ == name);
    } else if slot < found {
        assert(entries[found].name@ != name);
    }
}

/// Writing a statistic changes its value and nothing else: it keeps its name, and every other
/// statistic stays as it was.
pub proof fn law_writes_change_one_value(
    entries: Seq<StatEntry>,
    slot: int,
    value: StatValue,
    other: int,
)
    requires
        0 <= slot < entries.len(),
        0 <= other < entries.len(),
    ensures
        with_value(entries, slot, value).len() == entries.len(),
        with_value(entries, slot, value)[slot].value == value,
        with_value(entries, slot, value)[other].name == entries[other].name,
        other != slot ==> with_value(entries, slot, value)[other] == entries[other],
{
}

/// A counter counts: after `n` was added it shows `n` more, modulo the size of a `u64`, and keeps
/// its name; no other statistic changes. Two additions count as one of their sum.
pub proof fn law_counters_add_up(entries: Seq<StatEntry>, slot: int, n: u64, m: u64, other: int)
    requires
        holds_counter(entries, slot),
        0 <= other < entries.len(),
    ensures
        holds_counter(with_added(entries, slot, n), slot),
        entries[slot].value == StatValue::Counter(count_at(entries, slot)),
        count_at(with_added(entries, slot, n), slot) as int == (count_at(entries, slot) + n)
            % 0x1_0000_0000_0000_0000,
        with_added(entries, slot, n).len() == entries.len(),
        with_added(entries, slot, n)[other].name == entries[other].name,
        other != slot ==> with_added(entries, slot, n)[other] == entries[other],
        n + m <= u64::MAX ==> count_at(with_added(with_added(entries, slot, n), slot, m), slot)
            == count_at(with_added(entries, slot, (n + m) as u64), slot),
{
}

/// A statistic has the kind of its value, and the kinds are listed in the order of registration.
pub proof fn law_kinds_are_those_of_the_values(entries: Seq<StatEntry>, slot: int, kind: StatKind)
    ensures
        kinds(entries).len() == entries.len(),
        is_kind(kinds(entries), slot, StatKind::Counter) <==> holds_counter(entries, slot),
        is_kind(kinds(entries), slot, StatKind::GaugeU64) <==> holds_gauge_u64(entries, slot),
        is_kind(kinds(entries), slot, StatKind::GaugeI64) <==> holds_gauge_i64(entries, slot),
        holds_counter(entries, slot) <==> 0 <= slot < entries.len() && (
        entries[slot].value is Counter),
        holds_gauge_u64(entries, slot) <==> 0 <= slot < entries.len() && (
        entries[slot].value is GaugeU64),
        holds_gauge_i64(entries, slot) <==> 0 <= slot < entries.len() && (
        entries[slot].value is GaugeI64),
{
}

/// The newest entry under a name has that name, and no entry behind it does: at most one is the
/// newest.
pub proof fn law_names_lead_to_the_last_registration(
    entries: Seq<StatEntry>,
    name: Seq<char>,
    slot: int,
    other: int,
)
    requires
        is_newest(entries, name, slot),
        0 <= other < entries.len(),
        entries[other].name@ == name,
    ensures
        entries[slot].name@ == name,
        other <= slot,
        is_newest(entries, name, other) ==> other == slot,
{
}

/// A name under which something was registered has a newest entry.
pub proof fn law_registered_names_are_found(entries: Seq<StatEntry>, name: Seq<char>, other: int)
    requires
        0 <= other < entries.len(),
        entries[other].name@ == name,
    ensures
        exists|slot: int| #[trigger] is_newest(entries, name, slot),
    decreases entries.len() - other,
{
    if exists|i: int| other < i < entries.len() && (#[trigger] entries[i]).name@ == name {
        let later = choose|i: int|
            other < i < entries.len() && (#[trigger] entries[i]).name@ == name;
        law_registered_names_are_found(entries, name, later);
    } else {
        assert(is_newest(entries, name, other));
    }
}

} // verus!
