//! The neighbor cache, and the queue of packets waiting for a neighbor to be
//! resolved (RFC 826, RFC 4861 §7.2 and §7.3).

use vstd::prelude::*;


use crate::iface::IfaceHandle;
use crate::time::{Duration, Instant};
use crate::wire::ethernet::EthernetAddress;
use crate::wire::ip::IpAddress;

verus! {

/// Key identifying a neighbor: the interface it is reachable through, plus its
/// protocol address.
pub type Key = (IfaceHandle, IpAddress);

/// Maximum number of entries in the neighbor cache.
pub const NEIGHBOR_CACHE_COUNT: usize = 8;

/// Maximum number of packets waiting for neighbor resolution, per interface.
///
/// When the queue is full, the oldest packet is dropped to make room.
pub const PENDING_QUEUE_COUNT: usize = 16;

/// Maximum number of solicitations sent for one resolution before giving up.
/// (RFC 4861 MAX_MULTICAST_SOLICIT)
pub const MAX_MULTICAST_SOLICIT: u8 = 3;

/// How long a packet may sit in the pending queue before it is dropped, in
/// microseconds.
pub const PENDING_QUEUE_LIFETIME_MICROS: u64 = 5_000_000;

/// Delay between solicitation retransmissions, in microseconds. (RFC 4861
/// RETRANS_TIMER)
pub const RETRANS_TIMER_MICROS: u64 = 1_000_000;

/// Neighbor entry lifetime, in microseconds.
pub const ENTRY_LIFETIME_MICROS: u64 = 60_000_000;

/// How long a packet may sit in the pending queue before it is dropped.
pub fn pending_queue_lifetime() -> (r: Duration)
    ensures
        r.micros == PENDING_QUEUE_LIFETIME_MICROS,
{
    Duration { micros: PENDING_QUEUE_LIFETIME_MICROS }
}

/// Delay between solicitation retransmissions.
pub fn retrans_timer() -> (r: Duration)
    ensures
        r.micros == RETRANS_TIMER_MICROS,
{
    Duration { micros: RETRANS_TIMER_MICROS }
}

/// Whether every lifetime and timer started at this point ends within the range
/// of time.
pub open spec fn time_ok(t: Instant) -> bool {
    t.micros + ENTRY_LIFETIME_MICROS <= i64::MAX
}

/// The point `micros` microseconds after `t`.
pub open spec fn after_micros(t: Instant, micros: u64) -> Instant {
    Instant { micros: (t.micros + micros) as i64 }
}

/// State of a neighbor cache entry, in the style of RFC 4861 §7.3.2.
#[derive(Debug, Clone, Copy)]
pub enum State {
    /// Address resolution is in progress: solicitations are being sent, no answer
    /// yet. Egress packets for this neighbor are queued meanwhile.
    Incomplete {
        /// Number of solicitations sent so far.
        probes_sent: u8,
        /// When to send the next solicitation.
        retrans_at: Instant,
    },
    /// The neighbor's hardware address is known.
    Reachable {
        hardware_addr: EthernetAddress,
        /// The timestamp past which the mapping should be discarded.
        expires_at: Instant,
    },
}

/// An answer to a neighbor cache lookup.
#[derive(Debug, Clone, Copy, PartialEq, Eq)]
pub enum Answer {
    /// The neighbor address is in the cache and not expired.
    Found(EthernetAddress),
    /// Resolution of this neighbor is already in progress.
    Pending,
    /// The neighbor address is not in the cache, or has expired.
    NotFound,
}

impl Answer {
    /// Returns whether a valid address was found.
    pub fn found(&self) -> (r: bool)
        ensures
            r == (self is Found),
    {
        match self {
            Answer::Found(_) => true,
            _ => false,
        }
    }
}

/// A due resolution timer, returned by [`Cache::poll_retransmit`].
#[derive(Debug, Clone, Copy, PartialEq, Eq)]
pub enum ProbeEvent {
    /// Another solicitation should be sent to the neighbor.
    Retransmit(IpAddress),
    /// Resolution failed after the maximum number of solicitations. The entry has
    /// been removed; packets queued on it should be dropped.
    Failed(IpAddress),
}

/// The entries of a neighbor cache, in the order they are scanned.
pub type Entries = Seq<(Key, State)>;

/// The first entry for `key` at or after `from`.
pub open spec fn entry_from(entries: Entries, key: Key, from: int) -> Option<int>
    decreases entries.len() - from,
{
    if from < 0 || from >= entries.len() {
        None
    } else if entries[from].0 == key {
        Some(from)
    } else {
        entry_from(entries, key, from + 1)
    }
}

/// The entry for `key`.
pub open spec fn entry_of(entries: Entries, key: Key) -> Option<int> {
    entry_from(entries, key, 0)
}

/// What a lookup of `key` at time `now` answers.
pub open spec fn answer_of(entries: Entries, key: Key, now: Instant) -> Answer {
    match entry_of(entries, key) {
        Some(i) => match entries[i].1 {
            State::Reachable { hardware_addr, expires_at } => if now.micros < expires_at.micros {
                Answer::Found(hardware_addr)
            } else {
                Answer::NotFound
            },
            State::Incomplete { .. } => Answer::Pending,
        },
        None => Answer::NotFound,
    }
}

/// No two entries are for the same neighbor.
pub open spec fn keys_distinct(entries: Entries) -> bool {
    forall|i: int, j: int|
        #![trigger entries[i], entries[j]]
        0 <= i < j < entries.len() ==> entries[i].0 != entries[j].0
}

/// Whether the first entry should be evicted rather than the second: resolved
/// entries go before resolutions in progress, whose queued packets would be
/// stranded, and among equals the one whose timer ends first.
pub open spec fn evict_before(a: State, b: State) -> bool {
    match (a, b) {
        (State::Reachable { expires_at: x, .. }, State::Reachable { expires_at: y, .. }) => x.micros < y.micros,
        (State::Reachable { .. }, State::Incomplete { .. }) => true,
        (State::Incomplete { .. }, State::Reachable { .. }) => false,
        (State::Incomplete { retrans_at: x, .. }, State::Incomplete { retrans_at: y, .. }) => x.micros < y.micros,
    }
}

/// Whether `v` is the entry to evict: no other goes before it, and every earlier
/// one goes after it.
pub open spec fn is_victim(entries: Entries, v: int) -> bool {
    &&& 0 <= v < entries.len()
    &&& forall|j: int| 0 <= j < entries.len() ==> !evict_before((#[trigger] entries[j]).1, entries[v].1)
    &&& forall|j: int| 0 <= j < v ==> evict_before(entries[v].1, (#[trigger] entries[j]).1)
}

/// The entry to evict from a full cache.
pub open spec fn victim(entries: Entries) -> int {
    choose|v: int| is_victim(entries, v)
}

/// The entries after storing a state for `key`: in place of the neighbor's old
/// state, else in a new entry, else in place of the evicted one.
pub open spec fn inserted(entries: Entries, key: Key, state: State) -> Entries {
    match entry_of(entries, key) {
        Some(i) => entries.update(i, (key, state)),
        None => if entries.len() < NEIGHBOR_CACHE_COUNT {
            entries.push((key, state))
        } else {
            entries.update(victim(entries), (key, state))
        },
    }
}

/// The entries after learning a neighbor's hardware address.
pub open spec fn filled(entries: Entries, key: Key, hardware_addr: EthernetAddress, now: Instant) -> Entries {
    inserted(
        entries,
        key,
        State::Reachable { hardware_addr, expires_at: after_micros(now, ENTRY_LIFETIME_MICROS) },
    )
}

/// The entries after starting to resolve a neighbor.
pub open spec fn resolution_started(entries: Entries, key: Key, now: Instant) -> Entries {
    inserted(
        entries,
        key,
        State::Incomplete { probes_sent: 1, retrans_at: after_micros(now, RETRANS_TIMER_MICROS) },
    )
}

/// The entries after hearing from a neighbor: a resolved entry with the same
/// hardware address gets a new lease.
pub open spec fn refreshed(entries: Entries, key: Key, hardware_addr: EthernetAddress, now: Instant) -> Entries {
    match entry_of(entries, key) {
        Some(i) => match entries[i].1 {
            State::Reachable { hardware_addr: known, .. } => if known == hardware_addr {
                entries.update(
                    i,
                    (
                        key,
                        State::Reachable {
                            hardware_addr,
                            expires_at: after_micros(now, ENTRY_LIFETIME_MICROS),
                        },
                    ),
                )
            } else {
                entries
            },
            State::Incomplete { .. } => entries,
        },
        None => entries,
    }
}

/// Whether an entry's retransmission timer is due on `iface`.
pub open spec fn is_due(entry: (Key, State), iface: IfaceHandle, now: Instant) -> bool {
    entry.0.0 == iface && match entry.1 {
        State::Incomplete { retrans_at, .. } => now.micros >= retrans_at.micros,
        State::Reachable { .. } => false,
    }
}

/// The first due entry at or after `from`, else the end of the scan.
pub open spec fn first_due(entries: Entries, iface: IfaceHandle, now: Instant, from: int) -> int
    decreases entries.len() - from,
{
    if from < 0 || from >= entries.len() || is_due(entries[from], iface, now) {
        from
    } else {
        first_due(entries, iface, now, from + 1)
    }
}

/// What one step of a timer scan leaves behind: the entries, where to resume,
/// and the event to act on, if any.
#[verifier::ext_equal]
pub struct TimerStep {
    pub entries: Entries,
    pub cursor: int,
    pub event: Option<ProbeEvent>,
}

/// One step of a timer scan from `cursor`.
pub open spec fn timer_step(entries: Entries, iface: IfaceHandle, now: Instant, cursor: int) -> TimerStep {
    let due = first_due(entries, iface, now, cursor);
    if due >= entries.len() {
        TimerStep { entries, cursor: due, event: None }
    } else {
        let addr = entries[due].0.1;
        match entries[due].1 {
            State::Incomplete { probes_sent, .. } => if probes_sent >= MAX_MULTICAST_SOLICIT {
                TimerStep {
                    entries: entries.update(due, entries.last()).drop_last(),
                    cursor: due,
                    event: Some(ProbeEvent::Failed(addr)),
                }
            } else {
                TimerStep {
                    entries: entries.update(
                        due,
                        (
                            entries[due].0,
                            State::Incomplete {
                                probes_sent: (probes_sent + 1) as u8,
                                retrans_at: after_micros(now, RETRANS_TIMER_MICROS),
                            },
                        ),
                    ),
                    cursor: due + 1,
                    event: Some(ProbeEvent::Retransmit(addr)),
                }
            },
            State::Reachable { .. } => TimerStep { entries, cursor: due, event: None },
        }
    }
}

/// The scan stops at or after its start, at an entry that is due or at the end.
pub proof fn lemma_first_due(entries: Entries, iface: IfaceHandle, now: Instant, from: int)
    requires
        0 <= from,
    ensures
        from <= first_due(entries, iface, now, from),
        first_due(entries, iface, now, from) < entries.len() ==> is_due(
            entries[first_due(entries, iface, now, from)],
            iface,
            now,
        ),
        from <= entries.len() ==> first_due(entries, iface, now, from) <= entries.len(),
    decreases entries.len() - from,
{
    if from < entries.len() && !is_due(entries[from], iface, now) {
        lemma_first_due(entries, iface, now, from + 1);
    }
}

/// A step that reports an event gets closer to the end of the scan.
pub proof fn lemma_timer_step_progress(entries: Entries, iface: IfaceHandle, now: Instant, cursor: int)
    requires
        0 <= cursor,
    ensures
        ({
            let step = timer_step(entries, iface, now, cursor);
            &&& 0 <= step.cursor
            &&& step.event is Some ==> cursor < entries.len() && step.entries.len() - step.cursor
                < entries.len() - cursor
        }),
{
    lemma_first_due(entries, iface, now, cursor);
}

/// The entries after one whole scan of an interface's timers, from `cursor` on.
pub open spec fn scanned(entries: Entries, iface: IfaceHandle, now: Instant, cursor: int) -> Entries
    decreases entries.len() - cursor,
    when 0 <= cursor
    via scanned_decreases
{
    let step = timer_step(entries, iface, now, cursor);
    if step.event is Some {
        scanned(step.entries, iface, now, step.cursor)
    } else {
        step.entries
    }
}

#[via_fn]
proof fn scanned_decreases(entries: Entries, iface: IfaceHandle, now: Instant, cursor: int) {
    lemma_timer_step_progress(entries, iface, now, cursor);
}

/// The events of one whole scan of an interface's timers, from `cursor` on.
pub open spec fn scan_events(entries: Entries, iface: IfaceHandle, now: Instant, cursor: int) -> Seq<ProbeEvent>
    decreases entries.len() - cursor,
    when 0 <= cursor
    via scan_events_decreases
{
    let step = timer_step(entries, iface, now, cursor);
    match step.event {
        Some(event) => seq![event] + scan_events(step.entries, iface, now, step.cursor),
        None => Seq::empty(),
    }
}

#[via_fn]
proof fn scan_events_decreases(entries: Entries, iface: IfaceHandle, now: Instant, cursor: int) {
    lemma_timer_step_progress(entries, iface, now, cursor);
}

/// Whether two keys are the same.
pub fn same_key(a: &Key, b: &Key) -> (r: bool)
    ensures
        r == (*a == *b),
{
    a.0.0 == b.0.0 && a.1 == b.1
}

/// A neighbor cache.
#[derive(Debug)]
pub struct Cache {
    storage: Vec<(Key, State)>,
}

impl View for Cache {
    type V = Entries;

    closed spec fn view(&self) -> Entries {
        self.storage@
    }
}

/// What every operation on a cache keeps: it is bounded, and holds at most one
/// entry per neighbor.
pub open spec fn entries_ok(entries: Entries) -> bool {
    entries.len() <= NEIGHBOR_CACHE_COUNT && keys_distinct(entries)
}

proof fn lemma_entry_from(entries: Entries, key: Key, from: int)
    requires
        0 <= from,
    ensures
        match entry_from(entries, key, from) {
            Some(i) => from <= i < entries.len() && entries[i].0 == key && forall|j: int|
                from <= j < i ==> (#[trigger] entries[j]).0 != key,
            None => forall|j: int| from <= j < entries.len() ==> (#[trigger] entries[j]).0 != key,
        },
    decreases entries.len() - from,
{
    if from < entries.len() && entries[from].0 != key {
        lemma_entry_from(entries, key, from + 1);
    }
}

/// Where the entry for a key stands.
pub proof fn lemma_entry_of(entries: Entries, key: Key)
    ensures
        match entry_of(entries, key) {
            Some(i) => 0 <= i < entries.len() && entries[i].0 == key && forall|j: int|
                0 <= j < i ==> (#[trigger] entries[j]).0 != key,
            None => forall|j: int| 0 <= j < entries.len() ==> (#[trigger] entries[j]).0 != key,
        },
{
    lemma_entry_from(entries, key, 0);
}

/// An entry that stands before every other one for its key is the one found.
proof fn lemma_entry_is(entries: Entries, key: Key, i: int)
    requires
        0 <= i < entries.len(),
        entries[i].0 == key,
        keys_distinct(entries),
    ensures
        entry_of(entries, key) == Some(i),
{
    lemma_entry_of(entries, key);
}

proof fn lemma_victim_unique(entries: Entries, v: int)
    requires
        is_victim(entries, v),
    ensures
        victim(entries) == v,
{
    let w = victim(entries);
    assert(is_victim(entries, w));
    if v < w {
        assert(evict_before(entries[w].1, entries[v].1));
    } else if w < v {
        assert(evict_before(entries[v].1, entries[w].1));
    }
}

/// Every full cache has an entry to evict.
proof fn lemma_victim_exists(entries: Entries, n: int) -> (v: int)
    requires
        0 < n <= entries.len(),
    ensures
        is_victim(entries.take(n), v),
    decreases n,
{
    let s = entries.take(n);
    if n == 1 {
        0
    } else {
        let p = entries.take(n - 1);
        let v = lemma_victim_exists(entries, n - 1);
        assert(forall|j: int| 0 <= j < n - 1 ==> #[trigger] s[j] == p[j]);
        if evict_before(s[n - 1].1, s[v].1) {
            assert forall|j: int| 0 <= j < n - 1 implies evict_before(s[n - 1].1, (#[trigger] s[j]).1) by {
                assert(!evict_before(p[j].1, p[v].1));
            }
            n - 1
        } else {
            assert forall|j: int| 0 <= j < n implies !evict_before((#[trigger] s[j]).1, s[v].1) by {
                if j < n - 1 {
                    assert(!evict_before(p[j].1, p[v].1));
                }
            }
            v
        }
    }
}

/// The entry that makes room is there.
pub proof fn lemma_victim(entries: Entries) -> (v: int)
    requires
        entries.len() > 0,
    ensures
        is_victim(entries, v),
        victim(entries) == v,
{
    let v = lemma_victim_exists(entries, entries.len() as int);
    assert(entries.take(entries.len() as int) =~= entries);
    lemma_victim_unique(entries, v);
    v
}

/// Storing a state keeps the cache bounded and its keys distinct.
pub proof fn law_insert_keeps_cache_ok(entries: Entries, key: Key, state: State)
    requires
        entries_ok(entries),
    ensures
        entries_ok(inserted(entries, key, state)),
{
    lemma_entry_of(entries, key);
    if entry_of(entries, key) is None && entries.len() >= NEIGHBOR_CACHE_COUNT {
        let v = lemma_victim_exists(entries, entries.len() as int);
        assert(entries.take(entries.len() as int) =~= entries);
        lemma_victim_unique(entries, v);
    }
}

/// A neighbor whose address was just learned is found until its entry expires.
pub proof fn law_filled_neighbor_is_found(
    entries: Entries,
    key: Key,
    hardware_addr: EthernetAddress,
    now: Instant,
    later: Instant,
)
    requires
        entries_ok(entries),
        time_ok(now),
        later.micros < now.micros + ENTRY_LIFETIME_MICROS,
    ensures
        answer_of(filled(entries, key, hardware_addr, now), key, later) == Answer::Found(hardware_addr),
{
    lemma_inserted_is_found(
        entries,
        key,
        State::Reachable { hardware_addr, expires_at: after_micros(now, ENTRY_LIFETIME_MICROS) },
    );
}

/// An entry that has expired is not found.
pub proof fn law_expired_neighbor_is_not_found(
    entries: Entries,
    key: Key,
    hardware_addr: EthernetAddress,
    now: Instant,
    later: Instant,
)
    requires
        entries_ok(entries),
        time_ok(now),
        later.micros >= now.micros + ENTRY_LIFETIME_MICROS,
    ensures
        answer_of(filled(entries, key, hardware_addr, now), key, later) == Answer::NotFound,
{
    lemma_inserted_is_found(
        entries,
        key,
        State::Reachable { hardware_addr, expires_at: after_micros(now, ENTRY_LIFETIME_MICROS) },
    );
}

/// A neighbor whose resolution was just started is pending.
pub proof fn law_started_resolution_is_pending(entries: Entries, key: Key, now: Instant, later: Instant)
    requires
        entries_ok(entries),
    ensures
        answer_of(resolution_started(entries, key, now), key, later) == Answer::Pending,
{
    lemma_inserted_is_found(
        entries,
        key,
        State::Incomplete { probes_sent: 1, retrans_at: after_micros(now, RETRANS_TIMER_MICROS) },
    );
}

proof fn lemma_inserted_is_found(entries: Entries, key: Key, state: State)
    requires
        entries_ok(entries),
    ensures
        ({
            let after = inserted(entries, key, state);
            &&& entry_of(after, key) is Some
            &&& after[entry_of(after, key)->0].1 == state
        }),
{
    let after = inserted(entries, key, state);
    law_insert_keeps_cache_ok(entries, key, state);
    lemma_entry_of(entries, key);
    match entry_of(entries, key) {
        Some(i) => {
            lemma_entry_is(after, key, i);
        },
        None => {
            if entries.len() < NEIGHBOR_CACHE_COUNT {
                lemma_entry_is(after, key, entries.len() as int);
            } else {
                let v = lemma_victim_exists(entries, entries.len() as int);
                assert(entries.take(entries.len() as int) =~= entries);
                lemma_victim_unique(entries, v);
                lemma_entry_is(after, key, v);
            }
        },
    }
}

/// Storing a state for one neighbor changes no other neighbor's answer, unless
/// the cache was full and that neighbor's entry was evicted.
pub proof fn law_insert_keeps_other_answers(
    entries: Entries,
    key: Key,
    state: State,
    other: Key,
    now: Instant,
)
    requires
        entries_ok(entries),
        other != key,
        entry_of(entries, key) is Some || entries.len() < NEIGHBOR_CACHE_COUNT || entry_of(entries, other)
            != Some(victim(entries)),
    ensures
        answer_of(inserted(entries, key, state), other, now) == answer_of(entries, other, now),
{
    let after = inserted(entries, key, state);
    law_insert_keeps_cache_ok(entries, key, state);
    lemma_entry_of(entries, key);
    lemma_entry_of(entries, other);
    lemma_entry_of(after, other);
    if entry_of(entries, key) is None && entries.len() >= NEIGHBOR_CACHE_COUNT {
        let v = lemma_victim_exists(entries, entries.len() as int);
        assert(entries.take(entries.len() as int) =~= entries);
        lemma_victim_unique(entries, v);
    }
    match entry_of(entries, other) {
        Some(i) => {
            assert(after[i] == entries[i]);
            lemma_entry_is(after, other, i);
        },
        None => {},
    }
}

/// A full cache evicts a resolution in progress only if it holds nothing else.
pub proof fn law_eviction_prefers_resolved(entries: Entries, i: int)
    requires
        0 <= i < entries.len(),
        entries[i].1 is Reachable,
    ensures
        0 <= victim(entries) < entries.len(),
        entries[victim(entries)].1 is Reachable,
{
    let v = lemma_victim_exists(entries, entries.len() as int);
    assert(entries.take(entries.len() as int) =~= entries);
    lemma_victim_unique(entries, v);
    assert(!evict_before(entries[i].1, entries[v].1));
}

/// A resolution nobody answers fails: scanned when its timer ends, an entry that
/// has sent its last probe is reported as failed and is gone.
pub proof fn law_resolution_fails_after_last_probe(entries: Entries, iface: IfaceHandle, now: Instant, i: int)
    requires
        entries_ok(entries),
        0 <= i < entries.len(),
        is_due(entries[i], iface, now),
        entries[i].1->probes_sent >= MAX_MULTICAST_SOLICIT,
        forall|j: int| 0 <= j < i ==> !is_due(#[trigger] entries[j], iface, now),
    ensures
        ({
            let step = timer_step(entries, iface, now, 0);
            &&& step.event == Some(ProbeEvent::Failed(entries[i].0.1))
            &&& entry_of(step.entries, entries[i].0) is None
        }),
{
    lemma_first_due_is(entries, iface, now, 0, i);
    let step = timer_step(entries, iface, now, 0);
    let key = entries[i].0;
    lemma_entry_of(step.entries, key);
    assert forall|j: int| 0 <= j < step.entries.len() implies (#[trigger] step.entries[j]).0 != key by {
        if j == i {
            assert(step.entries[j] == entries.last());
        } else {
            assert(step.entries[j] == entries[j]);
        }
    }
}

proof fn lemma_first_due_is(entries: Entries, iface: IfaceHandle, now: Instant, from: int, i: int)
    requires
        0 <= from <= i < entries.len(),
        is_due(entries[i], iface, now),
        forall|j: int| from <= j < i ==> !is_due(#[trigger] entries[j], iface, now),
    ensures
        first_due(entries, iface, now, from) == i,
    decreases i - from,
{
    if from < i {
        lemma_first_due_is(entries, iface, now, from + 1, i);
    }
}

impl Cache {
    /// What every operation on a cache keeps.
    pub open spec fn wf(&self) -> bool {
        entries_ok(self@)
    }

    /// Neighbor entry lifetime.
    pub fn entry_lifetime() -> (r: Duration)
        ensures
            r.micros == ENTRY_LIFETIME_MICROS,
    {
        Duration { micros: ENTRY_LIFETIME_MICROS }
    }

    /// Create a cache.
    pub fn new() -> (r: Self)
        ensures
            r.wf(),
            r@ == Entries::empty(),
    {
        Cache { storage: Vec::new() }
    }

    /// Look up a neighbor.
    pub fn lookup(&self, key: &Key, timestamp: Instant) -> (r: Answer)
        requires
            key.1.unicast_view(),
        ensures
            r == answer_of(self@, *key, timestamp),
    {
        vstd::pervasive::runtime_assert(key.1.is_unicast());
        match self.find(key) {
            Some(i) => match self.storage[i].1 {
                State::Reachable { hardware_addr, expires_at } => {
                    if timestamp.micros < expires_at.micros {
                        Answer::Found(hardware_addr)
                    } else {
                        Answer::NotFound
                    }
                },
                State::Incomplete { .. } => Answer::Pending,
            },
            None => Answer::NotFound,
        }
    }

    /// Create an INCOMPLETE entry for a neighbor, starting address resolution.
    ///
    /// The caller sends the first solicitation itself; the entry's retransmission
    /// timer takes over from there (see [`Cache::poll_retransmit`]).
    pub fn start_resolution(&mut self, key: Key, timestamp: Instant)
        requires
            old(self).wf(),
            key.1.unicast_view(),
            time_ok(timestamp),
        ensures
            final(self).wf(),
            final(self)@ == resolution_started(old(self)@, key, timestamp),
    {
        self.insert(key, State::Incomplete { probes_sent: 1, retrans_at: timestamp.after(retrans_timer()) });
    }

    /// Advance the retransmission timers of the neighbors being resolved on `iface`,
    /// one entry per call.
    ///
    /// `cursor` is the scan position. Start it at 0 and call in a loop until `None`
    /// is returned: each call resumes the scan where the previous one stopped, so
    /// the whole loop is one pass over the cache.
    ///
    /// An entry with probes left gets its probe counter bumped and its timer
    /// rearmed, and is returned as [`ProbeEvent::Retransmit`] so the caller sends
    /// another solicitation; an entry that exhausted its probes is removed and
    /// returned as [`ProbeEvent::Failed`] so the caller drops the packets queued on it.
    pub fn poll_retransmit(&mut self, iface: IfaceHandle, timestamp: Instant, cursor: &mut usize) -> (r: Option<
        ProbeEvent,
    >)
        requires
            old(self).wf(),
            time_ok(timestamp),
        ensures
            final(self).wf(),
            ({
                let step = timer_step(old(self)@, iface, timestamp, *old(cursor) as int);
                &&& final(self)@ == step.entries
                &&& *final(cursor) == step.cursor
                &&& r == step.event
            }),
    {
        while *cursor < self.storage.len()
            invariant
                entries_ok(self.storage@),
                self.storage@ == old(self).storage@,
                time_ok(timestamp),
                first_due(self.storage@, iface, timestamp, *cursor as int) == first_due(
                    self.storage@,
                    iface,
                    timestamp,
                    *old(cursor) as int,
                ),
            decreases self.storage@.len() - *cursor,
        {
            let at: usize = *cursor;
            let (key, state) = self.storage[at];
            match state {
                State::Incomplete { probes_sent, retrans_at } => {
                    if key.0.0 == iface.0 && timestamp.micros >= retrans_at.micros {
                        assert(is_due(self.storage@[at as int], iface, timestamp));
                        if probes_sent >= MAX_MULTICAST_SOLICIT {
                            // The last entry moves into `cursor`; examine it next.
                            let _ = self.storage.swap_remove(at);
                            proof {
                                assert(keys_distinct(self.storage@)) by {
                                    assert forall|i: int, j: int|
                                        #![trigger self.storage@[i], self.storage@[j]]
                                        0 <= i < j < self.storage@.len() implies self.storage@[i].0
                                        != self.storage@[j].0 by {
                                        let o = old(self).storage@;
                                        let x = if i == at { o.len() - 1 } else { i };
                                        let y = if j == at { o.len() - 1 } else { j };
                                        assert(self.storage@[i] == o[x]);
                                        assert(self.storage@[j] == o[y]);
                                    }
                                }
                            }
                            return Some(ProbeEvent::Failed(key.1));
                        }
                        self.storage[at] = (
                            key,
                            State::Incomplete {
                                probes_sent: probes_sent + 1,
                                retrans_at: timestamp.after(retrans_timer()),
                            },
                        );
                        *cursor = at + 1;
                        return Some(ProbeEvent::Retransmit(key.1));
                    }
                },
                State::Reachable { .. } => {},
            }
            *cursor = at + 1;
        }
        None
    }

    /// The earliest retransmission timer in the cache, if any.
    pub fn poll_at(&self) -> (r: Option<Instant>)
        ensures
            r == earliest_retrans(self@, self@.len() as int),
    {
        let mut best: Option<Instant> = None;
        let mut i: usize = 0;
        while i < self.storage.len()
            invariant
                i <= self.storage@.len(),
                best == earliest_retrans(self.storage@, i as int),
            decreases self.storage@.len() - i,
        {
            match self.storage[i].1 {
                State::Incomplete { retrans_at, .. } => {
                    best = match best {
                        Some(t) => Some(t.earliest(retrans_at)),
                        None => Some(retrans_at),
                    };
                },
                State::Reachable { .. } => {},
            }
            i += 1;
        }
        best
    }

    /// Extend the entry of a neighbor that was heard from.
    pub fn reset_expiry_if_existing(&mut self, key: Key, source_hardware_addr: EthernetAddress, timestamp: Instant)
        requires
            old(self).wf(),
            time_ok(timestamp),
        ensures
            final(self).wf(),
            final(self)@ == refreshed(old(self)@, key, source_hardware_addr, timestamp),
    {
        if let Some(i) = self.find(&key) {
            if let State::Reachable { hardware_addr, .. } = self.storage[i].1 {
                if source_hardware_addr == hardware_addr {
                    self.storage[i] = (
                        key,
                        State::Reachable { hardware_addr, expires_at: timestamp.after(Self::entry_lifetime()) },
                    );
                }
            }
        }
    }

    /// Learn a neighbor's hardware address.
    pub fn fill(&mut self, key: Key, hardware_addr: EthernetAddress, timestamp: Instant)
        requires
            old(self).wf(),
            key.1.unicast_view(),
            hardware_addr.unicast_view(),
            time_ok(timestamp),
        ensures
            final(self).wf(),
            final(self)@ == filled(old(self)@, key, hardware_addr, timestamp),
    {
        let expires_at = timestamp.after(Self::entry_lifetime());
        self.fill_with_expiration(key, hardware_addr, expires_at);
    }

    /// Learn a neighbor's hardware address, valid until `expires_at`.
    pub fn fill_with_expiration(&mut self, key: Key, hardware_addr: EthernetAddress, expires_at: Instant)
        requires
            old(self).wf(),
            key.1.unicast_view(),
            hardware_addr.unicast_view(),
        ensures
            final(self).wf(),
            final(self)@ == inserted(old(self)@, key, State::Reachable { hardware_addr, expires_at }),
    {
        self.insert(key, State::Reachable { hardware_addr, expires_at });
    }

    /// Remove all entries for the given interface.
    pub fn purge_iface(&mut self, iface: IfaceHandle)
        requires
            old(self).wf(),
        ensures
            final(self).wf(),
            final(self)@ == without_iface(old(self)@, iface),
    {
        let mut kept: Vec<(Key, State)> = Vec::new();
        let mut i: usize = 0;
        while i < self.storage.len()
            invariant
                i <= self.storage@.len(),
                self.storage@ == old(self).storage@,
                kept@ == without_iface(self.storage@.take(i as int), iface),
            decreases self.storage@.len() - i,
        {
            let entry = self.storage[i];
            proof {
                lemma_filter_step(self.storage@, off_iface(iface), i as int);
            }
            if entry.0.0.0 != iface.0 {
                kept.push(entry);
            }
            i += 1;
        }
        assert(self.storage@.take(i as int) =~= self.storage@);
        proof {
            lemma_without_iface_ok(old(self).storage@, iface);
        }
        self.storage = kept;
    }

    /// Remove all entries.
    pub fn flush(&mut self)
        ensures
            final(self).wf(),
            final(self)@ == Entries::empty(),
    {
        self.storage.clear();
    }

    fn insert(&mut self, key: Key, state: State)
        requires
            old(self).wf(),
        ensures
            final(self).wf(),
            final(self)@ == inserted(old(self)@, key, state),
    {
        proof {
            law_insert_keeps_cache_ok(self@, key, state);
        }
        if let Some(i) = self.find(&key) {
            self.storage[i] = (key, state);
        } else if self.storage.len() < NEIGHBOR_CACHE_COUNT {
            self.storage.push((key, state));
        } else {
            // The cache is full, and we need to evict an entry. Prefer evicting
            // resolved entries: evicting an in-progress resolution would strand the
            // packets queued on it.
            let mut v: usize = 0;
            let mut i: usize = 1;
            proof {
                assert(self.storage@.take(1) =~= seq![self.storage@[0]]);
            }
            while i < self.storage.len()
                invariant
                    1 <= i <= self.storage@.len(),
                    self.storage@ == old(self).storage@,
                    is_victim(self.storage@.take(i as int), v as int),
                decreases self.storage@.len() - i,
            {
                let ghost p = self.storage@.take(i as int);
                let ghost s = self.storage@.take(i + 1);
                proof {
                    assert(forall|j: int| 0 <= j < i ==> #[trigger] s[j] == p[j]);
                    assert(s[i as int] == self.storage@[i as int]);
                    assert forall|j: int| 0 <= j < i implies !evict_before((#[trigger] s[j]).1, s[v as int].1) by {
                        assert(!evict_before(p[j].1, p[v as int].1));
                    }
                    assert forall|j: int| 0 <= j < v implies evict_before(s[v as int].1, (#[trigger] s[j]).1) by {
                        assert(evict_before(p[v as int].1, p[j].1));
                    }
                }
                if goes_before(&self.storage[i].1, &self.storage[v].1) {
                    v = i;
                }
                i += 1;
            }
            assert(self.storage@.take(i as int) =~= self.storage@);
            proof {
                lemma_victim_unique(self.storage@, v as int);
            }
            self.storage[v] = (key, state);
        }
    }

    fn find(&self, key: &Key) -> (r: Option<usize>)
        ensures
            (match r {
                Some(i) => Some(i as int),
                None => None,
            }) == entry_of(self@, *key),
            r matches Some(i) ==> i < self@.len() && self@[i as int].0 == *key,
    {
        let mut i: usize = 0;
        while i < self.storage.len()
            invariant
                i <= self.storage@.len(),
                entry_from(self.storage@, *key, i as int) == entry_of(self.storage@, *key),
            decreases self.storage@.len() - i,
        {
            if same_key(&self.storage[i].0, key) {
                return Some(i);
            }
            i += 1;
        }
        None
    }
}

/// The earliest retransmission timer among the first `n` entries.
pub open spec fn earliest_retrans(entries: Entries, n: int) -> Option<Instant>
    decreases n,
{
    if n <= 0 {
        None
    } else {
        let rest = earliest_retrans(entries, n - 1);
        match entries[n - 1].1 {
            State::Incomplete { retrans_at, .. } => match rest {
                Some(t) => Some(t.earlier(retrans_at)),
                None => Some(retrans_at),
            },
            State::Reachable { .. } => rest,
        }
    }
}

/// The earliest retransmission timer is one of the timers, and no timer ends
/// before it.
pub proof fn law_earliest_retrans_is_minimum(entries: Entries, n: int, i: int)
    requires
        0 <= i < n <= entries.len(),
        entries[i].1 is Incomplete,
    ensures
        earliest_retrans(entries, n) is Some,
        earliest_retrans(entries, n)->0.micros <= entries[i].1->retrans_at.micros,
        exists|j: int|
            0 <= j < n && (#[trigger] entries[j]).1 is Incomplete && entries[j].1->retrans_at
                == earliest_retrans(entries, n)->0,
    decreases n,
{
    let t = earliest_retrans(entries, n)->0;
    if i < n - 1 {
        law_earliest_retrans_is_minimum(entries, n - 1, i);
        let r = earliest_retrans(entries, n - 1)->0;
        let j = choose|j: int|
            0 <= j < n - 1 && (#[trigger] entries[j]).1 is Incomplete && entries[j].1->retrans_at == r;
        if t == r {
            assert(entries[j].1->retrans_at == t);
        } else {
            assert(entries[n - 1].1->retrans_at == t);
        }
    } else {
        match earliest_retrans(entries, n - 1) {
            Some(r) => {
                lemma_earliest_retrans_source(entries, n - 1);
                let j = choose|j: int|
                    0 <= j < n - 1 && (#[trigger] entries[j]).1 is Incomplete && entries[j].1->retrans_at == r;
                if t == r {
                    assert(entries[j].1->retrans_at == t);
                } else {
                    assert(entries[n - 1].1->retrans_at == t);
                }
            },
            None => {
                assert(entries[n - 1].1->retrans_at == t);
            },
        }
    }
}

/// The earliest retransmission timer is one of the timers.
pub proof fn lemma_earliest_retrans_source(entries: Entries, n: int)
    requires
        0 <= n <= entries.len(),
        earliest_retrans(entries, n) is Some,
    ensures
        exists|j: int|
            0 <= j < n && (#[trigger] entries[j]).1 is Incomplete && entries[j].1->retrans_at
                == earliest_retrans(entries, n)->0,
    decreases n,
{
    let t = earliest_retrans(entries, n)->0;
    if earliest_retrans(entries, n - 1) == Some(t) {
        lemma_earliest_retrans_source(entries, n - 1);
        let j = choose|j: int|
            0 <= j < n - 1 && (#[trigger] entries[j]).1 is Incomplete && entries[j].1->retrans_at == t;
        assert(entries[j].1->retrans_at == t);
    } else {
        assert(entries[n - 1].1->retrans_at == t);
    }
}

/// Whether an entry belongs to another interface.
pub open spec fn off_iface(iface: IfaceHandle) -> spec_fn((Key, State)) -> bool {
    |e: (Key, State)| e.0.0 != iface
}

/// The entries of every interface but one.
pub open spec fn without_iface(entries: Entries, iface: IfaceHandle) -> Entries {
    entries.filter(off_iface(iface))
}

fn goes_before(a: &State, b: &State) -> (r: bool)
    ensures
        r == evict_before(*a, *b),
{
    match (a, b) {
        (State::Reachable { expires_at: x, .. }, State::Reachable { expires_at: y, .. }) => x.micros < y.micros,
        (State::Reachable { .. }, State::Incomplete { .. }) => true,
        (State::Incomplete { .. }, State::Reachable { .. }) => false,
        (State::Incomplete { retrans_at: x, .. }, State::Incomplete { retrans_at: y, .. }) => x.micros < y.micros,
    }
}

/// Filtering one more item appends it if it passes.
pub proof fn lemma_filter_step<A>(s: Seq<A>, pred: spec_fn(A) -> bool, i: int)
    requires
        0 <= i < s.len(),
    ensures
        s.take(i + 1).filter(pred) == if pred(s[i]) {
            s.take(i).filter(pred).push(s[i])
        } else {
            s.take(i).filter(pred)
        },
{
    reveal(Seq::filter);
    assert(s.take(i + 1).drop_last() =~= s.take(i));
    assert(s.take(i + 1).last() == s[i]);
}

/// Filtering keeps a cache bounded and its keys distinct.
proof fn lemma_without_iface_ok(entries: Entries, iface: IfaceHandle)
    requires
        entries_ok(entries),
    ensures
        entries_ok(without_iface(entries, iface)),
        forall|i: int|
            0 <= i < without_iface(entries, iface).len() ==> entries.contains(
                #[trigger] without_iface(entries, iface)[i],
            ) && without_iface(entries, iface)[i].0.0 != iface,
    decreases entries.len(),
{
    reveal(Seq::filter);
    let f = off_iface(iface);
    if entries.len() > 0 {
        let p = entries.drop_last();
        lemma_without_iface_ok(p, iface);
        let q = p.filter(f);
        assert forall|i: int| 0 <= i < q.len() implies entries.contains(#[trigger] q[i]) by {
            assert(p.contains(q[i]));
            let k = choose|k: int| 0 <= k < p.len() && p[k] == q[i];
            assert(entries[k] == q[i]);
        }
        assert(q.len() <= p.len()) by {
            p.lemma_filter_len(f);
        }
        if f(entries.last()) {
            let r = q.push(entries.last());
            assert(without_iface(entries, iface) == r);
            assert forall|i: int| 0 <= i < q.len() implies q[i].0 != entries.last().0 by {
                assert(p.contains(q[i]));
                let k = choose|k: int| 0 <= k < p.len() && p[k] == q[i];
                assert(entries[k] == q[i]);
                assert(entries[entries.len() - 1] == entries.last());
            }
            assert(entries.contains(entries.last())) by {
                assert(entries[entries.len() - 1] == entries.last());
            }
        }
    }
}

/// Every item that passes a filter was there before.
pub proof fn lemma_filter_subset<A>(s: Seq<A>, pred: spec_fn(A) -> bool)
    ensures
        forall|i: int| 0 <= i < s.filter(pred).len() ==> s.contains(#[trigger] s.filter(pred)[i]),
        s.filter(pred).len() <= s.len(),
    decreases s.len(),
{
    reveal(Seq::filter);
    if s.len() > 0 {
        let p = s.drop_last();
        lemma_filter_subset(p, pred);
        assert forall|i: int| 0 <= i < s.filter(pred).len() implies s.contains(#[trigger] s.filter(pred)[i]) by {
            if i < p.filter(pred).len() {
                assert(p.contains(p.filter(pred)[i]));
                let k = choose|k: int| 0 <= k < p.len() && p[k] == p.filter(pred)[i];
                assert(s[k] == p[k]);
            } else {
                assert(s[s.len() - 1] == s.last());
            }
        }
    }
}

/// What holds of every neighbor, and of the one stored, holds of every neighbor
/// afterwards.
pub proof fn lemma_inserted_all(entries: Entries, key: Key, state: State, pred: spec_fn(Key) -> bool)
    requires
        pred(key),
        forall|i: int| 0 <= i < entries.len() ==> pred((#[trigger] entries[i]).0),
    ensures
        forall|i: int|
            0 <= i < inserted(entries, key, state).len() ==> pred((#[trigger] inserted(entries, key, state)[i]).0),
{
    lemma_entry_of(entries, key);
    if entry_of(entries, key) is None && entries.len() >= NEIGHBOR_CACHE_COUNT {
        let v = lemma_victim_exists(entries, entries.len() as int);
        assert(entries.take(entries.len() as int) =~= entries);
        lemma_victim_unique(entries, v);
    }
}

/// What holds of every neighbor holds of every neighbor after one step of a timer
/// scan.
pub proof fn lemma_timer_step_all(
    entries: Entries,
    iface: IfaceHandle,
    now: Instant,
    cursor: int,
    pred: spec_fn(Key) -> bool,
)
    requires
        0 <= cursor,
        forall|i: int| 0 <= i < entries.len() ==> pred((#[trigger] entries[i]).0),
    ensures
        ({
            let step = timer_step(entries, iface, now, cursor);
            &&& forall|i: int| 0 <= i < step.entries.len() ==> pred((#[trigger] step.entries[i]).0)
            &&& step.event matches Some(event) ==> pred(
                (
                    iface,
                    match event {
                        ProbeEvent::Retransmit(addr) => addr,
                        ProbeEvent::Failed(addr) => addr,
                    },
                ),
            )
        }),
{
    lemma_first_due(entries, iface, now, cursor);
    let due = first_due(entries, iface, now, cursor);
    if due < entries.len() {
        assert(pred(entries[due].0));
        assert(entries[due].0 == (iface, entries[due].0.1));
        assert(entries.last() == entries[entries.len() - 1]);
    }
}

} // verus!
