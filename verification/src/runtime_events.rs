//! The bounded, process-local runtime event model: semantic process and window scopes,
//! the lifecycle events that invalidate caches and views, and the drop-oldest event bus
//! that consumers read with a monotonic cursor.
use std::collections::VecDeque;
use vstd::prelude::*;

use crate::model::ProcessId;
use crate::text::{
    bounded_text, bounded_text_spec, concat, decimal, decimal_text, normalize, normalized, owned,
    text_eq,
};

verus! {

/// Runtime invalidation is deliberately small: enough history to bridge short
/// producer/consumer gaps without turning desktop state into an event log.
pub const RUNTIME_EVENT_CAPACITY: usize = 128;

/// A process identified by application name, process id and process generation.
#[derive(Clone, Debug, PartialEq, Eq)]
pub struct RuntimeProcessScope {
    app: String,
    pid: ProcessId,
    process_instance: String,
}

/// The plain values of a process scope.
pub struct ProcessScopeView {
    pub app: Seq<char>,
    pub pid: u32,
    pub process_instance: Seq<char>,
}

impl View for RuntimeProcessScope {
    type V = ProcessScopeView;

    closed spec fn view(&self) -> ProcessScopeView {
        ProcessScopeView {
            app: self.app@,
            pid: self.pid.spec_get(),
            process_instance: self.process_instance@,
        }
    }
}

/// A process scope only ever holds bounded texts and a non-zero pid.
pub open spec fn process_scope_ok(p: ProcessScopeView) -> bool {
    bounded_text_spec(p.app) && bounded_text_spec(p.process_instance) && p.pid != 0
}

impl RuntimeProcessScope {
    /// A scope, when both texts are bounded (non-empty, at most 256 UTF-8 bytes) and the
    /// pid is not zero.
    pub fn new(app: &str, pid: ProcessId, process_instance: &str) -> (r: Option<Self>)
        ensures
            r is Some <==> (bounded_text_spec(app@) && bounded_text_spec(process_instance@)
                && pid.spec_get() != 0),
            r matches Some(s) ==> s@ == (ProcessScopeView {
                app: app@,
                pid: pid.spec_get(),
                process_instance: process_instance@,
            }),
    {
        if !bounded_text(app) || !bounded_text(process_instance) || pid.get() == 0 {
            return None;
        }
        Some(RuntimeProcessScope { app: owned(app), pid, process_instance: owned(process_instance) })
    }

    /// The application name.
    pub fn app(&self) -> (r: &str)
        ensures
            r@ == self@.app,
    {
        self.app.as_str()
    }

    /// The process id.
    pub fn pid(&self) -> (r: ProcessId)
        ensures
            r.spec_get() == self@.pid,
    {
        self.pid
    }

    /// The process generation token.
    pub fn process_instance(&self) -> (r: &str)
        ensures
            r@ == self@.process_instance,
    {
        self.process_instance.as_str()
    }

    /// A copy with the same values.
    pub fn duplicate(&self) -> (r: Self)
        ensures
            r@ == self@,
    {
        RuntimeProcessScope {
            app: self.app.clone(),
            pid: self.pid,
            process_instance: self.process_instance.clone(),
        }
    }

    /// Whether two scopes hold the same values.
    pub fn same(&self, other: &Self) -> (r: bool)
        ensures
            r == (self@ == other@),
    {
        text_eq(self.app.as_str(), other.app.as_str()) && self.pid.get() == other.pid.get()
            && text_eq(self.process_instance.as_str(), other.process_instance.as_str())
    }
}

/// A window identified by its process scope and title; never by a native handle.
#[derive(Clone, Debug, PartialEq, Eq)]
pub struct RuntimeWindowScope {
    process: RuntimeProcessScope,
    title: String,
}

/// The plain values of a window scope.
pub struct WindowScopeView {
    pub process: ProcessScopeView,
    pub title: Seq<char>,
}

impl View for RuntimeWindowScope {
    type V = WindowScopeView;

    closed spec fn view(&self) -> WindowScopeView {
        WindowScopeView { process: self.process@, title: self.title@ }
    }
}

/// A window scope only ever holds a valid process scope and a bounded title.
pub open spec fn window_scope_ok(w: WindowScopeView) -> bool {
    process_scope_ok(w.process) && bounded_text_spec(w.title)
}

impl RuntimeWindowScope {
    /// A scope, when the title is bounded.
    pub fn new(process: RuntimeProcessScope, title: &str) -> (r: Option<Self>)
        ensures
            r is Some <==> bounded_text_spec(title@),
            r matches Some(s) ==> s@ == (WindowScopeView { process: process@, title: title@ }),
    {
        if !bounded_text(title) {
            return None;
        }
        Some(RuntimeWindowScope { process, title: owned(title) })
    }

    /// The owning process scope.
    pub fn process(&self) -> (r: &RuntimeProcessScope)
        ensures
            r@ == self@.process,
    {
        &self.process
    }

    /// The window title.
    pub fn title(&self) -> (r: &str)
        ensures
            r@ == self@.title,
    {
        self.title.as_str()
    }

    /// A copy with the same values.
    pub fn duplicate(&self) -> (r: Self)
        ensures
            r@ == self@,
    {
        RuntimeWindowScope { process: self.process.duplicate(), title: self.title.clone() }
    }

    /// Whether two scopes hold the same values.
    pub fn same(&self, other: &Self) -> (r: bool)
        ensures
            r == (self@ == other@),
    {
        self.process.same(&other.process) && text_eq(self.title.as_str(), other.title.as_str())
    }
}

/// A semantic lifecycle event that invalidates cached desktop knowledge.
#[allow(inconsistent_fields)]
#[derive(Clone, Debug, PartialEq, Eq)]
pub enum RuntimeEvent {
    ProcessStarted { current: RuntimeProcessScope },
    ProcessReplaced { previous: RuntimeProcessScope, current: RuntimeProcessScope },
    ProcessExited { previous: RuntimeProcessScope },
    WindowCreated { current: RuntimeWindowScope },
    WindowDestroyed { previous: RuntimeWindowScope },
    WindowGenerationChanged { previous: RuntimeWindowScope, current: RuntimeWindowScope },
    AccessibilityTreeInvalidated { process: RuntimeProcessScope },
    /// Conservative fallback for a provider/session reset or for a native
    /// notification that cannot be represented inside the bounded semantic
    /// event model.
    ProviderReset,
}

/// The plain values of a runtime event.
#[allow(inconsistent_fields)]
pub enum EventView {
    ProcessStarted { current: ProcessScopeView },
    ProcessReplaced { previous: ProcessScopeView, current: ProcessScopeView },
    ProcessExited { previous: ProcessScopeView },
    WindowCreated { current: WindowScopeView },
    WindowDestroyed { previous: WindowScopeView },
    WindowGenerationChanged { previous: WindowScopeView, current: WindowScopeView },
    AccessibilityTreeInvalidated { process: ProcessScopeView },
    ProviderReset,
}

impl View for RuntimeEvent {
    type V = EventView;

    open spec fn view(&self) -> EventView {
        match self {
            RuntimeEvent::ProcessStarted { current } => EventView::ProcessStarted {
                current: current@,
            },
            RuntimeEvent::ProcessReplaced { previous, current } => EventView::ProcessReplaced {
                previous: previous@,
                current: current@,
            },
            RuntimeEvent::ProcessExited { previous } => EventView::ProcessExited {
                previous: previous@,
            },
            RuntimeEvent::WindowCreated { current } => EventView::WindowCreated {
                current: current@,
            },
            RuntimeEvent::WindowDestroyed { previous } => EventView::WindowDestroyed {
                previous: previous@,
            },
            RuntimeEvent::WindowGenerationChanged { previous, current } =>
                EventView::WindowGenerationChanged { previous: previous@, current: current@ },
            RuntimeEvent::AccessibilityTreeInvalidated { process } =>
                EventView::AccessibilityTreeInvalidated { process: process@ },
            RuntimeEvent::ProviderReset => EventView::ProviderReset,
        }
    }
}

/// Every scope inside an event is bounded.
pub open spec fn event_ok(e: EventView) -> bool {
    match e {
        EventView::ProcessStarted { current } => process_scope_ok(current),
        EventView::ProcessReplaced { previous, current } => process_scope_ok(previous)
            && process_scope_ok(current),
        EventView::ProcessExited { previous } => process_scope_ok(previous),
        EventView::WindowCreated { current } => window_scope_ok(current),
        EventView::WindowDestroyed { previous } => window_scope_ok(previous),
        EventView::WindowGenerationChanged { previous, current } => window_scope_ok(previous)
            && window_scope_ok(current),
        EventView::AccessibilityTreeInvalidated { process } => process_scope_ok(process),
        EventView::ProviderReset => true,
    }
}

impl RuntimeEvent {
    /// A copy with the same values.
    pub fn duplicate(&self) -> (r: Self)
        ensures
            r@ == self@,
    {
        match self {
            RuntimeEvent::ProcessStarted { current } => RuntimeEvent::ProcessStarted {
                current: current.duplicate(),
            },
            RuntimeEvent::ProcessReplaced { previous, current } => RuntimeEvent::ProcessReplaced {
                previous: previous.duplicate(),
                current: current.duplicate(),
            },
            RuntimeEvent::ProcessExited { previous } => RuntimeEvent::ProcessExited {
                previous: previous.duplicate(),
            },
            RuntimeEvent::WindowCreated { current } => RuntimeEvent::WindowCreated {
                current: current.duplicate(),
            },
            RuntimeEvent::WindowDestroyed { previous } => RuntimeEvent::WindowDestroyed {
                previous: previous.duplicate(),
            },
            RuntimeEvent::WindowGenerationChanged { previous, current } =>
                RuntimeEvent::WindowGenerationChanged {
                previous: previous.duplicate(),
                current: current.duplicate(),
            },
            RuntimeEvent::AccessibilityTreeInvalidated { process } =>
                RuntimeEvent::AccessibilityTreeInvalidated { process: process.duplicate() },
            RuntimeEvent::ProviderReset => RuntimeEvent::ProviderReset,
        }
    }

    /// Whether two events hold the same values.
    pub fn same(&self, other: &Self) -> (r: bool)
        ensures
            r == (self@ == other@),
    {
        match (self, other) {
            (
                RuntimeEvent::ProcessStarted { current: a },
                RuntimeEvent::ProcessStarted { current: b },
            ) => a.same(b),
            (
                RuntimeEvent::ProcessReplaced { previous: a, current: c },
                RuntimeEvent::ProcessReplaced { previous: b, current: d },
            ) => a.same(b) && c.same(d),
            (
                RuntimeEvent::ProcessExited { previous: a },
                RuntimeEvent::ProcessExited { previous: b },
            ) => a.same(b),
            (
                RuntimeEvent::WindowCreated { current: a },
                RuntimeEvent::WindowCreated { current: b },
            ) => a.same(b),
            (
                RuntimeEvent::WindowDestroyed { previous: a },
                RuntimeEvent::WindowDestroyed { previous: b },
            ) => a.same(b),
            (
                RuntimeEvent::WindowGenerationChanged { previous: a, current: c },
                RuntimeEvent::WindowGenerationChanged { previous: b, current: d },
            ) => a.same(b) && c.same(d),
            (
                RuntimeEvent::AccessibilityTreeInvalidated { process: a },
                RuntimeEvent::AccessibilityTreeInvalidated { process: b },
            ) => a.same(b),
            (RuntimeEvent::ProviderReset, RuntimeEvent::ProviderReset) => true,
            _ => false,
        }
    }
}


/// The ordering key of a process scope: `normalize(app)|pid|process_instance`.
pub open spec fn process_key_text(p: ProcessScopeView) -> Seq<char> {
    normalized(p.app) + "|"@ + decimal(p.pid as nat) + "|"@ + p.process_instance
}

/// The ordering key of a window scope: `process_key|normalize(title)`.
pub open spec fn window_key_text(w: WindowScopeView) -> Seq<char> {
    process_key_text(w.process) + "|"@ + normalized(w.title)
}

/// The rank of an event kind in the deterministic event order: exits and replacements
/// first, then window teardown, tree invalidation, creations, starts, and resets last.
pub open spec fn event_rank(e: EventView) -> u8 {
    match e {
        EventView::ProcessExited { .. } => 0,
        EventView::ProcessReplaced { .. } => 1,
        EventView::WindowDestroyed { .. } => 2,
        EventView::WindowGenerationChanged { .. } => 3,
        EventView::AccessibilityTreeInvalidated { .. } => 4,
        EventView::WindowCreated { .. } => 5,
        EventView::ProcessStarted { .. } => 6,
        EventView::ProviderReset => 7,
    }
}

/// The text part of an event's ordering key: the key of the scope the event is about.
pub open spec fn event_key_text(e: EventView) -> Seq<char> {
    match e {
        EventView::ProcessExited { previous } => process_key_text(previous),
        EventView::ProcessReplaced { previous, .. } => process_key_text(previous),
        EventView::WindowDestroyed { previous } => window_key_text(previous),
        EventView::WindowGenerationChanged { previous, .. } => window_key_text(previous),
        EventView::AccessibilityTreeInvalidated { process } => process_key_text(process),
        EventView::WindowCreated { current } => window_key_text(current),
        EventView::ProcessStarted { current } => process_key_text(current),
        EventView::ProviderReset => seq![],
    }
}

/// `format!("{}|{}|{}", normalize(app), pid, process_instance)`.
pub fn process_key(scope: &RuntimeProcessScope) -> (r: String)
    ensures
        r@ == process_key_text(scope@),
{
    let a = normalize(scope.app());
    let b = concat(a.as_str(), "|");
    let pid = decimal_text(scope.pid().get() as u64);
    let c = concat(b.as_str(), pid.as_str());
    let d = concat(c.as_str(), "|");
    concat(d.as_str(), scope.process_instance())
}

/// `format!("{}|{}", process_key(process), normalize(title))`.
pub fn window_key(scope: &RuntimeWindowScope) -> (r: String)
    ensures
        r@ == window_key_text(scope@),
{
    let p = process_key(scope.process());
    let b = concat(p.as_str(), "|");
    let t = normalize(scope.title());
    concat(b.as_str(), t.as_str())
}

impl RuntimeEvent {
    /// The deterministic ordering key `(rank, scope key)` of an event.
    pub fn sort_key(&self) -> (r: (u8, String))
        ensures
            r.0 == event_rank(self@),
            r.1@ == event_key_text(self@),
    {
        match self {
            RuntimeEvent::ProcessExited { previous } => (0, process_key(previous)),
            RuntimeEvent::ProcessReplaced { previous, .. } => (1, process_key(previous)),
            RuntimeEvent::WindowDestroyed { previous } => (2, window_key(previous)),
            RuntimeEvent::WindowGenerationChanged { previous, .. } => (3, window_key(previous)),
            RuntimeEvent::AccessibilityTreeInvalidated { process } => (4, process_key(process)),
            RuntimeEvent::WindowCreated { current } => (5, window_key(current)),
            RuntimeEvent::ProcessStarted { current } => (6, process_key(current)),
            RuntimeEvent::ProviderReset => {
                let empty = String::new();
                assert(empty@ =~= Seq::<char>::empty());
                (7, empty)
            },
        }
    }
}

/// The views of a list of events.
pub open spec fn event_views(s: Seq<RuntimeEvent>) -> Seq<EventView> {
    s.map_values(|e: RuntimeEvent| e@)
}

/// `x` capped at `u64::MAX`: the value a saturating `u64` counter holds after `x` steps.
pub open spec fn sat(x: int) -> int {
    if x < u64::MAX {
        x
    } else {
        u64::MAX as int
    }
}

/// A consumer position: the sequence number of the last event already seen.
#[derive(Clone, Copy, Debug, Default, Eq, PartialEq)]
pub struct RuntimeEventCursor(u64);

impl RuntimeEventCursor {
    /// The sequence number of the last event this cursor has seen.
    pub closed spec fn spec_position(&self) -> u64 {
        self.0
    }

    /// The sequence number of the last event this cursor has seen.
    pub fn position(&self) -> (r: u64)
        ensures
            r == self.spec_position(),
    {
        self.0
    }

    /// A cursor at a given sequence number.
    pub fn at(position: u64) -> (r: Self)
        ensures
            r.spec_position() == position,
    {
        RuntimeEventCursor(position)
    }
}

/// Deterministic counters of the bus.
#[derive(Clone, Copy, Debug, Default, Eq, PartialEq)]
pub struct RuntimeEventMetrics {
    pub capacity: usize,
    pub depth: usize,
    pub max_depth: usize,
    pub published: u64,
    pub dropped: u64,
}

/// What a consumer reads: the retained events newer than its cursor, the new cursor,
/// whether history it had not seen was lost, and the bus counters.
#[derive(Clone, Debug)]
pub struct RuntimeEventBatch {
    pub events: Vec<RuntimeEvent>,
    pub cursor: RuntimeEventCursor,
    pub overflowed: bool,
    pub metrics: RuntimeEventMetrics,
}

struct Envelope {
    sequence: u64,
    event: RuntimeEvent,
}

/// The plain values of a bus: its capacity, counters, the retained
/// `(sequence, event)` pairs, and (ghost) every event ever published, oldest first.
pub struct BusView {
    pub capacity: nat,
    pub next_sequence: u64,
    pub retained: Seq<(u64, EventView)>,
    pub published: u64,
    pub dropped: u64,
    pub max_depth: nat,
    pub history: Seq<EventView>,
}

/// The bus invariant over plain values: it retains the newest `min(n, capacity)` of the
/// `n` published events, numbered `1..=n` (saturating at `u64::MAX`), and its counters
/// agree with that history.
pub open spec fn bus_inv(v: BusView) -> bool {
    let n = v.history.len() as int;
    let r = v.retained.len() as int;
    &&& v.capacity >= 1
    &&& v.capacity <= usize::MAX
    &&& r == if n < v.capacity { n } else { v.capacity as int }
    &&& v.published == sat(n)
    &&& v.next_sequence == sat(n + 1)
    &&& v.dropped == sat(n - r)
    &&& r <= v.max_depth <= v.capacity
    &&& forall|i: int|
        0 <= i < r ==> #[trigger] v.retained[i].0 == sat(n - r + i + 1) && v.retained[i].1
            == v.history[n - r + i]
}

/// The events of `(sequence, event)` pairs whose sequence is above `c`, in order.
pub open spec fn events_after(s: Seq<(u64, EventView)>, c: u64) -> Seq<EventView>
    decreases s.len(),
{
    if s.len() == 0 {
        seq![]
    } else {
        let rest = events_after(s.drop_last(), c);
        if s.last().0 > c {
            rest.push(s.last().1)
        } else {
            rest
        }
    }
}

/// The cursor a bus hands out: the sequence number of its newest event.
pub open spec fn tail_position(v: BusView) -> u64 {
    if v.next_sequence >= 1 {
        (v.next_sequence - 1) as u64
    } else {
        0
    }
}

/// Whether a read from cursor `c` must report lost history: the cursor is ahead of the
/// bus, or the oldest retained event is newer than the first event the cursor has not seen.
pub open spec fn read_overflows(v: BusView, c: u64) -> bool {
    c > tail_position(v) || (v.retained.len() > 0 && sat(c + 1) < v.retained[0].0)
}

/// The counters of a bus.
pub open spec fn metrics_of(v: BusView) -> RuntimeEventMetrics {
    RuntimeEventMetrics {
        capacity: v.capacity as usize,
        depth: v.retained.len() as usize,
        max_depth: v.max_depth as usize,
        published: v.published,
        dropped: v.dropped,
    }
}

/// The bus after one more event is published: when full, the oldest retained event is
/// dropped (and counted); the event is appended with the next sequence number.
pub open spec fn after_publish(v: BusView, e: EventView) -> BusView {
    let full = v.retained.len() == v.capacity;
    BusView {
        capacity: v.capacity,
        next_sequence: sat(v.next_sequence + 1) as u64,
        retained: (if full {
            v.retained.drop_first()
        } else {
            v.retained
        }).push((v.next_sequence, e)),
        published: sat(v.published + 1) as u64,
        dropped: if full {
            sat(v.dropped + 1) as u64
        } else {
            v.dropped
        },
        max_depth: if full {
            v.max_depth
        } else if v.max_depth > v.retained.len() + 1 {
            v.max_depth
        } else {
            v.retained.len() + 1
        },
        history: v.history.push(e),
    }
}

/// A bounded drop-oldest queue of runtime events, read through monotonic cursors.
pub struct RuntimeEventBus {
    capacity: usize,
    next_sequence: u64,
    retained: VecDeque<Envelope>,
    published: u64,
    dropped: u64,
    max_depth: usize,
    history: Ghost<Seq<EventView>>,
}

impl View for RuntimeEventBus {
    type V = BusView;

    closed spec fn view(&self) -> BusView {
        BusView {
            capacity: self.capacity as nat,
            next_sequence: self.next_sequence,
            retained: self.retained@.map_values(|e: Envelope| (e.sequence, e.event@)),
            published: self.published,
            dropped: self.dropped,
            max_depth: self.max_depth as nat,
            history: self.history@,
        }
    }
}

impl RuntimeEventBus {
    /// The bus invariant.
    pub open spec fn wf(&self) -> bool {
        bus_inv(self@)
    }

    /// An empty bus; a capacity of zero is raised to one.
    pub fn new(capacity: usize) -> (r: Self)
        ensures
            r.wf(),
            r@.capacity == if capacity >= 1 { capacity as nat } else { 1 },
            r@.history.len() == 0,
            r@.retained.len() == 0,
            r@.max_depth == 0,
    {
        let capacity = if capacity >= 1 { capacity } else { 1 };
        let r = RuntimeEventBus {
            capacity,
            next_sequence: 1,
            retained: VecDeque::new(),
            published: 0,
            dropped: 0,
            max_depth: 0,
            history: Ghost(Seq::empty()),
        };
        assert(r@.retained =~= Seq::<(u64, EventView)>::empty());
        r
    }

    /// The cursor of the newest event published so far.
    pub fn cursor(&self) -> (r: RuntimeEventCursor)
        requires
            self.wf(),
        ensures
            r.spec_position() == tail_position(self@),
    {
        RuntimeEventCursor(self.next_sequence.saturating_sub(1))
    }

    /// Appends an event, first dropping the oldest retained one when the bus is full.
    #[verifier::spinoff_prover]
    pub fn publish(&mut self, event: RuntimeEvent)
        requires
            old(self).wf(),
        ensures
            final(self).wf(),
            final(self)@ == after_publish(old(self)@, event@),
    {
        let ghost old_view = self@;
        let ghost ev = event@;
        if self.retained.len() == self.capacity {
            let _ = self.retained.pop_front();
            self.dropped = self.dropped.saturating_add(1);
        }
        let sequence = self.next_sequence;
        self.next_sequence = self.next_sequence.saturating_add(1);
        self.published = self.published.saturating_add(1);
        self.retained.push_back(Envelope { sequence, event });
        if self.retained.len() > self.max_depth {
            self.max_depth = self.retained.len();
        }
        self.history = Ghost(self.history@.push(ev));
        proof {
            let kept = if old_view.retained.len() == old_view.capacity {
                old_view.retained.drop_first()
            } else {
                old_view.retained
            };
            assert(self@.retained =~= kept.push((old_view.next_sequence, ev)));
            assert(self@ == after_publish(old_view, ev));
            lemma_after_publish_inv(old_view, ev);
        }
    }

    /// The retained events newer than `cursor`, the current tail cursor, whether the read
    /// lost history, and the counters.
    pub fn read_since(&self, cursor: RuntimeEventCursor) -> (r: RuntimeEventBatch)
        requires
            self.wf(),
        ensures
            event_views(r.events@) == events_after(self@.retained, cursor.spec_position()),
            r.cursor.spec_position() == tail_position(self@),
            r.overflowed == read_overflows(self@, cursor.spec_position()),
            r.metrics == metrics_of(self@),
    {
        let tail = self.cursor();
        let c = cursor.0;
        let overflowed = if c > tail.0 {
            true
        } else if self.retained.len() > 0 {
            c.saturating_add(1) < self.retained[0].sequence
        } else {
            false
        };
        let mut events: Vec<RuntimeEvent> = Vec::new();
        let mut i: usize = 0;
        while i < self.retained.len()
            invariant
                i <= self.retained@.len(),
                self.wf(),
                event_views(events@) == events_after(self@.retained.take(i as int), c),
            decreases self.retained@.len() - i,
        {
            let envelope = &self.retained[i];
            proof {
                assert(self@.retained.take(i + 1).drop_last() =~= self@.retained.take(i as int));
                assert(self@.retained[i as int] == (envelope.sequence, envelope.event@));
            }
            if envelope.sequence > c {
                let copy = envelope.event.duplicate();
                events.push(copy);
                assert(event_views(events@) =~= event_views(events@.drop_last()).push(copy@));
            }
            i = i + 1;
        }
        assert(self@.retained.take(i as int) =~= self@.retained);
        RuntimeEventBatch { events, cursor: tail, overflowed, metrics: self.metrics() }
    }

    /// The bus counters.
    pub fn metrics(&self) -> (r: RuntimeEventMetrics)
        requires
            self.wf(),
        ensures
            r == metrics_of(self@),
    {
        RuntimeEventMetrics {
            capacity: self.capacity,
            depth: self.retained.len(),
            max_depth: self.max_depth,
            published: self.published,
            dropped: self.dropped,
        }
    }
}


proof fn lemma_events_after_consecutive(v: BusView, c: u64, k: int)
    requires
        bus_inv(v),
        v.history.len() + 1 < u64::MAX,
        v.history.len() - v.retained.len() <= c,
        0 <= k <= v.retained.len(),
    ensures
        events_after(v.retained.take(k), c) == if k <= c - (v.history.len() - v.retained.len()) {
            Seq::<EventView>::empty()
        } else {
            v.history.subrange(c as int, v.history.len() - v.retained.len() + k)
        },
    decreases k,
{
    let n = v.history.len() as int;
    let r = v.retained.len() as int;
    if k > 0 {
        lemma_events_after_consecutive(v, c, k - 1);
        assert(v.retained.take(k).drop_last() =~= v.retained.take(k - 1));
        assert(v.retained.take(k).last() == v.retained[k - 1]);
        assert(v.retained[k - 1].0 == sat(n - r + (k - 1) + 1));
        assert(v.retained[k - 1].1 == v.history[n - r + (k - 1)]);
        if k - 1 >= c - (n - r) {
            assert(v.history.subrange(c as int, n - r + k) =~= v.history.subrange(
                c as int,
                n - r + k - 1,
            ).push(v.history[n - r + k - 1]));
        }
    } else {
        assert(v.retained.take(0) =~= Seq::<(u64, EventView)>::empty());
    }
}

/// Publishing keeps the bus invariant and appends the event to the history.
#[verifier::rlimit(60)]
proof fn lemma_after_publish_inv(v: BusView, e: EventView)
    requires
        bus_inv(v),
    ensures
        bus_inv(after_publish(v, e)),
        after_publish(v, e).history == v.history.push(e),
        after_publish(v, e).capacity == v.capacity,
{
    let w = after_publish(v, e);
    let full = v.retained.len() == v.capacity;
    let kept = if full {
        v.retained.drop_first()
    } else {
        v.retained
    };
    assert(w.retained =~= kept.push((v.next_sequence, e)));
    let n = v.history.len() as int;
    let r = v.retained.len() as int;
    let n2 = n + 1;
    let r2 = w.retained.len() as int;
    assert forall|i: int| 0 <= i < w.retained.len() implies #[trigger] w.retained[i].0 == sat(
        w.history.len() - w.retained.len() + i + 1,
    ) && w.retained[i].1 == w.history[w.history.len() - w.retained.len() + i] by {
        assert(w.history.len() == n2 && w.retained.len() == r2);
        if i < r2 - 1 {
            if full {
                assert(w.retained[i] == v.retained[i + 1]);
                assert(v.retained[i + 1].0 == sat(n - r + (i + 1) + 1));
                assert(v.retained[i + 1].1 == v.history[n - r + (i + 1)]);
            } else {
                assert(w.retained[i] == v.retained[i]);
                assert(v.retained[i].0 == sat(n - r + i + 1));
                assert(v.retained[i].1 == v.history[n - r + i]);
            }
        } else {
            assert(w.retained[i] == (v.next_sequence, e));
        }
    }
    assert(w.history.len() == n2);
    assert(w.capacity >= 1);
    assert(r2 == if n2 < w.capacity { n2 } else { w.capacity as int });
    assert(w.published == sat(n2));
    assert(w.next_sequence == sat(n2 + 1));
    assert(w.dropped == sat(n2 - r2));
    assert(r2 <= w.max_depth <= w.capacity);
    assert(w.capacity <= usize::MAX);
    assert(bus_inv(w));
}

/// The bus after publishing events in order.
pub open spec fn after_publishes(v: BusView, es: Seq<EventView>) -> BusView
    decreases es.len(),
{
    if es.len() == 0 {
        v
    } else {
        after_publish(after_publishes(v, es.drop_last()), es.last())
    }
}

proof fn lemma_after_publishes(v: BusView, es: Seq<EventView>)
    requires
        bus_inv(v),
    ensures
        bus_inv(after_publishes(v, es)),
        after_publishes(v, es).history == v.history + es,
        after_publishes(v, es).capacity == v.capacity,
    decreases es.len(),
{
    if es.len() > 0 {
        lemma_after_publishes(v, es.drop_last());
        lemma_after_publish_inv(after_publishes(v, es.drop_last()), es.last());
        assert(v.history + es =~= (v.history + es.drop_last()).push(es.last()));
    } else {
        assert(v.history + es =~= v.history);
    }
}

proof fn lemma_events_after_all(s: Seq<(u64, EventView)>, c: u64)
    requires
        forall|i: int| 0 <= i < s.len() ==> (#[trigger] s[i]).0 > c,
    ensures
        events_after(s, c) == s.map_values(|x: (u64, EventView)| x.1),
    decreases s.len(),
{
    if s.len() > 0 {
        lemma_events_after_all(s.drop_last(), c);
        assert(s.map_values(|x: (u64, EventView)| x.1) =~= s.drop_last().map_values(|x: (u64, EventView)| x.1).push(
            s.last().1,
        ));
    } else {
        assert(s.map_values(|x: (u64, EventView)| x.1) =~= Seq::<EventView>::empty());
    }
}

/// The cursor counts the events ever published: after `k` publishes it has advanced by
/// `k`. A reader at the earlier cursor gets exactly those events, in order and without
/// overflow, when they fit the bus; when more were published than the bus retains, it
/// is told of the overflow and gets the newest `capacity` of them (for a bus whose
/// counters have not saturated).
pub proof fn lemma_reads_after_publishes(v: BusView, es: Seq<EventView>)
    requires
        bus_inv(v),
        v.history.len() + es.len() + 1 < u64::MAX,
    ensures
        ({
            let w = after_publishes(v, es);
            let c = tail_position(v);
            &&& bus_inv(w)
            &&& tail_position(w) == c + es.len()
            &&& es.len() <= v.capacity ==> !read_overflows(w, c) && events_after(w.retained, c) == es
            &&& es.len() > v.capacity ==> read_overflows(w, c) && events_after(w.retained, c) == es.subrange(
                es.len() - v.capacity,
                es.len() as int,
            )
        }),
{
    lemma_after_publishes(v, es);
    let w = after_publishes(v, es);
    let n = v.history.len() as int;
    let k = es.len() as int;
    let c = tail_position(v);
    assert(c == n);
    let big = w.history.len() as int;
    let r = w.retained.len() as int;
    assert(big == n + k);
    lemma_overflow_iff_view(w, c);
    if k <= v.capacity {
        lemma_read_complete_view(w, c);
        assert(w.history.subrange(c as int, big) =~= es);
    } else {
        assert(r == v.capacity);
        assert forall|i: int| 0 <= i < r implies (#[trigger] w.retained[i]).0 > c by {
            assert(w.retained[i].0 == sat(big - r + i + 1));
        }
        lemma_events_after_all(w.retained, c);
        let m = w.retained.map_values(|x: (u64, EventView)| x.1);
        let tail = es.subrange(k - v.capacity, k);
        assert forall|i: int| 0 <= i < r implies #[trigger] m[i] == tail[i] by {
            assert(w.retained[i].1 == w.history[big - r + i]);
            assert(w.history[big - r + i] == es[k - r + i]);
        }
        assert(w.retained.map_values(|x: (u64, EventView)| x.1) =~= es.subrange(k - v.capacity, k));
    }
}


/// One publish advances the cursor by one; a reader at the earlier cursor reads exactly
/// that event without overflow; one more event counts as published, and one as dropped
/// when the bus was full (for an unsaturated bus).
pub proof fn lemma_single_publish(v: BusView, e: EventView)
    requires
        bus_inv(v),
        v.history.len() + 2 < u64::MAX,
    ensures
        ({
            let w = after_publish(v, e);
            &&& bus_inv(w)
            &&& tail_position(w) == tail_position(v) + 1
            &&& !read_overflows(w, tail_position(v))
            &&& events_after(w.retained, tail_position(v)) == seq![e]
            &&& metrics_of(w).published == metrics_of(v).published + 1
            &&& metrics_of(w).dropped == metrics_of(v).dropped + if metrics_of(v).depth == metrics_of(v).capacity {
                1int
            } else {
                0int
            }
        }),
{
    let es = seq![e];
    lemma_reads_after_publishes(v, es);
    assert(es.drop_last() =~= Seq::<EventView>::empty());
    assert(after_publishes(v, Seq::<EventView>::empty()) == v);
    assert(es.last() == e);
    assert(after_publishes(v, es) == after_publish(after_publishes(v, es.drop_last()), es.last()));
    assert(after_publishes(v, es) == after_publish(v, e));
    assert(es.subrange(0, 1) =~= es);
}

/// A reader that is told no history was lost has been handed every event published
/// after its cursor, in publication order (for a bus that has published fewer than
/// `u64::MAX - 1` events, so that its counters have not saturated).
pub proof fn lemma_read_without_overflow_is_complete(bus: RuntimeEventBus, c: u64)
    requires
        bus.wf(),
        bus@.history.len() + 1 < u64::MAX,
        !read_overflows(bus@, c),
    ensures
        c <= bus@.history.len(),
        events_after(bus@.retained, c) == bus@.history.subrange(
            c as int,
            bus@.history.len() as int,
        ),
{
    lemma_read_complete_view(bus@, c);
}

proof fn lemma_read_complete_view(v: BusView, c: u64)
    requires
        bus_inv(v),
        v.history.len() + 1 < u64::MAX,
        !read_overflows(v, c),
    ensures
        c <= v.history.len(),
        events_after(v.retained, c) == v.history.subrange(c as int, v.history.len() as int),
{
    let n = v.history.len() as int;
    let r = v.retained.len() as int;
    if r > 0 {
        assert(v.retained[0].0 == sat(n - r + 0 + 1));
    }
    lemma_events_after_consecutive(v, c, r);
    assert(v.retained.take(r) =~= v.retained);
    if r <= c - (n - r) {
        assert(v.history.subrange(c as int, n) =~= Seq::<EventView>::empty());
    }
}

/// A read reports lost history exactly when its cursor is ahead of the bus or some
/// event published after the cursor is no longer retained (for an unsaturated bus).
pub proof fn lemma_overflow_iff_history_lost(bus: RuntimeEventBus, c: u64)
    requires
        bus.wf(),
        bus@.history.len() + 1 < u64::MAX,
    ensures
        read_overflows(bus@, c) <==> (c > bus@.history.len() || c < bus@.history.len()
            - bus@.retained.len()),
{
    lemma_overflow_iff_view(bus@, c);
}

proof fn lemma_overflow_iff_view(v: BusView, c: u64)
    requires
        bus_inv(v),
        v.history.len() + 1 < u64::MAX,
    ensures
        read_overflows(v, c) <==> (c > v.history.len() || c < v.history.len() - v.retained.len()),
{
    let n = v.history.len() as int;
    let r = v.retained.len() as int;
    if r > 0 {
        assert(v.retained[0].0 == sat(n - r + 0 + 1));
    }
}

/// The counters account for every published event: each is either retained or counted
/// as dropped, and the queue never holds more than its capacity (for an unsaturated bus).
pub proof fn lemma_counters_account_for_every_event(bus: RuntimeEventBus)
    requires
        bus.wf(),
        bus@.history.len() + 1 < u64::MAX,
    ensures
        bus@.published == bus@.retained.len() + bus@.dropped,
        bus@.published == bus@.history.len(),
        bus@.retained.len() <= bus@.max_depth <= bus@.capacity,
        metrics_of(bus@).depth <= metrics_of(bus@).max_depth <= metrics_of(bus@).capacity,
        metrics_of(bus@).published == metrics_of(bus@).dropped + metrics_of(bus@).depth,
        metrics_of(bus@).capacity == bus@.capacity,
{
}


/// The cursor of the newest event on the bus.
pub fn runtime_event_cursor(bus: &RuntimeEventBus) -> (r: RuntimeEventCursor)
    requires
        bus.wf(),
    ensures
        r.spec_position() == tail_position(bus@),
{
    bus.cursor()
}

/// The events published after `cursor` that the bus still retains, with the new cursor,
/// the overflow flag and the counters.
pub fn runtime_events_since(bus: &RuntimeEventBus, cursor: RuntimeEventCursor) -> (r:
    RuntimeEventBatch)
    requires
        bus.wf(),
    ensures
        event_views(r.events@) == events_after(bus@.retained, cursor.spec_position()),
        r.cursor.spec_position() == tail_position(bus@),
        r.overflowed == read_overflows(bus@, cursor.spec_position()),
        r.metrics == metrics_of(bus@),
{
    bus.read_since(cursor)
}

/// The bus counters.
pub fn runtime_event_metrics(bus: &RuntimeEventBus) -> (r: RuntimeEventMetrics)
    requires
        bus.wf(),
    ensures
        r == metrics_of(bus@),
{
    bus.metrics()
}

/// Publishes one event.
pub fn publish_runtime_event(bus: &mut RuntimeEventBus, event: RuntimeEvent)
    requires
        old(bus).wf(),
    ensures
        final(bus).wf(),
        final(bus)@ == after_publish(old(bus)@, event@),
{
    bus.publish(event);
}

} // verus!
