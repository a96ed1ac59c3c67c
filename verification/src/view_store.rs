//! The bounded store of short-lived observation views.
//!
//! A view is observation evidence, never authorization: it is refused once it has
//! expired, once a runtime event has made it stale, or when it belongs to another
//! observation scope. The store keeps at most `capacity` views and evicts the oldest
//! first; it follows the runtime event bus through its own cursor.
use vstd::prelude::*;

use crate::grouping::strictly_sorted;
use crate::model::opt_text;
use crate::refs::copy_opt_text;
use crate::runtime_events::{
    event_views, events_after, metrics_of, read_overflows, sat, tail_position, BusView, EventView,
    RuntimeEvent, RuntimeEventBus, RuntimeEventCursor, RuntimeEventMetrics,
};
use crate::text::{text_eq, utf8_len};
use crate::view_delta::{copy_state, delta_bytes, delta_of, delta_size, diff, same_state, StateDelta};
use crate::view_json::state_text;
use crate::view_state::{
    canonical_windows, event_invalidates_scope, invalidates_scope, is_canonical, listing_entries,
    listing_refusal, parse_view_id, scope_for, scope_of, scope_view, state_keys, state_view,
    valid_view_id, view_id_of, view_id_text, ObservationScope, ScopeArg, StateEntry, StateView,
    ViewErrorKind, WindowListing, MAX_DELTA_BYTES, MAX_DELTA_ENTRIES, MAX_VIEW_STATE_BYTES,
};

verus! {

/// How many views the store keeps.
pub const VIEW_CAPACITY: usize = 64;

/// How long a view lives, in milliseconds.
pub const VIEW_TTL_MS: u64 = 30000;

/// The plain values of an observation scope: command and normalized application.
pub type ScopeView = (Seq<char>, Option<Seq<char>>);

/// The plain values of a stored view.
pub struct ViewSpec {
    pub id: Seq<char>,
    pub generation: u64,
    pub expires_at_ms: u64,
    pub scope: ScopeView,
    pub state: StateView,
    pub parent: Option<Seq<char>>,
    pub invalidated: bool,
}

/// A recorded view: its id, generation, expiry (milliseconds on the caller's monotonic
/// clock), scope, canonical state, parent view and whether an event made it stale.
#[derive(Debug)]
pub struct StoredView {
    pub id: String,
    pub generation: u64,
    pub expires_at_ms: u64,
    pub scope: ObservationScope,
    pub state: Vec<StateEntry>,
    pub parent: Option<String>,
    pub invalidated: bool,
}

impl View for StoredView {
    type V = ViewSpec;

    open spec fn view(&self) -> ViewSpec {
        ViewSpec {
            id: self.id@,
            generation: self.generation,
            expires_at_ms: self.expires_at_ms,
            scope: scope_view(self.scope),
            state: state_view(self.state@),
            parent: opt_text(self.parent),
            invalidated: self.invalidated,
        }
    }
}

impl StoredView {
    /// A copy with the same values.
    pub fn duplicate(&self) -> (r: Self)
        ensures
            r@ == self@,
    {
        StoredView {
            id: self.id.clone(),
            generation: self.generation,
            expires_at_ms: self.expires_at_ms,
            scope: self.scope.duplicate(),
            state: copy_state(&self.state),
            parent: copy_opt_text(&self.parent),
            invalidated: self.invalidated,
        }
    }
}

/// Counters of how runtime events affected the stored views.
#[derive(Clone, Copy, Debug, Default, PartialEq, Eq, Structural)]
pub struct ViewInvalidationMetrics {
    pub events_applied: u64,
    pub views_invalidated: u64,
    pub unrelated_views_retained: u64,
    pub overflow_resets: u64,
}

/// The plain values of a store: capacity, lifetime, id and generation counters, the
/// views (at most one per id), the ids in insertion order, the event cursor and the
/// counters.
pub struct StoreView {
    pub capacity: nat,
    pub ttl_ms: u64,
    pub next_id: u64,
    pub next_generation: u64,
    pub views: Seq<ViewSpec>,
    pub order: Seq<Seq<char>>,
    pub cursor: u64,
    pub event_metrics: RuntimeEventMetrics,
    pub invalidation: ViewInvalidationMetrics,
}

/// No two views share an id.
pub open spec fn ids_unique(vs: Seq<ViewSpec>) -> bool {
    forall|i: int, j: int| 0 <= i < j < vs.len() ==> (#[trigger] vs[i]).id != (#[trigger] vs[j]).id
}

/// The store invariant: a positive capacity, one view per id, every view's id in the
/// insertion order, and every view's state keyed in ascending order.
pub open spec fn store_inv(s: StoreView) -> bool {
    &&& s.capacity >= 1
    &&& ids_unique(s.views)
    &&& forall|i: int| 0 <= i < s.views.len() ==> s.order.contains(#[trigger] s.views[i].id)
    &&& forall|i: int| 0 <= i < s.views.len() ==> strictly_sorted(state_keys(#[trigger] s.views[i].state))
}

/// Whether a view has an id.
pub open spec fn has_id(vs: Seq<ViewSpec>, id: Seq<char>) -> bool {
    exists|i: int| 0 <= i < vs.len() && (#[trigger] vs[i]).id == id
}

/// The position of the view with an id.
pub open spec fn id_index(vs: Seq<ViewSpec>, id: Seq<char>) -> int {
    choose|i: int| 0 <= i < vs.len() && (#[trigger] vs[i]).id == id
}

/// The view with an id, if any.
pub open spec fn lookup(vs: Seq<ViewSpec>, id: Seq<char>) -> Option<ViewSpec> {
    if has_id(vs, id) {
        Some(vs[id_index(vs, id)])
    } else {
        None
    }
}

/// The views without the one with an id.
pub open spec fn remove_id(vs: Seq<ViewSpec>, id: Seq<char>) -> Seq<ViewSpec> {
    if has_id(vs, id) {
        vs.remove(id_index(vs, id))
    } else {
        vs
    }
}

/// The views with `v` stored under its id, replacing a view with the same id.
pub open spec fn upsert(vs: Seq<ViewSpec>, v: ViewSpec) -> Seq<ViewSpec> {
    if has_id(vs, v.id) {
        vs.update(id_index(vs, v.id), v)
    } else {
        vs.push(v)
    }
}

/// Drop-oldest eviction: while the store is full and the insertion order is not
/// exhausted, the oldest id leaves the order and its view leaves the store.
pub open spec fn evict(vs: Seq<ViewSpec>, order: Seq<Seq<char>>, cap: nat) -> (
    Seq<ViewSpec>,
    Seq<Seq<char>>,
)
    decreases order.len(),
{
    if vs.len() < cap || order.len() == 0 {
        (vs, order)
    } else {
        evict(remove_id(vs, order[0]), order.drop_first(), cap)
    }
}

/// The insertion order without an id.
pub open spec fn without_id(order: Seq<Seq<char>>, id: Seq<char>) -> Seq<Seq<char>> {
    order.filter(|x: Seq<char>| x != id)
}

/// A view marked stale.
pub open spec fn stale(v: ViewSpec) -> ViewSpec {
    ViewSpec { invalidated: true, ..v }
}

/// The views after an event: those whose scope it concerns are stale.
pub open spec fn after_event_views(vs: Seq<ViewSpec>, e: EventView) -> Seq<ViewSpec> {
    vs.map_values(|v: ViewSpec| if invalidates_scope(e, v.scope.1) { stale(v) } else { v })
}

/// The views an event makes stale that were not stale yet.
pub open spec fn newly_stale(vs: Seq<ViewSpec>, e: EventView) -> Seq<ViewSpec> {
    vs.filter(|v: ViewSpec| invalidates_scope(e, v.scope.1) && !v.invalidated)
}

/// The views an event leaves alone.
pub open spec fn unrelated(vs: Seq<ViewSpec>, e: EventView) -> Seq<ViewSpec> {
    vs.filter(|v: ViewSpec| !invalidates_scope(e, v.scope.1))
}

/// The views not yet stale.
pub open spec fn fresh(vs: Seq<ViewSpec>) -> Seq<ViewSpec> {
    vs.filter(|v: ViewSpec| !v.invalidated)
}

/// The store after one runtime event.
pub open spec fn after_event(s: StoreView, e: EventView) -> StoreView {
    StoreView {
        views: after_event_views(s.views, e),
        invalidation: ViewInvalidationMetrics {
            events_applied: sat(s.invalidation.events_applied + 1) as u64,
            views_invalidated: sat(s.invalidation.views_invalidated + newly_stale(s.views, e).len()) as u64,
            unrelated_views_retained: sat(
                s.invalidation.unrelated_views_retained + unrelated(s.views, e).len(),
            ) as u64,
            overflow_resets: s.invalidation.overflow_resets,
        },
        ..s
    }
}

/// The store after lost event history: every view is stale.
pub open spec fn after_overflow(s: StoreView) -> StoreView {
    StoreView {
        views: s.views.map_values(|v: ViewSpec| stale(v)),
        invalidation: ViewInvalidationMetrics {
            views_invalidated: sat(s.invalidation.views_invalidated + fresh(s.views).len()) as u64,
            overflow_resets: sat(s.invalidation.overflow_resets + 1) as u64,
            ..s.invalidation
        },
        ..s
    }
}

/// The store after a sequence of events, in order.
pub open spec fn after_events(s: StoreView, es: Seq<EventView>) -> StoreView
    decreases es.len(),
{
    if es.len() == 0 {
        s
    } else {
        after_event(after_events(s, es.drop_last()), es.last())
    }
}

/// The store after it caught up with the bus: new cursor and counters, every view
/// stale when history was lost, then each retained event newer than its cursor.
pub open spec fn after_pending(s: StoreView, b: BusView) -> StoreView {
    let s1 = StoreView { cursor: tail_position(b), event_metrics: metrics_of(b), ..s };
    let s2 = if read_overflows(b, s.cursor) {
        after_overflow(s1)
    } else {
        s1
    };
    after_events(s2, events_after(b.retained, s.cursor))
}

/// The view an insertion records.
pub open spec fn new_view(
    s: StoreView,
    scope: ScopeView,
    state: StateView,
    parent: Option<Seq<char>>,
    now_ms: u64,
) -> ViewSpec {
    ViewSpec {
        id: view_id_of(s.next_id),
        generation: s.next_generation,
        expires_at_ms: (now_ms + s.ttl_ms) as u64,
        scope,
        state,
        parent,
        invalidated: false,
    }
}

/// The store after recording a view: evict, then store the view and append its id.
pub open spec fn after_insert(s: StoreView, v: ViewSpec) -> StoreView {
    let ev = evict(s.views, s.order, s.capacity);
    StoreView {
        views: upsert(ev.0, v),
        order: ev.1.push(v.id),
        next_id: sat(s.next_id + 1) as u64,
        next_generation: sat(s.next_generation + 1) as u64,
        ..s
    }
}

/// The store without a view.
pub open spec fn after_remove(s: StoreView, id: Seq<char>) -> StoreView {
    StoreView { views: remove_id(s.views, id), order: without_id(s.order, id), ..s }
}

/// What a lookup of a view id gives: refused when the id is malformed, unknown,
/// expired (checked before staleness) or stale.
pub open spec fn live_outcome(s: StoreView, raw: Seq<char>, now_ms: u64) -> Result<ViewSpec, ViewErrorKind> {
    if !valid_view_id(raw) {
        Err(ViewErrorKind::IdInvalid)
    } else {
        match lookup(s.views, raw) {
            None => Err(ViewErrorKind::Unknown),
            Some(v) => if now_ms >= v.expires_at_ms {
                Err(ViewErrorKind::Expired)
            } else if v.invalidated {
                Err(ViewErrorKind::Stale)
            } else {
                Ok(v)
            },
        }
    }
}

/// The store after a lookup: an expired view is removed.
pub open spec fn after_live(s: StoreView, raw: Seq<char>, now_ms: u64) -> StoreView {
    if valid_view_id(raw) && (lookup(s.views, raw) matches Some(v) && now_ms >= v.expires_at_ms) {
        after_remove(s, raw)
    } else {
        s
    }
}

/// What a lookup of a previous view gives: `live_outcome`, then refused when the view
/// belongs to another scope.
pub open spec fn previous_outcome(s: StoreView, raw: Seq<char>, scope: ScopeView, now_ms: u64) -> Result<
    ViewSpec,
    ViewErrorKind,
> {
    match live_outcome(s, raw, now_ms) {
        Err(k) => Err(k),
        Ok(v) => if v.scope == scope {
            Ok(v)
        } else {
            Err(ViewErrorKind::ScopeMismatch)
        },
    }
}

/// With unique ids, the view found at a position is the one `lookup` names.
pub proof fn lemma_unique_index(vs: Seq<ViewSpec>, id: Seq<char>, i: int)
    requires
        ids_unique(vs),
        0 <= i < vs.len(),
        vs[i].id == id,
    ensures
        has_id(vs, id),
        id_index(vs, id) == i,
        lookup(vs, id) == Some(vs[i]),
{
    assert(has_id(vs, id));
    let j = id_index(vs, id);
    if j != i {
        if j < i {
            assert(vs[j].id != vs[i].id);
        } else {
            assert(vs[i].id != vs[j].id);
        }
    }
}

proof fn lemma_remove_id(vs: Seq<ViewSpec>, id: Seq<char>)
    requires
        ids_unique(vs),
    ensures
        ids_unique(remove_id(vs, id)),
        forall|k: int| 0 <= k < remove_id(vs, id).len() ==> (#[trigger] remove_id(vs, id)[k]).id != id && vs.contains(remove_id(vs, id)[k]),
        remove_id(vs, id).len() == if has_id(vs, id) { vs.len() - 1 } else { vs.len() as int },
{
    let r = remove_id(vs, id);
    if has_id(vs, id) {
        let j = id_index(vs, id);
        assert forall|a: int, b: int| 0 <= a < b < r.len() implies (#[trigger] r[a]).id != (#[trigger] r[b]).id by {
            let a2 = if a < j { a } else { a + 1 };
            let b2 = if b < j { b } else { b + 1 };
            assert(r[a] == vs[a2] && r[b] == vs[b2]);
            assert(vs[a2].id != vs[b2].id);
        }
        assert forall|k: int| 0 <= k < r.len() implies (#[trigger] r[k]).id != id && vs.contains(r[k]) by {
            let k2 = if k < j { k } else { k + 1 };
            assert(r[k] == vs[k2]);
            if k2 < j {
                assert(vs[k2].id != vs[j].id);
            } else {
                assert(vs[j].id != vs[k2].id);
            }
        }
    } else {
        assert forall|k: int| 0 <= k < r.len() implies (#[trigger] r[k]).id != id && vs.contains(r[k]) by {
            assert(vs[k] == r[k]);
        }
    }
}

proof fn lemma_upsert(vs: Seq<ViewSpec>, v: ViewSpec)
    requires
        ids_unique(vs),
    ensures
        ids_unique(upsert(vs, v)),
        forall|k: int| 0 <= k < upsert(vs, v).len() ==> (#[trigger] upsert(vs, v)[k]).id == v.id || vs.contains(upsert(vs, v)[k]),
        upsert(vs, v).len() <= vs.len() + 1,
{
    let r = upsert(vs, v);
    if has_id(vs, v.id) {
        let j = id_index(vs, v.id);
        assert forall|a: int, b: int| 0 <= a < b < r.len() implies (#[trigger] r[a]).id != (#[trigger] r[b]).id by {
            assert(vs[a].id != vs[b].id);
        }
        assert forall|k: int| 0 <= k < r.len() implies (#[trigger] r[k]).id == v.id || vs.contains(r[k]) by {
            if k != j {
                assert(r[k] == vs[k]);
            }
        }
    } else {
        assert forall|a: int, b: int| 0 <= a < b < r.len() implies (#[trigger] r[a]).id != (#[trigger] r[b]).id by {
            if b == vs.len() {
                assert(r[a] == vs[a]);
                assert(vs[a].id != v.id);
            } else {
                assert(vs[a].id != vs[b].id);
            }
        }
        assert forall|k: int| 0 <= k < r.len() implies (#[trigger] r[k]).id == v.id || vs.contains(r[k]) by {
            if k < vs.len() {
                assert(r[k] == vs[k]);
            }
        }
    }
}

/// The bounded store of observation views.
pub struct ViewStore {
    capacity: usize,
    ttl_ms: u64,
    next_id: u64,
    next_generation: u64,
    entries: Vec<StoredView>,
    insertion_order: Vec<String>,
    event_cursor: RuntimeEventCursor,
    event_metrics: RuntimeEventMetrics,
    invalidation: ViewInvalidationMetrics,
}

/// The plain values of a list of stored views.
pub open spec fn view_specs(s: Seq<StoredView>) -> Seq<ViewSpec> {
    s.map_values(|v: StoredView| v@)
}

/// The plain values of a list of texts.
pub open spec fn texts(s: Seq<String>) -> Seq<Seq<char>> {
    s.map_values(|t: String| t@)
}

impl View for ViewStore {
    type V = StoreView;

    closed spec fn view(&self) -> StoreView {
        StoreView {
            capacity: self.capacity as nat,
            ttl_ms: self.ttl_ms,
            next_id: self.next_id,
            next_generation: self.next_generation,
            views: view_specs(self.entries@),
            order: texts(self.insertion_order@),
            cursor: self.event_cursor.spec_position(),
            event_metrics: self.event_metrics,
            invalidation: self.invalidation,
        }
    }
}

impl ViewStore {
    /// The store invariant.
    pub open spec fn wf(&self) -> bool {
        store_inv(self@)
    }

    /// An empty store following the bus from its current tail; a capacity of zero is
    /// raised to one.
    pub fn new(capacity: usize, ttl_ms: u64, bus: &RuntimeEventBus) -> (r: Self)
        requires
            bus.wf(),
        ensures
            r.wf(),
            r@ == (StoreView {
                capacity: if capacity >= 1 { capacity as nat } else { 1 },
                ttl_ms,
                next_id: 1,
                next_generation: 1,
                views: Seq::empty(),
                order: Seq::empty(),
                cursor: tail_position(bus@),
                event_metrics: metrics_of(bus@),
                invalidation: ViewInvalidationMetrics {
                    events_applied: 0,
                    views_invalidated: 0,
                    unrelated_views_retained: 0,
                    overflow_resets: 0,
                },
            }),
    {
        let r = ViewStore {
            capacity: if capacity >= 1 { capacity } else { 1 },
            ttl_ms,
            next_id: 1,
            next_generation: 1,
            entries: Vec::new(),
            insertion_order: Vec::new(),
            event_cursor: bus.cursor(),
            event_metrics: bus.metrics(),
            invalidation: ViewInvalidationMetrics {
                events_applied: 0,
                views_invalidated: 0,
                unrelated_views_retained: 0,
                overflow_resets: 0,
            },
        };
        assert(r@.views =~= Seq::<ViewSpec>::empty());
        assert(r@.order =~= Seq::<Seq<char>>::empty());
        r
    }

    /// How long a view lives, in milliseconds.
    pub fn ttl_ms(&self) -> (r: u64)
        ensures
            r == self@.ttl_ms,
    {
        self.ttl_ms
    }

    /// The bus counters seen at the last catch-up.
    pub fn event_metrics(&self) -> (r: RuntimeEventMetrics)
        ensures
            r == self@.event_metrics,
    {
        self.event_metrics
    }

    /// The invalidation counters.
    pub fn invalidation(&self) -> (r: ViewInvalidationMetrics)
        ensures
            r == self@.invalidation,
    {
        self.invalidation
    }

    /// How many views are stored.
    pub fn len(&self) -> (r: usize)
        ensures
            r == self@.views.len(),
    {
        self.entries.len()
    }

    fn index_of(&self, id: &str) -> (r: Option<usize>)
        requires
            self.wf(),
        ensures
            match r {
                Some(i) => i < self@.views.len() && self@.views[i as int].id == id@ && id_index(
                    self@.views,
                    id@,
                ) == i && lookup(self@.views, id@) == Some(self@.views[i as int]),
                None => !has_id(self@.views, id@) && lookup(self@.views, id@) is None,
            },
    {
        let mut i: usize = 0;
        while i < self.entries.len()
            invariant
                i <= self.entries.len(),
                self.wf(),
                forall|q: int| 0 <= q < i ==> (#[trigger] self@.views[q]).id != id@,
            decreases self.entries.len() - i,
        {
            if text_eq(self.entries[i].id.as_str(), id) {
                proof {
                    lemma_unique_index(self@.views, id@, i as int);
                }
                return Some(i);
            }
            assert(self@.views[i as int].id == self.entries@[i as int].id@);
            i = i + 1;
        }
        None
    }

    /// The stored view with an id, if any, as a copy.
    pub fn get(&self, id: &str) -> (r: Option<StoredView>)
        requires
            self.wf(),
        ensures
            match lookup(self@.views, id@) {
                Some(v) => r matches Some(x) && x@ == v,
                None => r is None,
            },
    {
        match self.index_of(id) {
            Some(i) => Some(self.entries[i].duplicate()),
            None => None,
        }
    }

    fn remove_entry(&mut self, id: &str)
        requires
            ids_unique(old(self)@.views),
        ensures
            final(self)@ == (StoreView { views: remove_id(old(self)@.views, id@), ..old(self)@ }),
    {
        let ghost vs = self@.views;
        let ghost s0 = self@;
        let mut i: usize = 0;
        while i < self.entries.len()
            invariant
                i <= self.entries.len(),
                self@ == s0,
                s0 == old(self)@,
                vs == self@.views,
                ids_unique(vs),
                forall|q: int| 0 <= q < i ==> (#[trigger] vs[q]).id != id@,
            decreases self.entries.len() - i,
        {
            if text_eq(self.entries[i].id.as_str(), id) {
                proof {
                    lemma_unique_index(vs, id@, i as int);
                }
                let ghost before = self.entries@;
                let _ = self.entries.remove(i);
                assert(view_specs(self.entries@) =~= vs.remove(i as int));
                assert(self@ =~= (StoreView { views: remove_id(s0.views, id@), ..s0 }));
                return;
            }
            assert(vs[i as int].id == self.entries@[i as int].id@);
            i = i + 1;
        }
        assert(!has_id(vs, id@));
    }

    /// `remove`: the view with an id leaves the store and the insertion order.
    pub fn remove(&mut self, id: &str)
        requires
            old(self).wf(),
        ensures
            final(self).wf(),
            final(self)@ == after_remove(old(self)@, id@),
    {
        let ghost s0 = self@;
        self.remove_entry(id);
        let mut kept: Vec<String> = Vec::new();
        let mut i: usize = 0;
        while i < self.insertion_order.len()
            invariant
                i <= self.insertion_order.len(),
                s0.order == texts(self.insertion_order@),
                texts(kept@) == s0.order.take(i as int).filter(|x: Seq<char>| x != id@),
            decreases self.insertion_order.len() - i,
        {
            proof {
                reveal(Seq::filter);
                assert(s0.order.take(i + 1).drop_last() =~= s0.order.take(i as int));
                assert(s0.order.take(i + 1).last() == self.insertion_order@[i as int]@);
            }
            if !text_eq(self.insertion_order[i].as_str(), id) {
                let c = self.insertion_order[i].clone();
                kept.push(c);
                assert(texts(kept@) =~= texts(kept@.drop_last()).push(c@));
            }
            i = i + 1;
        }
        assert(s0.order.take(self.insertion_order.len() as int) =~= s0.order);
        self.insertion_order = kept;
        proof {
            lemma_remove_id(s0.views, id@);
            let o = without_id(s0.order, id@);
            let r = remove_id(s0.views, id@);
            assert forall|k: int| 0 <= k < r.len() implies o.contains(#[trigger] r[k].id) by {
                assert(s0.views.contains(r[k]));
                let j = choose|j: int| 0 <= j < s0.views.len() && s0.views[j] == r[k];
                assert(s0.order.contains(s0.views[j].id));
                let q = choose|q: int| 0 <= q < s0.order.len() && s0.order[q] == r[k].id;
                s0.order.lemma_filter_contains(|x: Seq<char>| x != id@, q);
            }
            assert forall|k: int| 0 <= k < r.len() implies strictly_sorted(state_keys(#[trigger] r[k].state)) by {
                assert(s0.views.contains(r[k]));
                let j = choose|j: int| 0 <= j < s0.views.len() && s0.views[j] == r[k];
                assert(strictly_sorted(state_keys(s0.views[j].state)));
            }
        }
    }

    fn upsert_entry(&mut self, view: StoredView)
        requires
            old(self).wf(),
        ensures
            final(self)@ == (StoreView { views: upsert(old(self)@.views, view@), ..old(self)@ }),
    {
        let ghost s0 = self@;
        match self.index_of(view.id.as_str()) {
            Some(i) => {
                self.entries.set(i, view);
                assert(self@.views =~= s0.views.update(i as int, view@));
            },
            None => {
                self.entries.push(view);
                assert(self@.views =~= s0.views.push(view@));
            },
        }
        assert(self@ =~= (StoreView { views: upsert(s0.views, view@), ..s0 }));
    }

    /// `insert`: while the store is full, the oldest view is evicted; then a view is
    /// recorded under the next id and generation, expiring `ttl_ms` after `now_ms`.
    pub fn insert(
        &mut self,
        scope: ObservationScope,
        state: Vec<StateEntry>,
        parent: Option<String>,
        now_ms: u64,
    ) -> (r: StoredView)
        requires
            old(self).wf(),
            now_ms + old(self)@.ttl_ms <= u64::MAX,
            strictly_sorted(state_keys(state_view(state@))),
        ensures
            final(self).wf(),
            r@ == new_view(old(self)@, scope_view(scope), state_view(state@), opt_text(parent), now_ms),
            final(self)@ == after_insert(old(self)@, r@),
    {
        let ghost s0 = self@;
        while self.entries.len() >= self.capacity
            invariant
                self.wf(),
                self@ == (StoreView { views: self@.views, order: self@.order, ..s0 }),
                evict(self@.views, self@.order, s0.capacity) == evict(s0.views, s0.order, s0.capacity),
            ensures
                self.wf(),
                self@ == (StoreView { views: self@.views, order: self@.order, ..s0 }),
                evict(self@.views, self@.order, s0.capacity) == evict(s0.views, s0.order, s0.capacity),
                self@.views.len() < s0.capacity || self@.order.len() == 0,
            decreases self.insertion_order.len(),
        {
            if self.insertion_order.len() == 0 {
                break;
            }
            let ghost before = self@;
            let oldest = self.insertion_order.remove(0);
            assert(texts(self.insertion_order@) =~= before.order.drop_first());
            assert(oldest@ == before.order[0]);
            self.remove_entry(oldest.as_str());
            proof {
                lemma_remove_id(before.views, oldest@);
                let r = remove_id(before.views, oldest@);
                assert forall|k: int| 0 <= k < r.len() implies self@.order.contains(#[trigger] r[k].id) by {
                    assert(before.views.contains(r[k]));
                    let j = choose|j: int| 0 <= j < before.views.len() && before.views[j] == r[k];
                    assert(before.order.contains(before.views[j].id));
                    let q = choose|q: int| 0 <= q < before.order.len() && before.order[q] == r[k].id;
                    assert(q != 0);
                    assert(self@.order[q - 1] == r[k].id);
                }
                assert forall|k: int| 0 <= k < r.len() implies strictly_sorted(state_keys(#[trigger] r[k].state)) by {
                    assert(before.views.contains(r[k]));
                    let j = choose|j: int| 0 <= j < before.views.len() && before.views[j] == r[k];
                    assert(strictly_sorted(state_keys(before.views[j].state)));
                }
            }
        }
        let id = view_id_text(self.next_id);
        self.next_id = self.next_id.saturating_add(1);
        let generation = self.next_generation;
        self.next_generation = self.next_generation.saturating_add(1);
        let view = StoredView {
            id: id.clone(),
            generation,
            expires_at_ms: now_ms + self.ttl_ms,
            scope,
            state,
            parent,
            invalidated: false,
        };
        let copy = view.duplicate();
        let ghost ev = evict(s0.views, s0.order, s0.capacity);
        let ghost vs1 = self@.views;
        let ghost o1 = self@.order;
        self.insertion_order.push(id);
        proof {
            assert(texts(self.insertion_order@) =~= o1.push(view@.id));
            assert forall|k: int| 0 <= k < vs1.len() implies self@.order.contains(#[trigger] vs1[k].id) by {
                let q = choose|q: int| 0 <= q < o1.len() && o1[q] == vs1[k].id;
                assert(self@.order[q] == vs1[k].id);
            }
        }
        self.upsert_entry(view);
        proof {
            lemma_upsert(vs1, copy@);
            let u = upsert(vs1, copy@);
            assert forall|k: int| 0 <= k < u.len() implies self@.order.contains(#[trigger] u[k].id) by {
                if u[k].id == copy@.id {
                    assert(self@.order[o1.len() as int] == copy@.id);
                } else {
                    assert(vs1.contains(u[k]));
                    let j = choose|j: int| 0 <= j < vs1.len() && vs1[j] == u[k];
                    assert(self@.order.contains(vs1[j].id));
                }
            }
            assert forall|k: int| 0 <= k < u.len() implies strictly_sorted(state_keys(#[trigger] u[k].state)) by {
                if u[k] != copy@ {
                    assert(vs1.contains(u[k]));
                    let j = choose|j: int| 0 <= j < vs1.len() && vs1[j] == u[k];
                    assert(strictly_sorted(state_keys(vs1[j].state)));
                }
            }
        }
        copy
    }

    /// `apply_event`: every view whose scope the event concerns becomes stale; the
    /// counters record the event, the views it newly made stale and those it left alone.
    pub fn apply_event(&mut self, event: &RuntimeEvent)
        requires
            old(self).wf(),
        ensures
            final(self).wf(),
            final(self)@ == after_event(old(self)@, event@),
    {
        let ghost s0 = self@;
        let ghost e = event@;
        let mut invalidated: u64 = 0;
        let mut retained: u64 = 0;
        let mut i: usize = 0;
        while i < self.entries.len()
            invariant
                i <= self.entries.len(),
                self.entries.len() == s0.views.len(),
                e == event@,
                self@ == (StoreView { views: self@.views, ..s0 }),
                forall|q: int| 0 <= q < i ==> self@.views[q] == #[trigger] after_event_views(s0.views, e)[q],
                forall|q: int| i <= q < s0.views.len() ==> #[trigger] self@.views[q] == s0.views[q],
                invalidated == newly_stale(s0.views.take(i as int), e).len(),
                retained == unrelated(s0.views.take(i as int), e).len(),
                invalidated <= i,
                retained <= i,
            decreases self.entries.len() - i,
        {
            proof {
                reveal(Seq::filter);
                assert(s0.views.take(i + 1).drop_last() =~= s0.views.take(i as int));
                assert(s0.views.take(i + 1).last() == s0.views[i as int]);
            }
            let ghost before = self.entries@;
            let ghost vb = self@.views;
            assert(vb[i as int] == s0.views[i as int]);
            assert(vb[i as int] == before[i as int]@);
            if event_invalidates_scope(event, &self.entries[i].scope) {
                if !self.entries[i].invalidated {
                    let mut v = self.entries.remove(i);
                    v.invalidated = true;
                    self.entries.insert(i, v);
                    assert(self.entries@ =~= before.update(i as int, v));
                    assert(v@ == stale(vb[i as int]));
                    assert(self@.views =~= vb.update(i as int, stale(vb[i as int])));
                    invalidated = invalidated + 1;
                } else {
                    assert(stale(vb[i as int]) == vb[i as int]);
                    assert(self@.views =~= vb);
                }
            } else {
                retained = retained + 1;
                assert(self@.views =~= vb);
            }
            assert(self@.views[i as int] == after_event_views(s0.views, e)[i as int]);
            assert forall|q: int| 0 <= q < i + 1 implies self@.views[q] == #[trigger] after_event_views(s0.views, e)[q] by {
                if q < i {
                    assert(self@.views[q] == vb[q]);
                }
            }
            assert forall|q: int| i + 1 <= q < s0.views.len() implies #[trigger] self@.views[q] == s0.views[q] by {
                assert(self@.views[q] == vb[q]);
            }
            assert(self@ =~= (StoreView { views: self@.views, ..s0 }));
            i = i + 1;
        }
        assert(s0.views.take(i as int) =~= s0.views);
        assert(self@.views =~= after_event_views(s0.views, e));
        self.invalidation.events_applied = self.invalidation.events_applied.saturating_add(1);
        self.invalidation.views_invalidated = self.invalidation.views_invalidated.saturating_add(invalidated);
        self.invalidation.unrelated_views_retained = self.invalidation.unrelated_views_retained.saturating_add(
            retained,
        );
        proof {
            assert forall|q: int| 0 <= q < self@.views.len() implies (#[trigger] self@.views[q]).id == s0.views[q].id by {}
            assert forall|a: int, b: int| 0 <= a < b < self@.views.len() implies (#[trigger] self@.views[a]).id != (#[trigger] self@.views[b]).id by {
                assert(s0.views[a].id != s0.views[b].id);
            }
            assert forall|q: int| 0 <= q < self@.views.len() implies self@.order.contains(#[trigger] self@.views[q].id) by {
                assert(s0.order.contains(s0.views[q].id));
            }
            assert forall|q: int| 0 <= q < self@.views.len() implies strictly_sorted(state_keys(#[trigger] self@.views[q].state)) by {
                assert(self@.views[q].state == s0.views[q].state);
            }
        }
        assert(self@ =~= after_event(s0, e));
    }

    /// `invalidate_all_for_overflow`: lost event history makes every view stale.
    pub fn invalidate_all_for_overflow(&mut self)
        requires
            old(self).wf(),
        ensures
            final(self).wf(),
            final(self)@ == after_overflow(old(self)@),
    {
        let ghost s0 = self@;
        let mut invalidated: u64 = 0;
        let mut i: usize = 0;
        while i < self.entries.len()
            invariant
                i <= self.entries.len(),
                self.entries.len() == s0.views.len(),
                self@ == (StoreView { views: self@.views, ..s0 }),
                forall|q: int| 0 <= q < i ==> #[trigger] self@.views[q] == stale(s0.views[q]),
                forall|q: int| i <= q < s0.views.len() ==> #[trigger] self@.views[q] == s0.views[q],
                invalidated == fresh(s0.views.take(i as int)).len(),
                invalidated <= i,
            decreases self.entries.len() - i,
        {
            proof {
                reveal(Seq::filter);
                assert(s0.views.take(i + 1).drop_last() =~= s0.views.take(i as int));
                assert(s0.views.take(i + 1).last() == s0.views[i as int]);
            }
            let ghost before = self.entries@;
            let ghost vb = self@.views;
            assert(vb[i as int] == s0.views[i as int]);
            assert(vb[i as int] == before[i as int]@);
            if !self.entries[i].invalidated {
                let mut v = self.entries.remove(i);
                v.invalidated = true;
                self.entries.insert(i, v);
                assert(self.entries@ =~= before.update(i as int, v));
                assert(v@ == stale(vb[i as int]));
                assert(self@.views =~= vb.update(i as int, stale(vb[i as int])));
                invalidated = invalidated + 1;
            } else {
                assert(stale(vb[i as int]) == vb[i as int]);
                assert(self@.views =~= vb);
            }
            assert forall|q: int| 0 <= q < i + 1 implies #[trigger] self@.views[q] == stale(s0.views[q]) by {
                if q < i {
                    assert(self@.views[q] == vb[q]);
                }
            }
            assert forall|q: int| i + 1 <= q < s0.views.len() implies #[trigger] self@.views[q] == s0.views[q] by {
                assert(self@.views[q] == vb[q]);
            }
            assert(self@ =~= (StoreView { views: self@.views, ..s0 }));
            i = i + 1;
        }
        assert(s0.views.take(i as int) =~= s0.views);
        assert(self@.views =~= s0.views.map_values(|v: ViewSpec| stale(v)));
        self.invalidation.views_invalidated = self.invalidation.views_invalidated.saturating_add(invalidated);
        self.invalidation.overflow_resets = self.invalidation.overflow_resets.saturating_add(1);
        proof {
            assert forall|a: int, b: int| 0 <= a < b < self@.views.len() implies (#[trigger] self@.views[a]).id != (#[trigger] self@.views[b]).id by {
                assert(s0.views[a].id != s0.views[b].id);
            }
            assert forall|q: int| 0 <= q < self@.views.len() implies self@.order.contains(#[trigger] self@.views[q].id) by {
                assert(s0.order.contains(s0.views[q].id));
            }
            assert forall|q: int| 0 <= q < self@.views.len() implies strictly_sorted(state_keys(#[trigger] self@.views[q].state)) by {
                assert(self@.views[q].state == s0.views[q].state);
            }
        }
        assert(self@ =~= after_overflow(s0));
    }

    /// `apply_pending_events`: catches up with the bus. Every view becomes stale when
    /// the bus lost events this store had not seen; then each new event applies in order.
    pub fn apply_pending_events(&mut self, bus: &RuntimeEventBus)
        requires
            old(self).wf(),
            bus.wf(),
        ensures
            final(self).wf(),
            final(self)@ == after_pending(old(self)@, bus@),
    {
        let ghost s0 = self@;
        let batch = crate::runtime_events::runtime_events_since(bus, self.event_cursor);
        self.event_cursor = batch.cursor;
        self.event_metrics = batch.metrics;
        assert(self@ =~= (StoreView { cursor: tail_position(bus@), event_metrics: metrics_of(bus@), ..s0 }));
        if batch.overflowed {
            self.invalidate_all_for_overflow();
        }
        let ghost s2 = self@;
        let ghost es = event_views(batch.events@);
        let mut i: usize = 0;
        while i < batch.events.len()
            invariant
                i <= batch.events.len(),
                self.wf(),
                es == event_views(batch.events@),
                self@ == after_events(s2, es.take(i as int)),
            decreases batch.events.len() - i,
        {
            self.apply_event(&batch.events[i]);
            proof {
                assert(es.take(i + 1).drop_last() =~= es.take(i as int));
                assert(es.take(i + 1).last() == batch.events@[i as int]@);
            }
            i = i + 1;
        }
        assert(es.take(i as int) =~= es);
    }

    /// `live`: the view with an id, refused when the id is malformed or unknown, when
    /// the view has expired (it is then removed) or when an event made it stale.
    pub fn live(&mut self, raw_id: &str, now_ms: u64) -> (r: Result<StoredView, ViewErrorKind>)
        requires
            old(self).wf(),
        ensures
            final(self).wf(),
            final(self)@ == after_live(old(self)@, raw_id@, now_ms),
            match live_outcome(old(self)@, raw_id@, now_ms) {
                Ok(v) => r matches Ok(x) && x@ == v,
                Err(k) => r == Err::<StoredView, ViewErrorKind>(k),
            },
    {
        let id = match parse_view_id(raw_id) {
            Ok(id) => id,
            Err(k) => return Err(k),
        };
        let i = match self.index_of(id.as_str()) {
            Some(i) => i,
            None => return Err(ViewErrorKind::Unknown),
        };
        assert(self@.views[i as int] == self.entries@[i as int]@);
        if now_ms >= self.entries[i].expires_at_ms {
            self.remove(id.as_str());
            return Err(ViewErrorKind::Expired);
        }
        if self.entries[i].invalidated {
            return Err(ViewErrorKind::Stale);
        }
        Ok(self.entries[i].duplicate())
    }

    /// `previous`: a live view of the same observation scope.
    pub fn previous(&mut self, raw_id: &str, scope: &ObservationScope, now_ms: u64) -> (r: Result<
        StoredView,
        ViewErrorKind,
    >)
        requires
            old(self).wf(),
        ensures
            final(self).wf(),
            final(self)@ == after_live(old(self)@, raw_id@, now_ms),
            match previous_outcome(old(self)@, raw_id@, scope_view(*scope), now_ms) {
                Ok(v) => r matches Ok(x) && x@ == v,
                Err(k) => r == Err::<StoredView, ViewErrorKind>(k),
            },
    {
        let view = match self.live(raw_id, now_ms) {
            Ok(v) => v,
            Err(k) => return Err(k),
        };
        if !view.scope.same(scope) {
            return Err(ViewErrorKind::ScopeMismatch);
        }
        Ok(view)
    }

    /// Whether a view with an id is stored.
    pub fn contains(&self, id: &str) -> (r: bool)
        requires
            self.wf(),
        ensures
            r == has_id(self@.views, id@),
    {
        self.index_of(id).is_some()
    }
}


/// The only observation surface that records views.
pub open spec fn list_windows_command() -> Seq<char> {
    "list-windows"@
}

/// `record_observation`, before the store is involved: only `list-windows`
/// observations record views; the scope and canonical state of the observation.
pub fn observation_state(command: &str, app: &ScopeArg, listing: &WindowListing) -> (r: Result<
    (ObservationScope, Vec<StateEntry>),
    ViewErrorKind,
>)
    ensures
        command@ != list_windows_command() ==> r == Err::<(ObservationScope, Vec<StateEntry>), ViewErrorKind>(
            ViewErrorKind::Unsupported,
        ),
        command@ == list_windows_command() ==> match scope_of(command@, *app) {
            None => r == Err::<(ObservationScope, Vec<StateEntry>), ViewErrorKind>(ViewErrorKind::ScopeInvalid),
            Some(sv) => match listing_refusal(*listing) {
                Some(k) => r == Err::<(ObservationScope, Vec<StateEntry>), ViewErrorKind>(k),
                None => match r {
                    Ok((sc, st)) => scope_view(sc) == sv && is_canonical(state_view(st@), listing_entries(*listing))
                        && utf8_len(state_text(state_view(st@))) <= MAX_VIEW_STATE_BYTES,
                    Err(k) => k == ViewErrorKind::StateLimit && exists|c: StateView|
                        is_canonical(c, listing_entries(*listing)) && utf8_len(state_text(c))
                            > MAX_VIEW_STATE_BYTES,
                },
            },
        },
{
    if !text_eq(command, "list-windows") {
        return Err(ViewErrorKind::Unsupported);
    }
    let scope = match scope_for(command, app) {
        Ok(s) => s,
        Err(k) => return Err(k),
    };
    let state = match canonical_windows(listing) {
        Ok(s) => s,
        Err(k) => return Err(k),
    };
    Ok((scope, state))
}

/// `record_observation`, against the store: catches up with the bus; then, when a
/// previous view is named, looks it up in the same scope and computes the delta from
/// its state to the current one (refused beyond its entry or byte limit). The caller
/// then records the current state with `insert`.
pub fn compare_with_previous(
    store: &mut ViewStore,
    bus: &RuntimeEventBus,
    previous_view_id: Option<&str>,
    scope: &ObservationScope,
    current: &Vec<StateEntry>,
    now_ms: u64,
) -> (r: Result<Option<(StoredView, StateDelta)>, ViewErrorKind>)
    requires
        old(store).wf(),
        bus.wf(),
    ensures
        final(store).wf(),
        ({
            let s1 = after_pending(old(store)@, bus@);
            let c = state_view(current@);
            match previous_view_id {
                None => final(store)@ == s1 && r matches Ok(None),
                Some(raw) => final(store)@ == after_live(s1, raw@, now_ms) && match previous_outcome(
                    s1,
                    raw@,
                    scope_view(*scope),
                    now_ms,
                ) {
                    Err(k) => r == Err::<Option<(StoredView, StateDelta)>, ViewErrorKind>(k),
                    Ok(v) => if delta_size(v.state, c) > MAX_DELTA_ENTRIES || delta_bytes(v.state, c) > MAX_DELTA_BYTES {
                        r == Err::<Option<(StoredView, StateDelta)>, ViewErrorKind>(ViewErrorKind::DeltaLimit)
                    } else {
                        r matches Ok(Some((pv, d))) && pv@ == v && delta_of(v.state, c, d)
                    },
                },
            }
        }),
{
    store.apply_pending_events(bus);
    let raw = match previous_view_id {
        None => return Ok(None),
        Some(raw) => raw,
    };
    let ghost s1 = store@;
    let prior = match store.previous(raw, scope, now_ms) {
        Ok(v) => v,
        Err(k) => return Err(k),
    };
    proof {
        let j = id_index(s1.views, raw@);
        assert(strictly_sorted(state_keys(s1.views[j].state)));
    }
    match diff(&prior.state, current) {
        Ok(d) => Ok(Some((prior, d))),
        Err(k) => Err(k),
    }
}

/// `validate_expected_view`, against the store: catches up with the bus and looks the
/// expected view up; only `list-windows` views can be checked for freshness.
pub fn expected_view(store: &mut ViewStore, bus: &RuntimeEventBus, raw_id: &str, now_ms: u64) -> (r: Result<
    StoredView,
    ViewErrorKind,
>)
    requires
        old(store).wf(),
        bus.wf(),
    ensures
        final(store).wf(),
        ({
            let s1 = after_pending(old(store)@, bus@);
            &&& final(store)@ == after_live(s1, raw_id@, now_ms)
            &&& match live_outcome(s1, raw_id@, now_ms) {
                Err(k) => r == Err::<StoredView, ViewErrorKind>(k),
                Ok(v) => if v.scope.0 == list_windows_command() {
                    r matches Ok(x) && x@ == v
                } else {
                    r == Err::<StoredView, ViewErrorKind>(ViewErrorKind::Unsupported)
                },
            }
        }),
{
    store.apply_pending_events(bus);
    let view = match store.live(raw_id, now_ms) {
        Ok(v) => v,
        Err(k) => return Err(k),
    };
    if !text_eq(view.scope.command.as_str(), "list-windows") {
        return Err(ViewErrorKind::Unsupported);
    }
    Ok(view)
}

/// `validate_expected_view`, after the fresh observation: the desktop must still be in
/// the state the expected view recorded.
pub fn check_freshness(expected: &StoredView, current: &Vec<StateEntry>) -> (r: Result<(), ViewErrorKind>)
    ensures
        r is Ok <==> state_view(expected.state@) == state_view(current@),
        r matches Err(k) ==> k == ViewErrorKind::Stale,
{
    if same_state(&expected.state, current) {
        Ok(())
    } else {
        Err(ViewErrorKind::Stale)
    }
}


proof fn lemma_after_event_lookup(s: StoreView, e: EventView, id: Seq<char>)
    requires
        store_inv(s),
    ensures
        ids_unique(after_event_views(s.views, e)),
        match lookup(s.views, id) {
            None => lookup(after_event_views(s.views, e), id) is None,
            Some(v) => lookup(after_event_views(s.views, e), id) == Some(
                if invalidates_scope(e, v.scope.1) {
                    stale(v)
                } else {
                    v
                },
            ),
        },
{
    let m = after_event_views(s.views, e);
    assert forall|a: int, b: int| 0 <= a < b < m.len() implies (#[trigger] m[a]).id != (#[trigger] m[b]).id by {
        assert(s.views[a].id != s.views[b].id);
    }
    if has_id(s.views, id) {
        let i = id_index(s.views, id);
        assert(m[i].id == id);
        lemma_unique_index(m, id, i);
    } else {
        if has_id(m, id) {
            let i = id_index(m, id);
            assert(s.views[i].id == id);
        }
    }
}

/// A runtime event that concerns a view's scope makes that view refuse as stale (unless
/// it has expired, which is reported first).
pub proof fn lemma_event_stales_matching_view(s: StoreView, e: EventView, id: Seq<char>, now_ms: u64)
    requires
        store_inv(s),
        live_outcome(s, id, now_ms) is Ok,
        invalidates_scope(e, live_outcome(s, id, now_ms)->Ok_0.scope.1),
    ensures
        live_outcome(after_event(s, e), id, now_ms) == Err::<ViewSpec, ViewErrorKind>(ViewErrorKind::Stale),
{
    lemma_after_event_lookup(s, e, id);
}

/// A runtime event that does not concern a view's scope leaves what a lookup of that
/// view gives unchanged.
pub proof fn lemma_unrelated_event_keeps_view(s: StoreView, e: EventView, id: Seq<char>, now_ms: u64)
    requires
        store_inv(s),
        lookup(s.views, id) is Some,
        !invalidates_scope(e, lookup(s.views, id)->Some_0.scope.1),
    ensures
        live_outcome(after_event(s, e), id, now_ms) == live_outcome(s, id, now_ms),
{
    lemma_after_event_lookup(s, e, id);
}

/// Applying the same event twice changes no view the second time and counts no view as
/// newly invalidated.
pub proof fn lemma_duplicate_event_is_idempotent(s: StoreView, e: EventView)
    requires
        store_inv(s),
    ensures
        after_event(after_event(s, e), e).views == after_event(s, e).views,
        newly_stale(after_event(s, e).views, e).len() == 0,
        after_event(after_event(s, e), e).invalidation.views_invalidated == after_event(s, e).invalidation.views_invalidated,
{
    let m = after_event_views(s.views, e);
    assert(after_event_views(m, e) =~= m);
    assert(newly_stale(m, e).len() == 0) by {
        if newly_stale(m, e).len() > 0 {
            m.filter_lemma(|v: ViewSpec| invalidates_scope(e, v.scope.1) && !v.invalidated);
            let x = newly_stale(m, e)[0];
            assert(newly_stale(m, e).contains(x));
            m.lemma_filter_contains_rev(|v: ViewSpec| invalidates_scope(e, v.scope.1) && !v.invalidated, x);
            let j = choose|j: int| 0 <= j < m.len() && m[j] == x;
            assert(m[j] == x);
        }
    }
}

/// Lost event history makes every stored view refuse (as stale, or as expired when its
/// time is up) while the store keeps all its views.
pub proof fn lemma_overflow_stales_every_view(s: StoreView, id: Seq<char>, now_ms: u64)
    requires
        store_inv(s),
        lookup(s.views, id) is Some,
        valid_view_id(id),
    ensures
        after_overflow(s).views.len() == s.views.len(),
        live_outcome(after_overflow(s), id, now_ms) is Err,
        live_outcome(after_overflow(s), id, now_ms) != Err::<ViewSpec, ViewErrorKind>(ViewErrorKind::Unknown),
{
    let m = s.views.map_values(|v: ViewSpec| stale(v));
    assert forall|a: int, b: int| 0 <= a < b < m.len() implies (#[trigger] m[a]).id != (#[trigger] m[b]).id by {
        assert(s.views[a].id != s.views[b].id);
    }
    let i = id_index(s.views, id);
    assert(m[i].id == id);
    lemma_unique_index(m, id, i);
}

/// An expired view refuses as expired, whatever events were applied since.
pub proof fn lemma_expiry_takes_precedence(s: StoreView, e: EventView, id: Seq<char>, now_ms: u64)
    requires
        store_inv(s),
        valid_view_id(id),
        lookup(s.views, id) is Some,
        now_ms >= lookup(s.views, id)->Some_0.expires_at_ms,
    ensures
        live_outcome(s, id, now_ms) == Err::<ViewSpec, ViewErrorKind>(ViewErrorKind::Expired),
        live_outcome(after_event(s, e), id, now_ms) == Err::<ViewSpec, ViewErrorKind>(ViewErrorKind::Expired),
        live_outcome(after_overflow(s), id, now_ms) == Err::<ViewSpec, ViewErrorKind>(ViewErrorKind::Expired),
{
    lemma_after_event_lookup(s, e, id);
    lemma_overflow_stales_every_view(s, id, now_ms);
}

proof fn lemma_evict(vs: Seq<ViewSpec>, order: Seq<Seq<char>>, cap: nat)
    requires
        cap >= 1,
        ids_unique(vs),
        forall|i: int| 0 <= i < vs.len() ==> order.contains(#[trigger] vs[i].id),
    ensures
        ids_unique(evict(vs, order, cap).0),
        evict(vs, order, cap).0.len() < cap || evict(vs, order, cap).0.len() <= vs.len() && vs.len() < cap,
        forall|k: int| 0 <= k < evict(vs, order, cap).0.len() ==> vs.contains(#[trigger] evict(vs, order, cap).0[k]),
    decreases order.len(),
{
    if vs.len() < cap || order.len() == 0 {
        if order.len() == 0 && vs.len() > 0 {
            assert(order.contains(vs[0].id));
        }
        assert forall|k: int| 0 <= k < vs.len() implies vs.contains(#[trigger] vs[k]) by {}
    } else {
        let r = remove_id(vs, order[0]);
        lemma_remove_id(vs, order[0]);
        let o = order.drop_first();
        assert forall|k: int| 0 <= k < r.len() implies o.contains(#[trigger] r[k].id) by {
            assert(vs.contains(r[k]));
            let j = choose|j: int| 0 <= j < vs.len() && vs[j] == r[k];
            assert(order.contains(vs[j].id));
            let q = choose|q: int| 0 <= q < order.len() && order[q] == r[k].id;
            assert(q != 0);
            assert(o[q - 1] == r[k].id);
        }
        lemma_evict(r, o, cap);
        let ev = evict(r, o, cap).0;
        assert forall|k: int| 0 <= k < ev.len() implies vs.contains(#[trigger] ev[k]) by {
            assert(r.contains(ev[k]));
            let j = choose|j: int| 0 <= j < r.len() && r[j] == ev[k];
            assert(vs.contains(r[j]));
        }
    }
}

/// Recording a view never lets the store hold more than its capacity.
pub proof fn lemma_insert_respects_capacity(s: StoreView, v: ViewSpec)
    requires
        store_inv(s),
    ensures
        after_insert(s, v).views.len() <= s.capacity,
{
    lemma_evict(s.views, s.order, s.capacity);
    let ev = evict(s.views, s.order, s.capacity);
    lemma_upsert(ev.0, v);
}

proof fn lemma_evict_removes_first(vs: Seq<ViewSpec>, order: Seq<Seq<char>>, cap: nat, x: Seq<char>)
    requires
        ids_unique(vs),
        !has_id(vs, x),
    ensures
        !has_id(evict(vs, order, cap).0, x),
    decreases order.len(),
{
    if vs.len() < cap || order.len() == 0 {
    } else {
        lemma_remove_id(vs, order[0]);
        let r = remove_id(vs, order[0]);
        if has_id(r, x) {
            let k = id_index(r, x);
            assert(vs.contains(r[k]));
            let j = choose|j: int| 0 <= j < vs.len() && vs[j] == r[k];
            assert(vs[j].id == x);
        }
        lemma_evict_removes_first(r, order.drop_first(), cap, x);
    }
}

/// When the store is full, recording a view evicts the view inserted first (the oldest
/// id of the insertion order).
pub proof fn lemma_eviction_is_oldest_first(s: StoreView, v: ViewSpec)
    requires
        store_inv(s),
        s.views.len() >= s.capacity,
        v.id != s.order[0],
    ensures
        !has_id(after_insert(s, v).views, s.order[0]),
{
    let x = s.order[0];
    assert(s.order.len() > 0) by {
        assert(s.order.contains(s.views[0].id));
    }
    lemma_remove_id(s.views, x);
    let r = remove_id(s.views, x);
    assert(!has_id(r, x)) by {
        if has_id(r, x) {
            let k = id_index(r, x);
        }
    }
    lemma_evict_removes_first(r, s.order.drop_first(), s.capacity, x);
    let ev = evict(s.views, s.order, s.capacity);
    lemma_evict(s.views, s.order, s.capacity);
    lemma_upsert(ev.0, v);
    let u = upsert(ev.0, v);
    if has_id(u, x) {
        let k = id_index(u, x);
        if u[k].id != v.id {
            assert(ev.0.contains(u[k]));
            let j = choose|j: int| 0 <= j < ev.0.len() && ev.0[j] == u[k];
            assert(ev.0[j].id == x);
        }
    }
}

} // verus!
