//! The semantic application-profile cache: profiles pair a semantic selector recipe
//! (durable knowledge) with a generation-bound live reference (short-lived knowledge).
//! The cache is bounded, evicts the least recently used profile first, and never
//! hands out a profile that fails validation.
use vstd::prelude::*;

use crate::model::{opt_text, WindowInfo};
use crate::refs::{
    query_empty, surface_text, text_views, EntryView, LocatorQuery, RefEntry, RefPath,
    SnapshotSurface,
};
use crate::selector::{recipe_of, recipe_valid, window_generation, RecipeView, SemanticSelectorRecipe};
use crate::runtime_events::{
    event_views, events_after, read_overflows, sat, tail_position, BusView, EventView,
    ProcessScopeView, RuntimeEvent, RuntimeEventBus, RuntimeEventCursor, RuntimeProcessScope,
    RuntimeWindowScope, WindowScopeView,
};
use crate::text::{concat, normalize, normalized, owned, text_eq};

verus! {

/// Most profiles the cache holds.
pub const MAX_PROFILES: usize = 256;

/// The cache key of a find request.
#[derive(Clone, Debug, PartialEq, Eq, Hash)]
pub struct AppProfileKey(String);

impl View for AppProfileKey {
    type V = Seq<char>;

    closed spec fn view(&self) -> Seq<char> {
        self.0@
    }
}

impl AppProfileKey {
    /// The key text.
    pub fn text(&self) -> (r: &str)
        ensures
            r@ == self@,
    {
        self.0.as_str()
    }

    /// A key with the given text.
    pub fn from_text(text: &str) -> (r: Self)
        ensures
            r@ == text@,
    {
        AppProfileKey(owned(text))
    }

    fn duplicate(&self) -> (r: Self)
        ensures
            r@ == self@,
    {
        AppProfileKey(self.0.clone())
    }
}

/// Only exact, text-free, state-free, containment-free, non-empty queries are cached.
pub open spec fn cacheable(q: LocatorQuery) -> bool {
    q.has_text is None && q.states@.len() == 0 && q.containment.has is None
        && q.containment.has_not is None && !query_empty(q)
}

/// `query_is_cacheable`.
pub fn query_is_cacheable(query: &LocatorQuery) -> (r: bool)
    ensures
        r == cacheable(*query),
{
    query.has_text.is_none() && query.states.len() == 0 && query.containment.has.is_none()
        && query.containment.has_not.is_none() && !query.is_empty()
}

/// The text of a find key: `v1|surface|normalized app|window id|query JSON`.
pub open spec fn find_key_text(
    query_json: Seq<char>,
    app: Option<Seq<char>>,
    window_id: Option<Seq<char>>,
    surface: SnapshotSurface,
) -> Seq<char> {
    "v1|"@ + surface_text(surface) + "|"@ + (match app {
        Some(a) => normalized(a),
        None => Seq::empty(),
    }) + "|"@ + (match window_id {
        Some(w) => w,
        None => Seq::empty(),
    }) + "|"@ + query_json
}

/// `key_for_find`: the cache key of a cacheable query, given the query's JSON encoding
/// (`None` when it could not be encoded); `None` for a query that is not cacheable.
pub fn key_for_find(
    query: &LocatorQuery,
    query_json: Option<&str>,
    app: Option<&str>,
    window_id: Option<&str>,
    surface: SnapshotSurface,
) -> (r: Option<AppProfileKey>)
    ensures
        r is Some <==> (cacheable(*query) && query_json is Some),
        r matches Some(k) ==> k@ == find_key_text(
            query_json->0@,
            match app {
                Some(a) => Some(a@),
                None => None,
            },
            match window_id {
                Some(w) => Some(w@),
                None => None,
            },
            surface,
        ),
{
    if !query_is_cacheable(query) {
        return None;
    }
    let json = match query_json {
        Some(j) => j,
        None => return None,
    };
    let a = concat("v1|", surface.as_str());
    let b = concat(a.as_str(), "|");
    let app_text = match app {
        Some(x) => normalize(x),
        None => String::new(),
    };
    assert(app_text@ == match app {
        Some(x) => normalized(x@),
        None => Seq::<char>::empty(),
    });
    let c = concat(b.as_str(), app_text.as_str());
    let d = concat(c.as_str(), "|");
    let window_text = match window_id {
        Some(w) => owned(w),
        None => String::new(),
    };
    assert(window_text@ == match window_id {
        Some(w) => w@,
        None => Seq::<char>::empty(),
    });
    let e = concat(d.as_str(), window_text.as_str());
    let f = concat(e.as_str(), "|");
    let g = concat(f.as_str(), json);
    Some(AppProfileKey(g))
}

/// The semantic window scope of a profile: normalized app and title, and the surface.
#[derive(Clone, Debug)]
pub struct WindowSignature {
    app: String,
    title: String,
    surface: SnapshotSurface,
}

impl View for WindowSignature {
    type V = (Seq<char>, Seq<char>, SnapshotSurface);

    closed spec fn view(&self) -> (Seq<char>, Seq<char>, SnapshotSurface) {
        (self.app@, self.title@, self.surface)
    }
}

impl WindowSignature {
    /// The signature of a window on a surface.
    pub fn new(window: &WindowInfo, surface: SnapshotSurface) -> (r: Self)
        ensures
            r@ == (normalized(window.app@), normalized(window.title@), surface),
    {
        WindowSignature {
            app: normalize(window.app.as_str()),
            title: normalize(window.title.as_str()),
            surface,
        }
    }
}

/// A learned profile: window signature, semantic recipe, and live generation with its
/// reference entry.
#[derive(Clone, Debug)]
pub struct AppProfile {
    window: WindowSignature,
    selector: SemanticSelectorRecipe,
    pid: u32,
    process_instance: String,
    window_id: String,
    entry: RefEntry,
    live: bool,
}

/// The plain values of a profile.
pub struct ProfileView {
    pub app: Seq<char>,
    pub title: Seq<char>,
    pub surface: SnapshotSurface,
    pub selector: RecipeView,
    pub pid: u32,
    pub process_instance: Seq<char>,
    pub window_id: Seq<char>,
    pub entry: EntryView,
    /// No runtime event has yet invalidated the live reference.
    pub live: bool,
}

impl View for AppProfile {
    type V = ProfileView;

    closed spec fn view(&self) -> ProfileView {
        ProfileView {
            app: self.window.app@,
            title: self.window.title@,
            surface: self.window.surface,
            selector: self.selector@,
            pid: self.pid,
            process_instance: self.process_instance@,
            window_id: self.window_id@,
            entry: self.entry@,
            live: self.live,
        }
    }
}

/// The profile learned from a match in a window: `None` when the window has no process
/// generation or the element yields no recipe.
pub open spec fn profile_of(
    w: WindowInfo,
    surface: SnapshotSurface,
    e: EntryView,
    display: Seq<Seq<char>>,
) -> Option<ProfileView> {
    match (window_generation(w), recipe_of(e, display)) {
        (Some(instance), Some(recipe)) => Some(
            ProfileView {
                app: normalized(w.app@),
                title: normalized(w.title@),
                surface,
                selector: recipe,
                pid: w.pid.spec_get(),
                process_instance: instance,
                window_id: w.id@,
                entry: e,
                live: true,
            },
        ),
        _ => None,
    }
}

/// A profile is usable: valid recipe, a real live generation, and a live entry that
/// belongs to that generation, window, surface and app.
pub open spec fn profile_valid(v: ProfileView) -> bool {
    &&& recipe_valid(v.selector)
    &&& v.process_instance.len() > 0
    &&& v.pid != 0
    &&& v.entry.pid == v.pid
    &&& v.entry.process_instance == Some(v.process_instance)
    &&& v.entry.source_window_id == Some(v.window_id)
    &&& v.entry.source_surface == v.surface
    &&& match v.entry.source_app {
        Some(a) => normalized(a) == v.app,
        None => false,
    }
}

impl AppProfile {
    /// `from_match`: learns a profile from a match in a window.
    pub fn from_match(
        window: &WindowInfo,
        surface: SnapshotSurface,
        entry: &RefEntry,
        display_path: &Vec<String>,
    ) -> (r: Option<Self>)
        ensures
            r is Some <==> profile_of(*window, surface, entry@, text_views(display_path@)) is Some,
            r matches Some(p) ==> profile_of(*window, surface, entry@, text_views(display_path@))
                == Some(p@),
    {
        let process_instance = match &window.process_instance {
            Some(i) => if i.as_str().is_empty() {
                return None;
            } else {
                i.clone()
            },
            None => return None,
        };
        let selector = match SemanticSelectorRecipe::from_entry(entry, display_path) {
            Some(s) => s,
            None => return None,
        };
        Some(
            AppProfile {
                window: WindowSignature::new(window, surface),
                selector,
                pid: window.pid.get(),
                process_instance,
                window_id: window.id.clone(),
                entry: entry.duplicate(),
                live: true,
            },
        )
    }

    /// `window_matches`: the window still has the profile's normalized app, title and surface.
    pub fn window_matches(&self, window: &WindowInfo, surface: SnapshotSurface) -> (r: bool)
        ensures
            r == (self@.app == normalized(window.app@) && self@.title == normalized(window.title@)
                && self@.surface == surface),
    {
        let signature = WindowSignature::new(window, surface);
        text_eq(self.window.app.as_str(), signature.app.as_str()) && text_eq(
            self.window.title.as_str(),
            signature.title.as_str(),
        ) && self.window.surface == signature.surface
    }

    /// `live_generation_matches`: the live reference has not been invalidated by a runtime
    /// event and the window is the same live generation (pid, process generation and
    /// native window id) it belongs to.
    pub fn live_generation_matches(&self, window: &WindowInfo) -> (r: bool)
        ensures
            r == (self@.live && match opt_text(window.process_instance) {
                Some(i) => self@.pid == window.pid.spec_get() && self@.process_instance == i
                    && self@.window_id == window.id@,
                None => false,
            }),
    {
        if !self.live {
            return false;
        }
        match &window.process_instance {
            Some(instance) => self.pid == window.pid.get() && text_eq(
                self.process_instance.as_str(),
                instance.as_str(),
            ) && text_eq(self.window_id.as_str(), window.id.as_str()),
            None => false,
        }
    }

    /// `semantic_entry`: the reference entry the recipe describes in the given window.
    pub fn semantic_entry(&self, window: &WindowInfo) -> (r: Option<RefEntry>)
        ensures
            r is Some <==> crate::selector::recipe_entry(self@.selector, *window, self@.surface) is Some,
            r matches Some(e) ==> crate::selector::recipe_entry(self@.selector, *window, self@.surface)
                == Some(e@),
    {
        self.selector.to_entry(window, self.window.surface)
    }

    /// The semantic recipe.
    pub fn selector(&self) -> (r: &SemanticSelectorRecipe)
        ensures
            r@ == self@.selector,
    {
        &self.selector
    }

    /// The live reference entry.
    pub fn live_entry(&self) -> (r: &RefEntry)
        ensures
            r@ == self@.entry,
    {
        &self.entry
    }

    /// The live reference's path.
    pub fn live_path(&self) -> (r: RefPath)
        ensures
            r.steps@ == self@.entry.path,
    {
        self.entry.scope.path.duplicate()
    }

    /// `refreshed`: the profile relearned from a fresh entry in a window, keeping the
    /// surface, and the recipe's display path unless a newly observed one is given.
    pub fn refreshed(
        &self,
        window: &WindowInfo,
        entry: &RefEntry,
        observed_display_path: Option<&Vec<String>>,
    ) -> (r: Option<Self>)
        ensures
            ({
                let display = match observed_display_path {
                    Some(p) => text_views(p@),
                    None => self@.selector.display_path,
                };
                &&& r is Some <==> profile_of(*window, self@.surface, entry@, display) is Some
                &&& r matches Some(p) ==> profile_of(*window, self@.surface, entry@, display) == Some(p@)
            }),
    {
        match observed_display_path {
            Some(path) => AppProfile::from_match(window, self.window.surface, entry, path),
            None => {
                let path = crate::refs::copy_texts(self.selector.display_path());
                AppProfile::from_match(window, self.window.surface, entry, &path)
            },
        }
    }

    /// `validate`: whether the profile is usable as a target.
    pub fn validate(&self) -> (r: bool)
        ensures
            r == profile_valid(self@),
    {
        if !self.selector.validate() || self.process_instance.as_str().is_empty() || self.pid == 0
            || self.entry.process.pid.get() != self.pid {
            return false;
        }
        let instance_ok = match &self.entry.process.process_instance {
            Some(i) => text_eq(i.as_str(), self.process_instance.as_str()),
            None => false,
        };
        let window_ok = match &self.entry.source.source_window_id {
            Some(w) => text_eq(w.as_str(), self.window_id.as_str()),
            None => false,
        };
        if !instance_ok || !window_ok || self.entry.source.source_surface != self.window.surface {
            return false;
        }
        match &self.entry.source.source_app {
            Some(app) => {
                let n = normalize(app.as_str());
                text_eq(n.as_str(), self.window.app.as_str())
            },
            None => false,
        }
    }

    fn process_hit(&self, scope: &RuntimeProcessScope) -> (r: bool)
        ensures
            r == process_hits(scope@, self@),
    {
        scope.pid().get() == self.pid && text_eq(scope.process_instance(), self.process_instance.as_str())
    }

    fn window_hit(&self, scope: &RuntimeWindowScope) -> (r: bool)
        ensures
            r == window_hits(scope@, self@),
    {
        if !self.process_hit(scope.process()) {
            return false;
        }
        let title = normalize(scope.title());
        text_eq(title.as_str(), self.window.title.as_str())
    }

    /// Whether a runtime event concerns the profile's live reference.
    pub fn hit_by(&self, event: &RuntimeEvent) -> (r: bool)
        ensures
            r == event_hits_profile(event@, self@),
    {
        match event {
            RuntimeEvent::ProcessStarted { current } => self.process_hit(current),
            RuntimeEvent::ProcessReplaced { previous, current } => self.process_hit(previous)
                || self.process_hit(current),
            RuntimeEvent::ProcessExited { previous } => self.process_hit(previous),
            RuntimeEvent::WindowCreated { current } => self.window_hit(current),
            RuntimeEvent::WindowDestroyed { previous } => self.window_hit(previous),
            RuntimeEvent::WindowGenerationChanged { previous, current } => self.window_hit(previous)
                || self.window_hit(current),
            RuntimeEvent::AccessibilityTreeInvalidated { process } => self.process_hit(process),
            RuntimeEvent::ProviderReset => true,
        }
    }

    /// Invalidates the live reference, keeping the semantic knowledge.
    pub fn drop_live(&mut self)
        ensures
            final(self)@ == without_live(old(self)@),
    {
        self.live = false;
    }

    /// A copy with the same values.
    pub fn duplicate(&self) -> (r: Self)
        ensures
            r@ == self@,
    {
        AppProfile {
            window: WindowSignature {
                app: self.window.app.clone(),
                title: self.window.title.clone(),
                surface: self.window.surface,
            },
            selector: self.selector.duplicate(),
            pid: self.pid,
            process_instance: self.process_instance.clone(),
            window_id: self.window_id.clone(),
            entry: self.entry.duplicate(),
            live: self.live,
        }
    }

    /// Marks the profile's recipe unusable (the unknown role).
    pub fn corrupt_selector(&mut self)
        ensures
            final(self)@ == (ProfileView {
                selector: RecipeView { role: "unknown"@, ..old(self)@.selector },
                ..old(self)@
            }),
    {
        self.selector.invalidate_role();
    }
}


/// The outcome of a cache lookup.
#[derive(Clone, Debug)]
pub enum CacheLookup {
    Miss,
    Hit(AppProfile),
    Invalidated,
}

/// The cached `(key, profile)` pairs, least recently used first.
pub type CacheView = Seq<(Seq<char>, ProfileView)>;

/// The cache holds `k`.
pub open spec fn has_key(s: CacheView, k: Seq<char>) -> bool {
    exists|i: int| 0 <= i < s.len() && #[trigger] s[i].0 == k
}

/// The position of `k` in the cache.
pub open spec fn position_of(s: CacheView, k: Seq<char>) -> int {
    choose|i: int| 0 <= i < s.len() && #[trigger] s[i].0 == k
}

/// No key occurs twice and the cache is within its bound.
pub open spec fn cache_inv(s: CacheView) -> bool {
    &&& s.len() <= MAX_PROFILES
    &&& forall|i: int, j: int| 0 <= i < j < s.len() ==> #[trigger] s[i].0 != #[trigger] s[j].0
}

/// The cache without `k`.
pub open spec fn without_key(s: CacheView, k: Seq<char>) -> CacheView {
    if has_key(s, k) {
        s.remove(position_of(s, k))
    } else {
        s
    }
}

/// The cache with its least recently used entries dropped until it fits its bound.
pub open spec fn evict(s: CacheView) -> CacheView
    decreases s.len(),
{
    if s.len() > MAX_PROFILES {
        evict(s.drop_first())
    } else {
        s
    }
}

/// The cache after storing a usable profile under `k`: it becomes the most recently used.
pub open spec fn after_store(s: CacheView, k: Seq<char>, p: ProfileView) -> CacheView {
    evict(without_key(s, k).push((k, p)))
}

/// The profile a lookup of `k` would hand out, if any.
pub open spec fn hit_of(s: CacheView, k: Seq<char>) -> Option<ProfileView> {
    if has_key(s, k) && profile_valid(s[position_of(s, k)].1) {
        Some(s[position_of(s, k)].1)
    } else {
        None
    }
}


/// The runtime process scope is the profile's live process generation.
pub open spec fn process_hits(scope: ProcessScopeView, p: ProfileView) -> bool {
    scope.pid == p.pid && scope.process_instance == p.process_instance
}

/// The runtime window scope is the profile's window in its live process generation.
pub open spec fn window_hits(scope: WindowScopeView, p: ProfileView) -> bool {
    process_hits(scope.process, p) && normalized(scope.title) == p.title
}

/// A runtime event concerns the profile's live reference: it names the profile's
/// process generation or window, or it is a provider reset.
pub open spec fn event_hits_profile(e: EventView, p: ProfileView) -> bool {
    match e {
        EventView::ProcessStarted { current } => process_hits(current, p),
        EventView::ProcessReplaced { previous, current } => process_hits(previous, p)
            || process_hits(current, p),
        EventView::ProcessExited { previous } => process_hits(previous, p),
        EventView::WindowCreated { current } => window_hits(current, p),
        EventView::WindowDestroyed { previous } => window_hits(previous, p),
        EventView::WindowGenerationChanged { previous, current } => window_hits(previous, p)
            || window_hits(current, p),
        EventView::AccessibilityTreeInvalidated { process } => process_hits(process, p),
        EventView::ProviderReset => true,
    }
}

/// The profile with its live reference invalidated; its semantic knowledge is kept.
pub open spec fn without_live(p: ProfileView) -> ProfileView {
    ProfileView { live: false, ..p }
}

/// The cached profiles after a runtime event: each profile the event concerns loses its
/// live reference, the others are unchanged.
pub open spec fn entries_after_event(s: CacheView, e: EventView) -> CacheView {
    s.map_values(
        |x: (Seq<char>, ProfileView)| if event_hits_profile(e, x.1) {
            (x.0, without_live(x.1))
        } else {
            x
        },
    )
}

/// The cached profiles after lost event history: no live reference is kept.
pub open spec fn entries_after_overflow(s: CacheView) -> CacheView {
    s.map_values(|x: (Seq<char>, ProfileView)| (x.0, without_live(x.1)))
}

/// The cached profiles after a sequence of events, in order.
pub open spec fn entries_after_events(s: CacheView, es: Seq<EventView>) -> CacheView
    decreases es.len(),
{
    if es.len() == 0 {
        s
    } else {
        entries_after_event(entries_after_events(s, es.drop_last()), es.last())
    }
}

/// The profiles whose still-valid live reference an event invalidates.
pub open spec fn live_hit(s: CacheView, e: EventView) -> CacheView {
    s.filter(|x: (Seq<char>, ProfileView)| event_hits_profile(e, x.1) && x.1.live)
}

/// The profiles an event does not concern.
pub open spec fn untouched(s: CacheView, e: EventView) -> CacheView {
    s.filter(|x: (Seq<char>, ProfileView)| !event_hits_profile(e, x.1))
}

/// The profiles whose live reference is still valid.
pub open spec fn live_profiles(s: CacheView) -> CacheView {
    s.filter(|x: (Seq<char>, ProfileView)| x.1.live)
}

/// Counters of how runtime events reached the cache.
#[derive(Clone, Copy, Debug, PartialEq, Eq, Structural)]
pub struct ProfileInvalidationMetrics {
    /// Events applied.
    pub events_applied: u64,
    /// Live references invalidated (each at most once).
    pub live_refs_invalidated: u64,
    /// Profiles that an applied event did not concern, summed over the events.
    pub unrelated_profiles_retained: u64,
    /// Times lost event history invalidated every live reference.
    pub overflow_resets: u64,
}

/// All counters at zero.
pub open spec fn zero_metrics() -> ProfileInvalidationMetrics {
    ProfileInvalidationMetrics {
        events_applied: 0,
        live_refs_invalidated: 0,
        unrelated_profiles_retained: 0,
        overflow_resets: 0,
    }
}

/// The counters after one event applied to the profiles `s`.
pub open spec fn metrics_after_event(m: ProfileInvalidationMetrics, s: CacheView, e: EventView) -> ProfileInvalidationMetrics {
    ProfileInvalidationMetrics {
        events_applied: sat(m.events_applied + 1) as u64,
        live_refs_invalidated: sat(m.live_refs_invalidated + live_hit(s, e).len()) as u64,
        unrelated_profiles_retained: sat(m.unrelated_profiles_retained + untouched(s, e).len()) as u64,
        overflow_resets: m.overflow_resets,
    }
}

/// The counters after lost event history invalidated the live references of `s`.
pub open spec fn metrics_after_overflow(m: ProfileInvalidationMetrics, s: CacheView) -> ProfileInvalidationMetrics {
    ProfileInvalidationMetrics {
        live_refs_invalidated: sat(m.live_refs_invalidated + live_profiles(s).len()) as u64,
        overflow_resets: sat(m.overflow_resets + 1) as u64,
        ..m
    }
}

/// The counters after a sequence of events applied in order from the profiles `s`.
pub open spec fn metrics_after_events(m: ProfileInvalidationMetrics, s: CacheView, es: Seq<EventView>) -> ProfileInvalidationMetrics
    decreases es.len(),
{
    if es.len() == 0 {
        m
    } else {
        metrics_after_event(
            metrics_after_events(m, s, es.drop_last()),
            entries_after_events(s, es.drop_last()),
            es.last(),
        )
    }
}

/// The cached profiles after catching up with the bus from cursor position `c`: no live
/// reference is kept when history was lost, then each retained newer event applies.
pub open spec fn entries_after_pending(s: CacheView, c: u64, b: BusView) -> CacheView {
    let s1 = if read_overflows(b, c) { entries_after_overflow(s) } else { s };
    entries_after_events(s1, events_after(b.retained, c))
}

/// The counters after catching up with the bus from cursor position `c`.
pub open spec fn metrics_after_pending(
    m: ProfileInvalidationMetrics,
    s: CacheView,
    c: u64,
    b: BusView,
) -> ProfileInvalidationMetrics {
    let m1 = if read_overflows(b, c) { metrics_after_overflow(m, s) } else { m };
    let s1 = if read_overflows(b, c) { entries_after_overflow(s) } else { s };
    metrics_after_events(m1, s1, events_after(b.retained, c))
}

/// The cache after a lookup of `k`: a usable profile becomes the most recently used,
/// an unusable one is removed.
pub open spec fn after_lookup(s: CacheView, k: Seq<char>) -> CacheView {
    if !has_key(s, k) {
        s
    } else if !profile_valid(s[position_of(s, k)].1) {
        s.remove(position_of(s, k))
    } else {
        s.remove(position_of(s, k)).push(s[position_of(s, k)])
    }
}

/// What a lookup of `k` answers: a miss without a profile, invalidated for an unusable
/// one, else the profile.
pub open spec fn lookup_answer(s: CacheView, k: Seq<char>, r: CacheLookup) -> bool {
    if !has_key(s, k) {
        r is Miss
    } else if !profile_valid(s[position_of(s, k)].1) {
        r is Invalidated
    } else {
        r matches CacheLookup::Hit(p) && p@ == s[position_of(s, k)].1
    }
}

/// A bounded, least-recently-used cache of application profiles.
pub struct ProfileCache {
    entries: Vec<(AppProfileKey, AppProfile)>,
    cursor: RuntimeEventCursor,
    invalidation: ProfileInvalidationMetrics,
}

impl View for ProfileCache {
    type V = CacheView;

    closed spec fn view(&self) -> CacheView {
        self.entries@.map_values(|e: (AppProfileKey, AppProfile)| (e.0@, e.1@))
    }
}

impl ProfileCache {
    /// The cache invariant.
    pub open spec fn wf(&self) -> bool {
        cache_inv(self@)
    }

    /// The position of the last bus event the cache has taken into account.
    pub closed spec fn event_position(&self) -> u64 {
        self.cursor.spec_position()
    }

    /// The invalidation counters.
    pub closed spec fn metrics(&self) -> ProfileInvalidationMetrics {
        self.invalidation
    }

    /// An empty cache, following the bus from its start, with all counters at zero.
    pub fn new() -> (r: Self)
        ensures
            r.wf(),
            r@ == Seq::<(Seq<char>, ProfileView)>::empty(),
            r.event_position() == 0,
            r.metrics() == zero_metrics(),
    {
        let r = ProfileCache {
            entries: Vec::new(),
            cursor: RuntimeEventCursor::at(0),
            invalidation: ProfileInvalidationMetrics {
                events_applied: 0,
                live_refs_invalidated: 0,
                unrelated_profiles_retained: 0,
                overflow_resets: 0,
            },
        };
        assert(r@ =~= Seq::<(Seq<char>, ProfileView)>::empty());
        r
    }

    /// The invalidation counters.
    pub fn invalidation(&self) -> (r: ProfileInvalidationMetrics)
        ensures
            r == self.metrics(),
    {
        self.invalidation
    }

    /// `apply_event`: every profile the event concerns loses its live reference and keeps
    /// its key and semantic knowledge; the other profiles are unchanged. The counters
    /// record the event, the live references it newly invalidated and the profiles it
    /// did not concern.
    pub fn apply_event(&mut self, event: &RuntimeEvent)
        requires
            old(self).wf(),
        ensures
            final(self).wf(),
            final(self)@ == entries_after_event(old(self)@, event@),
            final(self).event_position() == old(self).event_position(),
            final(self).metrics() == metrics_after_event(old(self).metrics(), old(self)@, event@),
    {
        let ghost s0 = self@;
        let ghost e = event@;
        let mut invalidated: u64 = 0;
        let mut retained: u64 = 0;
        let mut i: usize = 0;
        while i < self.entries.len()
            invariant
                i <= self.entries.len(),
                self.entries.len() == s0.len(),
                e == event@,
                self.event_position() == old(self).event_position(),
                self.metrics() == old(self).metrics(),
                forall|q: int| 0 <= q < i ==> self@[q] == #[trigger] entries_after_event(s0, e)[q],
                forall|q: int| i <= q < s0.len() ==> #[trigger] self@[q] == s0[q],
                invalidated == live_hit(s0.take(i as int), e).len(),
                retained == untouched(s0.take(i as int), e).len(),
                invalidated <= i,
                retained <= i,
            decreases self.entries.len() - i,
        {
            proof {
                reveal(Seq::filter);
                assert(s0.take(i + 1).drop_last() =~= s0.take(i as int));
                assert(s0.take(i + 1).last() == s0[i as int]);
            }
            let ghost before = self.entries@;
            let ghost vb = self@;
            assert(vb[i as int] == s0[i as int]);
            if self.entries[i].1.hit_by(event) {
                if self.entries[i].1.live {
                    let (k, mut p) = self.entries.remove(i);
                    p.drop_live();
                    let ghost kv = k@;
                    let ghost pv = p@;
                    self.entries.insert(i, (k, p));
                    assert(self@ =~= vb.update(i as int, (kv, pv)));
                    invalidated = invalidated + 1;
                } else {
                    assert(without_live(vb[i as int].1) == vb[i as int].1);
                    assert(self@ =~= vb);
                }
            } else {
                retained = retained + 1;
                assert(self@ =~= vb);
            }
            assert(self@[i as int] == entries_after_event(s0, e)[i as int]);
            assert forall|q: int| 0 <= q < i + 1 implies self@[q] == #[trigger] entries_after_event(s0, e)[q] by {
                if q < i {
                    assert(self@[q] == vb[q]);
                }
            }
            assert forall|q: int| i + 1 <= q < s0.len() implies #[trigger] self@[q] == s0[q] by {
                assert(self@[q] == vb[q]);
            }
            i = i + 1;
        }
        assert(s0.take(i as int) =~= s0);
        assert(self@ =~= entries_after_event(s0, e));
        self.invalidation.events_applied = self.invalidation.events_applied.saturating_add(1);
        self.invalidation.live_refs_invalidated = self.invalidation.live_refs_invalidated.saturating_add(invalidated);
        self.invalidation.unrelated_profiles_retained = self.invalidation.unrelated_profiles_retained.saturating_add(
            retained,
        );
        proof {
            assert forall|a: int, b: int| 0 <= a < b < self@.len() implies #[trigger] self@[a].0 != #[trigger] self@[b].0 by {
                assert(s0[a].0 != s0[b].0);
            }
        }
    }

    /// `invalidate_all_for_overflow`: lost event history leaves no live reference valid;
    /// keys and semantic knowledge are kept.
    pub fn invalidate_all_for_overflow(&mut self)
        requires
            old(self).wf(),
        ensures
            final(self).wf(),
            final(self)@ == entries_after_overflow(old(self)@),
            final(self).event_position() == old(self).event_position(),
            final(self).metrics() == metrics_after_overflow(old(self).metrics(), old(self)@),
    {
        let ghost s0 = self@;
        let mut invalidated: u64 = 0;
        let mut i: usize = 0;
        while i < self.entries.len()
            invariant
                i <= self.entries.len(),
                self.entries.len() == s0.len(),
                self.event_position() == old(self).event_position(),
                self.metrics() == old(self).metrics(),
                forall|q: int| 0 <= q < i ==> #[trigger] self@[q] == (s0[q].0, without_live(s0[q].1)),
                forall|q: int| i <= q < s0.len() ==> #[trigger] self@[q] == s0[q],
                invalidated == live_profiles(s0.take(i as int)).len(),
                invalidated <= i,
            decreases self.entries.len() - i,
        {
            proof {
                reveal(Seq::filter);
                assert(s0.take(i + 1).drop_last() =~= s0.take(i as int));
                assert(s0.take(i + 1).last() == s0[i as int]);
            }
            let ghost vb = self@;
            assert(vb[i as int] == s0[i as int]);
            if self.entries[i].1.live {
                let (k, mut p) = self.entries.remove(i);
                p.drop_live();
                let ghost kv = k@;
                let ghost pv = p@;
                self.entries.insert(i, (k, p));
                assert(self@ =~= vb.update(i as int, (kv, pv)));
                invalidated = invalidated + 1;
            } else {
                assert(without_live(vb[i as int].1) == vb[i as int].1);
                assert(self@ =~= vb);
            }
            assert forall|q: int| 0 <= q < i + 1 implies #[trigger] self@[q] == (s0[q].0, without_live(s0[q].1)) by {
                if q < i {
                    assert(self@[q] == vb[q]);
                }
            }
            assert forall|q: int| i + 1 <= q < s0.len() implies #[trigger] self@[q] == s0[q] by {
                assert(self@[q] == vb[q]);
            }
            i = i + 1;
        }
        assert(s0.take(i as int) =~= s0);
        assert(self@ =~= entries_after_overflow(s0));
        self.invalidation.live_refs_invalidated = self.invalidation.live_refs_invalidated.saturating_add(invalidated);
        self.invalidation.overflow_resets = self.invalidation.overflow_resets.saturating_add(1);
        proof {
            assert forall|a: int, b: int| 0 <= a < b < self@.len() implies #[trigger] self@[a].0 != #[trigger] self@[b].0 by {
                assert(s0[a].0 != s0[b].0);
            }
        }
    }

    /// `apply_pending_events`: catches up with the bus. No live reference stays valid when
    /// the bus lost events this cache had not seen; then each new event applies in order,
    /// and the cache's cursor moves to the bus's last event.
    pub fn apply_pending_events(&mut self, bus: &RuntimeEventBus)
        requires
            old(self).wf(),
            bus.wf(),
        ensures
            final(self).wf(),
            final(self)@ == entries_after_pending(old(self)@, old(self).event_position(), bus@),
            final(self).event_position() == tail_position(bus@),
            final(self).metrics() == metrics_after_pending(
                old(self).metrics(),
                old(self)@,
                old(self).event_position(),
                bus@,
            ),
    {
        let ghost s0 = self@;
        let ghost m0 = self.metrics();
        let ghost c0 = self.event_position();
        let batch = crate::runtime_events::runtime_events_since(bus, self.cursor);
        self.cursor = batch.cursor;
        if batch.overflowed {
            self.invalidate_all_for_overflow();
        }
        let ghost s2 = self@;
        let ghost m2 = self.metrics();
        let ghost es = event_views(batch.events@);
        let mut i: usize = 0;
        while i < batch.events.len()
            invariant
                i <= batch.events.len(),
                self.wf(),
                es == event_views(batch.events@),
                self.event_position() == tail_position(bus@),
                self@ == entries_after_events(s2, es.take(i as int)),
                self.metrics() == metrics_after_events(m2, s2, es.take(i as int)),
            decreases batch.events.len() - i,
        {
            self.apply_event(&batch.events[i]);
            proof {
                assert(es.take(i + 1).drop_last() =~= es.take(i as int));
                assert(es.take(i + 1).last() == batch.events@[i as int]@);
            }
            i = i + 1;
        }
        assert(es.take(i as int) =~= es);
    }

    /// Number of cached profiles.
    pub fn len(&self) -> (r: usize)
        ensures
            r == self@.len(),
    {
        self.entries.len()
    }

    fn find(&self, key: &AppProfileKey) -> (r: Option<usize>)
        requires
            self.wf(),
        ensures
            r is Some <==> has_key(self@, key@),
            r matches Some(i) ==> i < self@.len() && i == position_of(self@, key@),
    {
        let mut i: usize = 0;
        while i < self.entries.len()
            invariant
                i <= self.entries.len(),
                self.wf(),
                forall|q: int| 0 <= q < i ==> (#[trigger] self@[q]).0 != key@,
            decreases self.entries.len() - i,
        {
            if text_eq(self.entries[i].0.text(), key.text()) {
                proof {
                    assert(self@[i as int].0 == key@);
                    let p = position_of(self@, key@);
                    assert(self@[p].0 == key@);
                    if p != i {
                        if p < i {
                            assert(self@[p].0 != self@[i as int].0);
                        } else {
                            assert(self@[i as int].0 != self@[p].0);
                        }
                    }
                }
                return Some(i);
            }
            i = i + 1;
        }
        None
    }

    proof fn lemma_remove_keeps_inv(s: CacheView, i: int)
        requires
            cache_inv(s),
            0 <= i < s.len(),
        ensures
            cache_inv(s.remove(i)),
            forall|k: Seq<char>| #[trigger] has_key(s.remove(i), k) <==> (has_key(s, k) && k != s[i].0),
    {
        let r = s.remove(i);
        assert forall|a: int, b: int| 0 <= a < b < r.len() implies #[trigger] r[a].0 != #[trigger] r[b].0 by {
            let a2 = if a < i { a } else { a + 1 };
            let b2 = if b < i { b } else { b + 1 };
            assert(r[a] == s[a2] && r[b] == s[b2]);
        }
        assert forall|k: Seq<char>| #[trigger] has_key(r, k) <==> (has_key(s, k) && k != s[i].0) by {
            if has_key(r, k) {
                let j = choose|j: int| 0 <= j < r.len() && #[trigger] r[j].0 == k;
                let j2 = if j < i { j } else { j + 1 };
                assert(s[j2].0 == k);
                assert(j2 != i);
                if k == s[i].0 {
                    if j2 < i {
                        assert(s[j2].0 != s[i].0);
                    } else {
                        assert(s[i].0 != s[j2].0);
                    }
                }
            }
            if has_key(s, k) && k != s[i].0 {
                let j = choose|j: int| 0 <= j < s.len() && #[trigger] s[j].0 == k;
                assert(j != i);
                let j2 = if j < i { j } else { j - 1 };
                assert(r[j2].0 == k);
            }
        }
    }

    fn lookup_current(&mut self, key: &AppProfileKey) -> (r: CacheLookup)
        requires
            old(self).wf(),
        ensures
            final(self).wf(),
            final(self).event_position() == old(self).event_position(),
            final(self).metrics() == old(self).metrics(),
            final(self)@ == after_lookup(old(self)@, key@),
            lookup_answer(old(self)@, key@, r),
    {
        let ghost s = self@;
        let pos = match self.find(key) {
            Some(i) => i,
            None => return CacheLookup::Miss,
        };
        let valid = self.entries[pos].1.validate();
        let ghost at = s[pos as int];
        let removed = self.entries.remove(pos);
        proof {
            assert(self@ =~= s.remove(pos as int));
            Self::lemma_remove_keeps_inv(s, pos as int);
        }
        if !valid {
            return CacheLookup::Invalidated;
        }
        let profile = removed.1.duplicate();
        let ghost mid = self@;
        self.entries.push(removed);
        proof {
            assert(self@ =~= mid.push(at));
            assert forall|a: int, b: int| 0 <= a < b < self@.len() implies #[trigger] self@[a].0 != #[trigger] self@[b].0 by {
                if b == self@.len() - 1 {
                    assert(!has_key(mid, at.0));
                    assert(mid[a].0 != at.0) by {
                        if mid[a].0 == at.0 {
                            assert(has_key(mid, at.0));
                        }
                    }
                } else {
                    assert(self@[a] == mid[a] && self@[b] == mid[b]);
                }
            }
        }
        CacheLookup::Hit(profile)
    }

    /// `lookup`: catches up with the runtime events published since the cache last
    /// looked (they may invalidate live references), then hands out a usable profile
    /// under `key`, which becomes the most recently used; an unusable one is removed and
    /// reported as invalidated; no profile is a miss.
    pub fn lookup(&mut self, bus: &RuntimeEventBus, key: &AppProfileKey) -> (r: CacheLookup)
        requires
            old(self).wf(),
            bus.wf(),
        ensures
            final(self).wf(),
            final(self).event_position() == tail_position(bus@),
            final(self).metrics() == metrics_after_pending(
                old(self).metrics(),
                old(self)@,
                old(self).event_position(),
                bus@,
            ),
            ({
                let s = entries_after_pending(old(self)@, old(self).event_position(), bus@);
                final(self)@ == after_lookup(s, key@) && lookup_answer(s, key@, r)
            }),
    {
        self.apply_pending_events(bus);
        self.lookup_current(key)
    }

    /// `store`: keeps a usable profile under `key` as the most recently used one, evicting
    /// the least recently used profiles beyond `MAX_PROFILES`; an unusable profile is
    /// refused and the cache left unchanged.
    pub fn store(&mut self, key: AppProfileKey, profile: AppProfile) -> (r: bool)
        requires
            old(self).wf(),
        ensures
            final(self).wf(),
            final(self).event_position() == old(self).event_position(),
            final(self).metrics() == old(self).metrics(),
            r == profile_valid(profile@),
            !r ==> final(self)@ == old(self)@,
            r ==> final(self)@ == after_store(old(self)@, key@, profile@),
    {
        if !profile.validate() {
            return false;
        }
        let ghost s = self@;
        let ghost k = key@;
        match self.find(&key) {
            Some(pos) => {
                let _ = self.entries.remove(pos);
                proof {
                    assert(self@ =~= s.remove(pos as int));
                    Self::lemma_remove_keeps_inv(s, pos as int);
                }
            },
            None => {},
        }
        let ghost mid = self@;
        assert(mid == without_key(s, k));
        assert(!has_key(mid, k)) by {
            if has_key(s, k) {
                Self::lemma_remove_keeps_inv(s, position_of(s, k));
            }
        }
        let ghost pv = profile@;
        self.entries.push((key, profile));
        proof {
            assert(self@ =~= mid.push((k, pv)));
            assert forall|a: int, b: int| 0 <= a < b < self@.len() implies #[trigger] self@[a].0 != #[trigger] self@[b].0 by {
                if b == self@.len() - 1 {
                    assert(mid[a].0 != k) by {
                        if mid[a].0 == k {
                            assert(has_key(mid, k));
                        }
                    }
                } else {
                    assert(self@[a] == mid[a] && self@[b] == mid[b]);
                }
            }
        }
        while self.entries.len() > MAX_PROFILES
            invariant
                evict(self@) == evict(mid.push((k, pv))),
                self.event_position() == old(self).event_position(),
                self.metrics() == old(self).metrics(),
                forall|a: int, b: int| 0 <= a < b < self@.len() ==> #[trigger] self@[a].0 != #[trigger] self@[b].0,
            decreases self.entries.len(),
        {
            let ghost before = self@;
            let _ = self.entries.remove(0);
            proof {
                assert(self@ =~= before.drop_first());
                assert forall|a: int, b: int| 0 <= a < b < self@.len() implies #[trigger] self@[a].0 != #[trigger] self@[b].0 by {
                    assert(self@[a] == before[a + 1] && self@[b] == before[b + 1]);
                }
            }
        }
        true
    }

    /// `invalidate`: removes the profile under `key`, if any.
    pub fn invalidate(&mut self, key: &AppProfileKey)
        requires
            old(self).wf(),
        ensures
            final(self).wf(),
            final(self).event_position() == old(self).event_position(),
            final(self).metrics() == old(self).metrics(),
            final(self)@ == without_key(old(self)@, key@),
    {
        let ghost s = self@;
        match self.find(key) {
            Some(pos) => {
                let _ = self.entries.remove(pos);
                proof {
                    assert(self@ =~= s.remove(pos as int));
                    Self::lemma_remove_keeps_inv(s, pos as int);
                }
            },
            None => {},
        }
    }

    /// Empties the cache and resets its counters; it goes on following the bus from where
    /// it was.
    pub fn clear(&mut self)
        ensures
            final(self).wf(),
            final(self)@ == Seq::<(Seq<char>, ProfileView)>::empty(),
            final(self).event_position() == old(self).event_position(),
            final(self).metrics() == zero_metrics(),
    {
        self.entries = Vec::new();
        self.invalidation = ProfileInvalidationMetrics {
            events_applied: 0,
            live_refs_invalidated: 0,
            unrelated_profiles_retained: 0,
            overflow_resets: 0,
        };
        assert(self@ =~= Seq::<(Seq<char>, ProfileView)>::empty());
    }

    /// Marks the profile under `key`, if any, unusable (its recipe gets the unknown role).
    pub fn corrupt(&mut self, key: &AppProfileKey)
        requires
            old(self).wf(),
        ensures
            final(self).wf(),
            final(self).event_position() == old(self).event_position(),
            final(self).metrics() == old(self).metrics(),
            final(self)@.len() == old(self)@.len(),
            has_key(old(self)@, key@) ==> !profile_valid(final(self)@[position_of(old(self)@, key@)].1),
    {
        let ghost s = self@;
        match self.find(key) {
            Some(pos) => {
                let (k, mut p) = self.entries.remove(pos);
                p.corrupt_selector();
                self.entries.insert(pos, (k, p));
                proof {
                    let r = self@;
                    assert forall|a: int, b: int| 0 <= a < b < r.len() implies #[trigger] r[a].0 != #[trigger] r[b].0 by {
                        assert(r[a].0 == s[a].0 && r[b].0 == s[b].0);
                    }
                }
            },
            None => {},
        }
    }
}

proof fn lemma_evict_bounded(s: CacheView)
    ensures
        evict(s).len() <= MAX_PROFILES,
        s.len() > 0 && s.len() <= MAX_PROFILES + 1 ==> evict(s).len() > 0 && evict(s).last() == s.last(),
    decreases s.len(),
{
    if s.len() > MAX_PROFILES {
        lemma_evict_bounded(s.drop_first());
    }
}

/// Storing a usable profile and then looking its key up hands that profile back:
/// what the cache learns it can serve on the next request.
pub proof fn lemma_store_then_lookup_hits(s: CacheView, k: Seq<char>, p: ProfileView)
    requires
        cache_inv(s),
        profile_valid(p),
    ensures
        hit_of(after_store(s, k, p), k) == Some(p),
        after_store(s, k, p).len() <= MAX_PROFILES,
{
    let mid = without_key(s, k);
    if has_key(s, k) {
        ProfileCache::lemma_remove_keeps_inv(s, position_of(s, k));
    }
    assert(mid.len() <= MAX_PROFILES);
    let pushed = mid.push((k, p));
    lemma_evict_bounded(pushed);
    let t = after_store(s, k, p);
    assert(t.last() == (k, p));
    assert(t[t.len() - 1].0 == k);
    assert(has_key(t, k));
    let q = position_of(t, k);
    // the evicted list is a suffix of the pushed list, whose keys are distinct
    lemma_evict_suffix(pushed);
    if q != t.len() - 1 {
        let off = pushed.len() - t.len();
        assert(t[q] == pushed[q + off]);
        assert(pushed[q + off].0 == k);
        assert(mid[q + off].0 == k);
        assert(has_key(mid, k));
        assert(!has_key(mid, k)) by {
            if has_key(s, k) {
                ProfileCache::lemma_remove_keeps_inv(s, position_of(s, k));
            }
        }
    }
}

proof fn lemma_evict_suffix(s: CacheView)
    ensures
        evict(s).len() <= s.len(),
        forall|i: int| 0 <= i < evict(s).len() ==> #[trigger] evict(s)[i] == s[i + (s.len() - evict(s).len())],
    decreases s.len(),
{
    if s.len() > MAX_PROFILES {
        lemma_evict_suffix(s.drop_first());
    }
}

/// An invalidated key is gone: the next lookup misses.
pub proof fn lemma_invalidated_key_misses(s: CacheView, k: Seq<char>)
    requires
        cache_inv(s),
    ensures
        !has_key(without_key(s, k), k),
        hit_of(without_key(s, k), k) is None,
{
    if has_key(s, k) {
        ProfileCache::lemma_remove_keeps_inv(s, position_of(s, k));
    }
}


/// A runtime event keeps every key in its place and the keys distinct.
proof fn lemma_event_keeps_keys(s: CacheView, e: EventView)
    requires
        cache_inv(s),
    ensures
        entries_after_event(s, e).len() == s.len(),
        forall|i: int| 0 <= i < s.len() ==> (#[trigger] entries_after_event(s, e)[i]).0 == s[i].0,
        cache_inv(entries_after_event(s, e)),
        forall|k: Seq<char>| #[trigger] has_key(entries_after_event(s, e), k) <==> has_key(s, k),
        forall|k: Seq<char>| has_key(s, k) ==> position_of(entries_after_event(s, e), k) == position_of(s, k),
{
    let t = entries_after_event(s, e);
    assert forall|a: int, b: int| 0 <= a < b < t.len() implies #[trigger] t[a].0 != #[trigger] t[b].0 by {
        assert(t[a].0 == s[a].0 && t[b].0 == s[b].0);
    }
    assert forall|k: Seq<char>| #[trigger] has_key(t, k) <==> has_key(s, k) by {
        if has_key(t, k) {
            let j = choose|j: int| 0 <= j < t.len() && #[trigger] t[j].0 == k;
            assert(s[j].0 == k);
        }
        if has_key(s, k) {
            let j = choose|j: int| 0 <= j < s.len() && #[trigger] s[j].0 == k;
            assert(t[j].0 == k);
        }
    }
    assert forall|k: Seq<char>| has_key(s, k) implies position_of(t, k) == position_of(s, k) by {
        let p = position_of(s, k);
        assert(t[p].0 == k);
        assert(has_key(t, k));
        let q = position_of(t, k);
        assert(s[q].0 == k);
        if p < q {
            assert(s[p].0 != s[q].0);
        } else if q < p {
            assert(s[q].0 != s[p].0);
        }
    }
}

/// A runtime event that names a cached profile's process generation or window (or a
/// provider reset) invalidates that profile's live reference: the key stays, with the
/// same semantic selector and window signature, and the profile is still handed out
/// when usable, but no window matches its live generation any more.
pub proof fn lemma_event_invalidates_live_ref(s: CacheView, e: EventView, k: Seq<char>)
    requires
        cache_inv(s),
        has_key(s, k),
        event_hits_profile(e, s[position_of(s, k)].1),
    ensures
        has_key(entries_after_event(s, e), k),
        entries_after_event(s, e)[position_of(entries_after_event(s, e), k)].1
            == without_live(s[position_of(s, k)].1),
        !entries_after_event(s, e)[position_of(entries_after_event(s, e), k)].1.live,
        hit_of(entries_after_event(s, e), k) == if profile_valid(s[position_of(s, k)].1) {
            Some(without_live(s[position_of(s, k)].1))
        } else {
            None::<ProfileView>
        },
{
    lemma_event_keeps_keys(s, e);
}

/// An event that concerns neither a cached profile's process generation nor its window
/// leaves that profile, live reference included, as it was.
pub proof fn lemma_unrelated_event_keeps_profile(s: CacheView, e: EventView, k: Seq<char>)
    requires
        cache_inv(s),
        has_key(s, k),
        !event_hits_profile(e, s[position_of(s, k)].1),
    ensures
        has_key(entries_after_event(s, e), k),
        entries_after_event(s, e)[position_of(entries_after_event(s, e), k)] == s[position_of(s, k)],
        hit_of(entries_after_event(s, e), k) == hit_of(s, k),
{
    lemma_event_keeps_keys(s, e);
}

/// Applying the same event twice is applying it once, and the second application
/// invalidates no further live reference.
pub proof fn lemma_duplicate_profile_event_is_idempotent(s: CacheView, e: EventView)
    ensures
        entries_after_event(entries_after_event(s, e), e) == entries_after_event(s, e),
        live_hit(entries_after_event(s, e), e).len() == 0,
{
    let t = entries_after_event(s, e);
    assert(entries_after_event(t, e) =~= t);
    reveal(Seq::filter);
    assert forall|i: int| 0 <= i < t.len() implies !(event_hits_profile(e, (#[trigger] t[i]).1) && t[i].1.live) by {
        if event_hits_profile(e, s[i].1) {
            assert(t[i].1 == without_live(s[i].1));
        } else {
            assert(t[i] == s[i]);
        }
    }
    lemma_filter_none(t, |x: (Seq<char>, ProfileView)| event_hits_profile(e, x.1) && x.1.live);
}

proof fn lemma_filter_none(s: CacheView, f: spec_fn((Seq<char>, ProfileView)) -> bool)
    requires
        forall|i: int| 0 <= i < s.len() ==> !f(#[trigger] s[i]),
    ensures
        s.filter(f).len() == 0,
    decreases s.len(),
{
    reveal(Seq::filter);
    if s.len() > 0 {
        lemma_filter_none(s.drop_last(), f);
        assert(!f(s.last()));
    }
}

/// Lost event history invalidates every cached live reference and keeps every key and
/// its semantic knowledge.
pub proof fn lemma_overflow_invalidates_every_live_ref(s: CacheView)
    ensures
        entries_after_overflow(s).len() == s.len(),
        forall|i: int| 0 <= i < s.len() ==> (#[trigger] entries_after_overflow(s)[i]).0 == s[i].0
            && entries_after_overflow(s)[i].1 == without_live(s[i].1),
        forall|i: int| 0 <= i < s.len() ==> !(#[trigger] entries_after_overflow(s)[i]).1.live,
{
}

/// No later event, duplicate or reordered, brings back an invalidated live reference;
/// events never change a key, a selector or a window signature.
pub proof fn lemma_no_event_restores_live_ref(s: CacheView, es: Seq<EventView>)
    ensures
        entries_after_events(s, es).len() == s.len(),
        forall|i: int| 0 <= i < s.len() ==> (#[trigger] entries_after_events(s, es)[i]).0 == s[i].0
            && without_live(entries_after_events(s, es)[i].1) == without_live(s[i].1),
        forall|i: int| 0 <= i < s.len() && !s[i].1.live ==> !(#[trigger] entries_after_events(s, es)[i]).1.live,
    decreases es.len(),
{
    if es.len() > 0 {
        lemma_no_event_restores_live_ref(s, es.drop_last());
        let t = entries_after_events(s, es.drop_last());
        assert forall|i: int| 0 <= i < s.len() implies (#[trigger] entries_after_events(s, es)[i]).0 == s[i].0
            && without_live(entries_after_events(s, es)[i].1) == without_live(s[i].1) by {
            assert(without_live(t[i].1) == without_live(s[i].1));
        }
        assert forall|i: int| 0 <= i < s.len() && !s[i].1.live implies !(#[trigger] entries_after_events(s, es)[i]).1.live by {
            assert(!t[i].1.live);
        }
    }
}

/// Catching up with the bus never restores an invalidated live reference, and after
/// lost history no live reference is valid.
pub proof fn lemma_pending_never_restores_live_ref(s: CacheView, c: u64, b: BusView)
    ensures
        entries_after_pending(s, c, b).len() == s.len(),
        forall|i: int| 0 <= i < s.len() ==> (#[trigger] entries_after_pending(s, c, b)[i]).0 == s[i].0,
        forall|i: int| 0 <= i < s.len() && !s[i].1.live ==> !(#[trigger] entries_after_pending(s, c, b)[i]).1.live,
        read_overflows(b, c) ==> forall|i: int| 0 <= i < s.len() ==> !(#[trigger] entries_after_pending(s, c, b)[i]).1.live,
{
    let s1 = if read_overflows(b, c) { entries_after_overflow(s) } else { s };
    lemma_no_event_restores_live_ref(s1, events_after(b.retained, c));
    if read_overflows(b, c) {
        assert forall|i: int| 0 <= i < s.len() implies !(#[trigger] entries_after_pending(s, c, b)[i]).1.live by {
            assert(!s1[i].1.live);
        }
    }
}

/// A lifecycle event of the profile's window (created, destroyed or a new generation,
/// named by the profile's pid, process generation and normalized title), every event
/// about the profile's process generation, and a provider reset concern the profile; a
/// window event naming another window, or an event naming another pid or process
/// generation, does not.
pub proof fn lemma_lifecycle_events_reach_their_profile(
    p: ProfileView,
    w: WindowScopeView,
    x: WindowScopeView,
    s: ProcessScopeView,
    t: ProcessScopeView,
)
    ensures
        w.process.pid == p.pid && w.process.process_instance == p.process_instance && normalized(w.title)
            == p.title ==> {
            &&& event_hits_profile(EventView::WindowCreated { current: w }, p)
            &&& event_hits_profile(EventView::WindowDestroyed { previous: w }, p)
            &&& event_hits_profile(EventView::WindowGenerationChanged { previous: w, current: x }, p)
            &&& event_hits_profile(EventView::WindowGenerationChanged { previous: x, current: w }, p)
        },
        s.pid == p.pid && s.process_instance == p.process_instance ==> {
            &&& event_hits_profile(EventView::ProcessStarted { current: s }, p)
            &&& event_hits_profile(EventView::ProcessExited { previous: s }, p)
            &&& event_hits_profile(EventView::ProcessReplaced { previous: s, current: t }, p)
            &&& event_hits_profile(EventView::ProcessReplaced { previous: t, current: s }, p)
            &&& event_hits_profile(EventView::AccessibilityTreeInvalidated { process: s }, p)
        },
        (w.process.pid != p.pid || w.process.process_instance != p.process_instance || normalized(w.title)
            != p.title) ==> {
            &&& !event_hits_profile(EventView::WindowCreated { current: w }, p)
            &&& !event_hits_profile(EventView::WindowDestroyed { previous: w }, p)
        },
        event_hits_profile(EventView::ProviderReset, p),
        (s.pid != p.pid || s.process_instance != p.process_instance) ==> {
            &&& !event_hits_profile(EventView::ProcessStarted { current: s }, p)
            &&& !event_hits_profile(EventView::ProcessExited { previous: s }, p)
            &&& !event_hits_profile(EventView::AccessibilityTreeInvalidated { process: s }, p)
        },
{
}

/// After its window is destroyed, a cached profile is still handed out with its
/// semantic knowledge, but its live reference is no longer used for any window.
pub proof fn lemma_destroyed_window_drops_live_ref(s: CacheView, w: WindowScopeView, k: Seq<char>)
    requires
        cache_inv(s),
        has_key(s, k),
        w.process.pid == s[position_of(s, k)].1.pid,
        w.process.process_instance == s[position_of(s, k)].1.process_instance,
        normalized(w.title) == s[position_of(s, k)].1.title,
    ensures
        ({
            let t = entries_after_event(s, EventView::WindowDestroyed { previous: w });
            &&& has_key(t, k)
            &&& !t[position_of(t, k)].1.live
            &&& t[position_of(t, k)].1.selector == s[position_of(s, k)].1.selector
            &&& t[position_of(t, k)].1.entry == s[position_of(s, k)].1.entry
        }),
{
    lemma_event_keeps_keys(s, EventView::WindowDestroyed { previous: w });
}

} // verus!
