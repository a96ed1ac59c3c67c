//! The cache-level decisions of a `find` lookup: whether a cached profile is tried warm
//! or the lookup goes cold, what a warm outcome does to the cache, and what is learned
//! after a cold (authoritative, scoped) resolution.
use vstd::prelude::*;

use crate::model::{opt_text, WindowInfo};
use crate::profile::{
    after_lookup, after_store, entries_after_pending, has_key, position_of, profile_of, profile_valid, without_key, AppProfile,
    AppProfileKey, CacheLookup, CacheView, ProfileCache, ProfileView,
};
use crate::refs::{text_views, RefEntry, SnapshotSurface};
use crate::runtime_events::RuntimeEventBus;
use crate::revalidate::{miss_reason_text, MissReason, MissStatus};
use crate::text::normalized;

verus! {

/// The window still has the profile's normalized app, title and surface.
pub open spec fn window_matches_spec(p: ProfileView, w: WindowInfo, surface: SnapshotSurface) -> bool {
    p.app == normalized(w.app@) && p.title == normalized(w.title@) && p.surface == surface
}

/// The profile's live reference is still valid and the window is the live generation it
/// belongs to.
pub open spec fn same_generation_spec(p: ProfileView, w: WindowInfo) -> bool {
    p.live && match opt_text(w.process_instance) {
        Some(i) => p.pid == w.pid.spec_get() && p.process_instance == i && p.window_id == w.id@,
        None => false,
    }
}

/// Why a `find` lookup resolves cold.
#[derive(Clone, Copy, Debug, PartialEq, Eq, Structural)]
pub enum ColdCause {
    /// The request has no cache key.
    NoKey,
    /// No profile is cached under the key.
    NoProfile,
    /// The cached profile failed validation and was dropped.
    InvalidProfile,
    /// The cached profile belongs to another window signature and was dropped.
    WindowChanged,
    /// The warm revalidation found no target.
    WarmMissed,
}

/// How a `find` lookup proceeds.
#[derive(Debug)]
pub enum FindStart {
    /// Resolve cold; `learn` says whether the result is learned into the cache.
    Cold { learn: bool, cause: ColdCause },
    /// Revalidate a cached profile warm.
    Warm { profile: AppProfile, same_generation: bool },
}

/// `resolve`, up to the warm attempt: without a key the lookup goes cold and learns
/// nothing; a missing or unusable profile goes cold and learns; a profile of another
/// window signature is dropped and the lookup goes cold; otherwise the profile is tried
/// warm, knowing whether the window is still its live generation.
pub fn start_find(
    cache: &mut ProfileCache,
    bus: &RuntimeEventBus,
    key: Option<&AppProfileKey>,
    window: &WindowInfo,
    surface: SnapshotSurface,
) -> (r: FindStart)
    requires
        old(cache).wf(),
        bus.wf(),
    ensures
        final(cache).wf(),
        match key {
            None => final(cache)@ == old(cache)@ && r == (FindStart::Cold { learn: false, cause: ColdCause::NoKey }),
            Some(k) => {
                let s = entries_after_pending(old(cache)@, old(cache).event_position(), bus@);
                let s1 = after_lookup(s, k@);
                if has_key(s, k@) && profile_valid(s[position_of(s, k@)].1) {
                    let p = s[position_of(s, k@)].1;
                    if window_matches_spec(p, *window, surface) {
                        final(cache)@ == s1 && (r matches FindStart::Warm { profile, same_generation } && profile@
                            == p && same_generation == same_generation_spec(p, *window))
                    } else {
                        final(cache)@ == without_key(s1, k@) && r == (FindStart::Cold {
                            learn: true,
                            cause: ColdCause::WindowChanged,
                        })
                    }
                } else {
                    final(cache)@ == s1 && r == (FindStart::Cold {
                        learn: true,
                        cause: if has_key(s, k@) {
                            ColdCause::InvalidProfile
                        } else {
                            ColdCause::NoProfile
                        },
                    })
                }
            },
        },
{
    let key = match key {
        None => return FindStart::Cold { learn: false, cause: ColdCause::NoKey },
        Some(k) => k,
    };
    match cache.lookup(bus, key) {
        CacheLookup::Miss => FindStart::Cold { learn: true, cause: ColdCause::NoProfile },
        CacheLookup::Invalidated => FindStart::Cold { learn: true, cause: ColdCause::InvalidProfile },
        CacheLookup::Hit(profile) => {
            if !profile.window_matches(window, surface) {
                cache.invalidate(key);
                return FindStart::Cold { learn: true, cause: ColdCause::WindowChanged };
            }
            let same_generation = profile.live_generation_matches(window);
            FindStart::Warm { profile, same_generation }
        },
    }
}

/// What a warm revalidation produced.
#[derive(Debug)]
pub enum WarmOutcome {
    /// A target, with the profile relearned from it.
    Resolved(AppProfile),
    /// No target.
    Missed(MissStatus),
}

/// `resolve`, after the warm attempt: a resolved target stores the refreshed profile
/// (refused when unusable) and is the answer; a miss goes cold, and an ambiguous miss
/// first drops the profile. Returns whether the warm target is the answer.
pub fn finish_warm(cache: &mut ProfileCache, key: &AppProfileKey, outcome: WarmOutcome) -> (r: bool)
    requires
        old(cache).wf(),
    ensures
        final(cache).wf(),
        match outcome {
            WarmOutcome::Resolved(p) => r && final(cache)@ == if profile_valid(p@) {
                after_store(old(cache)@, key@, p@)
            } else {
                old(cache)@
            },
            WarmOutcome::Missed(status) => !r && final(cache)@ == if status == MissStatus::Ambiguous {
                without_key(old(cache)@, key@)
            } else {
                old(cache)@
            },
        },
{
    match outcome {
        WarmOutcome::Resolved(refreshed) => {
            let k = AppProfileKey::from_text(key.text());
            let _ = cache.store(k, refreshed);
            true
        },
        WarmOutcome::Missed(status) => {
            if status == MissStatus::Ambiguous {
                cache.invalidate(key);
            }
            false
        },
    }
}

/// One match of a cold resolution: its reference entry and display path.
#[derive(Debug)]
pub struct ColdMatch {
    pub entry: RefEntry,
    pub display_path: Vec<String>,
}

/// What `learn_after_cold` reads of a cold resolution.
#[derive(Debug)]
pub struct ColdSummary {
    pub complete: bool,
    pub total_matches: usize,
    pub matches: Vec<ColdMatch>,
}

/// What learning did to the cache.
#[derive(Clone, Copy, Debug, PartialEq, Eq, Structural)]
pub enum LearnOutcome {
    Stored,
    Invalidated,
    Unchanged,
}

/// Whether a cold resolution found exactly one element and saw everything.
pub open spec fn single_complete(c: ColdSummary) -> bool {
    c.complete && c.total_matches == 1 && c.matches@.len() == 1
}

/// The profile a single complete cold match teaches, if any.
pub open spec fn learned_profile(c: ColdSummary, w: WindowInfo, surface: SnapshotSurface) -> Option<ProfileView> {
    profile_of(w, surface, c.matches@[0].entry@, text_views(c.matches@[0].display_path@))
}

/// `learn_after_cold`: a single complete match teaches a usable profile; several matches
/// drop the cached profile, as an ambiguous target must never be served warm.
pub fn learn_after_cold(
    cache: &mut ProfileCache,
    key: &AppProfileKey,
    window: &WindowInfo,
    surface: SnapshotSurface,
    cold: &ColdSummary,
) -> (r: LearnOutcome)
    requires
        old(cache).wf(),
    ensures
        final(cache).wf(),
        if single_complete(*cold) {
            match learned_profile(*cold, *window, surface) {
                Some(p) => if profile_valid(p) {
                    r == LearnOutcome::Stored && final(cache)@ == after_store(old(cache)@, key@, p)
                } else {
                    r == LearnOutcome::Unchanged && final(cache)@ == old(cache)@
                },
                None => r == LearnOutcome::Unchanged && final(cache)@ == old(cache)@,
            }
        } else if cold.total_matches > 1 {
            r == LearnOutcome::Invalidated && final(cache)@ == without_key(old(cache)@, key@)
        } else {
            r == LearnOutcome::Unchanged && final(cache)@ == old(cache)@
        },
{
    if cold.complete && cold.total_matches == 1 && cold.matches.len() == 1 {
        let found = &cold.matches[0];
        match AppProfile::from_match(window, surface, &found.entry, &found.display_path) {
            Some(profile) => {
                let k = AppProfileKey::from_text(key.text());
                if cache.store(k, profile) {
                    return LearnOutcome::Stored;
                }
                LearnOutcome::Unchanged
            },
            None => LearnOutcome::Unchanged,
        }
    } else if cold.total_matches > 1 {
        cache.invalidate(key);
        LearnOutcome::Invalidated
    } else {
        LearnOutcome::Unchanged
    }
}

/// The status of an `app_profile.resolve` trace event.
#[derive(Clone, Copy, Debug, PartialEq, Eq, Structural)]
pub enum ResolveStatus {
    LiveHit,
    SemanticHit,
    Revalidated,
    CacheMiss,
    Ambiguous,
    Invalidated,
}

/// The reason of an `app_profile.resolve` trace event.
#[derive(Clone, Copy, Debug, PartialEq, Eq, Structural)]
pub enum ResolveReason {
    NoProfile,
    CacheValidationFailed,
    ColdAfterInvalidCache,
    WindowSignatureChanged,
    ColdAfterWindowChange,
    GenerationMatch,
    GenerationChanged,
    LiveGenerationChanged,
    WarmSemanticTarget,
    ScopedColdRevalidation,
    /// Why a warm revalidation found no target.
    Miss(MissReason),
}

/// One `app_profile.resolve` trace event: a status and its reason.
#[derive(Clone, Copy, Debug, PartialEq, Eq, Structural)]
pub struct ResolveEvent {
    pub status: ResolveStatus,
    pub reason: ResolveReason,
}

/// The wire name of a status.
pub open spec fn resolve_status_text(s: ResolveStatus) -> Seq<char> {
    match s {
        ResolveStatus::LiveHit => "live_hit"@,
        ResolveStatus::SemanticHit => "semantic_hit"@,
        ResolveStatus::Revalidated => "revalidated"@,
        ResolveStatus::CacheMiss => "cache_miss"@,
        ResolveStatus::Ambiguous => "ambiguous"@,
        ResolveStatus::Invalidated => "invalidated"@,
    }
}

/// The wire name of a reason.
pub open spec fn resolve_reason_text(r: ResolveReason) -> Seq<char> {
    match r {
        ResolveReason::NoProfile => "no_profile"@,
        ResolveReason::CacheValidationFailed => "cache_validation_failed"@,
        ResolveReason::ColdAfterInvalidCache => "cold_after_invalid_cache"@,
        ResolveReason::WindowSignatureChanged => "window_signature_changed"@,
        ResolveReason::ColdAfterWindowChange => "cold_after_window_change"@,
        ResolveReason::GenerationMatch => "generation_match"@,
        ResolveReason::GenerationChanged => "generation_changed"@,
        ResolveReason::LiveGenerationChanged => "live_generation_changed"@,
        ResolveReason::WarmSemanticTarget => "warm_semantic_target"@,
        ResolveReason::ScopedColdRevalidation => "scoped_cold_revalidation"@,
        ResolveReason::Miss(m) => miss_reason_text(m),
    }
}

impl ResolveStatus {
    /// The wire name.
    pub fn as_str(&self) -> (r: &'static str)
        ensures
            r@ == resolve_status_text(*self),
    {
        match self {
            ResolveStatus::LiveHit => "live_hit",
            ResolveStatus::SemanticHit => "semantic_hit",
            ResolveStatus::Revalidated => "revalidated",
            ResolveStatus::CacheMiss => "cache_miss",
            ResolveStatus::Ambiguous => "ambiguous",
            ResolveStatus::Invalidated => "invalidated",
        }
    }
}

impl ResolveReason {
    /// The wire name.
    pub fn as_str(&self) -> (r: &'static str)
        ensures
            r@ == resolve_reason_text(*self),
    {
        match self {
            ResolveReason::NoProfile => "no_profile",
            ResolveReason::CacheValidationFailed => "cache_validation_failed",
            ResolveReason::ColdAfterInvalidCache => "cold_after_invalid_cache",
            ResolveReason::WindowSignatureChanged => "window_signature_changed",
            ResolveReason::ColdAfterWindowChange => "cold_after_window_change",
            ResolveReason::GenerationMatch => "generation_match",
            ResolveReason::GenerationChanged => "generation_changed",
            ResolveReason::LiveGenerationChanged => "live_generation_changed",
            ResolveReason::WarmSemanticTarget => "warm_semantic_target",
            ResolveReason::ScopedColdRevalidation => "scoped_cold_revalidation",
            ResolveReason::Miss(m) => m.as_str(),
        }
    }
}

/// The events `resolve` traces as the lookup starts: a dropped profile is reported
/// invalidated; a warm attempt is a live hit in the same generation, otherwise a
/// semantic hit followed by the invalidated live generation.
pub open spec fn start_events_spec(start: FindStart) -> Seq<ResolveEvent> {
    match start {
        FindStart::Cold { cause, .. } => match cause {
            ColdCause::InvalidProfile => seq![
                ResolveEvent { status: ResolveStatus::Invalidated, reason: ResolveReason::CacheValidationFailed },
            ],
            ColdCause::WindowChanged => seq![
                ResolveEvent { status: ResolveStatus::Invalidated, reason: ResolveReason::WindowSignatureChanged },
            ],
            _ => seq![],
        },
        FindStart::Warm { same_generation, .. } => if same_generation {
            seq![ResolveEvent { status: ResolveStatus::LiveHit, reason: ResolveReason::GenerationMatch }]
        } else {
            seq![
                ResolveEvent { status: ResolveStatus::SemanticHit, reason: ResolveReason::GenerationChanged },
                ResolveEvent { status: ResolveStatus::Invalidated, reason: ResolveReason::LiveGenerationChanged },
            ]
        },
    }
}

/// `resolve`: the trace events of the lookup's start.
pub fn start_events(start: &FindStart) -> (r: Vec<ResolveEvent>)
    ensures
        r@ == start_events_spec(*start),
{
    let mut out: Vec<ResolveEvent> = Vec::new();
    match start {
        FindStart::Cold { cause, .. } => match cause {
            ColdCause::InvalidProfile => {
                out.push(
                    ResolveEvent { status: ResolveStatus::Invalidated, reason: ResolveReason::CacheValidationFailed },
                );
            },
            ColdCause::WindowChanged => {
                out.push(
                    ResolveEvent { status: ResolveStatus::Invalidated, reason: ResolveReason::WindowSignatureChanged },
                );
            },
            _ => {},
        },
        FindStart::Warm { same_generation, .. } => {
            if *same_generation {
                out.push(ResolveEvent { status: ResolveStatus::LiveHit, reason: ResolveReason::GenerationMatch });
            } else {
                out.push(ResolveEvent { status: ResolveStatus::SemanticHit, reason: ResolveReason::GenerationChanged });
                out.push(
                    ResolveEvent { status: ResolveStatus::Invalidated, reason: ResolveReason::LiveGenerationChanged },
                );
            }
        },
    }
    assert(out@ =~= start_events_spec(*start));
    out
}

/// The trace status of a warm miss.
pub open spec fn miss_status_of(s: MissStatus) -> ResolveStatus {
    match s {
        MissStatus::Ambiguous => ResolveStatus::Ambiguous,
        MissStatus::CacheMiss => ResolveStatus::CacheMiss,
        MissStatus::Invalidated => ResolveStatus::Invalidated,
    }
}

/// `resolve`: the trace event of a warm attempt: a revalidated warm target, or the
/// miss with its status and reason.
pub fn warm_event(miss: Option<(MissStatus, MissReason)>) -> (r: ResolveEvent)
    ensures
        r == match miss {
            None => ResolveEvent { status: ResolveStatus::Revalidated, reason: ResolveReason::WarmSemanticTarget },
            Some((s, m)) => ResolveEvent { status: miss_status_of(s), reason: ResolveReason::Miss(m) },
        },
{
    match miss {
        None => ResolveEvent { status: ResolveStatus::Revalidated, reason: ResolveReason::WarmSemanticTarget },
        Some((s, m)) => {
            let status = match s {
                MissStatus::Ambiguous => ResolveStatus::Ambiguous,
                MissStatus::CacheMiss => ResolveStatus::CacheMiss,
                MissStatus::Invalidated => ResolveStatus::Invalidated,
            };
            ResolveEvent { status, reason: ResolveReason::Miss(m) }
        },
    }
}

/// The trace event after a cold resolution that is learned from, if any: a cache miss,
/// a revalidation after a dropped profile, or (after a warm miss) a scoped cold
/// revalidation that is ambiguous when it matched more than once.
pub open spec fn cold_event_spec(cause: ColdCause, total_matches: usize) -> Option<ResolveEvent> {
    match cause {
        ColdCause::NoKey => None,
        ColdCause::NoProfile => Some(ResolveEvent { status: ResolveStatus::CacheMiss, reason: ResolveReason::NoProfile }),
        ColdCause::InvalidProfile => Some(
            ResolveEvent { status: ResolveStatus::Revalidated, reason: ResolveReason::ColdAfterInvalidCache },
        ),
        ColdCause::WindowChanged => Some(
            ResolveEvent { status: ResolveStatus::Revalidated, reason: ResolveReason::ColdAfterWindowChange },
        ),
        ColdCause::WarmMissed => Some(
            ResolveEvent {
                status: if total_matches > 1 {
                    ResolveStatus::Ambiguous
                } else {
                    ResolveStatus::Revalidated
                },
                reason: ResolveReason::ScopedColdRevalidation,
            },
        ),
    }
}

/// `learn_after_cold`: the trace event of a cold resolution.
pub fn cold_event(cause: ColdCause, total_matches: usize) -> (r: Option<ResolveEvent>)
    ensures
        r == cold_event_spec(cause, total_matches),
{
    match cause {
        ColdCause::NoKey => None,
        ColdCause::NoProfile => Some(ResolveEvent { status: ResolveStatus::CacheMiss, reason: ResolveReason::NoProfile }),
        ColdCause::InvalidProfile => Some(
            ResolveEvent { status: ResolveStatus::Revalidated, reason: ResolveReason::ColdAfterInvalidCache },
        ),
        ColdCause::WindowChanged => Some(
            ResolveEvent { status: ResolveStatus::Revalidated, reason: ResolveReason::ColdAfterWindowChange },
        ),
        ColdCause::WarmMissed => Some(
            ResolveEvent {
                status: if total_matches > 1 {
                    ResolveStatus::Ambiguous
                } else {
                    ResolveStatus::Revalidated
                },
                reason: ResolveReason::ScopedColdRevalidation,
            },
        ),
    }
}

/// The read counters of one locator resolution.
#[derive(Clone, Copy, Debug, PartialEq, Eq, Structural)]
pub struct LocatorStats {
    pub observation_attempts: u64,
    pub attributes_requested: u64,
    pub child_reads: u64,
    pub action_reads: u64,
    pub fallback_reads: u64,
    pub child_label_reads: u64,
    pub promotion_reads: u64,
    pub settable_reads: u64,
}

/// The provider reads a locator resolution made.
pub open spec fn locator_provider_reads(l: LocatorStats) -> int {
    l.attributes_requested + l.child_reads + l.action_reads + l.fallback_reads + l.child_label_reads
        + l.promotion_reads + l.settable_reads
}

/// The tree reads a locator resolution counts for: its observation attempts, at least one.
pub open spec fn locator_tree_reads(l: LocatorStats) -> int {
    if l.observation_attempts >= 1 {
        l.observation_attempts as int
    } else {
        1
    }
}

/// The counters an `app_profile.resolve` trace event reports.
#[derive(Clone, Copy, Debug, PartialEq, Eq, Structural)]
pub struct LookupStats {
    pub resolution_calls: u64,
    pub provider_reads: u64,
    pub tree_reads: u64,
    pub cold_lookups: u64,
    pub warm_lookups: u64,
}

impl LookupStats {
    /// All counters at zero.
    pub fn new() -> (r: Self)
        ensures
            r == (LookupStats { resolution_calls: 0, provider_reads: 0, tree_reads: 0, cold_lookups: 0, warm_lookups: 0 }),
    {
        LookupStats { resolution_calls: 0, provider_reads: 0, tree_reads: 0, cold_lookups: 0, warm_lookups: 0 }
    }

    /// The counters of one warm lookup.
    pub fn warm() -> (r: Self)
        ensures
            r == (LookupStats { resolution_calls: 1, provider_reads: 0, tree_reads: 0, cold_lookups: 0, warm_lookups: 1 }),
    {
        LookupStats { resolution_calls: 1, provider_reads: 0, tree_reads: 0, cold_lookups: 0, warm_lookups: 1 }
    }

    /// The counters of one cold lookup.
    pub fn cold() -> (r: Self)
        ensures
            r == (LookupStats { resolution_calls: 1, provider_reads: 0, tree_reads: 0, cold_lookups: 1, warm_lookups: 0 }),
    {
        LookupStats { resolution_calls: 1, provider_reads: 0, tree_reads: 0, cold_lookups: 1, warm_lookups: 0 }
    }

    /// `add_locator`: adds a locator resolution's tree reads (at least one) and provider
    /// reads.
    pub fn add_locator(&mut self, stats: &LocatorStats)
        requires
            old(self).tree_reads + locator_tree_reads(*stats) <= u64::MAX,
            old(self).provider_reads + locator_provider_reads(*stats) <= u64::MAX,
        ensures
            final(self).tree_reads == old(self).tree_reads + locator_tree_reads(*stats),
            final(self).provider_reads == old(self).provider_reads + locator_provider_reads(*stats),
            final(self).resolution_calls == old(self).resolution_calls,
            final(self).cold_lookups == old(self).cold_lookups,
            final(self).warm_lookups == old(self).warm_lookups,
    {
        let tree = if stats.observation_attempts >= 1 {
            stats.observation_attempts
        } else {
            1
        };
        self.tree_reads = self.tree_reads + tree;
        let reads = stats.attributes_requested + stats.child_reads + stats.action_reads + stats.fallback_reads
            + stats.child_label_reads + stats.promotion_reads + stats.settable_reads;
        self.provider_reads = self.provider_reads + reads;
    }

    /// One provider read.
    pub fn add_provider_read(&mut self)
        requires
            old(self).provider_reads < u64::MAX,
        ensures
            *final(self) == (LookupStats { provider_reads: (old(self).provider_reads + 1) as u64, ..*old(self) }),
    {
        self.provider_reads = self.provider_reads + 1;
    }
}

/// A profile learned from a window belongs to it: none is learned without a non-empty
/// process generation, and a learned profile matches the window's signature and live
/// generation.
pub proof fn lemma_learned_profile_matches_its_window(
    w: WindowInfo,
    surface: SnapshotSurface,
    e: crate::refs::EntryView,
    display: Seq<Seq<char>>,
)
    ensures
        (match opt_text(w.process_instance) {
            None => true,
            Some(i) => i.len() == 0,
        }) ==> profile_of(w, surface, e, display) is None,
        profile_of(w, surface, e, display) matches Some(p) ==> window_matches_spec(p, w, surface)
            && same_generation_spec(p, w),
{
}

} // verus!
