use agent_desktop_runtime::find_profile::{
    cold_event, finish_warm, learn_after_cold, start_events, start_find, warm_event, ColdCause, ColdMatch, ColdSummary,
    FindStart, LearnOutcome, LocatorStats, LookupStats, ResolveReason, ResolveStatus, WarmOutcome,
};
use agent_desktop_runtime::fuzzy::one_edit_or_less;
use agent_desktop_runtime::model::{ProcessId, WindowInfo, WindowState};
use agent_desktop_runtime::profile::{key_for_find, AppProfile, AppProfileKey, CacheLookup, ProfileCache};
use agent_desktop_runtime::runtime_events::{
    publish_runtime_event, RuntimeEvent, RuntimeEventBus, RuntimeProcessScope, RuntimeWindowScope,
    RUNTIME_EVENT_CAPACITY,
};
use agent_desktop_runtime::refs::{
    ElementIdentifier, IdentifierEvidence, IdentifierKind, IdentityPredicate, LiveElement, LiveIdentity, LiveState,
    LocatorField, LocatorQuery, RefCapabilities, RefEntry, RefEntryIdentity, RefPath, RefProcess, RefScope,
    RefSource, SnapshotSurface,
};
use agent_desktop_runtime::revalidate::{
    finish_live, live_display_name, fuzzy_candidates, path_candidates, read_outcome, stale_or_unsupported, CandidateSearch, ErrorCode,
    MissReason, MissStatus, ReadOutcome, ScanMatch, ScanResult, WarmFlags, WarmReply, WarmStep,
};
use agent_desktop_runtime::selector::SemanticSelectorRecipe;

fn profile_window(pid: u32, generation: &str, id: &str) -> WindowInfo {
    WindowInfo {
        id: id.into(),
        title: "Profile Fixture".into(),
        app: "ProfileApp".into(),
        pid: ProcessId::new(pid),
        process_instance: Some(generation.into()),
        state: WindowState::default(),
    }
}

fn sample_entry(native_id: Option<ElementIdentifier>, name: &str) -> RefEntry {
    RefEntry {
        process: RefProcess { pid: ProcessId::new(410), process_instance: Some("proc-a".into()) },
        identity: RefEntryIdentity {
            role: "button".into(),
            name: Some(name.into()),
            value: None,
            description: None,
            native_id,
        },
        capabilities: RefCapabilities { states: vec![], available_actions: vec!["press".into()] },
        source: RefSource {
            source_app: Some("ProfileApp".into()),
            source_window_id: Some("w-profile".into()),
            source_window_title: Some("Profile Fixture".into()),
            source_surface: SnapshotSurface::Window,
        },
        scope: RefScope { path_is_absolute: false, path: RefPath { steps: vec![0, 2] } },
    }
}

fn automation_id(value: &str) -> ElementIdentifier {
    ElementIdentifier { kind: IdentifierKind::AutomationId, value: value.into() }
}

fn live(role: &str, name: &str, ids: Vec<ElementIdentifier>) -> LiveElement {
    LiveElement {
        identity: LiveIdentity {
            name: LocatorField::Known(name.into()),
            description: LocatorField::Absent,
            identifiers: IdentifierEvidence { identifiers: ids, preferred: Some(0) },
        },
        state: LiveState { role: role.into(), value: None, states: vec![] },
        available_actions: vec!["press".into()],
    }
}

fn key() -> AppProfileKey {
    AppProfileKey::from_text("v1|window|profileapp||{\"role\":\"button\",\"name\":\"Save\"}")
}

fn cold_single(entry: RefEntry) -> ColdSummary {
    ColdSummary {
        complete: true,
        total_matches: 1,
        matches: vec![ColdMatch { entry, display_path: vec!["group:Toolbar".into()] }],
    }
}

fn learned_cache() -> (ProfileCache, WindowInfo, RuntimeEventBus) {
    let mut cache = ProfileCache::new();
    let bus = RuntimeEventBus::new(RUNTIME_EVENT_CAPACITY);
    let window = profile_window(410, "proc-a", "w-profile");
    let entry = sample_entry(Some(automation_id("save-button")), "Save");
    let learned = learn_after_cold(&mut cache, &key(), &window, SnapshotSurface::Window, &cold_single(entry));
    assert_eq!(learned, LearnOutcome::Stored);
    (cache, window, bus)
}

#[test]
fn runtime_identifier_is_never_promoted_to_durable_semantics() {
    let entry = sample_entry(Some(ElementIdentifier { kind: IdentifierKind::RuntimeId, value: "runtime-42".into() }), "Save");
    let selector = SemanticSelectorRecipe::from_entry(&entry, &vec!["group:Editor".to_string()])
        .expect("semantic text/path still makes the selector cacheable");
    assert!(!selector.has_stable_identifier());
    assert!(selector.has_semantic_path());
}

#[test]
fn fuzzy_matching_is_bounded_to_one_edit() {
    let entry = sample_entry(None, "Settings");
    let selector = SemanticSelectorRecipe::from_entry(&entry, &vec![]).unwrap();
    assert!(selector.fuzzy_name_matches("Setting"));
    assert!(!selector.fuzzy_name_matches("Sessions"));
}

#[test]
fn one_edit_distance_cases() {
    assert!(one_edit_or_less("settings", "settings"));
    assert!(one_edit_or_less("settings", "setting"));
    assert!(one_edit_or_less("settings", "settingsx"));
    assert!(one_edit_or_less("settings", "sxttings"));
    assert!(!one_edit_or_less("settings", "sessions"));
    assert!(!one_edit_or_less("settings", "set"));
}

#[test]
fn first_lookup_learns_semantics_and_second_lookup_avoids_tree_walk() {
    let (mut cache, window, bus) = learned_cache();
    match cache.lookup(&bus, &key()) {
        CacheLookup::Hit(profile) => {
            assert!(profile.selector().has_stable_identifier());
            assert!(profile.selector().has_semantic_path());
        }
        other => panic!("expected learned AppProfile, got {other:?}"),
    }
    match start_find(&mut cache, &bus, Some(&key()), &window, SnapshotSurface::Window) {
        FindStart::Warm { profile, same_generation } => {
            assert!(same_generation);
            let flags = WarmFlags::of(&profile, &window, same_generation);
            // the warm lookup starts by re-resolving the live entry: no scan of the tree
            assert_eq!(WarmStep::first(flags), WarmStep::LiveEntry);
            let next = WarmStep::LiveEntry.next(flags, WarmReply::Read(ReadOutcome::Found));
            assert_eq!(next, WarmStep::ReadLive { candidate: None, allow_identifier_refresh: false });
            let read = profile_read(&profile, &window, "Save");
            assert!(read.is_ok());
        }
        other => panic!("expected a warm lookup, got {other:?}"),
    }
}

fn profile_read(profile: &AppProfile, window: &WindowInfo, name: &str) -> Result<(RefEntry, AppProfile), (MissStatus, MissReason)> {
    finish_live(
        profile,
        window,
        SnapshotSurface::Window,
        &live("button", name, vec![automation_id("save-button")]),
        profile.live_path(),
        profile.selector().display_path(),
        false,
    )
}

#[test]
fn process_and_window_recreation_invalidates_live_generation_but_semantics_reresolve() {
    let (mut cache, _, bus) = learned_cache();
    let recreated = profile_window(411, "proc-b", "w-profile-2");
    match start_find(&mut cache, &bus, Some(&key()), &recreated, SnapshotSurface::Window) {
        FindStart::Warm { profile, same_generation } => {
            assert!(!same_generation);
            let flags = WarmFlags::of(&profile, &recreated, same_generation);
            assert_eq!(WarmStep::first(flags), WarmStep::StableEntry);
            let (entry, refreshed) = profile_read(&profile, &recreated, "Save").expect("semantic re-resolution");
            assert_eq!(entry.process.pid.get(), 411);
            assert!(refreshed.live_generation_matches(&recreated));
            assert!(finish_warm(&mut cache, &key(), WarmOutcome::Resolved(refreshed)));
            match cache.lookup(&bus, &key()) {
                CacheLookup::Hit(profile) => assert!(profile.live_generation_matches(&recreated)),
                other => panic!("refreshed profile must be stored, got {other:?}"),
            }
        }
        other => panic!("expected a warm lookup, got {other:?}"),
    }
}

#[test]
fn corrupted_cache_is_never_used_as_a_target() {
    let (mut cache, window, bus) = learned_cache();
    cache.corrupt(&key());
    match start_find(&mut cache, &bus, Some(&key()), &window, SnapshotSurface::Window) {
        FindStart::Cold { learn, .. } => assert!(learn),
        other => panic!("invalid cache data must fail closed into fresh scoped discovery, got {other:?}"),
    }
    assert_eq!(cache.len(), 0);
}

#[test]
fn mismatched_cached_identity_fails_closed() {
    let (mut cache, window, bus) = learned_cache();
    match cache.lookup(&bus, &key()) {
        CacheLookup::Hit(profile) => {
            let read = profile_read(&profile, &window, "Stop");
            assert_eq!(read.err(), Some((MissStatus::Invalidated, MissReason::LiveIdentityMismatch)));
        }
        other => panic!("expected profile, got {other:?}"),
    }
}

#[test]
fn duplicate_semantic_candidates_refuse_cached_single_target() {
    let (mut cache, window, bus) = learned_cache();
    let profile = match cache.lookup(&bus, &key()) {
        CacheLookup::Hit(profile) => profile,
        other => panic!("expected profile, got {other:?}"),
    };
    let scan = ScanResult {
        complete: true,
        truncated: false,
        matches: vec![
            ScanMatch { path: vec!["group:Toolbar".into()], name: "Save".into() },
            ScanMatch { path: vec!["group:toolbar ".into()], name: "Save".into() },
        ],
    };
    let candidates = path_candidates(profile.selector(), &scan);
    assert_eq!(candidates, CandidateSearch::Ambiguous);
    let flags = WarmFlags::of(&profile, &window, false);
    let step = WarmStep::StableEntry.next(flags, WarmReply::Read(ReadOutcome::Ambiguous));
    assert_eq!(step, WarmStep::StablePath);
    let step = step.next(flags, WarmReply::Scan(candidates));
    assert_eq!(
        step,
        WarmStep::Missed { status: MissStatus::Ambiguous, reason: MissReason::StableIdentifierAndPathNotUnique }
    );
    assert!(!finish_warm(&mut cache, &key(), WarmOutcome::Missed(MissStatus::Ambiguous)));
    match start_find(&mut cache, &bus, Some(&key()), &window, SnapshotSurface::Window) {
        FindStart::Cold { learn, .. } => assert!(learn),
        other => panic!("ambiguous warm resolution must fall back to scoped discovery, got {other:?}"),
    }
}

#[test]
fn window_signature_change_drops_profile_and_goes_cold() {
    let (mut cache, _, bus) = learned_cache();
    let mut renamed = profile_window(410, "proc-a", "w-profile");
    renamed.title = "Other Document".into();
    match start_find(&mut cache, &bus, Some(&key()), &renamed, SnapshotSurface::Window) {
        FindStart::Cold { learn, .. } => assert!(learn),
        other => panic!("expected cold lookup, got {other:?}"),
    }
    assert_eq!(cache.len(), 0);
}

#[test]
fn lookup_without_key_goes_cold_and_learns_nothing() {
    let mut cache = ProfileCache::new();
    let bus = RuntimeEventBus::new(RUNTIME_EVENT_CAPACITY);
    let window = profile_window(410, "proc-a", "w-profile");
    match start_find(&mut cache, &bus, None, &window, SnapshotSurface::Window) {
        FindStart::Cold { learn, .. } => assert!(!learn),
        other => panic!("expected cold lookup, got {other:?}"),
    }
    match start_find(&mut cache, &bus, Some(&key()), &window, SnapshotSurface::Window) {
        FindStart::Cold { learn, .. } => assert!(learn),
        other => panic!("expected cold lookup, got {other:?}"),
    }
}

#[test]
fn ambiguous_cold_result_drops_learned_profile() {
    let (mut cache, window, bus) = learned_cache();
    let ambiguous = ColdSummary { complete: true, total_matches: 2, matches: vec![] };
    let outcome = learn_after_cold(&mut cache, &key(), &window, SnapshotSurface::Window, &ambiguous);
    assert_eq!(outcome, LearnOutcome::Invalidated);
    assert_eq!(cache.len(), 0);
    let incomplete = ColdSummary {
        complete: false,
        total_matches: 1,
        matches: vec![ColdMatch { entry: sample_entry(None, "Save"), display_path: vec![] }],
    };
    assert_eq!(
        learn_after_cold(&mut cache, &key(), &window, SnapshotSurface::Window, &incomplete),
        LearnOutcome::Unchanged
    );
    assert_eq!(cache.len(), 0);
}

#[test]
fn only_cacheable_queries_get_keys() {
    let query = LocatorQuery {
        identity: IdentityPredicate { role: Some("button".into()), name: Some("Save".into()), ..Default::default() },
        exact: true,
        ..Default::default()
    };
    let key = key_for_find(&query, Some("{}"), Some("  ProfileApp "), None, SnapshotSurface::Window).unwrap();
    assert_eq!(key.text(), "v1|window|profileapp||{}");
    let text_query = LocatorQuery { has_text: Some("Save".into()), ..Default::default() };
    assert!(key_for_find(&text_query, Some("{}"), None, None, SnapshotSurface::Window).is_none());
    assert!(key_for_find(&LocatorQuery::default(), Some("{}"), None, None, SnapshotSurface::Window).is_none());
    assert!(key_for_find(&query, None, None, None, SnapshotSurface::Window).is_none());
}

#[test]
fn provider_errors_are_classified() {
    assert!(stale_or_unsupported(ErrorCode::StaleRef));
    assert!(stale_or_unsupported(ErrorCode::ActionNotSupported));
    assert!(!stale_or_unsupported(ErrorCode::AmbiguousTarget));
    assert_eq!(read_outcome(None), ReadOutcome::Found);
    assert_eq!(read_outcome(Some(ErrorCode::AmbiguousTarget)), ReadOutcome::Ambiguous);
    assert_eq!(read_outcome(Some(ErrorCode::ElementNotFound)), ReadOutcome::Stale);
    assert_eq!(read_outcome(Some(ErrorCode::Timeout)), ReadOutcome::Failed);
}

#[test]
fn incomplete_scans_and_fuzzy_names() {
    let entry = sample_entry(None, "Settings");
    let selector = SemanticSelectorRecipe::from_entry(&entry, &vec![]).unwrap();
    let scan = ScanResult {
        complete: true,
        truncated: false,
        matches: vec![
            ScanMatch { path: vec![], name: "Sessions".into() },
            ScanMatch { path: vec![], name: "Setting".into() },
        ],
    };
    assert_eq!(fuzzy_candidates(&selector, &scan), CandidateSearch::One(1));
    let truncated = ScanResult { truncated: true, ..scan };
    assert_eq!(fuzzy_candidates(&selector, &truncated), CandidateSearch::Empty);
}

#[test]
fn warm_steps_follow_the_revalidation_order() {
    let flags = WarmFlags { same_generation: false, stable_identifier: false, semantic_path: true, semantic_entry: true };
    assert_eq!(WarmStep::first(flags), WarmStep::PathOnly);
    assert_eq!(WarmStep::PathOnly.next(flags, WarmReply::Scan(CandidateSearch::Empty)), WarmStep::PathFallback);
    assert_eq!(WarmStep::PathFallback.next(flags, WarmReply::Scan(CandidateSearch::Empty)), WarmStep::Fuzzy);
    assert_eq!(
        WarmStep::Fuzzy.next(flags, WarmReply::Scan(CandidateSearch::Empty)),
        WarmStep::Missed { status: MissStatus::CacheMiss, reason: MissReason::SemanticTargetStale }
    );
    let anchor = WarmStep::Fuzzy.next(flags, WarmReply::Scan(CandidateSearch::One(3)));
    assert_eq!(anchor, WarmStep::Anchor { index: 3, allow_identifier_refresh: true });
    assert_eq!(
        anchor.next(flags, WarmReply::Read(ReadOutcome::Stale)),
        WarmStep::Missed { status: MissStatus::CacheMiss, reason: MissReason::FreshAnchorChanged }
    );
    let read = anchor.next(flags, WarmReply::Read(ReadOutcome::Found));
    assert_eq!(read, WarmStep::ReadLive { candidate: Some(3), allow_identifier_refresh: true });
    assert_eq!(read.next(flags, WarmReply::Read(ReadOutcome::Failed)), WarmStep::Failed);
    assert_eq!(
        read.next(flags, WarmReply::Read(ReadOutcome::Found)),
        WarmStep::Verify { candidate: Some(3), allow_identifier_refresh: true }
    );
    let role_flags = WarmFlags { same_generation: false, stable_identifier: false, semantic_path: false, semantic_entry: true };
    assert_eq!(WarmStep::first(role_flags), WarmStep::RoleName);
    assert_eq!(
        WarmStep::RoleName.next(role_flags, WarmReply::Read(ReadOutcome::Ambiguous)),
        WarmStep::Missed { status: MissStatus::Ambiguous, reason: MissReason::RoleNameNotUnique }
    );
    assert_eq!(MissReason::RoleNameNotUnique.as_str(), "role_name_not_unique");
    assert_eq!(MissStatus::CacheMiss.as_str(), "cache_miss");
}

#[test]
fn warm_target_display_name_falls_back_in_order() {
    let mut element = live("button", "Save", vec![]);
    assert_eq!(live_display_name(&element), "Save");
    element.identity.name = LocatorField::Unavailable;
    element.state.value = Some("42".into());
    assert_eq!(live_display_name(&element), "42");
    element.state.value = None;
    element.identity.description = LocatorField::Known("Saves the file".into());
    assert_eq!(live_display_name(&element), "Saves the file");
    element.identity.description = LocatorField::Absent;
    assert_eq!(live_display_name(&element), "(unnamed button)");
}

fn profile_process() -> RuntimeProcessScope {
    RuntimeProcessScope::new("ProfileApp", ProcessId::new(410), "proc-a").expect("bounded process scope")
}

fn hit(cache: &mut ProfileCache, bus: &RuntimeEventBus) -> AppProfile {
    match cache.lookup(bus, &key()) {
        CacheLookup::Hit(profile) => profile,
        other => panic!("semantic profile must survive, got {other:?}"),
    }
}

#[test]
fn bounds_motion_does_not_break_semantic_identity() {
    let (mut cache, window, bus) = learned_cache();
    // bounds are no part of a window's identity: the moved window reports the same one
    let moved = window.clone();
    match start_find(&mut cache, &bus, Some(&key()), &moved, SnapshotSurface::Window) {
        FindStart::Warm { profile, same_generation } => {
            assert!(same_generation);
            let flags = WarmFlags::of(&profile, &moved, same_generation);
            assert_eq!(WarmStep::first(flags), WarmStep::LiveEntry);
            let (entry, _) = profile_read(&profile, &moved, "Save").expect("warm find");
            assert_eq!(entry.process.pid.get(), 410);
        }
        other => panic!("expected a warm lookup, got {other:?}"),
    }
}

#[test]
fn runtime_invalidation_stales_live_ref_but_preserves_semantic_profile() {
    let (mut cache, window, mut bus) = learned_cache();
    let before = hit(&mut cache, &bus);
    assert!(before.live_generation_matches(&window));

    publish_runtime_event(&mut bus, RuntimeEvent::AccessibilityTreeInvalidated { process: profile_process() });

    let after = hit(&mut cache, &bus);
    assert!(!after.live_generation_matches(&window));
    assert!(after.selector().has_stable_identifier());
    assert!(after.selector().has_semantic_path());
    assert_eq!(cache.invalidation().events_applied, 1);
    assert_eq!(cache.invalidation().live_refs_invalidated, 1);
}

#[test]
fn window_generation_event_invalidates_live_ref_and_preserves_semantics() {
    let (mut cache, window, mut bus) = learned_cache();
    let previous = RuntimeWindowScope::new(profile_process(), "Profile Fixture").expect("bounded window scope");
    let current = RuntimeWindowScope::new(profile_process(), "Profile Fixture").expect("bounded window scope");
    publish_runtime_event(&mut bus, RuntimeEvent::WindowGenerationChanged { previous, current });

    let profile = hit(&mut cache, &bus);
    assert!(!profile.live_generation_matches(&window));
    assert!(profile.selector().has_stable_identifier());
    assert!(profile.selector().has_semantic_path());
    let metrics = cache.invalidation();
    assert_eq!(metrics.events_applied, 1);
    assert_eq!(metrics.live_refs_invalidated, 1);
}

#[test]
fn dropped_events_force_conservative_live_ref_invalidation() {
    let (mut cache, window, mut bus) = learned_cache();
    let before = hit(&mut cache, &bus);
    assert!(before.live_generation_matches(&window));

    for _ in 0..=RUNTIME_EVENT_CAPACITY {
        publish_runtime_event(&mut bus, RuntimeEvent::ProviderReset);
    }

    let after = hit(&mut cache, &bus);
    assert!(!after.live_generation_matches(&window));
    assert!(after.selector().has_stable_identifier());
    assert!(after.selector().has_semantic_path());
    let metrics = cache.invalidation();
    assert_eq!(metrics.live_refs_invalidated, 1);
    assert_eq!(metrics.overflow_resets, 1);
}

#[test]
fn unrelated_runtime_event_retains_profile_live_ref() {
    let (mut cache, window, mut bus) = learned_cache();
    let other = RuntimeProcessScope::new("Browser", ProcessId::new(900), "browser-a").expect("bounded process scope");
    publish_runtime_event(&mut bus, RuntimeEvent::ProcessStarted { current: other });

    let profile = hit(&mut cache, &bus);
    assert!(profile.live_generation_matches(&window));
    let metrics = cache.invalidation();
    assert_eq!(metrics.events_applied, 1);
    assert_eq!(metrics.live_refs_invalidated, 0);
    assert_eq!(metrics.unrelated_profiles_retained, 1);
}

#[test]
fn duplicate_and_reordered_events_never_resurrect_invalidated_live_ref() {
    let (mut cache, window, mut bus) = learned_cache();
    publish_runtime_event(&mut bus, RuntimeEvent::ProcessExited { previous: profile_process() });
    publish_runtime_event(&mut bus, RuntimeEvent::ProcessStarted { current: profile_process() });
    publish_runtime_event(&mut bus, RuntimeEvent::ProcessExited { previous: profile_process() });

    let profile = hit(&mut cache, &bus);
    assert!(!profile.live_generation_matches(&window));
    let metrics = cache.invalidation();
    assert_eq!(metrics.events_applied, 3);
    assert_eq!(metrics.live_refs_invalidated, 1, "duplicate invalidation must be idempotent");
}

#[test]
fn events_seen_by_two_lookups_apply_once_and_stale_profile_goes_semantic() {
    let (mut cache, window, mut bus) = learned_cache();
    publish_runtime_event(&mut bus, RuntimeEvent::ProcessExited { previous: profile_process() });
    assert!(!hit(&mut cache, &bus).live_generation_matches(&window));
    assert!(!hit(&mut cache, &bus).live_generation_matches(&window));
    assert_eq!(cache.invalidation().events_applied, 1);
    match start_find(&mut cache, &bus, Some(&key()), &window, SnapshotSurface::Window) {
        FindStart::Warm { profile, same_generation } => {
            assert!(!same_generation);
            let flags = WarmFlags::of(&profile, &window, same_generation);
            assert_eq!(WarmStep::first(flags), WarmStep::StableEntry);
        }
        other => panic!("expected a warm lookup, got {other:?}"),
    }
    cache.clear();
    assert_eq!(cache.invalidation().events_applied, 0);
    assert_eq!(cache.len(), 0);
}

#[test]
fn resolve_trace_reports_status_and_reason() {
    let (mut cache, window, bus) = learned_cache();
    let start = start_find(&mut cache, &bus, Some(&key()), &window, SnapshotSurface::Window);
    let events = start_events(&start);
    assert_eq!(events.len(), 1);
    assert_eq!(events[0].status.as_str(), "live_hit");
    assert_eq!(events[0].reason.as_str(), "generation_match");

    let moved = profile_window(411, "proc-b", "w-profile-2");
    let start = start_find(&mut cache, &bus, Some(&key()), &moved, SnapshotSurface::Window);
    let events = start_events(&start);
    assert_eq!(events.len(), 2);
    assert_eq!((events[0].status, events[0].reason), (ResolveStatus::SemanticHit, ResolveReason::GenerationChanged));
    assert_eq!((events[1].status, events[1].reason), (ResolveStatus::Invalidated, ResolveReason::LiveGenerationChanged));

    let mut empty = ProfileCache::new();
    match start_find(&mut empty, &bus, Some(&key()), &window, SnapshotSurface::Window) {
        start @ FindStart::Cold { cause: ColdCause::NoProfile, .. } => assert!(start_events(&start).is_empty()),
        other => panic!("expected a cache miss, got {other:?}"),
    }
    let miss = cold_event(ColdCause::NoProfile, 1).unwrap();
    assert_eq!((miss.status.as_str(), miss.reason.as_str()), ("cache_miss", "no_profile"));
    let after_warm = cold_event(ColdCause::WarmMissed, 2).unwrap();
    assert_eq!((after_warm.status.as_str(), after_warm.reason.as_str()), ("ambiguous", "scoped_cold_revalidation"));
    assert_eq!(cold_event(ColdCause::WarmMissed, 1).unwrap().status, ResolveStatus::Revalidated);
    assert_eq!(cold_event(ColdCause::InvalidProfile, 0).unwrap().reason.as_str(), "cold_after_invalid_cache");
    assert_eq!(cold_event(ColdCause::WindowChanged, 0).unwrap().reason.as_str(), "cold_after_window_change");
    assert!(cold_event(ColdCause::NoKey, 1).is_none());
    let resolved = warm_event(None);
    assert_eq!((resolved.status.as_str(), resolved.reason.as_str()), ("revalidated", "warm_semantic_target"));
    let missed = warm_event(Some((MissStatus::Ambiguous, MissReason::SemanticPathNotUnique)));
    assert_eq!((missed.status.as_str(), missed.reason.as_str()), ("ambiguous", "semantic_path_not_unique"));

    cache.corrupt(&key());
    let start = start_find(&mut cache, &bus, Some(&key()), &window, SnapshotSurface::Window);
    let events = start_events(&start);
    assert_eq!((events[0].status.as_str(), events[0].reason.as_str()), ("invalidated", "cache_validation_failed"));
}

#[test]
fn lookup_counters_add_locator_reads() {
    let mut stats = LookupStats::cold();
    let reads = LocatorStats {
        observation_attempts: 0,
        attributes_requested: 3,
        child_reads: 2,
        action_reads: 1,
        fallback_reads: 0,
        child_label_reads: 4,
        promotion_reads: 1,
        settable_reads: 1,
    };
    stats.add_locator(&reads);
    assert_eq!(stats.tree_reads, 1);
    assert_eq!(stats.provider_reads, 12);
    stats.add_locator(&LocatorStats { observation_attempts: 3, ..reads });
    assert_eq!(stats.tree_reads, 4);
    stats.add_provider_read();
    assert_eq!(stats.provider_reads, 25);
    assert_eq!((stats.resolution_calls, stats.cold_lookups, stats.warm_lookups), (1, 1, 0));
    assert_eq!(LookupStats::warm().warm_lookups, 1);
    assert_eq!(LookupStats::new().resolution_calls, 0);
}

#[test]
fn no_recipe_without_a_known_role_or_a_durable_signal() {
    let mut unknown = sample_entry(Some(automation_id("save-button")), "Save");
    unknown.identity.role = "unknown".into();
    assert!(SemanticSelectorRecipe::from_entry(&unknown, &vec!["group:Toolbar".to_string()]).is_none());
    let mut bare = sample_entry(None, "Save");
    bare.identity.name = None;
    assert!(SemanticSelectorRecipe::from_entry(&bare, &vec![]).is_none());
    assert!(SemanticSelectorRecipe::from_entry(&bare, &vec!["group:Toolbar".to_string()]).is_some());
}
