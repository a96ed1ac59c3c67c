use agent_desktop_runtime::model::ProcessId;
use agent_desktop_runtime::runtime_events::{RuntimeEvent, RuntimeEventBus, RuntimeProcessScope};
use agent_desktop_runtime::view_delta::diff;
use agent_desktop_runtime::view_json::state_json_text;
use agent_desktop_runtime::view_state::{
    canonical_windows, eq_ignore_ascii_case, event_invalidates_scope, fnv1a64, parse_view_id,
    scope_for, semantic_key, view_id_text, ObservationScope, ScopeArg, StateEntry, ViewErrorKind, WindowEntry,
    CanonicalWindow, WindowListing, WindowRecord, MAX_VIEW_ENTRIES,
};
use agent_desktop_runtime::view_store::{
    check_freshness, compare_with_previous, expected_view, observation_state, StoredView, ViewStore,
};

fn list_windows_scope(app: Option<&str>) -> ObservationScope {
    ObservationScope { command: "list-windows".into(), app: app.map(|a| a.to_lowercase()) }
}

fn record(title: &str, focused: bool, x: u32) -> WindowEntry {
    WindowEntry::Object(WindowRecord {
        app_name: Some("Editor".into()),
        title: Some(title.into()),
        process_instance: Some("proc-generation-1".into()),
        pid: Some(42),
        presentation: format!(
            "{{\"accessible\":true,\"bounds\":{{\"x\":{x},\"y\":20}},\"is_focused\":{focused},\"minimized\":false,\"visible\":true}}"
        ),
    })
}

fn listing(entries: Vec<WindowEntry>) -> WindowListing {
    WindowListing::Entries(entries)
}

fn insert_empty(store: &mut ViewStore, scope: ObservationScope, now: u64) -> StoredView {
    store.insert(scope, Vec::new(), None, now)
}

fn editor_process(pid: u32, generation: &str) -> RuntimeProcessScope {
    RuntimeProcessScope::new("Editor", ProcessId::new(pid), generation).expect("bounded scope")
}

#[test]
fn matching_runtime_event_makes_view_stale_without_touching_unrelated_scope() {
    let bus = RuntimeEventBus::new(8);
    let now = 30;
    let mut store = ViewStore::new(8, 30_000, &bus);
    let editor = insert_empty(&mut store, list_windows_scope(Some("editor")), now);
    let browser = insert_empty(&mut store, list_windows_scope(Some("browser")), now);
    let previous = editor_process(42, "proc-generation-1");
    let current = editor_process(43, "proc-generation-2");
    store.apply_event(&RuntimeEvent::ProcessReplaced { previous, current });

    let error = store.live(&editor.id, now).expect_err("editor view must be stale");
    assert_eq!(error.code(), "VIEW_STALE");
    assert!(store.live(&browser.id, now).is_ok());
    assert_eq!(store.invalidation().views_invalidated, 1);
    assert_eq!(store.invalidation().unrelated_views_retained, 1);
}

#[test]
fn duplicate_view_invalidation_is_idempotent() {
    let bus = RuntimeEventBus::new(8);
    let mut store = ViewStore::new(8, 30_000, &bus);
    let view = insert_empty(&mut store, list_windows_scope(Some("Editor")), 0);
    let event = RuntimeEvent::AccessibilityTreeInvalidated { process: editor_process(42, "proc-generation-1") };
    store.apply_event(&event);
    store.apply_event(&event);
    assert!(store.get(&view.id).is_some_and(|view| view.invalidated));
    assert_eq!(store.invalidation().events_applied, 2);
    assert_eq!(store.invalidation().views_invalidated, 1);
}

#[test]
fn overflow_marks_all_existing_views_stale_but_keeps_bounded_store() {
    let bus = RuntimeEventBus::new(8);
    let now = 30;
    let mut store = ViewStore::new(2, 30_000, &bus);
    let first = insert_empty(&mut store, list_windows_scope(Some("editor")), now);
    let second = insert_empty(&mut store, list_windows_scope(Some("browser")), now);
    store.invalidate_all_for_overflow();
    assert_eq!(store.len(), 2);
    assert!(store.live(&first.id, now).is_err());
    assert!(store.live(&second.id, now).is_err());
    assert_eq!(store.invalidation().views_invalidated, 2);
    assert_eq!(store.invalidation().overflow_resets, 1);
}

#[test]
fn expiry_keeps_precedence_after_event_invalidation() {
    let bus = RuntimeEventBus::new(8);
    let start = 1_000;
    let mut store = ViewStore::new(2, 1, &bus);
    let view = insert_empty(&mut store, list_windows_scope(Some("editor")), start);
    store.apply_event(&RuntimeEvent::ProcessExited { previous: editor_process(42, "proc-generation-1") });
    let error = store.live(&view.id, start + 2).expect_err("expired view");
    assert_eq!(error.code(), "VIEW_EXPIRED");
    assert_eq!(store.len(), 0);
}

#[test]
fn expired_view_refuses_explicitly() {
    let bus = RuntimeEventBus::new(8);
    let start = 500;
    let scope = list_windows_scope(None);
    let mut store = ViewStore::new(2, 1, &bus);
    let inserted = store.insert(scope.duplicate(), Vec::new(), None, start);
    let error = store.previous(&inserted.id, &scope, start + 2).expect_err("expired view");
    assert_eq!(error.code(), "VIEW_EXPIRED");
}

#[test]
fn capacity_eviction_is_oldest_first_and_deterministic() {
    let bus = RuntimeEventBus::new(8);
    let now = 10;
    let scope = list_windows_scope(None);
    let mut store = ViewStore::new(2, 10_000, &bus);
    let first = store.insert(scope.duplicate(), Vec::new(), None, now);
    let second = store.insert(scope.duplicate(), Vec::new(), None, now);
    let third = store.insert(scope.duplicate(), Vec::new(), None, now);
    assert!(!store.contains(&first.id));
    assert!(store.contains(&second.id));
    assert!(store.contains(&third.id));
}

#[test]
fn unsafe_or_ambiguous_semantic_identity_fails_closed() {
    let missing_generation = listing(vec![WindowEntry::Object(WindowRecord {
        app_name: Some("Editor".into()),
        title: Some("A".into()),
        process_instance: None,
        pid: Some(42),
        presentation: "{}".into(),
    })]);
    let error = canonical_windows(&missing_generation).expect_err("missing generation");
    assert_eq!(error.code(), "VIEW_IDENTITY_UNSAFE");

    let duplicate = listing(vec![
        WindowEntry::Object(WindowRecord {
            app_name: Some("Editor".into()),
            title: Some("A".into()),
            process_instance: Some("g".into()),
            pid: Some(42),
            presentation: "{\"bounds\":1}".into(),
        }),
        WindowEntry::Object(WindowRecord {
            app_name: Some("Editor".into()),
            title: Some("A".into()),
            process_instance: Some("g".into()),
            pid: Some(42),
            presentation: "{\"bounds\":2}".into(),
        }),
    ]);
    let error = canonical_windows(&duplicate).expect_err("duplicate identity");
    assert_eq!(error.code(), "VIEW_IDENTITY_AMBIGUOUS");
}

#[test]
fn canonical_view_never_persists_native_window_id() {
    let native = "w-3735928559";
    let state = canonical_windows(&listing(vec![record("A", true, 10)])).expect("canonical state");
    assert_eq!(state.len(), 1);
    let encoded = format!("{state:?}");
    assert!(!encoded.contains(native));
    assert!(state[0].key.starts_with("wsem-"));
    assert_eq!(state[0].key.len(), 21);
}

#[test]
fn canonical_state_refuses_invalid_results() {
    assert_eq!(canonical_windows(&WindowListing::NotArray).unwrap_err(), ViewErrorKind::StateInvalid);
    assert_eq!(canonical_windows(&listing(vec![WindowEntry::NotObject])).unwrap_err(), ViewErrorKind::StateInvalid);
    let many = (0..=MAX_VIEW_ENTRIES).map(|i| record(&format!("W{i}"), false, 1)).collect::<Vec<_>>();
    assert_eq!(canonical_windows(&listing(many)).unwrap_err(), ViewErrorKind::StateLimit);
}

fn window_entry(key: &str, title: &str) -> StateEntry {
    StateEntry {
        key: key.into(),
        window: CanonicalWindow {
            app_name: "Editor".into(),
            pid: 42,
            process_instance: "proc-generation-1".into(),
            title: title.into(),
            presentation: "{\"accessible\":true,\"bounds\":{\"x\":1.5,\"y\":20},\"is_focused\":false,\"minimized\":null,\"visible\":true}".into(),
        },
    }
}

#[test]
fn oversized_canonical_state_is_refused() {
    let long = "t".repeat(3000);
    let many = (0..50).map(|i| record(&format!("{long}{i}"), false, 1)).collect::<Vec<_>>();
    assert_eq!(canonical_windows(&listing(many)).unwrap_err(), ViewErrorKind::StateLimit);
    let fewer = (0..30).map(|i| record(&format!("{long}{i}"), false, 1)).collect::<Vec<_>>();
    assert_eq!(canonical_windows(&listing(fewer)).unwrap().len(), 30);
}

#[test]
fn delta_over_its_byte_limit_is_refused_within_the_entry_limit() {
    let huge = window_entry("wsem-0000000000000001", &"x".repeat(70_000));
    assert_eq!(diff(&Vec::new(), &vec![huge]).unwrap_err(), ViewErrorKind::DeltaLimit);
    let small = window_entry("wsem-0000000000000001", &"x".repeat(1_000));
    let delta = diff(&Vec::new(), &vec![small]).unwrap();
    assert_eq!(delta.added.len(), 1);
}

#[test]
fn measured_json_is_what_serde_json_encodes() {
    let tricky = window_entry("wsem-0000000000000002", "quote \" back \\ line\n tab\t bell\u{7} caf\u{e9} \u{1F600}");
    let plain = window_entry("wsem-0000000000000001", "Plain");
    let delta = diff(&vec![plain.clone()], &vec![tricky.clone()]).unwrap();
    let text = delta.json_text();
    let value: serde_json::Value = serde_json::from_str(&text).expect("valid JSON");
    assert_eq!(serde_json::to_vec(&value).unwrap().len(), text.len());
    assert_eq!(value["added"][0]["state"]["title"], serde_json::Value::String(tricky.window.title.clone()));
    assert_eq!(value["added"][0]["state"]["bounds"]["x"], serde_json::Value::from(1.5));
    assert_eq!(value["removed"][0]["key"], "wsem-0000000000000001");
    let state = state_json_text(&vec![plain, tricky]);
    let value: serde_json::Value = serde_json::from_str(&state).expect("valid JSON");
    assert_eq!(serde_json::to_vec(&value).unwrap().len(), state.len());
    assert_eq!(value["wsem-0000000000000001"]["pid"], 42);
}

fn observe(
    store: &mut ViewStore,
    bus: &RuntimeEventBus,
    windows: Vec<WindowEntry>,
    previous: Option<&str>,
    app: Option<&str>,
    now: u64,
) -> Result<(StoredView, Option<agent_desktop_runtime::view_delta::StateDelta>), ViewErrorKind> {
    let arg = match app {
        Some(a) => ScopeArg::Text(a.into()),
        None => ScopeArg::Missing,
    };
    let (scope, state) = observation_state("list-windows", &arg, &listing(windows))?;
    let prior = compare_with_previous(store, bus, previous, &scope, &state, now)?;
    let (parent, delta) = match prior {
        Some((view, delta)) => (Some(view.id), Some(delta)),
        None => (None, None),
    };
    Ok((store.insert(scope, state, parent, now), delta))
}

#[test]
fn first_observation_creates_bounded_view_and_keeps_normal_result() {
    let bus = RuntimeEventBus::new(8);
    let mut store = ViewStore::new(64, 30_000, &bus);
    let (view, delta) = observe(&mut store, &bus, vec![record("A", true, 10)], None, None, 10).unwrap();
    assert!(view.id.len() <= 32);
    assert_eq!(view.generation, 1);
    assert!(delta.is_none());
    assert_eq!(view.state.len(), 1);
}

#[test]
fn identical_second_observation_is_empty_delta_and_performs_fresh_read() {
    let bus = RuntimeEventBus::new(8);
    let mut store = ViewStore::new(64, 30_000, &bus);
    let (first, _) = observe(&mut store, &bus, vec![record("A", true, 10)], None, None, 10).unwrap();
    let (second, delta) = observe(&mut store, &bus, vec![record("A", true, 10)], Some(&first.id), None, 11).unwrap();
    let delta = delta.expect("delta");
    assert!(delta.added.is_empty() && delta.removed.is_empty() && delta.changed.is_empty());
    assert_eq!(delta.entry_count(), 0);
    assert_eq!(second.parent.as_deref(), Some(first.id.as_str()));
    assert_eq!(second.generation, 2);
}

#[test]
fn addition_removal_and_change_emit_only_the_relevant_entity() {
    let bus = RuntimeEventBus::new(8);
    let mut store = ViewStore::new(64, 30_000, &bus);
    let (first, _) = observe(&mut store, &bus, vec![record("A", true, 10)], None, None, 10).unwrap();

    let (added_view, added) =
        observe(&mut store, &bus, vec![record("A", true, 10), record("B", false, 30)], Some(&first.id), None, 11).unwrap();
    let added = added.unwrap();
    assert_eq!(added.added.len(), 1);
    assert_eq!(added.removed.len(), 0);
    assert_eq!(added.changed.len(), 0);

    let (removed_view, removed) =
        observe(&mut store, &bus, vec![record("B", false, 30)], Some(&added_view.id), None, 12).unwrap();
    let removed = removed.unwrap();
    assert_eq!(removed.removed.len(), 1);
    assert_eq!(removed.added.len(), 0);

    let (_, changed) = observe(&mut store, &bus, vec![record("B", true, 99)], Some(&removed_view.id), None, 13).unwrap();
    let changed = changed.unwrap();
    assert_eq!(changed.changed.len(), 1);
    assert_eq!(changed.added.len(), 0);
    assert_eq!(changed.removed.len(), 0);
}

#[test]
fn provider_order_does_not_change_delta_order_or_create_false_changes() {
    let bus = RuntimeEventBus::new(8);
    let mut store = ViewStore::new(64, 30_000, &bus);
    let (first, _) =
        observe(&mut store, &bus, vec![record("B", false, 30), record("A", true, 10)], None, None, 10).unwrap();
    let (second, delta) =
        observe(&mut store, &bus, vec![record("A", true, 10), record("B", false, 30)], Some(&first.id), None, 11).unwrap();
    let delta = delta.unwrap();
    assert!(delta.added.is_empty() && delta.removed.is_empty() && delta.changed.is_empty());

    let (_, third) = observe(
        &mut store,
        &bus,
        vec![record("D", false, 40), record("C", false, 35), record("A", true, 10), record("B", false, 30)],
        Some(&second.id),
        None,
        12,
    )
    .unwrap();
    let keys = third.unwrap().added.iter().map(|entry| entry.key.clone()).collect::<Vec<_>>();
    let mut sorted = keys.clone();
    sorted.sort_unstable();
    assert_eq!(keys, sorted);
    assert_eq!(keys.len(), 2);
}

#[test]
fn unknown_and_incompatible_views_refuse_deterministically() {
    let bus = RuntimeEventBus::new(8);
    let mut store = ViewStore::new(64, 30_000, &bus);
    let unknown = observe(&mut store, &bus, vec![record("A", true, 10)], Some("v1-00000000ffffffff"), None, 10)
        .expect_err("unknown view must refuse");
    assert_eq!(unknown.code(), "VIEW_UNKNOWN");

    let (first, _) = observe(&mut store, &bus, vec![record("A", true, 10)], None, Some("Editor"), 10).unwrap();
    let mismatch = observe(&mut store, &bus, vec![record("A", true, 10)], Some(&first.id), Some("Browser"), 11)
        .expect_err("scope mismatch must refuse");
    assert_eq!(mismatch.code(), "VIEW_SCOPE_MISMATCH");
}

#[test]
fn one_change_delta_is_smaller_than_full_observation_for_many_windows() {
    let bus = RuntimeEventBus::new(8);
    let mut store = ViewStore::new(64, 30_000, &bus);
    let initial = (0..30).map(|index| record(&format!("Window {index:02}"), index == 0, index)).collect::<Vec<_>>();
    let (first, _) = observe(&mut store, &bus, initial, None, None, 10).unwrap();
    let changed = (0..30)
        .map(|index| record(&format!("Window {index:02}"), index == 0, if index == 17 { index + 25 } else { index }))
        .collect::<Vec<_>>();
    let (second, delta) = observe(&mut store, &bus, changed, Some(&first.id), None, 11).unwrap();
    assert_eq!(second.state.len(), 30);
    let delta = delta.unwrap();
    assert_eq!(delta.entry_count(), 1);
    assert_eq!(delta.changed.len(), 1);
}

#[test]
fn views_follow_the_bus_and_overflow_stales_them() {
    let mut bus = RuntimeEventBus::new(2);
    let mut store = ViewStore::new(8, 30_000, &bus);
    let (view, _) = observe(&mut store, &bus, vec![record("A", true, 10)], None, Some("editor"), 10).unwrap();
    bus.publish(RuntimeEvent::ProviderReset);
    bus.publish(RuntimeEvent::ProviderReset);
    bus.publish(RuntimeEvent::ProviderReset);
    let error = expected_view(&mut store, &bus, &view.id, 11).expect_err("lost history stales views");
    assert_eq!(error.code(), "VIEW_STALE");
    assert_eq!(store.invalidation().overflow_resets, 1);
    assert_eq!(store.event_metrics().dropped, 1);
}

#[test]
fn fresh_expected_view_passes_and_changed_desktop_is_stale() {
    let bus = RuntimeEventBus::new(8);
    let mut store = ViewStore::new(8, 30_000, &bus);
    let (view, _) = observe(&mut store, &bus, vec![record("A", true, 10)], None, None, 10).unwrap();
    let expected = expected_view(&mut store, &bus, &view.id, 11).expect("fresh view");
    let same = canonical_windows(&listing(vec![record("A", true, 10)])).unwrap();
    assert!(check_freshness(&expected, &same).is_ok());
    let moved = canonical_windows(&listing(vec![record("A", true, 99)])).unwrap();
    assert_eq!(check_freshness(&expected, &moved), Err(ViewErrorKind::Stale));
    let unknown = expected_view(&mut store, &bus, "v1-00000000ffffffff", 11).expect_err("unknown");
    assert_eq!(unknown, ViewErrorKind::Unknown);
}

#[test]
fn other_observation_surfaces_are_unsupported() {
    assert_eq!(
        observation_state("snapshot", &ScopeArg::Missing, &listing(vec![])).unwrap_err(),
        ViewErrorKind::Unsupported
    );
    assert_eq!(
        observation_state("list-windows", &ScopeArg::NotText, &listing(vec![])).unwrap_err(),
        ViewErrorKind::ScopeInvalid
    );
}

#[test]
fn view_ids_scopes_and_keys() {
    assert_eq!(view_id_text(1), "v1-0000000000000001");
    assert_eq!(view_id_text(0xffffffff), "v1-00000000ffffffff");
    assert_eq!(parse_view_id("v1-00000000FFFFffff").unwrap(), "v1-00000000FFFFffff");
    assert_eq!(parse_view_id("v1-0000000000000001x").unwrap_err(), ViewErrorKind::IdInvalid);
    assert_eq!(parse_view_id("v2-0000000000000001").unwrap_err(), ViewErrorKind::IdInvalid);
    assert_eq!(parse_view_id("v1-000000000000000g").unwrap_err(), ViewErrorKind::IdInvalid);
    let scope = scope_for("list-windows", &ScopeArg::Text("  Editor ".into())).unwrap();
    assert_eq!(scope.app.as_deref(), Some("editor"));
    let everything = scope_for("list-windows", &ScopeArg::Text("   ".into())).unwrap();
    assert!(everything.app.is_none());
    assert!(eq_ignore_ascii_case("EdItor", "editor"));
    assert!(!eq_ignore_ascii_case("Editor", "Editors"));
    assert_eq!(fnv1a64(b""), 0xcbf29ce484222325);
    assert_eq!(fnv1a64(b"a"), 0xaf63dc4c8601ec8c);
    let key = semantic_key("Editor", 42, "g", "A");
    assert_eq!(key, format!("wsem-{:016x}", fnv1a64(b"6:editor|42|1:g|1:A")));
    let editor_scope = list_windows_scope(Some("Editor"));
    let event = RuntimeEvent::ProcessStarted { current: editor_process(1, "g") };
    assert!(event_invalidates_scope(&event, &editor_scope));
    assert!(!event_invalidates_scope(&event, &list_windows_scope(Some("Browser"))));
    assert!(event_invalidates_scope(&RuntimeEvent::ProviderReset, &list_windows_scope(Some("Browser"))));
    assert!(event_invalidates_scope(&event, &list_windows_scope(None)));
    let state: Vec<StateEntry> = Vec::new();
    assert!(diff(&state, &state).unwrap().added.is_empty());
}
