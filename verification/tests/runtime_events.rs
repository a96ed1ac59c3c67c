use agent_desktop_runtime::model::{AppInfo, ProcessId, SignalBaseline, SignalCompleteness, WindowInfo, WindowState};
use agent_desktop_runtime::runtime_event_diff::{publish_runtime_invalidation_diff, runtime_invalidation_diff};
use agent_desktop_runtime::runtime_events::{
    publish_runtime_event, runtime_event_cursor, runtime_event_metrics, runtime_events_since, RuntimeEvent,
    RuntimeEventBus, RuntimeEventCursor, RuntimeProcessScope, RuntimeWindowScope,
};
use agent_desktop_runtime::text::MAX_SCOPE_TEXT_BYTES;

fn app(name: &str, pid: u32, generation: &str) -> AppInfo {
    AppInfo {
        name: name.into(),
        pid: ProcessId::new(pid),
        bundle_id: Some(format!("com.example.{}", name.to_lowercase())),
        process_instance: Some(generation.into()),
    }
}

fn window(app: &str, title: &str, pid: u32, generation: &str, id: &str) -> WindowInfo {
    WindowInfo {
        id: id.into(),
        title: title.into(),
        app: app.into(),
        pid: ProcessId::new(pid),
        process_instance: Some(generation.into()),
        state: WindowState::default(),
    }
}

fn baseline(apps: Vec<AppInfo>, windows: Vec<WindowInfo>) -> SignalBaseline {
    SignalBaseline {
        apps,
        windows,
        completeness: SignalCompleteness { apps: true, windows: true, surfaces: false },
    }
}

#[test]
fn process_replacement_and_window_recreation_are_semantic_and_handle_free() {
    let before = baseline(
        vec![app("Editor", 41, "proc-a")],
        vec![window("Editor", "Document", 41, "proc-a", "0xDEADBEEF")],
    );
    let after = baseline(
        vec![app("Editor", 57, "proc-b")],
        vec![window("Editor", "Document", 57, "proc-b", "0xCAFEBABE")],
    );

    let events = runtime_invalidation_diff(&before, &after);
    assert!(events.iter().any(|event| matches!(
        event,
        RuntimeEvent::ProcessReplaced { previous, current }
            if previous.process_instance() == "proc-a"
                && current.process_instance() == "proc-b"
    )));
    assert!(events.iter().any(|event| matches!(
        event,
        RuntimeEvent::WindowGenerationChanged { previous, current }
            if previous.title() == "Document" && current.title() == "Document"
    )));

    let debug = format!("{events:?}");
    assert!(!debug.contains("DEADBEEF"));
    assert!(!debug.contains("CAFEBABE"));
}

#[test]
fn unrelated_app_change_stays_scoped() {
    let before = baseline(
        vec![app("Editor", 41, "editor-a"), app("Browser", 50, "browser-a")],
        vec![window("Editor", "Document", 41, "editor-a", "w1")],
    );
    let after = baseline(
        vec![app("Editor", 41, "editor-a"), app("Browser", 51, "browser-b")],
        vec![window("Editor", "Document", 41, "editor-a", "w1")],
    );

    let events = runtime_invalidation_diff(&before, &after);
    assert_eq!(events.len(), 1);
    match &events[0] {
        RuntimeEvent::ProcessReplaced { previous, current } => {
            assert_eq!(previous.app(), "Browser");
            assert_eq!(current.app(), "Browser");
        }
        other => panic!("unexpected event: {other:?}"),
    }
}

#[test]
fn incomplete_provider_snapshot_does_not_fabricate_realtime_events() {
    let mut before = baseline(vec![app("Editor", 41, "a")], Vec::new());
    let after = baseline(Vec::new(), Vec::new());
    before.completeness.apps = false;
    assert!(runtime_invalidation_diff(&before, &after).is_empty());
}

#[test]
fn oversized_native_metadata_fails_safe_to_provider_reset() {
    let oversized = "x".repeat(MAX_SCOPE_TEXT_BYTES + 1);
    let before = baseline(vec![app(&oversized, 41, "a")], Vec::new());
    let after = baseline(Vec::new(), Vec::new());
    assert_eq!(runtime_invalidation_diff(&before, &after), vec![RuntimeEvent::ProviderReset]);
}

#[test]
fn bounded_bus_has_deterministic_drop_oldest_overflow_semantics() {
    let mut bus = RuntimeEventBus::new(2);
    let cursor = bus.cursor();
    bus.publish(RuntimeEvent::ProviderReset);
    bus.publish(RuntimeEvent::ProviderReset);
    bus.publish(RuntimeEvent::ProviderReset);

    let batch = bus.read_since(cursor);
    assert!(batch.overflowed);
    assert_eq!(batch.events.len(), 2);
    assert_eq!(batch.metrics.capacity, 2);
    assert_eq!(batch.metrics.depth, 2);
    assert_eq!(batch.metrics.max_depth, 2);
    assert_eq!(batch.metrics.published, 3);
    assert_eq!(batch.metrics.dropped, 1);
}

#[test]
fn duplicate_events_preserve_order_without_unbounded_growth() {
    let process = RuntimeProcessScope::new("Editor", ProcessId::new(41), "proc-a").expect("bounded process scope");
    let event = RuntimeEvent::AccessibilityTreeInvalidated { process };
    let mut bus = RuntimeEventBus::new(4);
    let cursor = bus.cursor();
    for _ in 0..20 {
        bus.publish(event.clone());
    }
    let batch = bus.read_since(cursor);
    assert!(batch.overflowed);
    assert_eq!(batch.events, vec![event; 4]);
    assert_eq!(batch.metrics.depth, 4);
    assert_eq!(batch.metrics.dropped, 16);
}

#[test]
fn reader_that_kept_up_sees_every_event_in_order_without_overflow() {
    let mut bus = RuntimeEventBus::new(4);
    let cursor = runtime_event_cursor(&bus);
    let first = RuntimeProcessScope::new("Editor", ProcessId::new(1), "g1").unwrap();
    let second = RuntimeProcessScope::new("Editor", ProcessId::new(2), "g2").unwrap();
    publish_runtime_event(&mut bus, RuntimeEvent::ProcessStarted { current: first.clone() });
    publish_runtime_event(&mut bus, RuntimeEvent::ProcessExited { previous: second.clone() });
    let batch = runtime_events_since(&bus, cursor);
    assert!(!batch.overflowed);
    assert_eq!(
        batch.events,
        vec![RuntimeEvent::ProcessStarted { current: first }, RuntimeEvent::ProcessExited { previous: second }]
    );
    assert_eq!(batch.cursor.position(), 2);
    let again = runtime_events_since(&bus, batch.cursor);
    assert!(again.events.is_empty());
    assert!(!again.overflowed);
    let metrics = runtime_event_metrics(&bus);
    assert_eq!(metrics.published, 2);
    assert_eq!(metrics.dropped, 0);
    assert_eq!(metrics.depth, 2);
}

#[test]
fn cursor_ahead_of_the_bus_reports_overflow() {
    let mut bus = RuntimeEventBus::new(2);
    bus.publish(RuntimeEvent::ProviderReset);
    let batch = bus.read_since(RuntimeEventCursor::at(5));
    assert!(batch.overflowed);
    assert_eq!(batch.cursor.position(), 1);
}

#[test]
fn zero_capacity_bus_keeps_one_event() {
    let mut bus = RuntimeEventBus::new(0);
    bus.publish(RuntimeEvent::ProviderReset);
    bus.publish(RuntimeEvent::ProviderReset);
    let metrics = bus.metrics();
    assert_eq!(metrics.capacity, 1);
    assert_eq!(metrics.depth, 1);
    assert_eq!(metrics.dropped, 1);
}

#[test]
fn scopes_refuse_unbounded_or_empty_texts_and_zero_pid() {
    assert!(RuntimeProcessScope::new("", ProcessId::new(1), "g").is_none());
    assert!(RuntimeProcessScope::new("Editor", ProcessId::new(0), "g").is_none());
    assert!(RuntimeProcessScope::new("Editor", ProcessId::new(1), &"x".repeat(MAX_SCOPE_TEXT_BYTES + 1)).is_none());
    let process = RuntimeProcessScope::new("Editor", ProcessId::new(1), "g").unwrap();
    assert_eq!(process.pid().get(), 1);
    assert!(RuntimeWindowScope::new(process.clone(), "").is_none());
    let window = RuntimeWindowScope::new(process, "Document").unwrap();
    assert_eq!(window.process().app(), "Editor");
}

#[test]
fn unchanged_snapshot_publishes_nothing_and_removed_app_exits() {
    let snapshot = baseline(vec![app("Editor", 41, "a")], vec![window("Editor", "Doc", 41, "a", "w")]);
    assert!(runtime_invalidation_diff(&snapshot, &snapshot.clone()).is_empty());
    let mut bus = RuntimeEventBus::new(8);
    let gone = baseline(Vec::new(), vec![window("Editor", "Doc", 41, "a", "w")]);
    let published = publish_runtime_invalidation_diff(&mut bus, &snapshot, &gone);
    assert_eq!(published, 1);
    let batch = bus.read_since(RuntimeEventCursor::at(0));
    match &batch.events[0] {
        RuntimeEvent::ProcessExited { previous } => assert_eq!(previous.app(), "Editor"),
        other => panic!("unexpected event: {other:?}"),
    }
}

fn mirrored(event: &RuntimeEvent) -> RuntimeEvent {
    match event.clone() {
        RuntimeEvent::ProcessStarted { current } => RuntimeEvent::ProcessExited { previous: current },
        RuntimeEvent::ProcessExited { previous } => RuntimeEvent::ProcessStarted { current: previous },
        RuntimeEvent::ProcessReplaced { previous, current } => RuntimeEvent::ProcessReplaced { previous: current, current: previous },
        RuntimeEvent::WindowCreated { current } => RuntimeEvent::WindowDestroyed { previous: current },
        RuntimeEvent::WindowDestroyed { previous } => RuntimeEvent::WindowCreated { current: previous },
        RuntimeEvent::WindowGenerationChanged { previous, current } => {
            RuntimeEvent::WindowGenerationChanged { previous: current, current: previous }
        }
        other => other,
    }
}

#[test]
fn diff_taken_the_other_way_round_mirrors_every_event() {
    let before = baseline(
        vec![app("Editor", 41, "proc-a"), app("Browser", 50, "browser-a")],
        vec![window("Editor", "Document", 41, "proc-a", "w1"), window("Browser", "Home", 50, "browser-a", "w2")],
    );
    let after = baseline(
        vec![app("Editor", 57, "proc-b"), app("Mail", 60, "mail-a")],
        vec![window("Editor", "Document", 57, "proc-b", "w3"), window("Mail", "Inbox", 60, "mail-a", "w4")],
    );
    let forward = runtime_invalidation_diff(&before, &after);
    let backward = runtime_invalidation_diff(&after, &before);
    assert!(!forward.is_empty());
    assert_eq!(forward.len(), backward.len());
    for event in &forward {
        assert!(backward.contains(&mirrored(event)), "missing mirror of {event:?}");
    }
    for event in &backward {
        assert!(forward.contains(&mirrored(event)), "missing mirror of {event:?}");
    }
}

#[test]
fn cursor_advances_by_each_publish_and_reads_back_or_overflows() {
    let mut bus = RuntimeEventBus::new(4);
    let start = runtime_event_cursor(&bus);
    let scope = |i: u32| RuntimeProcessScope::new("Editor", ProcessId::new(i), "proc").unwrap();
    for i in 1..=3 {
        publish_runtime_event(&mut bus, RuntimeEvent::ProcessStarted { current: scope(i) });
    }
    assert_eq!(runtime_event_cursor(&bus).position(), start.position() + 3);
    let read = runtime_events_since(&bus, start);
    assert!(!read.overflowed);
    assert_eq!(read.events.len(), 3);
    assert_eq!(read.cursor.position(), start.position() + 3);

    let middle = runtime_event_cursor(&bus);
    for i in 4..=9 {
        publish_runtime_event(&mut bus, RuntimeEvent::ProcessStarted { current: scope(i) });
    }
    let read = runtime_events_since(&bus, middle);
    assert!(read.overflowed);
    let pids = read
        .events
        .iter()
        .map(|event| match event {
            RuntimeEvent::ProcessStarted { current } => current.pid().get(),
            other => panic!("unexpected {other:?}"),
        })
        .collect::<Vec<_>>();
    assert_eq!(pids, vec![6, 7, 8, 9]);
    let metrics = runtime_event_metrics(&bus);
    assert_eq!(metrics.capacity, 4);
    assert!(metrics.depth <= metrics.max_depth && metrics.max_depth <= metrics.capacity);
    assert_eq!(metrics.published, metrics.dropped + metrics.depth as u64);
}
