//! Turns two normalized provider snapshots into bounded semantic invalidation events.
//! Native window ids take part only in the transient identity comparison; they are
//! never copied into an event.
use vstd::prelude::*;

use crate::grouping::{
    changes_over, exits, group_changes, has_match, indices_with, key_order, lemma_indices_with_sound, starts,
    change_in_range, compute_changes, diff_changes, identity_view, identity_views, key_views,
    lemma_concat_contains, lemma_diff_changes_in_range, lemma_diff_changes_swap, swap_change, Change, IdentityView,
    RuntimeIdentity,
};
use crate::model::{
    app_views, window_views, AppInfo, AppView, BaselineView, SignalBaseline, WindowInfo,
    WindowView,
};
use crate::runtime_events::{
    after_publish, after_publishes, bus_inv, events_after, lemma_reads_after_publishes, metrics_of, read_overflows,
    tail_position, event_key_text, event_ok, event_rank, event_views, EventView,
    ProcessScopeView, RuntimeEvent, RuntimeEventBus, RuntimeProcessScope, RuntimeWindowScope,
    WindowScopeView, BusView,
};
use crate::text::{
    bounded_text_spec, chars_less, chars_lt, concat, lemma_chars_lt_asymmetric,
    lemma_chars_lt_irreflexive, lemma_chars_lt_total, lemma_chars_lt_transitive, normalize,
    normalized, to_chars,
};

verus! {

/// The grouping key of an application: its non-empty bundle id, else its name, normalized.
pub open spec fn app_group_key(a: AppView) -> Seq<char> {
    match a.bundle_id {
        Some(b) => if b.len() > 0 {
            "bundle:"@ + normalized(b)
        } else {
            "name:"@ + normalized(a.name)
        },
        None => "name:"@ + normalized(a.name),
    }
}

/// The grouping key of a window: normalized app name and title.
pub open spec fn window_group_key(w: WindowView) -> Seq<char> {
    normalized(w.app) + "\u{0}"@ + normalized(w.title)
}

/// The runtime identity of an application: pid and process generation, when known.
pub open spec fn app_identity(a: AppView) -> IdentityView {
    match a.process_instance {
        Some(i) => Some((a.pid, i, Seq::<char>::empty())),
        None => None,
    }
}

/// The runtime identity of a window: pid, process generation and native id, when known.
pub open spec fn window_identity(w: WindowView) -> IdentityView {
    match w.process_instance {
        Some(i) => Some((w.pid, i, w.id)),
        None => None,
    }
}

/// The bounded process scope of an application, if it has one.
pub open spec fn process_scope_of(a: AppView) -> Option<ProcessScopeView> {
    match a.process_instance {
        Some(i) => if bounded_text_spec(a.name) && bounded_text_spec(i) && a.pid != 0 {
            Some(ProcessScopeView { app: a.name, pid: a.pid, process_instance: i })
        } else {
            None
        },
        None => None,
    }
}

/// The bounded window scope of a window, if it has one.
pub open spec fn window_scope_of(w: WindowView) -> Option<WindowScopeView> {
    match w.process_instance {
        Some(i) => if bounded_text_spec(w.app) && bounded_text_spec(i) && w.pid != 0
            && bounded_text_spec(w.title) {
            Some(
                WindowScopeView {
                    process: ProcessScopeView { app: w.app, pid: w.pid, process_instance: i },
                    title: w.title,
                },
            )
        } else {
            None
        },
        None => None,
    }
}

/// The event of an application change; a provider reset when a scope is unbounded.
pub open spec fn app_change_event(prev: Seq<AppView>, cur: Seq<AppView>, c: Change) -> EventView {
    match c {
        Change::Replaced(i, j) => match (
            process_scope_of(prev[i as int]),
            process_scope_of(cur[j as int]),
        ) {
            (Some(p), Some(q)) => EventView::ProcessReplaced { previous: p, current: q },
            _ => EventView::ProviderReset,
        },
        Change::Exited(i) => match process_scope_of(prev[i as int]) {
            Some(p) => EventView::ProcessExited { previous: p },
            None => EventView::ProviderReset,
        },
        Change::Started(j) => match process_scope_of(cur[j as int]) {
            Some(q) => EventView::ProcessStarted { current: q },
            None => EventView::ProviderReset,
        },
    }
}

/// The event of a window change; a provider reset when a scope is unbounded.
pub open spec fn window_change_event(
    prev: Seq<WindowView>,
    cur: Seq<WindowView>,
    c: Change,
) -> EventView {
    match c {
        Change::Replaced(i, j) => match (
            window_scope_of(prev[i as int]),
            window_scope_of(cur[j as int]),
        ) {
            (Some(p), Some(q)) => EventView::WindowGenerationChanged { previous: p, current: q },
            _ => EventView::ProviderReset,
        },
        Change::Exited(i) => match window_scope_of(prev[i as int]) {
            Some(p) => EventView::WindowDestroyed { previous: p },
            None => EventView::ProviderReset,
        },
        Change::Started(j) => match window_scope_of(cur[j as int]) {
            Some(q) => EventView::WindowCreated { current: q },
            None => EventView::ProviderReset,
        },
    }
}

/// The application changes between two application lists.
pub open spec fn app_changes(prev: Seq<AppView>, cur: Seq<AppView>) -> Seq<Change> {
    diff_changes(
        prev.map_values(|a: AppView| app_group_key(a)),
        prev.map_values(|a: AppView| app_identity(a)),
        cur.map_values(|a: AppView| app_group_key(a)),
        cur.map_values(|a: AppView| app_identity(a)),
    )
}

/// The window changes between two window lists.
pub open spec fn window_changes(prev: Seq<WindowView>, cur: Seq<WindowView>) -> Seq<Change> {
    diff_changes(
        prev.map_values(|w: WindowView| window_group_key(w)),
        prev.map_values(|w: WindowView| window_identity(w)),
        cur.map_values(|w: WindowView| window_group_key(w)),
        cur.map_values(|w: WindowView| window_identity(w)),
    )
}

/// The process events between two application lists, group by group.
pub open spec fn app_events(prev: Seq<AppView>, cur: Seq<AppView>) -> Seq<EventView> {
    app_changes(prev, cur).map_values(|c: Change| app_change_event(prev, cur, c))
}

/// The window events between two window lists, group by group.
pub open spec fn window_events(prev: Seq<WindowView>, cur: Seq<WindowView>) -> Seq<EventView> {
    window_changes(prev, cur).map_values(|c: Change| window_change_event(prev, cur, c))
}

/// The events before ordering: process events when both application lists are complete,
/// then window events when both window lists are complete.
pub open spec fn raw_events(prev: BaselineView, cur: BaselineView) -> Seq<EventView> {
    (if prev.apps_complete && cur.apps_complete {
        app_events(prev.apps, cur.apps)
    } else {
        Seq::<EventView>::empty()
    }) + (if prev.windows_complete && cur.windows_complete {
        window_events(prev.windows, cur.windows)
    } else {
        Seq::<EventView>::empty()
    })
}

/// `a` orders strictly before `b`: lower rank, or equal rank and a smaller scope key.
pub open spec fn event_before(a: EventView, b: EventView) -> bool {
    event_rank(a) < event_rank(b) || (event_rank(a) == event_rank(b) && chars_lt(
        event_key_text(a),
        event_key_text(b),
    ))
}

/// Stable insertion of `e` into an ordered list: after every element it does not precede.
pub open spec fn insert_ordered(s: Seq<EventView>, e: EventView) -> Seq<EventView>
    decreases s.len(),
{
    if s.len() == 0 {
        seq![e]
    } else if event_before(e, s.last()) {
        insert_ordered(s.drop_last(), e).push(s.last())
    } else {
        s.push(e)
    }
}

/// The stable sort of a list of events by `(rank, scope key)`.
pub open spec fn sort_events(s: Seq<EventView>) -> Seq<EventView>
    decreases s.len(),
{
    if s.len() == 0 {
        seq![]
    } else {
        insert_ordered(sort_events(s.drop_last()), s.last())
    }
}

/// A list with every run of equal consecutive events reduced to one.
pub open spec fn dedup_events(s: Seq<EventView>) -> Seq<EventView>
    decreases s.len(),
{
    if s.len() <= 1 {
        s
    } else if s.last() == s[s.len() - 2] {
        dedup_events(s.drop_last())
    } else {
        dedup_events(s.drop_last()).push(s.last())
    }
}

/// The invalidation events between two snapshots, in deterministic order, without
/// consecutive duplicates.
pub open spec fn invalidation_diff(prev: BaselineView, cur: BaselineView) -> Seq<EventView> {
    dedup_events(sort_events(raw_events(prev, cur)))
}

/// The semantic grouping key of an application.
pub fn app_semantic_key(app: &AppInfo) -> (r: String)
    ensures
        r@ == app_group_key(app@),
{
    match &app.bundle_id {
        Some(bundle) => if !bundle.as_str().is_empty() {
            let n = normalize(bundle.as_str());
            concat("bundle:", n.as_str())
        } else {
            let n = normalize(app.name.as_str());
            concat("name:", n.as_str())
        },
        None => {
            let n = normalize(app.name.as_str());
            concat("name:", n.as_str())
        },
    }
}

/// The semantic grouping key of a window.
pub fn window_semantic_key(window: &WindowInfo) -> (r: String)
    ensures
        r@ == window_group_key(window@),
{
    let a = normalize(window.app.as_str());
    let b = concat(a.as_str(), "\u{0}");
    let t = normalize(window.title.as_str());
    concat(b.as_str(), t.as_str())
}

/// The runtime identity of an application.
pub fn app_runtime_identity(app: &AppInfo) -> (r: Option<RuntimeIdentity>)
    ensures
        crate::grouping::identity_view(r) == app_identity(app@),
{
    match &app.process_instance {
        Some(instance) => {
            let handle: Vec<char> = Vec::new();
            let r = RuntimeIdentity {
                pid: app.pid.get(),
                instance: to_chars(instance.as_str()),
                handle,
            };
            assert(r.handle@ =~= Seq::<char>::empty());
            Some(r)
        },
        None => None,
    }
}

/// The runtime identity of a window.
pub fn window_runtime_identity(window: &WindowInfo) -> (r: Option<RuntimeIdentity>)
    ensures
        crate::grouping::identity_view(r) == window_identity(window@),
{
    match &window.process_instance {
        Some(instance) => Some(
            RuntimeIdentity {
                pid: window.pid.get(),
                instance: to_chars(instance.as_str()),
                handle: to_chars(window.id.as_str()),
            },
        ),
        None => None,
    }
}

/// The process scope of an application, when its texts are bounded and its pid known.
pub fn process_scope(app: &AppInfo) -> (r: Option<RuntimeProcessScope>)
    ensures
        r is Some <==> process_scope_of(app@) is Some,
        r matches Some(s) ==> process_scope_of(app@) == Some(s@),
{
    match &app.process_instance {
        Some(instance) => RuntimeProcessScope::new(app.name.as_str(), app.pid, instance.as_str()),
        None => None,
    }
}

/// The window scope of a window, when its texts are bounded and its pid known.
pub fn window_scope(window: &WindowInfo) -> (r: Option<RuntimeWindowScope>)
    ensures
        r is Some <==> window_scope_of(window@) is Some,
        r matches Some(s) ==> window_scope_of(window@) == Some(s@),
{
    match &window.process_instance {
        Some(instance) => match RuntimeProcessScope::new(
            window.app.as_str(),
            window.pid,
            instance.as_str(),
        ) {
            Some(process) => RuntimeWindowScope::new(process, window.title.as_str()),
            None => None,
        },
        None => None,
    }
}


fn app_summaries(apps: &Vec<AppInfo>) -> (r: (Vec<Vec<char>>, Vec<Option<RuntimeIdentity>>))
    ensures
        r.0.len() == apps.len(),
        r.1.len() == apps.len(),
        key_views(r.0@) == app_views(apps@).map_values(|a: AppView| app_group_key(a)),
        identity_views(r.1@) == app_views(apps@).map_values(|a: AppView| app_identity(a)),
{
    let mut keys: Vec<Vec<char>> = Vec::new();
    let mut ids: Vec<Option<RuntimeIdentity>> = Vec::new();
    let mut i: usize = 0;
    while i < apps.len()
        invariant
            i <= apps.len(),
            keys.len() == i,
            ids.len() == i,
            forall|q: int| 0 <= q < i ==> (#[trigger] keys@[q])@ == app_group_key(apps@[q]@),
            forall|q: int| 0 <= q < i ==> identity_view(#[trigger] ids@[q]) == app_identity(apps@[q]@),
        decreases apps.len() - i,
    {
        let k = app_semantic_key(&apps[i]);
        keys.push(to_chars(k.as_str()));
        ids.push(app_runtime_identity(&apps[i]));
        i = i + 1;
    }
    assert(key_views(keys@) =~= app_views(apps@).map_values(|a: AppView| app_group_key(a)));
    assert(identity_views(ids@) =~= app_views(apps@).map_values(|a: AppView| app_identity(a)));
    (keys, ids)
}

fn window_summaries(windows: &Vec<WindowInfo>) -> (r: (Vec<Vec<char>>, Vec<Option<RuntimeIdentity>>))
    ensures
        r.0.len() == windows.len(),
        r.1.len() == windows.len(),
        key_views(r.0@) == window_views(windows@).map_values(|w: WindowView| window_group_key(w)),
        identity_views(r.1@) == window_views(windows@).map_values(
            |w: WindowView| window_identity(w),
        ),
{
    let mut keys: Vec<Vec<char>> = Vec::new();
    let mut ids: Vec<Option<RuntimeIdentity>> = Vec::new();
    let mut i: usize = 0;
    while i < windows.len()
        invariant
            i <= windows.len(),
            keys.len() == i,
            ids.len() == i,
            forall|q: int| 0 <= q < i ==> (#[trigger] keys@[q])@ == window_group_key(windows@[q]@),
            forall|q: int|
                0 <= q < i ==> identity_view(#[trigger] ids@[q]) == window_identity(windows@[q]@),
        decreases windows.len() - i,
    {
        let k = window_semantic_key(&windows[i]);
        keys.push(to_chars(k.as_str()));
        ids.push(window_runtime_identity(&windows[i]));
        i = i + 1;
    }
    assert(key_views(keys@) =~= window_views(windows@).map_values(
        |w: WindowView| window_group_key(w),
    ));
    assert(identity_views(ids@) =~= window_views(windows@).map_values(
        |w: WindowView| window_identity(w),
    ));
    (keys, ids)
}

fn app_change_to_event(prev: &Vec<AppInfo>, cur: &Vec<AppInfo>, c: Change) -> (e: RuntimeEvent)
    requires
        change_in_range(c, prev.len() as int, cur.len() as int),
    ensures
        e@ == app_change_event(app_views(prev@), app_views(cur@), c),
        e@ == app_change_event(app_views(prev@), app_views(cur@), c),
{
    match c {
        Change::Replaced(i, j) => match (process_scope(&prev[i]), process_scope(&cur[j])) {
            (Some(previous), Some(current)) => RuntimeEvent::ProcessReplaced { previous, current },
            _ => RuntimeEvent::ProviderReset,
        },
        Change::Exited(i) => match process_scope(&prev[i]) {
            Some(previous) => RuntimeEvent::ProcessExited { previous },
            None => RuntimeEvent::ProviderReset,
        },
        Change::Started(j) => match process_scope(&cur[j]) {
            Some(current) => RuntimeEvent::ProcessStarted { current },
            None => RuntimeEvent::ProviderReset,
        },
    }
}

fn window_change_to_event(prev: &Vec<WindowInfo>, cur: &Vec<WindowInfo>, c: Change) -> (e:
    RuntimeEvent)
    requires
        change_in_range(c, prev.len() as int, cur.len() as int),
    ensures
        e@ == window_change_event(window_views(prev@), window_views(cur@), c),
{
    match c {
        Change::Replaced(i, j) => match (window_scope(&prev[i]), window_scope(&cur[j])) {
            (Some(previous), Some(current)) => RuntimeEvent::WindowGenerationChanged {
                previous,
                current,
            },
            _ => RuntimeEvent::ProviderReset,
        },
        Change::Exited(i) => match window_scope(&prev[i]) {
            Some(previous) => RuntimeEvent::WindowDestroyed { previous },
            None => RuntimeEvent::ProviderReset,
        },
        Change::Started(j) => match window_scope(&cur[j]) {
            Some(current) => RuntimeEvent::WindowCreated { current },
            None => RuntimeEvent::ProviderReset,
        },
    }
}

/// Appends the process events between the application lists of two snapshots.
fn diff_apps(previous: &SignalBaseline, current: &SignalBaseline, events: &mut Vec<RuntimeEvent>)
    ensures
        event_views(final(events)@) == event_views(old(events)@) + app_events(
            previous@.apps,
            current@.apps,
        ),
{
    let ghost base = event_views(events@);
    let (pk, pi) = app_summaries(&previous.apps);
    let (ck, ci) = app_summaries(&current.apps);
    let changes = compute_changes(&pk, &pi, &ck, &ci);
    let ghost prev = previous@.apps;
    let ghost cur = current@.apps;
    proof {
        lemma_diff_changes_in_range(key_views(pk@), identity_views(pi@), key_views(ck@), identity_views(ci@));
        assert(changes@ == app_changes(prev, cur));
    }
    let mut k: usize = 0;
    while k < changes.len()
        invariant
            k <= changes.len(),
            changes@ == app_changes(prev, cur),
            prev == app_views(previous.apps@),
            cur == app_views(current.apps@),
            prev.len() == previous.apps.len(),
            cur.len() == current.apps.len(),
            forall|q: int| 0 <= q < changes.len() ==> change_in_range(#[trigger] changes@[q], prev.len() as int, cur.len() as int),
            event_views(events@) == base + changes@.take(k as int).map_values(|c: Change| app_change_event(prev, cur, c)),
        decreases changes.len() - k,
    {
        assert(change_in_range(changes@[k as int], prev.len() as int, cur.len() as int));
        let e = app_change_to_event(&previous.apps, &current.apps, changes[k]);
        let ghost before = events@;
        events.push(e);
        proof {
            let x = changes@.take(k as int).map_values(|c: Change| app_change_event(prev, cur, c));
            let y = changes@.take(k + 1).map_values(|c: Change| app_change_event(prev, cur, c));
            assert(event_views(events@) =~= event_views(before).push(e@));
            assert(y =~= x.push(app_change_event(prev, cur, changes@[k as int])));
            assert(base + y =~= (base + x).push(app_change_event(prev, cur, changes@[k as int])));
        }
        k = k + 1;
    }
    assert(changes@.take(changes.len() as int) =~= changes@);
}

/// Appends the window events between the window lists of two snapshots.
fn diff_windows(previous: &SignalBaseline, current: &SignalBaseline, events: &mut Vec<RuntimeEvent>)
    ensures
        event_views(final(events)@) == event_views(old(events)@) + window_events(
            previous@.windows,
            current@.windows,
        ),
{
    let ghost base = event_views(events@);
    let (pk, pi) = window_summaries(&previous.windows);
    let (ck, ci) = window_summaries(&current.windows);
    let changes = compute_changes(&pk, &pi, &ck, &ci);
    let ghost prev = previous@.windows;
    let ghost cur = current@.windows;
    proof {
        lemma_diff_changes_in_range(key_views(pk@), identity_views(pi@), key_views(ck@), identity_views(ci@));
        assert(changes@ == window_changes(prev, cur));
    }
    let mut k: usize = 0;
    while k < changes.len()
        invariant
            k <= changes.len(),
            changes@ == window_changes(prev, cur),
            prev == window_views(previous.windows@),
            cur == window_views(current.windows@),
            prev.len() == previous.windows.len(),
            cur.len() == current.windows.len(),
            forall|q: int| 0 <= q < changes.len() ==> change_in_range(#[trigger] changes@[q], prev.len() as int, cur.len() as int),
            event_views(events@) == base + changes@.take(k as int).map_values(|c: Change| window_change_event(prev, cur, c)),
        decreases changes.len() - k,
    {
        assert(change_in_range(changes@[k as int], prev.len() as int, cur.len() as int));
        let e = window_change_to_event(&previous.windows, &current.windows, changes[k]);
        let ghost before = events@;
        events.push(e);
        proof {
            let x = changes@.take(k as int).map_values(|c: Change| window_change_event(prev, cur, c));
            let y = changes@.take(k + 1).map_values(|c: Change| window_change_event(prev, cur, c));
            assert(event_views(events@) =~= event_views(before).push(e@));
            assert(y =~= x.push(window_change_event(prev, cur, changes@[k as int])));
            assert(base + y =~= (base + x).push(window_change_event(prev, cur, changes@[k as int])));
        }
        k = k + 1;
    }
    assert(changes@.take(changes.len() as int) =~= changes@);
}


proof fn lemma_insert_ordered_at(s: Seq<EventView>, e: EventView, p: int)
    requires
        0 <= p <= s.len(),
        forall|q: int| p <= q < s.len() ==> event_before(e, #[trigger] s[q]),
        p == 0 || !event_before(e, s[p - 1]),
    ensures
        insert_ordered(s, e) == s.insert(p, e),
    decreases s.len(),
{
    if s.len() == 0 {
        assert(s.insert(p, e) =~= seq![e]);
    } else if p == s.len() {
        assert(s.insert(p, e) =~= s.push(e));
    } else {
        assert(event_before(e, s[s.len() - 1]));
        lemma_insert_ordered_at(s.drop_last(), e, p);
        assert(s.insert(p, e) =~= s.drop_last().insert(p, e).push(s.last()));
    }
}

fn order_before(a: &(u8, Vec<char>), b: &(u8, Vec<char>)) -> (r: bool)
    ensures
        r == (a.0 < b.0 || (a.0 == b.0 && chars_lt(a.1@, b.1@))),
{
    a.0 < b.0 || (a.0 == b.0 && chars_less(&a.1, &b.1))
}

fn sort_by_order(events: &Vec<RuntimeEvent>) -> (r: Vec<RuntimeEvent>)
    ensures
        event_views(r@) == sort_events(event_views(events@)),
{
    let ghost input = event_views(events@);
    let mut sorted: Vec<RuntimeEvent> = Vec::new();
    let mut keys: Vec<(u8, Vec<char>)> = Vec::new();
    let mut i: usize = 0;
    assert(input.take(0) =~= Seq::<EventView>::empty());
    assert(event_views(sorted@) =~= Seq::<EventView>::empty());
    while i < events.len()
        invariant
            i <= events.len(),
            input == event_views(events@),
            keys.len() == sorted.len(),
            forall|q: int|
                0 <= q < sorted.len() ==> (#[trigger] keys@[q]).0 == event_rank(sorted@[q]@)
                    && keys@[q].1@ == event_key_text(sorted@[q]@),
            event_views(sorted@) == sort_events(input.take(i as int)),
        decreases events.len() - i,
    {
        let e = events[i].duplicate();
        let (rank, text) = e.sort_key();
        let key = (rank, to_chars(text.as_str()));
        let ghost cur = event_views(sorted@);
        let mut p: usize = sorted.len();
        while p > 0 && order_before(&key, &keys[p - 1])
            invariant
                p <= sorted.len(),
                keys.len() == sorted.len(),
                cur == event_views(sorted@),
                key.0 == event_rank(e@),
                key.1@ == event_key_text(e@),
                forall|q: int|
                    0 <= q < sorted.len() ==> (#[trigger] keys@[q]).0 == event_rank(sorted@[q]@)
                        && keys@[q].1@ == event_key_text(sorted@[q]@),
                forall|q: int| p <= q < cur.len() ==> event_before(e@, #[trigger] cur[q]),
            decreases p,
        {
            assert(cur[p - 1] == sorted@[p - 1]@);
            p = p - 1;
        }
        proof {
            if p > 0 {
                assert(cur[p - 1] == sorted@[p - 1]@);
            }
            lemma_insert_ordered_at(cur, e@, p as int);
            assert(input.take(i + 1).drop_last() =~= input.take(i as int));
            assert(input.take(i + 1).last() == e@);
        }
        let ghost old_keys = keys@;
        let ghost old_sorted = sorted@;
        sorted.insert(p, e);
        keys.insert(p, key);
        proof {
            assert(event_views(sorted@) =~= cur.insert(p as int, e@));
            assert forall|q: int| 0 <= q < sorted.len() implies (#[trigger] keys@[q]).0
                == event_rank(sorted@[q]@) && keys@[q].1@ == event_key_text(sorted@[q]@) by {
                if q < p {
                    assert(keys@[q] == old_keys[q] && sorted@[q] == old_sorted[q]);
                } else if q > p {
                    assert(keys@[q] == old_keys[q - 1] && sorted@[q] == old_sorted[q - 1]);
                }
            }
        }
        i = i + 1;
    }
    assert(input.take(events.len() as int) =~= input);
    sorted
}

fn dedup_ordered(events: &Vec<RuntimeEvent>) -> (r: Vec<RuntimeEvent>)
    ensures
        event_views(r@) == dedup_events(event_views(events@)),
{
    let ghost input = event_views(events@);
    let mut out: Vec<RuntimeEvent> = Vec::new();
    let mut i: usize = 0;
    assert(input.take(0) =~= Seq::<EventView>::empty());
    assert(event_views(out@) =~= Seq::<EventView>::empty());
    while i < events.len()
        invariant
            i <= events.len(),
            input == event_views(events@),
            event_views(out@) == dedup_events(input.take(i as int)),
        decreases events.len() - i,
    {
        let keep = i == 0 || !events[i].same(&events[i - 1]);
        let ghost before = out@;
        if keep {
            out.push(events[i].duplicate());
            assert(event_views(out@) =~= event_views(before).push(input[i as int]));
        }
        proof {
            let t = input.take(i + 1);
            assert(t.drop_last() =~= input.take(i as int));
            assert(t.last() == input[i as int]);
            if i == 0 {
                assert(t =~= seq![input[0]]);
                assert(input.take(0) =~= Seq::<EventView>::empty());
            } else {
                assert(t[t.len() - 2] == input[i - 1]);
            }
        }
        i = i + 1;
    }
    assert(input.take(events.len() as int) =~= input);
    out
}

/// The semantic invalidation events between two snapshots: process events when both
/// application lists are complete, window events when both window lists are complete,
/// ordered by `(rank, scope key)` (stable) with consecutive duplicates removed.
pub fn runtime_invalidation_diff(previous: &SignalBaseline, current: &SignalBaseline) -> (r: Vec<
    RuntimeEvent,
>)
    ensures
        event_views(r@) == invalidation_diff(previous@, current@),
{
    let mut events: Vec<RuntimeEvent> = Vec::new();
    assert(event_views(events@) =~= Seq::<EventView>::empty());
    let ghost empty = Seq::<EventView>::empty();
    if previous.completeness.apps && current.completeness.apps {
        diff_apps(previous, current, &mut events);
    }
    let ghost after_apps = event_views(events@);
    assert(after_apps =~= (if previous@.apps_complete && current@.apps_complete {
        app_events(previous@.apps, current@.apps)
    } else {
        empty
    }));
    if previous.completeness.windows && current.completeness.windows {
        diff_windows(previous, current, &mut events);
    }
    assert(event_views(events@) =~= raw_events(previous@, current@));
    let sorted = sort_by_order(&events);
    dedup_ordered(&sorted)
}

/// Converts two snapshots into invalidation events and publishes them in order; returns
/// how many were published.
pub fn publish_runtime_invalidation_diff(
    bus: &mut RuntimeEventBus,
    previous: &SignalBaseline,
    current: &SignalBaseline,
) -> (count: usize)
    requires
        old(bus).wf(),
    ensures
        final(bus).wf(),
        count == invalidation_diff(previous@, current@).len(),
        final(bus)@ == after_publishes(old(bus)@, invalidation_diff(previous@, current@)),
{
    let events = runtime_invalidation_diff(previous, current);
    let count = events.len();
    let ghost es = event_views(events@);
    let ghost start = bus@;
    let mut i: usize = 0;
    assert(es.take(0) =~= Seq::<EventView>::empty());
    while i < count
        invariant
            i <= count,
            count == events.len(),
            es == event_views(events@),
            bus.wf(),
            bus@ == after_publishes(start, es.take(i as int)),
        decreases count - i,
    {
        let e = events[i].duplicate();
        bus.publish(e);
        assert(es.take(i + 1).drop_last() =~= es.take(i as int));
        i = i + 1;
    }
    assert(es.take(count as int) =~= es);
    count
}


/// Events in non-decreasing `(rank, scope key)` order.
pub open spec fn ordered(s: Seq<EventView>) -> bool {
    forall|i: int, j: int| 0 <= i < j < s.len() ==> !event_before(#[trigger] s[j], #[trigger] s[i])
}

proof fn lemma_before_asymmetric(a: EventView, b: EventView)
    requires
        event_before(a, b),
    ensures
        !event_before(b, a),
{
    if event_rank(a) == event_rank(b) {
        lemma_chars_lt_asymmetric(event_key_text(a), event_key_text(b));
    }
}

proof fn lemma_before_then_not_before(a: EventView, b: EventView, c: EventView)
    requires
        event_before(a, b),
        !event_before(c, b),
    ensures
        event_before(a, c),
{
    if event_rank(a) == event_rank(b) && event_rank(c) == event_rank(b) {
        let (ka, kb, kc) = (event_key_text(a), event_key_text(b), event_key_text(c));
        if kc != kb {
            lemma_chars_lt_total(kc, kb);
            lemma_chars_lt_transitive(ka, kb, kc);
        }
    }
}

proof fn lemma_insert_ordered_members(s: Seq<EventView>, e: EventView)
    ensures
        insert_ordered(s, e).len() == s.len() + 1,
        forall|k: int|
            0 <= k < insert_ordered(s, e).len() ==> #[trigger] insert_ordered(s, e)[k] == e
                || s.contains(insert_ordered(s, e)[k]),
    decreases s.len(),
{
    if s.len() > 0 {
        if event_before(e, s.last()) {
            lemma_insert_ordered_members(s.drop_last(), e);
            let t = insert_ordered(s.drop_last(), e);
            assert forall|k: int| 0 <= k < insert_ordered(s, e).len() implies #[trigger] insert_ordered(
                s,
                e,
            )[k] == e || s.contains(insert_ordered(s, e)[k]) by {
                if k < t.len() {
                    assert(insert_ordered(s, e)[k] == t[k]);
                    if t[k] != e {
                        let m = choose|m: int| 0 <= m < s.drop_last().len() && s.drop_last()[m] == t[k];
                        assert(s[m] == t[k]);
                    }
                } else {
                    assert(insert_ordered(s, e)[k] == s[s.len() - 1]);
                }
            }
        } else {
            assert forall|k: int| 0 <= k < insert_ordered(s, e).len() implies #[trigger] insert_ordered(
                s,
                e,
            )[k] == e || s.contains(insert_ordered(s, e)[k]) by {
                if k < s.len() {
                    assert(insert_ordered(s, e)[k] == s[k]);
                }
            }
        }
    }
}

proof fn lemma_insert_ordered_sorted(s: Seq<EventView>, e: EventView)
    requires
        ordered(s),
    ensures
        ordered(insert_ordered(s, e)),
    decreases s.len(),
{
    if s.len() == 0 {
    } else if event_before(e, s.last()) {
        let rest = s.drop_last();
        assert(ordered(rest)) by {
            assert forall|i: int, j: int| 0 <= i < j < rest.len() implies !event_before(
                #[trigger] rest[j],
                #[trigger] rest[i],
            ) by {
                assert(rest[i] == s[i] && rest[j] == s[j]);
            }
        }
        lemma_insert_ordered_sorted(rest, e);
        lemma_insert_ordered_members(rest, e);
        let t = insert_ordered(rest, e);
        let r = insert_ordered(s, e);
        assert(r == t.push(s.last()));
        assert forall|i: int, j: int| 0 <= i < j < r.len() implies !event_before(
            #[trigger] r[j],
            #[trigger] r[i],
        ) by {
            if j < t.len() {
                assert(r[i] == t[i] && r[j] == t[j]);
            } else {
                assert(r[j] == s.last());
                assert(r[i] == t[i]);
                if t[i] == e {
                    lemma_before_asymmetric(e, s.last());
                } else {
                    let m = choose|m: int| 0 <= m < rest.len() && rest[m] == t[i];
                    assert(s[m] == t[i]);
                    assert(s[s.len() - 1] == s.last());
                }
            }
        }
    } else {
        let r = insert_ordered(s, e);
        assert(r == s.push(e));
        assert forall|i: int, j: int| 0 <= i < j < r.len() implies !event_before(
            #[trigger] r[j],
            #[trigger] r[i],
        ) by {
            if j < s.len() {
                assert(r[i] == s[i] && r[j] == s[j]);
            } else {
                assert(r[j] == e && r[i] == s[i]);
                if i < s.len() - 1 {
                    assert(!event_before(s[s.len() - 1], s[i]));
                    if event_before(e, s[i]) {
                        lemma_before_then_not_before(e, s[i], s[s.len() - 1]);
                    }
                }
            }
        }
    }
}

proof fn lemma_sort_events(s: Seq<EventView>)
    ensures
        ordered(sort_events(s)),
        sort_events(s).len() == s.len(),
        forall|k: int| 0 <= k < sort_events(s).len() ==> s.contains(#[trigger] sort_events(s)[k]),
    decreases s.len(),
{
    if s.len() > 0 {
        lemma_sort_events(s.drop_last());
        let t = sort_events(s.drop_last());
        lemma_insert_ordered_sorted(t, s.last());
        lemma_insert_ordered_members(t, s.last());
        assert forall|k: int| 0 <= k < sort_events(s).len() implies s.contains(
            #[trigger] sort_events(s)[k],
        ) by {
            let x = sort_events(s)[k];
            if x == s.last() {
                assert(s[s.len() - 1] == x);
            } else {
                let m = choose|m: int| 0 <= m < t.len() && t[m] == x;
                let w = choose|w: int| 0 <= w < s.drop_last().len() && s.drop_last()[w] == t[m];
                assert(s[w] == x);
            }
        }
    }
}

proof fn lemma_dedup_events(s: Seq<EventView>)
    ensures
        s.len() > 0 ==> dedup_events(s).len() > 0 && dedup_events(s).last() == s.last(),
        forall|k: int| 0 <= k < dedup_events(s).len() ==> s.contains(#[trigger] dedup_events(s)[k]),
        forall|k: int| 0 <= k < dedup_events(s).len() - 1 ==> #[trigger] dedup_events(s)[k] != dedup_events(s)[k + 1],
        ordered(s) ==> ordered(dedup_events(s)),
    decreases s.len(),
{
    if s.len() > 1 {
        let rest = s.drop_last();
        lemma_dedup_events(rest);
        let d = dedup_events(rest);
        assert(ordered(s) ==> ordered(rest)) by {
            if ordered(s) {
                assert forall|i: int, j: int| 0 <= i < j < rest.len() implies !event_before(
                    #[trigger] rest[j],
                    #[trigger] rest[i],
                ) by {
                    assert(rest[i] == s[i] && rest[j] == s[j]);
                }
            }
        }
        assert forall|k: int| 0 <= k < d.len() implies s.contains(#[trigger] d[k]) by {
            let m = choose|m: int| 0 <= m < rest.len() && rest[m] == d[k];
            assert(s[m] == d[k]);
        }
        if s.last() == s[s.len() - 2] {
            assert(rest.last() == s[s.len() - 2]);
        } else {
            let r = dedup_events(s);
            assert(r == d.push(s.last()));
            assert(d.last() == rest.last());
            assert(rest.last() == s[s.len() - 2]);
            assert forall|k: int| 0 <= k < r.len() implies s.contains(#[trigger] r[k]) by {
                if k < d.len() {
                    assert(r[k] == d[k]);
                } else {
                    assert(s[s.len() - 1] == r[k]);
                }
            }
            assert forall|k: int| 0 <= k < r.len() - 1 implies #[trigger] r[k] != r[k + 1] by {
                if k + 1 < d.len() {
                    assert(r[k] == d[k] && r[k + 1] == d[k + 1]);
                } else {
                    assert(r[k] == d[d.len() - 1]);
                }
            }
            if ordered(s) {
                assert forall|i: int, j: int| 0 <= i < j < r.len() implies !event_before(
                    #[trigger] r[j],
                    #[trigger] r[i],
                ) by {
                    if j < d.len() {
                        assert(r[i] == d[i] && r[j] == d[j]);
                    } else {
                        assert(r[j] == s[s.len() - 1]);
                        assert(r[i] == d[i]);
                        let m = choose|m: int| 0 <= m < rest.len() && rest[m] == d[i];
                        assert(s[m] == d[i]);
                    }
                }
            }
        }
    }
}

proof fn lemma_no_changes_for_identical(
    keys: Seq<Seq<char>>,
    ids: Seq<IdentityView>,
    order: Seq<Seq<char>>,
)
    requires
        keys.len() <= usize::MAX,
    ensures
        changes_over(keys, ids, keys, ids, order) == Seq::<Change>::empty(),
    decreases order.len(),
{
    if order.len() > 0 {
        lemma_no_changes_for_identical(keys, ids, order.drop_last());
        let l = indices_with(keys, order.last());
        lemma_no_exits_for_identical(ids, l);
        lemma_no_starts_for_identical(ids, l);
        assert(l.take(l.len() as int) =~= l);
        assert(exits(ids, ids, l.take(l.len() as int), l) == Seq::<Change>::empty());
        assert(group_changes(ids, ids, l, l) =~= Seq::<Change>::empty());
        assert(changes_over(keys, ids, keys, ids, order) =~= Seq::<Change>::empty());
    }
}

proof fn lemma_no_exits_for_identical(ids: Seq<IdentityView>, l: Seq<usize>)
    ensures
        forall|t: int| 0 <= t <= l.len() ==> #[trigger] exits(ids, ids, l.take(t), l) == Seq::<Change>::empty(),
{
    assert forall|t: int| 0 <= t <= l.len() implies #[trigger] exits(ids, ids, l.take(t), l) == Seq::<Change>::empty() by {
        lemma_no_exits_prefix(ids, l, t);
    }
    assert(l.take(l.len() as int) =~= l);
}

proof fn lemma_no_exits_prefix(ids: Seq<IdentityView>, l: Seq<usize>, t: int)
    requires
        0 <= t <= l.len(),
    ensures
        exits(ids, ids, l.take(t), l) == Seq::<Change>::empty(),
    decreases t,
{
    if t > 0 {
        lemma_no_exits_prefix(ids, l, t - 1);
        assert(l.take(t).drop_last() =~= l.take(t - 1));
        assert(l.take(t).last() == l[t - 1]);
        assert(has_match(ids[l[t - 1] as int], ids, l));
        assert(exits(ids, ids, l.take(t), l) =~= Seq::<Change>::empty());
    }
}

proof fn lemma_no_starts_for_identical(ids: Seq<IdentityView>, l: Seq<usize>)
    ensures
        starts(ids, ids, l, l) == Seq::<Change>::empty(),
{
    lemma_no_starts_prefix(ids, l, l.len() as int);
    assert(l.take(l.len() as int) =~= l);
}

proof fn lemma_no_starts_prefix(ids: Seq<IdentityView>, l: Seq<usize>, t: int)
    requires
        0 <= t <= l.len(),
    ensures
        starts(ids, ids, l, l.take(t)) == Seq::<Change>::empty(),
    decreases t,
{
    if t > 0 {
        lemma_no_starts_prefix(ids, l, t - 1);
        assert(l.take(t).drop_last() =~= l.take(t - 1));
        assert(l.take(t).last() == l[t - 1]);
        assert(has_match(ids[l[t - 1] as int], ids, l));
        assert(starts(ids, ids, l, l.take(t)) =~= Seq::<Change>::empty());
    }
}

/// The diff is deterministic and orderly: its events are in non-decreasing
/// `(rank, scope key)` order and no event directly repeats.
pub proof fn lemma_diff_is_ordered_without_repeats(prev: BaselineView, cur: BaselineView)
    ensures
        ordered(invalidation_diff(prev, cur)),
        forall|k: int|
            0 <= k < invalidation_diff(prev, cur).len() - 1 ==> #[trigger] invalidation_diff(
                prev,
                cur,
            )[k] != invalidation_diff(prev, cur)[k + 1],
{
    lemma_sort_events(raw_events(prev, cur));
    lemma_dedup_events(sort_events(raw_events(prev, cur)));
}

/// A snapshot compared with itself produces no event: nothing changed, so nothing is
/// invalidated.
pub proof fn lemma_unchanged_snapshot_has_no_events(b: BaselineView)
    requires
        b.apps.len() <= usize::MAX,
        b.windows.len() <= usize::MAX,
    ensures
        invalidation_diff(b, b) == Seq::<EventView>::empty(),
{
    let pk = b.apps.map_values(|a: AppView| app_group_key(a));
    let pi = b.apps.map_values(|a: AppView| app_identity(a));
    lemma_no_changes_for_identical(pk, pi, key_order(pk, pk));
    let wk = b.windows.map_values(|w: WindowView| window_group_key(w));
    let wi = b.windows.map_values(|w: WindowView| window_identity(w));
    lemma_no_changes_for_identical(wk, wi, key_order(wk, wk));
    assert(app_events(b.apps, b.apps) =~= Seq::<EventView>::empty());
    assert(window_events(b.windows, b.windows) =~= Seq::<EventView>::empty());
    assert(raw_events(b, b) =~= Seq::<EventView>::empty());
}

/// Snapshots that cannot vouch for either list produce no event at all: incomplete
/// provider data never fabricates lifecycle changes.
pub proof fn lemma_incomplete_snapshots_have_no_events(prev: BaselineView, cur: BaselineView)
    requires
        !(prev.apps_complete && cur.apps_complete),
        !(prev.windows_complete && cur.windows_complete),
    ensures
        invalidation_diff(prev, cur) == Seq::<EventView>::empty(),
{
    assert(raw_events(prev, cur) =~= Seq::<EventView>::empty());
}

/// Every event of a diff carries only bounded scopes (non-empty texts of at most 256
/// bytes and a non-zero pid), and no native window id.
pub proof fn lemma_diff_events_are_bounded(prev: BaselineView, cur: BaselineView)
    ensures
        forall|k: int| 0 <= k < invalidation_diff(prev, cur).len() ==> event_ok(#[trigger] invalidation_diff(prev, cur)[k]),
{
    let raw = raw_events(prev, cur);
    assert forall|k: int| 0 <= k < raw.len() implies event_ok(#[trigger] raw[k]) by {
        let a = if prev.apps_complete && cur.apps_complete {
            app_events(prev.apps, cur.apps)
        } else {
            Seq::<EventView>::empty()
        };
        if k < a.len() {
            let ch = app_changes(prev.apps, cur.apps);
            assert(raw[k] == app_change_event(prev.apps, cur.apps, ch[k]));
        } else {
            let ch = window_changes(prev.windows, cur.windows);
            assert(raw[k] == window_change_event(prev.windows, cur.windows, ch[k - a.len()]));
        }
    }
    lemma_sort_events(raw);
    let s = sort_events(raw);
    lemma_dedup_events(s);
    assert forall|k: int| 0 <= k < invalidation_diff(prev, cur).len() implies event_ok(#[trigger] invalidation_diff(prev, cur)[k]) by {
        let x = invalidation_diff(prev, cur)[k];
        let m = choose|m: int| 0 <= m < s.len() && s[m] == x;
        let w = choose|w: int| 0 <= w < raw.len() && raw[w] == s[m];
        assert(event_ok(raw[w]));
    }
}

/// An event seen from the other side of a snapshot pair: what started is what exited
/// and the other way round, a replacement or window generation change runs the other
/// way, and a window created is one destroyed.
pub open spec fn mirror_event(e: EventView) -> EventView {
    match e {
        EventView::ProcessStarted { current } => EventView::ProcessExited { previous: current },
        EventView::ProcessExited { previous } => EventView::ProcessStarted { current: previous },
        EventView::ProcessReplaced { previous, current } => EventView::ProcessReplaced {
            previous: current,
            current: previous,
        },
        EventView::WindowCreated { current } => EventView::WindowDestroyed { previous: current },
        EventView::WindowDestroyed { previous } => EventView::WindowCreated { current: previous },
        EventView::WindowGenerationChanged { previous, current } => EventView::WindowGenerationChanged {
            previous: current,
            current: previous,
        },
        EventView::AccessibilityTreeInvalidated { process } => EventView::AccessibilityTreeInvalidated { process },
        EventView::ProviderReset => EventView::ProviderReset,
    }
}

proof fn lemma_insert_ordered_keeps(s: Seq<EventView>, e: EventView)
    ensures
        insert_ordered(s, e).contains(e),
        forall|x: EventView| s.contains(x) ==> #[trigger] insert_ordered(s, e).contains(x),
    decreases s.len(),
{
    let r = insert_ordered(s, e);
    if s.len() == 0 {
        assert(r[0] == e);
    } else if event_before(e, s.last()) {
        lemma_insert_ordered_keeps(s.drop_last(), e);
        let t = insert_ordered(s.drop_last(), e);
        assert(r == t.push(s.last()));
        let i = choose|i: int| 0 <= i < t.len() && t[i] == e;
        assert(r[i] == e);
        assert forall|x: EventView| s.contains(x) implies #[trigger] r.contains(x) by {
            let j = choose|j: int| 0 <= j < s.len() && s[j] == x;
            if j < s.len() - 1 {
                assert(s.drop_last()[j] == x);
                assert(s.drop_last().contains(x));
                assert(insert_ordered(s.drop_last(), e).contains(x));
                let m = choose|m: int| 0 <= m < t.len() && t[m] == x;
                assert(r[m] == x);
            } else {
                assert(r[t.len() as int] == x);
            }
        }
    } else {
        assert(r[s.len() as int] == e);
        assert forall|x: EventView| s.contains(x) implies #[trigger] r.contains(x) by {
            let j = choose|j: int| 0 <= j < s.len() && s[j] == x;
            assert(r[j] == x);
        }
    }
}

proof fn lemma_sort_keeps(s: Seq<EventView>)
    ensures
        forall|x: EventView| s.contains(x) ==> #[trigger] sort_events(s).contains(x),
    decreases s.len(),
{
    if s.len() > 0 {
        lemma_sort_keeps(s.drop_last());
        let t = sort_events(s.drop_last());
        lemma_insert_ordered_keeps(t, s.last());
        assert forall|x: EventView| s.contains(x) implies #[trigger] sort_events(s).contains(x) by {
            let j = choose|j: int| 0 <= j < s.len() && s[j] == x;
            if j < s.len() - 1 {
                assert(s.drop_last()[j] == x);
                assert(t.contains(x));
            }
        }
    }
}

proof fn lemma_dedup_keeps(s: Seq<EventView>)
    ensures
        forall|x: EventView| s.contains(x) ==> #[trigger] dedup_events(s).contains(x),
    decreases s.len(),
{
    if s.len() > 1 {
        let init = s.drop_last();
        lemma_dedup_keeps(init);
        let d = dedup_events(init);
        assert forall|x: EventView| s.contains(x) implies #[trigger] dedup_events(s).contains(x) by {
            let j = choose|j: int| 0 <= j < s.len() && s[j] == x;
            let y = if j < s.len() - 1 { j } else { s.len() - 2 };
            if s.last() == s[s.len() - 2] || j < s.len() - 1 {
                assert(init[y] == x || j == s.len() - 1);
                if j < s.len() - 1 {
                    assert(init[j] == x);
                    assert(d.contains(x));
                    if s.last() != s[s.len() - 2] {
                        let m = choose|m: int| 0 <= m < d.len() && d[m] == x;
                        assert(dedup_events(s)[m] == x);
                    }
                } else {
                    assert(init[s.len() - 2] == x);
                    assert(d.contains(x));
                }
            } else {
                assert(dedup_events(s)[d.len() as int] == x);
            }
        }
    }
}

/// Members of the ordered, deduplicated diff are the members of the raw events.
proof fn lemma_diff_members(prev: BaselineView, cur: BaselineView)
    ensures
        forall|x: EventView| #[trigger] invalidation_diff(prev, cur).contains(x) <==> raw_events(prev, cur).contains(x),
{
    let raw = raw_events(prev, cur);
    lemma_sort_events(raw);
    lemma_sort_keeps(raw);
    lemma_dedup_events(sort_events(raw));
    lemma_dedup_keeps(sort_events(raw));
    assert forall|x: EventView| #[trigger] invalidation_diff(prev, cur).contains(x) <==> raw.contains(x) by {
        let d = invalidation_diff(prev, cur);
        let so = sort_events(raw);
        if d.contains(x) {
            let k = choose|k: int| 0 <= k < d.len() && d[k] == x;
            assert(so.contains(d[k]));
            let m = choose|m: int| 0 <= m < so.len() && so[m] == x;
            assert(raw.contains(so[m]));
        }
        if raw.contains(x) {
            assert(so.contains(x));
        }
    }
}

proof fn lemma_app_events_mirror(p: Seq<AppView>, c: Seq<AppView>, x: EventView)
    requires
        app_events(p, c).contains(x),
    ensures
        app_events(c, p).contains(mirror_event(x)),
{
    let ch = app_changes(p, c);
    let k = choose|k: int| 0 <= k < app_events(p, c).len() && app_events(p, c)[k] == x;
    let change = ch[k];
    assert(ch.contains(change));
    lemma_diff_changes_swap(
        p.map_values(|a: AppView| app_group_key(a)),
        p.map_values(|a: AppView| app_identity(a)),
        c.map_values(|a: AppView| app_group_key(a)),
        c.map_values(|a: AppView| app_identity(a)),
        change,
    );
    let ch2 = app_changes(c, p);
    let m = choose|m: int| 0 <= m < ch2.len() && ch2[m] == swap_change(change);
    assert(app_events(c, p)[m] == app_change_event(c, p, swap_change(change)));
    assert(app_change_event(c, p, swap_change(change)) == mirror_event(app_change_event(p, c, change)));
}

proof fn lemma_window_events_mirror(p: Seq<WindowView>, c: Seq<WindowView>, x: EventView)
    requires
        window_events(p, c).contains(x),
    ensures
        window_events(c, p).contains(mirror_event(x)),
{
    let ch = window_changes(p, c);
    let k = choose|k: int| 0 <= k < window_events(p, c).len() && window_events(p, c)[k] == x;
    let change = ch[k];
    assert(ch.contains(change));
    lemma_diff_changes_swap(
        p.map_values(|w: WindowView| window_group_key(w)),
        p.map_values(|w: WindowView| window_identity(w)),
        c.map_values(|w: WindowView| window_group_key(w)),
        c.map_values(|w: WindowView| window_identity(w)),
        change,
    );
    let ch2 = window_changes(c, p);
    let m = choose|m: int| 0 <= m < ch2.len() && ch2[m] == swap_change(change);
    assert(window_events(c, p)[m] == window_change_event(c, p, swap_change(change)));
    assert(window_change_event(c, p, swap_change(change)) == mirror_event(window_change_event(p, c, change)));
}

proof fn lemma_raw_events_mirror(prev: BaselineView, cur: BaselineView, x: EventView)
    requires
        raw_events(prev, cur).contains(x),
    ensures
        raw_events(cur, prev).contains(mirror_event(x)),
{
    let a = if prev.apps_complete && cur.apps_complete {
        app_events(prev.apps, cur.apps)
    } else {
        Seq::<EventView>::empty()
    };
    let w = if prev.windows_complete && cur.windows_complete {
        window_events(prev.windows, cur.windows)
    } else {
        Seq::<EventView>::empty()
    };
    let a2 = if cur.apps_complete && prev.apps_complete {
        app_events(cur.apps, prev.apps)
    } else {
        Seq::<EventView>::empty()
    };
    let w2 = if cur.windows_complete && prev.windows_complete {
        window_events(cur.windows, prev.windows)
    } else {
        Seq::<EventView>::empty()
    };
    lemma_concat_contains(a, w, x);
    lemma_concat_contains(a2, w2, mirror_event(x));
    if a.contains(x) {
        lemma_app_events_mirror(prev.apps, cur.apps, x);
    } else {
        lemma_window_events_mirror(prev.windows, cur.windows, x);
    }
}

/// The diff is symmetric: an event between two snapshots appears, seen from the other
/// side (started for exited, created for destroyed, replacements and generation changes
/// reversed, provider resets as they are), between the same snapshots taken the other
/// way round.
pub proof fn lemma_diff_is_symmetric(prev: BaselineView, cur: BaselineView)
    ensures
        forall|e: EventView| #[trigger] invalidation_diff(prev, cur).contains(e) <==> invalidation_diff(cur, prev).contains(
            mirror_event(e),
        ),
{
    lemma_diff_members(prev, cur);
    lemma_diff_members(cur, prev);
    assert forall|e: EventView| #[trigger] invalidation_diff(prev, cur).contains(e) <==> invalidation_diff(cur, prev).contains(
        mirror_event(e),
    ) by {
        if raw_events(prev, cur).contains(e) {
            lemma_raw_events_mirror(prev, cur, e);
        }
        if raw_events(cur, prev).contains(mirror_event(e)) {
            lemma_raw_events_mirror(cur, prev, mirror_event(e));
            assert(mirror_event(mirror_event(e)) == e);
        }
    }
}

/// Publishing a diff publishes its events in order and contiguously: the cursor moves by
/// the diff's length, a reader at the earlier cursor reads exactly the diff when it fits
/// the bus, and an empty diff leaves the bus as it was (for an unsaturated bus).
pub proof fn lemma_published_diff_reads_back(v: BusView, prev: BaselineView, cur: BaselineView)
    requires
        bus_inv(v),
        v.history.len() + invalidation_diff(prev, cur).len() + 1 < u64::MAX,
    ensures
        ({
            let d = invalidation_diff(prev, cur);
            let w = after_publishes(v, d);
            &&& tail_position(w) == tail_position(v) + d.len()
            &&& d.len() <= v.capacity ==> !read_overflows(w, tail_position(v)) && events_after(
                w.retained,
                tail_position(v),
            ) == d
            &&& d.len() == 0 ==> w == v
        }),
{
    lemma_reads_after_publishes(v, invalidation_diff(prev, cur));
}

/// A window recreated in the same process generation (same application, title, pid and
/// generation, but another native window) is a new window generation: the diff of two
/// complete window lists holding it reports the generation change, whatever the
/// application lists hold.
pub proof fn lemma_recreated_window_changes_generation(prev: BaselineView, cur: BaselineView)
    requires
        prev.windows.len() == 1,
        cur.windows.len() == 1,
        prev.windows_complete,
        cur.windows_complete,
        prev.windows[0].app == cur.windows[0].app,
        prev.windows[0].title == cur.windows[0].title,
        prev.windows[0].pid == cur.windows[0].pid,
        prev.windows[0].process_instance == cur.windows[0].process_instance,
        prev.windows[0].process_instance is Some,
        prev.windows[0].id != cur.windows[0].id,
        window_scope_of(prev.windows[0]) is Some,
    ensures
        invalidation_diff(prev, cur).contains(
            EventView::WindowGenerationChanged {
                previous: window_scope_of(prev.windows[0])->Some_0,
                current: window_scope_of(cur.windows[0])->Some_0,
            },
        ),
{
    let pw = prev.windows;
    let cw = cur.windows;
    let k = window_group_key(pw[0]);
    let pk = pw.map_values(|w: WindowView| window_group_key(w));
    let pi = pw.map_values(|w: WindowView| window_identity(w));
    let ck = cw.map_values(|w: WindowView| window_group_key(w));
    let ci = cw.map_values(|w: WindowView| window_identity(w));
    assert(pk =~= seq![k]);
    assert(ck =~= seq![k]);
    assert(pi[0] != ci[0]);
    crate::grouping::lemma_key_order_exists(pk, ck);
    let one = seq![k];
    assert(crate::grouping::strictly_sorted(one));
    assert forall|x: Seq<char>| key_order(pk, ck).contains(x) <==> one.contains(x) by {
        if one.contains(x) {
            assert(one[0] == x);
            assert(pk[0] == x);
            assert(pk.contains(x));
        }
        if pk.contains(x) || ck.contains(x) {
            assert(one[0] == k);
        }
    }
    crate::grouping::lemma_sorted_unique(key_order(pk, ck), one);
    assert(pk.drop_last() =~= Seq::<Seq<char>>::empty());
    assert(indices_with(pk.drop_last(), k) =~= Seq::<usize>::empty());
    assert(indices_with(pk, k) =~= seq![0usize]);
    assert(ck.drop_last() =~= Seq::<Seq<char>>::empty());
    assert(indices_with(ck.drop_last(), k) =~= Seq::<usize>::empty());
    assert(indices_with(ck, k) =~= seq![0usize]);
    let g = group_changes(pi, ci, seq![0usize], seq![0usize]);
    assert(g =~= seq![Change::Replaced(0, 0)]);
    assert(one.drop_last() =~= Seq::<Seq<char>>::empty());
    assert(changes_over(pk, pi, ck, ci, one.drop_last()) =~= Seq::<Change>::empty());
    assert(changes_over(pk, pi, ck, ci, one) =~= seq![Change::Replaced(0, 0)]);
    let ch = window_changes(pw, cw);
    assert(ch =~= seq![Change::Replaced(0, 0)]);
    let ev = EventView::WindowGenerationChanged {
        previous: window_scope_of(pw[0])->Some_0,
        current: window_scope_of(cw[0])->Some_0,
    };
    assert(window_change_event(pw, cw, Change::Replaced(0, 0)) == ev);
    let we = window_events(pw, cw);
    assert(we[0] == ev);
    assert(we.contains(ev));
    let ae = if prev.apps_complete && cur.apps_complete {
        app_events(prev.apps, cur.apps)
    } else {
        Seq::<EventView>::empty()
    };
    lemma_concat_contains(ae, we, ev);
    lemma_diff_members(prev, cur);
}

/// An application restarted under a new pid or process generation (same name and
/// bundle id) is a process replacement: the diff of two complete application lists
/// holding it reports the replacement, from the old process to the new one.
pub proof fn lemma_restarted_app_is_replaced(prev: BaselineView, cur: BaselineView)
    requires
        prev.apps.len() == 1,
        cur.apps.len() == 1,
        prev.apps_complete,
        cur.apps_complete,
        prev.apps[0].name == cur.apps[0].name,
        prev.apps[0].bundle_id == cur.apps[0].bundle_id,
        prev.apps[0].pid != cur.apps[0].pid || prev.apps[0].process_instance != cur.apps[0].process_instance,
        process_scope_of(prev.apps[0]) is Some,
        process_scope_of(cur.apps[0]) is Some,
    ensures
        invalidation_diff(prev, cur).contains(
            EventView::ProcessReplaced {
                previous: process_scope_of(prev.apps[0])->Some_0,
                current: process_scope_of(cur.apps[0])->Some_0,
            },
        ),
{
    let pa = prev.apps;
    let ca = cur.apps;
    let k = app_group_key(pa[0]);
    let pk = pa.map_values(|a: AppView| app_group_key(a));
    let pi = pa.map_values(|a: AppView| app_identity(a));
    let ck = ca.map_values(|a: AppView| app_group_key(a));
    let ci = ca.map_values(|a: AppView| app_identity(a));
    assert(pk =~= seq![k]);
    assert(ck =~= seq![k]);
    assert(pi[0] != ci[0]);
    crate::grouping::lemma_key_order_exists(pk, ck);
    let one = seq![k];
    assert(crate::grouping::strictly_sorted(one));
    assert forall|x: Seq<char>| key_order(pk, ck).contains(x) <==> one.contains(x) by {
        if one.contains(x) {
            assert(one[0] == x);
            assert(pk[0] == x);
            assert(pk.contains(x));
        }
        if pk.contains(x) || ck.contains(x) {
            assert(one[0] == k);
        }
    }
    crate::grouping::lemma_sorted_unique(key_order(pk, ck), one);
    assert(pk.drop_last() =~= Seq::<Seq<char>>::empty());
    assert(indices_with(pk.drop_last(), k) =~= Seq::<usize>::empty());
    assert(indices_with(pk, k) =~= seq![0usize]);
    assert(ck.drop_last() =~= Seq::<Seq<char>>::empty());
    assert(indices_with(ck.drop_last(), k) =~= Seq::<usize>::empty());
    assert(indices_with(ck, k) =~= seq![0usize]);
    let g = group_changes(pi, ci, seq![0usize], seq![0usize]);
    assert(g =~= seq![Change::Replaced(0, 0)]);
    assert(one.drop_last() =~= Seq::<Seq<char>>::empty());
    assert(changes_over(pk, pi, ck, ci, one.drop_last()) =~= Seq::<Change>::empty());
    assert(changes_over(pk, pi, ck, ci, one) =~= seq![Change::Replaced(0, 0)]);
    let ch = app_changes(pa, ca);
    assert(ch =~= seq![Change::Replaced(0, 0)]);
    let ev = EventView::ProcessReplaced {
        previous: process_scope_of(pa[0])->Some_0,
        current: process_scope_of(ca[0])->Some_0,
    };
    assert(app_change_event(pa, ca, Change::Replaced(0, 0)) == ev);
    let ae = app_events(pa, ca);
    assert(ae[0] == ev);
    assert(ae.contains(ev));
    let we = if prev.windows_complete && cur.windows_complete {
        window_events(prev.windows, cur.windows)
    } else {
        Seq::<EventView>::empty()
    };
    lemma_concat_contains(ae, we, ev);
    lemma_diff_members(prev, cur);
}

} // verus!
