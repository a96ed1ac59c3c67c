//! Normalized provider snapshots: applications and top-level windows as adapters report
//! them, and the completeness flags that say which lists can be trusted.
use vstd::prelude::*;

verus! {

/// The view of an optional text.
pub open spec fn opt_text(o: Option<String>) -> Option<Seq<char>> {
    match o {
        Some(s) => Some(s@),
        None => None,
    }
}

/// An operating-system process id.
#[derive(Clone, Copy, Debug, PartialEq, Eq, Hash)]
pub struct ProcessId(u32);

impl ProcessId {
    /// Wraps a raw process id.
    pub fn new(pid: u32) -> (r: Self)
        ensures
            r.spec_get() == pid,
    {
        ProcessId(pid)
    }

    /// The raw process id.
    pub closed spec fn spec_get(&self) -> u32 {
        self.0
    }

    /// The raw process id.
    #[verifier::when_used_as_spec(spec_get)]
    pub fn get(&self) -> (r: u32)
        ensures
            r == self.spec_get(),
    {
        self.0
    }
}

/// An application as a provider snapshot reports it.
#[derive(Clone, Debug)]
pub struct AppInfo {
    pub name: String,
    pub pid: ProcessId,
    pub bundle_id: Option<String>,
    pub process_instance: Option<String>,
}

/// The plain values of an `AppInfo`.
pub struct AppView {
    pub name: Seq<char>,
    pub pid: u32,
    pub bundle_id: Option<Seq<char>>,
    pub process_instance: Option<Seq<char>>,
}

impl View for AppInfo {
    type V = AppView;

    open spec fn view(&self) -> AppView {
        AppView {
            name: self.name@,
            pid: self.pid.spec_get(),
            bundle_id: opt_text(self.bundle_id),
            process_instance: opt_text(self.process_instance),
        }
    }
}

/// Window state flags carried by a snapshot.
#[derive(Clone, Copy, Debug, Default, PartialEq, Eq)]
pub struct WindowState {
    pub is_focused: bool,
    pub accessible: bool,
    pub minimized: Option<bool>,
    pub visible: Option<bool>,
}

/// A top-level window as a provider snapshot reports it. `id` is the native window
/// handle text; it is only ever compared, never copied into an event.
#[derive(Clone, Debug)]
pub struct WindowInfo {
    pub id: String,
    pub title: String,
    pub app: String,
    pub pid: ProcessId,
    pub process_instance: Option<String>,
    pub state: WindowState,
}

/// The plain values of a `WindowInfo`.
pub struct WindowView {
    pub id: Seq<char>,
    pub title: Seq<char>,
    pub app: Seq<char>,
    pub pid: u32,
    pub process_instance: Option<Seq<char>>,
}

impl View for WindowInfo {
    type V = WindowView;

    open spec fn view(&self) -> WindowView {
        WindowView {
            id: self.id@,
            title: self.title@,
            app: self.app@,
            pid: self.pid.spec_get(),
            process_instance: opt_text(self.process_instance),
        }
    }
}

/// Which lists of a snapshot are complete.
#[derive(Clone, Copy, Debug, Default, PartialEq, Eq)]
pub struct SignalCompleteness {
    pub apps: bool,
    pub windows: bool,
    pub surfaces: bool,
}

/// A normalized provider snapshot of applications and windows.
#[derive(Clone, Debug)]
pub struct SignalBaseline {
    pub apps: Vec<AppInfo>,
    pub windows: Vec<WindowInfo>,
    pub completeness: SignalCompleteness,
}

/// The applications of a snapshot, as plain values.
pub open spec fn app_views(s: Seq<AppInfo>) -> Seq<AppView> {
    s.map_values(|a: AppInfo| a@)
}

/// The windows of a snapshot, as plain values.
pub open spec fn window_views(s: Seq<WindowInfo>) -> Seq<WindowView> {
    s.map_values(|w: WindowInfo| w@)
}

/// The plain values of a snapshot.
pub struct BaselineView {
    pub apps: Seq<AppView>,
    pub windows: Seq<WindowView>,
    pub apps_complete: bool,
    pub windows_complete: bool,
}

impl View for SignalBaseline {
    type V = BaselineView;

    open spec fn view(&self) -> BaselineView {
        BaselineView {
            apps: app_views(self.apps@),
            windows: window_views(self.windows@),
            apps_complete: self.completeness.apps,
            windows_complete: self.completeness.windows,
        }
    }
}

} // verus!
