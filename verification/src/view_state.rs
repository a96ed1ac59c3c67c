//! Short-lived observation views: their identifiers, scopes and errors, the canonical
//! window state they record, the semantic keys that identify windows without native
//! handles, and the deltas between two views.
use vstd::prelude::*;

use crate::grouping::{lemma_insert_contains, lemma_sorted_insert, strictly_sorted};
use crate::runtime_events::{EventView, ProcessScopeView, RuntimeEvent, WindowScopeView};
use crate::view_json::{state_json_text, state_text, utf8_byte_len};
use crate::text::{
    chars_less, chars_lt, concat, decimal, decimal_text, hex_digits, hex_text, lemma_chars_lt_asymmetric,
    lemma_chars_lt_irreflexive, lemma_chars_lt_total, lemma_chars_lt_transitive, lowercase, owned,
    text_eq, to_chars, to_lowercase, trim, trim_text, utf8_len,
};

verus! {

/// Why a view request was refused.
#[derive(Clone, Copy, Debug, PartialEq, Eq, Structural)]
pub enum ViewErrorKind {
    Unknown,
    Expired,
    Stale,
    ScopeMismatch,
    Unsupported,
    ScopeInvalid,
    StateInvalid,
    StateLimit,
    IdentityUnsafe,
    IdentityAmbiguous,
    IdInvalid,
    DeltaLimit,
}

/// The machine-readable code of a refusal.
pub open spec fn view_error_code(k: ViewErrorKind) -> Seq<char> {
    match k {
        ViewErrorKind::Unknown => "VIEW_UNKNOWN"@,
        ViewErrorKind::Expired => "VIEW_EXPIRED"@,
        ViewErrorKind::Stale => "VIEW_STALE"@,
        ViewErrorKind::ScopeMismatch => "VIEW_SCOPE_MISMATCH"@,
        ViewErrorKind::Unsupported => "VIEW_UNSUPPORTED"@,
        ViewErrorKind::ScopeInvalid => "VIEW_SCOPE_INVALID"@,
        ViewErrorKind::StateInvalid => "VIEW_STATE_INVALID"@,
        ViewErrorKind::StateLimit => "VIEW_STATE_LIMIT"@,
        ViewErrorKind::IdentityUnsafe => "VIEW_IDENTITY_UNSAFE"@,
        ViewErrorKind::IdentityAmbiguous => "VIEW_IDENTITY_AMBIGUOUS"@,
        ViewErrorKind::IdInvalid => "VIEW_ID_INVALID"@,
        ViewErrorKind::DeltaLimit => "VIEW_DELTA_LIMIT"@,
    }
}

impl ViewErrorKind {
    /// The machine-readable code of a refusal.
    pub fn code(&self) -> (r: &'static str)
        ensures
            r@ == view_error_code(*self),
    {
        match self {
            ViewErrorKind::Unknown => "VIEW_UNKNOWN",
            ViewErrorKind::Expired => "VIEW_EXPIRED",
            ViewErrorKind::Stale => "VIEW_STALE",
            ViewErrorKind::ScopeMismatch => "VIEW_SCOPE_MISMATCH",
            ViewErrorKind::Unsupported => "VIEW_UNSUPPORTED",
            ViewErrorKind::ScopeInvalid => "VIEW_SCOPE_INVALID",
            ViewErrorKind::StateInvalid => "VIEW_STATE_INVALID",
            ViewErrorKind::StateLimit => "VIEW_STATE_LIMIT",
            ViewErrorKind::IdentityUnsafe => "VIEW_IDENTITY_UNSAFE",
            ViewErrorKind::IdentityAmbiguous => "VIEW_IDENTITY_AMBIGUOUS",
            ViewErrorKind::IdInvalid => "VIEW_ID_INVALID",
            ViewErrorKind::DeltaLimit => "VIEW_DELTA_LIMIT",
        }
    }
}

/// An ASCII hex digit.
pub open spec fn is_hex_char(c: char) -> bool {
    ('0' <= c <= '9') || ('a' <= c <= 'f') || ('A' <= c <= 'F')
}

/// A view id: `v1-` and sixteen hex digits.
pub open spec fn valid_view_id(s: Seq<char>) -> bool {
    &&& s.len() == 19
    &&& s.take(3) == "v1-"@
    &&& forall|i: int| 3 <= i < 19 ==> is_hex_char(#[trigger] s[i])
}

/// The id of the `n`-th view: `format!("v1-{:016x}", n)`.
pub open spec fn view_id_of(n: u64) -> Seq<char> {
    "v1-"@ + hex_digits(n as nat, 16)
}

/// `format!("v1-{:016x}", n)`.
pub fn view_id_text(n: u64) -> (r: String)
    ensures
        r@ == view_id_of(n),
{
    let h = hex_text(n, 16);
    concat("v1-", h.as_str())
}

/// `parse_view_id`: accepts exactly the bounded view identifiers.
pub fn parse_view_id(raw: &str) -> (r: Result<String, ViewErrorKind>)
    ensures
        r is Ok <==> valid_view_id(raw@),
        r matches Ok(id) ==> id@ == raw@,
        r matches Err(k) ==> k == ViewErrorKind::IdInvalid,
{
    let chars = to_chars(raw);
    let prefix = to_chars("v1-");
    proof {
        reveal_strlit("v1-");
    }
    if chars.len() != 19 || chars[0] != prefix[0] || chars[1] != prefix[1] || chars[2] != prefix[2] {
        proof {
            if chars.len() == 19 {
                assert(raw@.take(3)[0] == chars@[0]);
                assert(raw@.take(3)[1] == chars@[1]);
                assert(raw@.take(3)[2] == chars@[2]);
            }
        }
        return Err(ViewErrorKind::IdInvalid);
    }
    assert(raw@.take(3) =~= "v1-"@);
    let mut i: usize = 3;
    while i < 19
        invariant
            3 <= i <= 19,
            chars@ == raw@,
            chars.len() == 19,
            forall|q: int| 3 <= q < i ==> is_hex_char(#[trigger] raw@[q]),
        decreases 19 - i,
    {
        let c = chars[i];
        if !(('0' <= c && c <= '9') || ('a' <= c && c <= 'f') || ('A' <= c && c <= 'F')) {
            assert(!is_hex_char(raw@[i as int]));
            return Err(ViewErrorKind::IdInvalid);
        }
        i = i + 1;
    }
    Ok(owned(raw))
}

/// ASCII case folding of one character.
pub open spec fn ascii_fold(c: char) -> char {
    if 'A' <= c <= 'Z' {
        ((c as u32) + 32) as char
    } else {
        c
    }
}

/// `str::eq_ignore_ascii_case`.
pub open spec fn eq_ascii_ci(a: Seq<char>, b: Seq<char>) -> bool {
    a.len() == b.len() && forall|i: int| 0 <= i < a.len() ==> ascii_fold(#[trigger] a[i]) == ascii_fold(b[i])
}

fn fold_char(c: char) -> (r: char)
    ensures
        r == ascii_fold(c),
{
    if 'A' <= c && c <= 'Z' {
        ((c as u8) + 32) as char
    } else {
        c
    }
}

/// `str::eq_ignore_ascii_case`.
pub fn eq_ignore_ascii_case(a: &str, b: &str) -> (r: bool)
    ensures
        r == eq_ascii_ci(a@, b@),
{
    let ca = to_chars(a);
    let cb = to_chars(b);
    if ca.len() != cb.len() {
        return false;
    }
    let mut i: usize = 0;
    while i < ca.len()
        invariant
            i <= ca.len(),
            ca.len() == cb.len(),
            ca@ == a@,
            cb@ == b@,
            forall|q: int| 0 <= q < i ==> ascii_fold(#[trigger] a@[q]) == ascii_fold(b@[q]),
        decreases ca.len() - i,
    {
        if fold_char(ca[i]) != fold_char(cb[i]) {
            return false;
        }
        i = i + 1;
    }
    true
}

/// The command and (normalized) application a view observes.
#[derive(Clone, Debug)]
pub struct ObservationScope {
    pub command: String,
    pub app: Option<String>,
}

/// The plain values of a scope.
pub open spec fn scope_view(s: ObservationScope) -> (Seq<char>, Option<Seq<char>>) {
    (s.command@, crate::model::opt_text(s.app))
}

impl ObservationScope {
    /// A copy with the same values.
    pub fn duplicate(&self) -> (r: Self)
        ensures
            scope_view(r) == scope_view(*self),
    {
        ObservationScope { command: self.command.clone(), app: crate::refs::copy_opt_text(&self.app) }
    }

    /// Whether two scopes hold the same values.
    pub fn same(&self, other: &Self) -> (r: bool)
        ensures
            r == (scope_view(*self) == scope_view(*other)),
    {
        text_eq(self.command.as_str(), other.command.as_str()) && match (&self.app, &other.app) {
            (Some(a), Some(b)) => text_eq(a.as_str(), b.as_str()),
            (None, None) => true,
            _ => false,
        }
    }
}

/// The `app` argument of an observation request, as the request carried it.
#[derive(Clone, Debug)]
pub enum ScopeArg {
    Missing,
    Text(String),
    NotText,
}

/// The scope an observation request names: `None` when its `app` is not text; an app
/// that trims to nothing means all applications.
pub open spec fn scope_of(command: Seq<char>, app: ScopeArg) -> Option<(Seq<char>, Option<Seq<char>>)> {
    match app {
        ScopeArg::NotText => None,
        ScopeArg::Missing => Some((command, None)),
        ScopeArg::Text(t) => Some(
            (command, if lowercase(trim(t@)).len() > 0 {
                Some(lowercase(trim(t@)))
            } else {
                None
            }),
        ),
    }
}

/// `scope_for`: the scope of an observation; a non-text `app` is refused.
pub fn scope_for(command: &str, app: &ScopeArg) -> (r: Result<ObservationScope, ViewErrorKind>)
    ensures
        match scope_of(command@, *app) {
            None => r == Err::<ObservationScope, ViewErrorKind>(ViewErrorKind::ScopeInvalid),
            Some(sv) => r matches Ok(s) && scope_view(s) == sv,
        },
{
    let app = match app {
        ScopeArg::Missing => None,
        ScopeArg::Text(value) => {
            let trimmed = trim_text(value.as_str());
            let normalized = to_lowercase(trimmed.as_str());
            if normalized.as_str().is_empty() {
                None
            } else {
                Some(normalized)
            }
        },
        ScopeArg::NotText => return Err(ViewErrorKind::ScopeInvalid),
    };
    Ok(ObservationScope { command: owned(command), app })
}

/// The application an event is about, if any (a provider reset concerns everything).
pub open spec fn event_app(e: EventView) -> Option<Seq<char>> {
    match e {
        EventView::ProcessStarted { current } => Some(current.app),
        EventView::ProcessReplaced { previous, .. } => Some(previous.app),
        EventView::ProcessExited { previous } => Some(previous.app),
        EventView::WindowCreated { current } => Some(current.process.app),
        EventView::WindowDestroyed { previous } => Some(previous.process.app),
        EventView::WindowGenerationChanged { previous, .. } => Some(previous.process.app),
        EventView::AccessibilityTreeInvalidated { process } => Some(process.app),
        EventView::ProviderReset => None,
    }
}

/// An event invalidates a view scope unless both name an application and the names
/// differ (ASCII case-insensitively, the event's name trimmed).
pub open spec fn invalidates_scope(e: EventView, scope_app: Option<Seq<char>>) -> bool {
    match event_app(e) {
        None => true,
        Some(ea) => match scope_app {
            None => true,
            Some(a) => eq_ascii_ci(a, trim(ea)),
        },
    }
}

/// An event about a process or a window concerns the application of that process: it
/// makes a view scoped to an application stale exactly when that application is the
/// process's app (ASCII case-insensitively, the app name trimmed). A window event is
/// judged by its window's process app, never by the window's title; for a replacement
/// or a generation change it is the previous scope that counts. A provider reset, and a
/// view scoped to every application, are always affected.
pub proof fn lemma_event_concerns_its_process_app(
    p: ProcessScopeView,
    q: ProcessScopeView,
    w: WindowScopeView,
    x: WindowScopeView,
    a: Seq<char>,
    e: EventView,
)
    ensures
        invalidates_scope(EventView::ProcessStarted { current: p }, Some(a)) == eq_ascii_ci(a, trim(p.app)),
        invalidates_scope(EventView::ProcessExited { previous: p }, Some(a)) == eq_ascii_ci(a, trim(p.app)),
        invalidates_scope(EventView::ProcessReplaced { previous: p, current: q }, Some(a)) == eq_ascii_ci(
            a,
            trim(p.app),
        ),
        invalidates_scope(EventView::AccessibilityTreeInvalidated { process: p }, Some(a)) == eq_ascii_ci(
            a,
            trim(p.app),
        ),
        invalidates_scope(EventView::WindowCreated { current: w }, Some(a)) == eq_ascii_ci(a, trim(w.process.app)),
        invalidates_scope(EventView::WindowDestroyed { previous: w }, Some(a)) == eq_ascii_ci(
            a,
            trim(w.process.app),
        ),
        invalidates_scope(EventView::WindowGenerationChanged { previous: w, current: x }, Some(a))
            == eq_ascii_ci(a, trim(w.process.app)),
        invalidates_scope(EventView::ProviderReset, Some(a)),
        invalidates_scope(e, None),
{
}

/// `event_invalidates_scope`.
pub fn event_invalidates_scope(event: &RuntimeEvent, scope: &ObservationScope) -> (r: bool)
    ensures
        r == invalidates_scope(event@, crate::model::opt_text(scope.app)),
{
    let event_app: Option<&str> = match event {
        RuntimeEvent::ProcessStarted { current } => Some(current.app()),
        RuntimeEvent::ProcessReplaced { previous, .. } => Some(previous.app()),
        RuntimeEvent::ProcessExited { previous } => Some(previous.app()),
        RuntimeEvent::WindowCreated { current } => Some(current.process().app()),
        RuntimeEvent::WindowDestroyed { previous } => Some(previous.process().app()),
        RuntimeEvent::WindowGenerationChanged { previous, .. } => Some(previous.process().app()),
        RuntimeEvent::AccessibilityTreeInvalidated { process } => Some(process.app()),
        RuntimeEvent::ProviderReset => None,
    };
    match event_app {
        None => true,
        Some(ea) => match &scope.app {
            None => true,
            Some(app) => {
                let trimmed = trim_text(ea);
                eq_ignore_ascii_case(app.as_str(), trimmed.as_str())
            },
        },
    }
}

/// FNV-1a offset basis.
pub const FNV_OFFSET: u64 = 0xcbf29ce484222325;

/// FNV-1a prime.
pub const FNV_PRIME: u64 = 0x100000001b3;

/// The 64-bit FNV-1a hash of a byte string.
pub open spec fn fnv1a(bytes: Seq<u8>) -> u64
    decreases bytes.len(),
{
    if bytes.len() == 0 {
        FNV_OFFSET
    } else {
        vstd::wrapping::u64_specs::wrapping_mul(fnv1a(bytes.drop_last()) ^ (bytes.last() as u64), FNV_PRIME)
    }
}

/// `fnv1a64`.
pub fn fnv1a64(bytes: &[u8]) -> (r: u64)
    ensures
        r == fnv1a(bytes@),
{
    let mut hash: u64 = FNV_OFFSET;
    let mut i: usize = 0;
    assert(bytes@.take(0) =~= Seq::<u8>::empty());
    while i < bytes.len()
        invariant
            i <= bytes@.len(),
            hash == fnv1a(bytes@.take(i as int)),
        decreases bytes@.len() - i,
    {
        proof {
            assert(bytes@.take(i + 1).drop_last() =~= bytes@.take(i as int));
            assert(bytes@.take(i + 1).last() == bytes@[i as int]);
        }
        hash = hash ^ (bytes[i] as u64);
        hash = hash.wrapping_mul(FNV_PRIME);
        i = i + 1;
    }
    assert(bytes@.take(bytes@.len() as int) =~= bytes@);
    hash
}

/// The key material of a window: byte lengths and texts of app (lower-cased), pid,
/// process generation and title.
pub open spec fn key_material(app: Seq<char>, pid: u64, instance: Seq<char>, title: Seq<char>) -> Seq<char> {
    decimal(utf8_len(app)) + ":"@ + lowercase(app) + "|"@ + decimal(pid as nat) + "|"@ + decimal(
        utf8_len(instance),
    ) + ":"@ + instance + "|"@ + decimal(utf8_len(title)) + ":"@ + title
}

/// The safe semantic key of a window: `wsem-` and the FNV-1a hash of its key material.
pub open spec fn semantic_key_of(app: Seq<char>, pid: u64, instance: Seq<char>, title: Seq<char>) -> Seq<char> {
    "wsem-"@ + hex_digits(fnv1a(vstd::utf8::encode_utf8(key_material(app, pid, instance, title))) as nat, 16)
}

/// `semantic_key`.
pub fn semantic_key(app: &str, pid: u64, process_instance: &str, title: &str) -> (r: String)
    ensures
        r@ == semantic_key_of(app@, pid, process_instance@, title@),
{
    let app_len = app.as_bytes().len();
    let instance_len = process_instance.as_bytes().len();
    let title_len = title.as_bytes().len();
    let m = decimal_text(app_len as u64);
    let m = concat(m.as_str(), ":");
    let lower = to_lowercase(app);
    let m = concat(m.as_str(), lower.as_str());
    let m = concat(m.as_str(), "|");
    let p = decimal_text(pid);
    let m = concat(m.as_str(), p.as_str());
    let m = concat(m.as_str(), "|");
    let il = decimal_text(instance_len as u64);
    let m = concat(m.as_str(), il.as_str());
    let m = concat(m.as_str(), ":");
    let m = concat(m.as_str(), process_instance);
    let m = concat(m.as_str(), "|");
    let tl = decimal_text(title_len as u64);
    let m = concat(m.as_str(), tl.as_str());
    let m = concat(m.as_str(), ":");
    let material = concat(m.as_str(), title);
    let hash = fnv1a64(material.as_str().as_bytes());
    let h = hex_text(hash, 16);
    concat("wsem-", h.as_str())
}


/// Most windows a view records.
pub const MAX_VIEW_ENTRIES: usize = 256;

/// Largest canonical view state, in bytes of its JSON encoding.
pub const MAX_VIEW_STATE_BYTES: usize = 128 * 1024;

/// Most entries a delta reports.
pub const MAX_DELTA_ENTRIES: usize = 256;

/// Largest delta, in bytes of its JSON encoding.
pub const MAX_DELTA_BYTES: usize = 64 * 1024;

/// A window entry of a `list-windows` result, as far as view recording reads it.
/// `presentation` is the canonical JSON text of the entry's bounds, focus, accessibility,
/// minimized and visible fields.
#[derive(Clone, Debug)]
pub struct WindowRecord {
    pub app_name: Option<String>,
    pub title: Option<String>,
    pub process_instance: Option<String>,
    pub pid: Option<u64>,
    pub presentation: String,
}

/// One element of a `list-windows` result.
#[derive(Clone, Debug)]
pub enum WindowEntry {
    NotObject,
    Object(WindowRecord),
}

/// A `list-windows` result.
#[derive(Clone, Debug)]
pub enum WindowListing {
    NotArray,
    Entries(Vec<WindowEntry>),
}

/// The safe state of one window: only semantic fields, never the native id.
#[derive(Clone, Debug)]
pub struct CanonicalWindow {
    pub app_name: String,
    pub pid: u64,
    pub process_instance: String,
    pub title: String,
    pub presentation: String,
}

/// The plain values of a canonical window.
pub type CanonView = (Seq<char>, u64, Seq<char>, Seq<char>, Seq<char>);

/// The plain values of a canonical window.
pub open spec fn canon_view(w: CanonicalWindow) -> CanonView {
    (w.app_name@, w.pid, w.process_instance@, w.title@, w.presentation@)
}

/// A recorded window: its semantic key and safe state.
#[derive(Clone, Debug)]
pub struct StateEntry {
    pub key: String,
    pub window: CanonicalWindow,
}

/// The plain values of a view state.
pub type StateView = Seq<(Seq<char>, CanonView)>;

/// The plain values of a view state.
pub open spec fn state_view(s: Seq<StateEntry>) -> StateView {
    s.map_values(|e: StateEntry| (e.key@, canon_view(e.window)))
}

/// The keys of a view state.
pub open spec fn state_keys(s: StateView) -> Seq<Seq<char>> {
    s.map_values(|e: (Seq<char>, CanonView)| e.0)
}

/// A required text field: present and non-empty.
pub open spec fn required(o: Option<String>) -> Option<Seq<char>> {
    match crate::model::opt_text(o) {
        Some(s) => if s.len() > 0 {
            Some(s)
        } else {
            None
        },
        None => None,
    }
}

/// The keyed safe state of one entry, or why it cannot have one.
#[verifier::opaque]
pub open spec fn entry_result(e: WindowEntry) -> Result<(Seq<char>, CanonView), ViewErrorKind> {
    match e {
        WindowEntry::NotObject => Err(ViewErrorKind::StateInvalid),
        WindowEntry::Object(r) => match (required(r.app_name), required(r.title), required(r.process_instance), r.pid) {
            (None, _, _, _) => Err(ViewErrorKind::IdentityUnsafe),
            (Some(_), None, _, _) => Err(ViewErrorKind::IdentityUnsafe),
            (Some(_), Some(_), None, _) => Err(ViewErrorKind::IdentityUnsafe),
            (Some(_), Some(_), Some(_), None) => Err(ViewErrorKind::IdentityUnsafe),
            (Some(app), Some(title), Some(instance), Some(pid)) => Ok(
                (
                    semantic_key_of(app, pid, instance, title),
                    (app, pid, instance, title, r.presentation@),
                ),
            ),
        },
    }
}

/// The keys of entries that all have one.
pub open spec fn entry_keys(es: Seq<WindowEntry>) -> Seq<Seq<char>> {
    es.map_values(|e: WindowEntry| match entry_result(e) {
        Ok(p) => p.0,
        Err(_) => Seq::<char>::empty(),
    })
}

/// The first refusal met walking the entries in order: an entry without a safe identity,
/// or one whose key an earlier entry already has.
pub open spec fn listing_error(es: Seq<WindowEntry>) -> Option<ViewErrorKind>
    decreases es.len(),
{
    if es.len() == 0 {
        None
    } else {
        match listing_error(es.drop_last()) {
            Some(k) => Some(k),
            None => match entry_result(es.last()) {
                Err(k) => Some(k),
                Ok(p) => if entry_keys(es.drop_last()).contains(p.0) {
                    Some(ViewErrorKind::IdentityAmbiguous)
                } else {
                    None
                },
            },
        }
    }
}

fn required_text(o: &Option<String>) -> (r: Option<String>)
    ensures
        crate::model::opt_text(r) == required(*o),
{
    match o {
        Some(s) => if s.as_str().is_empty() {
            None
        } else {
            Some(s.clone())
        },
        None => None,
    }
}

fn entry_state(e: &WindowEntry) -> (r: Result<StateEntry, ViewErrorKind>)
    ensures
        match entry_result(*e) {
            Ok(p) => r matches Ok(s) && (s.key@, canon_view(s.window)) == p,
            Err(k) => r == Err::<StateEntry, ViewErrorKind>(k),
        },
{
    proof {
        reveal(entry_result);
    }
    match e {
        WindowEntry::NotObject => Err(ViewErrorKind::StateInvalid),
        WindowEntry::Object(r) => {
            let app = match required_text(&r.app_name) {
                Some(a) => a,
                None => return Err(ViewErrorKind::IdentityUnsafe),
            };
            let title = match required_text(&r.title) {
                Some(t) => t,
                None => return Err(ViewErrorKind::IdentityUnsafe),
            };
            let instance = match required_text(&r.process_instance) {
                Some(i) => i,
                None => return Err(ViewErrorKind::IdentityUnsafe),
            };
            let pid = match r.pid {
                Some(p) => p,
                None => return Err(ViewErrorKind::IdentityUnsafe),
            };
            let key = semantic_key(app.as_str(), pid, instance.as_str(), title.as_str());
            Ok(
                StateEntry {
                    key,
                    window: CanonicalWindow {
                        app_name: app,
                        pid,
                        process_instance: instance,
                        title,
                        presentation: r.presentation.clone(),
                    },
                },
            )
        },
    }
}

/// Why a `list-windows` result has no canonical state, if it has one: it is not a list,
/// it has more than `MAX_VIEW_ENTRIES` windows, or a window lacks a safe identity or
/// repeats one.
pub open spec fn listing_refusal(l: WindowListing) -> Option<ViewErrorKind> {
    match l {
        WindowListing::NotArray => Some(ViewErrorKind::StateInvalid),
        WindowListing::Entries(v) => if v.len() > MAX_VIEW_ENTRIES {
            Some(ViewErrorKind::StateLimit)
        } else {
            listing_error(v@)
        },
    }
}

/// The entries of a `list-windows` result.
pub open spec fn listing_entries(l: WindowListing) -> Seq<WindowEntry> {
    match l {
        WindowListing::NotArray => Seq::empty(),
        WindowListing::Entries(v) => v@,
    }
}

/// Whether a state is the canonical form of window entries: ascending by key, one
/// element per entry, and holding exactly the entries' keyed states.
pub open spec fn is_canonical(state: StateView, es: Seq<WindowEntry>) -> bool {
    &&& strictly_sorted(state_keys(state))
    &&& state.len() == es.len()
    &&& forall|i: int| 0 <= i < es.len() ==> state.contains(#[trigger] entry_result(es[i])->Ok_0)
    &&& forall|j: int|
        0 <= j < state.len() ==> exists|i: int| 0 <= i < es.len() && #[trigger] state[j] == entry_result(es[i])->Ok_0
}

/// `canonical_windows`: the view state of a `list-windows` result, ordered by semantic
/// key; refused when the result is not a list, has more than `MAX_VIEW_ENTRIES`
/// windows, meets a window without a safe identity or with a repeated one, or when the
/// state's JSON encoding exceeds `MAX_VIEW_STATE_BYTES` bytes.
pub fn canonical_windows(listing: &WindowListing) -> (r: Result<Vec<StateEntry>, ViewErrorKind>)
    ensures
        match listing_refusal(*listing) {
            Some(k) => r == Err::<Vec<StateEntry>, ViewErrorKind>(k),
            None => match r {
                Ok(state) => is_canonical(state_view(state@), listing_entries(*listing))
                    && utf8_len(state_text(state_view(state@))) <= MAX_VIEW_STATE_BYTES,
                Err(k) => k == ViewErrorKind::StateLimit && exists|c: StateView|
                    is_canonical(c, listing_entries(*listing)) && utf8_len(state_text(c)) > MAX_VIEW_STATE_BYTES,
            },
        },
{
    let state = canonical_state(listing)?;
    let text = state_json_text(&state);
    if utf8_byte_len(text.as_str()) > MAX_VIEW_STATE_BYTES {
        return Err(ViewErrorKind::StateLimit);
    }
    Ok(state)
}

/// The canonical state of a `list-windows` result, before its byte limit.
#[verifier::rlimit(60)]
fn canonical_state(listing: &WindowListing) -> (r: Result<Vec<StateEntry>, ViewErrorKind>)
    ensures
        match listing_refusal(*listing) {
            Some(k) => r == Err::<Vec<StateEntry>, ViewErrorKind>(k),
            None => r matches Ok(state) && is_canonical(state_view(state@), listing_entries(*listing)),
        },
{
    let entries = match listing {
        WindowListing::NotArray => return Err(ViewErrorKind::StateInvalid),
        WindowListing::Entries(v) => v,
    };
    if entries.len() > MAX_VIEW_ENTRIES {
        return Err(ViewErrorKind::StateLimit);
    }
    let mut state: Vec<StateEntry> = Vec::new();
    let mut keys: Vec<Vec<char>> = Vec::new();
    let mut i: usize = 0;
    assert(entries@.take(0) =~= Seq::<WindowEntry>::empty());
    while i < entries.len()
        invariant
            i <= entries.len(),
            entries.len() <= MAX_VIEW_ENTRIES,
            *listing == WindowListing::Entries(*entries),
            listing_error(entries@.take(i as int)) is None,
            keys.len() == state.len(),
            state.len() == i,
            forall|q: int| 0 <= q < keys.len() ==> (#[trigger] keys@[q])@ == state@[q].key@,
            strictly_sorted(state_keys(state_view(state@))),
            forall|x: Seq<char>| #[trigger] state_keys(state_view(state@)).contains(x) <==> entry_keys(entries@.take(i as int)).contains(x),
            forall|j: int| 0 <= j < i ==> state_view(state@).contains(#[trigger] entry_result(entries@[j])->Ok_0),
            forall|j: int| 0 <= j < i ==> (#[trigger] entry_result(entries@[j])) is Ok,
            forall|j: int| 0 <= j < state.len() ==> exists|q: int| 0 <= q < i && #[trigger] state_view(state@)[j] == entry_result(entries@[q])->Ok_0,
        decreases entries.len() - i,
    {
        let ghost t = entries@.take(i as int);
        let ghost t1 = entries@.take(i + 1);
        assert(t1.drop_last() =~= t);
        assert(t1.last() == entries@[i as int]);
        assert(entry_keys(t1) =~= entry_keys(t).push(entry_keys(t1).last()));
        let item = match entry_state(&entries[i]) {
            Ok(s) => s,
            Err(k) => {
                assert(listing_error(t1) == Some(k));
                proof { lemma_listing_error_prefix(entries@, i as int + 1); }
                return Err(k);
            },
        };
        let k = to_chars(item.key.as_str());
        let ghost ks = state_keys(state_view(state@));
        let ghost sv = state_view(state@);
        assert(forall|x: Seq<char>| #[trigger] ks.contains(x) <==> entry_keys(t).contains(x));
        let mut pos: usize = 0;
        while pos < keys.len() && chars_less(&keys[pos], &k)
            invariant
                pos <= keys.len(),
                keys.len() == state.len(),
                ks == state_keys(state_view(state@)),
                forall|q: int| 0 <= q < keys.len() ==> (#[trigger] keys@[q])@ == state@[q].key@,
                forall|q: int| 0 <= q < pos ==> chars_lt(#[trigger] ks[q], k@),
            decreases keys.len() - pos,
        {
            assert(ks[pos as int] == keys@[pos as int]@);
            pos = pos + 1;
        }
        if pos < keys.len() && crate::text::vec_chars_eq(&keys[pos], &k) {
            proof {
                assert(ks[pos as int] == k@);
                assert(ks.contains(k@));
                assert(entry_keys(t).contains(k@));
                assert(listing_error(t1) == Some(ViewErrorKind::IdentityAmbiguous));
                lemma_listing_error_prefix(entries@, i as int + 1);
            }
            return Err(ViewErrorKind::IdentityAmbiguous);
        }
        proof {
            if pos < ks.len() {
                assert(ks[pos as int] == keys@[pos as int]@);
                lemma_chars_lt_total(ks[pos as int], k@);
            }
            lemma_sorted_insert(ks, pos as int, k@);
            assert(!entry_keys(t).contains(k@));
            assert(listing_error(t1) is None);
        }
        let ghost old_keys = keys@;
        let ghost old_state = state@;
        let ghost pair = (item.key@, canon_view(item.window));
        state.insert(pos, item);
        keys.insert(pos, k);
        proof {
            let nk = state_keys(state_view(state@));
            assert(state_view(state@) =~= sv.insert(pos as int, pair));
            assert(nk =~= ks.insert(pos as int, k@));
            lemma_insert_contains(ks, pos as int, k@);
            lemma_insert_contains(sv, pos as int, pair);
            assert(entry_keys(t1) =~= entry_keys(t).push(k@));
            lemma_insert_contains(entry_keys(t), entry_keys(t).len() as int, k@);
            assert(entry_keys(t).insert(entry_keys(t).len() as int, k@) =~= entry_keys(t1));
            assert forall|q: int| 0 <= q < keys.len() implies (#[trigger] keys@[q])@ == state@[q].key@ by {
                if q < pos {
                    assert(keys@[q] == old_keys[q] && state@[q] == old_state[q]);
                } else if q > pos {
                    assert(keys@[q] == old_keys[q - 1] && state@[q] == old_state[q - 1]);
                }
            }
            assert forall|j: int| 0 <= j < i + 1 implies state_view(state@).contains(#[trigger] entry_result(entries@[j])->Ok_0) by {
                if j < i {
                    assert(sv.contains(entry_result(entries@[j])->Ok_0));
                }
            }
            assert forall|j: int| 0 <= j < state.len() implies exists|q: int| 0 <= q < i + 1 && #[trigger] state_view(state@)[j] == entry_result(entries@[q])->Ok_0 by {
                if j < pos {
                    assert(state_view(state@)[j] == sv[j]);
                    let q = choose|q: int| 0 <= q < i && sv[j] == entry_result(entries@[q])->Ok_0;
                    assert(state_view(state@)[j] == entry_result(entries@[q])->Ok_0);
                } else if j > pos {
                    assert(state_view(state@)[j] == sv[j - 1]);
                    let q = choose|q: int| 0 <= q < i && sv[j - 1] == entry_result(entries@[q])->Ok_0;
                    assert(state_view(state@)[j] == entry_result(entries@[q])->Ok_0);
                } else {
                    assert(state_view(state@)[j] == entry_result(entries@[i as int])->Ok_0);
                }
            }
        }
        i = i + 1;
    }
    assert(entries@.take(entries.len() as int) =~= entries@);
    Ok(state)
}

proof fn lemma_listing_error_prefix(es: Seq<WindowEntry>, n: int)
    requires
        0 < n <= es.len(),
        listing_error(es.take(n)) is Some,
    ensures
        listing_error(es) == listing_error(es.take(n)),
    decreases es.len() - n,
{
    if n < es.len() {
        assert(es.take(n + 1).drop_last() =~= es.take(n));
        assert(listing_error(es.take(n + 1)) == listing_error(es.take(n)));
        lemma_listing_error_prefix(es, n + 1);
    } else {
        assert(es.take(n) =~= es);
    }
}



/// A listing is acceptable: every entry has a safe identity and no two share a key.
pub open spec fn listing_accepted(es: Seq<WindowEntry>) -> bool {
    &&& forall|i: int| 0 <= i < es.len() ==> (#[trigger] entry_result(es[i])) is Ok
    &&& forall|i: int, j: int|
        0 <= i < j < es.len() ==> #[trigger] entry_keys(es)[i] != #[trigger] entry_keys(es)[j]
}

proof fn lemma_listing_error_none_iff(es: Seq<WindowEntry>)
    ensures
        listing_error(es) is None <==> listing_accepted(es),
    decreases es.len(),
{
    if es.len() > 0 {
        let init = es.drop_last();
        lemma_listing_error_none_iff(init);
        let n = es.len() - 1;
        assert(entry_keys(init) =~= entry_keys(es).drop_last());
        if listing_error(es) is None {
            assert forall|i: int| 0 <= i < es.len() implies (#[trigger] entry_result(es[i])) is Ok by {
                if i < n {
                    assert(es[i] == init[i]);
                }
            }
            assert forall|i: int, j: int| 0 <= i < j < es.len() implies #[trigger] entry_keys(es)[i]
                != #[trigger] entry_keys(es)[j] by {
                if j < n {
                    assert(entry_keys(es)[i] == entry_keys(init)[i]);
                    assert(entry_keys(es)[j] == entry_keys(init)[j]);
                } else {
                    assert(entry_keys(es)[i] == entry_keys(init)[i]);
                    if entry_keys(es)[i] == entry_keys(es)[j] {
                        assert(entry_keys(init).contains(entry_keys(es)[j]));
                    }
                }
            }
        }
        if listing_accepted(es) {
            assert forall|i: int| 0 <= i < init.len() implies (#[trigger] entry_result(init[i])) is Ok by {
                assert(init[i] == es[i]);
            }
            assert forall|i: int, j: int| 0 <= i < j < init.len() implies #[trigger] entry_keys(init)[i]
                != #[trigger] entry_keys(init)[j] by {
                assert(entry_keys(init)[i] == entry_keys(es)[i]);
                assert(entry_keys(init)[j] == entry_keys(es)[j]);
            }
            assert(entry_result(es[n]) is Ok);
            assert(es.last() == es[n]);
            if entry_keys(init).contains(entry_keys(es)[n]) {
                let i = choose|i: int| 0 <= i < entry_keys(init).len() && entry_keys(init)[i] == entry_keys(es)[n];
                assert(entry_keys(es)[i] == entry_keys(init)[i]);
            }
        }
    }
}

/// Whether a provider's listing is accepted does not depend on the order of its
/// windows: a reordering of an accepted listing is accepted too.
pub proof fn lemma_reordered_listing_is_accepted(es: Seq<WindowEntry>, reordered: Seq<WindowEntry>, order: Seq<int>)
    requires
        listing_error(es) is None,
        reordered.len() == es.len(),
        order.len() == reordered.len(),
        forall|i: int| 0 <= i < order.len() ==> 0 <= #[trigger] order[i] < es.len() && reordered[i] == es[order[i]],
        forall|i: int, j: int| 0 <= i < j < order.len() ==> #[trigger] order[i] != #[trigger] order[j],
    ensures
        listing_error(reordered) is None,
{
    lemma_listing_error_none_iff(es);
    assert forall|i: int| 0 <= i < reordered.len() implies (#[trigger] entry_result(reordered[i])) is Ok by {
        assert(0 <= order[i] < es.len());
        assert(entry_result(es[order[i]]) is Ok);
    }
    assert forall|i: int, j: int| 0 <= i < j < reordered.len() implies #[trigger] entry_keys(reordered)[i]
        != #[trigger] entry_keys(reordered)[j] by {
        let a = order[i];
        let b = order[j];
        assert(entry_keys(reordered)[i] == entry_keys(es)[a]);
        assert(entry_keys(reordered)[j] == entry_keys(es)[b]);
        assert(a != b);
        if a < b {
            assert(entry_keys(es)[a] != entry_keys(es)[b]);
        } else {
            assert(entry_keys(es)[b] != entry_keys(es)[a]);
        }
    }
    lemma_listing_error_none_iff(reordered);
}

/// The canonical state of a `list-windows` result does not depend on the order in which
/// the provider listed the windows: results with the same windows have one canonical
/// state.
pub proof fn lemma_canonical_state_ignores_provider_order(
    a: StateView,
    b: StateView,
    ea: Seq<WindowEntry>,
    eb: Seq<WindowEntry>,
)
    requires
        is_canonical(a, ea),
        is_canonical(b, eb),
        forall|e: WindowEntry| ea.contains(e) <==> eb.contains(e),
    ensures
        a == b,
{
    assert forall|x: (Seq<char>, CanonView)| a.contains(x) implies b.contains(x) by {
        let j = choose|j: int| 0 <= j < a.len() && a[j] == x;
        let i = choose|i: int| 0 <= i < ea.len() && a[j] == #[trigger] entry_result(ea[i])->Ok_0;
        assert(ea.contains(ea[i]));
        let k = choose|k: int| 0 <= k < eb.len() && eb[k] == ea[i];
        assert(b.contains(entry_result(eb[k])->Ok_0));
    }
    assert forall|x: (Seq<char>, CanonView)| b.contains(x) implies a.contains(x) by {
        let j = choose|j: int| 0 <= j < b.len() && b[j] == x;
        let i = choose|i: int| 0 <= i < eb.len() && b[j] == #[trigger] entry_result(eb[i])->Ok_0;
        assert(eb.contains(eb[i]));
        let k = choose|k: int| 0 <= k < ea.len() && ea[k] == eb[i];
        assert(a.contains(entry_result(ea[k])->Ok_0));
    }
    let ka = state_keys(a);
    let kb = state_keys(b);
    assert forall|x: Seq<char>| ka.contains(x) <==> kb.contains(x) by {
        if ka.contains(x) {
            let j = choose|j: int| 0 <= j < ka.len() && ka[j] == x;
            assert(a.contains(a[j]));
            let k = choose|k: int| 0 <= k < b.len() && b[k] == a[j];
            assert(kb[k] == x);
        }
        if kb.contains(x) {
            let j = choose|j: int| 0 <= j < kb.len() && kb[j] == x;
            assert(b.contains(b[j]));
            let k = choose|k: int| 0 <= k < a.len() && a[k] == b[j];
            assert(ka[k] == x);
        }
    }
    crate::grouping::lemma_sorted_unique(ka, kb);
    assert(a.len() == b.len());
    assert forall|i: int| 0 <= i < a.len() implies a[i] == b[i] by {
        assert(a.contains(a[i]));
        let k = choose|k: int| 0 <= k < b.len() && b[k] == a[i];
        if k != i {
            assert(kb[k] == ka[i]);
            assert(ka[i] == kb[i]);
            if k < i {
                assert(chars_lt(kb[k], kb[i]));
            } else {
                assert(chars_lt(kb[i], kb[k]));
            }
            lemma_chars_lt_irreflexive(kb[i]);
        }
    }
    assert(a =~= b);
}

} // verus!
