//! Element references and live element readings: the generation-bound description of a
//! UI element that the semantic profile cache learns from and re-resolves with.
use vstd::prelude::*;

use crate::model::{opt_text, ProcessId};
use crate::text::owned;
use crate::text::{text_eq, trim};

verus! {

/// The kind of a native element identifier.
#[derive(Clone, Copy, Debug, PartialEq, Eq, Structural)]
pub enum IdentifierKind {
    AutomationId,
    AxIdentifier,
    AxDomIdentifier,
    RuntimeId,
}

/// A native element identifier.
#[derive(Clone, Debug, PartialEq, Eq)]
pub struct ElementIdentifier {
    pub kind: IdentifierKind,
    pub value: String,
}

/// The plain values of an identifier.
pub open spec fn identifier_view(i: ElementIdentifier) -> (IdentifierKind, Seq<char>) {
    (i.kind, i.value@)
}

/// The plain values of an optional identifier.
pub open spec fn opt_identifier_view(i: Option<ElementIdentifier>) -> Option<(IdentifierKind, Seq<char>)> {
    match i {
        Some(x) => Some(identifier_view(x)),
        None => None,
    }
}

impl ElementIdentifier {
    /// A copy with the same values.
    pub fn duplicate(&self) -> (r: Self)
        ensures
            identifier_view(r) == identifier_view(*self),
    {
        ElementIdentifier { kind: self.kind, value: self.value.clone() }
    }

    /// Whether two identifiers hold the same values.
    pub fn same(&self, other: &Self) -> (r: bool)
        ensures
            r == (identifier_view(*self) == identifier_view(*other)),
    {
        self.kind == other.kind && text_eq(self.value.as_str(), other.value.as_str())
    }
}

/// The identifiers a provider reported for a live element, and which one it prefers.
#[derive(Clone, Debug)]
pub struct IdentifierEvidence {
    pub identifiers: Vec<ElementIdentifier>,
    pub preferred: Option<usize>,
}

impl IdentifierEvidence {
    /// All reported identifiers.
    pub fn identifiers(&self) -> (r: &Vec<ElementIdentifier>)
        ensures
            r == &self.identifiers,
    {
        &self.identifiers
    }

    /// The preferred identifier, when the preferred position is valid.
    pub fn preferred_identifier(&self) -> (r: Option<&ElementIdentifier>)
        ensures
            r == (match self.preferred {
                Some(i) => if i < self.identifiers.len() {
                    Some(&self.identifiers@[i as int])
                } else {
                    None
                },
                None => None,
            }),
    {
        match self.preferred {
            Some(i) => if i < self.identifiers.len() {
                Some(&self.identifiers[i])
            } else {
                None
            },
            None => None,
        }
    }
}

/// A field a provider may know, report as absent, or fail to read.
#[derive(Clone, Debug, PartialEq, Eq)]
pub enum LocatorField {
    Known(String),
    Absent,
    Unavailable,
}

impl LocatorField {
    /// The value, when known.
    pub fn known(&self) -> (r: Option<&String>)
        ensures
            r == (match self {
                LocatorField::Known(s) => Some(s),
                _ => None,
            }),
    {
        match self {
            LocatorField::Known(s) => Some(s),
            _ => None,
        }
    }
}

/// What is known of a live element's identity.
#[derive(Clone, Debug)]
pub struct LiveIdentity {
    pub name: LocatorField,
    pub description: LocatorField,
    pub identifiers: IdentifierEvidence,
}

/// The live state of an element.
#[derive(Clone, Debug)]
pub struct LiveState {
    pub role: String,
    pub value: Option<String>,
    pub states: Vec<String>,
}

/// A fresh reading of a live element.
#[derive(Clone, Debug)]
pub struct LiveElement {
    pub identity: LiveIdentity,
    pub state: LiveState,
    pub available_actions: Vec<String>,
}

/// The observation surface an element was found on.
#[derive(Clone, Copy, Debug, PartialEq, Eq, Structural)]
pub enum SnapshotSurface {
    Window,
    Focused,
    Menu,
}

/// The text of a surface.
pub open spec fn surface_text(s: SnapshotSurface) -> Seq<char> {
    match s {
        SnapshotSurface::Window => "window"@,
        SnapshotSurface::Focused => "focused"@,
        SnapshotSurface::Menu => "menu"@,
    }
}

impl SnapshotSurface {
    /// The text of a surface.
    pub fn as_str(&self) -> (r: &'static str)
        ensures
            r@ == surface_text(*self),
    {
        match self {
            SnapshotSurface::Window => "window",
            SnapshotSurface::Focused => "focused",
            SnapshotSurface::Menu => "menu",
        }
    }
}

/// A child-index path from a window root to an element; transient live evidence only.
#[derive(Clone, Debug, PartialEq, Eq)]
pub struct RefPath {
    pub steps: Vec<usize>,
}

impl RefPath {
    /// The empty path.
    pub fn new() -> (r: Self)
        ensures
            r.steps@ == Seq::<usize>::empty(),
    {
        RefPath { steps: Vec::new() }
    }

    /// A copy of the path.
    pub fn duplicate(&self) -> (r: Self)
        ensures
            r.steps@ == self.steps@,
    {
        RefPath { steps: self.steps.clone() }
    }
}

/// The process that owned an element.
#[derive(Clone, Debug)]
pub struct RefProcess {
    pub pid: ProcessId,
    pub process_instance: Option<String>,
}

/// The semantic identity of an element.
#[derive(Clone, Debug)]
pub struct RefEntryIdentity {
    pub role: String,
    pub name: Option<String>,
    pub value: Option<String>,
    pub description: Option<String>,
    pub native_id: Option<ElementIdentifier>,
}

/// States and actions of an element.
#[derive(Clone, Debug)]
pub struct RefCapabilities {
    pub states: Vec<String>,
    pub available_actions: Vec<String>,
}

/// Where an element was found.
#[derive(Clone, Debug)]
pub struct RefSource {
    pub source_app: Option<String>,
    pub source_window_id: Option<String>,
    pub source_window_title: Option<String>,
    pub source_surface: SnapshotSurface,
}

/// The scope of an element reference.
#[derive(Clone, Debug)]
pub struct RefScope {
    pub path_is_absolute: bool,
    pub path: RefPath,
}

/// A generation-bound element reference.
#[derive(Clone, Debug)]
pub struct RefEntry {
    pub process: RefProcess,
    pub identity: RefEntryIdentity,
    pub capabilities: RefCapabilities,
    pub source: RefSource,
    pub scope: RefScope,
}

/// A text has something other than whitespace.
pub open spec fn meaningful_text(s: Seq<char>) -> bool {
    trim(s).len() > 0
}


/// The plain values of a list of texts.
pub open spec fn text_views(s: Seq<String>) -> Seq<Seq<char>> {
    s.map_values(|t: String| t@)
}

/// The plain values of a reference entry.
pub struct EntryView {
    pub pid: u32,
    pub process_instance: Option<Seq<char>>,
    pub role: Seq<char>,
    pub name: Option<Seq<char>>,
    pub value: Option<Seq<char>>,
    pub description: Option<Seq<char>>,
    pub native_id: Option<(IdentifierKind, Seq<char>)>,
    pub states: Seq<Seq<char>>,
    pub available_actions: Seq<Seq<char>>,
    pub source_app: Option<Seq<char>>,
    pub source_window_id: Option<Seq<char>>,
    pub source_window_title: Option<Seq<char>>,
    pub source_surface: SnapshotSurface,
    pub path_is_absolute: bool,
    pub path: Seq<usize>,
}

impl View for RefEntry {
    type V = EntryView;

    open spec fn view(&self) -> EntryView {
        EntryView {
            pid: self.process.pid.spec_get(),
            process_instance: opt_text(self.process.process_instance),
            role: self.identity.role@,
            name: opt_text(self.identity.name),
            value: opt_text(self.identity.value),
            description: opt_text(self.identity.description),
            native_id: opt_identifier_view(self.identity.native_id),
            states: text_views(self.capabilities.states@),
            available_actions: text_views(self.capabilities.available_actions@),
            source_app: opt_text(self.source.source_app),
            source_window_id: opt_text(self.source.source_window_id),
            source_window_title: opt_text(self.source.source_window_title),
            source_surface: self.source.source_surface,
            path_is_absolute: self.scope.path_is_absolute,
            path: self.scope.path.steps@,
        }
    }
}

/// A copy of an optional text.
pub fn copy_opt_text(o: &Option<String>) -> (r: Option<String>)
    ensures
        opt_text(r) == opt_text(*o),
{
    match o {
        Some(s) => Some(s.clone()),
        None => None,
    }
}

/// A copy of an optional identifier.
pub fn copy_opt_identifier(o: &Option<ElementIdentifier>) -> (r: Option<ElementIdentifier>)
    ensures
        opt_identifier_view(r) == opt_identifier_view(*o),
{
    match o {
        Some(i) => Some(i.duplicate()),
        None => None,
    }
}

/// A copy of a list of texts.
pub fn copy_texts(v: &Vec<String>) -> (r: Vec<String>)
    ensures
        text_views(r@) == text_views(v@),
{
    let mut out: Vec<String> = Vec::new();
    let mut i: usize = 0;
    while i < v.len()
        invariant
            i <= v.len(),
            out.len() == i,
            forall|q: int| 0 <= q < i ==> (#[trigger] out@[q])@ == v@[q]@,
        decreases v.len() - i,
    {
        out.push(v[i].clone());
        i = i + 1;
    }
    assert(text_views(out@) =~= text_views(v@));
    out
}

impl RefEntry {
    /// A copy with the same values.
    pub fn duplicate(&self) -> (r: Self)
        ensures
            r@ == self@,
    {
        RefEntry {
            process: RefProcess {
                pid: self.process.pid,
                process_instance: copy_opt_text(&self.process.process_instance),
            },
            identity: RefEntryIdentity {
                role: self.identity.role.clone(),
                name: copy_opt_text(&self.identity.name),
                value: copy_opt_text(&self.identity.value),
                description: copy_opt_text(&self.identity.description),
                native_id: copy_opt_identifier(&self.identity.native_id),
            },
            capabilities: RefCapabilities {
                states: copy_texts(&self.capabilities.states),
                available_actions: copy_texts(&self.capabilities.available_actions),
            },
            source: RefSource {
                source_app: copy_opt_text(&self.source.source_app),
                source_window_id: copy_opt_text(&self.source.source_window_id),
                source_window_title: copy_opt_text(&self.source.source_window_title),
                source_surface: self.source.source_surface,
            },
            scope: RefScope {
                path_is_absolute: self.scope.path_is_absolute,
                path: self.scope.path.duplicate(),
            },
        }
    }
}


/// Identity predicates of a locator query.
#[derive(Clone, Debug, Default)]
pub struct IdentityPredicate {
    pub role: Option<String>,
    pub name: Option<String>,
    pub description: Option<String>,
    pub native_id: Option<String>,
    pub value: Option<String>,
}

/// Containment predicates of a locator query.
#[derive(Debug, Default)]
pub struct Containment {
    pub has: Option<Box<LocatorQuery>>,
    pub has_not: Option<Box<LocatorQuery>>,
}

/// A locator query.
#[derive(Debug, Default)]
pub struct LocatorQuery {
    pub identity: IdentityPredicate,
    pub exact: bool,
    pub has_text: Option<String>,
    pub states: Vec<String>,
    pub containment: Containment,
}

/// A query with no predicate at all.
pub open spec fn query_empty(q: LocatorQuery) -> bool {
    &&& q.identity.role is None
    &&& q.identity.name is None
    &&& q.identity.description is None
    &&& q.identity.native_id is None
    &&& q.identity.value is None
    &&& q.has_text is None
    &&& q.states@.len() == 0
    &&& q.containment.has is None
    &&& q.containment.has_not is None
}

impl LocatorQuery {
    /// Whether the query has no predicate at all.
    pub fn is_empty(&self) -> (r: bool)
        ensures
            r == query_empty(*self),
    {
        self.identity.role.is_none() && self.identity.name.is_none()
            && self.identity.description.is_none() && self.identity.native_id.is_none()
            && self.identity.value.is_none() && self.has_text.is_none() && self.states.len() == 0
            && self.containment.has.is_none() && self.containment.has_not.is_none()
    }
}

} // verus!
