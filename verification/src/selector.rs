//! The semantic selector recipe: what the profile cache keeps of an element so that it can
//! find it again after navigation, window recreation or process restart. It holds only
//! durable signals (canonical role, normalized texts, durable native identifiers,
//! normalized ancestor labels, supported actions), never runtime handles.
use vstd::prelude::*;

use crate::fuzzy::{fuzzy_sized, one_edit_apart, one_edit_or_less};
use crate::grouping::{key_order, sorted_distinct_texts};
use crate::model::{opt_text, WindowInfo};
use crate::refs::{
    copy_opt_text, copy_texts, identifier_view, meaningful_text, opt_identifier_view,
    text_views, ElementIdentifier, EntryView, IdentifierEvidence, IdentifierKind, IdentityPredicate,
    LiveElement, LocatorField, LocatorQuery, RefCapabilities, RefEntry, RefEntryIdentity, RefPath,
    RefProcess, RefScope, RefSource, SnapshotSurface, Containment,
};
use crate::text::{normalize, normalized, owned, text_eq, trim_text, utf8_len};

verus! {

/// Longest ancestor path a recipe keeps.
pub const MAX_SEMANTIC_PATH: usize = 64;

/// Most supported actions a valid recipe holds, and the longest action name in bytes.
pub const MAX_RECIPE_ACTIONS: usize = 256;

/// The canonical element roles.
pub open spec fn canonical_role(r: Seq<char>) -> bool {
    ||| r == "application"@
    ||| r == "window"@
    ||| r == "dialog"@
    ||| r == "group"@
    ||| r == "button"@
    ||| r == "checkbox"@
    ||| r == "radiobutton"@
    ||| r == "switch"@
    ||| r == "textfield"@
    ||| r == "combobox"@
    ||| r == "slider"@
    ||| r == "link"@
    ||| r == "menu"@
    ||| r == "menubar"@
    ||| r == "menuitem"@
    ||| r == "tab"@
    ||| r == "tablist"@
    ||| r == "list"@
    ||| r == "listitem"@
    ||| r == "table"@
    ||| r == "row"@
    ||| r == "cell"@
    ||| r == "tree"@
    ||| r == "treeitem"@
    ||| r == "toolbar"@
    ||| r == "statictext"@
    ||| r == "image"@
    ||| r == "heading"@
    ||| r == "scrollbar"@
    ||| r == "progressbar"@
    ||| r == "unknown"@
}

/// Whether a role is canonical.
pub fn is_canonical_role(role: &str) -> (r: bool)
    ensures
        r == canonical_role(role@),
{
    text_eq(role, "application") || text_eq(role, "window") || text_eq(role, "dialog") || text_eq(
        role,
        "group",
    ) || text_eq(role, "button") || text_eq(role, "checkbox") || text_eq(role, "radiobutton")
        || text_eq(role, "switch") || text_eq(role, "textfield") || text_eq(role, "combobox")
        || text_eq(role, "slider") || text_eq(role, "link") || text_eq(role, "menu") || text_eq(
        role,
        "menubar",
    ) || text_eq(role, "menuitem") || text_eq(role, "tab") || text_eq(role, "tablist") || text_eq(
        role,
        "list",
    ) || text_eq(role, "listitem") || text_eq(role, "table") || text_eq(role, "row") || text_eq(
        role,
        "cell",
    ) || text_eq(role, "tree") || text_eq(role, "treeitem") || text_eq(role, "toolbar")
        || text_eq(role, "statictext") || text_eq(role, "image") || text_eq(role, "heading")
        || text_eq(role, "scrollbar") || text_eq(role, "progressbar") || text_eq(role, "unknown")
}

/// Identifier kinds that survive process restarts: automation ids and accessibility
/// (DOM) identifiers; runtime ids never do.
pub open spec fn durable_kind(k: IdentifierKind) -> bool {
    k == IdentifierKind::AutomationId || k == IdentifierKind::AxIdentifier || k
        == IdentifierKind::AxDomIdentifier
}

/// An identifier kept as durable semantic identity: a durable kind with a meaningful value.
pub open spec fn durable(i: Option<(IdentifierKind, Seq<char>)>) -> Option<(IdentifierKind, Seq<char>)> {
    match i {
        Some(x) => if meaningful_text(x.1) && durable_kind(x.0) {
            Some(x)
        } else {
            None
        },
        None => None,
    }
}

/// An optional text kept only when it holds something other than whitespace.
pub open spec fn meaningful_opt(o: Option<Seq<char>>) -> Option<Seq<char>> {
    match o {
        Some(s) => if meaningful_text(s) {
            Some(s)
        } else {
            None
        },
        None => None,
    }
}

/// The normalization of an optional text.
pub open spec fn opt_normalized(o: Option<Seq<char>>) -> Option<Seq<char>> {
    match o {
        Some(s) => Some(normalized(s)),
        None => None,
    }
}

/// The first durable identifier of a list.
pub open spec fn first_durable(ids: Seq<(IdentifierKind, Seq<char>)>) -> Option<(IdentifierKind, Seq<char>)>
    decreases ids.len(),
{
    if ids.len() == 0 {
        None
    } else {
        match durable(Some(ids[0])) {
            Some(x) => Some(x),
            None => first_durable(ids.drop_first()),
        }
    }
}

/// The identifiers of evidence, as plain values.
pub open spec fn evidence_ids(ev: IdentifierEvidence) -> Seq<(IdentifierKind, Seq<char>)> {
    ev.identifiers@.map_values(|i: ElementIdentifier| identifier_view(i))
}

/// The durable identifier of evidence: the preferred one when durable, else the first
/// durable one reported.
pub open spec fn evidence_identifier(ev: IdentifierEvidence) -> Option<(IdentifierKind, Seq<char>)> {
    let preferred = match ev.preferred {
        Some(i) => if i < ev.identifiers.len() {
            durable(Some(identifier_view(ev.identifiers@[i as int])))
        } else {
            None
        },
        None => None,
    };
    match preferred {
        Some(x) => Some(x),
        None => first_durable(evidence_ids(ev)),
    }
}

/// `durable_identifier`: a copy of the identifier when it is durable.
pub fn durable_identifier(identifier: Option<&ElementIdentifier>) -> (r: Option<ElementIdentifier>)
    ensures
        opt_identifier_view(r) == durable(
            match identifier {
                Some(i) => Some(identifier_view(*i)),
                None => None,
            },
        ),
{
    match identifier {
        Some(i) => {
            let trimmed = trim_text(i.value.as_str());
            let durable_kind = match i.kind {
                IdentifierKind::AutomationId => true,
                IdentifierKind::AxIdentifier => true,
                IdentifierKind::AxDomIdentifier => true,
                IdentifierKind::RuntimeId => false,
            };
            if !trimmed.as_str().is_empty() && durable_kind {
                Some(i.duplicate())
            } else {
                None
            }
        },
        None => None,
    }
}

/// `durable_identifier_from_evidence`: the preferred identifier when durable, else the
/// first durable identifier reported.
pub fn durable_identifier_from_evidence(evidence: &IdentifierEvidence) -> (r: Option<ElementIdentifier>)
    ensures
        opt_identifier_view(r) == evidence_identifier(*evidence),
{
    let preferred = match evidence.preferred_identifier() {
        Some(identifier) => durable_identifier(Some(identifier)),
        None => None,
    };
    if preferred.is_some() {
        return preferred;
    }
    let ids = evidence.identifiers();
    let ghost all = evidence_ids(*evidence);
    let mut i: usize = 0;
    assert(all.skip(0) =~= all);
    while i < ids.len()
        invariant
            i <= ids.len(),
            ids == &evidence.identifiers,
            all == evidence_ids(*evidence),
            evidence_identifier(*evidence) == first_durable(all),
            first_durable(all) == first_durable(all.skip(i as int)),
        decreases ids.len() - i,
    {
        let found = durable_identifier(Some(&ids[i]));
        proof {
            assert(all.skip(i as int)[0] == identifier_view(ids@[i as int]));
            assert(all.skip(i as int).drop_first() =~= all.skip(i + 1));
        }
        if found.is_some() {
            return found;
        }
        i = i + 1;
    }
    assert(all.skip(ids.len() as int) =~= Seq::<(IdentifierKind, Seq<char>)>::empty());
    None
}

/// `meaningful`: a copy of the text when it holds something other than whitespace.
pub fn meaningful(value: &Option<String>) -> (r: Option<String>)
    ensures
        opt_text(r) == meaningful_opt(opt_text(*value)),
{
    match value {
        Some(v) => {
            let trimmed = trim_text(v.as_str());
            if trimmed.as_str().is_empty() {
                None
            } else {
                Some(v.clone())
            }
        },
        None => None,
    }
}

/// `normalized_matches`: both absent, or both present with `normalized` the normalization
/// of `raw`.
pub fn normalized_matches(raw: &Option<String>, normalized_text: &Option<String>) -> (r: bool)
    ensures
        r == (match (opt_text(*raw), opt_text(*normalized_text)) {
            (Some(a), Some(b)) => normalized(a) == b,
            (None, None) => true,
            _ => false,
        }),
{
    match (raw, normalized_text) {
        (Some(a), Some(b)) => {
            let n = normalize(a.as_str());
            text_eq(n.as_str(), b.as_str())
        },
        (None, None) => true,
        _ => false,
    }
}

fn normalize_opt(o: &Option<String>) -> (r: Option<String>)
    ensures
        opt_text(r) == opt_normalized(opt_text(*o)),
{
    match o {
        Some(s) => Some(normalize(s.as_str())),
        None => None,
    }
}

/// The semantic recipe learned for an element.
#[derive(Clone, Debug)]
pub struct SemanticSelectorRecipe {
    role: String,
    name: Option<String>,
    normalized_name: Option<String>,
    description: Option<String>,
    normalized_description: Option<String>,
    value: Option<String>,
    normalized_value: Option<String>,
    stable_identifier: Option<ElementIdentifier>,
    display_ancestor_path: Vec<String>,
    semantic_ancestor_path: Vec<String>,
    supported_actions: Vec<String>,
}

/// The plain values of a recipe.
pub struct RecipeView {
    pub role: Seq<char>,
    pub name: Option<Seq<char>>,
    pub normalized_name: Option<Seq<char>>,
    pub description: Option<Seq<char>>,
    pub normalized_description: Option<Seq<char>>,
    pub value: Option<Seq<char>>,
    pub normalized_value: Option<Seq<char>>,
    pub stable_identifier: Option<(IdentifierKind, Seq<char>)>,
    pub display_path: Seq<Seq<char>>,
    pub semantic_path: Seq<Seq<char>>,
    pub supported_actions: Seq<Seq<char>>,
}

impl View for SemanticSelectorRecipe {
    type V = RecipeView;

    closed spec fn view(&self) -> RecipeView {
        RecipeView {
            role: self.role@,
            name: opt_text(self.name),
            normalized_name: opt_text(self.normalized_name),
            description: opt_text(self.description),
            normalized_description: opt_text(self.normalized_description),
            value: opt_text(self.value),
            normalized_value: opt_text(self.normalized_value),
            stable_identifier: opt_identifier_view(self.stable_identifier),
            display_path: text_views(self.display_ancestor_path@),
            semantic_path: text_views(self.semantic_ancestor_path@),
            supported_actions: text_views(self.supported_actions@),
        }
    }
}

/// The first `MAX_SEMANTIC_PATH` labels of a display path.
pub open spec fn bounded_path(p: Seq<Seq<char>>) -> Seq<Seq<char>> {
    if p.len() > MAX_SEMANTIC_PATH {
        p.take(MAX_SEMANTIC_PATH as int)
    } else {
        p
    }
}

/// The normalized labels of a path.
pub open spec fn normalized_path(p: Seq<Seq<char>>) -> Seq<Seq<char>> {
    p.map_values(|s: Seq<char>| normalized(s))
}

/// The recipe learned from a reference entry and its display path, if any: the role must
/// be canonical and known, and at least one durable signal must remain.
pub open spec fn recipe_of(e: EntryView, display: Seq<Seq<char>>) -> Option<RecipeView> {
    let name = meaningful_opt(e.name);
    let description = meaningful_opt(e.description);
    let value = meaningful_opt(e.value);
    let stable = durable(e.native_id);
    let dpath = bounded_path(display);
    let spath = normalized_path(dpath);
    if !canonical_role(e.role) || e.role == "unknown"@ {
        None
    } else if stable is None && name is None && description is None && value is None && spath.len()
        == 0 {
        None
    } else {
        Some(
            RecipeView {
                role: e.role,
                name,
                normalized_name: opt_normalized(name),
                description,
                normalized_description: opt_normalized(description),
                value,
                normalized_value: opt_normalized(value),
                stable_identifier: stable,
                display_path: dpath,
                semantic_path: spath,
                supported_actions: key_order(e.available_actions, Seq::empty()),
            },
        )
    }
}

/// A normalized field matches its raw field.
pub open spec fn normalized_pair_ok(raw: Option<Seq<char>>, n: Option<Seq<char>>) -> bool {
    match (raw, n) {
        (Some(a), Some(b)) => normalized(a) == b,
        (None, None) => true,
        _ => false,
    }
}

/// A recipe is internally consistent and still carries a durable signal.
pub open spec fn recipe_valid(v: RecipeView) -> bool {
    &&& canonical_role(v.role)
    &&& v.role != "unknown"@
    &&& (v.stable_identifier is None || durable(v.stable_identifier) == v.stable_identifier)
    &&& normalized_pair_ok(v.name, v.normalized_name)
    &&& normalized_pair_ok(v.description, v.normalized_description)
    &&& normalized_pair_ok(v.value, v.normalized_value)
    &&& v.semantic_path.len() <= MAX_SEMANTIC_PATH
    &&& v.display_path.len() == v.semantic_path.len()
    &&& (forall|i: int| 0 <= i < v.display_path.len() ==> normalized(#[trigger] v.display_path[i]) == v.semantic_path[i])
    &&& v.supported_actions.len() <= MAX_RECIPE_ACTIONS
    &&& (forall|i: int| 0 <= i < v.supported_actions.len() ==> utf8_len(#[trigger] v.supported_actions[i]) <= MAX_RECIPE_ACTIONS)
    &&& (v.stable_identifier is Some || v.normalized_name is Some || v.normalized_description is Some
        || v.normalized_value is Some || v.semantic_path.len() > 0)
}

/// A candidate path matches the recipe's normalized ancestor labels one for one.
pub open spec fn path_matches_spec(v: RecipeView, candidate: Seq<Seq<char>>) -> bool {
    candidate.len() == v.semantic_path.len() && forall|i: int|
        0 <= i < candidate.len() ==> normalized(#[trigger] candidate[i]) == v.semantic_path[i]
}

/// The known value of a locator field.
pub open spec fn known_text(f: LocatorField) -> Option<Seq<char>> {
    match f {
        LocatorField::Known(s) => Some(s@),
        _ => None,
    }
}

/// The live element has the recipe's identifier among its reported identifiers.
pub open spec fn live_has_identifier(live: LiveElement, id: (IdentifierKind, Seq<char>)) -> bool {
    exists|j: int| 0 <= j < live.identity.identifiers.identifiers.len() && identifier_view(
        #[trigger] live.identity.identifiers.identifiers@[j],
    ) == id
}

/// An optional live text normalizes to `expected`.
pub open spec fn normalizes_to(actual: Option<Seq<char>>, expected: Seq<char>) -> bool {
    match actual {
        Some(a) => normalized(a) == expected,
        None => false,
    }
}

/// Whether a live element is still the element the recipe describes: same role; its
/// durable identifier present (or, when refreshing identifiers is allowed, some text
/// signal to fall back on); then the first of normalized name, value, description that
/// the recipe holds must match; a recipe with only an identifier matches on the identifier
/// alone unless refreshing is allowed.
pub open spec fn matches_live_spec(v: RecipeView, live: LiveElement, allow_refresh: bool) -> bool {
    if live.state.role@ != v.role {
        false
    } else if v.stable_identifier is Some && !live_has_identifier(live, v.stable_identifier->0) && (
    !allow_refresh || (v.normalized_name is None && v.normalized_description is None
        && v.normalized_value is None)) {
        false
    } else if v.normalized_name is Some {
        normalizes_to(known_text(live.identity.name), v.normalized_name->0)
    } else if v.normalized_value is Some {
        normalizes_to(opt_text(live.state.value), v.normalized_value->0)
    } else if v.normalized_description is Some {
        normalizes_to(known_text(live.identity.description), v.normalized_description->0)
    } else {
        v.stable_identifier is Some && !allow_refresh
    }
}

/// The process generation of a window, when it has a non-empty one.
pub open spec fn window_generation(w: WindowInfo) -> Option<Seq<char>> {
    match opt_text(w.process_instance) {
        Some(i) => if i.len() > 0 {
            Some(i)
        } else {
            None
        },
        None => None,
    }
}

/// The reference entry the recipe describes inside a window (no live path, no bounds).
pub open spec fn recipe_entry(v: RecipeView, w: WindowInfo, surface: SnapshotSurface) -> Option<EntryView> {
    match window_generation(w) {
        Some(instance) => Some(
            EntryView {
                pid: w.pid.spec_get(),
                process_instance: Some(instance),
                role: v.role,
                name: v.name,
                value: v.value,
                description: v.description,
                native_id: v.stable_identifier,
                states: Seq::empty(),
                available_actions: v.supported_actions,
                source_app: Some(w.app@),
                source_window_id: Some(w.id@),
                source_window_title: Some(w.title@),
                source_surface: surface,
                path_is_absolute: false,
                path: Seq::empty(),
            },
        ),
        None => None,
    }
}

/// The reference entry read from a live element inside a window at a given path.
pub open spec fn live_entry_spec(
    w: WindowInfo,
    surface: SnapshotSurface,
    live: LiveElement,
    path: Seq<usize>,
) -> Option<EntryView> {
    match window_generation(w) {
        Some(instance) => Some(
            EntryView {
                pid: w.pid.spec_get(),
                process_instance: Some(instance),
                role: live.state.role@,
                name: meaningful_opt(known_text(live.identity.name)),
                value: meaningful_opt(opt_text(live.state.value)),
                description: meaningful_opt(known_text(live.identity.description)),
                native_id: evidence_identifier(live.identity.identifiers),
                states: text_views(live.state.states@),
                available_actions: text_views(live.available_actions@),
                source_app: Some(w.app@),
                source_window_id: Some(w.id@),
                source_window_title: Some(w.title@),
                source_surface: surface,
                path_is_absolute: false,
                path: path,
            },
        ),
        None => None,
    }
}

fn window_instance(window: &WindowInfo) -> (r: Option<String>)
    ensures
        opt_text(r) == window_generation(*window),
{
    match &window.process_instance {
        Some(i) => if i.as_str().is_empty() {
            None
        } else {
            Some(i.clone())
        },
        None => None,
    }
}

fn known_copy(f: &LocatorField) -> (r: Option<String>)
    ensures
        opt_text(r) == known_text(*f),
{
    match f.known() {
        Some(s) => Some(s.clone()),
        None => None,
    }
}

/// `entry_from_live`: the reference entry for a freshly read live element.
pub fn entry_from_live(
    window: &WindowInfo,
    surface: SnapshotSurface,
    live: &LiveElement,
    path: RefPath,
) -> (r: Option<RefEntry>)
    ensures
        r is Some <==> live_entry_spec(*window, surface, *live, path.steps@) is Some,
        r matches Some(e) ==> live_entry_spec(*window, surface, *live, path.steps@) == Some(e@),
{
    let instance = match window_instance(window) {
        Some(i) => i,
        None => return None,
    };
    let name = known_copy(&live.identity.name);
    let description = known_copy(&live.identity.description);
    Some(
        RefEntry {
            process: RefProcess { pid: window.pid, process_instance: Some(instance) },
            identity: RefEntryIdentity {
                role: live.state.role.clone(),
                name: meaningful(&name),
                value: meaningful(&live.state.value),
                description: meaningful(&description),
                native_id: durable_identifier_from_evidence(&live.identity.identifiers),
            },
            capabilities: RefCapabilities {
                states: copy_texts(&live.state.states),
                available_actions: copy_texts(&live.available_actions),
            },
            source: RefSource {
                source_app: Some(window.app.clone()),
                source_window_id: Some(window.id.clone()),
                source_window_title: Some(window.title.clone()),
                source_surface: surface,
            },
            scope: RefScope { path_is_absolute: false, path },
        },
    )
}

impl SemanticSelectorRecipe {
    /// `from_entry`: learns a recipe from an element, keeping at most `MAX_SEMANTIC_PATH`
    /// ancestor labels; `None` when the role is not canonical or unknown, or when no
    /// durable signal remains.
    pub fn from_entry(entry: &RefEntry, display_path: &Vec<String>) -> (r: Option<Self>)
        ensures
            r is Some <==> recipe_of(entry@, text_views(display_path@)) is Some,
            r matches Some(x) ==> recipe_of(entry@, text_views(display_path@)) == Some(x@),
    {
        if !is_canonical_role(entry.identity.role.as_str()) || text_eq(
            entry.identity.role.as_str(),
            "unknown",
        ) {
            return None;
        }
        let name = meaningful(&entry.identity.name);
        let description = meaningful(&entry.identity.description);
        let value = meaningful(&entry.identity.value);
        let stable_identifier = durable_identifier(
            match &entry.identity.native_id {
                Some(i) => Some(i),
                None => None,
            },
        );
        let ghost dpath_spec = bounded_path(text_views(display_path@));
        let limit = if display_path.len() > MAX_SEMANTIC_PATH {
            MAX_SEMANTIC_PATH
        } else {
            display_path.len()
        };
        let mut display_ancestor_path: Vec<String> = Vec::new();
        let mut semantic_ancestor_path: Vec<String> = Vec::new();
        let mut i: usize = 0;
        while i < limit
            invariant
                i <= limit,
                limit <= display_path.len(),
                limit == dpath_spec.len(),
                dpath_spec == bounded_path(text_views(display_path@)),
                display_ancestor_path.len() == i,
                semantic_ancestor_path.len() == i,
                forall|q: int| 0 <= q < i ==> (#[trigger] display_ancestor_path@[q])@ == dpath_spec[q],
                forall|q: int| 0 <= q < i ==> (#[trigger] semantic_ancestor_path@[q])@ == normalized(dpath_spec[q]),
            decreases limit - i,
        {
            proof {
                assert(dpath_spec[i as int] == display_path@[i as int]@);
            }
            display_ancestor_path.push(display_path[i].clone());
            semantic_ancestor_path.push(normalize(display_path[i].as_str()));
            i = i + 1;
        }
        proof {
            assert(text_views(display_ancestor_path@) =~= dpath_spec);
            assert(text_views(semantic_ancestor_path@) =~= normalized_path(dpath_spec));
        }
        if stable_identifier.is_none() && name.is_none() && description.is_none() && value.is_none()
            && semantic_ancestor_path.len() == 0 {
            return None;
        }
        let supported_actions = sorted_distinct_texts(&entry.capabilities.available_actions);
        let normalized_name = normalize_opt(&name);
        let normalized_description = normalize_opt(&description);
        let normalized_value = normalize_opt(&value);
        Some(
            SemanticSelectorRecipe {
                role: entry.identity.role.clone(),
                name,
                normalized_name,
                description,
                normalized_description,
                value,
                normalized_value,
                stable_identifier,
                display_ancestor_path,
                semantic_ancestor_path,
                supported_actions,
            },
        )
    }

    /// `validate`: whether the recipe is internally consistent and still usable.
    pub fn validate(&self) -> (r: bool)
        ensures
            r == recipe_valid(self@),
    {
        if !is_canonical_role(self.role.as_str()) || text_eq(self.role.as_str(), "unknown") {
            return false;
        }
        let id_ok = match &self.stable_identifier {
            Some(identifier) => durable_identifier(Some(identifier)).is_some(),
            None => true,
        };
        if !id_ok || !normalized_matches(&self.name, &self.normalized_name) || !normalized_matches(
            &self.description,
            &self.normalized_description,
        ) || !normalized_matches(&self.value, &self.normalized_value) {
            return false;
        }
        if self.semantic_ancestor_path.len() > MAX_SEMANTIC_PATH
            || self.display_ancestor_path.len() != self.semantic_ancestor_path.len() {
            return false;
        }
        let mut i: usize = 0;
        while i < self.display_ancestor_path.len()
            invariant
                i <= self.display_ancestor_path.len(),
                self.display_ancestor_path.len() == self.semantic_ancestor_path.len(),
                forall|q: int| 0 <= q < i ==> normalized(#[trigger] self@.display_path[q]) == self@.semantic_path[q],
            decreases self.display_ancestor_path.len() - i,
        {
            let n = normalize(self.display_ancestor_path[i].as_str());
            if !text_eq(n.as_str(), self.semantic_ancestor_path[i].as_str()) {
                assert(normalized(self@.display_path[i as int]) != self@.semantic_path[i as int]);
                return false;
            }
            i = i + 1;
        }
        if self.supported_actions.len() > MAX_RECIPE_ACTIONS {
            return false;
        }
        let mut j: usize = 0;
        while j < self.supported_actions.len()
            invariant
                j <= self.supported_actions.len(),
                forall|q: int| 0 <= q < j ==> utf8_len(#[trigger] self@.supported_actions[q]) <= MAX_RECIPE_ACTIONS,
            decreases self.supported_actions.len() - j,
        {
            let bytes = self.supported_actions[j].as_str().as_bytes().len();
            if bytes > MAX_RECIPE_ACTIONS {
                assert(utf8_len(self@.supported_actions[j as int]) > MAX_RECIPE_ACTIONS);
                return false;
            }
            j = j + 1;
        }
        self.stable_identifier.is_some() || self.normalized_name.is_some()
            || self.normalized_description.is_some() || self.normalized_value.is_some()
            || self.semantic_ancestor_path.len() > 0
    }

    /// Whether the recipe holds a durable identifier.
    pub fn has_stable_identifier(&self) -> (r: bool)
        ensures
            r == (self@.stable_identifier is Some),
    {
        self.stable_identifier.is_some()
    }

    /// Whether the recipe holds ancestor labels.
    pub fn has_semantic_path(&self) -> (r: bool)
        ensures
            r == (self@.semantic_path.len() > 0),
    {
        self.semantic_ancestor_path.len() > 0
    }

    /// The ancestor labels as displayed.
    pub fn display_path(&self) -> (r: &Vec<String>)
        ensures
            text_views(r@) == self@.display_path,
    {
        &self.display_ancestor_path
    }

    /// `path_matches`: the candidate's labels normalize to the recipe's, one for one.
    pub fn path_matches(&self, candidate: &Vec<String>) -> (r: bool)
        ensures
            r == path_matches_spec(self@, text_views(candidate@)),
    {
        if candidate.len() != self.semantic_ancestor_path.len() {
            return false;
        }
        let mut i: usize = 0;
        while i < candidate.len()
            invariant
                i <= candidate.len(),
                candidate.len() == self@.semantic_path.len(),
                forall|q: int| 0 <= q < i ==> normalized(#[trigger] text_views(candidate@)[q]) == self@.semantic_path[q],
            decreases candidate.len() - i,
        {
            let n = normalize(candidate[i].as_str());
            if !text_eq(n.as_str(), self.semantic_ancestor_path[i].as_str()) {
                assert(normalized(text_views(candidate@)[i as int]) != self@.semantic_path[i as int]);
                return false;
            }
            i = i + 1;
        }
        true
    }

    /// `exact_query`: an exact query on the role and the most specific normalized text
    /// (name, else description, else value), with the identifier when asked for.
    pub fn exact_query(&self, include_identifier: bool) -> (r: LocatorQuery)
        ensures
            opt_text(r.identity.role) == Some(self@.role),
            opt_text(r.identity.name) == self@.normalized_name,
            opt_text(r.identity.description) == if self@.normalized_name is None {
                self@.normalized_description
            } else {
                None
            },
            opt_text(r.identity.native_id) == if include_identifier {
                match self@.stable_identifier {
                    Some(x) => Some(x.1),
                    None => None,
                }
            } else {
                None
            },
            opt_text(r.identity.value) == if self@.normalized_name is None
                && self@.normalized_description is None {
                self@.normalized_value
            } else {
                None
            },
            r.exact,
            r.has_text is None,
            r.states@.len() == 0,
            r.containment.has is None,
            r.containment.has_not is None,
    {
        LocatorQuery {
            identity: IdentityPredicate {
                role: Some(self.role.clone()),
                name: copy_opt_text(&self.normalized_name),
                description: if self.normalized_name.is_none() {
                    copy_opt_text(&self.normalized_description)
                } else {
                    None
                },
                native_id: if include_identifier {
                    match &self.stable_identifier {
                        Some(identifier) => Some(identifier.value.clone()),
                        None => None,
                    }
                } else {
                    None
                },
                value: if self.normalized_name.is_none() && self.normalized_description.is_none() {
                    copy_opt_text(&self.normalized_value)
                } else {
                    None
                },
            },
            exact: true,
            has_text: None,
            states: Vec::new(),
            containment: Containment { has: None, has_not: None },
        }
    }

    /// `role_query`: an exact query on the role alone.
    pub fn role_query(&self) -> (r: LocatorQuery)
        ensures
            opt_text(r.identity.role) == Some(self@.role),
            r.identity.name is None,
            r.identity.description is None,
            r.identity.native_id is None,
            r.identity.value is None,
            r.exact,
            r.has_text is None,
            r.states@.len() == 0,
            r.containment.has is None,
            r.containment.has_not is None,
    {
        LocatorQuery {
            identity: IdentityPredicate {
                role: Some(self.role.clone()),
                name: None,
                description: None,
                native_id: None,
                value: None,
            },
            exact: true,
            has_text: None,
            states: Vec::new(),
            containment: Containment { has: None, has_not: None },
        }
    }

    /// `matches_live`: whether a freshly read live element is still the described element.
    pub fn matches_live(&self, live: &LiveElement, allow_identifier_refresh: bool) -> (r: bool)
        ensures
            r == matches_live_spec(self@, *live, allow_identifier_refresh),
    {
        if !text_eq(live.state.role.as_str(), self.role.as_str()) {
            return false;
        }
        if let Some(expected) = &self.stable_identifier {
            let ids = live.identity.identifiers.identifiers();
            let mut id_matches = false;
            let mut j: usize = 0;
            while j < ids.len()
                invariant
                    j <= ids.len(),
                    ids == &live.identity.identifiers.identifiers,
                    id_matches == exists|q: int| 0 <= q < j && identifier_view(#[trigger] ids@[q]) == identifier_view(*expected),
                decreases ids.len() - j,
            {
                if ids[j].same(expected) {
                    id_matches = true;
                }
                j = j + 1;
            }
            assert(id_matches == live_has_identifier(*live, identifier_view(*expected)));
            if !id_matches && !allow_identifier_refresh {
                return false;
            }
            if !id_matches && allow_identifier_refresh && self.normalized_name.is_none()
                && self.normalized_description.is_none() && self.normalized_value.is_none() {
                return false;
            }
        }
        if let Some(expected) = &self.normalized_name {
            return match live.identity.name.known() {
                Some(actual) => {
                    let n = normalize(actual.as_str());
                    text_eq(n.as_str(), expected.as_str())
                },
                None => false,
            };
        }
        if let Some(expected) = &self.normalized_value {
            return match &live.state.value {
                Some(actual) => {
                    let n = normalize(actual.as_str());
                    text_eq(n.as_str(), expected.as_str())
                },
                None => false,
            };
        }
        if let Some(expected) = &self.normalized_description {
            return match live.identity.description.known() {
                Some(actual) => {
                    let n = normalize(actual.as_str());
                    text_eq(n.as_str(), expected.as_str())
                },
                None => false,
            };
        }
        self.stable_identifier.is_some() && !allow_identifier_refresh
    }

    /// `fuzzy_name_matches`: the candidate's normalized name is within one edit of the
    /// recipe's normalized name (both 5 to 128 characters).
    pub fn fuzzy_name_matches(&self, candidate: &str) -> (r: bool)
        ensures
            r == match self@.normalized_name {
                Some(expected) => fuzzy_sized(expected, normalized(candidate@)) && one_edit_apart(
                    expected,
                    normalized(candidate@),
                ),
                None => false,
            },
    {
        match &self.normalized_name {
            Some(expected) => {
                let actual = normalize(candidate);
                one_edit_or_less(expected.as_str(), actual.as_str())
            },
            None => false,
        }
    }

    /// `to_entry`: the reference entry the recipe describes in a window; `None` when the
    /// window has no process generation.
    pub fn to_entry(&self, window: &WindowInfo, surface: SnapshotSurface) -> (r: Option<RefEntry>)
        ensures
            r is Some <==> recipe_entry(self@, *window, surface) is Some,
            r matches Some(e) ==> recipe_entry(self@, *window, surface) == Some(e@),
    {
        let instance = match window_instance(window) {
            Some(i) => i,
            None => return None,
        };
        let states: Vec<String> = Vec::new();
        let entry = RefEntry {
            process: RefProcess { pid: window.pid, process_instance: Some(instance) },
            identity: RefEntryIdentity {
                role: self.role.clone(),
                name: copy_opt_text(&self.name),
                value: copy_opt_text(&self.value),
                description: copy_opt_text(&self.description),
                native_id: crate::refs::copy_opt_identifier(&self.stable_identifier),
            },
            capabilities: RefCapabilities {
                states,
                available_actions: copy_texts(&self.supported_actions),
            },
            source: RefSource {
                source_app: Some(window.app.clone()),
                source_window_id: Some(window.id.clone()),
                source_window_title: Some(window.title.clone()),
                source_surface: surface,
            },
            scope: RefScope { path_is_absolute: false, path: RefPath::new() },
        };
        assert(entry@.states =~= Seq::<Seq<char>>::empty());
        Some(entry)
    }

    /// A copy with the same values.
    pub fn duplicate(&self) -> (r: Self)
        ensures
            r@ == self@,
    {
        SemanticSelectorRecipe {
            role: self.role.clone(),
            name: copy_opt_text(&self.name),
            normalized_name: copy_opt_text(&self.normalized_name),
            description: copy_opt_text(&self.description),
            normalized_description: copy_opt_text(&self.normalized_description),
            value: copy_opt_text(&self.value),
            normalized_value: copy_opt_text(&self.normalized_value),
            stable_identifier: crate::refs::copy_opt_identifier(&self.stable_identifier),
            display_ancestor_path: copy_texts(&self.display_ancestor_path),
            semantic_ancestor_path: copy_texts(&self.semantic_ancestor_path),
            supported_actions: copy_texts(&self.supported_actions),
        }
    }

    /// Marks the recipe unusable by giving it the unknown role.
    pub fn invalidate_role(&mut self)
        ensures
            final(self)@ == (RecipeView { role: "unknown"@, ..old(self)@ }),
    {
        self.role = owned("unknown");
    }
}

/// A runtime identifier never becomes a recipe's durable identity: whatever element a
/// recipe is learned from, its stable identifier (when it has one) is of a durable kind.
pub proof fn lemma_runtime_identifier_never_durable(e: EntryView, display: Seq<Seq<char>>)
    requires
        recipe_of(e, display) is Some,
    ensures
        recipe_of(e, display)->Some_0.stable_identifier matches Some(id) ==> durable_kind(id.0)
            && id.0 != IdentifierKind::RuntimeId,
{
}

/// No recipe is learned exactly when the entry's role is not a known canonical role, or
/// when no durable signal remains: no durable identifier, no meaningful name,
/// description or value, and no semantic path.
pub proof fn lemma_no_recipe_iff_no_durable_signal(e: EntryView, display: Seq<Seq<char>>)
    ensures
        recipe_of(e, display) is None <==> (!canonical_role(e.role) || e.role == "unknown"@ || (durable(e.native_id) is None
            && meaningful_opt(e.name) is None && meaningful_opt(e.description) is None && meaningful_opt(e.value) is None
            && normalized_path(bounded_path(display)).len() == 0)),
{
}

} // verus!
