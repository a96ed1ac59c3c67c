//! Warm revalidation of a cached application profile against the live desktop.
//!
//! The revalidation alternates provider reads with decisions. The decisions live here:
//! how a provider reply is classified, which candidates a bounded scan leaves, which
//! read comes next (`WarmStep`), and whether a freshly read live element may stand as
//! the target. A profile never becomes a target on ambiguity, on an incomplete scan or
//! on an identity that no longer matches: those fail closed into a miss.
use vstd::prelude::*;

use crate::model::WindowInfo;
use crate::profile::{profile_of, AppProfile, ProfileView};
use crate::refs::{text_views, EntryView, LiveElement, RefEntry, RefPath, SnapshotSurface};
use crate::selector::{
    entry_from_live, live_entry_spec, matches_live_spec, path_matches_spec, RecipeView,
    SemanticSelectorRecipe,
};
use crate::fuzzy::{fuzzy_sized, one_edit_apart};
use crate::model::opt_text;
use crate::selector::known_text;
use crate::text::{concat, normalized};

verus! {

/// Most candidates a revalidation scan may return.
pub const MAX_REVALIDATION_CANDIDATES: u32 = 16;

/// The provider error codes the revalidation distinguishes.
#[derive(Clone, Copy, Debug, PartialEq, Eq, Structural)]
pub enum ErrorCode {
    StaleRef,
    ElementNotFound,
    PlatformNotSupported,
    ActionNotSupported,
    AmbiguousTarget,
    InvalidArgs,
    ActionFailed,
    Timeout,
    Internal,
}

/// `stale_or_unsupported`: the element is gone or the provider cannot answer; the
/// revalidation moves on instead of failing.
pub open spec fn is_stale_or_unsupported(code: ErrorCode) -> bool {
    code == ErrorCode::StaleRef || code == ErrorCode::ElementNotFound || code
        == ErrorCode::PlatformNotSupported || code == ErrorCode::ActionNotSupported
}

/// `stale_or_unsupported`.
pub fn stale_or_unsupported(code: ErrorCode) -> (r: bool)
    ensures
        r == is_stale_or_unsupported(code),
{
    match code {
        ErrorCode::StaleRef | ErrorCode::ElementNotFound | ErrorCode::PlatformNotSupported
        | ErrorCode::ActionNotSupported => true,
        _ => false,
    }
}

/// What a provider read gave: a result, an ambiguous target, a stale or unsupported
/// element, or another failure.
#[derive(Clone, Copy, Debug, PartialEq, Eq, Structural)]
pub enum ReadOutcome {
    Found,
    Ambiguous,
    Stale,
    Failed,
}

/// The classification of a provider reply (`None`: it succeeded).
pub open spec fn outcome_of(error: Option<ErrorCode>) -> ReadOutcome {
    match error {
        None => ReadOutcome::Found,
        Some(c) => if c == ErrorCode::AmbiguousTarget {
            ReadOutcome::Ambiguous
        } else if is_stale_or_unsupported(c) {
            ReadOutcome::Stale
        } else {
            ReadOutcome::Failed
        },
    }
}

/// Classifies a provider reply.
pub fn read_outcome(error: Option<ErrorCode>) -> (r: ReadOutcome)
    ensures
        r == outcome_of(error),
{
    match error {
        None => ReadOutcome::Found,
        Some(c) => if c == ErrorCode::AmbiguousTarget {
            ReadOutcome::Ambiguous
        } else if stale_or_unsupported(c) {
            ReadOutcome::Stale
        } else {
            ReadOutcome::Failed
        },
    }
}

/// One match of a bounded revalidation scan: its display path and name.
#[derive(Clone, Debug)]
pub struct ScanMatch {
    pub path: Vec<String>,
    pub name: String,
}

/// A bounded revalidation scan: whether it saw the whole window and was not cut short,
/// and its matches in document order.
#[derive(Clone, Debug)]
pub struct ScanResult {
    pub complete: bool,
    pub truncated: bool,
    pub matches: Vec<ScanMatch>,
}

/// Which scan matches remain as candidates.
#[derive(Clone, Copy, Debug, PartialEq, Eq, Structural)]
pub enum CandidateSearch {
    Empty,
    One(usize),
    Ambiguous,
}

/// `classify_candidates`: none, exactly one (by its position), or several.
pub open spec fn classify(hits: Seq<usize>) -> CandidateSearch {
    if hits.len() == 0 {
        CandidateSearch::Empty
    } else if hits.len() == 1 {
        CandidateSearch::One(hits[0])
    } else {
        CandidateSearch::Ambiguous
    }
}

/// A scan match whose display path normalizes to the recipe's semantic path.
pub open spec fn path_hit(v: RecipeView, m: ScanMatch) -> bool {
    path_matches_spec(v, text_views(m.path@))
}

/// A scan match within one edit of the recipe's name (and on its path, when it has one).
pub open spec fn fuzzy_hit(v: RecipeView, m: ScanMatch) -> bool {
    &&& (v.semantic_path.len() == 0 || path_matches_spec(v, text_views(m.path@)))
    &&& match v.normalized_name {
        Some(expected) => fuzzy_sized(expected, normalized(m.name@)) && one_edit_apart(
            expected,
            normalized(m.name@),
        ),
        None => false,
    }
}

/// The positions of the matches a predicate keeps, in order.
pub open spec fn hits(ms: Seq<ScanMatch>, keep: spec_fn(ScanMatch) -> bool) -> Seq<usize>
    decreases ms.len(),
{
    if ms.len() == 0 {
        Seq::empty()
    } else if keep(ms.last()) {
        hits(ms.drop_last(), keep).push((ms.len() - 1) as usize)
    } else {
        hits(ms.drop_last(), keep)
    }
}

/// The candidates of a scan: none when it was incomplete or truncated.
pub open spec fn scan_candidates(scan: ScanResult, keep: spec_fn(ScanMatch) -> bool) -> CandidateSearch {
    if !scan.complete || scan.truncated {
        CandidateSearch::Empty
    } else {
        classify(hits(scan.matches@, keep))
    }
}

fn classify_found(found: &Vec<usize>) -> (r: CandidateSearch)
    ensures
        r == classify(found@),
{
    if found.len() == 0 {
        CandidateSearch::Empty
    } else if found.len() == 1 {
        CandidateSearch::One(found[0])
    } else {
        CandidateSearch::Ambiguous
    }
}

/// `semantic_path_candidate` after its scan: the matches on the recipe's semantic path.
pub fn path_candidates(selector: &SemanticSelectorRecipe, scan: &ScanResult) -> (r: CandidateSearch)
    ensures
        r == scan_candidates(*scan, |m: ScanMatch| path_hit(selector@, m)),
{
    if !scan.complete || scan.truncated {
        return CandidateSearch::Empty;
    }
    let ghost keep = |m: ScanMatch| path_hit(selector@, m);
    let mut found: Vec<usize> = Vec::new();
    let mut i: usize = 0;
    while i < scan.matches.len()
        invariant
            i <= scan.matches.len(),
            keep == (|m: ScanMatch| path_hit(selector@, m)),
            found@ == hits(scan.matches@.take(i as int), keep),
        decreases scan.matches.len() - i,
    {
        proof {
            let t = scan.matches@.take(i + 1);
            assert(t.drop_last() =~= scan.matches@.take(i as int));
            assert(t.last() == scan.matches@[i as int]);
        }
        if selector.path_matches(&scan.matches[i].path) {
            found.push(i);
        }
        i = i + 1;
    }
    assert(scan.matches@.take(i as int) =~= scan.matches@);
    classify_found(&found)
}

/// `fuzzy_candidate` after its scan: the matches within one edit of the recipe's name
/// (and on its semantic path, when it has one).
pub fn fuzzy_candidates(selector: &SemanticSelectorRecipe, scan: &ScanResult) -> (r: CandidateSearch)
    ensures
        r == scan_candidates(*scan, |m: ScanMatch| fuzzy_hit(selector@, m)),
        r matches CandidateSearch::One(i) ==> i < scan.matches@.len() && (selector@.semantic_path.len() > 0
            ==> path_matches_spec(selector@, text_views(scan.matches@[i as int].path@))),
{
    if !scan.complete || scan.truncated {
        return CandidateSearch::Empty;
    }
    let ghost keep = |m: ScanMatch| fuzzy_hit(selector@, m);
    let has_path = selector.has_semantic_path();
    let mut found: Vec<usize> = Vec::new();
    let mut i: usize = 0;
    while i < scan.matches.len()
        invariant
            i <= scan.matches.len(),
            keep == (|m: ScanMatch| fuzzy_hit(selector@, m)),
            has_path == (selector@.semantic_path.len() > 0),
            found@ == hits(scan.matches@.take(i as int), keep),
        decreases scan.matches.len() - i,
    {
        proof {
            let t = scan.matches@.take(i + 1);
            assert(t.drop_last() =~= scan.matches@.take(i as int));
            assert(t.last() == scan.matches@[i as int]);
        }
        let m = &scan.matches[i];
        if (!has_path || selector.path_matches(&m.path)) && selector.fuzzy_name_matches(m.name.as_str()) {
            found.push(i);
        }
        i = i + 1;
    }
    assert(scan.matches@.take(i as int) =~= scan.matches@);
    proof {
        lemma_fuzzy_candidate_stays_on_path(selector@, *scan);
    }
    classify_found(&found)
}

/// How a warm revalidation ended without a target.
#[derive(Clone, Copy, Debug, PartialEq, Eq, Structural)]
pub enum MissStatus {
    Ambiguous,
    CacheMiss,
    Invalidated,
}

/// Why a warm revalidation ended without a target.
#[derive(Clone, Copy, Debug, PartialEq, Eq, Structural)]
pub enum MissReason {
    StableIdentifierNotUnique,
    StableIdentifierAndPathNotUnique,
    SemanticPathNotUnique,
    RoleNameNotUnique,
    BoundedFuzzyNotUnique,
    SemanticTargetStale,
    FreshAnchorChanged,
    FreshAnchorAmbiguous,
    LiveRevalidationUnavailable,
    LiveIdentityMismatch,
    LiveGenerationUnusable,
    RefreshedSelectorInvalid,
}

/// The text of a miss status.
pub open spec fn miss_status_text(s: MissStatus) -> Seq<char> {
    match s {
        MissStatus::Ambiguous => "ambiguous"@,
        MissStatus::CacheMiss => "cache_miss"@,
        MissStatus::Invalidated => "invalidated"@,
    }
}

/// The text of a miss reason.
pub open spec fn miss_reason_text(r: MissReason) -> Seq<char> {
    match r {
        MissReason::StableIdentifierNotUnique => "stable_identifier_not_unique"@,
        MissReason::StableIdentifierAndPathNotUnique => "stable_identifier_and_path_not_unique"@,
        MissReason::SemanticPathNotUnique => "semantic_path_not_unique"@,
        MissReason::RoleNameNotUnique => "role_name_not_unique"@,
        MissReason::BoundedFuzzyNotUnique => "bounded_fuzzy_not_unique"@,
        MissReason::SemanticTargetStale => "semantic_target_stale"@,
        MissReason::FreshAnchorChanged => "fresh_anchor_changed"@,
        MissReason::FreshAnchorAmbiguous => "fresh_anchor_ambiguous"@,
        MissReason::LiveRevalidationUnavailable => "live_revalidation_unavailable"@,
        MissReason::LiveIdentityMismatch => "live_identity_mismatch"@,
        MissReason::LiveGenerationUnusable => "live_generation_unusable"@,
        MissReason::RefreshedSelectorInvalid => "refreshed_selector_invalid"@,
    }
}

impl MissStatus {
    /// The status as reported in traces.
    pub fn as_str(&self) -> (r: &'static str)
        ensures
            r@ == miss_status_text(*self),
    {
        match self {
            MissStatus::Ambiguous => "ambiguous",
            MissStatus::CacheMiss => "cache_miss",
            MissStatus::Invalidated => "invalidated",
        }
    }
}

impl MissReason {
    /// The reason as reported in traces.
    pub fn as_str(&self) -> (r: &'static str)
        ensures
            r@ == miss_reason_text(*self),
    {
        match self {
            MissReason::StableIdentifierNotUnique => "stable_identifier_not_unique",
            MissReason::StableIdentifierAndPathNotUnique => "stable_identifier_and_path_not_unique",
            MissReason::SemanticPathNotUnique => "semantic_path_not_unique",
            MissReason::RoleNameNotUnique => "role_name_not_unique",
            MissReason::BoundedFuzzyNotUnique => "bounded_fuzzy_not_unique",
            MissReason::SemanticTargetStale => "semantic_target_stale",
            MissReason::FreshAnchorChanged => "fresh_anchor_changed",
            MissReason::FreshAnchorAmbiguous => "fresh_anchor_ambiguous",
            MissReason::LiveRevalidationUnavailable => "live_revalidation_unavailable",
            MissReason::LiveIdentityMismatch => "live_identity_mismatch",
            MissReason::LiveGenerationUnusable => "live_generation_unusable",
            MissReason::RefreshedSelectorInvalid => "refreshed_selector_invalid",
        }
    }
}

/// What a warm revalidation knows before its first read: whether the window is still the
/// profile's live generation, and whether the recipe has a stable identifier, a
/// semantic path, and an entry in the window.
#[derive(Clone, Copy, Debug, PartialEq, Eq, Structural)]
pub struct WarmFlags {
    pub same_generation: bool,
    pub stable_identifier: bool,
    pub semantic_path: bool,
    pub semantic_entry: bool,
}

impl WarmFlags {
    /// The flags of a profile in a window.
    pub fn of(profile: &AppProfile, window: &WindowInfo, same_generation: bool) -> (r: Self)
        ensures
            r.same_generation == same_generation,
            r.stable_identifier == (profile@.selector.stable_identifier is Some),
            r.semantic_path == (profile@.selector.semantic_path.len() > 0),
            r.semantic_entry == (crate::selector::recipe_entry(profile@.selector, *window, profile@.surface) is Some),
    {
        WarmFlags {
            same_generation,
            stable_identifier: profile.selector().has_stable_identifier(),
            semantic_path: profile.selector().has_semantic_path(),
            semantic_entry: profile.semantic_entry(window).is_some(),
        }
    }
}

/// Where a warm revalidation stands, each step naming the read it waits for.
#[derive(Clone, Copy, Debug, PartialEq, Eq, Structural)]
pub enum WarmStep {
    /// Resolve the profile's live entry.
    LiveEntry,
    /// Resolve the recipe's entry by its stable identifier.
    StableEntry,
    /// Scan the recipe's semantic path after an ambiguous stable identifier.
    StablePath,
    /// Scan the recipe's semantic path, identifier included.
    PathOnly,
    /// Resolve the recipe's entry by role and name.
    RoleName,
    /// Scan the recipe's semantic path, identifier left out.
    PathFallback,
    /// Scan the role for names within one edit.
    Fuzzy,
    /// Resolve the anchor of the scan candidate at `index`.
    Anchor { index: usize, allow_identifier_refresh: bool },
    /// Read the live element, located by the scan candidate at `candidate`, or by the
    /// profile's own live path when there is none.
    ReadLive { candidate: Option<usize>, allow_identifier_refresh: bool },
    /// Check the live element that was read (`finish_live`).
    Verify { candidate: Option<usize>, allow_identifier_refresh: bool },
    /// Ended without a target.
    Missed { status: MissStatus, reason: MissReason },
    /// Ended on a provider failure, which the lookup reports.
    Failed,
}

/// What the provider answered to the read a step waited for.
#[derive(Clone, Copy, Debug, PartialEq, Eq, Structural)]
pub enum WarmReply {
    /// The outcome of resolving an entry or an anchor, or of reading a live element.
    Read(ReadOutcome),
    /// The candidates a scan left.
    Scan(CandidateSearch),
}

/// Whether a step waits for a scan.
pub open spec fn is_scan_step(s: WarmStep) -> bool {
    s is StablePath || s is PathOnly || s is PathFallback || s is Fuzzy
}

/// Whether a step has ended the revalidation (or hands over to `finish_live`).
pub open spec fn is_final_step(s: WarmStep) -> bool {
    s is Verify || s is Missed || s is Failed
}

/// Whether a reply answers what a step waited for.
pub open spec fn reply_fits(s: WarmStep, r: WarmReply) -> bool {
    !is_final_step(s) && (is_scan_step(s) <==> r is Scan)
}

/// The semantic-path or fuzzy scan that follows when the targeted reads found nothing.
pub open spec fn fallback_scan(f: WarmFlags) -> WarmStep {
    if f.semantic_path {
        WarmStep::PathFallback
    } else {
        WarmStep::Fuzzy
    }
}

/// The step after the stable identifier was tried or skipped.
pub open spec fn after_stable(f: WarmFlags) -> WarmStep {
    if !f.stable_identifier && f.semantic_path {
        WarmStep::PathOnly
    } else if !f.stable_identifier && f.semantic_entry {
        WarmStep::RoleName
    } else {
        fallback_scan(f)
    }
}

/// The step after the live entry was tried or skipped.
pub open spec fn after_live_entry(f: WarmFlags) -> WarmStep {
    if f.stable_identifier && f.semantic_entry {
        WarmStep::StableEntry
    } else {
        after_stable(f)
    }
}

/// The first step of a warm revalidation.
pub open spec fn warm_first(f: WarmFlags) -> WarmStep {
    if f.same_generation {
        WarmStep::LiveEntry
    } else {
        after_live_entry(f)
    }
}

/// The step after a scan found one candidate: resolve its anchor.
pub open spec fn to_anchor(c: CandidateSearch, allow: bool, none: WarmStep, ambiguous: MissReason) -> WarmStep {
    match c {
        CandidateSearch::One(i) => WarmStep::Anchor { index: i, allow_identifier_refresh: allow },
        CandidateSearch::Ambiguous => WarmStep::Missed { status: MissStatus::Ambiguous, reason: ambiguous },
        CandidateSearch::Empty => none,
    }
}

/// The step after a read found the element by the profile's entry: read it live.
pub open spec fn read_profile_location() -> WarmStep {
    WarmStep::ReadLive { candidate: None, allow_identifier_refresh: false }
}

/// The warm revalidation's decision table: the next step after a reply.
pub open spec fn warm_next(f: WarmFlags, s: WarmStep, r: WarmReply) -> WarmStep {
    match (s, r) {
        (WarmStep::LiveEntry, WarmReply::Read(o)) => match o {
            ReadOutcome::Found => read_profile_location(),
            ReadOutcome::Failed => WarmStep::Failed,
            _ => after_live_entry(f),
        },
        (WarmStep::StableEntry, WarmReply::Read(o)) => match o {
            ReadOutcome::Found => read_profile_location(),
            ReadOutcome::Ambiguous => if f.semantic_path {
                WarmStep::StablePath
            } else {
                WarmStep::Missed { status: MissStatus::Ambiguous, reason: MissReason::StableIdentifierNotUnique }
            },
            ReadOutcome::Stale => after_stable(f),
            ReadOutcome::Failed => WarmStep::Failed,
        },
        (WarmStep::StablePath, WarmReply::Scan(c)) => to_anchor(
            c,
            true,
            WarmStep::Missed { status: MissStatus::Ambiguous, reason: MissReason::StableIdentifierNotUnique },
            MissReason::StableIdentifierAndPathNotUnique,
        ),
        (WarmStep::PathOnly, WarmReply::Scan(c)) => to_anchor(c, false, fallback_scan(f), MissReason::SemanticPathNotUnique),
        (WarmStep::RoleName, WarmReply::Read(o)) => match o {
            ReadOutcome::Found => read_profile_location(),
            ReadOutcome::Ambiguous => WarmStep::Missed { status: MissStatus::Ambiguous, reason: MissReason::RoleNameNotUnique },
            ReadOutcome::Stale => fallback_scan(f),
            ReadOutcome::Failed => WarmStep::Failed,
        },
        (WarmStep::PathFallback, WarmReply::Scan(c)) => to_anchor(c, true, WarmStep::Fuzzy, MissReason::SemanticPathNotUnique),
        (WarmStep::Fuzzy, WarmReply::Scan(c)) => to_anchor(
            c,
            true,
            WarmStep::Missed { status: MissStatus::CacheMiss, reason: MissReason::SemanticTargetStale },
            MissReason::BoundedFuzzyNotUnique,
        ),
        (WarmStep::Anchor { index, allow_identifier_refresh }, WarmReply::Read(o)) => match o {
            ReadOutcome::Found => WarmStep::ReadLive { candidate: Some(index), allow_identifier_refresh },
            ReadOutcome::Stale => WarmStep::Missed { status: MissStatus::CacheMiss, reason: MissReason::FreshAnchorChanged },
            ReadOutcome::Ambiguous => WarmStep::Missed { status: MissStatus::Ambiguous, reason: MissReason::FreshAnchorAmbiguous },
            ReadOutcome::Failed => WarmStep::Failed,
        },
        (WarmStep::ReadLive { candidate, allow_identifier_refresh }, WarmReply::Read(o)) => match o {
            ReadOutcome::Found => WarmStep::Verify { candidate, allow_identifier_refresh },
            ReadOutcome::Stale => WarmStep::Missed {
                status: MissStatus::CacheMiss,
                reason: MissReason::LiveRevalidationUnavailable,
            },
            _ => WarmStep::Failed,
        },
        _ => s,
    }
}

impl WarmStep {
    /// The first step of a warm revalidation.
    pub fn first(f: WarmFlags) -> (r: Self)
        ensures
            r == warm_first(f),
    {
        if f.same_generation {
            WarmStep::LiveEntry
        } else {
            Self::after_live_entry(f)
        }
    }

    fn fallback_scan(f: WarmFlags) -> (r: Self)
        ensures
            r == fallback_scan(f),
    {
        if f.semantic_path {
            WarmStep::PathFallback
        } else {
            WarmStep::Fuzzy
        }
    }

    fn after_stable(f: WarmFlags) -> (r: Self)
        ensures
            r == after_stable(f),
    {
        if !f.stable_identifier && f.semantic_path {
            WarmStep::PathOnly
        } else if !f.stable_identifier && f.semantic_entry {
            WarmStep::RoleName
        } else {
            Self::fallback_scan(f)
        }
    }

    fn after_live_entry(f: WarmFlags) -> (r: Self)
        ensures
            r == after_live_entry(f),
    {
        if f.stable_identifier && f.semantic_entry {
            WarmStep::StableEntry
        } else {
            Self::after_stable(f)
        }
    }

    fn to_anchor(c: CandidateSearch, allow: bool, none: WarmStep, ambiguous: MissReason) -> (r: Self)
        ensures
            r == to_anchor(c, allow, none, ambiguous),
    {
        match c {
            CandidateSearch::One(i) => WarmStep::Anchor { index: i, allow_identifier_refresh: allow },
            CandidateSearch::Ambiguous => WarmStep::Missed { status: MissStatus::Ambiguous, reason: ambiguous },
            CandidateSearch::Empty => none,
        }
    }

    /// `WarmContext::resolve`, one decision: the step after the provider answered.
    pub fn next(self, f: WarmFlags, reply: WarmReply) -> (r: Self)
        requires
            reply_fits(self, reply),
        ensures
            r == warm_next(f, self, reply),
    {
        match (self, reply) {
            (WarmStep::LiveEntry, WarmReply::Read(o)) => match o {
                ReadOutcome::Found => WarmStep::ReadLive { candidate: None, allow_identifier_refresh: false },
                ReadOutcome::Failed => WarmStep::Failed,
                _ => Self::after_live_entry(f),
            },
            (WarmStep::StableEntry, WarmReply::Read(o)) => match o {
                ReadOutcome::Found => WarmStep::ReadLive { candidate: None, allow_identifier_refresh: false },
                ReadOutcome::Ambiguous => if f.semantic_path {
                    WarmStep::StablePath
                } else {
                    WarmStep::Missed {
                        status: MissStatus::Ambiguous,
                        reason: MissReason::StableIdentifierNotUnique,
                    }
                },
                ReadOutcome::Stale => Self::after_stable(f),
                ReadOutcome::Failed => WarmStep::Failed,
            },
            (WarmStep::StablePath, WarmReply::Scan(c)) => Self::to_anchor(
                c,
                true,
                WarmStep::Missed { status: MissStatus::Ambiguous, reason: MissReason::StableIdentifierNotUnique },
                MissReason::StableIdentifierAndPathNotUnique,
            ),
            (WarmStep::PathOnly, WarmReply::Scan(c)) => Self::to_anchor(
                c,
                false,
                Self::fallback_scan(f),
                MissReason::SemanticPathNotUnique,
            ),
            (WarmStep::RoleName, WarmReply::Read(o)) => match o {
                ReadOutcome::Found => WarmStep::ReadLive { candidate: None, allow_identifier_refresh: false },
                ReadOutcome::Ambiguous => WarmStep::Missed {
                    status: MissStatus::Ambiguous,
                    reason: MissReason::RoleNameNotUnique,
                },
                ReadOutcome::Stale => Self::fallback_scan(f),
                ReadOutcome::Failed => WarmStep::Failed,
            },
            (WarmStep::PathFallback, WarmReply::Scan(c)) => Self::to_anchor(
                c,
                true,
                WarmStep::Fuzzy,
                MissReason::SemanticPathNotUnique,
            ),
            (WarmStep::Fuzzy, WarmReply::Scan(c)) => Self::to_anchor(
                c,
                true,
                WarmStep::Missed { status: MissStatus::CacheMiss, reason: MissReason::SemanticTargetStale },
                MissReason::BoundedFuzzyNotUnique,
            ),
            (WarmStep::Anchor { index, allow_identifier_refresh }, WarmReply::Read(o)) => match o {
                ReadOutcome::Found => WarmStep::ReadLive { candidate: Some(index), allow_identifier_refresh },
                ReadOutcome::Stale => WarmStep::Missed {
                    status: MissStatus::CacheMiss,
                    reason: MissReason::FreshAnchorChanged,
                },
                ReadOutcome::Ambiguous => WarmStep::Missed {
                    status: MissStatus::Ambiguous,
                    reason: MissReason::FreshAnchorAmbiguous,
                },
                ReadOutcome::Failed => WarmStep::Failed,
            },
            (WarmStep::ReadLive { candidate, allow_identifier_refresh }, WarmReply::Read(o)) => match o {
                ReadOutcome::Found => WarmStep::Verify { candidate, allow_identifier_refresh },
                ReadOutcome::Stale => WarmStep::Missed {
                    status: MissStatus::CacheMiss,
                    reason: MissReason::LiveRevalidationUnavailable,
                },
                _ => WarmStep::Failed,
            },
            _ => self,
        }
    }
}

/// `finish_handle` after the live read: the live element stands as the target only when
/// it still matches the recipe's identity, yields an entry in the window, and relearns a
/// usable recipe; the refreshed profile keeps the profile's surface.
pub open spec fn finish_outcome(
    p: ProfileView,
    w: WindowInfo,
    surface: SnapshotSurface,
    live: LiveElement,
    path: Seq<usize>,
    display: Seq<Seq<char>>,
    allow_identifier_refresh: bool,
) -> Result<(EntryView, ProfileView), (MissStatus, MissReason)> {
    if !matches_live_spec(p.selector, live, allow_identifier_refresh) {
        Err((MissStatus::Invalidated, MissReason::LiveIdentityMismatch))
    } else {
        match live_entry_spec(w, surface, live, path) {
            None => Err((MissStatus::Invalidated, MissReason::LiveGenerationUnusable)),
            Some(e) => match profile_of(w, p.surface, e, display) {
                None => Err((MissStatus::Invalidated, MissReason::RefreshedSelectorInvalid)),
                Some(np) => Ok((e, np)),
            },
        }
    }
}

/// `finish_handle` after the live read.
pub fn finish_live(
    profile: &AppProfile,
    window: &WindowInfo,
    surface: SnapshotSurface,
    live: &LiveElement,
    path: RefPath,
    display_path: &Vec<String>,
    allow_identifier_refresh: bool,
) -> (r: Result<(RefEntry, AppProfile), (MissStatus, MissReason)>)
    ensures
        match finish_outcome(
            profile@,
            *window,
            surface,
            *live,
            path.steps@,
            text_views(display_path@),
            allow_identifier_refresh,
        ) {
            Ok((e, p)) => r matches Ok((re, rp)) && re@ == e && rp@ == p,
            Err(m) => r == Err::<(RefEntry, AppProfile), (MissStatus, MissReason)>(m),
        },
{
    if !profile.selector().matches_live(live, allow_identifier_refresh) {
        return Err((MissStatus::Invalidated, MissReason::LiveIdentityMismatch));
    }
    let entry = match entry_from_live(window, surface, live, path) {
        Some(e) => e,
        None => return Err((MissStatus::Invalidated, MissReason::LiveGenerationUnusable)),
    };
    let refreshed = match profile.refreshed(window, &entry, Some(display_path)) {
        Some(p) => p,
        None => return Err((MissStatus::Invalidated, MissReason::RefreshedSelectorInvalid)),
    };
    Ok((entry, refreshed))
}


/// The name a warm target is reported under: its known name, else its value, else its
/// known description, else `(unnamed <role>)`.
pub open spec fn display_name_of(live: LiveElement) -> Seq<char> {
    match known_text(live.identity.name) {
        Some(n) => n,
        None => match opt_text(live.state.value) {
            Some(v) => v,
            None => match known_text(live.identity.description) {
                Some(d) => d,
                None => "(unnamed "@ + live.state.role@ + ")"@,
            },
        },
    }
}

/// `resolution_from_live`'s name of the target.
pub fn live_display_name(live: &LiveElement) -> (r: String)
    ensures
        r@ == display_name_of(*live),
{
    match live.identity.name.known() {
        Some(n) => n.clone(),
        None => match &live.state.value {
            Some(v) => v.clone(),
            None => match live.identity.description.known() {
                Some(d) => d.clone(),
                None => {
                    let a = concat("(unnamed ", live.state.role.as_str());
                    concat(a.as_str(), ")")
                },
            },
        },
    }
}

/// How far a step is along the revalidation.
pub open spec fn warm_rank(s: WarmStep) -> nat {
    match s {
        WarmStep::LiveEntry => 0,
        WarmStep::StableEntry => 1,
        WarmStep::StablePath => 2,
        WarmStep::PathOnly => 2,
        WarmStep::RoleName => 3,
        WarmStep::PathFallback => 4,
        WarmStep::Fuzzy => 5,
        WarmStep::Anchor { .. } => 6,
        WarmStep::ReadLive { .. } => 7,
        _ => 8,
    }
}

/// Every reply moves a warm revalidation strictly forward, so it ends after at most
/// eight provider reads.
pub proof fn lemma_warm_revalidation_progresses(f: WarmFlags, s: WarmStep, r: WarmReply)
    requires
        reply_fits(s, r),
    ensures
        warm_rank(s) < warm_rank(warm_next(f, s, r)) <= 8,
        warm_rank(warm_first(f)) <= 5,
{
}

/// A scan that leaves several candidates never leads to a target: the revalidation ends
/// as ambiguous.
pub proof fn lemma_ambiguous_scan_fails_closed(f: WarmFlags, s: WarmStep)
    requires
        is_scan_step(s),
    ensures
        warm_next(f, s, WarmReply::Scan(CandidateSearch::Ambiguous)) matches WarmStep::Missed { status, .. }
            && status == MissStatus::Ambiguous,
{
}

/// An incomplete or truncated scan never yields a candidate.
pub proof fn lemma_incomplete_scan_has_no_candidate(scan: ScanResult, keep: spec_fn(ScanMatch) -> bool)
    requires
        !scan.complete || scan.truncated,
    ensures
        scan_candidates(scan, keep) == CandidateSearch::Empty,
{
}

/// A provider failure during any read ends the revalidation as failed.
pub proof fn lemma_provider_failure_propagates(f: WarmFlags, s: WarmStep)
    requires
        reply_fits(s, WarmReply::Read(ReadOutcome::Failed)),
    ensures
        warm_next(f, s, WarmReply::Read(ReadOutcome::Failed)) == WarmStep::Failed,
{
}

/// A live element becomes the target only when it still matches the recipe's identity,
/// and the refreshed profile is the one relearned from it in the window.
pub proof fn lemma_target_requires_matching_identity(
    p: ProfileView,
    w: WindowInfo,
    surface: SnapshotSurface,
    live: LiveElement,
    path: Seq<usize>,
    display: Seq<Seq<char>>,
    allow: bool,
)
    requires
        finish_outcome(p, w, surface, live, path, display, allow) is Ok,
    ensures
        matches_live_spec(p.selector, live, allow),
        live_entry_spec(w, surface, live, path) == Some(finish_outcome(p, w, surface, live, path, display, allow)->Ok_0.0),
        profile_of(w, p.surface, finish_outcome(p, w, surface, live, path, display, allow)->Ok_0.0, display) == Some(
            finish_outcome(p, w, surface, live, path, display, allow)->Ok_0.1,
        ),
{
}

proof fn lemma_hits_are_kept(ms: Seq<ScanMatch>, keep: spec_fn(ScanMatch) -> bool)
    requires
        ms.len() <= usize::MAX,
    ensures
        forall|j: int| 0 <= j < hits(ms, keep).len() ==> (#[trigger] hits(ms, keep)[j]) < ms.len() && keep(
            ms[hits(ms, keep)[j] as int],
        ),
    decreases ms.len(),
{
    if ms.len() > 0 {
        lemma_hits_are_kept(ms.drop_last(), keep);
        let h = hits(ms.drop_last(), keep);
        assert forall|j: int| 0 <= j < hits(ms, keep).len() implies (#[trigger] hits(ms, keep)[j]) < ms.len() && keep(
            ms[hits(ms, keep)[j] as int],
        ) by {
            if keep(ms.last()) {
                assert(hits(ms, keep) == h.push((ms.len() - 1) as usize));
            } else {
                assert(hits(ms, keep) == h);
            }
            if j < h.len() {
                assert(hits(ms, keep)[j] == h[j]);
                assert(ms.drop_last()[h[j] as int] == ms[h[j] as int]);
            } else {
                assert(hits(ms, keep)[j] == (ms.len() - 1) as usize);
                assert(ms[ms.len() - 1] == ms.last());
            }
        }
    }
}

/// The fuzzy search never leaves the recipe's semantic path: when the recipe has one,
/// the single candidate it hands out is a match of the scan whose display path
/// normalizes to that path, and whose name is within one edit of the recipe's name.
pub proof fn lemma_fuzzy_candidate_stays_on_path(v: RecipeView, scan: ScanResult)
    requires
        scan.matches@.len() <= usize::MAX,
    ensures
        scan_candidates(scan, |m: ScanMatch| fuzzy_hit(v, m)) matches CandidateSearch::One(i) ==> {
            &&& i < scan.matches@.len()
            &&& v.semantic_path.len() > 0 ==> path_matches_spec(v, text_views(scan.matches@[i as int].path@))
            &&& v.normalized_name matches Some(expected) && one_edit_apart(
                expected,
                normalized(scan.matches@[i as int].name@),
            )
        },
{
    lemma_hits_are_kept(scan.matches@, |m: ScanMatch| fuzzy_hit(v, m));
}

/// The path search hands out only a match whose display path normalizes to the
/// recipe's semantic path.
pub proof fn lemma_path_candidate_is_on_path(v: RecipeView, scan: ScanResult)
    requires
        scan.matches@.len() <= usize::MAX,
    ensures
        scan_candidates(scan, |m: ScanMatch| path_hit(v, m)) matches CandidateSearch::One(i) ==> i
            < scan.matches@.len() && path_matches_spec(v, text_views(scan.matches@[i as int].path@)),
{
    lemma_hits_are_kept(scan.matches@, |m: ScanMatch| path_hit(v, m));
}

} // verus!
