//! The rules of the compact agent API (`desktop.observe`, `desktop.execute`,
//! `desktop.run`): which tools exist, which commands observation may run, the bounds a
//! plan must respect before any side effect, workflow names, and the verification
//! summary of a compound run.
use vstd::prelude::*;

use crate::text::{text_eq, to_chars, trim, trim_text, utf8_len};

verus! {

/// The compact API's version.
pub const API_VERSION: u64 = 1;

/// The plan timeout when none is given, in milliseconds.
pub const DEFAULT_TIMEOUT_MS: u64 = 60000;

/// Longest workflow name after trimming, in bytes.
pub const MAX_WORKFLOW_NAME_BYTES: usize = 128;

/// Most steps one compact call may hold.
pub const MAX_STEPS: usize = 64;

/// Longest assertion JSON Pointer, in characters.
pub const MAX_ASSERTION_JSON_POINTER_CHARS: usize = 256;

/// The compact tools.
pub open spec fn compact_tools() -> Seq<Seq<char>> {
    seq!["desktop.observe"@, "desktop.execute"@, "desktop.run"@]
}

/// `is_compact_tool`.
pub fn is_compact_tool(name: &str) -> (r: bool)
    ensures
        r == compact_tools().contains(name@),
{
    let r = text_eq(name, "desktop.observe") || text_eq(name, "desktop.execute") || text_eq(name, "desktop.run");
    proof {
        let t = compact_tools();
        if t.contains(name@) {
            let i = choose|i: int| 0 <= i < t.len() && t[i] == name@;
            assert(i == 0 || i == 1 || i == 2);
        }
        if r {
            if name@ == "desktop.observe"@ {
                assert(t[0] == name@);
            } else if name@ == "desktop.execute"@ {
                assert(t[1] == name@);
            } else {
                assert(t[2] == name@);
            }
        }
    }
    r
}

/// Which compact tool a name is.
#[derive(Clone, Copy, Debug, PartialEq, Eq, Structural)]
pub enum CompactTool {
    Observe,
    Execute,
    Run,
}

/// `invoke`'s routing: the compact tool of a name, if any.
pub fn compact_tool(name: &str) -> (r: Option<CompactTool>)
    ensures
        r == if name@ == "desktop.observe"@ {
            Some(CompactTool::Observe)
        } else if name@ == "desktop.execute"@ {
            Some(CompactTool::Execute)
        } else if name@ == "desktop.run"@ {
            Some(CompactTool::Run)
        } else {
            None::<CompactTool>
        },
{
    if text_eq(name, "desktop.observe") {
        Some(CompactTool::Observe)
    } else if text_eq(name, "desktop.execute") {
        Some(CompactTool::Execute)
    } else if text_eq(name, "desktop.run") {
        Some(CompactTool::Run)
    } else {
        None
    }
}

/// `description`: the description of a compact tool.
pub fn description(name: &str) -> (r: &'static str)
    ensures
        r@ == match compact_tool_spec(name@) {
            Some(CompactTool::Observe) => "Read a bounded, targeted slice of desktop state without returning a full accessibility tree by default."@,
            Some(CompactTool::Execute) => "Execute one or more semantic desktop steps through the compound safety engine with conditions, deadlines, and verification."@,
            Some(CompactTool::Run) => "Run a named reusable semantic workflow through the same compound safety engine; persistence and durable jobs are intentionally out of scope for this API version."@,
            None => "Unknown compact agent API tool."@,
        },
{
    match compact_tool(name) {
        Some(CompactTool::Observe) => "Read a bounded, targeted slice of desktop state without returning a full accessibility tree by default.",
        Some(CompactTool::Execute) => "Execute one or more semantic desktop steps through the compound safety engine with conditions, deadlines, and verification.",
        Some(CompactTool::Run) => "Run a named reusable semantic workflow through the same compound safety engine; persistence and durable jobs are intentionally out of scope for this API version.",
        None => "Unknown compact agent API tool.",
    }
}

/// The compact tool of a name, if any.
pub open spec fn compact_tool_spec(name: Seq<char>) -> Option<CompactTool> {
    if name == "desktop.observe"@ {
        Some(CompactTool::Observe)
    } else if name == "desktop.execute"@ {
        Some(CompactTool::Execute)
    } else if name == "desktop.run"@ {
        Some(CompactTool::Run)
    } else {
        None
    }
}

/// The targeted read-only commands `desktop.observe` may run.
pub open spec fn observe_commands() -> Seq<Seq<char>> {
    seq![
        "find"@,
        "get"@,
        "is"@,
        "list-windows"@,
        "list-apps"@,
        "list-surfaces"@,
        "list-notifications"@,
        "clipboard-get"@,
        "status"@,
        "permissions"@,
        "version"@,
    ]
}

/// The targeted read-only commands `desktop.observe` may run, in order.
pub fn observe_command_list() -> (r: Vec<&'static str>)
    ensures
        r@.map_values(|s: &'static str| s@) == observe_commands(),
{
    let r = vec![
        "find",
        "get",
        "is",
        "list-windows",
        "list-apps",
        "list-surfaces",
        "list-notifications",
        "clipboard-get",
        "status",
        "permissions",
        "version",
    ];
    assert(r@.map_values(|s: &'static str| s@) =~= observe_commands());
    r
}

/// `observe`'s allow-list: full snapshots, screenshots and mutations are not observation.
pub fn is_observe_command(command: &str) -> (r: bool)
    ensures
        r == observe_commands().contains(command@),
{
    let list = observe_command_list();
    let ghost views = list@.map_values(|s: &'static str| s@);
    let mut i: usize = 0;
    while i < list.len()
        invariant
            i <= list.len(),
            views == list@.map_values(|s: &'static str| s@),
            views == observe_commands(),
            forall|q: int| 0 <= q < i ==> views[q] != command@,
        decreases list.len() - i,
    {
        if text_eq(list[i], command) {
            assert(views[i as int] == command@);
            return true;
        }
        i = i + 1;
    }
    proof {
        if views.contains(command@) {
            let q = choose|q: int| 0 <= q < views.len() && views[q] == command@;
        }
    }
    false
}

/// Why a compact plan was refused before any side effect.
#[derive(Clone, Copy, Debug, PartialEq, Eq, Structural)]
pub enum BoundsError {
    /// No step.
    NoSteps,
    /// More than `MAX_STEPS` steps.
    TooManySteps,
    /// A plan timeout of zero.
    ZeroPlanTimeout,
    /// A step timeout of zero, at a step.
    ZeroStepTimeout { index: usize },
    /// An assertion pointer longer than `MAX_ASSERTION_JSON_POINTER_CHARS` characters, at a
    /// step (`verify` tells which assertion).
    PointerTooLong { index: usize, verify: bool },
}

/// What `execution_bounds` reads of a step: its numeric timeout, and the pointers of
/// its condition and verification.
#[derive(Clone, Debug)]
pub struct StepBounds {
    pub timeout_ms: Option<u64>,
    pub condition_pointer: Option<String>,
    pub verify_pointer: Option<String>,
}

/// A pointer that exceeds the character limit.
pub open spec fn pointer_too_long(p: Option<String>) -> bool {
    match p {
        Some(s) => s@.len() > MAX_ASSERTION_JSON_POINTER_CHARS,
        None => false,
    }
}

/// The first refusal a step raises: a zero timeout, then an overlong condition pointer,
/// then an overlong verification pointer.
pub open spec fn step_error(s: StepBounds, index: usize) -> Option<BoundsError> {
    if s.timeout_ms == Some(0u64) {
        Some(BoundsError::ZeroStepTimeout { index })
    } else if pointer_too_long(s.condition_pointer) {
        Some(BoundsError::PointerTooLong { index, verify: false })
    } else if pointer_too_long(s.verify_pointer) {
        Some(BoundsError::PointerTooLong { index, verify: true })
    } else {
        None
    }
}

/// The first refusal met among the first `n` steps.
pub open spec fn first_step_error(steps: Seq<StepBounds>, n: int) -> Option<BoundsError>
    decreases n,
{
    if n <= 0 {
        None
    } else {
        match first_step_error(steps, n - 1) {
            Some(e) => Some(e),
            None => step_error(steps[n - 1], (n - 1) as usize),
        }
    }
}

/// The refusal of a plan, if any: no steps, too many, a zero plan timeout, or the first
/// step refusal in order.
pub open spec fn bounds_error(steps: Seq<StepBounds>, timeout_ms: u64) -> Option<BoundsError> {
    if steps.len() == 0 {
        Some(BoundsError::NoSteps)
    } else if steps.len() > MAX_STEPS {
        Some(BoundsError::TooManySteps)
    } else if timeout_ms == 0 {
        Some(BoundsError::ZeroPlanTimeout)
    } else {
        first_step_error(steps, steps.len() as int)
    }
}

proof fn lemma_first_step_error_sticks(steps: Seq<StepBounds>, n: int, m: int)
    requires
        0 <= n <= m,
        first_step_error(steps, n) is Some,
    ensures
        first_step_error(steps, m) == first_step_error(steps, n),
    decreases m - n,
{
    if m > n {
        lemma_first_step_error_sticks(steps, n, m - 1);
    }
}

fn too_long(p: &Option<String>) -> (r: bool)
    ensures
        r == pointer_too_long(*p),
{
    match p {
        Some(s) => to_chars(s.as_str()).len() > MAX_ASSERTION_JSON_POINTER_CHARS,
        None => false,
    }
}

/// `execution_bounds`: the runtime bounds a compact plan must respect before any side
/// effect.
pub fn execution_bounds(steps: &Vec<StepBounds>, timeout_ms: u64) -> (r: Result<(), BoundsError>)
    ensures
        match bounds_error(steps@, timeout_ms) {
            Some(e) => r == Err::<(), BoundsError>(e),
            None => r is Ok,
        },
{
    if steps.len() == 0 {
        return Err(BoundsError::NoSteps);
    }
    if steps.len() > MAX_STEPS {
        return Err(BoundsError::TooManySteps);
    }
    if timeout_ms == 0 {
        return Err(BoundsError::ZeroPlanTimeout);
    }
    let mut i: usize = 0;
    while i < steps.len()
        invariant
            i <= steps.len(),
            0 < steps.len() <= MAX_STEPS,
            timeout_ms != 0,
            first_step_error(steps@, i as int) is None,
        decreases steps.len() - i,
    {
        let step = &steps[i];
        assert(first_step_error(steps@, i + 1) == step_error(steps@[i as int], i));
        if step.timeout_ms == Some(0u64) {
            proof { lemma_first_step_error_sticks(steps@, i + 1, steps@.len() as int); }
            return Err(BoundsError::ZeroStepTimeout { index: i });
        }
        if too_long(&step.condition_pointer) {
            proof { lemma_first_step_error_sticks(steps@, i + 1, steps@.len() as int); }
            return Err(BoundsError::PointerTooLong { index: i, verify: false });
        }
        if too_long(&step.verify_pointer) {
            proof { lemma_first_step_error_sticks(steps@, i + 1, steps@.len() as int); }
            return Err(BoundsError::PointerTooLong { index: i, verify: true });
        }
        i = i + 1;
    }
    Ok(())
}

/// The workflow name is refused: it must be 1 to `MAX_WORKFLOW_NAME_BYTES` bytes after
/// trimming.
#[derive(Clone, Copy, Debug, PartialEq, Eq, Structural)]
pub struct WorkflowNameError;

/// `validate_workflow_name`: the trimmed name, when it has 1 to
/// `MAX_WORKFLOW_NAME_BYTES` bytes.
pub fn validate_workflow_name(workflow: &str) -> (r: Result<String, WorkflowNameError>)
    ensures
        r is Ok <==> (trim(workflow@).len() > 0 && utf8_len(trim(workflow@)) <= MAX_WORKFLOW_NAME_BYTES),
        r matches Ok(name) ==> name@ == trim(workflow@),
{
    let trimmed = trim_text(workflow);
    let bytes = trimmed.as_str().as_bytes().len();
    if trimmed.as_str().is_empty() || bytes > MAX_WORKFLOW_NAME_BYTES {
        return Err(WorkflowNameError);
    }
    Ok(trimmed)
}

/// What the verification summary reads of one batch result entry: whether it carries a
/// passed compound verification, and the kind of its error, if any.
#[derive(Clone, Debug)]
pub struct ResultMark {
    pub verified: bool,
    pub error_kind: Option<String>,
}

/// The state of a verification summary.
#[derive(Clone, Copy, Debug, PartialEq, Eq, Structural)]
pub enum VerificationState {
    NotRequested,
    Passed,
    Failed,
    Incomplete,
}

impl VerificationState {
    /// The state as the API reports it.
    pub fn as_str(&self) -> (r: &'static str)
        ensures
            r@ == match self {
                VerificationState::NotRequested => "not_requested"@,
                VerificationState::Passed => "passed"@,
                VerificationState::Failed => "failed"@,
                VerificationState::Incomplete => "incomplete"@,
            },
    {
        match self {
            VerificationState::NotRequested => "not_requested",
            VerificationState::Passed => "passed",
            VerificationState::Failed => "failed",
            VerificationState::Incomplete => "incomplete",
        }
    }
}

/// `verification_summary`: how many steps asked for verification, passed and failed.
#[derive(Clone, Copy, Debug, PartialEq, Eq, Structural)]
pub struct VerificationSummary {
    pub state: VerificationState,
    pub requested: usize,
    pub passed: usize,
    pub failed: usize,
}

/// The error kinds of compound verification failures.
pub open spec fn is_verification_failure(kind: Seq<char>) -> bool {
    "compound_verification_"@.len() <= kind.len() && kind.take(22) == "compound_verification_"@
}

/// Whether a result entry failed its compound verification.
pub open spec fn failed_mark(m: ResultMark) -> bool {
    match m.error_kind {
        Some(k) => is_verification_failure(k@),
        None => false,
    }
}

/// The number of steps that asked for verification.
pub open spec fn count_true(s: Seq<bool>) -> nat
    decreases s.len(),
{
    if s.len() == 0 {
        0
    } else {
        count_true(s.drop_last()) + if s.last() { 1nat } else { 0nat }
    }
}

/// The number of result entries with a passed verification.
pub open spec fn count_passed(s: Seq<ResultMark>) -> nat
    decreases s.len(),
{
    if s.len() == 0 {
        0
    } else {
        count_passed(s.drop_last()) + if s.last().verified { 1nat } else { 0nat }
    }
}

/// The number of result entries that failed verification.
pub open spec fn count_failed(s: Seq<ResultMark>) -> nat
    decreases s.len(),
{
    if s.len() == 0 {
        0
    } else {
        count_failed(s.drop_last()) + if failed_mark(s.last()) { 1nat } else { 0nat }
    }
}

/// `str::starts_with("compound_verification_")`.
pub fn is_verification_failure_kind(kind: &str) -> (r: bool)
    ensures
        r == is_verification_failure(kind@),
{
    let prefix = to_chars("compound_verification_");
    let chars = to_chars(kind);
    proof {
        reveal_strlit("compound_verification_");
    }
    if chars.len() < prefix.len() {
        return false;
    }
    let mut i: usize = 0;
    while i < prefix.len()
        invariant
            i <= prefix.len(),
            prefix.len() == 22,
            prefix@ == "compound_verification_"@,
            chars@ == kind@,
            chars.len() >= 22,
            forall|q: int| 0 <= q < i ==> chars@[q] == prefix@[q],
        decreases prefix.len() - i,
    {
        if chars[i] != prefix[i] {
            assert(kind@.take(22)[i as int] != "compound_verification_"@[i as int]);
            return false;
        }
        i = i + 1;
    }
    assert(kind@.take(22) =~= "compound_verification_"@);
    true
}

/// `verification_summary`: `not_requested` when no step asked for verification; else
/// `passed` when every requested verification passed, `failed` when any failed, and
/// `incomplete` otherwise.
pub fn verification_summary(requested_flags: &Vec<bool>, results: &Vec<ResultMark>) -> (r: VerificationSummary)
    ensures
        r.requested == count_true(requested_flags@),
        count_true(requested_flags@) == 0 ==> r == (VerificationSummary {
            state: VerificationState::NotRequested,
            requested: 0,
            passed: 0,
            failed: 0,
        }),
        count_true(requested_flags@) > 0 ==> {
            &&& r.passed == count_passed(results@)
            &&& r.failed == count_failed(results@)
            &&& r.state == if r.passed == r.requested {
                VerificationState::Passed
            } else if r.failed > 0 {
                VerificationState::Failed
            } else {
                VerificationState::Incomplete
            }
        },
{
    let mut requested: usize = 0;
    let mut i: usize = 0;
    while i < requested_flags.len()
        invariant
            i <= requested_flags.len(),
            requested == count_true(requested_flags@.take(i as int)),
            requested <= i,
        decreases requested_flags.len() - i,
    {
        assert(requested_flags@.take(i + 1).drop_last() =~= requested_flags@.take(i as int));
        if requested_flags[i] {
            requested = requested + 1;
        }
        i = i + 1;
    }
    assert(requested_flags@.take(i as int) =~= requested_flags@);
    if requested == 0 {
        return VerificationSummary { state: VerificationState::NotRequested, requested: 0, passed: 0, failed: 0 };
    }
    let mut passed: usize = 0;
    let mut failed: usize = 0;
    let mut j: usize = 0;
    while j < results.len()
        invariant
            j <= results.len(),
            passed == count_passed(results@.take(j as int)),
            failed == count_failed(results@.take(j as int)),
            passed <= j,
            failed <= j,
        decreases results.len() - j,
    {
        assert(results@.take(j + 1).drop_last() =~= results@.take(j as int));
        if results[j].verified {
            passed = passed + 1;
        }
        let is_failed = match &results[j].error_kind {
            Some(k) => is_verification_failure_kind(k.as_str()),
            None => false,
        };
        if is_failed {
            failed = failed + 1;
        }
        j = j + 1;
    }
    assert(results@.take(j as int) =~= results@);
    let state = if passed == requested {
        VerificationState::Passed
    } else if failed > 0 {
        VerificationState::Failed
    } else {
        VerificationState::Incomplete
    };
    VerificationSummary { state, requested, passed, failed }
}

} // verus!
