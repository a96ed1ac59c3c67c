//! Batch plans: the limits and preflight rules a plan must pass before any side effect,
//! and the sequential run of its entries, decided one provider reply at a time.
//!
//! A run never retries or replays an entry: every entry is handled once, in order, and a
//! stop ends the run for good.
use vstd::prelude::*;

use crate::text::{to_chars, utf8_len};

verus! {

/// Largest batch JSON input, in bytes.
pub const MAX_BATCH_JSON_BYTES: usize = 1024 * 1024;

/// Most entries a batch may hold.
pub const MAX_BATCH_ENTRIES: usize = 64;

/// Longest assertion JSON Pointer, in bytes.
pub const MAX_ASSERTION_POINTER_BYTES: usize = 256;

/// Why a plan was refused before any side effect.
#[derive(Clone, Copy, Debug, PartialEq, Eq, Structural)]
pub enum PlanError {
    InputTooLarge,
    TooManyEntries,
    InvalidPointer,
    MutatingAssertion,
    CoordinateOnly,
}

/// `prepare`, first limit: the JSON input must fit `MAX_BATCH_JSON_BYTES`.
pub fn check_input_size(bytes: usize) -> (r: Result<(), PlanError>)
    ensures
        r is Err <==> bytes > MAX_BATCH_JSON_BYTES,
        r matches Err(e) ==> e == PlanError::InputTooLarge,
{
    if bytes > MAX_BATCH_JSON_BYTES {
        Err(PlanError::InputTooLarge)
    } else {
        Ok(())
    }
}

/// `prepare`, second limit: at most `MAX_BATCH_ENTRIES` entries.
pub fn check_entry_count(entries: usize) -> (r: Result<(), PlanError>)
    ensures
        r is Err <==> entries > MAX_BATCH_ENTRIES,
        r matches Err(e) ==> e == PlanError::TooManyEntries,
{
    if entries > MAX_BATCH_ENTRIES {
        Err(PlanError::TooManyEntries)
    } else {
        Ok(())
    }
}

/// An assertion pointer is empty, or starts with `/` and fits `MAX_ASSERTION_POINTER_BYTES`.
pub open spec fn pointer_ok(p: Seq<char>) -> bool {
    utf8_len(p) <= MAX_ASSERTION_POINTER_BYTES && (p.len() == 0 || p[0] == '/')
}

/// `validate_pointer`.
pub fn validate_pointer(pointer: &str) -> (r: Result<(), PlanError>)
    ensures
        r is Ok <==> pointer_ok(pointer@),
        r matches Err(e) ==> e == PlanError::InvalidPointer,
{
    let bytes = pointer.as_bytes().len();
    if bytes > MAX_ASSERTION_POINTER_BYTES {
        return Err(PlanError::InvalidPointer);
    }
    let chars = to_chars(pointer);
    if chars.len() > 0 && chars[0] != '/' {
        return Err(PlanError::InvalidPointer);
    }
    Ok(())
}

/// What the plan rules read of a parsed command.
#[derive(Clone, Debug, PartialEq, Eq)]
pub enum CommandShape {
    MouseMove,
    MouseClick,
    MouseDown,
    MouseUp,
    MouseWheel,
    Hover { has_ref: bool },
    Drag { has_from: bool, has_to: bool },
    Wait { waits_for_event: bool, app: Option<String> },
    Other,
}

/// `coordinate_only`: a command that targets screen coordinates rather than an element.
pub open spec fn is_coordinate_only(c: CommandShape) -> bool {
    match c {
        CommandShape::MouseMove | CommandShape::MouseClick | CommandShape::MouseDown
        | CommandShape::MouseUp | CommandShape::MouseWheel => true,
        CommandShape::Hover { has_ref } => !has_ref,
        CommandShape::Drag { has_from, has_to } => !has_from || !has_to,
        _ => false,
    }
}

/// `coordinate_only`.
pub fn coordinate_only(c: &CommandShape) -> (r: bool)
    ensures
        r == is_coordinate_only(*c),
{
    match c {
        CommandShape::MouseMove | CommandShape::MouseClick | CommandShape::MouseDown
        | CommandShape::MouseUp | CommandShape::MouseWheel => true,
        CommandShape::Hover { has_ref } => !*has_ref,
        CommandShape::Drag { has_from, has_to } => !*has_from || !*has_to,
        _ => false,
    }
}

/// `parse_one`, semantic rule: semantic compound mode refuses coordinate-only steps.
pub fn check_semantic_step(semantic_only: bool, c: &CommandShape) -> (r: Result<(), PlanError>)
    ensures
        r is Err <==> semantic_only && is_coordinate_only(*c),
        r matches Err(e) ==> e == PlanError::CoordinateOnly,
{
    if semantic_only && coordinate_only(c) {
        Err(PlanError::CoordinateOnly)
    } else {
        Ok(())
    }
}

/// `prepare_assertion`: a condition or verification has a valid pointer and a read-only
/// command.
pub fn check_assertion(pointer: &str, mutating: bool) -> (r: Result<(), PlanError>)
    ensures
        !pointer_ok(pointer@) ==> r == Err::<(), PlanError>(PlanError::InvalidPointer),
        pointer_ok(pointer@) ==> (r is Err <==> mutating),
        pointer_ok(pointer@) && mutating ==> r == Err::<(), PlanError>(PlanError::MutatingAssertion),
{
    match validate_pointer(pointer) {
        Err(e) => return Err(e),
        Ok(()) => {},
    }
    if mutating {
        Err(PlanError::MutatingAssertion)
    } else {
        Ok(())
    }
}

/// `event_filter`: the entry after which a signal baseline must be captured first.
pub open spec fn waits_for_event(c: CommandShape) -> bool {
    c matches CommandShape::Wait { waits_for_event, .. } && waits_for_event
}

/// `event_filter`: whether the next entry needs a signal baseline.
pub fn needs_baseline(next: Option<&CommandShape>) -> (r: bool)
    ensures
        r == match next {
            Some(c) => waits_for_event(*c),
            None => false,
        },
{
    match next {
        Some(CommandShape::Wait { waits_for_event, .. }) => *waits_for_event,
        _ => false,
    }
}

/// `has_compound_metadata`: a step timeout, a condition or a verification.
pub fn has_compound_metadata(timeout_ms: Option<u64>, has_condition: bool, has_verification: bool) -> (r: bool)
    ensures
        r == (timeout_ms is Some || has_condition || has_verification),
{
    timeout_ms.is_some() || has_condition || has_verification
}

/// How far a command's effect reached the desktop.
#[derive(Clone, Copy, Debug, PartialEq, Eq, Structural)]
pub enum Delivery {
    NotDelivered,
    DeliveredUnverified,
    Delivered,
    Uncertain,
}

/// Whether the command may be sent again.
#[derive(Clone, Copy, Debug, PartialEq, Eq, Structural)]
pub enum Retry {
    Safe,
    Unsafe,
}

/// The delivery disposition reported with a command's result or error.
#[derive(Clone, Copy, Debug, PartialEq, Eq, Structural)]
pub struct DeliverySemantics {
    pub delivery: Delivery,
    pub retry: Retry,
}

/// Nothing reached the desktop; sending again is safe.
pub open spec fn not_delivered_spec() -> DeliverySemantics {
    DeliverySemantics { delivery: Delivery::NotDelivered, retry: Retry::Safe }
}

/// The action reached the desktop but its effect was not confirmed; sending again is
/// unsafe.
pub open spec fn delivered_unverified_spec() -> DeliverySemantics {
    DeliverySemantics { delivery: Delivery::DeliveredUnverified, retry: Retry::Unsafe }
}

/// Whether anything reached the desktop is unknown; sending again is unsafe.
pub open spec fn uncertain_spec() -> DeliverySemantics {
    DeliverySemantics { delivery: Delivery::Uncertain, retry: Retry::Unsafe }
}

/// The wire name of a delivery.
pub open spec fn delivery_text(d: Delivery) -> Seq<char> {
    match d {
        Delivery::NotDelivered => "not_delivered"@,
        Delivery::DeliveredUnverified => "delivered_unverified"@,
        Delivery::Delivered => "delivered"@,
        Delivery::Uncertain => "uncertain"@,
    }
}

/// The wire name of a retry rule.
pub open spec fn retry_text(r: Retry) -> Seq<char> {
    match r {
        Retry::Safe => "safe"@,
        Retry::Unsafe => "unsafe"@,
    }
}

impl Delivery {
    /// The wire name.
    pub fn as_str(&self) -> (r: &'static str)
        ensures
            r@ == delivery_text(*self),
    {
        match self {
            Delivery::NotDelivered => "not_delivered",
            Delivery::DeliveredUnverified => "delivered_unverified",
            Delivery::Delivered => "delivered",
            Delivery::Uncertain => "uncertain",
        }
    }
}

impl Retry {
    /// The wire name.
    pub fn as_str(&self) -> (r: &'static str)
        ensures
            r@ == retry_text(*self),
    {
        match self {
            Retry::Safe => "safe",
            Retry::Unsafe => "unsafe",
        }
    }
}

impl DeliverySemantics {
    /// `not_delivered`.
    pub fn not_delivered() -> (r: Self)
        ensures
            r == not_delivered_spec(),
    {
        DeliverySemantics { delivery: Delivery::NotDelivered, retry: Retry::Safe }
    }

    /// `delivered_unverified`.
    pub fn delivered_unverified() -> (r: Self)
        ensures
            r == delivered_unverified_spec(),
    {
        DeliverySemantics { delivery: Delivery::DeliveredUnverified, retry: Retry::Unsafe }
    }

    /// `uncertain`.
    pub fn uncertain() -> (r: Self)
        ensures
            r == uncertain_spec(),
    {
        DeliverySemantics { delivery: Delivery::Uncertain, retry: Retry::Unsafe }
    }
}

/// The disposition of a successful command: the one it reported, else
/// `delivered_unverified` for a mutating command and `not_delivered` for a read.
pub open spec fn successful(reported: Option<DeliverySemantics>, mutating: bool) -> DeliverySemantics {
    match reported {
        Some(d) => d,
        None => if mutating {
            delivered_unverified_spec()
        } else {
            not_delivered_spec()
        },
    }
}

/// `successful_disposition`.
pub fn successful_disposition(reported: Option<DeliverySemantics>, mutating: bool) -> (r: DeliverySemantics)
    ensures
        r == successful(reported, mutating),
{
    match reported {
        Some(d) => d,
        None => if mutating {
            DeliverySemantics::delivered_unverified()
        } else {
            DeliverySemantics::not_delivered()
        },
    }
}

/// What running an entry gave: the command and, where asked for, its verification.
#[derive(Clone, Copy, Debug, PartialEq, Eq, Structural)]
pub enum EntryResult {
    /// The command succeeded (and its verification, if any, passed), with the disposition
    /// it reported, if any.
    Succeeded { reported: Option<DeliverySemantics> },
    /// The command succeeded, with the disposition it reported, if any, but its
    /// verification failed; the command is not replayed.
    VerificationFailed { reported: Option<DeliverySemantics> },
    /// The adapter failed the command with a disposition.
    AdapterFailed { disposition: DeliverySemantics },
    /// The command failed without a disposition.
    Failed,
}

/// Whether the entry counts as failed.
pub open spec fn entry_failed(r: EntryResult) -> bool {
    !(r is Succeeded)
}

/// The disposition an entry's result carries: the successful one for a success and for
/// a failed verification (the action's own), the adapter's for an adapter failure, and
/// none otherwise.
pub open spec fn entry_disposition(r: EntryResult, mutating: bool) -> Option<DeliverySemantics> {
    match r {
        EntryResult::Succeeded { reported } => Some(successful(reported, mutating)),
        EntryResult::VerificationFailed { reported } => Some(successful(reported, mutating)),
        EntryResult::AdapterFailed { disposition } => Some(disposition),
        EntryResult::Failed => None,
    }
}

/// `result_disposition`.
pub fn result_disposition(result: &EntryResult, mutating: bool) -> (r: Option<DeliverySemantics>)
    ensures
        r == entry_disposition(*result, mutating),
{
    match result {
        EntryResult::Succeeded { reported } => Some(successful_disposition(*reported, mutating)),
        EntryResult::VerificationFailed { reported } => Some(successful_disposition(*reported, mutating)),
        EntryResult::AdapterFailed { disposition } => Some(*disposition),
        EntryResult::Failed => None,
    }
}

/// What an entry still needs before its command may run.
#[derive(Clone, Copy, Debug, PartialEq, Eq, Structural)]
pub struct EntryChecks {
    /// The following entry waits for an event, so a signal baseline must be captured.
    pub needs_baseline: bool,
    /// The entry names a session, whose end must be checked.
    pub has_session: bool,
    /// The entry has a condition to check.
    pub has_condition: bool,
}

/// Where an entry stands before its command runs.
#[derive(Clone, Copy, Debug, PartialEq, Eq, Structural)]
pub enum EntryStage {
    /// The plan deadline has passed: the entry is not started.
    DeadlinePassed,
    /// Capture the signal baseline the following wait needs.
    CaptureBaseline,
    /// Check whether the entry's session has ended.
    CheckSession,
    /// Check the entry's condition.
    CheckCondition,
    /// Run the command.
    Dispatch,
    /// The baseline could not be captured: the entry is not started.
    BaselineFailed,
    /// The session has ended: the entry is not started.
    SessionEnded,
    /// The condition did not hold: the entry is not started.
    ConditionBlocked,
}

/// The check after the session check, or the command.
pub open spec fn stage_after_session(c: EntryChecks) -> EntryStage {
    if c.has_condition {
        EntryStage::CheckCondition
    } else {
        EntryStage::Dispatch
    }
}

/// The check after the baseline, or the command.
pub open spec fn stage_after_baseline(c: EntryChecks) -> EntryStage {
    if c.has_session {
        EntryStage::CheckSession
    } else {
        stage_after_session(c)
    }
}

/// The first stage of an entry: the deadline first, then the baseline, the session and
/// the condition, in that order, each only where the entry needs it.
pub open spec fn first_stage_spec(remaining_ms: u64, c: EntryChecks) -> EntryStage {
    if remaining_ms == 0 {
        EntryStage::DeadlinePassed
    } else if c.needs_baseline {
        EntryStage::CaptureBaseline
    } else {
        stage_after_baseline(c)
    }
}

/// The stage after a check: a passed check moves on, a failed one stops the entry.
pub open spec fn next_stage_spec(g: EntryStage, c: EntryChecks, passed: bool) -> EntryStage {
    match g {
        EntryStage::CaptureBaseline => if passed {
            stage_after_baseline(c)
        } else {
            EntryStage::BaselineFailed
        },
        EntryStage::CheckSession => if passed {
            stage_after_session(c)
        } else {
            EntryStage::SessionEnded
        },
        EntryStage::CheckCondition => if passed {
            EntryStage::Dispatch
        } else {
            EntryStage::ConditionBlocked
        },
        _ => g,
    }
}

impl EntryStage {
    /// The first stage of an entry, given the time left before the plan deadline.
    pub fn first(remaining_ms: u64, checks: EntryChecks) -> (r: Self)
        ensures
            r == first_stage_spec(remaining_ms, checks),
    {
        if remaining_ms == 0 {
            EntryStage::DeadlinePassed
        } else if checks.needs_baseline {
            EntryStage::CaptureBaseline
        } else if checks.has_session {
            EntryStage::CheckSession
        } else if checks.has_condition {
            EntryStage::CheckCondition
        } else {
            EntryStage::Dispatch
        }
    }

    /// The stage after this one's check passed (the baseline was captured, the session
    /// is alive, the condition holds) or failed.
    pub fn next(self, checks: EntryChecks, passed: bool) -> (r: Self)
        ensures
            r == next_stage_spec(self, checks, passed),
    {
        let after_session = if checks.has_condition {
            EntryStage::CheckCondition
        } else {
            EntryStage::Dispatch
        };
        let after_baseline = if checks.has_session {
            EntryStage::CheckSession
        } else {
            after_session
        };
        match self {
            EntryStage::CaptureBaseline => if passed {
                after_baseline
            } else {
                EntryStage::BaselineFailed
            },
            EntryStage::CheckSession => if passed {
                after_session
            } else {
                EntryStage::SessionEnded
            },
            EntryStage::CheckCondition => if passed {
                EntryStage::Dispatch
            } else {
                EntryStage::ConditionBlocked
            },
            _ => self,
        }
    }
}

/// `step_deadline`: an entry's time budget is its own timeout, capped by the time left
/// before the plan deadline.
pub fn step_timeout(entry_timeout_ms: Option<u64>, remaining_ms: u64) -> (r: u64)
    ensures
        r == match entry_timeout_ms {
            Some(t) => if t < remaining_ms {
                t
            } else {
                remaining_ms
            },
            None => remaining_ms,
        },
{
    match entry_timeout_ms {
        Some(t) => if t < remaining_ms {
            t
        } else {
            remaining_ms
        },
        None => remaining_ms,
    }
}

/// An entry reaches its command only through every check it needs, in order, each
/// passed; a failed check stops it before any side effect of the command.
pub proof fn lemma_dispatch_only_after_every_check(remaining_ms: u64, c: EntryChecks)
    ensures
        remaining_ms == 0 ==> first_stage_spec(remaining_ms, c) == EntryStage::DeadlinePassed,
        c.needs_baseline && remaining_ms > 0 ==> first_stage_spec(remaining_ms, c) == EntryStage::CaptureBaseline
            && next_stage_spec(EntryStage::CaptureBaseline, c, false) == EntryStage::BaselineFailed,
        c.has_condition ==> next_stage_spec(EntryStage::CheckCondition, c, false) == EntryStage::ConditionBlocked
            && stage_after_baseline(c) != EntryStage::Dispatch && stage_after_session(c) != EntryStage::Dispatch,
        c.has_session ==> stage_after_baseline(c) == EntryStage::CheckSession
            && next_stage_spec(EntryStage::CheckSession, c, false) == EntryStage::SessionEnded,
{
}

/// Why a run stopped early.
#[derive(Clone, Copy, Debug, PartialEq, Eq, Structural)]
pub enum StopReason {
    /// The plan deadline passed before the entry started.
    Deadline,
    /// The plan deadline passed after the entry, with entries left.
    DeadlineAfter,
    /// The signal baseline for a following wait could not be captured.
    PreActionBaselineFailed,
    /// An entry failed and the plan stops on errors.
    StopOnError,
    /// The results reached their output limit.
    OutputLimit,
}

/// The phase in which a stopping entry failed.
#[derive(Clone, Copy, Debug, PartialEq, Eq, Structural)]
pub enum StopPhase {
    Condition,
    Command,
    Verification,
    SessionEnded,
}

/// How a run stopped: why, at which entry, in which phase, and (for a baseline failure)
/// which wait entry needed it.
#[derive(Clone, Copy, Debug, PartialEq, Eq, Structural)]
pub struct Stop {
    pub reason: StopReason,
    pub index: usize,
    pub phase: Option<StopPhase>,
    pub wait_index: Option<usize>,
}

/// The plain values of a run.
#[derive(Clone, Copy, Debug, PartialEq, Eq, Structural)]
pub struct RunState {
    pub total: usize,
    pub stop_on_error: bool,
    pub next: usize,
    pub completed: usize,
    pub stopped: Option<Stop>,
}

/// A run's invariant: entries are handled in order, each at most once, and no more
/// entries completed than were handled.
pub open spec fn run_inv(s: RunState) -> bool {
    s.next <= s.total && s.completed <= s.next
}

/// Whether a run has ended: every entry handled, or stopped.
pub open spec fn run_done(s: RunState) -> bool {
    s.next >= s.total || s.stopped is Some
}

/// The run after the entry under way was not started; it stops when told to.
pub open spec fn skip_entry(s: RunState, stop: Option<Stop>) -> RunState {
    RunState { next: (s.next + 1) as usize, stopped: stop, ..s }
}

/// The sequential run of a batch plan.
pub struct BatchRun {
    state: RunState,
}

impl View for BatchRun {
    type V = RunState;

    closed spec fn view(&self) -> RunState {
        self.state
    }
}

impl BatchRun {
    /// A run of `total` entries, none handled yet.
    pub fn new(total: usize, stop_on_error: bool) -> (r: Self)
        ensures
            r@ == (RunState { total, stop_on_error, next: 0, completed: 0, stopped: None }),
            run_inv(r@),
    {
        BatchRun { state: RunState { total, stop_on_error, next: 0, completed: 0, stopped: None } }
    }

    /// The entry to handle next, when the run has not ended.
    pub fn current(&self) -> (r: Option<usize>)
        ensures
            r == if run_done(self@) {
                None::<usize>
            } else {
                Some(self@.next)
            },
    {
        if self.state.next >= self.state.total || self.state.stopped.is_some() {
            None
        } else {
            Some(self.state.next)
        }
    }

    /// How the run stopped, if it did.
    pub fn stopped(&self) -> (r: Option<Stop>)
        ensures
            r == self@.stopped,
    {
        self.state.stopped
    }

    /// How many entries ran.
    pub fn completed(&self) -> (r: usize)
        ensures
            r == self@.completed,
    {
        self.state.completed
    }

    /// How many entries the plan has.
    pub fn total(&self) -> (r: usize)
        ensures
            r == self@.total,
    {
        self.state.total
    }

    /// The plan deadline passed before the entry started: it is not started and the run
    /// stops.
    pub fn deadline_passed(&mut self) -> (r: DeliverySemantics)
        requires
            run_inv(old(self)@),
            !run_done(old(self)@),
        ensures
            r == not_delivered_spec(),
            run_inv(final(self)@),
            final(self)@ == skip_entry(
                old(self)@,
                Some(Stop { reason: StopReason::Deadline, index: old(self)@.next, phase: None, wait_index: None }),
            ),
    {
        let index = self.state.next;
        self.state.stopped = Some(Stop { reason: StopReason::Deadline, index, phase: None, wait_index: None });
        self.state.next = index + 1;
        DeliverySemantics::not_delivered()
    }

    /// The baseline for the following wait entry failed: the entry is not started and
    /// the run stops.
    pub fn baseline_failed(&mut self) -> (r: DeliverySemantics)
        requires
            run_inv(old(self)@),
            !run_done(old(self)@),
        ensures
            r == not_delivered_spec(),
            run_inv(final(self)@),
            final(self)@ == skip_entry(
                old(self)@,
                Some(Stop {
                    reason: StopReason::PreActionBaselineFailed,
                    index: old(self)@.next,
                    phase: None,
                    wait_index: Some((old(self)@.next + 1) as usize),
                }),
            ),
    {
        let index = self.state.next;
        self.state.stopped = Some(
            Stop {
                reason: StopReason::PreActionBaselineFailed,
                index,
                phase: None,
                wait_index: Some(index + 1),
            },
        );
        self.state.next = index + 1;
        DeliverySemantics::not_delivered()
    }

    /// The entry's session has ended: it is not started; the run stops when it stops
    /// on errors.
    pub fn session_ended(&mut self) -> (r: DeliverySemantics)
        requires
            run_inv(old(self)@),
            !run_done(old(self)@),
        ensures
            r == not_delivered_spec(),
            run_inv(final(self)@),
            final(self)@ == skip_entry(
                old(self)@,
                if old(self)@.stop_on_error {
                    Some(Stop { reason: StopReason::StopOnError, index: old(self)@.next, phase: None, wait_index: None })
                } else {
                    None
                },
            ),
    {
        let index = self.state.next;
        if self.state.stop_on_error {
            self.state.stopped = Some(Stop { reason: StopReason::StopOnError, index, phase: None, wait_index: None });
        }
        self.state.next = index + 1;
        DeliverySemantics::not_delivered()
    }

    /// The entry's condition did not hold (or could not be checked): it is not started;
    /// the run stops when it stops on errors.
    pub fn condition_blocked(&mut self) -> (r: DeliverySemantics)
        requires
            run_inv(old(self)@),
            !run_done(old(self)@),
        ensures
            r == not_delivered_spec(),
            run_inv(final(self)@),
            final(self)@ == skip_entry(
                old(self)@,
                if old(self)@.stop_on_error {
                    Some(
                        Stop {
                            reason: StopReason::StopOnError,
                            index: old(self)@.next,
                            phase: Some(StopPhase::Condition),
                            wait_index: None,
                        },
                    )
                } else {
                    None
                },
            ),
    {
        let index = self.state.next;
        if self.state.stop_on_error {
            self.state.stopped = Some(
                Stop { reason: StopReason::StopOnError, index, phase: Some(StopPhase::Condition), wait_index: None },
            );
        }
        self.state.next = index + 1;
        DeliverySemantics::not_delivered()
    }

    /// The entry ran (once; it is never replayed). The run stops when its result was cut
    /// for the output limit, when it failed and the plan stops on errors, or when the
    /// plan deadline has passed and entries are left.
    pub fn dispatched(&mut self, result: &EntryResult, mutating: bool, oversized: bool, deadline_passed: bool) -> (r:
        Option<DeliverySemantics>)
        requires
            run_inv(old(self)@),
            !run_done(old(self)@),
        ensures
            run_inv(final(self)@),
            final(self)@ == (RunState {
                next: (old(self)@.next + 1) as usize,
                completed: (old(self)@.completed + 1) as usize,
                stopped: dispatch_stop(
                    old(self)@,
                    entry_failed(*result),
                    *result is VerificationFailed,
                    oversized,
                    deadline_passed,
                ),
                ..old(self)@
            }),
            r == entry_disposition(*result, mutating),
    {
        let failed = match result {
            EntryResult::Succeeded { .. } => false,
            _ => true,
        };
        let verification_failed = match result {
            EntryResult::VerificationFailed { .. } => true,
            _ => false,
        };
        let index = self.state.next;
        self.state.completed = self.state.completed + 1;
        self.state.next = index + 1;
        self.state.stopped = if oversized {
            Some(Stop { reason: StopReason::OutputLimit, index, phase: None, wait_index: None })
        } else if failed && self.state.stop_on_error {
            Some(
                Stop {
                    reason: StopReason::StopOnError,
                    index,
                    phase: Some(if verification_failed { StopPhase::Verification } else { StopPhase::Command }),
                    wait_index: None,
                },
            )
        } else if deadline_passed && index + 1 < self.state.total {
            Some(Stop { reason: StopReason::DeadlineAfter, index, phase: None, wait_index: None })
        } else {
            None
        };
        result_disposition(result, mutating)
    }
}

/// How a run stops after an entry ran.
pub open spec fn dispatch_stop(
    s: RunState,
    failed: bool,
    verification_failed: bool,
    oversized: bool,
    deadline_passed: bool,
) -> Option<Stop> {
    if oversized {
        Some(Stop { reason: StopReason::OutputLimit, index: s.next, phase: None, wait_index: None })
    } else if failed && s.stop_on_error {
        Some(
            Stop {
                reason: StopReason::StopOnError,
                index: s.next,
                phase: Some(if verification_failed { StopPhase::Verification } else { StopPhase::Command }),
                wait_index: None,
            },
        )
    } else if deadline_passed && s.next + 1 < s.total {
        Some(Stop { reason: StopReason::DeadlineAfter, index: s.next, phase: None, wait_index: None })
    } else {
        None
    }
}

/// `build_body`: the entries that never ran.
pub fn not_started_entries(total: usize, completed: usize) -> (r: usize)
    ensures
        r == if completed <= total { total - completed } else { 0 },
{
    total.saturating_sub(completed)
}

/// `build_body`: an oversized response is `not_delivered` when nothing ran, otherwise
/// `uncertain`.
pub fn output_limit_disposition(completed: usize) -> (r: DeliverySemantics)
    ensures
        r == if completed == 0 {
            not_delivered_spec()
        } else {
            uncertain_spec()
        },
{
    if completed == 0 {
        DeliverySemantics::not_delivered()
    } else {
        DeliverySemantics::uncertain()
    }
}

/// Whatever happens to the entry under way, the run moves past it: each entry is handled
/// once and never replayed; an entry that was not started (deadline, baseline, ended
/// session, unmet condition) does not count as run; and entries that ran never
/// outnumber entries handled.
pub proof fn lemma_each_entry_handled_once(
    s: RunState,
    stop: Option<Stop>,
    failed: bool,
    verification_failed: bool,
    oversized: bool,
    deadline_passed: bool,
)
    requires
        run_inv(s),
        !run_done(s),
    ensures
        skip_entry(s, stop).next == s.next + 1,
        skip_entry(s, stop).completed == s.completed,
        run_inv(skip_entry(s, stop)),
        ({
            let t = RunState {
                next: (s.next + 1) as usize,
                completed: (s.completed + 1) as usize,
                stopped: dispatch_stop(s, failed, verification_failed, oversized, deadline_passed),
                ..s
            };
            t.next == s.next + 1 && run_inv(t)
        }),
{
}

/// A stopped run hands out no further entry.
pub proof fn lemma_stopped_run_is_done(s: RunState)
    requires
        s.stopped is Some,
    ensures
        run_done(s),
{
}

/// A failed verification never replays the action and keeps the action's own
/// disposition: without a reported one, a mutating action stays `delivered_unverified`
/// and unsafe to retry.
pub proof fn lemma_verification_failure_keeps_action_disposition(reported: Option<DeliverySemantics>, mutating: bool)
    ensures
        entry_disposition(EntryResult::VerificationFailed { reported }, mutating) == entry_disposition(
            EntryResult::Succeeded { reported },
            mutating,
        ),
        reported is None && mutating ==> entry_disposition(EntryResult::VerificationFailed { reported }, mutating)
            == Some(delivered_unverified_spec()),
        entry_failed(EntryResult::VerificationFailed { reported }),
{
}

} // verus!
