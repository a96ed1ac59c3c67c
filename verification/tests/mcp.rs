use agent_desktop_runtime::catalog::{cli_commands, command_for_tool, command_for_tool_in, is_mcp_callable, tool_name_for_command, tool_names};
use agent_desktop_runtime::compact::{
    compact_tool, description, execution_bounds, is_compact_tool, is_observe_command, is_verification_failure_kind,
    validate_workflow_name, verification_summary, BoundsError, CompactTool, ResultMark, StepBounds, VerificationState,
    MAX_ASSERTION_JSON_POINTER_CHARS, MAX_STEPS,
};
use agent_desktop_runtime::protocol::{
    check_tool_call, handling, headed_requested, is_modern, mcp_requested, negotiate_protocol, route, ArgumentsKind,
    Handling, Method, RequestShape, ToolCallError,
};
use agent_desktop_runtime::skills::{parse_skill_uri, prompt_request, SkillUri};

#[test]
fn tool_name_round_trips_to_cli_command() {
    assert_eq!(command_for_tool("desktop_list_windows").as_deref(), Some("list-windows"));
}

#[test]
fn catalog_is_deterministic_and_contains_skills() {
    let first = tool_names(&cli_commands());
    let second = tool_names(&cli_commands());
    assert_eq!(first, second);
    let names = first.iter().map(String::as_str).collect::<Vec<_>>();
    assert!(names.contains(&"desktop_snapshot"));
    assert!(names.contains(&"desktop_skills"));
    assert!(!names.contains(&"desktop_batch"));
    assert!(!names.contains(&"desktop_cursor_overlay"));
    let mut sorted = names.clone();
    sorted.sort();
    assert_eq!(names, sorted);
}

#[test]
fn tool_names_map_dashes_and_skip_internal_commands() {
    assert_eq!(tool_name_for_command("clipboard-get"), "desktop_clipboard_get");
    assert!(!is_mcp_callable("batch"));
    assert!(!is_mcp_callable("cursor-overlay"));
    assert!(is_mcp_callable("snapshot"));
    assert_eq!(command_for_tool("desktop_batch"), None);
    assert_eq!(command_for_tool("desktop_nothing"), None);
    let custom = vec!["a-b".to_string(), "a_b".to_string()];
    assert_eq!(command_for_tool_in(&custom, "desktop_a_b").as_deref(), Some("a-b"));
}

#[test]
fn legacy_initialize_negotiates_latest_legacy_for_unknown_version() {
    assert_eq!(negotiate_protocol(Some("2099-01-01")), "2025-11-25");
    assert_eq!(negotiate_protocol(Some("2025-06-18")), "2025-06-18");
    assert_eq!(negotiate_protocol(Some("2024-11-05")), "2024-11-05");
    assert_eq!(negotiate_protocol(None), "2025-11-25");
}

#[test]
fn modern_detection_uses_protocol_meta() {
    assert!(is_modern("tools/list", Some("2026-07-28")));
    assert!(!is_modern("tools/list", Some("2025-11-25")));
    assert!(!is_modern("tools/list", None));
    assert!(is_modern("server/discover", None));
}

#[test]
fn requests_are_routed_and_notifications_stay_silent() {
    let shape = |object: bool, jsonrpc: bool, id: bool, method: Option<&str>| RequestShape {
        is_object: object,
        jsonrpc_2_0: jsonrpc,
        has_id: id,
        method: method.map(String::from),
    };
    assert_eq!(handling(&shape(false, true, true, Some("ping"))), Handling::InvalidRequest);
    assert_eq!(handling(&shape(true, false, true, Some("ping"))), Handling::InvalidRequest);
    assert_eq!(handling(&shape(true, true, true, None)), Handling::InvalidRequestWithId);
    assert_eq!(handling(&shape(true, true, false, None)), Handling::Silent);
    assert_eq!(handling(&shape(true, true, true, Some("notifications/initialized"))), Handling::Silent);
    assert_eq!(handling(&shape(true, true, true, Some("nope"))), Handling::MethodNotFound);
    assert_eq!(handling(&shape(true, true, false, Some("nope"))), Handling::Silent);
    assert_eq!(
        handling(&shape(true, true, true, Some("tools/call"))),
        Handling::Run { method: Method::ToolsCall, reply: true }
    );
    assert_eq!(route("resources/templates/list"), Method::ResourceTemplatesList);
    assert_eq!(route("prompts/get"), Method::PromptsGet);
}

#[test]
fn tool_calls_are_checked_before_dispatch() {
    assert_eq!(check_tool_call(None, ArgumentsKind::Object), Err(ToolCallError::MissingName));
    assert_eq!(check_tool_call(Some("desktop_nope"), ArgumentsKind::Object), Err(ToolCallError::UnknownTool));
    assert_eq!(check_tool_call(Some("desktop_snapshot"), ArgumentsKind::Other), Err(ToolCallError::ArgumentsNotObject));
    assert_eq!(check_tool_call(Some("desktop_snapshot"), ArgumentsKind::Null).unwrap(), "snapshot");
    assert_eq!(check_tool_call(Some("desktop_list_windows"), ArgumentsKind::Missing).unwrap(), "list-windows");
}

#[test]
fn server_switches() {
    assert!(headed_requested(true, None));
    assert!(headed_requested(false, Some("YES")));
    assert!(!headed_requested(false, Some("Yes")));
    assert!(!headed_requested(false, None));
    let args = |a: &[&str]| a.iter().map(|s| s.to_string()).collect::<Vec<_>>();
    assert!(mcp_requested(&args(&["agent-desktop", "--mcp"])));
    assert!(!mcp_requested(&args(&["agent-desktop", "--mcp", "--help"])));
    assert!(!mcp_requested(&args(&["agent-desktop"])));
}

#[test]
fn skill_uris_and_prompt() {
    assert_eq!(parse_skill_uri("agent-desktop://skills"), SkillUri::Index);
    assert_eq!(
        parse_skill_uri("agent-desktop://skills/agent-desktop"),
        SkillUri::Skill { name: "agent-desktop".into(), full: false, reference: None }
    );
    assert_eq!(
        parse_skill_uri("agent-desktop://skills/windows/full"),
        SkillUri::Skill { name: "windows".into(), full: true, reference: None }
    );
    assert_eq!(
        parse_skill_uri("agent-desktop://skills/windows/refs/a.md"),
        SkillUri::Skill { name: "windows".into(), full: false, reference: Some("refs/a.md".into()) }
    );
    assert_eq!(parse_skill_uri("https://example.com"), SkillUri::Unknown);
    assert!(prompt_request(Some("other"), None, None).is_err());
    assert!(prompt_request(None, None, None).is_err());
    let request = prompt_request(Some("agent-desktop-skill"), None, Some("TRUE")).unwrap();
    assert_eq!(request.skill, "agent-desktop");
    assert!(request.full);
    let request = prompt_request(Some("agent-desktop-skill"), Some("ffi"), Some("yes")).unwrap();
    assert_eq!(request.skill, "ffi");
    assert!(!request.full);
}

fn step(timeout_ms: Option<u64>, condition: Option<&str>, verify: Option<&str>) -> StepBounds {
    StepBounds {
        timeout_ms,
        condition_pointer: condition.map(String::from),
        verify_pointer: verify.map(String::from),
    }
}

#[test]
fn execute_enforces_runtime_step_and_timeout_bounds_before_side_effects() {
    let too_many_steps = (0..=MAX_STEPS).map(|_| step(None, None, None)).collect::<Vec<_>>();
    assert_eq!(execution_bounds(&too_many_steps, 60_000), Err(BoundsError::TooManySteps));
    assert_eq!(execution_bounds(&vec![step(None, None, None)], 0), Err(BoundsError::ZeroPlanTimeout));
    assert_eq!(
        execution_bounds(&vec![step(None, None, None), step(Some(0), None, None)], 60_000),
        Err(BoundsError::ZeroStepTimeout { index: 1 })
    );
    assert_eq!(execution_bounds(&vec![], 60_000), Err(BoundsError::NoSteps));
    assert!(execution_bounds(&vec![step(Some(5), Some("/text"), None)], 60_000).is_ok());
}

#[test]
fn execute_enforces_assertion_pointer_bound_before_side_effects() {
    let overlong_pointer = format!("/{}", "x".repeat(MAX_ASSERTION_JSON_POINTER_CHARS));
    assert_eq!(
        execution_bounds(&vec![step(None, Some(&overlong_pointer), None)], 60_000),
        Err(BoundsError::PointerTooLong { index: 0, verify: false })
    );
    assert_eq!(
        execution_bounds(&vec![step(None, None, Some(&overlong_pointer))], 60_000),
        Err(BoundsError::PointerTooLong { index: 0, verify: true })
    );
    let exact = "é".repeat(MAX_ASSERTION_JSON_POINTER_CHARS);
    assert!(execution_bounds(&vec![step(None, Some(&exact), None)], 60_000).is_ok());
}

#[test]
fn compact_tools_and_observe_allow_list() {
    assert!(is_compact_tool("desktop.observe"));
    assert!(!is_compact_tool("desktop_observe"));
    assert_eq!(compact_tool("desktop.run"), Some(CompactTool::Run));
    assert_eq!(description("nope"), "Unknown compact agent API tool.");
    assert!(description("desktop.execute").starts_with("Execute one or more semantic desktop steps"));
    assert!(is_observe_command("list-windows"));
    assert!(!is_observe_command("snapshot"));
    assert!(!is_observe_command("screenshot"));
    assert!(!is_observe_command("clipboard-clear"));
}

#[test]
fn workflow_names_are_trimmed_and_bounded() {
    assert_eq!(validate_workflow_name("  search-and-export ").unwrap(), "search-and-export");
    assert!(validate_workflow_name("   ").is_err());
    assert!(validate_workflow_name(&"w".repeat(129)).is_err());
    assert!(validate_workflow_name(&"w".repeat(128)).is_ok());
}

#[test]
fn verification_summary_counts_requested_passed_and_failed() {
    let none = verification_summary(&vec![false, false], &vec![]);
    assert_eq!(none.state, VerificationState::NotRequested);
    assert_eq!(none.state.as_str(), "not_requested");
    let passed = verification_summary(
        &vec![true, false],
        &vec![ResultMark { verified: true, error_kind: None }, ResultMark { verified: false, error_kind: None }],
    );
    assert_eq!((passed.state, passed.requested, passed.passed, passed.failed), (VerificationState::Passed, 1, 1, 0));
    let failed = verification_summary(
        &vec![true],
        &vec![ResultMark { verified: false, error_kind: Some("compound_verification_failed".into()) }],
    );
    assert_eq!((failed.state, failed.failed), (VerificationState::Failed, 1));
    let incomplete = verification_summary(
        &vec![true],
        &vec![ResultMark { verified: false, error_kind: Some("compound_condition_failed".into()) }],
    );
    assert_eq!(incomplete.state, VerificationState::Incomplete);
    assert!(is_verification_failure_kind("compound_verification_error"));
    assert!(!is_verification_failure_kind("compound_verificatio"));
}
