use cleanr::agent::{
    command_name, parse_slash_command, split_command, ActionRequest, AgentError, CleanupIntent,
    LocalAgent,
};
use cleanr::agent::PathContext;
use cleanr::llm::{
    build_explain_prompt, build_user_prompt, into_action_requests, strip_markdown_fences, summarize,
    LlmAction,
};
use cleanr::model::{GlobalScanKind, ScanRequest};

#[test]
fn parses_scan_command_with_paths() {
    let action = parse_slash_command("/scan . /tmp").expect("parse");
    assert_eq!(
        action,
        ActionRequest::Scan(ScanRequest::paths(vec![".".to_string(), "/tmp".to_string()]))
    );
}

#[test]
fn parses_quoted_slash_command_arguments() {
    let action =
        parse_slash_command(r#"/scan "/tmp/project with spaces" '/tmp/other path' --global"#)
            .expect("parse");
    assert_eq!(
        action,
        ActionRequest::Scan(ScanRequest {
            paths: vec![
                "/tmp/project with spaces".to_string(),
                "/tmp/other path".to_string(),
            ],
            include_global: true,
            global_kinds: Vec::new(),
            inactive_days: None,
        })
    );

    assert_eq!(
        parse_slash_command(r#"/export-plan "plans/cleanr plan.json""#).expect("parse"),
        ActionRequest::ExportPlan(Some("plans/cleanr plan.json".to_string()))
    );
    assert!(parse_slash_command(r#"/scan "unterminated"#).is_err());
}

#[test]
fn parses_global_scan_kinds() {
    assert_eq!(
        parse_slash_command("/scan --global-kind browser-caches --global-kind logs")
            .expect("parse"),
        ActionRequest::Scan(ScanRequest {
            paths: Vec::new(),
            include_global: true,
            global_kinds: vec![GlobalScanKind::BrowserCaches, GlobalScanKind::Logs],
            inactive_days: None,
        })
    );
    assert!(parse_slash_command("/scan --global-kind unknown").is_err());
}

#[test]
fn parses_clean_confirm_as_explicit_safety_gate() {
    let action = parse_slash_command("/clean --confirm").expect("parse");
    assert_eq!(
        action,
        ActionRequest::Clean {
            intent: CleanupIntent::ExplicitUserConfirmation
        }
    );
}

#[test]
fn parses_usage_command_aliases() {
    assert_eq!(
        parse_slash_command("/usage").expect("parse"),
        ActionRequest::Usage(ScanRequest::default())
    );
    assert_eq!(
        parse_slash_command("/stats").expect("parse"),
        ActionRequest::Usage(ScanRequest::default())
    );
    assert_eq!(
        parse_slash_command("/usage /tmp .").expect("parse"),
        ActionRequest::Usage(ScanRequest::paths(vec!["/tmp".to_string(), ".".to_string()]))
    );
}

#[test]
fn local_agent_maps_plain_language_to_scan_review() {
    let response = LocalAgent
        .interpret("帮我找一下可以清理的缓存")
        .expect("interpret");
    assert_eq!(response.actions.len(), 2);
    assert!(matches!(response.actions[0], ActionRequest::Scan(_)));
    assert_eq!(response.actions[1], ActionRequest::Review);
}

#[test]
fn unknown_slash_command_is_reported_and_plain_text_falls_back_to_help() {
    assert!(parse_slash_command("/does-not-exist").is_err());
    let response = LocalAgent.interpret("hello there").expect("interpret");
    assert_eq!(response.actions, vec![ActionRequest::Help]);
}

#[test]
fn quotes_group_words_and_backslashes_escape_outside_single_quotes() {
    assert_eq!(
        split_command(r#"a "b c" 'd\e' f\ g"#).expect("split"),
        vec!["a".to_string(), "b c".to_string(), "de".to_string(), "f g".to_string()]
    );
    assert_eq!(split_command(r"tail\"), Ok(vec![r"tail\".to_string()]));
    assert_eq!(
        split_command("'open"),
        Err(AgentError::UnterminatedQuote { quote: '\'' })
    );
    assert_eq!(
        AgentError::UnterminatedQuote { quote: '"' }.message(),
        "unterminated \" quote"
    );
}

#[test]
fn an_empty_line_is_no_command() {
    assert_eq!(parse_slash_command("   "), Err(AgentError::EmptyCommand));
}

#[test]
fn a_global_kind_flag_needs_a_value() {
    assert_eq!(
        parse_slash_command("/scan --global-kind"),
        Err(AgentError::MissingGlobalKindValue)
    );
}

#[test]
fn each_action_has_its_command_name() {
    assert_eq!(command_name(&ActionRequest::Review), "/review");
    assert_eq!(
        command_name(&ActionRequest::Scan(ScanRequest::default())),
        "/scan"
    );
    assert_eq!(command_name(&ActionRequest::ExportPlan(None)), "/export-plan");
}

#[test]
fn unknown_commands_and_kinds_name_what_was_refused() {
    assert_eq!(
        parse_slash_command("/nope"),
        Err(AgentError::UnknownCommand { command: "/nope".to_string() })
    );
    assert_eq!(
        parse_slash_command("/scan --global-kind nope"),
        Err(AgentError::UnsupportedGlobalKind { value: "nope".to_string() })
    );
    assert_eq!(
        AgentError::UnsupportedGlobalKind { value: "nope".to_string() }.message(),
        "unsupported global scan kind: nope"
    );
}

#[test]
fn model_answers_are_unwrapped_from_code_fences() {
    assert_eq!(
        strip_markdown_fences("```json\n[{\"action\": \"help\"}]\n```"),
        "[{\"action\": \"help\"}]"
    );
    assert_eq!(strip_markdown_fences("  ```\n[]\n``````  "), "[]");
    assert_eq!(strip_markdown_fences("  [1] "), "[1]");
}

#[test]
fn model_actions_become_session_actions() {
    let actions = into_action_requests(vec![
        LlmAction::Scan { paths: vec![".".to_string()] },
        LlmAction::Review,
        LlmAction::Clean,
        LlmAction::ExportPlan { path: Some("plan.json".to_string()) },
    ]);
    assert_eq!(actions.len(), 4);
    assert_eq!(actions[0], ActionRequest::Scan(ScanRequest::paths(vec![".".to_string()])));
    assert_eq!(actions[1], ActionRequest::Review);
    assert_eq!(
        actions[2],
        ActionRequest::Clean { intent: CleanupIntent::AgentRequest }
    );
    assert_eq!(actions[3], ActionRequest::ExportPlan(Some("plan.json".to_string())));
    assert_eq!(
        LlmAction::Usage { paths: Vec::new() }.into_action_request(),
        ActionRequest::Usage(ScanRequest::default())
    );
}

#[test]
fn prompts_and_summaries_name_their_inputs() {
    assert_eq!(
        build_user_prompt("clean up"),
        "User request: \"clean up\"\n\nRespond with a JSON array of actions. Empty paths mean use the current directory."
    );
    let context = PathContext {
        size_bytes: 2048,
        parent_path: Some("/repo".to_string()),
        rule_id: None,
        reason: Some("generated".to_string()),
    };
    assert_eq!(
        build_explain_prompt("/repo/target", &context),
        "Path: /repo/target\nParent: /repo\nSize: 2048 bytes\nMatched rule: unknown\nRule reason: generated\n\nExplain this path."
    );
    assert_eq!(summarize(&[], "m"), "No action recognized (model: m).");
    assert_eq!(
        summarize(&[ActionRequest::Review, ActionRequest::Help], "m"),
        "/review, /help (model: m)"
    );
}

#[test]
fn strips_markdown_fence() {
    let raw = "```json\n[{\"action\": \"help\"}]\n```";
    let body = strip_markdown_fences(raw);
    assert_eq!(body, "[{\"action\": \"help\"}]");
    // The array holds one `help` action, which queues the help request.
    assert_eq!(into_action_requests(vec![LlmAction::Help]), vec![ActionRequest::Help]);
}
