use zeroclaw::agent::{after_approval, available_tools, gate_tool_call, tool_message_text};
use zeroclaw::{
    finalize_ws_response, ApprovalDecision, ApprovalManager, AutonomyLevel, ChatMessage, Gate,
    LoopAction, LoopError, ModelTurn, SecurityPolicy, ToolCall, ToolLoop, ToolResult,
};

fn call(name: &str) -> ToolCall {
    ToolCall {
        id: "call_1".to_string(),
        name: name.to_string(),
        arguments: "{}".to_string(),
    }
}

#[test]
fn text_turn_finishes_with_sanitized_done_text() {
    let mut history = vec![ChatMessage::system("sys"), ChatMessage::user("Hello")];
    let mut lp = ToolLoop::new(3, 2);
    assert!(matches!(lp.start(false), LoopAction::CallModel));
    let text = match lp.on_model_turn(ModelTurn::Text("Hi there!".to_string()), false) {
        LoopAction::Finish(t) => t,
        _ => panic!("expected finish"),
    };
    let done = finalize_ws_response(&text, &history, &vec![]);
    history.push(ChatMessage::assistant(&done));
    assert_eq!(done, "Hi there!");
}

#[test]
fn read_only_session_reports_blocked_tool_and_still_finishes() {
    let mut policy = SecurityPolicy::new(AutonomyLevel::ReadOnly, Some(20), 0);
    let approvals = ApprovalManager::from_config(AutonomyLevel::ReadOnly, vec![]);
    let tools = vec!["shell".to_string()];
    let mut history = vec![ChatMessage::user("delete it")];
    let mut lp = ToolLoop::new(2, 0);
    let mut steps = 0;
    let mut action = lp.start(false);
    let done = loop {
        steps += 1;
        assert!(steps < 20);
        action = match action {
            LoopAction::CallModel => {
                lp.on_model_turn(ModelTurn::ToolCalls(String::new(), vec![call("shell")]), false)
            }
            LoopAction::RunTools(calls) => {
                for c in calls {
                    match gate_tool_call(&mut policy, &approvals, &tools, &c.name, 5) {
                        Gate::Blocked(r) => {
                            history.push(ChatMessage::tool(&tool_message_text(&r)));
                        }
                        _ => panic!("read-only must block"),
                    }
                }
                lp.after_tools(false)
            }
            LoopAction::Finish(t) => break finalize_ws_response(&t, &history, &tools),
            LoopAction::Fail(_) => panic!("must not fail"),
        };
    };
    assert_eq!(history.len(), 3);
    assert!(history[1].content.contains("read-only"));
    assert!(done.contains("read-only"));
    assert_eq!(policy.actions_in_window(), 0);
}

#[test]
fn gate_order_unknown_rate_limit_and_approval() {
    let tools = vec!["shell".to_string(), "browser_open".to_string()];
    let approvals = ApprovalManager::from_config(AutonomyLevel::Supervised, vec!["shell".to_string()]);
    let mut policy = SecurityPolicy::new(AutonomyLevel::Supervised, Some(1), 0);
    match gate_tool_call(&mut policy, &approvals, &tools, "nope", 1) {
        Gate::Blocked(r) => assert_eq!(r.error.unwrap(), "Unknown tool: nope"),
        _ => panic!(),
    }
    assert!(matches!(gate_tool_call(&mut policy, &approvals, &tools, "shell", 1), Gate::AskHuman));
    match gate_tool_call(&mut policy, &approvals, &tools, "browser_open", 2) {
        Gate::Blocked(r) => assert!(r.error.unwrap().contains("rate limit")),
        _ => panic!(),
    }
    let mut fresh = SecurityPolicy::new(AutonomyLevel::Supervised, None, 0);
    assert!(matches!(
        gate_tool_call(&mut fresh, &approvals, &tools, "browser_open", 1),
        Gate::Execute
    ));
    let denied = after_approval(ApprovalDecision::Denied).unwrap();
    assert!(!denied.success);
    assert!(after_approval(ApprovalDecision::Approved).is_none());
}

#[test]
fn excluded_tools_are_not_available() {
    let registry = vec!["a".to_string(), "b".to_string(), "c".to_string()];
    let excluded = vec!["b".to_string()];
    assert_eq!(available_tools(&registry, &excluded), vec!["a".to_string(), "c".to_string()]);
}

#[test]
fn loop_retries_transient_errors_then_fails() {
    let mut lp = ToolLoop::new(3, 1);
    assert!(matches!(
        lp.on_model_turn(ModelTurn::Transient("busy".to_string()), false),
        LoopAction::CallModel
    ));
    match lp.on_model_turn(ModelTurn::Transient("busy".to_string()), false) {
        LoopAction::Fail(LoopError::Provider(m)) => assert_eq!(m, "busy"),
        _ => panic!(),
    }
    assert!(matches!(
        lp.on_model_turn(ModelTurn::Text("x".to_string()), true),
        LoopAction::Fail(LoopError::Cancelled)
    ));
}

#[test]
fn loop_stops_at_iteration_ceiling_with_best_text() {
    let mut lp = ToolLoop::new(1, 0);
    assert!(matches!(
        lp.on_model_turn(ModelTurn::ToolCalls("a".to_string(), vec![call("t")]), false),
        LoopAction::RunTools(_)
    ));
    match lp.on_model_turn(ModelTurn::ToolCalls("partial".to_string(), vec![call("t")]), false) {
        LoopAction::Finish(t) => assert_eq!(t, "partial"),
        _ => panic!(),
    }
}

#[test]
fn tool_message_text_picks_payload() {
    let ok = ToolResult::ok("out".to_string());
    assert_eq!(tool_message_text(&ok), "out");
    let bad = ToolResult::failure("boom".to_string());
    assert_eq!(tool_message_text(&bad), "boom");
}
