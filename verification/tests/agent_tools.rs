use rtl_transpiler::agent::{AgentError, AgentType};
use rtl_transpiler::tools::ToolResult;

#[test]
fn test_agent_type_from_str() {
    assert_eq!(AgentType::from_str("alan_agent").unwrap(), AgentType::AlanAgent);
    assert_eq!(AgentType::from_str("TRANSPILER_AGENT").unwrap(), AgentType::TranspilerAgent);
    match AgentType::from_str("router") {
        Err(AgentError::Other(msg)) => assert_eq!(msg, "Unknown agent type: router"),
        other => panic!("expected an unknown-type error, got {:?}", other),
    }
}

#[test]
fn test_tool_result_constructors() {
    let ok = ToolResult::success("call-1".to_string(), "done".to_string());
    assert!(ok.success);
    assert_eq!(ok.content, "done");
    assert!(ok.error.is_none());

    let bad = ToolResult::error("call-2".to_string(), "no such file".to_string());
    assert!(!bad.success);
    assert_eq!(bad.content, "Error: no such file");
    assert_eq!(bad.error.as_deref(), Some("no such file"));
}
