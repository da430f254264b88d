//! The value type that tool invocations hand back to their caller. The tools
//! themselves (file access, command execution, transport) live outside the
//! library.

use vstd::prelude::*;

use crate::text::{chars_to_string, push_str_chars, str_chars};

verus! {

/// What one tool call produced.
#[derive(Debug, Clone)]
pub struct ToolResult {
    pub tool_call_id: String,
    pub content: String,
    pub success: bool,
    pub error: Option<String>,
}

impl ToolResult {
    /// A successful result carrying the tool's output.
    pub fn success(tool_call_id: String, content: String) -> (r: ToolResult)
        ensures
            r.tool_call_id@ == tool_call_id@,
            r.content@ == content@,
            r.success == true,
            r.error is None,
    {
        ToolResult { tool_call_id, content, success: true, error: None }
    }

    /// A failed result; the content repeats the error for callers that only
    /// read content.
    pub fn error(tool_call_id: String, error: String) -> (r: ToolResult)
        ensures
            r.tool_call_id@ == tool_call_id@,
            r.content@ == "Error: "@ + error@,
            r.success == false,
            r.error matches Some(e) && e@ == error@,
    {
        let mut content = str_chars("Error: ");
        push_str_chars(&mut content, error.as_str());
        ToolResult {
            tool_call_id,
            content: chars_to_string(&content),
            success: false,
            error: Some(error),
        }
    }
}

} // verus!
