//! Plain state and error data of the orchestration layer that drives the
//! transpiler. The layer itself (stepping, tool dispatch, transport) lives
//! outside the library; only its value types and their rules are here.

use vstd::prelude::*;

use crate::text::{chars_to_string, lower_seq, push_str_chars, str_chars, to_lower, seq_eq, trim};

verus! {

/// The lifecycle of one agent run.
#[derive(Debug, Clone, Copy, PartialEq, Eq, Structural)]
pub enum AgentState {
    Init,
    Running,
    Finished,
    Error,
    Stopped,
}

/// The lifecycle of one agent step.
#[derive(Debug, Clone, Copy, PartialEq, Eq, Structural)]
pub enum AgentStepState {
    Thinking,
    Acting,
    Observing,
    Finished,
    Error,
}

/// Why an agent run failed.
#[derive(Debug, Clone, PartialEq, Eq)]
pub enum AgentError {
    Config(String),
    Tool(String),
    LLM(String),
    MaxStepsExceeded(u32),
    Cancelled,
    Other(String),
}

/// Which agent drives the run.
#[derive(Debug, Clone, Copy, PartialEq, Eq, Structural)]
pub enum AgentType {
    AlanAgent,
    TranspilerAgent,
}

/// The agent type a configuration keyword denotes, read case-insensitively.
pub open spec fn spec_agent_type_from(s: Seq<char>) -> Option<AgentType> {
    if lower_seq(s) == "alan_agent"@ {
        Some(AgentType::AlanAgent)
    } else if lower_seq(s) == "transpiler_agent"@ {
        Some(AgentType::TranspilerAgent)
    } else {
        None
    }
}

impl AgentType {
    /// Reads a configuration keyword; an unknown keyword is an error that
    /// carries the keyword back.
    pub fn from_str(s: &str) -> (r: Result<AgentType, AgentError>)
        ensures
            match r {
                Ok(t) => spec_agent_type_from(s@) == Some(t),
                Err(e) => spec_agent_type_from(s@) is None && (e matches AgentError::Other(m)
                    && m@ == "Unknown agent type: "@ + s@),
            },
    {
        let l = to_lower(&str_chars(s));
        if seq_eq(&l, &str_chars("alan_agent")) {
            Ok(AgentType::AlanAgent)
        } else if seq_eq(&l, &str_chars("transpiler_agent")) {
            Ok(AgentType::TranspilerAgent)
        } else {
            let mut msg = str_chars("Unknown agent type: ");
            push_str_chars(&mut msg, s);
            Err(AgentError::Other(chars_to_string(&msg)))
        }
    }
}

} // verus!
