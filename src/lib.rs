//! Action-control core of an agent runtime: the egress URL guard, the
//! security policy and its action budget, the approval gate, the response
//! sanitizer, and the decisions of the tool-call loop and of a chat session.

pub mod agent;
pub mod approval;
pub mod browser_open;
pub mod gateway;
pub mod host;
pub mod json;
pub mod sanitize;
pub mod security;
pub mod text;
pub mod tool;

pub use agent::{Gate, LoopAction, LoopError, ModelTurn, ToolCall, ToolLoop};
pub use approval::{ApprovalDecision, ApprovalManager};
pub use browser_open::{BrowserOpenTool, UrlError};
pub use gateway::{
    ChatMessage, ClientFrame, EMPTY_WS_RESPONSE_FALLBACK, MALFORMED_TOOL_OUTPUT_NOTICE,
    extract_latest_tool_output, extract_ws_bearer_token, finalize_ws_response,
    normalize_prompt_tool_results, sanitize_ws_response,
};
pub use sanitize::sanitize_channel_response;
pub use security::{AutonomyLevel, SecurityPolicy};
pub use tool::ToolResult;
