use vstd::prelude::*;

verus! {

/// What a tool invocation produced. On failure `output` is empty and `error`
/// holds the reason.
pub struct ToolResult {
    pub success: bool,
    pub output: String,
    pub error: Option<String>,
}

impl ToolResult {
    /// A failed outcome carrying `message` as its error.
    pub fn failure(message: String) -> (r: ToolResult)
        ensures
            !r.success,
            r.output@.len() == 0,
            r.error == Some(message),
    {
        ToolResult { success: false, output: String::new(), error: Some(message) }
    }

    /// A successful outcome carrying `output`.
    pub fn ok(output: String) -> (r: ToolResult)
        ensures
            r.success,
            r.output == output,
            r.error is None,
    {
        ToolResult { success: true, output, error: None }
    }
}

} // verus!
