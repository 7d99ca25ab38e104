//! Tool records: flat pass-through data describing tools, tool calls and
//! their results. The composition layer forwards them verbatim.

use vstd::prelude::*;
use crate::utils::json::{new_json_map, object_keys};

verus! {

/// A tool a bot may call.
#[derive(Debug)]
pub struct Tool {
    pub name: String,
    pub description: Option<String>,
    /// JSON Schema object defining the expected parameters for the tool.
    pub input_schema: std::sync::Arc<serde_json::Map<String, serde_json::Value>>,
}

impl Tool {
    /// A tool with the given name and description and an empty parameter
    /// schema: the schema object holds no keys.
    pub fn new(name: String, description: Option<String>) -> (r: Self)
        ensures
            r.name == name,
            r.description == description,
            object_keys(*r.input_schema) == Set::<Seq<char>>::empty(),
    {
        Tool { name, description, input_schema: std::sync::Arc::new(new_json_map()) }
    }
}

/// Relies on Arc::clone: another handle to the same shared schema map.
#[verifier::external_body]
fn clone_schema(
    schema: &std::sync::Arc<serde_json::Map<String, serde_json::Value>>,
) -> (r: std::sync::Arc<serde_json::Map<String, serde_json::Value>>)
    ensures
        r == *schema,
{
    std::sync::Arc::clone(schema)
}

impl Clone for Tool {
    fn clone(&self) -> (r: Self)
        ensures
            r == *self,
    {
        let description = match &self.description {
            Some(d) => Some(d.clone()),
            None => None,
        };
        Tool {
            name: self.name.clone(),
            description,
            input_schema: clone_schema(&self.input_schema),
        }
    }
}

/// Permission status for tool call execution.
#[derive(Clone, Copy, Debug, PartialEq, Eq, Structural, Default)]
pub enum ToolCallPermissionStatus {
    /// Waiting for user decision.
    #[default]
    Pending,
    /// User approved execution.
    Approved,
    /// User denied execution.
    Denied,
}

/// A function/tool call made by a bot.
#[derive(Debug)]
pub struct ToolCall {
    /// Unique identifier for this tool call.
    pub id: String,
    /// Name of the tool/function to call.
    pub name: String,
    /// Arguments passed to the tool (JSON).
    pub arguments: serde_json::Map<String, serde_json::Value>,
    /// Permission status for this tool call.
    pub permission_status: ToolCallPermissionStatus,
}

/// The result of a tool call execution.
#[derive(Debug, PartialEq)]
pub struct ToolResult {
    /// The tool call id this result corresponds to.
    pub tool_call_id: String,
    /// The result content from the tool execution.
    pub content: String,
    /// Whether the tool call was successful.
    pub is_error: bool,
}

impl Clone for ToolResult {
    fn clone(&self) -> (r: Self)
        ensures
            r == *self,
    {
        ToolResult {
            tool_call_id: self.tool_call_id.clone(),
            content: self.content.clone(),
            is_error: self.is_error,
        }
    }
}

} // verus!
