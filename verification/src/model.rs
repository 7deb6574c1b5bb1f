//! The conversation data that a model request carries, as plain values.

use vstd::prelude::*;
use crate::json::{Json, JsonV};

verus! {

/// Who a message comes from.
#[derive(Debug, Clone, Copy, PartialEq, Eq, Structural)]
pub enum Role {
    System,
    User,
    Assistant,
    Tool,
}

/// A tool call as recorded in the conversation: the tool's name and its
/// arguments as compact JSON text.
#[derive(Debug)]
pub struct RecordedCall {
    pub name: String,
    pub arguments: String,
}

/// One message of the conversation. `image_count` counts attached images,
/// whose data never enters a prompt; `internal` marks injected context that
/// the user did not type.
#[derive(Debug)]
pub struct ChatMessage {
    pub role: Role,
    pub content: String,
    pub tool_calls: Vec<RecordedCall>,
    pub image_count: usize,
    pub internal: bool,
}

/// A tool that the model may call: name, description and its parameter
/// schema as pretty-printed JSON text.
#[derive(Debug)]
pub struct ToolSpec {
    pub name: String,
    pub description: String,
    pub parameters: String,
}

/// What the model is asked: the conversation and the available tools.
#[derive(Debug)]
pub struct ModelRequest {
    pub model: String,
    pub messages: Vec<ChatMessage>,
    pub tools: Vec<ToolSpec>,
}

/// A tool call read from an answer: identifier, tool name and arguments.
#[derive(Debug)]
pub struct ToolCall {
    pub id: String,
    pub name: String,
    pub arguments: Json,
}

/// A call of a known tool whose arguments are not a JSON object.
#[derive(Debug)]
pub struct InvalidToolCall {
    pub id: String,
    pub name: String,
    pub reason: String,
}

pub struct MessageView {
    pub role: Role,
    pub content: Seq<char>,
    pub calls: Seq<(Seq<char>, Seq<char>)>,
    pub has_images: bool,
    pub internal: bool,
}

impl View for ChatMessage {
    type V = MessageView;

    open spec fn view(&self) -> MessageView {
        MessageView {
            role: self.role,
            content: self.content@,
            calls: self.tool_calls@.map_values(|c: RecordedCall| (c.name@, c.arguments@)),
            has_images: self.image_count > 0,
            internal: self.internal,
        }
    }
}

pub open spec fn message_views(ms: Seq<ChatMessage>) -> Seq<MessageView> {
    ms.map_values(|m: ChatMessage| m@)
}

pub struct ToolSpecView {
    pub name: Seq<char>,
    pub description: Seq<char>,
    pub parameters: Seq<char>,
}

impl View for ToolSpec {
    type V = ToolSpecView;

    open spec fn view(&self) -> ToolSpecView {
        ToolSpecView { name: self.name@, description: self.description@, parameters: self.parameters@ }
    }
}

pub open spec fn tool_views(ts: Seq<ToolSpec>) -> Seq<ToolSpecView> {
    ts.map_values(|t: ToolSpec| t@)
}

pub struct ToolCallView {
    pub id: Seq<char>,
    pub name: Seq<char>,
    pub arguments: JsonV,
}

impl View for ToolCall {
    type V = ToolCallView;

    open spec fn view(&self) -> ToolCallView {
        ToolCallView { id: self.id@, name: self.name@, arguments: self.arguments@ }
    }
}

pub struct InvalidToolCallView {
    pub id: Seq<char>,
    pub name: Seq<char>,
    pub reason: Seq<char>,
}

impl View for InvalidToolCall {
    type V = InvalidToolCallView;

    open spec fn view(&self) -> InvalidToolCallView {
        InvalidToolCallView { id: self.id@, name: self.name@, reason: self.reason@ }
    }
}

} // verus!
