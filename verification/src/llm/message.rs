//! Chat messages, tool definitions and tool calls (OpenAI-compatible).
//!
//! A view type stands beside each: it holds the same fields with every string
//! taken by its characters.

use vstd::prelude::*;
use vstd::std_specs::convert::FromSpecImpl;

use crate::json::{opt_str, opt_tree, Json, JsonTree};
use crate::text::str_eq;

verus! {

/// One content block in a multimodal message.
#[derive(Debug, Clone)]
pub enum ContentBlock {
    /// Plain text content.
    Text {
        /// The text.
        text: String,
    },
    /// An image referenced by URL or base64 data URI.
    Image {
        /// Image URL wrapper.
        image_url: ImageUrl,
    },
}

/// An image reference (URL or base64 data URI) for multimodal models.
#[derive(Debug, Clone)]
pub struct ImageUrl {
    /// Image URL: `https://...` or `data:image/<type>;base64,...`.
    pub url: String,
    /// Optional detail level: `"auto"`, `"low"`, or `"high"`.
    pub detail: Option<String>,
}

/// Content of a chat message: plain text or multimodal blocks.
#[derive(Debug, Clone)]
pub enum MessageContent {
    /// Plain text content.
    Text(String),
    /// Multimodal content blocks for vision/document models.
    Blocks(Vec<ContentBlock>),
}

/// The view of a [`ContentBlock`].
#[verifier::ext_equal]
pub enum BlockView {
    /// Plain text content.
    Text(Seq<char>),
    /// An image: its URL and its detail level.
    Image(Seq<char>, Option<Seq<char>>),
}

/// The view of a [`MessageContent`].
#[verifier::ext_equal]
pub enum ContentView {
    /// Plain text content.
    Text(Seq<char>),
    /// Multimodal content blocks.
    Blocks(Seq<BlockView>),
}

impl View for ContentBlock {
    type V = BlockView;

    open spec fn view(&self) -> BlockView {
        match *self {
            ContentBlock::Text { text } => BlockView::Text(text@),
            ContentBlock::Image { image_url } => BlockView::Image(
                image_url.url@,
                opt_str(image_url.detail),
            ),
        }
    }
}

/// The views of a list of blocks.
pub open spec fn blocks(v: Seq<ContentBlock>) -> Seq<BlockView> {
    v.map_values(|b: ContentBlock| b@)
}

impl View for MessageContent {
    type V = ContentView;

    open spec fn view(&self) -> ContentView {
        match *self {
            MessageContent::Text(s) => ContentView::Text(s@),
            MessageContent::Blocks(v) => ContentView::Blocks(blocks(v@)),
        }
    }
}

impl MessageContent {
    /// Returns the text content if this is a plain-text message.
    pub fn as_text(&self) -> (r: Option<&str>)
        ensures
            match r {
                Some(s) => self@ == ContentView::Text(s@),
                None => self@ is Blocks,
            },
    {
        match self {
            MessageContent::Text(s) => Some(s.as_str()),
            MessageContent::Blocks(_) => None,
        }
    }

    /// Whether this is the plain text `other`.
    pub fn eq(&self, other: &str) -> (r: bool)
        ensures
            r == (self@ == ContentView::Text(other@)),
    {
        match self {
            MessageContent::Text(s) => str_eq(s.as_str(), other),
            MessageContent::Blocks(_) => false,
        }
    }
}

impl From<String> for MessageContent {
    fn from(s: String) -> (r: MessageContent) {
        MessageContent::Text(s)
    }
}

impl FromSpecImpl<String> for MessageContent {
    open spec fn obeys_from_spec() -> bool {
        true
    }

    open spec fn from_spec(s: String) -> MessageContent {
        MessageContent::Text(s)
    }
}

/// A function call extracted from a tool-call delta.
#[derive(Debug)]
pub struct ToolCallFunction {
    /// Function name (set in the first delta chunk).
    pub name: Option<String>,
    /// Partial or complete JSON arguments string.
    pub arguments: Option<String>,
}

/// One tool call from a model response.
#[derive(Debug)]
pub struct ToolCall {
    /// Tool call index in the response (distinguishes parallel calls).
    pub index: Option<u64>,
    /// Unique call id (set in the first delta chunk).
    pub id: Option<String>,
    /// Must be `"function"`.
    pub call_type: Option<String>,
    /// The function name + arguments.
    pub function: Option<ToolCallFunction>,
}

/// The view of a [`ToolCallFunction`].
#[verifier::ext_equal]
pub struct FunctionView {
    /// Function name.
    pub name: Option<Seq<char>>,
    /// Partial or complete JSON arguments string.
    pub arguments: Option<Seq<char>>,
}

/// The view of a [`ToolCall`].
#[verifier::ext_equal]
pub struct CallView {
    /// Tool call index in the response.
    pub index: Option<u64>,
    /// Unique call id.
    pub id: Option<Seq<char>>,
    /// The call's type.
    pub call_type: Option<Seq<char>>,
    /// The function name + arguments.
    pub function: Option<FunctionView>,
}

impl View for ToolCallFunction {
    type V = FunctionView;

    open spec fn view(&self) -> FunctionView {
        FunctionView { name: opt_str(self.name), arguments: opt_str(self.arguments) }
    }
}

impl View for ToolCall {
    type V = CallView;

    open spec fn view(&self) -> CallView {
        CallView {
            index: self.index,
            id: opt_str(self.id),
            call_type: opt_str(self.call_type),
            function: match self.function {
                Some(f) => Some(f@),
                None => None,
            },
        }
    }
}

impl CallView {
    /// The name the model gave, `default` where it gave none.
    pub open spec fn name_or(self, default: Seq<char>) -> Seq<char> {
        match self.function {
            Some(f) => match f.name {
                Some(n) => n,
                None => default,
            },
            None => default,
        }
    }

    /// The arguments the model gave, an empty object where it gave none.
    pub open spec fn args(self) -> Seq<char> {
        match self.function {
            Some(f) => match f.arguments {
                Some(a) => a,
                None => "{}"@,
            },
            None => "{}"@,
        }
    }

    /// The id the model gave, a fixed one where it gave none.
    pub open spec fn call_id(self) -> Seq<char> {
        match self.id {
            Some(i) => i,
            None => "call_unknown"@,
        }
    }
}

/// A copy of an optional string.
pub(crate) fn clone_opt(s: &Option<String>) -> (r: Option<String>)
    ensures
        opt_str(r) == opt_str(*s),
{
    match s {
        Some(s) => Some(s.clone()),
        None => None,
    }
}

impl Clone for ToolCallFunction {
    fn clone(&self) -> (r: ToolCallFunction)
        ensures
            r@ == self@,
    {
        ToolCallFunction { name: clone_opt(&self.name), arguments: clone_opt(&self.arguments) }
    }
}

impl Clone for ToolCall {
    fn clone(&self) -> (r: ToolCall)
        ensures
            r@ == self@,
    {
        let function = match &self.function {
            Some(f) => Some(f.clone()),
            None => None,
        };
        ToolCall {
            index: self.index,
            id: clone_opt(&self.id),
            call_type: clone_opt(&self.call_type),
            function,
        }
    }
}

impl ToolCall {
    /// The name the model gave, `default` where it gave none.
    pub fn name_or(&self, default: &str) -> (r: String)
        ensures
            r@ == self@.name_or(default@),
    {
        match &self.function {
            Some(f) => match &f.name {
                Some(n) => n.clone(),
                None => default.to_owned(),
            },
            None => default.to_owned(),
        }
    }

    /// The arguments the model gave, an empty object where it gave none.
    pub fn args(&self) -> (r: String)
        ensures
            r@ == self@.args(),
    {
        match &self.function {
            Some(f) => match &f.arguments {
                Some(a) => a.clone(),
                None => "{}".to_owned(),
            },
            None => "{}".to_owned(),
        }
    }

    /// The id the model gave, a fixed one where it gave none.
    pub fn call_id(&self) -> (r: String)
        ensures
            r@ == self@.call_id(),
    {
        match &self.id {
            Some(i) => i.clone(),
            None => "call_unknown".to_owned(),
        }
    }
}

/// The views of a list of calls.
pub open spec fn calls(v: Seq<ToolCall>) -> Seq<CallView> {
    v.map_values(|c: ToolCall| c@)
}

/// A copy of a list of calls.
pub(crate) fn clone_calls(v: &Vec<ToolCall>) -> (r: Vec<ToolCall>)
    ensures
        calls(r@) == calls(v@),
{
    let mut out: Vec<ToolCall> = Vec::new();
    let mut i: usize = 0;
    while i < v.len()
        invariant
            i <= v@.len(),
            calls(out@) =~= calls(v@).take(i as int),
        decreases v@.len() - i,
    {
        let call = v[i].clone();
        assert(call@ == v@[i as int]@);
        let ghost before = out@;
        out.push(call);
        assert(calls(out@) =~= calls(before).push(call@));
        i += 1;
    }
    assert(calls(out@) =~= calls(v@));
    out
}

/// One chat message in the conversation history.
#[derive(Debug, Clone)]
pub struct Message {
    /// `"system"`, `"user"`, `"assistant"`, or `"tool"`.
    pub role: String,
    /// Message content: plain text or multimodal blocks.
    pub content: MessageContent,
    /// Tool call id (required for `role: "tool"` messages).
    pub tool_call_id: Option<String>,
    /// Tool calls made by the assistant (set on `role: "assistant"` when
    /// the model requests function calls).
    pub tool_calls: Option<Vec<ToolCall>>,
}

/// The view of a [`Message`].
#[verifier::ext_equal]
pub struct MessageView {
    /// The speaker.
    pub role: Seq<char>,
    /// Message content.
    pub content: ContentView,
    /// Tool call id.
    pub tool_call_id: Option<Seq<char>>,
    /// Tool calls made by the assistant.
    pub tool_calls: Option<Seq<CallView>>,
}

impl View for Message {
    type V = MessageView;

    open spec fn view(&self) -> MessageView {
        MessageView {
            role: self.role@,
            content: self.content@,
            tool_call_id: opt_str(self.tool_call_id),
            tool_calls: match self.tool_calls {
                Some(v) => Some(calls(v@)),
                None => None,
            },
        }
    }
}

/// A message of `role` that holds plain text alone.
pub open spec fn plain(role: Seq<char>, text: Seq<char>) -> MessageView {
    MessageView { role, content: ContentView::Text(text), tool_call_id: None, tool_calls: None }
}

/// A tool result: the text that the call `call_id` gave.
pub open spec fn tool_result(call_id: Seq<char>, text: Seq<char>) -> MessageView {
    MessageView {
        role: "tool"@,
        content: ContentView::Text(text),
        tool_call_id: Some(call_id),
        tool_calls: None,
    }
}

/// The views of a history.
pub open spec fn messages(v: Seq<Message>) -> Seq<MessageView> {
    v.map_values(|m: Message| m@)
}

impl Message {
    /// A message of `role` that holds `text` alone.
    pub fn plain(role: &str, text: String) -> (r: Message)
        ensures
            r@ == plain(role@, text@),
    {
        Message {
            role: role.to_owned(),
            content: MessageContent::Text(text),
            tool_call_id: None,
            tool_calls: None,
        }
    }

    /// The result message of the tool call `call_id`.
    pub fn tool_result(call_id: String, text: String) -> (r: Message)
        ensures
            r@ == tool_result(call_id@, text@),
    {
        Message {
            role: "tool".to_owned(),
            content: MessageContent::Text(text),
            tool_call_id: Some(call_id),
            tool_calls: None,
        }
    }
}

/// A function definition for tool/function calling (OpenAI-compatible).
#[derive(Debug, Clone)]
pub struct FunctionDef {
    /// Function name.
    pub name: String,
    /// Human-readable description.
    pub description: Option<String>,
    /// JSON Schema for the function's parameters, as JSON text.
    pub parameters: String,
}

/// A tool available to the model for function calling.
#[derive(Debug, Clone)]
pub struct Tool {
    /// Must be `"function"` for OpenAI-compatible APIs.
    pub tool_type: String,
    /// The function definition.
    pub function: FunctionDef,
}

/// The view of a [`Tool`].
#[verifier::ext_equal]
pub struct ToolView {
    /// The tool's type.
    pub tool_type: Seq<char>,
    /// Function name.
    pub name: Seq<char>,
    /// Human-readable description.
    pub description: Option<Seq<char>>,
    /// JSON Schema for the function's parameters, as JSON text.
    pub parameters: Seq<char>,
}

impl View for Tool {
    type V = ToolView;

    open spec fn view(&self) -> ToolView {
        ToolView {
            tool_type: self.tool_type@,
            name: self.function.name@,
            description: opt_str(self.function.description),
            parameters: self.function.parameters@,
        }
    }
}

/// The views of a list of tools.
pub open spec fn tools(v: Seq<Tool>) -> Seq<ToolView> {
    v.map_values(|t: Tool| t@)
}

/// A function-type tool.
pub open spec fn function_tool(
    name: Seq<char>,
    description: Seq<char>,
    parameters: Seq<char>,
) -> ToolView {
    ToolView { tool_type: "function"@, name, description: Some(description), parameters }
}

impl Tool {
    /// Creates a new function-type tool; `parameters` is a JSON text.
    pub fn function(name: &str, description: &str, parameters: String) -> (r: Self)
        ensures
            r@ == function_tool(name@, description@, parameters@),
    {
        Tool {
            tool_type: "function".to_owned(),
            function: FunctionDef {
                name: name.to_owned(),
                description: Some(description.to_owned()),
                parameters,
            },
        }
    }
}

// ---------------------------------------------------------------------------
// Decoding
// ---------------------------------------------------------------------------

/// An optional string member, decoded: absent and `null` are no string, any
/// other value is a mistake.
pub open spec fn optional_text(v: Option<JsonTree>) -> Result<Option<Seq<char>>, ()> {
    match v {
        None => Ok(None),
        Some(JsonTree::Null) => Ok(None),
        Some(JsonTree::Text(s)) => Ok(Some(s)),
        _ => Err(()),
    }
}

/// An optional unsigned member, decoded.
pub open spec fn optional_u64(v: Option<JsonTree>) -> Result<Option<u64>, ()> {
    match v {
        None => Ok(None),
        Some(JsonTree::Null) => Ok(None),
        Some(JsonTree::Number(Some(n), _)) => Ok(Some(n)),
        _ => Err(()),
    }
}

/// The function of a tool call, decoded from its two members.
pub open spec fn function_of(name: Option<JsonTree>, arguments: Option<JsonTree>) -> Result<
    FunctionView,
    (),
> {
    match (optional_text(name), optional_text(arguments)) {
        (Ok(name), Ok(arguments)) => Ok(FunctionView { name, arguments }),
        _ => Err(()),
    }
}

/// An optional function, decoded: an object, whose unknown members are
/// ignored, or an array of exactly its two fields in order.
pub open spec fn optional_function(v: Option<JsonTree>) -> Result<Option<FunctionView>, ()> {
    match v {
        None => Ok(None),
        Some(JsonTree::Null) => Ok(None),
        Some(JsonTree::Table(t)) => match function_of(
            JsonTree::Table(t).member("name"@),
            JsonTree::Table(t).member("arguments"@),
        ) {
            Ok(f) => Ok(Some(f)),
            Err(_) => Err(()),
        },
        Some(JsonTree::List(l)) => if l.len() == 2 {
            match function_of(Some(l[0]), Some(l[1])) {
                Ok(f) => Ok(Some(f)),
                Err(_) => Err(()),
            }
        } else {
            Err(())
        },
        _ => Err(()),
    }
}

/// A tool call, decoded from its four members.
pub open spec fn call_of(
    index: Option<JsonTree>,
    id: Option<JsonTree>,
    call_type: Option<JsonTree>,
    function: Option<JsonTree>,
) -> Option<CallView> {
    match (
        optional_u64(index),
        optional_text(id),
        optional_text(call_type),
        optional_function(function),
    ) {
        (Ok(index), Ok(id), Ok(call_type), Ok(function)) => Some(
            CallView { index, id, call_type, function },
        ),
        _ => None,
    }
}

/// A tool call, decoded: an object, whose unknown members are ignored, or an
/// array of exactly its four fields in order.
pub open spec fn decoded_call(v: JsonTree) -> Option<CallView> {
    match v {
        JsonTree::Table(_) => call_of(
            v.member("index"@),
            v.member("id"@),
            v.member("type"@),
            v.member("function"@),
        ),
        JsonTree::List(l) => if l.len() == 4 {
            call_of(Some(l[0]), Some(l[1]), Some(l[2]), Some(l[3]))
        } else {
            None
        },
        _ => None,
    }
}

fn read_text(v: Option<&Json>) -> (r: Result<Option<String>, ()>)
    ensures
        match r {
            Ok(s) => optional_text(opt_tree(v)) == Ok::<Option<Seq<char>>, ()>(opt_str(s)),
            Err(_) => optional_text(opt_tree(v)) is Err,
        },
{
    match v {
        None => Ok(None),
        Some(Json::Null) => Ok(None),
        Some(Json::Text(s)) => Ok(Some(s.clone())),
        _ => Err(()),
    }
}

fn read_u64(v: Option<&Json>) -> (r: Result<Option<u64>, ()>)
    ensures
        r == optional_u64(opt_tree(v)),
{
    match v {
        None => Ok(None),
        Some(Json::Null) => Ok(None),
        Some(Json::Number(Some(n), _)) => Ok(Some(*n)),
        _ => Err(()),
    }
}

fn read_function(v: Option<&Json>) -> (r: Result<Option<ToolCallFunction>, ()>)
    ensures
        match r {
            Ok(Some(f)) => optional_function(opt_tree(v)) == Ok::<Option<FunctionView>, ()>(
                Some(f@),
            ),
            Ok(None) => optional_function(opt_tree(v)) == Ok::<Option<FunctionView>, ()>(None),
            Err(_) => optional_function(opt_tree(v)) is Err,
        },
{
    let (name, arguments) = match v {
        None => return Ok(None),
        Some(Json::Null) => return Ok(None),
        Some(Json::Table(_)) => {
            let table = v.unwrap();
            (table.get("name"), table.get("arguments"))
        },
        Some(Json::List(l)) => {
            if l.len() != 2 {
                return Err(());
            }
            (Some(&l[0]), Some(&l[1]))
        },
        _ => return Err(()),
    };
    match (read_text(name), read_text(arguments)) {
        (Ok(name), Ok(arguments)) => Ok(Some(ToolCallFunction { name, arguments })),
        _ => Err(()),
    }
}

/// Decodes a tool call.
pub fn decode_call(v: &Json) -> (r: Option<ToolCall>)
    ensures
        match r {
            Some(c) => decoded_call(v@) == Some(c@),
            None => decoded_call(v@) is None,
        },
{
    let (index, id, call_type, function) = match v {
        Json::Table(_) => (v.get("index"), v.get("id"), v.get("type"), v.get("function")),
        Json::List(l) => {
            if l.len() != 4 {
                return None;
            }
            (Some(&l[0]), Some(&l[1]), Some(&l[2]), Some(&l[3]))
        },
        _ => return None,
    };
    match (read_u64(index), read_text(id), read_text(call_type), read_function(function)) {
        (Ok(index), Ok(id), Ok(call_type), Ok(function)) => Some(
            ToolCall { index, id, call_type, function },
        ),
        _ => None,
    }
}

/// A tool call that is read says what was sent: its id, its type, its index,
/// and the name and the arguments of its function, each where it is there. A
/// member of another kind makes it no tool call.
pub proof fn law_calls_say_what_was_sent(v: JsonTree)
    requires
        v is Table,
    ensures
        decoded_call(v) matches Some(c) ==> {
            &&& c.id == v.member_text("id"@)
            &&& c.call_type == v.member_text("type"@)
            &&& c.index == (match v.member("index"@) {
                Some(JsonTree::Number(n, _)) => n,
                _ => None,
            })
            &&& v.member("function"@) is None ==> c.function is None
            &&& v.member("function"@) is Some && v.member("function"@)->0 is Table ==> c.function
                == Some(
                FunctionView {
                    name: (v.member("function"@)->0).member_text("name"@),
                    arguments: (v.member("function"@)->0).member_text("arguments"@),
                },
            )
        },
        v.member("id"@) is Some && v.member("id"@)->0 is Number ==> decoded_call(v) is None,
{
}

} // verus!
