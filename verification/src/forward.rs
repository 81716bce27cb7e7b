//! Call forwarding: when the LLM cannot handle a request, it invokes the
//! `forward_call` tool, which POSTs the conversation context to an external
//! service and relays that service's text response back as the tool result.

use vstd::prelude::*;

use crate::error::SkadooshError;
use crate::json::{parse_json, Json, JsonTree};
use crate::llm::message::{function_tool, Tool};
use crate::text::take_chars;

verus! {

/// The tool name the LLM invokes to forward a conversation.
pub const FORWARD_TOOL_NAME: &'static str = "forward_call";

/// Configuration for the call-forwarding endpoint.
#[derive(Debug, Clone)]
pub struct ForwardConfig {
    /// URL of the service to forward the conversation to.
    pub endpoint: String,
    /// Request timeout in seconds.
    pub timeout_secs: u64,
}

impl ForwardConfig {
    /// Creates a new config targeting `endpoint` with a 30 s default timeout.
    pub fn new(endpoint: String) -> (r: Self)
        ensures
            r.endpoint == endpoint,
            r.timeout_secs == 30,
    {
        ForwardConfig { endpoint, timeout_secs: 30 }
    }
}

/// What the model is told about `forward_call`.
pub open spec fn forward_description() -> Seq<char> {
    "Forward this conversation to another service when you cannot answer the user's question"@
}

/// The JSON schema of the arguments of `forward_call`.
pub open spec fn forward_schema() -> Seq<char> {
    "{\"properties\":{\"reason\":{\"description\":\"Why this conversation is being forwarded.\",\"type\":\"string\"},\"summary\":{\"description\":\"What to ask the forwarded service.\",\"type\":\"string\"}},\"required\":[\"reason\",\"summary\"],\"type\":\"object\"}"@
}

/// The tool definition the LLM sees when call forwarding is enabled.
///
/// Arguments the model provides: `{"reason": "...", "summary": "..."}`.
pub fn forward_tool_definition() -> (r: Tool)
    ensures
        r@ == function_tool(FORWARD_TOOL_NAME@, forward_description(), forward_schema()),
{
    Tool::function(
        FORWARD_TOOL_NAME,
        "Forward this conversation to another service when you cannot answer the user's question",
        "{\"properties\":{\"reason\":{\"description\":\"Why this conversation is being forwarded.\",\"type\":\"string\"},\"summary\":{\"description\":\"What to ask the forwarded service.\",\"type\":\"string\"}},\"required\":[\"reason\",\"summary\"],\"type\":\"object\"}".to_owned(),
    )
}

/// Whether an HTTP status reports success.
pub open spec fn is_success(status: u16) -> bool {
    200 <= status < 300
}

/// The outcome of a forwarded call: the service's text, or an error that
/// quotes the status line and the first 1024 characters of the text.
pub fn forward_outcome(status: u16, status_line: &str, text: String) -> (r: Result<
    String,
    SkadooshError,
>)
    ensures
        match r {
            Ok(t) => is_success(status) && t == text,
            Err(SkadooshError::Other(m)) => !is_success(status) && m@
                == "forward endpoint returned "@ + status_line@ + ": "@ + crate::text::prefix(
                text@,
                1024,
            ),
            Err(_) => false,
        },
{
    if 200 <= status && status < 300 {
        Ok(text)
    } else {
        let shown = take_chars(text.as_str(), 1024);
        Err(
            SkadooshError::Other(
                "forward endpoint returned ".to_owned().concat(status_line).concat(": ").concat(
                    shown.as_str(),
                ),
            ),
        )
    }
}

/// The string under `key` of a parsed value; the empty string where there is
/// none, or no value.
pub open spec fn text_or_empty(v: Result<JsonTree, Seq<char>>, key: Seq<char>) -> Seq<char> {
    match v {
        Ok(tree) => match tree.member_text(key) {
            Some(s) => s,
            None => Seq::empty(),
        },
        Err(_) => Seq::empty(),
    }
}

/// The reason and the summary in parsed arguments. Missing fields default to
/// the empty string.
pub fn forward_args_of(v: &Result<Json, String>) -> (r: (String, String))
    ensures
        r.0@ == text_or_empty(crate::json::parse_view(*v), "reason"@),
        r.1@ == text_or_empty(crate::json::parse_view(*v), "summary"@),
{
    proof {
        reveal_strlit("");
        assert(""@ =~= Seq::<char>::empty());
    }
    match v {
        Ok(json) => (json.get_text_or("reason", ""), json.get_text_or("summary", "")),
        Err(_) => (String::new(), String::new()),
    }
}

/// Parses the `{"reason": "...", "summary": "..."}` arguments the model
/// emits for a `forward_call`. Missing fields, and arguments that are no JSON,
/// default to the empty string.
pub fn parse_forward_args(arguments: &str) -> (r: (String, String))
    ensures
        r.0@ == text_or_empty(crate::json::parsed(arguments@), "reason"@),
        r.1@ == text_or_empty(crate::json::parsed(arguments@), "summary"@),
{
    forward_args_of(&parse_json(arguments))
}

/// The call-forwarding tool: where conversations are relayed to.
#[derive(Debug, Clone)]
pub struct ForwardTool {
    config: ForwardConfig,
}

impl ForwardTool {
    /// The endpoint this tool relays to.
    pub closed spec fn settings(&self) -> ForwardConfig {
        self.config
    }

    /// Creates a new `ForwardTool` for `config`.
    pub fn new(config: ForwardConfig) -> (r: Self)
        ensures
            r.settings() == config,
    {
        ForwardTool { config }
    }

    /// The config this tool was built with.
    pub fn config(&self) -> (r: &ForwardConfig)
        ensures
            *r == self.settings(),
    {
        &self.config
    }
}

} // verus!
