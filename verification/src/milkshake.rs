//! Milkshake: a web chat in front of a local model, with tools from MCP
//! servers. What is asked of the model and of the servers, and what the
//! browser is answered, is decided here.

use vstd::prelude::*;

use crate::json::{
    elements_of, json_quote, member_of, opt_str, quote_json, read_elements, read_member,
    read_string, string_in,
};
use crate::text::{decimal, decimal_string, join, join_strings, str_eq, strs};

verus! {

// ---------------------------------------------------------------------------
// Tools
// ---------------------------------------------------------------------------

/// A function that a model may call.
#[derive(Debug, Clone)]
pub struct FunctionDef {
    /// Its name.
    pub name: String,
    /// What it does.
    pub description: String,
    /// The JSON schema of its parameters, as JSON text.
    pub parameters: String,
}

/// A tool that a model may call.
#[derive(Debug, Clone)]
pub struct ToolDef {
    /// The type, `function`.
    pub typ: String,
    /// The function.
    pub function: FunctionDef,
}

/// A [`ToolDef`] by its texts.
#[verifier::ext_equal]
pub struct DefView {
    /// The type.
    pub typ: Seq<char>,
    /// The function's name.
    pub name: Seq<char>,
    /// What it does.
    pub description: Seq<char>,
    /// The schema of its parameters.
    pub parameters: Seq<char>,
}

impl View for ToolDef {
    type V = DefView;

    open spec fn view(&self) -> DefView {
        DefView {
            typ: self.typ@,
            name: self.function.name@,
            description: self.function.description@,
            parameters: self.function.parameters@,
        }
    }
}

/// Tools by their texts.
pub open spec fn defs(v: Seq<ToolDef>) -> Seq<DefView> {
    v.map_values(|t: ToolDef| t@)
}

/// The type of a tool that names none.
pub fn function_type() -> (r: String)
    ensures
        r@ == "function"@,
{
    "function".to_owned()
}

/// The request for the tools of an MCP server.
pub fn tools_request() -> (r: String)
    ensures
        r@ == "{\"id\":1,\"jsonrpc\":\"2.0\",\"method\":\"tools/list\",\"params\":{}}"@,
{
    "{\"id\":1,\"jsonrpc\":\"2.0\",\"method\":\"tools/list\",\"params\":{}}".to_owned()
}

/// The string under `key`, or `default`.
pub open spec fn string_under(
    text: Seq<char>,
    key: Seq<char>,
    default: Seq<char>,
) -> Seq<char> {
    match member_of(text, key) {
        Some(t) => match string_in(t) {
            Some(s) => s,
            None => default,
        },
        None => default,
    }
}

/// A tool as an MCP server describes it.
pub open spec fn def_of(text: Seq<char>) -> DefView {
    DefView {
        typ: "function"@,
        name: string_under(text, "name"@, "?"@),
        description: string_under(text, "description"@, ""@),
        parameters: match member_of(text, "inputSchema"@) {
            Some(schema) => schema,
            None => "{\"properties\":{},\"type\":\"object\"}"@,
        },
    }
}

/// The texts of the tools in the answer of an MCP server.
pub open spec fn listed_tools(answer: Seq<char>) -> Option<Seq<Seq<char>>> {
    match member_of(answer, "result"@) {
        Some(result) => match member_of(result, "tools"@) {
            Some(tools) => elements_of(tools),
            None => None,
        },
        None => None,
    }
}

fn text_under_key(text: &str, key: &str, default: &str) -> (r: String)
    ensures
        r@ == string_under(text@, key@, default@),
{
    match read_member(text, key) {
        Some(t) => match read_string(t.as_str()) {
            Some(s) => s,
            None => default.to_owned(),
        },
        None => default.to_owned(),
    }
}

fn tool_of(text: &str) -> (r: ToolDef)
    ensures
        r@ == def_of(text@),
{
    let parameters = match read_member(text, "inputSchema") {
        Some(schema) => schema,
        None => "{\"properties\":{},\"type\":\"object\"}".to_owned(),
    };
    ToolDef {
        typ: function_type(),
        function: FunctionDef {
            name: text_under_key(text, "name", "?"),
            description: text_under_key(text, "description", ""),
            parameters,
        },
    }
}

/// The tools in the answer of an MCP server.
pub fn fetch_mcp_tools(answer: &str) -> (r: Result<Vec<ToolDef>, String>)
    ensures
        match listed_tools(answer@) {
            Some(texts) => match r {
                Ok(tools) => defs(tools@) == texts.map_values(|t: Seq<char>| def_of(t)),
                Err(_) => false,
            },
            None => match r {
                Ok(_) => false,
                Err(e) => e@ == "no tools array"@,
            },
        },
{
    let found = match read_member(answer, "result") {
        Some(result) => match read_member(result.as_str(), "tools") {
            Some(tools) => read_elements(tools.as_str()),
            None => None,
        },
        None => None,
    };
    match found {
        None => Err("no tools array".to_owned()),
        Some(texts) => {
            let ghost all = strs(texts@);
            let ghost want = all.map_values(|t: Seq<char>| def_of(t));
            let mut tools: Vec<ToolDef> = Vec::new();
            let mut i: usize = 0;
            assert(defs(tools@) =~= want.take(0));
            while i < texts.len()
                invariant
                    i <= texts@.len(),
                    all == strs(texts@),
                    want == all.map_values(|t: Seq<char>| def_of(t)),
                    defs(tools@) == want.take(i as int),
                decreases texts@.len() - i,
            {
                let ghost before = tools@;
                let tool = tool_of(texts[i].as_str());
                tools.push(tool);
                assert(defs(tools@) =~= defs(before).push(tool@));
                assert(want.take(i + 1) =~= want.take(i as int).push(def_of(texts@[i as int]@)));
                i += 1;
            }
            assert(want.take(want.len() as int) =~= want);
            Ok(tools)
        },
    }
}

// ---------------------------------------------------------------------------
// The servers
// ---------------------------------------------------------------------------

/// A connected MCP server.
#[derive(Debug, Clone)]
pub struct McpConnection {
    /// The name it was connected under.
    pub name: String,
    /// Its address.
    pub url: String,
    /// The tools it offers.
    pub tools: Vec<ToolDef>,
}

/// An [`McpConnection`] by its texts.
#[verifier::ext_equal]
pub struct ServerView {
    /// The name it was connected under.
    pub name: Seq<char>,
    /// Its address.
    pub url: Seq<char>,
    /// The tools it offers.
    pub tools: Seq<DefView>,
}

impl View for McpConnection {
    type V = ServerView;

    open spec fn view(&self) -> ServerView {
        ServerView { name: self.name@, url: self.url@, tools: defs(self.tools@) }
    }
}

/// Servers by their texts.
pub open spec fn servers(v: Seq<McpConnection>) -> Seq<ServerView> {
    v.map_values(|c: McpConnection| c@)
}

/// The servers but those under a name.
pub open spec fn without(v: Seq<ServerView>, name: Seq<char>) -> Seq<ServerView>
    decreases v.len(),
{
    if v.len() == 0 {
        v
    } else if v.last().name == name {
        without(v.drop_last(), name)
    } else {
        without(v.drop_last(), name).push(v.last())
    }
}

/// The tools of all servers, in order.
pub open spec fn all_tools(v: Seq<ServerView>) -> Seq<DefView>
    decreases v.len(),
{
    if v.len() == 0 {
        Seq::empty()
    } else {
        all_tools(v.drop_last()) + v.last().tools
    }
}

/// The names of tools, as JSON strings.
pub open spec fn quoted_names(tools: Seq<DefView>) -> Seq<Seq<char>> {
    tools.map_values(|t: DefView| json_quote(t.name))
}

/// A server as the browser is told of it.
pub open spec fn server_json(s: ServerView) -> Seq<char> {
    "{\"name\":"@ + json_quote(s.name) + ",\"tool_count\":"@ + decimal(s.tools.len())
        + ",\"tools\":["@ + join(quoted_names(s.tools), ","@) + "],\"url\":"@ + json_quote(s.url)
        + "}"@
}

/// The connected MCP servers, in the order in which they were connected.
#[derive(Debug)]
pub struct McpServers {
    list: Vec<McpConnection>,
}

impl View for McpServers {
    type V = Seq<ServerView>;

    closed spec fn view(&self) -> Seq<ServerView> {
        servers(self.list@)
    }
}

impl McpServers {
    /// No server.
    pub fn new() -> (r: Self)
        ensures
            r@ == Seq::<ServerView>::empty(),
    {
        let r = McpServers { list: Vec::new() };
        assert(r@ =~= Seq::<ServerView>::empty());
        r
    }

    /// Forgets the server under a name.
    pub fn disconnect(&mut self, name: &str)
        ensures
            final(self)@ == without(old(self)@, name@),
    {
        let ghost all = self@;
        let mut rest: Vec<McpConnection> = Vec::new();
        std::mem::swap(&mut rest, &mut self.list);
        let ghost list = rest@;
        let mut kept: Vec<McpConnection> = Vec::new();
        let mut done: Ghost<int> = Ghost(0);
        assert(rest@ =~= list.skip(0));
        assert(all.take(0) =~= Seq::empty());
        assert(servers(kept@) =~= Seq::empty());
        while rest.len() > 0
            invariant
                all == servers(list),
                0 <= done@ <= list.len(),
                rest@ == list.skip(done@),
                servers(kept@) == without(all.take(done@), name@),
            decreases rest@.len(),
        {
            let c = rest.remove(0);
            proof {
                assert(c == list[done@]);
                assert(all.take(done@ + 1).drop_last() =~= all.take(done@));
                assert(all.take(done@ + 1).last() == c@);
                assert(rest@ =~= list.skip(done@ + 1));
                done@ = done@ + 1;
            }
            if !str_eq(c.name.as_str(), name) {
                let ghost before = kept@;
                let ghost v = c@;
                kept.push(c);
                assert(servers(kept@) =~= servers(before).push(v));
            }
        }
        assert(all.take(all.len() as int) =~= all);
        self.list = kept;
    }

    /// Adds a server, in the place of one under the same name.
    pub fn connect(&mut self, server: McpConnection)
        ensures
            final(self)@ == without(old(self)@, server.name@).push(server@),
    {
        self.disconnect(server.name.as_str());
        let ghost before = self.list@;
        self.list.push(server);
        assert(servers(self.list@) =~= servers(before).push(server@));
    }

    /// The tools of all servers, as JSON, in order.
    pub fn tools_json(&self) -> (r: Vec<String>)
        ensures
            strs(r@) == all_tools(self@).map_values(|t: DefView| tool_json(t)),
    {
        let ghost all = self@;
        let mut out: Vec<String> = Vec::new();
        let mut i: usize = 0;
        assert(all.take(0) =~= Seq::empty());
        assert(strs(out@) =~= all_tools(all.take(0)).map_values(|t: DefView| tool_json(t)));
        while i < self.list.len()
            invariant
                all == servers(self.list@),
                i <= self.list@.len(),
                strs(out@) == all_tools(all.take(i as int)).map_values(|t: DefView| tool_json(t)),
            decreases self.list@.len() - i,
        {
            let server = &self.list[i];
            let ghost start = strs(out@);
            let ghost mine = server@.tools;
            let mut j: usize = 0;
            assert(strs(out@) =~= start + mine.take(0).map_values(|t: DefView| tool_json(t)));
            while j < server.tools.len()
                invariant
                    mine == defs(server.tools@),
                    j <= server.tools@.len(),
                    strs(out@) == start + mine.take(j as int).map_values(
                        |t: DefView| tool_json(t),
                    ),
                decreases server.tools@.len() - j,
            {
                let ghost before = out@;
                let text = write_tool(&server.tools[j]);
                out.push(text);
                assert(strs(out@) =~= strs(before).push(text@));
                assert(mine.take(j + 1).map_values(|t: DefView| tool_json(t)) =~= mine.take(
                    j as int,
                ).map_values(|t: DefView| tool_json(t)).push(text@));
                j += 1;
                assert(strs(out@) =~= start + mine.take(j as int).map_values(
                    |t: DefView| tool_json(t),
                ));
            }
            assert(mine.take(mine.len() as int) =~= mine);
            assert(all.take(i + 1).drop_last() =~= all.take(i as int));
            assert(all.take(i + 1).last() == server@);
            i += 1;
            assert(strs(out@) =~= all_tools(all.take(i as int)).map_values(
                |t: DefView| tool_json(t),
            ));
        }
        assert(all.take(all.len() as int) =~= all);
        out
    }

    /// The list of servers as the browser is told of it.
    pub fn servers_json(&self) -> (r: String)
        ensures
            r@ == "{\"servers\":["@ + join(self@.map_values(|s: ServerView| server_json(s)), ","@)
                + "]}"@,
    {
        let ghost all = self@;
        let ghost want = all.map_values(|s: ServerView| server_json(s));
        let mut out: Vec<String> = Vec::new();
        let mut i: usize = 0;
        assert(strs(out@) =~= want.take(0));
        while i < self.list.len()
            invariant
                all == servers(self.list@),
                want == all.map_values(|s: ServerView| server_json(s)),
                i <= self.list@.len(),
                strs(out@) == want.take(i as int),
            decreases self.list@.len() - i,
        {
            let ghost before = out@;
            let text = write_server(&self.list[i]);
            out.push(text);
            assert(strs(out@) =~= strs(before).push(text@));
            assert(want.take(i + 1) =~= want.take(i as int).push(text@));
            i += 1;
        }
        assert(want.take(want.len() as int) =~= want);
        "{\"servers\":[".to_owned().concat(join_strings(&out, ",").as_str()).concat("]}")
    }
}

fn write_server(s: &McpConnection) -> (r: String)
    ensures
        r@ == server_json(s@),
{
    let ghost want = quoted_names(defs(s.tools@));
    let mut names: Vec<String> = Vec::new();
    let mut i: usize = 0;
    assert(strs(names@) =~= want.take(0));
    while i < s.tools.len()
        invariant
            want == quoted_names(defs(s.tools@)),
            i <= s.tools@.len(),
            strs(names@) == want.take(i as int),
        decreases s.tools@.len() - i,
    {
        let ghost before = names@;
        let name = quote_json(s.tools[i].function.name.as_str());
        names.push(name);
        assert(strs(names@) =~= strs(before).push(name@));
        assert(want.take(i + 1) =~= want.take(i as int).push(name@));
        i += 1;
    }
    assert(want.take(want.len() as int) =~= want);
    "{\"name\":".to_owned().concat(quote_json(s.name.as_str()).as_str()).concat(
        ",\"tool_count\":",
    ).concat(decimal_string(s.tools.len() as u64).as_str()).concat(",\"tools\":[").concat(
        join_strings(&names, ",").as_str(),
    ).concat("],\"url\":").concat(quote_json(s.url.as_str()).as_str()).concat("}")
}

/// A server that was connected is there, once, and a server under another name
/// is as before.
pub proof fn law_connecting_replaces(v: Seq<ServerView>, server: ServerView, other: ServerView)
    ensures
        without(v, server.name).push(server).last() == server,
        forall|i: int|
            0 <= i < without(v, server.name).len() ==> (#[trigger] without(
                v,
                server.name,
            )[i]).name != server.name,
        other.name != server.name ==> (v.contains(other) <==> without(v, server.name).contains(
            other,
        )),
    decreases v.len(),
{
    if v.len() > 0 {
        law_connecting_replaces(v.drop_last(), server, other);
        let less = without(v.drop_last(), server.name);
        if other.name != server.name {
            if v.contains(other) {
                let i = choose|i: int| 0 <= i < v.len() && v[i] == other;
                if i < v.len() - 1 {
                    assert(v.drop_last()[i] == other);
                    let k = choose|k: int| 0 <= k < less.len() && less[k] == other;
                    assert(without(v, server.name)[k] == other);
                } else {
                    assert(without(v, server.name).last() == other);
                }
            }
            if without(v, server.name).contains(other) {
                let k = choose|k: int|
                    0 <= k < without(v, server.name).len() && without(v, server.name)[k] == other;
                if k < less.len() {
                    assert(less[k] == other);
                    let i = choose|i: int|
                        0 <= i < v.drop_last().len() && v.drop_last()[i] == other;
                    assert(v[i] == other);
                } else {
                    assert(v.last() == other);
                }
            }
        }
    }
}

// ---------------------------------------------------------------------------
// Chat
// ---------------------------------------------------------------------------

/// A message of a chat.
#[derive(Debug, Clone)]
pub struct ChatMessage {
    /// Who said it.
    pub role: String,
    /// What was said.
    pub content: String,
    /// The tool calls that it makes, as JSON text.
    pub tool_calls: Option<String>,
    /// The tool call that it answers.
    pub tool_call_id: Option<String>,
}

/// A [`ChatMessage`] by its texts.
#[verifier::ext_equal]
pub struct ChatView {
    /// Who said it.
    pub role: Seq<char>,
    /// What was said.
    pub content: Seq<char>,
    /// The tool calls that it makes, as JSON text.
    pub tool_calls: Option<Seq<char>>,
    /// The tool call that it answers.
    pub tool_call_id: Option<Seq<char>>,
}

impl View for ChatMessage {
    type V = ChatView;

    open spec fn view(&self) -> ChatView {
        ChatView {
            role: self.role@,
            content: self.content@,
            tool_calls: opt_str(self.tool_calls),
            tool_call_id: opt_str(self.tool_call_id),
        }
    }
}

/// Messages by their texts.
pub open spec fn chats(v: Seq<ChatMessage>) -> Seq<ChatView> {
    v.map_values(|m: ChatMessage| m@)
}

/// The system message of a prompt.
pub open spec fn system_message(prompt: Seq<char>) -> ChatView {
    ChatView { role: "system"@, content: prompt, tool_calls: None, tool_call_id: None }
}

/// The messages with the user's system prompt, where there is one, in front.
pub open spec fn with_prompt(messages: Seq<ChatView>, prompt: Option<Seq<char>>) -> Seq<ChatView> {
    match prompt {
        Some(p) => if p.len() > 0 {
            seq![system_message(p)] + messages
        } else {
            messages
        },
        None => messages,
    }
}

/// A tool as the model is told of it.
pub open spec fn tool_json(t: DefView) -> Seq<char> {
    "{\"function\":{\"description\":"@ + json_quote(t.description) + ",\"name\":"@ + json_quote(
        t.name,
    ) + ",\"parameters\":"@ + t.parameters + "},\"type\":"@ + json_quote(t.typ) + "}"@
}

/// A message as the model is told of it.
pub open spec fn chat_json(m: ChatView) -> Seq<char> {
    "{\"content\":"@ + json_quote(m.content) + ",\"role\":"@ + json_quote(m.role) + (
    match m.tool_call_id {
        Some(id) => ",\"tool_call_id\":"@ + json_quote(id),
        None => Seq::empty(),
    }) + (match m.tool_calls {
        Some(calls) => ",\"tool_calls\":"@ + calls,
        None => Seq::empty(),
    }) + "}"@
}

/// The request to the model.
pub open spec fn chat_payload_text(
    model: Seq<char>,
    messages: Seq<ChatView>,
    tools: Seq<Seq<char>>,
) -> Seq<char> {
    "{\"messages\":["@ + join(messages.map_values(|m: ChatView| chat_json(m)), ","@)
        + "],\"model\":"@ + json_quote(model) + ",\"stream\":true"@ + (if tools.len() > 0 {
        ",\"tools\":["@ + join(tools, ","@) + "]"@
    } else {
        Seq::empty()
    }) + "}"@
}

fn write_tool(t: &ToolDef) -> (r: String)
    ensures
        r@ == tool_json(t@),
{
    "{\"function\":{\"description\":".to_owned().concat(
        quote_json(t.function.description.as_str()).as_str(),
    ).concat(",\"name\":").concat(quote_json(t.function.name.as_str()).as_str()).concat(
        ",\"parameters\":",
    ).concat(t.function.parameters.as_str()).concat("},\"type\":").concat(
        quote_json(t.typ.as_str()).as_str(),
    ).concat("}")
}

fn write_chat(m: &ChatMessage) -> (r: String)
    ensures
        r@ == chat_json(m@),
{
    let id = match &m.tool_call_id {
        Some(id) => ",\"tool_call_id\":".to_owned().concat(quote_json(id.as_str()).as_str()),
        None => String::new(),
    };
    let calls = match &m.tool_calls {
        Some(calls) => ",\"tool_calls\":".to_owned().concat(calls.as_str()),
        None => String::new(),
    };
    "{\"content\":".to_owned().concat(quote_json(m.content.as_str()).as_str()).concat(
        ",\"role\":",
    ).concat(quote_json(m.role.as_str()).as_str()).concat(id.as_str()).concat(
        calls.as_str(),
    ).concat("}")
}

/// The messages with the user's system prompt, where there is one, in front.
pub fn inject_prompt(messages: Vec<ChatMessage>, prompt: Option<String>) -> (r: Vec<ChatMessage>)
    ensures
        chats(r@) == with_prompt(chats(messages@), opt_str(prompt)),
{
    let mut messages = messages;
    if let Some(p) = prompt {
        if p.as_str().unicode_len() > 0 {
            let ghost before = messages@;
            let first = ChatMessage {
                role: "system".to_owned(),
                content: p,
                tool_calls: None,
                tool_call_id: None,
            };
            let ghost v = first@;
            messages.insert(0, first);
            assert(chats(messages@) =~= seq![v] + chats(before));
        }
    }
    messages
}

/// The request to the model: the model asked for or the default one, the
/// messages behind the user's system prompt, and the tools of all servers.
pub fn chat_payload(
    model: Option<String>,
    default_model: &str,
    messages: Vec<ChatMessage>,
    prompt: Option<String>,
    connected: &McpServers,
) -> (r: String)
    ensures
        r@ == chat_payload_text(
            match model {
                Some(m) => m@,
                None => default_model@,
            },
            with_prompt(chats(messages@), opt_str(prompt)),
            all_tools(connected@).map_values(|t: DefView| tool_json(t)),
        ),
{
    let model = match model {
        Some(m) => m,
        None => default_model.to_owned(),
    };
    let all = inject_prompt(messages, prompt);
    let ghost want = chats(all@).map_values(|m: ChatView| chat_json(m));
    let mut texts: Vec<String> = Vec::new();
    let mut i: usize = 0;
    assert(strs(texts@) =~= want.take(0));
    while i < all.len()
        invariant
            want == chats(all@).map_values(|m: ChatView| chat_json(m)),
            i <= all@.len(),
            strs(texts@) == want.take(i as int),
        decreases all@.len() - i,
    {
        let ghost before = texts@;
        let text = write_chat(&all[i]);
        texts.push(text);
        assert(strs(texts@) =~= strs(before).push(text@));
        assert(want.take(i + 1) =~= want.take(i as int).push(text@));
        i += 1;
    }
    assert(want.take(want.len() as int) =~= want);
    let tools = connected.tools_json();
    let offered = if tools.len() > 0 {
        ",\"tools\":[".to_owned().concat(join_strings(&tools, ",").as_str()).concat("]")
    } else {
        String::new()
    };
    "{\"messages\":[".to_owned().concat(join_strings(&texts, ",").as_str()).concat(
        "],\"model\":",
    ).concat(quote_json(model.as_str()).as_str()).concat(",\"stream\":true").concat(
        offered.as_str(),
    ).concat("}")
}

// ---------------------------------------------------------------------------
// Addresses and answers
// ---------------------------------------------------------------------------

/// Where the model's server lists its models.
pub fn models_url(base: &str) -> (r: String)
    ensures
        r@ == base@ + "/api/tags"@,
{
    base.to_owned().concat("/api/tags")
}

/// Where the model's server chats.
pub fn chat_url(base: &str) -> (r: String)
    ensures
        r@ == base@ + "/api/chat"@,
{
    base.to_owned().concat("/api/chat")
}

/// The answer to a request that failed.
pub fn error_answer(message: &str) -> (r: String)
    ensures
        r@ == "{\"error\":"@ + json_quote(message@) + "}"@,
{
    "{\"error\":".to_owned().concat(quote_json(message).as_str()).concat("}")
}

/// The answer to a connect request.
pub fn connect_answer(name: &str, tool_count: usize) -> (r: String)
    ensures
        r@ == "{\"name\":"@ + json_quote(name@) + ",\"ok\":true,\"tool_count\":"@ + decimal(
            tool_count as nat,
        ) + "}"@,
{
    "{\"name\":".to_owned().concat(quote_json(name).as_str()).concat(
        ",\"ok\":true,\"tool_count\":",
    ).concat(decimal_string(tool_count as u64).as_str()).concat("}")
}

/// Forgetting a server takes it and nothing else: what stands in front of it
/// and behind it is dealt with on its own, and the order stays.
pub proof fn law_disconnecting_keeps_the_others(
    a: Seq<ServerView>,
    server: ServerView,
    b: Seq<ServerView>,
    name: Seq<char>,
)
    ensures
        without(Seq::empty(), name) == Seq::<ServerView>::empty(),
        without(a.push(server) + b, name) == (if server.name == name {
            without(a, name) + without(b, name)
        } else {
            without(a, name).push(server) + without(b, name)
        }),
    decreases b.len(),
{
    let all = a.push(server) + b;
    if b.len() == 0 {
        assert(all =~= a.push(server));
        assert(all.drop_last() =~= a);
        assert(without(all, name) =~= (if server.name == name {
            without(a, name) + without(b, name)
        } else {
            without(a, name).push(server) + without(b, name)
        }));
    } else {
        law_disconnecting_keeps_the_others(a, server, b.drop_last(), name);
        assert(all.drop_last() =~= a.push(server) + b.drop_last());
        assert(without(all, name) =~= (if server.name == name {
            without(a, name) + without(b, name)
        } else {
            without(a, name).push(server) + without(b, name)
        }));
    }
}

/// The tools of a server stand together, in its order, behind those of the
/// servers in front of it and before those of the servers behind it.
pub proof fn law_tools_follow_their_servers(
    a: Seq<ServerView>,
    server: ServerView,
    b: Seq<ServerView>,
)
    ensures
        all_tools(Seq::empty()) == Seq::<DefView>::empty(),
        all_tools(a.push(server) + b) == all_tools(a) + server.tools + all_tools(b),
    decreases b.len(),
{
    let all = a.push(server) + b;
    if b.len() == 0 {
        assert(all =~= a.push(server));
        assert(all.drop_last() =~= a);
        assert(all_tools(all) =~= all_tools(a) + server.tools + all_tools(b));
    } else {
        law_tools_follow_their_servers(a, server, b.drop_last());
        assert(all.drop_last() =~= a.push(server) + b.drop_last());
        assert(all_tools(all) =~= all_tools(a) + server.tools + all_tools(b));
    }
}

/// The conversation reaches the model as it is, behind the prompt where there
/// is one that is not empty.
pub proof fn law_prompts_stand_in_front(messages: Seq<ChatView>, prompt: Option<Seq<char>>)
    ensures
        ({
            let all = with_prompt(messages, prompt);
            if prompt is Some && (prompt->0).len() > 0 {
                &&& all.len() == messages.len() + 1
                &&& all.skip(1) == messages
                &&& all[0].role == "system"@
                &&& all[0].content == prompt->0
            } else {
                all == messages
            }
        }),
{
    assert(with_prompt(messages, prompt).skip(1) =~= messages || !(prompt is Some && (
    prompt->0).len() > 0));
}

proof fn lemma_quote_behind(
    head: Seq<char>,
    a: Seq<char>,
    x: Seq<char>,
    b: Seq<char>,
    y: Seq<char>,
)
    requires
        head + (json_quote(a) + x) == head + (json_quote(b) + y),
    ensures
        a == b,
        x == y,
{
    let n = head.len() as int;
    assert((head + (json_quote(a) + x)).skip(n) =~= json_quote(a) + x);
    assert((head + (json_quote(b) + y)).skip(n) =~= json_quote(b) + y);
    crate::json::law_quoted_strings_end_at_their_quote(a, x, b, y);
}

proof fn lemma_two_quotes(
    p: Seq<char>,
    a: Seq<char>,
    q: Seq<char>,
    b: Seq<char>,
    r: Seq<char>,
    s: Seq<char>,
    t: Seq<char>,
)
    ensures
        p + a + q + b + r + s + t == p + (a + (q + (b + (r + s + t)))),
{
    assert(p + a + q + b + r + s + t =~= p + (a + (q + (b + (r + s + t)))));
}

/// What is said in a chat and who said it reach the model: two messages are
/// written alike only where both agree, whatever they hold.
#[verifier::rlimit(30)]
pub proof fn law_messages_reach_the_model(a: ChatView, b: ChatView)
    requires
        chat_json(a) == chat_json(b),
    ensures
        a.content == b.content,
        a.role == b.role,
{
    let id_a = match a.tool_call_id {
        Some(id) => ",\"tool_call_id\":"@ + json_quote(id),
        None => Seq::<char>::empty(),
    };
    let id_b = match b.tool_call_id {
        Some(id) => ",\"tool_call_id\":"@ + json_quote(id),
        None => Seq::<char>::empty(),
    };
    let calls_a = match a.tool_calls {
        Some(calls) => ",\"tool_calls\":"@ + calls,
        None => Seq::<char>::empty(),
    };
    let calls_b = match b.tool_calls {
        Some(calls) => ",\"tool_calls\":"@ + calls,
        None => Seq::<char>::empty(),
    };
    let head = "{\"content\":"@;
    let role = ",\"role\":"@;
    lemma_two_quotes(head, json_quote(a.content), role, json_quote(a.role), id_a, calls_a, "}"@);
    lemma_two_quotes(head, json_quote(b.content), role, json_quote(b.role), id_b, calls_b, "}"@);
    let x = json_quote(a.role) + (id_a + calls_a + "}"@);
    let y = json_quote(b.role) + (id_b + calls_b + "}"@);
    lemma_quote_behind(head, a.content, role + x, b.content, role + y);
    lemma_quote_behind(
        role,
        a.role,
        id_a + calls_a + "}"@,
        b.role,
        id_b + calls_b + "}"@,
    );
}

/// The model is told the tools apart: two tools are written alike only where
/// their names and their descriptions agree.
#[verifier::rlimit(30)]
pub proof fn law_tools_are_told_apart(a: DefView, b: DefView)
    requires
        tool_json(a) == tool_json(b),
    ensures
        a.description == b.description,
        a.name == b.name,
{
    let head = "{\"function\":{\"description\":"@;
    let name = ",\"name\":"@;
    let params = ",\"parameters\":"@;
    let end_a = "},\"type\":"@ + json_quote(a.typ) + "}"@;
    let end_b = "},\"type\":"@ + json_quote(b.typ) + "}"@;
    lemma_two_quotes(
        head,
        json_quote(a.description),
        name,
        json_quote(a.name),
        params,
        a.parameters,
        end_a,
    );
    lemma_two_quotes(
        head,
        json_quote(b.description),
        name,
        json_quote(b.name),
        params,
        b.parameters,
        end_b,
    );
    let front_a = head + json_quote(a.description) + name + json_quote(a.name) + params
        + a.parameters;
    let front_b = head + json_quote(b.description) + name + json_quote(b.name) + params
        + b.parameters;
    assert(tool_json(a) =~= front_a + end_a);
    assert(tool_json(b) =~= front_b + end_b);
    let x = json_quote(a.name) + (params + a.parameters + end_a);
    let y = json_quote(b.name) + (params + b.parameters + end_b);
    lemma_quote_behind(head, a.description, name + x, b.description, name + y);
    lemma_quote_behind(
        name,
        a.name,
        params + a.parameters + end_a,
        b.name,
        params + b.parameters + end_b,
    );
}

} // verus!
