//! OpenAI-compatible streaming chat client with bounded history.
//!
//! [`LlmClient`] holds the conversation. [`ReplyTurn`] drives one streamed
//! reply: it is handed what came back from the network and says what to do
//! next, so the transport around it makes no decision of its own.
//!
//! History is seeded with the system prompt and truncated to the last
//! `max_history_turns` user/assistant turns so long sessions cannot overflow
//! small local models' context.

use vstd::prelude::*;

use crate::config::Config;
use crate::error::{LlmError, SkadooshError};
use crate::forward::{forward_tool_definition, ForwardConfig, ForwardTool, FORWARD_TOOL_NAME};
use crate::json::opt_str;
use crate::llm::model::{prompt_for, select_prompt};
use crate::llm::message::{
    blocks, clone_opt, function_tool, messages, plain, tools, BlockView, ContentBlock, ContentView,
    ImageUrl, Message, MessageContent, MessageView, Tool, ToolView,
};
use crate::tools::{outcome_view, ToolExecutor};
use crate::text::{chars_of, clone_strings, str_eq, string_of, strs, take_chars};

verus! {

/// Clause length bounds for the splitter fed by a streamed reply.
pub const CLAUSE_MIN_LEN: usize = 4;

/// The most characters that wait for a clause boundary.
pub const CLAUSE_MAX_LEN: usize = 160;

/// The view of an [`LlmClient`].
#[verifier::ext_equal]
pub struct ClientView {
    /// Base URL of the API, without trailing slashes.
    pub base_url: Seq<char>,
    /// Model name.
    pub model: Seq<char>,
    /// Bearer token for hosted providers.
    pub api_key: Option<Seq<char>>,
    /// How many user/assistant turns are kept.
    pub max_history_turns: nat,
    /// The system prompt.
    pub system_prompt: Seq<char>,
    /// The conversation, the system prompt first.
    pub history: Seq<MessageView>,
    /// Image paths for the next user turn.
    pub image_paths: Seq<Seq<char>>,
    /// Tool definitions sent with each request.
    pub tools: Seq<ToolView>,
    /// Tool-calling round-trips before a text response is forced.
    pub max_tool_rounds: nat,
    /// Whether tool calls are run.
    pub tool_executor: bool,
    /// The executor of the caller's that runs them, where there is one.
    pub own_executor: Option<Box<dyn ToolExecutor>>,
    /// Where `forward_call` relays conversations to, and for how many seconds
    /// it waits.
    pub forward: Option<(Seq<char>, u64)>,
    /// Whether hold music is on, where it is enabled.
    pub hold_music: Option<bool>,
}

/// What runs the tools that the model calls.
enum ToolRunner<E> {
    /// A subprocess for each call.
    Shell,
    /// An executor of the caller's.
    Own(E),
}

/// The caller's own executor.
spec fn own_of<E>(runner: Option<ToolRunner<E>>) -> Option<E> {
    match runner {
        Some(ToolRunner::Own(executor)) => Some(executor),
        _ => None,
    }
}

/// Streaming LLM client for an OpenAI-compatible `/chat/completions` API.
///
/// Supports multimodal (vision) inputs and tool/function calling.
pub struct LlmClient {
    base_url: String,
    model: String,
    api_key: Option<String>,
    max_history_turns: usize,
    system_prompt: String,
    history: Vec<Message>,
    image_paths: Vec<String>,
    tools: Vec<Tool>,
    max_tool_rounds: usize,
    tool_executor: Option<ToolRunner<Box<dyn ToolExecutor>>>,
    forward_tool: Option<ForwardTool>,
    hold_music_active: Option<bool>,
}

impl View for LlmClient {
    type V = ClientView;

    closed spec fn view(&self) -> ClientView {
        ClientView {
            base_url: self.base_url@,
            model: self.model@,
            api_key: opt_str(self.api_key),
            max_history_turns: self.max_history_turns as nat,
            system_prompt: self.system_prompt@,
            history: messages(self.history@),
            image_paths: strs(self.image_paths@),
            tools: tools(self.tools@),
            max_tool_rounds: self.max_tool_rounds as nat,
            tool_executor: self.tool_executor is Some,
            own_executor: own_of(self.tool_executor),
            forward: match self.forward_tool {
                Some(f) => Some((f.settings().endpoint@, f.settings().timeout_secs)),
                None => None,
            },
            hold_music: self.hold_music_active,
        }
    }
}

/// `s` without its trailing slashes.
pub open spec fn trim_slashes(s: Seq<char>) -> Seq<char>
    decreases s.len(),
{
    if s.len() > 0 && s.last() == '/' {
        trim_slashes(s.drop_last())
    } else {
        s
    }
}

fn without_slashes(s: &str) -> (r: String)
    ensures
        r@ == trim_slashes(s@),
{
    let v = chars_of(s);
    let mut end: usize = v.len();
    assert(v@.take(v@.len() as int) =~= v@);
    while end > 0 && v[end - 1] == '/'
        invariant
            end <= v@.len(),
            trim_slashes(v@) == trim_slashes(v@.take(end as int)),
        decreases end,
    {
        assert(v@.take(end as int).drop_last() =~= v@.take(end - 1));
        end -= 1;
    }
    let r = string_of(&v, 0, end);
    assert(r@ =~= v@.take(end as int));
    r
}

/// A fresh conversation.
pub open spec fn seeded(system_prompt: Seq<char>) -> Seq<MessageView> {
    seq![plain("system"@, system_prompt)]
}

/// A history cut down to its first message and its last `2 * turns` ones.
pub open spec fn truncated(history: Seq<MessageView>, turns: nat) -> Seq<MessageView> {
    if history.len() > 1 + 2 * turns {
        history.take(1) + history.skip(history.len() - 2 * turns)
    } else {
        history
    }
}

/// The content of a user turn: plain text where no image loaded, otherwise the
/// text followed by the images that did.
pub open spec fn turn_content(user: Seq<char>, images: Seq<Option<Seq<char>>>) -> ContentView {
    let shown = loaded(images);
    if shown.len() == 0 {
        ContentView::Text(user)
    } else {
        ContentView::Blocks(seq![BlockView::Text(user)] + shown)
    }
}

/// The blocks of the images that loaded, in order.
pub open spec fn loaded(images: Seq<Option<Seq<char>>>) -> Seq<BlockView>
    decreases images.len(),
{
    if images.len() == 0 {
        Seq::empty()
    } else {
        let rest = loaded(images.drop_last());
        match images.last() {
            Some(uri) => rest.push(BlockView::Image(uri, Some("auto"@))),
            None => rest,
        }
    }
}

/// The views of a list of optional strings.
pub open spec fn opt_strs(v: Seq<Option<String>>) -> Seq<Option<Seq<char>>> {
    v.map_values(|s: Option<String>| opt_str(s))
}

impl LlmClient {
    /// The first message of the history is the system prompt.
    pub open spec fn wf(&self) -> bool {
        self@.history.len() > 0 && self@.history[0] == plain("system"@, self@.system_prompt)
    }

    /// Creates a client; history is seeded with `system_prompt`.
    ///
    /// `api_key` unlocks hosted OpenAI-compatible providers: when `Some`,
    /// every request carries an `Authorization: Bearer <key>` header.
    pub fn new(
        base_url: &str,
        model: &str,
        system_prompt: &str,
        max_history_turns: usize,
        api_key: Option<String>,
    ) -> (r: Self)
        ensures
            r.wf(),
            r@ == (ClientView {
                base_url: trim_slashes(base_url@),
                model: model@,
                api_key: opt_str(api_key),
                max_history_turns: max_history_turns as nat,
                system_prompt: system_prompt@,
                history: seeded(system_prompt@),
                image_paths: Seq::empty(),
                tools: Seq::empty(),
                max_tool_rounds: 5,
                tool_executor: false,
                own_executor: None,
                forward: None,
                hold_music: None,
            }),
    {
        let mut history: Vec<Message> = Vec::new();
        history.push(Message::plain("system", system_prompt.to_owned()));
        let r = LlmClient {
            base_url: without_slashes(base_url),
            model: model.to_owned(),
            api_key,
            max_history_turns,
            system_prompt: system_prompt.to_owned(),
            history,
            image_paths: Vec::new(),
            tools: Vec::new(),
            max_tool_rounds: 5,
            tool_executor: None,
            forward_tool: None,
            hold_music_active: None,
        };
        assert(r@.history =~= seeded(system_prompt@));
        assert(r@.image_paths =~= Seq::empty());
        assert(r@.tools =~= Seq::empty());
        r
    }

    /// The model name this client requests.
    pub fn model_name(&self) -> (r: &str)
        ensures
            r@ == self@.model,
    {
        self.model.as_str()
    }

    /// The backend name, for logs and events: the model name.
    pub fn name(&self) -> (r: &str)
        ensures
            r@ == self@.model,
    {
        self.model_name()
    }

    /// The bearer token of each request.
    pub fn api_key(&self) -> (r: Option<&str>)
        ensures
            crate::llm::image::opt_slice(r) == self@.api_key,
    {
        match &self.api_key {
            Some(k) => Some(k.as_str()),
            None => None,
        }
    }

    /// The tool definitions sent with each request that sends any.
    pub fn tool_definitions(&self) -> (r: &Vec<Tool>)
        ensures
            tools(r@) == self@.tools,
    {
        &self.tools
    }

    /// Where `forward_call` relays conversations to, and for how long it waits.
    pub fn forward_tool(&self) -> (r: Option<&ForwardTool>)
        ensures
            match r {
                Some(f) => self@.forward == Some(
                    (f.settings().endpoint@, f.settings().timeout_secs),
                ),
                None => self@.forward is None,
            },
    {
        match &self.forward_tool {
            Some(f) => Some(f),
            None => None,
        }
    }

    /// Sets image paths for the next user turn; they are cleared when the
    /// turn starts.
    pub fn with_images(self, paths: Vec<String>) -> (r: Self)
        ensures
            r@ == (ClientView { image_paths: strs(paths@), ..self@ }),
    {
        LlmClient { image_paths: paths, ..self }
    }

    /// Clears any queued image paths.
    pub fn clear_images(&mut self)
        ensures
            final(self)@ == (ClientView { image_paths: Seq::empty(), ..old(self)@ }),
    {
        self.image_paths.clear();
        assert(self@.image_paths =~= Seq::empty());
    }

    /// Sets the tool/function definitions sent with every request; use an
    /// empty vec to disable tool calling.
    pub fn with_tools(self, new_tools: Vec<Tool>) -> (r: Self)
        ensures
            r@ == (ClientView { tools: tools(new_tools@), ..self@ }),
    {
        LlmClient { tools: new_tools, ..self }
    }

    /// Sets the maximum number of tool-calling round-trips (default: 5).
    pub fn with_max_tool_rounds(self, max: usize) -> (r: Self)
        ensures
            r@ == (ClientView { max_tool_rounds: max as nat, ..self@ }),
    {
        LlmClient { max_tool_rounds: max, ..self }
    }

    /// Sets the executor that runs the tool calls of the model. Without one
    /// they get a placeholder "not configured" result message.
    pub fn with_tool_executor(self, executor: Box<dyn ToolExecutor>) -> (r: Self)
        ensures
            r@.own_executor matches Some(own) && own == executor,
            r@ == (ClientView {
                tool_executor: true,
                own_executor: r@.own_executor,
                ..self@
            }),
    {
        let runner = ToolRunner::Own(executor);
        LlmClient { tool_executor: Some(runner), ..self }
    }

    /// Runs a tool call by the executor that [`Self::with_tool_executor`] set;
    /// `None` where there is none, and tools run as subprocesses or not at
    /// all. What the executor answers is its own affair.
    pub fn run_tool(&self, name: &str, arguments: &str) -> (r: Option<
        Result<String, SkadooshError>,
    >)
        ensures
            match self@.own_executor {
                Some(executor) => r matches Some(x) && executor.answers(
                    name@,
                    arguments@,
                    outcome_view(x),
                ),
                None => r is None,
            },
    {
        match &self.tool_executor {
            Some(ToolRunner::Own(executor)) => Some(executor.execute(name, arguments)),
            _ => None,
        }
    }

    /// Enables the hold-music flag, which is on while tools run.
    pub fn with_hold_music(self, active: bool) -> (r: Self)
        ensures
            r@ == (ClientView { hold_music: Some(active), ..self@ }),
    {
        LlmClient { hold_music_active: Some(active), ..self }
    }

    /// Returns the hold-music flag, if one was configured.
    pub fn hold_music_flag(&self) -> (r: Option<bool>)
        ensures
            r == self@.hold_music,
    {
        self.hold_music_active
    }

    /// Builds the config-default client. `file_tools` is what the tools file
    /// holds, where the configuration names one.
    ///
    /// A tools file turns tool execution on; a forwarding endpoint registers
    /// the `forward_call` tool behind the others. A known model brings its own
    /// system prompt where the configured one is the default.
    pub fn from_config(config: &Config, file_tools: Vec<Tool>) -> (r: Self)
        ensures
            r.wf(),
            r@ == (ClientView {
                base_url: trim_slashes(config.llm_url@),
                model: config.llm_model@,
                api_key: opt_str(config.api_key),
                max_history_turns: config.max_history_turns as nat,
                system_prompt: prompt_for(config.llm_model@, config.system_prompt@),
                history: seeded(prompt_for(config.llm_model@, config.system_prompt@)),
                image_paths: strs(config.images@),
                tools: (if config.tools_file is Some {
                    tools(file_tools@)
                } else {
                    Seq::empty()
                }) + (if config.forward_url is Some {
                    seq![
                        function_tool(
                            FORWARD_TOOL_NAME@,
                            crate::forward::forward_description(),
                            crate::forward::forward_schema(),
                        ),
                    ]
                } else {
                    Seq::empty()
                }),
                max_tool_rounds: config.max_tool_rounds as nat,
                tool_executor: config.tools_file is Some,
                own_executor: None,
                forward: match config.forward_url {
                    Some(url) => Some((url@, 30)),
                    None => None,
                },
                hold_music: if config.hold_music {
                    Some(false)
                } else {
                    None
                },
            }),
    {
        let mut list: Vec<Tool> = if config.tools_file.is_some() {
            file_tools
        } else {
            Vec::new()
        };
        let ghost base = list@;
        let forward_tool = match &config.forward_url {
            Some(url) => {
                list.push(forward_tool_definition());
                Some(ForwardTool::new(ForwardConfig::new(url.clone())))
            },
            None => None,
        };
        let prompt = select_prompt(config.llm_model.as_str(), config.system_prompt.as_str());
        let fresh = LlmClient::new(
            config.llm_url.as_str(),
            config.llm_model.as_str(),
            prompt.as_str(),
            config.max_history_turns,
            clone_opt(&config.api_key),
        );
        let r = LlmClient {
            image_paths: clone_strings(&config.images),
            tools: list,
            max_tool_rounds: config.max_tool_rounds,
            tool_executor: if config.tools_file.is_some() {
                Some(ToolRunner::Shell)
            } else {
                None
            },
            forward_tool,
            hold_music_active: if config.hold_music {
                Some(false)
            } else {
                None
            },
            ..fresh
        };
        proof {
            let head = if config.tools_file is Some {
                tools(file_tools@)
            } else {
                Seq::empty()
            };
            assert(tools(base) =~= head);
            let tail = if config.forward_url is Some {
                seq![
                    function_tool(
                        FORWARD_TOOL_NAME@,
                        crate::forward::forward_description(),
                        crate::forward::forward_schema(),
                    ),
                ]
            } else {
                Seq::empty()
            };
            assert(r@.tools =~= head + tail);
        }
        r
    }

    /// The image paths of the turn that starts now; none stay queued.
    pub fn take_images(&mut self) -> (r: Vec<String>)
        ensures
            strs(r@) == old(self)@.image_paths,
            final(self)@ == (ClientView { image_paths: Seq::empty(), ..old(self)@ }),
    {
        let mut taken: Vec<String> = Vec::new();
        std::mem::swap(&mut taken, &mut self.image_paths);
        assert(self@.image_paths =~= Seq::empty());
        taken
    }

    /// Appends the user message of a turn. `images` holds one entry for each
    /// image of the turn: its data URI, or `None` where it did not load.
    pub fn push_user(&mut self, user: &str, images: &Vec<Option<String>>)
        requires
            old(self).wf(),
        ensures
            final(self).wf(),
            final(self)@ == (ClientView {
                history: old(self)@.history.push(
                    MessageView {
                        role: "user"@,
                        content: turn_content(user@, opt_strs(images@)),
                        tool_call_id: None,
                        tool_calls: None,
                    },
                ),
                ..old(self)@
            }),
    {
        let ghost all = opt_strs(images@);
        let mut list: Vec<ContentBlock> = Vec::new();
        let first = ContentBlock::Text { text: user.to_owned() };
        list.push(first);
        assert(blocks(list@) =~= seq![BlockView::Text(user@)] + loaded(all.take(0)));
        let mut i: usize = 0;
        while i < images.len()
            invariant
                i <= images@.len(),
                all == opt_strs(images@),
                blocks(list@) == seq![BlockView::Text(user@)] + loaded(all.take(i as int)),
            decreases images@.len() - i,
        {
            let ghost before = list@;
            assert(all.take(i + 1).drop_last() =~= all.take(i as int));
            assert(all.take(i + 1).last() == all[i as int]);
            match &images[i] {
                Some(uri) => {
                    let block = ContentBlock::Image {
                        image_url: ImageUrl { url: uri.clone(), detail: Some("auto".to_owned()) },
                    };
                    list.push(block);
                    assert(blocks(list@) =~= blocks(before).push(block@));
                    assert(blocks(list@) =~= seq![BlockView::Text(user@)] + loaded(
                        all.take(i + 1),
                    ));
                },
                None => {},
            }
            i += 1;
        }
        assert(all.take(images@.len() as int) =~= all);
        let content = if list.len() == 1 {
            assert(blocks(list@).len() == 1 + loaded(all).len());
            MessageContent::Text(user.to_owned())
        } else {
            assert(blocks(list@).len() == 1 + loaded(all).len());
            MessageContent::Blocks(list)
        };
        let m = Message {
            role: "user".to_owned(),
            content,
            tool_call_id: None,
            tool_calls: None,
        };
        self.record(m);
    }

    /// Appends one message.
    pub(crate) fn record(&mut self, m: Message)
        requires
            old(self).wf(),
        ensures
            final(self).wf(),
            final(self)@ == (ClientView { history: old(self)@.history.push(m@), ..old(self)@ }),
    {
        let ghost before = self.history@;
        self.history.push(m);
        assert(messages(self.history@) =~= messages(before).push(m@));
    }

    /// Turns hold music on or off, where it is enabled.
    pub(crate) fn set_hold_music(&mut self, on: bool)
        ensures
            final(self)@ == (ClientView {
                hold_music: if old(self)@.hold_music is Some {
                    Some(on)
                } else {
                    None
                },
                ..old(self)@
            }),
    {
        if self.hold_music_active.is_some() {
            self.hold_music_active = Some(on);
        }
    }

    /// Tool-calling round-trips before a text response is forced.
    pub fn max_tool_rounds(&self) -> (r: usize)
        ensures
            r == self@.max_tool_rounds,
    {
        self.max_tool_rounds
    }

    /// Whether tool calls are run.
    pub fn has_tool_executor(&self) -> (r: bool)
        ensures
            r == self@.tool_executor,
    {
        self.tool_executor.is_some()
    }

    /// The URL that replies are requested from.
    pub fn completions_url(&self) -> (r: String)
        ensures
            r@ == self@.base_url + "/chat/completions"@,
    {
        self.base_url.clone().concat("/chat/completions")
    }

    /// Current conversation history (system prompt first).
    pub fn history(&self) -> (r: &Vec<Message>)
        ensures
            messages(r@) == self@.history,
    {
        &self.history
    }

    /// Resets the conversation to just the system prompt.
    pub fn clear_history(&mut self)
        ensures
            final(self).wf(),
            final(self)@ == (ClientView {
                history: seeded(old(self)@.system_prompt),
                ..old(self)@
            }),
    {
        self.history.clear();
        self.history.push(Message::plain("system", self.system_prompt.clone()));
        assert(self@.history =~= seeded(old(self)@.system_prompt));
    }

    /// Keeps the system message plus the last `max_history_turns`
    /// user/assistant turns (2 messages per turn).
    pub fn truncate_history(&mut self)
        requires
            old(self).wf(),
        ensures
            final(self).wf(),
            final(self)@ == (ClientView {
                history: truncated(old(self)@.history, old(self)@.max_history_turns),
                ..old(self)@
            }),
    {
        let n: usize = self.history.len();
        let ghost before = self.history@;
        assert(messages(before).len() == n);
        if (n - 1) / 2 >= self.max_history_turns && n - 1 > 2 * self.max_history_turns {
            let keep: usize = 2 * self.max_history_turns;
            let mut tail = self.history.split_off(n - keep);
            self.history.truncate(1);
            self.history.append(&mut tail);
            assert(messages(self.history@) =~= truncated(
                messages(before),
                self.max_history_turns as nat,
            ));
        } else {
            assert(n <= 1 + 2 * self.max_history_turns);
        }
    }
}

/// The text of the most recent `user` message, or the empty string: where
/// there is none, or where it is not plain text.
pub open spec fn last_user(history: Seq<MessageView>) -> Seq<char>
    decreases history.len(),
{
    if history.len() == 0 {
        Seq::empty()
    } else if history.last().role == "user"@ {
        match history.last().content {
            ContentView::Text(t) => t,
            ContentView::Blocks(_) => Seq::empty(),
        }
    } else {
        last_user(history.drop_last())
    }
}

/// Returns the text of the most recent `user` message in `history`, or the
/// empty string if there is none. Used as the `current_query` forwarded to an
/// external service.
pub fn last_user_text(history: &Vec<Message>) -> (r: String)
    ensures
        r@ == last_user(messages(history@)),
{
    let ghost all = messages(history@);
    let mut i: usize = history.len();
    assert(all.take(all.len() as int) =~= all);
    while i > 0
        invariant
            i <= history@.len(),
            all == messages(history@),
            last_user(all) == last_user(all.take(i as int)),
        decreases i,
    {
        let m = &history[i - 1];
        assert(all.take(i as int).last() == m@);
        assert(all.take(i as int).drop_last() =~= all.take(i - 1));
        if str_eq(m.role.as_str(), "user") {
            return match &m.content {
                MessageContent::Text(t) => t.clone(),
                MessageContent::Blocks(_) => String::new(),
            };
        }
        i -= 1;
    }
    String::new()
}

/// The error of a response whose status reports no success, with the response
/// body (truncated to 1024 chars).
pub fn ensure_success(status: u16, body: &str) -> (r: Result<(), LlmError>)
    ensures
        match r {
            Ok(_) => crate::forward::is_success(status),
            Err(LlmError::Api { status: s, body: b }) => !crate::forward::is_success(status) && s
                == status && b@ == crate::text::prefix(body@, 1024),
            Err(_) => false,
        },
{
    if 200 <= status && status < 300 {
        Ok(())
    } else {
        Err(LlmError::Api { status, body: take_chars(body, 1024) })
    }
}

// ---------------------------------------------------------------------------
// Laws
// ---------------------------------------------------------------------------

/// Truncation forgets the middle of a conversation and nothing else: the first
/// message stays, and so do as many of the last messages as the turns that are
/// kept have, two to a turn, each in its place counted from the end.
pub proof fn law_recent_messages_are_kept(history: Seq<MessageView>, turns: nat, i: int)
    requires
        history.len() > 0,
        0 <= i < 2 * turns,
        i < history.len() - 1,
    ensures
        truncated(history, turns)[0] == history[0],
        i < truncated(history, turns).len() - 1,
        truncated(history, turns)[truncated(history, turns).len() - 1 - i] == history[history.len()
            - 1 - i],
        truncated(history, turns).len() == if history.len() <= 1 + 2 * turns {
            history.len()
        } else {
            1 + 2 * turns
        },
{
}

/// The current query is what the user said last: of several user messages the
/// latest counts, whatever was answered since.
pub proof fn law_latest_user_message_counts(history: Seq<MessageView>, k: int)
    requires
        0 <= k < history.len(),
        history[k].role == "user"@,
        forall|j: int| k < j < history.len() ==> (#[trigger] history[j]).role != "user"@,
    ensures
        history[k].content matches ContentView::Text(t) ==> last_user(history) == t,
        history[k].content is Blocks ==> last_user(history) == Seq::<char>::empty(),
    decreases history.len(),
{
    if k < history.len() - 1 {
        let rest = history.drop_last();
        assert(history[history.len() - 1].role != "user"@);
        assert(rest[k] == history[k]);
        assert forall|j: int| k < j < rest.len() implies (#[trigger] rest[j]).role != "user"@ by {
            assert(rest[j] == history[j]);
        }
        law_latest_user_message_counts(rest, k);
    }
}

/// A turn shows the model the user's text first, and behind it every image that
/// loaded, in order; without any the message is the text alone.
pub proof fn law_images_follow_the_text(user: Seq<char>, images: Seq<Option<Seq<char>>>)
    ensures
        (forall|i: int| 0 <= i < images.len() ==> (#[trigger] images[i]) is None) ==> turn_content(
            user,
            images,
        ) == ContentView::Text(user),
        (exists|i: int| 0 <= i < images.len() && (#[trigger] images[i]) is Some) ==> turn_content(
            user,
            images,
        ) == ContentView::Blocks(
            seq![BlockView::Text(user)] + images.filter(
                |i: Option<Seq<char>>| i is Some,
            ).map_values(|i: Option<Seq<char>>| BlockView::Image(i->0, Some("auto"@))),
        ),
{
    lemma_loaded(images);
}

proof fn lemma_loaded(images: Seq<Option<Seq<char>>>)
    ensures
        loaded(images) == images.filter(|i: Option<Seq<char>>| i is Some).map_values(
            |i: Option<Seq<char>>| BlockView::Image(i->0, Some("auto"@)),
        ),
        loaded(images).len() == 0 <==> forall|i: int|
            0 <= i < images.len() ==> (#[trigger] images[i]) is None,
    decreases images.len(),
{
    reveal(Seq::filter);
    let some = |i: Option<Seq<char>>| i is Some;
    let block = |i: Option<Seq<char>>| BlockView::Image(i->0, Some("auto"@));
    if images.len() > 0 {
        let rest = images.drop_last();
        lemma_loaded(rest);
        assert(images[images.len() - 1] == images.last());
        assert(images.last() is Some ==> rest.filter(some).push(images.last()).map_values(block)
            =~= rest.filter(some).map_values(block).push(block(images.last())));
        if forall|i: int| 0 <= i < images.len() ==> (#[trigger] images[i]) is None {
            assert forall|i: int| 0 <= i < rest.len() implies (#[trigger] rest[i]) is None by {
                assert(rest[i] == images[i]);
            }
        }
        if images.last() is None && forall|i: int|
            0 <= i < rest.len() ==> (#[trigger] rest[i]) is None {
            assert forall|i: int| 0 <= i < images.len() implies (#[trigger] images[i]) is None by {
                if i < rest.len() {
                    assert(rest[i] == images[i]);
                }
            }
        }
    } else {
        assert(loaded(images) =~= images.filter(some).map_values(block));
    }
}

/// A base URL loses the slashes at its end and nothing else, so that a path can
/// be put behind it.
pub proof fn law_trailing_slashes_go(s: Seq<char>)
    ensures
        trim_slashes(s).len() <= s.len(),
        trim_slashes(s) == s.take(trim_slashes(s).len() as int),
        trim_slashes(s).len() > 0 ==> trim_slashes(s).last() != '/',
        forall|i: int| trim_slashes(s).len() <= i < s.len() ==> #[trigger] s[i] == '/',
    decreases s.len(),
{
    if s.len() > 0 && s.last() == '/' {
        law_trailing_slashes_go(s.drop_last());
        let r = trim_slashes(s);
        assert(r =~= s.take(r.len() as int));
        assert forall|i: int| r.len() <= i < s.len() implies #[trigger] s[i] == '/' by {
            if i < s.len() - 1 {
                assert(s.drop_last()[i] == s[i]);
            }
        }
    } else {
        assert(s.take(s.len() as int) =~= s);
    }
}

} // verus!
