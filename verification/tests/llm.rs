//! The LLM client: messages, server-sent events, clauses and turns.

use skadoosh::config::Config;
use skadoosh::error::{LlmError, SkadooshError};
use skadoosh::forward::{
    forward_outcome, forward_tool_definition, parse_forward_args, ForwardConfig, ForwardTool,
    FORWARD_TOOL_NAME,
};
use skadoosh::llm::client::{ensure_success, last_user_text};
use skadoosh::llm::image::mime_from_ext;
use skadoosh::llm::model::{find_model, is_emotion_aware, known_models, select_prompt};
use skadoosh::llm::reply::{
    plan_tools, ReplyAction, ReplyEvent, ReplyPhase, ReplyRound, ReplyTurn,
};
use skadoosh::llm::scripted::{ScriptedLlm, SlowEvent, SlowLlm, SlowStep, StreamingLlm};
use skadoosh::llm::sse::{SseDelta, SseLineBuffer};
use skadoosh::llm::{
    image_to_data_uri, parse_sse_delta, parse_sse_line, ClauseSplitter, LlmClient, MessageContent,
    Tool,
};
use skadoosh::tools::{NoopExecutor, ToolExecutor};

/// `from_config` auto-registers the `forward_call` tool definition and a
/// [`ForwardTool`] when `forward_url` is set, and registers neither when it is
/// unset.
#[test]
fn from_config_registers_forward_tool_when_url_set() {
    let config = Config {
        forward_url: Some("http://example/forward".to_string()),
        ..Default::default()
    };

    let client = LlmClient::from_config(&config, Vec::new());
    let names: Vec<&str> = client
        .tool_definitions()
        .iter()
        .map(|t| t.function.name.as_str())
        .collect();
    assert!(
        names.contains(&FORWARD_TOOL_NAME),
        "forward_call tool must be registered: {names:?}"
    );
    assert!(
        client.forward_tool().is_some(),
        "ForwardTool executor must be wired when --forward-url is set"
    );
    assert_eq!(client.forward_tool().unwrap().config().timeout_secs, 30);

    // Without forward_url, neither the tool nor the executor is present.
    let bare = LlmClient::from_config(&Config::default(), Vec::new());
    let bare_names: Vec<&str> = bare
        .tool_definitions()
        .iter()
        .map(|t| t.function.name.as_str())
        .collect();
    assert!(
        !bare_names.contains(&FORWARD_TOOL_NAME),
        "forward_call must not be registered without --forward-url: {bare_names:?}"
    );
    assert!(bare.forward_tool().is_none());
}

fn client() -> LlmClient {
    LlmClient::new("http://host/v1/", "m", "be brief", 2, None)
}

fn echo_tool() -> Tool {
    Tool::function("echo", "Echoes.", "{}".to_string())
}

/// Answers a call with what it was called with.
struct Parrot;

impl ToolExecutor for Parrot {
    fn execute(&self, name: &str, arguments: &str) -> Result<String, SkadooshError> {
        Ok(format!("{name} {arguments}"))
    }
}

#[test]
fn tools_are_run_by_the_executor_that_was_set() {
    let c = client().with_tool_executor(Box::new(Parrot));
    assert!(c.has_tool_executor());
    assert!(matches!(c.run_tool("echo", "{}"), Some(Ok(text)) if text == "echo {}"));
    // A tools file brings subprocesses, which are not run here.
    let config = Config {
        tools_file: Some("tools.json".to_string()),
        ..Default::default()
    };
    let c = LlmClient::from_config(&config, Vec::new());
    assert!(c.has_tool_executor());
    assert!(c.run_tool("echo", "{}").is_none());
}

#[test]
fn clients_are_built_from_their_settings() {
    let c = client();
    assert_eq!(c.completions_url(), "http://host/v1/chat/completions");
    assert_eq!(c.model_name(), "m");
    assert!(c.api_key().is_none());
    assert_eq!(c.history().len(), 1);
    assert_eq!(c.history()[0].role, "system");
    let c = client()
        .with_max_tool_rounds(1)
        .with_tools(vec![echo_tool()])
        .with_tool_executor(Box::new(NoopExecutor::new()))
        .with_hold_music(false);
    assert_eq!(c.max_tool_rounds(), 1);
    assert!(c.has_tool_executor());
    assert_eq!(c.hold_music_flag(), Some(false));
    assert!(matches!(c.run_tool("echo", "{}"), Some(Ok(text)) if text.contains("not configured")));
    assert!(client().run_tool("echo", "{}").is_none());
}

#[test]
fn known_models_bring_their_prompt() {
    let config = Config {
        llm_model: "stealthylm".to_string(),
        ..Default::default()
    };
    let c = LlmClient::from_config(&config, Vec::new());
    let prompt = find_model("stealthylm").unwrap().system_prompt.unwrap();
    assert_eq!(c.history()[0].content.as_text(), Some(prompt));
    assert!(is_emotion_aware("stealthylm"));
    assert!(!is_emotion_aware("qwen2.5:0.5b"));
    assert_eq!(known_models().len(), 2);
    assert_eq!(select_prompt("stealthylm", "mine"), "mine");
}

#[test]
fn images_go_with_one_turn() {
    let mut c = client().with_images(vec!["a.png".to_string()]);
    assert_eq!(c.take_images(), vec!["a.png"]);
    assert!(c.take_images().is_empty());
    let mut cleared = client().with_images(vec!["b.png".to_string()]);
    cleared.clear_images();
    assert!(cleared.take_images().is_empty());
    c.push_user("look", &vec![Some("data:x".to_string()), None]);
    assert!(matches!(
        c.history()[1].content,
        MessageContent::Blocks(ref b) if b.len() == 2
    ));
    c.push_user("plain", &Vec::new());
    assert!(c.history()[2].content.eq("plain"));
    assert_eq!(last_user_text(c.history()), "plain");
    c.clear_history();
    assert_eq!(c.history().len(), 1);
}

#[test]
fn history_is_bounded() {
    let mut c = client();
    for i in 0..5 {
        c.push_user(&format!("q{i}"), &Vec::new());
    }
    c.truncate_history();
    assert_eq!(c.history()[0].role, "system");
    assert_eq!(last_user_text(c.history()), "q4");
    assert!(c.history().len() <= 5);
}

#[test]
fn refusals_are_cut_short() {
    assert!(ensure_success(204, "").is_ok());
    let long = "x".repeat(3000);
    match ensure_success(500, &long) {
        Err(LlmError::Api { status, body }) => {
            assert_eq!(status, 500);
            assert_eq!(body.len(), 1024);
        }
        _ => panic!("expected Api"),
    }
}

#[test]
fn data_uris_carry_base64() {
    assert_eq!(
        image_to_data_uri(Some("jpg"), b"hi!"),
        "data:image/jpeg;base64,aGkh"
    );
    for (bytes, text) in [
        (&b""[..], ""),
        (b"f", "Zg=="),
        (b"fo", "Zm8="),
        (b"foob", "Zm9vYg=="),
        (b"foobar", "Zm9vYmFy"),
        (b"\xfb\xff\xbe", "+/++"),
    ] {
        let want = format!("data:image/png;base64,{text}");
        assert_eq!(image_to_data_uri(None, bytes), want);
    }
    assert_eq!(mime_from_ext(Some("pdf")), "application/pdf");
    assert_eq!(mime_from_ext(None), "image/png");
}

#[test]
fn sse_lines_survive_chunking() {
    let mut buf = SseLineBuffer::default();
    assert!(buf.feed(b"data: a\r\nda"));
    assert_eq!(buf.next_line(), Some("data: a\r\n".to_string()));
    assert_eq!(buf.next_line(), None);
    assert!(buf.feed(b"ta: b"));
    assert_eq!(buf.next_line(), None);
    buf.close();
    assert_eq!(buf.next_line(), Some("data: b".to_string()));
    assert_eq!(buf.next_line(), None);
    assert!(!SseLineBuffer::default().feed(&vec![b'x'; 1 << 24]));
}

fn text_chunk(s: &str) -> String {
    format!("data: {{\"choices\":[{{\"delta\":{{\"content\":\"{s}\"}}}}]}}")
}

#[test]
fn sse_lines_are_parsed() {
    assert!(matches!(
        parse_sse_delta(&text_chunk("hi")),
        Some(Ok(SseDelta::Text(ref s))) if s == "hi"
    ));
    assert!(matches!(
        parse_sse_delta("data: [DONE]"),
        Some(Ok(SseDelta::Done))
    ));
    assert!(parse_sse_delta(": ping").is_none());
    assert!(parse_sse_delta("data: {\"choices\":[]}").is_none());
    let call = "data: {\"choices\":[{\"delta\":{\"tool_calls\":[{\"index\":0,\"id\":\"c\",\"function\":{\"name\":\"echo\",\"arguments\":\"{\"}}]}}]}";
    assert!(matches!(
        parse_sse_delta(call),
        Some(Ok(SseDelta::ToolCall(ref t))) if t.id.as_deref() == Some("c")
    ));
    assert_eq!(
        parse_sse_line(&text_chunk("hi")).unwrap().unwrap(),
        Some("hi".to_string())
    );
    assert!(matches!(parse_sse_line("data: [DONE]"), Some(Ok(None))));
    assert!(parse_sse_delta("data: {bad").unwrap().is_err());
}

#[test]
fn clauses_end_at_punctuation() {
    let mut s = ClauseSplitter::new(4, 160);
    assert_eq!(s.push("Hello there. How"), vec!["Hello there."]);
    assert_eq!(s.push(" are you? I"), vec![" How are you?"]);
    assert_eq!(s.flush(), Some(" I".to_string()));
    assert_eq!(s.flush(), None);
    let mut s = ClauseSplitter::new(4, 10);
    // A hard flush drops the white space that it cuts at.
    assert_eq!(s.push("aaaa bbbb cccc"), vec!["aaaa bbbb"]);
    assert_eq!(s.flush(), Some("cccc".to_string()));
    assert_eq!(s.push("aaaaaaaaaaaaa"), vec!["aaaaaaaaaa"]);
}

#[test]
fn clauses_make_up_what_was_pushed() {
    let text = "One two,  three four. Five six seven eight nine\n ten! El  ";
    for (size, max) in [(1, 160), (3, 160), (7, 160), (1, 9), (5, 9), (64, 9)] {
        let chars: Vec<char> = text.chars().collect();
        let mut s = ClauseSplitter::new(4, max);
        let mut out: Vec<String> = Vec::new();
        for chunk in chars.chunks(size) {
            out.extend(s.push(&chunk.iter().collect::<String>()));
        }
        out.extend(s.flush());
        assert!(out.iter().all(|clause| !clause.is_empty()));
        let said = out.concat();
        let letters = |s: &str| s.split_whitespace().collect::<String>();
        assert_eq!(letters(&said), letters(text));
        if max == 160 {
            assert_eq!(said, text);
        }
    }
    // A blank rest is dropped.
    let mut s = ClauseSplitter::new(4, 160);
    assert_eq!(s.push("Done.  "), ["Done."]);
    assert_eq!(s.flush(), None);
}

fn sent(action: ReplyAction) -> Vec<String> {
    match action {
        ReplyAction::Send(clauses) => clauses,
        _ => panic!("expected clauses"),
    }
}

#[test]
fn turns_stream_their_clauses() {
    let mut c = client();
    c.push_user("hi", &Vec::new());
    let (mut turn, first) = ReplyTurn::start(&c);
    assert!(matches!(first, ReplyAction::Post { send_tools: false }));
    assert!(matches!(
        turn.step(&mut c, ReplyEvent::Opened),
        ReplyAction::Read
    ));
    let chunk = format!("{}\n", text_chunk("Hello you. Bye"));
    let clauses = sent(turn.step(&mut c, ReplyEvent::Chunk(chunk.into_bytes())));
    assert_eq!(clauses, vec!["Hello you."]);
    assert!(matches!(
        turn.step(&mut c, ReplyEvent::Sent(true)),
        ReplyAction::Read
    ));
    assert!(sent(turn.step(&mut c, ReplyEvent::Closed)).is_empty());
    assert_eq!(sent(turn.step(&mut c, ReplyEvent::Sent(true))), vec![" Bye"]);
    assert!(matches!(
        turn.step(&mut c, ReplyEvent::Sent(true)),
        ReplyAction::Finished
    ));
    assert_eq!(turn.phase(), ReplyPhase::Over);
    let last = c.history().last().unwrap();
    assert_eq!(last.role, "assistant");
    assert!(last.content.eq("Hello you. Bye"));
}

#[test]
fn cancelled_turns_leave_no_reply() {
    let mut c = client();
    c.push_user("hi", &Vec::new());
    let (mut turn, _) = ReplyTurn::start(&c);
    turn.step(&mut c, ReplyEvent::Opened);
    assert!(matches!(
        turn.step(&mut c, ReplyEvent::Cancelled),
        ReplyAction::Failed(LlmError::Cancelled)
    ));
    assert_eq!(c.history().last().unwrap().role, "user");
}

#[test]
fn refused_turns_fail() {
    let mut c = client();
    let (mut turn, _) = ReplyTurn::start(&c);
    assert!(matches!(
        turn.step(&mut c, ReplyEvent::Refused(401, "no".to_string())),
        ReplyAction::Failed(LlmError::Api { status: 401, .. })
    ));
    let (mut turn, _) = ReplyTurn::start(&c);
    assert!(matches!(
        turn.step(&mut c, ReplyEvent::PostFailed("down".to_string())),
        ReplyAction::Failed(LlmError::Http(_))
    ));
    let (mut turn, _) = ReplyTurn::start(&c);
    turn.step(&mut c, ReplyEvent::Opened);
    assert!(matches!(
        turn.step(&mut c, ReplyEvent::Chunk(vec![b'x'; 1 << 24])),
        ReplyAction::Failed(LlmError::Sse(_))
    ));
}

fn call_chunk() -> Vec<u8> {
    let a = "data: {\"choices\":[{\"delta\":{\"tool_calls\":[{\"index\":0,\"id\":\"c1\",\"type\":\"function\",\"function\":{\"name\":\"echo\",\"arguments\":\"{\\\"a\\\"\"}}]}}]}\n";
    let b = "data: {\"choices\":[{\"delta\":{\"tool_calls\":[{\"index\":0,\"function\":{\"arguments\":\":1}\"}}]}}]}\n";
    format!("{a}{b}data: [DONE]\n").into_bytes()
}

#[test]
fn tool_calls_make_a_round_trip() {
    let mut c = client()
        .with_tools(vec![echo_tool()])
        .with_tool_executor(Box::new(NoopExecutor::new()))
        .with_max_tool_rounds(1)
        .with_hold_music(false);
    c.push_user("hi", &Vec::new());
    let (mut turn, first) = ReplyTurn::start(&c);
    assert!(matches!(first, ReplyAction::Post { send_tools: true }));
    turn.step(&mut c, ReplyEvent::Opened);
    turn.step(&mut c, ReplyEvent::Chunk(call_chunk()));
    turn.step(&mut c, ReplyEvent::Sent(true));
    match turn.step(&mut c, ReplyEvent::Sent(true)) {
        ReplyAction::RunTools {
            forwards, tools, ..
        } => {
            assert!(forwards.is_empty());
            assert_eq!(tools.len(), 1);
            assert_eq!(tools[0].name, "echo");
            assert_eq!(tools[0].arguments, "{\"a\":1}");
            assert_eq!(tools[0].call_id, "c1");
        }
        _ => panic!("expected tools"),
    }
    assert_eq!(c.hold_music_flag(), Some(true));
    let ran = vec![("c1".to_string(), Ok("done".to_string()))];
    // The last round offers no tools.
    assert!(matches!(
        turn.step(&mut c, ReplyEvent::ToolsRan(ran)),
        ReplyAction::Post { send_tools: false }
    ));
    assert_eq!(c.hold_music_flag(), Some(false));
    let last = c.history().last().unwrap();
    assert_eq!(last.role, "tool");
    assert_eq!(last.tool_call_id.as_deref(), Some("c1"));
}

#[test]
fn only_offered_tools_run() {
    let mut round = ReplyRound::new();
    let mut total = String::new();
    assert!(round.feed(&call_chunk()));
    round.drain(&mut total);
    assert!(round.is_done());
    let calls = round.take_calls();
    assert_eq!(calls.len(), 1);
    assert_eq!(plan_tools(&vec![echo_tool()], &calls).len(), 1);
    assert!(plan_tools(&Vec::new(), &calls).is_empty());
}

#[test]
fn forwards_are_configured_and_checked() {
    let tool = ForwardTool::new(ForwardConfig::new("http://x".to_string()));
    assert_eq!(tool.config().timeout_secs, 30);
    assert_eq!(forward_tool_definition().function.name, FORWARD_TOOL_NAME);
    assert_eq!(
        parse_forward_args(r#"{"reason":"r","summary":"s"}"#),
        ("r".to_string(), "s".to_string())
    );
    assert_eq!(parse_forward_args("junk"), (String::new(), String::new()));
    assert_eq!(
        forward_outcome(200, "200 OK", "body".to_string()).unwrap(),
        "body"
    );
    match forward_outcome(502, "502 Bad Gateway", "why".to_string()) {
        Err(SkadooshError::Other(m)) => {
            assert_eq!(m, "forward endpoint returned 502 Bad Gateway: why")
        }
        _ => panic!("expected an error"),
    }
}

fn clauses(list: &[&str]) -> Vec<String> {
    list.iter().map(|s| s.to_string()).collect()
}

#[test]
fn scripted_turns_come_in_order() {
    let mut llm = ScriptedLlm::new()
        .turn(&clauses(&["a ", "b"]))
        .turn(&clauses(&["c"]));
    assert_eq!(llm.name(), "scripted-llm");
    assert_eq!(llm.stream_reply(), vec!["a ", "b"]);
    assert_eq!(llm.stream_reply(), vec!["c"]);
    assert_eq!(llm.stream_reply(), vec!["(no scripted reply)"]);
    let mut llm = StreamingLlm::new().turn(&clauses(&["x"]));
    assert_eq!(llm.name(), "streaming-llm");
    llm.clear_history();
    assert_eq!(llm.stream_reply(), vec!["(no scripted reply)"]);
}

#[test]
fn slow_backends_honor_cancellation() {
    let llm = SlowLlm {
        clauses: clauses(&["one", "two"]),
        delay_ms: 60,
    };
    assert_eq!(llm.name(), "slow-llm");
    assert!(matches!(
        llm.stream_reply(0, SlowEvent::Ready),
        SlowStep::Wait(60)
    ));
    assert!(matches!(
        llm.stream_reply(1, SlowEvent::Waited),
        SlowStep::Send(ref s) if s == "two"
    ));
    assert!(matches!(
        llm.stream_reply(2, SlowEvent::Ready),
        SlowStep::Done
    ));
    assert!(matches!(
        llm.stream_reply(1, SlowEvent::Cancelled),
        SlowStep::Failed(LlmError::Cancelled)
    ));
    assert!(matches!(
        llm.stream_reply(1, SlowEvent::Closed),
        SlowStep::Done
    ));
}
