//! Configuration, wave files, watchers, the web chat and the rest.

use skadoosh::bytes::{u16_le, u32_le, u64_le};
use skadoosh::config::{Config, ConfigFault, ConfigWarning, FieldValue, FilesPresent, RunMode};
use skadoosh::error::{AudioError, LlmError, SkadooshError, SttError, TtsError, VadError};
use skadoosh::float_bits::{at_least, is_in_unit_range};
use skadoosh::gpu::{gpu_execution_provider, GpuFeatures};
use skadoosh::json::{parse_json, read_elements, read_member, read_string, Json};
use skadoosh::milkshake::{
    chat_payload, chat_url, connect_answer, error_answer, fetch_mcp_tools, function_type,
    models_url, tools_request, ChatMessage, McpConnection, McpServers,
};
use skadoosh::sorted::SortedMap;
use skadoosh::text::{
    decimal_string, join_strings, lines_of, parse_unsigned, signed_string, split_words, take_chars,
    trim,
};
use skadoosh::tts::{build_engine, choose_engine, EngineKind};
use skadoosh::watch::{
    file_event, plan_watchers, process_step, watch_target, FileEventKind, ProcessStep, WatchConfig,
    WatchEvent, WatchTask,
};
use skadoosh::wav::{read_wav, write_wav16};

fn all_files() -> FilesPresent {
    FilesPresent {
        whisper: true,
        vad: true,
        selftest: true,
        tts_model: true,
        tts_voices: true,
    }
}

fn no_files() -> FilesPresent {
    FilesPresent {
        whisper: false,
        vad: false,
        selftest: false,
        tts_model: false,
        tts_voices: false,
    }
}

#[test]
fn valid_configurations_pass() {
    assert!(Config::default().validate(all_files()).is_ok());
    let c = Config {
        list_devices: true,
        vad_threshold: 7.0f32.to_bits(),
        ..Default::default()
    };
    assert!(c.validate(no_files()).is_ok());
    let c = Config {
        say: Some("x".to_string()),
        ..Default::default()
    };
    assert!(c.validate(no_files()).is_ok());
}

#[test]
fn faulty_configurations_are_refused() {
    let c = Config::default();
    assert_eq!(c.validate(no_files()).unwrap_err(), ConfigFault::WhisperModel);
    assert_eq!(
        ConfigFault::WhisperModel.message(&c, ""),
        "--whisper-model not found: models/ggml-tiny.en.bin (run scripts/download_models.sh)"
    );
    let mut files = all_files();
    files.vad = false;
    assert_eq!(c.validate(files).unwrap_err(), ConfigFault::VadModel);
    let c = Config {
        vad_threshold: 1.0f32.to_bits(),
        ..Default::default()
    };
    assert_eq!(
        c.validate(all_files()).unwrap_err(),
        ConfigFault::VadThreshold
    );
    let c = Config {
        repl: true,
        say: Some("x".to_string()),
        ..Default::default()
    };
    assert_eq!(
        c.validate(all_files()).unwrap_err(),
        ConfigFault::Conflict(RunMode::Repl, RunMode::Say)
    );
    assert_eq!(
        ConfigFault::Conflict(RunMode::Repl, RunMode::Say).message(&c, ""),
        "--repl and --say cannot be combined"
    );
    let c = Config {
        out_wav: Some("x".to_string()),
        ..Default::default()
    };
    assert_eq!(
        c.validate(all_files()).unwrap_err(),
        ConfigFault::OutWavWithoutSay
    );
    let c = Config {
        selftest: Some("x.wav".to_string()),
        ..Default::default()
    };
    let mut files = all_files();
    files.selftest = false;
    assert_eq!(c.validate(files).unwrap_err(), ConfigFault::SelftestWav);
}

#[test]
fn incomplete_tts_files_are_warned_about() {
    let c = Config {
        tts_model: Some("m".to_string()),
        ..Default::default()
    };
    let warnings = c.validate(all_files()).unwrap();
    assert!(warnings.contains(&ConfigWarning::TtsFilesIncomplete));
    let warnings = Config::default().validate(all_files()).unwrap();
    assert!(warnings.contains(&ConfigWarning::NoTtsModel));
}

#[test]
fn the_key_is_never_shown() {
    let c = Config {
        api_key: Some("hush".to_string()),
        ..Default::default()
    };
    for (name, value) in c.fmt() {
        assert!(!format!("{value:?}").contains("hush"), "{name}");
    }
    assert!(c
        .fmt()
        .iter()
        .any(|(n, v)| *n == "silence_ms" && matches!(v, FieldValue::Count(300))));
}

#[test]
fn kokoro_needs_its_files() {
    let c = Config {
        tts_model: Some("m".to_string()),
        tts_voices: Some("v".to_string()),
        tts_emotion: true,
        ..Default::default()
    };
    assert_eq!(choose_engine(&c, all_files()), EngineKind::Kokoro);
    assert_eq!(choose_engine(&c, no_files()), EngineKind::Mock);
    assert_eq!(build_engine(&c, all_files(), true), (EngineKind::Kokoro, true));
    assert_eq!(build_engine(&c, all_files(), false), (EngineKind::Mock, true));
}

#[test]
fn floats_are_compared_by_their_bits() {
    assert!(at_least(0.5f32.to_bits(), 0.5f32.to_bits()));
    assert!(at_least(0.0f32.to_bits(), (-0.0f32).to_bits()));
    assert!(!at_least(f32::NAN.to_bits(), 0.0f32.to_bits()));
    assert!(at_least((-1.0f32).to_bits(), (-2.0f32).to_bits()));
    assert!(is_in_unit_range(0.0f32.to_bits()));
    assert!(!is_in_unit_range(1.0f32.to_bits()));
    assert!(!is_in_unit_range((-0.1f32).to_bits()));
}

#[test]
fn written_waves_are_read_back() {
    let samples = vec![0i16, 1, -1, i16::MAX, i16::MIN];
    let file = write_wav16(&samples, 24_000);
    let wav = read_wav("a.wav", &file).unwrap();
    assert_eq!(wav.format.rate, 24_000);
    assert_eq!(wav.format.channels, 1);
    assert_eq!(wav.format.bits, 16);
    let back: Vec<i16> = wav.samples.iter().map(|&s| s as i16).collect();
    assert_eq!(back, samples);
    assert!(read_wav("a.wav", &b"junk".to_vec()).is_err());
    for cut in 0..44 {
        assert!(read_wav("a.wav", &file[..cut].to_vec()).is_err(), "{cut}");
    }
}

#[test]
fn waves_of_other_writers_are_read() {
    let spec = hound::WavSpec {
        channels: 2,
        sample_rate: 16_000,
        bits_per_sample: 16,
        sample_format: hound::SampleFormat::Int,
    };
    let mut bytes = std::io::Cursor::new(Vec::new());
    let mut writer = hound::WavWriter::new(&mut bytes, spec).unwrap();
    for s in [1i16, -1, 32_000, -32_000] {
        writer.write_sample(s).unwrap();
    }
    writer.finalize().unwrap();
    let wav = read_wav("b.wav", &bytes.into_inner()).unwrap();
    assert_eq!(wav.samples, vec![1, -1, 32_000, -32_000]);
    assert_eq!(wav.format.channels, 2);
}

#[test]
fn integers_are_read_little_endian() {
    let b = [1u8, 2, 3, 4, 5, 6, 7, 8];
    assert_eq!(u16_le(&b, 1), Some(0x0302));
    assert_eq!(u32_le(&b, 0), Some(0x0403_0201));
    assert_eq!(u64_le(&b, 0), Some(0x0807_0605_0403_0201));
    assert_eq!(u16_le(&b, 7), None);
    assert_eq!(u64_le(&b, usize::MAX), None);
}

#[test]
fn watchers_follow_the_configuration() {
    assert!(WatchConfig::default().is_empty());
    let c = WatchConfig {
        files: vec!["/a/b".to_string()],
        processes: vec![7],
        timers: vec![3],
    };
    let plan = plan_watchers(&c);
    assert_eq!(plan.len(), 3);
    assert!(matches!(plan[1], WatchTask::Process(7)));
    assert_eq!(watch_target("/a/b", Some("/a")), ("/a".to_string(), true));
    assert_eq!(watch_target("b", Some("")), ("b".to_string(), false));
    let hit = vec!["/a/b".to_string()];
    assert!(file_event("/a/b", true, FileEventKind::Modify, &hit).is_some());
    assert!(file_event("/a/b", true, FileEventKind::Access, &hit).is_none());
    assert!(file_event("/a/b", true, FileEventKind::Modify, &vec!["/a/c".to_string()]).is_none());
    assert_eq!(process_step(true, false), ProcessStep::GiveUp);
    assert_eq!(process_step(false, false), ProcessStep::Report);
    assert_eq!(process_step(false, true), ProcessStep::Poll);
    assert_eq!(
        WatchEvent::FileChanged("/a/b".to_string()).message(),
        "The file /a/b has changed."
    );
    assert_eq!(
        WatchEvent::TimerElapsed("3".to_string()).message(),
        "Your 3-second timer is up."
    );
}

#[test]
fn the_first_gpu_provider_wins() {
    assert_eq!(gpu_execution_provider(GpuFeatures::default()), None);
    let both = GpuFeatures {
        cuda: true,
        rocm: true,
        ..Default::default()
    };
    assert_eq!(gpu_execution_provider(both), Some("CUDAExecutionProvider"));
    let rocm = GpuFeatures {
        rocm: true,
        ..Default::default()
    };
    assert_eq!(gpu_execution_provider(rocm), Some("ROCMExecutionProvider"));
}

#[test]
fn errors_are_written_out() {
    assert_eq!(
        SkadooshError::from(AudioError::NoDevice).message(),
        "no suitable audio device found"
    );
    let bad = VadError::BadFrameLen {
        expected: 512,
        actual: 1,
    };
    assert!(SkadooshError::from(bad).message().contains("512"));
    assert!(!SkadooshError::from(SttError::WorkerGone).message().is_empty());
    assert!(SkadooshError::from(LlmError::Sse("x".to_string()))
        .message()
        .ends_with('x'));
    assert!(SkadooshError::from(TtsError::Inference("y".to_string()))
        .message()
        .ends_with('y'));
}

#[test]
fn json_is_opened() {
    let v = parse_json(r#"{"a":[1,{"b":"x"}],"c":null,"d":-1.5}"#).unwrap();
    assert!(matches!(v.get("c"), Some(Json::Null)));
    assert!(matches!(v.get("d"), Some(Json::Number(None, _))));
    match v.get("a") {
        Some(Json::List(list)) => {
            assert!(matches!(list[0], Json::Number(Some(1), _)));
            assert_eq!(list[1].get_text("b"), Some("x".to_string()));
        }
        _ => panic!("no list"),
    }
    assert!(v.get("z").is_none());
    assert!(parse_json("{").is_err());
    // The text of a number does not change with how deep it stands.
    for number in ["0.30000000000000004", "1.7976931348623157e308", "8.41e21", "2.5e-7"] {
        let mut text = format!("[[[[[[{number}]]]]]]");
        let mut v = parse_json(&text).unwrap();
        while let Json::List(mut list) = v {
            text = read_elements(&text).unwrap().remove(0);
            v = list.remove(0);
        }
        assert!(matches!(v, Json::Number(None, ref t) if *t == text));
        let Ok(Json::Number(None, flat)) = parse_json(number) else {
            panic!("no number")
        };
        assert_eq!(text, flat);
    }
    assert_eq!(
        read_member(r#"{"a": {"b": 1}}"#, "a"),
        Some("{\"b\":1}".to_string())
    );
    assert_eq!(read_elements("[1, 2]").unwrap(), vec!["1", "2"]);
    assert_eq!(read_string(r#""x\n""#), Some("x\n".to_string()));
    assert_eq!(read_string("1"), None);
}

#[test]
fn maps_keep_their_names_in_order() {
    let mut m = SortedMap::new();
    m.insert("b".to_string(), 1);
    m.insert("a".to_string(), 2);
    m.insert("b".to_string(), 3);
    assert_eq!(m.len(), 2);
    assert_eq!(m.entry(0), (&"a".to_string(), &2));
    assert_eq!(m.get("b"), Some(&3));
    m.remove_at(0);
    assert_eq!(m.get("a"), None);
}

#[test]
fn texts_are_taken_apart() {
    assert_eq!(trim(" \u{a0}a b\t"), "a b");
    assert_eq!(take_chars("héllo", 2), "hé");
    assert_eq!(decimal_string(0), "0");
    assert_eq!(decimal_string(u64::MAX), "18446744073709551615");
    assert_eq!(signed_string(i64::MIN), "-9223372036854775808");
    assert_eq!(
        join_strings(&vec!["a".to_string(), "b".to_string()], ", "),
        "a, b"
    );
    let text: Vec<char> = "one  two\r\nthree".chars().collect();
    assert_eq!(split_words(&text).len(), 3);
    assert_eq!(lines_of(&text).len(), 2);
    let digits: Vec<char> = "0042".chars().collect();
    assert_eq!(parse_unsigned(&digits, 100), Some(42));
    assert_eq!(parse_unsigned(&digits, 41), None);
    assert_eq!(parse_unsigned(&vec!['x'], 41), None);
}

fn message(role: &str, content: &str) -> ChatMessage {
    ChatMessage {
        role: role.to_string(),
        content: content.to_string(),
        tool_calls: None,
        tool_call_id: None,
    }
}

const TOOLS: &str = r#"{"result":{"tools":[{"name":"echo","inputSchema":{"type":"object"}},{"description":"d"}]}}"#;

fn server(name: &str) -> McpConnection {
    McpConnection {
        name: name.to_string(),
        url: "http://s".to_string(),
        tools: fetch_mcp_tools(TOOLS).unwrap(),
    }
}

#[test]
fn mcp_tools_are_listed() {
    let tools = fetch_mcp_tools(TOOLS).unwrap();
    assert_eq!(tools.len(), 2);
    assert_eq!(tools[0].function.name, "echo");
    assert_eq!(tools[0].function.parameters, r#"{"type":"object"}"#);
    assert_eq!(tools[1].function.name, "?");
    assert_eq!(
        tools[1].function.parameters,
        r#"{"properties":{},"type":"object"}"#
    );
    assert_eq!(fetch_mcp_tools("{}").unwrap_err(), "no tools array");
    assert_eq!(function_type(), "function");
    assert!(parse_json(&tools_request()).is_ok());
}

#[test]
fn servers_are_connected_once_per_name() {
    let mut s = McpServers::new();
    assert_eq!(s.servers_json(), r#"{"servers":[]}"#);
    s.connect(server("a"));
    s.connect(server("b"));
    s.connect(server("a"));
    assert_eq!(s.tools_json().len(), 4);
    assert_eq!(
        s.servers_json(),
        r#"{"servers":[{"name":"b","tool_count":2,"tools":["echo","?"],"url":"http://s"},{"name":"a","tool_count":2,"tools":["echo","?"],"url":"http://s"}]}"#
    );
    s.disconnect("b");
    s.disconnect("z");
    assert_eq!(s.tools_json().len(), 2);
    assert_eq!(
        connect_answer("a", 2),
        r#"{"name":"a","ok":true,"tool_count":2}"#
    );
    assert_eq!(error_answer("a\"b"), r#"{"error":"a\"b"}"#);
    assert_eq!(
        error_answer("\\ \u{8}\t\n\u{c}\r \u{0}\u{1f} \u{7f}é/"),
        "{\"error\":\"\\\\ \\b\\t\\n\\f\\r \\u0000\\u001f \u{7f}é/\"}"
    );
}

#[test]
fn chats_are_put_to_the_model() {
    let none = McpServers::new();
    assert_eq!(
        chat_payload(
            None,
            "m",
            vec![message("user", "hi")],
            Some("be brief".to_string()),
            &none
        ),
        r#"{"messages":[{"content":"be brief","role":"system"},{"content":"hi","role":"user"}],"model":"m","stream":true}"#
    );
    let mut s = McpServers::new();
    s.connect(McpConnection {
        name: "a".to_string(),
        url: "u".to_string(),
        tools: fetch_mcp_tools(r#"{"result":{"tools":[{"name":"t"}]}}"#).unwrap(),
    });
    let mut m = message("tool", "42");
    m.tool_call_id = Some("c".to_string());
    m.tool_calls = Some("[]".to_string());
    assert_eq!(
        chat_payload(Some("n".to_string()), "m", vec![m], Some(String::new()), &s),
        r#"{"messages":[{"content":"42","role":"tool","tool_call_id":"c","tool_calls":[]}],"model":"n","stream":true,"tools":[{"function":{"description":"","name":"t","parameters":{"properties":{},"type":"object"}},"type":"function"}]}"#
    );
    assert_eq!(chat_url("http://o"), "http://o/api/chat");
    assert_eq!(models_url("http://o"), "http://o/api/tags");
}
