//! The voice pipeline: segmentation, stages, turns and startup.

use skadoosh::agent::{
    greeting_text, repl_clause, repl_io_error, repl_step, speakable_clauses, AgentEvent, ReplStep,
    TextTurn,
};
use skadoosh::config::{Config, OutputMode};
use skadoosh::error::{LlmError, SkadooshError, SttError, VadError};
use skadoosh::pipeline::orchestrator::{
    Orchestrator, OrchestratorAction, OrchestratorEvent, OrchestratorPhase,
};
use skadoosh::pipeline::selftest::{
    check_clips, check_selftest_transcript, no_segment, selftest_body, SelftestFeed,
    SelftestStream, Stamps, StreamStep,
};
use skadoosh::pipeline::stages::{
    after_send, after_stream, after_transcription, check_transcript, check_turn, feeds_hold_music,
    fill_wait_ms, millis, on_key, on_synthesis_panic, vad_frame, OnsetGate, PushToTalk, StageStep,
    SttStep, TalkKey, TtsStep, TtsTurn, VadEventMsg, WatchStep,
};
use skadoosh::pipeline::startup::{
    dispatch, greet, null_sink_error, on_interrupt, run_result, startup_steps, tts_source,
    GreetingStep, InterruptEvent, InterruptStep, RunPlan, StartupStep, TtsSource,
};
use skadoosh::pipeline::wake::gate;
use skadoosh::pipeline::SelftestReport;
use skadoosh::stt::{transcript_of, worker_started, JobQueue, MockStt, SttConfig, WorkerStart};
use skadoosh::vad::silero::{SileroVad, STATE_LEN};
use skadoosh::vad::{VadEvent, VadSegmenter, FRAME_LEN};
use skadoosh::watch::WatchEvent;

fn frame(v: f32) -> Vec<u32> {
    vec![v.to_bits(); FRAME_LEN]
}

fn bits(v: f32) -> u32 {
    v.to_bits()
}

const SECOND: u64 = 1_000_000_000;

#[test]
fn segments_carry_their_preroll() {
    let mut vad = VadSegmenter::new(bits(0.5), 64);
    for _ in 0..10 {
        assert!(vad.push(&frame(0.0), bits(0.1)).is_none());
    }
    assert!(matches!(
        vad.push(&frame(0.9), bits(0.9)),
        Some(VadEvent::SpeechStart)
    ));
    for _ in 0..9 {
        assert!(vad.push(&frame(0.9), bits(0.5)).is_none());
    }
    let mut segment = None;
    for _ in 0..4 {
        if let Some(VadEvent::Segment(s)) = vad.push(&frame(0.0), bits(0.0)) {
            segment = Some(s);
        }
    }
    let segment = segment.expect("a segment");
    assert_eq!(segment.len() % FRAME_LEN, 0);
    assert!(segment.len() >= (8 + 10) * FRAME_LEN);
}

/// What a burst of `speech` frames between `lead` and twelve quiet frames
/// gives: the frames at which speech starts, and the segments with theirs.
fn burst(lead: usize, speech: usize) -> (Vec<usize>, Vec<(usize, Vec<u32>)>) {
    let mut vad = VadSegmenter::new(bits(0.5), 64);
    let (mut starts, mut segments) = (Vec::new(), Vec::new());
    for i in 0..lead + speech + 12 {
        let loud = lead <= i && i < lead + speech;
        match vad.push(&frame(i as f32), bits(if loud { 0.9 } else { 0.1 })) {
            Some(VadEvent::SpeechStart) => starts.push(i),
            Some(VadEvent::Segment(s)) => segments.push((i, s)),
            None => {}
        }
    }
    (starts, segments)
}

#[test]
fn bursts_become_one_segment_or_none() {
    let (starts, segments) = burst(10, 8);
    assert_eq!(starts, [10]);
    // 64 ms of silence are exceeded with the third quiet frame.
    assert_eq!(segments.len(), 1);
    assert_eq!(segments[0].0, 20);
    let want: Vec<u32> = (2..21).flat_map(|i| frame(i as f32)).collect();
    assert_eq!(segments[0].1, want);
    let (starts, segments) = burst(3, 7);
    assert_eq!(starts, [3]);
    assert!(segments.is_empty());
}

#[test]
fn only_numbers_above_the_threshold_are_speech() {
    let vad = VadSegmenter::new(bits(0.5), 64);
    assert!(vad.is_speech(bits(0.5)));
    assert!(!vad.is_speech(bits(0.49)));
    assert!(!vad.is_speech(f32::NAN.to_bits()));
    assert!(!vad.is_speech(bits(-0.9)));
}

#[test]
fn onsets_during_playback_are_confirmed() {
    let mut gate = OnsetGate::default();
    assert!(gate.filter(true, true, false));
    let mut gate = OnsetGate::default();
    assert!(!gate.filter(true, true, true));
    assert!(gate.filter(false, true, true));
    let mut gate = OnsetGate::default();
    assert!(!gate.filter(true, true, true));
    assert!(!gate.filter(false, false, true));
}

#[test]
fn frames_drive_the_stage() {
    let mut seg = VadSegmenter::new(bits(0.5), 32);
    let mut gate = OnsetGate::default();
    let r = vad_frame(&mut seg, &mut gate, &frame(0.9), bits(0.9), false, 7);
    assert!(r.announce);
    assert!(matches!(r.message, Some(VadEventMsg::SpeechStart)));
    assert_eq!(fill_wait_ms(FRAME_LEN), None);
    assert!(fill_wait_ms(0).is_some());
    assert_eq!(millis(3 * SECOND), 3000);
}

#[test]
fn silero_frames_have_one_length() {
    let mut vad = SileroVad::new();
    assert!(vad.process(FRAME_LEN).is_ok());
    assert!(matches!(
        vad.process(100),
        Err(VadError::BadFrameLen {
            expected: 512,
            actual: 100
        })
    ));
    vad.carry(vec![7; STATE_LEN]);
    assert_eq!(vad.state[0], 7);
    vad.reset_state();
    assert_eq!(vad.state, vec![0; STATE_LEN]);
}

#[test]
fn stale_turns_are_dropped() {
    assert!(matches!(check_turn(false, 3, 3), StageStep::Proceed));
    assert!(matches!(check_turn(false, 3, 4), StageStep::Next));
    assert!(matches!(check_turn(true, 3, 3), StageStep::Next));
    assert!(matches!(
        check_transcript(false, 1, 1, "hey Skadoosh stop", Some("Hey skadoosh")),
        StageStep::Proceed
    ));
    assert!(matches!(
        check_transcript(false, 1, 1, "stop", Some("hey skadoosh")),
        StageStep::Next
    ));
    assert!(matches!(
        after_send(true, false, "LLM task"),
        StageStep::Proceed
    ));
    assert!(matches!(after_send(false, true, "LLM task"), StageStep::Stop));
    assert!(matches!(
        after_send(false, false, "LLM task"),
        StageStep::Fatal(_)
    ));
}

#[test]
fn transcripts_are_filtered() {
    let ok = |s: &str| Ok(s.to_string());
    assert!(matches!(
        after_transcription(ok("hi"), false, 0, 0, false, 1, 1),
        SttStep::Forward(ref s) if s == "hi"
    ));
    assert!(matches!(
        after_transcription(ok("  "), false, 0, 0, false, 1, 1),
        SttStep::Next
    ));
    let err = || Err(SkadooshError::Stt(SttError::Transcribe("x".to_string())));
    assert!(matches!(
        after_transcription(err(), false, 0, 1, false, 1, 1),
        SttStep::Next
    ));
    assert!(matches!(
        after_transcription(err(), false, 0, 0, false, 1, 1),
        SttStep::Fatal(_)
    ));
    assert!(matches!(
        after_stream(Err(SkadooshError::Llm(LlmError::Cancelled)), false),
        StageStep::Next
    ));
    assert!(matches!(
        after_stream(Err(SkadooshError::Llm(LlmError::Sse("x".to_string()))), false),
        StageStep::Fatal(_)
    ));
}

#[test]
fn text_turns_end_with_their_latency() {
    let mut turn = TtsTurn::new(1, false, 0, SECOND);
    assert!(matches!(
        turn.on_clause("a".to_string(), 2 * SECOND, false, 1),
        TtsStep::Show(_)
    ));
    let events = turn.on_end(3 * SECOND, false, false);
    assert_eq!(events.len(), 3);
    match &events[0] {
        AgentEvent::StageLatency {
            stt_ms,
            llm_ms,
            total_ms,
            ..
        } => assert_eq!((*stt_ms, *llm_ms, *total_ms), (1000, 1000, 3000)),
        _ => panic!("expected the latency"),
    }
    assert!(matches!(events[1], AgentEvent::ReplyDone));
    assert!(matches!(events[2], AgentEvent::Listening));
    assert!(turn.on_end(3 * SECOND, false, true).is_empty());
}

#[test]
fn spoken_turns_are_watched_until_audible() {
    let mut turn = TtsTurn::new(1, true, 0, SECOND);
    assert!(matches!(
        turn.on_clause("a".to_string(), 2 * SECOND, false, 1),
        TtsStep::Synthesize(_)
    ));
    assert!(matches!(
        turn.on_clause("b".to_string(), 2 * SECOND, false, 2),
        TtsStep::NextClause
    ));
    assert!(matches!(turn.on_clip(Ok(()), false, false, 1), TtsStep::Queue));
    assert!(matches!(
        turn.on_clip(Ok(()), false, false, 2),
        TtsStep::NextClause
    ));
    assert!(matches!(
        turn.on_queued(Ok(()), 3 * SECOND, false, false),
        TtsStep::Watch
    ));
    assert!(matches!(
        turn.look(false, false, 3 * SECOND, 0),
        WatchStep::Wait
    ));
    assert!(matches!(
        turn.look(false, true, 4 * SECOND, 0),
        WatchStep::Report(AgentEvent::StageLatency {
            playback_ms: 1000,
            ..
        })
    ));
    assert!(matches!(
        turn.look(true, true, 4 * SECOND, 0),
        WatchStep::Quit
    ));
    assert!(matches!(on_synthesis_panic("x", true), TtsStep::Stop));
    assert!(matches!(on_synthesis_panic("x", false), TtsStep::Fatal(_)));
}

#[test]
fn a_key_toggles_recording() {
    assert_eq!(on_key(false, TalkKey::Toggle), (true, true));
    assert_eq!(on_key(true, TalkKey::Escape), (false, false));
    assert_eq!(on_key(true, TalkKey::Other), (true, true));
    let mut talk = PushToTalk::new();
    assert!(talk.tick(&vec![1], true).start);
    assert!(!talk.tick(&vec![2], true).start);
    let done = talk.tick(&vec![3], false);
    assert!(done.segment.is_some());
    assert!(talk.tick(&vec![4], false).segment.is_none());
    assert!(feeds_hold_music(true, false));
    assert!(!feeds_hold_music(false, false));
}

#[test]
fn barge_in_cancels_the_turn() {
    let (mut o, first) = Orchestrator::start();
    assert!(matches!(first, AgentEvent::Listening));
    let out = o.step(OrchestratorEvent::Segment);
    assert!(matches!(out[..], [OrchestratorAction::ForwardSegment(1)]));
    assert_eq!(o.phase(), OrchestratorPhase::SendingSegment);
    assert!(o
        .step(OrchestratorEvent::Sent {
            ok: true,
            shutdown: false
        })
        .is_empty());
    // A silent onset does nothing.
    assert!(o
        .step(OrchestratorEvent::SpeechStart { playing: false })
        .is_empty());
    let out = o.step(OrchestratorEvent::SpeechStart { playing: true });
    assert!(matches!(
        out[..],
        [
            OrchestratorAction::FlushPlayback,
            OrchestratorAction::CancelTurn(1),
            OrchestratorAction::Emit(AgentEvent::TurnCancelled)
        ]
    ));
    // A second onset has nothing left to cancel.
    let out = o.step(OrchestratorEvent::SpeechStart { playing: true });
    assert!(matches!(out[..], [OrchestratorAction::FlushPlayback]));
}

#[test]
fn segments_supersede_turns() {
    let (mut o, _) = Orchestrator::start();
    o.step(OrchestratorEvent::Segment);
    o.step(OrchestratorEvent::Sent {
        ok: true,
        shutdown: false,
    });
    o.step(OrchestratorEvent::TurnDone(1));
    let out = o.step(OrchestratorEvent::Watch(WatchEvent::ProcessExited(9)));
    assert!(matches!(
        out[..],
        [
            OrchestratorAction::CancelTurn(1),
            OrchestratorAction::ForwardText(2, _)
        ]
    ));
    assert_eq!(o.current_turn(), 2);
    match &out[1] {
        OrchestratorAction::ForwardText(_, t) => {
            assert_eq!(t, "NOTIFICATION: Process 9 has exited.")
        }
        _ => panic!("expected a text"),
    }
}

#[test]
fn the_first_error_is_kept() {
    let (mut o, _) = Orchestrator::start();
    let out = o.step(OrchestratorEvent::VadClosed { shutdown: false });
    assert!(matches!(out[..], [OrchestratorAction::Unwind]));
    o.step(OrchestratorEvent::TaskPanicked("boom".to_string()));
    assert_eq!(
        o.finish().unwrap_err().message(),
        "VAD event stream closed unexpectedly"
    );
    let (mut o, _) = Orchestrator::start();
    o.step(OrchestratorEvent::Shutdown);
    assert!(o.finish().is_ok());
    let (mut o, _) = Orchestrator::start();
    o.step(OrchestratorEvent::Shutdown);
    o.step(OrchestratorEvent::TaskPanicked("boom".to_string()));
    assert_eq!(
        o.finish().unwrap_err().message(),
        "pipeline task panicked: boom"
    );
}

#[test]
fn the_transcript_is_put_to_the_model() {
    let config = Config {
        llm_model: "m".to_string(),
        system_prompt: "be \"brief\"".to_string(),
        ..Default::default()
    };
    assert_eq!(
        selftest_body(&config, "hi\n"),
        r#"{"messages":[{"content":"be \"brief\"","role":"system"},{"content":"hi\n","role":"user"}],"model":"m","stream":true}"#
    );
}

#[test]
fn selftests_feed_whole_frames() {
    let mut feed = SelftestFeed::new(vec![5; FRAME_LEN + 1], 32);
    let mut frames = 0;
    while let Some(f) = feed.next_frame() {
        assert_eq!(f.len(), FRAME_LEN);
        frames += 1;
    }
    assert!(frames >= 2);
    assert!(no_segment("a.wav", 300)
        .message()
        .starts_with("no speech segment detected in a.wav"));
    assert!(check_selftest_transcript(" ").is_err());
    assert!(check_selftest_transcript("x").is_ok());
    assert!(check_clips(0).is_err());
    assert!(check_clips(1).is_ok());
}

#[test]
fn selftest_streams_split_clauses() {
    let mut stream = SelftestStream::new();
    stream
        .feed(b"data: {\"choices\":[{\"delta\":{\"content\":\"Hello you. Bye\"}}]}\n")
        .unwrap();
    assert!(matches!(
        stream.step(),
        StreamStep::Token(ref c) if c.len() == 1 && c[0] == "Hello you."
    ));
    assert!(matches!(stream.step(), StreamStep::Read));
    stream.close();
    assert!(matches!(stream.step(), StreamStep::End(Some(ref c)) if c == " Bye"));
    assert!(stream.feed(&vec![b'x'; 1 << 21]).is_err());
}

#[test]
fn reports_are_laid_out_as_a_table() {
    let ms = 1_000_000u64;
    let stamps = Stamps {
        start: 0,
        loaded: 0,
        segment: 10 * ms,
        text: 30 * ms,
        request: 30 * ms,
        first_token: Some(40 * ms),
        first_clause: Some(60 * ms),
        first_clip: None,
        reply_done: 90 * ms,
        written: 100 * ms,
    };
    let report = SelftestReport::from_stamps(&stamps, "say \"hi\"".to_string());
    assert_eq!(report.stt_ms, 20);
    assert_eq!(report.llm_ttft_ms, 10);
    assert_eq!(report.tts_ms, 30);
    let text = report.fmt();
    assert!(text.starts_with("skadoosh selftest — latency report\n"));
    assert!(text.contains("  stt (whisper)                        20 ms\n"));
    assert!(text.ends_with("  transcript: \"say \\\"hi\\\"\""));
}

#[test]
fn wake_words_open_commands() {
    let cases = [
        ("hey skadoosh what time is it", Some("what time is it")),
        ("HEY SKADOOSH turn on the lights", Some("turn on the lights")),
        ("what time is it", None),
        ("hey skadoosh", Some("")),
        ("please hey skadoosh stop", Some("stop")),
        ("où es-tu hey skadoosh stop", Some("stop")),
        // The lowercase form of this letter is two characters, and longer.
        ("İ İ hey skadoosh stop", Some("stop")),
    ];
    for (transcript, want) in cases {
        assert_eq!(gate(transcript, "hey skadoosh").as_deref(), want);
    }
    assert_eq!(gate("say İris now", "i\u{307}ris").as_deref(), Some("now"));
    // A letter is heard as a whole.
    assert_eq!(gate("Kİ go", "ki").as_deref(), Some("go"));
}

#[test]
fn runs_are_dispatched_by_mode() {
    let c = Config {
        list_devices: true,
        repl: true,
        ..Default::default()
    };
    assert!(matches!(dispatch(&c), RunPlan::ListDevices));
    let c = Config {
        say: Some("hi".to_string()),
        out_wav: Some("o.wav".to_string()),
        ..Default::default()
    };
    assert!(matches!(
        dispatch(&c),
        RunPlan::Say(ref t, Some(ref o)) if t == "hi" && o == "o.wav"
    ));
    let c = Config {
        selftest: Some("a.wav".to_string()),
        ..Default::default()
    };
    assert!(matches!(dispatch(&c), RunPlan::Selftest(_)));
    let c = Config {
        repl: true,
        ..Default::default()
    };
    assert!(matches!(dispatch(&c), RunPlan::Repl));
    assert!(matches!(dispatch(&Config::default()), RunPlan::Voice));
}

#[test]
fn devices_open_before_models() {
    let steps = startup_steps(&Config::default(), false, false, false);
    assert_eq!(
        steps,
        vec![
            StartupStep::OpenCapture,
            StartupStep::OpenPlayback,
            StartupStep::LoadVad,
            StartupStep::LoadStt,
            StartupStep::BuildLlm,
            StartupStep::BuildTts,
            StartupStep::Listen,
        ]
    );
    let c = Config {
        output: OutputMode::Text,
        push_to_talk: true,
        agent_name: Some("Sam".to_string()),
        watch_timers: vec![5],
        ..Default::default()
    };
    assert_eq!(
        startup_steps(&c, true, true, true),
        vec![
            StartupStep::OpenCapture,
            StartupStep::LoadVad,
            StartupStep::Greet,
            StartupStep::Watch,
            StartupStep::PushToTalk,
        ]
    );
    assert_eq!(tts_source(true, OutputMode::Text), TtsSource::Absent);
    assert!(matches!(
        greet(&Some("Sam".to_string()), true),
        GreetingStep::Speak(ref s) if s == "Hi, I'm Sam. What's your name?"
    ));
    assert_eq!(greeting_text("  "), "");
}

#[test]
fn a_panic_is_reported_behind_other_errors() {
    assert!(run_result(Ok(()), None).is_ok());
    assert_eq!(
        run_result(Ok(()), Some("boom")).unwrap_err().message(),
        "VAD task panicked: boom"
    );
    let err = || Err(SkadooshError::Other("first".to_string()));
    assert_eq!(
        run_result(err(), Some("boom")).unwrap_err().message(),
        "first"
    );
    assert!(null_sink_error().message().starts_with("NullSink"));
}

#[test]
fn a_second_interrupt_ends_the_process() {
    assert_eq!(
        on_interrupt(false, InterruptEvent::Interrupt),
        InterruptStep::ShutDown
    );
    assert_eq!(
        on_interrupt(true, InterruptEvent::Interrupt),
        InterruptStep::Exit(130)
    );
    assert_eq!(
        on_interrupt(true, InterruptEvent::Finished),
        InterruptStep::End
    );
    assert_eq!(
        on_interrupt(false, InterruptEvent::Cancelled),
        InterruptStep::End
    );
}

#[test]
fn mock_transcripts_come_in_order() {
    let mut stt = MockStt::from_replies(&vec!["a".to_string()]);
    stt.push_reply("b");
    stt.push_delayed(9, "c");
    assert_eq!(stt.transcribe(), (0, "a".to_string()));
    assert_eq!(stt.transcribe(), (0, "b".to_string()));
    assert_eq!(stt.transcribe(), (9, "c".to_string()));
    assert_eq!(stt.name(), MockStt::new().name());
    assert_eq!(SttConfig::with_parallelism(Some(16)).threads, 4);
    assert_eq!(SttConfig::with_parallelism(None).threads, 1);
    assert_eq!(
        transcript_of(&vec![" a".to_string(), " b ".to_string()]),
        "a b"
    );
}

#[test]
fn full_queues_drop_the_oldest_job() {
    let mut q = JobQueue::new();
    assert!(q.transcribe(1).is_none());
    assert!(q.transcribe(2).is_none());
    let out = q.transcribe(3);
    assert!(out.is_some());
    assert_eq!(q.dropped_jobs(), 1);
    assert!(q.take().is_some());
    assert!(q.take().is_some());
    assert!(q.take().is_none());
    assert!(worker_started(&WorkerStart::Ready).is_ok());
}

#[test]
fn repl_lines_are_read() {
    assert!(matches!(repl_step(" /quit\n"), ReplStep::Quit));
    assert!(matches!(repl_step("  \n"), ReplStep::Skip));
    assert!(matches!(repl_step("hi\n"), ReplStep::Turn(ref t) if t == "hi"));
    assert_eq!(repl_clause(true, " a "), "a");
    assert_eq!(repl_clause(false, " a "), " a");
    assert_eq!(repl_io_error("x").message(), "repl I/O failed: x");
    let mut turn = TextTurn::new();
    turn.handle_clause("a ".to_string());
    turn.handle_clause("b".to_string());
    assert_eq!(turn.finish(Ok(())).unwrap(), "a b");
    assert_eq!(
        speakable_clauses("Hello there. You").unwrap(),
        vec!["Hello there.", " You"]
    );
    assert!(speakable_clauses("  ").is_err());
}
