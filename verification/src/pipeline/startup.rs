//! What a run opens and says before its loop begins.

use vstd::prelude::*;

use crate::agent::{greeting, greeting_text};
use crate::config::{Config, OutputMode};
use crate::error::SkadooshError;
use crate::json::opt_str;
use crate::text::{trim, trimmed};

verus! {

/// Where the TTS engine of a run comes from.
#[derive(Debug, Clone, Copy, PartialEq, Eq, Structural)]
pub enum TtsSource {
    /// The injected one.
    Injected,
    /// It is built from the configuration.
    Built,
    /// There is none: nothing is spoken.
    Absent,
}

/// Whether a run opens an output device.
pub fn opens_playback(output: OutputMode) -> (r: bool)
    ensures
        r == (output == OutputMode::Audio),
{
    match output {
        OutputMode::Audio => true,
        OutputMode::Text => false,
    }
}

/// Where the TTS engine of a run comes from. In text mode no audio is
/// synthesized, so an injected engine is ignored.
pub fn tts_source(injected: bool, output: OutputMode) -> (r: TtsSource)
    ensures
        r == (if output == OutputMode::Text {
            TtsSource::Absent
        } else if injected {
            TtsSource::Injected
        } else {
            TtsSource::Built
        }),
{
    match output {
        OutputMode::Text => TtsSource::Absent,
        OutputMode::Audio => {
            if injected {
                TtsSource::Injected
            } else {
                TtsSource::Built
            }
        },
    }
}

/// How an agent greets.
#[derive(Debug)]
pub enum GreetingStep {
    /// Not at all: it has no name.
    Silent,
    /// It speaks this.
    Speak(String),
    /// It prints this as a clause, and its reply is done.
    Print(String),
}

/// How an agent greets before the listening loop begins: it speaks where there
/// is an engine and a device, and prints otherwise.
pub fn greet(agent_name: &Option<String>, audible: bool) -> (r: GreetingStep)
    ensures
        match *agent_name {
            Some(name) => if trimmed(name@).len() == 0 {
                r is Silent
            } else if audible {
                r matches GreetingStep::Speak(s) && s@ == greeting(trimmed(name@))
            } else {
                r matches GreetingStep::Print(s) && s@ == greeting(trimmed(name@))
            },
            None => r is Silent,
        },
{
    match agent_name {
        Some(name) => {
            let name = trim(name.as_str());
            if name.as_str().is_empty() {
                return GreetingStep::Silent;
            }
            let text = greeting_text(name.as_str());
            if audible {
                GreetingStep::Speak(text)
            } else {
                GreetingStep::Print(text)
            }
        },
        None => GreetingStep::Silent,
    }
}

/// A step on the way into the voice loop.
#[derive(Debug, Clone, Copy, PartialEq, Eq, Structural)]
pub enum StartupStep {
    /// Open the input device.
    OpenCapture,
    /// Open the output device.
    OpenPlayback,
    /// Load the VAD model.
    LoadVad,
    /// Load the STT model.
    LoadStt,
    /// Build the LLM client.
    BuildLlm,
    /// Build the TTS engine.
    BuildTts,
    /// Greet.
    Greet,
    /// Watch files, processes and timers.
    Watch,
    /// Record while a key toggles it.
    PushToTalk,
    /// Listen for speech.
    Listen,
}

/// One step, or none.
pub open spec fn step_if(on: bool, step: StartupStep) -> Seq<StartupStep> {
    if on {
        seq![step]
    } else {
        Seq::empty()
    }
}

/// Whether an agent of that name greets.
pub open spec fn greets(agent_name: Option<String>) -> bool {
    match agent_name {
        Some(name) => trimmed(name@).len() > 0,
        None => false,
    }
}

/// The devices that a run opens.
pub open spec fn device_steps(c: Config) -> Seq<StartupStep> {
    seq![StartupStep::OpenCapture] + step_if(
        c.output == OutputMode::Audio,
        StartupStep::OpenPlayback,
    )
}

/// What a run loads and starts behind its devices.
pub open spec fn stage_steps(c: Config, stt: bool, llm: bool, tts: bool) -> Seq<StartupStep> {
    seq![StartupStep::LoadVad] + step_if(!stt, StartupStep::LoadStt) + step_if(
        !llm,
        StartupStep::BuildLlm,
    ) + step_if(!tts && c.output == OutputMode::Audio, StartupStep::BuildTts) + step_if(
        greets(c.agent_name),
        StartupStep::Greet,
    ) + step_if(
        c.watch_files@.len() > 0 || c.watch_processes@.len() > 0 || c.watch_timers@.len() > 0,
        StartupStep::Watch,
    ) + seq![
        if c.push_to_talk {
            StartupStep::PushToTalk
        } else {
            StartupStep::Listen
        },
    ]
}

fn push_if(steps: &mut Vec<StartupStep>, on: bool, step: StartupStep)
    ensures
        final(steps)@ == old(steps)@ + step_if(on, step),
{
    let ghost before = steps@;
    if on {
        steps.push(step);
    }
    assert(steps@ =~= before + step_if(on, step));
}

fn stages_of(config: &Config, stt: bool, llm: bool, tts: bool) -> (r: Vec<StartupStep>)
    ensures
        r@ == stage_steps(*config, stt, llm, tts),
{
    let audio = opens_playback(config.output);
    let named = match greet(&config.agent_name, audio) {
        GreetingStep::Silent => false,
        _ => true,
    };
    let mut steps: Vec<StartupStep> = vec![StartupStep::LoadVad];
    assert(steps@ =~= seq![StartupStep::LoadVad]);
    push_if(&mut steps, !stt, StartupStep::LoadStt);
    push_if(&mut steps, !llm, StartupStep::BuildLlm);
    push_if(&mut steps, !tts && audio, StartupStep::BuildTts);
    push_if(&mut steps, named, StartupStep::Greet);
    push_if(
        &mut steps,
        config.watch_files.len() > 0 || config.watch_processes.len() > 0
            || config.watch_timers.len() > 0,
        StartupStep::Watch,
    );
    let last = if config.push_to_talk {
        StartupStep::PushToTalk
    } else {
        StartupStep::Listen
    };
    push_if(&mut steps, true, last);
    steps
}

/// The steps into the voice loop, in order, where the flags say which engines
/// are injected. Devices come first: a headless machine fails fast, before
/// paying for model loads. In text mode no output device is opened and no TTS
/// engine is built.
pub fn startup_steps(config: &Config, stt: bool, llm: bool, tts: bool) -> (r: Vec<StartupStep>)
    ensures
        r@ == device_steps(*config) + stage_steps(*config, stt, llm, tts),
{
    let mut steps: Vec<StartupStep> = vec![StartupStep::OpenCapture];
    assert(steps@ =~= seq![StartupStep::OpenCapture]);
    push_if(&mut steps, opens_playback(config.output), StartupStep::OpenPlayback);
    let mut rest = stages_of(config, stt, llm, tts);
    steps.append(&mut rest);
    steps
}

/// Whether a step opens a device.
pub open spec fn opens_device(step: StartupStep) -> bool {
    step == StartupStep::OpenCapture || step == StartupStep::OpenPlayback
}

/// No device is opened behind a step that is not about devices: a machine
/// without one finds out before any model is loaded. The output device is
/// opened in audio mode only.
pub proof fn law_devices_open_first(c: Config, stt: bool, llm: bool, tts: bool, i: int, j: int)
    requires
        0 <= i < j < (device_steps(c) + stage_steps(c, stt, llm, tts)).len(),
        opens_device((device_steps(c) + stage_steps(c, stt, llm, tts))[j]),
    ensures
        opens_device((device_steps(c) + stage_steps(c, stt, llm, tts))[i]),
        c.output == OutputMode::Audio,
{
    let devices = device_steps(c);
    let stages = stage_steps(c, stt, llm, tts);
    assert forall|k: int| 0 <= k < stages.len() implies !opens_device(#[trigger] stages[k]) by {}
    if j >= devices.len() {
        assert((devices + stages)[j] == stages[j - devices.len()]);
    }
}

/// The result of a run whose VAD task may have panicked: an earlier error
/// stands.
pub fn run_result(result: Result<(), SkadooshError>, vad_panic: Option<&str>) -> (r: Result<
    (),
    SkadooshError,
>)
    ensures
        match result {
            Err(_) => r == result,
            Ok(_) => match vad_panic {
                Some(why) => r is Err && r->Err_0.text() == "VAD task panicked: "@ + why@,
                None => r is Ok,
            },
        },
{
    match result {
        Err(e) => Err(e),
        Ok(()) => match vad_panic {
            Some(why) => Err(
                SkadooshError::Other("VAD task panicked: ".to_owned().concat(why)),
            ),
            None => Ok(()),
        },
    }
}

/// What queueing a clip comes to where there is no playback: text mode
/// synthesizes no audio, so none should come.
pub fn null_sink_error() -> (r: SkadooshError)
    ensures
        r.text() == "NullSink received a clip; text mode synthesizes no audio"@,
{
    SkadooshError::Other("NullSink received a clip; text mode synthesizes no audio".to_owned())
}

/// What the binary does with a valid configuration.
#[derive(Debug)]
pub enum RunPlan {
    /// Print the audio devices.
    ListDevices,
    /// Run the headless self-test on this wav file.
    Selftest(String),
    /// Speak this, into a wav file where one is named.
    Say(String, Option<String>),
    /// Chat in text on standard input and output.
    Repl,
    /// Run the voice loop.
    Voice,
}

/// What the binary does with a valid configuration. Listing devices comes
/// before everything else; of the other modes no two are asked for at once.
pub fn dispatch(config: &Config) -> (r: RunPlan)
    ensures
        match r {
            RunPlan::ListDevices => config.list_devices,
            RunPlan::Selftest(wav) => !config.list_devices && opt_str(config.selftest) == Some(
                wav@,
            ),
            RunPlan::Say(text, out) => !config.list_devices && config.selftest is None && opt_str(
                config.say,
            ) == Some(text@) && opt_str(out) == opt_str(config.out_wav),
            RunPlan::Repl => !config.list_devices && config.selftest is None && config.say is None
                && config.repl,
            RunPlan::Voice => !config.list_devices && config.selftest is None && config.say is None
                && !config.repl,
        },
{
    if config.list_devices {
        return RunPlan::ListDevices;
    }
    if let Some(wav) = &config.selftest {
        return RunPlan::Selftest(wav.clone());
    }
    if let Some(text) = &config.say {
        let out = match &config.out_wav {
            Some(path) => Some(path.clone()),
            None => None,
        };
        return RunPlan::Say(text.clone(), out);
    }
    if config.repl {
        RunPlan::Repl
    } else {
        RunPlan::Voice
    }
}

/// What the thread that waits for an interrupt was woken by.
#[derive(Debug, Clone, Copy, PartialEq, Eq, Structural)]
pub enum InterruptEvent {
    /// An interrupt.
    Interrupt,
    /// Interrupts cannot be listened for.
    Deaf,
    /// The run is shutting down for another reason.
    Cancelled,
    /// The run is over.
    Finished,
}

/// What the thread that waits for an interrupt does.
#[derive(Debug, Clone, Copy, PartialEq, Eq, Structural)]
pub enum InterruptStep {
    /// Ask the run to shut down, and wait for a second interrupt or the end of
    /// the run.
    ShutDown,
    /// Exit the process with this status.
    Exit(i32),
    /// End the thread.
    End,
    /// Wait on.
    Wait,
}

/// The exit status of a process that an interrupt ends: 128 and the signal's
/// number.
pub const INTERRUPT_STATUS: i32 = 130;

/// What the thread that waits for an interrupt does: the first interrupt shuts
/// the run down, and a second one before the run is over ends the process, so
/// that a wedged shutdown can always be killed.
pub fn on_interrupt(shutting_down: bool, event: InterruptEvent) -> (r: InterruptStep)
    ensures
        r == (match event {
            InterruptEvent::Interrupt => if shutting_down {
                InterruptStep::Exit(INTERRUPT_STATUS)
            } else {
                InterruptStep::ShutDown
            },
            InterruptEvent::Deaf => if shutting_down {
                InterruptStep::Exit(INTERRUPT_STATUS)
            } else {
                InterruptStep::End
            },
            InterruptEvent::Cancelled => if shutting_down {
                InterruptStep::Wait
            } else {
                InterruptStep::End
            },
            InterruptEvent::Finished => InterruptStep::End,
        }),
{
    match event {
        InterruptEvent::Interrupt => {
            if shutting_down {
                InterruptStep::Exit(INTERRUPT_STATUS)
            } else {
                InterruptStep::ShutDown
            }
        },
        InterruptEvent::Deaf => {
            if shutting_down {
                InterruptStep::Exit(INTERRUPT_STATUS)
            } else {
                InterruptStep::End
            }
        },
        InterruptEvent::Cancelled => {
            if shutting_down {
                InterruptStep::Wait
            } else {
                InterruptStep::End
            }
        },
        InterruptEvent::Finished => InterruptStep::End,
    }
}

} // verus!
