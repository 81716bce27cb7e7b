# skadoosh

A local voice agent: microphone → voice-activity detection → speech-to-text →
streaming language model → text-to-speech → speaker, with barge-in, tool
calling, plugins, a mesh of peers and document retrieval.

`src/` is the library. It holds what the agent decides and computes. Its
functions are verified with [Verus](https://github.com/verus-lang/verus) against
the contracts in their headers, but for some thirty small ones marked
`external_body`, which call into outside crates and the standard library and
whose contracts are taken on trust. `app/` is the binary around it: devices,
sockets, processes, models, clocks and floating-point arithmetic. `tests/` runs
the library from outside.

## Layout of the library

| Module | What it holds |
| --- | --- |
| `agent` | events of the facade, text turns, the interactive loop |
| `audio` | device negotiation, the sample rings, capture and playback, hold music, echo-canceller set-up |
| `config` | options, their validation, and how they are shown |
| `error` | error values and their messages |
| `forward`, `mesh` | handing a conversation to another service or peer |
| `gpu` | which execution provider is used |
| `llm` | messages, the event stream, clause splitting, the reply turn with its tools |
| `memory`, `rag` | notes, chunking, tokenizing and ranking |
| `milkshake` | the web chat server's payloads and tool servers |
| `pipeline` | the orchestrator, the stages, start-up, the self-test, the wake word |
| `plugins`, `sandbox`, `tools` | WASM plugins, code execution, built-in tools |
| `stt`, `tts`, `vad` | the speech stages |
| `watch` | file, process and timer triggers |
| `bytes`, `float_bits`, `json`, `sorted`, `text`, `wav` | shared ground |

## How the parts meet

A stage is a state machine: the task in `app/` waits for something to happen,
hands it to the library as an event, and does what comes back. Samples,
probabilities and other floats cross as their bits, instants as nanoseconds,
paths as strings, and what a file, a process or a socket gave as plain values.

Public proof functions whose names begin with `law_` state what holds of the
library as a whole. The doc comment above each `external_body` function says
which outside call it makes and what is claimed of it.
