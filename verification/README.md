# sol-li-ni

A real-time voice agent: a browser calls over WebRTC, speech is transcribed as it comes in, a
language model answers, and the answer is spoken back sentence by sentence — until the caller
talks over it.

`src/` is the agent's logic as a library, verified with [Verus](https://github.com/verus-lang/verus).
It holds no sockets, clocks or tasks: events come in as plain values, and what is to be done goes
out as plain values.

| Module | What it decides |
|---|---|
| `agent` | The conversation: turns, interruptions, the history, what is asked and what is spoken |
| `chunker` | Where a stream of tokens is cut into sentences |
| `stt` | What goes up to the transcriber, what its messages mean, how far they trail the audio |
| `llm` | How the model is asked, and what its stream says |
| `tts` | What goes up to the voice, and how its answers become audio frames |
| `audio` | Samples and bytes, the queue of speech, the decoder for a packet |
| `session` | Settings of a call, its life from connecting to the end, its media port |
| `server` | Who may call, what is refused, what the page and the operator are told |
| `config` | What the environment configures |
| `metrics` | Latency of each service, turn by turn |
| `text`, `time` | Characters, numbers and durations |

Each executable function states in its contract what it returns, or how it changes what it is
given, for the inputs its `requires` admits. The `law_` functions state what holds of the library
as a whole: that a reply ends the moment the caller starts speaking over it, that everything the
model wrote reaches the voice, that audio is framed the same however it arrives,
that the API key goes nowhere the server does not allow, and so on.

Three things are taken on trust from other crates, each behind a small function or declaration with
a contract: parsing JSON (`serde_json`), decoding base64 (`base64`), and making an Opus decoder
(`opus-rs`).

`app/` is the program around the library: the web server, the WebRTC connection, the sockets to the
three services, and the floating-point ends of the audio path. `tests/` runs the library.
