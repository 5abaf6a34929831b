# azva

A local, always-listening voice assistant: it listens, transcribes what was
said, has a language model clean it up, and speaks the result.

`src/` is the library: everything the assistant decides, verified with Verus.
`app/` is the program around it: the microphone, the models, the two HTTP
services, the window. `tests/` runs the library.

| Module | What it holds |
|---|---|
| `worker` | the conversation as a state machine: events in, actions out |
| `vad`, `segmenter` | from speech probabilities to whole utterances |
| `audio`, `pcm`, `echo` | channels, frames, sample formats, the playback reference |
| `stt`, `history`, `refine`, `tts` | what is sent to the services and read from them |
| `settings`, `state`, `events`, `ui` | what the user sets and sees |
| `timing`, `clock`, `text`, `json` | how it is written down |
| `single`, `rounding` | single-precision numbers by their bits |

Samples are a type parameter of the library. Where a number's value matters, it
is held by its IEEE 754 bits and reasoned about as an exact integer.
