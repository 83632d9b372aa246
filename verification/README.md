# Remote Screen

Mirrors the built-in screen of a laptop to a Wi-Fi Display (Miracast) receiver: HEVC or H.264
pictures and AAC sound, over Wi-Fi Direct.

The rules of the program are a library that is proved correct with
[Verus](https://github.com/verus-lang/verus). What reads and writes (sockets, D-Bus, files,
GStreamer, the sound server) is an ordinary program around it.

## Layout

`src/` is the library.

| Modules | What they hold |
|---|---|
| `program` | the course of a run: what is done after what, and what a failure leads to |
| `search`, `activation`, `network` | looking for displays, and connecting by way of NetworkManager |
| `client`, `pairing` | the client of the pairing service |
| `connecting`, `helper`, `credentials` | the pairing service: groups, saved pairings, cleaning up |
| `portal` | the consent of the user to share the screen |
| `rtsp`, `wfd`, `session`, `dialogue`, `readback` | the protocol with the display |
| `media`, `hevc_color`, `transport_clock` | the pipeline, the colour description of HEVC, the clock of the transport stream |
| `audio` | the sound output of a session, and putting everything back |
| `measure`, `latency`, `stream_check` | timestamps, frame rates and the check of a stream |
| `text`, `number`, `fields`, `json` | texts, numbers, maps of texts and JSON |

Where the program waits for the world, the library is a machine: it gives a task, is handed the
reply, and gives the next task. The contract of each step says exactly which task follows.
Properties of whole courses stand beside the machines as proof functions whose names begin with
`law_`: that a session asks for the screen once, that a new pairing is never made behind the
user's back, that what was changed is put back, that a message that is written is read back.

`app/` does the tasks. `tests/` holds the library to concrete values.

## What is trusted

A few calls are believed rather than proved, each behind one small function or declaration with a
comment that says what is believed of it: `serde_json` (writing an object, reading an object of
texts, reading a list), `zbus` (which texts are object paths), `libc` (the size of an interface
name), and of the standard library `str::from_utf8`, `str::to_lowercase`, the `Debug` of `str` and
`String::push`.
