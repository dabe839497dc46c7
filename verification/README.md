# lancam

Serve any V4L2 webcam as an NDI source on the local network, with audio from the
camera's microphone, an ALSA card or a PipeWire node, and a small web panel that
controls what goes out.

The library under `src/` holds what the program decides and computes. It is
written in Verus: every function has a contract, and the contracts are proved.
`app/` is the program around it: the command line, V4L2, ALSA, the NDI SDK, the
web server and the systray.

Build the program with `--release`. The JPEG decoder is taken to return from the
images that it is handed, and that holds of a release build only: a debug build
of it stops at arithmetic overflows, and at frames that break off, which a
release build passes over.

| Module | What it is about |
|---|---|
| `single` | single-precision numbers as bit patterns, with exact rounding |
| `text`, `order`, `json` | texts, stable sorting and searching, strings in JSON documents |
| `capture`, `probe`, `listing` | capture devices and their modes: found, chosen, printed |
| `pixels`, `jpeg`, `preview` | frames: decoded, converted, made smaller, encoded for the preview |
| `markers`, `sampling`, `scans` | JPEG images: their segments and samples, and from which of them the decoder comes back |
| `audio`, `pump` | audio sources, and samples gathered into blocks |
| `engine`, `pipeline`, `session` | the state of a stream, the order of its work, one run of it |
| `ndi` | what goes with each frame that is sent, and how a source is named |
| `web`, `tray`, `headless` | what the panel, the systray and the command line ask for |

A number with a fraction is a `Single`: the bit pattern of an `f32`. The program
converts with `f32::to_bits` and `f32::from_bits`.

What the library takes on trust is marked `external_body` or
`assume_specification`: the JPEG codec (`jpeg`), the JSON reader (`json`), and a
few functions of the standard library (`text`, `engine`). The comment above each
says what is claimed of it.
