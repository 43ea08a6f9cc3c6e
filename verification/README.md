# flowdmr

Injects DMR audio that was received off the air into a TETRA cell as a local group
call. A receiver side (the sidecar) runs a decoder, reframes its audio, reads its
console output and sends frames over UDP; an injection entity next to the TETRA
stack turns them into call control and paced voice.

The library under `src/` is verified with Verus. It decides; it does no I/O.

| Module | What it holds |
|---|---|
| `ipc` | The wire protocol between the two sides |
| `codec` | The layout of a voice block; a silent encoder |
| `jitter` | The playout buffer of a call |
| `sap` | The primitives of the TETRA stack |
| `entity`, `entity_laws` | The injection entity: calls, voice, playout |
| `meta`, `pattern` | What the decoder's console lines say |
| `session`, `session_laws` | One call per transmission, from audio and metadata |
| `pcm` | The decoder's audio, cut into frames |
| `recorder`, `recorder_laws`, `wav` | Recordings of calls |
| `status`, `config`, `decoder`, `dashboard` | Status, settings, the decoder process, the control dashboard |
| `testinject`, `cli` | The synthetic call; the command line |
| `bytes`, `text`, `scan` | Numbers as bytes and as text; cutting text into parts |
| `outside` | Random ids and the local time |

`app/` is the program around it: sockets, files, threads, the decoder process, the
native voice encoder, and everything in floating point. A frequency, a gain or a
level crosses the border as text, as the bits of a single-precision number, or as
a table of samples.

The injection entity never addresses anything but call control and the voice
downlink of its own cell, and starts calls on local groups only: see
`entity_laws`.
