# blrec

Records Bilibili live streams, or pipes them on. The library under `src/` holds
the decisions, verified with Verus; the program under `app/` does the outside work
that they ask for.

| Module | What it decides |
|---|---|
| `command` | what a command line asks for, and where to listen |
| `flv` | which bytes of an FLV stream are handed on |
| `reconnect` | how long and how often a lost connection is tried again |
| `pipe` | the course of a stream on its way to stdout or to TCP clients |
| `record`, `recording` | formats and file names; the course of a recording |
| `audio` | how resampled audio is cut into the frames of an encoder |
| `live` | what the answers of the web API mean |
| `auth`, `cookies` | logging in and out, and the cookies that this takes |
| `path`, `text` | file name extensions; numbers and characters as text |
| `payload`, `response`, `error` | what is sent, what is received, what goes wrong |

A session such as `RecordSession` is a state machine: `handle` takes what came of
the last step and gives the next one. Its contract is a function `next` from state
and event to state and step; what follows from it over whole runs is stated in the
proof functions whose names begin with `law_`.

`extras/qr_bound.py` works out up to which length of a text its QR code is certainly
drawn without an overflow; the code of a longer one is drawn by the program.
