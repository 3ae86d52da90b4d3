# SideWire

A native control bridge between a desktop and rooted Android devices: a shared framed protocol,
a desktop command line with its device server, and a daemon for the device. The logic is a
library whose behaviour is stated in contracts and proved with Verus; the two programs around it
do the input and output.

## Layout

- `src/`: the library.
  - The wire: `frame`, `packet`, `record`, `noise`, `security`, `messages`, `capabilities`,
    `device_id`.
  - Beginning a session: `handshake`, `pairing`, `pairing_desk`, `trust`, `discovery`.
  - The device: `serve`, `mux`, `handlers`, `device`, `proxies`, `clipboard`, `completion`,
    `shell`, `outbound`, `settings`.
  - The desktop: `streams`, `registry`, `remote`, `control`, `connector`, `client`, `console`,
    `transfer`, `walk`, `config`.
  - What all of them share: `text`, `bytes`, `hex`, `utf16`, `table`, `order`.
- `tests/`: the library's tests.
- `app/`: the programs `sidewire` and `sidewired`, one binary that looks at the name under which
  it was started.

## How the pieces fit

Whatever waits for a network, a file, a clock or a person stays in `app/`. It hands what came to a
function of the library and does what that function answers: a session of the device is
`serve::ServeState`, a stream of the desktop is `streams::Router` and `streams::DeviceStream`, a
file on its way is `handlers::PushHandler` or `remote::PullRun`, a tree of files is
`walk::PushWalk` or `walk::PullWalk`, a terminal is `control::PtyRelay`, and so on. Each such type
states in its contract what it answers in every state, and public proof functions state what holds
of whole runs.

Keys and ciphers come from the crates `snow`, `spake2` and `blake3`. What the library takes their
functions to do is written where it calls them, in `noise`, `pairing` and `security`.
