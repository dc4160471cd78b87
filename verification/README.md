# netpeek

Which processes on this machine are talking to the network, and how fast: a live
table per process with down/up rate, cumulative bytes and open connections, read
from the private `com.apple.network.statistics` kernel control that `nettop(1)`
uses.

What decides or computes is a verified library under `src/`, in
[Verus](https://github.com/verus-lang/verus). The program around it, under `app/`,
opens the socket, draws and waits for keys. It also reads the refresh interval,
a floating-point number of seconds, and tells the library whether it is one of at
least 0.2.

| Module | What it holds |
|--------|---------------|
| `ntstat::wire` | the kernel protocol: request bytes, bounds-checked parsers, datagram walk |
| `ntstat` | the monitor: which requests go out, how each message changes the state |
| `model` | flows and rows |
| `model::engine` | flows → per-process rows, rate deltas, carried totals, history |
| `model::table` | sorting and filtering the rows |
| `model::laws` | what holds of the engine over any run of messages and ticks |
| `rate` | throughput as an exact fraction of bytes over nanoseconds |
| `app` | UI state machine and key map |
| `session` | what the interactive loop and the one-shot snapshot do next |
| `ui` | text, alignment and emphasis of every cell on the screen |
| `report` | the `--once`, `--json` and `--diag` outputs |
| `format` | byte counts, rates, TCP states, sparklines |
| `services` | port → service name (curated + `/etc/services`) |
| `dns` | cache of reverse lookups, socket addresses for `getnameinfo` |
| `cli` | the command line |
| `text`, `sort` | characters, decimal numbers, padding; stable sorting |

Each contract speaks of a mathematical view of the data (`FlowView`, `EngineView`,
`AppView`, …), and each module ends with the laws that follow from the contracts.

Rates are fractions, not floating-point numbers, so sums and comparisons are
exact. Time is in nanoseconds.

Taken on trust from outside: `bytemuck::pod_read_unaligned` and
`bytemuck::bytes_of` on 64-bit words, `String::from_utf8_lossy`,
`str::to_lowercase`, and `String::push`, `pop` and `clear`.
