# tapgres

A wire tap for PostgreSQL. Captured packets or relayed bytes go in; decoded protocol
messages come out as display records that can be filtered, searched, recorded and
replayed.

The library in `src/` is written in Verus: what each function does is stated in its
contract and proved.

| Module | What it holds |
| --- | --- |
| `net` | link, IP and TCP headers of captured frames |
| `reassembly` | one direction of a TCP stream, put back in order |
| `flow` | the table of connections and its bounds |
| `wire` | the protocol's messages as plain values, and taking them off a buffer |
| `decode` | what each message does to a direction and what is shown of it |
| `render` | the texts that messages are shown as |
| `output` | display records, the sink they go to, and their routing |
| `lexer`, `filter`, `filter_laws` | the display filter language, and how its texts combine |
| `state` | the registry of connections, its counters and rates |
| `session`, `reader` | saved sessions: stored records and their checks, reading whole sessions and tails |
| `proxy`, `tls` | the decisions of the TLS-terminating proxy and its certificates |
| `capture` | the decisions of the passive capture |
| `tui`, `command`, `search` | the state of the interactive view and what keys do to it |
| `view`, `screen` | what the interactive view shows |
| `addr`, `addr_laws`, `text`, `buffer`, `cli` | addresses, text, byte buffers, defaults |

`app/` is the program around the library: arguments, capture, sockets, files and the
terminal. `tests/` runs the library, with the protocol crate linked.

## What is trusted

Calls into other crates stand behind small wrappers whose contracts are not proved; each
says in its doc comment which function it calls and what it claims of it. They cover the
protocol decoder, byte buffers, regular expressions, JSON, time, channels, server names,
PEM files, certificate issuing, cell widths and line wrapping.
