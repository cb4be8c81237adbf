# sixhop

A SOCKS5 proxy with user name and password authentication, CONNECT, BIND and UDP ASSOCIATE, and
random IPv6 source addresses for outgoing connections. Its protocol core is a library verified with
Verus.

- `src/` is the library. It does no input or output: a `Session` says what it waits for, and is told
  what came of it.
- `app/` is the program around it: sockets, timers, signals, logging, and reading the settings.
- `tests/` runs the library on concrete conversations.

| module | what it holds |
|---|---|
| `addr` | addresses as plain values |
| `text`, `ipv6_text` | reading numbers, lists and IPv6 addresses from text |
| `written` | the texts that addresses and blocks are written as, and that they read back |
| `block`, `random` | blocks of IPv6 addresses, and random addresses out of them |
| `config` | settings, and how command line, environment and file are combined |
| `auth`, `handshake` | choosing an authentication method, and authentication |
| `request` | requests and replies, byte by byte |
| `session`, `session_laws` | the state machine of a client connection, and what holds of every run of it |
| `udp` | what becomes of a datagram |
| `pump` | passing bytes on, and the idle timer that both directions share |
| `server` | admitting connections, and stopping |
| `failure` | why a connection ends |

Settings: the command line comes before the environment (`SOCKS5_*`), that before the file, and that
before the defaults.

What is trusted rather than proved are the calls of `String::from_utf8` of std, and of `thread_rng`,
`Rng::gen` and `Rng::gen_range` of `rand`.
