# meow

The decisions of a rule-based proxy kernel, written in Verus: what is read,
kept, answered and refused, apart from the sockets, files and clocks that this
happens on. Every function states what it returns or changes, and Verus proves
it.

## Layout

- `src/` is the library.
  - `anytls/`: the AnyTLS protocol. Frames, authentication, padding, streams,
    the server's connections, the local SOCKS5 and HTTP proxies, certificates
    and their reloading, name lookup.
  - `dns/`: the answer cache, DNS messages, what an answer means, upstream
    clients and their connection pool.
  - `config/`: proxy providers and their filters, contained paths, downloads
    over HTTP/1.1, web panels in zip archives.
  - `common/`: dial limits, host lookup, socket protection, HTTP sniffing.
  - `runtime/`: first downloads, health checks, the Windows service.
  - `api/`: log messages and the web panel's directory.
  - `bench/`: the course of a benchmark and the memory it measures.
  - `text.rs`, `octets.rs`, `numbers.rs`, `net.rs`, `clock.rs`, `io_error.rs`:
    plain values that the modules share, with their models.
- `tests/` runs the library with the crates that it calls.
- `app/` is ordinary Rust around it: the benchmark program, and the listeners,
  dials, downloads and watchers that hand events to the library and carry out
  what it answers.

## How it is stated

Values are modelled by sequences, maps and plain structs, and a contract says
what the model of the result is. Time is an argument: a function that depends on
it takes the current `Instant`. Work that goes back and forth with the outside
world, such as a connection or an installation, is a state with one function for
each event, which returns the next action.

A proof function whose name begins with `law_` states what holds over several
calls, such as that a frame that was encoded is decoded again, or that a put
answer is read back until its life is over.

Calls into other crates stand in small functions whose contracts are taken on
trust. The doc comment of each says what is claimed of the outside function, and
what is left open.
