# rperf

A network throughput and reliability tester in the manner of iperf. A server
accepts clients; each client describes a TCP or UDP test, the two sides open
one or more data streams, and every stream reports its results once a second
over a separate control connection. The client prints them as they come, or as
one JSON document at the end.

## Layout

- `src/` is the library, written in Verus and verified:
  - `protocol/`: the configuration that a client sends, the framing of control
    messages (a two-byte big-endian length, then the message), and the result
    bookkeeping with its totals;
  - `stream/`: the port specifications and port pools, the pacing of senders,
    the TCP stream header and the UDP packet layout, and the receiver's
    accounting of lost, late and duplicated packets and of jitter;
  - `client.rs`, `server.rs`: the decisions of the two control loops;
  - `utils/`: the round-robin CPU affinity;
  - `clock.rs`: the calls into chrono that measure transit times.
- `app/` is the command-line program around it: argument parsing, sockets and
  polling, threads, JSON, and the floating-point rates and jitter averages.
- `tests/` runs the library on concrete values.
