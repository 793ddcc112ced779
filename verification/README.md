# net_servers

A small TCP toolkit — a threaded HTTP server with endpoint routing and a
socket server for length-prefixed messages — whose decision-making core is
verified with Verus.

* `src/` — the verified library.
  * `text.rs`: character sequences, substring search, `str::split`, decimal text.
  * `http/`: methods and requests (`types.rs`), an insertion-ordered text-keyed
    map (`keyed_map.rs`), request parsing (`request.rs`), body trimming with the
    `regex` crate (`pattern.rs`), the reason-phrase table read with
    `serde_json` (`reasons.rs`), response text (`response.rs`), endpoints,
    routing and answers (`endpoint.rs`).
  * `socket/`: message framing (`framing.rs`), connection ids and worker events
    (`message.rs`), the dispatcher's connection table (`registry.rs`), and the
    placement of connections on worker chunks (`chunk.rs`).
* `app/` — the servers themselves: listening sockets, threads, locks,
  callbacks, and the built-in status-code table.
* `tests/` — tests of the library on concrete inputs.
