# rust_learning_path

A Rust learning path (basics, ownership, structs and enums, error handling, a
message-board web app, an image-to-text tool and a small RESP key-value server),
with its logic as a library verified by Verus.

- `src/` — the verified library:
  - `protocol.rs`: reading RESP commands from received bytes and writing replies;
  - `decimal.rs`: the `i64` decimal grammar and integer text;
  - `cmd.rs`: the `PING` / `SET` / `GET` commands over the store;
  - `connection.rs`: one turn of a client connection (read, run, reply or refuse);
  - `board.rs`: the message board's rules;
  - `picture.rs`: decoding pictures and resampling them to grey levels or colour text;
  - `ascii_art.rs`: character ramps and the ASCII, half-block, Braille and colour layouts;
  - `basics.rs`, `username.rs`: the small exercises;
  - `text.rs`: contracts of the std text functions that the library calls.
- `app/` — the programs: sockets, HTTP, files, command-line parsing and the
  floating-point brightness processing.
- `tests/` — tests of the library.
