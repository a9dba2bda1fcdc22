# handwriter_service

The logic of a small handwriting service, verified with Verus.

- `src/text.rs` cuts a text into lines of at most 70 bytes, never inside a character.
- `src/task.rs` holds the task records and their states.
- `src/queue.rs` keeps the task list: requests, claims, completions, queue positions.
- `src/dispatch.rs` shares lines out to writing machines and checks their results.
- `src/ident.rs` makes task ids (MD5 in hexadecimal) and image addresses.
- `src/home.rs`, `src/wrimage.rs` are the state machines of the two client views.
- `src/generator.rs` builds the command line of the stand-alone writer.
- `app/` is the HTTP server, its background loops and the stand-alone writer.

`app/` does not build here: it calls the `handwriter` crate (the handwriting model),
which is not available from the registry. `app/client.rs` and `app/client/` hold the
browser client (yew components); `client::start` is the entry of its browser build,
and the page logic they run is `src/home.rs` and `src/wrimage.rs`.
