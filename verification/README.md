# greego

The core of a canvas-based chat application: chat requests for several model
providers, decoding of streamed answers, sentence splitting and semantic
grouping of text, the decisions of the database event loop, and the service
registries, written in Verus with their contracts proved.

- `src/` the verified library:
  - `text` string operations with exact specifications (trimming, searching,
    splitting);
  - `chunking` sentence splitting and grouping of neighbouring sentences;
  - `event_queue` the queue of the database event loop (coalescing of moves,
    batches, bounded length);
  - `sse` line framing of server-sent events and extraction of answer pieces;
  - `providers`, `responses`, `urls` requests and responses of the providers;
  - `registry` services by name;
  - `commands`, `db`, `version` decisions of the application's commands, of
    the database layer and of the platform check;
  - `json`, `llm` the JSON reader and the chat data.
- `tests/` tests of the library.
- `app/` the application around it: HTTP clients, embedding services, the
  service managers and the event-loop runner.
