# databus

A topic-based data bus for tokio programs, with its logic proved in Verus.

- `src/` is the verified library: hierarchical topics and indices, a trie
  that answers which stored values a topic reaches (with `*` wildcards and a
  fallback to the deepest value on the path), a copy-on-write trie shared
  between threads, message headers with bounded metadata, the topic registry
  of the bus, the constructors and run-loop decisions of producers,
  processors and storers, the link-following logic of an HTML list producer,
  and the fan-out bus, which keeps one sender per subscriber and, before a
  publication, drops the senders whose receivers are gone and returns the
  others, in order, for the message to be sent to. Each send and receive
  handle carries a ghost label of its channel: the two ends of one channel
  share it, and the contracts use it to say which topic's channel a handle
  belongs to and that a re-added topic gets a different channel. Labels of
  unrelated channels may coincide.
- `tests/` exercises the library with the real outside crates linked.
- `app/` holds what Verus cannot check: the async traits that user code
  implements, the run loops, a bus shared behind a mutex, HTTP fetching, a
  console storer, and error types that implement `std::error::Error`.

Calls into outside crates (tokio channels, tokio-util cancellation tokens,
arc-swap, scraper, url) go through small trusted wrappers; their contracts
are believed, not proved, and say no more than the crates' sources and
documentation show. Where a result depends on other threads (what a mutex
or the shared trie holds, whether a receiver was dropped), they say nothing
of it, and verified functions take such results as arguments.
