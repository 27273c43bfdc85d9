# agent_core

The headless core of an agent, written in Verus: what it decides is stated in
contracts and proved. It holds the canonical messages, tools and requests, the
decisions of the turn loop, the context budget and its compaction, the loop and
spend guards, the sandbox policy, redaction, and the code-mode session.

- `src/` is the library. `lap` is the turn loop: it takes what happened to what
  comes next, over the state in `run`. The views of its types are mathematical values, and the
  contracts speak of those. The proof functions named `law_..` state what holds
  across functions.
- `tests/` runs it.
- `app/` is what surrounds it: the traits of its surroundings, the loop that
  awaits them, and the formats on the wire.

Documents are read and written by `serde_json`, fingerprints are made by `sha2`,
and output fragments are encoded by `base64`; what is believed of them stands
beside each call.
