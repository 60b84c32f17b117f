# rig-llama-cpp

A [Rig](https://docs.rs/rig-core) provider that runs GGUF models locally via
[llama.cpp](https://github.com/ggml-org/llama.cpp), with its logic verified by
[Verus](https://github.com/verus-lang/verus).

- `src/` is the library. It prepares requests, reads what models generate, puts
  streamed tool calls together, and decides, as state machines, how models are
  loaded, prompts decoded, tokens sampled and texts embedded. Verus proves the
  contracts of these functions. What they take on trust of `serde_json`,
  `schemars`, `rig-core`, `base64` and the standard library stands in the few
  functions marked `external_body` and in the `assume_specification` items,
  each under a comment that says what is claimed.
- `app/` is the program around it: llama.cpp handles, threads and channels, the
  traits that Rig and serde want, and everything with floating-point numbers.
- `tests/` runs the library on concrete values.

The public proof functions whose names start with `law_` state what holds of the
library as a whole, such as that every image of a chat has exactly one marker in
its messages (`markers`), that written XML tool calls are read back (`xml`), or
that the batches of a prompt cover its uncached suffix (`prefill`).
