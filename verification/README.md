# gguf_loader

Ingestion of local GGUF model files of the Qwen2 family, verified with Verus.

A bundle is one file, `model.gguf`. The library turns its parsed content into a manifest
with the architecture's parameters and the tensors under canonical names, bounded access to
the tensors' bytes, and a tokenizer built from the embedded vocabulary. Tensors in the block
formats `Q8_0`, `Q4_K` and `Q5_K` are unpacked to single precision when they are read.

Parsing a file grants no trust: a manifest is a description, to be validated and evaluated by
whoever loads the model.

## Layout

- `src/` is the verified library. It decides and computes; wherever opening, reading or
  parsing a file, or a digest, decides what happens next, it takes the outcome as a value.
  - `config`, `naming`, `weights`, `metadata`, `model`: what a file says.
  - `float`, `dequantize`, `transpose`, `weight_layout`, `derived_lm_head`, `payload`,
    `pipeline`: from stored bytes to what consumers expect.
  - `engine`, `tokenizer`, `truncation`, `token_metadata`: the tokenizer. `engine` holds all
    that is taken on trust of the `tokenizers` crate.
  - `ingestor`, `listing`, `identity`: the manifest.
  - `properties`: what holds of every ingested model.
- `tests/` runs the library, with the `tokenizers` crate linked.
- `app/` connects it to the Magnetar runtime: files, digests and the runtime's traits.

Floating-point numbers are held as their bit patterns throughout the library.
