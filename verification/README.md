# lokal

A local LLM runner: GGUF and safetensors checkpoints, a Metal backend, and a
hybrid backend that prefills on the Neural Engine. What it decides and computes
over integers, bytes and text is the library under `src/`, verified with Verus.
What it does with files, the network, the clock, threads and devices is `app/`.

- `src/gguf/` reads a GGUF file: the container, the model's configuration, the
  tokenizer.
- `src/hub.rs` turns a model spec into files, and names a model's graph directory.
- `src/generate.rs`, `src/speculative.rs` and `src/batch.rs` are the generation
  loops as decisions: what each sampled token does to a run.
- `src/ane/` routes a prompt between the Neural Engine and the GPU.
- `src/gpu/` plans what the GPU runs: the state of a session, the sizes of its
  buffers, the kernels of a step with everything bound to them, and the barriers
  between them.

Floating-point numbers travel through the library as their bits. A plan is a
sequence of commands; `app/metal.rs` runs it as it stands.
