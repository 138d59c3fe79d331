# faustprobe

The verified core of a command-line probe for compiled Faust programs: it
JIT-compiles a program, renders it, and reports on what came out.

- `src/` is the library, verified with Verus. It holds what the probe
  decides and computes on integers and text: the `--eval` wrapping of a file
  and the explanation of its compile errors (`eval`), the compiler's `argv`,
  the text of a failed compilation and the shape of an instance (`engine`),
  the canonical cache identity of compiler arguments (`factory`), the
  command line's checks and options, and which flags the impulse-test
  protocol and a polyphonic run refuse (`cli`; those of a training and of a
  frequency response stand in `train` and `freqresp`), the `--in` modes
  (`input`), the byte layouts of the `.npy` and `.wav` files the probe
  writes and reads (`audio`, with the read-back laws in `readback`), the
  checks before a frequency response (`freqresp`), and what a training
  reports of its bounds and lanes (`train`). `text` and `lines` hold the
  text primitives the rest is built on.
- `tests/` runs the library on concrete values.
- `app/` is ordinary Rust around it: the file system, the per-thread record
  of a failed compilation, and the arithmetic on floating-point samples.
