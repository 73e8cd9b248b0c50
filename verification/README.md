# Lumen

A compiler and runtime for LLM inference, with a verified core.

`src/` is the library. Every item of it is checked by Verus.

| module | what it holds |
|---|---|
| `bytes`, `text` | little-endian numbers, numerals, UTF-8 |
| `float_bits`, `float_ops` | fp16, fp32 and fp64 as bit patterns: rounding, conversion, product, quotient |
| `float_text`, `natural` | fp32 and fp64 in decimal: the shortest text that reads back, and the numbers of any size that find it |
| `dsl` | the tensor language: lexer, parser, type checker, diagnostics |
| `ir` | the SSA form: lowering, verifier, printer, passes |
| `codegen` | x86_64 encoders, structured code, kernels, their meaning on a model of the processor, and the backend |
| `jit` | kernels compiled on demand, by shape |
| `model` | GGUF files, tokenizer, model loader |
| `runtime` | quantized blocks, key/value cache, work splitting, and the forward pass and greedy generation of a model on numbers of any type |

Modules whose names end in `_laws` hold what spans several functions, as public
proof functions. Among them:

- a kernel's machine code, run on the model of the processor, computes the
  product that its shape stands for (`codegen::selection_laws`, `jit::kernel_laws`);
- a token that is decoded with a cache becomes what it becomes when all tokens
  are taken at once, whatever the arithmetic (`runtime::layer_laws`);
- where native kernels multiply as the plain loops do, the text that is generated
  with them is the text that is generated without (`runtime::stack`);
- a program that type-checks and lowers passes the verifier (`ir::lower_laws`),
  and every error points into its source (`dsl::span_laws`);
- decoding undoes encoding (`model::tokenizer_laws`), and parsing a GGUF file
  gives back what was written (`model::gguf_laws`);
- the decimal text of a number reads back as the number (`float_text`);
- quantization stays within half a step (`runtime::quant_laws`).

`tests/` runs the library. `tests/native_kernels.rs` executes the emitted machine
code on a small interpreter and compares it with naive references.

`app/` is the command-line program: file access, threads, executable memory and
the single-precision arithmetic that the forward pass is run with.
