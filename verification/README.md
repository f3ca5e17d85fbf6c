# libPS

A PostScript interpreter library whose logic is verified with Verus, and a small prompt
around it.

- `src/` is the library. Each function states its behaviour in `requires` / `ensures`
  over spec functions and views, and Verus proves it.
  - `scanner` reads tokens from a file object (comments, numbers in radix and decimal
    form, names, literal / hex / ASCII85 strings, procedures); `tokenizer` and `token`
    convert token text into values; `encoding`, `ascii85` and `hex` decode strings.
  - `operators` holds the stack, integer, array and packing operators over an
    `InterpreterState`; `execution` holds the system dictionary, the dictionary stack and
    the dispatch of an operator; `evaluator` evaluates tokens on that state.
  - `map`, `stack`, `container` and `memory` are the data structures; `file`, `name`,
    `object` and `operator` the object kinds; `error` and `errors` the error kinds.
- `app/` is the prompt: it reads lines, hands tokens to the evaluator, and carries out
  what needs floating point (reading reals and the operators on reals), which the library
  leaves to its caller.
- `tests/` runs the library on concrete inputs.
