# crust

A toy compiler for a subset of C to x86-64 assembly, written in Verus. Every
pass is a verified function whose contract says exactly what it computes, stated
over mathematical models (`Seq`, `Map`, spec functions).

## Layout

- `src/lexer/`: tokens, the token definitions (regular expressions), longest
  match, comments and white space; `source_text.rs` splits `&str` at UTF-8
  boundaries and parses decimal constants; `regex_match.rs` holds the one call
  into the `regex` crate.
- `src/parser/`: recursive descent with precedence climbing; `grammar.rs` states
  the grammar as spec functions over token sequences.
- `src/semantic_analysis/`: identifier resolution, type checking and loop
  labeling.
- `src/tacky.rs`: translation to the three-address TACKY representation.
- `src/assembly/`: translation to assembly, replacement of pseudo registers by
  stack slots, instruction fix-up, and `generate`, which runs the three.
- `src/code_emission.rs`: assembly text.
- `src/text.rs`: decimal text of integers.
- `app/main.rs`: the command-line driver (preprocessing and linking through
  `gcc`, files, flags).

## Checked and unchecked passes

Each pass that can reject its input comes twice. `try_parse`,
`try_resolve_identifiers`, `try_check_types`, `try_label_loops`,
`try_translate_program` (and the `try_` form of each of their helpers) return
an error value, and their contracts say exactly on which inputs each error
comes. `parse`, `resolve_identifiers`, `check_types`, `label_loops`,
`translate_program` and their helpers require an input that the pass accepts
and return the result itself; the driver uses the checked forms and stops
with the error.

## What is proved besides the contracts

- Maximal munch in the lexer (`select_longest` and `select_keyword` choose
  among the matches), and that white space before a text changes nothing.
- Labeling only adds labels, gives every loop its own label and ties every
  `break` and `continue` to the innermost loop.
- Resolution keeps function names, parameter counts and bodies.
- Every TACKY function ends with `return 0`; the counters of temporaries and
  labels never go down, and an expression computes each value into a new
  temporary of its own.
- The layout of a call: padding to a multiple of 16 bytes, the first six
  arguments in `DI`, `SI`, `DX`, `CX`, `R8`, `R9`, the others pushed last
  first, one `call`, and the result moved out of `AX`.
- Distinct pseudo registers get distinct stack slots.
- The back end's output holds no pseudo register and every instruction obeys
  the x86-64 operand constraints, so that emission is always possible.

## Trusted

- `lexer::regex_match::find_match`: `regex::Regex::new` and `Regex::find`; what a
  pattern matches is the uninterpreted `regex_find`.
