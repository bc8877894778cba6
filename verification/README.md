# cyntax

A C preprocessor written in Verus, with its behaviour stated in contracts and
proved.

The pipeline runs from text to text:

- `prelexer`: trigraphs, digraphs and line splices, each character with the byte
  range it came from;
- `lexer`: preprocessing tokens, comments and control lines;
- `tree`: control lines and tokens grouped into conditional-inclusion trees
  (`#ifdef`/`#if`/`#elif`/`#else`/`#endif`);
- `macros`, `substitute`, `invocation`, `expand`, `rescan`: macro definitions,
  argument substitution with `#` and `##`, and the expander, with a model
  (`queue_ok`, `queue_out`) of what a queue of trees expands to;
- `expr`, `consteval`: parsing and evaluating `#if` conditions;
- `parser`, `stmt`, `ty`: the token stream that the parser reads and the
  predicates that decide which statement or type may start at a token;
- `lib.rs`: `preprocess_str`, from source text to preprocessed text.

`peek.rs` and `strings.rs` hold the few trusted items: the calls into
`peekmore`, `String::push` and `str` equality.

`#include` is split between the library and its caller: `Expander::expand_until_include`
expands up to an `#include` and hands out its header name, the caller finds and reads the
header (`app/lib.rs`, `expand_with_includes`), and `Expander::include_source` lexes the
text, groups it into trees and puts them in place of the directive. `Expander::expand`,
which has no way to read a header, reports an `#include` as an error. As in the parser of
control lines this library follows, the text `#include` itself is read as an unknown
directive; the split serves trees that hold an `#include` directive. `app/` turns error reports into
`codespan-reporting` diagnostics.

`tests/` runs the library on concrete inputs.
