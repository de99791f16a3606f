# raptor

A lexer and parser for a small C-like language, verified with Verus.

- `src/span.rs`: byte ranges of a source text and values tagged with them.
- `src/buffer.rs`: an iterator adaptor that saves reading positions and goes
  back to them, with the laws of rewinding and committing.
- `src/pattern.rs`: the one call into the `regex` crate.
- `src/lexer.rs`: tokens, the lexer, its laws (tokens tile the text, lexing
  is determined by the text), the token stream and the `Parseable` trait.
- `src/grammar.rs`: the syntax of the language as spec functions.
- `src/item.rs` and `src/item/`: the syntax tree and its parsers, each
  proved to read what the grammar says.
- `src/token.rs`: a second lexer, with a span type of its own.
- `src/item2.rs`: a group item whose brackets are literal tokens.
- `app/main.rs`: prints the tokens of a file.
