# aether

A lexer and parser for the Aether scripting language, written in Verus with contracts
that pin down every result.

- `src/text.rs` – character classes (named results of `char`'s Unicode predicates) and
  verified text helpers: equality, substring search, trimming, collecting characters.
- `src/lexer.rs` – tokens and the lexer; `next_token_spec` is the model of one lexing step,
  with laws on progress, termination and the shape of every token.
- `src/ast.rs` – syntax trees and their models.
- `src/parser.rs` – the parser and its model over parse states, with laws on termination,
  reading to the end, and the well-formedness of every parsed program.
- `src/evaluator.rs` – the run-time environment (bindings and printed output), the program
  checks that run before evaluation, and the rendering of printed output.
- `src/security.rs`, `src/settings.rs`, `src/studio.rs` – the forbidden-command scan, the
  language setting, and the web studio's request routing and responses.
- `app/` – the command-line program, the evaluator (its values are floating-point numbers)
  and the JNI entry point.

## The language that is parsed

A program is a sequence of statements; only five forms start one:

- `let <name> = <expression>`
- `return <expression>`
- `print <expression>` or `print(<expression>)`
- `fn <name>(<parameters>) -> <return type> { <statements> }`, where the return type is
  optional and the parameters and return type are read past, not kept
- `actor <name> { <statements> }`

An expression is an identifier, a number, a string literal, or one of `+ - * /` between
two of these. Any other token is skipped. In particular `if`/`else`, `while`, `for`,
assignment, arrays, dictionaries and calls of built-in functions are **not** parsed:
`if x > 5 { print("Big") } else { print("Small") }` reads as its two `print` statements.
