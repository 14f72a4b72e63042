# tweld

A naming language for identifiers and string literals, verified with Verus.

Inside `@[...]`, words are run together and transformed by chains of modifiers
(`@[(get user profiles) | snek]` gives `get_user_profiles`); the result is an
identifier, or a string literal where a string or character literal stood among
the words. Each `@[...]` inside the value of a string literal is welded into text.

## Layout

- `src/tokens.rs`: token trees as plain values (`Tok`), and their views.
- `src/parser/`: the language inside `@[...]` (`TweldDsl::parse`), and the modifier
  chains with their arguments (`parser/modifiers.rs`).
- `src/models.rs`: the parsed pieces (`TokenPart`) and modifiers (`Modifier`).
- `src/builder.rs`: running the modifier chains and building the text.
- `src/text.rs`: the character-sequence operations the modifiers are built on.
- `src/casing.rs`: case conversions, done by `heck` and `std`.
- `src/scanner.rs`: scanning token trees for `@[...]` (`scan_tokens`).
- `src/literals.rs`: welding inside string literals.
- `src/laws.rs`: what holds of the modifiers and of the scan as a whole.
- `app/lib.rs`: the token-stream edge, from `proc_macro2` token trees to the
  library's tokens and back.
- `tests/`: welding scenarios on token streams, and the library function by function.

Each function in `src/` states its result in its `ensures`, over spec functions on
sequences of characters; Verus proves the code against them. What `heck` and `std`
compute, and what `syn` reads a literal as, is named, not restated. How `proc_macro2`
lexes a text and what `syn` makes of an identifier depend on where the code runs (the
compiler's lexer or `proc_macro2`'s own), so the scan is stated for whatever they give:
verified functions take their answers as arguments, and the scan's contract holds for
every answer they can give.
