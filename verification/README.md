# fastcat

Fast string concatenation with a separator, where the pieces known at compile
time are concatenated at compile time:

```rust
let greeting = fconcat!("hello ", name);          // "hello world"
let path = fconcat!("/"; base, user, "bin");      // "/usr/local/bob/bin"
```

`src/` holds the verified library: how the macro's input is read into pieces,
how a separator is fused into neighbouring string literals, how constant pieces
are grouped, which code shape the expansion takes, what that code evaluates to,
and the byte concatenation that the constant code calls. `src/laws.rs` proves,
among others, that the expanded code evaluates to the pieces joined by the
separator.

`app/` is the macro around it: it parses the input tokens with `syn` and writes
the planned code with `quote`. The constants that join bytes carry the steps of
`concat_bytes` written out, since a `const fn` is not available to the library.
