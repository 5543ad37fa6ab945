# study_lua

A small Lua-style register virtual machine with a verified core.

- `src/opcode.rs` — the 32-bit instruction layout (`iABC`, `iABx`, `iAsBx`),
  field accessors, instruction builders, and `Opcode` decode/encode.
- `src/vm/` — the machine: one value stack shared by all calls, call frames
  that view windows of it as registers, Lua 5.x argument/result rules
  (`B = 0` / `C = 0` through the effective top, varargs, tail calls), and
  protected calls that roll back on error, closures that capture values
  (`CLOSURE` / `GETUPVAL`), and the generic `for` pair `TFORCALL` /
  `TFORLOOP`. `semantics.rs` gives the meaning
  of every operation over a mathematical model; each executable operation is
  proved to follow it, and `laws.rs` proves properties across operations.
- `src/frontend/` — tokens, the lexer (proved against a specification of
  the token grammar), and a one-pass parser and code generator
  (`parser.rs`) behind `compile_str`: locals, `local function`, closures
  over the enclosing function's names, `if`/`else`, calls, `return`, and
  the operators `+ - * / < ==`.  `meaning.rs` says what source text means
  for a core of the language — local definitions over arithmetic
  expressions, `return` of an expression or a comparison (`<`, `==`), and
  `if`/`else` on `nil`, `true`, `false`, an expression or a comparison
  (only `nil` and `false` count as false) — and what straight-line code
  and jumps do to the machine; `compile_str` is proved
  to compile every such chunk into code whose run returns exactly that
  value.  Parse, code-generation and unsupported-feature errors are proved
  to carry the position of a token.
- `src/text.rs` — error messages.
- `app/main.rs` — the command-line runner (file reading, IEEE double numbers,
  printing).

Numbers are a type parameter (`LuaNumber`): the machine moves them between
registers and asks the number type to compute and compare them.  Each
operation of the trait has a spec counterpart (`add_spec`, `eq_spec`, ...)
that an implementation promises to compute; the machine's contracts are
stated over those, so a run's result is fully determined by the state.
