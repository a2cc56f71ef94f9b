# silt_lua

The verified core of silt, a Lua dialect: its lexer, Lua patterns, tables,
bytecode chunks and instructions, scopes and upvalues, the compiler's
bookkeeping (precedence table, locals, captures, jumps, labels, loops), a
compiler for part of the language, a run loop, the standard library's string
and table functions, integer and string arithmetic,
error reports, and the formatter, token map and lexical diagnostics behind the
language server. Every function in `src/` carries a contract; Verus proves
each one against its body, except the `#[verifier::external_body]` wrappers
around std calls (`String::push`, `str::to_uppercase` and `to_lowercase`, and
the `Box`, `Mutex`, `Arc` and `Weak` handles of userdata), whose contracts are
trusted. Laws relating several functions stand there as proof functions.

What the library does and does not do:

- It compiles a part of the language. `parser::compile` takes Lua source to a
  chunk, and its contract gives the chunk exactly: the instructions, the
  constant pool and the place of each instruction, or the first lexer or
  syntax error, or the place of the first construct it leaves out. It
  compiles statements made of expressions (integer and text literals, `nil`,
  `true`, `false`, global names, parentheses, unary and binary operators
  with their precedence, `and`/`or` with their jumps), assignment of one
  global, `sprint`, `return` of one value or none, `if` with `elseif` and
  `else`, `while`, `repeat ... until`, `break` and `do` blocks. It leaves
  out the constructs whose code needs instructions that the instruction set
  (`OpCode`) does not define (`NILS`, `DUP_N`, `VARARG`, `METHOD_GET`,
  `POWER`, `MODULUS`, `FLOOR_DIVIDE`, the bit operations, `GOTO`, a `RETURN`
  with a count, a three-operand `CALL`), and also number literals with a
  fraction (floats), locals, functions and calls, tables, `for`, labels and
  multiple assignment. It stops at the first error, so the language server's
  diagnostics stay lexical. What a full compiler keeps track of (the
  precedence table, locals, captures, scopes, jumps, labels, loops) is in
  `compiler` and verified.
- It runs compiled chunks. `Vm::step` runs one instruction of one frame:
  constants, locals, globals, jumps, `not`, negation, integer `+ - *`,
  comparisons of integers, texts, booleans and `nil`, text concatenation,
  `#`, the test and counter step of integer numeric loops, and table
  creation, reads and writes. `Machine` adds call frames: it holds the
  function chunks, the closures and the variables they capture; it makes
  closures, calls them, returns from them, and reads, writes and closes
  captured variables. `Machine::run` steps until an instruction gives
  something other than `Next`, the next instruction cannot be run, or the
  given number of steps is used up. Float arithmetic, division and float
  comparisons, concatenation of non-texts and metamethods come back with
  their operands, for the host to compute and `push`; prints come back with
  their value; calls of native functions come back untaken
  (`StepOutcome::Host`). A chunk from `parser::compile` runs on a `Machine`
  to the value it returns; `parser::run_source` does both, and hands back
  how the run ended with the machine, for the host to go on.

Layout:

- `src/` — the library, one module per part (`lexer`, `lua_pattern`, `table`,
  `chunk`, `code`, `compiler`, `parser`, `environment`, `function`,
  `standard`, `error`, `lsp`, `snippet`, `userdata`, `value`, `token`, `text`,
  `types`, `lua`).
- `tests/` — tests run against the compiled library.
- `app/` — the command-line program: a JSON-RPC language server over stdin and
  stdout, source formatting, token dumps and lexical checks.
