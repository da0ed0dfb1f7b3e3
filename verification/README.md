# html_extractor

A verified library for HTML extractor scripts: a small language whose
programs read inputs (an HTML document, variables), select and transform
values, and produce a JSON object. The library's functions carry contracts
that Verus proves; where a result comes from an outside crate (serde_json,
serde_urlencoded, reqwest's URL parser) or from std, a small wrapper marked
`#[verifier::external_body]` makes the call, and its contract, stated from
that crate's source or documentation, is trusted rather than proved.

## Layout

- `src/source.rs`, `src/text.rs` — source text, byte offsets, line and
  column, character helpers.
- `src/token.rs`, `src/lexer.rs` — tokens and the lexer (`lex`).
- `src/ast.rs`, `src/parser.rs`, `src/parse.rs` — the syntax tree, its
  specification and the parser (`parse`).
- `src/resolve.rs`, `src/validation.rs`, `src/requirements.rs`,
  `src/program.rs` — call resolution, checks, the inputs and host functions
  a program requires, and `compile`.
- `src/formatter.rs` — the canonical text of a program (`formatter::format`).
- `src/functions.rs` — the table of builtin functions.
- `src/value.rs` — values, ordered objects, JSON, and the builtin functions
  on values (`keys`, `zip`, `unique`, `trim`, `urlencode`, `json`, …).
- `src/operators.rs` — unary and binary operators; the floating-point part
  of number comparisons and arithmetic is handed back to the host.
- `src/scope.rs` — inputs and the scopes a program's variables live in.
- `src/engine.rs` — the checks a run makes before it starts.
- `src/evaluator.rs` — running a program or a test block. A run is a state
  machine (`start_run`, `start_test`, `eval_step`): each step replays the
  program from the start against the replies received so far, and either
  finishes or asks the host for a host function call, an HTTP fetch, a
  floating-point operation, or a builtin that needs an outside library.
- `src/runtime.rs`, `src/cloudflare.rs` — errors, HTML values, HTTP
  requests, policy and responses, and the Cloudflare cookie store.
- `src/input.rs`, `src/cli.rs` — command-line variables and inputs, error
  rendering, and the response cache format.
- `app/main.rs` — the command-line tool (`run`, `test`, `fmt`, `check`).
- `tests/` — tests of the library.

Each module states its laws as public proof functions whose names start
with `law_`.
