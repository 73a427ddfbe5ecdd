# vpratt

A Pratt parsing engine in Rust whose core carries contracts proved of its code.

A grammar is a `Table` of entries, each tying a routing token to a handler
under one of eight formats: `terminal`, `group`, `prefix`, `structural`
(prefix phase) and `infix`, `postfix`, `juxt`, `implied` (infix phase). A
parser implements `VprattCore` (its stream, routing, token kinds, binding
powers and handler dispatch); the engine runs the left-binding-power loop, and handlers
receive typed contexts whose capability tokens (`Rhs`, `Subexpr`, `Atom`,
`Enclosed`, `Seed`, `Resume`) re-enter the engine at the right binding power.

Layout of `src/`:

- `engine.rs` — `Precedence`, `Associativity`, the `VprattCore` trait and the
  verified precedence loop;
- `capabilities.rs` — the capability tokens;
- `context/` — the handler contexts and the `CtxUtils` stream utilities
  (`expect`, `accept`; `series` and `separated`, which parse atoms, and
  `series_sub` and `separated_sub`, which parse sub-expressions);
- `dsl.rs` — the table: builder, routing (`binding_power`, `nud_call`,
  `led_call`) and `validate`;
- `error.rs` — `VprattError` and its messages;
- `token.rs` — the `VprattToken` and `Spanned` traits;
- `token_impl.rs` — what the `#[vpratt::token]` attribute derives for a type;
- `config.rs` — the `#[vpratt::parser]` arguments, the handler types and
  the generated engine impl;
- `plan.rs` — the routing plan of a generated engine impl (the arms of its
  binding-power match and its dispatches), proved to route as the table.

Routing goes by token kind (`VprattCore::__kind__`): a table entry written
with a payload, such as `Num(0)`, routes every `Num`. A parser also reports
the item it took last (`__last__`), so that a group left unclosed at the end
of input is reported as an unmatched delimiter naming that item. Every public function
that computes a result states it in `ensures`; constructors of capability
tokens that carry no data have none to state. `tests/` runs parsers built on
the engine.
