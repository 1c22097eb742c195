# balances-watcher

Streams the ERC20 balances of wallets on one EVM chain. A client creates a
session for a wallet, names the tokens to watch, and gets a full snapshot
followed by diffs over server-sent events.

- `src/` is the library: every decision of the service, with contracts that
  Verus proves. It reads no socket and no clock; what the node, a token-list
  server or a client said comes in as an argument.
  - `domain/`, `evm/`, `text.rs`, `collections/`: values and what they look like
    as text or bytes.
  - `config/`, `args.rs`: settings and tunables.
  - `api/`, `app_error.rs`: what is made of a request and how a failure is
    answered.
  - `services/`: one module per subsystem: the registry of sessions and their
    balances, the planning of block ranges, the bisection of refused ranges, the
    watchdog over new heads, refresh batches, token lists, and the guard on
    callers' URLs.
- `app/` is the program: it runs the library's state machines against the node,
  the network and the clients.
- `tests/` runs the library on concrete values.

Public proof functions whose names begin with `law_` state what holds across
functions.
