# netsnmp_agent

An SNMP agent library whose behaviour is stated in contracts and proved with Verus: the registry
that dispatches GET, GETNEXT, GETBULK and SET over MIB subtrees, the handlers and tables of the
usual MIB modules, notifications, proxied and delegated subtrees, the SMUX codec and server, and
what an agent keeps over a restart.

- `src/` is the library. Each type has a mathematical view, each function says in terms of those
  views what it returns, and the files ending in `_laws.rs` state what holds of several functions
  together.
- `app/` is the ordinary Rust around it: it samples the host, reads files, runs commands and
  talks to peers, and hands the library plain values.
- `tests/` runs the library on examples.

A handler is a state machine (`handler::MibHandler`): functions on its state say how each request
is answered and what it changes. The registry's contract is stated over those functions. It holds
of the library's own handlers, which are verified against the trait, and of handlers in ordinary
Rust that guarantee what the trait's documentation asks of them. `transaction_laws.rs` and
`walk_laws.rs` show which of the library's handlers meet what the laws on SET and GETNEXT ask for.

What is not proved but trusted: `String::push`, `String::from_utf8_lossy`, `std::str::from_utf8`
and `chrono::Local::now`, each with the contract that stands at its declaration.
