# stellar_route

A Soroban contract that routes swaps through registered pools, with its behaviour stated in
contracts and proved by Verus.

- `src/router.rs`: the entry points, and what each of them does to the ledger
- `src/route.rs`: following a route through its pools
- `src/fees.rs`: the contract's share of a swap
- `src/storage.rs`: what is kept on the ledger, and for how long
- `src/types.rs`, `src/events.rs`, `src/errors.rs`: the values that go in and come out
- `src/ledger.rs`: a model of the ledger, of which all contracts speak
- `src/host.rs`: the SDK functions that the contract calls; their contracts are believed, not
  proved
- `src/laws.rs`: what holds of the contract as a whole
- `app/`: the contract as it is deployed, with the SDK's macros around the library
- `tests/`: the library on the SDK's own host

An entry point that cannot go on (a token refuses, an amount overflows) returns `Abort::Trap`; the
deployed contract turns it into a panic, and the host undoes the invocation.
