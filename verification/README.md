# Revenue pool

A Soroban contract that holds USDC and pays it out to developers. The vault sends what it
deducts to the pool's address; the pool's admin distributes it, to one developer or to
several at a time. The admin role changes hands in two steps: the admin offers it, and the
one it was offered to claims it.

The contract is written in Verus. Each of its functions is proved to follow a step of a
model, which says what the call returns, what it leaves in storage and what it asks of the
host and of the token contract, whatever those answer. The laws that hold of all steps
together are proved as well: the pool is initialized once, its token is permanent, only the
admin is served, and that is whoever claimed the role last; no more is paid out than the
token reports for the pool; a batch is paid whole or not at all, and comes to the same as
its payments made one by one, in any order.

- `src/pool.rs`: the contract
- `src/model.rs`: the steps
- `src/laws.rs`: the laws
- `src/balances.rs`: the laws on the balances of each address
- `src/rules.rs`: single decisions over values at hand
- `src/host.rs`: the calls to `soroban_sdk`, with what is taken for granted of them
- `src/errors.rs`: the reasons for which a call is refused
- `app/`: the entry points that the host calls
- `tests/`: runs the contract on the host of `soroban_sdk`'s test utilities

A call that returns an error has to be aborted; the entry points in `app/` panic, and the
host undoes what the invocation did.
