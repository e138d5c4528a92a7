# AquaDEX

A limit order book and matching engine for a token exchange, with its books in flat account data, written in Verus.

Bids and asks are matched by price and time. What a maker is owed goes to a settlement log, from which it is withdrawn
or moved to a user vault. A market has two tokens: the market token, which is traded, and the pricing token, in which
prices are given.

## Layout

* `src/` is the library. Each instruction is a function from the content of the accounts to their content afterwards,
  or to an error; an instruction that is refused changes nothing.
  * `codec`, `slab`, `slab_alloc`, `region`: records as bytes, and pages that hold headers and items of records.
  * `crit_tree`, `pool`, `pool_ops`, `crit_map`, `crit_view`: crit-bit maps over such items, from the tree as a
    mathematical object down to the nodes in their slots.
  * `slab_vec`, `shelf`: records with a key each and a list of free slots.
  * `order_book`, `trade_log`, `settlement`, `accounts`, `reload`: the accounts of a market.
  * `ledger`, `order_rules`: the rules of the exchange, as specifications over what the accounts hold.
  * `exchange`, `order_entry`, `cancel`, `withdraw`, `vault`, `manager`, `log_chain`, `create`: the instructions.
  * `priority`, `matching`, `preview`, `balances`, `flows`, `counts`, `laws`: what holds across instructions.
* `tests/` runs the library on examples.
* `app/` is the Anchor program: it reads accounts, calls the library and carries out transfers.

## What is taken on trust

Two calls of other crates: the hash of an owner's address (`murmur3`), and the derivation of a program address
(`solana-program`). Their contracts are in `src/hash.rs` and `src/address.rs`.
