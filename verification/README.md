# roulette

A Secret Network contract that runs an American-style roulette table and a
queue of deposit, transfer and withdrawal requests answered by an enclave.

- `src/` is the verified library (Verus):
  - `game.rs`: bets, their equality, validity and payout, and the winning
    bets of a spin, proved to be exactly the valid bets that cover the number.
  - `coins.rs`: coins, the table's limits, and the checks of bets and funds.
  - `round.rs`: settling a spin and playing a whole round.
  - `ledger.rs`: the request queue, checkpoints, the hash chain and the
    administrator.
  - `setup.rs`: what the contract stores when it is instantiated.
  - `cipher.rs`, `entropy.rs`: the calls into `aes-gcm` and
    `secret-toolkit-crypto`, with the contracts they are trusted to meet.
  - `error.rs`, `msg.rs`: errors and messages as plain values.
- `app/` holds the contract's entry points, the serialisable copies of the
  message and storage types, and the storage access.
- `tests/` exercises the library.
