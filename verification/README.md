# price_oracle

A price oracle that combines the prices of many sources, written in Verus.

`PriceOracleContract` holds the whole state of the oracle. Each of its methods is one call: it takes
the circumstances of the call as an `Env` and either refuses the call with an `ErrorCode` and changes
nothing, or performs it. What a call announces and which transfers it asks for are kept until they are
taken with `take_events` and `take_transfers`, so that the library itself does no input or output.

* `src/` is the library. Every contract is proved. Two things are believed without proof: that the
  SHA-256 digest of `soroban-sdk` depends on the bytes alone (`src/digest.rs`), and how the standard
  library reads a text in UTF-8 (`src/operations.rs`). Properties that span several calls are the public proof
  functions, most of them in `src/laws.rs`.
* `tests/` runs the library on concrete values.
* `app/` puts the library on a Soroban host: addresses, events, transfers, calls of other contracts,
  signatures and new code.
