# immutable_json

JSON objects and arrays that change in an immutable way: every "change" gives a new value,
and persistent collections (`imbl`) keep changes and copies cheap. JSON pointers address
values inside them; values convert to and from `serde_json`, BSON and jaq values; JSON patches
are read from and written as arrays.

The library in `src/` is verified with Verus: each public function states what it returns in
its contract, and `src/laws.rs` and `src/round_trip.rs` prove how the operations relate (what
reading after a write gives, what a conversion and its way back give). The few calls into
outside crates go through trusted items whose contracts say what those crates do; they are
gathered in `src/persistent.rs` (`imbl`), `src/bson.rs` (`bson`, `chrono`), `src/patch.rs`
(`jsonptr`) and `src/text.rs` (UTF-8 text).

`app/` holds what talks to the outside crates' own types: JSON text through `serde_json`,
BSON documents, jaq filters and values, `json_patch`'s patch and diff, error descriptions,
and binary64 numbers, which the library holds by their bits.
