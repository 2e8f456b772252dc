# kei

kei moves photos and videos from iCloud Photos to local storage.

- `src/` is the library: reading CloudKit's records, planning and running enumerations,
  following the change feed, deciding what to retry and which sync token may be kept, and
  starting up. It is written in Verus; every function of the library's own has a contract, and
  the `law_*` proof functions state what holds of several of them together.
- `app/` is ordinary Rust around it: HTTP, processes, files, the log and the serde types.
- `tests/` runs the library.

Calls into other crates stand in `src/` behind small functions marked
`#[verifier::external_body]` or behind `assume_specification` items. The doc comment of each
says what is taken for granted of the crate's function. Of the words of an outside error
nothing is, so the three functions that give them have no contract.
