# quickwit_extensions

Extension points of a search engine for the applications that embed it, verified with Verus.

* `src/sidecar.rs`: `SplitSidecar`, an extra file of each split whose row `i` belongs to the
  split's document `i`; the registry of sidecars; what a merge does to rows, and the laws that
  keep rows and documents in step.
* `src/query.rs`: `QueryExtension`, a query type of the application, found by its `kind`; the
  registry of extensions; lists of warmups.
* `src/extension_query.rs`: `ExtensionQuery`, the query that is built by a registered
  extension, and the side outputs that are collected on the way.
* `src/tokenizer.rs`: the registry of tokenizers.
* `src/outside.rs`: the types of other crates that are carried through, and the one function
  of theirs that is specified.
* `src/decimal.rs`: decimal notation of lengths.
* `app/`: a process around the library: global registries behind locks, asynchronous warmups,
  sidecar files on disk, the JSON form of queries.

Proof functions named `law_*` state what holds of the library as a whole.
