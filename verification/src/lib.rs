//! Extension points for embedding applications.
//!
//! The library itself never implements these traits. An application that links it
//! (indexer, searcher, ...) registers implementations once at start-up, before any actor
//! runs, and the indexing, merge and search paths call into them.
//!
//! * [`SplitSidecar`]: an extra per-split file whose rows are aligned with the split's
//!   document ids. It is built while documents are indexed, rebuilt on merges (dropping
//!   deleted documents), shipped inside the split bundle and readable at query time.
//! * [`QueryExtension`]: a query type evaluated by the application inside leaf search, with
//!   an asynchronous per-split warmup for data tantivy does not know about.
//!   [`ExtensionQuery`] is the query that reaches it by its `kind`.
//! * [`register_tokenizer`]: tokenizers known by name to every doc mapper.
//!
//! Each registry is a value of its own; a process keeps one of each behind a lock.

pub mod decimal;
pub mod extension_query;
pub mod outside;
pub mod query;
pub mod sidecar;
pub mod tokenizer;

pub use extension_query::{
    record_build, ExtensionOutputs, ExtensionQuery, InvalidQuery, QueryAst, TantivyQueryAst,
};
pub use query::{
    query_extension, register_query_extension, ExtensionQueryBuild, ExtensionWarmups,
    QueryExtension, QueryExtensions,
};
pub use sidecar::{
    register_split_sidecar, split_sidecars, SidecarMergeSource, SidecarWriter, SplitSidecar,
    SplitSidecars,
};
pub use tokenizer::{register_tokenizer, registered_tokenizers, Tokenizers};
