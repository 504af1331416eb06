//! Types of other crates that the library carries through without looking inside.
use vstd::prelude::*;

verus! {

/// `serde_json::Value`: a JSON value, opaque here.
#[verifier::external_type_specification]
#[verifier::external_body]
pub struct ExJsonValue(serde_json::Value);

/// `<serde_json::Value as Clone>::clone`: the copy of a JSON value is the same JSON value.
pub assume_specification[ <serde_json::Value as Clone>::clone ](
    value: &serde_json::Value,
) -> (copy: serde_json::Value)
    ensures
        copy == *value,
;

/// `tantivy::schema::Schema`: the schema of a split, opaque here.
#[verifier::external_type_specification]
#[verifier::external_body]
pub struct ExSchema(tantivy::schema::Schema);

/// `tantivy::Term`: an indexed term, opaque here.
#[verifier::external_type_specification]
#[verifier::external_body]
pub struct ExTerm(tantivy::Term);

/// `tantivy::tokenizer::TextAnalyzer`: a tokenizer with its filters, opaque here.
#[verifier::external_type_specification]
#[verifier::external_body]
pub struct ExTextAnalyzer(tantivy::tokenizer::TextAnalyzer);

/// `bytes::Bytes`: a row's payload, opaque here.
#[verifier::external_type_specification]
#[verifier::external_body]
pub struct ExBytes(bytes::Bytes);

/// `serde_json::Map`: a JSON object, opaque here.
#[verifier::external_type_specification]
#[verifier::external_body]
#[verifier::reject_recursive_types(K)]
#[verifier::reject_recursive_types(V)]
pub struct ExJsonMap<K, V>(serde_json::Map<K, V>);

/// `std::io::Error`: why a sidecar could not be written, opaque here.
#[verifier::external_type_specification]
#[verifier::external_body]
pub struct ExIoError(std::io::Error);

} // verus!
