//! The outside error types that the library carries inside its own error.

use modql::Error as ModqlError;
use serde_json::Error as JsonError;
use surrealdb::err::Error as SurrealError;
use vstd::prelude::*;

verus! {

/// The error type of `modql`, carried through without looking inside.
#[verifier::external_type_specification]
#[verifier::external_body]
pub struct ExModqlError(ModqlError);

/// The error type of `serde_json`, carried through without looking inside.
#[verifier::external_type_specification]
#[verifier::external_body]
pub struct ExJsonError(JsonError);

/// The error type of the embedded `surrealdb` engine, carried through without
/// looking inside.
#[verifier::external_type_specification]
#[verifier::external_body]
pub struct ExSurrealError(SurrealError);

/// `std::io::Error`, carried through without looking inside.
#[verifier::external_type_specification]
#[verifier::external_body]
pub struct ExIoError(std::io::Error);

} // verus!
