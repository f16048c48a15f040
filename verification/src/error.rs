//! The one error type of the whole application. Every subsystem's own error
//! is carried inside it unchanged, so that callers can tell failures apart by
//! kind.

use vstd::prelude::*;
use vstd::string::*;

verus! {

/// What every fallible operation returns.
pub type Result<T> = core::result::Result<T, Error>;

/// Every way in which an operation can fail. The variants that wrap the
/// error of another library hold that error itself, not a text made of it.
#[derive(Debug)]
pub enum Error {
    /// The calling context could not be resolved.
    CtxFail,
    /// A value is not of the expected type, which is named.
    XValueNotOfType(&'static str),
    /// A record lacks the named property.
    XPropertyNotFound(String),
    /// The store could not create a record.
    StoreFailToCreate(String),
    /// A failure of the filter library.
    Modql(modql::Error),
    /// A failure to encode or decode JSON.
    JsonSerde(serde_json::Error),
    /// A filter names an operator that the backend has no spelling for.
    ModqlOperatorNotSupported(String),
    /// A failure of the database engine.
    Surreal(surrealdb::err::Error),
    /// A failure of input or output.
    IO(std::io::Error),
}

impl From<modql::Error> for Error {
    fn from(val: modql::Error) -> (e: Self) {
        Error::Modql(val)
    }
}

impl vstd::std_specs::convert::FromSpecImpl<modql::Error> for Error {
    open spec fn obeys_from_spec() -> bool {
        true
    }

    open spec fn from_spec(val: modql::Error) -> Self {
        Error::Modql(val)
    }
}

impl From<serde_json::Error> for Error {
    fn from(val: serde_json::Error) -> (e: Self) {
        Error::JsonSerde(val)
    }
}

impl vstd::std_specs::convert::FromSpecImpl<serde_json::Error> for Error {
    open spec fn obeys_from_spec() -> bool {
        true
    }

    open spec fn from_spec(val: serde_json::Error) -> Self {
        Error::JsonSerde(val)
    }
}

impl From<surrealdb::err::Error> for Error {
    fn from(val: surrealdb::err::Error) -> (e: Self) {
        Error::Surreal(val)
    }
}

impl vstd::std_specs::convert::FromSpecImpl<surrealdb::err::Error> for Error {
    open spec fn obeys_from_spec() -> bool {
        true
    }

    open spec fn from_spec(val: surrealdb::err::Error) -> Self {
        Error::Surreal(val)
    }
}

impl From<std::io::Error> for Error {
    fn from(val: std::io::Error) -> (e: Self) {
        Error::IO(val)
    }
}

impl vstd::std_specs::convert::FromSpecImpl<std::io::Error> for Error {
    open spec fn obeys_from_spec() -> bool {
        true
    }

    open spec fn from_spec(val: std::io::Error) -> Self {
        Error::IO(val)
    }
}

/// What `{:?}` writes for a string: the text between double quotes, with
/// the characters that need it escaped.
pub uninterp spec fn debug_quoted(s: Seq<char>) -> Seq<char>;

/// `format!("{:?}", s)` for a string slice, std's `Debug` of `str`. The result
/// is given the name [`debug_quoted`].
#[verifier::external_body]
fn quote_debug(s: &str) -> (r: String)
    ensures
        r@ == debug_quoted(s@),
{
    format!("{:?}", s)
}

/// `format!("{:?}", e)`, the `Debug` that `modql` derives for its error.
/// Nothing is claimed of the text.
#[verifier::external_body]
fn modql_debug(e: &modql::Error) -> (r: String) {
    format!("{:?}", e)
}

/// `format!("{:?}", e)`, the `Debug` of `serde_json`'s error. Nothing is
/// claimed of the text.
#[verifier::external_body]
fn json_debug(e: &serde_json::Error) -> (r: String) {
    format!("{:?}", e)
}

/// `format!("{:?}", e)`, the `Debug` that `surrealdb` derives for its engine
/// error. Nothing is claimed of the text.
#[verifier::external_body]
fn surreal_debug(e: &surrealdb::err::Error) -> (r: String) {
    format!("{:?}", e)
}

/// `format!("{:?}", e)`, the `Debug` of `std::io::Error`. Nothing is claimed
/// of the text.
#[verifier::external_body]
fn io_debug(e: &std::io::Error) -> (r: String) {
    format!("{:?}", e)
}

/// A variant's name followed by its payload in round brackets.
pub open spec fn tagged(tag: Seq<char>, payload: Seq<char>) -> Seq<char> {
    tag + "("@ + payload + ")"@
}

fn tag_payload(tag: &str, payload: String) -> (r: String)
    ensures
        r@ == tagged(tag@, payload@),
{
    let mut out = String::new();
    out.append(tag);
    out.append("(");
    out.append(payload.as_str());
    out.append(")");
    assert(out@ =~= tagged(tag@, payload@));
    out
}

impl Error {
    /// The error in its structured form, tag and payload, as `{:?}` writes
    /// it. Of a wrapped outside error the payload is that error's own debug
    /// text, of which nothing more is known here.
    pub open spec fn spec_text_is(&self, text: Seq<char>) -> bool {
        match self {
            Error::CtxFail => text == "CtxFail"@,
            Error::XValueNotOfType(t) => text == tagged("XValueNotOfType"@, debug_quoted(t@)),
            Error::XPropertyNotFound(p) => text == tagged(
                "XPropertyNotFound"@,
                debug_quoted(p@),
            ),
            Error::StoreFailToCreate(m) => text == tagged(
                "StoreFailToCreate"@,
                debug_quoted(m@),
            ),
            Error::Modql(_) => exists|inner: Seq<char>| text == tagged("Modql"@, inner),
            Error::JsonSerde(_) => exists|inner: Seq<char>| text == tagged("JsonSerde"@, inner),
            Error::ModqlOperatorNotSupported(o) => text == tagged(
                "ModqlOperatorNotSupported"@,
                debug_quoted(o@),
            ),
            Error::Surreal(_) => exists|inner: Seq<char>| text == tagged("Surreal"@, inner),
            Error::IO(_) => exists|inner: Seq<char>| text == tagged("IO"@, inner),
        }
    }

    /// Renders the error in its structured form, tag and payload. This is
    /// what printing an error shows; it is no prose message.
    pub fn to_text(&self) -> (text: String)
        ensures
            self.spec_text_is(text@),
    {
        match self {
            Error::CtxFail => "CtxFail".to_owned(),
            Error::XValueNotOfType(t) => tag_payload("XValueNotOfType", quote_debug(t)),
            Error::XPropertyNotFound(p) => tag_payload("XPropertyNotFound", quote_debug(p.as_str())),
            Error::StoreFailToCreate(m) => tag_payload("StoreFailToCreate", quote_debug(m.as_str())),
            Error::Modql(e) => tag_payload("Modql", modql_debug(e)),
            Error::JsonSerde(e) => tag_payload("JsonSerde", json_debug(e)),
            Error::ModqlOperatorNotSupported(o) => tag_payload(
                "ModqlOperatorNotSupported",
                quote_debug(o.as_str()),
            ),
            Error::Surreal(e) => tag_payload("Surreal", surreal_debug(e)),
            Error::IO(e) => tag_payload("IO", io_debug(e)),
        }
    }
}

} // verus!
