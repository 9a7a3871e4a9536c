//! The errors that the library reports.
use vstd::prelude::*;

verus! {

/// A failure of a database operation.
#[derive(Debug, Clone, PartialEq)]
pub enum Error {
    /// An I/O failure.
    Io(String),
    /// A failure reported by the SQL engine.
    Libsql(String),
    /// A path or URL that cannot be opened.
    InvalidDbUrl(String),
    /// An operation named a logical path with no open connection.
    DatabaseNotLoaded(String),
    /// A value with no representation on the other side.
    UnsupportedDatatype(String),
    /// A failure to read or write JSON.
    Json(String),
}

fn prefixed(prefix: &str, detail: &String) -> (r: String)
    ensures
        r@ == prefix@ + detail@,
{
    let mut m = String::from_str(prefix);
    m.append(detail.as_str());
    m
}

impl Error {
    /// The error as text for the caller.
    pub fn message(&self) -> (r: String)
        ensures
            self matches Error::Io(d) ==> r@ == d@,
            self matches Error::Libsql(d) ==> r@ == d@,
            self matches Error::InvalidDbUrl(d) ==> r@ == "invalid connection url: "@ + d@,
            self matches Error::DatabaseNotLoaded(d) ==> r@ == "database "@ + d@ + " not loaded"@,
            self matches Error::UnsupportedDatatype(d) ==> r@ == "unsupported datatype: "@ + d@,
            self matches Error::Json(d) ==> r@ == "json error: "@ + d@,
    {
        match self {
            Error::Io(d) => d.clone(),
            Error::Libsql(d) => d.clone(),
            Error::InvalidDbUrl(d) => prefixed("invalid connection url: ", d),
            Error::DatabaseNotLoaded(d) => {
                let mut m = prefixed("database ", d);
                m.append(" not loaded");
                m
            },
            Error::UnsupportedDatatype(d) => prefixed("unsupported datatype: ", d),
            Error::Json(d) => prefixed("json error: ", d),
        }
    }
}

} // verus!
