use vstd::prelude::*;

use crate::headers::{spec_header_lookup, Headers};

verus! {

/// The two header components of a key-value-store continuation token.
#[derive(Debug, Clone)]
pub struct ContinuationCursor {
    pub partition_key: String,
    pub row_key: String,
}

/// Pagination state of one table traversal.
///
/// `fused == false, next == None`: no request issued yet.
/// `fused == false, next == Some(..)`: a continuation token is in hand.
/// `fused == true`: the last response carried no continuation; terminal.
#[derive(Debug, Clone)]
pub struct Continuation {
    pub fused: bool,
    pub next: Option<ContinuationCursor>,
}

impl Continuation {
    /// The state before any request was issued.
    pub fn start() -> (r: Continuation)
        ensures
            !r.fused,
            r.next is None,
    {
        Continuation { fused: false, next: None }
    }

    /// Reads the continuation a response's headers carry. Both components
    /// are required for a continuation to count as present: either alone is
    /// "no continuation", never an error.
    pub fn from_headers(headers: &Headers) -> (r: Continuation)
        ensures
            match r.next {
                Some(c) => !r.fused && spec_header_lookup(
                    headers@,
                    "x-ms-continuation-NextPartitionKey"@,
                ) == Some(c.partition_key@) && spec_header_lookup(
                    headers@,
                    "x-ms-continuation-NextRowKey"@,
                ) == Some(c.row_key@),
                None => r.fused && (spec_header_lookup(
                    headers@,
                    "x-ms-continuation-NextPartitionKey"@,
                ) is None || spec_header_lookup(
                    headers@,
                    "x-ms-continuation-NextRowKey"@,
                ) is None),
            },
    {
        match continuation_from_headers(headers) {
            Some(c) => Continuation { fused: false, next: Some(c) },
            None => Continuation { fused: true, next: None },
        }
    }
}

/// Reads the two-component continuation of a response's headers, if both
/// components are present.
pub fn continuation_from_headers(headers: &Headers) -> (r: Option<ContinuationCursor>)
    ensures
        match r {
            Some(c) => spec_header_lookup(headers@, "x-ms-continuation-NextPartitionKey"@)
                == Some(c.partition_key@) && spec_header_lookup(
                headers@,
                "x-ms-continuation-NextRowKey"@,
            ) == Some(c.row_key@),
            None => spec_header_lookup(headers@, "x-ms-continuation-NextPartitionKey"@) is None
                || spec_header_lookup(headers@, "x-ms-continuation-NextRowKey"@) is None,
        },
{
    let pk = headers.get("x-ms-continuation-NextPartitionKey");
    let rk = headers.get("x-ms-continuation-NextRowKey");
    match (pk, rk) {
        (Some(p), Some(rv)) => Some(
            ContinuationCursor { partition_key: p.clone(), row_key: rv.clone() },
        ),
        _ => None,
    }
}

} // verus!
