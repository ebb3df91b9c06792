use vstd::prelude::*;

use crate::codec::{decode_model, entries_from_value_body, TableEntity};
use crate::cursor::ContinuationCursor;
use crate::error::Error;
use crate::headers::{spec_header_lookup, Headers};
use crate::wire::parse_keyed_array;

verus! {

// =========================================================================
// The pagination engine: a pull-based, forward-only page sequence. Each
// step either ends the sequence or names the one request to issue; the
// response is absorbed into a page and the next state. The transport that
// performs the request lives outside this core and is driven by a plain
// loop around these two functions.
// =========================================================================
/// The state of one page-sequence traversal: nothing pulled yet, or the
/// continuation the last page left behind — none meaning the sequence is
/// exhausted.
#[derive(Debug)]
pub enum ContinuationState {
    Start,
    Next(Option<ContinuationCursor>),
}

/// The path of one page request: the table, the filter clause, and the
/// continuation of the previous page where there is one.
pub open spec fn page_path_model(
    table: Seq<char>,
    query: Option<Seq<char>>,
    cont: Option<(Seq<char>, Seq<char>)>,
) -> Seq<char> {
    table + "?"@ + (match query {
        Some(q) => q,
        None => Seq::<char>::empty(),
    }) + (match cont {
        Some(c) => "&NextPartitionKey="@ + c.0 + "&NextRowKey="@ + c.1,
        None => Seq::<char>::empty(),
    })
}

/// The view of the filter clause.
pub open spec fn query_view(query: Option<&String>) -> Option<Seq<char>> {
    match query {
        Some(q) => Some(q@),
        None => None,
    }
}

/// The one request the next pull must issue, or nothing when the sequence
/// has ended: a sequence ends exactly when the last response carried no
/// continuation, and is never restarted.
pub fn stream_next_path(table_name: &str, query: Option<&String>, state: &ContinuationState) -> (r:
    Option<String>)
    ensures
        match state {
            ContinuationState::Start => (r matches Some(p) && p@ == page_path_model(
                table_name@,
                query_view(query),
                None,
            )),
            ContinuationState::Next(Some(c)) => (r matches Some(p) && p@ == page_path_model(
                table_name@,
                query_view(query),
                Some((c.partition_key@, c.row_key@)),
            )),
            ContinuationState::Next(None) => r is None,
        },
{
    let cont: Option<&ContinuationCursor> = match state {
        ContinuationState::Start => None,
        ContinuationState::Next(Some(c)) => Some(c),
        ContinuationState::Next(None) => {
            return None;
        },
    };
    let mut path = table_name.to_owned().concat("?");
    match query {
        Some(q) => {
            path = path.concat(q.as_str());
        },
        None => {},
    }
    match cont {
        Some(c) => {
            path = path.concat("&NextPartitionKey=").concat(c.partition_key.as_str()).concat(
                "&NextRowKey=",
            ).concat(c.row_key.as_str());
            proof {
                assert(path@ =~= page_path_model(
                    table_name@,
                    query_view(query),
                    Some((c.partition_key@, c.row_key@)),
                ));
            }
        },
        None => {
            proof {
                assert(path@ =~= page_path_model(table_name@, query_view(query), None));
            }
        },
    }
    Some(path)
}

/// Absorbs one response into a page and the next state. A success yields the
/// page's entities and keeps the continuation the headers carry — none means
/// the sequence is exhausted. A failed page yields exactly one error element,
/// and the state after it is always exhausted: no retry, no skip.
pub fn stream_absorb(status: u16, headers: &Headers, body: &str) -> (r: (
    Result<Vec<TableEntity>, Error>,
    ContinuationState,
))
    ensures
        match r.0 {
            Ok(v) => {
                &&& status == 200
                &&& parse_keyed_array(body@, "value"@) matches Some(rows)
                &&& v@.len() == rows.len()
                &&& forall|i: int|
                    0 <= i < rows.len() ==> decode_model(#[trigger] rows[i]) == Some(v@[i]@)
                &&& match r.1 {
                    ContinuationState::Next(Some(c)) => spec_header_lookup(
                        headers@,
                        "x-ms-continuation-NextPartitionKey"@,
                    ) == Some(c.partition_key@) && spec_header_lookup(
                        headers@,
                        "x-ms-continuation-NextRowKey"@,
                    ) == Some(c.row_key@),
                    ContinuationState::Next(None) => spec_header_lookup(
                        headers@,
                        "x-ms-continuation-NextPartitionKey"@,
                    ) is None || spec_header_lookup(
                        headers@,
                        "x-ms-continuation-NextRowKey"@,
                    ) is None,
                    ContinuationState::Start => false,
                }
            },
            Err(e) => {
                &&& (r.1 matches ContinuationState::Next(n) && n is None)
                &&& match e {
                    Error::UnexpectedStatus { expected, actual, body: b } => status != 200
                        && expected == 200 && actual == status && b@ == body@,
                    Error::MalformedResponse => status == 200 && (parse_keyed_array(
                        body@,
                        "value"@,
                    ) is None || (exists|i: int|
                        0 <= i < parse_keyed_array(body@, "value"@).unwrap().len()
                            && decode_model(
                            #[trigger] parse_keyed_array(body@, "value"@).unwrap()[i],
                        ) is None)),
                    _ => false,
                }
            },
        },
{
    if status != 200 {
        return (
            Err(Error::UnexpectedStatus { expected: 200, actual: status, body: body.to_owned() }),
            ContinuationState::Next(None),
        );
    }
    match entries_from_value_body(body) {
        Ok(entities) => {
            let next = crate::cursor::continuation_from_headers(headers);
            (Ok(entities), ContinuationState::Next(next))
        },
        Err(e) => (Err(e), ContinuationState::Next(None)),
    }
}

} // verus!
