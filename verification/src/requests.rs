use vstd::prelude::*;

use crate::error::Error;
use crate::headers::{all_digits, dec_val, u64_to_dec, Headers};
use crate::json::JsonValue;
use crate::outside::string_from_chars;
use crate::wire::{print_string, print_string_exec};

verus! {

// =========================================================================
// Request descriptions: what one operation asks the transport to perform.
// The transport itself — connections, signing, retries — lives outside this
// core; it receives these plain values and hands back a status, headers and
// a body.
// =========================================================================
/// The HTTP method of a request this core issues.
#[derive(Debug, Clone, Copy, PartialEq, Eq, Structural)]
pub enum Method {
    Get,
    Post,
    Put,
    Delete,
}

/// One request, ready for the transport: method, path relative to the
/// service root, headers, optional body, and the status that counts as
/// success for the operation.
#[derive(Debug)]
pub struct RequestDescription {
    pub method: Method,
    pub path: String,
    pub headers: Headers,
    pub body: Option<String>,
    pub expected_status: u16,
}

/// The path of one entity within its table.
pub fn entry_path(table_name: &str, partition_key: &str, row_key: &str) -> (r: String)
    ensures
        r@ == table_name@ + "(PartitionKey='"@ + partition_key@ + "',RowKey='"@ + row_key@
            + "')"@,
{
    let r = table_name.to_owned().concat("(PartitionKey='").concat(partition_key).concat(
        "',RowKey='",
    ).concat(row_key).concat("')");
    r
}

/// The content type of a batch request.
pub fn get_batch_mime() -> (r: String)
    ensures
        r@ == "multipart/mixed; boundary=batch_a1e9d677-b28b-435e-a89e-87e6a768a431"@,
{
    "multipart/mixed; boundary=batch_a1e9d677-b28b-435e-a89e-87e6a768a431".to_owned()
}

/// The default headers of a table request, as a model.
pub open spec fn spec_default_table_headers(fullmetadata: bool, has_body: bool) -> Seq<
    (Seq<char>, Seq<char>),
> {
    (if fullmetadata {
        seq![("Accept"@, "application/json;odata=fullmetadata"@)]
    } else {
        seq![("Accept"@, "application/json;odata=nometadata"@)]
    }) + seq![("Accept"@, "application/json;odata=nometadata"@)] + (if has_body {
        seq![("Content-Type"@, "application/json"@)]
    } else {
        Seq::<(Seq<char>, Seq<char>)>::empty()
    })
}

/// The default headers of a table request: the accepted response shape —
/// full metadata on request — and, when a body is sent, its content type.
pub fn default_table_headers(fullmetadata: bool, has_body: bool) -> (r: Headers)
    ensures
        r@ =~= spec_default_table_headers(fullmetadata, has_body),
{
    let mut h = Headers::new();
    if fullmetadata {
        h.push("Accept".to_owned(), "application/json;odata=fullmetadata".to_owned());
    } else {
        h.push("Accept".to_owned(), "application/json;odata=nometadata".to_owned());
    }
    h.push("Accept".to_owned(), "application/json;odata=nometadata".to_owned());
    if has_body {
        h.push("Content-Type".to_owned(), "application/json".to_owned());
    }
    h
}

// =========================================================================
// Document-store request builders. Each builder gathers the headers its
// operation sends; the transport layer outside this core performs the call
// and hands the outcome back to the matching extractor.
// =========================================================================
/// A point read of one document.
#[derive(Debug)]
pub struct GetDocumentRequest {
    pub headers: Headers,
}

impl GetDocumentRequest {
    /// A point read with no options set.
    pub fn new() -> (r: GetDocumentRequest)
        ensures
            r.headers@ =~= Seq::<(Seq<char>, Seq<char>)>::empty(),
    {
        GetDocumentRequest { headers: Headers::new() }
    }

    /// Sends the conditional-match token: the read is answered only when the
    /// stored document differs.
    pub fn if_none_match(self, etag: &str) -> (r: GetDocumentRequest)
        ensures
            r.headers@ =~= self.headers@.push(("If-None-Match"@, etag@)),
    {
        let mut h = self.headers;
        h.push("If-None-Match".to_owned(), etag.to_owned());
        GetDocumentRequest { headers: h }
    }

    /// Scopes the read to one partition; the value is sent as given.
    pub fn partition_key(self, key: &str) -> (r: GetDocumentRequest)
        ensures
            r.headers@ =~= self.headers@.push(("x-ms-documentdb-partitionkey"@, key@)),
    {
        let mut h = self.headers;
        h.push("x-ms-documentdb-partitionkey".to_owned(), key.to_owned());
        GetDocumentRequest { headers: h }
    }

    /// Allows writes to be accepted by any region.
    pub fn use_multiple_write_locations(self, allow: bool) -> (r: GetDocumentRequest)
        ensures
            r.headers@ =~= self.headers@.push(
                (
                    "x-ms-cosmos-allow-tentative-writes"@,
                    if allow {
                        "true"@
                    } else {
                        "false"@
                    },
                ),
            ),
    {
        let mut h = self.headers;
        h.push("x-ms-cosmos-allow-tentative-writes".to_owned(), bool_text(allow));
        GetDocumentRequest { headers: h }
    }

}

/// The serialized form of a partition-scoping key: a JSON array of one
/// string.
pub fn partition_key_json(key: &str) -> (r: String)
    ensures
        r@ == seq!['['] + print_string(key@) + seq![']'],
{
    let mut out: Vec<char> = Vec::new();
    out.push('[');
    print_string_exec(key, &mut out);
    out.push(']');
    proof {
        assert(out@ =~= seq!['['] + print_string(key@) + seq![']']);
    }
    string_from_chars(&out)
}

/// The header text of a boolean option.
pub fn bool_text(b: bool) -> (r: String)
    ensures
        r@ == (if b {
            "true"@
        } else {
            "false"@
        }),
{
    if b {
        "true".to_owned()
    } else {
        "false".to_owned()
    }
}


/// A listing of a container's documents, page by page.
#[derive(Debug)]
pub struct ListDocumentsRequest {
    pub headers: Headers,
}

impl ListDocumentsRequest {
    /// A listing with no options set.
    pub fn new() -> (r: ListDocumentsRequest)
        ensures
            r.headers@ =~= Seq::<(Seq<char>, Seq<char>)>::empty(),
    {
        ListDocumentsRequest { headers: Headers::new() }
    }

    /// Sends the page-size hint.
    pub fn max_item_count(self, count: u64) -> (r: ListDocumentsRequest)
        ensures
            r.headers@.len() == self.headers@.len() + 1,
            r.headers@ =~= self.headers@.push(r.headers@.last()),
            r.headers@.last().0 == "x-ms-max-item-count"@,
            ({
                let t = r.headers@.last().1;
                t.len() > 0 && all_digits(t) && dec_val(t) == count
            }),
    {
        let mut h = self.headers;
        h.push("x-ms-max-item-count".to_owned(), u64_to_dec(count));
        ListDocumentsRequest { headers: h }
    }

    /// Echoes a continuation token from an earlier page.
    pub fn continuation_token(self, token: &str) -> (r: ListDocumentsRequest)
        ensures
            r.headers@ =~= self.headers@.push(("x-ms-continuation"@, token@)),
    {
        let mut h = self.headers;
        h.push("x-ms-continuation".to_owned(), token.to_owned());
        ListDocumentsRequest { headers: h }
    }

    /// Sends the session token.
    pub fn session_token(self, token: &str) -> (r: ListDocumentsRequest)
        ensures
            r.headers@ =~= self.headers@.push(("x-ms-session-token"@, token@)),
    {
        let mut h = self.headers;
        h.push("x-ms-session-token".to_owned(), token.to_owned());
        ListDocumentsRequest { headers: h }
    }

    /// Sends the conditional-match token.
    pub fn if_none_match(self, etag: &str) -> (r: ListDocumentsRequest)
        ensures
            r.headers@ =~= self.headers@.push(("If-None-Match"@, etag@)),
    {
        let mut h = self.headers;
        h.push("If-None-Match".to_owned(), etag.to_owned());
        ListDocumentsRequest { headers: h }
    }

    /// Scopes the listing to one partition key range.
    pub fn partition_range_id(self, id: &str) -> (r: ListDocumentsRequest)
        ensures
            r.headers@ =~= self.headers@.push(("x-ms-documentdb-partitionkeyrangeid"@, id@)),
    {
        let mut h = self.headers;
        h.push("x-ms-documentdb-partitionkeyrangeid".to_owned(), id.to_owned());
        ListDocumentsRequest { headers: h }
    }

    /// Allows writes to be accepted by any region.
    pub fn use_multiple_write_locations(self, allow: bool) -> (r: ListDocumentsRequest)
        ensures
            r.headers@ =~= self.headers@.push(
                (
                    "x-ms-cosmos-allow-tentative-writes"@,
                    if allow {
                        "true"@
                    } else {
                        "false"@
                    },
                ),
            ),
    {
        let mut h = self.headers;
        h.push("x-ms-cosmos-allow-tentative-writes".to_owned(), bool_text(allow));
        ListDocumentsRequest { headers: h }
    }

    /// Asks for the incremental change feed instead of the full listing.
    pub fn incremental_feed(self) -> (r: ListDocumentsRequest)
        ensures
            r.headers@ =~= self.headers@.push(("A-IM"@, "Incremental feed"@)),
    {
        let mut h = self.headers;
        h.push("A-IM".to_owned(), "Incremental feed".to_owned());
        ListDocumentsRequest { headers: h }
    }
}

/// A query over a container's documents.
#[derive(Debug)]
pub struct QueryDocumentRequest {
    pub headers: Headers,
}

impl QueryDocumentRequest {
    /// A query: it declares itself as one and fixes the query content type.
    pub fn new() -> (r: QueryDocumentRequest)
        ensures
            r.headers@ =~= Seq::<(Seq<char>, Seq<char>)>::empty().push(
                ("x-ms-documentdb-isquery"@, "true"@),
            ).push(("Content-Type"@, "application/query+json"@)),
    {
        let mut h = Headers::new();
        h.push("x-ms-documentdb-isquery".to_owned(), "true".to_owned());
        h.push("Content-Type".to_owned(), "application/query+json".to_owned());
        QueryDocumentRequest { headers: h }
    }

    /// Sends the page-size hint.
    pub fn max_item_count(self, count: u64) -> (r: QueryDocumentRequest)
        ensures
            r.headers@.len() == self.headers@.len() + 1,
            r.headers@ =~= self.headers@.push(r.headers@.last()),
            r.headers@.last().0 == "x-ms-max-item-count"@,
            ({
                let t = r.headers@.last().1;
                t.len() > 0 && all_digits(t) && dec_val(t) == count
            }),
    {
        let mut h = self.headers;
        h.push("x-ms-max-item-count".to_owned(), u64_to_dec(count));
        QueryDocumentRequest { headers: h }
    }

    /// Echoes a continuation token from an earlier page.
    pub fn continuation_token(self, token: &str) -> (r: QueryDocumentRequest)
        ensures
            r.headers@ =~= self.headers@.push(("x-ms-continuation"@, token@)),
    {
        let mut h = self.headers;
        h.push("x-ms-continuation".to_owned(), token.to_owned());
        QueryDocumentRequest { headers: h }
    }

    /// Lets the query span partitions.
    pub fn enable_cross_partition(self, allow: bool) -> (r: QueryDocumentRequest)
        ensures
            r.headers@ =~= self.headers@.push(
                (
                    "x-ms-documentdb-query-enablecrosspartition"@,
                    if allow {
                        "true"@
                    } else {
                        "false"@
                    },
                ),
            ),
    {
        let mut h = self.headers;
        h.push("x-ms-documentdb-query-enablecrosspartition".to_owned(), bool_text(allow));
        QueryDocumentRequest { headers: h }
    }

    /// Lets a cross-partition query run in parallel.
    pub fn enable_parallelize_cross_partition_query(self, allow: bool) -> (r:
        QueryDocumentRequest)
        ensures
            r.headers@ =~= self.headers@.push(
                (
                    "x-ms-documentdb-query-parallelizecrosspartitionquery"@,
                    if allow {
                        "true"@
                    } else {
                        "false"@
                    },
                ),
            ),
    {
        let mut h = self.headers;
        h.push(
            "x-ms-documentdb-query-parallelizecrosspartitionquery".to_owned(),
            bool_text(allow),
        );
        QueryDocumentRequest { headers: h }
    }

    /// Allows writes to be accepted by any region.
    pub fn use_multiple_write_locations(self, allow: bool) -> (r: QueryDocumentRequest)
        ensures
            r.headers@ =~= self.headers@.push(
                (
                    "x-ms-cosmos-allow-tentative-writes"@,
                    if allow {
                        "true"@
                    } else {
                        "false"@
                    },
                ),
            ),
    {
        let mut h = self.headers;
        h.push("x-ms-cosmos-allow-tentative-writes".to_owned(), bool_text(allow));
        QueryDocumentRequest { headers: h }
    }
}

/// A deletion of one document.
#[derive(Debug)]
pub struct DeleteDocumentRequest {
    pub headers: Headers,
}

impl DeleteDocumentRequest {
    /// A deletion with no options set.
    pub fn new() -> (r: DeleteDocumentRequest)
        ensures
            r.headers@ =~= Seq::<(Seq<char>, Seq<char>)>::empty(),
    {
        DeleteDocumentRequest { headers: Headers::new() }
    }

    /// Deletes only when the stored document still carries this etag.
    pub fn if_match(self, etag: &str) -> (r: DeleteDocumentRequest)
        ensures
            r.headers@ =~= self.headers@.push(("If-Match"@, etag@)),
    {
        let mut h = self.headers;
        h.push("If-Match".to_owned(), etag.to_owned());
        DeleteDocumentRequest { headers: h }
    }

    /// Scopes the deletion to one partition; the value is sent as given.
    pub fn partition_key(self, key: &str) -> (r: DeleteDocumentRequest)
        ensures
            r.headers@ =~= self.headers@.push(("x-ms-documentdb-partitionkey"@, key@)),
    {
        let mut h = self.headers;
        h.push("x-ms-documentdb-partitionkey".to_owned(), key.to_owned());
        DeleteDocumentRequest { headers: h }
    }

    /// Allows writes to be accepted by any region.
    pub fn use_multiple_write_locations(self, allow: bool) -> (r: DeleteDocumentRequest)
        ensures
            r.headers@ =~= self.headers@.push(
                (
                    "x-ms-cosmos-allow-tentative-writes"@,
                    if allow {
                        "true"@
                    } else {
                        "false"@
                    },
                ),
            ),
    {
        let mut h = self.headers;
        h.push("x-ms-cosmos-allow-tentative-writes".to_owned(), bool_text(allow));
        DeleteDocumentRequest { headers: h }
    }
}

/// Names one database of the document store.
#[derive(Debug)]
pub struct DatabaseClient {
    pub database: String,
}

impl DatabaseClient {
    /// A client for the named database.
    pub fn new(database: &str) -> (r: DatabaseClient)
        ensures
            r.database@ == database@,
    {
        DatabaseClient { database: database.to_owned() }
    }

    /// The database this client names.
    pub fn database(&self) -> (r: &str)
        ensures
            r@ == self.database@,
    {
        self.database.as_str()
    }
}


// =========================================================================
// Table-store request builders: the compute half of each operation. The
// response half lives in the codec; the transport lives outside this core.
// =========================================================================
use crate::codec::{encodable, entity_fields, TableEntity};
use crate::json::jobj_lookup;
use crate::wire::print_object;

/// The body that creates a table.
fn table_name_body(table_name: &str) -> (r: String)
    ensures
        r@ == print_object(seq![("TableName"@, crate::json::JVal::Str(table_name@))]),
{
    let mut out: Vec<char> = Vec::new();
    out.push('{');
    crate::wire::print_field_exec(
        "TableName",
        &JsonValue::Str(table_name.to_owned()),
        &mut out,
    );
    out.push('}');
    proof {
        let fs = seq![("TableName"@, crate::json::JVal::Str(table_name@))];
        assert(fs.drop_first() =~= Seq::<(Seq<char>, crate::json::JVal)>::empty());
        assert(crate::wire::print_fields_rest(fs.drop_first()) == Seq::<char>::empty());
        assert(out@ =~= print_object(fs));
    }
    string_from_chars(&out)
}

/// The request that creates a table, if it does not exist.
pub fn build_create_table_request(table_name: &str) -> (r: RequestDescription)
    ensures
        r.method == Method::Post,
        r.path@ == "TABLES"@,
        r.headers@ == spec_default_table_headers(false, true),
        (r.body matches Some(b) && b@ == print_object(
            seq![("TableName"@, crate::json::JVal::Str(table_name@))],
        )),
        r.expected_status == 201,
{
    RequestDescription {
        method: Method::Post,
        path: "TABLES".to_owned(),
        headers: default_table_headers(false, true),
        body: Some(table_name_body(table_name)),
        expected_status: 201,
    }
}

/// The request that reads one entity by its full key.
pub fn build_get_entry_request(table_name: &str, partition_key: &str, row_key: &str) -> (r:
    RequestDescription)
    ensures
        r.method == Method::Get,
        r.path@ == table_name@ + "(PartitionKey='"@ + partition_key@ + "',RowKey='"@ + row_key@
            + "')"@,
        r.headers@ == spec_default_table_headers(false, false),
        r.body is None,
        r.expected_status == 200,
{
    RequestDescription {
        method: Method::Get,
        path: entry_path(table_name, partition_key, row_key),
        headers: default_table_headers(false, false),
        body: None,
        expected_status: 200,
    }
}

/// The path of a table query: the table, then the filter clause if any.
pub fn query_path(table_name: &str, query: Option<&String>) -> (r: String)
    ensures
        r@ == table_name@ + (match query {
            Some(q) => "?"@ + q@,
            None => Seq::<char>::empty(),
        }),
{
    match query {
        Some(q) => {
            let r = table_name.to_owned().concat("?").concat(q.as_str());
            proof {
                assert(r@ =~= table_name@ + ("?"@ + q@));
            }
            r
        },
        None => {
            let r = table_name.to_owned();
            proof {
                assert(r@ =~= table_name@ + Seq::<char>::empty());
            }
            r
        },
    }
}

/// The request that stores a new entity.
pub fn build_insert_request(table_name: &str, entity: &TableEntity) -> (r: Result<
    RequestDescription,
    Error,
>)
    ensures
        match r {
            Ok(d) => {
                &&& encodable(entity@)
                &&& d.method == Method::Post
                &&& d.path@ == table_name@
                &&& d.headers@ == spec_default_table_headers(false, true)
                &&& (d.body matches Some(b) && b@ == print_object(entity_fields(entity@)))
                &&& d.expected_status == 201
            },
            Err(e) => e == Error::UnsupportedEncoding && !encodable(entity@),
        },
{
    let body = match entity.to_payload() {
        Ok(b) => b,
        Err(e) => {
            return Err(e);
        },
    };
    Ok(
        RequestDescription {
            method: Method::Post,
            path: table_name.to_owned(),
            headers: default_table_headers(false, true),
            body: Some(body),
            expected_status: 201,
        },
    )
}

/// The request that replaces a stored entity. The conditional-match header
/// is mandatory: the entity's etag where it has one, a wildcard where the
/// caller does not care.
pub fn build_update_request(table_name: &str, entity: &TableEntity) -> (r: Result<
    RequestDescription,
    Error,
>)
    ensures
        match r {
            Ok(d) => {
                &&& encodable(entity@)
                &&& d.method == Method::Put
                &&& d.path@ == table_name@ + "(PartitionKey='"@ + entity@.partition_key
                    + "',RowKey='"@ + entity@.row_key + "')"@
                &&& d.headers@ == spec_default_table_headers(false, true).push(
                    (
                        "If-Match"@,
                        match entity@.etag {
                            Some(e) => e,
                            None => "*"@,
                        },
                    ),
                )
                &&& (d.body matches Some(b) && b@ == print_object(entity_fields(entity@)))
                &&& d.expected_status == 204
            },
            Err(e) => e == Error::UnsupportedEncoding && !encodable(entity@),
        },
{
    let body = match entity.to_payload() {
        Ok(b) => b,
        Err(e) => {
            return Err(e);
        },
    };
    let mut headers = default_table_headers(false, true);
    let etag: String = match &entity.etag {
        Some(e) => e.clone(),
        None => "*".to_owned(),
    };
    headers.push("If-Match".to_owned(), etag);
    Ok(
        RequestDescription {
            method: Method::Put,
            path: entry_path(table_name, entity.partition_key.as_str(), entity.row_key.as_str()),
            headers,
            body: Some(body),
            expected_status: 204,
        },
    )
}

/// The request that deletes a stored entity, whatever its current etag.
pub fn build_delete_request(table_name: &str, entity: &TableEntity) -> (r: RequestDescription)
    ensures
        r.method == Method::Delete,
        r.path@ == table_name@ + "(PartitionKey='"@ + entity@.partition_key + "',RowKey='"@
            + entity@.row_key + "')"@,
        r.headers@ =~= seq![
            ("Accept"@, "application/json;odata=nometadata"@),
            ("If-Match"@, "*"@),
        ],
        r.body is None,
        r.expected_status == 204,
{
    let mut headers = Headers::new();
    headers.push("Accept".to_owned(), "application/json;odata=nometadata".to_owned());
    headers.push("If-Match".to_owned(), "*".to_owned());
    RequestDescription {
        method: Method::Delete,
        path: entry_path(table_name, entity.partition_key.as_str(), entity.row_key.as_str()),
        headers,
        body: None,
        expected_status: 204,
    }
}

/// The request that submits a prepared batch payload.
pub fn build_batch_request(payload: String) -> (r: RequestDescription)
    ensures
        r.method == Method::Post,
        r.path@ == "$batch"@,
        r.headers@ =~= seq![
            (
                "Content-Type"@,
                "multipart/mixed; boundary=batch_a1e9d677-b28b-435e-a89e-87e6a768a431"@,
            ),
        ],
        (r.body matches Some(b) && b@ == payload@),
        r.expected_status == 202,
{
    let mut headers = Headers::new();
    headers.push("Content-Type".to_owned(), get_batch_mime());
    RequestDescription {
        method: Method::Post,
        path: "$batch".to_owned(),
        headers,
        body: Some(payload),
        expected_status: 202,
    }
}

/// The table name an entity of the tables listing carries.
pub open spec fn table_name_of(m: crate::codec::EntityModel) -> Option<Seq<char>> {
    match jobj_lookup(m.payload, "TableName"@) {
        Some(crate::json::JVal::Str(n)) => Some(n),
        _ => None,
    }
}

/// The names of the tables a listing's entities describe; an entity without
/// a string table name does not match the listing's shape.
pub fn table_names_of_entries(entities: &Vec<TableEntity>) -> (r: Result<Vec<String>, Error>)
    ensures
        match r {
            Ok(names) => names@.len() == entities@.len() && forall|i: int|
                0 <= i < names@.len() ==> table_name_of(#[trigger] entities@[i]@) == Some(
                    names@[i]@,
                ),
            Err(e) => e == Error::MalformedResponse && exists|i: int|
                0 <= i < entities@.len() && table_name_of(#[trigger] entities@[i]@) is None,
        },
{
    let mut names: Vec<String> = Vec::new();
    let n = entities.len();
    let mut i: usize = 0;
    while i < n
        invariant
            n == entities@.len(),
            0 <= i <= n,
            names@.len() == i,
            forall|j: int|
                0 <= j < i ==> table_name_of(#[trigger] entities@[j]@) == Some(names@[j]@),
        decreases n - i,
    {
        match crate::json::fields_get(&entities[i].payload, &"TableName".to_owned()) {
            Some(JsonValue::Str(x)) => {
                names.push(x.clone());
            },
            _ => {
                proof {
                    assert(table_name_of(entities@[i as int]@) is None);
                }
                return Err(Error::MalformedResponse);
            },
        }
        i = i + 1;
    }
    Ok(names)
}


// =========================================================================
// Options shared by every document request.
// =========================================================================
/// Options every document request accepts. Each request type exposes its
/// header table as a model; the shared setters append to it. The partition
/// key is serialized here as a JSON array of one string, unlike the
/// per-request raw setters.
pub trait DocumentRequestExt: Sized {
    /// The headers the request will send.
    spec fn spec_headers(&self) -> Seq<(Seq<char>, Seq<char>)>;

    /// Sends the session token.
    fn session_token(self, token: &str) -> (r: Self)
        ensures
            r.spec_headers() =~= self.spec_headers().push(("x-ms-session-token"@, token@)),
    ;

    /// Scopes the request to one partition, serializing the key.
    fn serialized_partition_key(self, key: &str) -> (r: Self)
        ensures
            r.spec_headers() =~= self.spec_headers().push(
                ("x-ms-documentdb-partitionkey"@, seq!['['] + print_string(key@) + seq![']']),
            ),
    ;
}

impl DocumentRequestExt for GetDocumentRequest {
    open spec fn spec_headers(&self) -> Seq<(Seq<char>, Seq<char>)> {
        self.headers@
    }

    fn session_token(self, token: &str) -> (r: Self) {
        let mut h = self.headers;
        h.push("x-ms-session-token".to_owned(), token.to_owned());
        GetDocumentRequest { headers: h }
    }

    fn serialized_partition_key(self, key: &str) -> (r: Self) {
        let mut h = self.headers;
        h.push("x-ms-documentdb-partitionkey".to_owned(), partition_key_json(key));
        GetDocumentRequest { headers: h }
    }
}

impl DocumentRequestExt for QueryDocumentRequest {
    open spec fn spec_headers(&self) -> Seq<(Seq<char>, Seq<char>)> {
        self.headers@
    }

    fn session_token(self, token: &str) -> (r: Self) {
        let mut h = self.headers;
        h.push("x-ms-session-token".to_owned(), token.to_owned());
        QueryDocumentRequest { headers: h }
    }

    fn serialized_partition_key(self, key: &str) -> (r: Self) {
        let mut h = self.headers;
        h.push("x-ms-documentdb-partitionkey".to_owned(), partition_key_json(key));
        QueryDocumentRequest { headers: h }
    }
}

impl DocumentRequestExt for DeleteDocumentRequest {
    open spec fn spec_headers(&self) -> Seq<(Seq<char>, Seq<char>)> {
        self.headers@
    }

    fn session_token(self, token: &str) -> (r: Self) {
        let mut h = self.headers;
        h.push("x-ms-session-token".to_owned(), token.to_owned());
        DeleteDocumentRequest { headers: h }
    }

    fn serialized_partition_key(self, key: &str) -> (r: Self) {
        let mut h = self.headers;
        h.push("x-ms-documentdb-partitionkey".to_owned(), partition_key_json(key));
        DeleteDocumentRequest { headers: h }
    }
}

} // verus!
