use vstd::prelude::*;

use crate::error::Error;
use crate::headers::{
    all_digits, dec_val, derive_continuation_token, derive_etag, derive_request_charge, parse_u64,
    request_charge_from_headers, request_item_count_from_headers, spec_header_lookup, Headers,
};
use crate::json::{fields_get, fields_take, fields_view, jobj_lookup, jval_of, JsonValue, JVal};
use crate::outside::{json_of, parse_json};

verus! {

// =========================================================================
// The response extractor: classifies an HTTP outcome — status, headers,
// body — into success, empty, or error, reading the body's rows and the
// headers' metadata.
// =========================================================================
/// Succeeds exactly when the status is the expected one; any other status is
/// an error carrying both statuses and the raw body text.
pub fn check_status(status: u16, expected: u16, body: &str) -> (r: Result<(), Error>)
    ensures
        status == expected ==> r is Ok,
        status != expected ==> (r matches Err(e) && (e matches Error::UnexpectedStatus {
            expected: x,
            actual: a,
            body: b,
        } && x == expected && a == status && b@ == body@)),
{
    if status == expected {
        Ok(())
    } else {
        Err(Error::UnexpectedStatus { expected, actual: status, body: body.to_owned() })
    }
}

// ---- document system attributes ----
/// The model of a row's system attributes.
pub ghost struct DocAttrsModel {
    pub resource_id: Seq<char>,
    pub self_link: Option<Seq<char>>,
    pub etag: Option<Seq<char>>,
    pub timestamp: Option<Seq<char>>,
    pub attachments_link: Option<Seq<char>>,
}

/// The system attributes of a full document row: present as a unit exactly
/// when the row carries a string resource id; the rest are optional. The
/// timestamp keeps its number literal.
#[derive(Debug)]
pub struct DocumentAttributes {
    pub resource_id: String,
    pub self_link: Option<String>,
    pub etag: Option<String>,
    pub timestamp: Option<String>,
    pub attachments_link: Option<String>,
}

/// The view of an optional owned string.
pub open spec fn opt_view(o: Option<String>) -> Option<Seq<char>> {
    match o {
        Some(s) => Some(s@),
        None => None,
    }
}

impl View for DocumentAttributes {
    type V = DocAttrsModel;

    open spec fn view(&self) -> DocAttrsModel {
        DocAttrsModel {
            resource_id: self.resource_id@,
            self_link: opt_view(self.self_link),
            etag: opt_view(self.etag),
            timestamp: opt_view(self.timestamp),
            attachments_link: opt_view(self.attachments_link),
        }
    }
}

/// An optional string field of a row: absent or null is `None`, a string is
/// its text, any other shape does not match.
pub open spec fn row_opt_str(fs: Seq<(Seq<char>, JVal)>, k: Seq<char>) -> Option<
    Option<Seq<char>>,
> {
    match jobj_lookup(fs, k) {
        None => Some(None),
        Some(JVal::Null) => Some(None),
        Some(JVal::Str(x)) => Some(Some(x)),
        Some(_) => None,
    }
}

/// An optional number field of a row: absent or null is `None`, a number is
/// its literal, any other shape does not match.
pub open spec fn row_opt_num(fs: Seq<(Seq<char>, JVal)>, k: Seq<char>) -> Option<
    Option<Seq<char>>,
> {
    match jobj_lookup(fs, k) {
        None => Some(None),
        Some(JVal::Null) => Some(None),
        Some(JVal::Num(t)) => Some(Some(t)),
        Some(_) => None,
    }
}

/// The system attributes a row carries, or nothing: a row is a full document
/// exactly when it is an object with a string resource id and system fields
/// of the right shapes; any other row carries no attributes.
pub open spec fn try_extract_model(v: JVal) -> Option<DocAttrsModel> {
    match v {
        JVal::Obj(fs) => match jobj_lookup(fs, "_rid"@) {
            Some(JVal::Str(rid)) => {
                match (
                    row_opt_str(fs, "_self"@),
                    row_opt_str(fs, "_etag"@),
                    row_opt_num(fs, "_ts"@),
                    row_opt_str(fs, "_attachments"@),
                ) {
                    (Some(sl), Some(et), Some(ts), Some(at)) => Some(
                        DocAttrsModel {
                            resource_id: rid,
                            self_link: sl,
                            etag: et,
                            timestamp: ts,
                            attachments_link: at,
                        },
                    ),
                    _ => None,
                }
            },
            _ => None,
        },
        _ => None,
    }
}

fn row_opt_str_exec(fields: &Vec<(String, JsonValue)>, key: &String) -> (r: Result<
    Option<String>,
    (),
>)
    ensures
        match r {
            Ok(o) => row_opt_str(fields_view(fields@), key@) == Some(opt_view(o)),
            Err(_) => row_opt_str(fields_view(fields@), key@) is None,
        },
{
    match fields_get(fields, key) {
        None => Ok(None),
        Some(JsonValue::Null) => Ok(None),
        Some(JsonValue::Str(x)) => Ok(Some(x.clone())),
        Some(_) => Err(()),
    }
}

fn row_opt_num_exec(fields: &Vec<(String, JsonValue)>, key: &String) -> (r: Result<
    Option<String>,
    (),
>)
    ensures
        match r {
            Ok(o) => row_opt_num(fields_view(fields@), key@) == Some(opt_view(o)),
            Err(_) => row_opt_num(fields_view(fields@), key@) is None,
        },
{
    match fields_get(fields, key) {
        None => Ok(None),
        Some(JsonValue::Null) => Ok(None),
        Some(JsonValue::Number(t)) => Ok(Some(t.clone())),
        Some(_) => Err(()),
    }
}

impl DocumentAttributes {
    /// Pulls the system attributes out of one row, if the row is a full
    /// document; a row lacking them is preserved by the caller unmodified,
    /// never rejected.
    pub fn try_extract(v: &JsonValue) -> (r: Option<DocumentAttributes>)
        ensures
            match r {
                Some(a) => try_extract_model(v@) == Some(a@),
                None => try_extract_model(v@) is None,
            },
    {
        match v {
            JsonValue::Object(fields) => {
                let rid: String = match fields_get(fields, &"_rid".to_owned()) {
                    Some(JsonValue::Str(x)) => x.clone(),
                    _ => {
                        return None;
                    },
                };
                let self_link = match row_opt_str_exec(fields, &"_self".to_owned()) {
                    Ok(o) => o,
                    Err(_) => {
                        return None;
                    },
                };
                let etag = match row_opt_str_exec(fields, &"_etag".to_owned()) {
                    Ok(o) => o,
                    Err(_) => {
                        return None;
                    },
                };
                let timestamp = match row_opt_num_exec(fields, &"_ts".to_owned()) {
                    Ok(o) => o,
                    Err(_) => {
                        return None;
                    },
                };
                let attachments_link = match row_opt_str_exec(fields, &"_attachments".to_owned()) {
                    Ok(o) => o,
                    Err(_) => {
                        return None;
                    },
                };
                Some(
                    DocumentAttributes {
                        resource_id: rid,
                        self_link,
                        etag,
                        timestamp,
                        attachments_link,
                    },
                )
            },
            _ => None,
        }
    }
}

// ---- documents and query rows ----
/// The model of one full document.
pub ghost struct DocumentModel {
    pub document_attributes: DocAttrsModel,
    pub entity: JVal,
}

/// One full document: its system attributes and the whole row it came from.
#[derive(Debug)]
pub struct Document {
    pub document_attributes: DocumentAttributes,
    pub entity: JsonValue,
}

impl View for Document {
    type V = DocumentModel;

    open spec fn view(&self) -> DocumentModel {
        DocumentModel { document_attributes: self.document_attributes@, entity: self.entity@ }
    }
}

/// The document a body decodes to: its system attributes are required.
pub open spec fn document_model(v: JVal) -> Option<DocumentModel> {
    match try_extract_model(v) {
        Some(a) => Some(DocumentModel { document_attributes: a, entity: v }),
        None => None,
    }
}

impl Document {
    /// Reads one body as a full document: the system attributes are
    /// required here, unlike in query rows.
    pub fn from_json(body: &str) -> (r: Result<Document, Error>)
        ensures
            match r {
                Ok(d) => json_of(body@) matches Some(v) && document_model(v) == Some(d@),
                Err(e) => e == Error::MalformedResponse && (json_of(body@) is None
                    || document_model(json_of(body@).unwrap()) is None),
            },
    {
        let v = match parse_json(body) {
            Some(v) => v,
            None => {
                return Err(Error::MalformedResponse);
            },
        };
        let attrs = match DocumentAttributes::try_extract(&v) {
            Some(a) => a,
            None => {
                return Err(Error::MalformedResponse);
            },
        };
        Ok(Document { document_attributes: attrs, entity: v })
    }
}

/// The model of one query row.
pub ghost struct QueryResultModel {
    pub document_attributes: Option<DocAttrsModel>,
    pub result: JVal,
}

/// One query row: the system attributes where the row is a full document,
/// and the original row value either way, so a caller can still read any
/// shape.
#[derive(Debug)]
pub struct QueryResult {
    pub document_attributes: Option<DocumentAttributes>,
    pub result: JsonValue,
}

impl View for QueryResult {
    type V = QueryResultModel;

    open spec fn view(&self) -> QueryResultModel {
        QueryResultModel {
            document_attributes: match self.document_attributes {
                Some(a) => Some(a@),
                None => None,
            },
            result: self.result@,
        }
    }
}

/// The model of one query row as extracted: attributes beside the original
/// value.
pub open spec fn query_row_model(v: JVal) -> QueryResultModel {
    QueryResultModel { document_attributes: try_extract_model(v), result: v }
}

/// The models of a row of query results.
pub open spec fn results_view(rs: Seq<QueryResult>) -> Seq<QueryResultModel> {
    Seq::new(rs.len(), |i: int| rs[i]@)
}

// ---- the query response body ----
/// The model of the body-side metadata of a query response.
pub ghost struct QueryMetaModel {
    pub rid: Seq<char>,
    pub count: u64,
}

/// The body-side metadata of a query response: the container's resource id
/// and the row count the body declares.
#[derive(Debug)]
pub struct QueryResponseMeta {
    pub rid: String,
    pub count: u64,
}

impl View for QueryResponseMeta {
    type V = QueryMetaModel;

    open spec fn view(&self) -> QueryMetaModel {
        QueryMetaModel { rid: self.rid@, count: self.count }
    }
}

/// What a query response body must hold: an object with a string resource
/// id, a count that reads as a decimal, and the array of rows.
pub open spec fn query_body_model(v: JVal) -> Option<(QueryMetaModel, Seq<QueryResultModel>)> {
    match v {
        JVal::Obj(fs) => match (
            jobj_lookup(fs, "_rid"@),
            jobj_lookup(fs, "_count"@),
            jobj_lookup(fs, "Documents"@),
        ) {
            (Some(JVal::Str(rid)), Some(JVal::Num(ct)), Some(JVal::Arr(docs))) => {
                if ct.len() > 0 && all_digits(ct) && dec_val(ct) <= u64::MAX {
                    Some(
                        (
                            QueryMetaModel { rid, count: dec_val(ct) as u64 },
                            Seq::new(docs.len(), |i: int| query_row_model(docs[i])),
                        ),
                    )
                } else {
                    None
                }
            },
            _ => None,
        },
        _ => None,
    }
}

/// Reads a parsed query body: the metadata fields, and every row of the
/// `Documents` array with its attributes pulled out where the row is a full
/// document.
pub fn extract_query_rows(v: JsonValue) -> (r: Result<(QueryResponseMeta, Vec<QueryResult>), Error>)
    ensures
        match r {
            Ok(p) => query_body_model(v@) == Some((p.0@, results_view(p.1@))),
            Err(e) => e == Error::MalformedResponse && query_body_model(v@) is None,
        },
{
    let mut fields: Vec<(String, JsonValue)> = match v {
        JsonValue::Object(fs) => fs,
        _ => {
            return Err(Error::MalformedResponse);
        },
    };
    let rid: String = match fields_get(&fields, &"_rid".to_owned()) {
        Some(JsonValue::Str(x)) => x.clone(),
        _ => {
            return Err(Error::MalformedResponse);
        },
    };
    let count: u64 = match fields_get(&fields, &"_count".to_owned()) {
        Some(JsonValue::Number(t)) => match parse_u64(t.as_str()) {
            Some(n) => n,
            None => {
                return Err(Error::MalformedResponse);
            },
        },
        _ => {
            return Err(Error::MalformedResponse);
        },
    };
    let docs: Vec<JsonValue> = match fields_take(&mut fields, &"Documents".to_owned()) {
        Some(JsonValue::Array(a)) => a,
        _ => {
            return Err(Error::MalformedResponse);
        },
    };
    let ghost docs0 = crate::json::jvals_of(docs@);
    proof {
        crate::json::lemma_jvals_of_index(docs@);
    }
    let n = docs.len();
    let mut rest = docs;
    let mut results: Vec<QueryResult> = Vec::new();
    while rest.len() > 0
        invariant
            results@.len() + rest@.len() == n,
            docs0.len() == n,
            forall|j: int|
                0 <= j < results@.len() ==> #[trigger] results@[j]@ == query_row_model(docs0[j]),
            forall|j: int|
                0 <= j < rest@.len() ==> jval_of(#[trigger] rest@[j]) == docs0[results@.len()
                    + j],
        decreases rest@.len(),
    {
        let ghost old_rest = rest@;
        let d = rest.remove(0);
        proof {
            assert(old_rest[0] == d);
            assert(rest@ =~= old_rest.drop_first());
            assert forall|j: int| 0 <= j < rest@.len() implies jval_of(#[trigger] rest@[j])
                == docs0[results@.len() + 1 + j] by {
                assert(rest@[j] == old_rest[j + 1]);
            }
        }
        let attrs = DocumentAttributes::try_extract(&d);
        results.push(QueryResult { document_attributes: attrs, result: d });
    }
    let meta = QueryResponseMeta { rid, count };
    proof {
        assert(results_view(results@) =~= Seq::new(docs0.len(), |i: int| query_row_model(
            docs0[i],
        )));
    }
    Ok((meta, results))
}

// ---- header-side metadata ----
/// The model of the header-side metadata of a point read or replace.
pub ghost struct DocHeadersModel {
    pub continuation_token: Option<Seq<char>>,
    pub charge: Option<Seq<char>>,
    pub etag: Option<Seq<char>>,
}

/// The header-side metadata of a point read or replace: continuation token,
/// request charge (as its raw decimal text) and etag, each where present.
#[derive(Debug)]
pub struct DocumentAdditionalHeaders {
    pub continuation_token: Option<String>,
    pub charge: Option<String>,
    pub etag: Option<String>,
}

impl View for DocumentAdditionalHeaders {
    type V = DocHeadersModel;

    open spec fn view(&self) -> DocHeadersModel {
        DocHeadersModel {
            continuation_token: opt_view(self.continuation_token),
            charge: opt_view(self.charge),
            etag: opt_view(self.etag),
        }
    }
}

/// The model of the header-side metadata as the headers carry it.
pub open spec fn doc_headers_model(hs: Seq<(Seq<char>, Seq<char>)>) -> DocHeadersModel {
    DocHeadersModel {
        continuation_token: spec_header_lookup(hs, "x-ms-continuation"@),
        charge: spec_header_lookup(hs, "x-ms-request-charge"@),
        etag: spec_header_lookup(hs, "etag"@),
    }
}

impl DocumentAdditionalHeaders {
    /// Reads the metadata a response's headers carry, each piece where
    /// present.
    pub fn from_headers(headers: &Headers) -> (r: DocumentAdditionalHeaders)
        ensures
            r@ == doc_headers_model(headers@),
    {
        let r = DocumentAdditionalHeaders {
            continuation_token: derive_continuation_token(headers),
            charge: derive_request_charge(headers),
            etag: derive_etag(headers),
        };
        r
    }
}

// ---- the point-read outcome ----
/// The outcome of a point read: the document where the status said one was
/// found, no document where the store said "not found", the header metadata
/// either way.
#[derive(Debug)]
pub struct GetDocumentResponse {
    pub document: Option<Document>,
    pub additional_headers: DocumentAdditionalHeaders,
}

/// Classifies a point-read outcome. A status of 200 must carry a document
/// body: an unreadable one is `MalformedResponse`. A status of 404 is a
/// success with no document, never an error. Any other status is
/// `UnexpectedStatus` with the raw body text.
pub fn get_document_extract_result(status: u16, headers: &Headers, body: &str) -> (r: Result<
    GetDocumentResponse,
    Error,
>)
    ensures
        match r {
            Ok(g) => g.additional_headers@ == doc_headers_model(headers@) && (match g.document {
                Some(d) => status == 200 && (json_of(body@) matches Some(v) && document_model(
                    v,
                ) == Some(d@)),
                None => status == 404,
            }),
            Err(e) => match e {
                Error::MalformedResponse => status == 200 && (json_of(body@) is None
                    || document_model(json_of(body@).unwrap()) is None),
                Error::UnexpectedStatus { expected, actual, body: b } => status != 200 && status
                    != 404 && expected == 200 && actual == status && b@ == body@,
                _ => false,
            },
        },
{
    if status == 200 {
        let additional_headers = DocumentAdditionalHeaders::from_headers(headers);
        let document = match Document::from_json(body) {
            Ok(d) => d,
            Err(e) => {
                return Err(e);
            },
        };
        Ok(GetDocumentResponse { document: Some(document), additional_headers })
    } else if status == 404 {
        let additional_headers = DocumentAdditionalHeaders::from_headers(headers);
        Ok(GetDocumentResponse { document: None, additional_headers })
    } else {
        Err(Error::UnexpectedStatus { expected: 200, actual: status, body: body.to_owned() })
    }
}

// ---- the replace outcome ----
/// The outcome of replacing a document: the stored document and the header
/// metadata.
#[derive(Debug)]
pub struct ReplaceDocumentResponse {
    pub document: Document,
    pub additional_headers: DocumentAdditionalHeaders,
}

/// Reads a replace response's body and headers; the body must hold a full
/// document.
pub fn replace_document_extract_result(headers: &Headers, body: &str) -> (r: Result<
    ReplaceDocumentResponse,
    Error,
>)
    ensures
        match r {
            Ok(g) => g.additional_headers@ == doc_headers_model(headers@) && (json_of(body@)
                matches Some(v) && document_model(v) == Some(g.document@)),
            Err(e) => e == Error::MalformedResponse && (json_of(body@) is None
                || document_model(json_of(body@).unwrap()) is None),
        },
{
    let additional_headers = DocumentAdditionalHeaders::from_headers(headers);
    let document = match Document::from_json(body) {
        Ok(d) => d,
        Err(e) => {
            return Err(e);
        },
    };
    Ok(ReplaceDocumentResponse { document, additional_headers })
}

/// Reads a create response's body: the attributes the store assigned to the
/// new document.
pub fn create_document_extract_result(body: &str) -> (r: Result<DocumentAttributes, Error>)
    ensures
        match r {
            Ok(a) => json_of(body@) matches Some(v) && try_extract_model(v) == Some(a@),
            Err(e) => e == Error::MalformedResponse && (json_of(body@) is None
                || try_extract_model(json_of(body@).unwrap()) is None),
        },
{
    let v = match parse_json(body) {
        Some(v) => v,
        None => {
            return Err(Error::MalformedResponse);
        },
    };
    match DocumentAttributes::try_extract(&v) {
        Some(a) => Ok(a),
        None => Err(Error::MalformedResponse),
    }
}


// ---- the list outcome ----
/// The models of a row of documents.
pub open spec fn docs_view(ds: Seq<Document>) -> Seq<DocumentModel> {
    Seq::new(ds.len(), |i: int| ds[i]@)
}

/// What a list response body must hold: an object with a string resource id
/// and an array of rows, every one of which is a full document.
pub open spec fn list_body_model(v: JVal) -> Option<(Seq<char>, Seq<DocumentModel>)> {
    match v {
        JVal::Obj(fs) => match (jobj_lookup(fs, "_rid"@), jobj_lookup(fs, "Documents"@)) {
            (Some(JVal::Str(rid)), Some(JVal::Arr(docs))) => {
                if forall|i: int| 0 <= i < docs.len() ==> try_extract_model(#[trigger] docs[i])
                    is Some {
                    Some(
                        (
                            rid,
                            Seq::new(
                                docs.len(),
                                |i: int|
                                    DocumentModel {
                                        document_attributes: try_extract_model(
                                            docs[i],
                                        ).unwrap(),
                                        entity: docs[i],
                                    },
                            ),
                        ),
                    )
                } else {
                    None
                }
            },
            _ => None,
        },
        _ => None,
    }
}

/// The model of the header-side metadata of a list response.
pub ghost struct ListHeadersModel {
    pub continuation_token: Option<Seq<char>>,
    pub charge: Seq<char>,
    pub etag: Option<Seq<char>>,
    pub item_count: u64,
}

/// The header-side metadata of a list response. The charge and item-count
/// headers are required here; continuation and etag are optional.
#[derive(Debug)]
pub struct ListDocumentsResponseAdditionalHeaders {
    pub continuation_token: Option<String>,
    pub charge: String,
    pub etag: Option<String>,
    pub item_count: u64,
}

impl View for ListDocumentsResponseAdditionalHeaders {
    type V = ListHeadersModel;

    open spec fn view(&self) -> ListHeadersModel {
        ListHeadersModel {
            continuation_token: opt_view(self.continuation_token),
            charge: self.charge@,
            etag: opt_view(self.etag),
            item_count: self.item_count,
        }
    }
}

/// The outcome of listing documents: the container's resource id, every row
/// as a full document, and the header metadata.
#[derive(Debug)]
pub struct ListDocumentsResponse {
    pub rid: String,
    pub documents: Vec<Document>,
    pub additional_headers: ListDocumentsResponseAdditionalHeaders,
}

/// Reads a list response. The header metadata is read first, as the
/// operation's contract requires it: a missing charge or item-count header
/// is `MissingHeader`. The body is then read in two passes — the rows'
/// attributes, and the rows themselves — zipped by position into documents.
pub fn list_documents_extract_result(body: &str, headers: &Headers) -> (r: Result<
    ListDocumentsResponse,
    Error,
>)
    ensures
        match r {
            Ok(l) => {
                &&& spec_header_lookup(headers@, "x-ms-request-charge"@) == Some(
                    l.additional_headers@.charge,
                )
                &&& spec_header_lookup(headers@, "x-ms-item-count"@) matches Some(t)
                    && t.len() > 0 && all_digits(t) && dec_val(t)
                    == l.additional_headers@.item_count
                &&& l.additional_headers@.continuation_token == spec_header_lookup(
                    headers@,
                    "x-ms-continuation"@,
                )
                &&& l.additional_headers@.etag == spec_header_lookup(headers@, "etag"@)
                &&& json_of(body@) matches Some(v) && list_body_model(v) == Some(
                    (l.rid@, docs_view(l.documents@)),
                )
            },
            Err(e) => match e {
                Error::MissingHeader(h) => (h@ == "x-ms-request-charge"@ && spec_header_lookup(
                    headers@,
                    "x-ms-request-charge"@,
                ) is None) || (h@ == "x-ms-item-count"@ && spec_header_lookup(
                    headers@,
                    "x-ms-request-charge"@,
                ) is Some && spec_header_lookup(headers@, "x-ms-item-count"@) is None),
                Error::MalformedResponse => spec_header_lookup(
                    headers@,
                    "x-ms-request-charge"@,
                ) is Some && (match spec_header_lookup(headers@, "x-ms-item-count"@) {
                    None => false,
                    Some(t) => !(t.len() > 0 && all_digits(t) && dec_val(t) <= u64::MAX)
                        || json_of(body@) is None || list_body_model(
                        json_of(body@).unwrap(),
                    ) is None,
                }),
                _ => false,
            },
        },
{
    let charge = match request_charge_from_headers(headers) {
        Ok(c) => c,
        Err(e) => {
            return Err(e);
        },
    };
    let item_count = match request_item_count_from_headers(headers) {
        Ok(n) => n,
        Err(e) => {
            return Err(e);
        },
    };
    let additional_headers = ListDocumentsResponseAdditionalHeaders {
        continuation_token: derive_continuation_token(headers),
        charge,
        etag: derive_etag(headers),
        item_count,
    };
    let v = match parse_json(body) {
        Some(v) => v,
        None => {
            return Err(Error::MalformedResponse);
        },
    };
    let ghost jv = v@;
    let mut fields: Vec<(String, JsonValue)> = match v {
        JsonValue::Object(fs) => fs,
        _ => {
            return Err(Error::MalformedResponse);
        },
    };
    let ghost fv0 = fields_view(fields@);
    proof {
        assert(jv == JVal::Obj(fv0));
    }
    let rid: String = match fields_get(&fields, &"_rid".to_owned()) {
        Some(JsonValue::Str(x)) => x.clone(),
        _ => {
            return Err(Error::MalformedResponse);
        },
    };
    let rows: Vec<JsonValue> = match fields_take(&mut fields, &"Documents".to_owned()) {
        Some(JsonValue::Array(a)) => a,
        _ => {
            return Err(Error::MalformedResponse);
        },
    };
    let ghost rows0 = crate::json::jvals_of(rows@);
    proof {
        assert(jobj_lookup(fv0, "Documents"@) == Some(JVal::Arr(rows0)));
    }
    proof {
        crate::json::lemma_jvals_of_index(rows@);
    }
    let n = rows.len();
    // first pass: every row must carry its system attributes
    let mut attrs: Vec<DocumentAttributes> = Vec::new();
    let mut i: usize = 0;
    while i < n
        invariant
            n == rows@.len(),
            rows0.len() == n,
            forall|j: int| 0 <= j < n ==> jval_of(#[trigger] rows@[j]) == rows0[j],
            0 <= i <= n,
            attrs@.len() == i,
            forall|j: int|
                0 <= j < i ==> try_extract_model(#[trigger] rows0[j]) == Some(attrs@[j]@),
            spec_header_lookup(headers@, "x-ms-request-charge"@) is Some,
            (spec_header_lookup(headers@, "x-ms-item-count"@) matches Some(t) && t.len() > 0
                && all_digits(t) && dec_val(t) <= u64::MAX),
            json_of(body@) == Some(jv),
            jv == JVal::Obj(fv0),
            jobj_lookup(fv0, "Documents"@) == Some(JVal::Arr(rows0)),
        decreases n - i,
    {
        match DocumentAttributes::try_extract(&rows[i]) {
            Some(a) => {
                attrs.push(a);
            },
            None => {
                proof {
                    assert(try_extract_model(rows0[i as int]) is None);
                    assert(list_body_model(jv) is None);
                }
                return Err(Error::MalformedResponse);
            },
        }
        i = i + 1;
    }
    // second pass: the rows themselves, zipped with their attributes
    let mut documents: Vec<Document> = Vec::new();
    let mut rest = rows;
    let mut ats = attrs;
    while rest.len() > 0
        invariant
            documents@.len() + rest@.len() == n,
            ats@.len() == rest@.len(),
            rows0.len() == n,
            forall|j: int|
                0 <= j < rest@.len() ==> jval_of(#[trigger] rest@[j]) == rows0[documents@.len()
                    + j],
            forall|j: int|
                0 <= j < ats@.len() ==> try_extract_model(rows0[documents@.len() + j]) == Some(
                    #[trigger] ats@[j]@,
                ),
            forall|j: int|
                0 <= j < documents@.len() ==> #[trigger] documents@[j]@ == (DocumentModel {
                    document_attributes: try_extract_model(rows0[j]).unwrap(),
                    entity: rows0[j],
                }),
        decreases rest@.len(),
    {
        let ghost old_rest = rest@;
        let ghost old_ats = ats@;
        let row = rest.remove(0);
        let a = ats.remove(0);
        proof {
            assert(old_rest[0] == row);
            assert(old_ats[0] == a);
            assert(rest@ =~= old_rest.drop_first());
            assert(ats@ =~= old_ats.drop_first());
            assert forall|j: int| 0 <= j < rest@.len() implies jval_of(#[trigger] rest@[j])
                == rows0[documents@.len() + 1 + j] by {
                assert(rest@[j] == old_rest[j + 1]);
            }
            assert forall|j: int| 0 <= j < ats@.len() implies try_extract_model(
                rows0[documents@.len() + 1 + j],
            ) == Some(#[trigger] ats@[j]@) by {
                assert(ats@[j] == old_ats[j + 1]);
            }
        }
        documents.push(Document { document_attributes: a, entity: row });
    }
    proof {
        assert(docs_view(documents@) =~= Seq::new(
            rows0.len(),
            |i: int|
                DocumentModel {
                    document_attributes: try_extract_model(rows0[i]).unwrap(),
                    entity: rows0[i],
                },
        ));
        assert forall|q: int| 0 <= q < rows0.len() implies try_extract_model(
            #[trigger] rows0[q],
        ) is Some by {}
        assert(list_body_model(jv) == Some((rid@, docs_view(documents@))));
    }
    Ok(ListDocumentsResponse { rid, documents, additional_headers })
}


// ---- the query outcome ----
/// The model of the header-side metadata of a query response.
pub ghost struct QueryHeadersModel {
    pub continuation_token: Option<Seq<char>>,
    pub charge: Seq<char>,
}

/// The header-side metadata of a query response: the charge is required,
/// the continuation token optional.
#[derive(Debug)]
pub struct QueryResponseAdditionalHeaders {
    pub continuation_token: Option<String>,
    pub charge: String,
}

impl View for QueryResponseAdditionalHeaders {
    type V = QueryHeadersModel;

    open spec fn view(&self) -> QueryHeadersModel {
        QueryHeadersModel {
            continuation_token: opt_view(self.continuation_token),
            charge: self.charge@,
        }
    }
}

/// The outcome of a query: the body-side metadata, every row with its
/// attributes pulled out where the row is a full document, and the header
/// metadata.
#[derive(Debug)]
pub struct QueryDocumentResponse {
    pub query_response_meta: QueryResponseMeta,
    pub results: Vec<QueryResult>,
    pub additional_headers: QueryResponseAdditionalHeaders,
}

/// Reads a query response. The header metadata is read first — a missing
/// charge header is `MissingHeader` — then the body: its metadata fields,
/// and the rows, heterogeneous shapes tolerated.
pub fn query_documents_extract_result_json(body: &str, headers: &Headers) -> (r: Result<
    QueryDocumentResponse,
    Error,
>)
    ensures
        match r {
            Ok(q) => {
                &&& spec_header_lookup(headers@, "x-ms-request-charge"@) == Some(
                    q.additional_headers@.charge,
                )
                &&& q.additional_headers@.continuation_token == spec_header_lookup(
                    headers@,
                    "x-ms-continuation"@,
                )
                &&& json_of(body@) matches Some(v) && query_body_model(v) == Some(
                    (q.query_response_meta@, results_view(q.results@)),
                )
            },
            Err(e) => match e {
                Error::MissingHeader(h) => h@ == "x-ms-request-charge"@ && spec_header_lookup(
                    headers@,
                    "x-ms-request-charge"@,
                ) is None,
                Error::MalformedResponse => spec_header_lookup(
                    headers@,
                    "x-ms-request-charge"@,
                ) is Some && (json_of(body@) is None || query_body_model(
                    json_of(body@).unwrap(),
                ) is None),
                _ => false,
            },
        },
{
    let charge = match request_charge_from_headers(headers) {
        Ok(c) => c,
        Err(e) => {
            return Err(e);
        },
    };
    let additional_headers = QueryResponseAdditionalHeaders {
        continuation_token: derive_continuation_token(headers),
        charge,
    };
    let v = match parse_json(body) {
        Some(v) => v,
        None => {
            return Err(Error::MalformedResponse);
        },
    };
    let (meta, results) = match extract_query_rows(v) {
        Ok(p) => p,
        Err(e) => {
            return Err(e);
        },
    };
    Ok(QueryDocumentResponse { query_response_meta: meta, results, additional_headers })
}

} // verus!
