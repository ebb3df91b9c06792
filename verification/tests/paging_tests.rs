use nosql_marshal::codec::TableEntity;
use nosql_marshal::cursor::Continuation;
use nosql_marshal::engine::{stream_absorb, stream_next_path, ContinuationState};
use nosql_marshal::error::Error;
use nosql_marshal::headers::Headers;
use nosql_marshal::requests::{
    build_batch_request, build_delete_request, build_update_request, entry_path, get_batch_mime,
    DatabaseClient, DocumentRequestExt, GetDocumentRequest, ListDocumentsRequest, Method,
    QueryDocumentRequest,
};

fn headers_of(pairs: &[(&str, &str)]) -> Headers {
    Headers {
        entries: pairs
            .iter()
            .map(|p| (p.0.to_string(), p.1.to_string()))
            .collect(),
    }
}

#[test]
fn cursor_needs_both_components() {
    let both = headers_of(&[
        ("x-ms-continuation-NextPartitionKey", "p7"),
        ("x-ms-continuation-NextRowKey", "r7"),
    ]);
    let c = Continuation::from_headers(&both);
    assert!(!c.fused);
    let cur = c.next.unwrap();
    assert_eq!(cur.partition_key, "p7");
    assert_eq!(cur.row_key, "r7");

    let only_pk = headers_of(&[("x-ms-continuation-NextPartitionKey", "p7")]);
    let c = Continuation::from_headers(&only_pk);
    assert!(c.fused);
    assert!(c.next.is_none());

    let only_rk = headers_of(&[("x-ms-continuation-NextRowKey", "r7")]);
    let c = Continuation::from_headers(&only_rk);
    assert!(c.fused);
    assert!(c.next.is_none());

    let none = headers_of(&[]);
    let c = Continuation::from_headers(&none);
    assert!(c.fused);
    assert!(c.next.is_none());
}

#[test]
fn cursor_starts_unfused() {
    let c = Continuation::start();
    assert!(!c.fused);
    assert!(c.next.is_none());
}

fn page_body(row_key: &str) -> String {
    format!(
        "{{\"value\":[{{\"PartitionKey\":\"p\",\"RowKey\":\"{}\"}}]}}",
        row_key
    )
}

#[test]
fn three_pages_then_the_sequence_ends() {
    // a mocked transport: two pages carry a continuation, the third does not
    let responses: Vec<(u16, Headers, String)> = vec![
        (
            200,
            headers_of(&[
                ("x-ms-continuation-NextPartitionKey", "p"),
                ("x-ms-continuation-NextRowKey", "r2"),
            ]),
            page_body("r1"),
        ),
        (
            200,
            headers_of(&[
                ("x-ms-continuation-NextPartitionKey", "p"),
                ("x-ms-continuation-NextRowKey", "r3"),
            ]),
            page_body("r2"),
        ),
        (200, headers_of(&[]), page_body("r3")),
    ];
    let query = "f".to_string();
    let mut state = ContinuationState::Start;
    let mut pages: Vec<Vec<TableEntity>> = Vec::new();
    let mut requests = 0usize;
    while let Some(_path) = stream_next_path("t", Some(&query), &state) {
        let (status, headers, body) = &responses[requests];
        requests += 1;
        let (page, next) = stream_absorb(*status, headers, body);
        pages.push(page.unwrap());
        state = next;
    }
    assert_eq!(requests, 3);
    assert_eq!(pages.len(), 3);
    assert_eq!(pages[0][0].row_key, "r1");
    assert_eq!(pages[1][0].row_key, "r2");
    assert_eq!(pages[2][0].row_key, "r3");
}

#[test]
fn a_failed_page_is_final() {
    let (page, next) = stream_absorb(500, &headers_of(&[]), "busy");
    match page.unwrap_err() {
        Error::UnexpectedStatus {
            expected,
            actual,
            body,
        } => {
            assert_eq!((expected, actual), (200, 500));
            assert_eq!(body, "busy");
        }
        other => panic!("unexpected error {:?}", other),
    }
    assert!(stream_next_path("t", None, &next).is_none());
}

#[test]
fn page_paths_carry_the_continuation() {
    let q = "$filter=x".to_string();
    let p = stream_next_path("t", Some(&q), &ContinuationState::Start).unwrap();
    assert_eq!(p, "t?$filter=x");
    let cur = nosql_marshal::cursor::ContinuationCursor {
        partition_key: "pk".to_string(),
        row_key: "rk".to_string(),
    };
    let p = stream_next_path("t", Some(&q), &ContinuationState::Next(Some(cur))).unwrap();
    assert_eq!(p, "t?$filter=x&NextPartitionKey=pk&NextRowKey=rk");
}

#[test]
fn list_request_gathers_its_headers() {
    let r = ListDocumentsRequest::new()
        .max_item_count(25)
        .continuation_token("tok")
        .incremental_feed();
    assert_eq!(
        r.headers.entries,
        vec![
            ("x-ms-max-item-count".to_string(), "25".to_string()),
            ("x-ms-continuation".to_string(), "tok".to_string()),
            ("A-IM".to_string(), "Incremental feed".to_string()),
        ]
    );
}

#[test]
fn query_request_declares_itself() {
    let r = QueryDocumentRequest::new().enable_cross_partition(true);
    assert_eq!(
        r.headers.entries,
        vec![
            ("x-ms-documentdb-isquery".to_string(), "true".to_string()),
            ("Content-Type".to_string(), "application/query+json".to_string()),
            (
                "x-ms-documentdb-query-enablecrosspartition".to_string(),
                "true".to_string()
            ),
        ]
    );
}

#[test]
fn shared_setters_serialize_the_partition_key() {
    let r = GetDocumentRequest::new()
        .session_token("s1")
        .serialized_partition_key("kv");
    assert_eq!(
        r.headers.entries,
        vec![
            ("x-ms-session-token".to_string(), "s1".to_string()),
            (
                "x-ms-documentdb-partitionkey".to_string(),
                "[\"kv\"]".to_string()
            ),
        ]
    );
}

#[test]
fn entry_paths_name_both_keys() {
    assert_eq!(
        entry_path("people", "pk", "rk"),
        "people(PartitionKey='pk',RowKey='rk')"
    );
}

#[test]
fn batch_requests_carry_the_batch_content_type() {
    let r = build_batch_request("payload".to_string());
    assert_eq!(r.method, Method::Post);
    assert_eq!(r.path, "$batch");
    assert_eq!(r.headers.entries[0].1, get_batch_mime());
    assert_eq!(r.expected_status, 202);
}

#[test]
fn updates_pass_a_wildcard_when_no_etag_is_held() {
    let e = TableEntity {
        partition_key: "p".to_string(),
        row_key: "r".to_string(),
        etag: None,
        timestamp: None,
        payload: vec![],
    };
    let d = build_update_request("t", &e).unwrap();
    assert_eq!(d.method, Method::Put);
    let last = d.headers.entries.last().unwrap();
    assert_eq!(last, &("If-Match".to_string(), "*".to_string()));
    assert_eq!(d.expected_status, 204);

    let e2 = TableEntity {
        etag: Some("W/\"3\"".to_string()),
        ..e
    };
    let d2 = build_update_request("t", &e2).unwrap();
    let last2 = d2.headers.entries.last().unwrap();
    assert_eq!(last2, &("If-Match".to_string(), "W/\"3\"".to_string()));
}

#[test]
fn deletes_never_depend_on_the_etag() {
    let e = TableEntity {
        partition_key: "p".to_string(),
        row_key: "r".to_string(),
        etag: Some("W/\"3\"".to_string()),
        timestamp: None,
        payload: vec![],
    };
    let d = build_delete_request("t", &e);
    assert_eq!(d.method, Method::Delete);
    assert_eq!(d.path, "t(PartitionKey='p',RowKey='r')");
    assert_eq!(
        d.headers.entries[1],
        ("If-Match".to_string(), "*".to_string())
    );
}

#[test]
fn database_clients_name_their_database() {
    let c = DatabaseClient::new("mydb");
    assert_eq!(c.database(), "mydb");
}
