use nosql_marshal::codec::{entries_from_value_body, TableEntity};
use nosql_marshal::error::Error;
use nosql_marshal::headers::Headers;
use nosql_marshal::json::JsonValue;
use nosql_marshal::requests::{
    build_create_table_request, build_get_entry_request, build_insert_request, query_path,
    table_names_of_entries, Method,
};

#[test]
fn value_bodies_decode_row_by_row() {
    let body = "{\"value\":[\
                {\"PartitionKey\":\"p\",\"RowKey\":\"r1\",\"n\":1},\
                {\"PartitionKey\":\"p\",\"RowKey\":\"r2\",\"n\":2}]}";
    let es = entries_from_value_body(body).unwrap();
    assert_eq!(es.len(), 2);
    assert_eq!(es[0].row_key, "r1");
    assert_eq!(
        es[1].payload,
        vec![("n".to_string(), JsonValue::Number("2".to_string()))]
    );
}

#[test]
fn value_bodies_fail_whole() {
    let body = "{\"value\":[\
                {\"PartitionKey\":\"p\",\"RowKey\":\"r1\"},\
                {\"RowKey\":\"r2\"}]}";
    assert_eq!(
        entries_from_value_body(body).unwrap_err(),
        Error::MalformedResponse
    );
}

#[test]
fn listing_tables_reads_each_name() {
    let body = "{\"value\":[\
                {\"PartitionKey\":\"\",\"RowKey\":\"\",\"TableName\":\"alpha\"},\
                {\"PartitionKey\":\"\",\"RowKey\":\"\",\"TableName\":\"beta\"}]}";
    let es = entries_from_value_body(body).unwrap();
    let names = table_names_of_entries(&es).unwrap();
    assert_eq!(names, vec!["alpha".to_string(), "beta".to_string()]);
}

#[test]
fn listing_tables_rejects_a_nameless_row() {
    let es = vec![TableEntity {
        partition_key: "p".to_string(),
        row_key: "r".to_string(),
        etag: None,
        timestamp: None,
        payload: vec![],
    }];
    assert_eq!(
        table_names_of_entries(&es).unwrap_err(),
        Error::MalformedResponse
    );
}

#[test]
fn creating_a_table_posts_its_name() {
    let d = build_create_table_request("people");
    assert_eq!(d.method, Method::Post);
    assert_eq!(d.path, "TABLES");
    assert_eq!(d.body.as_deref(), Some("{\"TableName\":\"people\"}"));
    assert_eq!(d.expected_status, 201);
}

#[test]
fn inserting_posts_the_flat_entity() {
    let e = TableEntity {
        partition_key: "p".to_string(),
        row_key: "r".to_string(),
        etag: None,
        timestamp: None,
        payload: vec![("v".to_string(), JsonValue::Bool(false))],
    };
    let d = build_insert_request("t", &e).unwrap();
    assert_eq!(d.method, Method::Post);
    assert_eq!(d.path, "t");
    assert_eq!(
        d.body.as_deref(),
        Some("{\"PartitionKey\":\"p\",\"RowKey\":\"r\",\"v\":false}")
    );
    assert_eq!(d.expected_status, 201);
}

#[test]
fn point_reads_use_the_entry_path() {
    let d = build_get_entry_request("t", "pk", "rk");
    assert_eq!(d.method, Method::Get);
    assert_eq!(d.path, "t(PartitionKey='pk',RowKey='rk')");
    assert!(d.body.is_none());
    assert_eq!(d.expected_status, 200);
}

#[test]
fn query_paths_append_the_clause() {
    assert_eq!(query_path("t", None), "t");
    let q = "$top=5".to_string();
    assert_eq!(query_path("t", Some(&q)), "t?$top=5");
}

#[test]
fn responses_prefer_the_etag_header() {
    let body = "{\"PartitionKey\":\"p\",\"RowKey\":\"r\",\"odata.etag\":\"old\"}";
    let headers = Headers {
        entries: vec![("ETag".to_string(), "new".to_string())],
    };
    let e = TableEntity::from_response(&headers, body).unwrap();
    assert_eq!(e.etag.as_deref(), Some("new"));

    let no_headers = Headers { entries: vec![] };
    let e2 = TableEntity::from_response(&no_headers, body).unwrap();
    assert_eq!(e2.etag.as_deref(), Some("old"));
}
