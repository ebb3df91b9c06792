use nosql_marshal::codec::{zip_entities, Meta, TableEntity};
use nosql_marshal::error::Error;
use nosql_marshal::json::JsonValue;

fn entity(pk: &str, rk: &str, payload: Vec<(String, JsonValue)>) -> TableEntity {
    TableEntity {
        partition_key: pk.to_string(),
        row_key: rk.to_string(),
        etag: None,
        timestamp: None,
        payload,
    }
}

#[test]
fn round_trip_keys_and_payload() {
    let e = entity(
        "pk1",
        "rk1",
        vec![
            ("color".to_string(), JsonValue::Str("red".to_string())),
            ("n".to_string(), JsonValue::Number("42".to_string())),
            ("ok".to_string(), JsonValue::Bool(true)),
            ("nothing".to_string(), JsonValue::Null),
        ],
    );
    let text = e.to_payload().unwrap();
    let d = TableEntity::from_payload(&text).unwrap();
    assert_eq!(d.partition_key, "pk1");
    assert_eq!(d.row_key, "rk1");
    assert_eq!(d.payload, e.payload);
    assert!(d.etag.is_none());
    assert!(d.timestamp.is_none());
}

#[test]
fn encode_writes_one_flat_object() {
    let e = entity(
        "p",
        "r",
        vec![
            ("a".to_string(), JsonValue::Str("x".to_string())),
            ("b".to_string(), JsonValue::Number("1.5e3".to_string())),
        ],
    );
    let text = e.to_payload().unwrap();
    assert_eq!(
        text,
        "{\"PartitionKey\":\"p\",\"RowKey\":\"r\",\"a\":\"x\",\"b\":1.5e3}"
    );
}

#[test]
fn encode_rejects_nested_object() {
    let e = entity(
        "p",
        "r",
        vec![("inner".to_string(), JsonValue::Object(vec![]))],
    );
    assert_eq!(e.to_payload().unwrap_err(), Error::UnsupportedEncoding);
}

#[test]
fn encode_rejects_array() {
    let e = entity("p", "r", vec![("xs".to_string(), JsonValue::Array(vec![]))]);
    assert_eq!(e.to_payload().unwrap_err(), Error::UnsupportedEncoding);
}

#[test]
fn encode_rejects_invalid_number_literal() {
    let e = entity(
        "p",
        "r",
        vec![("n".to_string(), JsonValue::Number("01".to_string()))],
    );
    assert_eq!(e.to_payload().unwrap_err(), Error::UnsupportedEncoding);
}

#[test]
fn encode_rejects_metadata_name_collision() {
    let e = entity(
        "p",
        "r",
        vec![("RowKey".to_string(), JsonValue::Str("other".to_string()))],
    );
    assert_eq!(e.to_payload().unwrap_err(), Error::UnsupportedEncoding);
}

#[test]
fn escaped_strings_survive_the_round_trip() {
    let e = entity(
        "p\"q",
        "r\\s",
        vec![
            ("note".to_string(), JsonValue::Str("line\nbreak\tand \"quote\"".to_string())),
            ("plain".to_string(), JsonValue::Str("caf\u{e9}".to_string())),
        ],
    );
    let text = e.to_payload().unwrap();
    let d = TableEntity::from_payload(&text).unwrap();
    assert_eq!(d.partition_key, "p\"q");
    assert_eq!(d.row_key, "r\\s");
    assert_eq!(d.payload, e.payload);
}

#[test]
fn decode_reads_server_metadata() {
    let body = "{\"PartitionKey\":\"p\",\"RowKey\":\"r\",\"odata.etag\":\"W/\\\"5\\\"\",\
                \"Timestamp\":\"2019-10-12T07:20:50.52Z\",\"v\":3}";
    let d = TableEntity::from_payload(body).unwrap();
    assert_eq!(d.etag.as_deref(), Some("W/\"5\""));
    assert_eq!(d.timestamp, Some(1570864850520));
    assert_eq!(
        d.payload,
        vec![("v".to_string(), JsonValue::Number("3".to_string()))]
    );
}

#[test]
fn decode_accepts_short_escapes_and_hex_escapes() {
    let body = "{\"PartitionKey\":\"\\u0041\",\"RowKey\":\"\\n\"}";
    let d = TableEntity::from_payload(body).unwrap();
    assert_eq!(d.partition_key, "A");
    assert_eq!(d.row_key, "\n");
}

#[test]
fn decode_tolerates_whitespace() {
    let body = " {\n  \"PartitionKey\" : \"p\" ,\n  \"RowKey\" : \"r\"\n} ";
    let d = TableEntity::from_payload(body).unwrap();
    assert_eq!(d.partition_key, "p");
    assert_eq!(d.row_key, "r");
}

#[test]
fn decode_rejects_garbage() {
    assert_eq!(
        TableEntity::from_payload("nonsense").unwrap_err(),
        Error::MalformedResponse
    );
}

#[test]
fn decode_rejects_bad_timestamp() {
    let body = "{\"PartitionKey\":\"p\",\"RowKey\":\"r\",\"Timestamp\":\"yesterday\"}";
    assert_eq!(
        TableEntity::from_payload(body).unwrap_err(),
        Error::MalformedResponse
    );
}

#[test]
fn decode_rejects_missing_keys() {
    let body = "{\"PartitionKey\":\"p\",\"v\":1}";
    assert_eq!(
        TableEntity::from_payload(body).unwrap_err(),
        Error::MalformedResponse
    );
}

#[test]
fn batch_decodes_every_row() {
    let body = "{\"values\":[\
                {\"PartitionKey\":\"p\",\"RowKey\":\"r1\",\"v\":1},\
                {\"PartitionKey\":\"p\",\"RowKey\":\"r2\",\"v\":2}]}";
    let es = TableEntity::from_payload_set(body).unwrap();
    assert_eq!(es.len(), 2);
    assert_eq!(es[0].row_key, "r1");
    assert_eq!(es[1].row_key, "r2");
    assert_eq!(
        es[1].payload,
        vec![("v".to_string(), JsonValue::Number("2".to_string()))]
    );
}

#[test]
fn batch_ignores_other_scalar_members() {
    let body = "{\"odata.metadata\":\"m\",\"values\":[\
                {\"PartitionKey\":\"p\",\"RowKey\":\"r1\"}]}";
    let es = TableEntity::from_payload_set(body).unwrap();
    assert_eq!(es.len(), 1);
}

#[test]
fn batch_with_a_bad_row_yields_nothing() {
    let body = "{\"values\":[\
                {\"PartitionKey\":\"p\",\"RowKey\":\"r1\"},\
                {\"PartitionKey\":\"p\"}]}";
    assert_eq!(
        TableEntity::from_payload_set(body).unwrap_err(),
        Error::MalformedResponse
    );
}

#[test]
fn batch_of_no_rows_is_empty() {
    let es = TableEntity::from_payload_set("{\"values\":[]}").unwrap();
    assert!(es.is_empty());
}

#[test]
fn zip_refuses_unequal_lengths() {
    let metas = vec![Meta {
        row_key: "r".to_string(),
        partition_key: "p".to_string(),
        etag: None,
        timestamp: None,
    }];
    let payloads: Vec<Vec<(String, JsonValue)>> = vec![];
    assert_eq!(
        zip_entities(metas, payloads).unwrap_err(),
        Error::ArrayLengthMismatch
    );
}

#[test]
fn zip_unites_by_position() {
    let metas = vec![
        Meta {
            row_key: "r1".to_string(),
            partition_key: "p".to_string(),
            etag: Some("e1".to_string()),
            timestamp: None,
        },
        Meta {
            row_key: "r2".to_string(),
            partition_key: "p".to_string(),
            etag: None,
            timestamp: Some(7),
        },
    ];
    let payloads = vec![
        vec![("a".to_string(), JsonValue::Bool(true))],
        vec![("b".to_string(), JsonValue::Null)],
    ];
    let es = zip_entities(metas, payloads).unwrap();
    assert_eq!(es.len(), 2);
    assert_eq!(es[0].row_key, "r1");
    assert_eq!(es[0].etag.as_deref(), Some("e1"));
    assert_eq!(es[0].payload, vec![("a".to_string(), JsonValue::Bool(true))]);
    assert_eq!(es[1].timestamp, Some(7));
    assert_eq!(es[1].payload, vec![("b".to_string(), JsonValue::Null)]);
}

#[test]
fn duplicate_payload_fields_survive_in_order() {
    let e = entity(
        "p",
        "r",
        vec![
            ("k".to_string(), JsonValue::Number("1".to_string())),
            ("k".to_string(), JsonValue::Number("2".to_string())),
        ],
    );
    let text = e.to_payload().unwrap();
    let d = TableEntity::from_payload(&text).unwrap();
    assert_eq!(d.payload, e.payload);
}

#[test]
fn a_null_etag_reads_as_absent() {
    let body = "{\"PartitionKey\":\"p\",\"RowKey\":\"r\",\"odata.etag\":null}";
    let d = TableEntity::from_payload(body).unwrap();
    assert!(d.etag.is_none());
}
