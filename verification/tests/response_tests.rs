use nosql_marshal::error::Error;
use nosql_marshal::extract::{
    check_status, get_document_extract_result, list_documents_extract_result,
    query_documents_extract_result_json, DocumentAttributes,
};
use nosql_marshal::headers::{
    derive_etag, request_charge_from_headers, request_item_count_from_headers, Headers,
};
use nosql_marshal::json::JsonValue;
use nosql_marshal::outside::parse_json;

fn headers_of(pairs: &[(&str, &str)]) -> Headers {
    Headers {
        entries: pairs
            .iter()
            .map(|p| (p.0.to_string(), p.1.to_string()))
            .collect(),
    }
}

const BODY: &'static str = "
{
    \"_rid\": \"3iNTAJKxVCk=\",
    \"Documents\": [
        {
            \"color\": \"red\",
            \"myvalue\": \"#f00\",
            \"id\": \"c5d11a65-2e5a-3d9f-4de8-2447259dff38\",
            \"_rid\": \"3iNTAJKxVCkBAAAAAAAAAA==\",
            \"_self\": \"dbs/3iNTAA==/colls/3iNTAJKxVCk=/docs/3iNTAJKxVCkBAAAAAAAAAA==/\",
            \"_etag\": \"\\\"0100eb0a-0000-0c00-0000-5ded4fe30000\\\"\",
            \"_attachments\": \"attachments/\",
            \"_ts\": 1575833571
        },
        {
            \"color\": \"yellow\",
            \"myvalue\": \"#ff0\",
            \"id\": \"894dd5ff-573e-f38a-b8c4-5eae5071c900\",
            \"_rid\": \"3iNTAJKxVCkCAAAAAAAAAA==\",
            \"_self\": \"dbs/3iNTAA==/colls/3iNTAJKxVCk=/docs/3iNTAJKxVCkCAAAAAAAAAA==/\",
            \"_etag\": \"\\\"0100ec0a-0000-0c00-0000-5ded4fe30000\\\"\",
            \"_attachments\": \"attachments/\",
            \"_ts\": 1575833571
        }
    ],
    \"_count\": 7
}";

#[test]
fn test_list_document() {
    let headers = headers_of(&[("x-ms-request-charge", "3.5"), ("x-ms-item-count", "2")]);
    let r = list_documents_extract_result(BODY, &headers).unwrap();
    assert_eq!(r.rid, "3iNTAJKxVCk=");
    assert_eq!(r.documents.len(), 2);
    assert_eq!(
        r.documents[0].document_attributes.resource_id,
        "3iNTAJKxVCkBAAAAAAAAAA=="
    );
    assert_eq!(
        r.documents[1].document_attributes.timestamp.as_deref(),
        Some("1575833571")
    );
    assert_eq!(r.additional_headers.charge, "3.5");
    assert_eq!(r.additional_headers.item_count, 2);
    assert!(r.additional_headers.continuation_token.is_none());
}

#[test]
fn list_requires_the_item_count_header() {
    let headers = headers_of(&[("x-ms-request-charge", "1")]);
    match list_documents_extract_result(BODY, &headers).unwrap_err() {
        Error::MissingHeader(h) => assert_eq!(h, "x-ms-item-count"),
        other => panic!("unexpected error {:?}", other),
    }
}

#[test]
fn list_rejects_an_unreadable_item_count() {
    let headers = headers_of(&[("x-ms-request-charge", "1"), ("x-ms-item-count", "two")]);
    assert!(matches!(
        list_documents_extract_result(BODY, &headers).unwrap_err(),
        Error::MalformedResponse
    ));
}

#[test]
fn list_rejects_a_row_without_attributes() {
    let headers = headers_of(&[("x-ms-request-charge", "1"), ("x-ms-item-count", "1")]);
    let body = "{\"_rid\":\"X\",\"Documents\":[{\"custom\":\"field\"}],\"_count\":1}";
    assert!(matches!(
        list_documents_extract_result(body, &headers).unwrap_err(),
        Error::MalformedResponse
    ));
}

#[test]
fn point_read_of_an_absent_document_is_empty() {
    let headers = headers_of(&[("x-ms-request-charge", "1")]);
    let r = get_document_extract_result(404, &headers, "").unwrap();
    assert!(r.document.is_none());
    assert_eq!(r.additional_headers.charge.as_deref(), Some("1"));
}

#[test]
fn point_read_with_an_unparsable_body_is_malformed() {
    let headers = headers_of(&[]);
    assert!(matches!(
        get_document_extract_result(200, &headers, "{invalid").unwrap_err(),
        Error::MalformedResponse
    ));
}

#[test]
fn point_read_reads_the_document() {
    let headers = headers_of(&[("etag", "W/\"9\"")]);
    let body = "{\"_rid\":\"r9\",\"name\":\"x\"}";
    let r = get_document_extract_result(200, &headers, body).unwrap();
    let d = r.document.unwrap();
    assert_eq!(d.document_attributes.resource_id, "r9");
    assert_eq!(r.additional_headers.etag.as_deref(), Some("W/\"9\""));
}

#[test]
fn point_read_of_any_other_status_is_an_error() {
    let headers = headers_of(&[]);
    match get_document_extract_result(503, &headers, "busy").unwrap_err() {
        Error::UnexpectedStatus {
            expected,
            actual,
            body,
        } => {
            assert_eq!(expected, 200);
            assert_eq!(actual, 503);
            assert_eq!(body, "busy");
        }
        other => panic!("unexpected error {:?}", other),
    }
}

#[test]
fn query_rows_mix_documents_and_projections() {
    let body = "{\"_rid\":\"X\",\"Documents\":[{\"id\":\"a\",\"_rid\":\"r1\"},{\"custom\":\"field\"}],\"_count\":2}";
    let headers = headers_of(&[("x-ms-request-charge", "2.33")]);
    let r = query_documents_extract_result_json(body, &headers).unwrap();
    assert_eq!(r.query_response_meta.rid, "X");
    assert_eq!(r.query_response_meta.count, 2);
    assert_eq!(r.results.len(), 2);
    let first = r.results[0].document_attributes.as_ref().unwrap();
    assert_eq!(first.resource_id, "r1");
    assert!(r.results[1].document_attributes.is_none());
    assert_eq!(
        r.results[1].result,
        JsonValue::Object(vec![(
            "custom".to_string(),
            JsonValue::Str("field".to_string())
        )])
    );
    assert_eq!(r.additional_headers.charge, "2.33");
}

#[test]
fn query_requires_the_charge_header() {
    let body = "{\"_rid\":\"X\",\"Documents\":[],\"_count\":0}";
    match query_documents_extract_result_json(body, &headers_of(&[])).unwrap_err() {
        Error::MissingHeader(h) => assert_eq!(h, "x-ms-request-charge"),
        other => panic!("unexpected error {:?}", other),
    }
}

#[test]
fn attributes_need_only_the_resource_id() {
    let v = parse_json("{\"_rid\":\"abc\"}").unwrap();
    let a = DocumentAttributes::try_extract(&v).unwrap();
    assert_eq!(a.resource_id, "abc");
    assert!(a.self_link.is_none());
    assert!(a.etag.is_none());
}

#[test]
fn attributes_of_a_projection_are_absent() {
    let v = parse_json("{\"sum\":12}").unwrap();
    assert!(DocumentAttributes::try_extract(&v).is_none());
}

#[test]
fn header_lookup_folds_ascii_case() {
    let headers = headers_of(&[("ETag", "W/\"1\"")]);
    assert_eq!(derive_etag(&headers).as_deref(), Some("W/\"1\""));
}

#[test]
fn item_count_reads_the_largest_value() {
    let headers = headers_of(&[("x-ms-item-count", "18446744073709551615")]);
    assert_eq!(
        request_item_count_from_headers(&headers).unwrap(),
        u64::MAX
    );
}

#[test]
fn item_count_rejects_overflow() {
    let headers = headers_of(&[("x-ms-item-count", "18446744073709551616")]);
    assert!(matches!(
        request_item_count_from_headers(&headers).unwrap_err(),
        Error::MalformedResponse
    ));
}

#[test]
fn charge_is_returned_as_its_raw_text() {
    let headers = headers_of(&[("x-ms-request-charge", "12.38")]);
    assert_eq!(request_charge_from_headers(&headers).unwrap(), "12.38");
}

#[test]
fn check_status_carries_both_statuses() {
    assert!(check_status(204, 204, "").is_ok());
    match check_status(409, 204, "conflict").unwrap_err() {
        Error::UnexpectedStatus {
            expected,
            actual,
            body,
        } => {
            assert_eq!((expected, actual), (204, 409));
            assert_eq!(body, "conflict");
        }
        other => panic!("unexpected error {:?}", other),
    }
}

#[test]
fn item_count_of_zero_reads_as_zero() {
    let headers = headers_of(&[("x-ms-item-count", "0")]);
    assert_eq!(request_item_count_from_headers(&headers).unwrap(), 0);
}

#[test]
fn the_first_of_two_same_named_headers_wins() {
    let headers = headers_of(&[
        ("x-ms-request-charge", "1.0"),
        ("x-ms-request-charge", "2.0"),
    ]);
    assert_eq!(request_charge_from_headers(&headers).unwrap(), "1.0");
}
