use intro_gateway::http::{
    bad_request_response, create_plan, find_response, health_response, insert_response,
    user_greeting,
};
use intro_gateway::json::{json_array, record_to_json};
use intro_gateway::parse::parse_record;
use intro_gateway::record::Record;
use intro_gateway::store::{accept_document, next_directive, CursorOutcome, ListDirective, StoreError};

#[test]
fn health_greeting() {
    let r = health_response();
    assert_eq!(r.status, 200);
    assert_eq!(r.body, "Hello, JM AAcera man!");
}

#[test]
fn greeting_with_id() {
    assert_eq!(user_greeting(7), "Hello, JM AAcera man param with ID: 7");
    assert_eq!(user_greeting(0), "Hello, JM AAcera man param with ID: 0");
    assert_eq!(
        user_greeting(1234567890),
        "Hello, JM AAcera man param with ID: 1234567890"
    );
    assert_eq!(
        user_greeting(u64::MAX),
        "Hello, JM AAcera man param with ID: 18446744073709551615"
    );
}

#[test]
fn record_renders_canonically() {
    let r = Record::new("Intro".to_string(), "star.png".to_string());
    assert_eq!(record_to_json(&r), "{\"title\":\"Intro\",\"icon\":\"star.png\"}");
}

#[test]
fn record_escapes_specials() {
    let r = Record::new(
        "a\"b\\c\nd\u{1}".to_string(),
        "\t\r\u{8}\u{c}\u{1f}/".to_string(),
    );
    assert_eq!(
        record_to_json(&r),
        "{\"title\":\"a\\\"b\\\\c\\nd\\u0001\",\"icon\":\"\\t\\r\\b\\f\\u001f/\"}"
    );
}

#[test]
fn parse_accepts_canonical() {
    let r = parse_record("{\"title\":\"Intro\",\"icon\":\"star.png\"}").unwrap();
    assert_eq!(r.title, "Intro");
    assert_eq!(r.icon, "star.png");
}

#[test]
fn parse_accepts_swapped_members() {
    let r = parse_record("{\"icon\":\"star.png\",\"title\":\"Intro\"}").unwrap();
    assert_eq!(r.title, "Intro");
    assert_eq!(r.icon, "star.png");
}

#[test]
fn parse_accepts_whitespace() {
    let r = parse_record(" {\t\"title\" : \"a\" ,\r\n \"icon\" : \"b\" } ").unwrap();
    assert_eq!(r.title, "a");
    assert_eq!(r.icon, "b");
}

#[test]
fn parse_decodes_escapes() {
    let r = parse_record("{\"title\":\"\\u0041\\n\\\"\",\"icon\":\"\\\\\\/\"}").unwrap();
    assert_eq!(r.title, "A\n\"");
    assert_eq!(r.icon, "\\/");
}

#[test]
fn parse_round_trip() {
    let r = Record::new(
        "H\u{e9}llo \u{2713} \"x\"\n".to_string(),
        "i\\c\u{3}.png".to_string(),
    );
    let back = parse_record(&record_to_json(&r)).unwrap();
    assert_eq!(back.title, r.title);
    assert_eq!(back.icon, r.icon);
}

#[test]
fn parse_rejects_malformed() {
    let bad = vec![
        "",
        "   ",
        "{}",
        "not json",
        "{\"title\":\"a\"}",
        "{\"title\":\"a\",\"icon\":\"b\"} x",
        "{\"title\":\"a\",\"icon\":2}",
        "{\"title\":\"a\",\"other\":\"b\"}",
        "{\"title\":\"a\",\"title\":\"b\"}",
        "{\"title\":\"a\",\"icon\":\"b\",\"title\":\"c\"}",
        "{\"title\":\"\\q\",\"icon\":\"b\"}",
        "{\"title\":\"\\ud800\",\"icon\":\"b\"}",
        "{\"title\":\"a\nb\",\"icon\":\"b\"}",
        "[\"title\",\"icon\"]",
        "{\"title\":\"a\",\"icon\":\"b\"",
        "{\"title\":\"a\",\"icon\":\"b\",\"x\":}",
        "{\"title\":\"a\",\"icon\":\"b\",\"x\":01}",
        "{\"title\":\"a\",\"icon\":\"b\",\"x\":+1}",
        "{\"title\":\"a\",\"icon\":\"b\",\"x\":1.}",
        "{\"title\":\"a\",\"icon\":\"b\",\"x\":2e}",
        "{\"title\":\"a\",\"icon\":\"b\",\"x\":tru}",
        "{\"title\":\"a\",\"icon\":\"b\",\"x\":[1,]}",
        "{\"title\":\"a\",\"icon\":\"b\",\"x\":{\"y\"}}",
    ];
    for body in bad {
        assert!(parse_record(body).is_err(), "accepted: {}", body);
    }
}

#[test]
fn parse_ignores_unknown_members() {
    let r = parse_record("{\"title\":\"a\",\"icon\":\"b\",\"extra\":\"c\"}").unwrap();
    assert_eq!(r.title, "a");
    assert_eq!(r.icon, "b");
    let r = parse_record(
        "{\"x\":-12.5e+3,\"title\":\"a\",\"y\":[1,{\"z\":null},true,\"s\"],\"icon\":\"b\",\"z\":{\"n\":{\"deep\":[]}}}",
    )
    .unwrap();
    assert_eq!(r.title, "a");
    assert_eq!(r.icon, "b");
    let r = parse_record("{\"dup\":1,\"dup\":false,\"icon\":\"b\",\"title\":\"a\",\"e\":{}}").unwrap();
    assert_eq!(r.title, "a");
    assert_eq!(r.icon, "b");
    assert!(parse_record("{\"x\":0,\"title\":\"a\"}").is_err());
}

#[test]
fn parse_combines_surrogate_pairs() {
    let r = parse_record("{\"title\":\"\\ud83d\\ude00\",\"icon\":\"b\"}").unwrap();
    assert_eq!(r.title, "\u{1f600}");
    assert!(parse_record("{\"title\":\"\\udc00\",\"icon\":\"b\"}").is_err());
    assert!(parse_record("{\"title\":\"\\ud800x\",\"icon\":\"b\"}").is_err());
    assert!(parse_record("{\"title\":\"\\ud800\\ud800\",\"icon\":\"b\"}").is_err());
}

#[test]
fn create_plan_maps_bad_body_to_client_error() {
    let e = create_plan("{oops").unwrap_err();
    assert_eq!(e.status, 400);
    assert!(e.status >= 400 && e.status < 500);
    assert_eq!(e.body, "Invalid request body");
    let ok = create_plan("{\"title\":\"Intro\",\"icon\":\"star.png\"}").unwrap();
    assert_eq!(ok.title, "Intro");
    assert_eq!(ok.icon, "star.png");
}

#[test]
fn bad_request_is_client_class() {
    let r = bad_request_response();
    assert_eq!(r.status, 400);
    assert_eq!(r.body, "Invalid request body");
}

#[test]
fn insert_outcome_responses() {
    let ok = insert_response(Ok(()));
    assert_eq!(ok.status, 200);
    assert_eq!(ok.body, "Inserted successfully");
    let lost = insert_response(Err(StoreError::ConnectionLost));
    assert_eq!(lost.status, 500);
    assert_eq!(lost.body, "Error retrieving data");
    let rejected = insert_response(Err(StoreError::WriteRejected));
    assert_eq!(rejected.status, 500);
    assert_eq!(rejected.body, "Error retrieving data");
}

#[test]
fn empty_listing_is_empty_array() {
    let r = find_response(Ok(vec![]));
    assert_eq!(r.status, 200);
    assert_eq!(r.body, "[]");
    assert_eq!(json_array(&vec![]), "[]");
}

#[test]
fn listing_frames_documents() {
    let docs = vec!["{\"a\":1}".to_string(), "2".to_string()];
    let r = find_response(Ok(docs));
    assert_eq!(r.status, 200);
    assert_eq!(r.body, "[{\"a\":1},2]");
    assert_eq!(json_array(&vec!["x".to_string()]), "[x]");
}

#[test]
fn unreachable_store_listing() {
    let r = find_response(Err(StoreError::ConnectionLost));
    assert_eq!(r.status, 500);
    assert_eq!(r.body, "Error retrieving data");
    let c = find_response(Err(StoreError::CursorFailure));
    assert_eq!(c.status, 500);
    assert_eq!(c.body, "Error retrieving data");
}

#[test]
fn cursor_directives() {
    assert_eq!(next_directive(CursorOutcome::HasDocument), ListDirective::TakeDocument);
    assert_eq!(next_directive(CursorOutcome::Exhausted), ListDirective::Stop);
    assert_eq!(next_directive(CursorOutcome::Failed), ListDirective::Abort);
}

#[test]
fn accept_document_keeps_rendered_json() {
    let v: serde_json::Value =
        serde_json::from_str("{\"title\":\"Intro\",\"icon\":\"star.png\"}").unwrap();
    let mut docs: Vec<String> = Vec::new();
    let kept = accept_document(&mut docs, Some(&v));
    assert!(kept);
    assert_eq!(docs.len(), 1);
    let back: serde_json::Value = serde_json::from_str(&docs[0]).unwrap();
    assert_eq!(back, v);
}

#[test]
fn undecodable_document_is_skipped_not_fatal() {
    let v: serde_json::Value = serde_json::from_str("{\"a\":1}").unwrap();
    let mut docs: Vec<String> = Vec::new();
    assert!(accept_document(&mut docs, Some(&v)));
    assert!(!accept_document(&mut docs, None));
    assert!(accept_document(&mut docs, Some(&v)));
    assert_eq!(docs.len(), 2);
    assert_eq!(docs[0], docs[1]);
}

#[test]
fn distinct_payloads_stay_distinct() {
    let records = vec![
        Record::new("a".to_string(), "x.png".to_string()),
        Record::new("b".to_string(), "x.png".to_string()),
        Record::new("a".to_string(), "y.png".to_string()),
    ];
    let texts: Vec<String> = records.iter().map(record_to_json).collect();
    assert_ne!(texts[0], texts[1]);
    assert_ne!(texts[0], texts[2]);
    assert_ne!(texts[1], texts[2]);
    let listing = find_response(Ok(texts));
    assert_eq!(listing.status, 200);
    assert_eq!(
        listing.body,
        "[{\"title\":\"a\",\"icon\":\"x.png\"},{\"title\":\"b\",\"icon\":\"x.png\"},{\"title\":\"a\",\"icon\":\"y.png\"}]"
    );
}

#[test]
fn create_then_list_scenario() {
    let body = "{\"title\":\"Intro\",\"icon\":\"star.png\"}";
    let record = create_plan(body).unwrap();
    let created = insert_response(Ok(()));
    assert_eq!(created.status, 200);
    assert_eq!(created.body, "Inserted successfully");
    let stored = record_to_json(&record);
    let listing = find_response(Ok(vec![stored]));
    assert_eq!(listing.status, 200);
    assert_eq!(listing.body, "[{\"title\":\"Intro\",\"icon\":\"star.png\"}]");
    assert!(listing.body.contains("\"title\":\"Intro\""));
    assert!(listing.body.contains("\"icon\":\"star.png\""));
}
