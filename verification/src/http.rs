//! Mapping gateway outcomes onto HTTP responses.
//!
//! Client-caused failures (a body that does not decode as a record) answer
//! with a 400-class status; store failures answer 500 with a generic
//! message that leaks no store detail; successes answer 200.

use vstd::prelude::*;
use vstd::string::*;
use crate::json::json_array_text;
use crate::parse::{parse_record, spec_parse_record};
use crate::record::Record;
use crate::store::StoreError;

verus! {

/// A response as the HTTP layer needs it: a status code and a body text.
#[derive(Debug)]
pub struct HttpResponse {
    pub status: u16,
    pub body: String,
}

/// Whether a status lies in the client-error class.
pub open spec fn client_error(status: u16) -> bool {
    400 <= status < 500
}

/// Answers the health-check route with the static greeting.
pub fn health_response() -> (r: HttpResponse)
    ensures
        r.status == 200,
        r.body@ == "Hello, JM AAcera man!"@,
{
    HttpResponse { status: 200, body: "Hello, JM AAcera man!".to_owned() }
}

/// Answers the parameterized greeting route for a user id.
pub fn user_greeting(id: u64) -> (r: String)
    ensures
        r@ == "Hello, JM AAcera man param with ID: "@ + crate::chars::decimal_digits(id as nat),
{
    let mut s: String = "Hello, JM AAcera man param with ID: ".to_owned();
    s.append(crate::chars::decimal_string(id).as_str());
    s
}

/// Answers a create-record request whose body did not decode as a record:
/// a client error, never a silent success.
pub fn bad_request_response() -> (r: HttpResponse)
    ensures
        r.status == 400,
        client_error(r.status),
        r.body@ == "Invalid request body"@,
{
    HttpResponse { status: 400, body: "Invalid request body".to_owned() }
}

/// Decides a create-record request from its body alone: a body that
/// decodes as a record is to be inserted; a malformed body is answered at
/// once with a client error, never passed on and never a silent success.
pub fn create_plan(body: &str) -> (r: Result<Record, HttpResponse>)
    ensures
        r is Ok ==> spec_parse_record(body@) == Some(r->Ok_0@),
        r is Err ==> spec_parse_record(body@) is None && client_error(r->Err_0.status)
            && r->Err_0.status == 400 && r->Err_0.body@ == "Invalid request body"@,
{
    match parse_record(body) {
        Ok(record) => Ok(record),
        Err(_) => Err(bad_request_response()),
    }
}

/// Answers a create-record request from the insert's outcome: success
/// reports 200 `Inserted successfully`; any store failure reports 500 with
/// the generic message.
pub fn insert_response(outcome: Result<(), StoreError>) -> (r: HttpResponse)
    ensures
        outcome is Ok ==> r.status == 200 && r.body@ == "Inserted successfully"@,
        outcome is Err ==> r.status == 500 && r.body@ == "Error retrieving data"@,
{
    match outcome {
        Ok(()) => HttpResponse { status: 200, body: "Inserted successfully".to_owned() },
        Err(_) => HttpResponse { status: 500, body: "Error retrieving data".to_owned() },
    }
}

/// Answers a list-records request from the listing's outcome: the gathered
/// document texts are framed as a JSON array under 200; any store failure
/// reports 500 with the generic message.
pub fn find_response(outcome: Result<Vec<String>, StoreError>) -> (r: HttpResponse)
    ensures
        outcome is Ok ==> r.status == 200
            && r.body@ == json_array_text(outcome->Ok_0@.map_values(|s: String| s@)),
        outcome is Err ==> r.status == 500 && r.body@ == "Error retrieving data"@,
{
    match outcome {
        Ok(docs) => HttpResponse { status: 200, body: crate::json::json_array(&docs) },
        Err(_) => HttpResponse { status: 500, body: "Error retrieving data".to_owned() },
    }
}

} // verus!
