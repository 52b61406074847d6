//! The store gateway's error taxonomy and the decisions taken while a
//! cursor over a collection is drained.
//!
//! The store driver itself performs the network calls outside this library
//! and reports each step as a plain outcome; the functions here decide what
//! each outcome means for the listing being built, so that the
//! skip-and-log treatment of undecodable documents is fixed by contract.

use vstd::prelude::*;
use serde_json::Value;

verus! {

/// How a call into the document store can fail.
#[derive(Clone, Copy, Debug, PartialEq, Eq, Structural)]
pub enum StoreError {
    /// The store was unreachable or the connection dropped.
    ConnectionLost,
    /// The store rejected the write.
    WriteRejected,
    /// Walking a result cursor failed part-way.
    CursorFailure,
}

/// What one step of a store cursor reported.
#[derive(Clone, Copy, Debug, PartialEq, Eq, Structural)]
pub enum CursorOutcome {
    /// The cursor advanced onto a document.
    HasDocument,
    /// The cursor reached the end of the collection.
    Exhausted,
    /// Advancing the cursor failed.
    Failed,
}

/// What the listing loop must do after a cursor step.
#[derive(Clone, Copy, Debug, PartialEq, Eq, Structural)]
pub enum ListDirective {
    /// Read the current document and add it to the listing.
    TakeDocument,
    /// End the listing successfully with what was gathered.
    Stop,
    /// Abort the listing with `StoreError::CursorFailure`.
    Abort,
}

/// The directive that each cursor outcome calls for.
pub open spec fn directive_for(o: CursorOutcome) -> ListDirective {
    match o {
        CursorOutcome::HasDocument => ListDirective::TakeDocument,
        CursorOutcome::Exhausted => ListDirective::Stop,
        CursorOutcome::Failed => ListDirective::Abort,
    }
}

/// Decides the next step of a listing from what the cursor reported.
pub fn next_directive(o: CursorOutcome) -> (d: ListDirective)
    ensures
        d == directive_for(o),
{
    match o {
        CursorOutcome::HasDocument => ListDirective::TakeDocument,
        CursorOutcome::Exhausted => ListDirective::Stop,
        CursorOutcome::Failed => ListDirective::Abort,
    }
}

#[verifier::external_type_specification]
#[verifier::external_body]
pub struct ExValue(Value);

/// The JSON text that a structured document renders as: a function of the
/// document alone.
pub uninterp spec fn rendered_of(v: Value) -> Seq<char>;

/// Relies on `serde_json::to_string`: renders a JSON value as its JSON
/// text. For a `Value` the serializer has no failure path — object keys
/// are strings and the writer is a byte vector — so the call returns the
/// rendering of the value, which depends on the value alone.
#[verifier::external_body]
fn render_document(doc: &Value) -> (r: Option<String>)
    ensures
        r is Some,
        r->0@ == rendered_of(*doc),
{
    serde_json::to_string(doc).ok()
}

/// Takes one cursor document into the listing. A decoded document is
/// always appended, as its JSON text; an undecodable one (`None`) is
/// skipped — the listing goes on rather than aborting — and the caller is
/// told, so that it can log the skip.
pub fn accept_document(docs: &mut Vec<String>, doc: Option<&Value>) -> (kept: bool)
    ensures
        doc is Some ==> kept && final(docs)@.len() == old(docs)@.len() + 1
            && final(docs)@.last()@ == rendered_of(*(doc->0))
            && final(docs)@.drop_last() == old(docs)@,
        doc is None ==> !kept && final(docs)@ == old(docs)@,
{
    match doc {
        Some(value) => match render_document(value) {
            Some(text) => {
                docs.push(text);
                proof {
                    assert(docs@.drop_last() =~= old(docs)@);
                }
                true
            },
            None => {
                proof {
                    assert(false);
                }
                false
            },
        },
        None => false,
    }
}

} // verus!
