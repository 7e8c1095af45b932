//! The subscription endpoint's decision logic.
//!
//! Handling a submission has three steps: decode it (content type, then
//! body), prepare the row to persist — a fresh identifier, the decoded
//! fields, the current time — and classify the outcome of the insert the
//! caller performed. The caller owns the transport and the database; it
//! hands over the request's bytes, performs the one insert this module asks
//! for, and reports back whether it succeeded.

use crate::form::{
    is_form_content_type, is_form_content_type_bytes, parse_form, spec_parse_form, DecodeError,
    FormModel,
};
use crate::response::{
    bad_request, ok_response, response_bad_request, response_ok, response_server_error,
    server_error, HttpResponse,
};
use vstd::prelude::*;

verus! {

/// A subscription row ready to be inserted.
pub struct NewSubscription {
    /// Sixteen bytes of a freshly generated version-4 identifier.
    pub id: Vec<u8>,
    pub email: Vec<u8>,
    pub name: Vec<u8>,
    /// Microseconds since the Unix epoch at the time the row was prepared.
    pub subscribed_at: i64,
}

impl NewSubscription {
    /// The identifier is sixteen bytes with the version nibble naming
    /// version four and the variant bits in the RFC form.
    pub open spec fn wf(&self) -> bool {
        &&& self.id@.len() == 16
        &&& self.id@[6] & 0xf0 == 0x40
        &&& self.id@[8] & 0xc0 == 0x80
    }
}

/// What the caller must do next with a submission: answer it as rejected,
/// or insert the prepared row and answer with the insert's outcome.
pub enum SubscribeStep {
    Reject(HttpResponse),
    Insert(NewSubscription),
}

/// The declared content type as the decode step sees it.
pub open spec fn opt_view(o: Option<&Vec<u8>>) -> Option<Seq<u8>> {
    match o {
        Some(v) => Some(v@),
        None => None,
    }
}

/// What a request decodes to: the form's two fields when the content type
/// names the form media type and the body is well formed, otherwise the
/// first reason it is rejected.
pub open spec fn spec_decode_request(content_type: Option<Seq<u8>>, body: Seq<u8>) -> Result<
    FormModel,
    DecodeError,
> {
    match content_type {
        None => Err(DecodeError::WrongContentType),
        Some(ct) => {
            if !is_form_content_type(ct) {
                Err(DecodeError::WrongContentType)
            } else {
                spec_parse_form(body)
            }
        },
    }
}

/// Relies on uuid::Uuid::new_v4: sixteen random bytes with the version
/// nibble forced to four and the variant bits to the RFC form; nothing
/// more is assumed of them.
#[verifier::external_body]
fn fresh_subscriber_id() -> (r: Vec<u8>)
    ensures
        r@.len() == 16,
        r@[6] & 0xf0 == 0x40,
        r@[8] & 0xc0 == 0x80,
{
    uuid::Uuid::new_v4().as_bytes().to_vec()
}

/// Relies on chrono::Utc::now: the wall clock at the call, in microseconds
/// since the Unix epoch; nothing is assumed of the value.
#[verifier::external_body]
fn current_unix_micros() -> i64 {
    chrono::Utc::now().timestamp_micros()
}

/// Decode a submission and, when it is well formed, prepare the row to
/// insert; a submission that does not decode is answered 400 with the
/// diagnostic body and nothing is prepared.
pub fn subscribe(content_type: Option<&Vec<u8>>, body: &Vec<u8>) -> (r: SubscribeStep)
    ensures
        match r {
            SubscribeStep::Reject(resp) => {
                &&& spec_decode_request(opt_view(content_type), body@) is Err
                &&& resp@ == response_bad_request()
            },
            SubscribeStep::Insert(sub) => {
                &&& spec_decode_request(opt_view(content_type), body@) matches Ok(f)
                &&& sub.name@ == f.name
                &&& sub.email@ == f.email
                &&& sub.wf()
            },
        },
{
    let ct_ok = match content_type {
        Some(ct) => is_form_content_type_bytes(ct),
        None => false,
    };
    if !ct_ok {
        return SubscribeStep::Reject(bad_request());
    }
    match parse_form(body) {
        Err(_) => SubscribeStep::Reject(bad_request()),
        Ok(f) => {
            let id = fresh_subscriber_id();
            let at = current_unix_micros();
            SubscribeStep::Insert(
                NewSubscription { id, email: f.email, name: f.name, subscribed_at: at },
            )
        },
    }
}

/// Classify the outcome of the one insert the caller performed: success is
/// answered 200 with an empty body, failure 500 with the diagnostic body.
pub fn finish_subscribe(insert_ok: bool) -> (r: HttpResponse)
    ensures
        insert_ok ==> r@ == response_ok(),
        !insert_ok ==> r@ == response_server_error(),
{
    if insert_ok {
        ok_response()
    } else {
        server_error()
    }
}

} // verus!
