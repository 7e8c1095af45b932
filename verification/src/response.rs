//! HTTP responses the service can answer with: success, client error on a
//! submission that could not be decoded, server error on a failed insert.

use vstd::prelude::*;

verus! {

/// Outcome of handling one request: a status code and a body.
pub struct HttpResponse {
    pub status: u16,
    pub body: Vec<u8>,
}

/// Mathematical view of a response.
#[verifier::ext_equal]
pub ghost struct ResponseModel {
    pub status: int,
    pub body: Seq<u8>,
}

impl View for HttpResponse {
    type V = ResponseModel;

    open spec fn view(&self) -> ResponseModel {
        ResponseModel { status: self.status as int, body: self.body@ }
    }
}

/// The short diagnostic body sent with both failure statuses: the bytes of
/// `Invalid form data`.
pub open spec fn diagnostic_body() -> Seq<u8> {
    seq![
        73u8, 110, 118, 97, 108, 105, 100, 32, 102, 111, 114, 109, 32, 100, 97, 116, 97,
    ]
}

/// The success response: 200 with an empty body.
pub open spec fn response_ok() -> ResponseModel {
    ResponseModel { status: 200, body: Seq::empty() }
}

/// The client-error response to a submission that does not decode.
pub open spec fn response_bad_request() -> ResponseModel {
    ResponseModel { status: 400, body: diagnostic_body() }
}

/// The server-error response to an insert that failed.
pub open spec fn response_server_error() -> ResponseModel {
    ResponseModel { status: 500, body: diagnostic_body() }
}

fn diagnostic_bytes() -> (r: Vec<u8>)
    ensures
        r@ == diagnostic_body(),
{
    let mut v: Vec<u8> = Vec::new();
    v.push(73);
    v.push(110);
    v.push(118);
    v.push(97);
    v.push(108);
    v.push(105);
    v.push(100);
    v.push(32);
    v.push(102);
    v.push(111);
    v.push(114);
    v.push(109);
    v.push(32);
    v.push(100);
    v.push(97);
    v.push(116);
    v.push(97);
    proof {
        assert(v@ =~= diagnostic_body());
    }
    v
}

/// Build the success response.
pub fn ok_response() -> (r: HttpResponse)
    ensures
        r@ == response_ok(),
{
    let r = HttpResponse { status: 200, body: Vec::new() };
    proof {
        assert(r@.body =~= response_ok().body);
    }
    r
}

/// Build the client-error response.
pub fn bad_request() -> (r: HttpResponse)
    ensures
        r@ == response_bad_request(),
{
    HttpResponse { status: 400, body: diagnostic_bytes() }
}

/// Build the server-error response.
pub fn server_error() -> (r: HttpResponse)
    ensures
        r@ == response_server_error(),
{
    HttpResponse { status: 500, body: diagnostic_bytes() }
}

/// Liveness probe: always succeeds with a zero-length body, whatever the
/// subscription store holds — it reads nothing and writes nothing.
pub fn health_check() -> (r: HttpResponse)
    ensures
        r@ == response_ok(),
{
    ok_response()
}

} // verus!
