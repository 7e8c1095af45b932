//! Newsletter subscription intake.
//!
//! The library holds the decision logic of a two-endpoint service: a
//! liveness probe, and a subscription endpoint that decodes a URL-encoded
//! form into a name and an email, prepares the row to persist, and
//! classifies the outcome of the insert. The surrounding program owns the
//! transport and the database; it hands this library the request's bytes
//! and the insert's outcome, and sends back the response the library built.

pub mod form;
pub mod response;
pub mod store;
pub mod subscribe;
