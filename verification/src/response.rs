//! Rendering an error as an `http::Response`.
//!
//! The verified logic here computes the status line and the body text; the
//! assembly of the `http::Response` value itself is the http crate's work
//! and stands behind trusted wrappers.

use vstd::prelude::*;

use crate::codec::decode_spec;
use crate::error::HttpWhatever;

verus! {

#[verifier::external_type_specification]
#[verifier::external_body]
#[verifier::reject_recursive_types(T)]
pub struct ExResponse<T>(http::Response<T>);

/// Relies on http::response::Builder: `status` accepts every code in
/// 100..=999, and `body` on such a builder returns the assembled response
/// without error.
#[verifier::external_body]
fn build_default_response<B: Default>(status: u16) -> (r: http::Response<B>)
    requires
        100 <= status <= 999,
{
    http::Response::builder().status(status).body(B::default()).unwrap()
}

/// Relies on http::response::Builder: `status` accepts every code in
/// 100..=999, `header` accepts `content-type` with either of the two
/// visible-ASCII values named below, and `body` then returns the assembled
/// response without error.
#[verifier::external_body]
fn build_body_response<B: From<String>>(status: u16, content_type: &str, body: String) -> (r:
    http::Response<B>)
    requires
        100 <= status <= 999,
        content_type@ == "text/plain"@ || content_type@ == "application/json"@,
{
    http::Response::builder()
        .status(status)
        .header(http::header::CONTENT_TYPE, content_type)
        .body(B::from(body))
        .unwrap()
}

/// The body text of a string response:
/// `"{message} (application domain: {domain})"`.
pub open spec fn string_body_spec(m: Seq<char>) -> Seq<char> {
    let d = decode_spec(m);
    d.message + " (application domain: "@ + d.domain + ")"@
}

/// The body text of a JSON response:
/// `{"message":"<message>","domain":"<domain>"}`. The two values are taken
/// verbatim: nothing is escaped beyond the basic quoting, so a message that
/// itself contains `"` yields technically invalid JSON; that is a known
/// limitation kept on purpose.
pub open spec fn json_body_spec(m: Seq<char>) -> Seq<char> {
    let d = decode_spec(m);
    "{\"message\":\""@ + d.message + "\",\"domain\":\""@ + d.domain + "\"}"@
}

impl HttpWhatever {
    /// The body text that [`Self::as_http_string_response`] sends.
    pub fn string_body(&self) -> (r: String)
        ensures
            r@ == string_body_spec(self@.message),
    {
        let (message, domain, _status) = self.parts();
        let mut out = message;
        out.append(" (application domain: ");
        out.append(domain.as_str());
        out.append(")");
        proof {
            assert(out@ =~= string_body_spec(self@.message));
        }
        out
    }

    /// The body text that [`Self::as_http_json_response`] sends.
    pub fn json_body(&self) -> (r: String)
        ensures
            r@ == json_body_spec(self@.message),
    {
        let (message, domain, _status) = self.parts();
        let mut out = String::from_str("{\"message\":\"");
        out.append(message.as_str());
        out.append("\",\"domain\":\"");
        out.append(domain.as_str());
        out.append("\"}");
        proof {
            assert(out@ =~= json_body_spec(self@.message));
        }
        out
    }

    /// An `http::Response` whose status line is the decoded status and whose
    /// body is the default value of the body type; no header is set. Never
    /// fails: the decoded status is always a legal code.
    pub fn as_http_response<B: Default>(&self) -> http::Response<B> {
        let (_message, _domain, status) = self.parts();
        build_default_response(status)
    }

    /// An `http::Response` whose status line is the decoded status, whose
    /// body is `"{message} (application domain: {domain})"`, and whose
    /// `content-type` header is `text/plain`. Never fails.
    pub fn as_http_string_response<B: From<String>>(&self) -> http::Response<B> {
        let body = self.string_body();
        let (_message, _domain, status) = self.parts();
        build_body_response(status, "text/plain", body)
    }

    /// An `http::Response` whose status line is the decoded status, whose
    /// body is `{"message":"<message>","domain":"<domain>"}`, and whose
    /// `content-type` header is `application/json`. Never fails.
    pub fn as_http_json_response<B: From<String>>(&self) -> http::Response<B> {
        let body = self.json_body();
        let (_message, _domain, status) = self.parts();
        build_body_response(status, "application/json", body)
    }
}

} // verus!
