//! Replies and envelopes shared by the protocol handlers.

use vstd::prelude::*;
use vstd::string::*;

verus! {

/// An HTTP reply decided by a handler: a status and a body.
pub struct Reply {
    pub status: u16,
    pub body: Vec<u8>,
}

/// The SOAP envelope around a response body.
pub open spec fn soap_envelope(body: Seq<char>) -> Seq<char> {
    "<?xml version=\"1.0\" encoding=\"utf-8\"?>\n<s:Envelope xmlns:s=\"http://schemas.xmlsoap.org/soap/envelope/\">\n  <s:Body>"@
        + body + "</s:Body>\n</s:Envelope>"@
}

/// Wraps a response body into a SOAP envelope.
pub fn ews_soap_envelope(body: &str) -> (r: String)
    ensures
        r@ == soap_envelope(body@),
{
    let mut out = String::new();
    out.append(
        "<?xml version=\"1.0\" encoding=\"utf-8\"?>\n<s:Envelope xmlns:s=\"http://schemas.xmlsoap.org/soap/envelope/\">\n  <s:Body>",
    );
    out.append(body);
    out.append("</s:Body>\n</s:Envelope>");
    assert(out@ =~= soap_envelope(body@));
    out
}

/// A reply whose body is a text.
pub fn text_reply(status: u16, text: &str) -> (r: Reply)
    ensures
        r.status == status,
        r.body@ == text.spec_bytes(),
{
    let mut body: Vec<u8> = Vec::new();
    crate::text::push_all(&mut body, text.as_bytes());
    assert(body@ =~= text.spec_bytes());
    Reply { status, body }
}

} // verus!
