//! HTTP replies of outcalls, as the canisters see them.
use vstd::prelude::*;
use crate::bignat::BigNat;

verus! {

/// One header line.
#[derive(Debug, Clone, PartialEq, Eq)]
pub struct HttpHeader {
    pub name: String,
    pub value: String,
}

/// An HTTP reply: status, headers and body.
#[derive(Debug, Clone, PartialEq, Eq)]
pub struct HttpReply {
    pub status: BigNat,
    pub headers: Vec<HttpHeader>,
    pub body: Vec<u8>,
}

/// The reply with its headers removed, so that replicas agree on it.
pub fn transform(response: HttpReply) -> (r: HttpReply)
    ensures
        r.status == response.status,
        r.headers@.len() == 0,
        r.body == response.body,
{
    HttpReply { status: response.status, headers: Vec::new(), body: response.body }
}

} // verus!
