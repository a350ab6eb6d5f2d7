//! The response a handler builds: a status code, headers, and an optional
//! body.

use vstd::prelude::*;

use crate::request::kv_views;
use vstd::string::StringSliceAdditionalSpecFns;

verus! {

/// One response under construction. The status is a bare HTTP status code;
/// a fresh response is `200` with no headers and no body.
#[derive(Debug)]
pub struct SapperResponse {
    status: u16,
    headers: Vec<(Vec<u8>, Vec<u8>)>,
    body: Option<Vec<u8>>,
}

/// Model of a response.
#[verifier::ext_equal]
pub struct ResponseView {
    pub status: u16,
    pub headers: Seq<(Seq<u8>, Seq<u8>)>,
    pub body: Option<Seq<u8>>,
}

impl View for SapperResponse {
    type V = ResponseView;

    closed spec fn view(&self) -> ResponseView {
        ResponseView {
            status: self.status,
            headers: kv_views(self.headers@),
            body: match self.body {
                Some(b) => Some(b@),
                None => None::<Seq<u8>>,
            },
        }
    }
}

impl SapperResponse {
    /// A fresh `200` response with no headers and no body.
    pub fn new() -> (r: SapperResponse)
        ensures
            r@.status == 200,
            r@.headers == Seq::<(Seq<u8>, Seq<u8>)>::empty(),
            r@.body is None,
    {
        let r = SapperResponse { status: 200, headers: Vec::new(), body: None };
        proof {
            assert(r@.headers =~~= Seq::<(Seq<u8>, Seq<u8>)>::empty());
        }
        r
    }

    /// The response's status code.
    pub fn status(&self) -> (r: u16)
        ensures
            r == self@.status,
    {
        self.status
    }

    /// Replaces the status code.
    pub fn set_status(&mut self, status: u16) -> (r: ())
        ensures
            final(self)@ == (ResponseView { status, ..old(self)@ }),
    {
        self.status = status;
    }

    /// The response's headers, in insertion order.
    pub fn headers(&self) -> (r: &Vec<(Vec<u8>, Vec<u8>)>)
        ensures
            kv_views(r@) == self@.headers,
    {
        &self.headers
    }

    /// Appends one header.
    pub fn insert_header(&mut self, name: Vec<u8>, value: Vec<u8>) -> (r: ())
        ensures
            final(self)@ == (ResponseView {
                headers: old(self)@.headers.push((name@, value@)),
                ..old(self)@
            }),
    {
        let ghost old_headers = kv_views(self.headers@);
        let ghost nv = (name@, value@);
        self.headers.push((name, value));
        proof {
            assert(kv_views(self.headers@) =~~= old_headers.push(nv));
        }
    }

    /// The response's body, if one has been written.
    pub fn body(&self) -> (r: &Option<Vec<u8>>)
        ensures
            match r {
                Some(b) => self@.body == Some(b@),
                None => self@.body is None,
            },
    {
        &self.body
    }

    /// Writes a text body: the string's bytes become the body.
    pub fn write_body(&mut self, body: String) -> (r: ())
        ensures
            final(self)@ == (ResponseView { body: Some(vstd::utf8::encode_utf8(body@)), ..old(self)@ }),
    {
        let b = body.as_str().as_bytes_vec();
        self.body = Some(b);
    }

    /// Writes a raw byte body.
    pub fn write_raw_body(&mut self, body: Vec<u8>) -> (r: ())
        ensures
            final(self)@ == (ResponseView { body: Some(body@), ..old(self)@ }),
    {
        self.body = Some(body);
    }
}

} // verus!
