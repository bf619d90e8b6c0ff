//! Building outbound requests: the same checked header discipline as the
//! response side, closed over a method, a URL and a body.
use vstd::prelude::*;
use crate::http::{
    OutboundRequest, Method, set_header, check_header_name, check_header_value, set_header_in,
};
use crate::response::{ErrorCode, HeaderError, header_error_code, header_error_message,
    is_internal_error, header_ok};

verus! {

/// Collects the parts of an outbound request.
pub struct RequestBuilder {
    pub method: Method,
    pub url: Vec<u8>,
    pub headers: Vec<(Vec<u8>, Vec<u8>)>,
    pub body: Vec<u8>,
}

impl RequestBuilder {
    /// A fresh builder for the given method and URL: no headers, empty body.
    pub fn new(method: Method, url: Vec<u8>) -> (r: Self)
        ensures
            r.method == method,
            r.url@ == url@,
            r.headers.deep_view() == Seq::<(Seq<u8>, Seq<u8>)>::empty(),
            r.body@ == Seq::<u8>::empty(),
    {
        let r = RequestBuilder { method, url, headers: Vec::new(), body: Vec::new() };
        proof {
            assert(r.headers.deep_view() =~~= Seq::<(Seq<u8>, Seq<u8>)>::empty());
        }
        r
    }

    /// Sets a header after checking it.
    pub fn with_header(self, name: &[u8], value: &[u8]) -> (r: Result<Self, ErrorCode>)
        ensures
            match r {
                Ok(b) => {
                    &&& header_ok(name@, value@)
                    &&& b.method == self.method
                    &&& b.url@ == self.url@
                    &&& b.body@ == self.body@
                    &&& b.headers.deep_view() == set_header(
                        self.headers.deep_view(),
                        name@,
                        value@,
                    )
                },
                Err(e) => {
                    &&& !header_ok(name@, value@)
                    &&& is_internal_error(e, header_error_message(HeaderError::InvalidSyntax))
                },
            },
    {
        if !check_header_name(name) || !check_header_value(value) {
            return Err(header_error_code(HeaderError::InvalidSyntax));
        }
        let headers = set_header_in(
            &self.headers,
            vstd::slice::slice_to_vec(name),
            vstd::slice::slice_to_vec(value),
        );
        Ok(RequestBuilder { method: self.method, url: self.url, headers, body: self.body })
    }

    /// Replaces the body.
    pub fn with_body(self, body: Vec<u8>) -> (r: Self)
        ensures
            r.method == self.method,
            r.url@ == self.url@,
            r.headers.deep_view() == self.headers.deep_view(),
            r.body@ == body@,
    {
        RequestBuilder { method: self.method, url: self.url, headers: self.headers, body }
    }

    /// Closes the builder into an outbound request.
    pub fn finish(self) -> (r: OutboundRequest)
        ensures
            r.method == self.method,
            r.url@ == self.url@,
            r.headers.deep_view() == self.headers.deep_view(),
            r.body@ == self.body@,
    {
        OutboundRequest {
            method: self.method,
            url: self.url,
            headers: self.headers,
            body: self.body,
        }
    }
}

} // verus!
