//! Building buffered responses: a status code, a header list filled through
//! checked setters, and a body. Also the canned responses the handlers fall
//! back to.
use vstd::prelude::*;
use crate::bytes::{bytes_of, str_to_bytes};
use crate::http::{
    Response, set_header, valid_header_name, valid_header_value, check_header_name,
    check_header_value, set_header_in,
};
use vstd::string::StringExecFns;
use vstd::string::StringSliceAdditionalSpecFns;
use vstd::string::StrSliceExecFns;

verus! {

/// The ways setting a header can fail.
#[derive(Clone, Copy, Debug, PartialEq, Eq, Structural)]
pub enum HeaderError {
    InvalidSyntax,
    Forbidden,
    Immutable,
}

/// A terminal error carried out of a handler.
#[derive(Debug)]
pub enum ErrorCode {
    InternalError(Option<String>),
}

/// The diagnostic text for a header error.
pub open spec fn header_error_message(e: HeaderError) -> Seq<char> {
    match e {
        HeaderError::InvalidSyntax => "Invalid header syntax"@,
        HeaderError::Forbidden => "Forbidden header"@,
        HeaderError::Immutable => "Attempted to modify immutable header"@,
    }
}

/// Whether an error code carries the given diagnostic text.
pub open spec fn is_internal_error(e: ErrorCode, msg: Seq<char>) -> bool {
    match e {
        ErrorCode::InternalError(m) => m is Some && m->0@ == msg,
    }
}

/// Maps a header error to the terminal error code a handler reports.
pub fn header_error_code(e: HeaderError) -> (r: ErrorCode)
    ensures
        is_internal_error(r, header_error_message(e)),
{
    let message: &str = match e {
        HeaderError::InvalidSyntax => "Invalid header syntax",
        HeaderError::Forbidden => "Forbidden header",
        HeaderError::Immutable => "Attempted to modify immutable header",
    };
    ErrorCode::InternalError(Some(String::from_str(message)))
}

/// A status code the response model accepts.
pub open spec fn valid_status(s: u16) -> bool {
    100 <= s <= 599
}

/// Collects a status code and headers, then closes them over a body.
pub struct ResponseBuilder {
    pub status_code: u16,
    pub headers: Vec<(Vec<u8>, Vec<u8>)>,
}

/// Whether a name/value pair may be set as a header.
pub open spec fn header_ok(name: Seq<u8>, value: Seq<u8>) -> bool {
    valid_header_name(name) && valid_header_value(value)
}

impl ResponseBuilder {
    /// A fresh builder: status `200`, no headers.
    pub fn new() -> (r: Self)
        ensures
            r.status_code == 200,
            r.headers.deep_view() == Seq::<(Seq<u8>, Seq<u8>)>::empty(),
    {
        let r = ResponseBuilder { status_code: 200, headers: Vec::new() };
        proof {
            assert(r.headers.deep_view() =~~= Seq::<(Seq<u8>, Seq<u8>)>::empty());
        }
        r
    }

    /// Replaces the status code.
    pub fn with_status_code(self, status_code: u16) -> (r: Self)
        ensures
            r.status_code == status_code,
            r.headers.deep_view() == self.headers.deep_view(),
    {
        ResponseBuilder { status_code, headers: self.headers }
    }

    /// Sets a text-valued header; the value's bytes are its characters.
    pub fn with_header(self, name: &[u8], value: &str) -> (r: Result<Self, ErrorCode>)
        ensures
            match r {
                Ok(b) => {
                    &&& header_ok(name@, value.spec_bytes())
                    &&& b.status_code == self.status_code
                    &&& b.headers.deep_view() == set_header(
                        self.headers.deep_view(),
                        name@,
                        value.spec_bytes(),
                    )
                },
                Err(e) => {
                    &&& !header_ok(name@, value.spec_bytes())
                    &&& is_internal_error(e, header_error_message(HeaderError::InvalidSyntax))
                },
            },
    {
        let bytes = value.as_bytes_vec();
        self.with_binary_header(name, bytes.as_slice())
    }

    /// Sets a header after checking that the name is a token and the value
    /// holds no line break.
    pub fn with_binary_header(self, name: &[u8], value: &[u8]) -> (r: Result<Self, ErrorCode>)
        ensures
            match r {
                Ok(b) => {
                    &&& header_ok(name@, value@)
                    &&& b.status_code == self.status_code
                    &&& b.headers.deep_view() == set_header(
                        self.headers.deep_view(),
                        name@,
                        value@,
                    )
                },
                Err(e) => {
                    &&& !header_ok(name@, value@)
                    &&& is_internal_error(e, header_error_message(HeaderError::InvalidSyntax))
                },
            },
    {
        if !check_header_name(name) || !check_header_value(value) {
            return Err(header_error_code(HeaderError::InvalidSyntax));
        }
        let headers = set_header_in(
            &self.headers,
            vstd::slice::slice_to_vec(name),
            vstd::slice::slice_to_vec(value),
        );
        Ok(ResponseBuilder { status_code: self.status_code, headers })
    }

    /// Closes the builder over an empty body.
    pub fn empty(self) -> (r: Result<Response, ErrorCode>)
        ensures
            match r {
                Ok(resp) => {
                    &&& valid_status(self.status_code)
                    &&& resp.status == self.status_code
                    &&& resp.headers.deep_view() == self.headers.deep_view()
                    &&& resp.body@ == Seq::<u8>::empty()
                },
                Err(e) => {
                    &&& !valid_status(self.status_code)
                    &&& is_internal_error(e, "Invalid status code"@)
                },
            },
    {
        self.binary(Vec::new())
    }

    /// Closes the builder over a text body; the body's bytes are its
    /// characters.
    pub fn text(self, body: &str) -> (r: Result<Response, ErrorCode>)
        ensures
            match r {
                Ok(resp) => {
                    &&& valid_status(self.status_code)
                    &&& resp.status == self.status_code
                    &&& resp.headers.deep_view() == self.headers.deep_view()
                    &&& resp.body@ == body.spec_bytes()
                },
                Err(e) => {
                    &&& !valid_status(self.status_code)
                    &&& is_internal_error(e, "Invalid status code"@)
                },
            },
    {
        self.binary(body.as_bytes_vec())
    }

    /// Closes the builder over a byte body.
    pub fn binary(self, body: Vec<u8>) -> (r: Result<Response, ErrorCode>)
        ensures
            match r {
                Ok(resp) => {
                    &&& valid_status(self.status_code)
                    &&& resp.status == self.status_code
                    &&& resp.headers.deep_view() == self.headers.deep_view()
                    &&& resp.body@ == body@
                },
                Err(e) => {
                    &&& !valid_status(self.status_code)
                    &&& is_internal_error(e, "Invalid status code"@)
                },
            },
    {
        if self.status_code < 100 || self.status_code > 599 {
            return Err(ErrorCode::InternalError(Some(String::from_str("Invalid status code"))));
        }
        Ok(Response { status: self.status_code, headers: self.headers, body })
    }
}

/// Whether a response has the given status, no headers and an empty body.
pub open spec fn empty_response(r: Response, status: u16) -> bool {
    r.status == status && r.headers.deep_view() == Seq::<(Seq<u8>, Seq<u8>)>::empty() && r.body@
        == Seq::<u8>::empty()
}

/// `403 Forbidden` with no message body.
pub fn forbidden() -> (r: Response)
    ensures
        empty_response(r, 403),
{
    let r = Response { status: 403, headers: Vec::new(), body: Vec::new() };
    proof {
        assert(r.headers.deep_view() =~~= Seq::<(Seq<u8>, Seq<u8>)>::empty());
    }
    r
}

/// `500 Internal Server Error` with no message body.
pub fn internal_server_error() -> (r: Response)
    ensures
        empty_response(r, 500),
{
    let r = Response { status: 500, headers: Vec::new(), body: Vec::new() };
    proof {
        assert(r.headers.deep_view() =~~= Seq::<(Seq<u8>, Seq<u8>)>::empty());
    }
    r
}

/// `307 Temporary Redirect` with no header other than `Location`.
pub fn temporary_redirect(location: &[u8]) -> (r: Result<Response, ErrorCode>)
    ensures
        match r {
            Ok(resp) => {
                &&& valid_header_value(location@)
                &&& resp.status == 307
                &&& resp.headers.deep_view() == set_header(
                    Seq::<(Seq<u8>, Seq<u8>)>::empty(),
                    bytes_of("Location"@),
                    location@,
                )
                &&& resp.body@ == Seq::<u8>::empty()
            },
            Err(_) => !valid_header_value(location@),
        },
{
    proof {
        reveal_strlit("Location");
    }
    let name = str_to_bytes("Location");
    match ResponseBuilder::new().with_status_code(307).with_binary_header(
        name.as_slice(),
        location,
    ) {
        Ok(b) => b.empty(),
        Err(e) => Err(e),
    }
}

} // verus!
