//! The login page handler.
use vstd::prelude::*;
use crate::bytes::{bytes_of, str_to_bytes};
use crate::http::{Response, set_header};
use crate::response::ResponseBuilder;

verus! {

/// The headers of the login page response: `content-type: text/html` alone.
pub open spec fn login_headers() -> Seq<(Seq<u8>, Seq<u8>)> {
    set_header(Seq::empty(), bytes_of("content-type"@), bytes_of("text/html"@))
}

/// Serves the login page the caller supplies: `200 OK`, `text/html`, the page
/// as the body.
pub fn login(page: &[u8]) -> (r: Response)
    ensures
        r.status == 200,
        r.headers.deep_view() == login_headers(),
        r.body@ == page@,
{
    proof {
        reveal_strlit("content-type");
        reveal_strlit("text/html");
    }
    let name = str_to_bytes("content-type");
    let value = str_to_bytes("text/html");
    let built = ResponseBuilder::new().with_binary_header(name.as_slice(), value.as_slice());
    match built {
        Ok(b) => match b.binary(vstd::slice::slice_to_vec(page)) {
            Ok(resp) => resp,
            Err(_) => {
                proof {
                    assert(false);
                }
                crate::response::internal_server_error()
            },
        },
        Err(_) => {
            proof {
                assert(false);
            }
            crate::response::internal_server_error()
        },
    }
}

} // verus!
