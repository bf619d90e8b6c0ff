//! The `authenticate` handler: guards every request outside the login flow.
//! It lifts the bearer token out of the `Cookie` headers, asks the identity
//! provider whether the token is good, and either passes the request through
//! with its hop-by-hop headers stripped or refuses it.
use vstd::prelude::*;
use crate::bytes::{bytes_of, str_to_bytes, eq_ignore_case, eq_ignore_ascii_case, lower_all};
use crate::cookies::{cookie_in_header, token_cookie_name, cookie_param, cookie_safe,
    session_cookie, lemma_session_cookie_roundtrip};
use crate::http::{
    Request, Response, OutboundRequest, set_header, valid_header_value, stripped_headers,
    strip_hop_headers, header_values, has_header, remove_header, lemma_remove_header_gone,
    lemma_remove_header_keeps, bytes_of_connection, bytes_of_host,
};
use crate::provider::{build_identity_request, is_identity_request};
use crate::response::{
    ResponseBuilder, ErrorCode, empty_response, internal_server_error, forbidden,
};

verus! {

/// The name of the header cookies ride in.
pub open spec fn cookie_header_name() -> Seq<u8> {
    bytes_of("cookie"@)
}

/// The bearer token of a request: the `access-token` cookie of the first
/// `Cookie` header that has one, headers in order, names compared ignoring
/// case.
pub open spec fn extract_token(hs: Seq<(Seq<u8>, Seq<u8>)>) -> Option<Seq<u8>>
    decreases hs.len(),
{
    if hs.len() == 0 {
        None
    } else if eq_ignore_case(hs[0].0, cookie_header_name()) {
        match cookie_in_header(hs[0].1, token_cookie_name()) {
            Some(t) => Some(t),
            None => extract_token(hs.drop_first()),
        }
    } else {
        extract_token(hs.drop_first())
    }
}

/// Lifts the bearer token out of the request's `Cookie` headers.
pub fn get_access_token(req: &Request) -> (r: Option<Vec<u8>>)
    ensures
        match r {
            Some(t) => extract_token(req.headers.deep_view()) == Some(t@),
            None => extract_token(req.headers.deep_view()) is None,
        },
{
    proof {
        reveal_strlit("cookie");
        reveal_strlit("access-token");
    }
    let cname = str_to_bytes("cookie");
    let tname = str_to_bytes("access-token");
    let ghost hs = req.headers.deep_view();
    let mut idx: usize = 0;
    proof {
        assert(hs.skip(0) =~= hs);
    }
    while idx < req.headers.len()
        invariant
            idx <= req.headers@.len(),
            hs == req.headers.deep_view(),
            hs.len() == req.headers@.len(),
            cname@ == cookie_header_name(),
            tname@ == token_cookie_name(),
            forall|j: int|
                0 <= j < hs.len() ==> hs[j] == (req.headers@[j].0@, req.headers@[j].1@),
            extract_token(hs) == extract_token(hs.skip(idx as int)),
        decreases req.headers@.len() - idx,
    {
        proof {
            assert(hs.skip(idx as int)[0] == hs[idx as int]);
            assert(hs.skip(idx as int).drop_first() =~= hs.skip(idx + 1));
        }
        if eq_ignore_ascii_case(req.headers[idx].0.as_slice(), cname.as_slice()) {
            match cookie_param(req.headers[idx].1.as_slice(), tname.as_slice()) {
                Some(t) => {
                    proof {
                        assert(extract_token(hs.skip(idx as int)) == Some(t@));
                    }
                    return Some(t);
                },
                None => {
                    proof {
                        assert(extract_token(hs.skip(idx as int)) == extract_token(
                            hs.skip(idx + 1),
                        ));
                    }
                },
            }
        } else {
            proof {
                assert(extract_token(hs.skip(idx as int)) == extract_token(hs.skip(idx + 1)));
            }
        }
        idx = idx + 1;
    }
    proof {
        assert(hs.skip(idx as int).len() == 0);
        assert(extract_token(hs.skip(idx as int)) is None);
    }
    None
}

/// The fixed body of the refusal: a hint pointing at the login page.
pub open spec fn unauthorized_body() -> Seq<u8> {
    bytes_of("Unauthorized, <a href=\"/login\">login</a>"@)
}

/// Whether `r` is the refusal: `403`, `text/html`, the fixed hint body.
pub open spec fn is_unauthorized(r: Response) -> bool {
    &&& r.status == 403
    &&& r.headers.deep_view() == set_header(
        Seq::empty(),
        bytes_of("Content-Type"@),
        bytes_of("text/html"@),
    )
    &&& r.body@ == unauthorized_body()
}

/// The fixed refusal: `403` with the login hint.
pub fn unauthorized() -> (r: Result<Response, ErrorCode>)
    ensures
        r matches Ok(resp) && is_unauthorized(resp),
{
    proof {
        reveal_strlit("Content-Type");
        reveal_strlit("text/html");
        reveal_strlit("Unauthorized, <a href=\"/login\">login</a>");
    }
    let name = str_to_bytes("Content-Type");
    let value = str_to_bytes("text/html");
    let body = str_to_bytes("Unauthorized, <a href=\"/login\">login</a>");
    match ResponseBuilder::new().with_status_code(403).with_binary_header(
        name.as_slice(),
        value.as_slice(),
    ) {
        Ok(b) => {
            let r = b.binary(body);
            match r {
                Ok(resp) => Ok(resp),
                Err(e) => {
                    proof {
                        assert(false);
                    }
                    Err(e)
                },
            }
        },
        Err(e) => {
            proof {
                assert(false);
            }
            Err(e)
        },
    }
}

/// What the guard does before anything leaves the machine: refuse at once, or
/// hand the identity lookup to the transport.
pub enum AuthStep {
    Respond(Response),
    Validate(OutboundRequest),
}

/// `authenticate`, first half. A request without a token is refused with the
/// fixed hint, whatever else it carries; one with a token that no header can
/// hold is refused the same way; otherwise the step is the identity lookup
/// bearing the token.
pub fn authenticate(req: &Request) -> (r: AuthStep)
    ensures
        match extract_token(req.headers.deep_view()) {
            None => r matches AuthStep::Respond(resp) && is_unauthorized(resp),
            Some(t) => {
                if valid_header_value(t) {
                    r matches AuthStep::Validate(orq) && is_identity_request(orq, t)
                } else {
                    r matches AuthStep::Respond(resp) && is_unauthorized(resp)
                }
            },
        },
{
    let token = match get_access_token(req) {
        Some(t) => t,
        None => {
            let resp = match unauthorized() {
                Ok(resp) => resp,
                Err(_) => {
                    proof {
                        assert(false);
                    }
                    forbidden()
                },
            };
            return AuthStep::Respond(resp);
        },
    };
    match build_identity_request(token.as_slice()) {
        Some(orq) => AuthStep::Validate(orq),
        None => {
            let resp = match unauthorized() {
                Ok(resp) => resp,
                Err(_) => {
                    proof {
                        assert(false);
                    }
                    forbidden()
                },
            };
            AuthStep::Respond(resp)
        },
    }
}

/// Whether `f` is `req` passed through: the same request, its `connection`
/// and `host` headers dropped, everything else untouched.
pub open spec fn is_pass_through(f: Request, req: Request) -> bool {
    &&& f.scheme == req.scheme
    &&& f.authority.deep_view() == req.authority.deep_view()
    &&& f.path_with_query.deep_view() == req.path_with_query.deep_view()
    &&& f.headers.deep_view() == stripped_headers(req.headers.deep_view())
}

/// What the guard decides once the identity lookup has an outcome.
pub enum AuthDecision {
    Forward(Request),
    Respond(Response),
}

/// What `authenticate_outcome` promises: no outcome — the transport failed —
/// is `500` with an empty body; a `2xx` outcome forwards the request, passed
/// through; any other outcome is the fixed refusal.
pub open spec fn auth_decision_ok(req: Request, outcome: Option<u16>, r: AuthDecision) -> bool {
    match outcome {
        None => r matches AuthDecision::Respond(resp) && empty_response(resp, 500),
        Some(st) => {
            if 200 <= st < 300 {
                r matches AuthDecision::Forward(f) && is_pass_through(f, req)
            } else {
                r matches AuthDecision::Respond(resp) && is_unauthorized(resp)
            }
        },
    }
}

/// `authenticate`, second half: turns the identity lookup's outcome into the
/// decision.
pub fn authenticate_outcome(req: &Request, outcome: Option<u16>) -> (r: AuthDecision)
    ensures
        auth_decision_ok(*req, outcome, r),
{
    let st = match outcome {
        Some(st) => st,
        None => {
            return AuthDecision::Respond(internal_server_error());
        },
    };
    if 200 <= st && st < 300 {
        AuthDecision::Forward(strip_hop_headers(req))
    } else {
        let resp = match unauthorized() {
            Ok(resp) => resp,
            Err(_) => {
                proof {
                    assert(false);
                }
                forbidden()
            },
        };
        AuthDecision::Respond(resp)
    }
}

/// Law: the session round trip — a token the callback has stored in its
/// `Set-Cookie` header is exactly what this handler reads back when the
/// client returns that cookie in a `Cookie` header.
pub proof fn lemma_session_roundtrip(token: Seq<u8>)
    requires
        cookie_safe(token),
    ensures
        extract_token(seq![(cookie_header_name(), session_cookie(token))]) == Some(token),
{
    lemma_session_cookie_roundtrip(token);
    let hs = seq![(cookie_header_name(), session_cookie(token))];
    assert(hs[0].0 == cookie_header_name());
    assert(eq_ignore_case(hs[0].0, cookie_header_name()));
    assert(extract_token(hs) == Some(token));
}

/// Law: the request handed downstream carries no `connection` and no `host`
/// header, and every other header name keeps its values and their order.
pub proof fn lemma_pass_through_headers(hs: Seq<(Seq<u8>, Seq<u8>)>, other: Seq<u8>)
    ensures
        !has_header(stripped_headers(hs), bytes_of_connection()),
        !has_header(stripped_headers(hs), bytes_of_host()),
        !eq_ignore_case(other, bytes_of_connection()) && !eq_ignore_case(other, bytes_of_host())
            ==> header_values(stripped_headers(hs), other) == header_values(hs, other),
{
    reveal_strlit("connection");
    reveal_strlit("host");
    let conn = bytes_of_connection();
    let host = bytes_of_host();
    lemma_remove_header_gone(remove_header(hs, conn), host);
    assert(!eq_ignore_case(host, conn)) by {
        assert(lower_all(host).len() == 4);
        assert(lower_all(conn).len() == 10);
    }
    lemma_remove_header_keeps(remove_header(hs, conn), host, conn);
    lemma_remove_header_gone(hs, conn);
    if !eq_ignore_case(other, conn) && !eq_ignore_case(other, host) {
        lemma_remove_header_keeps(remove_header(hs, conn), host, other);
        lemma_remove_header_keeps(hs, conn, other);
    }
}

/// Law: validation is idempotent — two accepted lookups for the same request
/// yield the same pass-through, the guard holding no state between them.
pub proof fn lemma_validation_idempotent(
    req: Request,
    s1: u16,
    s2: u16,
    r1: AuthDecision,
    r2: AuthDecision,
)
    requires
        auth_decision_ok(req, Some(s1), r1),
        auth_decision_ok(req, Some(s2), r2),
        200 <= s1 < 300,
        200 <= s2 < 300,
    ensures
        r1 matches AuthDecision::Forward(f1) && r2 matches AuthDecision::Forward(f2) && f1.scheme
            == f2.scheme && f1.authority.deep_view() == f2.authority.deep_view()
            && f1.path_with_query.deep_view() == f2.path_with_query.deep_view()
            && f1.headers.deep_view() == f2.headers.deep_view(),
{
}

} // verus!
