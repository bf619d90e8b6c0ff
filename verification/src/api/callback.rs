//! The `callback` handler: completes the authorization-code grant. It reads
//! `code` and `state` from the callback's query, hands the code-for-token
//! exchange request to the transport, and turns the provider's answer into
//! either the session-setting redirect or a terminal refusal.
use vstd::prelude::*;
use crate::api::OAuth2;
use crate::bytes::{bytes_of, str_to_bytes};
use crate::cookies::{session_cookie, session_cookie_bytes};
use crate::http::{
    Response, OutboundRequest, ProviderResponse, set_header, valid_header_value,
    check_header_value,
};
use crate::provider::{build_token_request, is_token_request, access_token_of, token_of_body};
use crate::query::query_value;
use crate::response::{ResponseBuilder, empty_response, forbidden, internal_server_error};
use crate::urls::{EffectiveUrl, site_root, site_root_of, lemma_site_root_value_ok};

verus! {

/// Why the callback's query was rejected; which parameter was missing is not
/// told apart, so that the answer leaks nothing.
#[derive(Clone, Copy, Debug, PartialEq, Eq, Structural)]
pub enum ParamError {
    MissingParameter,
}

/// A query parameter that is present and non-empty.
pub open spec fn param_of(q: Seq<u8>, key: Seq<u8>) -> Option<Seq<u8>> {
    match query_value(q, key) {
        Some(v) => if v.len() > 0 {
            Some(v)
        } else {
            None
        },
        None => None,
    }
}

/// Reads the authorization code and the CSRF state out of the callback's
/// query; each must be present and non-empty.
pub fn get_code_and_state_param(url: &EffectiveUrl) -> (r: Result<(Vec<u8>, Vec<u8>), ParamError>)
    ensures
        match r {
            Ok(p) => param_of(url.query@, bytes_of("code"@)) == Some(p.0@) && param_of(
                url.query@,
                bytes_of("state"@),
            ) == Some(p.1@),
            Err(e) => {
                &&& param_of(url.query@, bytes_of("code"@)) is None || param_of(
                    url.query@,
                    bytes_of("state"@),
                ) is None
                &&& e == ParamError::MissingParameter
            },
        },
{
    proof {
        reveal_strlit("code");
        reveal_strlit("state");
    }
    let state_key = str_to_bytes("state");
    let code_key = str_to_bytes("code");
    let state = match crate::query::query_param(url.query.as_slice(), state_key.as_slice()) {
        Some(v) => {
            if v.len() == 0 {
                return Err(ParamError::MissingParameter);
            }
            v
        },
        None => {
            return Err(ParamError::MissingParameter);
        },
    };
    let code = match crate::query::query_param(url.query.as_slice(), code_key.as_slice()) {
        Some(v) => {
            if v.len() == 0 {
                return Err(ParamError::MissingParameter);
            }
            v
        },
        None => {
            return Err(ParamError::MissingParameter);
        },
    };
    Ok((code, state))
}

/// What the callback does before anything leaves the machine: answer at once,
/// or hand the exchange request to the transport.
pub enum CallbackStep {
    Respond(Response),
    Exchange(OutboundRequest),
}

/// `callback`, first half: without a configuration, or with `code` or `state`
/// missing or empty, answer `500` with an empty body and stop; otherwise the
/// step is the code-for-token exchange.
pub fn callback(config: Option<&OAuth2>, url: &EffectiveUrl) -> (r: CallbackStep)
    requires
        config matches Some(c) ==> c.wf(),
    ensures
        match config {
            None => r matches CallbackStep::Respond(resp) && empty_response(resp, 500),
            Some(c) => {
                if param_of(url.query@, bytes_of("code"@)) is None || param_of(
                    url.query@,
                    bytes_of("state"@),
                ) is None {
                    r matches CallbackStep::Respond(resp) && empty_response(resp, 500)
                } else {
                    param_of(url.query@, bytes_of("code"@)) matches Some(code)
                        && r matches CallbackStep::Exchange(req) && is_token_request(req, *c, code)
                }
            },
        },
{
    let c = match config {
        Some(c) => c,
        None => {
            return CallbackStep::Respond(internal_server_error());
        },
    };
    match get_code_and_state_param(url) {
        Ok(p) => CallbackStep::Exchange(build_token_request(c, p.0.as_slice())),
        Err(_) => CallbackStep::Respond(internal_server_error()),
    }
}

/// The headers of the session-setting redirect.
pub open spec fn callback_success_headers(c: OAuth2, token: Seq<u8>) -> Seq<(Seq<u8>, Seq<u8>)> {
    set_header(
        set_header(
            set_header(Seq::empty(), bytes_of("Content-Type"@), bytes_of("text/plain"@)),
            bytes_of("Location"@),
            site_root_of(c.redirect_url@),
        ),
        bytes_of("Set-Cookie"@),
        session_cookie(token),
    )
}

/// Whether `r` is the session-setting redirect: `301` to the site root with
/// the session cookie set and an empty body.
pub open spec fn is_callback_success(r: Response, c: OAuth2, token: Seq<u8>) -> bool {
    &&& r.status == 301
    &&& r.headers.deep_view() == callback_success_headers(c, token)
    &&& r.body@ == Seq::<u8>::empty()
}

/// `callback`, second half: a `2xx` answer whose body carries an
/// `access_token` that fits in a cookie becomes the session-setting redirect;
/// every other outcome — transport failure, a refusing provider, a malformed
/// body — becomes `403` with an empty body and no cookie.
pub fn callback_complete(c: &OAuth2, outcome: Option<&ProviderResponse>) -> (r: Response)
    requires
        c.wf(),
    ensures
        match outcome {
            None => empty_response(r, 403),
            Some(p) => {
                if 200 <= p.status < 300 {
                    match token_of_body(p.body@) {
                        Some(token) => {
                            if valid_header_value(session_cookie(token)) {
                                is_callback_success(r, *c, token)
                            } else {
                                empty_response(r, 403)
                            }
                        },
                        None => empty_response(r, 403),
                    }
                } else {
                    empty_response(r, 403)
                }
            },
        },
{
    let p = match outcome {
        Some(p) => p,
        None => {
            return forbidden();
        },
    };
    if p.status < 200 || p.status >= 300 {
        return forbidden();
    }
    let token = match access_token_of(p.body.as_slice()) {
        Some(t) => t,
        None => {
            return forbidden();
        },
    };
    let cookie = session_cookie_bytes(token.as_slice());
    if !check_header_value(cookie.as_slice()) {
        return forbidden();
    }
    proof {
        reveal_strlit("Content-Type");
        reveal_strlit("text/plain");
        reveal_strlit("Location");
        reveal_strlit("Set-Cookie");
        lemma_site_root_value_ok(c.redirect_url@);
    }
    let ct_name = str_to_bytes("Content-Type");
    let ct_value = str_to_bytes("text/plain");
    let loc_name = str_to_bytes("Location");
    let sc_name = str_to_bytes("Set-Cookie");
    let root = site_root(c.redirect_url.as_slice());
    let b = ResponseBuilder::new().with_status_code(301);
    let b = match b.with_binary_header(ct_name.as_slice(), ct_value.as_slice()) {
        Ok(b) => b,
        Err(_) => {
            proof {
                assert(false);
            }
            return forbidden();
        },
    };
    let b = match b.with_binary_header(loc_name.as_slice(), root.as_slice()) {
        Ok(b) => b,
        Err(_) => {
            proof {
                assert(false);
            }
            return forbidden();
        },
    };
    let b = match b.with_binary_header(sc_name.as_slice(), cookie.as_slice()) {
        Ok(b) => b,
        Err(_) => {
            proof {
                assert(false);
            }
            return forbidden();
        },
    };
    match b.empty() {
        Ok(resp) => resp,
        Err(_) => {
            proof {
                assert(false);
            }
            forbidden()
        },
    }
}

} // verus!
