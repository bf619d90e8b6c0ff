//! The identity provider client: the CSRF token source, the two outbound
//! requests the middleware makes — the code-for-token exchange and the
//! identity lookup — and the reading of the token endpoint's answer.
use vstd::prelude::*;
use crate::api::OAuth2;
use crate::bytes::{bytes_of, str_to_bytes};
use crate::http::{Method, OutboundRequest, set_header, valid_header_value};
use crate::query::encoded_pairs;
use crate::requests::RequestBuilder;

verus! {

/// A byte of the URL-safe base64 alphabet.
pub open spec fn is_b64url_byte(b: u8) -> bool {
    (48 <= b <= 57) || (65 <= b <= 90) || (97 <= b <= 122) || b == 45 || b == 95
}

/// Relies on `oauth2::CsrfToken::new_random`: sixteen random bytes,
/// base64-url encoded without padding, so twenty-two bytes of the URL-safe
/// alphabet. The value is random; nothing relates one call to another.
#[verifier::external_body]
pub(crate) fn fresh_csrf_token() -> (r: Vec<u8>)
    ensures
        r@.len() == 22,
        forall|i: int| 0 <= i < r@.len() ==> is_b64url_byte(#[trigger] r@[i]),
{
    oauth2::CsrfToken::new_random().into_secret().into_bytes()
}

/// The string member named `key` of the JSON document `body`, when `body`
/// parses and its top level has one.
pub uninterp spec fn json_string_member_of(body: Seq<u8>, key: Seq<char>) -> Option<Seq<u8>>;

/// Relies on serde_json: `from_slice` parses the document, `Value::get` looks
/// the member up on the top-level object, `Value::as_str` reads it as a
/// string. The result is a function of the bytes and the key alone.
#[verifier::external_body]
fn json_string_member(body: &[u8], key: &str) -> (r: Option<Vec<u8>>)
    ensures
        r is Some <==> json_string_member_of(body@, key@) is Some,
        r matches Some(v) ==> json_string_member_of(body@, key@) == Some(v@),
{
    let doc: serde_json::Value = match serde_json::from_slice(body) {
        Ok(v) => v,
        Err(_) => return None,
    };
    let member = match doc.get(key) {
        Some(m) => m,
        None => return None,
    };
    member.as_str().map(|s| s.as_bytes().to_vec())
}

/// The bearer token in a token-endpoint answer: its `access_token` member.
pub open spec fn token_of_body(body: Seq<u8>) -> Option<Seq<u8>> {
    json_string_member_of(body, "access_token"@)
}

/// Reads the bearer token out of the token endpoint's response body.
pub fn access_token_of(body: &[u8]) -> (r: Option<Vec<u8>>)
    ensures
        r is Some <==> token_of_body(body@) is Some,
        r matches Some(v) ==> token_of_body(body@) == Some(v@),
{
    json_string_member(body, "access_token")
}

/// The form members of the code-for-token exchange.
pub open spec fn token_params(c: OAuth2, code: Seq<u8>) -> Seq<(Seq<u8>, Seq<u8>)> {
    seq![
        (bytes_of("grant_type"@), bytes_of("authorization_code"@)),
        (bytes_of("code"@), code),
        (bytes_of("redirect_uri"@), c.redirect_url@),
        (bytes_of("client_id"@), c.client_id@),
        (bytes_of("client_secret"@), c.client_secret@),
    ]
}

/// The headers of the exchange request.
pub open spec fn token_request_headers() -> Seq<(Seq<u8>, Seq<u8>)> {
    set_header(
        set_header(
            Seq::empty(),
            bytes_of("Content-Type"@),
            bytes_of("application/x-www-form-urlencoded"@),
        ),
        bytes_of("Accept"@),
        bytes_of("application/json"@),
    )
}

/// What the exchange request is: a `POST` of the form-encoded grant to the
/// token endpoint, asking for a JSON answer.
pub open spec fn is_token_request(r: OutboundRequest, c: OAuth2, code: Seq<u8>) -> bool {
    &&& r.method == Method::Post
    &&& r.url@ == c.token_url@
    &&& r.headers.deep_view() == token_request_headers()
    &&& r.body@ == encoded_pairs(token_params(c, code))
}

/// Builds the code-for-token exchange request: `grant_type`, `code`,
/// `redirect_uri`, `client_id` and `client_secret`, form-encoded in the body,
/// with the credentials in the body rather than in an `Authorization` header.
pub fn build_token_request(c: &OAuth2, code: &[u8]) -> (r: OutboundRequest)
    requires
        c.wf(),
    ensures
        is_token_request(r, *c, code@),
{
    proof {
        reveal_strlit("grant_type");
        reveal_strlit("authorization_code");
        reveal_strlit("code");
        reveal_strlit("redirect_uri");
        reveal_strlit("client_id");
        reveal_strlit("client_secret");
        reveal_strlit("Content-Type");
        reveal_strlit("application/x-www-form-urlencoded");
        reveal_strlit("Accept");
        reveal_strlit("application/json");
    }
    let mut pairs: Vec<(Vec<u8>, Vec<u8>)> = Vec::new();
    pairs.push((str_to_bytes("grant_type"), str_to_bytes("authorization_code")));
    pairs.push((str_to_bytes("code"), vstd::slice::slice_to_vec(code)));
    pairs.push((str_to_bytes("redirect_uri"), c.redirect_url.clone()));
    pairs.push((str_to_bytes("client_id"), c.client_id.clone()));
    pairs.push((str_to_bytes("client_secret"), c.client_secret.clone()));
    proof {
        assert(pairs.deep_view() =~~= token_params(*c, code@));
    }
    let body = crate::query::encode_query(&pairs);
    let builder = RequestBuilder::new(Method::Post, c.token_url.clone());
    let builder = match builder.with_header(
        str_to_bytes("Content-Type").as_slice(),
        str_to_bytes("application/x-www-form-urlencoded").as_slice(),
    ) {
        Ok(b) => b,
        Err(_) => {
            proof {
                assert(false);
            }
            RequestBuilder::new(Method::Post, Vec::new())
        },
    };
    let builder = match builder.with_header(
        str_to_bytes("Accept").as_slice(),
        str_to_bytes("application/json").as_slice(),
    ) {
        Ok(b) => b,
        Err(_) => {
            proof {
                assert(false);
            }
            RequestBuilder::new(Method::Post, Vec::new())
        },
    };
    builder.with_body(body).finish()
}

/// The fixed `User-Agent` the middleware identifies itself with.
pub open spec fn user_agent() -> Seq<u8> {
    bytes_of("auth-middleware"@)
}

/// The provider's identity endpoint.
pub open spec fn identity_url() -> Seq<u8> {
    bytes_of("https://api.github.com/user"@)
}

/// The headers of the identity lookup: the bearer token and the fixed agent.
pub open spec fn identity_request_headers(token: Seq<u8>) -> Seq<(Seq<u8>, Seq<u8>)> {
    set_header(
        set_header(Seq::empty(), bytes_of("Authorization"@), bytes_of("Bearer "@) + token),
        bytes_of("User-Agent"@),
        user_agent(),
    )
}

/// What the identity lookup is: a bodiless `GET` of the identity endpoint
/// carrying the token as a bearer credential.
pub open spec fn is_identity_request(r: OutboundRequest, token: Seq<u8>) -> bool {
    &&& r.method == Method::Get
    &&& r.url@ == identity_url()
    &&& r.headers.deep_view() == identity_request_headers(token)
    &&& r.body@ == Seq::<u8>::empty()
}

/// Builds the identity lookup for a token; a token that cannot ride in a
/// header is refused.
pub fn build_identity_request(token: &[u8]) -> (r: Option<OutboundRequest>)
    ensures
        match r {
            Some(req) => valid_header_value(token@) && is_identity_request(req, token@),
            None => !valid_header_value(token@),
        },
{
    proof {
        reveal_strlit("Authorization");
        reveal_strlit("Bearer ");
        reveal_strlit("User-Agent");
        reveal_strlit("auth-middleware");
        reveal_strlit("https://api.github.com/user");
    }
    let mut bearer = str_to_bytes("Bearer ");
    let mut tok = vstd::slice::slice_to_vec(token);
    bearer.append(&mut tok);
    proof {
        assert(bearer@ =~= bytes_of("Bearer "@) + token@);
    }
    if !crate::http::check_header_value(bearer.as_slice()) {
        proof {
            assert(exists|i: int|
                0 <= i < bearer@.len() && (bearer@[i] == 13 || bearer@[i] == 10 || bearer@[i]
                    == 0));
            let i = choose|i: int|
                0 <= i < bearer@.len() && (bearer@[i] == 13 || bearer@[i] == 10 || bearer@[i]
                    == 0);
            assert(forall|j: int|
                0 <= j < 7 ==> #[trigger] bytes_of("Bearer "@)[j] != 13 && bytes_of("Bearer "@)[j]
                    != 10 && bytes_of("Bearer "@)[j] != 0);
            assert(i >= 7);
            assert(token@[i - 7] == bearer@[i]);
            assert(!valid_header_value(token@));
        }
        return None;
    }
    proof {
        assert forall|i: int|
            0 <= i < token@.len() implies #[trigger] token@[i] != 13 && token@[i] != 10
            && token@[i] != 0 by {
            assert(bearer@[i + 7] == token@[i]);
        }
    }
    let builder = RequestBuilder::new(Method::Get, str_to_bytes("https://api.github.com/user"));
    let builder = match builder.with_header(
        str_to_bytes("Authorization").as_slice(),
        bearer.as_slice(),
    ) {
        Ok(b) => b,
        Err(_) => {
            proof {
                assert(false);
            }
            return None;
        },
    };
    let builder = match builder.with_header(
        str_to_bytes("User-Agent").as_slice(),
        str_to_bytes("auth-middleware").as_slice(),
    ) {
        Ok(b) => b,
        Err(_) => {
            proof {
                assert(false);
            }
            return None;
        },
    };
    Some(builder.finish())
}

} // verus!
