//! The `authorize` handler: starts the authorization-code grant by
//! redirecting the caller to the provider's authorization endpoint with a
//! fresh CSRF state.
use vstd::prelude::*;
use crate::api::OAuth2;
use crate::bytes::{bytes_of, str_to_bytes, lemma_find_byte_is};
use crate::http::{Response, set_header, valid_header_value};
use crate::percent::{pct_encode, lemma_pct_encode_bytes, lemma_pct_encode_injective};
use crate::provider::fresh_csrf_token;
use crate::query::{qpair, encoded_pairs, query_value, assoc, plain_key, lemma_query_roundtrip};
use crate::response::{ResponseBuilder, empty_response, internal_server_error};
use crate::urls::query_of;

verus! {

/// The query members of the authorization redirect, the CSRF state last.
pub open spec fn authorize_params(c: OAuth2, state: Seq<u8>) -> Seq<(Seq<u8>, Seq<u8>)> {
    seq![
        (bytes_of("response_type"@), bytes_of("code"@)),
        (bytes_of("client_id"@), c.client_id@),
        (bytes_of("redirect_uri"@), c.redirect_url@),
        (bytes_of("scope"@), bytes_of("user:email"@)),
        (bytes_of("state"@), state),
    ]
}

/// Where the authorization redirect points: the provider's authorization
/// endpoint with the encoded members as its query.
pub open spec fn authorize_location(c: OAuth2, state: Seq<u8>) -> Seq<u8> {
    c.auth_url@ + seq![63u8] + encoded_pairs(authorize_params(c, state))
}

/// Whether `r` is the authorization redirect for `c` and `state`: status
/// `301`, a lone `Location` header, an empty body.
pub open spec fn is_authorize_redirect(r: Response, c: OAuth2, state: Seq<u8>) -> bool {
    &&& r.status == 301
    &&& r.headers.deep_view() == set_header(
        Seq::empty(),
        bytes_of("Location"@),
        authorize_location(c, state),
    )
    &&& r.body@ == Seq::<u8>::empty()
}

/// The authorization location can ride in a `Location` header.
proof fn lemma_authorize_location_value_ok(c: OAuth2, state: Seq<u8>)
    requires
        c.wf(),
    ensures
        valid_header_value(authorize_location(c, state)),
{
    reveal_strlit("response_type");
    reveal_strlit("code");
    reveal_strlit("client_id");
    reveal_strlit("redirect_uri");
    reveal_strlit("scope");
    reveal_strlit("user:email");
    reveal_strlit("state");
    let ps = authorize_params(c, state);
    lemma_encoded_pairs_value_ok(ps);
    let loc = authorize_location(c, state);
    let ep = encoded_pairs(ps);
    assert forall|i: int| 0 <= i < loc.len() implies #[trigger] loc[i] != 13 && loc[i] != 10
        && loc[i] != 0 by {
        if i < c.auth_url@.len() {
            assert(loc[i] == c.auth_url@[i]);
        } else if i == c.auth_url@.len() {
        } else {
            assert(loc[i] == ep[i - c.auth_url@.len() - 1]);
        }
    }
}

/// A query built of header-safe keys is itself header-safe.
proof fn lemma_encoded_pairs_value_ok(ps: Seq<(Seq<u8>, Seq<u8>)>)
    requires
        forall|i: int| 0 <= i < ps.len() ==> valid_header_value(#[trigger] ps[i].0),
    ensures
        valid_header_value(encoded_pairs(ps)),
    decreases ps.len(),
{
    if ps.len() == 0 {
    } else {
        let qp = qpair(ps[0].0, ps[0].1);
        lemma_pct_encode_bytes(ps[0].1);
        assert forall|i: int| 0 <= i < qp.len() implies #[trigger] qp[i] != 13 && qp[i] != 10
            && qp[i] != 0 by {
            if i < ps[0].0.len() {
                assert(qp[i] == ps[0].0[i]);
            } else if i == ps[0].0.len() {
            } else {
                assert(qp[i] == pct_encode(ps[0].1)[i - ps[0].0.len() - 1]);
            }
        }
        if ps.len() == 1 {
        } else {
            assert(forall|i: int|
                0 <= i < ps.drop_first().len() ==> ps.drop_first()[i] == ps[i + 1]);
            lemma_encoded_pairs_value_ok(ps.drop_first());
            let ep = encoded_pairs(ps);
            let rest = encoded_pairs(ps.drop_first());
            assert forall|i: int| 0 <= i < ep.len() implies #[trigger] ep[i] != 13 && ep[i] != 10
                && ep[i] != 0 by {
                if i < qp.len() {
                    assert(ep[i] == qp[i]);
                } else if i == qp.len() {
                } else {
                    assert(ep[i] == rest[i - qp.len() - 1]);
                }
            }
        }
    }
}

/// Builds the authorization redirect for a given CSRF state.
pub fn authorize_redirect(c: &OAuth2, state: &[u8]) -> (r: Response)
    requires
        c.wf(),
    ensures
        is_authorize_redirect(r, *c, state@),
{
    proof {
        reveal_strlit("response_type");
        reveal_strlit("code");
        reveal_strlit("client_id");
        reveal_strlit("redirect_uri");
        reveal_strlit("scope");
        reveal_strlit("user:email");
        reveal_strlit("state");
        reveal_strlit("Location");
    }
    let mut pairs: Vec<(Vec<u8>, Vec<u8>)> = Vec::new();
    pairs.push((str_to_bytes("response_type"), str_to_bytes("code")));
    pairs.push((str_to_bytes("client_id"), c.client_id.clone()));
    pairs.push((str_to_bytes("redirect_uri"), c.redirect_url.clone()));
    pairs.push((str_to_bytes("scope"), str_to_bytes("user:email")));
    pairs.push((str_to_bytes("state"), vstd::slice::slice_to_vec(state)));
    proof {
        assert(pairs.deep_view() =~~= authorize_params(*c, state@));
    }
    let mut query = crate::query::encode_query(&pairs);
    let mut location = c.auth_url.clone();
    location.push(63);
    location.append(&mut query);
    proof {
        assert(location@ =~= authorize_location(*c, state@));
        lemma_authorize_location_value_ok(*c, state@);
    }
    let name = str_to_bytes("Location");
    match ResponseBuilder::new().with_status_code(301).with_binary_header(
        name.as_slice(),
        location.as_slice(),
    ) {
        Ok(b) => match b.empty() {
            Ok(resp) => resp,
            Err(_) => {
                proof {
                    assert(false);
                }
                internal_server_error()
            },
        },
        Err(_) => {
            proof {
                assert(false);
            }
            internal_server_error()
        },
    }
}

/// `authorize`: with a configuration at hand, answer a redirect to the
/// provider carrying a fresh CSRF state; without one, answer `500` with an
/// empty body.
pub fn authorize(config: Option<&OAuth2>) -> (r: Response)
    requires
        config matches Some(c) ==> c.wf(),
    ensures
        match config {
            None => empty_response(r, 500),
            Some(c) => exists|state: Seq<u8>|
                #[trigger] is_authorize_redirect(r, *c, state) && state.len() == 22,
        },
{
    match config {
        None => internal_server_error(),
        Some(c) => {
            let state = fresh_csrf_token();
            let r = authorize_redirect(c, state.as_slice());
            proof {
                assert(is_authorize_redirect(r, *c, state@) && state@.len() == 22);
            }
            r
        },
    }
}

/// Law: the query of the authorization location names the client, the
/// redirect URL and the state that went in, each readable back by the query
/// codec.
pub proof fn lemma_authorize_location_query(c: OAuth2, state: Seq<u8>)
    requires
        c.wf(),
    ensures
        query_of(authorize_location(c, state)) == encoded_pairs(authorize_params(c, state)),
        query_value(query_of(authorize_location(c, state)), bytes_of("client_id"@)) == Some(
            c.client_id@,
        ),
        query_value(query_of(authorize_location(c, state)), bytes_of("redirect_uri"@)) == Some(
            c.redirect_url@,
        ),
        query_value(query_of(authorize_location(c, state)), bytes_of("state"@)) == Some(state),
{
    reveal_strlit("response_type");
    reveal_strlit("code");
    reveal_strlit("client_id");
    reveal_strlit("redirect_uri");
    reveal_strlit("scope");
    reveal_strlit("user:email");
    reveal_strlit("state");
    let loc = authorize_location(c, state);
    let ep = encoded_pairs(authorize_params(c, state));
    let alen = c.auth_url@.len() as int;
    assert(loc[alen] == 63);
    assert(forall|j: int| 0 <= j < alen ==> loc[j] == c.auth_url@[j] && loc[j] != 63);
    lemma_find_byte_is(loc, 63, alen);
    assert(loc.skip(alen + 1) =~= ep);
    let ps = authorize_params(c, state);
    assert(forall|i: int| 0 <= i < ps.len() ==> plain_key(#[trigger] ps[i].0) && ps[i].0.len() > 0);
    let k_client = bytes_of("client_id"@);
    let k_redirect = bytes_of("redirect_uri"@);
    let k_state = bytes_of("state"@);
    lemma_query_roundtrip(ps, k_client);
    lemma_query_roundtrip(ps, k_redirect);
    lemma_query_roundtrip(ps, k_state);
    let t1 = ps.drop_first();
    let t2 = t1.drop_first();
    let t3 = t2.drop_first();
    let t4 = t3.drop_first();
    let t5 = t4.drop_first();
    assert(t1 =~= seq![
        (bytes_of("client_id"@), c.client_id@),
        (bytes_of("redirect_uri"@), c.redirect_url@),
        (bytes_of("scope"@), bytes_of("user:email"@)),
        (bytes_of("state"@), state),
    ]);
    assert(t2 =~= seq![
        (bytes_of("redirect_uri"@), c.redirect_url@),
        (bytes_of("scope"@), bytes_of("user:email"@)),
        (bytes_of("state"@), state),
    ]);
    assert(t3 =~= seq![(bytes_of("scope"@), bytes_of("user:email"@)), (bytes_of("state"@), state)]);
    assert(t4 =~= seq![(bytes_of("state"@), state)]);
    assert(t5 =~= Seq::<(Seq<u8>, Seq<u8>)>::empty());
    assert(ps[0].0 != k_client && ps[0].0 != k_redirect && ps[0].0 != k_state) by {
        assert(ps[0].0.len() == 13);
    }
    assert(t1[0].0 == k_client);
    assert(t1[0].0 != k_redirect && t1[0].0 != k_state) by {
        assert(t1[0].0.len() == 9);
    }
    assert(t2[0].0 == k_redirect);
    assert(t2[0].0 != k_state) by {
        assert(t2[0].0.len() == 12);
    }
    assert(t3[0].0 != k_client && t3[0].0 != k_redirect) by {
        assert(t3[0].0.len() == 5);
    }
    assert(t3[0].0 != k_state) by {
        assert(t3[0].0[1] == 99 && k_state[1] == 116);
    }
    assert(t4[0].0 == k_state);
    assert(assoc(ps, k_client) == assoc(t1, k_client));
    assert(assoc(t1, k_client) == Some(c.client_id@));
    assert(assoc(ps, k_redirect) == assoc(t1, k_redirect));
    assert(assoc(t1, k_redirect) == assoc(t2, k_redirect));
    assert(assoc(t2, k_redirect) == Some(c.redirect_url@));
    assert(assoc(ps, k_state) == assoc(t1, k_state));
    assert(assoc(t1, k_state) == assoc(t2, k_state));
    assert(assoc(t2, k_state) == assoc(t3, k_state));
    assert(assoc(t3, k_state) == assoc(t4, k_state));
    assert(assoc(t4, k_state) == Some(state));
}

/// Law: distinct CSRF states give distinct authorization locations — the
/// state is never lost in the encoding.
pub proof fn lemma_authorize_state_injective(c: OAuth2, s1: Seq<u8>, s2: Seq<u8>)
    requires
        s1 != s2,
    ensures
        authorize_location(c, s1) != authorize_location(c, s2),
{
    let pre = authorize_prefix(c);
    lemma_authorize_location_decomposed(c, s1);
    lemma_authorize_location_decomposed(c, s2);
    if authorize_location(c, s1) == authorize_location(c, s2) {
        assert((pre + pct_encode(s1)).skip(pre.len() as int) =~= pct_encode(s1));
        assert((pre + pct_encode(s2)).skip(pre.len() as int) =~= pct_encode(s2));
        lemma_pct_encode_injective(s1, s2);
    }
}

/// Everything in the authorization location that stands before the encoded
/// state.
pub open spec fn authorize_prefix(c: OAuth2) -> Seq<u8> {
    c.auth_url@ + seq![63u8] + qpair(bytes_of("response_type"@), bytes_of("code"@)) + seq![38u8]
        + qpair(bytes_of("client_id"@), c.client_id@) + seq![38u8] + qpair(
        bytes_of("redirect_uri"@),
        c.redirect_url@,
    ) + seq![38u8] + qpair(bytes_of("scope"@), bytes_of("user:email"@)) + seq![38u8] + bytes_of(
        "state"@,
    ) + seq![61u8]
}

/// The authorization location is the state-free prefix followed by the
/// encoded state.
proof fn lemma_authorize_location_decomposed(c: OAuth2, state: Seq<u8>)
    ensures
        authorize_location(c, state) == authorize_prefix(c) + pct_encode(state),
{
    let ps = authorize_params(c, state);
    let t1 = ps.drop_first();
    let t2 = t1.drop_first();
    let t3 = t2.drop_first();
    let t4 = t3.drop_first();
    assert(t1 =~= seq![
        (bytes_of("client_id"@), c.client_id@),
        (bytes_of("redirect_uri"@), c.redirect_url@),
        (bytes_of("scope"@), bytes_of("user:email"@)),
        (bytes_of("state"@), state),
    ]);
    assert(t2 =~= seq![
        (bytes_of("redirect_uri"@), c.redirect_url@),
        (bytes_of("scope"@), bytes_of("user:email"@)),
        (bytes_of("state"@), state),
    ]);
    assert(t3 =~= seq![(bytes_of("scope"@), bytes_of("user:email"@)), (bytes_of("state"@), state)]);
    assert(t4 =~= seq![(bytes_of("state"@), state)]);
    assert(encoded_pairs(ps) == qpair(bytes_of("response_type"@), bytes_of("code"@)) + seq![38u8]
        + encoded_pairs(t1));
    assert(encoded_pairs(t1) == qpair(bytes_of("client_id"@), c.client_id@) + seq![38u8]
        + encoded_pairs(t2));
    assert(encoded_pairs(t2) == qpair(bytes_of("redirect_uri"@), c.redirect_url@) + seq![38u8]
        + encoded_pairs(t3));
    assert(encoded_pairs(t3) == qpair(bytes_of("scope"@), bytes_of("user:email"@)) + seq![38u8]
        + encoded_pairs(t4));
    assert(encoded_pairs(t4) == qpair(bytes_of("state"@), state));
    assert(authorize_location(c, state) =~= authorize_prefix(c) + pct_encode(state));
}

} // verus!
