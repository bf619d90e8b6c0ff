use auth_middleware::api::OAuth2;
use auth_middleware::api::authorize::authorize;
use auth_middleware::api::callback::callback_complete;
use auth_middleware::cookies::{session_cookie_bytes, cookie_param};
use auth_middleware::http::ProviderResponse;

#[test]
fn serialized_session_cookie_satisfies_the_cookie_crate() {
    let bytes = session_cookie_bytes(b"tok-42");
    let text = String::from_utf8(bytes).unwrap();
    let parsed = cookie::Cookie::parse(text.as_str()).unwrap();
    assert_eq!(parsed.name(), "access-token");
    assert_eq!(parsed.value(), "tok-42");
    assert_eq!(parsed.same_site(), Some(cookie::SameSite::Lax));
    assert_eq!(parsed.http_only(), Some(true));
    assert_eq!(parsed.path(), Some("/"));
}

#[test]
fn cookie_extraction_agrees_with_the_cookie_crate() {
    let header = "a=1; broken;; access-token=the-token; z=9";
    let mine = cookie_param(header.as_bytes(), b"access-token");
    let mut theirs: Option<String> = None;
    for c in cookie::Cookie::split_parse(header).flatten() {
        if c.name() == "access-token" && theirs.is_none() {
            theirs = Some(c.value().to_string());
        }
    }
    assert_eq!(mine, theirs.map(|s| s.into_bytes()));
}

#[test]
fn authorize_location_satisfies_the_url_crate() {
    let c = OAuth2::new(
        b"the-client".to_vec(),
        b"the-secret".to_vec(),
        b"http://127.0.0.1:3000/login/callback".to_vec(),
    )
    .ok()
    .unwrap();
    let r = authorize(Some(&c));
    let loc = String::from_utf8(r.headers[0].1.clone()).unwrap();
    let parsed = url::Url::parse(&loc).unwrap();
    assert_eq!(parsed.scheme(), "https");
    assert_eq!(parsed.host_str(), Some("github.com"));
    assert_eq!(parsed.path(), "/login/oauth/authorize");
    let pairs: Vec<(String, String)> = parsed
        .query_pairs()
        .map(|(k, v)| (k.into_owned(), v.into_owned()))
        .collect();
    assert!(pairs.contains(&("response_type".to_string(), "code".to_string())));
    assert!(pairs.contains(&("client_id".to_string(), "the-client".to_string())));
    assert!(pairs.contains(&(
        "redirect_uri".to_string(),
        "http://127.0.0.1:3000/login/callback".to_string(),
    )));
    assert!(pairs.contains(&("scope".to_string(), "user:email".to_string())));
    let state = pairs.iter().find(|p| p.0 == "state").map(|p| p.1.clone()).unwrap();
    assert!(!state.is_empty());
}

#[test]
fn token_answer_read_as_the_provider_writes_it() {
    let c = OAuth2::new(
        b"the-client".to_vec(),
        b"the-secret".to_vec(),
        b"http://127.0.0.1:3000/login/callback".to_vec(),
    )
    .ok()
    .unwrap();
    let mut body = String::new();
    body.push_str("{\"access_token\":\"gho_16C7e42F292c6912E7710c83\",");
    body.push_str("\"scope\":\"user:email\",\"token_type\":\"bearer\"}");
    let answer = ProviderResponse { status: 200, body: body.into_bytes() };
    let r = callback_complete(&c, Some(&answer));
    assert_eq!(r.status, 301);
    let set_cookie = r
        .headers
        .iter()
        .find(|h| h.0 == b"Set-Cookie".to_vec())
        .map(|h| h.1.clone())
        .unwrap();
    let parsed = cookie::Cookie::parse(String::from_utf8(set_cookie).unwrap()).unwrap();
    assert_eq!(parsed.value(), "gho_16C7e42F292c6912E7710c83");
}
