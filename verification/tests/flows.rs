use auth_middleware::api::{OAuth2, ConfigError};
use auth_middleware::api::authenticate::{
    authenticate, authenticate_outcome, get_access_token, unauthorized, AuthStep, AuthDecision,
};
use auth_middleware::api::authorize::authorize;
use auth_middleware::api::callback::{callback, callback_complete, get_code_and_state_param,
    CallbackStep, ParamError};
use auth_middleware::api::login::login;
use auth_middleware::http::{Request, Scheme, Method, ProviderResponse, get_headers};
use auth_middleware::urls::{EffectiveUrl, effective_url};
use auth_middleware::query::query_param;

fn config() -> OAuth2 {
    OAuth2::new(
        b"the-client".to_vec(),
        b"the-secret".to_vec(),
        b"http://127.0.0.1:3000/login/callback".to_vec(),
    )
    .ok()
    .unwrap()
}

fn callback_url(query: &[u8]) -> EffectiveUrl {
    EffectiveUrl {
        scheme: Scheme::Http,
        authority: b"127.0.0.1:3000".to_vec(),
        path: b"/login/callback".to_vec(),
        query: query.to_vec(),
    }
}

#[test]
fn config_validation() {
    assert!(config().client_id == b"the-client".to_vec());
    assert_eq!(
        OAuth2::new(Vec::new(), b"s".to_vec(), b"http://h/".to_vec()).err(),
        Some(ConfigError::MissingClientId)
    );
    assert_eq!(
        OAuth2::new(b"i".to_vec(), Vec::new(), b"http://h/".to_vec()).err(),
        Some(ConfigError::MissingClientSecret)
    );
    assert_eq!(
        OAuth2::new(b"i".to_vec(), b"s".to_vec(), b"notaurl".to_vec()).err(),
        Some(ConfigError::InvalidRedirectUrl)
    );
    assert_eq!(
        OAuth2::new(b"i".to_vec(), b"s".to_vec(), b"http:///nohost".to_vec()).err(),
        Some(ConfigError::InvalidRedirectUrl)
    );
}

#[test]
fn login_serves_the_supplied_page() {
    let page = b"<html><body>sign in</body></html>";
    let r = login(page);
    assert_eq!(r.status, 200);
    assert_eq!(r.headers, vec![(b"content-type".to_vec(), b"text/html".to_vec())]);
    assert_eq!(r.body, page.to_vec());
}

#[test]
fn authorize_without_config_is_a_bare_500() {
    let r = authorize(None);
    assert_eq!((r.status, r.headers.len(), r.body.len()), (500, 0, 0));
}

#[test]
fn authorize_redirects_with_the_grant_parameters() {
    let c = config();
    let r = authorize(Some(&c));
    assert_eq!(r.status, 301);
    assert_eq!(r.body, Vec::<u8>::new());
    assert_eq!(r.headers.len(), 1);
    assert_eq!(r.headers[0].0, b"Location".to_vec());
    let loc = &r.headers[0].1;
    let prefix = b"https://github.com/login/oauth/authorize?";
    assert_eq!(&loc[..prefix.len()], &prefix[..]);
    let query = &loc[prefix.len()..];
    assert_eq!(query_param(query, b"response_type"), Some(b"code".to_vec()));
    assert_eq!(query_param(query, b"client_id"), Some(b"the-client".to_vec()));
    assert_eq!(
        query_param(query, b"redirect_uri"),
        Some(b"http://127.0.0.1:3000/login/callback".to_vec())
    );
    assert_eq!(query_param(query, b"scope"), Some(b"user:email".to_vec()));
    let state = query_param(query, b"state").unwrap();
    assert!(!state.is_empty());
}

#[test]
fn authorize_states_differ_across_calls() {
    let c = config();
    let r1 = authorize(Some(&c));
    let r2 = authorize(Some(&c));
    let q1 = r1.headers[0].1.clone();
    let q2 = r2.headers[0].1.clone();
    let s1 = query_param(&q1[41..], b"state").unwrap();
    let s2 = query_param(&q2[41..], b"state").unwrap();
    assert!(!s1.is_empty() && !s2.is_empty());
    assert_ne!(s1, s2);
    assert_ne!(q1, q2);
}

#[test]
fn callback_params_must_be_present_and_non_empty() {
    assert!(get_code_and_state_param(&callback_url(b"code=a&state=b")).is_ok());
    let missing = vec![
        &b""[..],
        &b"state=b"[..],
        &b"code=a"[..],
        &b"code=&state=b"[..],
        &b"code=a&state="[..],
    ];
    for q in missing {
        assert_eq!(
            get_code_and_state_param(&callback_url(q)).err(),
            Some(ParamError::MissingParameter)
        );
    }
}

#[test]
fn callback_without_config_or_params_is_a_bare_500() {
    match callback(None, &callback_url(b"code=a&state=b")) {
        CallbackStep::Respond(r) => {
            assert_eq!((r.status, r.headers.len(), r.body.len()), (500, 0, 0));
        },
        CallbackStep::Exchange(_) => panic!("expected a response"),
    }
    let c = config();
    match callback(Some(&c), &callback_url(b"state=only")) {
        CallbackStep::Respond(r) => {
            assert_eq!((r.status, r.headers.len(), r.body.len()), (500, 0, 0));
        },
        CallbackStep::Exchange(_) => panic!("expected a response"),
    }
}

#[test]
fn callback_builds_the_exchange_request() {
    let c = config();
    match callback(Some(&c), &callback_url(b"code=the%20code&state=st")) {
        CallbackStep::Exchange(req) => {
            assert!(matches!(req.method, Method::Post));
            assert_eq!(req.url, b"https://github.com/login/oauth/access_token".to_vec());
            assert_eq!(
                req.headers,
                vec![
                    (
                        b"Content-Type".to_vec(),
                        b"application/x-www-form-urlencoded".to_vec(),
                    ),
                    (b"Accept".to_vec(), b"application/json".to_vec()),
                ]
            );
            assert_eq!(
                req.body,
                b"grant_type=authorization_code&code=the%20code&redirect_uri=http%3A%2F%2F127.0.0.1%3A3000%2Flogin%2Fcallback&client_id=the-client&client_secret=the-secret".to_vec()
            );
        },
        CallbackStep::Respond(_) => panic!("expected the exchange request"),
    }
}

#[test]
fn callback_success_sets_the_session_cookie() {
    let c = config();
    let answer = ProviderResponse {
        status: 200,
        body: b"{\"access_token\":\"abc123\",\"token_type\":\"bearer\"}".to_vec(),
    };
    let r = callback_complete(&c, Some(&answer));
    assert_eq!(r.status, 301);
    assert_eq!(r.body, Vec::<u8>::new());
    assert_eq!(
        r.headers,
        vec![
            (b"Content-Type".to_vec(), b"text/plain".to_vec()),
            (b"Location".to_vec(), b"http://127.0.0.1:3000/".to_vec()),
            (
                b"Set-Cookie".to_vec(),
                b"access-token=abc123; SameSite=Lax; HttpOnly; Path=/".to_vec(),
            ),
        ]
    );
}

#[test]
fn callback_refusal_sets_no_cookie() {
    let c = config();
    let refused = ProviderResponse { status: 400, body: b"{\"error\":\"bad_code\"}".to_vec() };
    let r = callback_complete(&c, Some(&refused));
    assert_eq!((r.status, r.headers.len(), r.body.len()), (403, 0, 0));
    let gone = callback_complete(&c, None);
    assert_eq!((gone.status, gone.headers.len(), gone.body.len()), (403, 0, 0));
    let malformed = ProviderResponse { status: 200, body: b"not json".to_vec() };
    let r2 = callback_complete(&c, Some(&malformed));
    assert_eq!((r2.status, r2.headers.len(), r2.body.len()), (403, 0, 0));
    let tokenless = ProviderResponse { status: 200, body: b"{\"token_type\":\"x\"}".to_vec() };
    let r3 = callback_complete(&c, Some(&tokenless));
    assert_eq!((r3.status, r3.headers.len(), r3.body.len()), (403, 0, 0));
}

fn protected_request(headers: Vec<(Vec<u8>, Vec<u8>)>) -> Request {
    Request {
        scheme: Some(Scheme::Http),
        authority: Some(b"127.0.0.1:3000".to_vec()),
        path_with_query: Some(b"/data?x=1".to_vec()),
        headers,
    }
}

#[test]
fn request_without_token_gets_the_fixed_hint() {
    let req = protected_request(vec![
        (b"Accept".to_vec(), b"*/*".to_vec()),
        (b"X-Whatever".to_vec(), b"yes".to_vec()),
        (b"cookie".to_vec(), b"other=1".to_vec()),
    ]);
    match authenticate(&req) {
        AuthStep::Respond(r) => {
            assert_eq!(r.status, 403);
            assert_eq!(r.headers, vec![(b"Content-Type".to_vec(), b"text/html".to_vec())]);
            assert_eq!(r.body, b"Unauthorized, <a href=\"/login\">login</a>".to_vec());
        },
        AuthStep::Validate(_) => panic!("expected a refusal"),
    }
}

#[test]
fn request_with_token_builds_the_identity_lookup() {
    let req = protected_request(vec![
        (b"Cookie".to_vec(), b"a=b; access-token=tok123".to_vec()),
    ]);
    assert_eq!(get_access_token(&req), Some(b"tok123".to_vec()));
    match authenticate(&req) {
        AuthStep::Validate(orq) => {
            assert!(matches!(orq.method, Method::Get));
            assert_eq!(orq.url, b"https://api.github.com/user".to_vec());
            assert_eq!(
                orq.headers,
                vec![
                    (b"Authorization".to_vec(), b"Bearer tok123".to_vec()),
                    (b"User-Agent".to_vec(), b"auth-middleware".to_vec()),
                ]
            );
            assert_eq!(orq.body, Vec::<u8>::new());
        },
        AuthStep::Respond(_) => panic!("expected the identity lookup"),
    }
}

#[test]
fn token_is_found_in_a_later_cookie_header() {
    let req = protected_request(vec![
        (b"cookie".to_vec(), b"first=1".to_vec()),
        (b"COOKIE".to_vec(), b"broken;; access-token=later".to_vec()),
    ]);
    assert_eq!(get_access_token(&req), Some(b"later".to_vec()));
}

#[test]
fn accepted_lookup_forwards_the_stripped_request() {
    let req = protected_request(vec![
        (b"Connection".to_vec(), b"keep-alive".to_vec()),
        (b"Host".to_vec(), b"127.0.0.1:3000".to_vec()),
        (b"Accept".to_vec(), b"*/*".to_vec()),
        (b"Cookie".to_vec(), b"access-token=tok".to_vec()),
    ]);
    match authenticate_outcome(&req, Some(200)) {
        AuthDecision::Forward(f) => {
            assert!(get_headers(&f.headers, b"connection").is_empty());
            assert!(get_headers(&f.headers, b"host").is_empty());
            assert_eq!(get_headers(&f.headers, b"accept"), vec![b"*/*".to_vec()]);
            assert_eq!(
                get_headers(&f.headers, b"cookie"),
                vec![b"access-token=tok".to_vec()]
            );
            assert_eq!(f.authority, req.authority);
            assert_eq!(f.path_with_query, req.path_with_query);
        },
        AuthDecision::Respond(_) => panic!("expected a pass-through"),
    }
}

#[test]
fn repeated_validation_passes_through_identically() {
    let req = protected_request(vec![
        (b"Cookie".to_vec(), b"access-token=tok".to_vec()),
        (b"Host".to_vec(), b"127.0.0.1:3000".to_vec()),
    ]);
    let first = authenticate(&req);
    let second = authenticate(&req);
    match (first, second) {
        (AuthStep::Validate(a), AuthStep::Validate(b)) => {
            assert_eq!(a.url, b.url);
            assert_eq!(a.headers, b.headers);
            assert_eq!(a.body, b.body);
        },
        _ => panic!("expected two identity lookups"),
    }
    let d1 = authenticate_outcome(&req, Some(200));
    let d2 = authenticate_outcome(&req, Some(204));
    match (d1, d2) {
        (AuthDecision::Forward(f1), AuthDecision::Forward(f2)) => {
            assert_eq!(f1.headers, f2.headers);
            assert_eq!(f1.authority, f2.authority);
            assert_eq!(f1.path_with_query, f2.path_with_query);
        },
        _ => panic!("expected two pass-throughs"),
    }
}

#[test]
fn refused_or_unreachable_lookup() {
    let req = protected_request(vec![(b"Cookie".to_vec(), b"access-token=bad".to_vec())]);
    match authenticate_outcome(&req, Some(401)) {
        AuthDecision::Respond(r) => {
            assert_eq!(r.status, 403);
            assert_eq!(r.body, b"Unauthorized, <a href=\"/login\">login</a>".to_vec());
        },
        AuthDecision::Forward(_) => panic!("expected a refusal"),
    }
    match authenticate_outcome(&req, None) {
        AuthDecision::Respond(r) => {
            assert_eq!((r.status, r.headers.len(), r.body.len()), (500, 0, 0));
        },
        AuthDecision::Forward(_) => panic!("expected a server error"),
    }
}

#[test]
fn issued_cookie_authenticates_on_the_next_request() {
    let c = config();
    let answer = ProviderResponse {
        status: 200,
        body: b"{\"access_token\":\"tok9\",\"token_type\":\"bearer\"}".to_vec(),
    };
    let issued = callback_complete(&c, Some(&answer));
    let set_cookie = issued
        .headers
        .iter()
        .find(|h| h.0 == b"Set-Cookie".to_vec())
        .map(|h| h.1.clone())
        .unwrap();
    let req = protected_request(vec![(b"Cookie".to_vec(), set_cookie)]);
    assert_eq!(get_access_token(&req), Some(b"tok9".to_vec()));
    match authenticate(&req) {
        AuthStep::Validate(orq) => {
            assert_eq!(
                get_headers(&orq.headers, b"authorization"),
                vec![b"Bearer tok9".to_vec()]
            );
        },
        AuthStep::Respond(_) => panic!("expected the identity lookup"),
    }
}

#[test]
fn unauthorized_is_the_fixed_refusal() {
    let r = unauthorized().unwrap();
    assert_eq!(r.status, 403);
    assert_eq!(r.body, b"Unauthorized, <a href=\"/login\">login</a>".to_vec());
}

#[test]
fn effective_url_feeds_the_callback() {
    let req = Request {
        scheme: None,
        authority: Some(b"127.0.0.1:3000".to_vec()),
        path_with_query: Some(b"/login/callback?code=c1&state=s1".to_vec()),
        headers: Vec::new(),
    };
    let u = effective_url(&req).ok().unwrap();
    let p = get_code_and_state_param(&u).ok().unwrap();
    assert_eq!(p.0, b"c1".to_vec());
    assert_eq!(p.1, b"s1".to_vec());
}
