use auth_middleware::http::{
    Request, Scheme, Method, MethodError, SchemeError, strip_hop_headers, get_headers,
};
use auth_middleware::response::{
    ResponseBuilder, ErrorCode, HeaderError, header_error_code, forbidden, internal_server_error,
    temporary_redirect,
};
use auth_middleware::requests::RequestBuilder;
use auth_middleware::urls::{effective_url, route, EffectiveUrl, RouteTarget, UrlError, site_root};

#[test]
fn builder_collects_status_headers_and_body() {
    let resp = ResponseBuilder::new()
        .with_status_code(200)
        .with_binary_header(b"content-type", b"text/plain")
        .unwrap()
        .text("hello")
        .unwrap();
    assert_eq!(resp.status, 200);
    assert_eq!(resp.headers, vec![(b"content-type".to_vec(), b"text/plain".to_vec())]);
    assert_eq!(resp.body, b"hello".to_vec());
}

#[test]
fn builder_replaces_headers_of_the_same_name() {
    let resp = ResponseBuilder::new()
        .with_binary_header(b"X-One", b"a")
        .unwrap()
        .with_binary_header(b"x-one", b"b")
        .unwrap()
        .empty()
        .unwrap();
    assert_eq!(resp.headers, vec![(b"x-one".to_vec(), b"b".to_vec())]);
    assert_eq!(resp.body, Vec::<u8>::new());
}

#[test]
fn builder_refuses_bad_names_and_values() {
    assert!(ResponseBuilder::new().with_binary_header(b"bad name", b"v").is_err());
    assert!(ResponseBuilder::new().with_binary_header(b"", b"v").is_err());
    assert!(ResponseBuilder::new().with_binary_header(b"ok", b"line\r\nbreak").is_err());
    assert!(ResponseBuilder::new().with_header(b"ok", "with\nnewline").is_err());
}

#[test]
fn builder_refuses_bad_status_codes() {
    assert!(ResponseBuilder::new().with_status_code(99).empty().is_err());
    assert!(ResponseBuilder::new().with_status_code(600).empty().is_err());
    assert!(ResponseBuilder::new().with_status_code(599).empty().is_ok());
}

#[test]
fn header_error_code_carries_the_diagnostic() {
    let cases = vec![
        (HeaderError::InvalidSyntax, "Invalid header syntax"),
        (HeaderError::Forbidden, "Forbidden header"),
        (HeaderError::Immutable, "Attempted to modify immutable header"),
    ];
    for (e, msg) in cases {
        match header_error_code(e) {
            ErrorCode::InternalError(m) => assert_eq!(m.as_deref(), Some(msg)),
        }
    }
}

#[test]
fn canned_responses() {
    let f = forbidden();
    assert_eq!((f.status, f.headers.len(), f.body.len()), (403, 0, 0));
    let i = internal_server_error();
    assert_eq!((i.status, i.headers.len(), i.body.len()), (500, 0, 0));
    let t = temporary_redirect(b"http://example.test/").unwrap();
    assert_eq!(t.status, 307);
    assert_eq!(t.headers, vec![(b"Location".to_vec(), b"http://example.test/".to_vec())]);
    assert!(temporary_redirect(b"bad\nvalue").is_err());
}

#[test]
fn request_builder_collects_the_parts() {
    let r = RequestBuilder::new(Method::Post, b"http://t/".to_vec())
        .with_header(b"Accept", b"application/json")
        .unwrap()
        .with_body(b"payload".to_vec())
        .finish();
    assert!(matches!(r.method, Method::Post));
    assert_eq!(r.url, b"http://t/".to_vec());
    assert_eq!(r.headers, vec![(b"Accept".to_vec(), b"application/json".to_vec())]);
    assert_eq!(r.body, b"payload".to_vec());
    assert!(RequestBuilder::new(Method::Get, Vec::new()).with_header(b"no good", b"v").is_err());
}

#[test]
fn strip_hop_headers_drops_connection_and_host_only() {
    let req = Request {
        scheme: Some(Scheme::Https),
        authority: Some(b"example.test".to_vec()),
        path_with_query: Some(b"/data".to_vec()),
        headers: vec![
            (b"Connection".to_vec(), b"keep-alive".to_vec()),
            (b"Accept".to_vec(), b"*/*".to_vec()),
            (b"Host".to_vec(), b"example.test".to_vec()),
            (b"cookie".to_vec(), b"access-token=t".to_vec()),
        ],
    };
    let f = strip_hop_headers(&req);
    assert_eq!(
        f.headers,
        vec![
            (b"Accept".to_vec(), b"*/*".to_vec()),
            (b"cookie".to_vec(), b"access-token=t".to_vec()),
        ]
    );
    assert_eq!(f.authority, Some(b"example.test".to_vec()));
    assert_eq!(f.path_with_query, Some(b"/data".to_vec()));
    assert!(get_headers(&f.headers, b"connection").is_empty());
    assert!(get_headers(&f.headers, b"host").is_empty());
    assert_eq!(get_headers(&f.headers, b"ACCEPT"), vec![b"*/*".to_vec()]);
}

#[test]
fn effective_url_requires_an_authority() {
    let req = Request {
        scheme: None,
        authority: None,
        path_with_query: Some(b"/x".to_vec()),
        headers: Vec::new(),
    };
    assert_eq!(effective_url(&req).err(), Some(UrlError::MissingAuthority));
    let req2 = Request {
        scheme: None,
        authority: Some(Vec::new()),
        path_with_query: Some(b"/x".to_vec()),
        headers: Vec::new(),
    };
    assert_eq!(effective_url(&req2).err(), Some(UrlError::MissingAuthority));
}

#[test]
fn effective_url_splits_path_and_query() {
    let req = Request {
        scheme: None,
        authority: Some(b"h:3000".to_vec()),
        path_with_query: Some(b"/login/callback?code=a&state=b".to_vec()),
        headers: Vec::new(),
    };
    let u = effective_url(&req).ok().unwrap();
    assert!(matches!(u.scheme, Scheme::Http));
    assert_eq!(u.authority, b"h:3000".to_vec());
    assert_eq!(u.path, b"/login/callback".to_vec());
    assert_eq!(u.query, b"code=a&state=b".to_vec());
    let bare = Request {
        scheme: Some(Scheme::Https),
        authority: Some(b"h".to_vec()),
        path_with_query: None,
        headers: Vec::new(),
    };
    let u2 = effective_url(&bare).ok().unwrap();
    assert_eq!(u2.path, b"/".to_vec());
    assert_eq!(u2.query, Vec::<u8>::new());
}

#[test]
fn route_dispatches_on_the_exact_path() {
    let mk = |p: &[u8]| EffectiveUrl {
        scheme: Scheme::Http,
        authority: b"h".to_vec(),
        path: p.to_vec(),
        query: Vec::new(),
    };
    assert!(matches!(route(&mk(b"/login/authorize")), RouteTarget::Authorize));
    assert!(matches!(route(&mk(b"/login/callback")), RouteTarget::Callback));
    assert!(matches!(route(&mk(b"/login")), RouteTarget::Login));
    assert!(matches!(route(&mk(b"/login/")), RouteTarget::Authenticate));
    assert!(matches!(route(&mk(b"/")), RouteTarget::Authenticate));
    assert!(matches!(route(&mk(b"/anything")), RouteTarget::Authenticate));
}

#[test]
fn site_root_keeps_scheme_and_authority() {
    assert_eq!(site_root(b"http://127.0.0.1:3000/login/callback"), b"http://127.0.0.1:3000/".to_vec());
    assert_eq!(site_root(b"https://example.test"), b"https://example.test/".to_vec());
}

#[test]
fn method_and_scheme_names_are_a_closed_set() {
    assert!(matches!(Method::from_name(b"GET"), Ok(Method::Get)));
    assert!(matches!(Method::from_name(b"POST"), Ok(Method::Post)));
    assert!(matches!(Method::from_name(b"DELETE"), Err(MethodError::UnsupportedMethod)));
    assert!(matches!(Method::from_name(b"get"), Err(MethodError::UnsupportedMethod)));
    assert!(matches!(Scheme::from_name(b"http"), Ok(Scheme::Http)));
    assert!(matches!(Scheme::from_name(b"https"), Ok(Scheme::Https)));
    assert!(matches!(Scheme::from_name(b"ftp"), Err(SchemeError::UnsupportedScheme)));
}
