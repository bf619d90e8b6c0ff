//! The HTTP object model the middleware works on: plain-value requests and
//! responses, header lists with multi-value, case-insensitive names, and the
//! validity rules a header must meet before it is set.
use vstd::prelude::*;
use crate::bytes::{bytes_of, eq_ignore_case, eq_ignore_ascii_case, str_to_bytes};

verus! {

/// The URL scheme of a request, a closed enumeration.
#[derive(Clone, Copy, Debug, PartialEq, Eq, Structural)]
pub enum Scheme {
    Http,
    Https,
}

/// The method of an outbound request the middleware itself makes.
#[derive(Clone, Copy, Debug, PartialEq, Eq, Structural)]
pub enum Method {
    Get,
    Post,
}

/// Why a method name was refused.
#[derive(Clone, Copy, Debug, PartialEq, Eq, Structural)]
pub enum MethodError {
    UnsupportedMethod,
}

/// Why a scheme name was refused.
#[derive(Clone, Copy, Debug, PartialEq, Eq, Structural)]
pub enum SchemeError {
    UnsupportedScheme,
}

impl Method {
    /// Reads a method name; anything outside `GET` and `POST` is refused
    /// rather than aborted on.
    pub fn from_name(name: &[u8]) -> (r: Result<Method, MethodError>)
        ensures
            match r {
                Ok(m) => (m == Method::Get && name@ == bytes_of("GET"@)) || (m == Method::Post
                    && name@ == bytes_of("POST"@)),
                Err(e) => name@ != bytes_of("GET"@) && name@ != bytes_of("POST"@) && e
                    == MethodError::UnsupportedMethod,
            },
    {
        proof {
            reveal_strlit("GET");
            reveal_strlit("POST");
        }
        let get = str_to_bytes("GET");
        let post = str_to_bytes("POST");
        if crate::bytes::eq_bytes(name, get.as_slice()) {
            Ok(Method::Get)
        } else if crate::bytes::eq_bytes(name, post.as_slice()) {
            Ok(Method::Post)
        } else {
            Err(MethodError::UnsupportedMethod)
        }
    }
}

impl Scheme {
    /// Reads a scheme name; anything outside `http` and `https` is refused
    /// rather than aborted on.
    pub fn from_name(name: &[u8]) -> (r: Result<Scheme, SchemeError>)
        ensures
            match r {
                Ok(s) => (s == Scheme::Http && name@ == bytes_of("http"@)) || (s == Scheme::Https
                    && name@ == bytes_of("https"@)),
                Err(e) => name@ != bytes_of("http"@) && name@ != bytes_of("https"@) && e
                    == SchemeError::UnsupportedScheme,
            },
    {
        proof {
            reveal_strlit("http");
            reveal_strlit("https");
        }
        let http = str_to_bytes("http");
        let https = str_to_bytes("https");
        if crate::bytes::eq_bytes(name, http.as_slice()) {
            Ok(Scheme::Http)
        } else if crate::bytes::eq_bytes(name, https.as_slice()) {
            Ok(Scheme::Https)
        } else {
            Err(SchemeError::UnsupportedScheme)
        }
    }
}

/// An incoming request, as the middleware sees it: URL components and
/// headers. The body never enters the guard's decision and stays with the
/// caller.
pub struct Request {
    pub scheme: Option<Scheme>,
    pub authority: Option<Vec<u8>>,
    pub path_with_query: Option<Vec<u8>>,
    pub headers: Vec<(Vec<u8>, Vec<u8>)>,
}

/// A buffered response.
pub struct Response {
    pub status: u16,
    pub headers: Vec<(Vec<u8>, Vec<u8>)>,
    pub body: Vec<u8>,
}

/// An outbound request to the identity provider.
pub struct OutboundRequest {
    pub method: Method,
    pub url: Vec<u8>,
    pub headers: Vec<(Vec<u8>, Vec<u8>)>,
    pub body: Vec<u8>,
}

/// What came back over the transport from the identity provider.
pub struct ProviderResponse {
    pub status: u16,
    pub body: Vec<u8>,
}

/// All values carried by headers of the given name, in header order; header
/// names compare ignoring ASCII case.
pub open spec fn header_values(hs: Seq<(Seq<u8>, Seq<u8>)>, name: Seq<u8>) -> Seq<Seq<u8>>
    decreases hs.len(),
{
    if hs.len() == 0 {
        Seq::empty()
    } else {
        header_values(hs.drop_last(), name) + if eq_ignore_case(hs.last().0, name) {
            seq![hs.last().1]
        } else {
            Seq::empty()
        }
    }
}

/// Whether a header of the given name is present.
pub open spec fn has_header(hs: Seq<(Seq<u8>, Seq<u8>)>, name: Seq<u8>) -> bool {
    header_values(hs, name).len() > 0
}

/// The header list without every header of the given name.
pub open spec fn remove_header(hs: Seq<(Seq<u8>, Seq<u8>)>, name: Seq<u8>) -> Seq<
    (Seq<u8>, Seq<u8>),
>
    decreases hs.len(),
{
    if hs.len() == 0 {
        Seq::empty()
    } else {
        remove_header(hs.drop_last(), name) + if eq_ignore_case(hs.last().0, name) {
            Seq::empty()
        } else {
            seq![hs.last()]
        }
    }
}

/// Replacing every header of a name with one value: the rest keeps its order,
/// the new header goes last.
pub open spec fn set_header(hs: Seq<(Seq<u8>, Seq<u8>)>, name: Seq<u8>, value: Seq<u8>) -> Seq<
    (Seq<u8>, Seq<u8>),
> {
    remove_header(hs, name).push((name, value))
}

/// Whether `b` may stand in a header name: the token characters of the HTTP
/// grammar.
pub open spec fn is_tchar(b: u8) -> bool {
    (48 <= b <= 57) || (65 <= b <= 90) || (97 <= b <= 122) || b == 33 || (35 <= b <= 39) || b == 42
        || b == 43 || b == 45 || b == 46 || b == 94 || b == 95 || b == 96 || b == 124 || b == 126
}

/// A well-formed header name: a non-empty token.
pub open spec fn valid_header_name(n: Seq<u8>) -> bool {
    n.len() > 0 && forall|i: int| 0 <= i < n.len() ==> is_tchar(#[trigger] n[i])
}

/// A well-formed header value: free of line breaks and the zero byte.
pub open spec fn valid_header_value(v: Seq<u8>) -> bool {
    forall|i: int| 0 <= i < v.len() ==> #[trigger] v[i] != 13 && v[i] != 10 && v[i] != 0
}

/// Checks a header name.
pub fn check_header_name(n: &[u8]) -> (r: bool)
    ensures
        r == valid_header_name(n@),
{
    if n.len() == 0 {
        return false;
    }
    let mut i: usize = 0;
    while i < n.len()
        invariant
            i <= n@.len(),
            forall|j: int| 0 <= j < i ==> is_tchar(#[trigger] n@[j]),
        decreases n@.len() - i,
    {
        let b = n[i];
        let ok = (48 <= b && b <= 57) || (65 <= b && b <= 90) || (97 <= b && b <= 122) || b == 33
            || (35 <= b && b <= 39) || b == 42 || b == 43 || b == 45 || b == 46 || b == 94 || b
            == 95 || b == 96 || b == 124 || b == 126;
        if !ok {
            return false;
        }
        i = i + 1;
    }
    true
}

/// Checks a header value.
pub fn check_header_value(v: &[u8]) -> (r: bool)
    ensures
        r == valid_header_value(v@),
{
    let mut i: usize = 0;
    while i < v.len()
        invariant
            i <= v@.len(),
            forall|j: int| 0 <= j < i ==> #[trigger] v@[j] != 13 && v@[j] != 10 && v@[j] != 0,
        decreases v@.len() - i,
    {
        let b = v[i];
        if b == 13 || b == 10 || b == 0 {
            return false;
        }
        i = i + 1;
    }
    true
}

/// Replaces every header called `name` with the one given value, at the end
/// of the list.
pub fn set_header_in(
    hs: &Vec<(Vec<u8>, Vec<u8>)>,
    name: Vec<u8>,
    value: Vec<u8>,
) -> (r: Vec<(Vec<u8>, Vec<u8>)>)
    ensures
        r.deep_view() == set_header(hs.deep_view(), name@, value@),
{
    let mut r = remove_header_in(hs, name.as_slice());
    let ghost removed = r.deep_view();
    r.push((name, value));
    proof {
        assert(r.deep_view() =~~= removed.push((name@, value@)));
    }
    r
}

/// Drops every header called `name` from the list.
pub fn remove_header_in(hs: &Vec<(Vec<u8>, Vec<u8>)>, name: &[u8]) -> (r: Vec<(Vec<u8>, Vec<u8>)>)
    ensures
        r.deep_view() == remove_header(hs.deep_view(), name@),
{
    let ghost dv = hs.deep_view();
    let mut r: Vec<(Vec<u8>, Vec<u8>)> = Vec::new();
    let mut i: usize = 0;
    proof {
        assert(dv.take(0) =~= Seq::<(Seq<u8>, Seq<u8>)>::empty());
        assert(r.deep_view() =~~= remove_header(dv.take(0), name@));
    }
    while i < hs.len()
        invariant
            i <= hs@.len(),
            dv == hs.deep_view(),
            dv.len() == hs@.len(),
            forall|j: int| 0 <= j < dv.len() ==> dv[j] == (hs@[j].0@, hs@[j].1@),
            r.deep_view() == remove_header(dv.take(i as int), name@),
        decreases hs@.len() - i,
    {
        let ghost prev = r.deep_view();
        proof {
            assert(dv.take(i + 1).drop_last() =~= dv.take(i as int));
            assert(dv.take(i + 1).last() == dv[i as int]);
        }
        if !eq_ignore_ascii_case(hs[i].0.as_slice(), name) {
            let pair = (hs[i].0.clone(), hs[i].1.clone());
            r.push(pair);
            proof {
                assert(r.deep_view() =~~= prev + seq![dv[i as int]]);
                assert(r.deep_view() =~~= remove_header(dv.take(i + 1), name@));
            }
        } else {
            proof {
                assert(prev + Seq::<(Seq<u8>, Seq<u8>)>::empty() =~~= prev);
                assert(r.deep_view() =~~= remove_header(dv.take(i + 1), name@));
            }
        }
        i = i + 1;
    }
    proof {
        assert(dv.take(dv.len() as int) =~= dv);
    }
    r
}

/// All values of the headers called `name`, in order.
pub fn get_headers(hs: &Vec<(Vec<u8>, Vec<u8>)>, name: &[u8]) -> (r: Vec<Vec<u8>>)
    ensures
        r.deep_view() == header_values(hs.deep_view(), name@),
{
    let ghost dv = hs.deep_view();
    let mut r: Vec<Vec<u8>> = Vec::new();
    let mut i: usize = 0;
    proof {
        assert(dv.take(0) =~= Seq::<(Seq<u8>, Seq<u8>)>::empty());
        assert(r.deep_view() =~~= header_values(dv.take(0), name@));
    }
    while i < hs.len()
        invariant
            i <= hs@.len(),
            dv == hs.deep_view(),
            dv.len() == hs@.len(),
            forall|j: int| 0 <= j < dv.len() ==> dv[j] == (hs@[j].0@, hs@[j].1@),
            r.deep_view() == header_values(dv.take(i as int), name@),
        decreases hs@.len() - i,
    {
        let ghost prev = r.deep_view();
        proof {
            assert(dv.take(i + 1).drop_last() =~= dv.take(i as int));
            assert(dv.take(i + 1).last() == dv[i as int]);
        }
        if eq_ignore_ascii_case(hs[i].0.as_slice(), name) {
            r.push(hs[i].1.clone());
            proof {
                assert(r.deep_view() =~~= prev + seq![dv[i as int].1]);
                assert(r.deep_view() =~~= header_values(dv.take(i + 1), name@));
            }
        } else {
            proof {
                assert(prev + Seq::<Seq<u8>>::empty() =~~= prev);
                assert(r.deep_view() =~~= header_values(dv.take(i + 1), name@));
            }
        }
        i = i + 1;
    }
    proof {
        assert(dv.take(dv.len() as int) =~= dv);
    }
    r
}

/// Removing a name leaves no header of that name.
pub proof fn lemma_remove_header_gone(hs: Seq<(Seq<u8>, Seq<u8>)>, name: Seq<u8>)
    ensures
        header_values(remove_header(hs, name), name) =~= Seq::<Seq<u8>>::empty(),
    decreases hs.len(),
{
    if hs.len() > 0 {
        lemma_remove_header_gone(hs.drop_last(), name);
        let r = remove_header(hs, name);
        if eq_ignore_case(hs.last().0, name) {
            assert(r =~= remove_header(hs.drop_last(), name));
        } else {
            assert(r.drop_last() =~= remove_header(hs.drop_last(), name));
            assert(r.last() == hs.last());
        }
    }
}

/// Removing one name leaves the values of every other name as they were.
pub proof fn lemma_remove_header_keeps(hs: Seq<(Seq<u8>, Seq<u8>)>, name: Seq<u8>, other: Seq<u8>)
    requires
        !eq_ignore_case(name, other),
    ensures
        header_values(remove_header(hs, name), other) =~= header_values(hs, other),
    decreases hs.len(),
{
    if hs.len() > 0 {
        lemma_remove_header_keeps(hs.drop_last(), name, other);
        let r = remove_header(hs, name);
        if eq_ignore_case(hs.last().0, name) {
            assert(!eq_ignore_case(hs.last().0, other));
            assert(r =~= remove_header(hs.drop_last(), name));
        } else {
            assert(r.drop_last() =~= remove_header(hs.drop_last(), name));
            assert(r.last() == hs.last());
        }
    }
}

/// The hop-by-hop headers stripped before a request is passed through.
pub open spec fn stripped_headers(hs: Seq<(Seq<u8>, Seq<u8>)>) -> Seq<(Seq<u8>, Seq<u8>)> {
    remove_header(remove_header(hs, bytes_of_connection()), bytes_of_host())
}

/// The bytes of the `connection` header name.
pub open spec fn bytes_of_connection() -> Seq<u8> {
    crate::bytes::bytes_of("connection"@)
}

/// The bytes of the `host` header name.
pub open spec fn bytes_of_host() -> Seq<u8> {
    crate::bytes::bytes_of("host"@)
}

/// The request as it is handed to the downstream handler: the same request
/// with its `connection` and `host` headers removed.
pub fn strip_hop_headers(req: &Request) -> (r: Request)
    ensures
        r.scheme == req.scheme,
        r.authority.deep_view() == req.authority.deep_view(),
        r.path_with_query.deep_view() == req.path_with_query.deep_view(),
        r.headers.deep_view() == stripped_headers(req.headers.deep_view()),
{
    proof {
        reveal_strlit("connection");
        reveal_strlit("host");
    }
    let connection = str_to_bytes("connection");
    let host = str_to_bytes("host");
    let h1 = remove_header_in(&req.headers, connection.as_slice());
    let h2 = remove_header_in(&h1, host.as_slice());
    let authority = match &req.authority {
        Some(a) => Some(a.clone()),
        None => None,
    };
    let path_with_query = match &req.path_with_query {
        Some(p) => Some(p.clone()),
        None => None,
    };
    Request { scheme: req.scheme, authority, path_with_query, headers: h2 }
}

} // verus!
