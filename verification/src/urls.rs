//! The effective URL of a request — scheme, authority, path and query — and
//! the path-exact dispatch over it, together with a small reader for the
//! absolute URLs the configuration holds.
use vstd::prelude::*;
use crate::bytes::{bytes_of, find_byte, lemma_find_byte, position_of, eq_bytes, str_to_bytes};
use crate::http::{Request, Scheme};

verus! {

/// Why an effective URL could not be formed.
#[derive(Clone, Copy, Debug, PartialEq, Eq, Structural)]
pub enum UrlError {
    MissingAuthority,
}

/// A request's effective URL, reconstructed from its components: the scheme
/// defaults to `http` when absent, the authority must be present.
pub struct EffectiveUrl {
    pub scheme: Scheme,
    pub authority: Vec<u8>,
    pub path: Vec<u8>,
    pub query: Vec<u8>,
}

/// The scheme of a request, `http` when it carries none.
pub open spec fn scheme_or_default(s: Option<Scheme>) -> Scheme {
    match s {
        Some(s) => s,
        None => Scheme::Http,
    }
}

/// The path part of a path-with-query: everything before the first `?`, and
/// `/` when that is empty.
pub open spec fn path_of(pwq: Seq<u8>) -> Seq<u8> {
    let p = match find_byte(pwq, 63) {
        Some(i) => pwq.take(i),
        None => pwq,
    };
    if p.len() == 0 {
        seq![47u8]
    } else {
        p
    }
}

/// The query part of a path-with-query: everything after the first `?`.
pub open spec fn query_of(pwq: Seq<u8>) -> Seq<u8> {
    match find_byte(pwq, 63) {
        Some(i) => pwq.skip(i + 1),
        None => Seq::empty(),
    }
}

/// Forms the effective URL of a request; a missing or empty authority is a
/// hard request error.
pub fn effective_url(req: &Request) -> (r: Result<EffectiveUrl, UrlError>)
    ensures
        match r {
            Ok(u) => {
                &&& req.authority matches Some(a) && a@.len() > 0 && u.authority@ == a@
                &&& u.scheme == scheme_or_default(req.scheme)
                &&& match req.path_with_query {
                    Some(p) => u.path@ == path_of(p@) && u.query@ == query_of(p@),
                    None => u.path@ == seq![47u8] && u.query@ == Seq::<u8>::empty(),
                }
            },
            Err(e) => {
                &&& match req.authority {
                    Some(a) => a@.len() == 0,
                    None => true,
                }
                &&& e == UrlError::MissingAuthority
            },
        },
{
    let authority = match &req.authority {
        Some(a) => {
            if a.len() == 0 {
                return Err(UrlError::MissingAuthority);
            }
            a.clone()
        },
        None => {
            return Err(UrlError::MissingAuthority);
        },
    };
    let scheme = match req.scheme {
        Some(s) => s,
        None => Scheme::Http,
    };
    let (path, query): (Vec<u8>, Vec<u8>) = match &req.path_with_query {
        Some(p) => {
            match position_of(p.as_slice(), 63) {
                Some(i) => {
                    let n = p.len();
                    proof {
                        lemma_find_byte(p@, 63);
                        assert((i as int) < n as int);
                    }
                    let raw = vstd::slice::slice_to_vec(
                        vstd::slice::slice_subrange(p.as_slice(), 0, i),
                    );
                    let q = vstd::slice::slice_to_vec(
                        vstd::slice::slice_subrange(p.as_slice(), i + 1, n),
                    );
                    if raw.len() == 0 {
                        let mut root: Vec<u8> = Vec::new();
                        root.push(47);
                        proof {
                            assert(root@ =~= seq![47u8]);
                        }
                        (root, q)
                    } else {
                        (raw, q)
                    }
                },
                None => {
                    if p.len() == 0 {
                        let mut root: Vec<u8> = Vec::new();
                        root.push(47);
                        proof {
                            assert(root@ =~= seq![47u8]);
                        }
                        (root, Vec::new())
                    } else {
                        (p.clone(), Vec::new())
                    }
                },
            }
        },
        None => {
            let mut root: Vec<u8> = Vec::new();
            root.push(47);
            proof {
                assert(root@ =~= seq![47u8]);
            }
            (root, Vec::new())
        },
    };
    Ok(EffectiveUrl { scheme, authority, path, query })
}

/// Where a path leads.
#[derive(Clone, Copy, Debug, PartialEq, Eq, Structural)]
pub enum RouteTarget {
    Authorize,
    Callback,
    Login,
    Authenticate,
}

/// Path-exact dispatch: the three login paths each have their handler, every
/// other path goes through authentication.
pub open spec fn route_of(path: Seq<u8>) -> RouteTarget {
    if path == bytes_of("/login/authorize"@) {
        RouteTarget::Authorize
    } else if path == bytes_of("/login/callback"@) {
        RouteTarget::Callback
    } else if path == bytes_of("/login"@) {
        RouteTarget::Login
    } else {
        RouteTarget::Authenticate
    }
}

/// Dispatches on the effective URL's path, by exact match.
pub fn route(url: &EffectiveUrl) -> (r: RouteTarget)
    ensures
        r == route_of(url.path@),
{
    proof {
        reveal_strlit("/login/authorize");
        reveal_strlit("/login/callback");
        reveal_strlit("/login");
    }
    let authorize = str_to_bytes("/login/authorize");
    let callback = str_to_bytes("/login/callback");
    let login = str_to_bytes("/login");
    if eq_bytes(url.path.as_slice(), authorize.as_slice()) {
        RouteTarget::Authorize
    } else if eq_bytes(url.path.as_slice(), callback.as_slice()) {
        RouteTarget::Callback
    } else if eq_bytes(url.path.as_slice(), login.as_slice()) {
        RouteTarget::Login
    } else {
        RouteTarget::Authenticate
    }
}

/// The prefix an absolute URL of the given scheme starts with.
pub open spec fn scheme_prefix(s: Scheme) -> Seq<u8> {
    match s {
        Scheme::Http => bytes_of("http://"@),
        Scheme::Https => bytes_of("https://"@),
    }
}

/// Reads an absolute `http` or `https` URL as scheme, authority and the rest
/// starting at the path; the authority must be non-empty.
pub open spec fn parse_abs_url(u: Seq<u8>) -> Option<(Scheme, Seq<u8>, Seq<u8>)> {
    let parsed: Option<(Scheme, Seq<u8>)> = if u.len() >= 7 && u.take(7) == bytes_of("http://"@) {
        Some((Scheme::Http, u.skip(7)))
    } else if u.len() >= 8 && u.take(8) == bytes_of("https://"@) {
        Some((Scheme::Https, u.skip(8)))
    } else {
        None
    };
    match parsed {
        None => None,
        Some((s, rest)) => {
            let auth = match find_byte(rest, 47) {
                Some(i) => rest.take(i),
                None => rest,
            };
            let pwq = match find_byte(rest, 47) {
                Some(i) => rest.skip(i),
                None => Seq::empty(),
            };
            if auth.len() == 0 {
                None
            } else {
                Some((s, auth, pwq))
            }
        },
    }
}

/// The root of the site an absolute URL belongs to: scheme, authority and the
/// path `/`.
pub open spec fn site_root_of(u: Seq<u8>) -> Seq<u8> {
    match parse_abs_url(u) {
        Some((s, auth, _)) => scheme_prefix(s) + auth + seq![47u8],
        None => Seq::empty(),
    }
}

/// The site root of a header-safe absolute URL is itself header-safe.
pub proof fn lemma_site_root_value_ok(u: Seq<u8>)
    requires
        parse_abs_url(u) is Some,
        crate::http::valid_header_value(u),
    ensures
        crate::http::valid_header_value(site_root_of(u)),
{
    reveal_strlit("http://");
    reveal_strlit("https://");
    let (s, auth, _) = parse_abs_url(u)->Some_0;
    let rest = if s == Scheme::Http {
        u.skip(7)
    } else {
        u.skip(8)
    };
    lemma_find_byte(rest, 47);
    assert(forall|i: int| 0 <= i < auth.len() ==> auth[i] == rest[i]);
    let root = site_root_of(u);
    let plen = scheme_prefix(s).len() as int;
    assert forall|i: int| 0 <= i < root.len() implies #[trigger] root[i] != 13 && root[i] != 10
        && root[i] != 0 by {
        if i < plen {
            assert(root[i] == scheme_prefix(s)[i]);
        } else if i < plen + auth.len() {
            assert(root[i] == auth[i - plen]);
            assert(auth[i - plen] == rest[i - plen]);
        } else {
            assert(root[i] == 47);
        }
    }
}

/// Checks that `u` is an absolute `http` or `https` URL with an authority.
pub fn check_abs_url(u: &[u8]) -> (r: bool)
    ensures
        r == (parse_abs_url(u@) is Some),
{
    proof {
        reveal_strlit("http://");
        reveal_strlit("https://");
    }
    let http = str_to_bytes("http://");
    let https = str_to_bytes("https://");
    let rest_start: usize = if u.len() >= 7 && eq_bytes(
        vstd::slice::slice_subrange(u, 0, 7),
        http.as_slice(),
    ) {
        7
    } else if u.len() >= 8 && eq_bytes(vstd::slice::slice_subrange(u, 0, 8), https.as_slice()) {
        8
    } else {
        proof {
            if u@.len() >= 7 {
                assert(u@.subrange(0, 7) =~= u@.take(7));
            }
            if u@.len() >= 8 {
                assert(u@.subrange(0, 8) =~= u@.take(8));
            }
        }
        return false;
    };
    proof {
        assert(u@.subrange(0, 7) =~= u@.take(7));
        if u@.len() >= 8 {
            assert(u@.subrange(0, 8) =~= u@.take(8));
        }
        assert(bytes_of("http://"@) != bytes_of("https://"@));
    }
    let rest = vstd::slice::slice_subrange(u, rest_start, u.len());
    proof {
        assert(rest@ =~= u@.skip(rest_start as int));
        lemma_find_byte(rest@, 47);
    }
    match position_of(rest, 47) {
        Some(i) => i > 0,
        None => rest.len() > 0,
    }
}

/// The site root of a well-formed absolute URL.
pub fn site_root(u: &[u8]) -> (r: Vec<u8>)
    requires
        parse_abs_url(u@) is Some,
    ensures
        r@ == site_root_of(u@),
{
    proof {
        reveal_strlit("http://");
        reveal_strlit("https://");
    }
    let http = str_to_bytes("http://");
    let rest_start: usize = if u.len() >= 7 && eq_bytes(
        vstd::slice::slice_subrange(u, 0, 7),
        http.as_slice(),
    ) {
        7
    } else {
        8
    };
    proof {
        assert(u@.subrange(0, 7) =~= u@.take(7));
        if u@.len() >= 8 {
            assert(u@.subrange(0, 8) =~= u@.take(8));
        }
        assert(bytes_of("http://"@) != bytes_of("https://"@));
    }
    let rest = vstd::slice::slice_subrange(u, rest_start, u.len());
    proof {
        assert(rest@ =~= u@.skip(rest_start as int));
        lemma_find_byte(rest@, 47);
    }
    let auth_end: usize = match position_of(rest, 47) {
        Some(i) => i,
        None => rest.len(),
    };
    let mut r = vstd::slice::slice_to_vec(vstd::slice::slice_subrange(u, 0, rest_start));
    let mut auth = vstd::slice::slice_to_vec(vstd::slice::slice_subrange(rest, 0, auth_end));
    r.append(&mut auth);
    r.push(47);
    proof {
        let (s, a, _) = parse_abs_url(u@)->Some_0;
        assert(u@.subrange(0, rest_start as int) =~= scheme_prefix(s));
        assert(rest@.subrange(0, auth_end as int) =~= a);
        assert(r@ =~= scheme_prefix(s) + a + seq![47u8]);
    }
    r
}

} // verus!
