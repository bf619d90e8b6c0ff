//! The OAuth2 configuration the flow handlers run against, validated once
//! when it is built, and the four handlers themselves.
use vstd::prelude::*;
use crate::bytes::bytes_of;
use crate::http::valid_header_value;
use crate::urls::parse_abs_url;

pub mod authenticate;
pub mod authorize;
pub mod callback;
pub mod login;

verus! {

/// The provider's authorization endpoint.
pub open spec fn github_authorize_url() -> Seq<u8> {
    bytes_of("https://github.com/login/oauth/authorize"@)
}

/// The provider's token endpoint.
pub open spec fn github_token_url() -> Seq<u8> {
    bytes_of("https://github.com/login/oauth/access_token"@)
}

/// The client credentials and endpoints of the authorization-code grant.
pub struct OAuth2 {
    pub client_secret: Vec<u8>,
    pub client_id: Vec<u8>,
    pub auth_url: Vec<u8>,
    pub token_url: Vec<u8>,
    pub redirect_url: Vec<u8>,
}

/// An endpoint URL fit for building requests on: absolute, free of line
/// breaks, and without a query of its own.
pub open spec fn clean_endpoint(u: Seq<u8>) -> bool {
    &&& parse_abs_url(u) is Some
    &&& valid_header_value(u)
    &&& forall|i: int| 0 <= i < u.len() ==> #[trigger] u[i] != 63
}

/// Why a configuration was rejected.
#[derive(Clone, Copy, Debug, PartialEq, Eq, Structural)]
pub enum ConfigError {
    MissingClientId,
    MissingClientSecret,
    InvalidRedirectUrl,
}

impl OAuth2 {
    /// A configuration the handlers can rely on.
    pub open spec fn wf(&self) -> bool {
        &&& self.client_id@.len() > 0
        &&& self.client_secret@.len() > 0
        &&& clean_endpoint(self.auth_url@)
        &&& parse_abs_url(self.token_url@) is Some
        &&& parse_abs_url(self.redirect_url@) is Some
        &&& valid_header_value(self.redirect_url@)
    }

    /// Builds the configuration over the provider's fixed endpoints; the
    /// credentials must be non-empty and the redirect URL absolute.
    pub fn new(client_id: Vec<u8>, client_secret: Vec<u8>, redirect_url: Vec<u8>) -> (r: Result<
        OAuth2,
        ConfigError,
    >)
        ensures
            match r {
                Ok(c) => {
                    &&& c.wf()
                    &&& c.client_id@ == client_id@ && client_id@.len() > 0
                    &&& c.client_secret@ == client_secret@ && client_secret@.len() > 0
                    &&& c.auth_url@ == github_authorize_url()
                    &&& c.token_url@ == github_token_url()
                    &&& c.redirect_url@ == redirect_url@
                    &&& parse_abs_url(redirect_url@) is Some
                    &&& valid_header_value(redirect_url@)
                },
                Err(e) => match e {
                    ConfigError::MissingClientId => client_id@.len() == 0,
                    ConfigError::MissingClientSecret => client_id@.len() > 0
                        && client_secret@.len() == 0,
                    ConfigError::InvalidRedirectUrl => client_id@.len() > 0
                        && client_secret@.len() > 0 && !(parse_abs_url(redirect_url@) is Some
                        && valid_header_value(redirect_url@)),
                },
            },
    {
        if client_id.len() == 0 {
            return Err(ConfigError::MissingClientId);
        }
        if client_secret.len() == 0 {
            return Err(ConfigError::MissingClientSecret);
        }
        if !crate::urls::check_abs_url(redirect_url.as_slice()) || !crate::http::check_header_value(
            redirect_url.as_slice(),
        ) {
            return Err(ConfigError::InvalidRedirectUrl);
        }
        proof {
            reveal_strlit("https://github.com/login/oauth/authorize");
            reveal_strlit("https://github.com/login/oauth/access_token");
        }
        let auth_url = crate::bytes::str_to_bytes("https://github.com/login/oauth/authorize");
        let token_url = crate::bytes::str_to_bytes("https://github.com/login/oauth/access_token");
        proof {
            lemma_github_urls_wf();
        }
        Ok(OAuth2 { client_secret, client_id, auth_url, token_url, redirect_url })
    }
}

/// The provider's fixed endpoints are well-formed absolute URLs.
proof fn lemma_github_urls_wf()
    ensures
        clean_endpoint(github_authorize_url()),
        parse_abs_url(github_token_url()) is Some,
{
    reveal_strlit("https://github.com/login/oauth/authorize");
    reveal_strlit("https://github.com/login/oauth/access_token");
    reveal_strlit("https://");
    reveal_strlit("http://");
    let a = github_authorize_url();
    let t = github_token_url();
    assert(a.len() == 40);
    assert(!(a.take(7) == bytes_of("http://"@))) by {
        assert(a[4] == 115);
        assert(bytes_of("http://"@)[4] == 58);
        if a.take(7) == bytes_of("http://"@) {
            assert(a.take(7)[4] == a[4]);
        }
    }
    assert(a.take(8) =~= bytes_of("https://"@));
    let arest = a.skip(8);
    assert(arest[10] == 47 && forall|j: int| 0 <= j < 10 ==> arest[j] != 47);
    crate::bytes::lemma_find_byte_is(arest, 47, 10);
    assert(parse_abs_url(a) is Some);
    assert(valid_header_value(a));
    assert(forall|i: int| 0 <= i < a.len() ==> #[trigger] a[i] != 63);
    assert(t.len() == 43);
    assert(!(t.take(7) == bytes_of("http://"@))) by {
        assert(t[4] == 115);
        assert(bytes_of("http://"@)[4] == 58);
        if t.take(7) == bytes_of("http://"@) {
            assert(t.take(7)[4] == t[4]);
        }
    }
    assert(t.take(8) =~= bytes_of("https://"@));
    let trest = t.skip(8);
    assert(trest[10] == 47 && forall|j: int| 0 <= j < 10 ==> trest[j] != 47);
    crate::bytes::lemma_find_byte_is(trest, 47, 10);
    assert(parse_abs_url(t) is Some);
}

} // verus!
