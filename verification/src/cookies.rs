//! The cookie codec: serializing the session cookie that carries the bearer
//! token, and reading a named cookie back out of a `Cookie` header, skipping
//! fragments that are not well-formed cookie pairs.
use vstd::prelude::*;
use crate::bytes::{
    bytes_of, split_on, find_byte, trim, is_ws, lemma_split_on_concat, lemma_find_byte,
    lemma_find_byte_is, split_bytes, position_of, trim_bytes, eq_bytes, str_to_bytes,
};

verus! {

/// The name of the session cookie.
pub open spec fn token_cookie_name() -> Seq<u8> {
    bytes_of("access-token"@)
}

/// The attributes appended to the session cookie, after its own `name=value`
/// pair and a `;`.
pub open spec fn session_cookie_attrs() -> Seq<u8> {
    bytes_of(" SameSite=Lax; HttpOnly; Path=/"@)
}

/// The serialized session cookie holding `token`:
/// `access-token=<token>; SameSite=Lax; HttpOnly; Path=/`.
pub open spec fn session_cookie(token: Seq<u8>) -> Seq<u8> {
    token_cookie_name() + seq![61u8] + token + seq![59u8] + session_cookie_attrs()
}

/// A token that can ride in a cookie pair and be read back: none of its bytes
/// is a `;`, a space or a tab.
pub open spec fn cookie_safe(token: Seq<u8>) -> bool {
    forall|i: int| 0 <= i < token.len() ==> token[i] != 59 && !is_ws(#[trigger] token[i])
}

/// A cookie-header fragment read as a pair: name and value stand around the
/// first `=`, each trimmed of surrounding whitespace. A fragment without `=`
/// or with an empty name is malformed and is no pair.
pub open spec fn parse_cookie_pair(f: Seq<u8>) -> Option<(Seq<u8>, Seq<u8>)> {
    match find_byte(f, 61) {
        None => None,
        Some(i) => {
            let name = trim(f.take(i));
            let value = trim(f.skip(i + 1));
            if name.len() == 0 {
                None
            } else {
                Some((name, value))
            }
        },
    }
}

/// The value of the first well-formed fragment whose name is `name`.
pub open spec fn cookie_lookup(frags: Seq<Seq<u8>>, name: Seq<u8>) -> Option<Seq<u8>>
    decreases frags.len(),
{
    if frags.len() == 0 {
        None
    } else {
        match parse_cookie_pair(frags[0]) {
            Some(p) => if p.0 == name {
                Some(p.1)
            } else {
                cookie_lookup(frags.drop_first(), name)
            },
            None => cookie_lookup(frags.drop_first(), name),
        }
    }
}

/// The value of the cookie called `name` in one `Cookie` header value.
pub open spec fn cookie_in_header(h: Seq<u8>, name: Seq<u8>) -> Option<Seq<u8>> {
    cookie_lookup(split_on(h, 59), name)
}

/// Serializes the session cookie for `token`.
pub fn session_cookie_bytes(token: &[u8]) -> (r: Vec<u8>)
    ensures
        r@ == session_cookie(token@),
{
    proof {
        reveal_strlit("access-token");
        reveal_strlit(" SameSite=Lax; HttpOnly; Path=/");
    }
    let mut r = str_to_bytes("access-token");
    r.push(61);
    let mut t = vstd::slice::slice_to_vec(token);
    r.append(&mut t);
    r.push(59);
    let mut attrs = str_to_bytes(" SameSite=Lax; HttpOnly; Path=/");
    r.append(&mut attrs);
    proof {
        assert(r@ =~= session_cookie(token@));
    }
    r
}

/// Looks the cookie called `name` up in one `Cookie` header value.
pub fn cookie_param(h: &[u8], name: &[u8]) -> (r: Option<Vec<u8>>)
    ensures
        match r {
            Some(v) => cookie_in_header(h@, name@) == Some(v@),
            None => cookie_in_header(h@, name@) is None,
        },
{
    let frags = split_bytes(h, 59);
    let ghost fs = split_on(h@, 59);
    let mut idx: usize = 0;
    proof {
        assert(fs.skip(0) =~= fs);
    }
    while idx < frags.len()
        invariant
            idx <= frags@.len(),
            fs == split_on(h@, 59),
            frags.deep_view() == fs,
            fs.len() == frags@.len(),
            cookie_lookup(fs, name@) == cookie_lookup(fs.skip(idx as int), name@),
        decreases frags@.len() - idx,
    {
        let f: &Vec<u8> = &frags[idx];
        proof {
            assert(frags.deep_view()[idx as int] == frags@[idx as int]@);
            assert(fs.skip(idx as int)[0] == f@);
            assert(fs.skip(idx as int).drop_first() =~= fs.skip(idx + 1));
        }
        match position_of(f.as_slice(), 61) {
            Some(i) => {
                let n = f.len();
                proof {
                    lemma_find_byte(f@, 61);
                    assert((i as int) < n as int);
                }
                let cname = trim_bytes(vstd::slice::slice_subrange(f.as_slice(), 0, i));
                let cvalue = trim_bytes(vstd::slice::slice_subrange(f.as_slice(), i + 1, n));
                if cname.len() > 0 {
                    proof {
                        assert(parse_cookie_pair(f@) == Some((cname@, cvalue@)));
                    }
                    if eq_bytes(cname.as_slice(), name) {
                        proof {
                            assert(cookie_lookup(fs.skip(idx as int), name@) == Some(cvalue@));
                        }
                        return Some(cvalue);
                    }
                    proof {
                        assert(cookie_lookup(fs.skip(idx as int), name@) == cookie_lookup(
                            fs.skip(idx + 1),
                            name@,
                        ));
                    }
                } else {
                    proof {
                        assert(parse_cookie_pair(f@) is None);
                        assert(cookie_lookup(fs.skip(idx as int), name@) == cookie_lookup(
                            fs.skip(idx + 1),
                            name@,
                        ));
                    }
                }
            },
            None => {
                proof {
                    assert(parse_cookie_pair(f@) is None);
                    assert(cookie_lookup(fs.skip(idx as int), name@) == cookie_lookup(
                        fs.skip(idx + 1),
                        name@,
                    ));
                }
            },
        }
        idx = idx + 1;
    }
    proof {
        assert(fs.skip(idx as int).len() == 0);
        assert(cookie_lookup(fs.skip(idx as int), name@) is None);
    }
    None
}

/// The round trip of the cookie codec: reading the session cookie's name out
/// of its own serialization yields the token that was written, for every
/// cookie-safe token.
pub proof fn lemma_session_cookie_roundtrip(token: Seq<u8>)
    requires
        cookie_safe(token),
    ensures
        cookie_in_header(session_cookie(token), token_cookie_name()) == Some(token),
{
    reveal_strlit("access-token");
    let name = token_cookie_name();
    assert(name.len() == 12);
    assert(forall|i: int| 0 <= i < name.len() ==> name[i] == ("access-token"@[i] as u8));
    let frag0 = name + seq![61u8] + token;
    let h = session_cookie(token);
    assert(h =~= frag0 + seq![59u8] + session_cookie_attrs());
    assert(forall|i: int| 0 <= i < frag0.len() ==> frag0[i] != 59);
    lemma_split_on_concat(frag0, session_cookie_attrs(), 59);
    let fs = split_on(h, 59);
    assert(fs[0] == frag0);
    assert(forall|j: int| 0 <= j < name.len() ==> frag0[j] == name[j] && frag0[j] != 61);
    assert(frag0[name.len() as int] == 61);
    lemma_find_byte_is(frag0, 61, name.len() as int);
    assert(frag0.take(name.len() as int) =~= name);
    assert(frag0.skip(name.len() as int + 1) =~= token);
    assert(trim(name) == name);
    if token.len() > 0 {
        assert(!is_ws(token[0]));
        assert(!is_ws(token.last()));
        assert(trim(token) == token);
    } else {
        assert(trim(token) == token);
    }
    assert(parse_cookie_pair(frag0) == Some((name, token)));
    assert(cookie_lookup(fs, name) == Some(token));
}

/// A malformed fragment is passed over: dropping a separator-free fragment
/// that parses as no cookie pair from the front of a header leaves every
/// lookup unchanged.
pub proof fn lemma_malformed_fragment_skipped(junk: Seq<u8>, rest: Seq<u8>, name: Seq<u8>)
    requires
        forall|i: int| 0 <= i < junk.len() ==> junk[i] != 59,
        parse_cookie_pair(junk) is None,
    ensures
        cookie_in_header(junk + seq![59u8] + rest, name) == cookie_in_header(rest, name),
{
    lemma_split_on_concat(junk, rest, 59);
    let fs = split_on(junk + seq![59u8] + rest, 59);
    assert(fs[0] == junk);
    assert(fs.drop_first() =~= split_on(rest, 59));
    assert(cookie_lookup(fs, name) == cookie_lookup(split_on(rest, 59), name));
}

} // verus!
