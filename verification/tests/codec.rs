use auth_middleware::percent::{percent_encode, percent_decode};
use auth_middleware::query::{query_param, encode_query};
use auth_middleware::cookies::{cookie_param, session_cookie_bytes};
use auth_middleware::bytes::{split_bytes, trim_bytes, eq_ignore_ascii_case, eq_bytes, position_of};

#[test]
fn percent_encode_escapes_reserved_bytes() {
    assert_eq!(percent_encode(b"a b&c"), b"a%20b%26c".to_vec());
    assert_eq!(percent_encode(b"AZaz09-._~"), b"AZaz09-._~".to_vec());
    assert_eq!(percent_encode(b""), b"".to_vec());
    assert_eq!(percent_encode(b"/:?="), b"%2F%3A%3F%3D".to_vec());
}

#[test]
fn percent_decode_reads_escapes_and_plus() {
    assert_eq!(percent_decode(b"a+b%41"), Some(b"a bA".to_vec()));
    assert_eq!(percent_decode(b"%2f%2F"), Some(b"//".to_vec()));
    assert_eq!(percent_decode(b"plain"), Some(b"plain".to_vec()));
    assert_eq!(percent_decode(b"%2"), None);
    assert_eq!(percent_decode(b"%zz"), None);
    assert_eq!(percent_decode(b"ok%"), None);
}

#[test]
fn percent_round_trip_on_samples() {
    let samples: Vec<&[u8]> = vec![
        b"",
        b"hello",
        b"a b&c=d;e",
        b"http://127.0.0.1:3000/login/callback",
        b"\x00\x01\xff\x80",
    ];
    for s in samples {
        assert_eq!(percent_decode(&percent_encode(s)), Some(s.to_vec()));
    }
}

#[test]
fn query_param_finds_first_match_decoded() {
    assert_eq!(query_param(b"code=ab%20c&state=xyz", b"code"), Some(b"ab c".to_vec()));
    assert_eq!(query_param(b"code=a&state=xyz", b"state"), Some(b"xyz".to_vec()));
    assert_eq!(query_param(b"code=a&code=b", b"code"), Some(b"a".to_vec()));
    assert_eq!(query_param(b"code=a", b"missing"), None);
    assert_eq!(query_param(b"", b"code"), None);
    assert_eq!(query_param(b"code", b"code"), Some(b"".to_vec()));
    assert_eq!(query_param(b"code=", b"code"), Some(b"".to_vec()));
}

#[test]
fn query_param_skips_undecodable_fragments() {
    assert_eq!(query_param(b"bad=%zz&code=ok", b"code"), Some(b"ok".to_vec()));
    assert_eq!(query_param(b"code=%zz&code=ok", b"code"), Some(b"ok".to_vec()));
}

#[test]
fn encode_query_joins_pairs_with_separators() {
    let pairs = vec![
        (b"a".to_vec(), b"1 2".to_vec()),
        (b"b".to_vec(), b"x&y".to_vec()),
    ];
    assert_eq!(encode_query(&pairs), b"a=1%202&b=x%26y".to_vec());
    let none: Vec<(Vec<u8>, Vec<u8>)> = Vec::new();
    assert_eq!(encode_query(&none), b"".to_vec());
}

#[test]
fn encode_then_query_param_round_trips() {
    let pairs = vec![
        (b"code".to_vec(), b"a/b c".to_vec()),
        (b"state".to_vec(), b"s=;&t".to_vec()),
    ];
    let q = encode_query(&pairs);
    assert_eq!(query_param(&q, b"code"), Some(b"a/b c".to_vec()));
    assert_eq!(query_param(&q, b"state"), Some(b"s=;&t".to_vec()));
}

#[test]
fn session_cookie_has_fixed_attributes() {
    assert_eq!(
        session_cookie_bytes(b"tok"),
        b"access-token=tok; SameSite=Lax; HttpOnly; Path=/".to_vec()
    );
}

#[test]
fn cookie_param_reads_named_cookie() {
    assert_eq!(cookie_param(b"foo=bar; access-token=tok", b"access-token"), Some(b"tok".to_vec()));
    assert_eq!(cookie_param(b"access-token=a=b", b"access-token"), Some(b"a=b".to_vec()));
    assert_eq!(cookie_param(b"foo=bar", b"access-token"), None);
    assert_eq!(cookie_param(b"", b"access-token"), None);
    assert_eq!(cookie_param(b"  access-token =  tok  ", b"access-token"), Some(b"tok".to_vec()));
}

#[test]
fn cookie_param_skips_malformed_fragments() {
    assert_eq!(cookie_param(b"garbage;; access-token=tok", b"access-token"), Some(b"tok".to_vec()));
    assert_eq!(cookie_param(b"=novalue; access-token=tok", b"access-token"), Some(b"tok".to_vec()));
    assert_eq!(cookie_param(b"broken", b"access-token"), None);
}

#[test]
fn session_cookie_round_trips_through_the_parser() {
    let serialized = session_cookie_bytes(b"secret-token-1");
    assert_eq!(cookie_param(&serialized, b"access-token"), Some(b"secret-token-1".to_vec()));
}

#[test]
fn split_trim_and_compare_helpers() {
    let parts = split_bytes(b"a;;b;", b';');
    assert_eq!(parts, vec![b"a".to_vec(), b"".to_vec(), b"b".to_vec(), b"".to_vec()]);
    assert_eq!(split_bytes(b"", b';'), vec![b"".to_vec()]);
    assert_eq!(trim_bytes(b"  x y\t"), b"x y".to_vec());
    assert_eq!(trim_bytes(b"\t \t"), b"".to_vec());
    assert!(eq_ignore_ascii_case(b"Set-Cookie", b"set-cookie"));
    assert!(!eq_ignore_ascii_case(b"host", b"host "));
    assert!(eq_bytes(b"abc", b"abc"));
    assert!(!eq_bytes(b"abc", b"abd"));
    assert_eq!(position_of(b"a=b", b'='), Some(1));
    assert_eq!(position_of(b"ab", b'='), None);
}
