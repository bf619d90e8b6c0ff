//! The query-string codec: building a form-urlencoded query from key/value
//! pairs and looking a key up in one, with the round trip between the two
//! proved.
use vstd::prelude::*;
use crate::bytes::{
    split_on, find_byte, lemma_split_on_whole, lemma_split_on_concat, lemma_find_byte,
    lemma_find_byte_is, split_bytes, position_of, eq_bytes,
};
use crate::percent::{
    pct_encode, pct_decode, is_unreserved, percent_encode, percent_decode, lemma_pct_encode_bytes,
    lemma_pct_roundtrip,
};

verus! {

/// One encoded `key=value` member of a query: the key stands as it is, the
/// value is percent-encoded.
pub open spec fn qpair(key: Seq<u8>, value: Seq<u8>) -> Seq<u8> {
    key + seq![61u8] + pct_encode(value)
}

/// The encoding of a list of pairs, joined with `&`.
pub open spec fn encoded_pairs(ps: Seq<(Seq<u8>, Seq<u8>)>) -> Seq<u8>
    decreases ps.len(),
{
    if ps.len() == 0 {
        Seq::empty()
    } else if ps.len() == 1 {
        qpair(ps[0].0, ps[0].1)
    } else {
        qpair(ps[0].0, ps[0].1) + seq![38u8] + encoded_pairs(ps.drop_first())
    }
}

/// The value of the first pair holding `key`.
pub open spec fn assoc(ps: Seq<(Seq<u8>, Seq<u8>)>, key: Seq<u8>) -> Option<Seq<u8>>
    decreases ps.len(),
{
    if ps.len() == 0 {
        None
    } else if ps[0].0 == key {
        Some(ps[0].1)
    } else {
        assoc(ps.drop_first(), key)
    }
}

/// A query fragment read as a decoded pair: the part before the first `=` is
/// the key, the part after it the value, and a fragment without `=` is a key
/// with an empty value. A fragment whose key or value does not percent-decode
/// is no pair.
pub open spec fn parse_query_pair(f: Seq<u8>) -> Option<(Seq<u8>, Seq<u8>)> {
    let kraw = match find_byte(f, 61) {
        Some(i) => f.take(i),
        None => f,
    };
    let vraw = match find_byte(f, 61) {
        Some(i) => f.skip(i + 1),
        None => Seq::<u8>::empty(),
    };
    match pct_decode(kraw) {
        Some(k) => match pct_decode(vraw) {
            Some(v) => Some((k, v)),
            None => None,
        },
        None => None,
    }
}

/// The decoded value of the first fragment whose key is `key`; fragments that
/// do not parse are passed over.
pub open spec fn lookup_fragments(frags: Seq<Seq<u8>>, key: Seq<u8>) -> Option<Seq<u8>>
    decreases frags.len(),
{
    if frags.len() == 0 {
        None
    } else {
        match parse_query_pair(frags[0]) {
            Some(p) => if p.0 == key {
                Some(p.1)
            } else {
                lookup_fragments(frags.drop_first(), key)
            },
            None => lookup_fragments(frags.drop_first(), key),
        }
    }
}

/// The decoded value under `key` in the raw query string `q`.
pub open spec fn query_value(q: Seq<u8>, key: Seq<u8>) -> Option<Seq<u8>> {
    lookup_fragments(split_on(q, 38), key)
}

/// Whether every byte of a key is unreserved, so that it passes through both
/// encoding and decoding unchanged.
pub open spec fn plain_key(k: Seq<u8>) -> bool {
    forall|i: int| 0 <= i < k.len() ==> is_unreserved(#[trigger] k[i])
}

/// Decoding leaves a string of unreserved bytes as it is.
pub proof fn lemma_pct_decode_plain(s: Seq<u8>)
    requires
        plain_key(s),
    ensures
        pct_decode(s) == Some(s),
    decreases s.len(),
{
    if s.len() > 0 {
        assert(forall|i: int|
            0 <= i < s.drop_first().len() ==> s.drop_first()[i] == s[i + 1] && is_unreserved(
                s[i + 1],
            ));
        lemma_pct_decode_plain(s.drop_first());
        assert(!(s[0] == 37) && !(s[0] == 43));
        assert(seq![s[0]] + s.drop_first() =~= s);
    } else {
        assert(Seq::<u8>::empty() =~= s);
    }
}

/// How one encoded pair is read back: its fragment parses to the pair itself.
proof fn lemma_parse_qpair(key: Seq<u8>, value: Seq<u8>)
    requires
        plain_key(key),
    ensures
        parse_query_pair(qpair(key, value)) == Some((key, value)),
{
    let f = qpair(key, value);
    lemma_pct_encode_bytes(value);
    assert(f[key.len() as int] == 61);
    assert(forall|j: int| 0 <= j < key.len() ==> f[j] == key[j] && f[j] != 61);
    lemma_find_byte_is(f, 61, key.len() as int);
    assert(f.take(key.len() as int) =~= key);
    assert(f.skip(key.len() as int + 1) =~= pct_encode(value));
    lemma_pct_decode_plain(key);
    lemma_pct_roundtrip(value);
}

/// An encoded pair contains no `&`.
proof fn lemma_qpair_no_amp(key: Seq<u8>, value: Seq<u8>)
    requires
        plain_key(key),
    ensures
        forall|i: int| 0 <= i < qpair(key, value).len() ==> #[trigger] qpair(key, value)[i] != 38,
{
    let f = qpair(key, value);
    lemma_pct_encode_bytes(value);
    assert forall|i: int| 0 <= i < f.len() implies f[i] != 38 by {
        if i < key.len() {
            assert(f[i] == key[i]);
        } else if i == key.len() {
        } else {
            assert(f[i] == pct_encode(value)[i - key.len() - 1]);
        }
    }
}

/// The round trip of the query codec: looking a key up in an encoded list of
/// pairs finds exactly what `assoc` finds in the list, for every list whose
/// keys are unreserved and non-empty.
pub proof fn lemma_query_roundtrip(ps: Seq<(Seq<u8>, Seq<u8>)>, key: Seq<u8>)
    requires
        forall|i: int|
            0 <= i < ps.len() ==> plain_key(#[trigger] ps[i].0) && ps[i].0.len() > 0,
        key.len() > 0,
    ensures
        query_value(encoded_pairs(ps), key) == assoc(ps, key),
    decreases ps.len(),
{
    if ps.len() == 0 {
        assert(encoded_pairs(ps) =~= Seq::<u8>::empty());
        lemma_split_on_whole(Seq::<u8>::empty(), 38);
        let frags = split_on(Seq::<u8>::empty(), 38);
        assert(frags == seq![Seq::<u8>::empty()]);
        assert(find_byte(Seq::<u8>::empty(), 61) is None);
        assert(pct_decode(Seq::<u8>::empty()) == Some(Seq::<u8>::empty()));
        assert(parse_query_pair(Seq::<u8>::empty()) == Some(
            (Seq::<u8>::empty(), Seq::<u8>::empty()),
        ));
        assert(frags.drop_first() =~= Seq::<Seq<u8>>::empty());
        assert(lookup_fragments(Seq::<Seq<u8>>::empty(), key) is None);
        assert(frags[0] == Seq::<u8>::empty());
        assert(key != Seq::<u8>::empty());
        assert(lookup_fragments(frags, key) is None);
        assert(query_value(encoded_pairs(ps), key) is None);
    } else {
        let h = ps[0];
        let f = qpair(h.0, h.1);
        lemma_parse_qpair(h.0, h.1);
        lemma_qpair_no_amp(h.0, h.1);
        if ps.len() == 1 {
            lemma_split_on_whole(f, 38);
            let frags = split_on(f, 38);
            assert(frags[0] == f);
            assert(frags.drop_first() =~= Seq::<Seq<u8>>::empty());
            assert(lookup_fragments(Seq::<Seq<u8>>::empty(), key) is None);
            assert(lookup_fragments(frags, key) == if h.0 == key {
                Some(h.1)
            } else {
                None
            });
            assert(ps.drop_first().len() == 0);
            assert(assoc(ps.drop_first(), key) is None);
        } else {
            let rest = encoded_pairs(ps.drop_first());
            assert(encoded_pairs(ps) == f + seq![38u8] + rest);
            lemma_split_on_concat(f, rest, 38);
            let frags = split_on(encoded_pairs(ps), 38);
            assert(frags == seq![f] + split_on(rest, 38));
            assert(frags[0] == f);
            assert(frags.drop_first() =~= split_on(rest, 38));
            assert(forall|i: int|
                0 <= i < ps.drop_first().len() ==> ps.drop_first()[i] == ps[i + 1]);
            lemma_query_roundtrip(ps.drop_first(), key);
            assert(lookup_fragments(frags, key) == if h.0 == key {
                Some(h.1)
            } else {
                lookup_fragments(split_on(rest, 38), key)
            });
            assert(assoc(ps, key) == if h.0 == key {
                Some(h.1)
            } else {
                assoc(ps.drop_first(), key)
            });
        }
    }
}

/// Builds the form-urlencoded query for a list of pairs.
pub fn encode_query(pairs: &Vec<(Vec<u8>, Vec<u8>)>) -> (r: Vec<u8>)
    ensures
        r@ == encoded_pairs(pairs.deep_view()),
{
    let ghost dv = pairs.deep_view();
    let mut r: Vec<u8> = Vec::new();
    let mut idx: usize = 0;
    proof {
        assert(dv.take(0) =~= Seq::<(Seq<u8>, Seq<u8>)>::empty());
        assert(r@ =~= encoded_pairs(dv.take(0)));
    }
    while idx < pairs.len()
        invariant
            idx <= pairs@.len(),
            dv == pairs.deep_view(),
            dv.len() == pairs@.len(),
            forall|i: int| 0 <= i < dv.len() ==> dv[i] == (pairs@[i].0@, pairs@[i].1@),
            r@ == encoded_pairs(dv.take(idx as int)),
        decreases pairs@.len() - idx,
    {
        if idx > 0 {
            r.push(38);
        }
        let mut key = pairs[idx].0.clone();
        let enc = percent_encode(pairs[idx].1.as_slice());
        r.append(&mut key);
        r.push(61);
        let mut encv = enc;
        r.append(&mut encv);
        proof {
            lemma_encoded_pairs_push(dv, idx as int);
            assert(r@ =~= encoded_pairs(dv.take(idx + 1)));
        }
        idx = idx + 1;
    }
    proof {
        assert(dv.take(dv.len() as int) =~= dv);
    }
    r
}

/// Extending an encoded prefix by one pair appends `&` and the pair, except
/// at the front.
proof fn lemma_encoded_pairs_push(ps: Seq<(Seq<u8>, Seq<u8>)>, i: int)
    requires
        0 <= i < ps.len(),
    ensures
        encoded_pairs(ps.take(i + 1)) == if i == 0 {
            qpair(ps[0].0, ps[0].1)
        } else {
            encoded_pairs(ps.take(i)) + seq![38u8] + qpair(ps[i].0, ps[i].1)
        },
    decreases i,
{
    let t = ps.take(i + 1);
    if i == 0 {
        assert(t.len() == 1);
        assert(t[0] == ps[0]);
        assert(encoded_pairs(t) == qpair(ps[0].0, ps[0].1));
    } else {
        lemma_encoded_pairs_push(ps.drop_first(), i - 1);
        assert(t.len() >= 2);
        assert(encoded_pairs(t) == qpair(t[0].0, t[0].1) + seq![38u8] + encoded_pairs(
            t.drop_first(),
        ));
        assert(t.drop_first() =~= ps.drop_first().take(i));
        assert(ps.take(i).len() >= 1);
        if i == 1 {
            assert(ps.take(i).len() == 1);
            assert(encoded_pairs(ps.take(i)) == qpair(ps[0].0, ps[0].1));
            assert(ps.drop_first().take(i - 1) =~= Seq::<(Seq<u8>, Seq<u8>)>::empty());
            assert(encoded_pairs(ps.drop_first().take(i)) == qpair(
                ps.drop_first()[0].0,
                ps.drop_first()[0].1,
            ));
            assert(ps.drop_first()[0] == ps[1]);
            assert(t[0] == ps[0]);
        } else {
            assert(ps.drop_first()[i - 1] == ps[i]);
            assert(encoded_pairs(ps.take(i)) == qpair(ps[0].0, ps[0].1) + seq![38u8]
                + encoded_pairs(ps.take(i).drop_first()));
            assert(ps.take(i).drop_first() =~= ps.drop_first().take(i - 1));
            assert(t[0] == ps[0]);
        }
    }
}

/// Looks `key` up in the raw query string `q`, decoding the value.
pub fn query_param(q: &[u8], key: &[u8]) -> (r: Option<Vec<u8>>)
    ensures
        match r {
            Some(v) => query_value(q@, key@) == Some(v@),
            None => query_value(q@, key@) is None,
        },
{
    let frags = split_bytes(q, 38);
    let ghost fs = split_on(q@, 38);
    let mut idx: usize = 0;
    proof {
        assert(fs.skip(0) =~= fs);
    }
    while idx < frags.len()
        invariant
            idx <= frags@.len(),
            fs == split_on(q@, 38),
            frags.deep_view() == fs,
            fs.len() == frags@.len(),
            lookup_fragments(fs, key@) == lookup_fragments(fs.skip(idx as int), key@),
        decreases frags@.len() - idx,
    {
        let f: &Vec<u8> = &frags[idx];
        proof {
            assert(frags.deep_view()[idx as int] == frags@[idx as int]@);
            assert(fs.skip(idx as int)[0] == f@);
            assert(fs.skip(idx as int).drop_first() =~= fs.skip(idx + 1));
        }
        let parsed: Option<(Vec<u8>, Vec<u8>)> = match position_of(f.as_slice(), 61) {
            Some(i) => {
                proof {
                    lemma_find_byte(f@, 61);
                }
                let kd = percent_decode(vstd::slice::slice_subrange(f.as_slice(), 0, i));
                let n = f.len();
                proof {
                    assert((i as int) < n as int);
                }
                let vd = percent_decode(
                    vstd::slice::slice_subrange(f.as_slice(), i + 1, n),
                );
                match kd {
                    Some(k) => match vd {
                        Some(v) => Some((k, v)),
                        None => None,
                    },
                    None => None,
                }
            },
            None => {
                let kd = percent_decode(f.as_slice());
                proof {
                    assert(pct_decode(Seq::<u8>::empty()) == Some(Seq::<u8>::empty()));
                }
                match kd {
                    Some(k) => Some((k, Vec::new())),
                    None => None,
                }
            },
        };
        match parsed {
            Some(p) => {
                proof {
                    assert(parse_query_pair(f@) == Some((p.0@, p.1@)));
                }
                if eq_bytes(p.0.as_slice(), key) {
                    proof {
                        assert(lookup_fragments(fs.skip(idx as int), key@) == Some(p.1@));
                        assert(query_value(q@, key@) == Some(p.1@));
                    }
                    return Some(p.1);
                }
                proof {
                    assert(lookup_fragments(fs.skip(idx as int), key@) == lookup_fragments(
                        fs.skip(idx + 1),
                        key@,
                    ));
                }
            },
            None => {
                proof {
                    assert(parse_query_pair(f@) is None);
                    assert(lookup_fragments(fs.skip(idx as int), key@) == lookup_fragments(
                        fs.skip(idx + 1),
                        key@,
                    ));
                }
            },
        }
        idx = idx + 1;
    }
    proof {
        assert(fs.skip(idx as int).len() == 0);
        assert(lookup_fragments(fs.skip(idx as int), key@) is None);
    }
    None
}

} // verus!
