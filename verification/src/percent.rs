//! Percent-encoding and decoding in the form-urlencoded style: unreserved
//! bytes pass through, every other byte is written as `%` followed by two hex
//! digits, and on the decoding side `+` stands for a space.
use vstd::prelude::*;

verus! {

/// Bytes that percent-encoding leaves as they are: ASCII letters, digits,
/// `-`, `.`, `_` and `~`.
pub open spec fn is_unreserved(b: u8) -> bool {
    (48 <= b <= 57) || (65 <= b <= 90) || (97 <= b <= 122) || b == 45 || b == 46 || b == 95 || b
        == 126
}

/// Whether `b` is an ASCII hex digit.
pub open spec fn is_hex_digit(b: u8) -> bool {
    (48 <= b <= 57) || (65 <= b <= 70) || (97 <= b <= 102)
}

/// The numeric value of a hex digit.
pub open spec fn hex_val(b: u8) -> u8 {
    if 48 <= b <= 57 {
        (b - 48) as u8
    } else if 65 <= b <= 70 {
        (b - 55) as u8
    } else if 97 <= b <= 102 {
        (b - 87) as u8
    } else {
        0
    }
}

/// The upper-case hex digit for a value below sixteen.
pub open spec fn hex_char(v: u8) -> u8 {
    if v < 10 {
        (48 + v) as u8
    } else {
        (55 + v) as u8
    }
}

/// The encoding of a single byte.
pub open spec fn pct_byte(b: u8) -> Seq<u8> {
    if is_unreserved(b) {
        seq![b]
    } else {
        seq![37u8, hex_char(b / 16), hex_char(b % 16)]
    }
}

/// The percent-encoding of a byte string.
pub open spec fn pct_encode(s: Seq<u8>) -> Seq<u8>
    decreases s.len(),
{
    if s.len() == 0 {
        Seq::empty()
    } else {
        pct_byte(s[0]) + pct_encode(s.drop_first())
    }
}

/// The percent-decoding of a byte string; `None` on a stray or malformed
/// escape.
pub open spec fn pct_decode(s: Seq<u8>) -> Option<Seq<u8>>
    decreases s.len(),
{
    if s.len() == 0 {
        Some(Seq::empty())
    } else if s[0] == 37 {
        if s.len() >= 3 && is_hex_digit(s[1]) && is_hex_digit(s[2]) {
            match pct_decode(s.skip(3)) {
                Some(r) => Some(seq![(16 * hex_val(s[1]) + hex_val(s[2])) as u8] + r),
                None => None,
            }
        } else {
            None
        }
    } else {
        let first: u8 = if s[0] == 43 {
            32u8
        } else {
            s[0]
        };
        match pct_decode(s.drop_first()) {
            Some(r) => Some(seq![first] + r),
            None => None,
        }
    }
}

/// Encoding a concatenation encodes each part.
pub proof fn lemma_pct_encode_append(a: Seq<u8>, b: Seq<u8>)
    ensures
        pct_encode(a + b) == pct_encode(a) + pct_encode(b),
    decreases a.len(),
{
    if a.len() == 0 {
        assert(a + b =~= b);
        assert(pct_encode(a) + pct_encode(b) =~= pct_encode(b));
    } else {
        lemma_pct_encode_append(a.drop_first(), b);
        assert((a + b).drop_first() =~= a.drop_first() + b);
        assert(pct_byte(a[0]) + (pct_encode(a.drop_first()) + pct_encode(b)) =~= (pct_byte(a[0])
            + pct_encode(a.drop_first())) + pct_encode(b));
    }
}

/// Every byte of an encoded string is unreserved or the escape byte `%`,
/// so in particular none is `&`, `=`, `;`, `+` or a space.
pub proof fn lemma_pct_encode_bytes(s: Seq<u8>)
    ensures
        forall|i: int|
            0 <= i < pct_encode(s).len() ==> (is_unreserved(#[trigger] pct_encode(s)[i])
                || pct_encode(s)[i] == 37),
    decreases s.len(),
{
    if s.len() > 0 {
        lemma_pct_encode_bytes(s.drop_first());
        assert(forall|i: int|
            0 <= i < pct_encode(s).len() ==> pct_encode(s)[i] == if i < pct_byte(s[0]).len() {
                pct_byte(s[0])[i]
            } else {
                pct_encode(s.drop_first())[i - pct_byte(s[0]).len()]
            });
    }
}

/// Decoding inverts encoding.
pub proof fn lemma_pct_roundtrip(s: Seq<u8>)
    ensures
        pct_decode(pct_encode(s)) == Some(s),
    decreases s.len(),
{
    if s.len() == 0 {
        assert(pct_encode(s) =~= Seq::<u8>::empty());
        assert(Seq::<u8>::empty() =~= s);
    } else {
        lemma_pct_roundtrip(s.drop_first());
        let b = s[0];
        let e = pct_encode(s);
        if is_unreserved(b) {
            assert(e[0] == b);
            assert(b != 37 && b != 43);
            assert(e.drop_first() =~= pct_encode(s.drop_first()));
            assert(seq![b] + s.drop_first() =~= s);
        } else {
            assert(e[0] == 37);
            assert(e.len() >= 3);
            assert(e[1] == hex_char(b / 16) && e[2] == hex_char(b % 16));
            assert(b / 16 < 16 && b % 16 < 16) by (nonlinear_arith);
            assert(is_hex_digit(hex_char(b / 16)) && is_hex_digit(hex_char(b % 16)));
            assert(hex_val(hex_char(b / 16)) == b / 16 && hex_val(hex_char(b % 16)) == b % 16);
            assert(16 * (b / 16) + (b % 16) == b) by (nonlinear_arith);
            assert(e.skip(3) =~= pct_encode(s.drop_first()));
            assert(seq![b] + s.drop_first() =~= s);
        }
    }
}

/// Encoding is injective: it loses nothing.
pub proof fn lemma_pct_encode_injective(a: Seq<u8>, b: Seq<u8>)
    requires
        pct_encode(a) == pct_encode(b),
    ensures
        a == b,
{
    lemma_pct_roundtrip(a);
    lemma_pct_roundtrip(b);
}

/// Percent-encodes a byte string.
pub fn percent_encode(s: &[u8]) -> (r: Vec<u8>)
    ensures
        r@ == pct_encode(s@),
{
    let mut r: Vec<u8> = Vec::new();
    let mut i: usize = 0;
    while i < s.len()
        invariant
            i <= s@.len(),
            r@ == pct_encode(s@.take(i as int)),
        decreases s@.len() - i,
    {
        let b = s[i];
        proof {
            assert(s@.take(i + 1) =~= s@.take(i as int) + seq![s@[i as int]]);
            lemma_pct_encode_append(s@.take(i as int), seq![s@[i as int]]);
            assert(seq![b].drop_first() =~= Seq::<u8>::empty());
            assert(pct_byte(b) + pct_encode(Seq::<u8>::empty()) =~= pct_byte(b));
            assert(pct_encode(seq![b]) =~= pct_byte(b));
        }
        if (48 <= b && b <= 57) || (65 <= b && b <= 90) || (97 <= b && b <= 122) || b == 45 || b
            == 46 || b == 95 || b == 126 {
            r.push(b);
            proof {
                assert(r@ =~= pct_encode(s@.take(i + 1)));
            }
        } else {
            let hi = b / 16;
            let lo = b % 16;
            r.push(37);
            r.push(if hi < 10 {
                48 + hi
            } else {
                55 + hi
            });
            r.push(if lo < 10 {
                48 + lo
            } else {
                55 + lo
            });
            proof {
                assert(r@ =~= pct_encode(s@.take(i + 1)));
            }
        }
        i = i + 1;
    }
    proof {
        assert(s@.take(s@.len() as int) =~= s@);
    }
    r
}

/// Percent-decodes a byte string; `None` on a stray or malformed escape.
pub fn percent_decode(s: &[u8]) -> (r: Option<Vec<u8>>)
    ensures
        match r {
            Some(v) => pct_decode(s@) == Some(v@),
            None => pct_decode(s@) is None,
        },
{
    let mut out: Vec<u8> = Vec::new();
    let mut i: usize = 0;
    proof {
        assert(s@.skip(0) =~= s@);
        if let Some(t) = pct_decode(s@) {
            assert(out@ + t =~= t);
        }
    }
    while i < s.len()
        invariant
            i <= s@.len(),
            match pct_decode(s@.skip(i as int)) {
                Some(t) => pct_decode(s@) == Some(out@ + t),
                None => pct_decode(s@) is None,
            },
        decreases s@.len() - i,
    {
        let ghost suffix = s@.skip(i as int);
        proof {
            assert(suffix.len() == s@.len() - i);
            assert(suffix[0] == s@[i as int]);
        }
        let b = s[i];
        if b == 37 {
            if s.len() - i < 3 {
                proof {
                    assert(pct_decode(suffix) is None);
                }
                return None;
            }
            let h1 = s[i + 1];
            let h2 = s[i + 2];
            proof {
                assert(suffix[1] == s@[i + 1]);
                assert(suffix[2] == s@[i + 2]);
            }
            let hex1 = (48 <= h1 && h1 <= 57) || (65 <= h1 && h1 <= 70) || (97 <= h1 && h1 <= 102);
            let hex2 = (48 <= h2 && h2 <= 57) || (65 <= h2 && h2 <= 70) || (97 <= h2 && h2 <= 102);
            if !(hex1 && hex2) {
                proof {
                    assert(pct_decode(suffix) is None);
                }
                return None;
            }
            let v1 = if h1 <= 57 {
                h1 - 48
            } else if h1 <= 70 {
                h1 - 55
            } else {
                h1 - 87
            };
            let v2 = if h2 <= 57 {
                h2 - 48
            } else if h2 <= 70 {
                h2 - 55
            } else {
                h2 - 87
            };
            assert(v1 == hex_val(h1) && v1 < 16);
            assert(v2 == hex_val(h2) && v2 < 16);
            let ghost before = out@;
            let c = 16 * v1 + v2;
            out.push(c);
            proof {
                assert(suffix.skip(3) =~= s@.skip(i + 3));
                match pct_decode(s@.skip(i + 3)) {
                    Some(t) => {
                        assert(pct_decode(suffix) == Some(seq![c] + t));
                        assert(before + (seq![c] + t) =~= out@ + t);
                    },
                    None => {
                        assert(pct_decode(suffix) is None);
                    },
                }
            }
            i = i + 3;
        } else {
            let c = if b == 43 {
                32
            } else {
                b
            };
            let ghost before = out@;
            out.push(c);
            proof {
                assert(suffix.drop_first() =~= s@.skip(i + 1));
                match pct_decode(s@.skip(i + 1)) {
                    Some(t) => {
                        assert(pct_decode(suffix) == Some(seq![c] + t));
                        assert(before + (seq![c] + t) =~= out@ + t);
                    },
                    None => {
                        assert(pct_decode(suffix) is None);
                    },
                }
            }
            i = i + 1;
        }
    }
    proof {
        assert(s@.skip(s@.len() as int) =~= Seq::<u8>::empty());
        assert(out@ + Seq::<u8>::empty() =~= out@);
    }
    Some(out)
}


} // verus!
