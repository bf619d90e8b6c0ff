//! Byte-string utilities shared by the cookie codec, the query codec and the
//! HTTP model: ASCII conversion from string literals, case folding for header
//! names, searching, and whitespace trimming.
use vstd::prelude::*;
use vstd::string::StrSliceExecFns;
use vstd::string::StringSliceAdditionalSpecFns;

verus! {

/// The bytes of an ASCII character sequence, one byte per character.
pub open spec fn bytes_of(s: Seq<char>) -> Seq<u8> {
    s.map_values(|c: char| c as u8)
}

/// Turns an ASCII string (in practice a literal) into its byte vector.
pub fn str_to_bytes(s: &str) -> (v: Vec<u8>)
    requires
        s.is_ascii(),
    ensures
        v@ == bytes_of(s@),
        v@.len() == s@.len(),
{
    proof {
        vstd::string::is_ascii_spec_bytes(s);
        assert(s.spec_bytes() =~= bytes_of(s@));
    }
    s.as_bytes_vec()
}

/// ASCII lower-casing of one byte.
pub open spec fn lower_byte(b: u8) -> u8 {
    if 65 <= b <= 90 {
        (b + 32) as u8
    } else {
        b
    }
}

/// ASCII lower-casing of a byte string.
pub open spec fn lower_all(s: Seq<u8>) -> Seq<u8> {
    s.map_values(|x: u8| lower_byte(x))
}

/// Two byte strings are equal up to ASCII case.
pub open spec fn eq_ignore_case(a: Seq<u8>, b: Seq<u8>) -> bool {
    lower_all(a) == lower_all(b)
}

/// ASCII lower-casing of one byte, executable form.
pub fn to_lower(b: u8) -> (r: u8)
    ensures
        r == lower_byte(b),
{
    if 65 <= b && b <= 90 {
        b + 32
    } else {
        b
    }
}

/// Compares two byte strings ignoring ASCII case.
pub fn eq_ignore_ascii_case(a: &[u8], b: &[u8]) -> (r: bool)
    ensures
        r == eq_ignore_case(a@, b@),
{
    if a.len() != b.len() {
        proof {
            assert(lower_all(a@).len() == a@.len());
            assert(lower_all(b@).len() == b@.len());
        }
        return false;
    }
    let mut i: usize = 0;
    while i < a.len()
        invariant
            i <= a@.len(),
            a@.len() == b@.len(),
            forall|j: int| 0 <= j < i ==> lower_byte(a@[j]) == lower_byte(b@[j]),
        decreases a@.len() - i,
    {
        if to_lower(a[i]) != to_lower(b[i]) {
            proof {
                assert(lower_all(a@)[i as int] != lower_all(b@)[i as int]);
            }
            return false;
        }
        i = i + 1;
    }
    proof {
        assert(lower_all(a@) =~= lower_all(b@));
    }
    true
}

/// Compares two byte strings for equality.
pub fn eq_bytes(a: &[u8], b: &[u8]) -> (r: bool)
    ensures
        r == (a@ == b@),
{
    if a.len() != b.len() {
        return false;
    }
    let mut i: usize = 0;
    while i < a.len()
        invariant
            i <= a@.len(),
            a@.len() == b@.len(),
            forall|j: int| 0 <= j < i ==> a@[j] == b@[j],
        decreases a@.len() - i,
    {
        if a[i] != b[i] {
            return false;
        }
        i = i + 1;
    }
    proof {
        assert(a@ =~= b@);
    }
    true
}

/// Index of the first occurrence of `b` in `s`, if any.
pub open spec fn find_byte(s: Seq<u8>, b: u8) -> Option<int>
    decreases s.len(),
{
    if s.len() == 0 {
        None
    } else if s[0] == b {
        Some(0)
    } else {
        match find_byte(s.drop_first(), b) {
            Some(i) => Some(i + 1),
            None => None,
        }
    }
}

/// What `find_byte` returns: the first index holding `b`, or `None` when `b`
/// does not occur.
pub proof fn lemma_find_byte(s: Seq<u8>, b: u8)
    ensures
        match find_byte(s, b) {
            Some(i) => {
                &&& 0 <= i < s.len()
                &&& s[i] == b
                &&& forall|j: int| 0 <= j < i ==> s[j] != b
            },
            None => forall|j: int| 0 <= j < s.len() ==> s[j] != b,
        },
    decreases s.len(),
{
    if s.len() > 0 && s[0] != b {
        lemma_find_byte(s.drop_first(), b);
        match find_byte(s.drop_first(), b) {
            Some(i) => {
                assert(find_byte(s, b) == Some(i + 1));
                assert(s[i + 1] == s.drop_first()[i]);
                assert forall|j: int| 0 <= j < i + 1 implies s[j] != b by {
                    if j > 0 {
                        assert(s[j] == s.drop_first()[j - 1]);
                    }
                }
            },
            None => {
                assert forall|j: int| 0 <= j < s.len() implies s[j] != b by {
                    if j > 0 {
                        assert(s[j] == s.drop_first()[j - 1]);
                    }
                }
            },
        }
    }
}

/// Finds the first occurrence of `b` in `s`.
pub fn position_of(s: &[u8], b: u8) -> (r: Option<usize>)
    ensures
        match r {
            Some(i) => find_byte(s@, b) == Some(i as int),
            None => find_byte(s@, b) is None,
        },
{
    proof {
        lemma_find_byte(s@, b);
    }
    let mut i: usize = 0;
    while i < s.len()
        invariant
            i <= s@.len(),
            forall|j: int| 0 <= j < i ==> s@[j] != b,
            match find_byte(s@, b) {
                Some(k) => {
                    &&& 0 <= k < s@.len()
                    &&& s@[k] == b
                    &&& forall|j: int| 0 <= j < k ==> s@[j] != b
                },
                None => forall|j: int| 0 <= j < s@.len() ==> s@[j] != b,
            },
        decreases s@.len() - i,
    {
        if s[i] == b {
            proof {
                if let Some(k) = find_byte(s@, b) {
                    assert(k == i as int);
                } else {
                    assert(false);
                }
            }
            return Some(i);
        }
        i = i + 1;
    }
    None
}

/// Splits `s` on the separator byte; a string with `n` separators yields
/// `n + 1` fragments, empty ones included.
pub open spec fn split_on(s: Seq<u8>, sep: u8) -> Seq<Seq<u8>>
    decreases s.len(),
{
    if s.len() == 0 {
        seq![Seq::<u8>::empty()]
    } else {
        let rest = split_on(s.drop_first(), sep);
        if s[0] == sep {
            seq![Seq::<u8>::empty()] + rest
        } else {
            seq![seq![s[0]] + rest[0]] + rest.drop_first()
        }
    }
}

/// A string without the separator is one fragment.
pub proof fn lemma_split_on_whole(s: Seq<u8>, sep: u8)
    requires
        forall|i: int| 0 <= i < s.len() ==> s[i] != sep,
    ensures
        split_on(s, sep) == seq![s],
    decreases s.len(),
{
    if s.len() > 0 {
        assert(forall|i: int|
            0 <= i < s.drop_first().len() ==> s.drop_first()[i] == s[i + 1] && s[i + 1] != sep);
        lemma_split_on_whole(s.drop_first(), sep);
        assert(seq![s[0]] + s.drop_first() =~= s);
        assert(split_on(s, sep) =~~= seq![s]);
    } else {
        assert(split_on(s, sep) =~~= seq![s]);
    }
}

/// The first fragment of `a + sep + r` is `a` when `a` is separator-free,
/// and the rest is the splitting of `r`.
pub proof fn lemma_split_on_concat(a: Seq<u8>, r: Seq<u8>, sep: u8)
    requires
        forall|i: int| 0 <= i < a.len() ==> a[i] != sep,
    ensures
        split_on(a + seq![sep] + r, sep) == seq![a] + split_on(r, sep),
    decreases a.len(),
{
    let s = a + seq![sep] + r;
    if a.len() == 0 {
        assert(s[0] == sep);
        assert(s.drop_first() =~= r);
        assert(split_on(s, sep) =~~= seq![a] + split_on(r, sep));
    } else {
        assert(forall|i: int|
            0 <= i < a.drop_first().len() ==> a.drop_first()[i] == a[i + 1] && a[i + 1] != sep);
        lemma_split_on_concat(a.drop_first(), r, sep);
        assert(s.drop_first() =~= a.drop_first() + seq![sep] + r);
        let rest = split_on(s.drop_first(), sep);
        assert(rest == seq![a.drop_first()] + split_on(r, sep));
        assert(rest[0] == a.drop_first());
        assert(s[0] == a[0]);
        assert(seq![s[0]] + rest[0] =~= a);
        assert(rest.drop_first() =~= split_on(r, sep));
        assert(split_on(s, sep) =~~= seq![a] + split_on(r, sep));
    }
}

/// If `b` first occurs at `i`, `find_byte` says so.
pub proof fn lemma_find_byte_is(s: Seq<u8>, b: u8, i: int)
    requires
        0 <= i < s.len(),
        s[i] == b,
        forall|j: int| 0 <= j < i ==> s[j] != b,
    ensures
        find_byte(s, b) == Some(i),
{
    lemma_find_byte(s, b);
    match find_byte(s, b) {
        Some(k) => {
            if k < i {
                assert(s[k] != b);
            }
            if i < k {
                assert(s[i] != b);
            }
        },
        None => {
            assert(s[i] != b);
        },
    }
}

/// Splits a byte string on a separator.
pub fn split_bytes(s: &[u8], sep: u8) -> (r: Vec<Vec<u8>>)
    ensures
        r.deep_view() == split_on(s@, sep),
{
    let mut r: Vec<Vec<u8>> = Vec::new();
    let mut start: usize = 0;
    proof {
        assert(s@.skip(0) =~= s@);
        assert(r.deep_view() =~~= Seq::<Seq<u8>>::empty());
        assert(r.deep_view() + split_on(s@, sep) =~~= split_on(s@, sep));
    }
    loop
        invariant
            start <= s@.len(),
            split_on(s@, sep) == r.deep_view() + split_on(s@.skip(start as int), sep),
        decreases s@.len() - start,
    {
        let rest = vstd::slice::slice_subrange(s, start, s.len());
        let ghost prev = r.deep_view();
        match position_of(rest, sep) {
            Some(i) => {
                proof {
                    lemma_find_byte(rest@, sep);
                    assert(rest@ =~= rest@.take(i as int) + seq![sep] + rest@.skip(i + 1));
                    lemma_split_on_concat(rest@.take(i as int), rest@.skip(i + 1), sep);
                }
                let frag = vstd::slice::slice_to_vec(vstd::slice::slice_subrange(rest, 0, i));
                r.push(frag);
                proof {
                    assert(r.deep_view() =~~= prev + seq![rest@.take(i as int)]);
                    assert(rest@.skip(i + 1) =~= s@.skip(start + i + 1));
                    assert(prev + (seq![rest@.take(i as int)] + split_on(
                        s@.skip(start + i + 1),
                        sep,
                    )) =~~= r.deep_view() + split_on(s@.skip(start + i + 1), sep));
                }
                start = start + i + 1;
            },
            None => {
                proof {
                    lemma_find_byte(rest@, sep);
                    lemma_split_on_whole(rest@, sep);
                }
                let frag = vstd::slice::slice_to_vec(rest);
                r.push(frag);
                proof {
                    assert(r.deep_view() =~~= prev + seq![rest@]);
                    assert(prev + seq![rest@] =~~= r.deep_view());
                }
                return r;
            },
        }
    }
}

/// Whether `b` is an ASCII space or horizontal tab.
pub open spec fn is_ws(b: u8) -> bool {
    b == 32 || b == 9
}

/// Drops leading whitespace.
pub open spec fn trim_front(s: Seq<u8>) -> Seq<u8>
    decreases s.len(),
{
    if s.len() > 0 && is_ws(s[0]) {
        trim_front(s.drop_first())
    } else {
        s
    }
}

/// Drops trailing whitespace.
pub open spec fn trim_back(s: Seq<u8>) -> Seq<u8>
    decreases s.len(),
{
    if s.len() > 0 && is_ws(s.last()) {
        trim_back(s.drop_last())
    } else {
        s
    }
}

/// Drops whitespace on both ends.
pub open spec fn trim(s: Seq<u8>) -> Seq<u8> {
    trim_back(trim_front(s))
}

/// `trim_front` keeps the suffix from the first non-whitespace byte on.
pub proof fn lemma_trim_front_skip(s: Seq<u8>, i: int)
    requires
        0 <= i <= s.len(),
        forall|j: int| 0 <= j < i ==> is_ws(s[j]),
        i == s.len() || !is_ws(s[i]),
    ensures
        trim_front(s) == s.skip(i),
    decreases i,
{
    if i > 0 {
        assert(is_ws(s[0]));
        let d = s.drop_first();
        assert(forall|j: int| 0 <= j < i - 1 ==> d[j] == s[j + 1] && is_ws(s[j + 1]));
        if i - 1 < d.len() {
            assert(d[i - 1] == s[i]);
        }
        lemma_trim_front_skip(d, i - 1);
        assert(d.skip(i - 1) =~= s.skip(i));
    } else {
        assert(s.skip(0) =~= s);
    }
}

/// `trim_back` keeps the prefix up to the last non-whitespace byte.
pub proof fn lemma_trim_back_take(s: Seq<u8>, i: int)
    requires
        0 <= i <= s.len(),
        forall|j: int| i <= j < s.len() ==> is_ws(s[j]),
        i == 0 || !is_ws(s[i - 1]),
    ensures
        trim_back(s) == s.take(i),
    decreases s.len() - i,
{
    if i < s.len() {
        assert(is_ws(s.last()));
        let d = s.drop_last();
        assert(forall|j: int| i <= j < d.len() ==> d[j] == s[j]);
        if i > 0 {
            assert(d[i - 1] == s[i - 1]);
        }
        lemma_trim_back_take(d, i);
        assert(d.take(i) =~= s.take(i));
    } else {
        assert(s.take(i) =~= s);
        if s.len() > 0 {
            assert(!is_ws(s.last()));
        }
    }
}

/// Trims whitespace from both ends of a byte string.
pub fn trim_bytes(s: &[u8]) -> (r: Vec<u8>)
    ensures
        r@ == trim(s@),
{
    let mut lo: usize = 0;
    while lo < s.len() && (s[lo] == 32 || s[lo] == 9)
        invariant
            lo <= s@.len(),
            forall|j: int| 0 <= j < lo ==> is_ws(s@[j]),
        decreases s@.len() - lo,
    {
        lo = lo + 1;
    }
    proof {
        lemma_trim_front_skip(s@, lo as int);
    }
    let ghost f = s@.skip(lo as int);
    let mut hi: usize = s.len();
    while hi > lo && (s[hi - 1] == 32 || s[hi - 1] == 9)
        invariant
            lo <= hi <= s@.len(),
            forall|j: int| hi <= j < s@.len() ==> is_ws(s@[j]),
        decreases hi,
    {
        hi = hi - 1;
    }
    proof {
        assert(forall|j: int| hi - lo <= j < f.len() ==> f[j] == s@[j + lo] && is_ws(s@[j + lo]));
        if hi > lo {
            assert(f[hi - lo - 1] == s@[hi - 1]);
        }
        lemma_trim_back_take(f, hi - lo);
        assert(f.take(hi - lo) =~= s@.subrange(lo as int, hi as int));
    }
    vstd::slice::slice_to_vec(vstd::slice::slice_subrange(s, lo, hi))
}

} // verus!
