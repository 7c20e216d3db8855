//! Character-level utilities: whitespace trimming, prefix tests,
//! ASCII-case-insensitive comparison, decimal rendering, and lossy UTF-8
//! decoding of byte bodies.

use vstd::prelude::*;

verus! {

/// The Unicode `White_Space` characters, the set `str::trim` removes.
pub open spec fn is_space_char(c: char) -> bool {
    let u = c as int;
    (0x9 <= u && u <= 0xD) || u == 0x20 || u == 0x85 || u == 0xA0 || u == 0x1680 || (0x2000 <= u
        && u <= 0x200A) || u == 0x2028 || u == 0x2029 || u == 0x202F || u == 0x205F || u == 0x3000
}

/// Runtime test for [`is_space_char`].
pub fn is_space(c: char) -> (b: bool)
    ensures
        b == is_space_char(c),
{
    let u = c as u32;
    (0x9 <= u && u <= 0xD) || u == 0x20 || u == 0x85 || u == 0xA0 || u == 0x1680 || (0x2000 <= u
        && u <= 0x200A) || u == 0x2028 || u == 0x2029 || u == 0x202F || u == 0x205F || u == 0x3000
}

/// `s` with its leading whitespace removed.
pub open spec fn trim_start_spec(s: Seq<char>) -> Seq<char>
    decreases s.len(),
{
    if s.len() > 0 && is_space_char(s.first()) {
        trim_start_spec(s.drop_first())
    } else {
        s
    }
}

/// `s` with its trailing whitespace removed.
pub open spec fn trim_end_spec(s: Seq<char>) -> Seq<char>
    decreases s.len(),
{
    if s.len() > 0 && is_space_char(s.last()) {
        trim_end_spec(s.drop_last())
    } else {
        s
    }
}

/// `s` with leading and trailing whitespace removed, as `str::trim` leaves it.
pub open spec fn trim_spec(s: Seq<char>) -> Seq<char> {
    trim_end_spec(trim_start_spec(s))
}

proof fn lemma_trim_start_skip(s: Seq<char>, i: int)
    requires
        0 <= i < s.len(),
        is_space_char(s[i]),
    ensures
        trim_start_spec(s.skip(i)) == trim_start_spec(s.skip(i + 1)),
{
    assert(s.skip(i).len() > 0);
    assert(s.skip(i).first() == s[i]);
    assert(s.skip(i).drop_first() =~= s.skip(i + 1));
}

/// Trimming a sequence that neither starts nor ends with whitespace leaves it
/// unchanged.
pub proof fn lemma_trim_noop(s: Seq<char>)
    ensures
        s.len() > 0 && !is_space_char(s.first()) && !is_space_char(s.last()) ==> trim_spec(s) == s,
{
}

/// `str::trim`, proved against [`trim_spec`].
pub fn trim_str(s: &str) -> (r: &str)
    ensures
        r@ == trim_spec(s@),
{
    let n = s.unicode_len();
    let mut lo: usize = 0;
    proof {
        assert(s@.skip(0) =~= s@);
    }
    while lo < n && is_space(s.get_char(lo))
        invariant
            0 <= lo <= n,
            n == s@.len(),
            trim_start_spec(s@) == trim_start_spec(s@.skip(lo as int)),
        decreases n - lo,
    {
        proof {
            lemma_trim_start_skip(s@, lo as int);
        }
        lo = lo + 1;
    }
    proof {
        if lo < n {
            assert(s@.skip(lo as int).first() == s@[lo as int]);
            assert(trim_start_spec(s@.skip(lo as int)) == s@.skip(lo as int));
        } else {
            assert(s@.skip(lo as int) =~= Seq::<char>::empty());
        }
        assert(trim_start_spec(s@) == s@.skip(lo as int));
    }
    let ghost u = s@.skip(lo as int);
    let mut hi: usize = n;
    proof {
        assert(u.take(n - lo as int) =~= u);
    }
    while hi > lo && is_space(s.get_char(hi - 1))
        invariant
            lo <= hi <= n,
            n == s@.len(),
            u == s@.skip(lo as int),
            trim_end_spec(u) == trim_end_spec(u.take(hi - lo as int)),
        decreases hi,
    {
        proof {
            let t = u.take(hi - lo as int);
            assert(t.len() > 0);
            assert(t.last() == s@[hi - 1]);
            assert(t.drop_last() =~= u.take(hi - 1 - lo as int));
        }
        hi = hi - 1;
    }
    proof {
        let t = u.take(hi - lo as int);
        if hi > lo {
            assert(t.last() == s@[hi - 1]);
            assert(trim_end_spec(t) == t);
        } else {
            assert(t =~= Seq::<char>::empty());
        }
        assert(trim_spec(s@) == t);
        assert(t =~= s@.subrange(lo as int, hi as int));
    }
    s.substring_char(lo, hi)
}

/// Runtime prefix test, byte-prefix semantics stated over character views.
pub fn str_starts_with(s: &str, prefix: &str) -> (b: bool)
    ensures
        b == prefix@.is_prefix_of(s@),
{
    let n = s.unicode_len();
    let m = prefix.unicode_len();
    if m > n {
        assert(!prefix@.is_prefix_of(s@));
        return false;
    }
    let mut i: usize = 0;
    while i < m
        invariant
            0 <= i <= m <= n,
            n == s@.len(),
            m == prefix@.len(),
            forall|j: int| 0 <= j < i ==> s@[j] == prefix@[j],
        decreases m - i,
    {
        if s.get_char(i) != prefix.get_char(i) {
            assert(!prefix@.is_prefix_of(s@));
            return false;
        }
        i = i + 1;
    }
    proof {
        assert(prefix@ =~= s@.subrange(0, m as int));
    }
    true
}

/// True when the character sequences agree up to ASCII letter case.
pub open spec fn chars_iequal(a: char, b: char) -> bool {
    a == b || (ascii_lower(a as int) == ascii_lower(b as int))
}

/// Fold an ASCII upper-case letter code to its lower-case code.
pub open spec fn ascii_lower(u: int) -> int {
    if 0x41 <= u && u <= 0x5A {
        u + 0x20
    } else {
        u
    }
}

/// True when `a` and `b` have the same length and matching characters up to
/// ASCII case.
pub open spec fn iequal_seq(a: Seq<char>, b: Seq<char>) -> bool {
    a.len() == b.len() && forall|i: int| 0 <= i < a.len() ==> chars_iequal(a[i], b[i])
}

/// `str::eq_ignore_ascii_case`, proved against [`iequal_seq`].
pub fn eq_ignore_case(a: &str, b: &str) -> (r: bool)
    ensures
        r == iequal_seq(a@, b@),
{
    let n = a.unicode_len();
    let m = b.unicode_len();
    if n != m {
        return false;
    }
    let mut i: usize = 0;
    while i < n
        invariant
            0 <= i <= n,
            n == a@.len(),
            n == b@.len(),
            forall|j: int| 0 <= j < i ==> chars_iequal(a@[j], b@[j]),
        decreases n - i,
    {
        let ca = a.get_char(i) as u32;
        let cb = b.get_char(i) as u32;
        let fa = if 0x41 <= ca && ca <= 0x5A {
            ca + 0x20
        } else {
            ca
        };
        let fb = if 0x41 <= cb && cb <= 0x5A {
            cb + 0x20
        } else {
            cb
        };
        if fa != fb {
            assert(!chars_iequal(a@[i as int], b@[i as int]));
            return false;
        }
        i = i + 1;
    }
    true
}

/// True when some slice of `s` matches `pat` up to ASCII case: the
/// case-insensitive substring test used for media-type classification.
pub open spec fn icontains(s: Seq<char>, pat: Seq<char>) -> bool {
    exists|k: int|
        0 <= k && k + pat.len() <= s.len() && iequal_seq(
            #[trigger] s.subrange(k, k + pat.len()),
            pat,
        )
}

/// Case-insensitive substring search, proved against [`icontains`].
pub fn contains_ignore_case(s: &str, pat: &str) -> (r: bool)
    ensures
        r == icontains(s@, pat@),
{
    let n = s.unicode_len();
    let m = pat.unicode_len();
    if m > n {
        return false;
    }
    if m == 0 {
        proof {
            assert(iequal_seq(s@.subrange(0, 0 + pat@.len() as int), pat@));
        }
        return true;
    }
    let mut k: usize = 0;
    while k <= n - m
        invariant
            0 <= k <= n - m + 1,
            m <= n,
            n == s@.len(),
            m == pat@.len(),
            forall|k0: int|
                0 <= k0 < k ==> !iequal_seq(#[trigger] s@.subrange(k0, k0 + pat@.len()), pat@),
        decreases n - k,
    {
        let mut i: usize = 0;
        let mut matched: bool = true;
        while i < m
            invariant
                0 <= i <= m,
                k + m <= n,
                n == s@.len(),
                m == pat@.len(),
                matched ==> forall|j: int| 0 <= j < i ==> chars_iequal(s@[k + j], pat@[j]),
                !matched ==> !iequal_seq(s@.subrange(k as int, k + pat@.len()), pat@),
            decreases m - i,
        {
            let ca = s.get_char(k + i) as u32;
            let cb = pat.get_char(i) as u32;
            let fa = if 0x41 <= ca && ca <= 0x5A {
                ca + 0x20
            } else {
                ca
            };
            let fb = if 0x41 <= cb && cb <= 0x5A {
                cb + 0x20
            } else {
                cb
            };
            if fa != fb {
                matched = false;
                proof {
                    assert(!chars_iequal(s@[k + i], pat@[i as int]));
                    assert(!iequal_seq(s@.subrange(k as int, k + pat@.len()), pat@)) by {
                        assert(s@.subrange(k as int, k + pat@.len())[i as int] == s@[k + i]);
                    }
                }
                i = m;
            } else {
                i = i + 1;
            }
        }
        if matched {
            proof {
                let sub = s@.subrange(k as int, k + pat@.len());
                assert forall|j: int| 0 <= j < sub.len() implies chars_iequal(sub[j], pat@[j]) by {
                    assert(sub[j] == s@[k + j]);
                }
                assert(iequal_seq(sub, pat@));
            }
            return true;
        }
        k = k + 1;
    }
    proof {
        assert forall|k0: int| 0 <= k0 && k0 + pat@.len() <= s@.len() implies !iequal_seq(
            #[trigger] s@.subrange(k0, k0 + pat@.len()),
            pat@,
        ) by {}
    }
    false
}

/// The decimal digit character for `d` in `0..10`.
pub open spec fn dec_digit(d: int) -> char {
    if d == 0 {
        '0'
    } else if d == 1 {
        '1'
    } else if d == 2 {
        '2'
    } else if d == 3 {
        '3'
    } else if d == 4 {
        '4'
    } else if d == 5 {
        '5'
    } else if d == 6 {
        '6'
    } else if d == 7 {
        '7'
    } else if d == 8 {
        '8'
    } else {
        '9'
    }
}

/// The decimal rendering of `n`, most significant digit first, no leading
/// zeros except for `n == 0`.
pub open spec fn dec_spec(n: nat) -> Seq<char>
    decreases n,
{
    if n < 10 {
        seq![dec_digit(n as int)]
    } else {
        dec_spec(n / 10).push(dec_digit((n % 10) as int))
    }
}

fn digit_str(d: u64) -> (r: &'static str)
    requires
        d < 10,
    ensures
        r@ =~= seq![dec_digit(d as int)],
{
    proof {
        reveal_strlit("0");
        reveal_strlit("1");
        reveal_strlit("2");
        reveal_strlit("3");
        reveal_strlit("4");
        reveal_strlit("5");
        reveal_strlit("6");
        reveal_strlit("7");
        reveal_strlit("8");
        reveal_strlit("9");
    }
    if d == 0 {
        "0"
    } else if d == 1 {
        "1"
    } else if d == 2 {
        "2"
    } else if d == 3 {
        "3"
    } else if d == 4 {
        "4"
    } else if d == 5 {
        "5"
    } else if d == 6 {
        "6"
    } else if d == 7 {
        "7"
    } else if d == 8 {
        "8"
    } else {
        "9"
    }
}

/// Render `n` in decimal, proved against [`dec_spec`].
pub fn u64_to_string(n: u64) -> (r: String)
    ensures
        r@ == dec_spec(n as nat),
    decreases n,
{
    if n < 10 {
        let mut s = String::new();
        s.append(digit_str(n));
        proof {
            assert(s@ =~= dec_spec(n as nat));
        }
        s
    } else {
        let mut s = u64_to_string(n / 10);
        s.append(digit_str(n % 10));
        proof {
            assert(s@ =~= dec_spec(n as nat));
        }
        s
    }
}

/// What `String::from_utf8_lossy` yields for the given bytes. The decoding of
/// ill-formed sequences takes pages to state, so the result only carries a
/// name; the clauses of [`lossy_string`] pin down what the documentation
/// promises of it.
pub uninterp spec fn lossy_utf8(bytes: Seq<u8>) -> Seq<char>;

/// Relies on `String::from_utf8_lossy`: a pure function of the bytes, empty
/// exactly on empty input, and the identity on ASCII input (ASCII is valid
/// UTF-8, and valid UTF-8 passes through unchanged).
#[verifier::external_body]
pub fn lossy_string(bytes: &[u8]) -> (r: String)
    ensures
        r@ == lossy_utf8(bytes@),
        bytes@.len() == 0 <==> r@.len() == 0,
        (forall|i: int| 0 <= i < bytes@.len() ==> bytes@[i] < 128) ==> r@ == bytes@.map_values(
            |b: u8| b as char,
        ),
{
    String::from_utf8_lossy(bytes).into_owned()
}

/// Capture a request or response body for display: `None` for an empty body,
/// otherwise the lossy decoding of the first `max_len` bytes.
pub fn truncate_body(bytes: &[u8], max_len: usize) -> (r: Option<String>)
    ensures
        bytes@.len() == 0 ==> r is None,
        bytes@.len() > 0 ==> (r matches Some(s) && s@ == lossy_utf8(
            bytes@.take(
                if bytes@.len() <= max_len {
                    bytes@.len() as int
                } else {
                    max_len as int
                },
            ),
        )),
{
    if bytes.is_empty() {
        return None;
    }
    let n = bytes.len();
    let m = if n <= max_len {
        n
    } else {
        max_len
    };
    let prefix = &bytes[0..m];
    proof {
        assert(prefix@ =~= bytes@.take(m as int));
    }
    Some(lossy_string(prefix))
}

} // verus!
