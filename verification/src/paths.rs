//! Path canonicalization and upstream URL synthesis.
//!
//! A service's `base_path` is kept canonical: it starts with `/` and, unless
//! it is the root `/` itself, does not end with `/`. Upstream URLs are built
//! by joining an upstream base with the path remainder, inserting or dropping
//! exactly one `/` at the boundary.

use vstd::prelude::*;

use crate::text::{is_space_char, lemma_trim_noop, trim_spec, trim_str};

verus! {

/// `s` with trailing `/` characters removed, but never below one character.
pub open spec fn drop_trailing_slashes(s: Seq<char>) -> Seq<char>
    decreases s.len(),
{
    if s.len() > 1 && s.last() == '/' {
        drop_trailing_slashes(s.drop_last())
    } else {
        s
    }
}

/// `s` with every trailing `/` removed, possibly leaving it empty.
pub open spec fn strip_all_trailing_slashes(s: Seq<char>) -> Seq<char>
    decreases s.len(),
{
    if s.len() > 0 && s.last() == '/' {
        strip_all_trailing_slashes(s.drop_last())
    } else {
        s
    }
}

/// The canonical form of a configured base path: trim whitespace, default an
/// empty path to `/`, prepend a missing leading `/`, and drop trailing `/`
/// characters down to the root.
pub open spec fn normalize_spec(s: Seq<char>) -> Seq<char> {
    let t = trim_spec(s);
    if t.len() == 0 {
        seq!['/']
    } else if t.first() == '/' {
        drop_trailing_slashes(t)
    } else {
        drop_trailing_slashes(seq!['/'] + t)
    }
}

proof fn lemma_drop_trailing_slashes_props(s: Seq<char>)
    requires
        s.len() >= 1,
    ensures
        1 <= drop_trailing_slashes(s).len() <= s.len(),
        drop_trailing_slashes(s).first() == s.first(),
        drop_trailing_slashes(s).len() > 1 ==> drop_trailing_slashes(s).last() != '/',
    decreases s.len(),
{
    if s.len() > 1 && s.last() == '/' {
        lemma_drop_trailing_slashes_props(s.drop_last());
    }
}

/// A normalized base path starts with `/` and, unless it is the root itself,
/// does not end with `/`.
pub proof fn lemma_normalize_canonical(s: Seq<char>)
    ensures
        normalize_spec(s).len() >= 1,
        normalize_spec(s).first() == '/',
        normalize_spec(s).len() > 1 ==> normalize_spec(s).last() != '/',
{
    let t = trim_spec(s);
    if t.len() == 0 {
    } else if t.first() == '/' {
        lemma_drop_trailing_slashes_props(t);
    } else {
        lemma_drop_trailing_slashes_props(seq!['/'] + t);
    }
}

/// Canonicalization is idempotent, except when the first pass leaves a
/// trailing whitespace character exposed by a dropped slash; the premise
/// rules exactly those inputs out.
pub proof fn lemma_normalize_idempotent(s: Seq<char>)
    requires
        !is_space_char(normalize_spec(s).last()),
    ensures
        normalize_spec(normalize_spec(s)) == normalize_spec(s),
{
    let r = normalize_spec(s);
    lemma_normalize_canonical(s);
    lemma_trim_noop(r);
    assert(trim_spec(r) == r);
    assert(normalize_spec(r) == drop_trailing_slashes(r));
    if r.len() == 1 {
        assert(drop_trailing_slashes(r) == r);
    } else {
        assert(r.last() != '/');
        assert(drop_trailing_slashes(r) == r);
    }
}

/// Canonicalize a configured base path; see [`normalize_spec`].
pub fn normalize_base_path(path: &str) -> (r: String)
    ensures
        r@ == normalize_spec(path@),
        r@.len() >= 1,
        r@.first() == '/',
        r@.len() > 1 ==> r@.last() != '/',
{
    proof {
        lemma_normalize_canonical(path@);
    }
    let t = trim_str(path);
    let n = t.unicode_len();
    if n == 0 {
        let r = String::from_str("/");
        proof {
            reveal_strlit("/");
            assert(r@ =~= normalize_spec(path@));
        }
        return r;
    }
    if t.get_char(0) == '/' {
        let mut hi: usize = n;
        proof {
            assert(t@.take(n as int) =~= t@);
        }
        while hi > 1 && t.get_char(hi - 1) == '/'
            invariant
                1 <= hi <= n,
                n == t@.len(),
                drop_trailing_slashes(t@) == drop_trailing_slashes(t@.take(hi as int)),
            decreases hi,
        {
            proof {
                let p = t@.take(hi as int);
                assert(p.last() == t@[hi - 1]);
                assert(p.drop_last() =~= t@.take(hi - 1));
            }
            hi = hi - 1;
        }
        proof {
            let p = t@.take(hi as int);
            if hi > 1 {
                assert(p.last() == t@[hi - 1]);
            }
            assert(drop_trailing_slashes(p) == p);
        }
        let r = t.substring_char(0, hi).to_owned();
        proof {
            assert(t@ =~= t@.take(n as int));
        }
        r
    } else {
        let ghost u = seq!['/'] + t@;
        let mut hi: usize = n;
        proof {
            assert(seq!['/'] + t@.take(n as int) =~= u);
        }
        while hi > 0 && t.get_char(hi - 1) == '/'
            invariant
                0 <= hi <= n,
                n == t@.len(),
                u == seq!['/'] + t@,
                drop_trailing_slashes(u) == drop_trailing_slashes(seq!['/'] + t@.take(hi as int)),
            decreases hi,
        {
            proof {
                let p = seq!['/'] + t@.take(hi as int);
                assert(p.last() == t@[hi - 1]);
                assert(p.len() > 1);
                assert(p.drop_last() =~= seq!['/'] + t@.take(hi - 1));
            }
            hi = hi - 1;
        }
        proof {
            let p = seq!['/'] + t@.take(hi as int);
            if hi > 0 {
                assert(p.last() == t@[hi - 1]);
            } else {
                assert(p =~= seq!['/']);
            }
            assert(drop_trailing_slashes(p) == p);
            assert(t@ =~= t@.take(n as int));
        }
        let mut r = String::from_str("/");
        proof {
            reveal_strlit("/");
        }
        r.append(t.substring_char(0, hi));
        proof {
            assert(r@ =~= seq!['/'] + t@.take(hi as int));
        }
        r
    }
}

/// The path remainder once a service's base path has been stripped: the root
/// base passes the path through, a matching prefix is removed, and a
/// non-matching one leaves the path unchanged.
pub open spec fn strip_base_spec(path: Seq<char>, base: Seq<char>) -> Seq<char> {
    if base.len() == 1 && base.first() == '/' {
        path
    } else if base.is_prefix_of(path) {
        path.skip(base.len() as int)
    } else {
        path
    }
}

/// Strip a canonical base path prefix from a request path; see
/// [`strip_base_spec`].
pub fn strip_base_path<'a>(path: &'a str, base: &str) -> (r: &'a str)
    ensures
        r@ == strip_base_spec(path@, base@),
{
    if base.unicode_len() == 1 && base.get_char(0) == '/' {
        return path;
    }
    if crate::text::str_starts_with(path, base) {
        let m = base.unicode_len();
        let n = path.unicode_len();
        return path.substring_char(m, n);
    }
    path
}

/// The upstream URL for a base and a path remainder: insert a `/` at the
/// boundary when neither side has one, drop one when both do, otherwise
/// concatenate.
pub open spec fn join_spec(base: Seq<char>, p: Seq<char>) -> Seq<char> {
    let base_slash = base.len() > 0 && base.last() == '/';
    let p_slash = p.len() > 0 && p.first() == '/';
    if base_slash && p_slash {
        base.drop_last() + p
    } else if !base_slash && !p_slash {
        base + seq!['/'] + p
    } else {
        base + p
    }
}

/// Join an upstream base URL and a path remainder; see [`join_spec`].
pub fn build_upstream_url(base: &str, path_and_query: &str) -> (r: String)
    ensures
        r@ == join_spec(base@, path_and_query@),
{
    let n = base.unicode_len();
    let m = path_and_query.unicode_len();
    let base_slash = n > 0 && base.get_char(n - 1) == '/';
    let p_slash = m > 0 && path_and_query.get_char(0) == '/';
    if base_slash && p_slash {
        let mut r = base.substring_char(0, n - 1).to_owned();
        r.append(path_and_query);
        proof {
            assert(base@.subrange(0, n - 1) =~= base@.drop_last());
        }
        r
    } else if !base_slash && !p_slash {
        let mut r = base.to_owned();
        r.append("/");
        r.append(path_and_query);
        proof {
            reveal_strlit("/");
            assert(r@ =~= base@ + seq!['/'] + path_and_query@);
        }
        r
    } else {
        let mut r = base.to_owned();
        r.append(path_and_query);
        r
    }
}

/// Remove every trailing `/` from an upstream base, as configuration
/// ingestion does; see [`strip_all_trailing_slashes`].
pub fn trim_trailing_slash(s: &str) -> (r: &str)
    ensures
        r@ == strip_all_trailing_slashes(s@),
{
    let n = s.unicode_len();
    let mut hi: usize = n;
    proof {
        assert(s@.take(n as int) =~= s@);
    }
    while hi > 0 && s.get_char(hi - 1) == '/'
        invariant
            0 <= hi <= n,
            n == s@.len(),
            strip_all_trailing_slashes(s@) == strip_all_trailing_slashes(s@.take(hi as int)),
        decreases hi,
    {
        proof {
            let p = s@.take(hi as int);
            assert(p.last() == s@[hi - 1]);
            assert(p.drop_last() =~= s@.take(hi - 1));
        }
        hi = hi - 1;
    }
    proof {
        let p = s@.take(hi as int);
        if hi > 0 {
            assert(p.last() == s@[hi - 1]);
        }
        assert(strip_all_trailing_slashes(p) == p);
    }
    s.substring_char(0, hi)
}

/// Joining the root path onto a base gives the same URL before and after the
/// base's trailing slashes are removed — except when the base ends in two or
/// more slashes, where dropping the single boundary slash cannot reproduce
/// them; the premise rules exactly those bases out.
pub proof fn lemma_join_root_trim(base: Seq<char>)
    requires
        base.len() >= 2 ==> !(base[base.len() - 1] == '/' && base[base.len() - 2] == '/'),
    ensures
        join_spec(base, seq!['/']) == join_spec(strip_all_trailing_slashes(base), seq!['/']),
{
    let root = seq!['/'];
    assert(root.len() == 1 && root.first() == '/');
    if base.len() == 0 || base.last() != '/' {
        assert(strip_all_trailing_slashes(base) == base);
    } else if base.len() == 1 {
        assert(base =~= root);
        let e = Seq::<char>::empty();
        assert(base.drop_last() =~= e);
        assert(strip_all_trailing_slashes(base) == strip_all_trailing_slashes(e));
        assert(strip_all_trailing_slashes(e) == e);
        assert(join_spec(base, root) =~= root);
        assert(join_spec(e, root) =~= root);
        assert(join_spec(base, root) == join_spec(strip_all_trailing_slashes(base), root));
    } else {
        let b1 = base.drop_last();
        assert(b1.last() == base[base.len() - 2]);
        assert(b1.last() != '/');
        assert(strip_all_trailing_slashes(base) == strip_all_trailing_slashes(b1));
        assert(strip_all_trailing_slashes(b1) == b1);
        assert(join_spec(base, root) == b1 + root);
        assert(join_spec(b1, root) == b1 + root);
    }
}

} // verus!
