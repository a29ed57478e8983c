//! Glob-style wildcard matching over path strings.
//!
//! A pattern matches a path character by character; `?` matches any single
//! character other than the separator `/`, and `*` matches any (possibly
//! empty) run of characters other than `/`, so a wildcard never crosses a
//! path-component boundary. Every other character matches only itself.
//!
//! A glob pattern also determines a fixed base directory: the part of the
//! pattern before the last `/` that precedes its first wildcard. Matches
//! are named relative to that base.

use vstd::prelude::*;
use crate::path_text::{is_wildcard_char, has_wildcard, is_absolute, beneath};

verus! {

/// Whether the glob pattern `p` matches the whole string `s`.
pub open spec fn glob_match(p: Seq<char>, s: Seq<char>) -> bool
    decreases p.len(), s.len(),
{
    if p.len() == 0 {
        s.len() == 0
    } else if p[0] == '*' {
        ||| glob_match(p.drop_first(), s)
        ||| (s.len() > 0 && s[0] != '/' && glob_match(p, s.drop_first()))
    } else if p[0] == '?' {
        s.len() > 0 && s[0] != '/' && glob_match(p.drop_first(), s.drop_first())
    } else {
        s.len() > 0 && s[0] == p[0] && glob_match(p.drop_first(), s.drop_first())
    }
}

/// The index of the first wildcard character of `p`, or `p.len()` if there
/// is none.
pub open spec fn first_wildcard(p: Seq<char>) -> int
    decreases p.len(),
{
    if p.len() == 0 {
        0
    } else if is_wildcard_char(p[0]) {
        0
    } else {
        1 + first_wildcard(p.drop_first())
    }
}

/// The largest index `j < k` with `p[j] == '/'`, or `-1` if there is none.
pub open spec fn last_slash_before(p: Seq<char>, k: int) -> int
    decreases k,
{
    if k <= 0 {
        -1
    } else if p[k - 1] == '/' {
        k - 1
    } else {
        last_slash_before(p, k - 1)
    }
}

/// The length of the fixed base directory of the glob pattern `p`: the part
/// before the last `/` that precedes the first wildcard.
pub open spec fn glob_base_len(p: Seq<char>) -> int {
    last_slash_before(p, first_wildcard(p))
}

/// The fixed base directory of the glob pattern `p`.
pub open spec fn glob_base(p: Seq<char>) -> Seq<char> {
    p.subrange(0, if glob_base_len(p) >= 0 { glob_base_len(p) } else { 0 })
}

pub proof fn lemma_first_wildcard_bounds(p: Seq<char>)
    ensures
        0 <= first_wildcard(p) <= p.len(),
        forall|j: int| 0 <= j < first_wildcard(p) ==> !is_wildcard_char(p[j]),
        first_wildcard(p) < p.len() ==> is_wildcard_char(p[first_wildcard(p)]),
        has_wildcard(p) <==> first_wildcard(p) < p.len(),
    decreases p.len(),
{
    if p.len() == 0 {
    } else if is_wildcard_char(p[0]) {
    } else {
        lemma_first_wildcard_bounds(p.drop_first());
        let w = first_wildcard(p);
        assert(forall|j: int| 1 <= j < w ==> p[j] == p.drop_first()[j - 1]);
        if has_wildcard(p) {
            let i = choose|i: int| 0 <= i < p.len() && is_wildcard_char(p[i]);
            assert(p.drop_first()[i - 1] == p[i]);
            assert(has_wildcard(p.drop_first()));
        }
        if has_wildcard(p.drop_first()) {
            let i = choose|i: int|
                0 <= i < p.drop_first().len() && is_wildcard_char(p.drop_first()[i]);
            assert(p[i + 1] == p.drop_first()[i]);
        }
    }
}

pub proof fn lemma_last_slash_before_bounds(p: Seq<char>, k: int)
    requires
        0 <= k <= p.len(),
    ensures
        -1 <= last_slash_before(p, k) < k,
        last_slash_before(p, k) >= 0 ==> p[last_slash_before(p, k)] == '/',
        forall|j: int| last_slash_before(p, k) < j < k && 0 <= j ==> p[j] != '/',
        (k > 0 && p[0] == '/') ==> last_slash_before(p, k) >= 0,
    decreases k,
{
    if k <= 0 {
    } else if p[k - 1] == '/' {
    } else {
        lemma_last_slash_before_bounds(p, k - 1);
    }
}

/// A match consumes exactly one character of the path for every literal
/// character before the pattern's first wildcard, so the path begins with
/// the pattern's fixed literal prefix.
pub proof fn lemma_glob_literal_prefix(p: Seq<char>, s: Seq<char>)
    requires
        glob_match(p, s),
    ensures
        s.len() >= first_wildcard(p),
        s.subrange(0, first_wildcard(p)) == p.subrange(0, first_wildcard(p)),
        !has_wildcard(p) ==> s == p,
    decreases p.len(), s.len(),
{
    lemma_first_wildcard_bounds(p);
    let w = first_wildcard(p);
    if p.len() == 0 {
        assert(s =~= p);
    } else if is_wildcard_char(p[0]) {
        assert(s.subrange(0, 0) =~= p.subrange(0, 0));
    } else {
        lemma_glob_literal_prefix(p.drop_first(), s.drop_first());
        lemma_first_wildcard_bounds(p.drop_first());
        let w1 = first_wildcard(p.drop_first());
        assert(w == w1 + 1);
        assert(s.drop_first().subrange(0, w1) == p.drop_first().subrange(0, w1));
        assert forall|j: int| 0 <= j < w implies s[j] == p[j] by {
            if j == 0 {
            } else {
                assert(s.drop_first().subrange(0, w1)[j - 1] == s[j]);
                assert(p.drop_first().subrange(0, w1)[j - 1] == p[j]);
            }
        }
        assert(s.subrange(0, w) =~= p.subrange(0, w));
        if !has_wildcard(p) {
            if has_wildcard(p.drop_first()) {
                let i = choose|i: int|
                    0 <= i < p.drop_first().len() && is_wildcard_char(p.drop_first()[i]);
                assert(p[i + 1] == p.drop_first()[i]);
                assert(false);
            }
            assert(s.drop_first() == p.drop_first());
            assert(s =~= p);
        }
    }
}

/// A path matched by an absolute glob pattern with a wildcard lies strictly
/// beneath the pattern's fixed base directory, unless the path ends at the
/// separator itself (a shape no regular file path has).
pub proof fn lemma_glob_match_beneath(p: Seq<char>, s: Seq<char>)
    requires
        glob_match(p, s),
        is_absolute(p),
        has_wildcard(p),
        s.len() == 0 || s[s.len() - 1] != '/',
    ensures
        beneath(s, glob_base(p)),
{
    lemma_first_wildcard_bounds(p);
    let w = first_wildcard(p);
    lemma_last_slash_before_bounds(p, w);
    lemma_glob_literal_prefix(p, s);
    assert(w >= 1);
    let b = glob_base_len(p);
    assert(b >= 0);
    let base = glob_base(p);
    assert(base.len() == b);
    assert(s.subrange(0, w)[b] == p.subrange(0, w)[b]);
    assert(s[b] == '/');
    assert forall|j: int| 0 <= j < b implies s[j] == base[j] by {
        assert(s.subrange(0, w)[j] == p.subrange(0, w)[j]);
    }
    assert(s.subrange(0, b) =~= base);
    // s is at least w >= b + 1 characters long; if it were exactly b + 1,
    // its last character would be the separator at index b.
    if s.len() == b + 1 {
        assert(s[s.len() - 1] == '/');
        assert(false);
    }
    assert(s.len() > b + 1);
}

/// Whether the glob pattern `p` matches the whole string `s`, comparing
/// from positions `i` of the pattern and `j` of the path onward.
fn glob_match_at(p: &str, plen: usize, s: &str, slen: usize, i: usize, j: usize) -> (r: bool)
    requires
        plen == p@.len(),
        slen == s@.len(),
        i <= plen,
        j <= slen,
    ensures
        r == glob_match(p@.skip(i as int), s@.skip(j as int)),
    decreases plen - i, slen - j,
{
    proof {
        if i < plen {
            assert(p@.skip(i as int)[0] == p@[i as int]);
            assert(p@.skip(i as int).drop_first() =~= p@.skip(i as int + 1));
        }
        if j < slen {
            assert(s@.skip(j as int)[0] == s@[j as int]);
            assert(s@.skip(j as int).drop_first() =~= s@.skip(j as int + 1));
        }
    }
    if i == plen {
        return j == slen;
    }
    let pc = p.get_char(i);
    if pc == '*' {
        if glob_match_at(p, plen, s, slen, i + 1, j) {
            return true;
        }
        if j < slen && s.get_char(j) != '/' {
            return glob_match_at(p, plen, s, slen, i, j + 1);
        }
        false
    } else if pc == '?' {
        if j < slen && s.get_char(j) != '/' {
            glob_match_at(p, plen, s, slen, i + 1, j + 1)
        } else {
            false
        }
    } else {
        if j < slen && s.get_char(j) == pc {
            glob_match_at(p, plen, s, slen, i + 1, j + 1)
        } else {
            false
        }
    }
}

/// Whether the glob pattern `p` matches the whole path `s`.
pub fn text_glob_match(p: &str, s: &str) -> (r: bool)
    ensures
        r == glob_match(p@, s@),
{
    let plen: usize = p.unicode_len();
    let slen: usize = s.unicode_len();
    let r = glob_match_at(p, plen, s, slen, 0, 0);
    proof {
        assert(p@.skip(0) =~= p@);
        assert(s@.skip(0) =~= s@);
    }
    r
}

/// The index of the first wildcard character of `p`, or `p@.len()` if there
/// is none.
fn text_first_wildcard(p: &str) -> (r: usize)
    ensures
        r == first_wildcard(p@),
        r <= p@.len(),
{
    proof {
        lemma_first_wildcard_bounds(p@);
    }
    let plen: usize = p.unicode_len();
    let mut i: usize = 0;
    while i < plen
        invariant
            plen == p@.len(),
            i <= plen,
            forall|j: int| 0 <= j < i ==> !is_wildcard_char(p@[j]),
        decreases plen - i,
    {
        let c = p.get_char(i);
        if c == '*' || c == '?' {
            proof {
                lemma_first_wildcard_bounds(p@);
                let fw = first_wildcard(p@);
                if fw < i {
                    assert(is_wildcard_char(p@[fw]));
                    assert(false);
                }
                if i < fw {
                    assert(!is_wildcard_char(p@[i as int]));
                    assert(false);
                }
            }
            return i;
        }
        i += 1;
    }
    proof {
        lemma_first_wildcard_bounds(p@);
        let fw = first_wildcard(p@);
        if fw < plen {
            assert(is_wildcard_char(p@[fw]));
            assert(false);
        }
    }
    plen
}

/// The length of the fixed base directory of the glob pattern `p`.
pub fn text_glob_base_len(p: &str) -> (r: usize)
    requires
        is_absolute(p@),
        has_wildcard(p@),
    ensures
        r == glob_base_len(p@),
{
    let plen: usize = p.unicode_len();
    let w = text_first_wildcard(p);
    proof {
        lemma_first_wildcard_bounds(p@);
    }
    // scan backward for the last slash before it
    let mut k: usize = w;
    while k > 0
        invariant
            plen == p@.len(),
            k <= w,
            w <= plen,
            w == first_wildcard(p@),
            is_absolute(p@),
            has_wildcard(p@),
            last_slash_before(p@, w as int) == last_slash_before(p@, k as int),
        decreases k,
    {
        if p.get_char(k - 1) == '/' {
            proof {
                assert(last_slash_before(p@, k as int) == k - 1);
            }
            return k - 1;
        }
        proof {
            assert(last_slash_before(p@, k as int) == last_slash_before(p@, k as int - 1));
        }
        k -= 1;
    }
    proof {
        lemma_last_slash_before_bounds(p@, w as int);
        assert(w >= 1);
        assert(p@[0] == '/');
        assert(false);
    }
    0
}

} // verus!
