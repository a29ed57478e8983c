//! The textual model of paths.
//!
//! Paths are plain strings with `/` as the (platform-neutral) separator.
//! A path is absolute exactly when its first character is `/`. Joining a
//! relative path onto a directory inserts a single `/` between the two.
//! A path lies strictly beneath a base directory when it consists of the
//! base, a `/`, and a non-empty remainder; that remainder is the path's
//! relative name under the base.

use vstd::prelude::*;

verus! {

/// Whether `c` is a glob wildcard character.
pub open spec fn is_wildcard_char(c: char) -> bool {
    c == '*' || c == '?'
}

/// Whether the pattern string contains a glob wildcard character.
pub open spec fn has_wildcard(s: Seq<char>) -> bool {
    exists|i: int| 0 <= i < s.len() && is_wildcard_char(s[i])
}

/// Whether the path is absolute: non-empty and starting with `/`.
pub open spec fn is_absolute(s: Seq<char>) -> bool {
    s.len() > 0 && s[0] == '/'
}

/// The path `rel` joined onto the directory `dir` with a single `/`.
pub open spec fn join(dir: Seq<char>, rel: Seq<char>) -> Seq<char> {
    dir + seq!['/'] + rel
}

/// Whether `path` lies strictly beneath the directory `base`: it is the
/// base followed by `/` and a non-empty remainder.
pub open spec fn beneath(path: Seq<char>, base: Seq<char>) -> bool {
    &&& path.len() > base.len() + 1
    &&& path.subrange(0, base.len() as int) == base
    &&& path[base.len() as int] == '/'
}

/// The relative name of a path that lies strictly beneath `base`: the
/// remainder after the base directory and its trailing separator.
pub open spec fn relative_name_of(path: Seq<char>, base: Seq<char>) -> Seq<char> {
    path.subrange(base.len() as int + 1, path.len() as int)
}

/// Whether the pattern string contains a glob wildcard character.
pub fn text_has_wildcard(s: &str) -> (r: bool)
    ensures
        r == has_wildcard(s@),
{
    let n: usize = s.unicode_len();
    let mut i: usize = 0;
    while i < n
        invariant
            n == s@.len(),
            i <= n,
            forall|j: int| 0 <= j < i ==> !is_wildcard_char(s@[j]),
        decreases n - i,
    {
        let c = s.get_char(i);
        if c == '*' || c == '?' {
            return true;
        }
        i += 1;
    }
    false
}

/// Whether the path is absolute.
pub fn text_is_absolute(s: &str) -> (r: bool)
    ensures
        r == is_absolute(s@),
{
    let n: usize = s.unicode_len();
    if n == 0 {
        return false;
    }
    s.get_char(0) == '/'
}

/// Joins `rel` onto the directory `dir` with a single `/`.
pub fn text_join(dir: &str, rel: &str) -> (r: String)
    ensures
        r@ == join(dir@, rel@),
{
    proof {
        reveal_strlit("/");
    }
    let joined = String::from_str(dir).concat("/").concat(rel);
    proof {
        assert(joined@ =~= join(dir@, rel@));
    }
    joined
}

/// Whether `path` lies strictly beneath the directory `base`.
pub fn text_beneath(path: &str, base: &str) -> (r: bool)
    ensures
        r == beneath(path@, base@),
{
    let plen: usize = path.unicode_len();
    let blen: usize = base.unicode_len();
    if blen >= usize::MAX - 1 || plen <= blen + 1 {
        assert(!beneath(path@, base@));
        return false;
    }
    if path.get_char(blen) != '/' {
        return false;
    }
    let mut i: usize = 0;
    while i < blen
        invariant
            plen == path@.len(),
            blen == base@.len(),
            plen > blen + 1,
            i <= blen,
            forall|j: int| 0 <= j < i ==> path@[j] == base@[j],
        decreases blen - i,
    {
        if path.get_char(i) != base.get_char(i) {
            assert(path@.subrange(0, base@.len() as int)[i as int] != base@[i as int]);
            return false;
        }
        i += 1;
    }
    proof {
        assert(path@.subrange(0, base@.len() as int) =~= base@);
    }
    true
}

/// The relative name of `path` under `base`, as a fresh string.
pub fn text_relative_name(path: &str, base_len: usize) -> (r: String)
    requires
        base_len + 1 < path@.len(),
    ensures
        r@ == path@.subrange(base_len + 1, path@.len() as int),
{
    let plen: usize = path.unicode_len();
    let tail = path.substring_char(base_len + 1, plen);
    String::from_str(tail)
}

/// The path with every `/./` segment collapsed to a single `/`.
pub open spec fn collapse_dot_segments(s: Seq<char>) -> Seq<char>
    decreases s.len(),
{
    if s.len() < 3 {
        s
    } else if s[0] == '/' && s[1] == '.' && s[2] == '/' {
        collapse_dot_segments(s.skip(2))
    } else {
        seq![s[0]] + collapse_dot_segments(s.skip(1))
    }
}

/// The path with every trailing `/` removed, down to a single character.
pub open spec fn strip_trailing_slashes(s: Seq<char>) -> Seq<char>
    decreases s.len(),
{
    if s.len() >= 2 && s[s.len() - 1] == '/' {
        strip_trailing_slashes(s.drop_last())
    } else {
        s
    }
}

/// The normalized form of a path: `/./` segments collapsed, trailing
/// separators stripped. A base directory in this form never ends with `/`,
/// so paths beneath it compare textually.
pub open spec fn normalize_path(s: Seq<char>) -> Seq<char> {
    strip_trailing_slashes(collapse_dot_segments(s))
}

/// Collapsing keeps the first character and the length positive, so an
/// absolute path stays absolute and a relative one relative; it also keeps
/// every wildcard character, since only `/` and `.` characters are dropped.
pub proof fn lemma_collapse_preserves(s: Seq<char>)
    ensures
        collapse_dot_segments(s).len() > 0 <==> s.len() > 0,
        s.len() > 0 ==> collapse_dot_segments(s)[0] == s[0],
        has_wildcard(s) ==> has_wildcard(collapse_dot_segments(s)),
    decreases s.len(),
{
    let c = collapse_dot_segments(s);
    if s.len() < 3 {
    } else if s[0] == '/' && s[1] == '.' && s[2] == '/' {
        lemma_collapse_preserves(s.skip(2));
        assert(s.skip(2)[0] == s[2]);
        if has_wildcard(s) {
            let i = choose|i: int| 0 <= i < s.len() && is_wildcard_char(s[i]);
            assert(i >= 2);
            assert(s.skip(2)[i - 2] == s[i]);
            assert(has_wildcard(s.skip(2)));
        }
    } else {
        lemma_collapse_preserves(s.skip(1));
        if has_wildcard(s) {
            let i = choose|i: int| 0 <= i < s.len() && is_wildcard_char(s[i]);
            if i == 0 {
                assert(c[0] == s[0]);
            } else {
                assert(s.skip(1)[i - 1] == s[i]);
                assert(has_wildcard(s.skip(1)));
                let j = choose|j: int|
                    0 <= j < collapse_dot_segments(s.skip(1)).len() && is_wildcard_char(
                        collapse_dot_segments(s.skip(1))[j],
                    );
                assert(c[j + 1] == collapse_dot_segments(s.skip(1))[j]);
            }
        }
    }
}

/// Stripping trailing separators keeps the first character, a positive
/// length, and every wildcard character.
pub proof fn lemma_strip_preserves(s: Seq<char>)
    ensures
        strip_trailing_slashes(s).len() > 0 <==> s.len() > 0,
        s.len() > 0 ==> strip_trailing_slashes(s)[0] == s[0],
        has_wildcard(s) ==> has_wildcard(strip_trailing_slashes(s)),
    decreases s.len(),
{
    if s.len() >= 2 && s[s.len() - 1] == '/' {
        lemma_strip_preserves(s.drop_last());
        if has_wildcard(s) {
            let i = choose|i: int| 0 <= i < s.len() && is_wildcard_char(s[i]);
            assert(i < s.len() - 1);
            assert(s.drop_last()[i] == s[i]);
            assert(has_wildcard(s.drop_last()));
        }
    }
}

/// Normalization keeps absoluteness (in both directions) and every
/// wildcard character.
pub proof fn lemma_normalize_preserves(s: Seq<char>)
    ensures
        is_absolute(normalize_path(s)) <==> is_absolute(s),
        has_wildcard(s) ==> has_wildcard(normalize_path(s)),
{
    lemma_collapse_preserves(s);
    lemma_strip_preserves(collapse_dot_segments(s));
}

/// The path with every `/./` segment collapsed to a single `/`.
pub fn text_collapse_dot_segments(s: &str) -> (r: String)
    ensures
        r@ == collapse_dot_segments(s@),
    decreases s@.len(),
{
    let n: usize = s.unicode_len();
    if n < 3 {
        return String::from_str(s);
    }
    if s.get_char(0) == '/' && s.get_char(1) == '.' && s.get_char(2) == '/' {
        let tail = s.substring_char(2, n);
        proof {
            assert(tail@ =~= s@.skip(2));
        }
        text_collapse_dot_segments(tail)
    } else {
        let head = s.substring_char(0, 1);
        let tail = s.substring_char(1, n);
        proof {
            assert(tail@ =~= s@.skip(1));
            assert(head@ =~= seq![s@[0]]);
        }
        let rest = text_collapse_dot_segments(tail);
        String::from_str(head).concat(rest.as_str())
    }
}

/// The normalized form of a path: `/./` segments collapsed, trailing
/// separators stripped.
pub fn text_normalize(s: &str) -> (r: String)
    ensures
        r@ == normalize_path(s@),
{
    let collapsed = text_collapse_dot_segments(s);
    let c = collapsed.as_str();
    let n: usize = c.unicode_len();
    proof {
        assert(c@.subrange(0, n as int) =~= c@);
    }
    let mut end: usize = n;
    while end >= 2 && c.get_char(end - 1) == '/'
        invariant
            n == c@.len(),
            end <= n,
            strip_trailing_slashes(c@) == strip_trailing_slashes(c@.subrange(0, end as int)),
        decreases end,
    {
        proof {
            assert(c@.subrange(0, end as int).drop_last() =~= c@.subrange(0, end as int - 1));
        }
        end -= 1;
    }
    proof {
        assert(strip_trailing_slashes(c@.subrange(0, end as int)) == c@.subrange(0, end as int));
    }
    String::from_str(c.substring_char(0, end))
}

/// Joining onto a directory keeps every wildcard character of the relative
/// part, so a pattern with a wildcard still has one after resolution.
pub proof fn lemma_join_keeps_wildcard(dir: Seq<char>, rel: Seq<char>)
    requires
        has_wildcard(rel),
    ensures
        has_wildcard(join(dir, rel)),
{
    let i = choose|i: int| 0 <= i < rel.len() && is_wildcard_char(rel[i]);
    let j = dir.len() + 1 + i;
    assert(join(dir, rel)[j] == rel[i]);
}

} // verus!
