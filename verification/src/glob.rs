//! Glob patterns over paths, for choosing which watched files count.
//!
//! In a pattern, `*` matches any run of characters other than `/`, `?` one
//! character other than `/`, `**` any run of characters, `**/` zero or more
//! whole directories, and every other character itself. A pattern matches a
//! path when it matches the whole path or the part after one of its `/`, so
//! `*.rs` matches `/src/main.rs` and `src/**/*.toml` matches
//! `/home/me/src/a/b.toml`.

use vstd::prelude::*;
use crate::text::strings_view;

verus! {

/// Pattern `p` from position `i` matches text `s` from position `j`.
pub open spec fn glob_from(p: Seq<char>, i: int, s: Seq<char>, j: int) -> bool
    decreases p.len() - i, s.len() - j, 0int,
{
    if i >= p.len() {
        j >= s.len()
    } else if p[i] == '*' && i + 1 < p.len() && p[i + 1] == '*' {
        if i + 2 < p.len() && p[i + 2] == '/' {
            glob_from(p, i + 3, s, j) || any_then_glob(p, i + 2, s, j)
        } else {
            any_then_glob(p, i + 2, s, j)
        }
    } else if p[i] == '*' {
        glob_from(p, i + 1, s, j) || (0 <= j < s.len() && s[j] != '/' && glob_from(p, i, s, j + 1))
    } else if p[i] == '?' {
        0 <= j < s.len() && s[j] != '/' && glob_from(p, i + 1, s, j + 1)
    } else {
        0 <= j < s.len() && s[j] == p[i] && glob_from(p, i + 1, s, j + 1)
    }
}

/// Some run of characters of `s` from `j` on is skipped and pattern `p`
/// from `i` matches the rest.
pub open spec fn any_then_glob(p: Seq<char>, i: int, s: Seq<char>, j: int) -> bool
    decreases p.len() - i, s.len() - j, 1int,
{
    glob_from(p, i, s, j) || (0 <= j < s.len() && any_then_glob(p, i, s, j + 1))
}

/// Pattern `p` matches the whole of `s`, or the part of `s` after one of its `/`.
pub open spec fn glob_matches_path(p: Seq<char>, s: Seq<char>) -> bool {
    exists|j: int| 0 <= j <= s.len() && (j == 0 || s[j - 1] == '/') && #[trigger] glob_from(p, 0, s, j)
}

/// Some pattern of `patterns` matches the path.
pub open spec fn some_pattern_matches(patterns: Seq<Seq<char>>, path: Seq<char>) -> bool {
    exists|k: int| 0 <= k < patterns.len() && #[trigger] glob_matches_path(patterns[k], path)
}

/// A path counts when it matches an include pattern (or there are none) and
/// no exclude pattern: exclusion wins.
pub open spec fn path_kept(include_patterns: Seq<Seq<char>>, exclude_patterns: Seq<Seq<char>>, path: Seq<char>) -> bool {
    &&& include_patterns.len() == 0 || some_pattern_matches(include_patterns, path)
    &&& !some_pattern_matches(exclude_patterns, path)
}

/// No character of `a` is a wildcard.
pub open spec fn is_literal(a: Seq<char>) -> bool {
    forall|m: int| 0 <= m < a.len() ==> #[trigger] a[m] != '*' && a[m] != '?'
}

/// No character of `w` is a `/`.
pub open spec fn within_one_name(w: Seq<char>) -> bool {
    forall|m: int| 0 <= m < w.len() ==> #[trigger] w[m] != '/'
}

proof fn lemma_literal_run(p: Seq<char>, i: int, s: Seq<char>, j: int, n: int)
    requires
        0 <= n,
        0 <= i,
        0 <= j,
        i + n <= p.len(),
        j + n <= s.len(),
        forall|m: int| 0 <= m < n ==> p[i + m] == #[trigger] s[j + m] && p[i + m] != '*' && p[i + m] != '?',
        glob_from(p, i + n, s, j + n),
    ensures
        glob_from(p, i, s, j),
    decreases n,
{
    if n > 0 {
        assert(p[(i + 1) + (n - 2)] == p[i + (n - 1)]);
        assert forall|m: int| 0 <= m < n - 1 implies p[(i + 1) + m] == #[trigger] s[(j + 1) + m]
            && p[(i + 1) + m] != '*' && p[(i + 1) + m] != '?' by {
            assert(p[i + (m + 1)] == s[j + (m + 1)]);
        }
        lemma_literal_run(p, i + 1, s, j + 1, n - 1);
        assert(p[i + 0] == s[j + 0]);
    }
}

proof fn lemma_star_run(p: Seq<char>, k: int, s: Seq<char>, j: int, n: int)
    requires
        0 <= n,
        0 <= k < p.len(),
        0 <= j,
        j + n <= s.len(),
        p[k] == '*',
        k + 1 < p.len() ==> p[k + 1] != '*',
        forall|m: int| 0 <= m < n ==> #[trigger] s[j + m] != '/',
        glob_from(p, k + 1, s, j + n),
    ensures
        glob_from(p, k, s, j),
    decreases n,
{
    if n > 0 {
        assert forall|m: int| 0 <= m < n - 1 implies #[trigger] s[(j + 1) + m] != '/' by {
            assert(s[j + (m + 1)] != '/');
        }
        lemma_star_run(p, k, s, j + 1, n - 1);
        assert(s[j + 0] != '/');
    }
}

/// A `*` anywhere in a pattern matches any run of characters without `/`:
/// between a literal prefix `a` and a literal suffix `b` it stands for any
/// such run `w`. So `_*.scss` matches `_x.scss`, and `*.rs` matches `main.rs`.
pub proof fn lemma_star_matches_any_name_part(a: Seq<char>, w: Seq<char>, b: Seq<char>)
    requires
        is_literal(a),
        is_literal(b),
        within_one_name(w),
    ensures
        glob_from(a + seq!['*'] + b, 0, a + w + b, 0),
        glob_matches_path(a + seq!['*'] + b, a + w + b),
{
    let p = a + seq!['*'] + b;
    let s = a + w + b;
    let k = a.len() as int;
    let sb = (a.len() + w.len()) as int;
    // the suffix matches literally up to the end
    assert(glob_from(p, p.len() as int, s, s.len() as int));
    assert forall|m: int| 0 <= m < b.len() implies p[(k + 1) + m] == #[trigger] s[sb + m]
        && p[(k + 1) + m] != '*' && p[(k + 1) + m] != '?' by {
        assert(p[(k + 1) + m] == b[m]);
        assert(s[sb + m] == b[m]);
    }
    lemma_literal_run(p, k + 1, s, sb, b.len() as int);
    // the star takes all of w
    assert(p[k] == '*');
    if k + 1 < p.len() {
        assert(p[k + 1] == b[0]);
    }
    assert forall|m: int| 0 <= m < w.len() implies #[trigger] s[k + m] != '/' by {
        assert(s[k + m] == w[m]);
    }
    lemma_star_run(p, k, s, k, w.len() as int);
    // the prefix matches literally
    assert forall|m: int| 0 <= m < a.len() implies p[0 + m] == #[trigger] s[0 + m]
        && p[0 + m] != '*' && p[0 + m] != '?' by {
        assert(p[m] == a[m]);
        assert(s[m] == a[m]);
    }
    lemma_literal_run(p, 0, s, 0, k);
    assert(glob_from(p, 0, s, 0));
}

fn chars_of(s: &str) -> (r: Vec<char>)
    ensures
        r@ == s@,
{
    let n = s.unicode_len();
    let mut r: Vec<char> = Vec::new();
    let mut i: usize = 0;
    while i < n
        invariant
            n == s@.len(),
            i <= n,
            r@ == s@.take(i as int),
        decreases n - i,
    {
        r.push(s.get_char(i));
        assert(r@ =~= s@.take(i + 1));
        i = i + 1;
    }
    assert(s@.take(n as int) =~= s@);
    r
}

fn glob_at(p: &Vec<char>, i: usize, s: &Vec<char>, j: usize) -> (r: bool)
    requires
        i <= p.len(),
        j <= s.len(),
    ensures
        r == glob_from(p@, i as int, s@, j as int),
    decreases p.len() - i, s.len() - j, 0int,
{
    if i >= p.len() {
        j >= s.len()
    } else if p[i] == '*' && i + 1 < p.len() && p[i + 1] == '*' {
        if i + 2 < p.len() && p[i + 2] == '/' {
            glob_at(p, i + 3, s, j) || any_then_glob_at(p, i + 2, s, j)
        } else {
            any_then_glob_at(p, i + 2, s, j)
        }
    } else if p[i] == '*' {
        glob_at(p, i + 1, s, j) || (j < s.len() && s[j] != '/' && glob_at(p, i, s, j + 1))
    } else if p[i] == '?' {
        j < s.len() && s[j] != '/' && glob_at(p, i + 1, s, j + 1)
    } else {
        j < s.len() && s[j] == p[i] && glob_at(p, i + 1, s, j + 1)
    }
}

fn any_then_glob_at(p: &Vec<char>, i: usize, s: &Vec<char>, j: usize) -> (r: bool)
    requires
        i <= p.len(),
        j <= s.len(),
    ensures
        r == any_then_glob(p@, i as int, s@, j as int),
    decreases p.len() - i, s.len() - j, 1int,
{
    glob_at(p, i, s, j) || (j < s.len() && any_then_glob_at(p, i, s, j + 1))
}

/// Whether the pattern matches the path, as `glob_matches_path` says.
pub fn glob_match(pattern: &str, path: &str) -> (r: bool)
    ensures
        r == glob_matches_path(pattern@, path@),
{
    let p = chars_of(pattern);
    let s = chars_of(path);
    let mut j: usize = 0;
    while j < s.len()
        invariant
            p@ == pattern@,
            s@ == path@,
            j <= s.len(),
            forall|k: int| 0 <= k < j && (k == 0 || s@[k - 1] == '/') ==> !#[trigger] glob_from(p@, 0, s@, k),
        decreases s.len() - j,
    {
        if (j == 0 || s[j - 1] == '/') && glob_at(&p, 0, &s, j) {
            return true;
        }
        j = j + 1;
    }
    (j == 0 || s[j - 1] == '/') && glob_at(&p, 0, &s, j)
}

fn any_pattern_matches(patterns: &Vec<String>, path: &str) -> (r: bool)
    ensures
        r == some_pattern_matches(strings_view(patterns@), path@),
{
    let ghost ps = strings_view(patterns@);
    let mut k: usize = 0;
    while k < patterns.len()
        invariant
            k <= patterns.len(),
            ps == strings_view(patterns@),
            forall|m: int| 0 <= m < k ==> !#[trigger] glob_matches_path(ps[m], path@),
        decreases patterns.len() - k,
    {
        if glob_match(patterns[k].as_str(), path) {
            assert(glob_matches_path(ps[k as int], path@));
            return true;
        }
        k = k + 1;
    }
    false
}

/// Whether a path counts for a handler with these include and exclude patterns.
pub fn path_is_kept(include_patterns: &Vec<String>, exclude_patterns: &Vec<String>, path: &str) -> (r: bool)
    ensures
        r == path_kept(strings_view(include_patterns@), strings_view(exclude_patterns@), path@),
{
    let included = include_patterns.len() == 0 || any_pattern_matches(include_patterns, path);
    included && !any_pattern_matches(exclude_patterns, path)
}

} // verus!
