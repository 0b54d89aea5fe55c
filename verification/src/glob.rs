//! Matching of paths against patterns: glob patterns with `*` and `**`, and plain
//! patterns as substrings.
use vstd::prelude::*;

verus! {

/// Whether the pattern from index `i` on matches the whole text from index `j` on: `*`
/// matches a run of characters without `/`, `**` any run, and `**/` also nothing at all.
pub open spec fn glob_at(p: Seq<char>, i: nat, s: Seq<char>, j: nat) -> bool
    decreases p.len() - i, s.len() - j,
{
    if i >= p.len() {
        j >= s.len()
    } else if p[i as int] == '*' && i + 1 < p.len() && p[i + 1int] == '*' {
        let k = (i + 2) as nat;
        (k < p.len() && p[k as int] == '/' && glob_at(p, k + 1, s, j)) || glob_at(p, k, s, j) || (j
            < s.len() && glob_at(p, i, s, j + 1))
    } else if p[i as int] == '*' {
        glob_at(p, i + 1, s, j) || (j < s.len() && s[j as int] != '/' && glob_at(p, i, s, j + 1))
    } else {
        j < s.len() && s[j as int] == p[i as int] && glob_at(p, i + 1, s, j + 1)
    }
}

/// Whether `s` holds `p` as a contiguous part.
pub open spec fn has_substring(s: Seq<char>, p: Seq<char>) -> bool {
    exists|k: int| 0 <= k && k + p.len() <= s.len() && #[trigger] s.subrange(k, k + p.len()) == p
}

/// Whether a path matches a pattern: a pattern with `*` is a glob for the whole path,
/// any other pattern matches the paths that contain it.
pub open spec fn path_matches(path: Seq<char>, pattern: Seq<char>) -> bool {
    if pattern.contains('*') {
        glob_at(pattern, 0, path, 0)
    } else {
        has_substring(path, pattern)
    }
}

fn glob_exec(p: &Vec<char>, i: usize, s: &Vec<char>, j: usize) -> (r: bool)
    requires
        i <= p.len(),
        j <= s.len(),
    ensures
        r == glob_at(p@, i as nat, s@, j as nat),
    decreases p.len() - i, s.len() - j,
{
    if i >= p.len() {
        j >= s.len()
    } else if p[i] == '*' && i + 1 < p.len() && p[i + 1] == '*' {
        let k = i + 2;
        if k < p.len() && p[k] == '/' && glob_exec(p, k + 1, s, j) {
            return true;
        }
        if glob_exec(p, k, s, j) {
            return true;
        }
        j < s.len() && glob_exec(p, i, s, j + 1)
    } else if p[i] == '*' {
        glob_exec(p, i + 1, s, j) || (j < s.len() && s[j] != '/' && glob_exec(p, i, s, j + 1))
    } else {
        j < s.len() && s[j] == p[i] && glob_exec(p, i + 1, s, j + 1)
    }
}

/// Whether `s` holds `p` at position `k`.
fn occurs_at(s: &Vec<char>, p: &Vec<char>, k: usize) -> (r: bool)
    requires
        k + p.len() <= s.len(),
    ensures
        r == (s@.subrange(k as int, k + p.len()) == p@),
{
    let mut m: usize = 0;
    while m < p.len()
        invariant
            0 <= m <= p.len(),
            k + p.len() <= s.len(),
            forall|x: int| 0 <= x < m ==> s@[k + x] == p@[x],
        decreases p.len() - m,
    {
        if s[k + m] != p[m] {
            assert(s@.subrange(k as int, k + p.len())[m as int] != p@[m as int]);
            return false;
        }
        m += 1;
    }
    assert(s@.subrange(k as int, k + p.len()) =~= p@);
    true
}

fn substring_exec(s: &Vec<char>, p: &Vec<char>) -> (r: bool)
    ensures
        r == has_substring(s@, p@),
{
    if p.len() > s.len() {
        return false;
    }
    if p.len() == 0 {
        assert(s@.subrange(0, 0int + p@.len()) =~= p@);
        assert(has_substring(s@, p@));
        return true;
    }
    let last = s.len() - p.len();
    let mut k: usize = 0;
    while k <= last
        invariant
            0 < p.len() <= s.len(),
            last == s.len() - p.len(),
            k <= last + 1,
            forall|x: int| 0 <= x < k ==> #[trigger] s@.subrange(x, x + p.len()) != p@,
        decreases last + 1 - k,
    {
        if occurs_at(s, p, k) {
            return true;
        }
        k += 1;
    }
    false
}

/// The characters of a string.
fn char_vec(t: &str) -> (r: Vec<char>)
    ensures
        r@ == t@,
{
    let mut v: Vec<char> = Vec::new();
    let n = t.unicode_len();
    let mut i: usize = 0;
    while i < n
        invariant
            0 <= i <= n,
            n == t@.len(),
            v@ == t@.subrange(0, i as int),
        decreases n - i,
    {
        v.push(t.get_char(i));
        i += 1;
        assert(v@ =~= t@.subrange(0, i as int));
    }
    assert(t@.subrange(0, n as int) =~= t@);
    v
}

/// Whether a path matches a pattern.
pub fn matches_glob(path: &str, pattern: &str) -> (r: bool)
    ensures
        r == path_matches(path@, pattern@),
{
    let p = char_vec(pattern);
    let s = char_vec(path);
    let mut star = false;
    let mut i: usize = 0;
    while i < p.len()
        invariant
            0 <= i <= p.len(),
            p@ == pattern@,
            star == exists|x: int| 0 <= x < i && p@[x] == '*',
        decreases p.len() - i,
    {
        if p[i] == '*' {
            star = true;
        }
        i += 1;
    }
    assert(star == pattern@.contains('*'));
    if star {
        glob_exec(&p, 0, &s, 0)
    } else {
        substring_exec(&s, &p)
    }
}

} // verus!
