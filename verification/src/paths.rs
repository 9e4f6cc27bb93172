//! Lexical path handling.
//!
//! Request paths and filesystem paths are modelled as plain strings of
//! `/`-separated segments.  This module defines traversal detection (a `..`
//! segment anywhere in the path), lexical joining, and the suffix operations
//! used by the upward `index.html` search: stripping trailing slashes and
//! removing the last path segment.

use vstd::prelude::*;

verus! {

/// A `..` segment starts at index `i` of `s`: two dots delimited on both
/// sides by a `/` or by an end of the string.
pub open spec fn is_dot_dot_at(s: Seq<char>, i: int) -> bool {
    &&& 0 <= i
    &&& i + 2 <= s.len()
    &&& s[i] == '.'
    &&& s[i + 1] == '.'
    &&& (i == 0 || s[i - 1] == '/')
    &&& (i + 2 == s.len() || s[i + 2] == '/')
}

/// A path attempts directory traversal when some full segment equals `..`.
pub open spec fn has_traversal_seq(s: Seq<char>) -> bool {
    exists|i: int| is_dot_dot_at(s, i)
}

/// Lexically scan a path for a parent-directory (`..`) segment.
pub fn has_traversal(path: &str) -> (b: bool)
    ensures
        b == has_traversal_seq(path@),
{
    let n: usize = path.unicode_len();
    let mut found = false;
    let mut i: usize = 0;
    if n >= 2 {
        while i <= n - 2
            invariant
                n == path@.len(),
                2 <= n,
                0 <= i <= n,
                found == exists|j: int| j < i && is_dot_dot_at(path@, j),
            decreases n - i,
        {
            let two_dots = path.get_char(i) == '.' && path.get_char(i + 1) == '.';
            let left_ok = i == 0 || path.get_char(i - 1) == '/';
            let right_ok = i + 2 == n || path.get_char(i + 2) == '/';
            if two_dots && left_ok && right_ok {
                proof {
                    assert(is_dot_dot_at(path@, i as int));
                }
                found = true;
            } else {
                proof {
                    assert(!is_dot_dot_at(path@, i as int));
                }
            }
            i = i + 1;
        }
    }
    proof {
        if has_traversal_seq(path@) {
            let j = choose|j: int| is_dot_dot_at(path@, j);
            assert(j < i);
        }
    }
    found
}

/// Join a base path and a relative path with a single `/` between them.
pub open spec fn join_seq(base: Seq<char>, rel: Seq<char>) -> Seq<char> {
    base + seq!['/'] + rel
}

/// Lexical join: `base`, a `/` separator, then `rel`.
pub fn join(base: &str, rel: &str) -> (r: String)
    ensures
        r@ == join_seq(base@, rel@),
{
    let mut r = String::new();
    r.append(base);
    r.append("/");
    r.append(rel);
    proof {
        reveal_strlit("/");
        assert(r@ =~= join_seq(base@, rel@));
    }
    r
}

/// Joining cannot create or hide a `..` segment: the joined path has one
/// exactly when the base or the relative part has one.  The inserted `/`
/// only turns the ends of the two parts into segment boundaries, which
/// they already were.
pub proof fn lemma_join_traversal(base: Seq<char>, rel: Seq<char>)
    ensures
        has_traversal_seq(join_seq(base, rel)) == (has_traversal_seq(base) || has_traversal_seq(
            rel,
        )),
{
    let c = join_seq(base, rel);
    let bl = base.len() as int;
    if has_traversal_seq(c) {
        let i = choose|i: int| is_dot_dot_at(c, i);
        assert(c[bl] == '/');
        if i + 2 <= bl {
            assert(is_dot_dot_at(base, i));
        } else {
            assert(i != bl && i + 1 != bl);
            assert(i > bl);
            assert(is_dot_dot_at(rel, i - bl - 1));
        }
    }
    if has_traversal_seq(base) {
        let i = choose|i: int| is_dot_dot_at(base, i);
        assert(is_dot_dot_at(c, i));
    }
    if has_traversal_seq(rel) {
        let j = choose|j: int| is_dot_dot_at(rel, j);
        assert(is_dot_dot_at(c, bl + 1 + j));
    }
}

/// Remove a single trailing `/`, if the path ends with one.
pub open spec fn strip_one_slash(s: Seq<char>) -> Seq<char> {
    if s.len() > 0 && s.last() == '/' {
        s.drop_last()
    } else {
        s
    }
}

/// Remove one trailing `/` from a path, if present.
pub fn strip_one_trailing_slash(path: &str) -> (r: String)
    ensures
        r@ == strip_one_slash(path@),
{
    let n: usize = path.unicode_len();
    if n > 0 && path.get_char(n - 1) == '/' {
        let r = path.substring_char(0, n - 1).to_owned();
        proof {
            assert(r@ =~= path@.drop_last());
        }
        r
    } else {
        path.to_owned()
    }
}

/// Remove every trailing `/`.
pub open spec fn strip_trailing_slashes(s: Seq<char>) -> Seq<char>
    decreases s.len(),
{
    if s.len() > 0 && s.last() == '/' {
        strip_trailing_slashes(s.drop_last())
    } else {
        s
    }
}

/// Remove the trailing run of non-`/` characters (the last segment).
pub open spec fn strip_last_segment(s: Seq<char>) -> Seq<char>
    decreases s.len(),
{
    if s.len() > 0 && s.last() != '/' {
        strip_last_segment(s.drop_last())
    } else {
        s
    }
}

/// Remove the last path segment together with the separators around it,
/// as one step of the upward walk: `"/pub/a/b"` becomes `"/pub/a/"`,
/// `"/pub"` becomes `"/"`, and `"/"` becomes the empty path.
pub open spec fn pop_seq(s: Seq<char>) -> Seq<char> {
    strip_last_segment(strip_trailing_slashes(s))
}

/// The candidate probed at each stop of the upward walk: the directory
/// with its trailing slashes removed, then `/index.html`.
pub open spec fn index_candidate_seq(dir: Seq<char>) -> Seq<char> {
    strip_trailing_slashes(dir) + "/index.html"@
}

/// The index of the first character of the trailing run of `/`.
fn trailing_slashes_start(path: &str) -> (i: usize)
    ensures
        i <= path@.len(),
        strip_trailing_slashes(path@) == path@.take(i as int),
{
    let n: usize = path.unicode_len();
    let mut i: usize = n;
    proof {
        assert(path@.take(n as int) =~= path@);
    }
    while i > 0 && path.get_char(i - 1) == '/'
        invariant
            n == path@.len(),
            0 <= i <= n,
            strip_trailing_slashes(path@) == strip_trailing_slashes(path@.take(i as int)),
        decreases i,
    {
        proof {
            assert(path@.take(i as int).drop_last() =~= path@.take(i - 1));
        }
        i = i - 1;
    }
    proof {
        if i == 0 {
            assert(path@.take(0).len() == 0);
        }
    }
    i
}

/// Remove the last path segment: one step of the upward walk.
pub fn pop(path: &str) -> (r: String)
    ensures
        r@ == pop_seq(path@),
{
    let i = trailing_slashes_start(path);
    let mut j: usize = i;
    while j > 0 && path.get_char(j - 1) != '/'
        invariant
            j <= i <= path@.len(),
            strip_trailing_slashes(path@) == path@.take(i as int),
            strip_last_segment(path@.take(i as int)) == strip_last_segment(path@.take(j as int)),
        decreases j,
    {
        proof {
            assert(path@.take(j as int).drop_last() =~= path@.take(j - 1));
        }
        j = j - 1;
    }
    proof {
        if j == 0 {
            assert(path@.take(0).len() == 0);
        }
    }
    let r = path.substring_char(0, j).to_owned();
    proof {
        assert(r@ =~= path@.take(j as int));
    }
    r
}

/// Build the walk's probe path: `dir` without trailing slashes, then
/// `/index.html`.
pub fn index_candidate(dir: &str) -> (r: String)
    ensures
        r@ == index_candidate_seq(dir@),
{
    let i = trailing_slashes_start(dir);
    let mut r = dir.substring_char(0, i).to_owned();
    r.append("/index.html");
    proof {
        assert(r@ =~= index_candidate_seq(dir@));
    }
    r
}

/// `p` lies lexically within the directory `root`: strictly below the
/// root (with the root's trailing slashes ignored) and separated from it
/// by a `/`.
pub open spec fn within_root(root: Seq<char>, p: Seq<char>) -> bool {
    let r = strip_trailing_slashes(root);
    &&& p.len() > r.len()
    &&& p.take(r.len() as int) == r
    &&& p[r.len() as int] == '/'
}

/// Stripping trailing slashes leaves a prefix of the path; everything
/// removed was a `/`.
pub proof fn lemma_strip_trailing_slashes_form(s: Seq<char>)
    ensures
        strip_trailing_slashes(s) == s.take(strip_trailing_slashes(s).len() as int),
        forall|k: int| strip_trailing_slashes(s).len() <= k < s.len() ==> s[k] == '/',
    decreases s.len(),
{
    if s.len() > 0 && s.last() == '/' {
        lemma_strip_trailing_slashes_form(s.drop_last());
        lemma_strip_trailing_slashes_len(s.drop_last());
        let r = strip_trailing_slashes(s);
        assert(s.drop_last().take(r.len() as int) =~= s.take(r.len() as int));
        assert forall|k: int| r.len() <= k < s.len() implies s[k] == '/' by {
            if k < s.len() - 1 {
                assert(s.drop_last()[k] == '/');
            }
        }
    } else {
        assert(s.take(s.len() as int) =~= s);
    }
}

/// What stripping trailing slashes leaves does not end in `/`.
pub proof fn lemma_strip_trailing_slashes_last(s: Seq<char>)
    ensures
        strip_trailing_slashes(s).len() == 0 || strip_trailing_slashes(s).last() != '/',
    decreases s.len(),
{
    if s.len() > 0 && s.last() == '/' {
        lemma_strip_trailing_slashes_last(s.drop_last());
    }
}

/// One walk step leaves a prefix of the path.
pub proof fn lemma_pop_form(s: Seq<char>)
    ensures
        pop_seq(s) == s.take(pop_seq(s).len() as int),
        pop_seq(s).len() <= s.len(),
{
    lemma_strip_trailing_slashes_form(s);
    lemma_strip_trailing_slashes_len(s);
    let t = strip_trailing_slashes(s);
    lemma_strip_last_segment_form(t);
    lemma_strip_last_segment_len(t);
    assert(t.take(pop_seq(s).len() as int) =~= s.take(pop_seq(s).len() as int));
}

/// A join lies lexically within its base.
pub proof fn lemma_join_within(root: Seq<char>, rel: Seq<char>)
    ensures
        within_root(root, join_seq(root, rel)),
{
    lemma_strip_trailing_slashes_form(root);
    lemma_strip_trailing_slashes_len(root);
    let r = strip_trailing_slashes(root);
    let j = join_seq(root, rel);
    assert(j.take(r.len() as int) =~= r);
    if r.len() < root.len() {
        assert(j[r.len() as int] == root[r.len() as int]);
        assert(root[r.len() as int] == '/');
    } else {
        assert(j[r.len() as int] == '/');
    }
}

/// The walk's probe path lies lexically within the root whenever the
/// walk's directory still does: popping stops before the root, so every
/// `index.html` candidate — the root's own included — stays inside.
pub proof fn lemma_index_candidate_within(root: Seq<char>, dir: Seq<char>)
    requires
        dir.len() > root.len(),
        dir.take(root.len() as int) == root,
        dir[root.len() as int] == '/',
    ensures
        within_root(root, index_candidate_seq(dir)),
{
    lemma_strip_trailing_slashes_form(root);
    lemma_strip_trailing_slashes_len(root);
    lemma_strip_trailing_slashes_form(dir);
    lemma_strip_trailing_slashes_len(dir);
    reveal_strlit("/index.html");
    let r = strip_trailing_slashes(root);
    let t = strip_trailing_slashes(dir);
    let idx = index_candidate_seq(dir);
    if t.len() < r.len() {
        lemma_strip_trailing_slashes_last(root);
        assert(r.last() != '/');
        assert(dir[r.len() - 1] == root[r.len() - 1]);
        assert(root[r.len() - 1] == r[r.len() - 1]);
        assert(dir[r.len() - 1] == '/');
        assert(false);
    }
    assert(idx.take(r.len() as int) =~= r);
    if t.len() == r.len() {
        assert(idx[r.len() as int] == "/index.html"@[0]);
    } else {
        assert(idx[r.len() as int] == dir[r.len() as int]);
        if r.len() < root.len() {
            assert(dir[r.len() as int] == root[r.len() as int]);
            assert(root[r.len() as int] == '/');
        }
    }
}

/// Removing a trailing `/` cannot create a `..` segment: the end of the
/// shortened path was already a segment boundary.
pub proof fn lemma_drop_trailing_slash_traversal(s: Seq<char>)
    requires
        s.len() > 0,
        s.last() == '/',
        !has_traversal_seq(s),
    ensures
        !has_traversal_seq(s.drop_last()),
{
    if has_traversal_seq(s.drop_last()) {
        let i = choose|i: int| is_dot_dot_at(s.drop_last(), i);
        assert(is_dot_dot_at(s, i));
    }
}

/// Stripping one trailing slash preserves freedom from traversal.
pub proof fn lemma_strip_one_slash_traversal(s: Seq<char>)
    requires
        !has_traversal_seq(s),
    ensures
        !has_traversal_seq(strip_one_slash(s)),
{
    if s.len() > 0 && s.last() == '/' {
        lemma_drop_trailing_slash_traversal(s);
    }
}

/// Stripping every trailing slash preserves freedom from traversal.
pub proof fn lemma_strip_trailing_slashes_traversal(s: Seq<char>)
    requires
        !has_traversal_seq(s),
    ensures
        !has_traversal_seq(strip_trailing_slashes(s)),
    decreases s.len(),
{
    if s.len() > 0 && s.last() == '/' {
        lemma_drop_trailing_slash_traversal(s);
        lemma_strip_trailing_slashes_traversal(s.drop_last());
    }
}

/// Removing the last segment leaves a prefix of the path that ends right
/// after a `/`, or is empty, or is the path itself.
pub proof fn lemma_strip_last_segment_form(s: Seq<char>)
    ensures
        strip_last_segment(s) == s.take(strip_last_segment(s).len() as int),
        strip_last_segment(s).len() == 0 || strip_last_segment(s).last() == '/',
    decreases s.len(),
{
    if s.len() > 0 && s.last() != '/' {
        lemma_strip_last_segment_form(s.drop_last());
        lemma_strip_last_segment_len(s.drop_last());
        let r = strip_last_segment(s);
        assert(s.drop_last().take(r.len() as int) =~= s.take(r.len() as int));
    } else {
        assert(s.take(s.len() as int) =~= s);
    }
}

/// Removing the last segment preserves freedom from traversal: what is
/// left ends at a boundary the path already had.
pub proof fn lemma_strip_last_segment_traversal(s: Seq<char>)
    requires
        !has_traversal_seq(s),
    ensures
        !has_traversal_seq(strip_last_segment(s)),
{
    lemma_strip_last_segment_form(s);
    lemma_strip_last_segment_len(s);
    let r = strip_last_segment(s);
    if has_traversal_seq(r) {
        let i = choose|i: int| is_dot_dot_at(r, i);
        if i + 2 == r.len() {
            assert(r.last() == '.');
            assert(false);
        }
        assert(is_dot_dot_at(s, i));
    }
}

/// One step of the upward walk preserves freedom from traversal.
pub proof fn lemma_pop_traversal(s: Seq<char>)
    requires
        !has_traversal_seq(s),
    ensures
        !has_traversal_seq(pop_seq(s)),
{
    lemma_strip_trailing_slashes_traversal(s);
    lemma_strip_last_segment_traversal(strip_trailing_slashes(s));
}

/// The walk's probe path under a traversal-free directory is itself
/// traversal-free: `index.html` is no `..` segment.
pub proof fn lemma_index_candidate_traversal(s: Seq<char>)
    requires
        !has_traversal_seq(s),
    ensures
        !has_traversal_seq(index_candidate_seq(s)),
{
    lemma_strip_trailing_slashes_traversal(s);
    reveal_strlit("/index.html");
    reveal_strlit("index.html");
    let t = "index.html"@;
    assert("/index.html"@ =~= seq!['/'] + t);
    assert(index_candidate_seq(s) =~= join_seq(strip_trailing_slashes(s), t));
    if has_traversal_seq(t) {
        let i = choose|i: int| is_dot_dot_at(t, i);
        assert(t[0] == 'i' && t[1] == 'n' && t[2] == 'd' && t[3] == 'e' && t[4] == 'x' && t[5]
            == '.' && t[6] == 'h' && t[7] == 't' && t[8] == 'm' && t[9] == 'l');
        assert(t[i] == '.' && t[i + 1] == '.');
        assert(i != 0 && i != 1 && i != 2 && i != 3 && i != 4 && i != 5 && i != 6 && i != 7 && i
            != 8);
        assert(false);
    }
    lemma_join_traversal(strip_trailing_slashes(s), t);
}

pub proof fn lemma_strip_trailing_slashes_len(s: Seq<char>)
    ensures
        strip_trailing_slashes(s).len() <= s.len(),
        s.len() > 0 && s.last() == '/' ==> strip_trailing_slashes(s).len() < s.len(),
    decreases s.len(),
{
    if s.len() > 0 && s.last() == '/' {
        lemma_strip_trailing_slashes_len(s.drop_last());
    }
}

pub proof fn lemma_strip_last_segment_len(s: Seq<char>)
    ensures
        strip_last_segment(s).len() <= s.len(),
        s.len() > 0 && s.last() != '/' ==> strip_last_segment(s).len() < s.len(),
    decreases s.len(),
{
    if s.len() > 0 && s.last() != '/' {
        lemma_strip_last_segment_len(s.drop_last());
    }
}

/// Popping a segment off a non-empty path strictly shortens it, which
/// bounds the upward walk by the path's length.
pub proof fn lemma_pop_shrinks(s: Seq<char>)
    requires
        s.len() > 0,
    ensures
        pop_seq(s).len() < s.len(),
{
    lemma_strip_trailing_slashes_len(s);
    lemma_strip_last_segment_len(strip_trailing_slashes(s));
}

} // verus!
