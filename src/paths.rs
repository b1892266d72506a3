//! Textual path operations on `/`-separated paths.

use vstd::prelude::*;

verus! {

/// A path is absolute when it starts with `/`.
pub open spec fn is_absolute_path(p: Seq<char>) -> bool {
    p.len() > 0 && p[0] == '/'
}

/// `rel` resolved against `base`: an absolute `rel` replaces `base`, an empty
/// `base` leaves `rel` as it is, otherwise the two are put together with one
/// separator between them.
pub open spec fn joined(base: Seq<char>, rel: Seq<char>) -> Seq<char> {
    if is_absolute_path(rel) || base.len() == 0 {
        rel
    } else if base.last() == '/' {
        base + rel
    } else {
        base + seq!['/'] + rel
    }
}

/// Index of the last `/` in `p`, or -1 when there is none.
pub open spec fn last_separator(p: Seq<char>) -> int
    decreases p.len(),
{
    if p.len() == 0 {
        -1
    } else if p.last() == '/' {
        p.len() - 1
    } else {
        last_separator(p.drop_last())
    }
}

/// The directory that holds `p`: everything before its last separator, `/`
/// for an entry of the file-system root, and the empty path for a bare name.
pub open spec fn parent_of(p: Seq<char>) -> Seq<char> {
    let k = last_separator(p);
    if k < 0 {
        Seq::empty()
    } else if k == 0 {
        seq!['/']
    } else {
        p.subrange(0, k)
    }
}

/// `dest` lies in the tree rooted at `root`, comparing whole path components:
/// `root` is a prefix of `dest` that ends at a component boundary. Both are
/// taken in canonical form (absolute, no trailing separator but for `/`).
pub open spec fn within(root: Seq<char>, dest: Seq<char>) -> bool {
    &&& root.len() <= dest.len()
    &&& dest.subrange(0, root.len() as int) == root
    &&& (dest.len() == root.len() || (root.len() > 0 && root.last() == '/')
        || dest[root.len() as int] == '/')
}

/// `full` written relative to `root`: the part after the root and its
/// separator for a path inside the tree, `full` itself otherwise.
pub open spec fn relative_to(root: Seq<char>, full: Seq<char>) -> Seq<char> {
    if !within(root, full) {
        full
    } else if full.len() == root.len() {
        Seq::empty()
    } else if root.len() > 0 && root.last() == '/' {
        full.subrange(root.len() as int, full.len() as int)
    } else {
        full.subrange(root.len() as int + 1, full.len() as int)
    }
}

pub fn is_absolute(p: &str) -> (r: bool)
    ensures
        r == is_absolute_path(p@),
{
    let n = p.unicode_len();
    n > 0 && p.get_char(0) == '/'
}

/// Resolves `rel` against `base`.
pub fn join(base: &str, rel: &str) -> (r: String)
    ensures
        r@ == joined(base@, rel@),
{
    let n = base.unicode_len();
    if is_absolute(rel) || n == 0 {
        return String::from_str(rel);
    }
    let mut r = String::from_str(base);
    if base.get_char(n - 1) != '/' {
        let sep = "/";
        proof {
            reveal_strlit("/");
        }
        r.append(sep);
    }
    r.append(rel);
    r
}

/// The directory that holds the entry at `p`.
pub fn parent(p: &str) -> (r: String)
    ensures
        r@ == parent_of(p@),
{
    let n = p.unicode_len();
    let mut i: usize = n;
    assert(p@.subrange(0, n as int) =~= p@);
    while i > 0 && p.get_char(i - 1) != '/'
        invariant
            n == p@.len(),
            i <= n,
            last_separator(p@.subrange(0, i as int)) == last_separator(p@),
        decreases i,
    {
        let ghost s = p@.subrange(0, i as int);
        assert(s.drop_last() =~= p@.subrange(0, i - 1));
        i = i - 1;
    }
    if i == 0 {
        assert(p@.subrange(0, 0) =~= Seq::<char>::empty());
        String::new()
    } else if i == 1 {
        let sep = "/";
        proof {
            reveal_strlit("/");
        }
        String::from_str(sep)
    } else {
        String::from_str(p.substring_char(0, i - 1))
    }
}

/// Where a symbolic link at `link` with the raw target `target` leads: an
/// absolute target as it is, a relative one from the directory that holds
/// the link.
pub fn link_destination(link: &str, target: &str) -> (r: String)
    ensures
        r@ == joined(parent_of(link@), target@),
        is_absolute_path(target@) ==> r@ == target@,
{
    let dir = parent(link);
    join(dir.as_str(), target)
}

/// Whether `text` starts with `prefix`.
fn starts_with(text: &str, prefix: &str) -> (r: bool)
    ensures
        r == (prefix@.len() <= text@.len() && text@.subrange(0, prefix@.len() as int) == prefix@),
{
    let n = prefix.unicode_len();
    let m = text.unicode_len();
    if n > m {
        return false;
    }
    let mut i: usize = 0;
    while i < n
        invariant
            n == prefix@.len(),
            m == text@.len(),
            n <= m,
            i <= n,
            text@.subrange(0, i as int) == prefix@.subrange(0, i as int),
        decreases n - i,
    {
        if text.get_char(i) != prefix.get_char(i) {
            assert(text@.subrange(0, n as int)[i as int] != prefix@[i as int]);
            return false;
        }
        assert(text@.subrange(0, i + 1) =~= text@.subrange(0, i as int).push(text@[i as int]));
        assert(prefix@.subrange(0, i + 1) =~= prefix@.subrange(0, i as int).push(prefix@[i as int]));
        i = i + 1;
    }
    assert(prefix@.subrange(0, n as int) =~= prefix@);
    true
}

/// Whether `dest` lies in the tree rooted at `root`.
pub fn is_within(root: &str, dest: &str) -> (r: bool)
    ensures
        r == within(root@, dest@),
{
    if !starts_with(dest, root) {
        return false;
    }
    let n = root.unicode_len();
    let m = dest.unicode_len();
    m == n || (n > 0 && root.get_char(n - 1) == '/') || dest.get_char(n) == '/'
}

/// `full` written relative to `root`.
pub fn relative(root: &str, full: &str) -> (r: String)
    ensures
        r@ == relative_to(root@, full@),
{
    let n = root.unicode_len();
    let m = full.unicode_len();
    if !is_within(root, full) {
        String::from_str(full)
    } else if m == n {
        String::new()
    } else if n > 0 && root.get_char(n - 1) == '/' {
        String::from_str(full.substring_char(n, m))
    } else {
        String::from_str(full.substring_char(n + 1, m))
    }
}

} // verus!
