use vstd::prelude::*;

use crate::errors::DotyError;

verus! {

// Paths are modelled as UTF-8 strings with `/` as the separator, the way the
// tool stores them in its configuration and lockfiles.

/// A path is absolute when it begins with the root separator.
pub open spec fn spec_is_absolute(p: Seq<char>) -> bool {
    p.len() > 0 && p[0] == '/'
}

/// A path is home-relative when it is exactly `~` or begins with `~/`.
pub open spec fn spec_is_home(p: Seq<char>) -> bool {
    p.len() >= 1 && p[0] == '~' && (p.len() == 1 || p[1] == '/')
}

/// Joining `p` onto `base`: an absolute `p` replaces `base`; otherwise the
/// two are glued with exactly one separator between them.
pub open spec fn spec_join(base: Seq<char>, p: Seq<char>) -> Seq<char> {
    if spec_is_absolute(p) {
        p
    } else if base.len() == 0 {
        p
    } else if base[base.len() - 1] == '/' {
        base + p
    } else {
        base + seq!['/'] + p
    }
}

/// Target resolution: `~`-forms need a home directory (`None` when it is
/// missing), absolute paths stand as they are, and relative paths are
/// joined onto `base`.
pub open spec fn spec_resolve_target(
    target: Seq<char>,
    base: Seq<char>,
    home: Option<Seq<char>>,
) -> Option<Seq<char>> {
    if spec_is_home(target) {
        match home {
            Some(h) => Some(
                if target.len() == 1 {
                    h
                } else {
                    spec_join(h, target.skip(2))
                },
            ),
            None => None,
        }
    } else if spec_is_absolute(target) {
        Some(target)
    } else {
        Some(spec_join(base, target))
    }
}

/// Normalisation to an absolute form: like target resolution, but a
/// home-relative path with no known home directory falls back to being
/// joined onto `base` instead of failing.
pub open spec fn spec_normalize(path: Seq<char>, base: Seq<char>, home: Option<Seq<char>>) -> Seq<
    char,
> {
    match spec_resolve_target(path, base, home) {
        Some(r) => r,
        None => spec_join(base, path),
    }
}

/// Views of a vector of string pairs.
pub open spec fn spec_pair_views(s: Seq<(String, String)>) -> Seq<(Seq<char>, Seq<char>)> {
    s.map_values(|p: (String, String)| (p.0@, p.1@))
}

/// View of an optional owned string.
pub open spec fn opt_str_view(o: Option<String>) -> Option<Seq<char>> {
    match o {
        Some(s) => Some(s@),
        None => None,
    }
}

/// Whether a path string denotes an absolute path.
pub fn is_absolute_path(p: &str) -> (r: bool)
    ensures
        r == spec_is_absolute(p@),
{
    let n: usize = p.unicode_len();
    n > 0 && p.get_char(0) == '/'
}

/// Whether a path string is home-relative (`~` or `~/...`).
pub fn is_home_path(p: &str) -> (r: bool)
    ensures
        r == spec_is_home(p@),
{
    let n: usize = p.unicode_len();
    n >= 1 && p.get_char(0) == '~' && (n == 1 || p.get_char(1) == '/')
}

/// String equality at the character level.
pub fn str_eq(a: &str, b: &str) -> (r: bool)
    ensures
        r == (a@ == b@),
{
    let na: usize = a.unicode_len();
    let nb: usize = b.unicode_len();
    if na != nb {
        return false;
    }
    let mut i: usize = 0;
    while i < na
        invariant
            na == a@.len(),
            na == b@.len(),
            i <= na,
            forall|j: int| 0 <= j < i ==> a@[j] == b@[j],
        decreases na - i,
    {
        if a.get_char(i) != b.get_char(i) {
            return false;
        }
        i += 1;
    }
    proof {
        assert(a@ =~= b@);
    }
    true
}

/// Whether `pre` is a character-for-character prefix of `p`.
pub fn str_starts_with(p: &str, pre: &str) -> (r: bool)
    ensures
        r == pre@.is_prefix_of(p@),
{
    let np: usize = p.unicode_len();
    let npre: usize = pre.unicode_len();
    if np < npre {
        return false;
    }
    let mut i: usize = 0;
    while i < npre
        invariant
            np == p@.len(),
            npre == pre@.len(),
            npre <= np,
            i <= npre,
            forall|j: int| 0 <= j < i ==> p@[j] == pre@[j],
        decreases npre - i,
    {
        if p.get_char(i) != pre.get_char(i) {
            return false;
        }
        i += 1;
    }
    proof {
        assert(pre@ =~= p@.subrange(0, npre as int));
    }
    true
}

/// Joins `p` onto `base` with a single separator, absolute `p` winning.
pub fn path_join(base: &str, p: &str) -> (r: String)
    ensures
        r@ == spec_join(base@, p@),
{
    if is_absolute_path(p) {
        return p.to_owned();
    }
    let n: usize = base.unicode_len();
    if n == 0 {
        return p.to_owned();
    }
    let mut s = base.to_owned();
    if base.get_char(n - 1) != '/' {
        s.append("/");
        proof {
            reveal_strlit("/");
            assert(("/")@ =~= seq!['/']);
        }
    }
    s.append(p);
    proof {
        assert(s@ =~= spec_join(base@, p@));
    }
    s
}

/// Resolves a declared target path to its absolute form: `~` and `~/...`
/// expand under the home directory (failing with `NoHomeDirectory` when none
/// is known), absolute paths stand unchanged, and relative paths are joined
/// onto `base_path`.
pub fn resolve_target_path(target: &str, base_path: &str, home: &Option<String>) -> (r: Result<
    String,
    DotyError,
>)
    ensures
        match spec_resolve_target(target@, base_path@, opt_str_view(*home)) {
            Some(v) => r is Ok && r->Ok_0@ == v,
            None => r is Err && r->Err_0 is NoHomeDirectory,
        },
{
    if is_home_path(target) {
        match home {
            Some(h) => {
                let n: usize = target.unicode_len();
                if n == 1 {
                    Ok(h.clone())
                } else {
                    let stripped = target.substring_char(2, n);
                    Ok(path_join(h.as_str(), stripped))
                }
            },
            None => Err(DotyError::NoHomeDirectory),
        }
    } else if is_absolute_path(target) {
        Ok(target.to_owned())
    } else {
        Ok(path_join(base_path, target))
    }
}

/// Normalises a path to an absolute form against `base_path`, falling back
/// to a plain join when a home-relative path cannot be expanded. Broken or
/// not-yet-existing paths are left as they are spelled: nothing here touches
/// the filesystem.
pub fn normalize_to_absolute(path: &str, base_path: &str, home: &Option<String>) -> (r: String)
    ensures
        r@ == spec_normalize(path@, base_path@, opt_str_view(*home)),
{
    match resolve_target_path(path, base_path, home) {
        Ok(r) => r,
        Err(_) => path_join(base_path, path),
    }
}

/// Index of the last separator in `p`, or -1 when there is none.
pub open spec fn spec_last_slash(p: Seq<char>) -> int
    decreases p.len(),
{
    if p.len() == 0 {
        -1
    } else if p[p.len() - 1] == '/' {
        p.len() - 1
    } else {
        spec_last_slash(p.drop_last())
    }
}

/// The parent of a path: everything before the last separator, the root for
/// a top-level entry, and nothing for a path with no separator at all.
pub open spec fn spec_parent(p: Seq<char>) -> Option<Seq<char>> {
    let i = spec_last_slash(p);
    if i == -1 {
        None
    } else if i == 0 {
        if p.len() == 1 {
            None
        } else {
            Some(seq!['/'])
        }
    } else {
        Some(p.take(i))
    }
}

proof fn lemma_last_slash_range(p: Seq<char>)
    ensures
        -1 <= spec_last_slash(p) < p.len(),
        spec_last_slash(p) >= 0 ==> p[spec_last_slash(p)] == '/',
        forall|j: int| spec_last_slash(p) < j < p.len() ==> p[j] != '/',
    decreases p.len(),
{
    if p.len() > 0 && p[p.len() - 1] != '/' {
        lemma_last_slash_range(p.drop_last());
        assert forall|j: int| spec_last_slash(p) < j < p.len() implies p[j] != '/' by {
            if j < p.len() - 1 {
                assert(p[j] == p.drop_last()[j]);
            }
        }
    }
}

/// The parent directory of a path, following `spec_parent`.
pub fn path_parent(p: &str) -> (r: Option<String>)
    ensures
        opt_str_view(r) == spec_parent(p@),
{
    let n: usize = p.unicode_len();
    proof {
        lemma_last_slash_range(p@);
    }
    let mut i: usize = n;
    while i > 0
        invariant
            n == p@.len(),
            i <= n,
            forall|j: int| i <= j < n ==> p@[j] != '/',
        decreases i,
    {
        if p.get_char(i - 1) == '/' {
            proof {
                assert(spec_last_slash(p@) == i - 1) by {
                    lemma_last_slash_range(p@);
                }
            }
            if i == 1 {
                if n == 1 {
                    return None;
                }
                let root = p.substring_char(0, 1);
                proof {
                    assert(root@ =~= seq!['/']);
                }
                return Some(root.to_owned());
            }
            let par = p.substring_char(0, i - 1);
            proof {
                assert(par@ =~= p@.take(i - 1));
            }
            return Some(par.to_owned());
        }
        i -= 1;
    }
    proof {
        assert(spec_last_slash(p@) == -1) by {
            lemma_last_slash_range(p@);
        }
    }
    None
}

/// What is left of `p` after a directory prefix `pre`: the empty string when
/// they are equal, the remainder after `pre` and one separator otherwise.
pub open spec fn spec_strip_prefix(p: Seq<char>, pre: Seq<char>) -> Option<Seq<char>> {
    if p == pre {
        Some(Seq::<char>::empty())
    } else {
        let pre2 = if pre.len() > 0 && pre[pre.len() - 1] == '/' {
            pre
        } else {
            pre + seq!['/']
        };
        if pre2.is_prefix_of(p) {
            Some(p.skip(pre2.len() as int))
        } else {
            None
        }
    }
}

/// Strips a directory prefix from a path, following `spec_strip_prefix`.
pub fn strip_path_prefix(p: &str, pre: &str) -> (r: Option<String>)
    ensures
        opt_str_view(r) == spec_strip_prefix(p@, pre@),
{
    if str_eq(p, pre) {
        return Some(String::new());
    }
    let npre: usize = pre.unicode_len();
    let np: usize = p.unicode_len();
    let ends_slash = npre > 0 && pre.get_char(npre - 1) == '/';
    let pre2: String = if ends_slash {
        pre.to_owned()
    } else {
        let mut s = pre.to_owned();
        s.append("/");
        proof {
            reveal_strlit("/");
            assert(("/")@ =~= seq!['/']);
        }
        s
    };
    if str_starts_with(p, pre2.as_str()) {
        let n2: usize = pre2.unicode_len();
        let rest = p.substring_char(n2, np);
        proof {
            assert(rest@ =~= p@.skip(n2 as int));
        }
        Some(rest.to_owned())
    } else {
        None
    }
}

/// Whether `p` lies under the directory `pre` (or is `pre` itself). An
/// empty `pre` covers everything.
pub open spec fn spec_path_starts_with(p: Seq<char>, pre: Seq<char>) -> bool {
    pre.len() == 0 || p == pre || spec_strip_prefix(p, pre) is Some
}

/// Whether `p` equals `pre` or lies under it, following
/// `spec_path_starts_with`.
pub fn path_starts_with(p: &str, pre: &str) -> (r: bool)
    ensures
        r == spec_path_starts_with(p@, pre@),
{
    if pre.unicode_len() == 0 {
        return true;
    }
    if str_eq(p, pre) {
        return true;
    }
    let stripped = strip_path_prefix(p, pre);
    stripped.is_some()
}

} // verus!
