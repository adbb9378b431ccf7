//! The path formatter: the display form of a working directory, abbreviated
//! with the root of its git worktree or with the configured home directory.

use vstd::prelude::*;

use crate::path::{is_path_prefix, is_path_prefix_x, strip_last_component, view_opt};

verus! {

/// `p` without its trailing separators.
pub open spec fn strip_trailing_seps(p: Seq<char>) -> Seq<char>
    decreases p.len(),
{
    if p.len() > 0 && p[p.len() - 1] == '/' {
        strip_trailing_seps(p.drop_last())
    } else {
        p
    }
}

/// The final component of `p`, ignoring trailing separators; `None` when
/// nothing remains (the root, or an empty path).
pub open spec fn path_basename(p: Seq<char>) -> Option<Seq<char>> {
    let q = strip_trailing_seps(p);
    if q.len() == 0 {
        None
    } else {
        Some(q.skip(strip_last_component(q).len() as int))
    }
}

/// The home-directory rule: when `path` lies under the configured home
/// directory (ignoring its trailing separators), that prefix becomes `'~'`;
/// otherwise the path is returned unchanged.
pub open spec fn spec_format_home(path: Seq<char>, home: Option<Seq<char>>) -> Seq<char> {
    match home {
        Some(h) => {
            let ht = strip_trailing_seps(h);
            if is_path_prefix(ht, path) {
                seq!['~'] + path.skip(ht.len() as int)
            } else {
                path
            }
        },
        None => path,
    }
}

/// The display form of `path`. When a git worktree root is known for it and
/// `path` lies under that root, the root prefix becomes the root's final
/// component; otherwise the home-directory rule applies. Only one
/// substitution is made: the git root takes precedence.
pub open spec fn spec_format_path(
    path: Seq<char>,
    root: Option<Seq<char>>,
    home: Option<Seq<char>>,
) -> Seq<char> {
    match root {
        Some(r) => match path_basename(r) {
            Some(b) => if is_path_prefix(r, path) {
                b + path.skip(r.len() as int)
            } else {
                spec_format_home(path, home)
            },
            None => spec_format_home(path, home),
        },
        None => spec_format_home(path, home),
    }
}

/// The number of characters of `p@` that remain after stripping its trailing
/// separators.
#[verifier::loop_isolation(false)]
fn strip_trailing_seps_len(p: &str) -> (j: usize)
    ensures
        j == strip_trailing_seps(p@).len(),
        strip_trailing_seps(p@) == p@.subrange(0, j as int),
        j <= p@.len(),
{
    let n = p.unicode_len();
    let mut j = n;
    proof {
        assert(p@.subrange(0, n as int) =~= p@);
    }
    while j > 0 && p.get_char(j - 1) == '/'
        invariant
            0 <= j <= n,
            strip_trailing_seps(p@) == strip_trailing_seps(p@.subrange(0, j as int)),
        decreases j,
    {
        proof {
            assert(p@.subrange(0, j as int).drop_last() =~= p@.subrange(0, j - 1));
        }
        j -= 1;
    }
    proof {
        assert(strip_trailing_seps(p@.subrange(0, j as int)) == p@.subrange(0, j as int));
    }
    j
}

/// `p@` without its trailing separators.
pub fn trim_end_seps_x(p: &str) -> (r: String)
    ensures
        r@ == strip_trailing_seps(p@),
{
    let j = strip_trailing_seps_len(p);
    p.substring_char(0, j).to_owned()
}

/// The final component of `p@`, or `None` when nothing remains.
pub fn basename_x(p: &str) -> (r: Option<String>)
    ensures
        view_opt(r) == path_basename(p@),
{
    let j = strip_trailing_seps_len(p);
    if j == 0 {
        None
    } else {
        let q = p.substring_char(0, j);
        let k = strip_component_start(q);
        let r = q.substring_char(k, j).to_owned();
        proof {
            assert(r@ =~= strip_trailing_seps(p@).skip(
                strip_last_component(strip_trailing_seps(p@)).len() as int,
            ));
        }
        Some(r)
    }
}

/// The length of `strip_last_component(q@)`, by a backward scan.
#[verifier::loop_isolation(false)]
fn strip_component_start(q: &str) -> (k: usize)
    ensures
        k == strip_last_component(q@).len(),
        k <= q@.len(),
{
    let n = q.unicode_len();
    let mut k = n;
    proof {
        assert(q@.subrange(0, n as int) =~= q@);
    }
    while k > 0 && q.get_char(k - 1) != '/'
        invariant
            0 <= k <= n,
            strip_last_component(q@) == strip_last_component(q@.subrange(0, k as int)),
        decreases k,
    {
        proof {
            assert(q@.subrange(0, k as int).drop_last() =~= q@.subrange(0, k - 1));
        }
        k -= 1;
    }
    proof {
        assert(strip_last_component(q@.subrange(0, k as int)) == q@.subrange(0, k as int));
        crate::path::lemma_strip_last_component(q@);
    }
    k
}

/// The display form of `path@` given the cached git worktree root and the
/// configured home directory.
pub fn format_path(path: &str, root: &Option<String>, home: &Option<String>) -> (r: String)
    ensures
        r@ == spec_format_path(path@, view_opt(*root), view_opt(*home)),
{
    if let Some(rt) = root {
        if is_path_prefix_x(rt.as_str(), path) {
            if let Some(b) = basename_x(rt.as_str()) {
                let rl = rt.as_str().unicode_len();
                let pl = path.unicode_len();
                let mut out = b;
                out.append(path.substring_char(rl, pl));
                proof {
                    assert(out@ =~= spec_format_path(path@, view_opt(*root), view_opt(*home)));
                }
                return out;
            }
        }
    }
    if let Some(h) = home {
        let ht = trim_end_seps_x(h.as_str());
        if is_path_prefix_x(ht.as_str(), path) {
            let hl = ht.as_str().unicode_len();
            let pl = path.unicode_len();
            let mut out = String::from_str("~");
            proof {
                reveal_strlit("~");
            }
            out.append(path.substring_char(hl, pl));
            proof {
                assert(out@ =~= spec_format_path(path@, view_opt(*root), view_opt(*home)));
            }
            return out;
        }
    }
    let r = path.to_owned();
    proof {
        assert(r@ == spec_format_path(path@, view_opt(*root), view_opt(*home)));
    }
    r
}

} // verus!
