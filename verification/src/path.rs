//! Directory paths as character sequences.
//!
//! A path is a sequence of characters in which `'/'` separates components.
//! The functions here give the library its own, fully specified path
//! semantics: prefix at a component boundary, parent directory, and the
//! longest common ancestor of a set of paths.

use vstd::prelude::*;

verus! {

/// `pre` names the directory `p` itself or one enclosing it: `pre` is equal to
/// `p`, or a proper character prefix of `p` that ends at a component boundary
/// (the next character of `p` is a separator, or `pre` itself ends with one,
/// or `pre` is empty).
pub open spec fn is_path_prefix(pre: Seq<char>, p: Seq<char>) -> bool {
    pre == p || (pre.len() < p.len() && p.subrange(0, pre.len() as int) == pre && (pre.len() == 0
        || p[pre.len() as int] == '/' || pre[pre.len() - 1] == '/'))
}

/// `p` without the characters that follow its last separator; the empty
/// sequence when `p` has no separator at all.
pub open spec fn strip_last_component(p: Seq<char>) -> Seq<char>
    decreases p.len(),
{
    if p.len() == 0 {
        p
    } else if p[p.len() - 1] == '/' {
        p
    } else {
        strip_last_component(p.drop_last())
    }
}

pub proof fn lemma_strip_last_component(p: Seq<char>)
    ensures
        strip_last_component(p).len() <= p.len(),
        strip_last_component(p) == p.subrange(0, strip_last_component(p).len() as int),
        strip_last_component(p).len() > 0 ==> p[strip_last_component(p).len() - 1] == '/',
        forall|m: int| strip_last_component(p).len() <= m < p.len() ==> p[m] != '/',
    decreases p.len(),
{
    if p.len() == 0 || p[p.len() - 1] == '/' {
        assert(p == p.subrange(0, p.len() as int));
    } else {
        lemma_strip_last_component(p.drop_last());
        let q = strip_last_component(p);
        assert(p.drop_last().subrange(0, q.len() as int) == p.subrange(0, q.len() as int));
        assert forall|m: int| q.len() <= m < p.len() implies p[m] != '/' by {
            if m < p.len() - 1 {
                assert(p.drop_last()[m] == p[m]);
            }
        }
    }
}

/// The parent directory of `p`: `p` with its last component removed, keeping
/// the separator only when the parent is the root `"/"`. The root itself and
/// a path without any separator have no parent.
pub open spec fn path_parent(p: Seq<char>) -> Option<Seq<char>> {
    let q = strip_last_component(p);
    if q.len() == 0 {
        None
    } else if q.len() == 1 {
        if p.len() == 1 {
            None
        } else {
            Some(q)
        }
    } else {
        Some(q.drop_last())
    }
}

pub proof fn lemma_parent_shorter(p: Seq<char>)
    ensures
        match path_parent(p) {
            Some(q) => q.len() < p.len(),
            None => true,
        },
{
    lemma_strip_last_component(p);
}

/// The ascent of the original algorithm: replace `common` by its parent until
/// it is a path prefix of `dir`; `None` when the chain of parents is
/// exhausted first.
pub open spec fn ascend_to_prefix(common: Seq<char>, dir: Seq<char>) -> Option<Seq<char>>
    decreases common.len(),
    via ascend_to_prefix_decreases
{
    if is_path_prefix(common, dir) {
        Some(common)
    } else {
        match path_parent(common) {
            Some(par) => ascend_to_prefix(par, dir),
            None => None,
        }
    }
}

#[via_fn]
proof fn ascend_to_prefix_decreases(common: Seq<char>, dir: Seq<char>) {
    lemma_parent_shorter(common);
}

pub open spec fn fold_ascend(common: Seq<char>, dirs: Seq<Seq<char>>, k: int) -> Option<Seq<char>>
    decreases dirs.len() - k,
{
    if k < 0 || k >= dirs.len() {
        Some(common)
    } else {
        match ascend_to_prefix(common, dirs[k]) {
            Some(c2) => fold_ascend(c2, dirs, k + 1),
            None => None,
        }
    }
}

/// The common ancestor of a set of paths: starting from the first path,
/// ascend for each path in turn until the accumulator is a prefix of it.
pub open spec fn spec_common_ancestor(dirs: Seq<Seq<char>>) -> Option<Seq<char>> {
    if dirs.len() == 0 {
        None
    } else {
        fold_ascend(dirs[0], dirs, 0)
    }
}

/// A path in the form shells report a working directory: absolute, with no
/// repeated separator, and no trailing separator unless it is the root.
pub open spec fn is_normalized(p: Seq<char>) -> bool {
    &&& p.len() > 0
    &&& p[0] == '/'
    &&& forall|i: int| #![trigger p[i]] 0 < i < p.len() ==> !(p[i - 1] == '/' && p[i] == '/')
    &&& (p.len() > 1 ==> p[p.len() - 1] != '/')
}

/// `a` is `c` itself or one of its iterated parents.
pub open spec fn in_parent_chain(a: Seq<char>, c: Seq<char>) -> bool
    decreases c.len(),
    via in_parent_chain_decreases
{
    a == c || match path_parent(c) {
        Some(q) => in_parent_chain(a, q),
        None => false,
    }
}

#[via_fn]
proof fn in_parent_chain_decreases(a: Seq<char>, c: Seq<char>) {
    lemma_parent_shorter(c);
}

/// Path prefixing is transitive.
pub proof fn lemma_prefix_trans(a: Seq<char>, b: Seq<char>, c: Seq<char>)
    requires
        is_path_prefix(a, b),
        is_path_prefix(b, c),
    ensures
        is_path_prefix(a, c),
{
    if a != b && b != c {
        assert(c.subrange(0, a.len() as int) =~= b.subrange(0, a.len() as int));
        if a.len() > 0 && a[a.len() - 1] != '/' && a.len() < b.len() && b[a.len() as int] == '/' {
            assert(c[a.len() as int] == b[a.len() as int]);
        }
    }
}

/// A parent is a path prefix of its child.
pub proof fn lemma_parent_is_prefix(p: Seq<char>)
    ensures
        match path_parent(p) {
            Some(q) => is_path_prefix(q, p) && q.len() < p.len(),
            None => true,
        },
{
    lemma_strip_last_component(p);
    let sc = strip_last_component(p);
    match path_parent(p) {
        Some(q) => {
            if sc.len() == 1 {
                assert(q == p.subrange(0, 1));
                assert(q[0] == p[0]);
                assert(p[sc.len() - 1] == '/');
            } else {
                assert(q =~= p.subrange(0, sc.len() - 1));
                assert(p[q.len() as int] == '/');
            }
        },
        None => {},
    }
}

/// A chain member is a path prefix.
pub proof fn lemma_chain_is_prefix(a: Seq<char>, c: Seq<char>)
    requires
        in_parent_chain(a, c),
    ensures
        is_path_prefix(a, c),
    decreases c.len(),
{
    lemma_parent_shorter(c);
    lemma_parent_is_prefix(c);
    if a != c {
        match path_parent(c) {
            Some(q) => {
                lemma_chain_is_prefix(a, q);
                lemma_prefix_trans(a, q, c);
            },
            None => {},
        }
    }
}

/// Chains compose.
pub proof fn lemma_chain_trans(a: Seq<char>, b: Seq<char>, c: Seq<char>)
    requires
        in_parent_chain(a, b),
        in_parent_chain(b, c),
    ensures
        in_parent_chain(a, c),
    decreases c.len(),
{
    lemma_parent_shorter(c);
    if b != c {
        match path_parent(c) {
            Some(q) => {
                lemma_chain_trans(a, b, q);
            },
            None => {},
        }
    }
}

/// The parent of a normalized path is normalized, and a normalized path
/// longer than the root has one.
pub proof fn lemma_parent_normalized(p: Seq<char>)
    requires
        is_normalized(p),
    ensures
        p.len() > 1 ==> path_parent(p) is Some,
        match path_parent(p) {
            Some(q) => is_normalized(q),
            None => true,
        },
{
    lemma_strip_last_component(p);
    let sc = strip_last_component(p);
    if sc.len() == 0 {
        assert(p[0] == '/');
    }
    match path_parent(p) {
        Some(q) => {
            if sc.len() == 1 {
                assert(q == p.subrange(0, 1));
                assert(q[0] == p[0]);
            } else {
                assert(q =~= p.subrange(0, sc.len() - 1));
                assert(p[sc.len() - 1] == '/');
                assert(q[q.len() - 1] == p[sc.len() - 2]);
            }
        },
        None => {},
    }
}

/// Every member of a normalized path's chain is normalized.
pub proof fn lemma_chain_normalized(a: Seq<char>, c: Seq<char>)
    requires
        in_parent_chain(a, c),
        is_normalized(c),
    ensures
        is_normalized(a),
    decreases c.len(),
{
    lemma_parent_shorter(c);
    lemma_parent_normalized(c);
    if a != c {
        match path_parent(c) {
            Some(q) => {
                lemma_chain_normalized(a, q);
            },
            None => {},
        }
    }
}

/// The root lies in the chain of every normalized path.
proof fn lemma_root_in_chain(d: Seq<char>)
    requires
        is_normalized(d),
    ensures
        in_parent_chain(seq!['/'], d),
    decreases d.len(),
{
    lemma_parent_shorter(d);
    lemma_parent_normalized(d);
    if d.len() == 1 {
        assert(seq!['/'] =~= d);
    } else {
        match path_parent(d) {
            Some(q) => {
                lemma_root_in_chain(q);
            },
            None => {},
        }
    }
}

/// Between normalized paths, a path prefix is a chain member.
pub proof fn lemma_normalized_prefix_in_chain(a: Seq<char>, d: Seq<char>)
    requires
        is_normalized(a),
        is_normalized(d),
        is_path_prefix(a, d),
    ensures
        in_parent_chain(a, d),
    decreases d.len(),
{
    lemma_parent_shorter(d);
    lemma_parent_normalized(d);
    if a == d {
        return ;
    }
    // a is a proper prefix, so d is longer than the root
    assert(a.len() >= 1 && a.len() < d.len());
    if a[a.len() - 1] == '/' {
        // a normalized and ending in a separator is the root
        assert(a.len() == 1);
        assert(a =~= seq!['/']);
        lemma_root_in_chain(d);
    } else {
        assert(d[a.len() as int] == '/');
        lemma_strip_last_component(d);
        let sc = strip_last_component(d);
        // the separator at a.len() precedes the final component of d
        assert(a.len() < sc.len());
        let q = path_parent(d)->Some_0;
        if sc.len() == 1 {
            // d would hold a separator beyond index 0, impossible here
            assert(d[a.len() as int] == '/');
            assert(false);
        } else {
            assert(q =~= d.subrange(0, sc.len() - 1));
            if a.len() == q.len() {
                assert(a =~= q);
            } else {
                assert(q.subrange(0, a.len() as int) =~= d.subrange(0, a.len() as int));
                assert(q[a.len() as int] == d[a.len() as int]);
                assert(is_path_prefix(a, q));
            }
            lemma_normalized_prefix_in_chain(a, q);
        }
    }
}

/// What the ascent returns: the longest member of `common`'s parent chain
/// that is a path prefix of `dir`, or `None` when the chain holds no such
/// member.
pub proof fn lemma_ascend_props(c: Seq<char>, d: Seq<char>)
    ensures
        match ascend_to_prefix(c, d) {
            Some(a) => in_parent_chain(a, c) && is_path_prefix(a, d) && (forall|b: Seq<char>|
                in_parent_chain(b, c) && is_path_prefix(b, d) ==> #[trigger] in_parent_chain(b, a)),
            None => forall|b: Seq<char>| #[trigger] in_parent_chain(b, c) ==> !is_path_prefix(b, d),
        },
    decreases c.len(),
{
    lemma_parent_shorter(c);
    if is_path_prefix(c, d) {
        assert forall|b: Seq<char>| in_parent_chain(b, c) && is_path_prefix(b, d) implies #[trigger] in_parent_chain(b, c) by {}
    } else {
        match path_parent(c) {
            Some(q) => {
                lemma_ascend_props(q, d);
                match ascend_to_prefix(q, d) {
                    Some(a) => {
                        assert forall|b: Seq<char>|
                            in_parent_chain(b, c) && is_path_prefix(b, d) implies #[trigger] in_parent_chain(
                            b,
                            a,
                        ) by {
                            if b == c {
                                assert(false);
                            } else {
                                assert(in_parent_chain(b, q));
                            }
                        }
                    },
                    None => {
                        assert forall|b: Seq<char>| #[trigger] in_parent_chain(b, c) implies !is_path_prefix(
                            b,
                            d,
                        ) by {
                            if b != c {
                                assert(in_parent_chain(b, q));
                            }
                        }
                    },
                }
            },
            None => {
                assert forall|b: Seq<char>| #[trigger] in_parent_chain(b, c) implies !is_path_prefix(
                    b,
                    d,
                ) by {
                    assert(b == c);
                }
            },
        }
    }
}

/// The views of a sequence of strings.
pub open spec fn str_views(s: Seq<String>) -> Seq<Seq<char>> {
    s.map_values(|x: String| x@)
}

pub open spec fn view_opt(o: Option<String>) -> Option<Seq<char>> {
    match o {
        Some(s) => Some(s@),
        None => None,
    }
}

/// True when `pre@` is a path prefix of `p@`.
pub fn is_path_prefix_x(pre: &str, p: &str) -> (b: bool)
    ensures
        b == is_path_prefix(pre@, p@),
{
    let n = pre.unicode_len();
    let m = p.unicode_len();
    if n > m {
        return false;
    }
    let mut i: usize = 0;
    while i < n
        invariant
            0 <= i <= n <= m,
            n == pre@.len(),
            m == p@.len(),
            forall|t: int| 0 <= t < i ==> pre@[t] == p@[t],
        decreases n - i,
    {
        if pre.get_char(i) != p.get_char(i) {
            proof {
                assert(pre@[i as int] != p@[i as int]);
                assert(p@.subrange(0, n as int) != pre@) by {
                    assert(p@.subrange(0, n as int)[i as int] == p@[i as int]);
                }
            }
            return false;
        }
        i += 1;
    }
    proof {
        assert(p@.subrange(0, n as int) =~= pre@);
    }
    if n == m {
        proof {
            assert(pre@ =~= p@);
        }
        return true;
    }
    if n == 0 {
        return true;
    }
    if p.get_char(n) == '/' {
        return true;
    }
    if pre.get_char(n - 1) == '/' {
        return true;
    }
    false
}

/// The number of characters of `p@` that remain after stripping its last
/// component, found by a backward scan.
fn strip_last_component_len(p: &str) -> (j: usize)
    ensures
        j == strip_last_component(p@).len(),
        strip_last_component(p@) == p@.subrange(0, j as int),
{
    let n = p.unicode_len();
    let mut j = n;
    proof {
        assert(p@.subrange(0, n as int) =~= p@);
    }
    while j > 0 && p.get_char(j - 1) != '/'
        invariant
            0 <= j <= n,
            n == p@.len(),
            strip_last_component(p@) == strip_last_component(p@.subrange(0, j as int)),
        decreases j,
    {
        proof {
            let q = p@.subrange(0, j as int);
            assert(q.drop_last() =~= p@.subrange(0, j - 1));
        }
        j -= 1;
    }
    proof {
        let q = p@.subrange(0, j as int);
        assert(strip_last_component(q) == q);
        lemma_strip_last_component(p@);
    }
    j
}

/// The parent directory of `p@`, or `None` for the root and for a path
/// without separators.
pub fn path_parent_x(p: &str) -> (r: Option<String>)
    ensures
        view_opt(r) == path_parent(p@),
{
    let j = strip_last_component_len(p);
    proof {
        lemma_strip_last_component(p@);
    }
    if j == 0 {
        None
    } else if j == 1 {
        if p.unicode_len() == 1 {
            None
        } else {
            let r = p.substring_char(0, 1).to_owned();
            proof {
                assert(r@ =~= strip_last_component(p@));
            }
            Some(r)
        }
    } else {
        let r = p.substring_char(0, j - 1).to_owned();
        proof {
            assert(r@ =~= strip_last_component(p@).drop_last());
        }
        Some(r)
    }
}

/// Ascend from `common` to the nearest enclosing directory that is a path
/// prefix of `dir`.
#[verifier::loop_isolation(false)]
pub fn ascend_to_prefix_x(common: String, dir: &str) -> (r: Option<String>)
    ensures
        view_opt(r) == ascend_to_prefix(common@, dir@),
{
    let ghost orig = common@;
    let mut cur = common;
    loop
        invariant
            ascend_to_prefix(cur@, dir@) == ascend_to_prefix(orig, dir@),
        decreases cur@.len(),
    {
        if is_path_prefix_x(cur.as_str(), dir) {
            proof {
                assert(ascend_to_prefix(cur@, dir@) == Some(cur@));
            }
            return Some(cur);
        }
        proof {
            lemma_parent_shorter(cur@);
        }
        match path_parent_x(cur.as_str()) {
            Some(par) => {
                proof {
                    assert(ascend_to_prefix(cur@, dir@) == ascend_to_prefix(par@, dir@));
                }
                cur = par;
            },
            None => {
                proof {
                    assert(ascend_to_prefix(cur@, dir@) is None);
                }
                return None;
            },
        }
    }
}

/// The longest common ancestor of the given paths, or `None` when they have
/// none.
pub fn common_ancestor_x(dirs: &Vec<String>) -> (r: Option<String>)
    requires
        dirs@.len() > 0,
    ensures
        view_opt(r) == spec_common_ancestor(str_views(dirs@)),
{
    let ghost dv = str_views(dirs@);
    let mut common = dirs[0].clone();
    let mut k: usize = 0;
    proof {
        assert(dv[0] == dirs@[0]@);
    }
    while k < dirs.len()
        invariant
            0 <= k <= dirs@.len(),
            dv == str_views(dirs@),
            dirs@.len() > 0,
            fold_ascend(common@, dv, k as int) == spec_common_ancestor(dv),
        decreases dirs@.len() - k,
    {
        proof {
            assert(dv[k as int] == dirs@[k as int]@);
        }
        match ascend_to_prefix_x(common, dirs[k].as_str()) {
            Some(c) => {
                common = c;
                k += 1;
            },
            None => {
                return None;
            },
        }
    }
    Some(common)
}

} // verus!
