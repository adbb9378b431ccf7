//! Laws of the library, stated and proved once and for all: how the
//! singleton and uniform naming paths relate, that the naming engine is
//! idempotent, that a freshly ingested report reaches the tab name, and that
//! the git-root rule takes precedence over the home-directory rule.

use vstd::prelude::*;

use crate::format::{path_basename, spec_format_path, strip_trailing_seps};
use crate::path::{
    ascend_to_prefix, fold_ascend, in_parent_chain, is_normalized, is_path_prefix,
    lemma_ascend_props, lemma_chain_is_prefix, lemma_chain_normalized, lemma_chain_trans,
    lemma_normalized_prefix_in_chain, lemma_prefix_trans, spec_common_ancestor,
};
use crate::parse::spec_parse_payload;
use crate::state::{
    all_equal_dirs, organized_result, spec_known_dirs, spec_new_name, spec_organize_actions,
    spec_organize_prefix, spec_root_of, spec_sel_panes, spec_tab_actions, spec_tab_target, ActionV,
    Core, Pane, Tab,
};

verus! {

/// When every known directory of a tab is the same, the names of the
/// singleton path and of the uniform path share the base text: the uniform
/// name is the singleton name, its trailing separators replaced by exactly
/// one.
pub proof fn lemma_uniform_vs_singleton(c: Core, pos: usize)
    requires
        spec_known_dirs(spec_sel_panes(c.panes, pos), c.dirs).len() > 0,
        all_equal_dirs(spec_known_dirs(spec_sel_panes(c.panes, pos), c.dirs)),
    ensures
        ({
            let ds = spec_known_dirs(spec_sel_panes(c.panes, pos), c.dirs);
            let single = spec_format_path(ds[0], spec_root_of(c, ds[0]), c.home);
            match spec_tab_target(c, pos) {
                Some(t) => t.0 == ds[0] && (ds.len() == 1 ==> t.1 == single) && (ds.len() > 1
                    ==> t.1 == strip_trailing_seps(single) + "/"@),
                None => false,
            }
        }),
{
}

/// The git-root rule takes precedence: a path that lies both under a known
/// git worktree root and under the configured home directory is abbreviated
/// by the root's final component, and the home directory plays no part.
pub proof fn lemma_git_root_precedence(path: Seq<char>, root: Seq<char>, home: Seq<char>)
    requires
        is_path_prefix(root, path),
        path_basename(root) is Some,
        is_path_prefix(strip_trailing_seps(home), path),
    ensures
        spec_format_path(path, Some(root), Some(home)) == path_basename(root)->Some_0 + path.skip(
            root.len() as int,
        ),
        spec_format_path(path, Some(root), Some(home)) == spec_format_path(path, Some(root), None),
{
}

/// No action of the sequence is a rename.
pub open spec fn no_renames(acts: Seq<ActionV>) -> bool {
    forall|j: int| 0 <= j < acts.len() ==> !((#[trigger] acts[j]) is Rename)
}

/// A tab that already carries the name of one engine pass gets no further
/// rename from the next pass.
proof fn lemma_tab_actions_stable(c: Core, tab: Tab, tab2: Tab)
    requires
        tab2.position == tab.position,
        tab2.name@ == spec_new_name(c, tab),
    ensures
        no_renames(spec_tab_actions(c, tab2)),
{
}

proof fn lemma_prefix_no_renames(c: Core, tabs: Seq<Tab>, tabs2: Seq<Tab>, i: int)
    requires
        tabs2.len() == tabs.len(),
        forall|t: int|
            0 <= t < tabs.len() ==> (#[trigger] tabs2[t]).position == tabs[t].position
                && tabs2[t].name@ == spec_new_name(c, tabs[t]),
        0 <= i <= tabs.len(),
    ensures
        no_renames(spec_organize_prefix(c, tabs2, i)),
    decreases i,
{
    if i > 0 {
        lemma_prefix_no_renames(c, tabs, tabs2, i - 1);
        lemma_tab_actions_stable(c, tabs[i - 1], tabs2[i - 1]);
        let pre = spec_organize_prefix(c, tabs2, i - 1);
        let ta = spec_tab_actions(c, tabs2[i - 1]);
        assert forall|j: int| 0 <= j < (pre + ta).len() implies !((#[trigger] (pre + ta)[j])
            is Rename) by {
            if j < pre.len() {
                assert((pre + ta)[j] == pre[j]);
            } else {
                assert((pre + ta)[j] == ta[j - pre.len()]);
            }
        }
    }
}

/// Idempotence of the naming engine: a pass over the tabs that a previous
/// pass produced, with nothing else changed, issues no rename at all.
pub proof fn lemma_naming_idempotent(c: Core, tabs: Seq<Tab>, tabs2: Seq<Tab>, acts: Seq<ActionV>)
    requires
        organized_result(c, tabs, tabs2, acts),
    ensures
        no_renames(spec_organize_actions(c, tabs2)),
{
    lemma_prefix_no_renames(c, tabs, tabs2, tabs.len() as int);
}

proof fn lemma_prefix_grows(c: Core, tabs: Seq<Tab>, i: int, a: ActionV)
    requires
        0 <= i <= tabs.len(),
        spec_organize_prefix(c, tabs, i).contains(a),
    ensures
        spec_organize_actions(c, tabs).contains(a),
    decreases tabs.len() - i,
{
    if i < tabs.len() {
        let pre = spec_organize_prefix(c, tabs, i);
        let j = choose|j: int| 0 <= j < pre.len() && pre[j] == a;
        assert(spec_organize_prefix(c, tabs, i + 1)[j] == a);
        lemma_prefix_grows(c, tabs, i + 1, a);
    }
}

/// Every action the engine emits for one tab is among the actions of the
/// whole pass.
pub proof fn lemma_organize_contains_tab(c: Core, tabs: Seq<Tab>, i: int, a: ActionV)
    requires
        0 <= i < tabs.len(),
        spec_tab_actions(c, tabs[i]).contains(a),
    ensures
        spec_organize_actions(c, tabs).contains(a),
{
    let pre = spec_organize_prefix(c, tabs, i);
    let ta = spec_tab_actions(c, tabs[i]);
    let j = choose|j: int| 0 <= j < ta.len() && ta[j] == a;
    assert(spec_organize_prefix(c, tabs, i + 1)[pre.len() + j] == a);
    lemma_prefix_grows(c, tabs, i + 1, a);
}

/// Ingestion round trip: a payload that parses as `(id, path)`, reported for
/// the single selected pane of a tab, makes the following naming pass derive
/// that tab's name from `path` itself; when that name is new and the ordinal
/// representable, the pass requests the rename.
pub proof fn lemma_ingestion_round_trip(
    c: Core,
    tabs: Seq<Tab>,
    i: int,
    payload: Seq<char>,
    id: u32,
    path: Seq<char>,
    p: Pane,
)
    requires
        spec_parse_payload(payload) == Some((id, path)),
        0 <= i < tabs.len(),
        spec_sel_panes(c.panes, tabs[i].position) == seq![p],
        p.id == id,
    ensures
        ({
            let c2 = Core { dirs: c.dirs.insert(id, path), ..c };
            let name = spec_format_path(path, spec_root_of(c2, path), c2.home);
            &&& spec_tab_target(c2, tabs[i].position) == Some((path, name))
            &&& (name != tabs[i].name@ && tabs[i].position + 1 <= u32::MAX
                ==> spec_organize_actions(c2, tabs).contains(
                ActionV::Rename((tabs[i].position + 1) as u32, name),
            ))
        }),
{
    let c2 = Core { dirs: c.dirs.insert(id, path), ..c };
    let pos = tabs[i].position;
    let sel = spec_sel_panes(c2.panes, pos);
    assert(sel == seq![p]);
    let ds = spec_known_dirs(sel, c2.dirs);
    assert(sel.drop_last() =~= Seq::<Pane>::empty());
    assert(sel.last() == p);
    assert(c2.dirs.contains_key(id));
    assert(spec_known_dirs(Seq::<Pane>::empty(), c2.dirs) =~= Seq::<Seq<char>>::empty());
    assert(spec_known_dirs(sel.drop_last(), c2.dirs) =~= Seq::<Seq<char>>::empty());
    assert(c2.dirs[p.id] == path);
    assert(ds =~= seq![path]);
    let name = spec_format_path(path, spec_root_of(c2, path), c2.home);
    assert(spec_tab_target(c2, pos) == Some((path, name)));
    if name != tabs[i].name@ && pos + 1 <= u32::MAX {
        let a = ActionV::Rename((pos + 1) as u32, name);
        let ta = spec_tab_actions(c2, tabs[i]);
        assert(ta.last() == a);
        assert(ta.contains(a));
        lemma_organize_contains_tab(c2, tabs, i, a);
    }
}

/// `b` is a path prefix of every path of `dirs` from index `k` on.
pub open spec fn prefix_of_all(b: Seq<char>, dirs: Seq<Seq<char>>, k: int) -> bool {
    forall|j: int| k <= j < dirs.len() ==> is_path_prefix(b, #[trigger] dirs[j])
}

proof fn lemma_fold_props(c: Seq<char>, dirs: Seq<Seq<char>>, k: int)
    requires
        0 <= k <= dirs.len(),
    ensures
        match fold_ascend(c, dirs, k) {
            Some(a) => in_parent_chain(a, c) && prefix_of_all(a, dirs, k) && (forall|b: Seq<char>|
                #[trigger] in_parent_chain(b, c) && prefix_of_all(b, dirs, k) ==> in_parent_chain(
                    b,
                    a,
                )),
            None => forall|b: Seq<char>| #[trigger] in_parent_chain(b, c) ==> !prefix_of_all(
                b,
                dirs,
                k,
            ),
        },
    decreases dirs.len() - k,
{
    if k >= dirs.len() {
        assert(in_parent_chain(c, c));
    } else {
        lemma_ascend_props(c, dirs[k]);
        match ascend_to_prefix(c, dirs[k]) {
            Some(a1) => {
                lemma_fold_props(a1, dirs, k + 1);
                match fold_ascend(a1, dirs, k + 1) {
                    Some(a) => {
                        lemma_chain_trans(a, a1, c);
                        lemma_chain_is_prefix(a, a1);
                        lemma_prefix_trans(a, a1, dirs[k]);
                        assert forall|j: int| k <= j < dirs.len() implies is_path_prefix(
                            a,
                            #[trigger] dirs[j],
                        ) by {
                            if j > k {
                                assert(prefix_of_all(a, dirs, k + 1));
                            }
                        }
                        assert forall|b: Seq<char>|
                            #[trigger] in_parent_chain(b, c) && prefix_of_all(
                                b,
                                dirs,
                                k,
                            ) implies in_parent_chain(b, a) by {
                            assert(is_path_prefix(b, dirs[k]));
                            assert(in_parent_chain(b, a1));
                            assert(prefix_of_all(b, dirs, k + 1));
                        }
                    },
                    None => {
                        assert forall|b: Seq<char>|
                            #[trigger] in_parent_chain(b, c) implies !prefix_of_all(
                            b,
                            dirs,
                            k,
                        ) by {
                            if prefix_of_all(b, dirs, k) {
                                assert(is_path_prefix(b, dirs[k]));
                                assert(in_parent_chain(b, a1));
                                assert(prefix_of_all(b, dirs, k + 1));
                                assert(false);
                            }
                        }
                    },
                }
            },
            None => {
                assert forall|b: Seq<char>| #[trigger] in_parent_chain(b, c) implies !prefix_of_all(
                    b,
                    dirs,
                    k,
                ) by {
                    if prefix_of_all(b, dirs, k) {
                        assert(is_path_prefix(b, dirs[k]));
                    }
                }
            },
        }
    }
}

/// What the common-ancestor computation returns on normalized paths: the
/// longest normalized common path prefix, or `None` when none exists.
pub proof fn lemma_common_ancestor_characterized(dirs: Seq<Seq<char>>)
    requires
        dirs.len() > 0,
        forall|i: int| 0 <= i < dirs.len() ==> is_normalized(#[trigger] dirs[i]),
    ensures
        match spec_common_ancestor(dirs) {
            Some(a) => is_normalized(a) && prefix_of_all(a, dirs, 0) && (forall|b: Seq<char>|
                is_normalized(b) && #[trigger] prefix_of_all(b, dirs, 0) ==> is_path_prefix(b, a)),
            None => forall|b: Seq<char>| is_normalized(b) ==> !#[trigger] prefix_of_all(b, dirs, 0),
        },
{
    lemma_fold_props(dirs[0], dirs, 0);
    match spec_common_ancestor(dirs) {
        Some(a) => {
            lemma_chain_normalized(a, dirs[0]);
            assert forall|b: Seq<char>|
                is_normalized(b) && #[trigger] prefix_of_all(b, dirs, 0) implies is_path_prefix(
                b,
                a,
            ) by {
                assert(is_path_prefix(b, dirs[0]));
                lemma_normalized_prefix_in_chain(b, dirs[0]);
                assert(in_parent_chain(b, a));
                lemma_chain_is_prefix(b, a);
            }
        },
        None => {
            assert forall|b: Seq<char>| is_normalized(b) implies !#[trigger] prefix_of_all(
                b,
                dirs,
                0,
            ) by {
                if prefix_of_all(b, dirs, 0) {
                    assert(is_path_prefix(b, dirs[0]));
                    lemma_normalized_prefix_in_chain(b, dirs[0]);
                    assert(false);
                }
            }
        },
    }
}

/// Order independence of the common-ancestor computation: two sequences of
/// normalized paths that hold the same set of paths — in particular, any two
/// permutations of one set — have the same common ancestor. (On paths that
/// are not normalized this fails: `["/a/", "/a/b"]` yields `"/a/"` while its
/// reversal yields `"/a"`.)
pub proof fn lemma_common_ancestor_order_independent(dirs1: Seq<Seq<char>>, dirs2: Seq<Seq<char>>)
    requires
        dirs1.len() > 0,
        dirs2.len() > 0,
        forall|i: int| 0 <= i < dirs1.len() ==> is_normalized(#[trigger] dirs1[i]),
        forall|x: Seq<char>|
            #![trigger dirs1.contains(x)]
            #![trigger dirs2.contains(x)]
            dirs1.contains(x) == dirs2.contains(x),
    ensures
        spec_common_ancestor(dirs1) == spec_common_ancestor(dirs2),
{
    assert forall|i: int| 0 <= i < dirs2.len() implies is_normalized(#[trigger] dirs2[i]) by {
        assert(dirs2.contains(dirs2[i]));
        assert(dirs1.contains(dirs2[i]));
        let w = choose|w: int| 0 <= w < dirs1.len() && dirs1[w] == dirs2[i];
        assert(is_normalized(dirs1[w]));
    }
    assert forall|b: Seq<char>| #[trigger] prefix_of_all(b, dirs1, 0) implies prefix_of_all(
        b,
        dirs2,
        0,
    ) by {
        assert forall|j: int| 0 <= j < dirs2.len() implies is_path_prefix(
            b,
            #[trigger] dirs2[j],
        ) by {
            assert(dirs2.contains(dirs2[j]));
            assert(dirs1.contains(dirs2[j]));
            let w = choose|w: int| 0 <= w < dirs1.len() && dirs1[w] == dirs2[j];
            assert(is_path_prefix(b, dirs1[w]));
        }
    }
    assert forall|b: Seq<char>| #[trigger] prefix_of_all(b, dirs2, 0) implies prefix_of_all(
        b,
        dirs1,
        0,
    ) by {
        assert forall|j: int| 0 <= j < dirs1.len() implies is_path_prefix(
            b,
            #[trigger] dirs1[j],
        ) by {
            assert(dirs1.contains(dirs1[j]));
            assert(dirs2.contains(dirs1[j]));
            let w = choose|w: int| 0 <= w < dirs2.len() && dirs2[w] == dirs1[j];
            assert(is_path_prefix(b, dirs2[w]));
        }
    }
    lemma_common_ancestor_characterized(dirs1);
    lemma_common_ancestor_characterized(dirs2);
    match (spec_common_ancestor(dirs1), spec_common_ancestor(dirs2)) {
        (Some(a1), Some(a2)) => {
            assert(prefix_of_all(a1, dirs2, 0));
            assert(prefix_of_all(a2, dirs1, 0));
            assert(is_path_prefix(a1, a2));
            assert(is_path_prefix(a2, a1));
            assert(a1 == a2);
        },
        (Some(a1), None) => {
            assert(prefix_of_all(a1, dirs2, 0));
            assert(false);
        },
        (None, Some(a2)) => {
            assert(prefix_of_all(a2, dirs1, 0));
            assert(false);
        },
        (None, None) => {},
    }
}

} // verus!
