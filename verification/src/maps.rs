//! Small association maps with `Map` views: the working-directory store
//! (pane id to path) and the path-metadata cache (path to git worktree root).

use vstd::prelude::*;

use crate::text::str_eq;

verus! {

pub open spec fn dir_entries_map(es: Seq<(u32, String)>) -> Map<u32, Seq<char>>
    decreases es.len(),
{
    if es.len() == 0 {
        Map::empty()
    } else {
        dir_entries_map(es.drop_last()).insert(es.last().0, es.last().1@)
    }
}

proof fn lemma_dir_map_index(es: Seq<(u32, String)>, i: int)
    requires
        forall|a: int, b: int| 0 <= a < b < es.len() ==> es[a].0 != es[b].0,
        0 <= i < es.len(),
    ensures
        dir_entries_map(es).contains_key(es[i].0),
        dir_entries_map(es)[es[i].0] == es[i].1@,
    decreases es.len(),
{
    if i == es.len() - 1 {
    } else {
        lemma_dir_map_index(es.drop_last(), i);
        assert(es.drop_last()[i] == es[i]);
        assert(es.last().0 != es[i].0);
    }
}

proof fn lemma_dir_map_absent(es: Seq<(u32, String)>, k: u32)
    requires
        forall|t: int| 0 <= t < es.len() ==> es[t].0 != k,
    ensures
        !dir_entries_map(es).contains_key(k),
    decreases es.len(),
{
    if es.len() > 0 {
        lemma_dir_map_absent(es.drop_last(), k);
    }
}

proof fn lemma_dir_map_update(es: Seq<(u32, String)>, i: int, k: u32, v: String)
    requires
        forall|a: int, b: int| 0 <= a < b < es.len() ==> es[a].0 != es[b].0,
        0 <= i < es.len(),
        es[i].0 == k,
    ensures
        dir_entries_map(es.update(i, (k, v))) =~= dir_entries_map(es).insert(k, v@),
    decreases es.len(),
{
    let es2 = es.update(i, (k, v));
    if i == es.len() - 1 {
        assert(es2.drop_last() =~= es.drop_last());
    } else {
        lemma_dir_map_update(es.drop_last(), i, k, v);
        assert(es2.drop_last() =~= es.drop_last().update(i, (k, v)));
        assert(es2.last() == es.last());
        assert(es.last().0 != k);
    }
}

/// The working-directory store: pane id to reported working directory.
/// Entries are appended or overwritten, never removed.
pub struct DirMap {
    entries: Vec<(u32, String)>,
}

impl View for DirMap {
    type V = Map<u32, Seq<char>>;

    closed spec fn view(&self) -> Map<u32, Seq<char>> {
        dir_entries_map(self.entries@)
    }
}

impl DirMap {
    pub closed spec fn wf(&self) -> bool {
        forall|a: int, b: int|
            0 <= a < b < self.entries@.len() ==> self.entries@[a].0 != self.entries@[b].0
    }

    pub fn new() -> (r: DirMap)
        ensures
            r@ == Map::<u32, Seq<char>>::empty(),
            r.wf(),
    {
        DirMap { entries: Vec::new() }
    }

    pub fn get(&self, k: u32) -> (r: Option<String>)
        requires
            self.wf(),
        ensures
            match r {
                Some(v) => self@.contains_key(k) && self@[k] == v@,
                None => !self@.contains_key(k),
            },
    {
        let mut i: usize = 0;
        while i < self.entries.len()
            invariant
                0 <= i <= self.entries@.len(),
                forall|t: int| 0 <= t < i ==> self.entries@[t].0 != k,
                self.wf(),
            decreases self.entries@.len() - i,
        {
            if self.entries[i].0 == k {
                proof {
                    lemma_dir_map_index(self.entries@, i as int);
                }
                return Some(self.entries[i].1.clone());
            }
            i += 1;
        }
        proof {
            lemma_dir_map_absent(self.entries@, k);
        }
        None
    }

    #[verifier::loop_isolation(false)]
    pub fn insert(&mut self, k: u32, v: String)
        requires
            old(self).wf(),
        ensures
            final(self).wf(),
            final(self)@ == old(self)@.insert(k, v@),
    {
        let ghost es0 = self.entries@;
        let mut i: usize = 0;
        while i < self.entries.len()
            invariant
                0 <= i <= self.entries@.len(),
                forall|t: int| 0 <= t < i ==> self.entries@[t].0 != k,
                self.entries@ == es0,
                self.wf(),
            decreases self.entries@.len() - i,
        {
            if self.entries[i].0 == k {
                self.entries[i] = (k, v);
                proof {
                    lemma_dir_map_update(es0, i as int, k, v);
                }
                return;
            }
            i += 1;
        }
        self.entries.push((k, v));
        proof {
            assert(self.entries@.drop_last() =~= es0);
            assert(self@ == dir_entries_map(es0).insert(k, v@));
        }
    }
}

pub open spec fn str_entries_map(es: Seq<(String, String)>) -> Map<Seq<char>, Seq<char>>
    decreases es.len(),
{
    if es.len() == 0 {
        Map::empty()
    } else {
        str_entries_map(es.drop_last()).insert(es.last().0@, es.last().1@)
    }
}

proof fn lemma_str_map_index(es: Seq<(String, String)>, i: int)
    requires
        forall|a: int, b: int| 0 <= a < b < es.len() ==> es[a].0@ != es[b].0@,
        0 <= i < es.len(),
    ensures
        str_entries_map(es).contains_key(es[i].0@),
        str_entries_map(es)[es[i].0@] == es[i].1@,
    decreases es.len(),
{
    if i == es.len() - 1 {
    } else {
        lemma_str_map_index(es.drop_last(), i);
        assert(es.drop_last()[i] == es[i]);
        assert(es.last().0@ != es[i].0@);
    }
}

proof fn lemma_str_map_absent(es: Seq<(String, String)>, k: Seq<char>)
    requires
        forall|t: int| 0 <= t < es.len() ==> es[t].0@ != k,
    ensures
        !str_entries_map(es).contains_key(k),
    decreases es.len(),
{
    if es.len() > 0 {
        lemma_str_map_absent(es.drop_last(), k);
    }
}

proof fn lemma_str_map_update(es: Seq<(String, String)>, i: int, k: String, v: String)
    requires
        forall|a: int, b: int| 0 <= a < b < es.len() ==> es[a].0@ != es[b].0@,
        0 <= i < es.len(),
        es[i].0@ == k@,
    ensures
        str_entries_map(es.update(i, (k, v))) =~= str_entries_map(es).insert(k@, v@),
    decreases es.len(),
{
    let es2 = es.update(i, (k, v));
    if i == es.len() - 1 {
        assert(es2.drop_last() =~= es.drop_last());
    } else {
        lemma_str_map_update(es.drop_last(), i, k, v);
        assert(es2.drop_last() =~= es.drop_last().update(i, (k, v)));
        assert(es2.last() == es.last());
        assert(es.last().0@ != k@);
    }
}

/// The path-metadata cache: a path to the git worktree root resolved for it.
pub struct StrMap {
    entries: Vec<(String, String)>,
}

impl View for StrMap {
    type V = Map<Seq<char>, Seq<char>>;

    closed spec fn view(&self) -> Map<Seq<char>, Seq<char>> {
        str_entries_map(self.entries@)
    }
}

impl StrMap {
    pub closed spec fn wf(&self) -> bool {
        forall|a: int, b: int|
            0 <= a < b < self.entries@.len() ==> self.entries@[a].0@ != self.entries@[b].0@
    }

    pub fn new() -> (r: StrMap)
        ensures
            r@ == Map::<Seq<char>, Seq<char>>::empty(),
            r.wf(),
    {
        StrMap { entries: Vec::new() }
    }

    pub fn get(&self, k: &String) -> (r: Option<String>)
        requires
            self.wf(),
        ensures
            match r {
                Some(v) => self@.contains_key(k@) && self@[k@] == v@,
                None => !self@.contains_key(k@),
            },
    {
        let mut i: usize = 0;
        while i < self.entries.len()
            invariant
                0 <= i <= self.entries@.len(),
                forall|t: int| 0 <= t < i ==> self.entries@[t].0@ != k@,
                self.wf(),
            decreases self.entries@.len() - i,
        {
            if str_eq(self.entries[i].0.as_str(), k.as_str()) {
                proof {
                    lemma_str_map_index(self.entries@, i as int);
                }
                return Some(self.entries[i].1.clone());
            }
            i += 1;
        }
        proof {
            lemma_str_map_absent(self.entries@, k@);
        }
        None
    }

    #[verifier::loop_isolation(false)]
    pub fn insert(&mut self, k: String, v: String)
        requires
            old(self).wf(),
        ensures
            final(self).wf(),
            final(self)@ == old(self)@.insert(k@, v@),
    {
        let ghost es0 = self.entries@;
        let mut i: usize = 0;
        while i < self.entries.len()
            invariant
                0 <= i <= self.entries@.len(),
                forall|t: int| 0 <= t < i ==> self.entries@[t].0@ != k@,
                self.entries@ == es0,
                self.wf(),
            decreases self.entries@.len() - i,
        {
            if str_eq(self.entries[i].0.as_str(), k.as_str()) {
                proof {
                    lemma_str_map_update(es0, i as int, k, v);
                }
                self.entries[i] = (k, v);
                return;
            }
            i += 1;
        }
        self.entries.push((k, v));
        proof {
            assert(self.entries@.drop_last() =~= es0);
            assert(self@ == str_entries_map(es0).insert(k@, v@));
        }
    }
}

} // verus!
