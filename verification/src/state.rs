//! The organizer's state and its event handling: tab and pane snapshots, the
//! working-directory store, the permission gate, the path-metadata cache, and
//! the naming engine that derives one display name per tab and requests a
//! rename only on change.

use vstd::prelude::*;

use crate::format::{format_path, spec_format_path, strip_trailing_seps, trim_end_seps_x};
use crate::maps::{DirMap, StrMap};
use crate::parse::{parse_payload, spec_parse_payload};
use crate::path::{common_ancestor_x, spec_common_ancestor, str_views, view_opt};
use crate::text::{dec_str, spec_dec, spec_trim, str_eq, trim_x};

verus! {

/// A tab as the host reports it: its ordinal position and its current
/// display name.
pub struct Tab {
    pub position: usize,
    pub name: String,
}

/// A pane as the host reports it: a stable id, the ordinal of its tab, and
/// whether it is suppressed or a plugin pane.
#[derive(Clone, Copy)]
pub struct Pane {
    pub id: u32,
    pub tab_position: usize,
    pub is_suppressed: bool,
    pub is_plugin: bool,
}

/// A request the organizer makes of the host.
#[derive(Debug, PartialEq)]
pub enum Action {
    /// Rename the tab with the given 1-based ordinal.
    Rename(u32, String),
    /// Run `git rev-parse --show-toplevel` in the given directory, tagged so
    /// that the result can be routed back (see [`CommandOutcome`]).
    ResolveGitRoot(String),
}

/// The mathematical form of an [`Action`].
pub enum ActionV {
    Rename(u32, Seq<char>),
    Resolve(Seq<char>),
}

impl View for Action {
    type V = ActionV;

    open spec fn view(&self) -> ActionV {
        match self {
            Action::Rename(ord, name) => ActionV::Rename(*ord, name@),
            Action::ResolveGitRoot(p) => ActionV::Resolve(p@),
        }
    }
}

pub open spec fn action_views(s: Seq<Action>) -> Seq<ActionV> {
    s.map_values(|a: Action| a@)
}

/// The result of an external command, as the host delivers it: exit code,
/// standard output (`None` when it was not valid text), and the correlation
/// context echoed back from the launch.
pub struct CommandOutcome {
    pub exit_code: Option<i32>,
    pub stdout: Option<String>,
    pub context: Vec<(String, String)>,
}

/// A host event, dispatched to [`State::handle_event`].
pub enum Event {
    /// The tab list was replaced wholesale.
    TabUpdate(Vec<Tab>),
    /// The pane list was replaced wholesale.
    PaneUpdate(Vec<Pane>),
    /// The host answered the permission request.
    PermissionResult(bool),
    /// An external command finished.
    CommandResult(CommandOutcome),
    /// Any other event; ignored.
    Other,
}

/// The mathematical content of the state apart from the tabs.
#[verifier::ext_equal]
pub struct Core {
    pub panes: Seq<Pane>,
    pub dirs: Map<u32, Seq<char>>,
    pub meta: Map<Seq<char>, Seq<char>>,
    pub perm: Option<bool>,
    pub home: Option<Seq<char>>,
}

pub open spec fn pane_selected(p: Pane, pos: usize) -> bool {
    p.tab_position == pos && !p.is_suppressed && !p.is_plugin
}

/// The panes of the tab at `pos`, suppressed and plugin panes excluded, in
/// order.
pub open spec fn spec_sel_panes(panes: Seq<Pane>, pos: usize) -> Seq<Pane>
    decreases panes.len(),
{
    if panes.len() == 0 {
        Seq::empty()
    } else {
        spec_sel_panes(panes.drop_last(), pos) + if pane_selected(panes.last(), pos) {
            seq![panes.last()]
        } else {
            Seq::empty()
        }
    }
}

/// The working directories known for the given panes, in order.
pub open spec fn spec_known_dirs(sel: Seq<Pane>, dirs: Map<u32, Seq<char>>) -> Seq<Seq<char>>
    decreases sel.len(),
{
    if sel.len() == 0 {
        Seq::empty()
    } else {
        spec_known_dirs(sel.drop_last(), dirs) + if dirs.contains_key(sel.last().id) {
            seq![dirs[sel.last().id]]
        } else {
            Seq::empty()
        }
    }
}

pub open spec fn all_equal_dirs(ds: Seq<Seq<char>>) -> bool {
    forall|i: int| 0 <= i < ds.len() ==> #[trigger] ds[i] == ds[0]
}

/// The cached git worktree root for `p`, if any.
pub open spec fn spec_root_of(c: Core, p: Seq<char>) -> Option<Seq<char>> {
    if c.meta.contains_key(p) {
        Some(c.meta[p])
    } else {
        None
    }
}

/// Whether formatting `p` must ask the host to resolve its git root: the
/// cache misses and permission has been granted.
pub open spec fn spec_resolve_needed(c: Core, p: Seq<char>) -> bool {
    !c.meta.contains_key(p) && c.perm == Some(true)
}

/// The path a tab's name is derived from and the name itself, or `None` when
/// the tab is skipped (no known directory, or no common ancestor).
pub open spec fn spec_tab_target(c: Core, pos: usize) -> Option<(Seq<char>, Seq<char>)> {
    let sel = spec_sel_panes(c.panes, pos);
    let ds = spec_known_dirs(sel, c.dirs);
    if ds.len() == 0 {
        None
    } else if ds.len() == 1 {
        Some((ds[0], spec_format_path(ds[0], spec_root_of(c, ds[0]), c.home)))
    } else if all_equal_dirs(ds) {
        Some(
            (
                ds[0],
                strip_trailing_seps(spec_format_path(ds[0], spec_root_of(c, ds[0]), c.home))
                    + "/"@,
            ),
        )
    } else {
        match spec_common_ancestor(ds) {
            None => None,
            Some(ca) => Some(
                (
                    ca,
                    strip_trailing_seps(spec_format_path(ca, spec_root_of(c, ca), c.home)) + "/* ("@
                        + spec_dec(sel.len()) + " panes)"@,
                ),
            ),
        }
    }
}

/// The actions the naming engine emits for one tab: a resolution request when
/// the target path misses the cache under granted permission, then a rename
/// when the computed name differs from the current one and the 1-based
/// ordinal is representable.
pub open spec fn spec_tab_actions(c: Core, tab: Tab) -> Seq<ActionV> {
    match spec_tab_target(c, tab.position) {
        None => Seq::empty(),
        Some(t) => {
            let res = if spec_resolve_needed(c, t.0) {
                seq![ActionV::Resolve(t.0)]
            } else {
                Seq::empty()
            };
            let ren = if t.1 == tab.name@ {
                Seq::empty()
            } else if tab.position + 1 <= u32::MAX {
                seq![ActionV::Rename((tab.position + 1) as u32, t.1)]
            } else {
                Seq::empty()
            };
            res + ren
        },
    }
}

/// The name a tab carries after one pass of the engine: the computed name
/// when a rename was issued for it, its old name otherwise.
pub open spec fn spec_new_name(c: Core, tab: Tab) -> Seq<char> {
    match spec_tab_target(c, tab.position) {
        None => tab.name@,
        Some(t) => if t.1 != tab.name@ && tab.position + 1 <= u32::MAX {
            t.1
        } else {
            tab.name@
        },
    }
}

pub open spec fn spec_organize_prefix(c: Core, tabs: Seq<Tab>, i: int) -> Seq<ActionV>
    decreases i,
{
    if i <= 0 {
        Seq::empty()
    } else {
        spec_organize_prefix(c, tabs, i - 1) + spec_tab_actions(c, tabs[i - 1])
    }
}

/// All actions of one pass of the naming engine, tab by tab in order.
pub open spec fn spec_organize_actions(c: Core, tabs: Seq<Tab>) -> Seq<ActionV> {
    spec_organize_prefix(c, tabs, tabs.len() as int)
}

/// One pass of the engine over `pre_tabs` produced `post_tabs` and `acts`.
pub open spec fn organized_result(
    c: Core,
    pre_tabs: Seq<Tab>,
    post_tabs: Seq<Tab>,
    acts: Seq<ActionV>,
) -> bool {
    &&& post_tabs.len() == pre_tabs.len()
    &&& forall|i: int|
        0 <= i < pre_tabs.len() ==> (#[trigger] post_tabs[i]).position == pre_tabs[i].position
            && post_tabs[i].name@ == spec_new_name(c, pre_tabs[i])
    &&& acts == spec_organize_actions(c, pre_tabs)
}

/// The lookup of a key in a correlation context or a configuration list:
/// the first matching entry wins.
pub open spec fn spec_ctx_get(ctx: Seq<(String, String)>, k: Seq<char>) -> Option<Seq<char>>
    decreases ctx.len(),
{
    if ctx.len() == 0 {
        None
    } else if ctx[0].0@ == k {
        Some(ctx[0].1@)
    } else {
        spec_ctx_get(ctx.drop_first(), k)
    }
}

/// What a command result changes: `None` when the result is ignored (not this
/// plugin's tag, no `fn` or `path` in the context, a failing exit code, or
/// undecodable output); otherwise the cache entry to store, keyed by the
/// subject path taken from the context, with the trimmed output as root.
pub open spec fn spec_cmd_update(o: CommandOutcome) -> Option<(Seq<char>, Seq<char>)> {
    if spec_ctx_get(o.context@, "plugin"@) != Some("tabula"@) {
        None
    } else if spec_ctx_get(o.context@, "fn"@) is None {
        None
    } else if o.exit_code != Some(0i32) {
        None
    } else if o.stdout is None {
        None
    } else if spec_ctx_get(o.context@, "fn"@) != Some("get_git_worktree_root"@) {
        None
    } else {
        match spec_ctx_get(o.context@, "path"@) {
            None => None,
            Some(path) => Some((path, spec_trim(o.stdout->Some_0@))),
        }
    }
}

/// What a pipe message changes: `None` unless the message carries this
/// plugin's name tag and a payload that parses (see
/// [`spec_parse_payload`]); otherwise the store entry to write.
pub open spec fn spec_pipe_parsed(name: Seq<char>, payload: Option<Seq<char>>) -> Option<
    (u32, Seq<char>),
> {
    if name != "tabula"@ {
        None
    } else {
        match payload {
            None => None,
            Some(p) => spec_parse_payload(p),
        }
    }
}

/// How an action option relates to the resolution demand for path `p`.
pub open spec fn resolve_rel(c: Core, p: Seq<char>, a: Option<Action>) -> bool {
    match a {
        Some(act) => act@ == ActionV::Resolve(p) && spec_resolve_needed(c, p),
        None => !spec_resolve_needed(c, p),
    }
}

fn ctx_get(ctx: &Vec<(String, String)>, k: &str) -> (r: Option<String>)
    ensures
        view_opt(r) == spec_ctx_get(ctx@, k@),
{
    let mut i: usize = 0;
    proof {
        assert(ctx@.skip(0) =~= ctx@);
    }
    while i < ctx.len()
        invariant
            0 <= i <= ctx@.len(),
            spec_ctx_get(ctx@, k@) == spec_ctx_get(ctx@.skip(i as int), k@),
        decreases ctx@.len() - i,
    {
        proof {
            assert(ctx@.skip(i as int)[0] == ctx@[i as int]);
            assert(ctx@.skip(i as int).drop_first() =~= ctx@.skip(i + 1));
        }
        if str_eq(ctx[i].0.as_str(), k) {
            return Some(ctx[i].1.clone());
        }
        i += 1;
    }
    None
}

/// The selected panes of the tab at `pos`: how many there are, and the
/// working directories known for them.
fn collect_tab_dirs(panes: &Vec<Pane>, dirs: &DirMap, pos: usize) -> (r: (usize, Vec<String>))
    requires
        dirs.wf(),
    ensures
        r.0 == spec_sel_panes(panes@, pos).len(),
        str_views(r.1@) == spec_known_dirs(spec_sel_panes(panes@, pos), dirs@),
{
    let mut count: usize = 0;
    let mut ds: Vec<String> = Vec::new();
    let mut i: usize = 0;
    proof {
        assert(panes@.subrange(0, 0) =~= Seq::<Pane>::empty());
        assert(str_views(ds@) =~= Seq::<Seq<char>>::empty());
    }
    while i < panes.len()
        invariant
            0 <= i <= panes@.len(),
            dirs.wf(),
            count == spec_sel_panes(panes@.subrange(0, i as int), pos).len(),
            count <= i,
            str_views(ds@) == spec_known_dirs(spec_sel_panes(panes@.subrange(0, i as int), pos), dirs@),
        decreases panes@.len() - i,
    {
        let ghost pre = panes@.subrange(0, i as int);
        let ghost pre2 = panes@.subrange(0, i + 1);
        proof {
            assert(pre2.drop_last() =~= pre);
            assert(pre2.last() == panes@[i as int]);
        }
        let p = panes[i];
        let ghost sel_pre = spec_sel_panes(pre, pos);
        let ghost sel_pre2 = spec_sel_panes(pre2, pos);
        if p.tab_position == pos && !p.is_suppressed && !p.is_plugin {
            proof {
                assert(sel_pre2 =~= sel_pre.push(panes@[i as int]));
                assert(sel_pre2.drop_last() =~= sel_pre);
            }
            count += 1;
            match dirs.get(p.id) {
                Some(d) => {
                    let ghost old_ds = ds@;
                    ds.push(d);
                    proof {
                        assert(str_views(ds@) =~= str_views(old_ds).push(ds@.last()@));
                        assert(str_views(ds@) =~= spec_known_dirs(sel_pre2, dirs@));
                    }
                },
                None => {
                    proof {
                        assert(str_views(ds@) =~= spec_known_dirs(sel_pre2, dirs@));
                    }
                },
            }
        } else {
            proof {
                assert(sel_pre2 =~= sel_pre);
                assert(str_views(ds@) =~= spec_known_dirs(sel_pre2, dirs@));
            }
        }
        i += 1;
    }
    proof {
        assert(panes@.subrange(0, panes@.len() as int) =~= panes@);
    }
    (count, ds)
}

fn all_equal_x(ds: &Vec<String>) -> (b: bool)
    requires
        ds@.len() > 0,
    ensures
        b == all_equal_dirs(str_views(ds@)),
{
    let mut i: usize = 1;
    while i < ds.len()
        invariant
            1 <= i <= ds@.len(),
            forall|t: int| 0 <= t < i ==> #[trigger] str_views(ds@)[t] == str_views(ds@)[0],
        decreases ds@.len() - i,
    {
        if !str_eq(ds[i].as_str(), ds[0].as_str()) {
            proof {
                assert(str_views(ds@)[i as int] != str_views(ds@)[0]);
            }
            return false;
        }
        i += 1;
    }
    true
}

/// The organizer's state. All of it is owned here and mutated only through
/// the event handlers; nothing is pruned from the working-directory store.
pub struct State {
    home_dir: Option<String>,
    tabs: Vec<Tab>,
    panes: Vec<Pane>,
    pane_working_dirs: DirMap,
    permission_granted: Option<bool>,
    path_metadata: StrMap,
}

impl State {
    pub closed spec fn wf(&self) -> bool {
        self.pane_working_dirs.wf() && self.path_metadata.wf()
    }

    /// Everything but the tabs, as mathematical values.
    pub closed spec fn model(&self) -> Core {
        Core {
            panes: self.panes@,
            dirs: self.pane_working_dirs@,
            meta: self.path_metadata@,
            perm: self.permission_granted,
            home: view_opt(self.home_dir),
        }
    }

    pub closed spec fn tabs_view(&self) -> Seq<Tab> {
        self.tabs@
    }

    /// A fresh state from the load-time configuration; the recognized key is
    /// `home_dir`.
    pub fn load(config: Vec<(String, String)>) -> (s: State)
        ensures
            s.wf(),
            s.model() == (Core {
                panes: Seq::<Pane>::empty(),
                dirs: Map::<u32, Seq<char>>::empty(),
                meta: Map::<Seq<char>, Seq<char>>::empty(),
                perm: None::<bool>,
                home: spec_ctx_get(config@, "home_dir"@),
            }),
            s.tabs_view() == Seq::<Tab>::empty(),
    {
        let home_dir = ctx_get(&config, "home_dir");
        State {
            home_dir,
            tabs: Vec::new(),
            panes: Vec::new(),
            pane_working_dirs: DirMap::new(),
            permission_granted: None,
            path_metadata: StrMap::new(),
        }
    }

    /// The cached git worktree root of `path`, together with the request to
    /// resolve it when the cache misses and permission has been granted.
    pub fn get_git_worktree_root(&self, path: &String) -> (r: (Option<String>, Option<Action>))
        requires
            self.wf(),
        ensures
            view_opt(r.0) == spec_root_of(self.model(), path@),
            resolve_rel(self.model(), path@, r.1),
    {
        let root = self.path_metadata.get(path);
        let granted = match self.permission_granted {
            Some(g) => g,
            None => false,
        };
        let act = if root.is_none() && granted {
            Some(Action::ResolveGitRoot(path.clone()))
        } else {
            None
        };
        (root, act)
    }

    /// The name computed for the tab at `pos` (with the request to resolve
    /// the target path's git root, if one is due), or `None` when the tab is
    /// skipped.
    fn compute_tab(&self, pos: usize) -> (r: (Option<String>, Option<Action>))
        requires
            self.wf(),
        ensures
            match (r.0, spec_tab_target(self.model(), pos)) {
                (Some(name), Some(t)) => name@ == t.1 && resolve_rel(self.model(), t.0, r.1),
                (None, None) => r.1 is None,
                _ => false,
            },
    {
        let (count, ds) = collect_tab_dirs(&self.panes, &self.pane_working_dirs, pos);
        let ghost dsv = spec_known_dirs(spec_sel_panes(self.panes@, pos), self.pane_working_dirs@);
        if ds.len() == 0 {
            return (None, None);
        }
        proof {
            assert(dsv[0] == ds@[0]@);
        }
        if ds.len() == 1 {
            let (root, act) = self.get_git_worktree_root(&ds[0]);
            let name = format_path(ds[0].as_str(), &root, &self.home_dir);
            return (Some(name), act);
        }
        if all_equal_x(&ds) {
            let (root, act) = self.get_git_worktree_root(&ds[0]);
            let fp = format_path(ds[0].as_str(), &root, &self.home_dir);
            let mut name = trim_end_seps_x(fp.as_str());
            name.append("/");
            return (Some(name), act);
        }
        match common_ancestor_x(&ds) {
            None => (None, None),
            Some(ca) => {
                let (root, act) = self.get_git_worktree_root(&ca);
                let fp = format_path(ca.as_str(), &root, &self.home_dir);
                let mut name = trim_end_seps_x(fp.as_str());
                name.append("/* (");
                let cnt = dec_str(count);
                name.append(cnt.as_str());
                name.append(" panes)");
                proof {
                    assert(name@ =~= spec_tab_target(self.model(), pos)->Some_0.1);
                }
                (Some(name), act)
            },
        }
    }

    /// One pass of the naming engine: for every tab, derive a name from the
    /// working directories of its panes and request a rename when it differs
    /// from the current name; the stored name is overwritten alongside.
    #[verifier::loop_isolation(false)]
    pub fn organize(&mut self) -> (acts: Vec<Action>)
        requires
            old(self).wf(),
        ensures
            final(self).wf(),
            final(self).model() == old(self).model(),
            organized_result(
                old(self).model(),
                old(self).tabs_view(),
                final(self).tabs_view(),
                action_views(acts@),
            ),
    {
        let ghost core0 = self.model();
        let ghost tabs0 = self.tabs@;
        let mut acts: Vec<Action> = Vec::new();
        let mut new_tabs: Vec<Tab> = Vec::new();
        let mut i: usize = 0;
        proof {
            assert(action_views(acts@) =~= spec_organize_prefix(core0, tabs0, 0));
        }
        while i < self.tabs.len()
            invariant
                0 <= i <= tabs0.len(),
                new_tabs@.len() == i,
                forall|t: int|
                    0 <= t < i ==> (#[trigger] new_tabs@[t]).position == tabs0[t].position
                        && new_tabs@[t].name@ == spec_new_name(core0, tabs0[t]),
                action_views(acts@) == spec_organize_prefix(core0, tabs0, i as int),
            decreases tabs0.len() - i,
        {
            let pos = self.tabs[i].position;
            let (name_opt, act_opt) = self.compute_tab(pos);
            match name_opt {
                Some(name) => {
                    if let Some(a) = act_opt {
                        acts.push(a);
                    }
                    let keep_old = str_eq(name.as_str(), self.tabs[i].name.as_str());
                    if !keep_old && pos <= (u32::MAX - 1) as usize {
                        let ord = pos as u32 + 1;
                        acts.push(Action::Rename(ord, name.clone()));
                        new_tabs.push(Tab { position: pos, name });
                    } else {
                        new_tabs.push(Tab { position: pos, name: self.tabs[i].name.clone() });
                    }
                },
                None => {
                    new_tabs.push(Tab { position: pos, name: self.tabs[i].name.clone() });
                },
            }
            i += 1;
            proof {
                assert(action_views(acts@) =~= spec_organize_prefix(core0, tabs0, i as int));
            }
        }
        self.tabs = new_tabs;
        acts
    }

    /// Ingest a working-directory report delivered over the host's pipe
    /// channel, and run the naming engine when it changed the store.
    pub fn handle_pipe(&mut self, name: &str, payload: Option<String>) -> (acts: Vec<Action>)
        requires
            old(self).wf(),
        ensures
            final(self).wf(),
            match spec_pipe_parsed(name@, view_opt(payload)) {
                None => final(self).model() == old(self).model() && final(self).tabs_view() == old(
                    self,
                ).tabs_view() && acts@.len() == 0,
                Some(t) => {
                    let c2 = Core {
                        dirs: old(self).model().dirs.insert(t.0, t.1),
                        ..old(self).model()
                    };
                    &&& final(self).model() == c2
                    &&& organized_result(
                        c2,
                        old(self).tabs_view(),
                        final(self).tabs_view(),
                        action_views(acts@),
                    )
                },
            },
    {
        if !str_eq(name, "tabula") {
            return Vec::new();
        }
        let p = match payload {
            Some(p) => p,
            None => {
                return Vec::new();
            },
        };
        match parse_payload(p.as_str()) {
            None => Vec::new(),
            Some((id, path)) => {
                self.pane_working_dirs.insert(id, path);
                self.organize()
            },
        }
    }

    /// Route a finished external command: results not tagged as this
    /// plugin's git-root lookup are ignored; a successful one fills the
    /// metadata cache, keyed by the subject path from the context, and
    /// re-runs the naming engine.
    fn apply_command_result(&mut self, o: CommandOutcome) -> (acts: Vec<Action>)
        requires
            old(self).wf(),
        ensures
            final(self).wf(),
            match spec_cmd_update(o) {
                None => final(self).model() == old(self).model() && final(self).tabs_view() == old(
                    self,
                ).tabs_view() && acts@.len() == 0,
                Some(t) => {
                    let c2 = Core {
                        meta: old(self).model().meta.insert(t.0, t.1),
                        ..old(self).model()
                    };
                    &&& final(self).model() == c2
                    &&& organized_result(
                        c2,
                        old(self).tabs_view(),
                        final(self).tabs_view(),
                        action_views(acts@),
                    )
                },
            },
    {
        let plugin = ctx_get(&o.context, "plugin");
        let is_ours = match &plugin {
            Some(v) => str_eq(v.as_str(), "tabula"),
            None => false,
        };
        if !is_ours {
            return Vec::new();
        }
        let fn_name = match ctx_get(&o.context, "fn") {
            Some(v) => v,
            None => {
                return Vec::new();
            },
        };
        let exit_ok = match o.exit_code {
            Some(c) => c == 0,
            None => false,
        };
        if !exit_ok {
            return Vec::new();
        }
        let stdout = match o.stdout {
            Some(s) => s,
            None => {
                return Vec::new();
            },
        };
        if !str_eq(fn_name.as_str(), "get_git_worktree_root") {
            return Vec::new();
        }
        let path = match ctx_get(&o.context, "path") {
            Some(v) => v,
            None => {
                return Vec::new();
            },
        };
        let root = trim_x(stdout.as_str());
        self.path_metadata.insert(path, root);
        self.organize()
    }

    /// Dispatch one host event. Tab, pane and metadata mutations are each
    /// followed by a pass of the naming engine; a permission result only
    /// records the grant.
    pub fn handle_event(&mut self, event: Event) -> (acts: Vec<Action>)
        requires
            old(self).wf(),
        ensures
            final(self).wf(),
            match event {
                Event::TabUpdate(tabs) => {
                    &&& final(self).model() == old(self).model()
                    &&& organized_result(
                        old(self).model(),
                        tabs@,
                        final(self).tabs_view(),
                        action_views(acts@),
                    )
                },
                Event::PaneUpdate(panes) => {
                    let c2 = Core { panes: panes@, ..old(self).model() };
                    &&& final(self).model() == c2
                    &&& organized_result(
                        c2,
                        old(self).tabs_view(),
                        final(self).tabs_view(),
                        action_views(acts@),
                    )
                },
                Event::PermissionResult(granted) => {
                    &&& final(self).model() == (Core {
                        perm: Some(granted),
                        ..old(self).model()
                    })
                    &&& final(self).tabs_view() == old(self).tabs_view()
                    &&& acts@.len() == 0
                },
                Event::CommandResult(o) => match spec_cmd_update(o) {
                    None => final(self).model() == old(self).model() && final(self).tabs_view()
                        == old(self).tabs_view() && acts@.len() == 0,
                    Some(t) => {
                        let c2 = Core {
                            meta: old(self).model().meta.insert(t.0, t.1),
                            ..old(self).model()
                        };
                        &&& final(self).model() == c2
                        &&& organized_result(
                            c2,
                            old(self).tabs_view(),
                            final(self).tabs_view(),
                            action_views(acts@),
                        )
                    },
                },
                Event::Other => final(self).model() == old(self).model() && final(self).tabs_view()
                    == old(self).tabs_view() && acts@.len() == 0,
            },
    {
        match event {
            Event::TabUpdate(tabs) => {
                self.tabs = tabs;
                self.organize()
            },
            Event::PaneUpdate(panes) => {
                self.panes = panes;
                self.organize()
            },
            Event::PermissionResult(granted) => {
                self.permission_granted = Some(granted);
                Vec::new()
            },
            Event::CommandResult(o) => self.apply_command_result(o),
            Event::Other => Vec::new(),
        }
    }

    /// The number of tabs currently known.
    pub fn tab_count(&self) -> (n: usize)
        ensures
            n == self.tabs_view().len(),
    {
        self.tabs.len()
    }

    /// The stored name of the tab at index `i`.
    pub fn tab_name_at(&self, i: usize) -> (r: Option<String>)
        ensures
            match r {
                Some(n) => i < self.tabs_view().len() && n@ == self.tabs_view()[i as int].name@,
                None => i >= self.tabs_view().len(),
            },
    {
        if i < self.tabs.len() {
            Some(self.tabs[i].name.clone())
        } else {
            None
        }
    }

    /// The working directory stored for a pane.
    pub fn working_dir_of(&self, pane: u32) -> (r: Option<String>)
        requires
            self.wf(),
        ensures
            match r {
                Some(v) => self.model().dirs.contains_key(pane) && self.model().dirs[pane] == v@,
                None => !self.model().dirs.contains_key(pane),
            },
    {
        self.pane_working_dirs.get(pane)
    }

    /// The permission grant as last reported by the host.
    pub fn permission_state(&self) -> (r: Option<bool>)
        ensures
            r == self.model().perm,
    {
        self.permission_granted
    }
}

} // verus!
