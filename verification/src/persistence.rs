//! Saving the session, loading it back, and restoring windows to the
//! monitor and workspace they were on.

use std::collections::HashSet;

use vstd::prelude::*;

use crate::config::{config_index, lemma_config_index, UserConfig, WorkspaceConfig};
use crate::container::unchanged;
use crate::laws_workspace::lemma_first_named_at;
use crate::query::{first_named, lemma_first_named, monitors, workspace_by_name};
use crate::session::{
    best_match, best_match_index, identifies, lemma_best_match_unique, lemma_identifies_unique,
    monitor_by_identity, monitor_props,
};
use crate::tree::{attach_spec, node_wf};
use crate::workspace::{activate_workspace, activation_choice, added_child, direction_for, is_new_workspace};
use crate::model::{clone_opt_string, clone_string, ContainerKind, NativeMonitorProperties, WindowState};
use crate::query::{ancestor_of_kind, windows};
use crate::model::{DisplayState, NativeWindowProperties, Rect};
use crate::container::{move_container_within_tree, move_spec};
use crate::error::WmError;
use crate::state::{queued, with_floating_placement, with_window_state};
use crate::session::{
    PersistedMonitorIdentity, PersistedSession, PersistedWindow, PersistedWindowAssignment,
    PersistedWindowIdentity, PersistenceState, SESSION_VERSION,
};
use crate::state::{TreeView, WmState};
use crate::text::{normalize_title, normalized_title};

verus! {

broadcast use vstd::std_specs::hash::group_hash_axioms;

/// The characters of an optional string.
pub open spec fn opt_view(o: Option<String>) -> Option<Seq<char>> {
    match o {
        Some(s) => Some(s@),
        None => None,
    }
}

/// `id` identifies a monitor with the native properties `p`.
pub open spec fn identity_of(id: PersistedMonitorIdentity, p: NativeMonitorProperties) -> bool {
    &&& id.device_name@ == p.device_name@
    &&& opt_view(id.device_path) == opt_view(p.device_path)
    &&& opt_view(id.hardware_id) == opt_view(p.hardware_id)
}

impl PersistedMonitorIdentity {
    /// The identity saved for a monitor with the given properties.
    pub fn from(properties: &NativeMonitorProperties) -> (r: PersistedMonitorIdentity)
        ensures
            identity_of(r, *properties),
    {
        let device_path = clone_opt_string(&properties.device_path);
        let hardware_id = clone_opt_string(&properties.hardware_id);
        PersistedMonitorIdentity {
            device_name: clone_string(&properties.device_name),
            device_path,
            hardware_id,
        }
    }
}

/// The state a window is restored into: any but minimized.
pub open spec fn restorable_state(state: WindowState) -> Option<WindowState> {
    match state {
        WindowState::Minimized => None,
        _ => Some(state),
    }
}

pub fn safe_window_state(state: &WindowState) -> (r: Option<WindowState>)
    ensures
        r == restorable_state(*state),
{
    match state {
        WindowState::Minimized => None,
        _ => Some(*state),
    }
}

/// The workspace and the monitor that hold container `c`, where both exist.
pub open spec fn placement(v: TreeView, c: usize) -> Option<(usize, usize)> {
    match ancestor_of_kind(v, c, ContainerKind::Workspace) {
        None => None,
        Some(w) => match ancestor_of_kind(v, w, ContainerKind::Monitor) {
            None => None,
            Some(m) => Some((w, m)),
        },
    }
}

/// The windows that `capture_session` records: those in a workspace on a
/// monitor, in the order of [`windows`].
pub open spec fn placed_windows(v: TreeView) -> Seq<usize> {
    windows(v).filter(|w: usize| placement(v, w) is Some)
}

/// `e` records window `w`, which workspace `ws` on monitor `m` holds.
pub open spec fn records(v: TreeView, w: usize, ws: usize, m: usize, e: PersistedWindow) -> bool {
    let d = v.data[w as int].window;
    &&& opt_view(e.identity.process_path) == opt_view(d.native.process_path)
    &&& opt_view(e.identity.window_class) == opt_view(d.native.class_name)
    &&& e.identity.process_name@ == d.native.process_name@
    &&& opt_view(e.identity.normalized_title) == normalized_title(d.native.title@)
    &&& identity_of(e.assignment.monitor, v.data[m as int].monitor)
    &&& e.assignment.workspace_name@ == v.data[ws as int].workspace_name@
    &&& e.window_state == d.state
    &&& e.floating_placement == d.floating_placement
    &&& e.has_custom_floating_placement == d.has_custom_floating_placement
}

/// `s` is the session saved for the tree `v`: the current version, and
/// one entry per placed window, in order.
pub open spec fn captures(v: TreeView, s: PersistedSession) -> bool {
    let ws = placed_windows(v);
    &&& s.version == SESSION_VERSION
    &&& s.windows@.len() == ws.len()
    &&& forall|i: int|
        0 <= i < ws.len() ==> {
            let (w, m) = placement(v, #[trigger] ws[i]).unwrap();
            records(v, ws[i], w, m, s.windows@[i])
        }
}

fn capture_window(state: &WmState, w: usize, ws: usize, m: usize) -> (r: PersistedWindow)
    requires
        state.wf(),
        w < state.len(),
        ws < state.len(),
        m < state.len(),
    ensures
        records(state.tv(), w, ws, m, r),
{
    let native = &state.data[w].window.native;
    let normalized_title = normalize_title(native.title.as_str());
    PersistedWindow {
        identity: PersistedWindowIdentity {
            process_path: clone_opt_string(&native.process_path),
            window_class: clone_opt_string(&native.class_name),
            process_name: clone_string(&native.process_name),
            normalized_title,
        },
        assignment: PersistedWindowAssignment {
            monitor: PersistedMonitorIdentity::from(&state.data[m].monitor),
            workspace_name: clone_string(&state.data[ws].workspace_name),
        },
        window_state: state.data[w].window.state,
        floating_placement: state.data[w].window.floating_placement,
        has_custom_floating_placement: state.data[w].window.has_custom_floating_placement,
    }
}

/// The session to save for `state`: each window that is in a workspace on
/// a monitor, with how to recognise it and where it was.
pub fn capture_session(state: &WmState) -> (r: PersistedSession)
    requires
        state.wf(),
    ensures
        captures(state.tv(), r),
{
    let ghost v = state.tv();
    let ghost pred = |w: usize| placement(v, w) is Some;
    let all = state.windows();
    let mut kept: Vec<PersistedWindow> = Vec::new();
    let ghost mut ids: Seq<usize> = Seq::empty();
    let mut i: usize = 0;
    assert(all@.take(0) =~= Seq::<usize>::empty());
    while i < all.len()
        invariant
            state.wf(),
            v == state.tv(),
            pred == (|w: usize| placement(v, w) is Some),
            all@ == windows(v),
            forall|k: int| 0 <= k < all@.len() ==> #[trigger] all@[k] < state.len(),
            i <= all@.len(),
            ids == all@.take(i as int).filter(pred),
            kept@.len() == ids.len(),
            forall|k: int|
                0 <= k < ids.len() ==> {
                    let (w, m) = placement(v, #[trigger] ids[k]).unwrap();
                    records(v, ids[k], w, m, kept@[k])
                },
        decreases all@.len() - i,
    {
        let w = all[i];
        assert(all@.take(i + 1) =~= all@.take(i as int).push(w));
        proof {
            all@.take(i as int).lemma_filter_push(w, pred);
        }
        match state.workspace_of(w) {
            Some(ws) => match state.monitor_of(ws) {
                Some(m) => {
                    let e = capture_window(state, w, ws, m);
                    kept.push(e);
                    proof {
                        let ids0 = ids;
                        ids = ids.push(w);
                        assert forall|k: int| 0 <= k < ids.len() implies {
                            let (a, b) = placement(v, #[trigger] ids[k]).unwrap();
                            records(v, ids[k], a, b, kept@[k])
                        } by {
                            if k < ids0.len() {
                                assert(ids[k] == ids0[k]);
                            }
                        }
                    }
                },
                None => {},
            },
            None => {},
        }
        i = i + 1;
    }
    assert(all@.take(i as int) =~= all@);
    PersistedSession { version: SESSION_VERSION, windows: kept }
}

/// A loaded session is used only if it has the current version.
pub fn accept_session(session: PersistedSession) -> (r: Option<PersistedSession>)
    ensures
        r is Some <==> session.version == SESSION_VERSION,
        r matches Some(s) ==> s == session,
{
    if session.version != SESSION_VERSION {
        None
    } else {
        Some(session)
    }
}

impl WmState {
    /// Takes in the session read at startup. With persistence disabled the
    /// persistence state is cleared; a session that could not be read
    /// (`Err`) leaves it as it was; otherwise the session (if any) replaces
    /// it, with no entry used yet.
    pub fn load_persistence(&mut self, config: &UserConfig, loaded: Result<Option<PersistedSession>, String>)
        requires
            old(self).wf(),
        ensures
            final(self).wf(),
            final(self).tv() == old(self).tv(),
            final(self).pending_sync == old(self).pending_sync,
            !config.persistence.enabled ==> final(self).persistence.session is None
                && final(self).persistence.used_entries@ == Set::<usize>::empty(),
            config.persistence.enabled ==> match loaded {
                Ok(s) => final(self).persistence.session == s
                    && final(self).persistence.used_entries@ == Set::<usize>::empty(),
                Err(_) => final(self).persistence == old(self).persistence,
            },
    {
        if !config.persistence.enabled {
            self.persistence.clear();
            return ;
        }
        match loaded {
            Ok(session) => {
                self.persistence.session = session;
                self.persistence.used_entries = HashSet::new();
            },
            Err(_) => {},
        }
    }

    /// The session to write out, `None` when persistence is disabled.
    pub fn save_persistence_sync(&self, config: &UserConfig) -> (r: Option<PersistedSession>)
        requires
            self.wf(),
        ensures
            r is Some <==> config.persistence.enabled,
            r matches Some(s) ==> captures(self.tv(), s),
    {
        if !config.persistence.enabled {
            return None;
        }
        Some(capture_session(self))
    }
}

/// What a window is restored with: its workspace, the state to put it in
/// (none for a window saved minimized) and its floating placement.
pub struct WindowRestore {
    pub workspace: usize,
    pub state: Option<WindowState>,
    pub floating_placement: Option<Rect>,
    pub has_custom_floating_placement: bool,
}

/// The workspace a window is restored to on monitor `m`: the one named
/// `name` there, else, where a workspace config of that name exists, the
/// one activated for it, which takes the next id.
pub open spec fn restore_workspace(v: TreeView, cfgs: Seq<WorkspaceConfig>, m: usize, name: Seq<char>) -> Option<
    usize,
> {
    match workspace_by_name(v, m, name) {
        Some(w) => Some(w),
        None => match config_index(cfgs, name) {
            Some(_) => Some(v.len() as usize),
            None => None,
        },
    }
}

/// `new` is the tree `old` once the workspace to restore to is there:
/// with the workspace activated (added last under `m`) where one is
/// needed, else `old` itself.
pub open spec fn workspace_ready(
    old: TreeView,
    new: TreeView,
    cfgs: Seq<WorkspaceConfig>,
    m: usize,
    name: Seq<char>,
) -> bool {
    if workspace_by_name(old, m, name) is None && config_index(cfgs, name) is Some {
        let k = config_index(cfgs, name).unwrap();
        &&& new.len() == old.len() + 1
        &&& added_child(old, new, m)
        &&& is_new_workspace(new.data[old.len() as int], cfgs[k], direction_for(old.data[m as int]))
    } else {
        new == old
    }
}

/// `new` is `old` after looking up the workspace to restore to; see
/// [`workspace_ready`].
pub open spec fn restore_workspace_effect(
    old: &WmState,
    new: &WmState,
    cfgs: Seq<WorkspaceConfig>,
    m: usize,
    name: Seq<char>,
) -> bool {
    &&& new.persistence == old.persistence
    &&& new.pending_sync == old.pending_sync
    &&& workspace_ready(old.tv(), new.tv(), cfgs, m, name)
}

/// A workspace added last under `m` with a name no earlier child has is
/// the one found by that name.
proof fn lemma_found_after_activation(old: TreeView, new: TreeView, m: usize, name: Seq<char>)
    requires
        old.wf(),
        m < old.len(),
        added_child(old, new, m),
        workspace_by_name(old, m, name) is None,
        new.data[old.len() as int].kind == ContainerKind::Workspace,
        new.data[old.len() as int].workspace_name@ == name,
    ensures
        workspace_by_name(new, m, name) == Some(old.len() as usize),
{
    let c0 = old.children_of(m);
    let n = old.len() as usize;
    assert(new.children_of(m) =~= c0.insert(c0.len() as int, n));
    assert(new.children_of(m) =~= c0.push(n));
    lemma_first_named(old, c0, name);
    assert(node_wf(old.links, m as int));
    assert forall|j: int| 0 <= j < c0.len() implies !(new.kind_of(#[trigger] new.children_of(m)[j])
        == ContainerKind::Workspace && new.data[new.children_of(m)[j] as int].workspace_name@ == name) by {
        assert(new.children_of(m)[j] == c0[j]);
        assert(c0[j] < old.len());
        assert(new.data[c0[j] as int] == new.data.take(old.data.len() as int)[c0[j] as int]);
    }
    lemma_first_named_at(new, new.children_of(m), name, c0.len() as int);
}

impl WmState {
    /// The workspace on monitor `m` to restore a window saved in workspace
    /// `workspace_name` to; see [`restore_workspace`]. Activates the
    /// workspace where it is configured but not active on the monitor.
    pub fn workspace_for_restore(&mut self, m: usize, workspace_name: &str, config: &UserConfig) -> (r:
        Option<usize>)
        requires
            old(self).wf(),
            m < old(self).len(),
            old(self).kind_of(m) == ContainerKind::Monitor,
            old(self).len() < usize::MAX,
        ensures
            final(self).wf(),
            r == restore_workspace(old(self).tv(), config.workspaces@, m, workspace_name@),
            restore_workspace_effect(old(self), final(self), config.workspaces@, m, workspace_name@),
            r matches Some(w) ==> workspace_by_name(final(self).tv(), m, workspace_name@) == Some(w),
    {
        if let Some(w) = self.workspace_by_name_in_monitor(m, workspace_name) {
            return Some(w);
        }
        if config.workspace_config_by_name(workspace_name).is_none() {
            return None;
        }
        let ghost v0 = self.tv();
        proof {
            lemma_config_index(config.workspaces@, workspace_name@);
        }
        assert(activation_choice(v0, config.workspaces@, Some(workspace_name@), m) is Ok);
        match activate_workspace(Some(workspace_name), m, self, config) {
            Ok(w) => {
                proof {
                    lemma_found_after_activation(v0, self.tv(), m, workspace_name@);
                }
                Some(w)
            },
            Err(_) => None,
        }
    }
}

/// The saved entry and the monitor a window with the properties `native`
/// is restored from: among `windows`, the entry that is its best match
/// (see [`best_match`]), where the monitor that entry names is among the
/// monitors of `v`.
pub open spec fn entry_source(
    v: TreeView,
    windows: Seq<PersistedWindow>,
    used: Set<usize>,
    native: NativeWindowProperties,
) -> Option<(int, usize)> {
    let props = monitor_props(v, monitors(v));
    if exists|i: int, k: int|
        best_match(native, windows, used, i) && identifies(props, windows[i].assignment.monitor, k) {
        let (i, k) = choose|i: int, k: int|
            best_match(native, windows, used, i) && identifies(
                props,
                windows[i].assignment.monitor,
                k,
            );
        Some((i, monitors(v)[k]))
    } else {
        None
    }
}

/// [`entry_source`] in the loaded session, with the entries used so far.
pub open spec fn restore_source(v: TreeView, p: PersistenceState, native: NativeWindowProperties) -> Option<
    (int, usize),
> {
    match p.session {
        None => None,
        Some(s) => entry_source(v, s.windows@, p.used_entries@, native),
    }
}

impl WmState {
    /// The entry of `windows` and the monitor to restore a window with the
    /// properties `native` from; see [`entry_source`].
    pub fn find_source(
        &self,
        native: &NativeWindowProperties,
        windows: &Vec<PersistedWindow>,
        used: &HashSet<usize>,
    ) -> (r: Option<(usize, usize)>)
        requires
            self.wf(),
        ensures
            match r {
                Some((i, m)) => entry_source(self.tv(), windows@, used@, *native) == Some((i as int, m))
                    && i < windows@.len() && m < self.len() && self.kind_of(m) == ContainerKind::Monitor,
                None => entry_source(self.tv(), windows@, used@, *native) is None,
            },
    {
        let ghost v0 = self.tv();
        let ghost props = monitor_props(v0, monitors(v0));
        let ghost ws = windows@;
        let i = match best_match_index(native, windows, used) {
            None => {
                return None;
            },
            Some(i) => i,
        };
        let ms = self.monitors();
        match monitor_by_identity(self, &ms, &windows[i].assignment.monitor) {
            None => {
                proof {
                    assert forall|a: int, b: int|
                        !(best_match(*native, ws, used@, a) && identifies(
                            props,
                            ws[a].assignment.monitor,
                            b,
                        )) by {
                        if best_match(*native, ws, used@, a) {
                            lemma_best_match_unique(*native, ws, used@, a, i as int);
                        }
                    }
                }
                None
            },
            Some(m) => {
                proof {
                    let k = choose|k: int| identifies(props, ws[i as int].assignment.monitor, k) && ms@[k] == m;
                    assert(best_match(*native, ws, used@, i as int) && identifies(
                        props,
                        ws[i as int].assignment.monitor,
                        k,
                    ));
                    let (a, b) = choose|a: int, b: int|
                        best_match(*native, ws, used@, a) && identifies(props, ws[a].assignment.monitor, b);
                    lemma_best_match_unique(*native, ws, used@, a, i as int);
                    lemma_identifies_unique(props, ws[i as int].assignment.monitor, b, k);
                }
                Some((i, m))
            },
        }
    }
}

/// `new` is `old` after restoring a window from entry `i` to monitor `m`:
/// the tree as [`restore_workspace_effect`] says and, where a workspace was
/// found, entry `i` marked as used.
pub open spec fn restored_from(
    old: &WmState,
    new: &WmState,
    cfgs: Seq<WorkspaceConfig>,
    i: int,
    m: usize,
    r: Option<WindowRestore>,
) -> bool {
    let e = old.persistence.session.unwrap().windows@[i];
    let name = e.assignment.workspace_name@;
    &&& new.persistence.session == old.persistence.session
    &&& {
        let mid = WmState { persistence: old.persistence, ..*new };
        restore_workspace_effect(old, &mid, cfgs, m, name)
    }
    &&& match restore_workspace(old.tv(), cfgs, m, name) {
        None => r is None && new.persistence.used_entries == old.persistence.used_entries,
        Some(w) => {
            &&& r matches Some(x) && x.workspace == w && x.state == restorable_state(e.window_state)
                && x.floating_placement == Some(e.floating_placement)
                && x.has_custom_floating_placement == e.has_custom_floating_placement
            &&& new.persistence.used_entries@ == old.persistence.used_entries@.insert(i as usize)
        },
    }
}

impl WmState {
    /// Where a window that appears should go, from the saved session: the
    /// entry that fits it best and is not used yet, on the monitor and in
    /// the workspace that entry names (activated if it is configured but
    /// not active). `None` when restoring at startup is off, or no entry,
    /// monitor or workspace is found; the tree is then unchanged.
    pub fn persistence_restore_for_window(&mut self, native: &NativeWindowProperties, config: &UserConfig) -> (r:
        Option<WindowRestore>)
        requires
            old(self).wf(),
            old(self).len() < usize::MAX,
        ensures
            final(self).wf(),
            !(config.persistence.enabled && config.persistence.restore_on_startup) || restore_source(
                old(self).tv(),
                old(self).persistence,
                *native,
            ) is None ==> r is None && unchanged(final(self), old(self)) && final(self).persistence
                == old(self).persistence,
            config.persistence.enabled && config.persistence.restore_on_startup ==> (restore_source(
                old(self).tv(),
                old(self).persistence,
                *native,
            ) matches Some((i, m)) ==> restored_from(
                old(self),
                final(self),
                config.workspaces@,
                i,
                m,
                r,
            )),
            // A restored window goes to the workspace of the saved name on
            // the saved monitor.
            r matches Some(x) ==> (restore_source(old(self).tv(), old(self).persistence, *native) matches Some(
                (i, m),
            ) && workspace_by_name(
                final(self).tv(),
                m,
                old(self).persistence.session.unwrap().windows@[i].assignment.workspace_name@,
            ) == Some(x.workspace)),
    {
        if !config.persistence.enabled || !config.persistence.restore_on_startup {
            return None;
        }
        let ghost old_self = *self;
        let (i, m) = match &self.persistence.session {
            None => {
                return None;
            },
            Some(s) => match self.find_source(native, &s.windows, &self.persistence.used_entries) {
                None => {
                    return None;
                },
                Some(x) => x,
            },
        };
        let (name, saved_state, placement, custom) = match &self.persistence.session {
            None => {
                return None;
            },
            Some(s) => {
                let e = &s.windows[i];
                (
                    clone_string(&e.assignment.workspace_name),
                    e.window_state,
                    e.floating_placement,
                    e.has_custom_floating_placement,
                )
            },
        };
        match self.workspace_for_restore(m, name.as_str(), config) {
            None => None,
            Some(w) => {
                let ghost mid = *self;
                self.persistence.used_entries.insert(i);
                let ghost fin = *self;
                assert(WmState { persistence: old_self.persistence, ..fin } == mid);
                Some(
                    WindowRestore {
                        workspace: w,
                        state: safe_window_state(&saved_state),
                        floating_placement: Some(placement),
                        has_custom_floating_placement: custom,
                    },
                )
            },
        }
    }
}

/// What restoring windows on a monitor reconnect works on: the tree, the
/// platform queues and the saved entries used so far.
pub struct ReconnectView {
    pub tv: TreeView,
    pub redraw: Seq<usize>,
    pub reorder: Seq<usize>,
    pub focus_change: bool,
    pub cursor_jump: bool,
    pub used: Set<usize>,
}

pub open spec fn reconnect_view(s: &WmState, used: Set<usize>) -> ReconnectView {
    ReconnectView {
        tv: s.tv(),
        redraw: s.pending_sync.containers_to_redraw@,
        reorder: s.pending_sync.workspaces_to_reorder@,
        focus_change: s.pending_sync.focus_change,
        cursor_jump: s.pending_sync.cursor_jump,
        used,
    }
}

/// Window `w` of tree `v` put into workspace `t` from entry `e`: its saved
/// state applied (unless it was saved minimized), moved last into `t`
/// unless `t` already holds it, and its floating placement restored.
pub open spec fn placed(v: TreeView, w: usize, t: usize, e: PersistedWindow) -> TreeView {
    let v1 = match restorable_state(e.window_state) {
        Some(st) => v.with_data(v.data.update(w as int, with_window_state(v.data[w as int], st))),
        None => v,
    };
    let v2 = if ancestor_of_kind(v1, w, ContainerKind::Workspace) == Some(t) {
        v1
    } else {
        move_spec(v1, w, t, v1.children_of(t).len() as int)
    };
    v2.with_data(
        v2.data.update(
            w as int,
            with_floating_placement(v2.data[w as int], e.floating_placement, e.has_custom_floating_placement),
        ),
    )
}

/// `b` follows from `a` by restoring window `w` from `session` on a
/// monitor reconnect. A window being shown or hidden is left alone, as is
/// one without a source (see [`entry_source`]) or without a workspace to
/// go to (see [`restore_workspace`]). Otherwise the workspace is made
/// ready, the window placed in it (see [`placed`]), the entry marked used,
/// and the window and the workspace queued for the platform.
pub open spec fn reconnect_step(
    a: ReconnectView,
    b: ReconnectView,
    w: usize,
    session: PersistedSession,
    cfgs: Seq<WorkspaceConfig>,
) -> bool {
    let d = a.tv.data[w as int].window;
    if d.display_state == DisplayState::Hiding || d.display_state == DisplayState::Showing {
        b == a
    } else {
        match entry_source(a.tv, session.windows@, a.used, d.native) {
            None => b == a,
            Some((i, m)) => {
                let e = session.windows@[i];
                let name = e.assignment.workspace_name@;
                match restore_workspace(a.tv, cfgs, m, name) {
                    None => b == a,
                    Some(t) => exists|mid: TreeView|
                        #[trigger] workspace_ready(a.tv, mid, cfgs, m, name) && b == ReconnectView {
                            tv: placed(mid, w, t, e),
                            redraw: queued(a.redraw, w),
                            reorder: queued(a.reorder, t),
                            used: a.used.insert(i as usize),
                            ..a
                        },
                }
            },
        }
    }
}

/// Every container of `a` keeps its kind in `b`.
pub open spec fn keeps_kinds(a: TreeView, b: TreeView) -> bool {
    &&& a.data.len() <= b.data.len()
    &&& forall|j: int| 0 <= j < a.data.len() ==> #[trigger] b.data[j].kind == a.data[j].kind
}

proof fn lemma_keeps_kinds_trans(a: TreeView, b: TreeView, c: TreeView)
    requires
        keeps_kinds(a, b),
        keeps_kinds(b, c),
    ensures
        keeps_kinds(a, c),
{
    assert forall|j: int| 0 <= j < a.data.len() implies #[trigger] c.data[j].kind == a.data[j].kind by {
        assert(b.data[j].kind == a.data[j].kind);
    }
}

proof fn lemma_ready_keeps_kinds(a: TreeView, mid: TreeView, cfgs: Seq<WorkspaceConfig>, m: usize, name: Seq<char>)
    requires
        workspace_ready(a, mid, cfgs, m, name),
    ensures
        keeps_kinds(a, mid),
{
    if mid != a {
        assert forall|j: int| 0 <= j < a.data.len() implies #[trigger] mid.data[j].kind == a.data[j].kind by {
            assert(mid.data.take(a.data.len() as int)[j] == mid.data[j]);
        }
    }
}

impl WmState {
    /// Puts window `w` into workspace `t` as entry `e` saved it; see
    /// [`placed`].
    fn place_window(&mut self, w: usize, t: usize, e: &PersistedWindow)
        requires
            old(self).wf(),
            w < old(self).len(),
            t < old(self).len(),
            old(self).kind_of(w) == ContainerKind::Window,
            old(self).kind_of(t) == ContainerKind::Workspace,
        ensures
            final(self).wf(),
            final(self).tv() == placed(old(self).tv(), w, t, *e),
            keeps_kinds(old(self).tv(), final(self).tv()),
            ancestor_of_kind(final(self).tv(), w, ContainerKind::Workspace) == Some(t),
            final(self).len() == old(self).len(),
            final(self).pending_sync == old(self).pending_sync,
            final(self).persistence == old(self).persistence,
    {
        let ghost v0 = self.tv();
        match safe_window_state(&e.window_state) {
            Some(st) => {
                self.set_window_state(w, st);
            },
            None => {},
        }
        let ghost v1 = self.tv();
        assert(keeps_kinds(v0, v1));
        if self.workspace_of(w) != Some(t) {
            let n = self.child_count(t);
            let _ = move_container_within_tree(w, t, n, self);
            assert(keeps_kinds(v1, self.tv())) by {
                assert forall|j: int| 0 <= j < v1.data.len() implies #[trigger] self.tv().data[j].kind
                    == v1.data[j].kind by {
                    assert(self.kind_of(j as usize) == v1.kind_of(j as usize));
                }
            }
        }
        let ghost v2 = self.tv();
        assert(ancestor_of_kind(v2, w, ContainerKind::Workspace) == Some(t)) by {
            if ancestor_of_kind(v1, w, ContainerKind::Workspace) != Some(t) {
                assert(v2.parent_of(w) == Some(t));
                assert(v2.kind_of(w) == ContainerKind::Window);
                assert(v2.kind_of(t) == ContainerKind::Workspace);
                assert(v2.len() > 0);
                assert(crate::query::find_up(v2, t, ContainerKind::Workspace, (v2.len() - 1) as nat) == Some(t));
            }
        }
        self.set_floating_placement(w, e.floating_placement, e.has_custom_floating_placement);
        proof {
            crate::laws_container::lemma_find_up_same(v2, self.tv(), w, ContainerKind::Workspace, v2.len());
            assert(keeps_kinds(v2, self.tv()));
            lemma_keeps_kinds_trans(v0, v1, v2);
            lemma_keeps_kinds_trans(v0, v2, self.tv());
        }
    }

    /// Restores window `w` from `session` on a monitor reconnect; see
    /// [`reconnect_step`]. `used` holds the entries used so far.
    pub fn reconnect_window(
        &mut self,
        w: usize,
        session: &PersistedSession,
        used: &mut HashSet<usize>,
        config: &UserConfig,
    ) -> (r: Result<(), WmError>)
        requires
            old(self).wf(),
            w < old(self).len(),
            old(self).kind_of(w) == ContainerKind::Window,
            old(self).len() < usize::MAX,
        ensures
            final(self).wf(),
            final(self).persistence == old(self).persistence,
            r is Ok,
            old(self).len() <= final(self).len() <= old(self).len() + 1,
            keeps_kinds(old(self).tv(), final(self).tv()),
            // A window that is restored ends up in the workspace it is
            // restored to.
            ({
                let v = old(self).tv();
                let d = v.data[w as int].window;
                d.display_state != DisplayState::Hiding && d.display_state != DisplayState::Showing ==> (
                entry_source(v, session.windows@, old(used)@, d.native) matches Some((i, m)) ==> (
                restore_workspace(
                    v,
                    config.workspaces@,
                    m,
                    session.windows@[i].assignment.workspace_name@,
                ) matches Some(t) ==> ancestor_of_kind(final(self).tv(), w, ContainerKind::Workspace)
                    == Some(t)))
            }),
            reconnect_step(
                reconnect_view(old(self), old(used)@),
                reconnect_view(final(self), final(used)@),
                w,
                *session,
                config.workspaces@,
            ),
    {
        let ghost a = reconnect_view(self, used@);
        let ds = self.data[w].window.display_state;
        match ds {
            DisplayState::Hiding => {
                return Ok(());
            },
            DisplayState::Showing => {
                return Ok(());
            },
            _ => {},
        }
        let (i, m) = match self.find_source(&self.data[w].window.native, &session.windows, used) {
            None => {
                return Ok(());
            },
            Some(x) => x,
        };
        let e = &session.windows[i];
        let t = match self.workspace_for_restore(m, e.assignment.workspace_name.as_str(), config) {
            None => {
                return Ok(());
            },
            Some(t) => t,
        };
        let ghost mid = self.tv();
        proof {
            lemma_ready_keeps_kinds(a.tv, mid, config.workspaces@, m, e.assignment.workspace_name@);
            crate::laws_workspace::lemma_wbn_child(mid, m, e.assignment.workspace_name@);
        }
        used.insert(i);
        self.place_window(w, t, e);
        self.pending_sync.queue_container_to_redraw(w);
        self.pending_sync.queue_workspace_to_reorder(t);
        proof {
            lemma_keeps_kinds_trans(a.tv, mid, self.tv());
        }
        Ok(())
    }
}

/// `views` are the states met while restoring the windows `ws` one after
/// the other: each follows from the one before by [`reconnect_step`] for
/// the next window.
pub open spec fn reconnect_trace(
    views: Seq<ReconnectView>,
    ws: Seq<usize>,
    session: PersistedSession,
    cfgs: Seq<WorkspaceConfig>,
) -> bool {
    &&& views.len() == ws.len() + 1
    &&& forall|k: int|
        0 <= k < ws.len() ==> reconnect_step(views[k], views[k + 1], #[trigger] ws[k], session, cfgs)
}

impl WmState {
    /// After monitors change, puts each window back on the monitor and in
    /// the workspace the loaded session saved it in, in window order, each
    /// saved entry used at most once; see [`reconnect_trace`]. Does nothing
    /// when restoring on reconnect is off or no session is loaded.
    pub fn restore_persisted_windows_on_monitor_reconnect(&mut self, config: &UserConfig) -> (r: Result<
        (),
        WmError,
    >)
        requires
            old(self).wf(),
            old(self).len() + windows(old(self).tv()).len() < usize::MAX,
        ensures
            final(self).wf(),
            final(self).persistence == old(self).persistence,
            r is Ok,
            !(config.persistence.enabled && config.persistence.restore_on_monitor_reconnect)
                || old(self).persistence.session is None ==> unchanged(final(self), old(self)),
            config.persistence.enabled && config.persistence.restore_on_monitor_reconnect ==> (old(
                self,
            ).persistence.session matches Some(s) ==> exists|views: Seq<ReconnectView>|
                #[trigger] reconnect_trace(views, windows(old(self).tv()), s, config.workspaces@)
                    && views[0] == reconnect_view(old(self), Set::empty()) && views.last()
                    == reconnect_view(final(self), views.last().used)),
    {
        if !config.persistence.enabled || !config.persistence.restore_on_monitor_reconnect {
            return Ok(());
        }
        let ghost start = reconnect_view(self, Set::empty());
        let ghost n0 = self.len();
        let ghost v0 = self.tv();
        let mut p = PersistenceState::new();
        core::mem::swap(&mut p, &mut self.persistence);
        let ghost p0 = p;
        let ghost mut views: Seq<ReconnectView> = seq![start];
        match &p.session {
            None => {},
            Some(session) => {
                let ws = self.windows();
                let mut used: HashSet<usize> = HashSet::new();
                let mut i: usize = 0;
                assert(ws@.take(0) =~= Seq::<usize>::empty());
                while i < ws.len()
                    invariant
                        self.wf(),
                        p == p0,
                        p.session == Some(*session),
                        ws@ == windows(v0),
                        forall|k: int|
                            0 <= k < ws@.len() ==> #[trigger] ws@[k] < n0 && v0.kind_of(ws@[k])
                                == ContainerKind::Window,
                        i <= ws@.len(),
                        n0 <= self.len() <= n0 + i,
                        n0 + ws@.len() < usize::MAX,
                        n0 == v0.len(),
                        v0.wf(),
                        keeps_kinds(v0, self.tv()),
                        start.tv == v0,
                        reconnect_trace(views, ws@.take(i as int), *session, config.workspaces@),
                        views[0] == start,
                        views.last() == reconnect_view(self, used@),
                    decreases ws@.len() - i,
                {
                    let w = ws[i];
                    assert(self.data@[w as int].kind == v0.data[w as int].kind);
                    let ghost tv_before = self.tv();
                    let _ = self.reconnect_window(w, session, &mut used, config);
                    proof {
                        lemma_keeps_kinds_trans(v0, tv_before, self.tv());
                    }
                    proof {
                        let v2 = views.push(reconnect_view(self, used@));
                        assert forall|k: int| 0 <= k < i + 1 implies reconnect_step(
                            v2[k],
                            v2[k + 1],
                            #[trigger] ws@.take(i + 1)[k],
                            *session,
                            config.workspaces@,
                        ) by {
                            if k < i {
                                assert(ws@.take(i + 1)[k] == ws@.take(i as int)[k]);
                            }
                        }
                        views = v2;
                    }
                    i = i + 1;
                }
                assert(ws@.take(i as int) =~= ws@);
            },
        }
        let ghost before_restore = self.tv();
        self.persistence = p;
        assert(self.tv() == before_restore);
        Ok(())
    }
}

} // verus!
