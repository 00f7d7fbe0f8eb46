//! Focusing a workspace chosen by name, by recency, by order or by the
//! direction of its monitor.

use vstd::prelude::*;

use crate::config::{config_index, lemma_config_index, UserConfig};
use crate::container::unchanged;
use crate::error::WmError;
use crate::model::{ContainerKind, Direction, Rect};
use crate::query::{
    ancestor_of_kind, displayed_workspace, focused_container, focused_links, monitors, of_kind,
    workspace_by_name,
};
use crate::seqs::find_index;
use crate::state::{queued, TreeView, WmState};
use crate::tree::pos;
use crate::workspace::{
    activate_workspace, activation_choice, added_child, deactivate_workspace, destroy_spec,
    direction_for, focus_target, is_new_workspace, with_recent,
};

verus! {

/// Which workspace to focus.
pub enum WorkspaceTarget {
    /// The workspace with this name on the focused monitor.
    Name(String),
    /// The workspace the focused monitor displayed before.
    Recent,
    /// The focused monitor's workspace after the focused one, wrapping.
    NextActiveInMonitor,
    /// The focused monitor's workspace before the focused one, wrapping.
    PreviousActiveInMonitor,
    /// The workspace whose config follows the focused one's, wrapping.
    Next,
    /// The workspace whose config precedes the focused one's, wrapping.
    Previous,
    /// The workspace displayed by the closest monitor in a direction.
    Direction(Direction),
}

/// Whether two rectangles overlap horizontally.
pub open spec fn overlap_x(a: Rect, b: Rect) -> bool {
    a.x < b.x + b.width && b.x < a.x + a.width
}

/// Whether two rectangles overlap vertically.
pub open spec fn overlap_y(a: Rect, b: Rect) -> bool {
    a.y < b.y + b.height && b.y < a.y + a.height
}

/// Whether a monitor at `r` lies in direction `d` of one at `o`.
pub open spec fn in_direction(r: Rect, o: Rect, d: Direction) -> bool {
    match d {
        Direction::Right => r.x > o.x && overlap_y(r, o),
        Direction::Left => r.x < o.x && overlap_y(r, o),
        Direction::Down => r.y > o.y && overlap_x(r, o),
        Direction::Up => r.y < o.y && overlap_x(r, o),
    }
}

/// Whether a monitor at `a` is closer in direction `d` than one at `b`.
pub open spec fn closer(a: Rect, b: Rect, d: Direction) -> bool {
    match d {
        Direction::Right => a.x < b.x,
        Direction::Left => a.x > b.x,
        Direction::Down => a.y < b.y,
        Direction::Up => a.y > b.y,
    }
}

pub open spec fn area(v: TreeView, m: usize) -> Rect {
    v.data[m as int].monitor.working_area
}

/// The closest of the monitors `ms` in direction `d` of a monitor at `o`;
/// among equally close ones, the first.
pub open spec fn closest_in_direction(v: TreeView, ms: Seq<usize>, o: Rect, d: Direction) -> Option<
    usize,
>
    decreases ms.len(),
{
    if ms.len() == 0 {
        None
    } else {
        let prev = closest_in_direction(v, ms.drop_last(), o, d);
        let m = ms.last();
        if !in_direction(area(v, m), o, d) {
            prev
        } else {
            match prev {
                None => Some(m),
                Some(b) => if closer(area(v, m), area(v, b), d) {
                    Some(m)
                } else {
                    prev
                },
            }
        }
    }
}

/// The closest monitor in direction `d` of monitor `m`.
pub open spec fn monitor_in_direction(v: TreeView, m: usize, d: Direction) -> Option<usize> {
    closest_in_direction(v, monitors(v), area(v, m), d)
}

pub open spec fn wrap_next(len: int, i: int) -> int {
    if i + 1 < len {
        i + 1
    } else {
        0
    }
}

pub open spec fn wrap_prev(len: int, i: int) -> int {
    if i == 0 {
        len - 1
    } else {
        i - 1
    }
}

/// A workspace, if any, and the name to activate when there is none.
pub type Choice = (Option<Seq<char>>, Option<usize>);

/// Name and workspace chosen by the target, from the focused workspace
/// `fw` on monitor `fm`.
pub open spec fn target_choice(
    v: TreeView,
    cfgs: Seq<crate::config::WorkspaceConfig>,
    fw: usize,
    fm: usize,
    target: WorkspaceTarget,
) -> Result<Choice, WmError> {
    match target {
        WorkspaceTarget::Name(n) => Ok((Some(n@), workspace_by_name(v, fm, n@))),
        WorkspaceTarget::Recent => match v.data[fm as int].recent_workspace_name {
            Some(n) => Ok((Some(n@), workspace_by_name(v, fm, n@))),
            None => Ok((None, None)),
        },
        WorkspaceTarget::NextActiveInMonitor | WorkspaceTarget::PreviousActiveInMonitor => {
            let ws = of_kind(v, v.children_of(fm), ContainerKind::Workspace);
            if !ws.contains(fw) {
                Err(WmError::InvalidContainer)
            } else {
                let i = pos(ws, fw);
                let j = if target is NextActiveInMonitor {
                    wrap_next(ws.len() as int, i)
                } else {
                    wrap_prev(ws.len() as int, i)
                };
                Ok((Some(v.data[ws[j] as int].workspace_name@), Some(ws[j])))
            }
        },
        WorkspaceTarget::Next | WorkspaceTarget::Previous => match config_index(
            cfgs,
            v.data[fw as int].workspace_name@,
        ) {
            None => Err(WmError::WorkspaceConfigNotFound),
            Some(i) => {
                let j = if target is Next {
                    wrap_next(cfgs.len() as int, i)
                } else {
                    wrap_prev(cfgs.len() as int, i)
                };
                Ok((Some(cfgs[j].name@), workspace_by_name(v, fm, cfgs[j].name@)))
            },
        },
        WorkspaceTarget::Direction(d) => match monitor_in_direction(v, fm, d) {
            None => Ok((None, None)),
            Some(m2) => match displayed_workspace(v, m2) {
                None => Ok((None, None)),
                Some(w) => Ok((Some(v.data[w as int].workspace_name@), Some(w))),
            },
        },
    }
}

impl WmState {
    /// The closest monitor in direction `d` of monitor `m`.
    pub fn monitor_in_direction(&self, m: usize, d: Direction) -> (r: Option<usize>)
        requires
            self.wf(),
            m < self.len(),
        ensures
            r == monitor_in_direction(self.tv(), m, d),
            r matches Some(x) ==> x < self.len() && self.kind_of(x) == ContainerKind::Monitor,
    {
        let ms = self.monitors();
        let o = self.data[m].monitor.working_area;
        let mut best: Option<usize> = None;
        let mut i: usize = 0;
        assert(ms@.take(0) =~= Seq::<usize>::empty());
        while i < ms.len()
            invariant
                self.wf(),
                ms@ == monitors(self.tv()),
                forall|k: int| 0 <= k < ms@.len() ==> #[trigger] ms@[k] < self.len() && self.kind_of(
                    ms@[k],
                ) == ContainerKind::Monitor,
                o == area(self.tv(), m),
                i <= ms@.len(),
                best == closest_in_direction(self.tv(), ms@.take(i as int), o, d),
                best matches Some(b) ==> b < self.len() && self.kind_of(b) == ContainerKind::Monitor,
            decreases ms@.len() - i,
        {
            let c = ms[i];
            assert(ms@.take(i + 1).drop_last() =~= ms@.take(i as int));
            let r = self.data[c].monitor.working_area;
            let (rx, ry, rw, rh) = (r.x as i64, r.y as i64, r.width as i64, r.height as i64);
            let (ox, oy, ow, oh) = (o.x as i64, o.y as i64, o.width as i64, o.height as i64);
            let ovx = rx < ox + ow && ox < rx + rw;
            let ovy = ry < oy + oh && oy < ry + rh;
            let candidate = match d {
                Direction::Right => rx > ox && ovy,
                Direction::Left => rx < ox && ovy,
                Direction::Down => ry > oy && ovx,
                Direction::Up => ry < oy && ovx,
            };
            assert(candidate == in_direction(r, o, d));
            if candidate {
                match best {
                    None => {
                        best = Some(c);
                    },
                    Some(b) => {
                        let br = self.data[b].monitor.working_area;
                        let nearer = match d {
                            Direction::Right => r.x < br.x,
                            Direction::Left => r.x > br.x,
                            Direction::Down => r.y < br.y,
                            Direction::Up => r.y > br.y,
                        };
                        if nearer {
                            best = Some(c);
                        }
                    },
                }
            }
            i = i + 1;
        }
        assert(ms@.take(i as int) =~= ms@);
        best
    }

    /// The name and workspace `target` picks, from the focused workspace
    /// `fw` on monitor `fm`.
    pub fn workspace_by_target(
        &self,
        fw: usize,
        fm: usize,
        target: &WorkspaceTarget,
        config: &UserConfig,
    ) -> (r: Result<(Option<String>, Option<usize>), WmError>)
        requires
            self.wf(),
            fw < self.len(),
            fm < self.len(),
        ensures
            match target_choice(self.tv(), config.workspaces@, fw, fm, *target) {
                Err(e) => r == Err::<(Option<String>, Option<usize>), WmError>(e),
                Ok((n, w)) => r matches Ok((rn, rw)) && rw == w && match rn {
                    Some(s) => n == Some(s@),
                    None => n is None,
                },
            },
            r matches Ok((_, Some(w))) ==> w < self.len(),
    {
        match target {
            WorkspaceTarget::Name(n) => {
                let w = self.workspace_by_name_in_monitor(fm, n.as_str());
                Ok((Some(n.clone()), w))
            },
            WorkspaceTarget::Recent => match &self.data[fm].recent_workspace_name {
                Some(n) => {
                    let w = self.workspace_by_name_in_monitor(fm, n.as_str());
                    Ok((Some(n.clone()), w))
                },
                None => Ok((None, None)),
            },
            WorkspaceTarget::NextActiveInMonitor | WorkspaceTarget::PreviousActiveInMonitor => {
                let ws = self.children_of_kind(fm, ContainerKind::Workspace);
                proof {
                    crate::tree::lemma_pos(ws@, fw);
                }
                match find_index(&ws, fw) {
                    None => Err(WmError::InvalidContainer),
                    Some(i) => {
                        let n = ws.len();
                        let j = match target {
                            WorkspaceTarget::NextActiveInMonitor => if i + 1 < n {
                                i + 1
                            } else {
                                0
                            },
                            _ => if i == 0 {
                                n - 1
                            } else {
                                i - 1
                            },
                        };
                        let w = ws[j];
                        Ok((Some(self.data[w].workspace_name.clone()), Some(w)))
                    },
                }
            },
            WorkspaceTarget::Next | WorkspaceTarget::Previous => {
                match config.workspace_config_by_name(self.data[fw].workspace_name.as_str()) {
                    None => Err(WmError::WorkspaceConfigNotFound),
                    Some(i) => {
                        let n = config.workspaces.len();
                        let j = match target {
                            WorkspaceTarget::Next => if i + 1 < n {
                                i + 1
                            } else {
                                0
                            },
                            _ => if i == 0 {
                                n - 1
                            } else {
                                i - 1
                            },
                        };
                        let name = config.workspaces[j].name.clone();
                        let w = self.workspace_by_name_in_monitor(fm, name.as_str());
                        Ok((Some(name), w))
                    },
                }
            },
            WorkspaceTarget::Direction(d) => match self.monitor_in_direction(fm, *d) {
                None => Ok((None, None)),
                Some(m2) => match self.displayed_workspace(m2) {
                    None => Ok((None, None)),
                    Some(w) => Ok((Some(self.data[w].workspace_name.clone()), Some(w))),
                },
            },
        }
    }
}

/// The tree after entering workspace `tw`: focus moves into it, the first
/// destroyable workspace is destroyed, and the focused monitor `fm`
/// remembers the focused workspace `fw` as its recent one.
pub open spec fn enter_spec(v1: TreeView, fw: usize, fm: usize, tw: usize) -> TreeView {
    let v3 = destroy_spec(v1.with_links(focused_links(v1.links, focus_target(v1, tw))));
    v3.with_data(
        v3.data.update(fm as int, with_recent(v3.data[fm as int], v3.data[fw as int].workspace_name)),
    )
}

/// `new` is `v1` entered at `tw`, with the platform queues updated.
pub open spec fn entered(
    new: &WmState,
    old: &WmState,
    v1: TreeView,
    fw: usize,
    fm: usize,
    tw: usize,
    displayed: usize,
) -> bool {
    &&& new.tv() == enter_spec(v1, fw, fm, tw)
    &&& new.pending_sync.containers_to_redraw@ == queued(
        queued(old.pending_sync.containers_to_redraw@, displayed),
        tw,
    )
    &&& new.pending_sync.workspaces_to_reorder == old.pending_sync.workspaces_to_reorder
    &&& new.pending_sync.focus_change
    &&& new.pending_sync.cursor_jump
}

/// The workspace `tw`'s monitor displays.
pub open spec fn displayed_beside(v: TreeView, tw: usize) -> Option<usize> {
    match ancestor_of_kind(v, tw, ContainerKind::Monitor) {
        Some(m) => displayed_workspace(v, m),
        None => None,
    }
}

/// What entering `tw` in `v1` gives: an error when its monitor displays
/// nothing, otherwise the entered tree.
pub open spec fn enter_outcome(
    new: &WmState,
    old: &WmState,
    v1: TreeView,
    fw: usize,
    fm: usize,
    tw: usize,
    r: Result<(), WmError>,
) -> bool {
    match displayed_beside(v1, tw) {
        None => r == Err::<(), WmError>(WmError::NoDisplayedWorkspace) && new.tv() == v1
            && new.pending_sync == old.pending_sync,
        Some(d) => r is Ok && entered(new, old, v1, fw, fm, tw, d),
    }
}

/// Focuses the workspace `target` picks, activating it on the focused
/// monitor if it is not active yet.
pub fn focus_workspace(target: WorkspaceTarget, state: &mut WmState, config: &UserConfig) -> (r:
    Result<(), WmError>)
    requires
        old(state).wf(),
        old(state).len() < usize::MAX,
    ensures
        final(state).wf(),
        final(state).persistence == old(state).persistence,
        match focused_container(old(state).tv()) {
            None => r == Err::<(), WmError>(WmError::NoFocusedWorkspace) && unchanged(
                final(state),
                old(state),
            ),
            Some(f) => match ancestor_of_kind(old(state).tv(), f, ContainerKind::Workspace) {
                None => r == Err::<(), WmError>(WmError::NoFocusedWorkspace) && unchanged(
                    final(state),
                    old(state),
                ),
                Some(fw) => match ancestor_of_kind(old(state).tv(), fw, ContainerKind::Monitor) {
                    None => r == Err::<(), WmError>(WmError::NoFocusedMonitor) && unchanged(
                        final(state),
                        old(state),
                    ),
                    Some(fm) => match target_choice(
                        old(state).tv(),
                        config.workspaces@,
                        fw,
                        fm,
                        target,
                    ) {
                        Err(e) => r == Err::<(), WmError>(e) && unchanged(final(state), old(state)),
                        Ok((n, w)) => match w {
                            Some(tw) => enter_outcome(
                                final(state),
                                old(state),
                                old(state).tv(),
                                fw,
                                fm,
                                tw,
                                r,
                            ),
                            None => match n {
                                None => r is Ok && unchanged(final(state), old(state)),
                                Some(name) => match activation_choice(
                                    old(state).tv(),
                                    config.workspaces@,
                                    Some(name),
                                    fm,
                                ) {
                                    Err(e) => r == Err::<(), WmError>(e) && unchanged(
                                        final(state),
                                        old(state),
                                    ),
                                    Ok(k) => exists|v1: TreeView|
                                        {
                                            &&& added_child(old(state).tv(), v1, fm)
                                            &&& is_new_workspace(
                                                v1.data[old(state).len() as int],
                                                config.workspaces@[k],
                                                direction_for(old(state).data@[fm as int]),
                                            )
                                            &&& enter_outcome(
                                                final(state),
                                                old(state),
                                                v1,
                                                fw,
                                                fm,
                                                old(state).len() as usize,
                                                r,
                                            )
                                        },
                                },
                            },
                        },
                    },
                },
            },
        },
{
    let focused = match state.focused_container() {
        Some(f) => f,
        None => {
            return Err(WmError::NoFocusedWorkspace);
        },
    };
    let focused_workspace = match state.workspace_of(focused) {
        Some(w) => w,
        None => {
            return Err(WmError::NoFocusedWorkspace);
        },
    };
    let focused_monitor = match state.monitor_of(focused_workspace) {
        Some(m) => m,
        None => {
            return Err(WmError::NoFocusedMonitor);
        },
    };
    let ghost v0 = state.tv();
    let ghost mut activated_k: Option<int> = None;
    let (name, workspace) = match state.workspace_by_target(
        focused_workspace,
        focused_monitor,
        &target,
        config,
    ) {
        Ok(x) => x,
        Err(e) => {
            return Err(e);
        },
    };
    let tw = match workspace {
        Some(w) => w,
        None => match name {
            None => {
                return Ok(());
            },
            Some(n) => {
                match activate_workspace(Some(n.as_str()), focused_monitor, state, config) {
                    Err(e) => {
                        return Err(e);
                    },
                    Ok(id) => {
                        let ghost k = activation_choice(
                            v0,
                            config.workspaces@,
                            Some(n@),
                            focused_monitor,
                        ).unwrap();
                        proof {
                            activated_k = Some(k);
                            lemma_config_index(config.workspaces@, n@);
                            let ch0 = v0.children_of(focused_monitor);
                            let ch = state.children_of(focused_monitor);
                            assert(ch =~= ch0.push(id));
                            crate::query::lemma_first_named(v0, ch0, n@);
                            assert(state.data@[id as int].workspace_name@ == n@);
                            assert forall|j: int|
                                0 <= j < ch0.len() implies !(state.tv().kind_of(#[trigger] ch[j])
                                == ContainerKind::Workspace && state.data@[ch[j] as int].workspace_name@
                                == n@) by {
                                assert(ch[j] == ch0[j]);
                                crate::laws_workspace::lemma_children_in_range(
                                    v0,
                                    focused_monitor,
                                    j,
                                );
                                assert(state.data@[ch0[j] as int] == state.data@.take(
                                    v0.data.len() as int,
                                )[ch0[j] as int]);
                            }
                            crate::laws_workspace::lemma_first_named_at(
                                state.tv(),
                                ch,
                                n@,
                                ch0.len() as int,
                            );
                        }
                        let w = state.workspace_by_name_in_monitor(focused_monitor, n.as_str());
                        assert(w == Some(id));
                        match w {
                            Some(w) => w,
                            None => {
                                return Ok(());
                            },
                        }
                    },
                }
            },
        },
    };
    let ghost v1 = state.tv();
    let ghost redraw0 = state.pending_sync.containers_to_redraw@;
    let displayed = match state.monitor_of(tw) {
        Some(m) => state.displayed_workspace(m),
        None => None,
    };
    let displayed = match displayed {
        Some(d) => d,
        None => {
            proof {
                if let Some(k) = activated_k {
                    assert(added_child(v0, v1, focused_monitor));
                    assert(is_new_workspace(
                        v1.data[v0.len() as int],
                        config.workspaces@[k],
                        direction_for(v0.data[focused_monitor as int]),
                    ));
                }
            }
            return Err(WmError::NoDisplayedWorkspace);
        },
    };
    let to_focus = state.focus_target(tw);
    state.set_focused_descendant(to_focus);
    state.pending_sync.focus_change = true;
    state.pending_sync.queue_container_to_redraw(displayed);
    state.pending_sync.queue_container_to_redraw(tw);
    match state.first_destroyable() {
        Some(d) => deactivate_workspace(d, state),
        None => {},
    }
    let recent = state.data[focused_workspace].workspace_name.clone();
    state.set_recent_workspace_name(focused_monitor, recent);
    state.pending_sync.cursor_jump = true;
    proof {
        if let Some(k) = activated_k {
            assert(added_child(v0, v1, focused_monitor));
            assert(is_new_workspace(
                v1.data[v0.len() as int],
                config.workspaces@[k],
                direction_for(v0.data[focused_monitor as int]),
            ));
        }
    }
    Ok(())
}

} // verus!
