//! Moving a workspace to the monitor in a direction.

use vstd::prelude::*;

use crate::config::UserConfig;
use crate::container::{move_container_within_tree, move_spec, unchanged};
use crate::error::WmError;
use crate::focus_workspace::{in_direction, monitor_in_direction, area, closest_in_direction};
use crate::model::{ContainerData, ContainerKind, Direction, Rect, WindowData};
use crate::query::{ancestor_of_kind, descendants, displayed_workspace, monitors, of_kind, workspace_by_name};
use crate::sort_workspaces::sort_children;
use crate::state::{parent_kind_ok, queued, TreeView, WmState};
use crate::workspace::{
    activate_workspace, activation_choice, added_child, deactivate_workspace, destroy_spec,
    direction_for, is_new_workspace,
};

verus! {

/// Half of a length, rounded toward zero.
pub open spec fn half(a: int) -> int {
    if a >= 0 {
        a / 2
    } else {
        -((-a) / 2)
    }
}

/// `a` clamped to the range of `i32`.
pub open spec fn clamp_i32(a: int) -> i32 {
    if a < i32::MIN {
        i32::MIN
    } else if a > i32::MAX {
        i32::MAX
    } else {
        a as i32
    }
}

/// `r` moved so that its center is that of `outer` (coordinates that
/// would leave the range of `i32` are clamped).
pub open spec fn centered(r: Rect, outer: Rect) -> Rect {
    Rect {
        x: clamp_i32(outer.x + half(outer.width as int) - half(r.width as int)),
        y: clamp_i32(outer.y + half(outer.height as int) - half(r.height as int)),
        width: r.width,
        height: r.height,
    }
}

pub fn half_exec(a: i64) -> (r: i64)
    requires
        a > i64::MIN,
    ensures
        r == half(a as int),
{
    if a >= 0 {
        a / 2
    } else {
        -((-a) / 2)
    }
}

fn clamp_exec(a: i64) -> (r: i32)
    ensures
        r == clamp_i32(a as int),
{
    if a < i32::MIN as i64 {
        i32::MIN
    } else if a > i32::MAX as i64 {
        i32::MAX
    } else {
        a as i32
    }
}

/// See [`centered`].
pub fn translate_to_center(r: Rect, outer: Rect) -> (c: Rect)
    ensures
        c == centered(r, outer),
{
    let x = outer.x as i64 + half_exec(outer.width as i64) - half_exec(r.width as i64);
    let y = outer.y as i64 + half_exec(outer.height as i64) - half_exec(r.height as i64);
    Rect { x: clamp_exec(x), y: clamp_exec(y), width: r.width, height: r.height }
}

/// A window's data after its workspace moved to another monitor: it
/// awaits a DPI adjustment and its floating placement is centered in the
/// workspace.
pub open spec fn recentered(d: ContainerData, outer: Rect) -> ContainerData {
    ContainerData {
        window: WindowData {
            has_pending_dpi_adjustment: true,
            floating_placement: centered(d.window.floating_placement, outer),
            ..d.window
        },
        ..d
    }
}

/// The data after recentering each window of `ids` in turn.
pub open spec fn recenter_all(data: Seq<ContainerData>, ids: Seq<usize>, outer: Rect) -> Seq<
    ContainerData,
>
    decreases ids.len(),
{
    if ids.len() == 0 {
        data
    } else {
        let d = recenter_all(data, ids.drop_last(), outer);
        d.update(ids.last() as int, recentered(d[ids.last() as int], outer))
    }
}

/// The windows in workspace `w`.
pub open spec fn windows_in(v: TreeView, w: usize) -> Seq<usize> {
    of_kind(v, descendants(v.links, w), ContainerKind::Window)
}

/// The tree right after `w` has moved to the end of monitor `tm`, with
/// its windows recentered in the working area of `tm`, the area that the
/// workspace now covers.
pub open spec fn moved_workspace(v: TreeView, w: usize, tm: usize) -> TreeView {
    let v1 = move_spec(v, w, tm, v.children_of(tm).len() as int);
    v1.with_data(recenter_all(v1.data, windows_in(v1, w), area(v1, tm)))
}

/// What is left to do once the workspace has moved: keep a workspace on
/// the origin monitor `om`, destroy the first destroyable workspace and
/// sort the workspaces of the target monitor `tm` into config order.
pub open spec fn after_move(
    new: &WmState,
    old: &WmState,
    v2: TreeView,
    w: usize,
    dw: usize,
    om: usize,
    tm: usize,
    cfgs: Seq<crate::config::WorkspaceConfig>,
    r: Result<(), WmError>,
) -> bool {
    let redraw1 = queued(queued(old.pending_sync.containers_to_redraw@, w), dw);
    &&& new.pending_sync.cursor_jump
    &&& new.pending_sync.focus_change == old.pending_sync.focus_change
    &&& new.pending_sync.workspaces_to_reorder == old.pending_sync.workspaces_to_reorder
    &&& if v2.children_of(om).len() == 0 {
        match activation_choice(v2, cfgs, None, om) {
            Err(e) => r == Err::<(), WmError>(e) && new.tv() == v2
                && new.pending_sync.containers_to_redraw@ == redraw1,
            Ok(k) => exists|v3: TreeView|
                {
                    &&& added_child(v2, v3, om)
                    &&& is_new_workspace(v3.data[v2.len() as int], cfgs[k], direction_for(v2.data[om as int]))
                    &&& r is Ok
                    &&& new.tv() == sort_children(destroy_spec(v3), tm, cfgs)
                    &&& new.pending_sync.containers_to_redraw@ == redraw1
                },
        }
    } else {
        match displayed_workspace(v2, om) {
            None => r == Err::<(), WmError>(WmError::NoDisplayedWorkspace) && new.tv() == v2
                && new.pending_sync.containers_to_redraw@ == redraw1,
            Some(x) => r is Ok && new.tv() == sort_children(destroy_spec(v2), tm, cfgs)
                && new.pending_sync.containers_to_redraw@ == queued(redraw1, x),
        }
    }
}

pub proof fn lemma_closest_in_direction(v: TreeView, ms: Seq<usize>, o: Rect, d: Direction)
    ensures
        closest_in_direction(v, ms, o, d) matches Some(m) ==> ms.contains(m) && in_direction(
            area(v, m),
            o,
            d,
        ),
    decreases ms.len(),
{
    if ms.len() > 0 {
        lemma_closest_in_direction(v, ms.drop_last(), o, d);
        if let Some(m) = closest_in_direction(v, ms.drop_last(), o, d) {
            let j = choose|j: int| 0 <= j < ms.drop_last().len() && ms.drop_last()[j] == m;
            assert(ms[j] == m);
        }
        assert(ms[ms.len() - 1] == ms.last());
    }
}

pub proof fn lemma_recenter_kinds(data: Seq<ContainerData>, ids: Seq<usize>, outer: Rect)
    requires
        forall|k: int| 0 <= k < ids.len() ==> #[trigger] ids[k] < data.len(),
    ensures
        recenter_all(data, ids, outer).len() == data.len(),
        forall|i: int|
            0 <= i < data.len() ==> (#[trigger] recenter_all(data, ids, outer)[i]).kind == data[i].kind
                && recenter_all(data, ids, outer)[i].workspace_name == data[i].workspace_name
                && recenter_all(data, ids, outer)[i].keep_alive == data[i].keep_alive
                && recenter_all(data, ids, outer)[i].rect == data[i].rect,
    decreases ids.len(),
{
    if ids.len() > 0 {
        lemma_recenter_kinds(data, ids.drop_last(), outer);
    }
}

impl WmState {
    /// Recenters the windows `ids` in `outer`.
    fn recenter_windows(&mut self, ids: &Vec<usize>, outer: Rect)
        requires
            old(self).wf(),
            forall|k: int| 0 <= k < ids@.len() ==> #[trigger] ids@[k] < old(self).len(),
        ensures
            final(self).wf(),
            final(self).persistence == old(self).persistence,
            final(self).data@ == recenter_all(old(self).data@, ids@, outer),
            final(self).same_links(old(self)),
    {
        let mut i: usize = 0;
        let ghost d0 = self.data@;
        let ghost v0 = self.tv();
        assert(ids@.take(0) =~= Seq::<usize>::empty());
        while i < ids.len()
            invariant
                self.wf(),
                self.same_links(old(self)),
                d0 == old(self).data@,
                forall|k: int| 0 <= k < ids@.len() ==> #[trigger] ids@[k] < self.len(),
                i <= ids@.len(),
                self.data@ == recenter_all(d0, ids@.take(i as int), outer),
            decreases ids@.len() - i,
        {
            let w = ids[i];
            assert(ids@.take(i + 1).drop_last() =~= ids@.take(i as int));
            let ghost before = self.tv();
            let placement = self.data[w].window.floating_placement;
            let c = translate_to_center(placement, outer);
            self.data[w].window.has_pending_dpi_adjustment = true;
            self.data[w].window.floating_placement = c;
            proof {
                crate::state::lemma_same_kinds_wf(before, self.tv());
            }
            assert(self.data@ =~= recenter_all(d0, ids@.take(i + 1), outer));
            i = i + 1;
        }
        assert(ids@.take(i as int) =~= ids@);
    }
}

/// Moves workspace `workspace` to the closest monitor in `direction`,
/// unless that monitor already has a workspace of the same name. Its
/// floating windows are centered in the new monitor's working area, and
/// the new monitor's workspaces end up in config order.
pub fn move_workspace_in_direction(
    workspace: usize,
    direction: Direction,
    state: &mut WmState,
    config: &UserConfig,
) -> (r: Result<(), WmError>)
    requires
        old(state).wf(),
        workspace < old(state).len(),
        old(state).kind_of(workspace) == ContainerKind::Workspace,
        old(state).len() < usize::MAX,
    ensures
        final(state).wf(),
        final(state).persistence == old(state).persistence,
        match ancestor_of_kind(old(state).tv(), workspace, ContainerKind::Monitor) {
            None => r == Err::<(), WmError>(WmError::InvalidContainer) && unchanged(
                final(state),
                old(state),
            ),
            Some(om) => match monitor_in_direction(old(state).tv(), om, direction) {
                None => r is Ok && unchanged(final(state), old(state)),
                Some(tm) => if workspace_by_name(
                    old(state).tv(),
                    tm,
                    old(state).data@[workspace as int].workspace_name@,
                ) is Some {
                    r == Err::<(), WmError>(WmError::WorkspaceNameTaken) && unchanged(
                        final(state),
                        old(state),
                    )
                } else {
                    match displayed_workspace(old(state).tv(), tm) {
                        None => r == Err::<(), WmError>(WmError::NoDisplayedWorkspace) && unchanged(
                            final(state),
                            old(state),
                        ),
                        Some(dw) => after_move(
                            final(state),
                            old(state),
                            moved_workspace(old(state).tv(), workspace, tm),
                            workspace,
                            dw,
                            om,
                            tm,
                            config.workspaces@,
                            r,
                        ),
                    }
                },
            },
        },
{
    let origin_monitor = match state.monitor_of(workspace) {
        Some(m) => m,
        None => {
            return Err(WmError::InvalidContainer);
        },
    };
    let target_monitor = match state.monitor_in_direction(origin_monitor, direction) {
        Some(m) => m,
        None => {
            return Ok(());
        },
    };
    if state.workspace_by_name_in_monitor(target_monitor, state.data[workspace].workspace_name.as_str()).is_some() {
        return Err(WmError::WorkspaceNameTaken);
    }
    let displayed = match state.displayed_workspace(target_monitor) {
        Some(d) => d,
        None => {
            return Err(WmError::NoDisplayedWorkspace);
        },
    };
    proof {
        lemma_closest_in_direction(state.tv(), monitors(state.tv()), area(state.tv(), origin_monitor), direction);
        assert(target_monitor != origin_monitor);
        crate::laws_workspace::lemma_find_up_kind(state.tv(), workspace, ContainerKind::Monitor, state.len());
        assert(workspace != state.root);
    }
    assert(state.kind_of(origin_monitor) == ContainerKind::Monitor);
    let n = state.links[target_monitor].children.len();
    let _ = move_container_within_tree(workspace, target_monitor, n, state);
    let ghost v1 = state.tv();
    assert(v1.data == old(state).data@) by {
        crate::laws_workspace::lemma_find_up_chain(old(state).tv(), workspace, ContainerKind::Monitor, old(state).len());
        assert(old(state).parent_of(workspace) is Some);
        let p = old(state).parent_of(workspace).unwrap();
        assert(old(state).tv().links[workspace as int].parent == Some(p));
        assert(old(state).kind_of(p) == ContainerKind::Monitor);
    }
    let all = state.descendants(workspace);
    let windows = state.filter_kind(&all, ContainerKind::Window);
    let outer = state.data[target_monitor].monitor.working_area;
    state.recenter_windows(&windows, outer);
    let ghost v2 = state.tv();
    state.pending_sync.cursor_jump = true;
    state.pending_sync.queue_container_to_redraw(workspace);
    state.pending_sync.queue_container_to_redraw(displayed);
    let ghost mut activated_k: Option<int> = None;
    let ghost mut v3 = v2;
    if state.links[origin_monitor].children.len() == 0 {
        proof {
            lemma_recenter_kinds(v1.data, windows@, outer);
            assert(state.kind_of(origin_monitor) == v1.data[origin_monitor as int].kind);
        }
        match activate_workspace(None, origin_monitor, state, config) {
            Err(e) => {
                return Err(e);
            },
            Ok(_) => {
                proof {
                    activated_k = Some(activation_choice(v2, config.workspaces@, None, origin_monitor).unwrap());
                    v3 = state.tv();
                }
            },
        }
    } else {
        match state.displayed_workspace(origin_monitor) {
            Some(x) => state.pending_sync.queue_container_to_redraw(x),
            None => {
                return Err(WmError::NoDisplayedWorkspace);
            },
        }
    }
    match state.first_destroyable() {
        Some(d) => deactivate_workspace(d, state),
        None => {},
    }
    let ghost v4 = state.tv();
    proof {
        let ghost v0 = old(state).tv();
        assert(v2 == moved_workspace(v0, workspace, target_monitor));
        if let Some(k) = activated_k {
            assert(added_child(v2, v3, origin_monitor));
            assert(is_new_workspace(
                v3.data[v2.len() as int],
                config.workspaces@[k],
                direction_for(v2.data[origin_monitor as int]),
            ));
            assert(v2.children_of(origin_monitor).len() == 0);
            assert(activation_choice(v2, config.workspaces@, None, origin_monitor) == Ok::<int, WmError>(k));
            assert(v4 == destroy_spec(v3));
        } else {
            assert(v2.children_of(origin_monitor).len() != 0);
            assert(v4 == destroy_spec(v2));
        }
    }
    state.sort_workspaces(target_monitor, config);
    Ok(())
}

} // verus!
