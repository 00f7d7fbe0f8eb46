//! Handling window events: the end of a drag or resize, a destroyed
//! window, and a new monitor.

use vstd::prelude::*;

use crate::config::UserConfig;
use crate::container::{
    attach_container, collapse_spec, collapse_stack_container, move_container_within_tree, move_spec,
    unchanged,
};
use crate::model::NativeMonitorProperties;
use crate::query::windows;
use crate::tree::{attach_spec, detach_spec, LinksView};
use crate::workspace::{deactivate_workspace, destroy_spec};
use crate::drop::{contains_point, drop_into_tiling_tree, drops_into};
use crate::resize::resize_along;
use crate::error::WmError;
use crate::model::{
    ActiveDrag, ContainerData, ContainerKind, FullscreenStateConfig, Point, Rect, TilingDirection, WindowData,
    WindowState,
};
use crate::query::{ancestor_of_kind, displayed_workspace, monitors};
use crate::state::{is_tiling, queued, with_floating_placement, with_window_state, TreeView, WmState};
use crate::tree::without;
use crate::workspace::{first_index, lemma_first_index};

verus! {

/// `v` with container `c` holding the data `d`.
pub open spec fn set_data(v: TreeView, c: usize, d: ContainerData) -> TreeView {
    v.with_data(v.data.update(c as int, d))
}

pub open spec fn with_drag(d: ContainerData, drag: Option<ActiveDrag>) -> ContainerData {
    ContainerData { window: WindowData { active_drag: drag, ..d.window }, ..d }
}

pub open spec fn with_maximized(d: ContainerData, maximized: bool) -> ContainerData {
    ContainerData {
        window: WindowData {
            native: crate::model::NativeWindowProperties { is_maximized: maximized, ..d.window.native },
            ..d.window
        },
        ..d
    }
}

/// The first monitor whose last laid-out place holds `p`.
pub open spec fn monitor_at(v: TreeView, p: Point) -> Option<usize> {
    match first_index(monitors(v), |m: usize| contains_point(v.data[m as int].rect, p)) {
        Some(i) => Some(monitors(v)[i]),
        None => None,
    }
}

/// The workspace a window `w` dragged to `p` drops into: the one the
/// monitor under `p` displays, else the window's own workspace.
pub open spec fn drop_workspace(v: TreeView, w: usize, p: Point) -> Option<usize> {
    match monitor_at(v, p) {
        Some(m) => match displayed_workspace(v, m) {
            Some(ws) => Some(ws),
            None => ancestor_of_kind(v, w, ContainerKind::Workspace),
        },
        None => ancestor_of_kind(v, w, ContainerKind::Workspace),
    }
}

/// The state a window dragged to fill a monitor takes: fullscreen, with
/// the settings it had if it was fullscreen already (else the defaults),
/// maximized as the platform reports.
pub open spec fn fullscreen_state(
    current: WindowState,
    defaults: FullscreenStateConfig,
    maximized: bool,
) -> WindowState {
    let base = match current {
        WindowState::Fullscreen(f) => f,
        _ => defaults,
    };
    WindowState::Fullscreen(FullscreenStateConfig { maximized, ..base })
}

/// Floating window `w` placed at `frame` by the user, in workspace `ws`
/// (moved there last if it is elsewhere).
pub open spec fn floated_to(v: TreeView, w: usize, frame: Rect, ws: usize) -> TreeView {
    let v1 = set_data(v, w, with_floating_placement(v.data[w as int], frame, true));
    if ancestor_of_kind(v1, w, ContainerKind::Workspace) == Some(ws) {
        v1
    } else {
        move_spec(v1, w, ws, v1.children_of(ws).len() as int)
    }
}

impl WmState {
    /// See [`monitor_at`].
    pub fn monitor_at_point(&self, p: &Point) -> (r: Option<usize>)
        requires
            self.wf(),
        ensures
            r == monitor_at(self.tv(), *p),
            r matches Some(m) ==> m < self.len() && self.kind_of(m) == ContainerKind::Monitor,
    {
        let ghost v = self.tv();
        let ghost pred = |m: usize| contains_point(v.data[m as int].rect, *p);
        let ms = self.monitors();
        proof {
            lemma_first_index(ms@, pred);
        }
        let mut i: usize = 0;
        while i < ms.len()
            invariant
                self.wf(),
                v == self.tv(),
                ms@ == monitors(v),
                pred == (|m: usize| contains_point(v.data[m as int].rect, *p)),
                forall|k: int|
                    0 <= k < ms@.len() ==> #[trigger] ms@[k] < self.len() && self.kind_of(ms@[k])
                        == ContainerKind::Monitor,
                i <= ms@.len(),
                forall|j: int| 0 <= j < i ==> !pred(#[trigger] ms@[j]),
                first_index(ms@, pred) matches Some(k) ==> 0 <= k < ms@.len() && pred(ms@[k]) && forall|
                    j: int,
                | 0 <= j < k ==> !pred(#[trigger] ms@[j]),
                first_index(ms@, pred) is None ==> forall|j: int|
                    0 <= j < ms@.len() ==> !pred(#[trigger] ms@[j]),
            decreases ms@.len() - i,
        {
            let m = ms[i];
            let r = &self.data[m].rect;
            if r.x as i64 <= p.x as i64 && p.x as i64 <= r.x as i64 + r.width as i64 && r.y as i64
                <= p.y as i64 && p.y as i64 <= r.y as i64 + r.height as i64 {
                assert(pred(m));
                proof {
                    if let Some(k) = first_index(ms@, pred) {
                        if k > i {
                        }
                    }
                }
                return Some(m);
            }
            i = i + 1;
        }
        None
    }
}

/// Drops the non-tiling window `moved_window`, whose drag has ended with
/// the cursor at `mouse_pos`, into the tiling tree of the workspace under
/// the cursor; see [`drop_workspace`] and [`drop_into_tiling_tree`].
pub fn drop_as_tiling_window(moved_window: usize, mouse_pos: &Point, state: &mut WmState) -> (r: Result<
    usize,
    WmError,
>)
    requires
        old(state).wf(),
        old(state).len() < usize::MAX,
        moved_window < old(state).len(),
        old(state).kind_of(moved_window) == ContainerKind::Window,
        !is_tiling(old(state).data@[moved_window as int]),
    ensures
        final(state).wf(),
        final(state).persistence == old(state).persistence,
        match drop_workspace(old(state).tv(), moved_window, *mouse_pos) {
            None => r == Err::<usize, WmError>(WmError::NoDropWorkspace) && unchanged(final(state), old(state)),
            Some(ws) => r == Ok::<usize, WmError>(moved_window) && final(state).len() >= old(state).len() && drops_into(
                old(state).tv(),
                old(state).pending_sync,
                final(state).tv(),
                final(state).pending_sync,
                moved_window,
                ws,
                *mouse_pos,
            ),
        },
{
    let from_monitor = match state.monitor_at_point(mouse_pos) {
        Some(m) => state.displayed_workspace(m),
        None => None,
    };
    let mouse_workspace = match from_monitor {
        Some(ws) => ws,
        None => match state.workspace_of(moved_window) {
            Some(ws) => ws,
            None => {
                return Err(WmError::NoDropWorkspace);
            },
        },
    };
    drop_into_tiling_tree(moved_window, mouse_workspace, mouse_pos, state)
}

/// What the platform reports when a drag or resize of a window ends.
pub struct MoveEndInput {
    /// Whether the window is maximized now.
    pub is_maximized: bool,
    /// The monitor nearest to the window, if any.
    pub nearest_monitor: Option<usize>,
    /// Whether the window's frame fills the workspace the nearest monitor
    /// displays, so that it should become fullscreen.
    pub should_fullscreen: bool,
    /// Where the cursor is.
    pub cursor: Point,
}

/// `(new, new_sync, r)` is what handling the end of a drag of the
/// non-tiling window `w` leaves, from the tree `v` (in which the window's
/// maximized flag is already updated) and the queues `sync`.
pub open spec fn drag_ended(
    v: TreeView,
    sync: crate::state::PendingSync,
    new: TreeView,
    new_sync: crate::state::PendingSync,
    r: Result<(), WmError>,
    w: usize,
    drag: ActiveDrag,
    input: MoveEndInput,
    defaults: FullscreenStateConfig,
) -> bool {
    let d = v.data[w as int];
    match input.nearest_monitor {
        None => r == Err::<(), WmError>(WmError::NoNearestMonitor) && new == v && new_sync == sync,
        Some(m) => match displayed_workspace(v, m) {
            None => r == Err::<(), WmError>(WmError::NoDisplayedWorkspace) && new == v && new_sync == sync,
            Some(ws) => if input.is_maximized || input.should_fullscreen {
                // The window becomes fullscreen where it is. A maximized
                // window is already drawn right; another is redrawn to snap
                // to the monitor's edges.
                &&& r is Ok
                &&& new == set_data(
                    v,
                    w,
                    with_drag(
                        with_window_state(d, fullscreen_state(d.window.state, defaults, input.is_maximized)),
                        None,
                    ),
                )
                &&& new_sync == (crate::state::PendingSync {
                    containers_to_redraw: new_sync.containers_to_redraw,
                    ..sync
                })
                &&& new_sync.containers_to_redraw@ == if input.is_maximized {
                    without(sync.containers_to_redraw@, w)
                } else {
                    queued(sync.containers_to_redraw@, w)
                }
            } else if drag.is_from_floating {
                // A floating window stays floating where it was put.
                &&& r is Ok
                &&& new == {
                    let f = floated_to(v, w, d.window.native.frame, ws);
                    set_data(f, w, with_drag(f.data[w as int], None))
                }
                &&& new_sync == sync
            } else {
                // A tiling window dragged out of the tree drops back in.
                match drop_workspace(v, w, input.cursor) {
                    None => r == Err::<(), WmError>(WmError::NoDropWorkspace) && new == v && new_sync == sync,
                    Some(dws) => {
                        &&& r is Ok
                        &&& exists|mid: TreeView|
                            #[trigger] drops_into(v, sync, mid, new_sync, w, dws, input.cursor) && new
                                == set_data(mid, w, with_drag(mid.data[w as int], None))
                    },
                }
            },
        },
    }
}

/// Handles the end of a drag or resize of window `window` by the user.
/// Without an active drag nothing happens. A tiling window takes the width
/// and then the height of its frame as its size (see [`resize_along`]), its
/// drag ends and it is redrawn to snap into place.
/// For a non-tiling window the platform's maximized flag is recorded and
/// the rest is as [`drag_ended`] says.
pub fn handle_window_moved_or_resized_end(
    window: usize,
    input: MoveEndInput,
    state: &mut WmState,
    config: &UserConfig,
) -> (r: Result<(), WmError>)
    requires
        old(state).wf(),
        old(state).len() < usize::MAX,
        window < old(state).len(),
        old(state).kind_of(window) == ContainerKind::Window,
        input.nearest_monitor matches Some(m) ==> m < old(state).len() && old(state).kind_of(m)
            == ContainerKind::Monitor,
    ensures
        final(state).wf(),
        final(state).persistence == old(state).persistence,
        ({
            let v = old(state).tv();
            let d = v.data[window as int];
            match d.window.active_drag {
                None => r is Ok && unchanged(final(state), old(state)),
                Some(drag) => if d.window.state == WindowState::Tiling {
                    let frame = d.window.native.frame;
                    let v2 = resize_along(
                        resize_along(v, window, TilingDirection::Horizontal, frame.width as int),
                        window,
                        TilingDirection::Vertical,
                        frame.height as int,
                    );
                    &&& r is Ok
                    &&& final(state).tv() == set_data(v2, window, with_drag(v2.data[window as int], None))
                    &&& final(state).pending_sync.containers_to_redraw@ == queued(
                        old(state).pending_sync.containers_to_redraw@,
                        window,
                    )
                    &&& final(state).pending_sync.workspaces_to_reorder == old(state).pending_sync.workspaces_to_reorder
                    &&& final(state).pending_sync.focus_change == old(state).pending_sync.focus_change
                    &&& final(state).pending_sync.cursor_jump == old(state).pending_sync.cursor_jump
                } else {
                    drag_ended(
                        set_data(v, window, with_maximized(d, input.is_maximized)),
                        old(state).pending_sync,
                        final(state).tv(),
                        final(state).pending_sync,
                        r,
                        window,
                        drag,
                        input,
                        config.fullscreen_defaults,
                    )
                },
            }
        }),
{
    let drag = match state.data[window].window.active_drag {
        None => {
            return Ok(());
        },
        Some(drag) => drag,
    };
    if state.is_tiling_container(window) {
        let frame = state.data[window].window.native.frame;
        state.resize_along(window, TilingDirection::Horizontal, frame.width);
        state.resize_along(window, TilingDirection::Vertical, frame.height);
        let ghost v2 = state.tv();
        state.set_active_drag(window, None);
        assert(state.data@ =~= v2.data.update(window as int, with_drag(v2.data[window as int], None)));
        state.pending_sync.queue_container_to_redraw(window);
        return Ok(());
    }
    state.set_maximized(window, input.is_maximized);
    let ghost v1 = state.tv();
    assert(v1 == set_data(old(state).tv(), window, with_maximized(old(state).data@[window as int], input.is_maximized)));
    let nearest_monitor = match input.nearest_monitor {
        None => {
            return Err(WmError::NoNearestMonitor);
        },
        Some(m) => m,
    };
    let workspace = match state.displayed_workspace(nearest_monitor) {
        None => {
            return Err(WmError::NoDisplayedWorkspace);
        },
        Some(ws) => ws,
    };
    if input.is_maximized || input.should_fullscreen {
        let base = match state.data[window].window.state {
            WindowState::Fullscreen(f) => f,
            _ => config.fullscreen_defaults,
        };
        let ghost d1 = v1.data[window as int];
        state.set_window_state(
            window,
            WindowState::Fullscreen(FullscreenStateConfig { maximized: input.is_maximized, ..base }),
        );
        state.set_active_drag(window, None);
        assert(state.data@ =~= v1.data.update(
            window as int,
            with_drag(
                with_window_state(
                    d1,
                    fullscreen_state(d1.window.state, config.fullscreen_defaults, input.is_maximized),
                ),
                None,
            ),
        ));
        if input.is_maximized {
            state.pending_sync.dequeue_container_from_redraw(window);
        } else {
            state.pending_sync.queue_container_to_redraw(window);
        }
        return Ok(());
    }
    if drag.is_from_floating {
        let frame = state.data[window].window.native.frame;
        update_floating_window_position(window, frame, workspace, state);
        let ghost f = state.tv();
        state.set_active_drag(window, None);
        assert(state.data@ =~= f.data.update(window as int, with_drag(f.data[window as int], None)));
    } else {
        let ghost sync1 = state.pending_sync;
        match drop_as_tiling_window(window, &input.cursor, state) {
            Err(e) => {
                return Err(e);
            },
            Ok(_) => {},
        }
        let ghost mid = state.tv();
        state.set_active_drag(window, None);
        assert(state.data@ =~= mid.data.update(window as int, with_drag(mid.data[window as int], None)));
        assert(drops_into(v1, sync1, mid, state.pending_sync, window, drop_workspace(v1, window, input.cursor).unwrap(), input.cursor));
    }
    Ok(())
}

/// Records that floating window `w` was put at `frame` by the user, in
/// the workspace `ws` it was dropped on; see [`floated_to`].
pub fn update_floating_window_position(w: usize, frame: Rect, ws: usize, state: &mut WmState)
    requires
        old(state).wf(),
        w < old(state).len(),
        old(state).kind_of(w) == ContainerKind::Window,
        ws < old(state).len(),
        old(state).kind_of(ws) == ContainerKind::Workspace,
    ensures
        final(state).wf(),
        final(state).persistence == old(state).persistence,
        final(state).len() == old(state).len(),
        final(state).tv() == floated_to(old(state).tv(), w, frame, ws),
        final(state).pending_sync == old(state).pending_sync,
        forall|j: usize| j < old(state).len() ==> #[trigger] final(state).kind_of(j) == old(state).kind_of(j),
{
    state.set_floating_placement(w, frame, true);
    if state.workspace_of(w) != Some(ws) {
        let n = state.child_count(ws);
        let _ = move_container_within_tree(w, ws, n, state);
    }
}

/// The first window whose native id is `id`.
pub open spec fn window_with_id(v: TreeView, id: u64) -> Option<usize> {
    match first_index(windows(v), |w: usize| v.data[w as int].window.native.id == id) {
        Some(i) => Some(windows(v)[i]),
        None => None,
    }
}

/// The tree after window `w` stops being managed: it leaves its parent,
/// and a stack it leaves is collapsed.
pub open spec fn unmanaged(v: TreeView, w: usize) -> TreeView {
    let v1 = v.with_links(detach_spec(v.links, w));
    match v.parent_of(w) {
        Some(p) => if v.kind_of(p) == ContainerKind::Stack {
            collapse_spec(v1, p)
        } else {
            v1
        },
        None => v1,
    }
}

/// Stops managing window `w`; see [`unmanaged`].
pub fn unmanage_window(w: usize, state: &mut WmState) -> (r: Result<(), WmError>)
    requires
        old(state).wf(),
        w < old(state).len(),
    ensures
        final(state).wf(),
        final(state).persistence == old(state).persistence,
        r is Ok,
        final(state).len() == old(state).len(),
        final(state).tv() == unmanaged(old(state).tv(), w),
        final(state).pending_sync == old(state).pending_sync,
{
    let parent = state.links[w].parent;
    state.detach(w);
    match parent {
        Some(p) => {
            proof {
                crate::query::lemma_ids_in_range(*old(state), w);
            }
            if state.data[p].kind == ContainerKind::Stack {
                let _ = collapse_stack_container(p, state);
            }
        },
        None => {},
    }
    Ok(())
}

/// Destroys the first workspace that is empty, not displayed and not kept
/// alive, if there is one; see [`destroy_spec`].
pub fn deactivate_empty_dynamic_workspace(state: &mut WmState, _config: &UserConfig) -> (r: Result<
    (),
    WmError,
>)
    requires
        old(state).wf(),
    ensures
        final(state).wf(),
        final(state).persistence == old(state).persistence,
        r is Ok,
        final(state).tv() == destroy_spec(old(state).tv()),
        final(state).pending_sync == old(state).pending_sync,
{
    match state.first_destroyable() {
        Some(d) => {
            deactivate_workspace(d, state);
        },
        None => {},
    }
    Ok(())
}

impl WmState {
    /// See [`window_with_id`].
    pub fn window_by_native_id(&self, id: u64) -> (r: Option<usize>)
        requires
            self.wf(),
        ensures
            r == window_with_id(self.tv(), id),
            r matches Some(w) ==> w < self.len(),
    {
        let ghost v = self.tv();
        let ghost pred = |w: usize| v.data[w as int].window.native.id == id;
        let ws = self.windows();
        proof {
            lemma_first_index(ws@, pred);
        }
        let mut i: usize = 0;
        while i < ws.len()
            invariant
                self.wf(),
                v == self.tv(),
                ws@ == windows(v),
                pred == (|w: usize| v.data[w as int].window.native.id == id),
                forall|k: int| 0 <= k < ws@.len() ==> #[trigger] ws@[k] < self.len(),
                i <= ws@.len(),
                forall|j: int| 0 <= j < i ==> !pred(#[trigger] ws@[j]),
                first_index(ws@, pred) matches Some(k) ==> 0 <= k < ws@.len() && pred(ws@[k]) && forall|
                    j: int,
                | 0 <= j < k ==> !pred(#[trigger] ws@[j]),
                first_index(ws@, pred) is None ==> forall|j: int|
                    0 <= j < ws@.len() ==> !pred(#[trigger] ws@[j]),
            decreases ws@.len() - i,
        {
            let w = ws[i];
            if self.data[w].window.native.id == id {
                assert(pred(w));
                proof {
                    if let Some(k) = first_index(ws@, pred) {
                        if k > i {
                        }
                    }
                }
                return Some(w);
            }
            i = i + 1;
        }
        None
    }
}

/// Handles a window that the platform reports destroyed: if a managed
/// window has its native id, it stops being managed and an empty workspace
/// it may have left behind is destroyed.
pub fn handle_window_destroyed(native_window_id: u64, state: &mut WmState, config: &UserConfig) -> (r:
    Result<(), WmError>)
    requires
        old(state).wf(),
    ensures
        final(state).wf(),
        final(state).persistence == old(state).persistence,
        r is Ok,
        final(state).pending_sync == old(state).pending_sync,
        match window_with_id(old(state).tv(), native_window_id) {
            None => final(state).tv() == old(state).tv(),
            Some(w) => final(state).tv() == destroy_spec(unmanaged(old(state).tv(), w)),
        },
{
    match state.window_by_native_id(native_window_id) {
        Some(w) => {
            let _ = unmanage_window(w, state);
            let _ = deactivate_empty_dynamic_workspace(state, config);
        },
        None => {},
    }
    Ok(())
}

/// Adds a monitor with the given properties last under the root and
/// returns it. Its workspaces are added separately, by
/// `ensure_workspaces_for_monitor`.
pub fn add_monitor(native_properties: NativeMonitorProperties, state: &mut WmState) -> (r: Result<
    usize,
    WmError,
>)
    requires
        old(state).wf(),
        old(state).len() < usize::MAX,
    ensures
        final(state).wf(),
        final(state).persistence == old(state).persistence,
        r == Ok::<usize, WmError>(old(state).len() as usize),
        final(state).lv() == attach_spec(
            old(state).lv().push(LinksView { parent: None, children: Seq::empty(), focus: Seq::empty() }),
            old(state).len() as usize,
            old(state).root,
            old(state).children_of(old(state).root).len() as int,
        ),
        final(state).data@.len() == old(state).len() + 1,
        final(state).data@.take(old(state).len() as int) == old(state).data@,
        final(state).data@[old(state).len() as int].kind == ContainerKind::Monitor,
        final(state).data@[old(state).len() as int].monitor == native_properties,
        final(state).data@[old(state).len() as int].recent_workspace_name is None,
        final(state).root == old(state).root,
        final(state).pending_sync == old(state).pending_sync,
{
    let ghost props = native_properties;
    let d = ContainerData::monitor(native_properties);
    let root = state.root;
    let m = state.add_container(d);
    assert(state.data@.take(old(state).len() as int) =~= old(state).data@);
    assert(state.children_of(root) == old(state).children_of(root));
    let _ = attach_container(m, root, None, state);
    Ok(m)
}

} // verus!
