//! What the choices behind focusing, moving, dropping and restoring are:
//! the workspace a relative target names, the monitor in a direction, the
//! distance that finds the nearest container, the workspace a dragged
//! window lands in and the state a restored window comes back in.

use vstd::prelude::*;

use crate::config::{config_index, lemma_config_index, WorkspaceConfig};
use crate::drop::{contains_point, dist2, max3};
use crate::error::WmError;
use crate::events::{drop_workspace, monitor_at};
use crate::focus_workspace::{
    area, closer, closest_in_direction, in_direction, monitor_in_direction,
    target_choice, Choice, WorkspaceTarget,
};
use crate::model::{ContainerKind, Direction, Point, Rect, WindowState};
use crate::persistence::restorable_state;
use crate::query::{ancestor_of_kind, displayed_workspace, monitors, of_kind, workspace_by_name};
use crate::tree::{lemma_pos, pos};
use crate::state::TreeView;
use crate::workspace::{first_index, lemma_first_index, lemma_first_index_unique};

verus! {

/// Focusing `Next` names the workspace whose config follows the focused
/// workspace's config, wrapping from the last to the first; `Previous`
/// names the one whose config precedes it, wrapping from the first to the
/// last. The workspace is the monitor's workspace of that name, if any.
pub proof fn law_next_and_previous_follow_the_config_order(
    v: TreeView,
    cfgs: Seq<WorkspaceConfig>,
    fw: usize,
    fm: usize,
    i: int,
)
    requires
        config_index(cfgs, v.data[fw as int].workspace_name@) == Some(i),
    ensures
        ({
            let next = cfgs[(i + 1) % (cfgs.len() as int)].name@;
            target_choice(v, cfgs, fw, fm, WorkspaceTarget::Next) == Ok::<Choice, WmError>(
                (Some(next), workspace_by_name(v, fm, next)),
            )
        }),
        ({
            let prev = cfgs[(i + cfgs.len() - 1) % (cfgs.len() as int)].name@;
            target_choice(v, cfgs, fw, fm, WorkspaceTarget::Previous) == Ok::<Choice, WmError>(
                (Some(prev), workspace_by_name(v, fm, prev)),
            )
        }),
{
    lemma_config_index(cfgs, v.data[fw as int].workspace_name@);
    let n = cfgs.len() as int;
    if i + 1 < n {
        vstd::arithmetic::div_mod::lemma_small_mod((i + 1) as nat, n as nat);
    } else {
        vstd::arithmetic::div_mod::lemma_mod_self_0(n);
        assert(i + 1 == n);
    }
    if i == 0 {
        vstd::arithmetic::div_mod::lemma_small_mod((n - 1) as nat, n as nat);
        assert(i + n - 1 == n - 1);
    } else {
        vstd::arithmetic::div_mod::lemma_mod_add_multiples_vanish(i - 1, n);
        vstd::arithmetic::div_mod::lemma_small_mod((i - 1) as nat, n as nat);
        assert(i + n - 1 == n + (i - 1));
    }
}

/// Focusing `NextActiveInMonitor` names the monitor's workspace after the
/// focused one, in the monitor's order, wrapping from the last to the
/// first; `PreviousActiveInMonitor` the one before it, wrapping from the
/// first to the last.
pub proof fn law_next_and_previous_active_follow_the_monitor_order(
    v: TreeView,
    cfgs: Seq<WorkspaceConfig>,
    fw: usize,
    fm: usize,
    i: int,
)
    requires
        0 <= i < of_kind(v, v.children_of(fm), ContainerKind::Workspace).len(),
        of_kind(v, v.children_of(fm), ContainerKind::Workspace)[i] == fw,
        of_kind(v, v.children_of(fm), ContainerKind::Workspace).no_duplicates(),
    ensures
        ({
            let ws = of_kind(v, v.children_of(fm), ContainerKind::Workspace);
            let next = ws[(i + 1) % (ws.len() as int)];
            target_choice(v, cfgs, fw, fm, WorkspaceTarget::NextActiveInMonitor) == Ok::<Choice, WmError>(
                (Some(v.data[next as int].workspace_name@), Some(next)),
            )
        }),
        ({
            let ws = of_kind(v, v.children_of(fm), ContainerKind::Workspace);
            let prev = ws[(i + ws.len() - 1) % (ws.len() as int)];
            target_choice(v, cfgs, fw, fm, WorkspaceTarget::PreviousActiveInMonitor) == Ok::<Choice, WmError>(
                (Some(v.data[prev as int].workspace_name@), Some(prev)),
            )
        }),
{
    let ws = of_kind(v, v.children_of(fm), ContainerKind::Workspace);
    let n = ws.len() as int;
    assert(ws.contains(fw));
    lemma_pos(ws, fw);
    assert(pos(ws, fw) == i) by {
        if pos(ws, fw) != i {
            assert(ws[pos(ws, fw)] == ws[i]);
        }
    }
    if i + 1 < n {
        vstd::arithmetic::div_mod::lemma_small_mod((i + 1) as nat, n as nat);
    } else {
        vstd::arithmetic::div_mod::lemma_mod_self_0(n);
        assert(i + 1 == n);
    }
    if i == 0 {
        vstd::arithmetic::div_mod::lemma_small_mod((n - 1) as nat, n as nat);
        assert(i + n - 1 == n - 1);
    } else {
        vstd::arithmetic::div_mod::lemma_mod_add_multiples_vanish(i - 1, n);
        vstd::arithmetic::div_mod::lemma_small_mod((i - 1) as nat, n as nat);
        assert(i + n - 1 == n + (i - 1));
    }
}

/// What [`closest_in_direction`] picks: one of the monitors that lies in
/// the direction, no other one closer; `None` only when none lies there.
proof fn lemma_closest_is_closest(v: TreeView, ms: Seq<usize>, o: Rect, d: Direction)
    ensures
        closest_in_direction(v, ms, o, d) matches Some(x) ==> {
            &&& ms.contains(x)
            &&& in_direction(area(v, x), o, d)
            &&& forall|k: int|
                0 <= k < ms.len() && in_direction(area(v, ms[k]), o, d) ==> !closer(
                    area(v, #[trigger] ms[k]),
                    area(v, x),
                    d,
                )
        },
        closest_in_direction(v, ms, o, d) is None ==> forall|k: int|
            0 <= k < ms.len() ==> !in_direction(area(v, #[trigger] ms[k]), o, d),
    decreases ms.len(),
{
    if ms.len() > 0 {
        let d0 = ms.drop_last();
        lemma_closest_is_closest(v, d0, o, d);
        assert forall|k: int| 0 <= k < d0.len() implies ms[k] == #[trigger] d0[k] by {}
        let m = ms.last();
        assert(ms[ms.len() - 1] == m);
        if let Some(x) = closest_in_direction(v, ms, o, d) {
            if let Some(b) = closest_in_direction(v, d0, o, d) {
                let j = choose|j: int| 0 <= j < d0.len() && d0[j] == b;
                assert(ms[j] == b);
            }
            assert forall|k: int|
                0 <= k < ms.len() && in_direction(area(v, ms[k]), o, d) implies !closer(
                area(v, #[trigger] ms[k]),
                area(v, x),
                d,
            ) by {
                if k < ms.len() - 1 {
                    assert(ms[k] == d0[k]);
                }
            }
        } else {
            assert forall|k: int| 0 <= k < ms.len() implies !in_direction(area(v, #[trigger] ms[k]), o, d) by {
                if k < ms.len() - 1 {
                    assert(ms[k] == d0[k]);
                }
            }
        }
    }
}

/// Whether a monitor at `r` lies beyond one at `o` in direction `d`: past
/// it along `d`, and overlapping it across `d`.
pub open spec fn lies_beyond(r: Rect, o: Rect, d: Direction) -> bool {
    match d {
        Direction::Right => r.x > o.x && r.y < o.y + o.height && o.y < r.y + r.height,
        Direction::Left => r.x < o.x && r.y < o.y + o.height && o.y < r.y + r.height,
        Direction::Down => r.y > o.y && r.x < o.x + o.width && o.x < r.x + r.width,
        Direction::Up => r.y < o.y && r.x < o.x + o.width && o.x < r.x + r.width,
    }
}

/// Moving or focusing in a direction goes to the neighbouring monitor:
/// the monitor chosen lies beyond the monitor `m` in direction `d`, and no
/// monitor that lies beyond it is strictly nearer along `d` (for `Right`,
/// none has a smaller left edge). Where no monitor is chosen, none lies
/// beyond `m` in that direction.
pub proof fn law_monitor_in_direction_is_the_nearest(v: TreeView, m: usize, d: Direction)
    ensures
        monitor_in_direction(v, m, d) matches Some(x) ==> {
            let a = area(v, x);
            let o = area(v, m);
            &&& monitors(v).contains(x)
            &&& lies_beyond(a, o, d)
            &&& forall|y: usize|
                #![trigger monitors(v).contains(y)]
                monitors(v).contains(y) && lies_beyond(area(v, y), o, d) ==> match d {
                    Direction::Right => a.x <= area(v, y).x,
                    Direction::Left => a.x >= area(v, y).x,
                    Direction::Down => a.y <= area(v, y).y,
                    Direction::Up => a.y >= area(v, y).y,
                }
        },
        monitor_in_direction(v, m, d) is None ==> forall|y: usize|
            #![trigger monitors(v).contains(y)]
            monitors(v).contains(y) ==> !lies_beyond(area(v, y), area(v, m), d),
{
    let ms = monitors(v);
    lemma_closest_is_closest(v, ms, area(v, m), d);
    assert forall|y: usize| #![trigger monitors(v).contains(y)] monitors(v).contains(y) implies exists|k: int|
        0 <= k < ms.len() && ms[k] == y by {}
}

/// The horizontal or vertical gap between a coordinate `c` and the span
/// from `lo` to `lo + len`: 0 within it.
pub open spec fn gap(c: int, lo: int, len: int) -> int {
    if c < lo {
        lo - c
    } else if c > lo + len {
        c - (lo + len)
    } else {
        0
    }
}

/// The distance that ranks containers around a drop point is the squared
/// distance from the point to the nearest point of the container: the sum
/// of the squares of the horizontal and the vertical gap. It is 0 for a
/// point inside, and positive for a point left, right, above or below.
pub proof fn law_distance_is_squared_gap(r: Rect, p: Point)
    requires
        r.width >= 0,
        r.height >= 0,
    ensures
        ({
            let gx = gap(p.x as int, r.x as int, r.width as int);
            let gy = gap(p.y as int, r.y as int, r.height as int);
            dist2(r, p) == gx * gx + gy * gy
        }),
        contains_point(r, p) ==> dist2(r, p) == 0,
        !contains_point(r, p) ==> dist2(r, p) > 0,
{
    let gx = gap(p.x as int, r.x as int, r.width as int);
    let gy = gap(p.y as int, r.y as int, r.height as int);
    assert(max3(0, r.x - p.x, p.x - (r.x + r.width)) == gx);
    assert(max3(0, r.y - p.y, p.y - (r.y + r.height)) == gy);
    assert(gx >= 0 && gy >= 0);
    assert(gx * gx >= 0 && gy * gy >= 0) by (nonlinear_arith)
        requires
            gx >= 0,
            gy >= 0,
    ;
    if contains_point(r, p) {
        assert(gx == 0 && gy == 0);
        assert(gx * gx + gy * gy == 0);
    } else {
        assert(gx > 0 || gy > 0);
        assert(gx * gx + gy * gy > 0) by (nonlinear_arith)
            requires
                gx >= 0,
                gy >= 0,
                gx > 0 || gy > 0,
        ;
    }
}

/// A dragged window lands in the workspace that the monitor under the
/// cursor displays, whatever workspace it was in before. The monitor under
/// the cursor is the first, in monitor order, whose place holds the point.
pub proof fn law_drop_goes_to_the_monitor_under_the_cursor(
    v: TreeView,
    w: usize,
    p: Point,
    k: int,
    ws: usize,
)
    requires
        0 <= k < monitors(v).len(),
        contains_point(v.data[monitors(v)[k] as int].rect, p),
        forall|j: int| 0 <= j < k ==> !contains_point(v.data[#[trigger] monitors(v)[j] as int].rect, p),
        displayed_workspace(v, monitors(v)[k]) == Some(ws),
    ensures
        drop_workspace(v, w, p) == Some(ws),
{
    let pred = |m: usize| contains_point(v.data[m as int].rect, p);
    lemma_first_index_unique(monitors(v), pred, k);
    assert(monitor_at(v, p) == Some(monitors(v)[k]));
}

/// A window dragged off every monitor stays in its own workspace.
pub proof fn law_drop_off_the_monitors_keeps_the_workspace(v: TreeView, w: usize, p: Point)
    requires
        forall|j: int| 0 <= j < monitors(v).len() ==> !contains_point(v.data[#[trigger] monitors(v)[j] as int].rect, p),
    ensures
        drop_workspace(v, w, p) == ancestor_of_kind(v, w, ContainerKind::Workspace),
{
    let pred = |m: usize| contains_point(v.data[m as int].rect, p);
    lemma_first_index(monitors(v), pred);
    if let Some(i) = first_index(monitors(v), pred) {
        assert(pred(monitors(v)[i]));
    }
    assert(monitor_at(v, p) is None);
}

/// A restored window comes back in the state it was saved in (tiling,
/// floating or fullscreen, with their settings); only a window saved
/// minimized gets no state back.
pub proof fn law_restored_state_is_the_saved_state(s: WindowState)
    ensures
        s is Minimized ==> restorable_state(s) is None,
        !(s is Minimized) ==> restorable_state(s) == Some(s),
{
}

} // verus!
