//! Dropping a dragged window into the tiling tree: where it lands, and
//! whether it joins a stack, a split or a new split beside its target.

use vstd::prelude::*;

use crate::container::{
    flatten_lone, flatten_lone_split, lemma_flatten_lone_parent, move_container_within_tree, move_spec, wrap_in_split_container, wrap_in_stack_container, wrap_spec,
};
use crate::error::WmError;
use crate::model::{ContainerData, ContainerKind, Point, Rect, TilingDirection, WindowState, FULL_TILING_SIZE};
use crate::query::{focused_links, selected_child};
use crate::state::{queued, with_window_state};
use crate::tree::pos;
use crate::move_workspace::{clamp_i32, half, half_exec};
use crate::query::{descendants, lemma_ids_in_range};
use crate::state::{is_tiling, PendingSync, TreeView, WmState};
use crate::tree::{node_wf, LinksView};

verus! {

/// Where a window was dropped over another.
#[derive(Clone, Copy, Debug, PartialEq, Eq, Structural)]
pub enum DropZone {
    Top,
    Bottom,
    Left,
    Right,
    Center,
}

/// The split direction of an edge zone.
pub open spec fn zone_direction(z: DropZone) -> TilingDirection {
    match z {
        DropZone::Left | DropZone::Right => TilingDirection::Horizontal,
        _ => TilingDirection::Vertical,
    }
}

impl DropZone {
    /// The direction of a split that puts the dropped window on this side.
    /// The center zone has none.
    pub fn tiling_direction(&self) -> (r: TilingDirection)
        requires
            *self != DropZone::Center,
        ensures
            r == zone_direction(*self),
    {
        match self {
            DropZone::Left | DropZone::Right => TilingDirection::Horizontal,
            _ => TilingDirection::Vertical,
        }
    }

    /// Whether the dropped window goes before the window it was dropped on.
    pub fn is_before(&self) -> (r: bool)
        ensures
            r == (*self == DropZone::Left || *self == DropZone::Top),
    {
        match self {
            DropZone::Left | DropZone::Top => true,
            _ => false,
        }
    }
}

/// `n / d` rounded to the nearest integer, halves away from zero.
pub open spec fn round_div(n: int, d: int) -> int
    recommends
        d > 0,
{
    if n >= 0 {
        (2 * n + d) / (2 * d)
    } else {
        -((-2 * n + d) / (2 * d))
    }
}

fn round_div_exec(n: i64, d: i64) -> (r: i64)
    requires
        0 < d <= 10,
        -0x1000_0000_0000 <= n <= 0x1000_0000_0000,
    ensures
        r == round_div(n as int, d as int),
{
    if n >= 0 {
        (2 * n + d) / (2 * d)
    } else {
        let m = 0 - n;
        0 - (2 * m + d) / (2 * d)
    }
}

/// The center box of `r`: 40% of its width and height, centered, with
/// each of its coordinates rounded to the nearest integer (and a corner
/// beyond the range of `i32` clamped to it).
pub open spec fn center_box(r: Rect) -> Rect {
    Rect {
        x: clamp_i32(round_div(10 * r.x + 3 * r.width, 10)),
        y: clamp_i32(round_div(10 * r.y + 3 * r.height, 10)),
        width: round_div(4 * r.width, 10) as i32,
        height: round_div(4 * r.height, 10) as i32,
    }
}

/// The corner coordinate of a center box: `(10 * a + 3 * len) / 10`
/// rounded and clamped.
fn box_corner(a: i32, len: i32) -> (r: i32)
    ensures
        r == clamp_i32(round_div(10 * a + 3 * len, 10)),
{
    let n = 10 * (a as i64) + 3 * (len as i64);
    let c = round_div_exec(n, 10);
    if c < i32::MIN as i64 {
        i32::MIN
    } else if c > i32::MAX as i64 {
        i32::MAX
    } else {
        c as i32
    }
}

/// The size of a center box: `4 * len / 10` rounded.
fn box_size(len: i32) -> (r: i32)
    ensures
        r == round_div(4 * len, 10) as i32,
        r == round_div(4 * len, 10),
{
    let n = 4 * (len as i64);
    proof {
        lemma_round_div_bounds(4 * len, 10);
    }
    let c = round_div_exec(n, 10);
    assert(-0x8000_0000 <= c <= 0x7fff_ffff) by {
        if n >= 0 {
            assert((2 * n + 10) / 20 <= n / 2 + 1) by (nonlinear_arith)
                requires
                    n >= 0,
            ;
        } else {
            assert((-2 * n + 10) / 20 <= -n / 2 + 1) by (nonlinear_arith)
                requires
                    n < 0,
            ;
        }
    }
    c as i32
}

/// Whether `p` lies in `r`, edges included.
pub open spec fn contains_point(r: Rect, p: Point) -> bool {
    &&& r.x <= p.x <= r.x + r.width
    &&& r.y <= p.y <= r.y + r.height
}

/// The center of `r`, half sizes rounded toward zero.
pub open spec fn center_x(r: Rect) -> int {
    r.x + half(r.width as int)
}

pub open spec fn center_y(r: Rect) -> int {
    r.y + half(r.height as int)
}

pub open spec fn abs(a: int) -> int {
    if a < 0 {
        -a
    } else {
        a
    }
}

/// The zone of `r` that `p` falls in: the center box, else the side whose
/// triangle (cut by the diagonals through the center) holds it; on a
/// diagonal the top or bottom side wins.
pub open spec fn zone_of(p: Point, r: Rect) -> DropZone {
    let dx = p.x - center_x(r);
    let dy = p.y - center_y(r);
    if contains_point(center_box(r), p) {
        DropZone::Center
    } else if abs(dx) > abs(dy) {
        if dx > 0 {
            DropZone::Right
        } else {
            DropZone::Left
        }
    } else if dy > 0 {
        DropZone::Bottom
    } else {
        DropZone::Top
    }
}

proof fn lemma_round_div_bounds(n: int, d: int)
    requires
        0 < d <= 10,
    ensures
        abs(round_div(n, d)) <= abs(n) + 1,
{
    if n >= 0 {
        assert((2 * n + d) / (2 * d) <= n + 1) by (nonlinear_arith)
            requires
                n >= 0,
                0 < d,
        ;
    } else {
        assert((-2 * n + d) / (2 * d) <= -n + 1) by (nonlinear_arith)
            requires
                n < 0,
                0 < d,
        ;
    }
}

/// See [`zone_of`].
pub fn drop_zone(mouse_pos: &Point, rect: &Rect) -> (z: DropZone)
    ensures
        z == zone_of(*mouse_pos, *rect),
{
    let center = Rect {
        x: box_corner(rect.x, rect.width),
        y: box_corner(rect.y, rect.height),
        width: box_size(rect.width),
        height: box_size(rect.height),
    };
    assert(center == center_box(*rect));
    let px = mouse_pos.x as i64;
    let py = mouse_pos.y as i64;
    if center.x as i64 <= px && px <= center.x as i64 + center.width as i64 && center.y as i64 <= py
        && py <= center.y as i64 + center.height as i64 {
        return DropZone::Center;
    }
    let dx = px - (rect.x as i64 + half_exec(rect.width as i64));
    let dy = py - (rect.y as i64 + half_exec(rect.height as i64));
    let adx = if dx < 0 {
        -dx
    } else {
        dx
    };
    let ady = if dy < 0 {
        -dy
    } else {
        dy
    };
    if adx > ady {
        if dx > 0 {
            DropZone::Right
        } else {
            DropZone::Left
        }
    } else if dy > 0 {
        DropZone::Bottom
    } else {
        DropZone::Top
    }
}

/// Number of ancestors of `c`, counting at most `fuel`.
pub open spec fn depth(t: Seq<LinksView>, c: usize, fuel: nat) -> nat
    decreases fuel,
{
    if fuel == 0 {
        0
    } else {
        match t[c as int].parent {
            None => 0,
            Some(p) => 1 + depth(t, p, (fuel - 1) as nat),
        }
    }
}

/// Number of ancestors of `c`.
pub open spec fn depth_of(v: TreeView, c: usize) -> nat {
    depth(v.links, c, v.len())
}

/// The splits among the descendants of `ws` whose last laid-out place
/// holds the point `p`, breadth first.
pub open spec fn splits_at(v: TreeView, ws: usize, p: Point) -> Seq<usize> {
    descendants(v.links, ws).filter(
        |c: usize| v.kind_of(c) == ContainerKind::Split && contains_point(v.data[c as int].rect, p),
    )
}

/// The first of the deepest among `init` and `cands`, in that order.
pub open spec fn deepest(v: TreeView, cands: Seq<usize>, init: usize) -> usize
    decreases cands.len(),
{
    if cands.len() == 0 {
        init
    } else {
        let a = deepest(v, cands.drop_last(), init);
        if depth_of(v, cands.last()) > depth_of(v, a) {
            cands.last()
        } else {
            a
        }
    }
}

/// The container a window dropped at `p` over workspace `ws` goes into:
/// the deepest split there that holds `p`, else the workspace.
pub open spec fn drop_target(v: TreeView, ws: usize, p: Point) -> usize {
    deepest(v, splits_at(v, ws, p), ws)
}

pub open spec fn max3(a: int, b: int, c: int) -> int {
    if a >= b && a >= c {
        a
    } else if b >= c {
        b
    } else {
        c
    }
}

/// The squared distance from `p` to the nearest point of `r` (0 inside).
pub open spec fn dist2(r: Rect, p: Point) -> int {
    let dx = max3(0, r.x - p.x, p.x - (r.x + r.width));
    let dy = max3(0, r.y - p.y, p.y - (r.y + r.height));
    dx * dx + dy * dy
}

/// The tiling container of `s` nearest to `p` by its last laid-out place;
/// of equally near ones, the last.
pub open spec fn nearest_tiling(v: TreeView, s: Seq<usize>, p: Point) -> Option<usize>
    decreases s.len(),
{
    if s.len() == 0 {
        None
    } else {
        let a = nearest_tiling(v, s.drop_last(), p);
        let c = s.last();
        if !is_tiling(v.data[c as int]) {
            a
        } else {
            match a {
                None => Some(c),
                Some(x) => if dist2(v.data[x as int].rect, p) < dist2(v.data[c as int].rect, p) {
                    Some(x)
                } else {
                    Some(c)
                },
            }
        }
    }
}

fn max3_exec(a: i64, b: i64, c: i64) -> (r: i64)
    ensures
        r == max3(a as int, b as int, c as int),
{
    if a >= b && a >= c {
        a
    } else if b >= c {
        b
    } else {
        c
    }
}

/// See [`dist2`].
pub fn distance_squared(r: &Rect, p: &Point) -> (d: i128)
    ensures
        d == dist2(*r, *p),
{
    let dx = max3_exec(0, r.x as i64 - p.x as i64, p.x as i64 - (r.x as i64 + r.width as i64));
    let dy = max3_exec(0, r.y as i64 - p.y as i64, p.y as i64 - (r.y as i64 + r.height as i64));
    let dx = dx as i128;
    let dy = dy as i128;
    assert(0 <= dx * dx <= 0x10_0000_0000_0000_0000) by (nonlinear_arith)
        requires
            0 <= dx <= 0x3_0000_0000,
    ;
    assert(0 <= dy * dy <= 0x10_0000_0000_0000_0000) by (nonlinear_arith)
        requires
            0 <= dy <= 0x3_0000_0000,
    ;
    dx * dx + dy * dy
}

impl WmState {
    /// Number of ancestors of `c`.
    pub fn depth(&self, c: usize) -> (r: usize)
        requires
            self.wf(),
            c < self.len(),
        ensures
            r == depth_of(self.tv(), c),
    {
        let ghost t = self.lv();
        let mut cur = c;
        let mut fuel: usize = self.links.len();
        let mut d: usize = 0;
        while fuel > 0
            invariant
                self.wf(),
                t == self.lv(),
                cur < self.len(),
                fuel <= self.len(),
                d + fuel <= self.len(),
                d + depth(t, cur, fuel as nat) == depth(t, c, t.len()),
            decreases fuel,
        {
            match self.links[cur].parent {
                None => {
                    return d;
                },
                Some(p) => {
                    proof {
                        lemma_ids_in_range(*self, cur);
                    }
                    cur = p;
                    fuel = fuel - 1;
                    d = d + 1;
                },
            }
        }
        d
    }

    /// See [`drop_target`].
    pub fn drop_target(&self, ws: usize, p: &Point) -> (r: usize)
        requires
            self.wf(),
            ws < self.len(),
        ensures
            r == drop_target(self.tv(), ws, *p),
            r < self.len(),
            r == ws || (self.kind_of(r) == ContainerKind::Split),
    {
        let ghost v = self.tv();
        let ghost pred = |c: usize| v.kind_of(c) == ContainerKind::Split && contains_point(
            v.data[c as int].rect,
            *p,
        );
        let all = self.descendants(ws);
        let mut best = ws;
        let mut best_depth = self.depth(ws);
        let ghost mut seen: Seq<usize> = Seq::empty();
        let mut i: usize = 0;
        assert(all@.take(0) =~= Seq::<usize>::empty());
        while i < all.len()
            invariant
                self.wf(),
                v == self.tv(),
                ws < self.len(),
                pred == (|c: usize| v.kind_of(c) == ContainerKind::Split && contains_point(
                    v.data[c as int].rect,
                    *p,
                )),
                all@ == descendants(v.links, ws),
                forall|k: int| 0 <= k < all@.len() ==> #[trigger] all@[k] < self.len(),
                i <= all@.len(),
                seen == all@.take(i as int).filter(pred),
                best == deepest(v, seen, ws),
                best < self.len(),
                best == ws || self.kind_of(best) == ContainerKind::Split,
                best_depth == depth_of(v, best),
            decreases all@.len() - i,
        {
            let c = all[i];
            assert(all@.take(i + 1) =~= all@.take(i as int).push(c));
            proof {
                all@.take(i as int).lemma_filter_push(c, pred);
            }
            let r = &self.data[c].rect;
            let hit = match self.data[c].kind {
                ContainerKind::Split => r.x as i64 <= p.x as i64 && p.x as i64 <= r.x as i64
                    + r.width as i64 && r.y as i64 <= p.y as i64 && p.y as i64 <= r.y as i64
                    + r.height as i64,
                _ => false,
            };
            if hit {
                let d = self.depth(c);
                proof {
                    let s2 = seen.push(c);
                    assert(s2.drop_last() =~= seen);
                    seen = s2;
                }
                if d > best_depth {
                    best = c;
                    best_depth = d;
                }
            }
            i = i + 1;
        }
        assert(all@.take(i as int) =~= all@);
        best
    }

    /// The tiling child of `t` nearest to `p`; see [`nearest_tiling`].
    pub fn nearest_tiling_child(&self, t: usize, p: &Point) -> (r: Option<usize>)
        requires
            self.wf(),
            t < self.len(),
        ensures
            r == nearest_tiling(self.tv(), self.children_of(t), *p),
            r matches Some(c) ==> self.children_of(t).contains(c) && c < self.len() && is_tiling(
                self.data@[c as int],
            ),
    {
        let ghost v = self.tv();
        let ghost s = self.children_of(t);
        proof {
            lemma_ids_in_range(*self, t);
        }
        let mut best: Option<usize> = None;
        let mut best_d: i128 = 0;
        let n = self.links[t].children.len();
        let mut i: usize = 0;
        while i < n
            invariant
                self.wf(),
                v == self.tv(),
                t < self.len(),
                s == self.children_of(t),
                n == s.len(),
                forall|k: int| 0 <= k < s.len() ==> #[trigger] s[k] < self.len(),
                i <= n,
                best == nearest_tiling(v, s.take(i as int), *p),
                best matches Some(c) ==> s.contains(c) && c < self.len() && is_tiling(self.data@[c as int])
                    && best_d == dist2(self.data@[c as int].rect, *p),
            decreases n - i,
        {
            let c = self.links[t].children[i];
            assert(s.take(i + 1).drop_last() =~= s.take(i as int));
            assert(s.take(i + 1).last() == c);
            if self.is_tiling_container(c) {
                let d = distance_squared(&self.data[c].rect, p);
                match best {
                    None => {
                        best = Some(c);
                        best_d = d;
                    },
                    Some(x) => {
                        if !(best_d < d) {
                            best = Some(c);
                            best_d = d;
                        }
                    },
                }
            }
            i = i + 1;
        }
        assert(s.take(n as int) =~= s);
        best
    }
}

/// `v2` is `v` with one more container: a parentless container of kind
/// `kind` with the next id, filling its parent.
pub open spec fn fresh_container(v: TreeView, v2: TreeView, kind: ContainerKind) -> bool {
    &&& v2.links == v.links.push(LinksView { parent: None, children: Seq::empty(), focus: Seq::empty() })
    &&& v2.data.len() == v.data.len() + 1
    &&& v2.data.take(v.data.len() as int) == v.data
    &&& v2.root == v.root
    &&& v2.data[v.len() as int].kind == kind
    &&& v2.data[v.len() as int].tiling_size == FULL_TILING_SIZE
}

/// `v` with window `w` tiling.
pub open spec fn tiled(v: TreeView, w: usize) -> TreeView {
    v.with_data(v.data.update(w as int, with_window_state(v.data[w as int], WindowState::Tiling)))
}

/// `v` with window `w` moved last into stack `s` and focused there.
pub open spec fn stacked(v: TreeView, w: usize, s: usize) -> TreeView {
    let v1 = move_spec(v, w, s, v.children_of(s).len() as int);
    v1.with_links(focused_links(v1.links, w))
}

/// Where a window dropped beside `c` goes among `c`'s siblings.
pub open spec fn beside_index(v: TreeView, t: usize, c: usize, z: DropZone) -> int {
    if z == DropZone::Left || z == DropZone::Top {
        pos(v.children_of(t), c)
    } else {
        pos(v.children_of(t), c) + 1
    }
}

/// The stack window `w` joins when dropped on the center of `c`: `c`
/// itself if it is a stack, else a new stack (the next id) wrapping `c`.
pub open spec fn stack_for(v: TreeView, c: usize) -> usize {
    if v.kind_of(c) == ContainerKind::Stack {
        c
    } else {
        v.len() as usize
    }
}

/// `new` is the tree `v` after window `w` is dropped in zone `z` of `c`, a
/// tiling child of `t`. The window tiles from then on. On the center it
/// joins `c`'s stack (see [`stack_for`]); on an edge along `t`'s tiling
/// direction it goes beside `c` in `t`; on another edge `c` is wrapped in
/// a new split (the next id) of the edge's direction, and the window goes
/// before or after `c` in it; should that split then be `t`'s only child,
/// it is flattened into `t`, which takes the split's direction and
/// children (see [`flatten_lone`]).
pub open spec fn dropped_on(v: TreeView, new: TreeView, w: usize, t: usize, c: usize, z: DropZone) -> bool {
    let v1 = tiled(v, w);
    let n = v1.len() as usize;
    if z == DropZone::Center {
        if v.kind_of(c) == ContainerKind::Stack {
            new == stacked(v1, w, c)
        } else {
            exists|v2: TreeView|
                #[trigger] fresh_container(v1, v2, ContainerKind::Stack) && new == stacked(
                    wrap_spec(v2, n, t, c),
                    w,
                    n,
                )
        }
    } else if v.data[t as int].tiling_direction == zone_direction(z) {
        new == move_spec(v1, w, t, beside_index(v1, t, c, z))
    } else {
        exists|v2: TreeView|
            #[trigger] fresh_container(v1, v2, ContainerKind::Split) && v2.data[n as int].tiling_direction
                == zone_direction(z) && new == flatten_lone(
                move_spec(
                    wrap_spec(v2, n, t, c),
                    w,
                    n,
                    if z == DropZone::Left || z == DropZone::Top {
                        0
                    } else {
                        1
                    },
                ),
                t,
            )
    }
}

/// Adds a parentless container with the data `d` and returns its id.
fn add_fresh(state: &mut WmState, d: ContainerData) -> (id: usize)
    requires
        old(state).wf(),
        old(state).len() < usize::MAX,
        d.tiling_size == FULL_TILING_SIZE,
    ensures
        final(state).wf(),
        id == old(state).len(),
        fresh_container(old(state).tv(), final(state).tv(), d.kind),
        final(state).data@[id as int] == d,
        final(state).pending_sync == old(state).pending_sync,
        final(state).persistence == old(state).persistence,
{
    let id = state.add_container(d);
    assert(state.data@.take(old(state).data@.len() as int) =~= old(state).data@);
    id
}

/// Moves window `moved` last into the stack `nearest_container` (or into
/// a new stack wrapping it) and focuses it there; see [`stack_for`] and
/// [`stacked`]. Queues the stack for a redraw and a focus change.
pub fn stack_window(
    moved_window: usize,
    nearest_container: usize,
    target_parent: usize,
    state: &mut WmState,
) -> (r: Result<(), WmError>)
    requires
        old(state).wf(),
        old(state).len() < usize::MAX,
        moved_window < old(state).len(),
        old(state).kind_of(moved_window) == ContainerKind::Window,
        nearest_container < old(state).len(),
        nearest_container != moved_window,
        is_tiling(old(state).data@[nearest_container as int]),
        old(state).parent_of(nearest_container) == Some(target_parent),
    ensures
        final(state).wf(),
        final(state).persistence == old(state).persistence,
        r is Ok,
        final(state).len() >= old(state).len(),
        ({
            let v = old(state).tv();
            let s = stack_for(v, nearest_container);
            &&& old(state).kind_of(nearest_container) == ContainerKind::Stack ==> final(state).tv()
                == stacked(v, moved_window, s)
            &&& old(state).kind_of(nearest_container) != ContainerKind::Stack ==> exists|v2: TreeView|
                #[trigger] fresh_container(v, v2, ContainerKind::Stack) && final(state).tv() == stacked(
                    wrap_spec(v2, s, target_parent, nearest_container),
                    moved_window,
                    s,
                )
            &&& final(state).pending_sync.containers_to_redraw@ == queued(
                old(state).pending_sync.containers_to_redraw@,
                s,
            )
            &&& final(state).pending_sync.workspaces_to_reorder == old(state).pending_sync.workspaces_to_reorder
            &&& final(state).pending_sync.focus_change
            &&& final(state).pending_sync.cursor_jump == old(state).pending_sync.cursor_jump
        }),
        // The window ends up in the stack, as its selected child.
        final(state).parent_of(moved_window) == Some(stack_for(old(state).tv(), nearest_container)),
        selected_child(final(state).tv(), stack_for(old(state).tv(), nearest_container)) == Some(
            moved_window,
        ),
        final(state).kind_of(stack_for(old(state).tv(), nearest_container)) == ContainerKind::Stack,
{
    let ghost v = state.tv();
    proof {
        lemma_ids_in_range(*state, nearest_container);
        assert(node_wf(v.links, nearest_container as int));
    }
    let stack = if state.data[nearest_container].kind == ContainerKind::Stack {
        nearest_container
    } else {
        let s = add_fresh(state, ContainerData::stack());
        let ghost v2 = state.tv();
        assert(state.parent_of(nearest_container) == Some(target_parent));
        assert(state.data@[nearest_container as int] == v.data[nearest_container as int]);
        let _ = wrap_in_stack_container(s, target_parent, nearest_container, state);
        assert(state.tv() == wrap_spec(v2, s, target_parent, nearest_container));
        assert(state.kind_of(s) == ContainerKind::Stack);
        s
    };
    assert(state.kind_of(stack) == ContainerKind::Stack);
    let ghost before_move = state.tv();
    let n = state.child_count(stack);
    let _ = move_container_within_tree(moved_window, stack, n, state);
    assert(state.kind_of(stack) == ContainerKind::Stack);
    proof {
        crate::laws_container::lemma_focus_selects(state.lv(), moved_window);
    }
    state.set_focused_descendant(moved_window);
    state.pending_sync.queue_container_to_redraw(stack);
    state.pending_sync.focus_change = true;
    assert(state.tv() == stacked(before_move, moved_window, stack));
    Ok(())
}

/// Window `w` dropped on edge `z` of `c`, a tiling child of `t`, across
/// `t`'s direction: `c` is wrapped in a new split (the next id) of the
/// edge's direction, `w` goes before or after `c` in it, and the split is
/// flattened into `t` should it be `t`'s only child.
fn split_beside(w: usize, t: usize, c: usize, z: DropZone, state: &mut WmState)
    requires
        old(state).wf(),
        old(state).len() < usize::MAX,
        w < old(state).len(),
        old(state).kind_of(w) == ContainerKind::Window,
        c < old(state).len(),
        c != w,
        is_tiling(old(state).data@[c as int]),
        old(state).parent_of(c) == Some(t),
        z != DropZone::Center,
    ensures
        final(state).wf(),
        final(state).persistence == old(state).persistence,
        final(state).pending_sync == old(state).pending_sync,
        final(state).len() >= old(state).len(),
        ({
            let v1 = old(state).tv();
            let n = v1.len() as usize;
            exists|v2: TreeView|
                #[trigger] fresh_container(v1, v2, ContainerKind::Split) && v2.data[n as int].tiling_direction
                    == zone_direction(z) && final(state).tv() == flatten_lone(
                    move_spec(
                        wrap_spec(v2, n, t, c),
                        w,
                        n,
                        if z == DropZone::Left || z == DropZone::Top {
                            0
                        } else {
                            1
                        },
                    ),
                    t,
                )
        }),
        final(state).parent_of(w) matches Some(p) && (p == t || final(state).kind_of(p) == ContainerKind::Split),
{
    let ghost v1 = state.tv();
    let target_direction = z.tiling_direction();
    let is_before = z.is_before();
    proof {
        lemma_ids_in_range(*state, c);
        assert(node_wf(v1.links, c as int));
    }
    let split = add_fresh(state, ContainerData::split(target_direction));
    let ghost v2 = state.tv();
    assert(state.data@[c as int] == v1.data[c as int]);
    assert(state.data@[w as int] == v1.data[w as int]);
    let _ = wrap_in_split_container(split, t, c, state);
    assert(state.kind_of(w) == ContainerKind::Window);
    let target_index: usize = if is_before {
        0
    } else {
        1
    };
    assert(state.children_of(split).len() == 1);
    assert(state.kind_of(split) == ContainerKind::Split);
    let _ = move_container_within_tree(w, split, target_index, state);
    assert(state.kind_of(split) == ContainerKind::Split);
    let ghost moved_in = state.tv();
    assert(moved_in.parent_of(w) == Some(split));
    assert(state.kind_of(w) == ContainerKind::Window);
    flatten_lone_split(t, state);
    assert(fresh_container(v1, v2, ContainerKind::Split));
    proof {
        lemma_flatten_lone_parent(moved_in, t, w);
    }
}

/// `(new, new_sync)` is `(v, sync)` after window `w` is dropped at `p` over
/// workspace `ws`; see [`drop_into_tiling_tree`].
pub open spec fn drops_into(
    v: TreeView,
    sync: PendingSync,
    new: TreeView,
    new_sync: PendingSync,
    w: usize,
    ws: usize,
    p: Point,
) -> bool {
    let t = drop_target(v, ws, p);
    match nearest_tiling(v, v.children_of(t), p) {
        None => {
            &&& new == tiled(move_spec(v, w, t, 0), w)
            &&& new_sync == sync
        },
        Some(c) => {
            let z = zone_of(p, v.data[c as int].rect);
            let redraw = if z == DropZone::Center {
                queued(sync.containers_to_redraw@, stack_for(tiled(v, w), c))
            } else {
                sync.containers_to_redraw@
            };
            &&& dropped_on(v, new, w, t, c, z)
            &&& new_sync.containers_to_redraw@ == queued(redraw, t)
            &&& new_sync.workspaces_to_reorder == sync.workspaces_to_reorder
            &&& new_sync.focus_change == (z == DropZone::Center || sync.focus_change)
            &&& new_sync.cursor_jump == sync.cursor_jump
        },
    }
}

/// Drops the non-tiling window `moved_window` at `mouse_pos` over the
/// workspace `mouse_workspace`, making it tile. It goes into the deepest
/// split there under the point, else the workspace (see [`drop_target`]).
/// Where that container has no tiling child the window becomes its first
/// child; otherwise it lands by the tiling child nearest to the point (see
/// [`nearest_tiling`]) as [`dropped_on`] says for the zone it was dropped
/// in, and the target is queued for a redraw. Returns the window. Places
/// are read from the containers' `rect` fields, which the caller keeps at
/// the last layout.
pub fn drop_into_tiling_tree(
    moved_window: usize,
    mouse_workspace: usize,
    mouse_pos: &Point,
    state: &mut WmState,
) -> (r: Result<usize, WmError>)
    requires
        old(state).wf(),
        old(state).len() < usize::MAX,
        moved_window < old(state).len(),
        old(state).kind_of(moved_window) == ContainerKind::Window,
        !is_tiling(old(state).data@[moved_window as int]),
        mouse_workspace < old(state).len(),
        old(state).kind_of(mouse_workspace) == ContainerKind::Workspace,
    ensures
        final(state).wf(),
        final(state).persistence == old(state).persistence,
        r == Ok::<usize, WmError>(moved_window),
        final(state).len() >= old(state).len(),
        // A center drop puts the window in a stack, selected; an edge drop
        // puts it in the target or in a split.
        ({
            let v = old(state).tv();
            let t = drop_target(v, mouse_workspace, *mouse_pos);
            nearest_tiling(v, v.children_of(t), *mouse_pos) matches Some(c) ==> if zone_of(
                *mouse_pos,
                v.data[c as int].rect,
            ) == DropZone::Center {
                let s = stack_for(v, c);
                &&& final(state).parent_of(moved_window) == Some(s)
                &&& final(state).kind_of(s) == ContainerKind::Stack
                &&& selected_child(final(state).tv(), s) == Some(moved_window)
            } else {
                final(state).parent_of(moved_window) matches Some(p) && (p == t || final(state).kind_of(p)
                    == ContainerKind::Split)
            }
        }),
        drops_into(
            old(state).tv(),
            old(state).pending_sync,
            final(state).tv(),
            final(state).pending_sync,
            moved_window,
            mouse_workspace,
            *mouse_pos,
        ),
{
    let ghost v = state.tv();
    let target_parent = state.drop_target(mouse_workspace, mouse_pos);
    let nearest = match state.nearest_tiling_child(target_parent, mouse_pos) {
        None => {
            let _ = move_container_within_tree(moved_window, target_parent, 0, state);
            state.set_window_state(moved_window, WindowState::Tiling);
            return Ok(moved_window);
        },
        Some(c) => c,
    };
    proof {
        lemma_ids_in_range(*state, target_parent);
        assert(node_wf(v.links, target_parent as int));
        let j = choose|j: int| 0 <= j < v.children_of(target_parent).len() && v.children_of(target_parent)[j] == nearest;
    }
    let zone = drop_zone(mouse_pos, &state.data[nearest].rect);
    let tiling_direction = state.data[target_parent].tiling_direction;
    state.set_window_state(moved_window, WindowState::Tiling);
    let ghost v1 = state.tv();
    assert(v1 == tiled(v, moved_window));
    assert(stack_for(v1, nearest) == stack_for(v, nearest));
    if zone == DropZone::Center {
        let _ = stack_window(moved_window, nearest, target_parent, state);
    } else {
        let target_direction = zone.tiling_direction();
        let is_before = zone.is_before();
        if tiling_direction == target_direction {
            assert(state.parent_of(nearest) == Some(target_parent));
            assert(node_wf(state.lv(), target_parent as int));
            let index = state.index(nearest);
            let count = state.child_count(target_parent);
            assert(index < count);
            let target_index = if is_before {
                index
            } else {
                index + 1
            };
            let _ = move_container_within_tree(moved_window, target_parent, target_index, state);
        } else {
            split_beside(moved_window, target_parent, nearest, zone, state);
        }
    }
    state.pending_sync.queue_container_to_redraw(target_parent);
    Ok(moved_window)
}

} // verus!
