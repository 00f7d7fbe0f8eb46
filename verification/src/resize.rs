//! Resizing a tiling window to a length in pixels: the share of its
//! parent that the window (or the ancestor that takes the resize) gets,
//! with the difference taken evenly from its tiling siblings.

use vstd::prelude::*;

use crate::model::{ContainerData, ContainerKind, Rect, TilingDirection, FULL_TILING_SIZE};
use crate::query::lemma_ids_in_range;
use crate::state::{is_tiling, with_tiling_size, TreeView, WmState};
use crate::tree::node_wf;

verus! {

/// Smallest tiling size that a resize leaves a container with, in
/// millionths of its parent.
pub const MIN_TILING_SIZE: u32 = 10_000;

/// Whether `x` is a container other than `c` that takes part in tiling.
pub open spec fn other_tiling(v: TreeView, c: usize) -> spec_fn(usize) -> bool {
    |x: usize| x != c && is_tiling(v.data[x as int])
}

/// The other children of `c`'s parent that take part in tiling, in order.
pub open spec fn tiling_siblings(v: TreeView, c: usize) -> Seq<usize> {
    match v.parent_of(c) {
        None => Seq::empty(),
        Some(p) => v.children_of(p).filter(other_tiling(v, c)),
    }
}

/// Whether a resize along `dir` goes to `c`: `c` takes part in tiling,
/// has a tiling sibling, and its parent is a workspace or split that lays
/// its children out along `dir`.
pub open spec fn takes_resize(v: TreeView, c: usize, dir: TilingDirection) -> bool {
    &&& is_tiling(v.data[c as int])
    &&& tiling_siblings(v, c).len() > 0
    &&& match v.parent_of(c) {
        None => false,
        Some(p) => (v.kind_of(p) == ContainerKind::Workspace || v.kind_of(p) == ContainerKind::Split)
            && v.data[p as int].tiling_direction == dir,
    }
}

/// The first of `c` and its ancestors, within `fuel` steps up, that takes
/// a resize along `dir`.
pub open spec fn resize_target_up(v: TreeView, c: usize, dir: TilingDirection, fuel: nat) -> Option<usize>
    decreases fuel,
{
    if takes_resize(v, c, dir) {
        Some(c)
    } else if fuel == 0 {
        None
    } else {
        match v.parent_of(c) {
            None => None,
            Some(p) => resize_target_up(v, p, dir, (fuel - 1) as nat),
        }
    }
}

/// The container that a resize of `c` along `dir` changes: `c` or its
/// closest ancestor that takes it.
pub open spec fn resize_target(v: TreeView, c: usize, dir: TilingDirection) -> Option<usize> {
    resize_target_up(v, c, dir, v.len())
}

/// Length of `r` along `dir`.
pub open spec fn length_along(r: Rect, dir: TilingDirection) -> int {
    match dir {
        TilingDirection::Horizontal => r.width as int,
        TilingDirection::Vertical => r.height as int,
    }
}

/// The tiling size, in millionths, of `length` pixels out of a parent
/// `parent_length` pixels long (a negative length counts as none),
/// capped so that each of `n` siblings keeps the minimum, and at least the
/// minimum.
pub open spec fn target_size(length: int, parent_length: int, n: int) -> int {
    let t = (if length < 0 {
        0
    } else {
        length
    }) * FULL_TILING_SIZE as int / parent_length;
    let hi = FULL_TILING_SIZE as int - n * MIN_TILING_SIZE as int;
    let capped = if t > hi {
        hi
    } else {
        t
    };
    if capped < MIN_TILING_SIZE as int {
        MIN_TILING_SIZE as int
    } else {
        capped
    }
}

/// `a / n` rounded toward zero.
pub open spec fn trunc_div(a: int, n: int) -> int {
    if a >= 0 {
        a / n
    } else {
        -((-a) / n)
    }
}

/// `a` held within the range of `u32`.
pub open spec fn saturate_u32(a: int) -> u32 {
    if a < 0 {
        0
    } else if a > u32::MAX {
        u32::MAX
    } else {
        a as u32
    }
}

/// The data after `c` takes the tiling size `size` and each of its tiling
/// siblings gives up an even share (rounded toward zero) of what `c` gained.
pub open spec fn resized(v: TreeView, c: usize, size: u32) -> Seq<ContainerData> {
    let sibs = tiling_siblings(v, c);
    let share = trunc_div(size - v.data[c as int].tiling_size, sibs.len() as int);
    Seq::new(
        v.data.len(),
        |i: int|
            if i == c {
                with_tiling_size(v.data[i], size)
            } else if sibs.contains(i as usize) {
                with_tiling_size(v.data[i], saturate_u32(v.data[i].tiling_size - share))
            } else {
                v.data[i]
            },
    )
}

/// The tree after `w` is resized to `length` pixels along `dir`: the
/// container that takes the resize gets the share of its parent's laid-out
/// length that `length` is. Nothing changes where no container takes the
/// resize or the parent has no length along `dir`.
pub open spec fn resize_along(v: TreeView, w: usize, dir: TilingDirection, length: int) -> TreeView {
    match resize_target(v, w, dir) {
        None => v,
        Some(c) => {
            let plen = length_along(v.data[v.parent_of(c).unwrap() as int].rect, dir);
            if plen <= 0 {
                v
            } else {
                v.with_data(
                    resized(v, c, target_size(length, plen, tiling_siblings(v, c).len() as int) as u32),
                )
            }
        },
    }
}

/// The ids a filter keeps from a list without repeats are without repeats.
pub proof fn lemma_filter_no_duplicates(s: Seq<usize>, pred: spec_fn(usize) -> bool)
    requires
        s.no_duplicates(),
    ensures
        s.filter(pred).no_duplicates(),
    decreases s.len(),
{
    if s.len() > 0 {
        let d = s.drop_last();
        let x = s.last();
        assert(d.no_duplicates());
        lemma_filter_no_duplicates(d, pred);
        assert(d.push(x) =~= s);
        d.lemma_filter_push(x, pred);
        if pred(x) {
            assert(!d.filter(pred).contains(x)) by {
                if d.filter(pred).contains(x) {
                    d.lemma_filter_contains_rev(pred, x);
                    let k = choose|k: int| 0 <= k < d.len() && d[k] == x;
                    assert(s[k] == s[s.len() - 1]);
                }
            }
        }
    }
}

/// `a / n` rounded toward zero, for a divisor `n` of any size.
fn trunc_div_exec(a: i64, n: usize) -> (r: i64)
    requires
        n > 0,
        -0x1_0000_0000 <= a <= 0x1_0000_0000,
    ensures
        r == trunc_div(a as int, n as int),
        -0x1_0000_0000 <= r <= 0x1_0000_0000,
{
    if n as u64 > 0x1_0000_0000u64 {
        // The quotient rounds to zero.
        assert(trunc_div(a as int, n as int) == 0) by {
            if a >= 0 {
                assert(a as int / n as int == 0) by (nonlinear_arith)
                    requires
                        0 <= a < n,
                ;
            } else {
                assert((-a) as int / n as int == 0) by (nonlinear_arith)
                    requires
                        0 <= -a < n,
                ;
            }
        }
        return 0;
    }
    let d = n as i64;
    if a >= 0 {
        assert(a / d <= a) by (nonlinear_arith)
            requires
                a >= 0,
                d >= 1,
        ;
        a / d
    } else {
        let b: i64 = -a;
        assert(b / d <= b) by (nonlinear_arith)
            requires
                b >= 0,
                d >= 1,
        ;
        -((-a) / d)
    }
}

fn saturate_exec(a: i64) -> (r: u32)
    ensures
        r == saturate_u32(a as int),
{
    if a < 0 {
        0
    } else if a > u32::MAX as i64 {
        u32::MAX
    } else {
        a as u32
    }
}

/// See [`target_size`].
pub fn target_size_exec(length: i32, parent_length: i32, n: usize) -> (r: u32)
    requires
        parent_length > 0,
    ensures
        r as int == target_size(length as int, parent_length as int, n as int),
        MIN_TILING_SIZE <= r <= FULL_TILING_SIZE,
{
    let len: i64 = if length < 0 {
        0
    } else {
        length as i64
    };
    let t: i64 = len * (FULL_TILING_SIZE as i64) / (parent_length as i64);
    let n64: i64 = if n > 100 {
        100
    } else {
        n as i64
    };
    // Past 100 siblings the cap is below the minimum either way.
    let hi: i64 = FULL_TILING_SIZE as i64 - n64 * (MIN_TILING_SIZE as i64);
    assert(hi < MIN_TILING_SIZE as int <==> (FULL_TILING_SIZE as int - n as int * MIN_TILING_SIZE as int)
        < MIN_TILING_SIZE as int) by (nonlinear_arith)
        requires
            n64 as int == (if n > 100 {
                100int
            } else {
                n as int
            }),
            hi as int == FULL_TILING_SIZE as int - n64 * MIN_TILING_SIZE as int,
    ;
    let capped: i64 = if t > hi {
        hi
    } else {
        t
    };
    if capped < MIN_TILING_SIZE as i64 {
        MIN_TILING_SIZE
    } else {
        capped as u32
    }
}

impl WmState {
    /// The tiling siblings of `c`; see [`tiling_siblings`].
    pub fn tiling_siblings(&self, c: usize) -> (r: Vec<usize>)
        requires
            self.wf(),
            c < self.len(),
        ensures
            r@ == tiling_siblings(self.tv(), c),
            r@.no_duplicates(),
            forall|k: int| 0 <= k < r@.len() ==> #[trigger] r@[k] < self.len() && r@[k] != c,
    {
        let p = match self.links[c].parent {
            None => {
                return Vec::new();
            },
            Some(p) => p,
        };
        proof {
            lemma_ids_in_range(*self, c);
            lemma_ids_in_range(*self, p);
            assert(node_wf(self.lv(), p as int));
        }
        let ghost v = self.tv();
        let ghost ids = v.children_of(p);
        let ghost pred = other_tiling(v, c);
        proof {
            lemma_filter_no_duplicates(ids, pred);
        }
        let mut r: Vec<usize> = Vec::new();
        let mut i: usize = 0;
        assert(ids.take(0) =~= Seq::<usize>::empty());
        while i < self.links[p].children.len()
            invariant
                self.wf(),
                v == self.tv(),
                p < self.len(),
                ids == self.children_of(p),
                ids == self.links@[p as int].children@,
                forall|k: int| 0 <= k < ids.len() ==> #[trigger] ids[k] < self.len(),
                i <= ids.len(),
                pred == other_tiling(v, c),
                r@ == ids.take(i as int).filter(pred),
                forall|k: int| 0 <= k < r@.len() ==> #[trigger] r@[k] < self.len() && r@[k] != c,
            decreases ids.len() - i,
        {
            let x = self.links[p].children[i];
            assert(ids.take(i + 1) =~= ids.take(i as int).push(x));
            proof {
                ids.take(i as int).lemma_filter_push(x, pred);
            }
            if x != c && self.is_tiling_container(x) {
                r.push(x);
            }
            i = i + 1;
        }
        assert(ids.take(i as int) =~= ids);
        r
    }

    /// Whether a resize along `dir` goes to `c`; see [`takes_resize`].
    fn takes_resize(&self, c: usize, dir: TilingDirection) -> (r: bool)
        requires
            self.wf(),
            c < self.len(),
        ensures
            r == takes_resize(self.tv(), c, dir),
    {
        if !self.is_tiling_container(c) {
            return false;
        }
        let p = match self.links[c].parent {
            None => {
                return false;
            },
            Some(p) => p,
        };
        proof {
            lemma_ids_in_range(*self, c);
        }
        let along = match (self.data[p].tiling_direction, dir) {
            (TilingDirection::Horizontal, TilingDirection::Horizontal) => true,
            (TilingDirection::Vertical, TilingDirection::Vertical) => true,
            _ => false,
        };
        let direction_parent = match self.data[p].kind {
            ContainerKind::Workspace => true,
            ContainerKind::Split => true,
            _ => false,
        };
        if !along || !direction_parent {
            return false;
        }
        let sibs = self.tiling_siblings(c);
        sibs.len() > 0
    }

    /// The container that a resize of `c` along `dir` changes; see
    /// [`resize_target`].
    pub fn resize_target(&self, c: usize, dir: TilingDirection) -> (r: Option<usize>)
        requires
            self.wf(),
            c < self.len(),
        ensures
            r == resize_target(self.tv(), c, dir),
            r matches Some(t) ==> t < self.len() && takes_resize(self.tv(), t, dir),
    {
        let mut cur = c;
        let mut fuel: usize = self.links.len();
        while !self.takes_resize(cur, dir)
            invariant
                self.wf(),
                cur < self.len(),
                fuel <= self.len(),
                resize_target_up(self.tv(), cur, dir, fuel as nat) == resize_target(self.tv(), c, dir),
            decreases fuel,
        {
            if fuel == 0 {
                return None;
            }
            match self.links[cur].parent {
                None => {
                    return None;
                },
                Some(p) => {
                    proof {
                        lemma_ids_in_range(*self, cur);
                    }
                    cur = p;
                    fuel = fuel - 1;
                },
            }
        }
        Some(cur)
    }

    /// Resizes `w` to `length` pixels along `dir`; see [`resize_along`].
    pub fn resize_along(&mut self, w: usize, dir: TilingDirection, length: i32)
        requires
            old(self).wf(),
            w < old(self).len(),
        ensures
            final(self).wf(),
            final(self).tv() == resize_along(old(self).tv(), w, dir, length as int),
            final(self).pending_sync == old(self).pending_sync,
            final(self).persistence == old(self).persistence,
            final(self).len() == old(self).len(),
    {
        let ghost v = self.tv();
        let c = match self.resize_target(w, dir) {
            None => {
                return;
            },
            Some(c) => c,
        };
        let p = match self.links[c].parent {
            None => {
                return;
            },
            Some(p) => p,
        };
        proof {
            lemma_ids_in_range(*self, c);
        }
        let plen = match dir {
            TilingDirection::Horizontal => self.data[p].rect.width,
            TilingDirection::Vertical => self.data[p].rect.height,
        };
        if plen <= 0 {
            return;
        }
        let sibs = self.tiling_siblings(c);
        let size = target_size_exec(length, plen, sibs.len());
        let ghost share = trunc_div(size - v.data[c as int].tiling_size, sibs@.len() as int);
        let delta: i64 = size as i64 - self.data[c].tiling_size as i64;
        let share_exec = trunc_div_exec(delta, sibs.len());
        let ghost target = resized(v, c, size);
        self.set_tiling_size(c, size);
        let mut k: usize = 0;
        while k < sibs.len()
            invariant
                self.wf(),
                self.lv() == v.links,
                self.root == v.root,
                self.pending_sync == old(self).pending_sync,
                self.persistence == old(self).persistence,
                self.data@.len() == v.data.len(),
                v == old(self).tv(),
                c < v.len(),
                sibs@ == tiling_siblings(v, c),
                sibs@.no_duplicates(),
                forall|j: int| 0 <= j < sibs@.len() ==> #[trigger] sibs@[j] < v.len() && sibs@[j] != c,
                share_exec as int == share,
                share == trunc_div(size - v.data[c as int].tiling_size, sibs@.len() as int),
                -0x1_0000_0000 <= share_exec <= 0x1_0000_0000,
                target == resized(v, c, size),
                k <= sibs@.len(),
                forall|i: int|
                    0 <= i < v.data.len() ==> #[trigger] self.data@[i] == (if i == c || sibs@.take(
                        k as int,
                    ).contains(i as usize) {
                        target[i]
                    } else {
                        v.data[i]
                    }),
            decreases sibs@.len() - k,
        {
            let x = sibs[k];
            assert(!sibs@.take(k as int).contains(x)) by {
                if sibs@.take(k as int).contains(x) {
                    let j = choose|j: int| 0 <= j < k && sibs@.take(k as int)[j] == x;
                    assert(sibs@[j] == sibs@[k as int]);
                }
            }
            assert(sibs@.contains(x));
            assert(self.data@[x as int] == v.data[x as int]);
            let old_size = self.data[x].tiling_size;
            let new_size = saturate_exec(old_size as i64 - share_exec);
            assert(target[x as int] == with_tiling_size(v.data[x as int], new_size));
            self.set_tiling_size(x, new_size);
            let ghost tk = sibs@.take(k as int);
            let ghost tk1 = sibs@.take(k + 1);
            assert forall|i: int| 0 <= i < v.data.len() implies #[trigger] self.data@[i] == (if i == c
                || sibs@.take(k + 1).contains(i as usize) {
                target[i]
            } else {
                v.data[i]
            }) by {
                if tk1.contains(i as usize) && i != x {
                    let j = choose|j: int| 0 <= j < tk1.len() && tk1[j] == i as usize;
                    assert(tk[j] == i as usize);
                }
                if tk.contains(i as usize) {
                    let j = choose|j: int| 0 <= j < tk.len() && tk[j] == i as usize;
                    assert(tk1[j] == i as usize);
                }
                if i == x {
                    assert(tk1[k as int] == x);
                }
            }
            k = k + 1;
        }
        assert(sibs@.take(k as int) =~= sibs@);
        assert(self.data@ =~= target);
    }
}

} // verus!
