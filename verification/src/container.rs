//! Container commands: attaching and moving containers, wrapping a
//! container in a stack, collapsing stacks and switching stack tabs.

use vstd::prelude::*;

use crate::error::WmError;
use crate::model::{ContainerKind, FULL_TILING_SIZE};
use crate::query::{ancestor_of_kind, focused_links, lemma_child_in_focus, lemma_ids_in_range, selected_child};
use crate::state::{is_tiling, parent_kind_ok, queued, with_tiling_size, TreeView, WmState};
use crate::tree::{
    attach_spec, detach_spec, lemma_pos, lemma_set_focus_wf, node_wf, pos, replace_spec,
    set_children_spec, set_focus_spec, shift_to_index, tree_wf, LinksView,
};

verus! {

/// Direction in which to switch the selected tab of a stack.
#[derive(Clone, Copy, Debug, PartialEq, Eq, Structural)]
pub enum TabDirection {
    Next,
    Previous,
}

/// The focus order after switching tabs: `Next` sends the first entry to
/// the back, `Previous` brings the last entry to the front.
pub open spec fn rotate(s: Seq<usize>, direction: TabDirection) -> Seq<usize> {
    if s.len() == 0 {
        s
    } else {
        match direction {
            TabDirection::Next => s.drop_first().push(s[0]),
            TabDirection::Previous => seq![s.last()] + s.drop_last(),
        }
    }
}

/// The tree after `stack` takes `target`'s place in `parent` and `target`
/// becomes the stack's last child; the stack takes over `target`'s tiling
/// size and `target` fills the stack.
pub open spec fn wrap_spec(v: TreeView, stack: usize, parent: usize, target: usize) -> TreeView {
    let l1 = replace_spec(v.links, parent, target, stack);
    let l2 = attach_spec(l1, target, stack, l1[stack as int].children.len() as int);
    TreeView {
        links: l2,
        data: v.data.update(
            stack as int,
            with_tiling_size(v.data[stack as int], v.data[target as int].tiling_size),
        ).update(target as int, with_tiling_size(v.data[target as int], FULL_TILING_SIZE)),
        root: v.root,
    }
}

/// The tree after collapsing `stack`: without a parent nothing changes;
/// an empty stack leaves its parent; a stack with one child is replaced
/// by that child, which takes over the stack's tiling size if it tiles.
/// A stack with more children stays. (A lone child that is the stack's own
/// parent, which no tree holds, leaves it unchanged too.)
pub open spec fn collapse_spec(v: TreeView, stack: usize) -> TreeView {
    match v.parent_of(stack) {
        None => v,
        Some(p) => if v.children_of(stack).len() == 0 {
            v.with_links(detach_spec(v.links, stack))
        } else if v.children_of(stack).len() == 1 {
            let child = v.children_of(stack)[0];
            if child == p {
                v
            } else {
                let l1 = detach_spec(v.links, child);
                let l2 = replace_spec(l1, p, stack, child);
                TreeView {
                    links: l2,
                    data: if is_tiling(v.data[child as int]) {
                        v.data.update(
                            child as int,
                            with_tiling_size(v.data[child as int], v.data[stack as int].tiling_size),
                        )
                    } else {
                        v.data
                    },
                    root: v.root,
                }
            }
        } else {
            v
        },
    }
}

/// The tree after moving `c` to position `index` of `p`: within the same
/// parent `c` is shifted; otherwise it leaves its parent, joins `p` last
/// in focus order, and a stack it leaves behind is collapsed.
pub open spec fn move_spec(v: TreeView, c: usize, p: usize, index: int) -> TreeView {
    if v.parent_of(c) == Some(p) {
        v.with_links(set_children_spec(v.links, p, shift_to_index(v.children_of(p), index, c)))
    } else {
        let moved = v.with_links(attach_spec(detach_spec(v.links, c), c, p, index));
        match v.parent_of(c) {
            Some(op) => if v.kind_of(op) == ContainerKind::Stack {
                collapse_spec(moved, op)
            } else {
                moved
            },
            None => moved,
        }
    }
}

/// The tree after a lone split child of `p` is flattened into `p`: where
/// `p` is a workspace or split whose only child is a split `s` (and `p` is
/// not a child of `s`), `p` takes over `s`'s children, focus order and
/// tiling direction and `s` is left detached; otherwise the tree as it is.
pub open spec fn flatten_lone(v: TreeView, p: usize) -> TreeView {
    if (v.kind_of(p) == ContainerKind::Workspace || v.kind_of(p) == ContainerKind::Split)
        && v.children_of(p).len() == 1 && v.kind_of(v.children_of(p)[0]) == ContainerKind::Split
        && v.parent_of(p) != Some(v.children_of(p)[0]) {
        let s = v.children_of(p)[0];
        TreeView {
            links: crate::tree::flatten_spec(v.links, p, s),
            data: v.data.update(
                p as int,
                crate::model::ContainerData { tiling_direction: v.data[s as int].tiling_direction, ..v.data[p as int] },
            ),
            root: v.root,
        }
    } else {
        v
    }
}

/// Flattening a lone split into `p` hands the split's children to `p` and
/// leaves the parent of every other container but the split as it was.
pub proof fn lemma_flatten_lone_parent(v: TreeView, p: usize, x: usize)
    requires
        v.wf(),
        p < v.len(),
        x < v.len(),
        v.kind_of(x) != ContainerKind::Split,
    ensures
        v.parent_of(x) matches Some(q) ==> flatten_lone(v, p).parent_of(x) == if q == v.children_of(p)[0]
            && flatten_lone(v, p) != v {
            Some(p)
        } else {
            Some(q)
        },
{
    if (v.kind_of(p) == ContainerKind::Workspace || v.kind_of(p) == ContainerKind::Split)
        && v.children_of(p).len() == 1 && v.kind_of(v.children_of(p)[0]) == ContainerKind::Split
        && v.parent_of(p) != Some(v.children_of(p)[0]) {
        let s = v.children_of(p)[0];
        let r = crate::tree::flatten_spec(v.links, p, s);
        assert(node_wf(v.links, p as int));
        assert(s < v.len());
        assert(x != s);
        if let Some(q) = v.parent_of(x) {
            assert(node_wf(v.links, x as int));
            assert(node_wf(v.links, s as int));
            if q == s {
                assert(v.children_of(s).contains(x));
                assert(x != p);
                assert(r[x as int].parent == Some(p));
            } else {
                if v.children_of(s).contains(x) {
                    let k = choose|k: int| 0 <= k < v.children_of(s).len() && v.children_of(s)[k] == x;
                    assert(v.links[x as int].parent == Some(s));
                }
                assert(r[x as int].parent == Some(q));
            }
        }
    }
}

/// Flattens a lone split child of `p` into `p`; see [`flatten_lone`].
pub fn flatten_lone_split(p: usize, state: &mut WmState)
    requires
        old(state).wf(),
        p < old(state).len(),
    ensures
        final(state).wf(),
        final(state).tv() == flatten_lone(old(state).tv(), p),
        final(state).len() == old(state).len(),
        final(state).pending_sync == old(state).pending_sync,
        final(state).persistence == old(state).persistence,
        forall|j: usize| j < old(state).len() ==> #[trigger] final(state).kind_of(j) == old(state).kind_of(j),
{
    let kind = state.data[p].kind;
    if kind != ContainerKind::Workspace && kind != ContainerKind::Split {
        return;
    }
    if state.links[p].children.len() != 1 {
        return;
    }
    let s = state.links[p].children[0];
    proof {
        lemma_ids_in_range(*state, p);
    }
    if state.data[s].kind != ContainerKind::Split {
        return;
    }
    if state.links[p].parent == Some(s) {
        return;
    }
    assert(state.children_of(p) =~= seq![s]);
    state.flatten_split(p, s);
}

/// What a call that changes nothing leaves.
pub open spec fn unchanged(new: &WmState, old: &WmState) -> bool {
    &&& new.tv() == old.tv()
    &&& new.pending_sync == old.pending_sync
}

/// Attaches the parentless `child` to `parent` at `index` (or last).
pub fn attach_container(child: usize, parent: usize, index: Option<usize>, state: &mut WmState) -> (r:
    Result<(), WmError>)
    requires
        old(state).wf(),
        child < old(state).len(),
        parent < old(state).len(),
        child != parent,
        child != old(state).root,
        parent_kind_ok(old(state).kind_of(child), old(state).kind_of(parent)),
        index matches Some(i) ==> i <= old(state).children_of(parent).len(),
    ensures
        final(state).wf(),
        final(state).persistence == old(state).persistence,
        old(state).parent_of(child) is Some ==> r == Err::<(), WmError>(WmError::AlreadyAttached)
            && unchanged(final(state), old(state)),
        old(state).parent_of(child) is None ==> r is Ok && final(state).tv() == old(state).tv().with_links(
            attach_spec(
                old(state).lv(),
                child,
                parent,
                match index {
                    Some(i) => i as int,
                    None => old(state).children_of(parent).len() as int,
                },
            ),
        ) && final(state).pending_sync == old(state).pending_sync,
{
    if state.links[child].parent.is_some() {
        return Err(WmError::AlreadyAttached);
    }
    let at = match index {
        Some(i) => i,
        None => state.links[parent].children.len(),
    };
    state.attach(child, parent, at);
    Ok(())
}

/// Wraps `target_child`, a tiling child of `target_parent`, in the
/// parentless `stack_container`.
pub fn wrap_in_stack_container(
    stack_container: usize,
    target_parent: usize,
    target_child: usize,
    state: &mut WmState,
) -> (r: Result<(), WmError>)
    requires
        old(state).wf(),
        stack_container < old(state).len(),
        target_parent < old(state).len(),
        target_child < old(state).len(),
        old(state).kind_of(stack_container) == ContainerKind::Stack,
        is_tiling(old(state).data@[target_child as int]),
        old(state).parent_of(stack_container) is None,
        old(state).parent_of(target_child) == Some(target_parent),
        stack_container != target_parent,
        stack_container != old(state).root,
    ensures
        final(state).wf(),
        final(state).persistence == old(state).persistence,
        r is Ok,
        final(state).len() == old(state).len(),
        final(state).tv() == wrap_spec(old(state).tv(), stack_container, target_parent, target_child),
        final(state).pending_sync == old(state).pending_sync,
{
    wrap_in(stack_container, target_parent, target_child, state);
    Ok(())
}

/// Wraps `target_child`, a tiling child of `target_parent`, in the
/// parentless `split_container`.
pub fn wrap_in_split_container(
    split_container: usize,
    target_parent: usize,
    target_child: usize,
    state: &mut WmState,
) -> (r: Result<(), WmError>)
    requires
        old(state).wf(),
        split_container < old(state).len(),
        target_parent < old(state).len(),
        target_child < old(state).len(),
        old(state).kind_of(split_container) == ContainerKind::Split,
        is_tiling(old(state).data@[target_child as int]),
        old(state).parent_of(split_container) is None,
        old(state).parent_of(target_child) == Some(target_parent),
        split_container != target_parent,
        split_container != old(state).root,
    ensures
        final(state).wf(),
        final(state).persistence == old(state).persistence,
        r is Ok,
        final(state).len() == old(state).len(),
        final(state).tv() == wrap_spec(old(state).tv(), split_container, target_parent, target_child),
        final(state).pending_sync == old(state).pending_sync,
{
    wrap_in(split_container, target_parent, target_child, state);
    Ok(())
}

/// Puts the parentless split or stack `stack_container` in the place of
/// `target_child` and makes `target_child` its child; see [`wrap_spec`].
fn wrap_in(
    stack_container: usize,
    target_parent: usize,
    target_child: usize,
    state: &mut WmState,
)
    requires
        old(state).wf(),
        stack_container < old(state).len(),
        target_parent < old(state).len(),
        target_child < old(state).len(),
        old(state).kind_of(stack_container) == ContainerKind::Stack || old(state).kind_of(
            stack_container,
        ) == ContainerKind::Split,
        is_tiling(old(state).data@[target_child as int]),
        old(state).parent_of(stack_container) is None,
        old(state).parent_of(target_child) == Some(target_parent),
        stack_container != target_parent,
        stack_container != old(state).root,
    ensures
        final(state).wf(),
        final(state).persistence == old(state).persistence,
        final(state).len() == old(state).len(),
        final(state).tv() == wrap_spec(old(state).tv(), stack_container, target_parent, target_child),
        final(state).pending_sync == old(state).pending_sync,
{
    proof {
        lemma_child_in_focus(*state, target_child);
    }
    let size = state.data[target_child].tiling_size;
    state.replace_child(target_parent, target_child, stack_container);
    state.set_tiling_size(stack_container, size);
    state.set_tiling_size(target_child, FULL_TILING_SIZE);
    let n = state.links[stack_container].children.len();
    state.attach(target_child, stack_container, n);
    assert(state.data@ =~= wrap_spec(
        old(state).tv(),
        stack_container,
        target_parent,
        target_child,
    ).data);
}

/// Removes an empty stack from its parent, or replaces a stack that has a
/// single child by that child.
pub fn collapse_stack_container(stack_container: usize, state: &mut WmState) -> (r: Result<
    (),
    WmError,
>)
    requires
        old(state).wf(),
        stack_container < old(state).len(),
        old(state).kind_of(stack_container) == ContainerKind::Stack,
    ensures
        final(state).wf(),
        final(state).persistence == old(state).persistence,
        r is Ok,
        final(state).len() == old(state).len(),
        forall|j: usize| j < old(state).len() ==> #[trigger] final(state).kind_of(j) == old(state).kind_of(j),
        final(state).tv() == collapse_spec(old(state).tv(), stack_container),
        final(state).pending_sync == old(state).pending_sync,
{
    let parent = match state.links[stack_container].parent {
        None => {
            return Ok(());
        },
        Some(p) => p,
    };
    proof {
        lemma_child_in_focus(*state, stack_container);
        lemma_ids_in_range(*state, stack_container);
    }
    let n = state.links[stack_container].children.len();
    if n == 0 {
        state.detach(stack_container);
    } else if n == 1 {
        let child = state.links[stack_container].children[0];
        assert(child == old(state).children_of(stack_container)[0]);
        if child == parent {
            return Ok(());
        }
        let size = state.data[stack_container].tiling_size;
        state.detach(child);
        if state.is_tiling_container(child) {
            state.set_tiling_size(child, size);
        }
        assert(state.parent_of(stack_container) == Some(parent));
        assert(child != state.root) by {
            assert(old(state).parent_of(child) == Some(stack_container));
        }
        assert(old(state).tv().links[child as int].parent == Some(stack_container));
        assert(old(state).tv().links[stack_container as int].parent == Some(parent));
        assert(state.kind_of(child) == old(state).kind_of(child));
        assert(state.kind_of(parent) == old(state).kind_of(parent));
        state.replace_child(parent, stack_container, child);
    }
    Ok(())
}

/// Moves `container` to position `target_index` of `target_parent`.
pub fn move_container_within_tree(
    container: usize,
    target_parent: usize,
    target_index: usize,
    state: &mut WmState,
) -> (r: Result<(), WmError>)
    requires
        old(state).wf(),
        container < old(state).len(),
        target_parent < old(state).len(),
        container != target_parent,
        container != old(state).root,
        parent_kind_ok(old(state).kind_of(container), old(state).kind_of(target_parent)),
        old(state).parent_of(container) != Some(target_parent) ==> target_index <= old(
            state,
        ).children_of(target_parent).len(),
    ensures
        final(state).wf(),
        final(state).persistence == old(state).persistence,
        r is Ok,
        final(state).len() == old(state).len(),
        forall|j: usize| j < old(state).len() ==> #[trigger] final(state).kind_of(j) == old(state).kind_of(j),
        final(state).tv() == move_spec(old(state).tv(), container, target_parent, target_index as int),
        final(state).pending_sync == old(state).pending_sync,
        final(state).parent_of(container) == Some(target_parent),
{
    let old_parent = state.links[container].parent;
    if old_parent == Some(target_parent) {
        state.shift_child_to_index(target_parent, target_index, container);
        return Ok(());
    }
    proof {
        if let Some(op) = old_parent {
            lemma_child_in_focus(*state, container);
        }
        crate::tree::lemma_only_parent(state.lv(), container, target_parent as int);
    }
    state.detach(container);
    assert(state.children_of(target_parent) == old(state).children_of(target_parent));
    state.attach(container, target_parent, target_index);
    match old_parent {
        Some(op) => {
            if state.data[op].kind == ContainerKind::Stack {
                let ghost before = state.tv();
                assert(before.parent_of(container) == Some(target_parent));
                assert(!before.children_of(op).contains(container)) by {
                    assert(node_wf(before.links, container as int));
                    if before.children_of(op).contains(container) {
                        let k = choose|k: int| 0 <= k < before.children_of(op).len() && before.children_of(op)[k] == container;
                        assert(node_wf(before.links, op as int));
                    }
                }
                proof {
                    crate::query::lemma_ids_in_range(*state, op);
                    assert(node_wf(before.links, op as int));
                    if before.children_of(op).len() == 1 {
                        assert(before.children_of(op).contains(before.children_of(op)[0]));
                    }
                }
                collapse_stack_container(op, state)
            } else {
                Ok(())
            }
        },
        None => Ok(()),
    }
}

pub proof fn lemma_rotate(s: Seq<usize>, direction: TabDirection)
    requires
        s.no_duplicates(),
    ensures
        rotate(s, direction).no_duplicates(),
        forall|y: usize| #[trigger] rotate(s, direction).contains(y) <==> s.contains(y),
        rotate(s, direction).len() == s.len(),
{
    let r = rotate(s, direction);
    if s.len() > 0 {
        let n = s.len() as int;
        // Index `k` of `r` holds entry `src(k)` of `s`.
        let src = |k: int|
            match direction {
                TabDirection::Next => if k < n - 1 {
                    k + 1
                } else {
                    0
                },
                TabDirection::Previous => if k == 0 {
                    n - 1
                } else {
                    k - 1
                },
            };
        assert forall|k: int| 0 <= k < n implies #[trigger] r[k] == s[src(k)] by {}
        assert forall|a: int, b: int| 0 <= a < n && 0 <= b < n && a != b implies r[a] != r[b] by {
            assert(r[a] == s[src(a)]);
            assert(r[b] == s[src(b)]);
        }
        assert forall|y: usize| #[trigger] r.contains(y) <==> s.contains(y) by {
            if r.contains(y) {
                let k = choose|k: int| 0 <= k < r.len() && r[k] == y;
                assert(r[k] == s[src(k)]);
            }
            if s.contains(y) {
                let j = choose|j: int| 0 <= j < s.len() && s[j] == y;
                let k = match direction {
                    TabDirection::Next => if j == 0 {
                        n - 1
                    } else {
                        j - 1
                    },
                    TabDirection::Previous => if j == n - 1 {
                        0
                    } else {
                        j + 1
                    },
                };
                assert(r[k] == s[src(k)]);
            }
        }
    }
}

/// The links after switching the tab of stack `st`.
pub open spec fn rotated_links(v: TreeView, st: usize, direction: TabDirection) -> Seq<LinksView> {
    set_focus_spec(v.links, st, rotate(v.focus_of(st), direction))
}

/// Switches the selected tab of the closest stack around `origin_container`
/// and focuses the newly selected child.
pub fn focus_tab(origin_container: usize, direction: TabDirection, state: &mut WmState) -> (r:
    Result<(), WmError>)
    requires
        old(state).wf(),
        origin_container < old(state).len(),
    ensures
        final(state).wf(),
        final(state).persistence == old(state).persistence,
        // Switching tabs moves no container to another workspace or monitor.
        forall|c: usize|
            c < old(state).len() ==> #[trigger] ancestor_of_kind(final(state).tv(), c, ContainerKind::Workspace)
                == ancestor_of_kind(old(state).tv(), c, ContainerKind::Workspace) && ancestor_of_kind(
                final(state).tv(),
                c,
                ContainerKind::Monitor,
            ) == ancestor_of_kind(old(state).tv(), c, ContainerKind::Monitor),
        match ancestor_of_kind(old(state).tv(), origin_container, ContainerKind::Stack) {
            None => r is Ok && unchanged(final(state), old(state)),
            Some(st) => if old(state).focus_of(st).len() == 0 {
                r == Err::<(), WmError>(WmError::NoSelectedChild) && unchanged(final(state), old(state))
            } else {
                let l1 = rotated_links(old(state).tv(), st, direction);
                &&& r is Ok
                &&& final(state).tv() == old(state).tv().with_links(focused_links(l1, l1[st as int].focus[0]))
                &&& final(state).pending_sync.containers_to_redraw@ == queued(
                    old(state).pending_sync.containers_to_redraw@,
                    st,
                )
                &&& final(state).pending_sync.focus_change
                &&& final(state).pending_sync.cursor_jump == old(state).pending_sync.cursor_jump
                &&& final(state).pending_sync.workspaces_to_reorder == old(
                    state,
                ).pending_sync.workspaces_to_reorder
            },
        },
{
    let stack = match state.stack_ancestor(origin_container) {
        None => {
            return Ok(());
        },
        Some(s) => s,
    };
    let n = state.links[stack].focus_order.len();
    if n == 0 {
        return Err(WmError::NoSelectedChild);
    }
    let ghost t = state.lv();
    proof {
        assert(node_wf(t, stack as int));
        lemma_rotate(t[stack as int].focus, direction);
        lemma_set_focus_wf(t, stack, rotate(t[stack as int].focus, direction));
    }
    match direction {
        TabDirection::Next => {
            let front = state.links[stack].focus_order.remove(0);
            state.links[stack].focus_order.push(front);
        },
        TabDirection::Previous => {
            let back = state.links[stack].focus_order.pop().unwrap();
            state.links[stack].focus_order.insert(0, back);
        },
    }
    assert(state.links@[stack as int].focus_order@ =~= rotate(t[stack as int].focus, direction));
    assert(state.lv() =~= rotated_links(old(state).tv(), stack, direction));
    let selected = match state.selected_child(stack) {
        Some(c) => c,
        None => {
            return Err(WmError::NoSelectedChild);
        },
    };
    state.set_focused_descendant(selected);
    state.pending_sync.queue_container_to_redraw(stack);
    state.pending_sync.focus_change = true;
    proof {
        let (l1, f1) = crate::laws_container::tab_step(old(state).tv(), stack, direction);
        assert forall|c: usize| c < old(state).len() implies #[trigger] ancestor_of_kind(
            state.tv(),
            c,
            ContainerKind::Workspace,
        ) == ancestor_of_kind(old(state).tv(), c, ContainerKind::Workspace) && ancestor_of_kind(
            state.tv(),
            c,
            ContainerKind::Monitor,
        ) == ancestor_of_kind(old(state).tv(), c, ContainerKind::Monitor) by {
            crate::laws_container::lemma_find_up_same(
                old(state).tv(),
                state.tv(),
                c,
                ContainerKind::Workspace,
                old(state).tv().len(),
            );
            crate::laws_container::lemma_find_up_same(
                old(state).tv(),
                state.tv(),
                c,
                ContainerKind::Monitor,
                old(state).tv().len(),
            );
        }
    }
    Ok(())
}

/// The window `unstack` takes out of stack `st`: the origin if it is a
/// window, else the stack's selected child if that is a window.
pub open spec fn unstack_window(v: TreeView, origin: usize, st: usize) -> Option<usize> {
    if v.kind_of(origin) == ContainerKind::Window {
        Some(origin)
    } else {
        match selected_child(v, st) {
            Some(c) => if v.kind_of(c) == ContainerKind::Window {
                Some(c)
            } else {
                None
            },
            None => None,
        }
    }
}

/// Takes a window out of the closest stack around `origin_container`, puts
/// it right after the stack in the stack's parent and focuses it.
pub fn unstack(origin_container: usize, state: &mut WmState) -> (r: Result<(), WmError>)
    requires
        old(state).wf(),
        origin_container < old(state).len(),
    ensures
        final(state).wf(),
        final(state).persistence == old(state).persistence,
        match ancestor_of_kind(old(state).tv(), origin_container, ContainerKind::Stack) {
            None => r is Ok && unchanged(final(state), old(state)),
            Some(st) => match unstack_window(old(state).tv(), origin_container, st) {
                None => r == Err::<(), WmError>(WmError::NoSelectedStackWindow) && unchanged(
                    final(state),
                    old(state),
                ),
                Some(w) => match old(state).parent_of(st) {
                    None => r == Err::<(), WmError>(WmError::StackHasNoParent) && unchanged(
                        final(state),
                        old(state),
                    ),
                    Some(p) => if w == p {
                        r == Err::<(), WmError>(WmError::InvalidContainer) && unchanged(
                            final(state),
                            old(state),
                        )
                    } else {
                        let moved = move_spec(
                            old(state).tv(),
                            w,
                            p,
                            pos(old(state).children_of(p), st) + 1,
                        );
                        &&& r is Ok
                        &&& final(state).tv() == moved.with_links(focused_links(moved.links, w))
                        &&& final(state).pending_sync.containers_to_redraw@ == queued(
                            old(state).pending_sync.containers_to_redraw@,
                            p,
                        )
                        &&& final(state).pending_sync.focus_change
                        &&& final(state).pending_sync.cursor_jump == old(
                            state,
                        ).pending_sync.cursor_jump
                        &&& final(state).pending_sync.workspaces_to_reorder == old(
                            state,
                        ).pending_sync.workspaces_to_reorder
                    },
                },
            },
        },
{
    let stack = match state.stack_ancestor(origin_container) {
        None => {
            return Ok(());
        },
        Some(s) => s,
    };
    let window = if state.data[origin_container].kind == ContainerKind::Window {
        origin_container
    } else {
        match state.selected_child(stack) {
            Some(c) => {
                if state.data[c].kind == ContainerKind::Window {
                    c
                } else {
                    return Err(WmError::NoSelectedStackWindow);
                }
            },
            None => {
                return Err(WmError::NoSelectedStackWindow);
            },
        }
    };
    let parent = match state.links[stack].parent {
        Some(p) => p,
        None => {
            return Err(WmError::StackHasNoParent);
        },
    };
    if window == parent {
        return Err(WmError::InvalidContainer);
    }
    proof {
        lemma_child_in_focus(*state, stack);
        lemma_ids_in_range(*state, window);
        assert(window != state.root);
    }
    let n = state.links[parent].children.len();
    let index = state.index(stack);
    assert(state.children_of(parent).len() == n);
    let target_index = index + 1;
    let _ = move_container_within_tree(window, parent, target_index, state);
    state.set_focused_descendant(window);
    state.pending_sync.queue_container_to_redraw(parent);
    state.pending_sync.focus_change = true;
    Ok(())
}

} // verus!
