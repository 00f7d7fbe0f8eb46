//! Laws of the stack commands.

use vstd::prelude::*;

use crate::container::{collapse_spec, rotate, rotated_links, wrap_spec, TabDirection};
use crate::model::{ContainerKind, FULL_TILING_SIZE};
use crate::query::{ancestor_of_kind, find_up, focus_walk, focused_links, selected_child};
use crate::state::{is_tiling, with_tiling_size, TreeView};
use crate::tree::{
    attach_spec, detach_spec, lemma_pos, lemma_replace_wf, lemma_set_focus_wf, lemma_to_front,
    lemma_without, node_wf, pos, replace_spec, set_focus_spec, to_front, tree_wf, without,
    LinksView,
};

verus! {

/// In a list without repeats, the entry at `i` is found at `i`.
pub proof fn lemma_pos_of_entry(s: Seq<usize>, i: int)
    requires
        s.no_duplicates(),
        0 <= i < s.len(),
    ensures
        pos(s, s[i]) == i,
{
    lemma_pos(s, s[i]);
}

/// Wrapping a tiling child in a fresh stack and then collapsing that stack
/// gives back the tree it started from; only the stack keeps the tiling
/// size it took over from the child.
pub proof fn law_collapse_undoes_wrap(v: TreeView, stack: usize, parent: usize, target: usize)
    requires
        v.wf(),
        stack < v.len(),
        parent < v.len(),
        target < v.len(),
        v.parent_of(stack) is None,
        v.children_of(stack).len() == 0,
        v.focus_of(stack).len() == 0,
        v.parent_of(target) == Some(parent),
        stack != parent,
        stack != v.root,
        is_tiling(v.data[target as int]),
    ensures
        collapse_spec(wrap_spec(v, stack, parent, target), stack).links == v.links,
        collapse_spec(wrap_spec(v, stack, parent, target), stack).data == v.data.update(
            stack as int,
            with_tiling_size(v.data[stack as int], v.data[target as int].tiling_size),
        ),
        collapse_spec(wrap_spec(v, stack, parent, target), stack).root == v.root,
{
    let t = v.links;
    assert(node_wf(t, target as int));
    assert(node_wf(t, parent as int));
    assert(target != parent);
    assert(stack != target);
    crate::tree::lemma_same_elements(t[parent as int].children, t[parent as int].focus);
    crate::tree::lemma_orphan_not_child(t, stack, parent as int);
    let i = pos(t[parent as int].children, target);
    let j = pos(t[parent as int].focus, target);
    lemma_pos(t[parent as int].children, target);
    lemma_pos(t[parent as int].focus, target);
    lemma_replace_wf(t, parent, target, stack);
    let l1 = replace_spec(t, parent, target, stack);
    assert(l1[stack as int].children.len() == 0);
    let l2 = attach_spec(l1, target, stack, 0);
    assert(l1[stack as int].children.insert(0, target) =~= seq![target]);
    assert(l2[stack as int].children == seq![target]);
    let w = wrap_spec(v, stack, parent, target);
    assert(w.links == l2);
    // Collapsing: the stack's only child is `target`.
    assert(w.parent_of(stack) == Some(parent));
    assert(w.children_of(stack) =~= seq![target]);
    let m1 = detach_spec(l2, target);
    assert(l2[target as int].parent == Some(stack));
    assert(without(seq![target], target) =~= Seq::<usize>::empty()) by {
        lemma_pos(seq![target], target);
        lemma_pos_of_entry(seq![target], 0);
        assert(seq![target].remove(0) =~= Seq::<usize>::empty());
    }
    assert(l2[stack as int].focus =~= seq![target]);
    // `stack` now sits where `target` was.
    crate::tree::lemma_update(t[parent as int].children, target, stack);
    crate::tree::lemma_update(t[parent as int].focus, target, stack);
    assert(l1[parent as int].children[i] == stack);
    assert(l1[parent as int].focus[j] == stack);
    lemma_pos_of_entry(l1[parent as int].children, i);
    lemma_pos_of_entry(l1[parent as int].focus, j);
    assert(m1[parent as int] == l1[parent as int]);
    let m2 = replace_spec(m1, parent, stack, target);
    assert(m2[parent as int].children =~= t[parent as int].children);
    assert(m2[parent as int].focus =~= t[parent as int].focus);
    assert(m2 =~= t) by {
        assert forall|k: int| 0 <= k < t.len() implies m2[k] == t[k] by {
            if k == stack as int {
                assert(m2[k].children =~= t[k].children);
                assert(m2[k].focus =~= t[k].focus);
            }
        }
    }
    let c = collapse_spec(w, stack);
    assert(c.links == m2);
    assert(c.data =~= v.data.update(
        stack as int,
        with_tiling_size(v.data[stack as int], v.data[target as int].tiling_size),
    ));
}

/// A list whose first entry is `c` is unchanged by moving `c` to the front.
pub proof fn lemma_to_front_first(s: Seq<usize>, c: usize)
    requires
        s.no_duplicates(),
        s.len() > 0,
        s[0] == c,
    ensures
        to_front(s, c) == s,
{
    lemma_pos(s, c);
    lemma_pos_of_entry(s, 0);
    assert(to_front(s, c) =~= s);
}

/// The focus walk only reorders focus orders, and leaves those of the
/// containers it has already visited alone.
pub proof fn lemma_focus_walk_frame(t: Seq<LinksView>, c: usize, visited: Set<usize>, fuel: nat)
    requires
        tree_wf(t),
        c < t.len(),
    ensures
        tree_wf(focus_walk(t, c, visited, fuel)),
        focus_walk(t, c, visited, fuel).len() == t.len(),
        forall|i: int|
            0 <= i < t.len() ==> (#[trigger] focus_walk(t, c, visited, fuel)[i]).parent == t[i].parent
                && focus_walk(t, c, visited, fuel)[i].children == t[i].children,
        forall|x: usize|
            #![trigger visited.contains(x)]
            visited.contains(x) && x < t.len() ==> focus_walk(t, c, visited, fuel)[x as int].focus
                == t[x as int].focus,
    decreases fuel,
{
    if fuel > 0 {
        if let Some(p) = t[c as int].parent {
            if !visited.contains(p) {
                assert(node_wf(t, c as int));
                assert(node_wf(t, p as int));
                crate::tree::lemma_same_elements(t[p as int].children, t[p as int].focus);
                lemma_to_front(t[p as int].focus, c);
                lemma_set_focus_wf(t, p, to_front(t[p as int].focus, c));
                let t1 = set_focus_spec(t, p, to_front(t[p as int].focus, c));
                lemma_focus_walk_frame(t1, p, visited.insert(p), (fuel - 1) as nat);
                assert forall|x: usize|
                    #![trigger visited.contains(x)]
                    visited.contains(x) && x < t.len() implies focus_walk(
                    t,
                    c,
                    visited,
                    fuel,
                )[x as int].focus == t[x as int].focus by {
                    assert(visited.insert(p).contains(x));
                }
            }
        }
    }
}

/// Ancestor searches only read parents and kinds.
pub proof fn lemma_find_up_same(a: TreeView, b: TreeView, c: usize, kind: ContainerKind, fuel: nat)
    requires
        a.links.len() == b.links.len(),
        a.data.len() == b.data.len(),
        forall|i: int| 0 <= i < a.data.len() ==> (#[trigger] b.data[i]).kind == a.data[i].kind,
        forall|i: int| 0 <= i < a.links.len() ==> (#[trigger] a.links[i]).parent == b.links[i].parent,
        a.wf(),
        c < a.len(),
    ensures
        find_up(a, c, kind, fuel) == find_up(b, c, kind, fuel),
    decreases fuel,
{
    if a.kind_of(c) != kind && fuel > 0 {
        if let Some(p) = a.parent_of(c) {
            assert(node_wf(a.links, c as int));
            lemma_find_up_same(a, b, p, kind, (fuel - 1) as nat);
        }
    }
}

/// Switching a stack's tab moves the focus to the next (or previous)
/// child, and switching to the next tab and back again restores the
/// stack's focus order and selected child.
pub proof fn law_tab_round_trip(v: TreeView, origin: usize, st: usize)
    requires
        v.wf(),
        origin < v.len(),
        ancestor_of_kind(v, origin, ContainerKind::Stack) == Some(st),
        v.focus_of(st).len() > 0,
    ensures
        ({
            let l1 = rotated_links(v, st, TabDirection::Next);
            let v1 = v.with_links(focused_links(l1, l1[st as int].focus[0]));
            let l2 = rotated_links(v1, st, TabDirection::Previous);
            let v2 = v1.with_links(focused_links(l2, l2[st as int].focus[0]));
            &&& ancestor_of_kind(v1, origin, ContainerKind::Stack) == Some(st)
            &&& v1.focus_of(st) == rotate(v.focus_of(st), TabDirection::Next)
            &&& selected_child(v1, st) == Some(
                if v.focus_of(st).len() > 1 {
                    v.focus_of(st)[1]
                } else {
                    v.focus_of(st)[0]
                },
            )
            &&& v2.focus_of(st) == v.focus_of(st)
            &&& selected_child(v2, st) == selected_child(v, st)
        }),
{
    let t = v.links;
    assert(st < v.len()) by {
        lemma_ancestor_in_range(v, origin, ContainerKind::Stack, v.len());
    }
    let (l1, f1) = tab_step(v, st, TabDirection::Next);
    let v1 = v.with_links(f1);
    lemma_find_up_same(v, v1, origin, ContainerKind::Stack, v.len());
    assert(v1.wf());
    let s = v.focus_of(st);
    assert(rotate(s, TabDirection::Next) =~= s.drop_first().push(s[0]));
    let (l2, f2) = tab_step(v1, st, TabDirection::Previous);
    let r = rotate(s, TabDirection::Next);
    assert(rotate(r, TabDirection::Previous) =~= s) by {
        assert(r.last() == s[0]);
        assert(r.drop_last() =~= s.drop_first());
    }
}

/// One tab switch of stack `st`: the rotated links and the links after
/// focusing the newly selected child.
pub proof fn tab_step(v: TreeView, st: usize, direction: TabDirection) -> (r: (
    Seq<LinksView>,
    Seq<LinksView>,
))
    requires
        v.wf(),
        st < v.len(),
        v.focus_of(st).len() > 0,
    ensures
        r.0 == rotated_links(v, st, direction),
        r.1 == focused_links(r.0, r.0[st as int].focus[0]),
        tree_wf(r.1),
        r.1.len() == v.links.len(),
        r.1[st as int].focus == rotate(v.focus_of(st), direction),
        r.1[st as int].focus.len() > 0,
        forall|i: int|
            0 <= i < v.links.len() ==> (#[trigger] r.1[i]).parent == v.links[i].parent
                && r.1[i].children == v.links[i].children,
{
    let t = v.links;
    assert(node_wf(t, st as int));
    crate::container::lemma_rotate(t[st as int].focus, direction);
    lemma_set_focus_wf(t, st, rotate(t[st as int].focus, direction));
    let l1 = rotated_links(v, st, direction);
    let c = l1[st as int].focus[0];
    assert(node_wf(l1, st as int));
    crate::tree::lemma_same_elements(l1[st as int].children, l1[st as int].focus);
    assert(l1[st as int].children.contains(c));
    crate::tree::lemma_child_parent(l1, st as int, c);
    // The first step of the walk leaves the stack as it is and marks it
    // visited.
    lemma_to_front_first(l1[st as int].focus, c);
    assert(set_focus_spec(l1, st, to_front(l1[st as int].focus, c)) =~= l1);
    assert(c != st);
    lemma_focus_walk_frame(l1, st, set![c].insert(st), (l1.len() - 1) as nat);
    assert(set![c].insert(st).contains(st));
    let f = focused_links(l1, c);
    assert(f == focus_walk(l1, st, set![c].insert(st), (l1.len() - 1) as nat));
    (l1, f)
}

/// Focusing `c` makes it the selected child of its parent and keeps every
/// container's parent.
pub proof fn lemma_focus_selects(t: Seq<LinksView>, c: usize)
    requires
        tree_wf(t),
        c < t.len(),
    ensures
        forall|i: int| 0 <= i < t.len() ==> (#[trigger] focused_links(t, c)[i]).parent == t[i].parent,
        t[c as int].parent matches Some(p) ==> focused_links(t, c)[p as int].focus.len() > 0
            && focused_links(t, c)[p as int].focus[0] == c,
{
    lemma_focus_walk_frame(t, c, set![c], t.len());
    if let Some(p) = t[c as int].parent {
        assert(node_wf(t, c as int));
        assert(node_wf(t, p as int));
        assert(!set![c].contains(p));
        crate::tree::lemma_same_elements(t[p as int].children, t[p as int].focus);
        lemma_to_front(t[p as int].focus, c);
        lemma_set_focus_wf(t, p, to_front(t[p as int].focus, c));
        let t1 = set_focus_spec(t, p, to_front(t[p as int].focus, c));
        lemma_focus_walk_frame(t1, p, set![c].insert(p), (t.len() - 1) as nat);
        assert(set![c].insert(p).contains(p));
        assert(focused_links(t, c) == focus_walk(t1, p, set![c].insert(p), (t.len() - 1) as nat));
        assert(to_front(t[p as int].focus, c)[0] == c);
    }
}

pub proof fn lemma_ancestor_in_range(v: TreeView, c: usize, kind: ContainerKind, fuel: nat)
    requires
        v.wf(),
        c < v.len(),
    ensures
        find_up(v, c, kind, fuel) matches Some(a) ==> a < v.len(),
    decreases fuel,
{
    if v.kind_of(c) != kind && fuel > 0 {
        if let Some(p) = v.parent_of(c) {
            assert(node_wf(v.links, c as int));
            lemma_ancestor_in_range(v, p, kind, (fuel - 1) as nat);
        }
    }
}

} // verus!
