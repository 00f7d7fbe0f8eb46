//! Laws of the workspace commands.

use vstd::prelude::*;

use crate::model::ContainerKind;
use crate::query::{
    displayed_workspace, find_up, first_named, focus_leaf, focus_walk, focused_links,
    last_focused_descendant, lemma_first_named, workspace_by_name, ancestor_of_kind,
    focused_container, monitors,
};
use crate::tree::{to_front, tree_wf, LinksView};
use crate::laws_container::lemma_focus_walk_frame;
use crate::state::{lemma_same_kinds_wf, TreeView};
use crate::tree::{
    lemma_pos, lemma_same_elements, lemma_set_focus_wf, lemma_shift_to_index, node_wf,
    set_focus_spec, shift_to_index, without,
};
use crate::workspace::{
    focus_all_target, focus_target,
    destroy_spec, destroyable, first_destroyable, all_workspaces, is_displayed, lemma_first_index,
    switch_all, switch_monitor, with_recent, SwitchView,
};
use crate::tree::{detach_spec, lemma_detach_wf, pos};

verus! {

/// `b` has the shape of `a`: the same parents and children, and the same
/// kinds, names and keep-alive flags; only focus orders and other data
/// may differ.
pub open spec fn same_shape(a: TreeView, b: TreeView) -> bool {
    &&& a.links.len() == b.links.len()
    &&& a.data.len() == b.data.len()
    &&& a.root == b.root
    &&& forall|i: int|
        0 <= i < a.links.len() ==> (#[trigger] b.links[i]).parent == a.links[i].parent
            && b.links[i].children == a.links[i].children
    &&& forall|i: int|
        0 <= i < a.data.len() ==> (#[trigger] b.data[i]).kind == a.data[i].kind
            && b.data[i].workspace_name == a.data[i].workspace_name && b.data[i].keep_alive
            == a.data[i].keep_alive
}

/// Every monitor among `ms` that has a workspace named `name` displays it.
pub open spec fn displays_named(v: TreeView, ms: Seq<usize>, name: Seq<char>) -> bool {
    forall|m: usize|
        #![trigger ms.contains(m)]
        ms.contains(m) && workspace_by_name(v, m, name) is Some ==> displayed_workspace(v, m)
            == workspace_by_name(v, m, name)
}

pub proof fn lemma_first_named_same(a: TreeView, b: TreeView, ids: Seq<usize>, name: Seq<char>)
    requires
        forall|j: int|
            0 <= j < ids.len() ==> (#[trigger] b.data[ids[j] as int]).kind == a.data[ids[j] as int].kind
                && b.data[ids[j] as int].workspace_name == a.data[ids[j] as int].workspace_name,
    ensures
        first_named(a, ids, name) == first_named(b, ids, name),
    decreases ids.len(),
{
    if ids.len() > 0 {
        assert(b.data[ids[0] as int].kind == a.data[ids[0] as int].kind);
        assert forall|j: int| 0 <= j < ids.drop_first().len() implies (#[trigger] b.data[ids.drop_first()[j] as int]).kind
            == a.data[ids.drop_first()[j] as int].kind && b.data[ids.drop_first()[j] as int].workspace_name
            == a.data[ids.drop_first()[j] as int].workspace_name by {
            assert(ids.drop_first()[j] == ids[j + 1]);
        }
        lemma_first_named_same(a, b, ids.drop_first(), name);
    }
}

/// Finding a workspace by name only reads the shape of the tree.
pub proof fn lemma_wbn_same_shape(a: TreeView, b: TreeView, m: usize, name: Seq<char>)
    requires
        a.wf(),
        same_shape(a, b),
        m < a.len(),
    ensures
        workspace_by_name(a, m, name) == workspace_by_name(b, m, name),
{
    assert(node_wf(a.links, m as int));
    assert(b.children_of(m) == a.children_of(m));
    let ids = a.children_of(m);
    assert forall|j: int| 0 <= j < ids.len() implies (#[trigger] b.data[ids[j] as int]).kind
        == a.data[ids[j] as int].kind && b.data[ids[j] as int].workspace_name
        == a.data[ids[j] as int].workspace_name by {
        assert(ids[j] < a.links.len());
    }
    lemma_first_named_same(a, b, ids, name);
}

pub proof fn lemma_wbn_child(v: TreeView, m: usize, name: Seq<char>)
    requires
        v.wf(),
        m < v.len(),
    ensures
        workspace_by_name(v, m, name) matches Some(w) ==> v.children_of(m).contains(w) && w < v.len()
            && v.parent_of(w) == Some(m) && v.kind_of(w) == ContainerKind::Workspace,
{
    lemma_first_named(v, v.children_of(m), name);
    if let Some(i) = first_named(v, v.children_of(m), name) {
        assert(node_wf(v.links, m as int));
        assert(v.children_of(m).contains(v.children_of(m)[i]));
    }
}

/// One monitor switch keeps the tree well-formed and its shape, leaves
/// the other monitors' focus orders alone and makes the monitor display
/// its workspace named `name`, if it has one.
pub proof fn lemma_switch_monitor(s: SwitchView, m: usize, name: Seq<char>)
    requires
        s.tv.wf(),
        m < s.tv.len(),
    ensures
        switch_monitor(s, m, name).tv.wf(),
        same_shape(s.tv, switch_monitor(s, m, name).tv),
        forall|x: usize|
            #![trigger switch_monitor(s, m, name).tv.focus_of(x)]
            x < s.tv.len() && x != m ==> switch_monitor(s, m, name).tv.focus_of(x) == s.tv.focus_of(x),
        workspace_by_name(s.tv, m, name) is Some ==> displayed_workspace(
            switch_monitor(s, m, name).tv,
            m,
        ) == workspace_by_name(s.tv, m, name),
{
    let v = s.tv;
    lemma_wbn_child(v, m, name);
    if let Some(w) = workspace_by_name(v, m, name) {
        if displayed_workspace(v, m) != Some(w) {
            assert(node_wf(v.links, m as int));
            lemma_same_elements(v.children_of(m), v.focus_of(m));
            let f = shift_to_index(v.focus_of(m), 0, w);
            lemma_shift_to_index(v.focus_of(m), 0, w);
            lemma_set_focus_wf(v.links, m, f);
            let v1 = v.with_links(set_focus_spec(v.links, m, f));
            assert(v1.wf());
            lemma_pos(v.focus_of(m), w);
            assert(f[0] == w);
            let r = switch_monitor(s, m, name);
            lemma_same_kinds_wf(v1, r.tv);
        }
    }
}

/// Switching a list of monitors makes each of them display its workspace
/// named `name`, if it has one.
pub proof fn lemma_switch_all(s: SwitchView, ms: Seq<usize>, name: Seq<char>)
    requires
        s.tv.wf(),
        forall|k: int| 0 <= k < ms.len() ==> #[trigger] ms[k] < s.tv.len(),
    ensures
        switch_all(s, ms, name).tv.wf(),
        same_shape(s.tv, switch_all(s, ms, name).tv),
        displays_named(switch_all(s, ms, name).tv, ms, name),
    decreases ms.len(),
{
    if ms.len() > 0 {
        let prev = ms.drop_last();
        lemma_switch_all(s, prev, name);
        let s1 = switch_all(s, prev, name);
        let m = ms.last();
        lemma_switch_monitor(s1, m, name);
        let s2 = switch_monitor(s1, m, name);
        assert forall|x: usize|
            #![trigger ms.contains(x)]
            ms.contains(x) && workspace_by_name(s2.tv, x, name) is Some implies displayed_workspace(
            s2.tv,
            x,
        ) == workspace_by_name(s2.tv, x, name) by {
            let k = choose|k: int| 0 <= k < ms.len() && ms[k] == x;
            assert(x < s.tv.len());
            lemma_wbn_same_shape(s1.tv, s2.tv, x, name);
            if x != m {
                assert(k < prev.len());
                assert(prev[k] == x);
                assert(prev.contains(x));
                assert(s2.tv.focus_of(x) == s1.tv.focus_of(x));
                lemma_wbn_child(s1.tv, x, name);
                if let Some(w) = workspace_by_name(s1.tv, x, name) {
                    assert(s2.tv.kind_of(w) == s1.tv.kind_of(w));
                }
                if s1.tv.focus_of(x).len() > 0 {
                    let fr = s1.tv.focus_of(x)[0];
                    assert(node_wf(s1.tv.links, x as int));
                    lemma_same_elements(s1.tv.children_of(x), s1.tv.focus_of(x));
                    assert(s1.tv.children_of(x).contains(fr));
                    crate::tree::lemma_child_parent(s1.tv.links, x as int, fr);
                    assert(s2.tv.kind_of(fr) == s1.tv.kind_of(fr));
                }
            }
        }
        assert forall|i: int| 0 <= i < s.tv.links.len() implies (#[trigger] s2.tv.links[i]).parent
            == s.tv.links[i].parent && s2.tv.links[i].children == s.tv.links[i].children by {
            assert(s1.tv.links[i].parent == s.tv.links[i].parent);
        }
        assert forall|i: int| 0 <= i < s.tv.data.len() implies (#[trigger] s2.tv.data[i]).kind
            == s.tv.data[i].kind && s2.tv.data[i].workspace_name == s.tv.data[i].workspace_name
            && s2.tv.data[i].keep_alive == s.tv.data[i].keep_alive by {
            assert(s1.tv.data[i].kind == s.tv.data[i].kind);
        }
    }
}

/// A workspace of that name, with none before it, is the first named.
pub proof fn lemma_first_named_at(v: TreeView, ids: Seq<usize>, name: Seq<char>, i: int)
    requires
        0 <= i < ids.len(),
        v.kind_of(ids[i]) == ContainerKind::Workspace,
        v.data[ids[i] as int].workspace_name@ == name,
        forall|j: int|
            0 <= j < i ==> !(v.kind_of(#[trigger] ids[j]) == ContainerKind::Workspace
                && v.data[ids[j] as int].workspace_name@ == name),
    ensures
        first_named(v, ids, name) == Some(i),
{
    lemma_first_named(v, ids, name);
    if let Some(k) = first_named(v, ids, name) {
        if k < i {
        } else if k > i {
        }
    }
}

/// Removing an entry other than the first named keeps what is found.
pub proof fn lemma_first_named_remove(v: TreeView, ids: Seq<usize>, name: Seq<char>, j: int)
    requires
        0 <= j < ids.len(),
    ensures
        first_named(v, ids, name) is None ==> first_named(v, ids.remove(j), name) is None,
        first_named(v, ids, name) matches Some(i) ==> i != j ==> first_named(v, ids.remove(j), name)
            == Some(if i < j { i } else { i - 1 }),
{
    let r = ids.remove(j);
    lemma_first_named(v, ids, name);
    lemma_first_named(v, r, name);
    assert forall|k: int| 0 <= k < r.len() implies #[trigger] r[k] == ids[if k < j { k } else { k + 1 }] by {}
    match first_named(v, ids, name) {
        None => {
            if let Some(k) = first_named(v, r, name) {
                assert(r[k] == ids[if k < j { k } else { k + 1 }]);
            }
        },
        Some(i) => {
            if i != j {
                let i2 = if i < j { i } else { i - 1 };
                assert(r[i2] == ids[i]);
                assert forall|q: int|
                    0 <= q < i2 implies !(v.kind_of(#[trigger] r[q]) == ContainerKind::Workspace
                    && v.data[r[q] as int].workspace_name@ == name) by {
                    assert(r[q] == ids[if q < j { q } else { q + 1 }]);
                }
                lemma_first_named_at(v, r, name, i2);
            }
        },
    }
}

/// Detaching a container keeps a tree well-formed.
pub proof fn lemma_detach_tv_wf(v: TreeView, c: usize)
    requires
        v.wf(),
        c < v.len(),
    ensures
        v.with_links(detach_spec(v.links, c)).wf(),
{
    lemma_detach_wf(v.links, c);
    assert(node_wf(v.links, c as int));
    let r = v.with_links(detach_spec(v.links, c));
    assert forall|i: int| 0 <= i < r.links.len() implies ((#[trigger] r.links[i]).parent matches Some(
        p,
    ) ==> crate::state::parent_kind_ok(r.data[i].kind, r.data[p as int].kind)) by {
        if let Some(p) = r.links[i].parent {
            match v.parent_of(c) {
                None => {},
                Some(q) => {
                    if i == c as int {
                    } else if i == q as int {
                        assert(r.links[i].parent == v.links[i].parent);
                    } else {
                        assert(r.links[i] == v.links[i]);
                    }
                },
            }
            assert(v.links[i].parent == Some(p));
        }
    }
    if let Some(p) = v.parent_of(c) {
        assert(node_wf(v.links, c as int));
        assert(c != v.root);
    }
}

/// Destroying the first destroyable workspace keeps every monitor that
/// displays its workspace named `name` displaying it.
pub proof fn lemma_destroy(v: TreeView, ms: Seq<usize>, name: Seq<char>)
    requires
        v.wf(),
        forall|k: int| 0 <= k < ms.len() ==> #[trigger] ms[k] < v.len(),
        displays_named(v, ms, name),
    ensures
        destroy_spec(v).wf(),
        displays_named(destroy_spec(v), ms, name),
{
    if let Some(d) = first_destroyable(v) {
        let ws = all_workspaces(v);
        lemma_first_index(ws, destroyable(v));
        let i = crate::workspace::first_index(ws, destroyable(v)).unwrap();
        assert(d == ws[i]);
        assert(destroyable(v)(d));
        assert(d < v.len()) by {
            lemma_all_workspaces_in_range(v);
        }
        lemma_detach_tv_wf(v, d);
        let v2 = destroy_spec(v);
        assert forall|m: usize|
            #![trigger ms.contains(m)]
            ms.contains(m) && workspace_by_name(v2, m, name) is Some implies displayed_workspace(v2, m)
            == workspace_by_name(v2, m, name) by {
            let k = choose|k: int| 0 <= k < ms.len() && ms[k] == m;
            assert(m < v.len());
            lemma_first_named_same(v, v2, v2.children_of(m), name);
            match v.parent_of(d) {
                None => {},
                Some(p) => {
                    assert(node_wf(v.links, d as int));
                    if m != p {
                        assert(v2.links == detach_spec(v.links, d));
                        if m == d {
                            assert(v2.links[m as int].children == v.links[m as int].children);
                            assert(v2.links[m as int].focus == v.links[m as int].focus);
                        } else {
                            assert(v2.links[m as int] == v.links[m as int]);
                        }
                        assert(v2.children_of(m) == v.children_of(m));
                        assert(v2.focus_of(m) == v.focus_of(m));
                    } else {
                        assert(node_wf(v.links, d as int));
                        assert(node_wf(v.links, m as int));
                        lemma_same_elements(v.children_of(m), v.focus_of(m));
                        lemma_pos(v.children_of(m), d);
                        lemma_pos(v.focus_of(m), d);
                        let jc = pos(v.children_of(m), d);
                        let jf = pos(v.focus_of(m), d);
                        lemma_first_named_remove(v, v.children_of(m), name, jc);
                        lemma_first_named(v, v.children_of(m), name);
                        assert(v2.children_of(m) == v.children_of(m).remove(jc));
                        assert(v2.focus_of(m) == v.focus_of(m).remove(jf));
                        match first_named(v, v.children_of(m), name) {
                            None => {
                                assert(first_named(v2, v2.children_of(m), name) is None);
                            },
                            Some(ii) => {
                                let w = v.children_of(m)[ii];
                                assert(workspace_by_name(v, m, name) == Some(w));
                                assert(displayed_workspace(v, m) == Some(w));
                                assert(w != d);
                                assert(ii != jc);
                                assert(v.focus_of(m)[0] == w);
                                assert(jf != 0);
                                assert(v2.focus_of(m)[0] == w);
                            },
                        }
                    }
                },
            }
        }
    }
}

pub proof fn lemma_workspaces_of_in_range(v: TreeView, ms: Seq<usize>)
    requires
        v.wf(),
        forall|k: int| 0 <= k < ms.len() ==> #[trigger] ms[k] < v.len(),
    ensures
        forall|k: int|
            0 <= k < crate::workspace::workspaces_of(v, ms).len() ==> #[trigger] crate::workspace::workspaces_of(
                v,
                ms,
            )[k] < v.len(),
    decreases ms.len(),
{
    if ms.len() > 0 {
        lemma_workspaces_of_in_range(v, ms.drop_last());
        let a = crate::workspace::workspaces_of(v, ms.drop_last());
        let ch = v.children_of(ms.last());
        let b = crate::query::of_kind(v, ch, ContainerKind::Workspace);
        lemma_of_kind_in_range(v, ms.last(), ContainerKind::Workspace);
        assert forall|k: int|
            0 <= k < crate::workspace::workspaces_of(v, ms).len() implies #[trigger] crate::workspace::workspaces_of(
            v,
            ms,
        )[k] < v.len() by {
            if k >= a.len() {
                assert(crate::workspace::workspaces_of(v, ms)[k] == b[k - a.len()]);
            } else {
                assert(crate::workspace::workspaces_of(v, ms)[k] == a[k]);
            }
        }
    }
}

pub proof fn lemma_children_in_range(v: TreeView, m: usize, q: int)
    requires
        v.wf(),
        m < v.len(),
        0 <= q < v.children_of(m).len(),
    ensures
        v.children_of(m)[q] < v.len(),
{
    assert(node_wf(v.links, m as int));
}

/// Ids picked out of a container's children are in range.
pub proof fn lemma_of_kind_in_range(v: TreeView, c: usize, kind: ContainerKind)
    requires
        v.wf(),
        c < v.len(),
    ensures
        forall|k: int|
            0 <= k < crate::query::of_kind(v, v.children_of(c), kind).len() ==> #[trigger] crate::query::of_kind(
                v,
                v.children_of(c),
                kind,
            )[k] < v.len() && v.parent_of(crate::query::of_kind(v, v.children_of(c), kind)[k]) == Some(c)
                && v.kind_of(crate::query::of_kind(v, v.children_of(c), kind)[k]) == kind,
{
    let ch = v.children_of(c);
    let b = crate::query::of_kind(v, ch, kind);
    let pred = |x: usize| v.kind_of(x) == kind;
    assert forall|k: int| 0 <= k < b.len() implies #[trigger] b[k] < v.len() && v.parent_of(b[k])
        == Some(c) && v.kind_of(b[k]) == kind by {
        ch.lemma_filter_contains_rev(pred, b[k]);
        assert(b.contains(b[k]));
        assert(ch.contains(b[k]));
        assert(pred(b[k])) by {
            ch.lemma_filter_pred(pred, k);
        }
        let q = choose|q: int| 0 <= q < ch.len() && ch[q] == b[k];
        assert(node_wf(v.links, c as int));
    }
}

pub proof fn lemma_all_workspaces_in_range(v: TreeView)
    requires
        v.wf(),
    ensures
        forall|k: int| 0 <= k < all_workspaces(v).len() ==> #[trigger] all_workspaces(v)[k] < v.len(),
{
    lemma_of_kind_in_range(v, v.root, ContainerKind::Monitor);
    lemma_workspaces_of_in_range(v, crate::query::monitors(v));
}

/// The `k`-th ancestor of `c` (`c` itself for `k == 0`).
pub open spec fn ancestor_at(t: Seq<LinksView>, c: usize, k: nat) -> Option<usize>
    decreases k,
{
    if k == 0 {
        Some(c)
    } else {
        match t[c as int].parent {
            None => None,
            Some(p) => ancestor_at(t, p, (k - 1) as nat),
        }
    }
}

pub proof fn lemma_ancestor_at_add(t: Seq<LinksView>, c: usize, j: nat, i: nat)
    ensures
        ancestor_at(t, c, j + i) == match ancestor_at(t, c, j) {
            Some(z) => ancestor_at(t, z, i),
            None => None,
        },
    decreases j,
{
    if j > 0 {
        match t[c as int].parent {
            None => {},
            Some(p) => {
                lemma_ancestor_at_add(t, p, (j - 1) as nat, i);
                assert((j - 1) as nat + i == (j + i - 1) as nat);
            },
        }
    }
}

pub proof fn lemma_ancestor_at_in_range(t: Seq<LinksView>, c: usize, k: nat)
    requires
        tree_wf(t),
        c < t.len(),
    ensures
        ancestor_at(t, c, k) matches Some(y) ==> y < t.len(),
    decreases k,
{
    if k > 0 {
        if let Some(p) = t[c as int].parent {
            assert(node_wf(t, c as int));
            lemma_ancestor_at_in_range(t, p, (k - 1) as nat);
        }
    }
}

/// Ancestors only depend on parents.
pub proof fn lemma_ancestor_at_same(a: Seq<LinksView>, b: Seq<LinksView>, c: usize, k: nat)
    requires
        a.len() == b.len(),
        tree_wf(a),
        c < a.len(),
        forall|i: int| 0 <= i < a.len() ==> (#[trigger] b[i]).parent == a[i].parent,
    ensures
        ancestor_at(a, c, k) == ancestor_at(b, c, k),
    decreases k,
{
    if k > 0 {
        assert(b[c as int].parent == a[c as int].parent);
        if let Some(p) = a[c as int].parent {
            assert(node_wf(a, c as int));
            lemma_ancestor_at_same(a, b, p, (k - 1) as nat);
        }
    }
}

/// The focus order of `p` in `w` is that of `t`, or that of `t` with a
/// child of `p` on `c`'s chain of ancestors moved to the front.
pub open spec fn front_from_chain(t: Seq<LinksView>, w: Seq<LinksView>, c: usize, p: int) -> bool {
    ||| w[p].focus == t[p].focus
    ||| exists|y: usize, k: nat|
        #![trigger ancestor_at(t, c, k), t[y as int].parent]
        ancestor_at(t, c, k) == Some(y) && t[y as int].parent == Some(p as usize) && w[p].focus
            == to_front(t[p].focus, y)
}

/// The focus walk from `c` only moves to the front children on `c`'s
/// chain of ancestors.
pub proof fn lemma_walk_effect(t: Seq<LinksView>, c: usize, visited: Set<usize>, fuel: nat)
    requires
        tree_wf(t),
        c < t.len(),
    ensures
        forall|p: int| 0 <= p < t.len() ==> #[trigger] front_from_chain(t, focus_walk(t, c, visited, fuel), c, p),
    decreases fuel,
{
    lemma_focus_walk_frame(t, c, visited, fuel);
    let w = focus_walk(t, c, visited, fuel);
    if fuel > 0 {
        if let Some(p0) = t[c as int].parent {
            if !visited.contains(p0) {
                assert(node_wf(t, c as int));
                assert(node_wf(t, p0 as int));
                lemma_same_elements(t[p0 as int].children, t[p0 as int].focus);
                crate::tree::lemma_to_front(t[p0 as int].focus, c);
                lemma_set_focus_wf(t, p0, to_front(t[p0 as int].focus, c));
                let t1 = set_focus_spec(t, p0, to_front(t[p0 as int].focus, c));
                lemma_walk_effect(t1, p0, visited.insert(p0), (fuel - 1) as nat);
                lemma_focus_walk_frame(t1, p0, visited.insert(p0), (fuel - 1) as nat);
                assert(w == focus_walk(t1, p0, visited.insert(p0), (fuel - 1) as nat));
                assert forall|p: int| 0 <= p < t.len() implies #[trigger] front_from_chain(t, w, c, p) by {
                    if p == p0 as int {
                        assert(visited.insert(p0).contains(p0));
                        assert(w[p].focus == t1[p].focus);
                        assert(ancestor_at(t, c, 0) == Some(c));
                    } else {
                        assert(t1[p] == t[p]);
                        assert(front_from_chain(t1, w, p0, p));
                        if w[p].focus != t[p].focus {
                            let (y, k) = choose|y: usize, k: nat|
                                #![trigger ancestor_at(t1, p0, k), t1[y as int].parent]
                                ancestor_at(t1, p0, k) == Some(y) && t1[y as int].parent == Some(
                                    p as usize,
                                ) && w[p].focus == to_front(t1[p].focus, y);
                            lemma_ancestor_at_same(t, t1, p0, k);
                            lemma_ancestor_at_add(t, c, 1, k);
                            assert(ancestor_at(t, c, 1) == Some(p0)) by {
                                reveal_with_fuel(ancestor_at, 2);
                            }
                            lemma_ancestor_at_in_range(t, p0, k);
                            assert(t1[y as int].parent == t[y as int].parent);
                            assert(ancestor_at(t, c, 1 + k) == Some(y));
                        }
                    }
                }
            }
        }
    }
}

/// Above a workspace come only its monitor and the root, so a chain of
/// ancestors holds at most one workspace.
pub proof fn lemma_chain_one_workspace(v: TreeView, c: usize, j: nat, k: nat)
    requires
        v.wf(),
        c < v.len(),
        ancestor_at(v.links, c, j) matches Some(z) && v.kind_of(z) == ContainerKind::Workspace,
        ancestor_at(v.links, c, k) matches Some(y) && v.kind_of(y) == ContainerKind::Workspace,
    ensures
        ancestor_at(v.links, c, j) == ancestor_at(v.links, c, k),
{
    if j != k {
        let (lo, hi) = if j < k { (j, k) } else { (k, j) };
        let z = ancestor_at(v.links, c, lo).unwrap();
        lemma_ancestor_at_in_range(v.links, c, lo);
        lemma_ancestor_at_add(v.links, c, lo, (hi - lo) as nat);
        assert(lo + (hi - lo) as nat == hi);
        // Walk up from `z`: a monitor, then the root, then nothing.
        let i = (hi - lo) as nat;
        assert(node_wf(v.links, z as int));
        match v.parent_of(z) {
            None => {
                assert(ancestor_at(v.links, z, i) is None);
            },
            Some(m) => {
                assert(v.links[z as int].parent == Some(m));
                assert(v.kind_of(m) == ContainerKind::Monitor);
                if i > 1 {
                    assert(node_wf(v.links, m as int));
                    match v.parent_of(m) {
                        None => {
                            assert(ancestor_at(v.links, m, (i - 1) as nat) is None);
                        },
                        Some(r) => {
                            assert(v.links[m as int].parent == Some(r));
                            assert(v.kind_of(r) == ContainerKind::Root);
                            if i > 2 {
                                assert(node_wf(v.links, r as int));
                                assert(v.parent_of(r) is None) by {
                                    if let Some(q) = v.parent_of(r) {
                                        assert(v.links[r as int].parent == Some(q));
                                    }
                                }
                                assert(ancestor_at(v.links, r, (i - 2) as nat) is None);
                            }
                            assert(ancestor_at(v.links, m, (i - 1) as nat) == ancestor_at(
                                v.links,
                                r,
                                (i - 2) as nat,
                            ));
                        },
                    }
                }
                assert(ancestor_at(v.links, z, i) == ancestor_at(v.links, m, (i - 1) as nat));
            },
        }
    }
}

/// Following focus orders down from `x` leads to a container that has `x`
/// on its chain of ancestors.
pub proof fn lemma_leaf_chain(t: Seq<LinksView>, x: usize, fuel: nat) -> (k: nat)
    requires
        tree_wf(t),
        x < t.len(),
    ensures
        focus_leaf(t, x, fuel) < t.len(),
        ancestor_at(t, focus_leaf(t, x, fuel), k) == Some(x),
    decreases fuel,
{
    if fuel == 0 || t[x as int].focus.len() == 0 {
        0
    } else {
        let y = t[x as int].focus[0];
        assert(node_wf(t, x as int));
        lemma_same_elements(t[x as int].children, t[x as int].focus);
        assert(t[x as int].focus.contains(y));
        crate::tree::lemma_child_parent(t, x as int, y);
        let k1 = lemma_leaf_chain(t, y, (fuel - 1) as nat);
        let leaf = focus_leaf(t, y, (fuel - 1) as nat);
        lemma_ancestor_at_add(t, leaf, k1, 1);
        assert(ancestor_at(t, y, 1) == Some(x)) by {
            reveal_with_fuel(ancestor_at, 2);
        }
        k1 + 1
    }
}

/// What an ancestor search finds lies on the chain of ancestors.
pub proof fn lemma_find_up_chain(v: TreeView, c: usize, kind: ContainerKind, fuel: nat) -> (k: nat)
    requires
        v.wf(),
        c < v.len(),
        find_up(v, c, kind, fuel) is Some,
    ensures
        ancestor_at(v.links, c, k) == find_up(v, c, kind, fuel),
    decreases fuel,
{
    if v.kind_of(c) == kind {
        0
    } else {
        let p = v.parent_of(c).unwrap();
        assert(node_wf(v.links, c as int));
        let k1 = lemma_find_up_chain(v, p, kind, (fuel - 1) as nat);
        lemma_ancestor_at_add(v.links, c, 1, k1);
        1 + k1
    }
}

/// Every workspace on `target`'s chain whose monitor is among `ms` is the
/// monitor's workspace named `name`, or the monitor has none.
pub open spec fn chain_respects_names(v: TreeView, target: usize, ms: Seq<usize>, name: Seq<char>) -> bool {
    forall|y: usize, k: nat|
        #![trigger ancestor_at(v.links, target, k), v.links[y as int]]
        ancestor_at(v.links, target, k) == Some(y) && v.kind_of(y) == ContainerKind::Workspace && (
        v.links[y as int].parent matches Some(m) && ms.contains(m)) ==> (workspace_by_name(
            v,
            v.links[y as int].parent.unwrap(),
            name,
        ) is None || workspace_by_name(v, v.links[y as int].parent.unwrap(), name) == Some(y))
}

/// Focusing a container whose chain respects the names keeps every
/// monitor displaying its workspace named `name`.
pub proof fn lemma_walk_keeps_display(v: TreeView, ms: Seq<usize>, name: Seq<char>, target: usize)
    requires
        v.wf(),
        target < v.len(),
        forall|k: int| 0 <= k < ms.len() ==> #[trigger] ms[k] < v.len(),
        displays_named(v, ms, name),
        chain_respects_names(v, target, ms, name),
    ensures
        displays_named(v.with_links(focused_links(v.links, target)), ms, name),
{
    let t = v.links;
    let wl = focused_links(t, target);
    let w2 = v.with_links(wl);
    lemma_walk_effect(t, target, set![target], t.len());
    lemma_focus_walk_frame(t, target, set![target], t.len());
    assert(same_shape(v, w2));
    assert forall|m: usize|
        #![trigger ms.contains(m)]
        ms.contains(m) && workspace_by_name(w2, m, name) is Some implies displayed_workspace(w2, m)
        == workspace_by_name(w2, m, name) by {
        let q = choose|q: int| 0 <= q < ms.len() && ms[q] == m;
        assert(m < v.len());
        lemma_wbn_same_shape(v, w2, m, name);
        lemma_wbn_child(v, m, name);
        let w = workspace_by_name(v, m, name).unwrap();
        assert(displayed_workspace(v, m) == Some(w));
        assert(v.kind_of(m) == ContainerKind::Monitor) by {
            assert(v.links[w as int].parent == Some(m));
        }
        assert(front_from_chain(t, wl, target, m as int));
        if wl[m as int].focus != t[m as int].focus {
            let (y, k) = choose|y: usize, k: nat|
                #![trigger ancestor_at(t, target, k), t[y as int].parent]
                ancestor_at(t, target, k) == Some(y) && t[y as int].parent == Some(m) && wl[m as int].focus
                    == to_front(t[m as int].focus, y);
            lemma_ancestor_at_in_range(t, target, k);
            assert(v.links[y as int].parent == Some(m));
            assert(v.kind_of(y) == ContainerKind::Workspace);
            assert(v.links[y as int] == t[y as int]);
            assert(workspace_by_name(v, m, name) == Some(y));
            assert(node_wf(t, m as int));
            lemma_same_elements(t[m as int].children, t[m as int].focus);
            crate::tree::lemma_to_front(t[m as int].focus, w);
        }
    }
}

/// Detaching a container only cuts chains of ancestors short.
pub proof fn lemma_detach_chain(t: Seq<LinksView>, d: usize, c: usize, k: nat)
    requires
        tree_wf(t),
        d < t.len(),
        c < t.len(),
    ensures
        ancestor_at(detach_spec(t, d), c, k) matches Some(y) ==> ancestor_at(t, c, k) == Some(y),
    decreases k,
{
    let r = detach_spec(t, d);
    assert(node_wf(t, d as int));
    if k > 0 {
        assert(r[c as int].parent is None || r[c as int].parent == t[c as int].parent);
        if let Some(p) = r[c as int].parent {
            assert(node_wf(t, c as int));
            lemma_detach_chain(t, d, p, (k - 1) as nat);
        }
    }
}

/// Entering a workspace focuses a container that has the workspace on
/// its chain of ancestors.
pub proof fn lemma_focus_target_chain(v: TreeView, w: usize) -> (k: nat)
    requires
        v.wf(),
        w < v.len(),
    ensures
        focus_target(v, w) < v.len(),
        ancestor_at(v.links, focus_target(v, w), k) == Some(w),
{
    let t = v.links;
    if t[w as int].focus.len() == 0 {
        0
    } else {
        let y = t[w as int].focus[0];
        assert(node_wf(t, w as int));
        lemma_same_elements(t[w as int].children, t[w as int].focus);
        assert(t[w as int].focus.contains(y));
        crate::tree::lemma_child_parent(t, w as int, y);
        let k1 = lemma_leaf_chain(t, y, t.len());
        let leaf = focus_leaf(t, y, t.len());
        assert(focus_target(v, w) == leaf);
        lemma_ancestor_at_add(t, leaf, k1, 1);
        assert(ancestor_at(t, y, 1) == Some(w)) by {
            reveal_with_fuel(ancestor_at, 2);
        }
        k1 + 1
    }
}

/// After `focus_all_workspaces`, every monitor that has a workspace of
/// the given name displays it.
pub proof fn lemma_focus_all_displays(
    v0: TreeView,
    redraw: Seq<usize>,
    reorder: Seq<usize>,
    name: Seq<char>,
    f: usize,
    fw: usize,
    fm: usize,
)
    requires
        v0.wf(),
        f < v0.len(),
        ancestor_of_kind(v0, f, ContainerKind::Workspace) == Some(fw),
        ancestor_of_kind(v0, fw, ContainerKind::Monitor) == Some(fm),
    ensures
        ({
            let s1 = switch_all(
                SwitchView { tv: v0, redraw, reorder, switched: false },
                monitors(v0),
                name,
            );
            let v2 = if s1.switched {
                destroy_spec(s1.tv)
            } else {
                s1.tv
            };
            displays_named(
                v2.with_links(focused_links(v2.links, focus_all_target(v2, fm, f, name))),
                monitors(v0),
                name,
            )
        }),
{
    let ms = monitors(v0);
    crate::laws_workspace::lemma_of_kind_in_range(v0, v0.root, ContainerKind::Monitor);
    let s0 = SwitchView { tv: v0, redraw, reorder, switched: false };
    lemma_switch_all(s0, ms, name);
    let s1 = switch_all(s0, ms, name);
    let v1 = s1.tv;
    if s1.switched {
        lemma_destroy(v1, ms, name);
    }
    let v2 = if s1.switched {
        destroy_spec(v1)
    } else {
        v1
    };
    crate::laws_container::lemma_ancestor_in_range(v0, f, ContainerKind::Workspace, v0.len());
    crate::laws_container::lemma_ancestor_in_range(v0, fw, ContainerKind::Monitor, v0.len());
    // Parents in `v2` are those of `v0`, or cut.
    assert(forall|i: int| 0 <= i < v0.len() ==> (#[trigger] v1.links[i]).parent == v0.links[i].parent);
    let target = focus_all_target(v2, fm, f, name);
    match workspace_by_name(v2, fm, name) {
        Some(w) if is_displayed(v2, w) => {
            lemma_wbn_child(v2, fm, name);
            let kw = lemma_focus_target_chain(v2, w);
            assert forall|y: usize, k: nat|
                #![trigger ancestor_at(v2.links, target, k), v2.links[y as int]]
                ancestor_at(v2.links, target, k) == Some(y) && v2.kind_of(y) == ContainerKind::Workspace
                    && (v2.links[y as int].parent matches Some(m) && ms.contains(m)) implies (
            workspace_by_name(v2, v2.links[y as int].parent.unwrap(), name) is None || workspace_by_name(
                v2,
                v2.links[y as int].parent.unwrap(),
                name,
            ) == Some(y)) by {
                lemma_chain_one_workspace(v2, target, k, kw);
            }
            lemma_walk_keeps_display(v2, ms, name, target);
        },
        _ => {
            assert(target == f);
            let kfw = lemma_find_up_chain(v0, f, ContainerKind::Workspace, v0.len());
            lemma_find_up_kind(v0, f, ContainerKind::Workspace, v0.len());
            assert(node_wf(v0.links, fw as int));
            // The focused monitor is the parent of the focused workspace.
            assert(v0.parent_of(fw) == Some(fm)) by {
                lemma_find_up_kind(v0, f, ContainerKind::Workspace, v0.len());
                assert(v0.kind_of(fw) == ContainerKind::Workspace);
                assert(v0.parent_of(fw) is Some);
                let p = v0.parent_of(fw).unwrap();
                assert(v0.links[fw as int].parent == Some(p));
                assert(v0.kind_of(p) == ContainerKind::Monitor);
                assert(find_up(v0, p, ContainerKind::Monitor, (v0.len() - 1) as nat) == Some(p));
            }
            assert forall|y: usize, k: nat|
                #![trigger ancestor_at(v2.links, target, k), v2.links[y as int]]
                ancestor_at(v2.links, target, k) == Some(y) && v2.kind_of(y) == ContainerKind::Workspace
                    && (v2.links[y as int].parent matches Some(m) && ms.contains(m)) implies (
            workspace_by_name(v2, v2.links[y as int].parent.unwrap(), name) is None || workspace_by_name(
                v2,
                v2.links[y as int].parent.unwrap(),
                name,
            ) == Some(y)) by {
                let m = v2.links[y as int].parent.unwrap();
                if s1.switched {
                    if let Some(d) = crate::workspace::first_destroyable(v1) {
                        lemma_all_workspaces_in_range(v1);
                        lemma_first_index(all_workspaces(v1), destroyable(v1));
                        lemma_detach_chain(v1.links, d, f, k);
                        assert(node_wf(v1.links, d as int));
                    }
                }
                assert(ancestor_at(v1.links, f, k) == Some(y));
                lemma_ancestor_at_same(v0.links, v1.links, f, k);
                lemma_ancestor_at_in_range(v0.links, f, k);
                assert(v0.kind_of(y) == ContainerKind::Workspace);
                lemma_chain_one_workspace(v0, f, k, kfw);
                assert(y == fw);
                assert(v1.links[y as int].parent == Some(fm));
                assert(m == fm);
                lemma_wbn_child(v2, fm, name);
                if let Some(w) = workspace_by_name(v2, fm, name) {
                    assert(displayed_workspace(v2, fm) == Some(w));
                    assert(is_displayed(v2, w));
                }
            }
            lemma_walk_keeps_display(v2, ms, name, target);
        },
    }
}

pub proof fn lemma_find_up_kind(v: TreeView, c: usize, kind: ContainerKind, fuel: nat)
    ensures
        find_up(v, c, kind, fuel) matches Some(a) ==> v.kind_of(a) == kind,
    decreases fuel,
{
    if v.kind_of(c) != kind && fuel > 0 {
        if let Some(p) = v.parent_of(c) {
            lemma_find_up_kind(v, p, kind, (fuel - 1) as nat);
        }
    }
}

} // verus!
