//! The links of the container tree: parents, ordered children and the
//! focus order of each container's children, kept in an arena indexed by
//! container id.

use vstd::prelude::*;

use crate::seqs::find_index;

verus! {

/// Parent, children and child focus order of one container.
pub struct Links {
    pub parent: Option<usize>,
    pub children: Vec<usize>,
    /// The container's children, most recently focused first.
    pub focus_order: Vec<usize>,
}

/// Mathematical view of [`Links`].
pub struct LinksView {
    pub parent: Option<usize>,
    pub children: Seq<usize>,
    pub focus: Seq<usize>,
}

impl View for Links {
    type V = LinksView;

    open spec fn view(&self) -> LinksView {
        LinksView { parent: self.parent, children: self.children@, focus: self.focus_order@ }
    }
}

impl Links {
    /// Links of a container that is not attached to the tree.
    pub fn detached() -> (r: Links)
        ensures
            r@.parent is None,
            r@.children == Seq::<usize>::empty(),
            r@.focus == Seq::<usize>::empty(),
    {
        Links { parent: None, children: Vec::new(), focus_order: Vec::new() }
    }
}

/// The arena of links, as a sequence of views.
pub open spec fn links_view(links: Seq<Links>) -> Seq<LinksView> {
    Seq::new(links.len(), |i: int| links[i]@)
}

/// Both sequences hold the same ids.
pub open spec fn same_elements(a: Seq<usize>, b: Seq<usize>) -> bool {
    &&& forall|k: int| 0 <= k < a.len() ==> b.contains(#[trigger] a[k])
    &&& forall|k: int| 0 <= k < b.len() ==> a.contains(#[trigger] b[k])
}

/// Well-formedness of the links of container `i`: ids are in range, no
/// list repeats an id, the focus order holds exactly the children, every
/// child names `i` as its parent and `i` is a child of its parent.
pub open spec fn node_wf(t: Seq<LinksView>, i: int) -> bool {
    &&& t[i].children.no_duplicates()
    &&& t[i].focus.no_duplicates()
    &&& same_elements(t[i].children, t[i].focus)
    &&& forall|k: int|
        0 <= k < t[i].children.len() ==> {
            &&& #[trigger] t[i].children[k] < t.len()
            &&& t[t[i].children[k] as int].parent == Some(i as usize)
        }
    &&& t[i].parent matches Some(p) ==> {
        &&& p < t.len()
        &&& p != i
        &&& t[p as int].children.contains(i as usize)
    }
}

pub open spec fn tree_wf(t: Seq<LinksView>) -> bool {
    &&& t.len() <= usize::MAX
    &&& forall|i: int| 0 <= i < t.len() ==> #[trigger] node_wf(t, i)
}

/// Index of `x` in `s` (meaningful when `s` contains `x`).
pub open spec fn pos(s: Seq<usize>, x: usize) -> int {
    match s.index_of_first(x) {
        Some(i) => i,
        None => -1,
    }
}

pub open spec fn without(s: Seq<usize>, x: usize) -> Seq<usize> {
    s.remove_value(x)
}

/// `c` leaves its parent's children and focus order and has no parent.
pub open spec fn detach_spec(t: Seq<LinksView>, c: usize) -> Seq<LinksView> {
    match t[c as int].parent {
        None => t,
        Some(p) => t.update(
            p as int,
            LinksView {
                children: without(t[p as int].children, c),
                focus: without(t[p as int].focus, c),
                ..t[p as int]
            },
        ).update(c as int, LinksView { parent: None, ..t[c as int] }),
    }
}

/// `c` becomes the child of `p` at `index` and the last in its focus order.
pub open spec fn attach_spec(t: Seq<LinksView>, c: usize, p: usize, index: int) -> Seq<LinksView> {
    t.update(
        p as int,
        LinksView {
            children: t[p as int].children.insert(index, c),
            focus: t[p as int].focus.push(c),
            ..t[p as int]
        },
    ).update(c as int, LinksView { parent: Some(p), ..t[c as int] })
}

/// `new` takes the place of `old` among the children and in the focus
/// order of `p`; `old` is left without a parent.
pub open spec fn replace_spec(t: Seq<LinksView>, p: usize, old: usize, new: usize) -> Seq<LinksView> {
    t.update(
        p as int,
        LinksView {
            children: t[p as int].children.update(pos(t[p as int].children, old), new),
            focus: t[p as int].focus.update(pos(t[p as int].focus, old), new),
            ..t[p as int]
        },
    ).update(old as int, LinksView { parent: None, ..t[old as int] }).update(
        new as int,
        LinksView { parent: Some(p), ..t[new as int] },
    )
}

/// The focus order of `p` becomes `f`.
pub open spec fn set_focus_spec(t: Seq<LinksView>, p: usize, f: Seq<usize>) -> Seq<LinksView> {
    t.update(p as int, LinksView { focus: f, ..t[p as int] })
}

/// The children of `p` become `ch`.
pub open spec fn set_children_spec(t: Seq<LinksView>, p: usize, ch: Seq<usize>) -> Seq<LinksView> {
    t.update(p as int, LinksView { children: ch, ..t[p as int] })
}

/// `c` moved to the front of `s`.
pub open spec fn to_front(s: Seq<usize>, c: usize) -> Seq<usize> {
    seq![c] + without(s, c)
}

/// `c` moved to position `index` of `s` (clamped to the end).
pub open spec fn shift_to_index(s: Seq<usize>, index: int, c: usize) -> Seq<usize> {
    if s.contains(c) {
        let r = without(s, c);
        r.insert(if index > r.len() { r.len() as int } else { index }, c)
    } else {
        s
    }
}

pub proof fn lemma_pos(s: Seq<usize>, x: usize)
    ensures
        s.contains(x) ==> 0 <= pos(s, x) < s.len() && s[pos(s, x)] == x,
        s.contains(x) ==> forall|j: int| 0 <= j < pos(s, x) ==> s[j] != x,
        !s.contains(x) ==> pos(s, x) == -1,
        s.contains(x) ==> without(s, x) == s.remove(pos(s, x)),
        !s.contains(x) ==> without(s, x) == s,
{
    s.index_of_first_ensures(x);
}

/// Removing `x` from a list without repeats keeps it without repeats and
/// removes exactly `x`.
pub proof fn lemma_without(s: Seq<usize>, x: usize)
    requires
        s.no_duplicates(),
    ensures
        without(s, x).no_duplicates(),
        forall|y: usize| #[trigger] without(s, x).contains(y) <==> (s.contains(y) && y != x),
        s.contains(x) ==> without(s, x).len() == s.len() - 1,
        !s.contains(x) ==> without(s, x) == s,
{
    lemma_pos(s, x);
    if s.contains(x) {
        let i = pos(s, x);
        let r = s.remove(i);
        assert(r.len() == s.len() - 1);
        assert forall|a: int, b: int| 0 <= a < r.len() && 0 <= b < r.len() && a != b implies r[a]
            != r[b] by {
            let a2 = if a < i { a } else { a + 1 };
            let b2 = if b < i { b } else { b + 1 };
            assert(r[a] == s[a2]);
            assert(r[b] == s[b2]);
        }
        assert forall|y: usize| #[trigger] r.contains(y) <==> (s.contains(y) && y != x) by {
            if r.contains(y) {
                let k = choose|k: int| 0 <= k < r.len() && r[k] == y;
                let k2 = if k < i { k } else { k + 1 };
                assert(s[k2] == y);
                assert(k2 != i);
            }
            if s.contains(y) && y != x {
                let k = choose|k: int| 0 <= k < s.len() && s[k] == y;
                assert(k != i);
                let k2 = if k < i { k } else { k - 1 };
                assert(r[k2] == y);
            }
        }
    }
}

/// Inserting a new id keeps a list without repeats.
pub proof fn lemma_insert(s: Seq<usize>, i: int, x: usize)
    requires
        s.no_duplicates(),
        !s.contains(x),
        0 <= i <= s.len(),
    ensures
        s.insert(i, x).no_duplicates(),
        forall|y: usize| #[trigger] s.insert(i, x).contains(y) <==> (s.contains(y) || y == x),
        s.insert(i, x).len() == s.len() + 1,
        s.insert(i, x)[i] == x,
{
    s.insert_ensures(i, x);
    let r = s.insert(i, x);
    assert forall|a: int, b: int| 0 <= a < r.len() && 0 <= b < r.len() && a != b implies r[a]
        != r[b] by {
        if a != i && b != i {
            let a2 = if a < i { a } else { a - 1 };
            let b2 = if b < i { b } else { b - 1 };
            assert(r[a] == s[a2]);
            assert(r[b] == s[b2]);
        } else if a == i {
            let b2 = if b < i { b } else { b - 1 };
            assert(r[b] == s[b2]);
        } else {
            let a2 = if a < i { a } else { a - 1 };
            assert(r[a] == s[a2]);
        }
    }
    assert forall|y: usize| #[trigger] r.contains(y) <==> (s.contains(y) || y == x) by {
        if r.contains(y) {
            let k = choose|k: int| 0 <= k < r.len() && r[k] == y;
            if k != i {
                let k2 = if k < i { k } else { k - 1 };
                assert(s[k2] == y);
            }
        }
        if s.contains(y) {
            let k = choose|k: int| 0 <= k < s.len() && s[k] == y;
            let k2 = if k < i { k } else { k + 1 };
            assert(r[k2] == y);
        }
        if y == x {
            assert(r[i] == y);
        }
    }
}

/// Overwriting the entry that holds `old` with a new id.
pub proof fn lemma_update(s: Seq<usize>, old: usize, new: usize)
    requires
        s.no_duplicates(),
        s.contains(old),
        !s.contains(new),
    ensures
        s.update(pos(s, old), new).no_duplicates(),
        forall|y: usize| #[trigger] s.update(pos(s, old), new).contains(y) <==> ((s.contains(y) && y != old) || y == new),
{
    lemma_pos(s, old);
    let i = pos(s, old);
    let r = s.update(i, new);
    assert forall|y: usize| #[trigger] r.contains(y) <==> ((s.contains(y) && y != old) || y == new) by {
        if r.contains(y) {
            let k = choose|k: int| 0 <= k < r.len() && r[k] == y;
            if k != i {
                assert(s[k] == y);
            }
        }
        if s.contains(y) && y != old {
            let k = choose|k: int| 0 <= k < s.len() && s[k] == y;
            assert(r[k] == y);
        }
        if y == new {
            assert(r[i] == y);
        }
    }
}

pub proof fn lemma_same_elements(a: Seq<usize>, b: Seq<usize>)
    requires
        same_elements(a, b),
    ensures
        forall|y: usize| a.contains(y) <==> b.contains(y),
{
    assert forall|y: usize| a.contains(y) <==> b.contains(y) by {
        if a.contains(y) {
            let k = choose|k: int| 0 <= k < a.len() && a[k] == y;
            assert(b.contains(a[k]));
        }
        if b.contains(y) {
            let k = choose|k: int| 0 <= k < b.len() && b[k] == y;
            assert(a.contains(b[k]));
        }
    }
}

pub proof fn lemma_same_elements_intro(a: Seq<usize>, b: Seq<usize>)
    requires
        forall|y: usize| a.contains(y) <==> b.contains(y),
    ensures
        same_elements(a, b),
{
    assert forall|k: int| 0 <= k < a.len() implies b.contains(#[trigger] a[k]) by {
        assert(a.contains(a[k]));
    }
    assert forall|k: int| 0 <= k < b.len() implies a.contains(#[trigger] b[k]) by {
        assert(b.contains(b[k]));
    }
}

/// A child of a well-formed tree has that node as its parent; so does the
/// converse hold.
pub proof fn lemma_child_parent(t: Seq<LinksView>, p: int, c: usize)
    requires
        tree_wf(t),
        0 <= p < t.len(),
        t[p].children.contains(c),
    ensures
        c < t.len(),
        t[c as int].parent == Some(p as usize),
{
    assert(node_wf(t, p));
    let k = choose|k: int| 0 <= k < t[p].children.len() && t[p].children[k] == c;
    assert(t[p].children[k] < t.len());
}

/// In a well-formed tree, a container without a parent is nobody's child.
pub proof fn lemma_orphan_not_child(t: Seq<LinksView>, c: usize, q: int)
    requires
        tree_wf(t),
        c < t.len(),
        t[c as int].parent is None,
        0 <= q < t.len(),
    ensures
        !t[q].children.contains(c),
{
    if t[q].children.contains(c) {
        lemma_child_parent(t, q, c);
    }
}

/// A container is a child only of its own parent.
pub proof fn lemma_only_parent(t: Seq<LinksView>, c: usize, q: int)
    requires
        tree_wf(t),
        c < t.len(),
        0 <= q < t.len(),
        t[c as int].parent != Some(q as usize),
    ensures
        !t[q].children.contains(c),
{
    if t[q].children.contains(c) {
        lemma_child_parent(t, q, c);
    }
}

pub proof fn lemma_detach_wf(t: Seq<LinksView>, cu: usize)
    requires
        tree_wf(t),
        cu < t.len(),
    ensures
        tree_wf(detach_spec(t, cu)),
        detach_spec(t, cu).len() == t.len(),
        detach_spec(t, cu)[cu as int].parent is None,
{
    let c = cu as int;
    if let Some(p) = t[c].parent {
        let p = p as int;
        assert(node_wf(t, c));
        assert(node_wf(t, p));
        lemma_without(t[p].children, c as usize);
        lemma_without(t[p].focus, c as usize);
        lemma_same_elements(t[p].children, t[p].focus);
        let r = detach_spec(t, cu);
        lemma_same_elements_intro(r[p].children, r[p].focus);
        assert forall|i: int| 0 <= i < r.len() implies #[trigger] node_wf(r, i) by {
            assert(node_wf(t, i));
            assert forall|k: int| 0 <= k < r[i].children.len() implies {
                &&& #[trigger] r[i].children[k] < r.len()
                &&& r[r[i].children[k] as int].parent == Some(i as usize)
            } by {
                let x = r[i].children[k];
                if i == p {
                    assert(r[i].children.contains(x));
                    assert(t[p].children.contains(x));
                    lemma_child_parent(t, p, x);
                } else {
                    assert(t[i].children[k] == x);
                    if x == c {
                        assert(t[i].children.contains(x));
                        lemma_only_parent(t, x, i);
                    }
                }
            }
            if let Some(q) = r[i].parent {
                if i != c {
                    assert(t[i].parent == Some(q));
                    if q == p {
                        assert(t[p].children.contains(i as usize));
                        assert(r[p].children.contains(i as usize));
                    }
                }
            }
        }
    }
}

pub proof fn lemma_attach_wf(t: Seq<LinksView>, cu: usize, pu: usize, index: int)
    requires
        tree_wf(t),
        cu < t.len(),
        pu < t.len(),
        cu != pu,
        t[cu as int].parent is None,
        0 <= index <= t[pu as int].children.len(),
    ensures
        tree_wf(attach_spec(t, cu, pu, index)),
        attach_spec(t, cu, pu, index).len() == t.len(),
{
    let c = cu as int;
    let p = pu as int;
    assert(node_wf(t, p));
    lemma_orphan_not_child(t, c as usize, p);
    lemma_same_elements(t[p].children, t[p].focus);
    lemma_insert(t[p].children, index, c as usize);
    let r = attach_spec(t, cu, pu, index);
    assert(r[p].focus == t[p].focus.push(c as usize));
    assert forall|y: usize| #[trigger] r[p].focus.contains(y) <==> (t[p].focus.contains(y) || y == c) by {
        if r[p].focus.contains(y) {
            let k = choose|k: int| 0 <= k < r[p].focus.len() && r[p].focus[k] == y;
            if k < t[p].focus.len() {
                assert(t[p].focus[k] == y);
            }
        }
        if t[p].focus.contains(y) {
            let k = choose|k: int| 0 <= k < t[p].focus.len() && t[p].focus[k] == y;
            assert(r[p].focus[k] == y);
        }
        if y == c {
            assert(r[p].focus[t[p].focus.len() as int] == y);
        }
    }
    assert(r[p].focus.no_duplicates()) by {
        assert forall|a: int, b: int|
            0 <= a < r[p].focus.len() && 0 <= b < r[p].focus.len() && a != b implies r[p].focus[a]
            != r[p].focus[b] by {
            if a < t[p].focus.len() && b < t[p].focus.len() {
            } else if a < t[p].focus.len() {
                assert(t[p].focus.contains(r[p].focus[a]));
            } else {
                assert(t[p].focus.contains(r[p].focus[b]));
            }
        }
    }
    lemma_same_elements_intro(r[p].children, r[p].focus);
    assert forall|i: int| 0 <= i < r.len() implies #[trigger] node_wf(r, i) by {
        assert(node_wf(t, i));
        assert forall|k: int| 0 <= k < r[i].children.len() implies {
            &&& #[trigger] r[i].children[k] < r.len()
            &&& r[r[i].children[k] as int].parent == Some(i as usize)
        } by {
            let x = r[i].children[k];
            if i == p {
                assert(r[i].children.contains(x));
                if x != c {
                    assert(t[p].children.contains(x));
                    lemma_child_parent(t, p, x);
                }
            } else {
                assert(t[i].children[k] == x);
                assert(t[i].children.contains(x));
                if x == c {
                    lemma_orphan_not_child(t, c as usize, i);
                }
            }
        }
        if let Some(q) = r[i].parent {
            if i != c {
                assert(t[i].parent == Some(q));
                if q == p {
                    assert(t[p].children.contains(i as usize));
                    assert(r[p].children.contains(i as usize));
                }
            } else {
                assert(r[p].children.contains(c as usize));
            }
        }
    }
}

pub proof fn lemma_replace_wf(t: Seq<LinksView>, pu: usize, oldu: usize, newu: usize)
    requires
        tree_wf(t),
        pu < t.len(),
        oldu < t.len(),
        newu < t.len(),
        newu != pu,
        t[oldu as int].parent == Some(pu),
        t[newu as int].parent is None,
    ensures
        tree_wf(replace_spec(t, pu, oldu, newu)),
        replace_spec(t, pu, oldu, newu).len() == t.len(),
{
    let p = pu as int;
    let old = oldu as int;
    let new = newu as int;
    assert(node_wf(t, p));
    assert(node_wf(t, old));
    lemma_orphan_not_child(t, new as usize, p);
    lemma_same_elements(t[p].children, t[p].focus);
    assert(old != new);
    lemma_update(t[p].children, old as usize, new as usize);
    lemma_update(t[p].focus, old as usize, new as usize);
    let r = replace_spec(t, pu, oldu, newu);
    lemma_same_elements_intro(r[p].children, r[p].focus);
    assert forall|i: int| 0 <= i < r.len() implies #[trigger] node_wf(r, i) by {
        assert(node_wf(t, i));
        assert forall|k: int| 0 <= k < r[i].children.len() implies {
            &&& #[trigger] r[i].children[k] < r.len()
            &&& r[r[i].children[k] as int].parent == Some(i as usize)
        } by {
            let x = r[i].children[k];
            if i == p {
                assert(r[i].children.contains(x));
                if x != new {
                    assert(t[p].children.contains(x));
                    lemma_child_parent(t, p, x);
                }
            } else {
                assert(t[i].children[k] == x);
                assert(t[i].children.contains(x));
                if x == new {
                    lemma_orphan_not_child(t, new as usize, i);
                }
                if x == old {
                    lemma_only_parent(t, old as usize, i);
                }
            }
        }
        if let Some(q) = r[i].parent {
            if i != new {
                assert(i != old);
                assert(t[i].parent == Some(q));
                if q == p {
                    assert(t[p].children.contains(i as usize));
                    assert(r[p].children.contains(i as usize));
                }
            } else {
                assert(r[p].children.contains(new as usize));
            }
        }
    }
}

/// Any reordering of a focus order that keeps its ids keeps the tree
/// well-formed.
pub proof fn lemma_set_focus_wf(t: Seq<LinksView>, pu: usize, f: Seq<usize>)
    requires
        tree_wf(t),
        pu < t.len(),
        f.no_duplicates(),
        forall|y: usize| #[trigger] f.contains(y) <==> t[pu as int].focus.contains(y),
    ensures
        tree_wf(set_focus_spec(t, pu, f)),
        set_focus_spec(t, pu, f).len() == t.len(),
{
    let p = pu as int;
    assert(node_wf(t, p));
    lemma_same_elements(t[p].children, t[p].focus);
    let r = set_focus_spec(t, pu, f);
    lemma_same_elements_intro(r[p].children, r[p].focus);
    assert forall|i: int| 0 <= i < r.len() implies #[trigger] node_wf(r, i) by {
        assert(node_wf(t, i));
        assert forall|k: int| 0 <= k < r[i].children.len() implies {
            &&& #[trigger] r[i].children[k] < r.len()
            &&& r[r[i].children[k] as int].parent == Some(i as usize)
        } by {
            assert(t[i].children[k] == r[i].children[k]);
        }
        if let Some(q) = r[i].parent {
            assert(t[q as int].children == r[q as int].children);
        }
    }
}

/// Any reordering of the children that keeps their ids keeps the tree
/// well-formed.
pub proof fn lemma_set_children_wf(t: Seq<LinksView>, pu: usize, ch: Seq<usize>)
    requires
        tree_wf(t),
        pu < t.len(),
        ch.no_duplicates(),
        forall|y: usize| #[trigger] ch.contains(y) <==> t[pu as int].children.contains(y),
    ensures
        tree_wf(set_children_spec(t, pu, ch)),
        set_children_spec(t, pu, ch).len() == t.len(),
{
    let p = pu as int;
    assert(node_wf(t, p));
    lemma_same_elements(t[p].children, t[p].focus);
    let r = set_children_spec(t, pu, ch);
    lemma_same_elements_intro(r[p].children, r[p].focus);
    assert forall|i: int| 0 <= i < r.len() implies #[trigger] node_wf(r, i) by {
        assert(node_wf(t, i));
        assert forall|k: int| 0 <= k < r[i].children.len() implies {
            &&& #[trigger] r[i].children[k] < r.len()
            &&& r[r[i].children[k] as int].parent == Some(i as usize)
        } by {
            let x = r[i].children[k];
            if i == p {
                assert(r[p].children.contains(x));
                lemma_child_parent(t, p, x);
            } else {
                assert(t[i].children[k] == x);
            }
        }
        if let Some(q) = r[i].parent {
            if q == p {
                assert(t[p].children.contains(i as usize));
                assert(r[p].children.contains(i as usize));
            } else {
                assert(t[q as int].children == r[q as int].children);
            }
        }
    }
}

/// Moving an id to the front keeps the ids of a list.
pub proof fn lemma_to_front(s: Seq<usize>, c: usize)
    requires
        s.no_duplicates(),
        s.contains(c),
    ensures
        to_front(s, c).no_duplicates(),
        forall|y: usize| #[trigger] to_front(s, c).contains(y) <==> s.contains(y),
        to_front(s, c)[0] == c,
        to_front(s, c).len() == s.len(),
{
    lemma_without(s, c);
    let w = without(s, c);
    let r = to_front(s, c);
    assert(r == w.insert(0, c)) by {
        assert(r =~= w.insert(0, c));
    }
    lemma_insert(w, 0, c);
}

/// Shifting an id within a list keeps its ids.
pub proof fn lemma_shift_to_index(s: Seq<usize>, index: int, c: usize)
    requires
        s.no_duplicates(),
        index >= 0,
    ensures
        shift_to_index(s, index, c).no_duplicates(),
        forall|y: usize| #[trigger] shift_to_index(s, index, c).contains(y) <==> s.contains(y),
        s.contains(c) ==> shift_to_index(s, index, c).len() == s.len(),
{
    if s.contains(c) {
        lemma_without(s, c);
        let w = without(s, c);
        lemma_insert(w, if index > w.len() { w.len() as int } else { index }, c);
    }
}

/// The links after `s`, the only child of `p`, is flattened into `p`:
/// `p` takes over `s`'s children and focus order, they name `p` as their
/// parent, and `s` is left detached and empty.
pub open spec fn flatten_spec(t: Seq<LinksView>, p: usize, s: usize) -> Seq<LinksView> {
    Seq::new(
        t.len(),
        |i: int|
            if i == p {
                LinksView { children: t[s as int].children, focus: t[s as int].focus, ..t[p as int] }
            } else if i == s {
                LinksView { parent: None, children: Seq::empty(), focus: Seq::empty() }
            } else if t[s as int].children.contains(i as usize) {
                LinksView { parent: Some(p), ..t[i] }
            } else {
                t[i]
            },
    )
}

pub proof fn lemma_flatten_wf(t: Seq<LinksView>, p: usize, s: usize)
    requires
        tree_wf(t),
        p < t.len(),
        t[p as int].children == seq![s],
        t[p as int].parent != Some(s),
    ensures
        tree_wf(flatten_spec(t, p, s)),
        flatten_spec(t, p, s).len() == t.len(),
{
    let r = flatten_spec(t, p, s);
    let kids = t[s as int].children;
    assert(node_wf(t, p as int));
    assert(t[p as int].children[0] == s);
    assert(s < t.len());
    assert(node_wf(t, s as int));
    assert(t[s as int].parent == Some(p));
    assert(s != p);
    lemma_same_elements(t[s as int].children, t[s as int].focus);
    assert forall|k: int| 0 <= k < kids.len() implies #[trigger] kids[k] != p && kids[k] != s && kids[k]
        < t.len() && t[kids[k] as int].parent == Some(s) by {}
    assert forall|i: int| 0 <= i < r.len() implies #[trigger] node_wf(r, i) by {
        assert(node_wf(t, i));
        if i == p as int {
            lemma_same_elements_intro(r[i].children, r[i].focus);
            assert forall|k: int| 0 <= k < r[i].children.len() implies {
                &&& #[trigger] r[i].children[k] < r.len()
                &&& r[r[i].children[k] as int].parent == Some(i as usize)
            } by {
                let c = kids[k];
                assert(kids.contains(c));
            }
            if let Some(q) = t[p as int].parent {
                assert(node_wf(t, q as int));
                assert(q != s);
                assert(r[q as int].children == t[q as int].children);
            }
        } else if i == s as int {
        } else if kids.contains(i as usize) {
            let j = choose|j: int| 0 <= j < kids.len() && kids[j] == i as usize;
            assert(t[i].parent == Some(s));
            assert forall|k: int| 0 <= k < r[i].children.len() implies {
                &&& #[trigger] r[i].children[k] < r.len()
                &&& r[r[i].children[k] as int].parent == Some(i as usize)
            } by {
                let c = t[i].children[k];
                assert(t[c as int].parent == Some(i as usize));
                assert(c != s);
                if kids.contains(c) {
                    let j2 = choose|j2: int| 0 <= j2 < kids.len() && kids[j2] == c;
                }
            }
            assert(r[p as int].children.contains(i as usize));
        } else {
            assert forall|k: int| 0 <= k < r[i].children.len() implies {
                &&& #[trigger] r[i].children[k] < r.len()
                &&& r[r[i].children[k] as int].parent == Some(i as usize)
            } by {
                let c = t[i].children[k];
                assert(t[c as int].parent == Some(i as usize));
                if c == s {
                    assert(i == p as int);
                }
                if kids.contains(c) {
                    let j2 = choose|j2: int| 0 <= j2 < kids.len() && kids[j2] == c;
                }
            }
            if let Some(q) = t[i].parent {
                assert(node_wf(t, q as int));
                if q == p {
                    assert(t[p as int].children.contains(i as usize));
                    let j3 = choose|j3: int| 0 <= j3 < 1 && t[p as int].children[j3] == i as usize;
                }
                if q == s {
                    assert(kids.contains(i as usize));
                }
                assert(r[q as int].children == t[q as int].children);
            }
        }
    }
}

} // verus!
