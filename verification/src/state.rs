//! The window manager's state: the container arena, its well-formedness
//! and the primitive edits of the tree.

use vstd::prelude::*;

use crate::model::{ContainerData, ContainerKind, Rect, WindowData, WindowState};
use crate::seqs::find_index;
use crate::session::PersistenceState;
use crate::tree::{
    flatten_spec, lemma_flatten_wf, attach_spec, detach_spec, lemma_attach_wf, lemma_detach_wf, lemma_pos, lemma_replace_wf,
    lemma_same_elements, lemma_set_children_wf, lemma_set_focus_wf, lemma_shift_to_index,
    lemma_to_front, links_view, node_wf, replace_spec, set_children_spec, set_focus_spec,
    shift_to_index, to_front, tree_wf, without, Links, LinksView,
};

verus! {

/// Work queued for the platform layer after a command has run.
pub struct PendingSync {
    pub containers_to_redraw: Vec<usize>,
    pub workspaces_to_reorder: Vec<usize>,
    pub focus_change: bool,
    pub cursor_jump: bool,
}

impl PendingSync {
    pub fn new() -> (r: PendingSync)
        ensures
            r.containers_to_redraw@ == Seq::<usize>::empty(),
            r.workspaces_to_reorder@ == Seq::<usize>::empty(),
            !r.focus_change,
            !r.cursor_jump,
    {
        PendingSync {
            containers_to_redraw: Vec::new(),
            workspaces_to_reorder: Vec::new(),
            focus_change: false,
            cursor_jump: false,
        }
    }
}

/// `s` with `x` appended unless it already holds it.
pub open spec fn queued(s: Seq<usize>, x: usize) -> Seq<usize> {
    if s.contains(x) {
        s
    } else {
        s.push(x)
    }
}

pub fn push_unique(v: &mut Vec<usize>, x: usize)
    ensures
        final(v)@ == queued(old(v)@, x),
{
    match find_index(v, x) {
        Some(_) => {
            proof {
                lemma_pos(old(v)@, x);
            }
        },
        None => {
            proof {
                lemma_pos(old(v)@, x);
            }
            v.push(x);
        },
    }
}

impl PendingSync {
    pub fn queue_container_to_redraw(&mut self, c: usize)
        ensures
            final(self).containers_to_redraw@ == queued(old(self).containers_to_redraw@, c),
            final(self).workspaces_to_reorder == old(self).workspaces_to_reorder,
            final(self).focus_change == old(self).focus_change,
            final(self).cursor_jump == old(self).cursor_jump,
    {
        push_unique(&mut self.containers_to_redraw, c);
    }

    pub fn queue_workspace_to_reorder(&mut self, c: usize)
        ensures
            final(self).workspaces_to_reorder@ == queued(old(self).workspaces_to_reorder@, c),
            final(self).containers_to_redraw == old(self).containers_to_redraw,
            final(self).focus_change == old(self).focus_change,
            final(self).cursor_jump == old(self).cursor_jump,
    {
        push_unique(&mut self.workspaces_to_reorder, c);
    }

    pub fn dequeue_container_from_redraw(&mut self, c: usize)
        ensures
            final(self).containers_to_redraw@ == without(old(self).containers_to_redraw@, c),
            final(self).workspaces_to_reorder == old(self).workspaces_to_reorder,
            final(self).focus_change == old(self).focus_change,
            final(self).cursor_jump == old(self).cursor_jump,
    {
        proof {
            lemma_pos(self.containers_to_redraw@, c);
        }
        match find_index(&self.containers_to_redraw, c) {
            Some(i) => {
                self.containers_to_redraw.remove(i);
            },
            None => {},
        }
    }
}

/// Whether a container of kind `child` may hang under one of kind `parent`.
pub open spec fn parent_kind_ok(child: ContainerKind, parent: ContainerKind) -> bool {
    match child {
        ContainerKind::Root => false,
        ContainerKind::Monitor => parent == ContainerKind::Root,
        ContainerKind::Workspace => parent == ContainerKind::Monitor,
        _ => parent == ContainerKind::Workspace || parent == ContainerKind::Split || parent
            == ContainerKind::Stack,
    }
}

/// Splits, stacks and tiling windows take part in the tiling layout.
pub open spec fn is_tiling(d: ContainerData) -> bool {
    ||| d.kind == ContainerKind::Split
    ||| d.kind == ContainerKind::Stack
    ||| (d.kind == ContainerKind::Window && d.window.state == WindowState::Tiling)
}

pub open spec fn with_tiling_size(d: ContainerData, size: u32) -> ContainerData {
    ContainerData { tiling_size: size, ..d }
}

pub open spec fn with_window_state(d: ContainerData, state: WindowState) -> ContainerData {
    ContainerData { window: WindowData { state, ..d.window }, ..d }
}

pub open spec fn with_floating_placement(d: ContainerData, placement: Rect, custom: bool) -> ContainerData {
    ContainerData {
        window: WindowData {
            floating_placement: placement,
            has_custom_floating_placement: custom,
            ..d.window
        },
        ..d
    }
}

/// Mathematical view of the container tree: links, data and the root.
pub struct TreeView {
    pub links: Seq<LinksView>,
    pub data: Seq<ContainerData>,
    pub root: usize,
}

impl TreeView {
    pub open spec fn len(self) -> nat {
        self.links.len()
    }

    pub open spec fn parent_of(self, c: usize) -> Option<usize> {
        self.links[c as int].parent
    }

    pub open spec fn children_of(self, c: usize) -> Seq<usize> {
        self.links[c as int].children
    }

    pub open spec fn focus_of(self, c: usize) -> Seq<usize> {
        self.links[c as int].focus
    }

    pub open spec fn kind_of(self, c: usize) -> ContainerKind {
        self.data[c as int].kind
    }

    /// See [`WmState::wf`].
    pub open spec fn wf(self) -> bool {
        &&& self.links.len() == self.data.len()
        &&& self.root < self.links.len()
        &&& self.links[self.root as int].parent is None
        &&& self.data[self.root as int].kind == ContainerKind::Root
        &&& tree_wf(self.links)
        &&& self.layered()
    }

    /// Every attached container hangs under a container of the right kind:
    /// monitors under the root, workspaces under monitors, and splits,
    /// stacks and windows under workspaces, splits or stacks.
    pub open spec fn layered(self) -> bool {
        forall|i: int|
            0 <= i < self.links.len() ==> ((#[trigger] self.links[i]).parent matches Some(p)
                ==> parent_kind_ok(self.data[i].kind, self.data[p as int].kind))
    }

    pub open spec fn with_links(self, links: Seq<LinksView>) -> TreeView {
        TreeView { links, ..self }
    }

    pub open spec fn with_data(self, data: Seq<ContainerData>) -> TreeView {
        TreeView { data, ..self }
    }
}

/// The window manager's state. Containers are identified by their index
/// in the arena; `links` and `data` run in parallel.
pub struct WmState {
    pub links: Vec<Links>,
    pub data: Vec<ContainerData>,
    pub root: usize,
    pub pending_sync: PendingSync,
    pub persistence: PersistenceState,
}

impl WmState {
    pub open spec fn lv(&self) -> Seq<LinksView> {
        links_view(self.links@)
    }

    pub open spec fn tv(&self) -> TreeView {
        TreeView { links: self.lv(), data: self.data@, root: self.root }
    }

    pub open spec fn len(&self) -> nat {
        self.links@.len()
    }

    pub open spec fn parent_of(&self, c: usize) -> Option<usize> {
        self.lv()[c as int].parent
    }

    pub open spec fn children_of(&self, c: usize) -> Seq<usize> {
        self.lv()[c as int].children
    }

    pub open spec fn focus_of(&self, c: usize) -> Seq<usize> {
        self.lv()[c as int].focus
    }

    pub open spec fn kind_of(&self, c: usize) -> ContainerKind {
        self.data@[c as int].kind
    }

    /// The arena is consistent: one data entry per container, the root is
    /// a parentless root container and the links form a well-formed tree.
    pub open spec fn wf(&self) -> bool {
        self.tv().wf()
    }

    /// Everything but the links is as in `old`.
    pub open spec fn same_data(&self, old: &WmState) -> bool {
        &&& self.data == old.data
        &&& self.root == old.root
        &&& self.pending_sync == old.pending_sync
        &&& self.persistence == old.persistence
    }

    /// Everything but the data is as in `old`.
    pub open spec fn same_links(&self, old: &WmState) -> bool {
        &&& self.links == old.links
        &&& self.root == old.root
        &&& self.pending_sync == old.pending_sync
        &&& self.persistence == old.persistence
    }

    /// A state with only the root container.
    pub fn new() -> (r: WmState)
        ensures
            r.wf(),
            r.len() == 1,
            r.root == 0,
            r.children_of(0) == Seq::<usize>::empty(),
            r.pending_sync.containers_to_redraw@ == Seq::<usize>::empty(),
            r.pending_sync.workspaces_to_reorder@ == Seq::<usize>::empty(),
            !r.pending_sync.focus_change,
            !r.pending_sync.cursor_jump,
            r.persistence.session is None,
            r.persistence.used_entries@ == Set::<usize>::empty(),
    {
        let mut links = Vec::new();
        links.push(Links::detached());
        let mut data = Vec::new();
        data.push(ContainerData::root());
        let r = WmState {
            links,
            data,
            root: 0,
            pending_sync: PendingSync::new(),
            persistence: PersistenceState::new(),
        };
        assert(node_wf(r.lv(), 0));
        r
    }

    /// Adds a container that is not attached to the tree and returns its id.
    pub fn add_container(&mut self, d: ContainerData) -> (id: usize)
        requires
            old(self).wf(),
            old(self).len() < usize::MAX,
        ensures
            final(self).wf(),
            final(self).persistence == old(self).persistence,
            id == old(self).len(),
            final(self).len() == old(self).len() + 1,
            final(self).lv() == old(self).lv().push(
                LinksView { parent: None, children: Seq::empty(), focus: Seq::empty() },
            ),
            final(self).data@ == old(self).data@.push(d),
            final(self).root == old(self).root,
            final(self).pending_sync == old(self).pending_sync,
    {
        let id = self.links.len();
        let ghost t = self.lv();
        let ghost v0 = self.tv();
        self.links.push(Links::detached());
        self.data.push(d);
        proof {
            let r = self.lv();
            assert(r =~= t.push(
                LinksView { parent: None, children: Seq::empty(), focus: Seq::empty() },
            ));
            assert forall|i: int| 0 <= i < r.len() implies ((#[trigger] self.tv().links[i]).parent matches Some(p)
                ==> parent_kind_ok(self.tv().data[i].kind, self.tv().data[p as int].kind)) by {
                if i < t.len() {
                    assert(v0.links[i] == self.tv().links[i]);
                    assert(v0.data[i] == self.tv().data[i]);
                    if let Some(p) = v0.links[i].parent {
                        assert(node_wf(t, i));
                        assert(v0.data[p as int] == self.tv().data[p as int]);
                    }
                }
            }
            assert forall|i: int| 0 <= i < r.len() implies #[trigger] node_wf(r, i) by {
                if i < t.len() {
                    assert(node_wf(t, i));
                    assert forall|k: int| 0 <= k < r[i].children.len() implies {
                        &&& #[trigger] r[i].children[k] < r.len()
                        &&& r[r[i].children[k] as int].parent == Some(i as usize)
                    } by {
                        assert(t[i].children[k] < t.len());
                    }
                    if let Some(q) = r[i].parent {
                        assert(r[q as int] == t[q as int]);
                    }
                }
            }
        }
        id
    }

    /// Detaches `c` from its parent (if any).
    pub fn detach(&mut self, c: usize)
        requires
            old(self).wf(),
            c < old(self).len(),
        ensures
            final(self).wf(),
            final(self).persistence == old(self).persistence,
            final(self).len() == old(self).len(),
            final(self).lv() == detach_spec(old(self).lv(), c),
            final(self).same_data(old(self)),
    {
        let ghost t = self.lv();
        proof {
            lemma_detach_wf(t, c);
            assert(node_wf(t, c as int));
        }
        match self.links[c].parent {
            None => {},
            Some(p) => {
                proof {
                    assert(node_wf(t, p as int));
                    lemma_pos(t[p as int].children, c);
                    lemma_same_elements(t[p as int].children, t[p as int].focus);
                    lemma_pos(t[p as int].focus, c);
                }
                let i = find_index(&self.links[p].children, c).unwrap();
                self.links[p].children.remove(i);
                let j = find_index(&self.links[p].focus_order, c).unwrap();
                self.links[p].focus_order.remove(j);
                self.links[c].parent = None;
                assert(self.lv() =~= detach_spec(t, c));
            },
        }
    }

    /// Attaches the parentless `c` to `p` at `index`, last in focus order.
    pub fn attach(&mut self, c: usize, p: usize, index: usize)
        requires
            old(self).wf(),
            c < old(self).len(),
            p < old(self).len(),
            c != p,
            c != old(self).root,
            old(self).parent_of(c) is None,
            parent_kind_ok(old(self).kind_of(c), old(self).kind_of(p)),
            index <= old(self).children_of(p).len(),
        ensures
            final(self).wf(),
            final(self).persistence == old(self).persistence,
            final(self).len() == old(self).len(),
            final(self).lv() == attach_spec(old(self).lv(), c, p, index as int),
            final(self).same_data(old(self)),
    {
        let ghost t = self.lv();
        proof {
            lemma_attach_wf(t, c, p, index as int);
        }
        self.links[p].children.insert(index, c);
        self.links[p].focus_order.push(c);
        self.links[c].parent = Some(p);
        assert(self.lv() =~= attach_spec(t, c, p, index as int));
    }

    /// Puts the parentless `next` in the place of `prev` among the children
    /// and the focus order of `prev`'s parent `p`.
    pub fn replace_child(&mut self, p: usize, prev: usize, next: usize)
        requires
            old(self).wf(),
            prev < old(self).len(),
            next < old(self).len(),
            p < old(self).len(),
            next != p,
            next != old(self).root,
            old(self).parent_of(prev) == Some(p),
            old(self).parent_of(next) is None,
            parent_kind_ok(old(self).kind_of(next), old(self).kind_of(p)),
        ensures
            final(self).wf(),
            final(self).persistence == old(self).persistence,
            final(self).len() == old(self).len(),
            final(self).lv() == replace_spec(old(self).lv(), p, prev, next),
            final(self).same_data(old(self)),
    {
        let ghost t = self.lv();
        proof {
            lemma_replace_wf(t, p, prev, next);
            assert(node_wf(t, prev as int));
            assert(node_wf(t, p as int));
            lemma_pos(t[p as int].children, prev);
            lemma_same_elements(t[p as int].children, t[p as int].focus);
            lemma_pos(t[p as int].focus, prev);
        }
        let i = find_index(&self.links[p].children, prev).unwrap();
        self.links[p].children.set(i, next);
        let j = find_index(&self.links[p].focus_order, prev).unwrap();
        self.links[p].focus_order.set(j, next);
        self.links[prev].parent = None;
        self.links[next].parent = Some(p);
        assert(self.lv() =~= replace_spec(t, p, prev, next));
    }

    /// Moves `c` to the front of `p`'s focus order.
    pub fn focus_to_front(&mut self, p: usize, c: usize)
        requires
            old(self).wf(),
            p < old(self).len(),
            old(self).focus_of(p).contains(c),
        ensures
            final(self).wf(),
            final(self).persistence == old(self).persistence,
            final(self).len() == old(self).len(),
            final(self).lv() == set_focus_spec(old(self).lv(), p, to_front(old(self).focus_of(p), c)),
            final(self).same_data(old(self)),
    {
        let ghost t = self.lv();
        proof {
            assert(node_wf(t, p as int));
            lemma_to_front(t[p as int].focus, c);
            lemma_set_focus_wf(t, p, to_front(t[p as int].focus, c));
            lemma_pos(t[p as int].focus, c);
        }
        let j = find_index(&self.links[p].focus_order, c).unwrap();
        self.links[p].focus_order.remove(j);
        self.links[p].focus_order.insert(0, c);
        assert(self.links@[p as int].focus_order@ =~= to_front(t[p as int].focus, c));
        assert(self.lv() =~= set_focus_spec(t, p, to_front(t[p as int].focus, c)));
    }

    /// Moves `c` to position `index` (clamped) of `p`'s focus order.
    pub fn shift_focus_to_index(&mut self, p: usize, index: usize, c: usize)
        requires
            old(self).wf(),
            p < old(self).len(),
        ensures
            final(self).wf(),
            final(self).persistence == old(self).persistence,
            final(self).len() == old(self).len(),
            final(self).lv() == set_focus_spec(
                old(self).lv(),
                p,
                shift_to_index(old(self).focus_of(p), index as int, c),
            ),
            final(self).same_data(old(self)),
    {
        let ghost t = self.lv();
        proof {
            assert(node_wf(t, p as int));
            lemma_shift_to_index(t[p as int].focus, index as int, c);
            lemma_set_focus_wf(t, p, shift_to_index(t[p as int].focus, index as int, c));
            lemma_pos(t[p as int].focus, c);
        }
        match find_index(&self.links[p].focus_order, c) {
            Some(j) => {
                self.links[p].focus_order.remove(j);
                let len = self.links[p].focus_order.len();
                let at = if index > len {
                    len
                } else {
                    index
                };
                self.links[p].focus_order.insert(at, c);
            },
            None => {},
        }
        assert(self.links@[p as int].focus_order@ =~= shift_to_index(t[p as int].focus, index as int, c));
        assert(self.lv() =~= set_focus_spec(t, p, shift_to_index(t[p as int].focus, index as int, c)));
    }

    /// Makes `ch`, which holds the same ids as the children of `p`, the
    /// new order of those children.
    pub fn set_children(&mut self, p: usize, ch: Vec<usize>)
        requires
            old(self).wf(),
            p < old(self).len(),
            ch@.no_duplicates(),
            forall|y: usize| #[trigger] ch@.contains(y) <==> old(self).children_of(p).contains(y),
        ensures
            final(self).wf(),
            final(self).len() == old(self).len(),
            final(self).lv() == set_children_spec(old(self).lv(), p, ch@),
            final(self).same_data(old(self)),
    {
        let ghost t = self.lv();
        proof {
            lemma_set_children_wf(t, p, ch@);
        }
        self.links[p].children = ch;
        assert(self.lv() =~= set_children_spec(t, p, self.links@[p as int].children@));
    }

    /// Moves `c` to position `index` (clamped) of `p`'s children.
    pub fn shift_child_to_index(&mut self, p: usize, index: usize, c: usize)
        requires
            old(self).wf(),
            p < old(self).len(),
        ensures
            final(self).wf(),
            final(self).persistence == old(self).persistence,
            final(self).len() == old(self).len(),
            final(self).lv() == set_children_spec(
                old(self).lv(),
                p,
                shift_to_index(old(self).children_of(p), index as int, c),
            ),
            final(self).same_data(old(self)),
    {
        let ghost t = self.lv();
        proof {
            assert(node_wf(t, p as int));
            lemma_shift_to_index(t[p as int].children, index as int, c);
            lemma_set_children_wf(t, p, shift_to_index(t[p as int].children, index as int, c));
            lemma_pos(t[p as int].children, c);
        }
        match find_index(&self.links[p].children, c) {
            Some(j) => {
                self.links[p].children.remove(j);
                let len = self.links[p].children.len();
                let at = if index > len {
                    len
                } else {
                    index
                };
                self.links[p].children.insert(at, c);
            },
            None => {},
        }
        assert(self.links@[p as int].children@ =~= shift_to_index(t[p as int].children, index as int, c));
        assert(self.lv() =~= set_children_spec(t, p, shift_to_index(t[p as int].children, index as int, c)));
    }
}

impl WmState {
    /// Whether `c` takes part in the tiling layout.
    pub fn is_tiling_container(&self, c: usize) -> (r: bool)
        requires
            c < self.data@.len(),
        ensures
            r == is_tiling(self.data@[c as int]),
    {
        match self.data[c].kind {
            ContainerKind::Split => true,
            ContainerKind::Stack => true,
            ContainerKind::Window => match self.data[c].window.state {
                WindowState::Tiling => true,
                _ => false,
            },
            _ => false,
        }
    }

    pub fn set_tiling_size(&mut self, c: usize, size: u32)
        requires
            old(self).wf(),
            c < old(self).len(),
        ensures
            final(self).wf(),
            final(self).persistence == old(self).persistence,
            final(self).data@ == old(self).data@.update(c as int, with_tiling_size(old(self).data@[c as int], size)),
            final(self).same_links(old(self)),
    {
        let ghost v0 = self.tv();
        self.data[c].tiling_size = size;
        assert(self.lv() == v0.links);
        assert forall|i: int| 0 <= i < self.tv().links.len() implies ((
        #[trigger] self.tv().links[i]).parent matches Some(p) ==> parent_kind_ok(
            self.tv().data[i].kind,
            self.tv().data[p as int].kind,
        )) by {
            assert(v0.links[i] == self.tv().links[i]);
            if let Some(p) = v0.links[i].parent {
                assert(node_wf(v0.links, i));
                assert(v0.data[p as int].kind == self.tv().data[p as int].kind);
                assert(v0.data[i].kind == self.tv().data[i].kind);
            }
        }
    }
}

/// Changing data without changing kinds keeps a tree well-formed.
pub proof fn lemma_same_kinds_wf(a: TreeView, b: TreeView)
    requires
        a.wf(),
        a.links == b.links,
        a.root == b.root,
        a.data.len() == b.data.len(),
        forall|i: int| 0 <= i < a.data.len() ==> (#[trigger] b.data[i]).kind == a.data[i].kind,
    ensures
        b.wf(),
{
    assert forall|i: int| 0 <= i < b.links.len() implies ((#[trigger] b.links[i]).parent matches Some(
        p,
    ) ==> parent_kind_ok(b.data[i].kind, b.data[p as int].kind)) by {
        if let Some(p) = b.links[i].parent {
            assert(node_wf(a.links, i));
            assert(a.links[i] == b.links[i]);
            assert(b.data[p as int].kind == a.data[p as int].kind);
        }
    }
}

/// Copies the ids of `v`.
fn copy_ids(v: &Vec<usize>) -> (r: Vec<usize>)
    ensures
        r@ == v@,
{
    let mut r: Vec<usize> = Vec::new();
    let mut i: usize = 0;
    while i < v.len()
        invariant
            i <= v.len(),
            r@ == v@.take(i as int),
        decreases v.len() - i,
    {
        assert(v@.take(i + 1) =~= v@.take(i as int).push(v@[i as int]));
        r.push(v[i]);
        i = i + 1;
    }
    assert(v@.take(i as int) =~= v@);
    r
}

impl WmState {
    /// Flattens the split `s`, the only child of the workspace or split
    /// `p`, into `p`: `p` takes over `s`'s children, focus order and tiling
    /// direction, and `s` is left detached and empty.
    pub fn flatten_split(&mut self, p: usize, s: usize)
        requires
            old(self).wf(),
            p < old(self).len(),
            old(self).children_of(p) == seq![s],
            old(self).parent_of(p) != Some(s),
            old(self).kind_of(p) == ContainerKind::Workspace || old(self).kind_of(p) == ContainerKind::Split,
            old(self).kind_of(s) == ContainerKind::Split,
        ensures
            final(self).wf(),
            final(self).lv() == flatten_spec(old(self).lv(), p, s),
            final(self).data@ == old(self).data@.update(
                p as int,
                ContainerData { tiling_direction: old(self).data@[s as int].tiling_direction, ..old(self).data@[p as int] },
            ),
            final(self).root == old(self).root,
            final(self).pending_sync == old(self).pending_sync,
            final(self).persistence == old(self).persistence,
    {
        let ghost t = self.lv();
        let ghost v0 = self.tv();
        proof {
            lemma_flatten_wf(t, p, s);
            assert(node_wf(t, p as int));
            assert(t[p as int].children[0] == s);
            assert(node_wf(t, s as int));
            assert forall|k: int| 0 <= k < t[s as int].children.len() implies #[trigger] t[s as int].children[k]
                != p && t[s as int].children[k] != s by {
                let c = t[s as int].children[k];
                assert(t[c as int].parent == Some(s));
            }
        }
        let kids = copy_ids(&self.links[s].children);
        let focus = copy_ids(&self.links[s].focus_order);
        let ghost ks = kids@;
        let n = kids.len();
        let mut j: usize = 0;
        assert(ks.take(0) =~= Seq::<usize>::empty());
        while j < n
            invariant
                n == ks.len(),
                ks == kids@,
                ks == t[s as int].children,
                j <= n,
                self.links@.len() == t.len(),
                t.len() <= usize::MAX,
                self.data == old(self).data,
                self.root == old(self).root,
                self.pending_sync == old(self).pending_sync,
                self.persistence == old(self).persistence,
                forall|k: int| 0 <= k < ks.len() ==> #[trigger] ks[k] < t.len(),
                forall|i: int|
                    0 <= i < t.len() ==> #[trigger] self.lv()[i] == if ks.take(j as int).contains(i as usize) {
                        LinksView { parent: Some(p), ..t[i] }
                    } else {
                        t[i]
                    },
            decreases n - j,
        {
            let c = kids[j];
            let ghost before = self.lv();
            self.links[c].parent = Some(p);
            proof {
                assert(ks.take(j + 1) =~= ks.take(j as int).push(c));
                assert(ks.take(j + 1)[j as int] == c);
                assert forall|i: int| 0 <= i < t.len() implies #[trigger] self.lv()[i] == if ks.take(
                    j + 1,
                ).contains(i as usize) {
                    LinksView { parent: Some(p), ..t[i] }
                } else {
                    t[i]
                } by {
                    if i == c as int {
                        assert(ks.take(j + 1).contains(c));
                        assert(before[i] == (if ks.take(j as int).contains(i as usize) {
                            LinksView { parent: Some(p), ..t[i] }
                        } else {
                            t[i]
                        }));
                    } else {
                        assert(self.lv()[i] == before[i]);
                        let s1 = ks.take(j + 1);
                        let s0 = ks.take(j as int);
                        if s1.contains(i as usize) {
                            let k = choose|k: int| 0 <= k < s1.len() && s1[k] == i as usize;
                            assert(s1[j as int] == c);
                            assert(k < j);
                            assert(s0[k] == i as usize);
                        }
                        if s0.contains(i as usize) {
                            let k = choose|k: int| 0 <= k < s0.len() && s0[k] == i as usize;
                            assert(s1[k] == i as usize);
                        }
                    }
                }
            }
            j = j + 1;
        }
        assert(ks.take(n as int) =~= ks);
        let ghost after_loop = self.lv();
        assert(after_loop[p as int] == t[p as int]);
        self.links[p].children = kids;
        self.links[p].focus_order = focus;
        self.links.set(s, Links::detached());
        let dir = self.data[s].tiling_direction;
        self.data[p].tiling_direction = dir;
        proof {
            let r = flatten_spec(t, p, s);
            assert(self.lv() =~= r) by {
                assert forall|i: int| 0 <= i < t.len() implies #[trigger] self.lv()[i] == r[i] by {
                    if i != p as int && i != s as int {
                        assert(self.lv()[i] == after_loop[i]);
                    }
                    if ks.contains(i as usize) {
                        let k = choose|k: int| 0 <= k < ks.len() && ks[k] == i as usize;
                        assert(i != p as int && i != s as int);
                    }
                }
            }
            let v = self.tv();
            assert forall|i: int| 0 <= i < v.links.len() implies ((#[trigger] v.links[i]).parent matches Some(q)
                ==> parent_kind_ok(v.data[i].kind, v.data[q as int].kind)) by {
                assert(v.data[i].kind == v0.data[i].kind);
                if let Some(q) = v.links[i].parent {
                    if ks.contains(i as usize) && i != p as int && i != s as int {
                        let k = choose|k: int| 0 <= k < ks.len() && ks[k] == i as usize;
                        assert(node_wf(t, s as int));
                        assert(t[i].parent == Some(s));
                        assert(parent_kind_ok(v0.data[i].kind, v0.data[s as int].kind));
                    } else {
                        assert(v0.links[i].parent == Some(q) || i == s as int);
                        assert(node_wf(t, i));
                        assert(v0.data[q as int].kind == v.data[q as int].kind);
                    }
                }
            }
        }
    }

    /// Sets the state of window `w`.
    pub fn set_window_state(&mut self, w: usize, state: WindowState)
        requires
            old(self).wf(),
            w < old(self).len(),
        ensures
            final(self).wf(),
            final(self).data@ == old(self).data@.update(w as int, with_window_state(old(self).data@[w as int], state)),
            final(self).same_links(old(self)),
    {
        let ghost v0 = self.tv();
        self.data[w].window.state = state;
        proof {
            lemma_same_kinds_wf(v0, self.tv());
        }
    }

    /// Sets or clears the drag of window `w`.
    pub fn set_active_drag(&mut self, w: usize, drag: Option<crate::model::ActiveDrag>)
        requires
            old(self).wf(),
            w < old(self).len(),
        ensures
            final(self).wf(),
            final(self).data@ == old(self).data@.update(
                w as int,
                ContainerData { window: WindowData { active_drag: drag, ..old(self).data@[w as int].window }, ..old(self).data@[w as int] },
            ),
            final(self).same_links(old(self)),
    {
        let ghost v0 = self.tv();
        self.data[w].window.active_drag = drag;
        proof {
            lemma_same_kinds_wf(v0, self.tv());
        }
    }

    /// Records where container `c` was laid out.
    pub fn set_rect(&mut self, c: usize, rect: Rect)
        requires
            old(self).wf(),
            c < old(self).len(),
        ensures
            final(self).wf(),
            final(self).data@ == old(self).data@.update(c as int, ContainerData { rect, ..old(self).data@[c as int] }),
            final(self).same_links(old(self)),
    {
        let ghost v0 = self.tv();
        self.data[c].rect = rect;
        proof {
            lemma_same_kinds_wf(v0, self.tv());
        }
    }

    /// Records whether the platform reports window `w` as maximized.
    pub fn set_maximized(&mut self, w: usize, maximized: bool)
        requires
            old(self).wf(),
            w < old(self).len(),
        ensures
            final(self).wf(),
            final(self).data@ == old(self).data@.update(
                w as int,
                ContainerData {
                    window: WindowData {
                        native: crate::model::NativeWindowProperties {
                            is_maximized: maximized,
                            ..old(self).data@[w as int].window.native
                        },
                        ..old(self).data@[w as int].window
                    },
                    ..old(self).data@[w as int]
                },
            ),
            final(self).same_links(old(self)),
    {
        let ghost v0 = self.tv();
        self.data[w].window.native.is_maximized = maximized;
        proof {
            lemma_same_kinds_wf(v0, self.tv());
        }
    }

    /// Sets where window `w` goes when it floats, and whether that place
    /// was chosen by the user.
    pub fn set_floating_placement(&mut self, w: usize, placement: Rect, custom: bool)
        requires
            old(self).wf(),
            w < old(self).len(),
        ensures
            final(self).wf(),
            final(self).data@ == old(self).data@.update(
                w as int,
                with_floating_placement(old(self).data@[w as int], placement, custom),
            ),
            final(self).same_links(old(self)),
    {
        let ghost v0 = self.tv();
        self.data[w].window.floating_placement = placement;
        self.data[w].window.has_custom_floating_placement = custom;
        proof {
            lemma_same_kinds_wf(v0, self.tv());
        }
    }

    /// Sets the workspace monitor `m` remembers as recently displayed.
    pub fn set_recent_workspace_name(&mut self, m: usize, name: String)
        requires
            old(self).wf(),
            m < old(self).len(),
        ensures
            final(self).wf(),
            final(self).persistence == old(self).persistence,
            final(self).data@ == old(self).data@.update(
                m as int,
                ContainerData { recent_workspace_name: Some(name), ..old(self).data@[m as int] },
            ),
            final(self).same_links(old(self)),
    {
        let ghost v0 = self.tv();
        self.data[m].recent_workspace_name = Some(name);
        proof {
            lemma_same_kinds_wf(v0, self.tv());
        }
    }
}

} // verus!
