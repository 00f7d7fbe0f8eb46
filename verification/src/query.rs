//! Read-only walks of the container tree and the focus walk.

use vstd::prelude::*;

use crate::model::ContainerKind;
use crate::seqs::{find_index, str_equal};
use crate::state::{TreeView, WmState};
use crate::tree::{
    lemma_pos, lemma_same_elements, lemma_set_focus_wf, lemma_to_front, node_wf, pos,
    set_focus_spec, to_front, tree_wf, LinksView,
};

verus! {

/// The first of `c` and its ancestors, within `fuel` steps up, whose kind
/// is `kind`.
pub open spec fn find_up(s: TreeView, c: usize, kind: ContainerKind, fuel: nat) -> Option<usize>
    decreases fuel,
{
    if s.kind_of(c) == kind {
        Some(c)
    } else if fuel == 0 {
        None
    } else {
        match s.parent_of(c) {
            None => None,
            Some(p) => find_up(s, p, kind, (fuel - 1) as nat),
        }
    }
}

/// `c` or its closest ancestor of kind `kind`.
pub open spec fn ancestor_of_kind(s: TreeView, c: usize, kind: ContainerKind) -> Option<usize> {
    find_up(s, c, kind, s.len())
}

/// The links after focusing `c`: walking up from `c`, each ancestor puts
/// the child on the walk's path first in its focus order. The walk stops
/// at the root or at an ancestor it has already visited.
pub open spec fn focus_walk(t: Seq<LinksView>, c: usize, visited: Set<usize>, fuel: nat) -> Seq<
    LinksView,
>
    decreases fuel,
{
    if fuel == 0 {
        t
    } else {
        match t[c as int].parent {
            None => t,
            Some(p) => if visited.contains(p) {
                t
            } else {
                focus_walk(
                    set_focus_spec(t, p, to_front(t[p as int].focus, c)),
                    p,
                    visited.insert(p),
                    (fuel - 1) as nat,
                )
            },
        }
    }
}

/// The links after `c` becomes the focused container.
pub open spec fn focused_links(t: Seq<LinksView>, c: usize) -> Seq<LinksView> {
    focus_walk(t, c, set![c], t.len())
}

/// Following the first of each focus order down from `c`.
pub open spec fn focus_leaf(t: Seq<LinksView>, c: usize, fuel: nat) -> usize
    decreases fuel,
{
    if fuel == 0 || t[c as int].focus.len() == 0 {
        c
    } else {
        focus_leaf(t, t[c as int].focus[0], (fuel - 1) as nat)
    }
}

/// The most recently focused descendant of `c` that has no children, if
/// `c` has children.
pub open spec fn last_focused_descendant(t: Seq<LinksView>, c: usize) -> Option<usize> {
    if t[c as int].focus.len() == 0 {
        None
    } else {
        Some(focus_leaf(t, t[c as int].focus[0], t.len()))
    }
}

/// The container that has focus: the most recently focused descendant of
/// the root.
pub open spec fn focused_container(s: TreeView) -> Option<usize> {
    last_focused_descendant(s.links, s.root)
}

/// Breadth-first order of the containers reachable from `queue`.
pub open spec fn bfs(t: Seq<LinksView>, queue: Seq<usize>, fuel: nat) -> Seq<usize>
    decreases fuel,
{
    if fuel == 0 || queue.len() == 0 {
        Seq::empty()
    } else {
        seq![queue[0]] + bfs(t, queue.drop_first() + t[queue[0] as int].children, (fuel - 1) as nat)
    }
}

/// The descendants of `c`, breadth first.
pub open spec fn descendants(t: Seq<LinksView>, c: usize) -> Seq<usize> {
    bfs(t, t[c as int].children, t.len())
}

/// The ids of `s` whose kind is `kind`, in order.
pub open spec fn of_kind(st: TreeView, s: Seq<usize>, kind: ContainerKind) -> Seq<usize> {
    s.filter(|c: usize| st.kind_of(c) == kind)
}

/// The monitors, in the root's child order.
pub open spec fn monitors(s: TreeView) -> Seq<usize> {
    of_kind(s, s.children_of(s.root), ContainerKind::Monitor)
}

/// The windows, in breadth-first order from the root.
pub open spec fn windows(s: TreeView) -> Seq<usize> {
    of_kind(s, descendants(s.links, s.root), ContainerKind::Window)
}

/// The workspace a monitor displays: the first in its focus order.
pub open spec fn displayed_workspace(s: TreeView, m: usize) -> Option<usize> {
    if s.focus_of(m).len() > 0 && s.kind_of(s.focus_of(m)[0]) == ContainerKind::Workspace {
        Some(s.focus_of(m)[0])
    } else {
        None
    }
}

/// The child of a stack shown on top: the first in its focus order.
pub open spec fn selected_child(s: TreeView, c: usize) -> Option<usize> {
    if s.focus_of(c).len() > 0 {
        Some(s.focus_of(c)[0])
    } else {
        None
    }
}

/// Index in `ids` of the first workspace named `name`.
pub open spec fn first_named(s: TreeView, ids: Seq<usize>, name: Seq<char>) -> Option<int>
    decreases ids.len(),
{
    if ids.len() == 0 {
        None
    } else if s.kind_of(ids[0]) == ContainerKind::Workspace && s.data[ids[0] as int].workspace_name@
        == name {
        Some(0)
    } else {
        match first_named(s, ids.drop_first(), name) {
            Some(i) => Some(i + 1),
            None => None,
        }
    }
}

/// The first workspace child of monitor `m` named `name`.
pub open spec fn workspace_by_name(s: TreeView, m: usize, name: Seq<char>) -> Option<usize> {
    match first_named(s, s.children_of(m), name) {
        Some(i) => Some(s.children_of(m)[i]),
        None => None,
    }
}

pub proof fn lemma_first_named(s: TreeView, ids: Seq<usize>, name: Seq<char>)
    ensures
        first_named(s, ids, name) matches Some(i) ==> {
            &&& 0 <= i < ids.len()
            &&& s.kind_of(ids[i]) == ContainerKind::Workspace
            &&& s.data[ids[i] as int].workspace_name@ == name
            &&& forall|j: int|
                0 <= j < i ==> !(s.kind_of(ids[j]) == ContainerKind::Workspace
                    && s.data[ids[j] as int].workspace_name@ == name)
        },
        first_named(s, ids, name) is None ==> forall|j: int|
            0 <= j < ids.len() ==> !(s.kind_of(ids[j]) == ContainerKind::Workspace
                && s.data[ids[j] as int].workspace_name@ == name),
    decreases ids.len(),
{
    if ids.len() > 0 {
        lemma_first_named(s, ids.drop_first(), name);
        if !(s.kind_of(ids[0]) == ContainerKind::Workspace && s.data[ids[0] as int].workspace_name@
            == name) {
            assert forall|j: int| 1 <= j < ids.len() implies ids[j] == ids.drop_first()[j - 1] by {}
        }
    }
}

/// A child is in its parent's focus order.
pub proof fn lemma_child_in_focus(s: WmState, c: usize)
    requires
        s.wf(),
        c < s.len(),
        s.parent_of(c) is Some,
    ensures
        s.parent_of(c).unwrap() < s.len(),
        s.parent_of(c).unwrap() != c,
        s.children_of(s.parent_of(c).unwrap()).contains(c),
        s.focus_of(s.parent_of(c).unwrap()).contains(c),
{
    let t = s.lv();
    assert(node_wf(t, c as int));
    let p = s.parent_of(c).unwrap();
    assert(node_wf(t, p as int));
    lemma_same_elements(t[p as int].children, t[p as int].focus);
}

/// Ids in a well-formed tree's lists are in range.
pub proof fn lemma_ids_in_range(s: WmState, c: usize)
    requires
        s.wf(),
        c < s.len(),
    ensures
        forall|k: int| 0 <= k < s.children_of(c).len() ==> #[trigger] s.children_of(c)[k] < s.len(),
        forall|k: int| 0 <= k < s.focus_of(c).len() ==> #[trigger] s.focus_of(c)[k] < s.len(),
        forall|k: int|
            0 <= k < s.children_of(c).len() ==> s.parent_of(#[trigger] s.children_of(c)[k]) == Some(c),
        s.parent_of(c) matches Some(p) ==> p < s.len(),
{
    let t = s.lv();
    assert(node_wf(t, c as int));
    lemma_same_elements(t[c as int].children, t[c as int].focus);
    assert forall|k: int| 0 <= k < s.focus_of(c).len() implies #[trigger] s.focus_of(c)[k] < s.len() by {
        let x = s.focus_of(c)[k];
        assert(t[c as int].focus.contains(x));
        let j = choose|j: int| 0 <= j < t[c as int].children.len() && t[c as int].children[j] == x;
        assert(t[c as int].children[j] < t.len());
    }
}

impl WmState {
    /// `c` or its closest ancestor of kind `kind`.
    pub fn find_ancestor_of_kind(&self, c: usize, kind: ContainerKind) -> (r: Option<usize>)
        requires
            self.wf(),
            c < self.len(),
        ensures
            r == ancestor_of_kind(self.tv(), c, kind),
            r matches Some(a) ==> a < self.len() && self.kind_of(a) == kind,
    {
        let mut cur = c;
        let mut fuel: usize = self.links.len();
        while self.data[cur].kind != kind
            invariant
                self.wf(),
                cur < self.len(),
                fuel <= self.len(),
                find_up(self.tv(), cur, kind, fuel as nat) == ancestor_of_kind(self.tv(), c, kind),
            decreases fuel,
        {
            if fuel == 0 {
                return None;
            }
            match self.links[cur].parent {
                None => {
                    return None;
                },
                Some(p) => {
                    proof {
                        lemma_ids_in_range(*self, cur);
                    }
                    cur = p;
                    fuel = fuel - 1;
                },
            }
        }
        Some(cur)
    }

    /// The closest stack among `c` and its ancestors.
    pub fn stack_ancestor(&self, c: usize) -> (r: Option<usize>)
        requires
            self.wf(),
            c < self.len(),
        ensures
            r == ancestor_of_kind(self.tv(), c, ContainerKind::Stack),
            r matches Some(a) ==> a < self.len() && self.kind_of(a) == ContainerKind::Stack,
    {
        self.find_ancestor_of_kind(c, ContainerKind::Stack)
    }

    /// The workspace that holds `c` (or `c` itself if it is one).
    pub fn workspace_of(&self, c: usize) -> (r: Option<usize>)
        requires
            self.wf(),
            c < self.len(),
        ensures
            r == ancestor_of_kind(self.tv(), c, ContainerKind::Workspace),
            r matches Some(a) ==> a < self.len() && self.kind_of(a) == ContainerKind::Workspace,
    {
        self.find_ancestor_of_kind(c, ContainerKind::Workspace)
    }

    /// The monitor that holds `c` (or `c` itself if it is one).
    pub fn monitor_of(&self, c: usize) -> (r: Option<usize>)
        requires
            self.wf(),
            c < self.len(),
        ensures
            r == ancestor_of_kind(self.tv(), c, ContainerKind::Monitor),
            r matches Some(a) ==> a < self.len() && self.kind_of(a) == ContainerKind::Monitor,
    {
        self.find_ancestor_of_kind(c, ContainerKind::Monitor)
    }

    /// Number of children of `c`.
    pub fn child_count(&self, c: usize) -> (r: usize)
        requires
            self.wf(),
            c < self.len(),
        ensures
            r == self.children_of(c).len(),
    {
        self.links[c].children.len()
    }

    /// Position of `c` among its parent's children (0 without a parent).
    pub fn index(&self, c: usize) -> (r: usize)
        requires
            self.wf(),
            c < self.len(),
        ensures
            self.parent_of(c) matches Some(p) ==> r == pos(self.children_of(p), c) && r
                < self.children_of(p).len(),
            self.parent_of(c) is None ==> r == 0,
    {
        match self.links[c].parent {
            None => 0,
            Some(p) => {
                proof {
                    lemma_child_in_focus(*self, c);
                    lemma_pos(self.children_of(p), c);
                }
                find_index(&self.links[p].children, c).unwrap()
            },
        }
    }

    /// Position of `c` in its parent's focus order (0 without a parent).
    pub fn focus_index(&self, c: usize) -> (r: usize)
        requires
            self.wf(),
            c < self.len(),
        ensures
            self.parent_of(c) matches Some(p) ==> r == pos(self.focus_of(p), c) && r
                < self.focus_of(p).len(),
            self.parent_of(c) is None ==> r == 0,
    {
        match self.links[c].parent {
            None => 0,
            Some(p) => {
                proof {
                    lemma_child_in_focus(*self, c);
                    lemma_pos(self.focus_of(p), c);
                }
                find_index(&self.links[p].focus_order, c).unwrap()
            },
        }
    }

    /// The child of `c` that was focused most recently.
    pub fn selected_child(&self, c: usize) -> (r: Option<usize>)
        requires
            self.wf(),
            c < self.len(),
        ensures
            r == selected_child(self.tv(), c),
            r matches Some(x) ==> x < self.len() && self.parent_of(x) == Some(c),
    {
        if self.links[c].focus_order.len() > 0 {
            proof {
                lemma_ids_in_range(*self, c);
                let t = self.lv();
                assert(node_wf(t, c as int));
                assert(t[c as int].focus.contains(t[c as int].focus[0]));
                let j = choose|j: int|
                    0 <= j < t[c as int].children.len() && t[c as int].children[j]
                        == t[c as int].focus[0];
                assert(t[c as int].children[j] < t.len());
            }
            Some(self.links[c].focus_order[0])
        } else {
            None
        }
    }

    /// The workspace monitor `m` displays.
    pub fn displayed_workspace(&self, m: usize) -> (r: Option<usize>)
        requires
            self.wf(),
            m < self.len(),
        ensures
            r == displayed_workspace(self.tv(), m),
            r matches Some(w) ==> w < self.len() && self.parent_of(w) == Some(m),
    {
        match self.selected_child(m) {
            Some(w) => {
                if self.data[w].kind == ContainerKind::Workspace {
                    Some(w)
                } else {
                    None
                }
            },
            None => None,
        }
    }

    /// Whether workspace `w` is the one its monitor displays.
    pub fn is_displayed(&self, w: usize) -> (r: bool)
        requires
            self.wf(),
            w < self.len(),
        ensures
            r == (self.parent_of(w) matches Some(m) && displayed_workspace(self.tv(), m) == Some(w)),
    {
        match self.links[w].parent {
            None => false,
            Some(m) => {
                proof {
                    lemma_ids_in_range(*self, w);
                }
                match self.displayed_workspace(m) {
                    Some(d) => d == w,
                    None => false,
                }
            },
        }
    }

    /// The first workspace on monitor `m` named `name`.
    pub fn workspace_by_name_in_monitor(&self, m: usize, name: &str) -> (r: Option<usize>)
        requires
            self.wf(),
            m < self.len(),
        ensures
            r == workspace_by_name(self.tv(), m, name@),
            r matches Some(w) ==> w < self.len() && self.parent_of(w) == Some(m)
                && self.kind_of(w) == ContainerKind::Workspace && self.data@[w as int].workspace_name@
                == name@,
    {
        let ghost ids = self.children_of(m);
        proof {
            lemma_ids_in_range(*self, m);
            assert(ids.skip(0) =~= ids);
        }
        let mut i: usize = 0;
        while i < self.links[m].children.len()
            invariant
                self.wf(),
                m < self.len(),
                ids == self.children_of(m),
                i <= ids.len(),
                forall|k: int| 0 <= k < ids.len() ==> #[trigger] ids[k] < self.len(),
                forall|k: int| 0 <= k < ids.len() ==> self.parent_of(#[trigger] ids[k]) == Some(m),
                first_named(
                    self.tv(), ids, name@) == (match first_named(
                    self.tv(),
                    ids.skip(i as int),
                    name@,
                ) {
                    Some(j) => Some(j + i),
                    None => None,
                }),
            decreases ids.len() - i,
        {
            let w = self.links[m].children[i];
            let ghost rest = ids.skip(i as int);
            assert(rest[0] == w);
            assert(rest.drop_first() =~= ids.skip(i + 1));
            if self.data[w].kind == ContainerKind::Workspace && str_equal(
                self.data[w].workspace_name.as_str(),
                name,
            ) {
                proof {
                    lemma_first_named(
                    self.tv(), ids, name@);
                }
                return Some(w);
            }
            i = i + 1;
        }
        proof {
            assert(ids.skip(i as int).len() == 0);
        }
        None
    }

    /// Focuses `c`: walking up from `c`, each ancestor puts the child on
    /// the path first in its focus order.
    pub fn set_focused_descendant(&mut self, c: usize)
        requires
            old(self).wf(),
            c < old(self).len(),
        ensures
            final(self).wf(),
            final(self).persistence == old(self).persistence,
            final(self).len() == old(self).len(),
            final(self).lv() == focused_links(old(self).lv(), c),
            final(self).same_data(old(self)),
    {
        let ghost t0 = self.lv();
        let mut visited: Vec<usize> = Vec::new();
        visited.push(c);
        proof {
            assert(visited@.to_set() =~= set![c]) by {
                assert forall|x: usize| visited@.to_set().contains(x) implies x == c by {
                    let j = choose|j: int| 0 <= j < visited@.len() && visited@[j] == x;
                }
                assert(visited@[0] == c);
            }
        }
        let mut cur = c;
        let mut fuel: usize = self.links.len();
        while fuel > 0
            invariant
                self.wf(),
                cur < self.len(),
                self.len() == t0.len(),
                t0 == old(self).lv(),
                self.same_data(old(self)),
                fuel <= self.len(),
                focus_walk(self.lv(), cur, visited@.to_set(), fuel as nat) == focused_links(t0, c),
            decreases fuel,
        {
            let ghost t = self.lv();
            match self.links[cur].parent {
                None => {
                    assert(t[cur as int].parent is None);
                    assert(focus_walk(t, cur, visited@.to_set(), fuel as nat) == t);
                    return ;
                },
                Some(p) => {
                    assert(t[cur as int].parent == Some(p));
                    let mut seen = false;
                    let mut k: usize = 0;
                    while k < visited.len()
                        invariant
                            k <= visited.len(),
                            seen == exists|j: int| 0 <= j < k && visited@[j] == p,
                        decreases visited.len() - k,
                    {
                        if visited[k] == p {
                            seen = true;
                        }
                        k = k + 1;
                    }
                    proof {
                        if seen {
                            let j = choose|j: int| 0 <= j < visited@.len() && visited@[j] == p;
                            assert(visited@.to_set().contains(p));
                        } else {
                            assert(!visited@.contains(p));
                        }
                    }
                    if seen {
                        assert(focus_walk(t, cur, visited@.to_set(), fuel as nat) == t);
                        return ;
                    }
                    proof {
                        lemma_child_in_focus(*self, cur);
                    }
                    self.focus_to_front(p, cur);
                    let ghost before = visited@;
                    visited.push(p);
                    proof {
                        assert(visited@.to_set() =~= before.to_set().insert(p)) by {
                            assert forall|x: usize| visited@.to_set().contains(x) implies before.to_set().insert(p).contains(x) by {
                                let j = choose|j: int| 0 <= j < visited@.len() && visited@[j] == x;
                                if j < before.len() {
                                    assert(before[j] == x);
                                }
                            }
                            assert forall|x: usize| before.to_set().insert(p).contains(x) implies visited@.to_set().contains(x) by {
                                if x == p {
                                    assert(visited@[visited@.len() - 1] == p);
                                } else {
                                    let j = choose|j: int|
                                        0 <= j < before.len() && before[j] == x;
                                    assert(visited@[j] == x);
                                }
                            }
                        }
                    }
                    cur = p;
                    fuel = fuel - 1;
                },
            }
        }
    }

    /// The most recently focused descendant of `c` without children.
    pub fn last_focused_descendant(&self, c: usize) -> (r: Option<usize>)
        requires
            self.wf(),
            c < self.len(),
        ensures
            r == last_focused_descendant(self.lv(), c),
            r matches Some(x) ==> x < self.len(),
    {
        if self.links[c].focus_order.len() == 0 {
            return None;
        }
        proof {
            lemma_ids_in_range(*self, c);
        }
        let mut cur = self.links[c].focus_order[0];
        assert(self.focus_of(c)[0] == cur);
        let mut fuel: usize = self.links.len();
        while fuel > 0 && self.links[cur].focus_order.len() > 0
            invariant
                self.wf(),
                cur < self.len(),
                fuel <= self.len(),
                focus_leaf(self.lv(), cur, fuel as nat) == last_focused_descendant(
                    self.lv(),
                    c,
                ).unwrap(),
            decreases fuel,
        {
            proof {
                lemma_ids_in_range(*self, cur);
            }
            assert(self.focus_of(cur)[0] == self.links@[cur as int].focus_order@[0]);
            cur = self.links[cur].focus_order[0];
            fuel = fuel - 1;
        }
        Some(cur)
    }

    /// The container that has focus.
    pub fn focused_container(&self) -> (r: Option<usize>)
        requires
            self.wf(),
        ensures
            r == focused_container(self.tv()),
            r matches Some(x) ==> x < self.len(),
    {
        self.last_focused_descendant(self.root)
    }
}

impl WmState {
    /// The descendants of `c`, breadth first.
    pub fn descendants(&self, c: usize) -> (r: Vec<usize>)
        requires
            self.wf(),
            c < self.len(),
        ensures
            r@ == descendants(self.lv(), c),
            forall|k: int| 0 <= k < r@.len() ==> #[trigger] r@[k] < self.len(),
    {
        let ghost t = self.lv();
        proof {
            lemma_ids_in_range(*self, c);
        }
        let mut queue: Vec<usize> = Vec::new();
        let n = self.links[c].children.len();
        let mut k: usize = 0;
        while k < n
            invariant
                self.wf(),
                c < self.len(),
                n == self.children_of(c).len(),
                k <= n,
                queue@ == self.children_of(c).take(k as int),
                forall|j: int| 0 <= j < self.children_of(c).len() ==> #[trigger] self.children_of(c)[j] < self.len(),
            decreases n - k,
        {
            queue.push(self.links[c].children[k]);
            assert(self.children_of(c).take(k + 1) =~= self.children_of(c).take(k as int).push(
                self.children_of(c)[k as int],
            ));
            k = k + 1;
        }
        assert(queue@ =~= self.children_of(c));
        let mut out: Vec<usize> = Vec::new();
        let mut head: usize = 0;
        let mut fuel: usize = self.links.len();
        assert(queue@.skip(0) =~= queue@);
        assert(out@ + bfs(t, queue@.skip(head as int), fuel as nat) =~= bfs(t, queue@.skip(head as int), fuel as nat));
        while fuel > 0 && head < queue.len()
            invariant
                self.wf(),
                t == self.lv(),
                head <= queue@.len(),
                fuel <= self.len(),
                forall|j: int| 0 <= j < queue@.len() ==> #[trigger] queue@[j] < self.len(),
                forall|j: int| 0 <= j < out@.len() ==> #[trigger] out@[j] < self.len(),
                out@ + bfs(t, queue@.skip(head as int), fuel as nat) == descendants(t, c),
            decreases fuel,
        {
            let x = queue[head];
            let ghost q = queue@.skip(head as int);
            let ghost q0 = queue@;
            assert(q[0] == x);
            proof {
                lemma_ids_in_range(*self, x);
            }
            out.push(x);
            let m = self.links[x].children.len();
            let mut j: usize = 0;
            while j < m
                invariant
                    self.wf(),
                    x < self.len(),
                    m == self.children_of(x).len(),
                    j <= m,
                    queue@ == q0 + self.children_of(x).take(j as int),
                    forall|i: int| 0 <= i < self.children_of(x).len() ==> #[trigger] self.children_of(x)[i] < self.len(),
                    forall|i: int| 0 <= i < queue@.len() ==> #[trigger] queue@[i] < self.len(),
                decreases m - j,
            {
                queue.push(self.links[x].children[j]);
                assert(self.children_of(x).take(j + 1) =~= self.children_of(x).take(j as int).push(
                    self.children_of(x)[j as int],
                ));
                assert(queue@ =~= q0 + self.children_of(x).take(j + 1));
                j = j + 1;
            }
            assert(self.children_of(x).take(m as int) =~= self.children_of(x));
            assert(queue@.skip(head + 1) =~= q.drop_first() + t[x as int].children);
            assert(bfs(t, q, fuel as nat) == seq![x] + bfs(t, q.drop_first() + t[x as int].children, (fuel - 1) as nat));
            head = head + 1;
            fuel = fuel - 1;
            assert(out@ + bfs(t, queue@.skip(head as int), fuel as nat) =~= descendants(t, c));
        }
        proof {
            if head >= queue@.len() {
                assert(queue@.skip(head as int).len() == 0);
            }
        }
        assert(out@ =~= out@ + bfs(t, queue@.skip(head as int), fuel as nat));
        out
    }

    /// The ids of `ids` whose kind is `kind`, in order.
    pub fn filter_kind(&self, ids: &Vec<usize>, kind: ContainerKind) -> (r: Vec<usize>)
        requires
            self.wf(),
            forall|k: int| 0 <= k < ids@.len() ==> #[trigger] ids@[k] < self.len(),
        ensures
            r@ == of_kind(self.tv(), ids@, kind),
            forall|k: int| 0 <= k < r@.len() ==> #[trigger] r@[k] < self.len() && self.kind_of(r@[k])
                == kind,
    {
        let ghost pred = |x: usize| self.tv().kind_of(x) == kind;
        let mut r: Vec<usize> = Vec::new();
        let mut i: usize = 0;
        assert(ids@.take(0) =~= Seq::<usize>::empty());
        while i < ids.len()
            invariant
                self.wf(),
                forall|k: int| 0 <= k < ids@.len() ==> #[trigger] ids@[k] < self.len(),
                i <= ids@.len(),
                pred == (|x: usize| self.tv().kind_of(x) == kind),
                r@ == ids@.take(i as int).filter(pred),
                forall|k: int| 0 <= k < r@.len() ==> #[trigger] r@[k] < self.len() && self.kind_of(r@[k])
                    == kind,
            decreases ids@.len() - i,
        {
            let x = ids[i];
            assert(ids@.take(i + 1) =~= ids@.take(i as int).push(x));
            proof {
                ids@.take(i as int).lemma_filter_push(x, pred);
            }
            if self.data[x].kind == kind {
                r.push(x);
            }
            i = i + 1;
        }
        assert(ids@.take(i as int) =~= ids@);
        r
    }

    /// The windows, in breadth-first order from the root.
    pub fn windows(&self) -> (r: Vec<usize>)
        requires
            self.wf(),
        ensures
            r@ == windows(self.tv()),
            forall|k: int| 0 <= k < r@.len() ==> #[trigger] r@[k] < self.len() && self.kind_of(r@[k])
                == ContainerKind::Window,
    {
        let all = self.descendants(self.root);
        self.filter_kind(&all, ContainerKind::Window)
    }
}

} // verus!
