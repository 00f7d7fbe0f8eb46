//! Monitors and workspaces: activating and deactivating workspaces,
//! making sure each monitor has its workspaces, and focusing monitors.

use vstd::prelude::*;

use crate::config::{config_index, lemma_config_index, UserConfig, WorkspaceConfig};
use crate::container::unchanged;
use crate::error::WmError;
use crate::model::{ContainerData, ContainerKind, TilingDirection, FULL_TILING_SIZE};
use crate::query::focused_container;
use crate::laws_workspace::{displays_named, lemma_focus_all_displays};
use crate::query::ancestor_of_kind;
use crate::query::{
    displayed_workspace, first_named, focused_links, last_focused_descendant, lemma_first_named,
    lemma_ids_in_range, monitors, of_kind, workspace_by_name,
};
use crate::state::{queued, TreeView, WmState};
use crate::tree::{attach_spec, detach_spec, node_wf, pos, set_focus_spec, shift_to_index, LinksView};

verus! {

/// Position of `c` among its parent's children (0 without a parent).
pub open spec fn index_in_parent(v: TreeView, c: usize) -> int {
    match v.parent_of(c) {
        Some(p) => pos(v.children_of(p), c),
        None => 0,
    }
}

/// Whether a workspace config may be active on the monitor at `index`.
pub open spec fn applies_to(cfg: WorkspaceConfig, index: int) -> bool {
    match cfg.bind_to_monitor {
        None => true,
        Some(b) => b as int == index,
    }
}

/// Whether a workspace config is bound to the monitor at `index`.
pub open spec fn bound_to(cfg: WorkspaceConfig, index: int) -> bool {
    match cfg.bind_to_monitor {
        None => false,
        Some(b) => b as int == index,
    }
}

/// Index of the first entry of `s` that satisfies `p`.
pub open spec fn first_index<A>(s: Seq<A>, p: spec_fn(A) -> bool) -> Option<int>
    decreases s.len(),
{
    if s.len() == 0 {
        None
    } else if p(s[0]) {
        Some(0)
    } else {
        match first_index(s.drop_first(), p) {
            Some(i) => Some(i + 1),
            None => None,
        }
    }
}

pub proof fn lemma_first_index<A>(s: Seq<A>, p: spec_fn(A) -> bool)
    ensures
        first_index(s, p) matches Some(i) ==> 0 <= i < s.len() && p(s[i]) && forall|j: int|
            0 <= j < i ==> !p(#[trigger] s[j]),
        first_index(s, p) is None ==> forall|j: int| 0 <= j < s.len() ==> !p(#[trigger] s[j]),
    decreases s.len(),
{
    if s.len() > 0 {
        lemma_first_index(s.drop_first(), p);
        if !p(s[0]) {
            assert forall|j: int| 1 <= j < s.len() implies s[j] == s.drop_first()[j - 1] by {}
        }
    }
}

/// The index of a list's first entry that satisfies `p` is determined by
/// the entries: it is the `i` with `p(s[i])` and no earlier match.
pub proof fn lemma_first_index_unique<A>(s: Seq<A>, p: spec_fn(A) -> bool, i: int)
    requires
        0 <= i < s.len(),
        p(s[i]),
        forall|j: int| 0 <= j < i ==> !p(#[trigger] s[j]),
    ensures
        first_index(s, p) == Some(i),
{
    lemma_first_index(s, p);
    if let Some(k) = first_index(s, p) {
        if k < i {
            assert(!p(s[k]));
        }
        if k > i {
            assert(!p(s[i]));
        }
    }
}

/// Configs bound to monitor `m` (at `idx`) that are not active on it.
pub open spec fn bound_and_inactive(v: TreeView, m: usize, idx: int) -> spec_fn(WorkspaceConfig) -> bool {
    |c: WorkspaceConfig| bound_to(c, idx) && workspace_by_name(v, m, c.name@) is None
}

/// Unbound configs that are not active on monitor `m`.
pub open spec fn unbound_and_inactive(v: TreeView, m: usize) -> spec_fn(WorkspaceConfig) -> bool {
    |c: WorkspaceConfig| c.bind_to_monitor is None && workspace_by_name(v, m, c.name@) is None
}

/// Which workspace config `activate_workspace` activates on monitor `m`:
/// the one named `name` if it is not active there yet; without a name,
/// the first inactive config bound to the monitor, else the first inactive
/// unbound one.
pub open spec fn activation_choice(
    v: TreeView,
    cfgs: Seq<WorkspaceConfig>,
    name: Option<Seq<char>>,
    m: usize,
) -> Result<int, WmError> {
    match name {
        Some(n) => match config_index(cfgs, n) {
            None => Err(WmError::WorkspaceConfigNotFound),
            Some(k) => if workspace_by_name(v, m, n) is Some {
                Err(WmError::WorkspaceAlreadyActive)
            } else {
                Ok(k)
            },
        },
        None => {
            match first_index(cfgs, bound_and_inactive(v, m, index_in_parent(v, m))) {
                Some(k) => Ok(k),
                None => match first_index(cfgs, unbound_and_inactive(v, m)) {
                    Some(k) => Ok(k),
                    None => Err(WmError::NoWorkspaceConfigAvailable),
                },
            }
        },
    }
}

/// Tiling direction of a workspace created on a monitor of this shape.
pub open spec fn direction_for(d: ContainerData) -> TilingDirection {
    if d.rect.height > d.rect.width {
        TilingDirection::Vertical
    } else {
        TilingDirection::Horizontal
    }
}

/// `d` is a fresh workspace made from `cfg`.
pub open spec fn is_new_workspace(d: ContainerData, cfg: WorkspaceConfig, dir: TilingDirection) -> bool {
    &&& d.kind == ContainerKind::Workspace
    &&& d.workspace_name@ == cfg.name@
    &&& d.keep_alive == cfg.keep_alive
    &&& d.tiling_direction == dir
    &&& d.tiling_size == FULL_TILING_SIZE
}

/// `new` is `old` with one more container, attached last under `m`.
pub open spec fn added_child(old: TreeView, new: TreeView, m: usize) -> bool {
    &&& new.links == attach_spec(
        old.links.push(LinksView { parent: None, children: Seq::empty(), focus: Seq::empty() }),
        old.len() as usize,
        m,
        old.children_of(m).len() as int,
    )
    &&& new.data.len() == old.data.len() + 1
    &&& new.data.take(old.data.len() as int) == old.data
    &&& new.root == old.root
}

impl WmState {
    /// The monitors, in order.
    pub fn monitors(&self) -> (r: Vec<usize>)
        requires
            self.wf(),
        ensures
            r@ == monitors(self.tv()),
            forall|k: int| 0 <= k < r@.len() ==> #[trigger] r@[k] < self.len() && self.kind_of(r@[k])
                == ContainerKind::Monitor && self.parent_of(r@[k]) == Some(self.root),
    {
        self.children_of_kind(self.root, ContainerKind::Monitor)
    }

    /// The children of `c` of kind `kind`, in order.
    pub fn children_of_kind(&self, c: usize, kind: ContainerKind) -> (r: Vec<usize>)
        requires
            self.wf(),
            c < self.len(),
        ensures
            r@ == of_kind(self.tv(), self.children_of(c), kind),
            forall|k: int| 0 <= k < r@.len() ==> #[trigger] r@[k] < self.len() && self.kind_of(r@[k])
                == kind && self.parent_of(r@[k]) == Some(c),
    {
        let ghost s = self.children_of(c);
        let ghost pred = |x: usize| self.tv().kind_of(x) == kind;
        proof {
            lemma_ids_in_range(*self, c);
        }
        let mut r: Vec<usize> = Vec::new();
        let mut i: usize = 0;
        assert(s.take(0) =~= Seq::<usize>::empty());
        while i < self.links[c].children.len()
            invariant
                self.wf(),
                c < self.len(),
                s == self.children_of(c),
                i <= s.len(),
                pred == (|x: usize| self.tv().kind_of(x) == kind),
                r@ == s.take(i as int).filter(pred),
                forall|k: int| 0 <= k < s.len() ==> #[trigger] s[k] < self.len(),
                forall|k: int| 0 <= k < s.len() ==> self.parent_of(#[trigger] s[k]) == Some(c),
                forall|k: int| 0 <= k < r@.len() ==> #[trigger] r@[k] < self.len() && self.kind_of(r@[k])
                    == kind && self.parent_of(r@[k]) == Some(c),
            decreases s.len() - i,
        {
            let x = self.links[c].children[i];
            assert(s.take(i + 1) =~= s.take(i as int).push(x));
            proof {
                s.take(i as int).lemma_filter_push(x, pred);
            }
            if self.data[x].kind == kind {
                r.push(x);
            }
            i = i + 1;
        }
        assert(s.take(i as int) =~= s);
        r
    }

    /// Whether `c` has children.
    pub fn has_children(&self, c: usize) -> (r: bool)
        requires
            self.wf(),
            c < self.len(),
        ensures
            r == (self.children_of(c).len() > 0),
    {
        self.links[c].children.len() > 0
    }
}

/// Monitor `m` has children, and a workspace for every config that may
/// be active on it.
pub open spec fn all_present(v: TreeView, m: usize, cfgs: Seq<WorkspaceConfig>) -> bool {
    &&& v.children_of(m).len() > 0
    &&& forall|k: int|
        0 <= k < cfgs.len() && applies_to(#[trigger] cfgs[k], index_in_parent(v, m)) ==> workspace_by_name(
            v,
            m,
            cfgs[k].name@,
        ) is Some
}

/// Creates a workspace from a config and attaches it last to monitor `m`.
/// With a name, the config of that name is used; without one, the first
/// inactive config bound to the monitor, else the first inactive unbound
/// one. Returns the new workspace.
pub fn activate_workspace(
    workspace_name: Option<&str>,
    m: usize,
    state: &mut WmState,
    config: &UserConfig,
) -> (r: Result<usize, WmError>)
    requires
        old(state).wf(),
        m < old(state).len(),
        old(state).kind_of(m) == ContainerKind::Monitor,
        old(state).len() < usize::MAX,
    ensures
        final(state).wf(),
        final(state).persistence == old(state).persistence,
        match activation_choice(
            old(state).tv(),
            config.workspaces@,
            match workspace_name {
                Some(n) => Some(n@),
                None => None,
            },
            m,
        ) {
            Err(e) => r == Err::<usize, WmError>(e) && unchanged(final(state), old(state)),
            Ok(k) => {
                &&& r == Ok::<usize, WmError>(old(state).len() as usize)
                &&& final(state).len() == old(state).len() + 1
                &&& added_child(old(state).tv(), final(state).tv(), m)
                &&& is_new_workspace(
                    final(state).data@[old(state).len() as int],
                    config.workspaces@[k],
                    direction_for(old(state).data@[m as int]),
                )
                &&& final(state).pending_sync == old(state).pending_sync
            },
        },
{
    let ghost v = state.tv();
    let ghost cfgs = config.workspaces@;
    let k: usize = match workspace_name {
        Some(n) => {
            match config.workspace_config_by_name(n) {
                None => {
                    return Err(WmError::WorkspaceConfigNotFound);
                },
                Some(k) => {
                    if state.workspace_by_name_in_monitor(m, n).is_some() {
                        return Err(WmError::WorkspaceAlreadyActive);
                    }
                    proof {
                        lemma_config_index(cfgs, n@);
                    }
                    assert(config_index(cfgs, n@) == Some(k as int));
                    assert(workspace_by_name(v, m, n@) is None);
                    assert(activation_choice(v, cfgs, Some(n@), m) == Ok::<int, WmError>(k as int));
                    k
                },
            }
        },
        None => {
            let idx = state.index(m);
            let ghost p1 = bound_and_inactive(v, m, index_in_parent(v, m));
            let ghost p2 = unbound_and_inactive(v, m);
            proof {
                lemma_first_index(cfgs, p1);
                lemma_first_index(cfgs, p2);
            }
            assert(idx as int == index_in_parent(v, m));
            let mut found: Option<usize> = None;
            let mut i: usize = 0;
            while i < config.workspaces.len()
                invariant_except_break
                    found is None,
                    forall|j: int| 0 <= j < i ==> !p1(#[trigger] cfgs[j]),
                invariant
                    state.tv() == v,
                    state.wf(),
                    m < state.len(),
                    cfgs == config.workspaces@,
                    idx as int == index_in_parent(v, m),
                    p1 == bound_and_inactive(v, m, index_in_parent(v, m)),
                    i <= cfgs.len(),
                ensures
                    state.tv() == v,
                    found is None ==> forall|j: int| 0 <= j < cfgs.len() ==> !p1(#[trigger] cfgs[j]),
                    found matches Some(k) ==> first_index(cfgs, p1) == Some(k as int) && k < cfgs.len(),
                decreases cfgs.len() - i,
            {
                let c = &config.workspaces[i];
                let bound = match c.bind_to_monitor {
                    Some(b) => b as usize == idx,
                    None => false,
                };
                assert(bound == bound_to(cfgs[i as int], idx as int));
                let inactive = state.workspace_by_name_in_monitor(m, c.name.as_str()).is_none();
                assert(inactive == (workspace_by_name(v, m, cfgs[i as int].name@) is None));
                assert(p1(cfgs[i as int]) == (bound && inactive));
                if bound && inactive {
                    proof {
                        lemma_first_index_unique(cfgs, p1, i as int);
                    }
                    found = Some(i);
                    break;
                }
                i = i + 1;
            }
            if found.is_none() {
                let mut j: usize = 0;
                while j < config.workspaces.len()
                    invariant_except_break
                        found is None,
                        forall|q: int| 0 <= q < j ==> !p2(#[trigger] cfgs[q]),
                    invariant
                        state.tv() == v,
                        state.wf(),
                        m < state.len(),
                        cfgs == config.workspaces@,
                        p2 == unbound_and_inactive(v, m),
                        j <= cfgs.len(),
                    ensures
                        state.tv() == v,
                        found is None ==> forall|q: int| 0 <= q < cfgs.len() ==> !p2(#[trigger] cfgs[q]),
                        found matches Some(k) ==> first_index(cfgs, p2) == Some(k as int) && k
                            < cfgs.len(),
                    decreases cfgs.len() - j,
                {
                    let c = &config.workspaces[j];
                    let inactive = state.workspace_by_name_in_monitor(m, c.name.as_str()).is_none();
                    assert(inactive == (workspace_by_name(v, m, cfgs[j as int].name@) is None));
                    assert(p2(cfgs[j as int]) == (c.bind_to_monitor.is_none() && inactive));
                    if c.bind_to_monitor.is_none() && inactive {
                        proof {
                            lemma_first_index_unique(cfgs, p2, j as int);
                        }
                        found = Some(j);
                        break;
                    }
                    j = j + 1;
                }
                if found.is_none() {
                    return Err(WmError::NoWorkspaceConfigAvailable);
                }
            }
            found.unwrap()
        },
    };
    proof {
        lemma_config_index(cfgs, cfgs[k as int].name@);
    }
    let cfg = &config.workspaces[k];
    let rect = state.data[m].rect;
    let dir = if rect.height > rect.width {
        TilingDirection::Vertical
    } else {
        TilingDirection::Horizontal
    };
    let id = state.add_container(
        ContainerData::workspace(cfg.name.clone(), cfg.keep_alive, dir),
    );
    let n = state.links[m].children.len();
    assert(state.children_of(m) == v.children_of(m));
    state.attach(id, m, n);
    assert(state.data@.take(v.data.len() as int) =~= v.data);
    assert(state.data@[id as int].kind == ContainerKind::Workspace);
    assert(state.data@[id as int].workspace_name@ == cfgs[k as int].name@);
    assert(state.data@[id as int].keep_alive == cfgs[k as int].keep_alive);
    assert(state.data@[id as int].tiling_direction == direction_for(v.data[m as int]));
    assert(state.data@[id as int].tiling_size == FULL_TILING_SIZE);
    assert(state.data@.len() == v.data.len() + 1);
    assert(state.tv().links == attach_spec(
        v.links.push(LinksView { parent: None, children: Seq::empty(), focus: Seq::empty() }),
        v.len() as usize,
        m,
        v.children_of(m).len() as int,
    ));
    assert(added_child(v, state.tv(), m));
    Ok(id)
}

/// Removes workspace `w` from its monitor.
pub fn deactivate_workspace(w: usize, state: &mut WmState)
    requires
        old(state).wf(),
        w < old(state).len(),
    ensures
        final(state).wf(),
        final(state).persistence == old(state).persistence,
        final(state).len() == old(state).len(),
        final(state).tv() == old(state).tv().with_links(crate::tree::detach_spec(old(state).lv(), w)),
        final(state).pending_sync == old(state).pending_sync,
{
    state.detach(w);
}

/// A monitor's child that is a workspace named `n` is found by name.
pub proof fn lemma_named_child_found(v: TreeView, m: usize, c: usize, n: Seq<char>)
    requires
        v.children_of(m).contains(c),
        v.kind_of(c) == ContainerKind::Workspace,
        v.data[c as int].workspace_name@ == n,
    ensures
        workspace_by_name(v, m, n) is Some,
{
    lemma_first_named(v, v.children_of(m), n);
    let j = choose|j: int| 0 <= j < v.children_of(m).len() && v.children_of(m)[j] == c;
}

/// The name of workspace `c`.
pub open spec fn name_of(v: TreeView, c: usize) -> Seq<char> {
    v.data[c as int].workspace_name@
}

/// Monitor `m` holds a workspace named `n`.
pub open spec fn has_named(v: TreeView, m: usize, n: Seq<char>) -> bool {
    exists|c: usize|
        #![trigger v.children_of(m).contains(c)]
        v.children_of(m).contains(c) && v.kind_of(c) == ContainerKind::Workspace && name_of(v, c)
            == n
}

pub proof fn lemma_has_named(v: TreeView, m: usize, n: Seq<char>)
    requires
        v.wf(),
        m < v.len(),
    ensures
        has_named(v, m, n) <==> workspace_by_name(v, m, n) is Some,
{
    lemma_first_named(v, v.children_of(m), n);
    if has_named(v, m, n) {
        let c = choose|c: usize|
            #![trigger v.children_of(m).contains(c)]
            v.children_of(m).contains(c) && v.kind_of(c) == ContainerKind::Workspace && name_of(v, c)
                == n;
        lemma_named_child_found(v, m, c, n);
    }
    if let Some(i) = first_named(v, v.children_of(m), n) {
        assert(v.children_of(m).contains(v.children_of(m)[i]));
    }
}

/// Makes sure monitor `m` has a workspace for every config that may be
/// active on it, and at least one workspace.
pub fn ensure_workspaces_for_monitor(m: usize, state: &mut WmState, config: &UserConfig) -> (r: Result<
    (),
    WmError,
>)
    requires
        old(state).wf(),
        m < old(state).len(),
        old(state).kind_of(m) == ContainerKind::Monitor,
        old(state).len() + config.workspaces@.len() < usize::MAX,
    ensures
        final(state).wf(),
        final(state).persistence == old(state).persistence,
        final(state).len() >= old(state).len(),
        // At most one workspace is made per config.
        final(state).len() <= old(state).len() + config.workspaces@.len(),
        final(state).pending_sync == old(state).pending_sync,
        final(state).root == old(state).root,
        final(state).parent_of(m) == old(state).parent_of(m),
        r is Err <==> (old(state).children_of(m).len() == 0 && forall|k: int|
            0 <= k < config.workspaces@.len() ==> !applies_to(
                #[trigger] config.workspaces@[k],
                index_in_parent(old(state).tv(), m),
            )),
        r is Err ==> r == Err::<(), WmError>(WmError::NoWorkspaceConfigAvailable) && unchanged(
            final(state),
            old(state),
        ),
        r is Ok ==> final(state).children_of(m).len() > 0,
        // Where every applicable workspace is already there, nothing
        // changes: a second call does nothing.
        all_present(old(state).tv(), m, config.workspaces@) ==> r is Ok && unchanged(final(state), old(state)),
        r is Ok ==> all_present(final(state).tv(), m, config.workspaces@),
        r is Ok ==> forall|k: int|
            0 <= k < config.workspaces@.len() && applies_to(
                #[trigger] config.workspaces@[k],
                index_in_parent(old(state).tv(), m),
            ) ==> workspace_by_name(final(state).tv(), m, config.workspaces@[k].name@) is Some,
        // Containers other than the monitor keep their links and data; the
        // monitor keeps its children, in front of the new ones.
        forall|i: int|
            0 <= i < old(state).len() && i != m ==> #[trigger] final(state).lv()[i] == old(
                state,
            ).lv()[i],
        final(state).data@.take(old(state).len() as int) == old(state).data@,
        final(state).children_of(m).take(old(state).children_of(m).len() as int) == old(
            state,
        ).children_of(m),
        // Each new child is a new workspace made from an applicable config,
        // and its name is that of no other child of the monitor.
        forall|j: int|
            old(state).children_of(m).len() <= j < final(state).children_of(m).len() ==> {
                let c = #[trigger] final(state).children_of(m)[j];
                &&& c >= old(state).len()
                &&& final(state).kind_of(c) == ContainerKind::Workspace
                &&& exists|k: int|
                    0 <= k < config.workspaces@.len() && applies_to(
                        config.workspaces@[k],
                        index_in_parent(old(state).tv(), m),
                    ) && #[trigger] config.workspaces@[k].name@ == name_of(final(state).tv(), c)
            },
        forall|a: int, b: int|
            0 <= a < final(state).children_of(m).len() && old(state).children_of(m).len() <= b
                < final(state).children_of(m).len() && a != b ==> name_of(
                final(state).tv(),
                #[trigger] final(state).children_of(m)[a],
            ) != name_of(final(state).tv(), #[trigger] final(state).children_of(m)[b]),
{
    let ghost v0 = state.tv();
    let ghost cfgs = config.workspaces@;
    let idx = state.index(m);
    let ghost n0 = v0.children_of(m).len();
    let mut k: usize = 0;
    assert(state.children_of(m).take(n0 as int) =~= v0.children_of(m));
    assert(state.data@.take(v0.len() as int) =~= v0.data);
    while k < config.workspaces.len()
        invariant
            state.wf(),
            m < state.len(),
            state.kind_of(m) == ContainerKind::Monitor,
            v0.wf(),
            v0 == old(state).tv(),
            cfgs == config.workspaces@,
            idx as int == index_in_parent(v0, m),
            k <= cfgs.len(),
            state.len() >= v0.len(),
            state.len() <= v0.len() + k,
            v0.len() + cfgs.len() < usize::MAX,
            state.pending_sync == old(state).pending_sync,
            state.persistence == old(state).persistence,
            state.root == v0.root,
            state.parent_of(m) == v0.parent_of(m),
            n0 == v0.children_of(m).len(),
            forall|i: int| 0 <= i < v0.len() && i != m ==> #[trigger] state.lv()[i] == v0.links[i],
            state.data@.take(v0.len() as int) == v0.data,
            state.children_of(m).take(n0 as int) == v0.children_of(m),
            state.len() == v0.len() ==> state.tv() == v0,
            all_present(v0, m, cfgs) ==> state.len() == v0.len(),
            state.children_of(m).len() == n0 + (state.len() - v0.len()),
            forall|j: int|
                0 <= j < k && applies_to(#[trigger] cfgs[j], idx as int) ==> has_named(
                    state.tv(),
                    m,
                    cfgs[j].name@,
                ),
            forall|j: int|
                n0 <= j < state.children_of(m).len() ==> {
                    let c = #[trigger] state.children_of(m)[j];
                    &&& c >= v0.len()
                    &&& state.kind_of(c) == ContainerKind::Workspace
                    &&& exists|q: int|
                        0 <= q < cfgs.len() && applies_to(cfgs[q], idx as int) && #[trigger] cfgs[q].name@
                            == name_of(state.tv(), c)
                },
            forall|a: int, b: int|
                0 <= a < state.children_of(m).len() && n0 <= b < state.children_of(m).len() && a
                    != b ==> name_of(state.tv(), #[trigger] state.children_of(m)[a]) != name_of(
                    state.tv(),
                    #[trigger] state.children_of(m)[b],
                ),
        decreases cfgs.len() - k,
    {
        let applies = match config.workspaces[k].bind_to_monitor {
            None => true,
            Some(b) => b as usize == idx,
        };
        assert(applies == applies_to(cfgs[k as int], idx as int));
        if applies && state.workspace_by_name_in_monitor(m, config.workspaces[k].name.as_str()).is_none() {
            assert(!all_present(v0, m, cfgs)) by {
                if all_present(v0, m, cfgs) {
                    assert(applies_to(cfgs[k as int], idx as int));
                }
            }
            let ghost v1 = state.tv();
            let ghost n1 = v1.children_of(m).len();
            proof {
                lemma_has_named(v1, m, cfgs[k as int].name@);
                lemma_ids_in_range(*state, m);
            }
            let res = activate_workspace(Some(config.workspaces[k].name.as_str()), m, state, config);
            proof {
                lemma_config_index(cfgs, cfgs[k as int].name@);
                let q = config_index(cfgs, cfgs[k as int].name@).unwrap();
                let id = v1.len() as usize;
                let v2 = state.tv();
                assert(v2.children_of(m) =~= v1.children_of(m).push(id));
                assert(v2.children_of(m)[n1 as int] == id);
                assert(forall|i: int| 0 <= i < v1.len() ==> v2.data[i] == v1.data[i]) by {
                    assert forall|i: int| 0 <= i < v1.len() implies v2.data[i] == v1.data[i] by {
                        assert(v2.data.take(v1.data.len() as int)[i] == v2.data[i]);
                    }
                }
                assert(name_of(v2, id) == cfgs[q].name@);
                assert forall|i: int| 0 <= i < v0.len() && i != m implies #[trigger] state.lv()[i]
                    == v0.links[i] by {
                    assert(state.lv()[i] == v1.links[i]);
                }
                assert(state.data@.take(v0.len() as int) =~= v0.data) by {
                    assert forall|i: int| 0 <= i < v0.len() implies state.data@[i] == v0.data[i] by {
                        assert(v1.data.take(v0.len() as int)[i] == v1.data[i]);
                    }
                }
                assert(state.children_of(m).take(n0 as int) =~= v0.children_of(m)) by {
                    assert forall|i: int| 0 <= i < n0 implies state.children_of(m)[i] == v0.children_of(
                        m,
                    )[i] by {
                        assert(v1.children_of(m).take(n0 as int)[i] == v1.children_of(m)[i]);
                    }
                }
                // Earlier configs stay present.
                assert forall|j: int|
                    0 <= j <= k && applies_to(#[trigger] cfgs[j], idx as int) implies has_named(
                    state.tv(),
                    m,
                    cfgs[j].name@,
                ) by {
                    if j < k {
                        let c = choose|c: usize|
                            #![trigger v1.children_of(m).contains(c)]
                            v1.children_of(m).contains(c) && v1.kind_of(c) == ContainerKind::Workspace
                                && name_of(v1, c) == cfgs[j].name@;
                        let p = choose|p: int| 0 <= p < v1.children_of(m).len() && v1.children_of(m)[p] == c;
                        assert(v2.children_of(m)[p] == c);
                        assert(v2.children_of(m).contains(c));
                        assert(c < v1.len()) by {
                            lemma_ids_in_range(*state, m);
                            assert(v2.children_of(m)[p] < v2.len());
                            assert(v2.children_of(m)[p] != id || p == n1);
                        }
                    } else {
                        assert(v2.children_of(m).contains(id));
                    }
                }
                assert forall|j: int|
                    n0 <= j < state.children_of(m).len() implies {
                        let c = #[trigger] state.children_of(m)[j];
                        &&& c >= v0.len()
                        &&& state.kind_of(c) == ContainerKind::Workspace
                        &&& exists|q2: int|
                            0 <= q2 < cfgs.len() && applies_to(cfgs[q2], idx as int) && #[trigger] cfgs[q2].name@
                                == name_of(state.tv(), c)
                    } by {
                    let c = state.children_of(m)[j];
                    if j < n1 {
                        assert(c == v1.children_of(m)[j]);
                        lemma_ids_in_range(*state, m);
                        assert(c < v1.len());
                        let q2 = choose|q2: int|
                            0 <= q2 < cfgs.len() && applies_to(cfgs[q2], idx as int) && #[trigger] cfgs[q2].name@
                                == name_of(v1, c);
                        assert(cfgs[q2].name@ == name_of(state.tv(), c));
                    } else {
                        assert(cfgs[k as int].name@ == name_of(state.tv(), c));
                    }
                }
                assert forall|a: int, b: int|
                    0 <= a < state.children_of(m).len() && n0 <= b < state.children_of(m).len() && a
                        != b implies name_of(state.tv(), #[trigger] state.children_of(m)[a]) != name_of(
                        state.tv(),
                        #[trigger] state.children_of(m)[b],
                    ) by {
                    lemma_ids_in_range(*state, m);
                    let ca = state.children_of(m)[a];
                    let cb = state.children_of(m)[b];
                    if a < n1 && b < n1 {
                        assert(ca == v1.children_of(m)[a] && cb == v1.children_of(m)[b]);
                        assert(ca < v1.len() && cb < v1.len());
                    } else if a < n1 {
                        assert(cb == id);
                        assert(ca == v1.children_of(m)[a]);
                        assert(ca < v1.len());
                        assert(v1.children_of(m).contains(ca));
                        assert(v1.kind_of(ca) == ContainerKind::Workspace) by {
                            assert(node_wf(v1.links, m as int));
                            assert(v1.links[ca as int].parent == Some(m));
                        }
                        if name_of(v1, ca) == cfgs[k as int].name@ {
                            lemma_named_child_found(v1, m, ca, cfgs[k as int].name@);
                        }
                    } else {
                        assert(ca == id);
                        assert(cb == v1.children_of(m)[b]);
                        assert(cb < v1.len());
                        assert(v1.children_of(m).contains(cb));
                        assert(v1.kind_of(cb) == ContainerKind::Workspace) by {
                            assert(node_wf(v1.links, m as int));
                            assert(v1.links[cb as int].parent == Some(m));
                        }
                        if name_of(v1, cb) == cfgs[k as int].name@ {
                            lemma_named_child_found(v1, m, cb, cfgs[k as int].name@);
                        }
                    }
                }
            }
        } else {
            proof {
                if applies {
                    lemma_has_named(state.tv(), m, cfgs[k as int].name@);
                }
            }
        }
        k = k + 1;
    }
    if state.links[m].children.len() == 0 {
        proof {
            assert(state.len() == v0.len());
            assert forall|q: int| 0 <= q < cfgs.len() implies !applies_to(#[trigger] cfgs[q], idx as int) by {
                if applies_to(cfgs[q], idx as int) {
                    let c = choose|c: usize|
                        #![trigger state.tv().children_of(m).contains(c)]
                        state.tv().children_of(m).contains(c) && state.tv().kind_of(c) == ContainerKind::Workspace
                            && name_of(state.tv(), c) == cfgs[q].name@;
                }
            }
        }
        return Err(WmError::NoWorkspaceConfigAvailable);
    }
    proof {
        assert forall|q: int|
            0 <= q < cfgs.len() && applies_to(#[trigger] cfgs[q], index_in_parent(v0, m)) implies workspace_by_name(
            state.tv(),
            m,
            cfgs[q].name@,
        ) is Some by {
            lemma_has_named(state.tv(), m, cfgs[q].name@);
        }
        assert(index_in_parent(state.tv(), m) == index_in_parent(v0, m)) by {
            if let Some(p) = v0.parent_of(m) {
                assert(node_wf(v0.links, m as int));
                assert(state.lv()[p as int] == v0.links[p as int]);
            }
        }
        if v0.children_of(m).len() == 0 {
            assert(exists|q: int| 0 <= q < cfgs.len() && applies_to(#[trigger] cfgs[q], idx as int)) by {
                let c = state.children_of(m)[0];
                assert(state.children_of(m).len() > n0);
                let q = choose|q: int|
                    0 <= q < cfgs.len() && applies_to(cfgs[q], idx as int) && #[trigger] cfgs[q].name@
                        == name_of(state.tv(), c);
            }
        }
    }
    Ok(())
}

/// The container to focus when entering workspace `w`: the workspace's
/// most recently focused descendant, or the workspace itself.
pub open spec fn focus_target(v: TreeView, w: usize) -> usize {
    match last_focused_descendant(v.links, w) {
        Some(x) => x,
        None => w,
    }
}

impl WmState {
    /// See [`focus_target`].
    pub fn focus_target(&self, w: usize) -> (r: usize)
        requires
            self.wf(),
            w < self.len(),
        ensures
            r == focus_target(self.tv(), w),
            r < self.len(),
    {
        match self.last_focused_descendant(w) {
            Some(x) => x,
            None => w,
        }
    }
}

/// Focuses the monitor at `monitor_index`: the workspace it displays, or
/// the most recently focused container in it.
pub fn focus_monitor(monitor_index: usize, state: &mut WmState, _config: &UserConfig) -> (r: Result<
    (),
    WmError,
>)
    requires
        old(state).wf(),
    ensures
        final(state).wf(),
        final(state).persistence == old(state).persistence,
        ({
            let ms = monitors(old(state).tv());
            if monitor_index >= ms.len() {
                r == Err::<(), WmError>(WmError::MonitorNotFound) && unchanged(final(state), old(state))
            } else {
                match displayed_workspace(old(state).tv(), ms[monitor_index as int]) {
                    None => r == Err::<(), WmError>(WmError::NoDisplayedWorkspace) && unchanged(
                        final(state),
                        old(state),
                    ),
                    Some(w) => {
                        &&& r is Ok
                        &&& final(state).tv() == old(state).tv().with_links(
                            focused_links(old(state).lv(), focus_target(old(state).tv(), w)),
                        )
                        &&& final(state).pending_sync.focus_change
                        &&& final(state).pending_sync.cursor_jump
                        &&& final(state).pending_sync.containers_to_redraw == old(
                            state,
                        ).pending_sync.containers_to_redraw
                        &&& final(state).pending_sync.workspaces_to_reorder == old(
                            state,
                        ).pending_sync.workspaces_to_reorder
                    },
                }
            }
        }),
{
    let monitors = state.monitors();
    if monitor_index >= monitors.len() {
        return Err(WmError::MonitorNotFound);
    }
    let target = monitors[monitor_index];
    let w = match state.displayed_workspace(target) {
        Some(w) => w,
        None => {
            return Err(WmError::NoDisplayedWorkspace);
        },
    };
    let to_focus = state.focus_target(w);
    state.set_focused_descendant(to_focus);
    state.pending_sync.focus_change = true;
    state.pending_sync.cursor_jump = true;
    Ok(())
}

/// Whether workspace `w` is the one its monitor displays.
pub open spec fn is_displayed(v: TreeView, w: usize) -> bool {
    v.parent_of(w) matches Some(m) && displayed_workspace(v, m) == Some(w)
}

/// The workspaces of the monitors `ms`, monitor by monitor.
pub open spec fn workspaces_of(v: TreeView, ms: Seq<usize>) -> Seq<usize>
    decreases ms.len(),
{
    if ms.len() == 0 {
        Seq::empty()
    } else {
        workspaces_of(v, ms.drop_last()) + of_kind(v, v.children_of(ms.last()), ContainerKind::Workspace)
    }
}

/// All workspaces, monitor by monitor.
pub open spec fn all_workspaces(v: TreeView) -> Seq<usize> {
    workspaces_of(v, monitors(v))
}

/// Workspaces that are empty, not kept alive and not displayed.
pub open spec fn destroyable(v: TreeView) -> spec_fn(usize) -> bool {
    |w: usize| !v.data[w as int].keep_alive && v.children_of(w).len() == 0 && !is_displayed(v, w)
}

/// The first workspace that may be destroyed.
pub open spec fn first_destroyable(v: TreeView) -> Option<usize> {
    match first_index(all_workspaces(v), destroyable(v)) {
        Some(i) => Some(all_workspaces(v)[i]),
        None => None,
    }
}

/// The tree after destroying the first destroyable workspace, if any.
pub open spec fn destroy_spec(v: TreeView) -> TreeView {
    match first_destroyable(v) {
        Some(d) => v.with_links(detach_spec(v.links, d)),
        None => v,
    }
}

/// The tree and the platform queues while switching monitors to a
/// workspace.
pub struct SwitchView {
    pub tv: TreeView,
    pub redraw: Seq<usize>,
    pub reorder: Seq<usize>,
    pub switched: bool,
}

/// Monitor data after remembering `name` as the recent workspace.
pub open spec fn with_recent(d: ContainerData, name: String) -> ContainerData {
    ContainerData { recent_workspace_name: Some(name), ..d }
}

/// Switching monitor `m` to its workspace named `name`: if it has one
/// that it does not display yet, that workspace moves first in the
/// monitor's focus order, the monitor remembers the workspace it displayed,
/// and both are queued for redraw.
pub open spec fn switch_monitor(s: SwitchView, m: usize, name: Seq<char>) -> SwitchView {
    let v = s.tv;
    match workspace_by_name(v, m, name) {
        None => s,
        Some(w) => if displayed_workspace(v, m) == Some(w) {
            s
        } else {
            let links = set_focus_spec(v.links, m, shift_to_index(v.focus_of(m), 0, w));
            match displayed_workspace(v, m) {
                Some(d) => SwitchView {
                    tv: TreeView {
                        links,
                        data: v.data.update(
                            m as int,
                            with_recent(v.data[m as int], v.data[d as int].workspace_name),
                        ),
                        root: v.root,
                    },
                    redraw: queued(queued(s.redraw, d), w),
                    reorder: queued(s.reorder, w),
                    switched: true,
                },
                None => SwitchView {
                    tv: v.with_links(links),
                    redraw: queued(s.redraw, w),
                    reorder: queued(s.reorder, w),
                    switched: true,
                },
            }
        },
    }
}

/// Switching each of the monitors `ms` in turn.
pub open spec fn switch_all(s: SwitchView, ms: Seq<usize>, name: Seq<char>) -> SwitchView
    decreases ms.len(),
{
    if ms.len() == 0 {
        s
    } else {
        switch_monitor(switch_all(s, ms.drop_last(), name), ms.last(), name)
    }
}

impl WmState {
    /// All workspaces, monitor by monitor.
    pub fn workspaces(&self) -> (r: Vec<usize>)
        requires
            self.wf(),
        ensures
            r@ == all_workspaces(self.tv()),
            forall|k: int| 0 <= k < r@.len() ==> #[trigger] r@[k] < self.len(),
    {
        let ms = self.monitors();
        let mut r: Vec<usize> = Vec::new();
        let mut i: usize = 0;
        assert(ms@.take(0) =~= Seq::<usize>::empty());
        while i < ms.len()
            invariant
                self.wf(),
                ms@ == monitors(self.tv()),
                forall|k: int| 0 <= k < ms@.len() ==> #[trigger] ms@[k] < self.len(),
                i <= ms@.len(),
                r@ == workspaces_of(self.tv(), ms@.take(i as int)),
                forall|k: int| 0 <= k < r@.len() ==> #[trigger] r@[k] < self.len(),
            decreases ms@.len() - i,
        {
            let m = ms[i];
            let mut ws = self.children_of_kind(m, ContainerKind::Workspace);
            assert(ms@.take(i + 1).drop_last() =~= ms@.take(i as int));
            let ghost r0 = r@;
            let ghost w0 = ws@;
            r.append(&mut ws);
            assert forall|k: int| 0 <= k < r@.len() implies #[trigger] r@[k] < self.len() by {
                if k >= r0.len() {
                    assert(r@[k] == w0[k - r0.len()]);
                }
            }
            i = i + 1;
        }
        assert(ms@.take(i as int) =~= ms@);
        r
    }

    /// The first workspace that may be destroyed.
    pub fn first_destroyable(&self) -> (r: Option<usize>)
        requires
            self.wf(),
        ensures
            r == first_destroyable(self.tv()),
            r matches Some(d) ==> d < self.len(),
    {
        let ws = self.workspaces();
        let ghost p = destroyable(self.tv());
        proof {
            lemma_first_index(ws@, p);
        }
        let mut i: usize = 0;
        while i < ws.len()
            invariant
                self.wf(),
                ws@ == all_workspaces(self.tv()),
                forall|k: int| 0 <= k < ws@.len() ==> #[trigger] ws@[k] < self.len(),
                p == destroyable(self.tv()),
                i <= ws@.len(),
                forall|j: int| 0 <= j < i ==> !p(#[trigger] ws@[j]),
            decreases ws@.len() - i,
        {
            let w = ws[i];
            let d = !self.data[w].keep_alive && !self.has_children(w) && !self.is_displayed(w);
            assert(d == p(ws@[i as int]));
            if d {
                proof {
                    lemma_first_index_unique(ws@, p, i as int);
                }
                return Some(w);
            }
            i = i + 1;
        }
        None
    }
}

/// The container `focus_all_workspaces` focuses (see its contract).
pub open spec fn focus_all_target(v2: TreeView, fm: usize, f: usize, name: Seq<char>) -> usize {
    match workspace_by_name(v2, fm, name) {
        Some(w) => if is_displayed(v2, w) {
            focus_target(v2, w)
        } else {
            f
        },
        None => f,
    }
}

/// Focuses the workspace named `workspace_name` on every monitor where it
/// is active: each such monitor displays it, an empty workspace that is no
/// longer displayed is destroyed, and focus goes to the focused monitor's
/// workspace of that name if it is displayed.
pub fn focus_all_workspaces(workspace_name: &str, state: &mut WmState, _config: &UserConfig) -> (r:
    Result<(), WmError>)
    requires
        old(state).wf(),
    ensures
        final(state).wf(),
        final(state).persistence == old(state).persistence,
        // Every monitor that has a workspace of that name displays it.
        r is Ok ==> displays_named(final(state).tv(), monitors(old(state).tv()), workspace_name@),
        match focused_container(old(state).tv()) {
            None => r == Err::<(), WmError>(WmError::NoFocusedContainer) && unchanged(
                final(state),
                old(state),
            ),
            Some(f) => match ancestor_of_kind(old(state).tv(), f, ContainerKind::Workspace) {
                None => r == Err::<(), WmError>(WmError::NoFocusedWorkspace) && unchanged(
                    final(state),
                    old(state),
                ),
                Some(fw) => match ancestor_of_kind(old(state).tv(), fw, ContainerKind::Monitor) {
                    None => r == Err::<(), WmError>(WmError::NoFocusedMonitor) && unchanged(
                        final(state),
                        old(state),
                    ),
                    Some(fm) => {
                        let s1 = switch_all(
                            SwitchView {
                                tv: old(state).tv(),
                                redraw: old(state).pending_sync.containers_to_redraw@,
                                reorder: old(state).pending_sync.workspaces_to_reorder@,
                                switched: false,
                            },
                            monitors(old(state).tv()),
                            workspace_name@,
                        );
                        let v2 = if s1.switched {
                            destroy_spec(s1.tv)
                        } else {
                            s1.tv
                        };
                        let target = focus_all_target(v2, fm, f, workspace_name@);
                        &&& r is Ok
                        &&& final(state).tv() == v2.with_links(focused_links(v2.links, target))
                        &&& final(state).pending_sync.containers_to_redraw@ == s1.redraw
                        &&& final(state).pending_sync.workspaces_to_reorder@ == s1.reorder
                        &&& final(state).pending_sync.focus_change
                        &&& final(state).pending_sync.cursor_jump
                    },
                },
            },
        },
{
    let focused = match state.focused_container() {
        Some(f) => f,
        None => {
            return Err(WmError::NoFocusedContainer);
        },
    };
    let focused_workspace = match state.workspace_of(focused) {
        Some(w) => w,
        None => {
            return Err(WmError::NoFocusedWorkspace);
        },
    };
    let focused_monitor = match state.monitor_of(focused_workspace) {
        Some(m) => m,
        None => {
            return Err(WmError::NoFocusedMonitor);
        },
    };
    let ghost v0 = state.tv();
    let ghost redraw0 = state.pending_sync.containers_to_redraw@;
    let ghost reorder0 = state.pending_sync.workspaces_to_reorder@;
    let ghost s0 = SwitchView {
        tv: v0,
        redraw: state.pending_sync.containers_to_redraw@,
        reorder: state.pending_sync.workspaces_to_reorder@,
        switched: false,
    };
    let ms = state.monitors();
    let mut switched_any = false;
    let mut i: usize = 0;
    assert(ms@.take(0) =~= Seq::<usize>::empty());
    while i < ms.len()
        invariant
            state.wf(),
            state.len() == v0.len(),
            ms@ == monitors(v0),
            forall|k: int| 0 <= k < ms@.len() ==> #[trigger] ms@[k] < v0.len(),
            i <= ms@.len(),
            state.persistence == old(state).persistence,
            ({
                let s = switch_all(s0, ms@.take(i as int), workspace_name@);
                &&& state.tv() == s.tv
                &&& state.pending_sync.containers_to_redraw@ == s.redraw
                &&& state.pending_sync.workspaces_to_reorder@ == s.reorder
                &&& switched_any == s.switched
            }),
            !state.pending_sync.focus_change || old(state).pending_sync.focus_change,
            state.pending_sync.focus_change == old(state).pending_sync.focus_change,
            state.pending_sync.cursor_jump == old(state).pending_sync.cursor_jump,
        decreases ms@.len() - i,
    {
        let m = ms[i];
        assert(ms@.take(i + 1).drop_last() =~= ms@.take(i as int));
        assert(ms@.take(i + 1).last() == m);
        let target = state.workspace_by_name_in_monitor(m, workspace_name);
        match target {
            None => {},
            Some(w) => {
                let displayed = state.displayed_workspace(m);
                if displayed != Some(w) {
                    state.shift_focus_to_index(m, 0, w);
                    match displayed {
                        Some(d) => {
                            let name = state.data[d].workspace_name.clone();
                            state.set_recent_workspace_name(m, name);
                            state.pending_sync.queue_container_to_redraw(d);
                        },
                        None => {},
                    }
                    state.pending_sync.queue_container_to_redraw(w);
                    state.pending_sync.queue_workspace_to_reorder(w);
                    switched_any = true;
                }
            },
        }
        i = i + 1;
    }
    assert(ms@.take(i as int) =~= ms@);
    if switched_any {
        match state.first_destroyable() {
            Some(d) => deactivate_workspace(d, state),
            None => {},
        }
    }
    let to_focus = match state.workspace_by_name_in_monitor(focused_monitor, workspace_name) {
        Some(w) => {
            if state.is_displayed(w) {
                state.focus_target(w)
            } else {
                focused
            }
        },
        None => focused,
    };
    state.set_focused_descendant(to_focus);
    state.pending_sync.focus_change = true;
    state.pending_sync.cursor_jump = true;
    proof {
        lemma_focus_all_displays(
            v0,
            redraw0,
            reorder0,
            workspace_name@,
            focused,
            focused_workspace,
            focused_monitor,
        );
    }
    Ok(())
}

} // verus!
