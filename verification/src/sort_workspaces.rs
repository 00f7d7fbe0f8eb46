//! Keeping a monitor's workspaces in the order of their configs.

use vstd::prelude::*;

use crate::config::{config_index, lemma_config_index, UserConfig, WorkspaceConfig};
use crate::state::{TreeView, WmState};
use crate::tree::{lemma_insert, node_wf, set_children_spec};

verus! {

/// Sort key of container `c`: 0 for a workspace whose name no config has,
/// else one more than the index of the first config of that name. So a
/// workspace without a config comes before every configured one.
pub open spec fn config_key(v: TreeView, cfgs: Seq<WorkspaceConfig>, c: usize) -> int {
    match config_index(cfgs, v.data[c as int].workspace_name@) {
        None => 0,
        Some(i) => i + 1,
    }
}

/// Where `c` goes into `s`: right after the last entry, counted from the
/// end, whose key is at most that of `c`.
pub open spec fn insert_pos(v: TreeView, cfgs: Seq<WorkspaceConfig>, s: Seq<usize>, c: usize) -> int
    decreases s.len(),
{
    if s.len() == 0 {
        0
    } else if config_key(v, cfgs, s.last()) <= config_key(v, cfgs, c) {
        s.len() as int
    } else {
        insert_pos(v, cfgs, s.drop_last(), c)
    }
}

/// `s` sorted by [`config_key`], entries of equal key keeping their order.
pub open spec fn sorted_by_config(v: TreeView, cfgs: Seq<WorkspaceConfig>, s: Seq<usize>) -> Seq<usize>
    decreases s.len(),
{
    if s.len() == 0 {
        s
    } else {
        let r = sorted_by_config(v, cfgs, s.drop_last());
        r.insert(insert_pos(v, cfgs, r, s.last()), s.last())
    }
}

/// The keys of `s` never decrease.
pub open spec fn key_sorted(v: TreeView, cfgs: Seq<WorkspaceConfig>, s: Seq<usize>) -> bool {
    forall|i: int, j: int|
        0 <= i < j < s.len() ==> config_key(v, cfgs, #[trigger] s[i]) <= config_key(v, cfgs, #[trigger] s[j])
}

/// The tree with the children of monitor `m` sorted by their configs.
pub open spec fn sort_children(v: TreeView, m: usize, cfgs: Seq<WorkspaceConfig>) -> TreeView {
    v.with_links(set_children_spec(v.links, m, sorted_by_config(v, cfgs, v.children_of(m))))
}

proof fn lemma_insert_pos(v: TreeView, cfgs: Seq<WorkspaceConfig>, s: Seq<usize>, c: usize)
    ensures
        0 <= insert_pos(v, cfgs, s, c) <= s.len(),
        forall|j: int|
            insert_pos(v, cfgs, s, c) <= j < s.len() ==> config_key(v, cfgs, #[trigger] s[j])
                > config_key(v, cfgs, c),
        insert_pos(v, cfgs, s, c) > 0 ==> config_key(v, cfgs, s[insert_pos(v, cfgs, s, c) - 1])
            <= config_key(v, cfgs, c),
    decreases s.len(),
{
    if s.len() > 0 && config_key(v, cfgs, s.last()) > config_key(v, cfgs, c) {
        lemma_insert_pos(v, cfgs, s.drop_last(), c);
        let p = insert_pos(v, cfgs, s, c);
        assert forall|j: int| p <= j < s.len() implies config_key(v, cfgs, #[trigger] s[j]) > config_key(
            v,
            cfgs,
            c,
        ) by {
            if j < s.len() - 1 {
                assert(s[j] == s.drop_last()[j]);
            }
        }
        if p > 0 {
            assert(s[p - 1] == s.drop_last()[p - 1]);
        }
    }
}

/// Inserting at [`insert_pos`] keeps a list sorted by key.
proof fn lemma_insert_sorted(v: TreeView, cfgs: Seq<WorkspaceConfig>, r: Seq<usize>, x: usize)
    requires
        key_sorted(v, cfgs, r),
    ensures
        key_sorted(v, cfgs, r.insert(insert_pos(v, cfgs, r, x), x)),
{
    lemma_insert_pos(v, cfgs, r, x);
    let p = insert_pos(v, cfgs, r, x);
    let r2 = r.insert(p, x);
    assert forall|i: int, j: int| 0 <= i < j < r2.len() implies config_key(
        v,
        cfgs,
        #[trigger] r2[i],
    ) <= config_key(v, cfgs, #[trigger] r2[j]) by {
        if j < p {
            assert(r2[i] == r[i] && r2[j] == r[j]);
        } else if j == p {
            assert(r2[i] == r[i]);
            assert(r2[j] == x);
            if i < p - 1 {
                assert(config_key(v, cfgs, r[i]) <= config_key(v, cfgs, r[p - 1]));
            }
        } else if i < p {
            assert(r2[i] == r[i] && r2[j] == r[j - 1]);
            assert(config_key(v, cfgs, r[i]) <= config_key(v, cfgs, r[j - 1]));
        } else if i == p {
            assert(r2[i] == x && r2[j] == r[j - 1]);
        } else {
            assert(r2[i] == r[i - 1] && r2[j] == r[j - 1]);
        }
    }
}

/// Sorting a list of distinct workspaces by their configs keeps exactly
/// its workspaces, each once, and puts them in the order of their configs,
/// those without a config first.
pub proof fn law_sorted_by_config(v: TreeView, cfgs: Seq<WorkspaceConfig>, s: Seq<usize>)
    requires
        s.no_duplicates(),
    ensures
        sorted_by_config(v, cfgs, s).len() == s.len(),
        sorted_by_config(v, cfgs, s).no_duplicates(),
        forall|y: usize| #[trigger] sorted_by_config(v, cfgs, s).contains(y) <==> s.contains(y),
        key_sorted(v, cfgs, sorted_by_config(v, cfgs, s)),
    decreases s.len(),
{
    if s.len() > 0 {
        let d = s.drop_last();
        let x = s.last();
        assert(d.no_duplicates());
        law_sorted_by_config(v, cfgs, d);
        let r = sorted_by_config(v, cfgs, d);
        assert(!d.contains(x)) by {
            if d.contains(x) {
                let k = choose|k: int| 0 <= k < d.len() && d[k] == x;
                assert(s[k] == s[s.len() - 1]);
            }
        }
        lemma_insert_pos(v, cfgs, r, x);
        let p = insert_pos(v, cfgs, r, x);
        lemma_insert(r, p, x);
        let r2 = r.insert(p, x);
        assert forall|y: usize| #[trigger] r2.contains(y) <==> s.contains(y) by {
            if s.contains(y) && y != x {
                let k = choose|k: int| 0 <= k < s.len() && s[k] == y;
                assert(d[k] == y);
            }
            if d.contains(y) {
                let k = choose|k: int| 0 <= k < d.len() && d[k] == y;
                assert(s[k] == y);
            }
            if y == x {
                assert(s[s.len() - 1] == y);
            }
        }
        lemma_insert_sorted(v, cfgs, r, x);
    }
}

impl WmState {
    /// Sort key of workspace `c`; see [`config_key`].
    fn config_key_of(&self, c: usize, config: &UserConfig) -> (k: usize)
        requires
            c < self.data@.len(),
        ensures
            k as int == config_key(self.tv(), config.workspaces@, c),
    {
        proof {
            lemma_config_index(config.workspaces@, self.data@[c as int].workspace_name@);
        }
        let n = config.workspaces.len();
        match config.workspace_config_by_name(self.data[c].workspace_name.as_str()) {
            None => 0,
            Some(i) => {
                assert(i < n);
                i + 1
            },
        }
    }

    /// The children of `m` sorted by their configs.
    fn sorted_children(&self, m: usize, config: &UserConfig) -> (r: Vec<usize>)
        requires
            self.wf(),
            m < self.len(),
        ensures
            r@ == sorted_by_config(self.tv(), config.workspaces@, self.children_of(m)),
    {
        let ghost v = self.tv();
        let ghost cfgs = config.workspaces@;
        let ghost ch = self.children_of(m);
        proof {
            assert(node_wf(v.links, m as int));
        }
        let mut out: Vec<usize> = Vec::new();
        let mut keys: Vec<usize> = Vec::new();
        let mut i: usize = 0;
        assert(ch.take(0) =~= Seq::<usize>::empty());
        while i < self.links[m].children.len()
            invariant
                self.wf(),
                m < self.len(),
                v == self.tv(),
                cfgs == config.workspaces@,
                ch == self.children_of(m),
                ch == self.links@[m as int].children@,
                i <= ch.len(),
                out@ == sorted_by_config(v, cfgs, ch.take(i as int)),
                keys@.len() == out@.len(),
                forall|j: int| 0 <= j < keys@.len() ==> keys@[j] as int == config_key(v, cfgs, #[trigger] out@[j]),
                forall|k: int| 0 <= k < ch.len() ==> #[trigger] ch[k] < self.len(),
            decreases ch.len() - i,
        {
            let c = self.links[m].children[i];
            let k = self.config_key_of(c, config);
            let mut p: usize = out.len();
            assert(out@.take(p as int) =~= out@);
            while p > 0 && keys[p - 1] > k
                invariant
                    p <= out@.len(),
                    keys@.len() == out@.len(),
                    forall|j: int| 0 <= j < keys@.len() ==> keys@[j] as int == config_key(v, cfgs, #[trigger] out@[j]),
                    k as int == config_key(v, cfgs, c),
                    insert_pos(v, cfgs, out@, c) == insert_pos(v, cfgs, out@.take(p as int), c),
                decreases p,
            {
                assert(out@.take(p as int).drop_last() =~= out@.take(p - 1));
                assert(out@.take(p as int).last() == out@[p - 1]);
                p = p - 1;
            }
            proof {
                if p > 0 {
                    assert(out@.take(p as int).last() == out@[p - 1]);
                }
                assert(ch.take(i + 1).drop_last() =~= ch.take(i as int));
                assert(ch.take(i + 1).last() == c);
            }
            let ghost ko = keys@;
            let ghost oo = out@;
            assert(insert_pos(v, cfgs, oo, c) == p as int);
            out.insert(p, c);
            keys.insert(p, k);
            assert forall|j: int| 0 <= j < keys@.len() implies keys@[j] as int == config_key(
                v,
                cfgs,
                #[trigger] out@[j],
            ) by {
                if j < p {
                    assert(keys@[j] == ko[j] && out@[j] == oo[j]);
                } else if j > p {
                    assert(keys@[j] == ko[j - 1] && out@[j] == oo[j - 1]);
                }
            }
            i = i + 1;
        }
        assert(ch.take(i as int) =~= ch);
        out
    }

    /// Sorts the workspaces of monitor `m` into the order of their
    /// configs; see [`sort_children`].
    pub fn sort_workspaces(&mut self, m: usize, config: &UserConfig)
        requires
            old(self).wf(),
            m < old(self).len(),
        ensures
            final(self).wf(),
            final(self).len() == old(self).len(),
            final(self).tv() == sort_children(old(self).tv(), m, config.workspaces@),
            final(self).pending_sync == old(self).pending_sync,
            final(self).persistence == old(self).persistence,
    {
        let sorted = self.sorted_children(m, config);
        proof {
            assert(node_wf(self.lv(), m as int));
            law_sorted_by_config(self.tv(), config.workspaces@, self.children_of(m));
        }
        self.set_children(m, sorted);
    }
}

} // verus!
