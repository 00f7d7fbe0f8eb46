//! The parts of the user config that the window manager's logic reads.

use vstd::prelude::*;

use crate::model::FullscreenStateConfig;
use crate::seqs::str_equal;

verus! {

pub struct WorkspaceConfig {
    pub name: String,
    pub display_name: Option<String>,
    /// Index of the monitor the workspace belongs to, if it is bound.
    pub bind_to_monitor: Option<u32>,
    /// Whether the workspace stays when it is empty and not displayed.
    pub keep_alive: bool,
}

pub struct PersistenceConfig {
    pub enabled: bool,
    pub restore_on_startup: bool,
    pub restore_on_monitor_reconnect: bool,
}

pub struct UserConfig {
    pub workspaces: Vec<WorkspaceConfig>,
    pub persistence: PersistenceConfig,
    /// Fullscreen state given to windows that become fullscreen.
    pub fullscreen_defaults: FullscreenStateConfig,
}

/// Index of the first config named `name`.
pub open spec fn config_index(cfgs: Seq<WorkspaceConfig>, name: Seq<char>) -> Option<int>
    decreases cfgs.len(),
{
    if cfgs.len() == 0 {
        None
    } else if cfgs[0].name@ == name {
        Some(0)
    } else {
        match config_index(cfgs.drop_first(), name) {
            Some(i) => Some(i + 1),
            None => None,
        }
    }
}

pub proof fn lemma_config_index(cfgs: Seq<WorkspaceConfig>, name: Seq<char>)
    ensures
        config_index(cfgs, name) matches Some(i) ==> 0 <= i < cfgs.len() && cfgs[i].name@ == name
            && forall|j: int| 0 <= j < i ==> cfgs[j].name@ != name,
        config_index(cfgs, name) is None ==> forall|j: int|
            0 <= j < cfgs.len() ==> cfgs[j].name@ != name,
    decreases cfgs.len(),
{
    if cfgs.len() > 0 {
        lemma_config_index(cfgs.drop_first(), name);
        if cfgs[0].name@ != name {
            assert forall|j: int| 1 <= j < cfgs.len() implies cfgs[j] == cfgs.drop_first()[j - 1] by {}
        }
    }
}

impl UserConfig {
    /// Index of the first workspace config named `name`.
    pub fn workspace_config_by_name(&self, name: &str) -> (r: Option<usize>)
        ensures
            r matches Some(i) ==> config_index(self.workspaces@, name@) == Some(i as int) && i
                < self.workspaces@.len(),
            r is None ==> config_index(self.workspaces@, name@) is None,
    {
        proof {
            lemma_config_index(self.workspaces@, name@);
        }
        let mut i: usize = 0;
        while i < self.workspaces.len()
            invariant
                i <= self.workspaces@.len(),
                forall|j: int| 0 <= j < i ==> self.workspaces@[j].name@ != name@,
                config_index(self.workspaces@, name@) matches Some(k) ==> 0 <= k < self.workspaces@.len()
                    && self.workspaces@[k].name@ == name@ && forall|j: int|
                    0 <= j < k ==> self.workspaces@[j].name@ != name@,
                config_index(self.workspaces@, name@) is None ==> forall|j: int|
                    0 <= j < self.workspaces@.len() ==> self.workspaces@[j].name@ != name@,
            decreases self.workspaces@.len() - i,
        {
            if str_equal(self.workspaces[i].name.as_str(), name) {
                proof {
                    if let Some(k) = config_index(self.workspaces@, name@) {
                        if k < i {
                        } else if k > i {
                            assert(self.workspaces@[i as int].name@ == name@);
                        }
                    }
                }
                return Some(i);
            }
            i = i + 1;
        }
        None
    }
}

} // verus!
