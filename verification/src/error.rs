//! Errors of the window manager's commands.

use vstd::prelude::*;

verus! {

/// Why a command could not be carried out.
#[derive(Clone, Copy, Debug, PartialEq, Eq, Structural)]
pub enum WmError {
    /// The stack has no child to select.
    NoSelectedChild,
    /// Neither the origin nor the stack's selected child is a window.
    NoSelectedStackWindow,
    /// The stack is not attached to the tree.
    StackHasNoParent,
    /// No monitor has the requested index.
    MonitorNotFound,
    /// The target monitor displays no workspace.
    NoDisplayedWorkspace,
    /// No container has focus.
    NoFocusedContainer,
    /// The focused container is not in a workspace.
    NoFocusedWorkspace,
    /// The focused workspace is not on a monitor.
    NoFocusedMonitor,
    /// The container to attach already has a parent.
    AlreadyAttached,
    /// No workspace config has the requested name.
    WorkspaceConfigNotFound,
    /// Every workspace config is already active on the monitor.
    NoWorkspaceConfigAvailable,
    /// The workspace is already active on the monitor.
    WorkspaceAlreadyActive,
    /// The target monitor already has a workspace of the same name.
    WorkspaceNameTaken,
    /// No workspace was found for the window drop.
    NoDropWorkspace,
    /// The window is on no known monitor.
    NoNearestMonitor,
    /// The container is not where the command expects it.
    InvalidContainer,
}

/// The description of each error.
pub open spec fn describe(e: WmError) -> &'static str {
    match e {
        WmError::NoSelectedChild => "Stack has no selected child.",
        WmError::NoSelectedStackWindow => "No selected stack window.",
        WmError::StackHasNoParent => "Stack has no parent.",
        WmError::MonitorNotFound => "Monitor was not found.",
        WmError::NoDisplayedWorkspace => "No workspace is currently displayed.",
        WmError::NoFocusedContainer => "No container is currently focused.",
        WmError::NoFocusedWorkspace => "No workspace is currently focused.",
        WmError::NoFocusedMonitor => "No monitor is currently focused.",
        WmError::AlreadyAttached => "Cannot attach an already attached container.",
        WmError::WorkspaceConfigNotFound => "Workspace config was not found.",
        WmError::NoWorkspaceConfigAvailable => "No workspace config is available.",
        WmError::WorkspaceAlreadyActive => "Workspace is already active.",
        WmError::WorkspaceNameTaken => "Target monitor already has the workspace.",
        WmError::NoDropWorkspace => "Couldn't find workspace for window drop.",
        WmError::NoNearestMonitor => "Failed to get workspace of nearest monitor.",
        WmError::InvalidContainer => "Container is not in the expected place.",
    }
}

impl WmError {
    /// Human-readable description of the error.
    pub fn message(&self) -> (r: &'static str)
        ensures
            r == describe(*self),
    {
        match self {
            WmError::NoSelectedChild => "Stack has no selected child.",
            WmError::NoSelectedStackWindow => "No selected stack window.",
            WmError::StackHasNoParent => "Stack has no parent.",
            WmError::MonitorNotFound => "Monitor was not found.",
            WmError::NoDisplayedWorkspace => "No workspace is currently displayed.",
            WmError::NoFocusedContainer => "No container is currently focused.",
            WmError::NoFocusedWorkspace => "No workspace is currently focused.",
            WmError::NoFocusedMonitor => "No monitor is currently focused.",
            WmError::AlreadyAttached => "Cannot attach an already attached container.",
            WmError::WorkspaceConfigNotFound => "Workspace config was not found.",
            WmError::NoWorkspaceConfigAvailable => "No workspace config is available.",
            WmError::WorkspaceAlreadyActive => "Workspace is already active.",
            WmError::WorkspaceNameTaken => "Target monitor already has the workspace.",
            WmError::NoDropWorkspace => "Couldn't find workspace for window drop.",
            WmError::NoNearestMonitor => "Failed to get workspace of nearest monitor.",
            WmError::InvalidContainer => "Container is not in the expected place.",
        }
    }
}

} // verus!
