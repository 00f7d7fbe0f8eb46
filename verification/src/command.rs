//! The command-line and IPC vocabulary whose meaning is decided here: log
//! levels from verbosity flags, queries, events that can be subscribed to,
//! and the plain-valued command arguments.

use vstd::prelude::*;

verus! {

/// How much the window manager logs.
#[derive(Clone, Copy, Debug, PartialEq, Eq, Structural)]
pub enum LogLevel {
    Debug,
    Info,
    Error,
}

/// The verbosity flags given on the command line.
#[derive(Clone, Copy, Debug, PartialEq, Eq, Structural)]
pub struct Verbosity {
    pub verbose: bool,
    pub quiet: bool,
}

impl Verbosity {
    /// The log level the flags ask for: debug when verbose, else errors
    /// only when quiet, else info.
    pub fn level(&self) -> (r: LogLevel)
        ensures
            r == if self.verbose {
                LogLevel::Debug
            } else if self.quiet {
                LogLevel::Error
            } else {
                LogLevel::Info
            },
    {
        if self.verbose {
            LogLevel::Debug
        } else if self.quiet {
            LogLevel::Error
        } else {
            LogLevel::Info
        }
    }
}

/// Whether a command line of `arg_count` arguments, the program's name
/// included, starts the window manager with default settings: so it does
/// when nothing but the program's name is given.
pub fn starts_by_default(arg_count: usize) -> (r: bool)
    ensures
        r == (arg_count == 1),
{
    arg_count == 1
}

/// A part of the window manager's state that can be queried.
#[derive(Clone, Copy, Debug, PartialEq, Eq, Structural)]
pub enum QueryCommand {
    AppMetadata,
    BindingModes,
    Focused,
    TilingDirection,
    Monitors,
    Windows,
    Workspaces,
    Paused,
}

/// An event that clients can subscribe to.
#[derive(Clone, Copy, Debug, PartialEq, Eq, Structural)]
pub enum SubscribableEvent {
    All,
    ApplicationExiting,
    BindingModesChanged,
    FocusChanged,
    FocusedContainerMoved,
    MonitorAdded,
    MonitorUpdated,
    MonitorRemoved,
    TilingDirectionChanged,
    UserConfigChanged,
    WindowManaged,
    WindowUnmanaged,
    WorkspaceActivated,
    WorkspaceDeactivated,
    WorkspaceUpdated,
    PauseChanged,
}

#[derive(Clone, Copy, Debug, PartialEq, Eq, Structural)]
pub enum TitleBarVisibility {
    Shown,
    Hidden,
}

/// Where to put a floating window: centered, or at the given coordinates.
#[derive(Clone, Copy, Debug, PartialEq, Eq, Structural)]
pub struct InvokePositionCommand {
    pub centered: bool,
    pub x_pos: Option<i32>,
    pub y_pos: Option<i32>,
}

/// New settings for a workspace's config; absent fields stay as they are.
pub struct InvokeUpdateWorkspaceConfig {
    pub name: Option<String>,
    pub display_name: Option<String>,
    pub bind_to_monitor: Option<u32>,
    pub keep_alive: Option<bool>,
}

} // verus!
