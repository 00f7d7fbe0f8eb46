//! Plain values that describe monitors, windows and workspaces.

use vstd::prelude::*;

verus! {

/// Kind of a container in the tree.
#[derive(Clone, Copy, Debug, PartialEq, Eq, Structural)]
pub enum ContainerKind {
    Root,
    Monitor,
    Workspace,
    Split,
    Stack,
    Window,
}

#[derive(Clone, Copy, Debug, PartialEq, Eq, Structural)]
pub enum TilingDirection {
    Horizontal,
    Vertical,
}

#[derive(Clone, Copy, Debug, PartialEq, Eq, Structural)]
pub enum Direction {
    Left,
    Right,
    Up,
    Down,
}

/// A point in screen coordinates.
#[derive(Clone, Copy, Debug, PartialEq, Eq, Structural)]
pub struct Point {
    pub x: i32,
    pub y: i32,
}

/// An axis-aligned rectangle given by its top-left corner and its size.
#[derive(Clone, Copy, Debug, PartialEq, Eq, Structural)]
pub struct Rect {
    pub x: i32,
    pub y: i32,
    pub width: i32,
    pub height: i32,
}

impl Rect {
    pub fn from_xy(x: i32, y: i32, width: i32, height: i32) -> (r: Rect)
        ensures
            r == (Rect { x, y, width, height }),
    {
        Rect { x, y, width, height }
    }
}

/// Whether a window is being shown or hidden by the window manager.
#[derive(Clone, Copy, Debug, PartialEq, Eq, Structural)]
pub enum DisplayState {
    Shown,
    Showing,
    Hidden,
    Hiding,
}

#[derive(Clone, Copy, Debug, PartialEq, Eq, Structural)]
pub struct FloatingStateConfig {
    pub centered: bool,
    pub shown_on_top: bool,
}

#[derive(Clone, Copy, Debug, PartialEq, Eq, Structural)]
pub struct FullscreenStateConfig {
    pub maximized: bool,
    pub shown_on_top: bool,
}

/// How a window is laid out.
#[derive(Clone, Copy, Debug, PartialEq, Eq, Structural)]
pub enum WindowState {
    Tiling,
    Floating(FloatingStateConfig),
    Fullscreen(FullscreenStateConfig),
    Minimized,
}

/// A drag of a window by the user that has not ended yet.
#[derive(Clone, Copy, Debug, PartialEq, Eq, Structural)]
pub struct ActiveDrag {
    pub is_from_floating: bool,
}

/// Properties of a monitor as the operating system reports them. The
/// device path and hardware id are only known on some platforms.
pub struct NativeMonitorProperties {
    pub device_name: String,
    pub device_path: Option<String>,
    pub hardware_id: Option<String>,
    pub working_area: Rect,
}

/// Properties of a window as the operating system reports them. The class
/// name is only known on some platforms.
pub struct NativeWindowProperties {
    pub id: u64,
    pub title: String,
    pub process_name: String,
    pub process_path: Option<String>,
    pub class_name: Option<String>,
    pub frame: Rect,
    pub is_maximized: bool,
}

pub fn clone_string(s: &String) -> (r: String)
    ensures
        r@ == s@,
{
    s.clone()
}

pub fn clone_opt_string(s: &Option<String>) -> (r: Option<String>)
    ensures
        r.is_some() == s.is_some(),
        r.is_some() ==> r.unwrap()@ == s.unwrap()@,
{
    match s {
        Some(v) => Some(v.clone()),
        None => None,
    }
}

/// The rectangle at the origin with no size.
pub open spec fn zero_rect() -> Rect {
    Rect { x: 0, y: 0, width: 0, height: 0 }
}

/// Properties of a monitor the platform has told nothing about: no name,
/// path or hardware id, and an empty working area.
pub open spec fn is_unknown_monitor(p: NativeMonitorProperties) -> bool {
    &&& p.device_name@ == Seq::<char>::empty()
    &&& p.device_path is None
    &&& p.hardware_id is None
    &&& p.working_area == zero_rect()
}

/// Properties of a window the platform has told nothing about: id 0, no
/// title, process or class, an empty frame, not maximized.
pub open spec fn is_unknown_window(p: NativeWindowProperties) -> bool {
    &&& p.id == 0
    &&& p.title@ == Seq::<char>::empty()
    &&& p.process_name@ == Seq::<char>::empty()
    &&& p.process_path is None
    &&& p.class_name is None
    &&& p.frame == zero_rect()
    &&& !p.is_maximized
}

impl NativeMonitorProperties {
    pub fn new(
        device_name: String,
        device_path: Option<String>,
        hardware_id: Option<String>,
        working_area: Rect,
    ) -> (r: NativeMonitorProperties)
        ensures
            r == (NativeMonitorProperties { device_name, device_path, hardware_id, working_area }),
    {
        NativeMonitorProperties { device_name, device_path, hardware_id, working_area }
    }

    pub fn empty() -> (r: NativeMonitorProperties)
        ensures
            is_unknown_monitor(r),
    {
        NativeMonitorProperties {
            device_name: String::new(),
            device_path: None,
            hardware_id: None,
            working_area: Rect { x: 0, y: 0, width: 0, height: 0 },
        }
    }
}

impl NativeWindowProperties {
    pub fn empty() -> (r: NativeWindowProperties)
        ensures
            is_unknown_window(r),
    {
        NativeWindowProperties {
            id: 0,
            title: String::new(),
            process_name: String::new(),
            process_path: None,
            class_name: None,
            frame: Rect { x: 0, y: 0, width: 0, height: 0 },
            is_maximized: false,
        }
    }
}

/// Everything the window manager keeps about a window besides its place
/// in the tree.
pub struct WindowData {
    pub native: NativeWindowProperties,
    pub state: WindowState,
    pub display_state: DisplayState,
    pub floating_placement: Rect,
    pub has_custom_floating_placement: bool,
    pub active_drag: Option<ActiveDrag>,
    pub has_pending_dpi_adjustment: bool,
}

/// The data of one container besides its links. Fields that do not apply
/// to the container's kind keep their empty values.
pub struct ContainerData {
    pub kind: ContainerKind,
    /// Share of the parent's tiling space, in millionths.
    pub tiling_size: u32,
    pub tiling_direction: TilingDirection,
    /// Where the container was last laid out. The layout of the screen is
    /// computed outside this library, which records it here through
    /// `WmState::set_rect`; drops and resizes read it and never compute it.
    pub rect: Rect,
    /// Name of the workspace's config (workspaces only).
    pub workspace_name: String,
    /// Whether the workspace outlives being empty (workspaces only).
    pub keep_alive: bool,
    /// Name of the workspace last displayed before the current one
    /// (monitors only).
    pub recent_workspace_name: Option<String>,
    pub monitor: NativeMonitorProperties,
    pub window: WindowData,
}

/// Tiling size of a container that fills its parent.
pub const FULL_TILING_SIZE: u32 = 1_000_000;

/// Data of a container of kind `kind` with every other field at its
/// starting value: filling its parent, horizontal, placed nowhere, with no
/// workspace name or recent workspace, not kept alive, an unknown monitor,
/// and an unknown, shown, tiling window with no floating placement, drag
/// or pending DPI adjustment.
pub open spec fn is_blank(d: ContainerData, kind: ContainerKind) -> bool {
    &&& d.kind == kind
    &&& d.tiling_size == FULL_TILING_SIZE
    &&& d.tiling_direction == TilingDirection::Horizontal
    &&& d.rect == zero_rect()
    &&& d.workspace_name@ == Seq::<char>::empty()
    &&& !d.keep_alive
    &&& d.recent_workspace_name is None
    &&& is_unknown_monitor(d.monitor)
    &&& is_unknown_window(d.window.native)
    &&& d.window.state == WindowState::Tiling
    &&& d.window.display_state == DisplayState::Shown
    &&& d.window.floating_placement == zero_rect()
    &&& !d.window.has_custom_floating_placement
    &&& d.window.active_drag is None
    &&& !d.window.has_pending_dpi_adjustment
}

impl ContainerData {
    fn blank(kind: ContainerKind) -> (r: ContainerData)
        ensures
            is_blank(r, kind),
    {
        ContainerData {
            kind,
            tiling_size: FULL_TILING_SIZE,
            tiling_direction: TilingDirection::Horizontal,
            rect: Rect { x: 0, y: 0, width: 0, height: 0 },
            workspace_name: String::new(),
            keep_alive: false,
            recent_workspace_name: None,
            monitor: NativeMonitorProperties::empty(),
            window: WindowData {
                native: NativeWindowProperties::empty(),
                state: WindowState::Tiling,
                display_state: DisplayState::Shown,
                floating_placement: Rect { x: 0, y: 0, width: 0, height: 0 },
                has_custom_floating_placement: false,
                active_drag: None,
                has_pending_dpi_adjustment: false,
            },
        }
    }

    pub fn root() -> (r: ContainerData)
        ensures
            is_blank(r, ContainerKind::Root),
    {
        Self::blank(ContainerKind::Root)
    }

    pub fn monitor(properties: NativeMonitorProperties) -> (r: ContainerData)
        ensures
            r.kind == ContainerKind::Monitor,
            r.monitor == properties,
            r.recent_workspace_name is None,
    {
        let mut d = Self::blank(ContainerKind::Monitor);
        d.rect = properties.working_area;
        d.monitor = properties;
        d
    }

    pub fn workspace(name: String, keep_alive: bool, direction: TilingDirection) -> (r:
        ContainerData)
        ensures
            r.kind == ContainerKind::Workspace,
            r.workspace_name@ == name@,
            r.keep_alive == keep_alive,
            r.tiling_direction == direction,
            r.tiling_size == FULL_TILING_SIZE,
            r.recent_workspace_name is None,
    {
        let mut d = Self::blank(ContainerKind::Workspace);
        d.workspace_name = name;
        d.keep_alive = keep_alive;
        d.tiling_direction = direction;
        d
    }

    pub fn split(direction: TilingDirection) -> (r: ContainerData)
        ensures
            r.kind == ContainerKind::Split,
            r.tiling_direction == direction,
            r.tiling_size == FULL_TILING_SIZE,
    {
        let mut d = Self::blank(ContainerKind::Split);
        d.tiling_direction = direction;
        d
    }

    pub fn stack() -> (r: ContainerData)
        ensures
            r.kind == ContainerKind::Stack,
            r.tiling_size == FULL_TILING_SIZE,
    {
        Self::blank(ContainerKind::Stack)
    }

    pub fn window(native: NativeWindowProperties, state: WindowState) -> (r: ContainerData)
        ensures
            r.kind == ContainerKind::Window,
            r.window.native == native,
            r.window.state == state,
            r.window.display_state == DisplayState::Shown,
            r.window.active_drag is None,
            r.window.floating_placement == native.frame,
    {
        let mut d = Self::blank(ContainerKind::Window);
        d.rect = native.frame;
        d.window.floating_placement = native.frame;
        d.window.native = native;
        d.window.state = state;
        d
    }
}

} // verus!
