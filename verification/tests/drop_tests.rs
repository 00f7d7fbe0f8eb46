use novawm::config::{PersistenceConfig, UserConfig, WorkspaceConfig};
use novawm::container::attach_container;
use novawm::drop::{drop_into_tiling_tree, drop_zone, DropZone};
use novawm::error::WmError;
use novawm::events::{
    add_monitor, drop_as_tiling_window, handle_window_destroyed, handle_window_moved_or_resized_end,
    MoveEndInput,
};
use novawm::model::{
    ActiveDrag, ContainerData, ContainerKind, FloatingStateConfig, FullscreenStateConfig,
    NativeMonitorProperties, NativeWindowProperties, Point, Rect, TilingDirection, WindowState,
};
use novawm::state::WmState;
use novawm::workspace::ensure_workspaces_for_monitor;

fn test_config() -> UserConfig {
    UserConfig {
        workspaces: ["1", "2"]
            .iter()
            .map(|name| WorkspaceConfig {
                name: name.to_string(),
                display_name: None,
                bind_to_monitor: None,
                keep_alive: false,
            })
            .collect(),
        persistence: PersistenceConfig {
            enabled: false,
            restore_on_startup: false,
            restore_on_monitor_reconnect: false,
        },
        fullscreen_defaults: FullscreenStateConfig { maximized: false, shown_on_top: true },
    }
}

fn add_test_monitor(state: &mut WmState, config: &UserConfig) -> usize {
    let props = NativeMonitorProperties::new(
        "monitor".to_string(),
        None,
        None,
        Rect::from_xy(0, 0, 2000, 1000),
    );
    let m = add_monitor(props, state).unwrap();
    ensure_workspaces_for_monitor(m, state, config).unwrap();
    m
}

fn workspace(state: &WmState, monitor: usize, name: &str) -> usize {
    state.workspace_by_name_in_monitor(monitor, name).expect("workspace should exist")
}

fn window(state: &mut WmState, title: &str, frame: Rect, window_state: WindowState) -> usize {
    let mut native = NativeWindowProperties::empty();
    native.title = title.to_string();
    native.frame = frame;
    state.add_container(ContainerData::window(native, window_state))
}

fn floating() -> WindowState {
    WindowState::Floating(FloatingStateConfig { centered: false, shown_on_top: false })
}

fn center(r: Rect) -> Point {
    Point { x: r.x + r.width / 2, y: r.y + r.height / 2 }
}

#[test]
fn center_drop_creates_stack() {
    let config = test_config();
    let mut state = WmState::new();
    let monitor = add_test_monitor(&mut state, &config);
    let ws = workspace(&state, monitor, "1");
    let target_rect = Rect::from_xy(0, 0, 1000, 1000);
    let target = window(&mut state, "A", target_rect, WindowState::Tiling);
    let moved = window(&mut state, "B", Rect::from_xy(300, 300, 400, 300), floating());
    attach_container(target, ws, None, &mut state).unwrap();
    attach_container(moved, ws, None, &mut state).unwrap();
    state.set_focused_descendant(target);

    let moved = drop_into_tiling_tree(moved, ws, &center(target_rect), &mut state).unwrap();

    let stack = state.links[moved].parent.expect("stack should be created");
    assert_eq!(state.data[stack].kind, ContainerKind::Stack);
    assert_eq!(state.child_count(stack), 2);
    assert_eq!(state.selected_child(stack).expect("selected"), moved);
}

#[test]
fn center_drop_adds_to_existing_stack() {
    let config = test_config();
    let mut state = WmState::new();
    let monitor = add_test_monitor(&mut state, &config);
    let ws = workspace(&state, monitor, "1");
    let stack_rect = Rect::from_xy(0, 0, 1000, 1000);
    let a = window(&mut state, "A", stack_rect, WindowState::Tiling);
    let b = window(&mut state, "B", stack_rect, WindowState::Tiling);
    let moved = window(&mut state, "C", Rect::from_xy(10, 10, 100, 100), floating());
    let stack = state.add_container(ContainerData::stack());
    state.data[stack].rect = stack_rect;
    attach_container(stack, ws, None, &mut state).unwrap();
    attach_container(a, stack, None, &mut state).unwrap();
    attach_container(b, stack, None, &mut state).unwrap();
    attach_container(moved, ws, None, &mut state).unwrap();
    state.set_focused_descendant(a);

    let moved = drop_into_tiling_tree(moved, ws, &center(stack_rect), &mut state).unwrap();

    assert_eq!(state.child_count(stack), 3);
    assert_eq!(state.selected_child(stack).expect("selected"), moved);
}

#[test]
fn edge_drop_reuses_existing_split() {
    let config = test_config();
    let mut state = WmState::new();
    let monitor = add_test_monitor(&mut state, &config);
    let ws = workspace(&state, monitor, "1");
    let a = window(&mut state, "A", Rect::from_xy(0, 0, 1000, 1000), WindowState::Tiling);
    let b_rect = Rect::from_xy(1000, 0, 1000, 1000);
    let b = window(&mut state, "B", b_rect, WindowState::Tiling);
    let moved = window(&mut state, "C", Rect::from_xy(10, 10, 100, 100), floating());
    attach_container(a, ws, None, &mut state).unwrap();
    attach_container(b, ws, None, &mut state).unwrap();
    attach_container(moved, ws, None, &mut state).unwrap();

    let right = Point { x: b_rect.x + b_rect.width - 5, y: center(b_rect).y };
    drop_into_tiling_tree(moved, ws, &right, &mut state).unwrap();

    assert_eq!(state.child_count(ws), 3);
    assert!(state.links[ws].children.iter().all(|&c| state.data[c].kind != ContainerKind::Split));
    assert_eq!(state.links[ws].children, vec![a, b, moved]);
    assert_eq!(state.data[moved].window.state, WindowState::Tiling);
}

#[test]
fn drop_zone_uses_center_and_nearest_edge() {
    let rect = Rect::from_xy(0, 0, 1000, 1000);

    assert_eq!(drop_zone(&Point { x: 500, y: 500 }, &rect), DropZone::Center);
    assert_eq!(drop_zone(&Point { x: 500, y: 20 }, &rect), DropZone::Top);
    assert_eq!(drop_zone(&Point { x: 980, y: 500 }, &rect), DropZone::Right);
}

#[test]
fn drop_zone_edges_and_center_box_bounds() {
    let rect = Rect::from_xy(0, 0, 1000, 1000);
    // The center box spans 300..=700 on both axes.
    assert_eq!(drop_zone(&Point { x: 300, y: 300 }, &rect), DropZone::Center);
    assert_eq!(drop_zone(&Point { x: 700, y: 700 }, &rect), DropZone::Center);
    assert_eq!(drop_zone(&Point { x: 299, y: 500 }, &rect), DropZone::Left);
    assert_eq!(drop_zone(&Point { x: 500, y: 701 }, &rect), DropZone::Bottom);
    assert_eq!(drop_zone(&Point { x: 20, y: 500 }, &rect), DropZone::Left);
    assert_eq!(drop_zone(&Point { x: 500, y: 990 }, &rect), DropZone::Bottom);
    // On a diagonal the top or bottom side wins.
    assert_eq!(drop_zone(&Point { x: 900, y: 900 }, &rect), DropZone::Bottom);
    assert_eq!(drop_zone(&Point { x: 100, y: 100 }, &rect), DropZone::Top);
    // An offset rect of width 105: 40% is 42, and the box starts at 10 + 31.5, rounded to 42.
    let odd = Rect::from_xy(10, 10, 105, 105);
    assert_eq!(drop_zone(&Point { x: 42, y: 60 }, &odd), DropZone::Center);
    assert_eq!(drop_zone(&Point { x: 41, y: 60 }, &odd), DropZone::Left);
    assert_eq!(drop_zone(&Point { x: 84, y: 60 }, &odd), DropZone::Center);
    assert_eq!(drop_zone(&Point { x: 85, y: 60 }, &odd), DropZone::Right);
}

#[test]
fn drop_zone_directions() {
    assert_eq!(DropZone::Left.tiling_direction(), TilingDirection::Horizontal);
    assert_eq!(DropZone::Right.tiling_direction(), TilingDirection::Horizontal);
    assert_eq!(DropZone::Top.tiling_direction(), TilingDirection::Vertical);
    assert_eq!(DropZone::Bottom.tiling_direction(), TilingDirection::Vertical);
    assert!(DropZone::Left.is_before());
    assert!(DropZone::Top.is_before());
    assert!(!DropZone::Right.is_before());
    assert!(!DropZone::Bottom.is_before());
    assert!(!DropZone::Center.is_before());
}

#[test]
fn edge_drop_creates_correct_split() {
    let config = test_config();
    let mut state = WmState::new();
    let monitor = add_test_monitor(&mut state, &config);
    let ws = workspace(&state, monitor, "1");
    let target_rect = Rect::from_xy(0, 0, 1000, 1000);
    let target = window(&mut state, "A", target_rect, WindowState::Tiling);
    let moved = window(&mut state, "B", Rect::from_xy(10, 10, 100, 100), floating());
    attach_container(target, ws, None, &mut state).unwrap();
    attach_container(moved, ws, None, &mut state).unwrap();

    let top = Point { x: center(target_rect).x, y: target_rect.y + 5 };
    assert!(drop_into_tiling_tree(moved, ws, &top, &mut state).is_ok());

    assert_eq!(state.data[ws].tiling_direction, TilingDirection::Vertical);
    assert_eq!(state.child_count(ws), 2);
}

#[test]
fn edge_drop_across_the_direction_beside_a_sibling_keeps_the_split() {
    let config = test_config();
    let mut state = WmState::new();
    let monitor = add_test_monitor(&mut state, &config);
    let ws = workspace(&state, monitor, "1");
    let target_rect = Rect::from_xy(0, 0, 1000, 1000);
    let target = window(&mut state, "A", target_rect, WindowState::Tiling);
    let other = window(&mut state, "C", Rect::from_xy(1000, 0, 1000, 1000), WindowState::Tiling);
    let moved = window(&mut state, "B", Rect::from_xy(10, 10, 100, 100), floating());
    attach_container(target, ws, None, &mut state).unwrap();
    attach_container(other, ws, None, &mut state).unwrap();
    attach_container(moved, ws, None, &mut state).unwrap();

    let bottom = Point { x: center(target_rect).x, y: target_rect.y + target_rect.height - 5 };
    drop_into_tiling_tree(moved, ws, &bottom, &mut state).unwrap();

    let split = state.links[target].parent.expect("split");
    assert_eq!(state.data[split].kind, ContainerKind::Split);
    assert_eq!(state.data[split].tiling_direction, TilingDirection::Vertical);
    assert_eq!(state.links[split].children, vec![target, moved]);
    assert_eq!(state.links[ws].children, vec![split, other]);
    assert_eq!(state.data[ws].tiling_direction, TilingDirection::Horizontal);
}

#[test]
fn edge_drop_flattens_the_lone_split_into_the_workspace() {
    let config = test_config();
    let mut state = WmState::new();
    let monitor = add_test_monitor(&mut state, &config);
    let ws = workspace(&state, monitor, "1");
    let target_rect = Rect::from_xy(0, 0, 1000, 1000);
    let target = window(&mut state, "A", target_rect, WindowState::Tiling);
    let moved = window(&mut state, "B", Rect::from_xy(10, 10, 100, 100), floating());
    attach_container(target, ws, None, &mut state).unwrap();
    attach_container(moved, ws, None, &mut state).unwrap();

    let top = Point { x: center(target_rect).x, y: target_rect.y + 5 };
    drop_into_tiling_tree(moved, ws, &top, &mut state).unwrap();

    assert_eq!(state.links[ws].children, vec![moved, target]);
    assert_eq!(state.links[moved].parent, Some(ws));
    assert_eq!(state.links[target].parent, Some(ws));
}

#[test]
fn drop_on_empty_workspace_adds_the_window() {
    let config = test_config();
    let mut state = WmState::new();
    let monitor = add_test_monitor(&mut state, &config);
    let ws = workspace(&state, monitor, "1");
    let moved = window(&mut state, "B", Rect::from_xy(10, 10, 100, 100), floating());
    attach_container(moved, ws, None, &mut state).unwrap();

    drop_into_tiling_tree(moved, ws, &Point { x: 50, y: 50 }, &mut state).unwrap();
    assert_eq!(state.links[moved].parent, Some(ws));
    assert_eq!(state.data[moved].window.state, WindowState::Tiling);
}

#[test]
fn drop_goes_into_the_deepest_split_under_the_cursor() {
    let config = test_config();
    let mut state = WmState::new();
    let monitor = add_test_monitor(&mut state, &config);
    let ws = workspace(&state, monitor, "1");
    let outer = state.add_container(ContainerData::split(TilingDirection::Vertical));
    state.data[outer].rect = Rect::from_xy(0, 0, 1000, 1000);
    attach_container(outer, ws, None, &mut state).unwrap();
    let inner = state.add_container(ContainerData::split(TilingDirection::Horizontal));
    state.data[inner].rect = Rect::from_xy(0, 0, 1000, 500);
    attach_container(inner, outer, None, &mut state).unwrap();
    let a = window(&mut state, "A", Rect::from_xy(0, 0, 500, 500), WindowState::Tiling);
    let b = window(&mut state, "B", Rect::from_xy(500, 0, 500, 500), WindowState::Tiling);
    attach_container(a, inner, None, &mut state).unwrap();
    attach_container(b, inner, None, &mut state).unwrap();
    let moved = window(&mut state, "C", Rect::from_xy(10, 10, 100, 100), floating());
    attach_container(moved, ws, None, &mut state).unwrap();

    // Left edge of B, along the inner split's direction.
    drop_into_tiling_tree(moved, ws, &Point { x: 510, y: 250 }, &mut state).unwrap();
    assert_eq!(state.links[inner].children, vec![a, moved, b]);
    assert!(state.pending_sync.containers_to_redraw.contains(&inner));
}

#[test]
fn drop_as_tiling_window_needs_a_workspace() {
    let mut state = WmState::new();
    let moved = window(&mut state, "B", Rect::from_xy(10, 10, 100, 100), floating());
    assert_eq!(
        drop_as_tiling_window(moved, &Point { x: 5, y: 5 }, &mut state),
        Err(WmError::NoDropWorkspace)
    );
}

#[test]
fn drop_as_tiling_window_uses_the_monitor_under_the_cursor() {
    let config = test_config();
    let mut state = WmState::new();
    let monitor = add_test_monitor(&mut state, &config);
    let ws = workspace(&state, monitor, "1");
    let moved = window(&mut state, "B", Rect::from_xy(10, 10, 100, 100), floating());
    // The window is in no workspace, but the cursor is over the monitor.
    assert_eq!(drop_as_tiling_window(moved, &Point { x: 5, y: 5 }, &mut state), Ok(moved));
    assert_eq!(state.links[moved].parent, Some(ws));
}

fn input(nearest: Option<usize>) -> MoveEndInput {
    MoveEndInput {
        is_maximized: false,
        nearest_monitor: nearest,
        should_fullscreen: false,
        cursor: Point { x: 50, y: 50 },
    }
}

#[test]
fn move_end_without_drag_does_nothing() {
    let config = test_config();
    let mut state = WmState::new();
    let monitor = add_test_monitor(&mut state, &config);
    let ws = workspace(&state, monitor, "1");
    let w = window(&mut state, "A", Rect::from_xy(0, 0, 100, 100), floating());
    attach_container(w, ws, None, &mut state).unwrap();
    assert_eq!(handle_window_moved_or_resized_end(w, input(Some(monitor)), &mut state, &config), Ok(()));
    assert!(state.pending_sync.containers_to_redraw.is_empty());
}

#[test]
fn move_end_of_tiling_window_redraws_it() {
    let config = test_config();
    let mut state = WmState::new();
    let monitor = add_test_monitor(&mut state, &config);
    let ws = workspace(&state, monitor, "1");
    let w = window(&mut state, "A", Rect::from_xy(0, 0, 100, 100), WindowState::Tiling);
    attach_container(w, ws, None, &mut state).unwrap();
    state.set_active_drag(w, Some(ActiveDrag { is_from_floating: false }));
    assert_eq!(handle_window_moved_or_resized_end(w, input(Some(monitor)), &mut state, &config), Ok(()));
    assert!(state.data[w].window.active_drag.is_none());
    assert_eq!(state.pending_sync.containers_to_redraw, vec![w]);
}

#[test]
fn move_end_errors() {
    let config = test_config();
    let mut state = WmState::new();
    let monitor = add_test_monitor(&mut state, &config);
    let ws = workspace(&state, monitor, "1");
    let w = window(&mut state, "A", Rect::from_xy(0, 0, 100, 100), floating());
    attach_container(w, ws, None, &mut state).unwrap();
    state.set_active_drag(w, Some(ActiveDrag { is_from_floating: true }));
    assert_eq!(
        handle_window_moved_or_resized_end(w, input(None), &mut state, &config),
        Err(WmError::NoNearestMonitor)
    );
    let bare = add_monitor(
        NativeMonitorProperties::new("bare".to_string(), None, None, Rect::from_xy(0, 0, 10, 10)),
        &mut state,
    )
    .unwrap();
    assert_eq!(
        handle_window_moved_or_resized_end(w, input(Some(bare)), &mut state, &config),
        Err(WmError::NoDisplayedWorkspace)
    );
}

#[test]
fn move_end_maximized_window_becomes_fullscreen() {
    let config = test_config();
    let mut state = WmState::new();
    let monitor = add_test_monitor(&mut state, &config);
    let ws = workspace(&state, monitor, "1");
    let w = window(&mut state, "A", Rect::from_xy(0, 0, 100, 100), floating());
    attach_container(w, ws, None, &mut state).unwrap();
    state.pending_sync.queue_container_to_redraw(w);
    state.set_active_drag(w, Some(ActiveDrag { is_from_floating: true }));
    let mut maximized = input(Some(monitor));
    maximized.is_maximized = true;

    assert_eq!(handle_window_moved_or_resized_end(w, maximized, &mut state, &config), Ok(()));
    assert_eq!(
        state.data[w].window.state,
        WindowState::Fullscreen(FullscreenStateConfig { maximized: true, shown_on_top: true })
    );
    assert!(state.data[w].window.native.is_maximized);
    assert!(state.data[w].window.active_drag.is_none());
    assert!(state.pending_sync.containers_to_redraw.is_empty());
}

#[test]
fn move_end_floating_window_keeps_its_new_place() {
    let config = test_config();
    let mut state = WmState::new();
    let monitor = add_test_monitor(&mut state, &config);
    let ws = workspace(&state, monitor, "1");
    let frame = Rect::from_xy(40, 50, 300, 200);
    let w = window(&mut state, "A", frame, floating());
    attach_container(w, ws, None, &mut state).unwrap();
    state.set_active_drag(w, Some(ActiveDrag { is_from_floating: true }));

    assert_eq!(handle_window_moved_or_resized_end(w, input(Some(monitor)), &mut state, &config), Ok(()));
    assert_eq!(state.data[w].window.floating_placement, frame);
    assert!(state.data[w].window.has_custom_floating_placement);
    assert!(state.data[w].window.active_drag.is_none());
    assert_eq!(state.links[w].parent, Some(ws));
}

#[test]
fn move_end_of_temporary_floating_window_drops_it_back() {
    let config = test_config();
    let mut state = WmState::new();
    let monitor = add_test_monitor(&mut state, &config);
    let ws = workspace(&state, monitor, "1");
    let target_rect = Rect::from_xy(0, 0, 1000, 1000);
    let target = window(&mut state, "A", target_rect, WindowState::Tiling);
    let w = window(&mut state, "B", Rect::from_xy(10, 10, 100, 100), floating());
    attach_container(target, ws, None, &mut state).unwrap();
    attach_container(w, ws, None, &mut state).unwrap();
    state.set_active_drag(w, Some(ActiveDrag { is_from_floating: false }));
    let mut at_center = input(Some(monitor));
    at_center.cursor = center(target_rect);

    assert_eq!(handle_window_moved_or_resized_end(w, at_center, &mut state, &config), Ok(()));
    let stack = state.links[w].parent.expect("stack");
    assert_eq!(state.data[stack].kind, ContainerKind::Stack);
    assert_eq!(state.selected_child(stack), Some(w));
    assert!(state.data[w].window.active_drag.is_none());
}

#[test]
fn destroyed_window_leaves_its_stack() {
    let config = test_config();
    let mut state = WmState::new();
    let monitor = add_test_monitor(&mut state, &config);
    let ws = workspace(&state, monitor, "1");
    let a = window(&mut state, "A", Rect::from_xy(0, 0, 10, 10), WindowState::Tiling);
    let b = window(&mut state, "B", Rect::from_xy(0, 0, 10, 10), WindowState::Tiling);
    state.data[b].window.native.id = 42;
    let stack = state.add_container(ContainerData::stack());
    attach_container(stack, ws, None, &mut state).unwrap();
    attach_container(a, stack, None, &mut state).unwrap();
    attach_container(b, stack, None, &mut state).unwrap();

    assert_eq!(handle_window_destroyed(7, &mut state, &config), Ok(()));
    assert_eq!(state.links[b].parent, Some(stack));

    assert_eq!(handle_window_destroyed(42, &mut state, &config), Ok(()));
    assert!(state.links[b].parent.is_none());
    assert!(state.links[stack].parent.is_none());
    assert_eq!(state.links[a].parent, Some(ws));
}

#[test]
fn add_monitor_attaches_it_last() {
    let config = test_config();
    let mut state = WmState::new();
    let first = add_test_monitor(&mut state, &config);
    let props = NativeMonitorProperties::new("second".to_string(), None, None, Rect::from_xy(2000, 0, 100, 100));
    let second = add_monitor(props, &mut state).unwrap();
    assert_eq!(state.monitors(), vec![first, second]);
    assert_eq!(state.data[second].monitor.device_name, "second");
    assert_eq!(state.child_count(second), 0);
}

#[test]
fn move_end_of_tiling_window_takes_its_frame_width() {
    let config = test_config();
    let mut state = WmState::new();
    let monitor = add_test_monitor(&mut state, &config);
    let ws = workspace(&state, monitor, "1");
    state.set_rect(ws, Rect::from_xy(0, 0, 2000, 1000));
    let a = window(&mut state, "A", Rect::from_xy(0, 0, 500, 1000), WindowState::Tiling);
    let b = window(&mut state, "B", Rect::from_xy(1000, 0, 1000, 1000), WindowState::Tiling);
    attach_container(a, ws, None, &mut state).unwrap();
    attach_container(b, ws, None, &mut state).unwrap();
    state.set_tiling_size(a, 500_000);
    state.set_tiling_size(b, 500_000);
    state.set_active_drag(a, Some(ActiveDrag { is_from_floating: false }));

    assert_eq!(handle_window_moved_or_resized_end(a, input(Some(monitor)), &mut state, &config), Ok(()));
    // 500 of 2000 pixels is a quarter; the sibling takes the rest. The
    // workspace lays out horizontally, so the height changes nothing.
    assert_eq!(state.data[a].tiling_size, 250_000);
    assert_eq!(state.data[b].tiling_size, 750_000);
    assert!(state.data[a].window.active_drag.is_none());
    assert_eq!(state.pending_sync.containers_to_redraw, vec![a]);
}

#[test]
fn resize_is_clamped_and_shared_among_siblings() {
    let config = test_config();
    let mut state = WmState::new();
    let monitor = add_test_monitor(&mut state, &config);
    let ws = workspace(&state, monitor, "1");
    state.set_rect(ws, Rect::from_xy(0, 0, 2000, 1000));
    let a = window(&mut state, "A", Rect::from_xy(0, 0, 100, 100), WindowState::Tiling);
    let b = window(&mut state, "B", Rect::from_xy(0, 0, 100, 100), WindowState::Tiling);
    let c = window(&mut state, "C", Rect::from_xy(0, 0, 100, 100), WindowState::Tiling);
    for w in [a, b, c] {
        attach_container(w, ws, None, &mut state).unwrap();
    }
    state.set_tiling_size(a, 400_000);
    state.set_tiling_size(b, 300_000);
    state.set_tiling_size(c, 300_000);

    // Wider than the parent: capped so that each sibling keeps 1%.
    state.resize_along(a, TilingDirection::Horizontal, 5000);
    assert_eq!(state.data[a].tiling_size, 980_000);
    assert_eq!(state.data[b].tiling_size, 10_000);
    assert_eq!(state.data[c].tiling_size, 10_000);

    // A resize along the other direction finds no container to resize.
    state.resize_along(a, TilingDirection::Vertical, 10);
    assert_eq!(state.data[a].tiling_size, 980_000);

    // Narrower than the minimum: held at 1%, siblings share what is freed.
    state.resize_along(a, TilingDirection::Horizontal, 0);
    assert_eq!(state.data[a].tiling_size, 10_000);
    assert_eq!(state.data[b].tiling_size, 495_000);
    assert_eq!(state.data[c].tiling_size, 495_000);
}

#[test]
fn resize_without_a_laid_out_parent_changes_nothing() {
    let config = test_config();
    let mut state = WmState::new();
    let monitor = add_test_monitor(&mut state, &config);
    let ws = workspace(&state, monitor, "1");
    state.set_rect(ws, Rect::from_xy(0, 0, 0, 0));
    let a = window(&mut state, "A", Rect::from_xy(0, 0, 100, 100), WindowState::Tiling);
    let b = window(&mut state, "B", Rect::from_xy(0, 0, 100, 100), WindowState::Tiling);
    attach_container(a, ws, None, &mut state).unwrap();
    attach_container(b, ws, None, &mut state).unwrap();
    state.set_tiling_size(a, 500_000);
    state.set_tiling_size(b, 500_000);
    state.resize_along(a, TilingDirection::Horizontal, 100);
    assert_eq!(state.data[a].tiling_size, 500_000);
    assert_eq!(state.data[b].tiling_size, 500_000);
}
