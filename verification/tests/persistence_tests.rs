use std::collections::HashSet;

use novawm::config::{PersistenceConfig, UserConfig, WorkspaceConfig};
use novawm::container::attach_container;
use novawm::events::add_monitor;
use novawm::model::{
    ContainerData, FloatingStateConfig, FullscreenStateConfig, NativeMonitorProperties,
    NativeWindowProperties, Rect, WindowState,
};
use novawm::persistence::{accept_session, capture_session, safe_window_state, WindowRestore};
use novawm::session::{
    best_match_index, match_score, monitor_by_identity, PersistedMonitorIdentity, PersistedSession,
    PersistedWindow, PersistedWindowAssignment, PersistedWindowIdentity, SESSION_VERSION,
};
use novawm::state::WmState;
use novawm::text::{eq_ignore_ascii_case, join_title_words, normalize_title};
use novawm::workspace::ensure_workspaces_for_monitor;

fn persisted_window(
    process_path: Option<&str>,
    window_class: Option<&str>,
    process_name: &str,
    title: Option<&str>,
) -> PersistedWindow {
    PersistedWindow {
        identity: PersistedWindowIdentity {
            process_path: process_path.map(str::to_string),
            window_class: window_class.map(str::to_string),
            process_name: process_name.to_string(),
            normalized_title: title.map(str::to_string),
        },
        assignment: PersistedWindowAssignment {
            monitor: PersistedMonitorIdentity {
                device_name: "monitor".to_string(),
                device_path: Some("device-path".to_string()),
                hardware_id: Some("hardware-id".to_string()),
            },
            workspace_name: "1".to_string(),
        },
        window_state: WindowState::Floating(FloatingStateConfig { centered: false, shown_on_top: false }),
        floating_placement: Rect::from_xy(1, 2, 3, 4),
        has_custom_floating_placement: true,
    }
}

fn native_window(process_path: Option<&str>, process_name: &str, title: &str) -> NativeWindowProperties {
    let mut native = NativeWindowProperties::empty();
    native.process_path = process_path.map(str::to_string);
    native.process_name = process_name.to_string();
    native.title = title.to_string();
    native.class_name = Some(String::new());
    native
}

fn test_config() -> UserConfig {
    UserConfig {
        workspaces: ["1", "2", "3", "4"]
            .iter()
            .map(|name| WorkspaceConfig {
                name: name.to_string(),
                display_name: None,
                bind_to_monitor: None,
                keep_alive: false,
            })
            .collect(),
        persistence: PersistenceConfig {
            enabled: true,
            restore_on_startup: true,
            restore_on_monitor_reconnect: true,
        },
        fullscreen_defaults: FullscreenStateConfig { maximized: false, shown_on_top: false },
    }
}

fn add_test_monitor(state: &mut WmState, config: &UserConfig, device_name: &str, device_path: &str) -> usize {
    let props = NativeMonitorProperties::new(
        device_name.to_string(),
        Some(device_path.to_string()),
        Some(format!("{device_name}-hardware")),
        Rect::from_xy(0, 0, 1920, 1080),
    );
    let m = add_monitor(props, state).unwrap();
    ensure_workspaces_for_monitor(m, state, config).unwrap();
    m
}

fn persisted_session(
    monitor_name: &str,
    monitor_path: &str,
    workspace_name: &str,
    process_path: &str,
    process_name: &str,
    title: Option<&str>,
) -> PersistedSession {
    PersistedSession {
        version: SESSION_VERSION,
        windows: vec![PersistedWindow {
            identity: PersistedWindowIdentity {
                process_path: Some(process_path.to_string()),
                window_class: Some(String::new()),
                process_name: process_name.to_string(),
                normalized_title: title.map(str::to_string),
            },
            assignment: PersistedWindowAssignment {
                monitor: PersistedMonitorIdentity {
                    device_name: monitor_name.to_string(),
                    device_path: Some(monitor_path.to_string()),
                    hardware_id: Some(format!("{monitor_name}-hardware")),
                },
                workspace_name: workspace_name.to_string(),
            },
            window_state: WindowState::Tiling,
            floating_placement: Rect::from_xy(10, 20, 800, 600),
            has_custom_floating_placement: true,
        }],
    }
}

fn add_window(state: &mut WmState, title: &str, process_name: &str, process_path: &str) -> usize {
    let native = native_window(Some(process_path), process_name, title);
    state.add_container(ContainerData::window(native, WindowState::Tiling))
}

#[test]
fn title_is_only_a_weak_disambiguator() {
    let native = native_window(Some("C:\\Apps\\Chrome\\chrome.exe"), "chrome", "New tab");
    let strong = persisted_window(Some("C:\\Apps\\Chrome\\chrome.exe"), Some(""), "chrome", Some("old title"));
    assert!(match_score(&native, &strong.identity).is_some_and(|s| s >= 60));
}

#[test]
fn ambiguous_persistence_matches_are_skipped() {
    let native = native_window(None, "chrome", "changed title");
    let entries = vec![
        persisted_window(None, Some(""), "chrome", Some("first")),
        persisted_window(None, Some(""), "chrome", Some("second")),
    ];
    assert_eq!(best_match_index(&native, &entries, &HashSet::new()), None);
}

#[test]
fn persistence_restores_window_to_same_monitor_and_workspace() {
    let config = test_config();
    let mut state = WmState::new();
    let _monitor_0 = add_test_monitor(&mut state, &config, "monitor-0", "path-0");
    let monitor_1 = add_test_monitor(&mut state, &config, "monitor-1", "path-1");
    state.persistence.session = Some(persisted_session(
        "monitor-1",
        "path-1",
        "3",
        "C:\\Apps\\Code\\Code.exe",
        "Code",
        Some("old title"),
    ));
    let native = native_window(Some("C:\\Apps\\Code\\Code.exe"), "Code", "new title");

    let restore: WindowRestore = state.persistence_restore_for_window(&native, &config).expect("window should restore");

    assert_eq!(state.data[restore.workspace].workspace_name, "3");
    assert_eq!(state.monitor_of(restore.workspace).expect("workspace monitor"), monitor_1);
    assert_eq!(restore.state, Some(WindowState::Tiling));
    assert_eq!(restore.floating_placement, Some(Rect::from_xy(10, 20, 800, 600)));
    assert!(restore.has_custom_floating_placement);
    assert_eq!(state.persistence.used_entries, HashSet::from([0]));
    // The entry is used up: the same window does not restore twice.
    assert!(state.persistence_restore_for_window(&native, &config).is_none());
}

#[test]
fn persistence_ignores_stale_window_entries() {
    let config = test_config();
    let mut state = WmState::new();
    add_test_monitor(&mut state, &config, "monitor-0", "path-0");
    state.persistence.session =
        Some(persisted_session("monitor-0", "path-0", "2", "C:\\Apps\\Code\\Code.exe", "Code", None));
    let native = native_window(Some("C:\\Apps\\Chrome\\chrome.exe"), "chrome", "Browser");
    assert!(state.persistence_restore_for_window(&native, &config).is_none());
}

#[test]
fn persistence_falls_back_when_monitor_missing() {
    let config = test_config();
    let mut state = WmState::new();
    add_test_monitor(&mut state, &config, "monitor-0", "path-0");
    state.persistence.session =
        Some(persisted_session("monitor-1", "path-1", "3", "C:\\Apps\\Code\\Code.exe", "Code", None));
    let native = native_window(Some("C:\\Apps\\Code\\Code.exe"), "Code", "new title");
    assert!(state.persistence_restore_for_window(&native, &config).is_none());
}

#[test]
fn configured_workspace_instances_restore_independently_on_two_monitors() {
    let config = test_config();
    let mut state = WmState::new();
    let monitor_0 = add_test_monitor(&mut state, &config, "monitor-0", "path-0");
    let monitor_1 = add_test_monitor(&mut state, &config, "monitor-1", "path-1");
    let monitor_0_workspace_1 = state.workspace_by_name_in_monitor(monitor_0, "1").expect("monitor 0 workspace 1");
    let monitor_1_workspace_1 = state.workspace_by_name_in_monitor(monitor_1, "1").expect("monitor 1 workspace 1");
    let vscode = add_window(&mut state, "VS Code", "Code", "C:\\Apps\\Code\\Code.exe");
    let chrome = add_window(&mut state, "Chrome", "chrome", "C:\\Apps\\Chrome\\chrome.exe");
    attach_container(vscode, monitor_0_workspace_1, None, &mut state).unwrap();
    attach_container(chrome, monitor_1_workspace_1, None, &mut state).unwrap();
    state.set_focused_descendant(vscode);
    state.persistence.session = Some(PersistedSession {
        version: SESSION_VERSION,
        windows: vec![
            persisted_session("monitor-0", "path-0", "2", "C:\\Apps\\Code\\Code.exe", "Code", None).windows.remove(0),
            persisted_session("monitor-1", "path-1", "3", "C:\\Apps\\Chrome\\chrome.exe", "chrome", None)
                .windows
                .remove(0),
        ],
    });

    state.restore_persisted_windows_on_monitor_reconnect(&config).unwrap();

    let vscode_workspace = state.workspace_of(vscode).expect("VS Code workspace");
    let chrome_workspace = state.workspace_of(chrome).expect("Chrome workspace");
    assert_eq!(state.data[vscode_workspace].workspace_name, "2");
    assert_eq!(state.monitor_of(vscode_workspace).expect("VS Code monitor"), monitor_0);
    assert_eq!(state.data[chrome_workspace].workspace_name, "3");
    assert_eq!(state.monitor_of(chrome_workspace).expect("Chrome monitor"), monitor_1);
}

#[test]
fn score_adds_path_class_name_and_title() {
    let mut native = native_window(Some("C:\\APPS\\code.EXE"), "CODE", "  My   Project  ");
    native.class_name = Some("Chrome_WidgetWin_1".to_string());
    let saved = PersistedWindowIdentity {
        process_path: Some("c:\\apps\\Code.exe".to_string()),
        window_class: Some("chrome_widgetwin_1".to_string()),
        process_name: "Code".to_string(),
        normalized_title: Some("my project".to_string()),
    };
    assert_eq!(match_score(&native, &saved), Some(165));

    native.class_name = None;
    assert_eq!(match_score(&native, &saved), Some(125));

    native.class_name = Some("Other".to_string());
    assert_eq!(match_score(&native, &saved), None);

    native.class_name = None;
    native.process_path = None;
    assert_eq!(match_score(&native, &saved), None);
}

#[test]
fn name_and_title_alone_do_not_restore() {
    let native = native_window(None, "chrome", "first");
    let entries = vec![persisted_window(None, None, "chrome", Some("first"))];
    assert_eq!(match_score(&native, &entries[0].identity), Some(25));
    assert_eq!(best_match_index(&native, &entries, &HashSet::new()), None);
}

#[test]
fn best_match_prefers_the_higher_score_and_skips_used_entries() {
    let native = native_window(Some("C:\\a.exe"), "a", "Title");
    let entries = vec![
        persisted_window(Some("C:\\a.exe"), None, "a", Some("other")),
        persisted_window(Some("C:\\a.exe"), None, "a", Some("title")),
        persisted_window(Some("C:\\b.exe"), None, "a", Some("title")),
    ];
    assert_eq!(best_match_index(&native, &entries, &HashSet::new()), Some(1));
    assert_eq!(best_match_index(&native, &entries, &HashSet::from([1])), Some(0));
    assert_eq!(best_match_index(&native, &entries, &HashSet::from([0, 1])), None);
}

#[test]
fn monitors_are_found_by_path_then_unique_hardware_id_then_unique_name() {
    let config = test_config();
    let mut state = WmState::new();
    let m0 = add_test_monitor(&mut state, &config, "monitor-0", "path-0");
    let m1 = add_test_monitor(&mut state, &config, "monitor-1", "path-1");
    let ms = state.monitors();

    let by_path = PersistedMonitorIdentity {
        device_name: "monitor-0".to_string(),
        device_path: Some("path-1".to_string()),
        hardware_id: None,
    };
    assert_eq!(monitor_by_identity(&state, &ms, &by_path), Some(m1));

    let by_hardware = PersistedMonitorIdentity {
        device_name: "monitor-1".to_string(),
        device_path: Some("gone".to_string()),
        hardware_id: Some("monitor-0-hardware".to_string()),
    };
    assert_eq!(monitor_by_identity(&state, &ms, &by_hardware), Some(m0));

    let by_name = PersistedMonitorIdentity {
        device_name: "monitor-1".to_string(),
        device_path: None,
        hardware_id: Some("gone".to_string()),
    };
    assert_eq!(monitor_by_identity(&state, &ms, &by_name), Some(m1));

    let unknown = PersistedMonitorIdentity { device_name: "other".to_string(), device_path: None, hardware_id: None };
    assert_eq!(monitor_by_identity(&state, &ms, &unknown), None);
}

#[test]
fn ambiguous_monitor_names_match_nothing() {
    let config = test_config();
    let mut state = WmState::new();
    add_test_monitor(&mut state, &config, "same", "path-0");
    add_test_monitor(&mut state, &config, "same", "path-1");
    let ms = state.monitors();
    let id = PersistedMonitorIdentity { device_name: "same".to_string(), device_path: None, hardware_id: None };
    assert_eq!(monitor_by_identity(&state, &ms, &id), None);
    // Both monitors have the hardware id "same-hardware" too.
    let id = PersistedMonitorIdentity {
        device_name: "same".to_string(),
        device_path: None,
        hardware_id: Some("same-hardware".to_string()),
    };
    assert_eq!(monitor_by_identity(&state, &ms, &id), None);
}

#[test]
fn titles_are_normalized() {
    assert_eq!(normalize_title("  Hello \t  WORLD\n"), Some("hello world".to_string()));
    assert_eq!(normalize_title(" \u{3000} \t"), None);
    assert_eq!(normalize_title(""), None);
    assert_eq!(join_title_words("a\u{2003}b  c "), "a b c");
    assert_eq!(normalize_title("ÀB"), Some("àb".to_string()));
}

#[test]
fn ascii_case_is_ignored_but_nothing_else() {
    assert!(eq_ignore_ascii_case("Chrome.EXE", "chrome.exe"));
    assert!(!eq_ignore_ascii_case("Ä", "ä"));
    assert!(!eq_ignore_ascii_case("abc", "abcd"));
    assert!(eq_ignore_ascii_case("", ""));
}

#[test]
fn minimized_windows_are_not_restored_minimized() {
    assert_eq!(safe_window_state(&WindowState::Minimized), None);
    assert_eq!(safe_window_state(&WindowState::Tiling), Some(WindowState::Tiling));
    let fs = WindowState::Fullscreen(FullscreenStateConfig { maximized: true, shown_on_top: false });
    assert_eq!(safe_window_state(&fs), Some(fs));
}

#[test]
fn sessions_of_another_version_are_ignored() {
    let mut session = persisted_session("m", "p", "1", "x", "x", None);
    assert!(accept_session(PersistedSession { version: SESSION_VERSION, windows: Vec::new() }).is_some());
    session.version = 2;
    assert!(accept_session(session).is_none());
}

#[test]
fn capture_records_placed_windows() {
    let config = test_config();
    let mut state = WmState::new();
    let m = add_test_monitor(&mut state, &config, "monitor-0", "path-0");
    let ws = state.workspace_by_name_in_monitor(m, "2").unwrap();
    let w = add_window(&mut state, "  Some   Title ", "Code", "C:\\Code.exe");
    attach_container(w, ws, None, &mut state).unwrap();
    let _loose = add_window(&mut state, "Loose", "x", "C:\\x.exe");

    let session = capture_session(&state);
    assert_eq!(session.version, SESSION_VERSION);
    assert_eq!(session.windows.len(), 1);
    let e = &session.windows[0];
    assert_eq!(e.identity.process_path.as_deref(), Some("C:\\Code.exe"));
    assert_eq!(e.identity.process_name, "Code");
    assert_eq!(e.identity.normalized_title.as_deref(), Some("some title"));
    assert_eq!(e.identity.window_class.as_deref(), Some(""));
    assert_eq!(e.assignment.workspace_name, "2");
    assert_eq!(e.assignment.monitor.device_name, "monitor-0");
    assert_eq!(e.assignment.monitor.device_path.as_deref(), Some("path-0"));
    assert_eq!(e.assignment.monitor.hardware_id.as_deref(), Some("monitor-0-hardware"));
    assert_eq!(e.window_state, WindowState::Tiling);
}

#[test]
fn monitor_identity_copies_the_properties() {
    let props = NativeMonitorProperties::new("DISPLAY1".to_string(), Some("p".to_string()), None, Rect::from_xy(0, 0, 1, 1));
    let id = PersistedMonitorIdentity::from(&props);
    assert_eq!(id.device_name, "DISPLAY1");
    assert_eq!(id.device_path.as_deref(), Some("p"));
    assert!(id.hardware_id.is_none());
}

#[test]
fn load_and_save_follow_the_config() {
    let mut config = test_config();
    let mut state = WmState::new();
    state.persistence.used_entries.insert(3);
    state.load_persistence(&config, Err("unreadable".to_string()));
    assert_eq!(state.persistence.used_entries, HashSet::from([3]));
    state.load_persistence(&config, Ok(Some(persisted_session("m", "p", "1", "x", "x", None))));
    assert!(state.persistence.session.is_some());
    assert!(state.persistence.used_entries.is_empty());
    assert!(state.save_persistence_sync(&config).is_some());

    config.persistence.enabled = false;
    assert!(state.save_persistence_sync(&config).is_none());
    state.load_persistence(&config, Ok(None));
    assert!(state.persistence.session.is_none());
}

#[test]
fn restore_activates_a_configured_workspace() {
    let config = test_config();
    let mut state = WmState::new();
    let m = add_test_monitor(&mut state, &config, "monitor-0", "path-0");
    // Deactivate nothing: all four configured workspaces exist already, so
    // restoring to an unconfigured name fails and to a configured one finds it.
    assert_eq!(state.workspace_for_restore(m, "9", &config), None);
    let three = state.workspace_by_name_in_monitor(m, "3");
    assert_eq!(state.workspace_for_restore(m, "3", &config), three);

    let mut small = test_config();
    small.workspaces.truncate(1);
    let mut state = WmState::new();
    let m = add_test_monitor(&mut state, &small, "monitor-0", "path-0");
    assert!(state.workspace_by_name_in_monitor(m, "1").is_some());
    let mut wider = small;
    wider.workspaces.push(WorkspaceConfig {
        name: "7".to_string(),
        display_name: None,
        bind_to_monitor: None,
        keep_alive: false,
    });
    let n = state.links.len();
    assert_eq!(state.workspace_for_restore(m, "7", &wider), Some(n));
    assert_eq!(state.workspace_by_name_in_monitor(m, "7"), Some(n));
}

#[test]
fn captured_session_restores_the_window_after_a_restart() {
    let config = test_config();
    let mut before = WmState::new();
    let _m0 = add_test_monitor(&mut before, &config, "monitor-0", "path-0");
    let m1 = add_test_monitor(&mut before, &config, "monitor-1", "path-1");
    let ws = before.workspace_by_name_in_monitor(m1, "4").unwrap();
    let w = add_window(&mut before, "Notes - Editor", "Editor", "C:\\Editor.exe");
    attach_container(w, ws, None, &mut before).unwrap();
    let session = capture_session(&before);

    let mut after = WmState::new();
    let _n0 = add_test_monitor(&mut after, &config, "monitor-0", "path-0");
    let n1 = add_test_monitor(&mut after, &config, "monitor-1", "path-1");
    after.load_persistence(&config, Ok(Some(session)));
    let native = native_window(Some("C:\\Editor.exe"), "Editor", "Notes - Editor");
    let restore = after.persistence_restore_for_window(&native, &config).expect("restores");
    assert_eq!(after.data[restore.workspace].workspace_name, "4");
    assert_eq!(after.links[restore.workspace].parent, Some(n1));
    assert_eq!(match_score(&native, &after.persistence.session.as_ref().unwrap().windows[0].identity), Some(165));
}

#[test]
fn reconnect_uses_each_entry_once_and_skips_hiding_windows() {
    let config = test_config();
    let mut state = WmState::new();
    let m0 = add_test_monitor(&mut state, &config, "monitor-0", "path-0");
    let ws1 = state.workspace_by_name_in_monitor(m0, "1").unwrap();
    let first = add_window(&mut state, "Code", "Code", "C:\\Code.exe");
    let second = add_window(&mut state, "Code", "Code", "C:\\Code.exe");
    let hiding = add_window(&mut state, "Chrome", "chrome", "C:\\chrome.exe");
    state.data[hiding].window.display_state = novawm::model::DisplayState::Hiding;
    attach_container(first, ws1, None, &mut state).unwrap();
    attach_container(second, ws1, None, &mut state).unwrap();
    attach_container(hiding, ws1, None, &mut state).unwrap();
    state.set_focused_descendant(first);
    state.persistence.session = Some(PersistedSession {
        version: SESSION_VERSION,
        windows: vec![
            persisted_session("monitor-0", "path-0", "2", "C:\\Code.exe", "Code", None).windows.remove(0),
            persisted_session("monitor-0", "path-0", "3", "C:\\chrome.exe", "chrome", None).windows.remove(0),
        ],
    });

    state.restore_persisted_windows_on_monitor_reconnect(&config).unwrap();

    let ws2 = state.workspace_by_name_in_monitor(m0, "2").unwrap();
    assert_eq!(state.links[first].parent, Some(ws2));
    assert_eq!(state.data[first].window.floating_placement, Rect::from_xy(10, 20, 800, 600));
    assert_eq!(state.links[second].parent, Some(ws1));
    assert_eq!(state.links[hiding].parent, Some(ws1));
    assert!(state.pending_sync.containers_to_redraw.contains(&first));
    assert!(state.pending_sync.workspaces_to_reorder.contains(&ws2));
    // Reconnect restoring leaves the startup bookkeeping alone.
    assert!(state.persistence.used_entries.is_empty());
}

#[test]
fn reconnect_does_nothing_when_disabled() {
    let mut config = test_config();
    config.persistence.restore_on_monitor_reconnect = false;
    let mut state = WmState::new();
    let m0 = add_test_monitor(&mut state, &config, "monitor-0", "path-0");
    let ws1 = state.workspace_by_name_in_monitor(m0, "1").unwrap();
    let w = add_window(&mut state, "Code", "Code", "C:\\Code.exe");
    attach_container(w, ws1, None, &mut state).unwrap();
    state.persistence.session = Some(persisted_session("monitor-0", "path-0", "2", "C:\\Code.exe", "Code", None));
    state.restore_persisted_windows_on_monitor_reconnect(&config).unwrap();
    assert_eq!(state.links[w].parent, Some(ws1));
}

#[test]
fn each_saved_entry_restores_one_window() {
    let config = test_config();
    let mut state = WmState::new();
    let _m = add_test_monitor(&mut state, &config, "monitor-0", "path-0");
    let mut session = persisted_session("monitor-0", "path-0", "2", "C:\\Code.exe", "Code", None);
    session.windows.push(persisted_session("monitor-0", "path-0", "3", "C:\\Code.exe", "Code", Some("b")).windows.remove(0));
    state.load_persistence(&config, Ok(Some(session)));
    let a = native_window(Some("C:\\Code.exe"), "Code", "a");
    let b = native_window(Some("C:\\Code.exe"), "Code", "b");
    assert!(state.persistence_restore_for_window(&b, &config).is_some());
    assert!(state.persistence_restore_for_window(&a, &config).is_some());
    assert!(state.persistence_restore_for_window(&a, &config).is_none());
    assert_eq!(state.persistence.used_entries, HashSet::from([0, 1]));
}

#[test]
fn joining_words_twice_is_joining_once() {
    let once = join_title_words("  a \t b\u{3000}\u{3000}c  ");
    assert_eq!(once, "a b c");
    assert_eq!(join_title_words(&once), once);
    assert_eq!(join_title_words(" \t "), "");
}
