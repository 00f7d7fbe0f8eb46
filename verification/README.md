# novawm

The core of a tiling window manager with synchronized multi-monitor
workspaces, split/stack tiling and persistent window placement, written in
Verus: each operation carries a contract that the verifier proves.

## Layout

- `src/` — the verified library.
  - `tree.rs`, `state.rs`, `query.rs`: the container tree (an arena of
    links and data), its well-formedness and the queries over it.
  - `container.rs`: attaching, moving, wrapping and collapsing containers,
    stack tabs and `unstack`.
  - `workspace.rs`, `focus_workspace.rs`, `move_workspace.rs`: activating
    workspaces, focusing monitors and workspaces, moving a workspace to
    another monitor; `sort_workspaces.rs`: keeping a monitor's workspaces
    in config order.
  - `drop.rs`, `events.rs`: dropping a dragged window into the tree (edge
    drops split, center drops stack), the end of a drag, destroyed windows
    and new monitors; `resize.rs`: giving a tiling window the size of its
    frame.
  - `text.rs`, `session.rs`, `persistence.rs`: recognising windows and
    monitors again, capturing a session and restoring windows from it.
  - `laws_*.rs`: properties that relate several operations.
- `tests/` — tests of the library.

The screen layout itself is computed outside the library: it records where
each container lies through `WmState::set_rect`, and drops and resizes read
those rectangles.
- `app/` — the command line, the session file on disk and logging.
