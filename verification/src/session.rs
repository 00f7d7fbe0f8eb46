//! Saved sessions: where each window was, and how a window that appears
//! again is matched to its saved entry.

use std::collections::HashSet;

use vstd::prelude::*;

use crate::model::{NativeMonitorProperties, NativeWindowProperties, Rect, WindowState};
use crate::seqs::str_equal;
use crate::state::{TreeView, WmState};
use crate::text::{eq_ignore_ascii_case, normalize_title, normalized_title, same_ignoring_ascii_case};

verus! {

broadcast use vstd::std_specs::hash::group_hash_axioms;

/// Version written into saved sessions; sessions of another version are
/// ignored when loading.
pub const SESSION_VERSION: u32 = 1;

/// How a monitor is recognised again: by its device path, else by a
/// hardware id that only one monitor has, else by a device name that only
/// one monitor has.
pub struct PersistedMonitorIdentity {
    pub device_name: String,
    pub device_path: Option<String>,
    pub hardware_id: Option<String>,
}

/// How a window is recognised again.
pub struct PersistedWindowIdentity {
    pub process_path: Option<String>,
    pub window_class: Option<String>,
    pub process_name: String,
    pub normalized_title: Option<String>,
}

/// Where a window was: the monitor and the name of the workspace.
pub struct PersistedWindowAssignment {
    pub monitor: PersistedMonitorIdentity,
    pub workspace_name: String,
}

pub struct PersistedWindow {
    pub identity: PersistedWindowIdentity,
    pub assignment: PersistedWindowAssignment,
    pub window_state: WindowState,
    pub floating_placement: Rect,
    pub has_custom_floating_placement: bool,
}

pub struct PersistedSession {
    pub version: u32,
    pub windows: Vec<PersistedWindow>,
}

/// The loaded session and the set of indices of its entries that windows
/// have already been restored from.
pub struct PersistenceState {
    pub session: Option<PersistedSession>,
    pub used_entries: HashSet<usize>,
}

impl PersistenceState {
    pub fn new() -> (r: PersistenceState)
        ensures
            r.session is None,
            r.used_entries@ == Set::<usize>::empty(),
    {
        PersistenceState { session: None, used_entries: HashSet::new() }
    }

    /// Forgets the session and the entries used from it.
    pub fn clear(&mut self)
        ensures
            final(self).session is None,
            final(self).used_entries@ == Set::<usize>::empty(),
    {
        self.session = None;
        self.used_entries = HashSet::new();
    }
}

/// Whether a saved process path, if there is one, is the window's
/// (ignoring ASCII case).
pub open spec fn path_agrees(native: NativeWindowProperties, saved: PersistedWindowIdentity) -> bool {
    match saved.process_path {
        None => true,
        Some(p) => native.process_path matches Some(n) && same_ignoring_ascii_case(n@, p@),
    }
}

/// Whether a saved window class is the window's, where the platform
/// reports a class at all (ignoring ASCII case).
pub open spec fn class_agrees(native: NativeWindowProperties, saved: PersistedWindowIdentity) -> bool {
    match (saved.window_class, native.class_name) {
        (Some(s), Some(n)) => same_ignoring_ascii_case(n@, s@),
        _ => true,
    }
}

/// Whether the window's normalized title equals the saved one.
pub open spec fn title_agrees(native: NativeWindowProperties, saved: PersistedWindowIdentity) -> bool {
    &&& normalized_title(native.title@) matches Some(t)
    &&& saved.normalized_title matches Some(s)
    &&& t == s@
}

/// How well a window fits a saved identity, `None` where it cannot be the
/// same window. A saved process path must match and gives 100 points, a
/// saved window class must match where the platform reports one and gives
/// 40, the process name must match and gives 20, and an equal normalized
/// title adds 5.
pub open spec fn match_points(native: NativeWindowProperties, saved: PersistedWindowIdentity) -> Option<
    u32,
> {
    if !path_agrees(native, saved) || !class_agrees(native, saved) || !same_ignoring_ascii_case(
        native.process_name@,
        saved.process_name@,
    ) {
        None
    } else {
        let path: int = if saved.process_path is Some {
            100
        } else {
            0
        };
        let class: int = if saved.window_class is Some && native.class_name is Some {
            40
        } else {
            0
        };
        let title: int = if title_agrees(native, saved) {
            5
        } else {
            0
        };
        Some((path + class + 20 + title) as u32)
    }
}

fn opt_eq_ignore_ascii_case(a: &Option<String>, b: &String) -> (r: bool)
    ensures
        r == (a matches Some(x) && same_ignoring_ascii_case(x@, b@)),
{
    match a {
        Some(x) => eq_ignore_ascii_case(x.as_str(), b.as_str()),
        None => false,
    }
}

/// Scores `native` against the saved identity `saved`; see
/// [`match_points`].
pub fn match_score(native: &NativeWindowProperties, saved: &PersistedWindowIdentity) -> (r: Option<
    u32,
>)
    ensures
        r == match_points(*native, *saved),
{
    let mut score: u32 = 0;
    match &saved.process_path {
        Some(p) => {
            if opt_eq_ignore_ascii_case(&native.process_path, p) {
                score = score + 100;
            } else {
                return None;
            }
        },
        None => {},
    }
    match (&saved.window_class, &native.class_name) {
        (Some(s), Some(n)) => {
            if eq_ignore_ascii_case(n.as_str(), s.as_str()) {
                score = score + 40;
            } else {
                return None;
            }
        },
        _ => {},
    }
    if eq_ignore_ascii_case(native.process_name.as_str(), saved.process_name.as_str()) {
        score = score + 20;
    } else {
        return None;
    }
    let title_match = match (normalize_title(native.title.as_str()), &saved.normalized_title) {
        (Some(t), Some(s)) => str_equal(t.as_str(), s.as_str()),
        _ => false,
    };
    if title_match {
        score = score + 5;
    }
    Some(score)
}

/// Whether entry `i` of `windows` is unused and fits `native` at all.
pub open spec fn candidate(
    native: NativeWindowProperties,
    windows: Seq<PersistedWindow>,
    used: Set<usize>,
    i: int,
) -> bool {
    &&& 0 <= i < windows.len()
    &&& !used.contains(i as usize)
    &&& match_points(native, windows[i].identity) is Some
}

pub open spec fn points_at(native: NativeWindowProperties, windows: Seq<PersistedWindow>, i: int) -> u32 {
    match_points(native, windows[i].identity).unwrap()
}

/// Entry `i` is the unused entry that fits `native` best, with no other
/// entry as good, and it scores at least 60.
pub open spec fn best_match(
    native: NativeWindowProperties,
    windows: Seq<PersistedWindow>,
    used: Set<usize>,
    i: int,
) -> bool {
    &&& candidate(native, windows, used, i)
    &&& points_at(native, windows, i) >= 60
    &&& forall|j: int|
        #![trigger candidate(native, windows, used, j)]
        candidate(native, windows, used, j) && j != i ==> points_at(native, windows, j)
            < points_at(native, windows, i)
}

/// The entry of `windows` to restore `native` from: the unused entry with
/// the highest score, if that score is at least 60 and no other entry
/// reaches it; an ambiguous match gives `None`.
pub fn best_match_index(
    native: &NativeWindowProperties,
    windows: &Vec<PersistedWindow>,
    used_entries: &HashSet<usize>,
) -> (r: Option<usize>)
    ensures
        r matches Some(i) ==> best_match(*native, windows@, used_entries@, i as int),
        r is None ==> forall|i: int| !best_match(*native, windows@, used_entries@, i),
{
    let ghost ws = windows@;
    let ghost used = used_entries@;
    let mut best: Option<(usize, u32)> = None;
    let mut tie = false;
    let mut i: usize = 0;
    while i < windows.len()
        invariant
            ws == windows@,
            used == used_entries@,
            i <= ws.len(),
            match best {
                None => forall|j: int| 0 <= j < i ==> !candidate(*native, ws, used, j),
                Some((b, s)) => {
                    &&& b < i
                    &&& candidate(*native, ws, used, b as int)
                    &&& s == points_at(*native, ws, b as int)
                    &&& forall|j: int|
                        #![trigger candidate(*native, ws, used, j)]
                        0 <= j < i && candidate(*native, ws, used, j) ==> points_at(*native, ws, j) <= s
                    &&& tie == exists|j: int|
                        #![trigger candidate(*native, ws, used, j)]
                        0 <= j < i && j != b && candidate(*native, ws, used, j) && points_at(*native, ws, j) == s
                },
            },
        decreases ws.len() - i,
    {
        if !used_entries.contains(&i) {
            match match_score(native, &windows[i].identity) {
                None => {},
                Some(s) => {
                    assert(candidate(*native, ws, used, i as int));
                    match best {
                        None => {
                            best = Some((i, s));
                            tie = false;
                        },
                        Some((b, bs)) => {
                            if s > bs {
                                best = Some((i, s));
                                tie = false;
                            } else if s == bs {
                                tie = true;
                            }
                        },
                    }
                },
            }
        }
        i = i + 1;
    }
    match best {
        None => None,
        Some((b, s)) => {
            if s < 60 || tie {
                proof {
                    assert forall|k: int| !best_match(*native, ws, used, k) by {
                        if best_match(*native, ws, used, k) {
                            if tie {
                                let j = choose|j: int|
                                    #![trigger candidate(*native, ws, used, j)]
                                    0 <= j < i && j != b && candidate(*native, ws, used, j)
                                        && points_at(*native, ws, j) == s;
                                if k == b {
                                    assert(candidate(*native, ws, used, j));
                                } else {
                                    assert(candidate(*native, ws, used, b as int));
                                    assert(candidate(*native, ws, used, k));
                                }
                            } else {
                                assert(candidate(*native, ws, used, k));
                            }
                        }
                    }
                }
                None
            } else {
                Some(b)
            }
        },
    }
}

/// A window whose process path (and, where reported, class) and process
/// name match a saved identity with a process path is matched strongly
/// enough to be restored, whatever its title.
pub proof fn law_title_is_only_a_tiebreak(native: NativeWindowProperties, saved: PersistedWindowIdentity)
    requires
        saved.process_path is Some,
        path_agrees(native, saved),
        class_agrees(native, saved),
        same_ignoring_ascii_case(native.process_name@, saved.process_name@),
    ensures
        match_points(native, saved) matches Some(p) && p >= 60,
{
}

/// A saved identity without a process path or window class never scores
/// enough to restore a window: a process name and a title are not enough.
pub proof fn law_name_and_title_are_not_enough(native: NativeWindowProperties, saved: PersistedWindowIdentity)
    requires
        saved.process_path is None,
        saved.window_class is None,
    ensures
        match_points(native, saved) matches Some(p) ==> p < 60,
{
}

/// An entry that has been used cannot be the best match again, so each
/// saved entry restores at most one window.
pub proof fn law_used_entry_is_not_matched_again(
    native: NativeWindowProperties,
    windows: Seq<PersistedWindow>,
    used: Set<usize>,
    i: int,
)
    requires
        0 <= i < windows.len(),
    ensures
        !best_match(native, windows, used.insert(i as usize), i),
{
}

/// At most one entry is the best match.
pub proof fn lemma_best_match_unique(
    native: NativeWindowProperties,
    windows: Seq<PersistedWindow>,
    used: Set<usize>,
    i: int,
    j: int,
)
    requires
        best_match(native, windows, used, i),
        best_match(native, windows, used, j),
    ensures
        i == j,
{
    if i != j {
        assert(candidate(native, windows, used, j));
        assert(candidate(native, windows, used, i));
    }
}

/// A property by which a saved monitor identity picks a monitor.
#[derive(Clone, Copy, PartialEq, Eq, Structural)]
pub enum MonitorKey {
    DevicePath,
    HardwareId,
    DeviceName,
}

/// Whether monitor `p` has the identity's value for `key`; a key the
/// identity has no value for matches no monitor.
pub open spec fn key_hit(key: MonitorKey, p: NativeMonitorProperties, id: PersistedMonitorIdentity) -> bool {
    match key {
        MonitorKey::DevicePath => id.device_path matches Some(d) && p.device_path matches Some(x) && x@
            == d@,
        MonitorKey::HardwareId => id.hardware_id matches Some(h) && p.hardware_id matches Some(x) && x@
            == h@,
        MonitorKey::DeviceName => p.device_name@ == id.device_name@,
    }
}

/// `k` is the first monitor that matches on `key`.
pub open spec fn first_hit(
    props: Seq<NativeMonitorProperties>,
    id: PersistedMonitorIdentity,
    key: MonitorKey,
    k: int,
) -> bool {
    &&& 0 <= k < props.len()
    &&& key_hit(key, props[k], id)
    &&& forall|j: int| 0 <= j < k ==> !key_hit(key, #[trigger] props[j], id)
}

/// `k` is the only monitor that matches on `key`.
pub open spec fn sole_hit(
    props: Seq<NativeMonitorProperties>,
    id: PersistedMonitorIdentity,
    key: MonitorKey,
    k: int,
) -> bool {
    &&& 0 <= k < props.len()
    &&& key_hit(key, props[k], id)
    &&& forall|j: int| 0 <= j < props.len() && j != k ==> !key_hit(key, #[trigger] props[j], id)
}

/// The monitor at `k` is the one `id` names: the first with its device
/// path; failing that, the only one with its hardware id; failing that,
/// the only one with its device name.
pub open spec fn identifies(props: Seq<NativeMonitorProperties>, id: PersistedMonitorIdentity, k: int) -> bool {
    if exists|j: int| first_hit(props, id, MonitorKey::DevicePath, j) {
        first_hit(props, id, MonitorKey::DevicePath, k)
    } else if exists|j: int| sole_hit(props, id, MonitorKey::HardwareId, j) {
        sole_hit(props, id, MonitorKey::HardwareId, k)
    } else {
        sole_hit(props, id, MonitorKey::DeviceName, k)
    }
}

/// A saved identity names at most one monitor.
pub proof fn lemma_identifies_unique(
    props: Seq<NativeMonitorProperties>,
    id: PersistedMonitorIdentity,
    a: int,
    b: int,
)
    requires
        identifies(props, id, a),
        identifies(props, id, b),
    ensures
        a == b,
{
    if a != b {
        // Each of the two monitors rules out the other: the one that
        // comes first, or the sole one, is unique.
        assert(props[a] == props[a] && props[b] == props[b]);
    }
}

/// The native properties of the monitors `ms`.
pub open spec fn monitor_props(v: TreeView, ms: Seq<usize>) -> Seq<NativeMonitorProperties> {
    ms.map_values(|m: usize| v.data[m as int].monitor)
}

fn opt_str_eq(a: &Option<String>, b: &String) -> (r: bool)
    ensures
        r == (a matches Some(x) && x@ == b@),
{
    match a {
        Some(x) => str_equal(x.as_str(), b.as_str()),
        None => false,
    }
}

fn key_matches(key: MonitorKey, p: &NativeMonitorProperties, id: &PersistedMonitorIdentity) -> (r: bool)
    ensures
        r == key_hit(key, *p, *id),
{
    match key {
        MonitorKey::DevicePath => match &id.device_path {
            Some(d) => opt_str_eq(&p.device_path, d),
            None => false,
        },
        MonitorKey::HardwareId => match &id.hardware_id {
            Some(h) => opt_str_eq(&p.hardware_id, h),
            None => false,
        },
        MonitorKey::DeviceName => str_equal(p.device_name.as_str(), id.device_name.as_str()),
    }
}

/// The first monitor of `ms` that matches on `key`, and whether a later
/// one matches too.
fn find_hits(state: &WmState, ms: &Vec<usize>, id: &PersistedMonitorIdentity, key: MonitorKey) -> (r: (
    Option<usize>,
    bool,
))
    requires
        forall|k: int| 0 <= k < ms@.len() ==> #[trigger] ms@[k] < state.data@.len(),
    ensures
        ({
            let props = monitor_props(state.tv(), ms@);
            match r.0 {
                None => forall|j: int| 0 <= j < props.len() ==> !key_hit(key, #[trigger] props[j], *id),
                Some(k) => {
                    &&& first_hit(props, *id, key, k as int)
                    &&& r.1 == exists|j: int| k < j < props.len() && key_hit(key, #[trigger] props[j], *id)
                },
            }
        }),
{
    let ghost props = monitor_props(state.tv(), ms@);
    let mut first: Option<usize> = None;
    let mut more = false;
    let mut i: usize = 0;
    while i < ms.len()
        invariant
            props == monitor_props(state.tv(), ms@),
            props.len() == ms@.len(),
            forall|k: int| 0 <= k < ms@.len() ==> #[trigger] ms@[k] < state.data@.len(),
            i <= ms@.len(),
            match first {
                None => !more && forall|j: int| 0 <= j < i ==> !key_hit(key, #[trigger] props[j], *id),
                Some(k) => {
                    &&& k < i
                    &&& first_hit(props, *id, key, k as int)
                    &&& more == exists|j: int| k < j < i && key_hit(key, #[trigger] props[j], *id)
                },
            },
        decreases ms@.len() - i,
    {
        let m = ms[i];
        assert(props[i as int] == state.data@[m as int].monitor);
        let hit = key_matches(key, &state.data[m].monitor, id);
        assert(hit == key_hit(key, props[i as int], *id));
        if hit {
            match first {
                None => {
                    first = Some(i);
                },
                Some(k) => {
                    more = true;
                },
            }
        }
        i = i + 1;
    }
    (first, more)
}

/// The monitor of `ms` that the saved identity names; see [`identifies`].
pub fn monitor_by_identity(state: &WmState, ms: &Vec<usize>, id: &PersistedMonitorIdentity) -> (r:
    Option<usize>)
    requires
        forall|k: int| 0 <= k < ms@.len() ==> #[trigger] ms@[k] < state.data@.len(),
    ensures
        r matches Some(m) ==> exists|k: int|
            identifies(monitor_props(state.tv(), ms@), *id, k) && ms@[k] == m,
        r is None ==> forall|k: int| !identifies(monitor_props(state.tv(), ms@), *id, k),
{
    let ghost props = monitor_props(state.tv(), ms@);
    let (f, _) = find_hits(state, ms, id, MonitorKey::DevicePath);
    if let Some(k) = f {
        assert(identifies(props, *id, k as int));
        return Some(ms[k]);
    }
    assert(!exists|j: int| first_hit(props, *id, MonitorKey::DevicePath, j));
    let (f, more) = find_hits(state, ms, id, MonitorKey::HardwareId);
    match f {
        Some(k) => {
            if !more {
                assert(sole_hit(props, *id, MonitorKey::HardwareId, k as int));
                assert(identifies(props, *id, k as int));
                return Some(ms[k]);
            }
            let ghost j = choose|j: int| k < j < props.len() && key_hit(MonitorKey::HardwareId, props[j], *id);
            assert forall|x: int| !sole_hit(props, *id, MonitorKey::HardwareId, x) by {
                if sole_hit(props, *id, MonitorKey::HardwareId, x) {
                    if x == k {
                        assert(key_hit(MonitorKey::HardwareId, props[j], *id));
                    } else {
                        assert(key_hit(MonitorKey::HardwareId, props[k as int], *id));
                    }
                }
            }
        },
        None => {},
    }
    assert(!exists|j: int| sole_hit(props, *id, MonitorKey::HardwareId, j));
    let (f, more) = find_hits(state, ms, id, MonitorKey::DeviceName);
    match f {
        Some(k) => {
            if !more {
                assert(sole_hit(props, *id, MonitorKey::DeviceName, k as int));
                assert(identifies(props, *id, k as int));
                return Some(ms[k]);
            }
            let ghost j = choose|j: int| k < j < props.len() && key_hit(MonitorKey::DeviceName, props[j], *id);
            assert forall|x: int| !identifies(props, *id, x) by {
                if sole_hit(props, *id, MonitorKey::DeviceName, x) {
                    if x == k {
                        assert(key_hit(MonitorKey::DeviceName, props[j], *id));
                    } else {
                        assert(key_hit(MonitorKey::DeviceName, props[k as int], *id));
                    }
                }
            }
            None
        },
        None => None,
    }
}

} // verus!
