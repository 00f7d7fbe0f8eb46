//! What saving a session and restoring from it promise together.

use vstd::prelude::*;

use crate::model::{NativeMonitorProperties, NativeWindowProperties};
use crate::persistence::{identity_of, opt_view};
use crate::session::{
    first_hit, identifies, key_hit, match_points, title_agrees, MonitorKey, PersistedMonitorIdentity,
    PersistedWindowIdentity,
};
use crate::text::{normalized_title, same_ignoring_ascii_case};

verus! {

/// A saved identity records the window with the properties `native`.
pub open spec fn identity_records(id: PersistedWindowIdentity, native: NativeWindowProperties) -> bool {
    &&& opt_view(id.process_path) == opt_view(native.process_path)
    &&& opt_view(id.window_class) == opt_view(native.class_name)
    &&& id.process_name@ == native.process_name@
    &&& opt_view(id.normalized_title) == normalized_title(native.title@)
}

proof fn lemma_same_ignoring_refl(a: Seq<char>, b: Seq<char>)
    requires
        a == b,
    ensures
        same_ignoring_ascii_case(a, b),
{
}

/// A window matches what was saved for it: with its process path known it
/// scores at least 60, enough to be restored, and its title adds 5 where
/// it has one.
pub proof fn law_saved_window_matches_itself(native: NativeWindowProperties, id: PersistedWindowIdentity)
    requires
        identity_records(id, native),
        native.process_path is Some,
    ensures
        match_points(native, id) matches Some(p) && p >= 60,
        title_agrees(native, id) <==> normalized_title(native.title@) is Some,
{
    lemma_same_ignoring_refl(native.process_path.unwrap()@, id.process_path.unwrap()@);
    lemma_same_ignoring_refl(native.process_name@, id.process_name@);
    if id.window_class is Some && native.class_name is Some {
        lemma_same_ignoring_refl(native.class_name.unwrap()@, id.window_class.unwrap()@);
    }
}

/// The monitor a window was saved on is found again by its device path,
/// as long as no monitor before it has the same path.
pub proof fn law_saved_monitor_is_found(
    props: Seq<NativeMonitorProperties>,
    id: PersistedMonitorIdentity,
    k: int,
)
    requires
        0 <= k < props.len(),
        identity_of(id, props[k]),
        props[k].device_path is Some,
        forall|j: int| 0 <= j < k ==> opt_view(#[trigger] props[j].device_path) != opt_view(props[k].device_path),
    ensures
        identifies(props, id, k),
{
    assert(key_hit(MonitorKey::DevicePath, props[k], id));
    assert forall|j: int| 0 <= j < k implies !key_hit(MonitorKey::DevicePath, #[trigger] props[j], id) by {
        if key_hit(MonitorKey::DevicePath, props[j], id) {
            assert(opt_view(props[j].device_path) == opt_view(props[k].device_path));
        }
    }
    assert(first_hit(props, id, MonitorKey::DevicePath, k));
    if exists|j: int| first_hit(props, id, MonitorKey::DevicePath, j) {
        let j = choose|j: int| first_hit(props, id, MonitorKey::DevicePath, j);
        if j < k {
            assert(!key_hit(MonitorKey::DevicePath, props[j], id));
        } else if j > k {
            assert(!key_hit(MonitorKey::DevicePath, props[k], id));
        }
    }
}

} // verus!
