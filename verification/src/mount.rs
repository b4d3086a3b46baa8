//! The seam to the platform's file manager: sync states, and what an overlay does about them.
use std::path::PathBuf;
use vstd::prelude::*;

verus! {

/// The sync state of one proxy entry, as shown by an overlay in the file manager.
#[derive(Debug, Clone, Copy, PartialEq, Eq, Structural)]
pub enum ProxyState {
    /// Cloud-only placeholder; no local data. The state of every entry just after cloning.
    Remote,
    /// Present and committed locally, but not yet confirmed on the remote (push pending).
    Local,
    /// Committed and pushed: the local copy is confirmed identical to the remote.
    Synced,
}

/// What a platform does to show a state.
#[derive(Debug, Clone, Copy, PartialEq, Eq, Structural)]
pub enum Overlay {
    /// Mark the entry and the directories above it in-sync.
    MarkInSync,
    /// Free the local bytes and keep the placeholder.
    Dehydrate,
    /// Leave the entry as it is.
    Leave,
}

/// What a platform does to show `state`.
pub open spec fn shown_by(state: ProxyState) -> Overlay {
    match state {
        ProxyState::Synced => Overlay::MarkInSync,
        ProxyState::Remote => Overlay::Dehydrate,
        ProxyState::Local => Overlay::Leave,
    }
}

/// What a platform does to show `state`.
pub fn overlay_for(state: ProxyState) -> (r: Overlay)
    ensures
        r == shown_by(state),
        r == match state {
            ProxyState::Synced => Overlay::MarkInSync,
            ProxyState::Remote => Overlay::Dehydrate,
            ProxyState::Local => Overlay::Leave,
        },
{
    match state {
        ProxyState::Synced => Overlay::MarkInSync,
        ProxyState::Remote => Overlay::Dehydrate,
        ProxyState::Local => Overlay::Leave,
    }
}

/// The cloud-sync facility of one platform.
pub trait CloudSync {
    /// Whether the file at `abs` is a dehydrated (cloud-only) placeholder with no local data.
    fn is_dehydrated(&self, abs: &PathBuf) -> bool;

    /// Mark `abs` and its ancestor directories (up to and including `root`) as in-sync after a
    /// successful commit. Best-effort; the default does nothing.
    fn mark_in_sync(&self, root: &PathBuf, abs: &PathBuf) {
    }

    /// Re-dehydrate `abs`, freeing its local bytes while keeping the placeholder visible. The
    /// default does nothing.
    fn dehydrate(&self, abs: &PathBuf) {
    }

    /// Reflect a [`ProxyState`] transition for `abs` in the file manager's overlay.
    fn mark_state(&self, root: &PathBuf, abs: &PathBuf, state: ProxyState) {
        match overlay_for(state) {
            Overlay::MarkInSync => self.mark_in_sync(root, abs),
            Overlay::Dehydrate => self.dehydrate(abs),
            Overlay::Leave => {},
        }
    }
}

/// A [`CloudSync`] for platforms with no mount integration: every file is treated as locally
/// present and all hooks are no-ops.
#[derive(Debug, Clone, Copy)]
pub struct NullCloudSync;

impl Default for NullCloudSync {
    fn default() -> (r: Self)
        ensures
            r == NullCloudSync,
    {
        NullCloudSync
    }
}

impl CloudSync for NullCloudSync {
    fn is_dehydrated(&self, abs: &PathBuf) -> (r: bool)
        ensures
            !r,
    {
        false
    }
}

/// Data is freed only for an entry that lives on the remote, an entry is marked only when it is
/// synced, and a local change is never touched.
pub proof fn law_local_changes_are_left_alone(state: ProxyState)
    ensures
        shown_by(state) == Overlay::Dehydrate <==> state == ProxyState::Remote,
        shown_by(state) == Overlay::MarkInSync <==> state == ProxyState::Synced,
        shown_by(state) == Overlay::Leave <==> state == ProxyState::Local,
{
}

} // verus!
