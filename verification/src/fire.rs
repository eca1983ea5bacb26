//! The fire-once debounce: at most one committed callback per release.
//!
//! Each tracked entity carries a flag saying whether a pending change
//! notification should fire on the next mouse release. The flag is set
//! by value-change notifications (idempotently) and is read and reset by
//! the release edge, so a press with many intermediate changes commits
//! exactly once.

use vstd::prelude::*;

verus! {

/// The debounce state of one tracked entity.
#[derive(Clone, Copy, PartialEq, Eq, Structural, Debug)]
pub enum FireState {
    /// No change notification is pending.
    Idle,
    /// A change notification should fire on the next release.
    PendingFire,
}

/// The per-entity flag: `true` when a change notification is pending.
#[derive(Clone, Copy, PartialEq, Eq, Structural, Debug)]
pub struct WantsFire(pub bool);

impl WantsFire {
    /// The flag read as a debounce state.
    pub open spec fn state(self) -> FireState {
        if self.0 {
            FireState::PendingFire
        } else {
            FireState::Idle
        }
    }
}

/// What a tracked entity carries: the functions bound to its release
/// event in markup, and its debounce flag.
pub struct MouseUpBinding {
    /// Names of the bound functions, in binding order.
    pub funcs: Vec<String>,
    /// The fire-once flag.
    pub wants_fire: WantsFire,
}

/// Whether a release would commit a callback for this entity.
pub open spec fn fires(b: MouseUpBinding) -> bool {
    b.wants_fire.0 && b.funcs.len() > 0
}

/// The entity after one value-change notification: the flag goes up.
pub open spec fn spec_notified(b: MouseUpBinding) -> MouseUpBinding {
    MouseUpBinding { funcs: b.funcs, wants_fire: WantsFire(true) }
}

/// The entity after one release edge: a raised flag is consumed by the
/// first bound function; an entity with no bound function keeps it.
pub open spec fn spec_released(b: MouseUpBinding) -> MouseUpBinding {
    MouseUpBinding {
        funcs: b.funcs,
        wants_fire: WantsFire(b.wants_fire.0 && b.funcs.len() == 0),
    }
}

/// Record a value-change notification: raise the flag. Raising an
/// already-raised flag changes nothing.
pub fn note_value_changed(w: &mut WantsFire)
    ensures
        *final(w) == WantsFire(true),
        final(w).state() == FireState::PendingFire,
{
    if !w.0 {
        w.0 = true;
    }
}

/// Read and reset the flag on a release edge: reports whether it was
/// raised, and leaves it down.
pub fn take_fire(w: &mut WantsFire) -> (fired: bool)
    ensures
        fired == old(w).0,
        *final(w) == WantsFire(false),
        final(w).state() == FireState::Idle,
{
    let fired = w.0;
    w.0 = false;
    fired
}

/// Process a release edge for one tracked entity: report whether its
/// first bound function fires, and consume the flag if so.
pub fn release_entity(b: &mut MouseUpBinding) -> (fire: bool)
    ensures
        fire == fires(*old(b)),
        *final(b) == spec_released(*old(b)),
{
    if b.funcs.len() > 0 && b.wants_fire.0 {
        b.wants_fire.0 = false;
        true
    } else {
        false
    }
}

/// The entity after `n` value-change notifications in a row.
pub open spec fn spec_notified_n(b: MouseUpBinding, n: nat) -> MouseUpBinding
    decreases n,
{
    if n == 0 {
        b
    } else {
        spec_notified(spec_notified_n(b, (n - 1) as nat))
    }
}

/// Any number of value-change notifications followed by one release
/// commits exactly once: after `n >= 1` notifications the release fires,
/// and it leaves the entity unable to fire again.
pub proof fn lemma_fire_once(b: MouseUpBinding, n: nat)
    requires
        b.funcs.len() > 0,
        n >= 1,
    ensures
        fires(spec_notified_n(b, n)),
        !fires(spec_released(spec_notified_n(b, n))),
        spec_notified_n(b, n).funcs == b.funcs,
    decreases n,
{
    if n == 1 {
        assert(spec_notified_n(b, 0) == b);
        assert(spec_notified_n(b, 1) == spec_notified(b));
    } else {
        lemma_fire_once(b, (n - 1) as nat);
        assert(spec_notified_n(b, n) == spec_notified(spec_notified_n(b, (n - 1) as nat)));
    }
}

/// A release with the flag down commits nothing and changes nothing.
pub proof fn lemma_release_idle(b: MouseUpBinding)
    requires
        !b.wants_fire.0,
    ensures
        !fires(b),
        spec_released(b) == b,
{
}

/// After a release fires, the flag is down, so an immediate second
/// release (without an intervening value change) commits nothing.
pub proof fn lemma_no_double_fire(b: MouseUpBinding)
    ensures
        !fires(spec_released(b)),
        spec_released(spec_released(b)) == spec_released(b),
{
}

} // verus!
