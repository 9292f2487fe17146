//! Velocity-bounded admission control for parachain block production.
//!
//! The controller reads a per-slot authorship record maintained by the host
//! (the most recent relay-chain slot this chain authored in, and how many
//! blocks it authored in that slot) and decides, before any work is spent
//! building a block, whether authoring another block is legal: the per-slot
//! budget of `max(velocity, 1) + 1` blocks must not be exhausted, the
//! unincluded segment must be below its capacity bound, and slots may only
//! move forward.

use vstd::prelude::*;

verus! {

/// The most recent relay-chain slot for which this chain authored at least
/// one block, and how many blocks were authored in it.
///
/// The record is owned and updated by the inherent that tracks slots; the
/// admission controller only reads it. On the very first block no record
/// exists yet, which callers represent as `None`.
#[derive(Clone, Copy, PartialEq, Eq, Structural, Debug)]
pub struct SlotAuthorshipRecord {
    /// The relay-chain slot the record refers to.
    pub slot: u64,
    /// How many blocks were authored in that slot.
    pub authored_count: u32,
}

/// The effective velocity: the configured value, raised to a minimum of 1.
pub open spec fn effective_velocity(velocity: u32) -> u32 {
    if velocity >= 1 {
        velocity
    } else {
        1
    }
}

/// The authoring budget for one slot: one block plus the effective velocity.
pub open spec fn velocity_budget(velocity: u32) -> int {
    effective_velocity(velocity) + 1
}

/// The effective capacity bound on the unincluded segment: the configured
/// value, raised to a minimum of 1, so that the bound is never zero.
pub open spec fn capacity_bound(capacity: u32) -> u32 {
    if capacity >= 1 {
        capacity
    } else {
        1
    }
}

/// How many blocks the record says were authored in its slot; zero when no
/// record exists yet (the bootstrapping default).
pub open spec fn authored_count_of(slot_info: Option<SlotAuthorshipRecord>) -> int {
    match slot_info {
        Option::None => 0,
        Option::Some(rec) => rec.authored_count as int,
    }
}

/// The admission predicate: whether a block may be authored at `new_slot`
/// on top of an included ancestor whose unincluded segment has
/// `segment_size` blocks, given the per-slot authorship record.
///
/// With no record the chain is bootstrapping and authoring is always legal.
/// Otherwise authoring is refused when the unincluded segment has reached
/// the capacity bound, regardless of slot; a repeated slot is admitted only
/// while the slot's authoring budget has room; and any other slot is
/// admitted exactly when it moves strictly forward.
pub open spec fn can_build_upon_allowed(
    velocity: u32,
    capacity: u32,
    slot_info: Option<SlotAuthorshipRecord>,
    segment_size: u32,
    new_slot: u64,
) -> bool {
    match slot_info {
        Option::None => true,
        Option::Some(rec) => {
            if segment_size >= capacity_bound(capacity) {
                false
            } else if rec.slot == new_slot {
                (rec.authored_count as int) < velocity_budget(velocity)
            } else {
                rec.slot < new_slot
            }
        },
    }
}

/// A non-zero bound on how many not-yet-included local blocks may exist
/// beyond a given included ancestor. Derived fresh every block from the
/// configured capacity; never zero.
#[derive(Clone, Copy, PartialEq, Eq, Structural, Debug)]
pub struct UnincludedSegmentCapacity {
    cap: u32,
}

impl UnincludedSegmentCapacity {
    /// The bound carried by this value.
    pub closed spec fn value(self) -> u32 {
        self.cap
    }

    /// The bound is never zero.
    pub open spec fn wf(self) -> bool {
        self.value() >= 1
    }

    /// Builds the capacity bound `max(capacity, 1)`.
    pub fn new(capacity: u32) -> (r: UnincludedSegmentCapacity)
        ensures
            r.value() == capacity_bound(capacity),
            r.wf(),
    {
        UnincludedSegmentCapacity { cap: if capacity >= 1 { capacity } else { 1 } }
    }

    /// Returns the bound as a plain integer.
    pub fn get(&self) -> (r: u32)
        ensures
            r == self.value(),
    {
        self.cap
    }
}

/// The weight cost reported by `on_state_proof`: one storage read, for the
/// per-slot authorship record.
pub const STATE_PROOF_STORAGE_READS: u64 = 1;

/// A consensus hook for a fixed block-processing velocity and unincluded
/// segment capacity. The configuration is fixed at construction and never
/// mutated afterwards.
#[derive(Clone, Copy, PartialEq, Eq, Structural, Debug)]
pub struct NimbusVelocityConsensusHook {
    /// Relay-chain slot duration in milliseconds. Informational: the
    /// enforcement path does not consult it. A cross-check deriving the
    /// parachain slot from relay wall-clock time would need it, but no such
    /// check is performed here.
    pub relay_chain_slot_duration_millis: u32,
    /// The configured velocity `V`; the enforced per-slot budget is
    /// `max(V, 1) + 1` blocks.
    pub velocity: u32,
    /// The configured unincluded-segment capacity `C`; the enforced bound
    /// is `max(C, 1)`.
    pub capacity: u32,
}

impl NimbusVelocityConsensusHook {
    /// Builds a hook with the given fixed configuration.
    pub fn new(relay_chain_slot_duration_millis: u32, velocity: u32, capacity: u32) -> (r:
        NimbusVelocityConsensusHook)
        ensures
            r.relay_chain_slot_duration_millis == relay_chain_slot_duration_millis,
            r.velocity == velocity,
            r.capacity == capacity,
    {
        NimbusVelocityConsensusHook { relay_chain_slot_duration_millis, velocity, capacity }
    }

    /// Whether the authorship record respects the per-slot budget.
    ///
    /// A count above the budget is a consensus-safety breach: the host must
    /// test this before `on_state_proof` and abort block acceptance when it
    /// fails, rather than degrade gracefully.
    pub fn authored_count_within_limit(&self, slot_info: Option<SlotAuthorshipRecord>) -> (r:
        bool)
        ensures
            r == (authored_count_of(slot_info) <= velocity_budget(self.velocity)),
    {
        let authored: u32 = match slot_info {
            Option::None => 0,
            Option::Some(rec) => rec.authored_count,
        };
        let vel: u32 = if self.velocity >= 1 {
            self.velocity
        } else {
            1
        };
        (authored as u64) <= (vel as u64) + 1
    }

    /// Per-block validation step, run while the host processes the verified
    /// relay-chain state proof.
    ///
    /// The host reads `relay_chain_slot` from the proof before calling and
    /// aborts the block if the slot cannot be read; the value is carried
    /// here for reference only, since the enforcement path does not need it.
    /// The host must also have established, via
    /// [`Self::authored_count_within_limit`], that the record respects the
    /// per-slot budget, aborting the block otherwise.
    ///
    /// Returns the weight consumed (one storage read, for the record) and
    /// the non-zero capacity bound the unincluded segment is held to.
    #[allow(unused_variables)]
    pub fn on_state_proof(
        &self,
        relay_chain_slot: u64,
        slot_info: Option<SlotAuthorshipRecord>,
    ) -> (r: (u64, UnincludedSegmentCapacity))
        requires
            authored_count_of(slot_info) <= velocity_budget(self.velocity),
        ensures
            r.0 == STATE_PROOF_STORAGE_READS,
            r.1.value() == capacity_bound(self.capacity),
            r.1.wf(),
    {
        (STATE_PROOF_STORAGE_READS, UnincludedSegmentCapacity::new(self.capacity))
    }

    /// Whether it is legal to extend the chain at `new_slot`, assuming the
    /// most recently included block's unincluded segment currently holds
    /// `segment_size_after_included` local blocks.
    ///
    /// The host resolves the included block's hash to that segment size and
    /// supplies the per-slot authorship record; the decision is exactly
    /// [`can_build_upon_allowed`].
    pub fn can_build_upon(
        &self,
        slot_info: Option<SlotAuthorshipRecord>,
        segment_size_after_included: u32,
        new_slot: u64,
    ) -> (r: bool)
        ensures
            r == can_build_upon_allowed(
                self.velocity,
                self.capacity,
                slot_info,
                segment_size_after_included,
                new_slot,
            ),
    {
        let rec = match slot_info {
            Option::None => {
                return true;
            },
            Option::Some(rec) => rec,
        };

        let bound: u32 = if self.capacity >= 1 {
            self.capacity
        } else {
            1
        };
        // Can never author when the unincluded segment is full.
        if segment_size_after_included >= bound {
            return false;
        }

        if rec.slot == new_slot {
            let vel: u32 = if self.velocity >= 1 {
                self.velocity
            } else {
                1
            };
            (rec.authored_count as u64) < (vel as u64) + 1
        } else {
            // Disallow the slot from moving backwards.
            rec.slot < new_slot
        }
    }
}

/// Same-slot budget law: with a velocity of at least 1 and room in the
/// unincluded segment, the `k`-th authoring attempt within one slot (the
/// record showing `k - 1` blocks already authored in that slot) is admitted
/// exactly when `k <= velocity + 1`.
pub proof fn lemma_same_slot_budget(velocity: u32, capacity: u32, slot: u64, k: u32, segment_size: u32)
    requires
        velocity >= 1,
        k >= 1,
        segment_size < capacity_bound(capacity),
    ensures
        can_build_upon_allowed(
            velocity,
            capacity,
            Some((SlotAuthorshipRecord { slot, authored_count: (k - 1) as u32 })),
            segment_size,
            slot,
        ) == (k <= velocity + 1),
{
}

/// Full-segment law: once the unincluded segment has reached the capacity
/// bound, authoring is refused whatever the candidate slot and whatever the
/// recorded authored count.
pub proof fn lemma_full_segment_blocks(
    velocity: u32,
    capacity: u32,
    rec: SlotAuthorshipRecord,
    segment_size: u32,
    new_slot: u64,
)
    requires
        segment_size >= capacity_bound(capacity),
    ensures
        !can_build_upon_allowed(velocity, capacity, Some(rec), segment_size, new_slot),
{
}

/// Bootstrapping law: with no prior authorship record and the unincluded
/// segment below capacity, authoring is admitted for every candidate slot.
pub proof fn lemma_no_record_admits(velocity: u32, capacity: u32, segment_size: u32, new_slot: u64)
    requires
        segment_size < capacity_bound(capacity),
    ensures
        can_build_upon_allowed(
            velocity,
            capacity,
            None::<SlotAuthorshipRecord>,
            segment_size,
            new_slot,
        ),
{
}

/// Slot-monotonicity law: a candidate slot strictly before the recorded
/// slot is refused, whatever the segment size and authored count.
pub proof fn lemma_slot_regression_blocked(
    velocity: u32,
    capacity: u32,
    rec: SlotAuthorshipRecord,
    segment_size: u32,
    new_slot: u64,
)
    requires
        new_slot < rec.slot,
    ensures
        !can_build_upon_allowed(velocity, capacity, Some(rec), segment_size, new_slot),
{
}

} // verus!

