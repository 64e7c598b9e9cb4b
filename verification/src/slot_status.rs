use vstd::prelude::*;
use crate::cardinality::{CardinalityInfo, spec_admits};

verus! {

/// Bound of a template slot in the operative editor's own representation.
#[derive(Clone, Copy, Debug, PartialEq, Eq, Structural)]
pub enum SlotBound {
    UpperBound { upper_bound: u32 },
    RangeOrZero { lower_bound: u32, upper_bound: u32 },
    LowerBoundOrZero { lower_bound: u32 },
    Range { lower_bound: u32, upper_bound: u32 },
    LowerBound { lower_bound: u32 },
    Single,
}

/// The three flags shown for a slot: whether enough instances are slotted,
/// whether the slot is full on this operative, and whether it is full on some
/// descendant.
#[derive(Clone, Copy, Debug, PartialEq, Eq, Structural)]
pub struct SlotStatus {
    pub is_fulfilled: bool,
    pub is_maxed_independently: bool,
    pub is_maxed_considering_children: bool,
}

/// Whether `count` slotted instances fulfil the bounds: more than the minimum,
/// or none at all where zero is admitted.
pub open spec fn spec_is_fulfilled(count: u32, info: CardinalityInfo) -> bool {
    count > info.min || (count == 0 && info.zero_allowed)
}

/// Whether `count` reaches the upper bound exactly.
pub open spec fn spec_is_maxed(info: CardinalityInfo, count: u32) -> bool {
    match info.max {
        Some(m) => m == count,
        None => false,
    }
}

/// Whether the slotted instances fulfil the bounds.
pub fn is_fulfilled(count: u32, info: CardinalityInfo) -> (r: bool)
    ensures
        r == spec_is_fulfilled(count, info),
{
    count > info.min || (count == 0 && info.zero_allowed)
}

/// Whether `count` slotted instances reach the upper bound.
pub fn is_maxed(info: CardinalityInfo, count: u32) -> (r: bool)
    ensures
        r == spec_is_maxed(info, count),
{
    match info.max {
        Some(m) => m == count,
        None => false,
    }
}

/// The status of a slot of an operative, from its bounds, the number of
/// instances slotted on it (upstream ones included) and the largest number
/// slotted on any descendant.
pub fn slot_status(info: CardinalityInfo, local_count: u32, max_downstream: u32) -> (r: SlotStatus)
    ensures
        r.is_fulfilled == spec_is_fulfilled(local_count, info),
        r.is_maxed_independently == spec_is_maxed(info, local_count),
        r.is_maxed_considering_children == spec_is_maxed(info, max_downstream),
{
    SlotStatus {
        is_fulfilled: is_fulfilled(local_count, info),
        is_maxed_independently: is_maxed(info, local_count),
        is_maxed_considering_children: is_maxed(info, max_downstream),
    }
}

/// Whether another instance may be slotted: the slot is not full on the
/// descendant with the most instances, and no most-derived downstream
/// cardinality specialization is full at that number either.
pub open spec fn spec_may_add_instance(
    maxed_considering_children: bool,
    deepest_infos: Seq<CardinalityInfo>,
    max_downstream: u32,
) -> bool {
    !maxed_considering_children
        && !(exists|i: int| 0 <= i < deepest_infos.len() && #[trigger] spec_is_maxed(deepest_infos[i], max_downstream))
}

/// Whether another instance may be slotted on the slot.
pub fn is_allowed_to_add_another_instance(
    maxed_considering_children: bool,
    deepest_infos: &Vec<CardinalityInfo>,
    max_downstream: u32,
) -> (r: bool)
    ensures
        r == spec_may_add_instance(maxed_considering_children, deepest_infos@, max_downstream),
{
    if maxed_considering_children {
        return false;
    }
    let mut i: usize = 0;
    while i < deepest_infos.len()
        invariant
            i <= deepest_infos.len(),
            forall|j: int| 0 <= j < i ==> !spec_is_maxed(#[trigger] deepest_infos@[j], max_downstream),
        decreases deepest_infos.len() - i,
    {
        if is_maxed(deepest_infos[i], max_downstream) {
            assert(spec_is_maxed(deepest_infos@[i as int], max_downstream));
            return false;
        }
        i = i + 1;
    }
    true
}

/// The number of instances slotted below the operative only, or `None` where
/// the downstream maximum is smaller than the local count.
pub fn downstream_only_count(max_downstream: u32, local_count: u32) -> (r: Option<u32>)
    ensures
        max_downstream >= local_count ==> r == Some((max_downstream - local_count) as u32),
        max_downstream < local_count ==> r is None,
{
    if max_downstream >= local_count {
        Some(max_downstream - local_count)
    } else {
        None
    }
}

/// The status the operative editor shows for a slot bound, from the number of
/// instances slotted on the operative and the largest number on a branch of
/// its descendants.
pub open spec fn spec_slot_bound_status(bound: SlotBound, cur: u32, downstream: u32) -> SlotStatus {
    match bound {
        SlotBound::UpperBound { upper_bound } => SlotStatus {
            is_fulfilled: true,
            is_maxed_independently: upper_bound == cur,
            is_maxed_considering_children: upper_bound == downstream,
        },
        SlotBound::RangeOrZero { lower_bound, upper_bound } => SlotStatus {
            is_fulfilled: cur == 0 || cur >= lower_bound,
            is_maxed_independently: upper_bound == cur,
            is_maxed_considering_children: upper_bound == downstream,
        },
        SlotBound::LowerBoundOrZero { lower_bound } => SlotStatus {
            is_fulfilled: cur == 0 || cur >= lower_bound,
            is_maxed_independently: false,
            is_maxed_considering_children: false,
        },
        SlotBound::Range { lower_bound, upper_bound } => SlotStatus {
            is_fulfilled: cur >= lower_bound,
            is_maxed_independently: upper_bound == cur,
            is_maxed_considering_children: upper_bound == downstream,
        },
        SlotBound::LowerBound { lower_bound } => SlotStatus {
            is_fulfilled: cur >= lower_bound,
            is_maxed_independently: false,
            is_maxed_considering_children: false,
        },
        SlotBound::Single => SlotStatus {
            is_fulfilled: cur == 1,
            is_maxed_independently: cur == 1,
            is_maxed_considering_children: downstream == 1,
        },
    }
}

/// The counts of slotted instances that a slot bound admits: at least the
/// lower bound and at most the upper one, and zero where the bound makes it an
/// exception.
pub open spec fn bound_info(bound: SlotBound) -> CardinalityInfo {
    match bound {
        SlotBound::UpperBound { upper_bound } => CardinalityInfo { min: 0, max: Some(upper_bound), zero_allowed: true },
        SlotBound::RangeOrZero { lower_bound, upper_bound } =>
            CardinalityInfo { min: lower_bound, max: Some(upper_bound), zero_allowed: true },
        SlotBound::LowerBoundOrZero { lower_bound } => CardinalityInfo { min: lower_bound, max: None, zero_allowed: true },
        SlotBound::Range { lower_bound, upper_bound } =>
            CardinalityInfo { min: lower_bound, max: Some(upper_bound), zero_allowed: false },
        SlotBound::LowerBound { lower_bound } => CardinalityInfo { min: lower_bound, max: None, zero_allowed: false },
        SlotBound::Single => CardinalityInfo { min: 1, max: Some(1), zero_allowed: false },
    }
}

/// The status the operative editor shows for a slot bound: a count that the
/// bound admits is fulfilled, and the slot is full, here or on the fullest
/// descendant branch, exactly where the count there is the bound's upper
/// limit.
pub fn slot_bound_status(bound: SlotBound, cur: u32, downstream: u32) -> (r: SlotStatus)
    ensures
        r == spec_slot_bound_status(bound, cur, downstream),
        spec_admits(bound_info(bound), cur as nat) ==> r.is_fulfilled,
        r.is_fulfilled ==> cur >= bound_info(bound).min || (cur == 0 && bound_info(bound).zero_allowed),
        r.is_maxed_independently <==> bound_info(bound).max == Some(cur),
        r.is_maxed_considering_children <==> bound_info(bound).max == Some(downstream),
{
    proof {
        lemma_slot_bound_status_meaning(bound, cur, downstream);
    }
    match bound {
        SlotBound::UpperBound { upper_bound } => SlotStatus {
            is_fulfilled: true,
            is_maxed_independently: upper_bound == cur,
            is_maxed_considering_children: upper_bound == downstream,
        },
        SlotBound::RangeOrZero { lower_bound, upper_bound } => SlotStatus {
            is_fulfilled: cur == 0 || cur >= lower_bound,
            is_maxed_independently: upper_bound == cur,
            is_maxed_considering_children: upper_bound == downstream,
        },
        SlotBound::LowerBoundOrZero { lower_bound } => SlotStatus {
            is_fulfilled: cur == 0 || cur >= lower_bound,
            is_maxed_independently: false,
            is_maxed_considering_children: false,
        },
        SlotBound::Range { lower_bound, upper_bound } => SlotStatus {
            is_fulfilled: cur >= lower_bound,
            is_maxed_independently: upper_bound == cur,
            is_maxed_considering_children: upper_bound == downstream,
        },
        SlotBound::LowerBound { lower_bound } => SlotStatus {
            is_fulfilled: cur >= lower_bound,
            is_maxed_independently: false,
            is_maxed_considering_children: false,
        },
        SlotBound::Single => SlotStatus {
            is_fulfilled: cur == 1,
            is_maxed_independently: cur == 1,
            is_maxed_considering_children: downstream == 1,
        },
    }
}

/// Whether the editor lets the user slot another instance: neither the
/// operative nor its fullest descendant branch is at the upper bound.
pub fn may_slot_instance(status: SlotStatus) -> (r: bool)
    ensures
        r == (!status.is_maxed_considering_children && !status.is_maxed_independently),
{
    !status.is_maxed_considering_children && !status.is_maxed_independently
}

/// A slot that is full on the descendant with the most instances never
/// accepts another instance.
pub proof fn lemma_full_downstream_blocks_adding(info: CardinalityInfo, local: u32, max_downstream: u32, deepest: Seq<CardinalityInfo>)
    requires
        spec_is_maxed(info, max_downstream),
    ensures
        !spec_may_add_instance(spec_is_maxed(info, max_downstream), deepest, max_downstream),
{
}

/// A slot with no upper bound is never full, so its status never blocks
/// slotting another instance.
pub proof fn lemma_unbounded_never_maxed(info: CardinalityInfo, count: u32)
    requires
        info.max is None,
    ensures
        !spec_is_maxed(info, count),
{
}

/// What the editor shows of a slot bound means what the bound says: a slot
/// holding a number of instances that its bound admits is fulfilled, one
/// shown fulfilled holds at least the lower bound or, where zero is allowed,
/// none, and it
/// is full, here or on the fullest descendant branch, exactly where that
/// number is the bound's upper limit.
pub proof fn lemma_slot_bound_status_meaning(bound: SlotBound, cur: u32, downstream: u32)
    ensures
        spec_admits(bound_info(bound), cur as nat) ==> spec_slot_bound_status(bound, cur, downstream).is_fulfilled,
        spec_slot_bound_status(bound, cur, downstream).is_fulfilled ==> cur >= bound_info(bound).min || (cur == 0
            && bound_info(bound).zero_allowed),
        spec_slot_bound_status(bound, cur, downstream).is_maxed_independently <==> bound_info(bound).max == Some(cur),
        spec_slot_bound_status(bound, cur, downstream).is_maxed_considering_children <==> bound_info(bound).max
            == Some(downstream),
{
}

} // verus!
