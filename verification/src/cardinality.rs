use vstd::prelude::*;

verus! {

/// Cardinality with which a template declares one of its slots.
#[derive(Clone, Copy, Debug, PartialEq, Eq, Structural)]
pub enum TemplateSlotCardinality {
    RangeOrZero { lower_bound: u32, upper_bound: u32 },
    LowerBoundOrZero { lower_bound: u32 },
    Range { lower_bound: u32, upper_bound: u32 },
    LowerBound { lower_bound: u32 },
    Single,
}

/// A cardinality specialization that an operative places on a slot.
#[derive(Clone, Copy, Debug, PartialEq, Eq, Structural)]
pub enum CardinalitySpecialization {
    LowerBoundOrZero { lower_bound: u32 },
    Single,
    Range { lower_bound: u32, upper_bound: u32 },
    Zero,
    RangeOrZero { lower_bound: u32, upper_bound: u32 },
    LowerBound { lower_bound: u32 },
}

/// The kind of a cardinality specialization, as offered by the builder.
#[derive(Clone, Copy, Debug, PartialEq, Eq, Structural)]
pub enum CardinalityKind {
    LowerBoundOrZero,
    Single,
    Range,
    Zero,
    RangeOrZero,
    LowerBound,
}

/// What a new cardinality specialization can build on: a template cardinality
/// or an earlier specialization that still admits a single value or a range.
#[derive(Clone, Copy, Debug, PartialEq, Eq, Structural)]
pub enum SpecializationTarget {
    SpecializedLowerBoundOrZero { lower_bound: u32 },
    TemplateRangeOrZero { lower_bound: u32, upper_bound: u32 },
    SpecializedRange { lower_bound: u32, upper_bound: u32 },
    TemplateLowerBoundOrZero { lower_bound: u32 },
    TemplateRange { lower_bound: u32, upper_bound: u32 },
    TemplateLowerBound { lower_bound: u32 },
    SpecializedRangeOrZero { lower_bound: u32, upper_bound: u32 },
    SpecializedLowerBound { lower_bound: u32 },
}

/// Which bound inputs the builder shows for a kind of specialization.
#[derive(Clone, Copy, Debug, PartialEq, Eq, Structural)]
pub enum CardinalityInputType {
    LowerBoundOnly,
    Both,
    Fixed,
}

/// The admissible number of slotted instances: at least `min`, at most `max`
/// when there is one, and zero as an exception when `zero_allowed`.
#[derive(Clone, Copy, Debug, PartialEq, Eq, Structural)]
pub struct CardinalityInfo {
    pub min: u32,
    pub max: Option<u32>,
    pub zero_allowed: bool,
}

/// The bounds that a cardinality specialization stands for.
pub open spec fn spec_info_of_specialization(spec: CardinalitySpecialization) -> CardinalityInfo {
    match spec {
        CardinalitySpecialization::LowerBoundOrZero { lower_bound } =>
            CardinalityInfo { min: lower_bound, max: None, zero_allowed: true },
        CardinalitySpecialization::Single =>
            CardinalityInfo { min: 1, max: Some(1), zero_allowed: false },
        CardinalitySpecialization::Range { lower_bound, upper_bound } =>
            CardinalityInfo { min: lower_bound, max: Some(upper_bound), zero_allowed: false },
        CardinalitySpecialization::Zero =>
            CardinalityInfo { min: 0, max: Some(0), zero_allowed: true },
        CardinalitySpecialization::RangeOrZero { lower_bound, upper_bound } =>
            CardinalityInfo { min: lower_bound, max: Some(upper_bound), zero_allowed: true },
        CardinalitySpecialization::LowerBound { lower_bound } =>
            CardinalityInfo { min: lower_bound, max: None, zero_allowed: false },
    }
}

/// The bounds that a template slot cardinality stands for.
pub open spec fn spec_info_of_template(c: TemplateSlotCardinality) -> CardinalityInfo {
    match c {
        TemplateSlotCardinality::RangeOrZero { lower_bound, upper_bound } =>
            CardinalityInfo { min: lower_bound, max: Some(upper_bound), zero_allowed: true },
        TemplateSlotCardinality::LowerBoundOrZero { lower_bound } =>
            CardinalityInfo { min: lower_bound, max: None, zero_allowed: true },
        TemplateSlotCardinality::Range { lower_bound, upper_bound } =>
            CardinalityInfo { min: lower_bound, max: Some(upper_bound), zero_allowed: false },
        TemplateSlotCardinality::LowerBound { lower_bound } =>
            CardinalityInfo { min: lower_bound, max: None, zero_allowed: false },
        TemplateSlotCardinality::Single => CardinalityInfo { min: 1, max: Some(1), zero_allowed: false },
    }
}

/// The bounds that a specialization target stands for.
pub open spec fn spec_info_of_target(t: SpecializationTarget) -> CardinalityInfo {
    match t {
        SpecializationTarget::SpecializedLowerBoundOrZero { lower_bound }
        | SpecializationTarget::TemplateLowerBoundOrZero { lower_bound } =>
            CardinalityInfo { min: lower_bound, max: None, zero_allowed: true },
        SpecializationTarget::TemplateRangeOrZero { lower_bound, upper_bound }
        | SpecializationTarget::SpecializedRangeOrZero { lower_bound, upper_bound } =>
            CardinalityInfo { min: lower_bound, max: Some(upper_bound), zero_allowed: true },
        SpecializationTarget::SpecializedRange { lower_bound, upper_bound }
        | SpecializationTarget::TemplateRange { lower_bound, upper_bound } =>
            CardinalityInfo { min: lower_bound, max: Some(upper_bound), zero_allowed: false },
        SpecializationTarget::TemplateLowerBound { lower_bound }
        | SpecializationTarget::SpecializedLowerBound { lower_bound } =>
            CardinalityInfo { min: lower_bound, max: None, zero_allowed: false },
    }
}

impl CardinalityInfo {
    /// The bounds of an existing cardinality specialization.
    pub fn from_card_spec(spec: CardinalitySpecialization) -> (r: Self)
        ensures
            r == spec_info_of_specialization(spec),
    {
        match spec {
            CardinalitySpecialization::LowerBoundOrZero { lower_bound } =>
                CardinalityInfo { min: lower_bound, max: None, zero_allowed: true },
            CardinalitySpecialization::Single =>
                CardinalityInfo { min: 1, max: Some(1), zero_allowed: false },
            CardinalitySpecialization::Range { lower_bound, upper_bound } =>
                CardinalityInfo { min: lower_bound, max: Some(upper_bound), zero_allowed: false },
            CardinalitySpecialization::Zero =>
                CardinalityInfo { min: 0, max: Some(0), zero_allowed: true },
            CardinalitySpecialization::RangeOrZero { lower_bound, upper_bound } =>
                CardinalityInfo { min: lower_bound, max: Some(upper_bound), zero_allowed: true },
            CardinalitySpecialization::LowerBound { lower_bound } =>
                CardinalityInfo { min: lower_bound, max: None, zero_allowed: false },
        }
    }

    /// The bounds a template declares for a slot.
    pub fn from_template_cardinality(c: TemplateSlotCardinality) -> (r: Self)
        ensures
            r == spec_info_of_template(c),
    {
        match c {
            TemplateSlotCardinality::RangeOrZero { lower_bound, upper_bound } =>
                CardinalityInfo { min: lower_bound, max: Some(upper_bound), zero_allowed: true },
            TemplateSlotCardinality::LowerBoundOrZero { lower_bound } =>
                CardinalityInfo { min: lower_bound, max: None, zero_allowed: true },
            TemplateSlotCardinality::Range { lower_bound, upper_bound } =>
                CardinalityInfo { min: lower_bound, max: Some(upper_bound), zero_allowed: false },
            TemplateSlotCardinality::LowerBound { lower_bound } =>
                CardinalityInfo { min: lower_bound, max: None, zero_allowed: false },
            TemplateSlotCardinality::Single =>
                CardinalityInfo { min: 1, max: Some(1), zero_allowed: false },
        }
    }

    /// The bounds of a specialization target.
    pub fn from_target(t: SpecializationTarget) -> (r: Self)
        ensures
            r == spec_info_of_target(t),
    {
        match t {
            SpecializationTarget::SpecializedLowerBoundOrZero { lower_bound }
            | SpecializationTarget::TemplateLowerBoundOrZero { lower_bound } =>
                CardinalityInfo { min: lower_bound, max: None, zero_allowed: true },
            SpecializationTarget::TemplateRangeOrZero { lower_bound, upper_bound }
            | SpecializationTarget::SpecializedRangeOrZero { lower_bound, upper_bound } =>
                CardinalityInfo { min: lower_bound, max: Some(upper_bound), zero_allowed: true },
            SpecializationTarget::SpecializedRange { lower_bound, upper_bound }
            | SpecializationTarget::TemplateRange { lower_bound, upper_bound } =>
                CardinalityInfo { min: lower_bound, max: Some(upper_bound), zero_allowed: false },
            SpecializationTarget::TemplateLowerBound { lower_bound }
            | SpecializationTarget::SpecializedLowerBound { lower_bound } =>
                CardinalityInfo { min: lower_bound, max: None, zero_allowed: false },
        }
    }
}

/// Whether bounds admit `n` slotted instances: zero where zero is allowed as an
/// exception, otherwise at least `min` and at most `max` where there is one.
pub open spec fn spec_admits(info: CardinalityInfo, n: nat) -> bool {
    (n == 0 && info.zero_allowed) || (n >= info.min && match info.max {
        Some(m) => n <= m,
        None => true,
    })
}

/// Whether the bounds `new` admit only counts that `prev` admits too: a
/// specialization with these bounds makes the slot more specialized, never
/// less.
pub open spec fn spec_narrows(new: CardinalityInfo, prev: CardinalityInfo) -> bool {
    forall|n: nat| #[trigger] spec_admits(new, n) ==> spec_admits(prev, n)
}

/// Whether every count that `new` admits is admitted by `prev`.
pub fn narrows(new: CardinalityInfo, prev: CardinalityInfo) -> (r: bool)
    ensures
        r == spec_narrows(new, prev),
{
    let zero_in_prev = prev.zero_allowed || prev.min == 0;
    if new.zero_allowed && !zero_in_prev {
        assert(spec_admits(new, 0) && !spec_admits(prev, 0));
        return false;
    }
    // The lowest count of the run from `new.min` to `new.max` that `prev`
    // has to admit by its own run: zero is already covered where `prev`
    // admits it.
    let lo: u32 = if new.min == 0 && zero_in_prev { 1 } else { new.min };
    let run_empty = match new.max {
        Some(m) => m < lo,
        None => false,
    };
    if run_empty {
        assert forall|n: nat| #[trigger] spec_admits(new, n) implies spec_admits(prev, n) by {
            if n == 0 {
                assert(zero_in_prev);
            }
        }
        return true;
    }
    if lo < prev.min {
        assert(spec_admits(new, lo as nat));
        assert(!spec_admits(prev, lo as nat));
        return false;
    }
    match prev.max {
        None => {
            assert forall|n: nat| #[trigger] spec_admits(new, n) implies spec_admits(prev, n) by {
                if n == 0 {
                    assert(zero_in_prev);
                }
            }
            true
        },
        Some(pm) => match new.max {
            None => {
                let ghost n: nat = if lo > pm { lo as nat } else { (pm + 1) as nat };
                assert(spec_admits(new, n));
                assert(!spec_admits(prev, n));
                false
            },
            Some(m) => {
                if m <= pm {
                    assert forall|n: nat| #[trigger] spec_admits(new, n) implies spec_admits(prev, n) by {
                        if n == 0 {
                            assert(zero_in_prev);
                        }
                    }
                    true
                } else {
                    assert(spec_admits(new, m as nat));
                    assert(!spec_admits(prev, m as nat));
                    false
                }
            },
        },
    }
}

} // verus!
