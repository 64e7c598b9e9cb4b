use vstd::prelude::*;
use crate::cardinality::{
    CardinalityInfo, CardinalityInputType, CardinalityKind, CardinalitySpecialization,
    SpecializationTarget, TemplateSlotCardinality, narrows, spec_admits, spec_info_of_specialization,
    spec_info_of_target, spec_info_of_template, spec_narrows,
};

verus! {

/// The outcome of pressing "Save" in the cardinality specialization builder.
#[derive(Clone, Copy, Debug, PartialEq, Eq, Structural)]
pub enum CardinalitySaveDecision {
    /// Some downstream operative already has more instances slotted than the
    /// attempted bounds admit; nothing is saved.
    BlockedByDownstream,
    /// The selected bounds admit a count that the previous bounds do not, or
    /// fall outside them as the builder checks for the kind; nothing is saved.
    OutsidePreviousBounds,
    /// The chosen kind cannot refine the target; no specialization is made.
    IllFormed,
    /// The specialization that is created.
    Create(CardinalitySpecialization),
}

/// The bounds that hold for a slot of an operative: those of the most derived
/// cardinality specialization when there is one, else those of the template.
pub fn local_cardinality_info(
    childest: Option<CardinalitySpecialization>,
    template: TemplateSlotCardinality,
) -> (r: CardinalityInfo)
    ensures
        r == (match childest {
            Some(spec) => spec_info_of_specialization(spec),
            None => spec_info_of_template(template),
        }),
{
    match childest {
        Some(spec) => CardinalityInfo::from_card_spec(spec),
        None => CardinalityInfo::from_template_cardinality(template),
    }
}

/// The bounds a new specialization is measured against: those of the most
/// derived cardinality specialization when there is one, else those of the
/// target being refined.
pub fn previous_bounds(
    childest: Option<CardinalitySpecialization>,
    target: SpecializationTarget,
) -> (r: CardinalityInfo)
    ensures
        r == (match childest {
            Some(spec) => spec_info_of_specialization(spec),
            None => spec_info_of_target(target),
        }),
{
    match childest {
        Some(spec) => CardinalityInfo::from_card_spec(spec),
        None => CardinalityInfo::from_target(target),
    }
}

/// Whether a target only bounds the slot from below (no upper bound, zero not
/// admitted as an exception).
pub open spec fn is_lower_bound_target(t: SpecializationTarget) -> bool {
    t is TemplateLowerBound || t is SpecializedLowerBound
}

/// The kinds of specialization the builder offers for a target, in order.
pub open spec fn spec_allowed_specializations(t: SpecializationTarget) -> Seq<CardinalityKind> {
    match t {
        SpecializationTarget::SpecializedLowerBoundOrZero { .. }
        | SpecializationTarget::TemplateLowerBoundOrZero { .. } => seq![
            CardinalityKind::LowerBoundOrZero,
            CardinalityKind::LowerBound,
            CardinalityKind::Single,
            CardinalityKind::Range,
            CardinalityKind::RangeOrZero,
            CardinalityKind::Zero,
        ],
        SpecializationTarget::TemplateRangeOrZero { .. }
        | SpecializationTarget::SpecializedRangeOrZero { .. } => seq![
            CardinalityKind::Single,
            CardinalityKind::Range,
            CardinalityKind::RangeOrZero,
            CardinalityKind::Zero,
        ],
        SpecializationTarget::SpecializedRange { .. }
        | SpecializationTarget::TemplateRange { .. } => seq![
            CardinalityKind::Single,
            CardinalityKind::Range,
            CardinalityKind::Zero,
        ],
        SpecializationTarget::TemplateLowerBound { .. }
        | SpecializationTarget::SpecializedLowerBound { .. } => seq![
            CardinalityKind::LowerBound,
            CardinalityKind::Single,
            CardinalityKind::Range,
            CardinalityKind::RangeOrZero,
            CardinalityKind::Zero,
        ],
    }
}

/// The kinds of specialization offered for a target.
pub fn allowed_specializations(t: SpecializationTarget) -> (r: Vec<CardinalityKind>)
    ensures
        r@ == spec_allowed_specializations(t),
{
    match t {
        SpecializationTarget::SpecializedLowerBoundOrZero { .. }
        | SpecializationTarget::TemplateLowerBoundOrZero { .. } => vec![
            CardinalityKind::LowerBoundOrZero,
            CardinalityKind::LowerBound,
            CardinalityKind::Single,
            CardinalityKind::Range,
            CardinalityKind::RangeOrZero,
            CardinalityKind::Zero,
        ],
        SpecializationTarget::TemplateRangeOrZero { .. }
        | SpecializationTarget::SpecializedRangeOrZero { .. } => vec![
            CardinalityKind::Single,
            CardinalityKind::Range,
            CardinalityKind::RangeOrZero,
            CardinalityKind::Zero,
        ],
        SpecializationTarget::SpecializedRange { .. }
        | SpecializationTarget::TemplateRange { .. } => vec![
            CardinalityKind::Single,
            CardinalityKind::Range,
            CardinalityKind::Zero,
        ],
        SpecializationTarget::TemplateLowerBound { .. }
        | SpecializationTarget::SpecializedLowerBound { .. } => vec![
            CardinalityKind::LowerBound,
            CardinalityKind::Single,
            CardinalityKind::Range,
            CardinalityKind::RangeOrZero,
            CardinalityKind::Zero,
        ],
    }
}

/// Which bound inputs are shown for a kind of specialization.
pub fn input_type(kind: CardinalityKind) -> (r: CardinalityInputType)
    ensures
        r == (match kind {
            CardinalityKind::LowerBoundOrZero | CardinalityKind::LowerBound =>
                CardinalityInputType::LowerBoundOnly,
            CardinalityKind::Range | CardinalityKind::RangeOrZero => CardinalityInputType::Both,
            CardinalityKind::Single | CardinalityKind::Zero => CardinalityInputType::Fixed,
        }),
{
    match kind {
        CardinalityKind::LowerBoundOrZero => CardinalityInputType::LowerBoundOnly,
        CardinalityKind::Single => CardinalityInputType::Fixed,
        CardinalityKind::Range => CardinalityInputType::Both,
        CardinalityKind::Zero => CardinalityInputType::Fixed,
        CardinalityKind::RangeOrZero => CardinalityInputType::Both,
        CardinalityKind::LowerBound => CardinalityInputType::LowerBoundOnly,
    }
}

/// Whether some downstream operative has more instances slotted than the
/// attempted specialization would admit.
pub open spec fn spec_downstream_outside(kind: CardinalityKind, max_downstream: u32, selected_upper: u32) -> bool {
    match kind {
        CardinalityKind::LowerBoundOrZero | CardinalityKind::LowerBound => false,
        CardinalityKind::Single => max_downstream > 1,
        CardinalityKind::Zero => max_downstream > 0,
        CardinalityKind::Range | CardinalityKind::RangeOrZero => max_downstream > selected_upper,
    }
}

/// Whether some downstream operative has more instances slotted than the
/// attempted specialization would admit.
pub fn is_downstream_slot_outside_of_attempted_bounds(
    kind: CardinalityKind,
    max_downstream: u32,
    selected_upper: u32,
) -> (r: bool)
    ensures
        r == spec_downstream_outside(kind, max_downstream, selected_upper),
{
    match kind {
        CardinalityKind::LowerBoundOrZero => false,
        CardinalityKind::Single => max_downstream > 1,
        CardinalityKind::Range => max_downstream > selected_upper,
        CardinalityKind::Zero => max_downstream > 0,
        CardinalityKind::RangeOrZero => max_downstream > selected_upper,
        CardinalityKind::LowerBound => false,
    }
}

/// Whether the selected values fall outside the previous bounds in the way the
/// builder checks for each kind.
pub open spec fn spec_selected_outside(
    kind: CardinalityKind,
    prev: CardinalityInfo,
    selected_lower: u32,
    selected_upper: u32,
) -> bool {
    match kind {
        CardinalityKind::LowerBoundOrZero | CardinalityKind::LowerBound => prev.min > selected_lower,
        CardinalityKind::Single => prev.min > 1,
        CardinalityKind::Range | CardinalityKind::RangeOrZero => match prev.max {
            Some(m) => m < selected_upper,
            None => false,
        },
        CardinalityKind::Zero => !prev.zero_allowed && prev.min > 0,
    }
}

/// Whether the selected values fall outside the previous bounds.
pub fn are_selected_values_outside_of_previous_bounds(
    kind: CardinalityKind,
    prev: CardinalityInfo,
    selected_lower: u32,
    selected_upper: u32,
) -> (r: bool)
    ensures
        r == spec_selected_outside(kind, prev, selected_lower, selected_upper),
        spec_narrows(spec_info_of_specialization(spec_new_specialization(kind, selected_lower, selected_upper)), prev)
            && spec_info_of_specialization(spec_new_specialization(kind, selected_lower, selected_upper)).min >= prev.min
            && (prev.max matches Some(pm) ==> (kind == CardinalityKind::Range || kind == CardinalityKind::RangeOrZero)
            ==> selected_upper <= pm) ==> !r,
{
    proof {
        lemma_within_previous_bounds_not_outside(kind, prev, selected_lower, selected_upper);
    }
    match kind {
        CardinalityKind::LowerBoundOrZero => prev.min > selected_lower,
        CardinalityKind::Single => prev.min > 1,
        CardinalityKind::Range => match prev.max {
            Some(m) => m < selected_upper,
            None => false,
        },
        CardinalityKind::Zero => !prev.zero_allowed && prev.min > 0,
        CardinalityKind::RangeOrZero => match prev.max {
            Some(m) => m < selected_upper,
            None => false,
        },
        CardinalityKind::LowerBound => prev.min > selected_lower,
    }
}

/// Whether a kind of specialization can refine a target when it is saved.
pub open spec fn spec_accepts(kind: CardinalityKind, t: SpecializationTarget) -> bool {
    match kind {
        CardinalityKind::Single | CardinalityKind::Range | CardinalityKind::Zero => true,
        CardinalityKind::LowerBoundOrZero =>
            t is SpecializedLowerBoundOrZero || t is TemplateLowerBoundOrZero,
        CardinalityKind::RangeOrZero =>
            t is SpecializedLowerBoundOrZero || t is TemplateRangeOrZero
                || t is TemplateLowerBoundOrZero || t is SpecializedRangeOrZero,
        CardinalityKind::LowerBound =>
            t is SpecializedLowerBoundOrZero || t is TemplateLowerBoundOrZero
                || t is TemplateLowerBound || t is SpecializedLowerBound,
    }
}

/// Whether a kind of specialization can refine a target when it is saved.
pub fn is_specialization_accepted(kind: CardinalityKind, t: SpecializationTarget) -> (r: bool)
    ensures
        r == spec_accepts(kind, t),
{
    match kind {
        CardinalityKind::Single | CardinalityKind::Range | CardinalityKind::Zero => true,
        CardinalityKind::LowerBoundOrZero => match t {
            SpecializationTarget::SpecializedLowerBoundOrZero { .. }
            | SpecializationTarget::TemplateLowerBoundOrZero { .. } => true,
            _ => false,
        },
        CardinalityKind::RangeOrZero => match t {
            SpecializationTarget::SpecializedLowerBoundOrZero { .. }
            | SpecializationTarget::TemplateRangeOrZero { .. }
            | SpecializationTarget::TemplateLowerBoundOrZero { .. }
            | SpecializationTarget::SpecializedRangeOrZero { .. } => true,
            _ => false,
        },
        CardinalityKind::LowerBound => match t {
            SpecializationTarget::SpecializedLowerBoundOrZero { .. }
            | SpecializationTarget::TemplateLowerBoundOrZero { .. }
            | SpecializationTarget::TemplateLowerBound { .. }
            | SpecializationTarget::SpecializedLowerBound { .. } => true,
            _ => false,
        },
    }
}

/// The specialization of a kind that the selected bound values make.
pub open spec fn spec_new_specialization(kind: CardinalityKind, lower: u32, upper: u32) -> CardinalitySpecialization {
    match kind {
        CardinalityKind::LowerBoundOrZero => CardinalitySpecialization::LowerBoundOrZero { lower_bound: lower },
        CardinalityKind::Single => CardinalitySpecialization::Single,
        CardinalityKind::Range => CardinalitySpecialization::Range { lower_bound: lower, upper_bound: upper },
        CardinalityKind::Zero => CardinalitySpecialization::Zero,
        CardinalityKind::RangeOrZero => CardinalitySpecialization::RangeOrZero { lower_bound: lower, upper_bound: upper },
        CardinalityKind::LowerBound => CardinalitySpecialization::LowerBound { lower_bound: lower },
    }
}

/// The specialization of a kind that the selected bound values make.
pub fn new_specialization(kind: CardinalityKind, lower: u32, upper: u32) -> (r: CardinalitySpecialization)
    ensures
        r == spec_new_specialization(kind, lower, upper),
{
    match kind {
        CardinalityKind::LowerBoundOrZero => CardinalitySpecialization::LowerBoundOrZero { lower_bound: lower },
        CardinalityKind::Single => CardinalitySpecialization::Single,
        CardinalityKind::Range => CardinalitySpecialization::Range { lower_bound: lower, upper_bound: upper },
        CardinalityKind::Zero => CardinalitySpecialization::Zero,
        CardinalityKind::RangeOrZero => CardinalitySpecialization::RangeOrZero { lower_bound: lower, upper_bound: upper },
        CardinalityKind::LowerBound => CardinalitySpecialization::LowerBound { lower_bound: lower },
    }
}

/// What saving a specialization of `kind` on `target` does, given the bounds
/// it refines, the largest number of instances slotted downstream and the
/// selected bounds.
pub open spec fn spec_save_decision(
    kind: CardinalityKind,
    target: SpecializationTarget,
    prev: CardinalityInfo,
    max_downstream: u32,
    selected_lower: u32,
    selected_upper: u32,
) -> CardinalitySaveDecision {
    let new = spec_new_specialization(kind, selected_lower, selected_upper);
    if spec_downstream_outside(kind, max_downstream, selected_upper) {
        CardinalitySaveDecision::BlockedByDownstream
    } else if spec_selected_outside(kind, prev, selected_lower, selected_upper)
        || !spec_narrows(spec_info_of_specialization(new), prev) {
        CardinalitySaveDecision::OutsidePreviousBounds
    } else if !spec_accepts(kind, target) {
        CardinalitySaveDecision::IllFormed
    } else {
        CardinalitySaveDecision::Create(new)
    }
}

/// What saving a specialization of `kind` on `target` does: refused where some
/// downstream operative holds more instances than the selected bounds admit,
/// or where the selected bounds would admit a count that `prev`, the bounds in
/// force, does not; refused as ill-formed where the kind cannot refine the
/// target; otherwise the new specialization is made.
pub fn decide_cardinality_save(
    kind: CardinalityKind,
    target: SpecializationTarget,
    prev: CardinalityInfo,
    max_downstream: u32,
    selected_lower: u32,
    selected_upper: u32,
) -> (r: CardinalitySaveDecision)
    ensures
        r == spec_save_decision(kind, target, prev, max_downstream, selected_lower, selected_upper),
{
    if is_downstream_slot_outside_of_attempted_bounds(kind, max_downstream, selected_upper) {
        return CardinalitySaveDecision::BlockedByDownstream;
    }
    let new = new_specialization(kind, selected_lower, selected_upper);
    let new_info = CardinalityInfo::from_card_spec(new);
    if are_selected_values_outside_of_previous_bounds(kind, prev, selected_lower, selected_upper)
        || !narrows(new_info, prev) {
        CardinalitySaveDecision::OutsidePreviousBounds
    } else if !is_specialization_accepted(kind, target) {
        CardinalitySaveDecision::IllFormed
    } else {
        CardinalitySaveDecision::Create(new)
    }
}

/// The target that a further specialization refines, for an existing
/// specialization; `None` for those that cannot be specialized further.
pub open spec fn spec_target_of_specialization(spec: CardinalitySpecialization) -> Option<SpecializationTarget> {
    match spec {
        CardinalitySpecialization::LowerBoundOrZero { lower_bound } =>
            Some(SpecializationTarget::SpecializedLowerBoundOrZero { lower_bound }),
        CardinalitySpecialization::Range { lower_bound, upper_bound } =>
            Some(SpecializationTarget::SpecializedRange { lower_bound, upper_bound }),
        CardinalitySpecialization::RangeOrZero { lower_bound, upper_bound } =>
            Some(SpecializationTarget::SpecializedRangeOrZero { lower_bound, upper_bound }),
        CardinalitySpecialization::LowerBound { lower_bound } =>
            Some(SpecializationTarget::SpecializedLowerBound { lower_bound }),
        CardinalitySpecialization::Single | CardinalitySpecialization::Zero => None,
    }
}

/// The target that a specialization of a bare template slot refines; `None`
/// for a single slot, which cannot be specialized.
pub open spec fn spec_target_of_template(c: TemplateSlotCardinality) -> Option<SpecializationTarget> {
    match c {
        TemplateSlotCardinality::RangeOrZero { lower_bound, upper_bound } =>
            Some(SpecializationTarget::TemplateRangeOrZero { lower_bound, upper_bound }),
        TemplateSlotCardinality::LowerBoundOrZero { lower_bound } =>
            Some(SpecializationTarget::TemplateLowerBoundOrZero { lower_bound }),
        TemplateSlotCardinality::Range { lower_bound, upper_bound } =>
            Some(SpecializationTarget::TemplateRange { lower_bound, upper_bound }),
        TemplateSlotCardinality::LowerBound { lower_bound } =>
            Some(SpecializationTarget::TemplateLowerBound { lower_bound }),
        TemplateSlotCardinality::Single => None,
    }
}

/// The target the builder offers to refine, for the most derived cardinality
/// specialization of a slot, or for the template cardinality when there is
/// none; `None` where the slot cannot be specialized further.
pub fn builder_target(
    childest: Option<CardinalitySpecialization>,
    template: TemplateSlotCardinality,
) -> (r: Option<SpecializationTarget>)
    ensures
        r == (match childest {
            Some(spec) => spec_target_of_specialization(spec),
            None => spec_target_of_template(template),
        }),
{
    match childest {
        Some(spec) => match spec {
            CardinalitySpecialization::LowerBoundOrZero { lower_bound } =>
                Some(SpecializationTarget::SpecializedLowerBoundOrZero { lower_bound }),
            CardinalitySpecialization::Range { lower_bound, upper_bound } =>
                Some(SpecializationTarget::SpecializedRange { lower_bound, upper_bound }),
            CardinalitySpecialization::RangeOrZero { lower_bound, upper_bound } =>
                Some(SpecializationTarget::SpecializedRangeOrZero { lower_bound, upper_bound }),
            CardinalitySpecialization::LowerBound { lower_bound } =>
                Some(SpecializationTarget::SpecializedLowerBound { lower_bound }),
            CardinalitySpecialization::Single | CardinalitySpecialization::Zero => None,
        },
        None => match template {
            TemplateSlotCardinality::RangeOrZero { lower_bound, upper_bound } =>
                Some(SpecializationTarget::TemplateRangeOrZero { lower_bound, upper_bound }),
            TemplateSlotCardinality::LowerBoundOrZero { lower_bound } =>
                Some(SpecializationTarget::TemplateLowerBoundOrZero { lower_bound }),
            TemplateSlotCardinality::Range { lower_bound, upper_bound } =>
                Some(SpecializationTarget::TemplateRange { lower_bound, upper_bound }),
            TemplateSlotCardinality::LowerBound { lower_bound } =>
                Some(SpecializationTarget::TemplateLowerBound { lower_bound }),
            TemplateSlotCardinality::Single => None,
        },
    }
}

/// The specialization that descendants take back when a specialization built
/// on `upstream` is deleted: the upstream specialization itself, or `None`
/// when the upstream is the template's own cardinality.
pub open spec fn spec_restored_specialization(upstream: SpecializationTarget) -> Option<CardinalitySpecialization> {
    match upstream {
        SpecializationTarget::SpecializedLowerBoundOrZero { lower_bound } =>
            Some(CardinalitySpecialization::LowerBoundOrZero { lower_bound }),
        SpecializationTarget::SpecializedRange { lower_bound, upper_bound } =>
            Some(CardinalitySpecialization::Range { lower_bound, upper_bound }),
        SpecializationTarget::SpecializedRangeOrZero { lower_bound, upper_bound } =>
            Some(CardinalitySpecialization::RangeOrZero { lower_bound, upper_bound }),
        SpecializationTarget::SpecializedLowerBound { lower_bound } =>
            Some(CardinalitySpecialization::LowerBound { lower_bound }),
        _ => None,
    }
}

/// The specialization that descendants take back when a specialization built
/// on `upstream` is deleted.
pub fn restored_specialization(upstream: SpecializationTarget) -> (r: Option<CardinalitySpecialization>)
    ensures
        r == spec_restored_specialization(upstream),
{
    match upstream {
        SpecializationTarget::SpecializedLowerBoundOrZero { lower_bound } =>
            Some(CardinalitySpecialization::LowerBoundOrZero { lower_bound }),
        SpecializationTarget::SpecializedRange { lower_bound, upper_bound } =>
            Some(CardinalitySpecialization::Range { lower_bound, upper_bound }),
        SpecializationTarget::SpecializedRangeOrZero { lower_bound, upper_bound } =>
            Some(CardinalitySpecialization::RangeOrZero { lower_bound, upper_bound }),
        SpecializationTarget::SpecializedLowerBound { lower_bound } =>
            Some(CardinalitySpecialization::LowerBound { lower_bound }),
        _ => None,
    }
}

/// Every kind the builder offers for a target is one that saving accepts,
/// except a range-or-zero specialization offered on a lower-bound target.
pub proof fn lemma_offered_kinds_are_accepted(t: SpecializationTarget, i: int)
    requires
        0 <= i < spec_allowed_specializations(t).len(),
        !(spec_allowed_specializations(t)[i] == CardinalityKind::RangeOrZero && is_lower_bound_target(t)),
    ensures
        spec_accepts(spec_allowed_specializations(t)[i], t),
{
}

/// A further specialization starts from exactly the bounds of the
/// specialization it refines.
pub proof fn lemma_target_of_specialization_keeps_bounds(spec: CardinalitySpecialization)
    requires
        spec_target_of_specialization(spec) is Some,
    ensures
        spec_info_of_target(spec_target_of_specialization(spec).unwrap()) == spec_info_of_specialization(spec),
{
}

/// A first specialization of a slot starts from exactly the template's bounds.
pub proof fn lemma_target_of_template_keeps_bounds(c: TemplateSlotCardinality)
    requires
        spec_target_of_template(c) is Some,
    ensures
        spec_info_of_target(spec_target_of_template(c).unwrap()) == spec_info_of_template(c),
{
}

/// Deleting a specialization restores exactly the bounds of what it refined.
pub proof fn lemma_restored_specialization_keeps_bounds(upstream: SpecializationTarget)
    requires
        spec_restored_specialization(upstream) is Some,
    ensures
        spec_info_of_specialization(spec_restored_specialization(upstream).unwrap()) == spec_info_of_target(upstream),
{
}

/// Refining and then deleting the refinement gives back the same
/// specialization.
pub proof fn lemma_refine_then_restore(spec: CardinalitySpecialization)
    requires
        spec_target_of_specialization(spec) is Some,
    ensures
        spec_restored_specialization(spec_target_of_specialization(spec).unwrap()) == Some(spec),
{
}

/// A specialization is always more specialized than what it refines: every
/// specialization that saving accepts admits only counts of slotted instances
/// that the previous bounds admit.
pub proof fn lemma_accepted_save_narrows(
    kind: CardinalityKind,
    target: SpecializationTarget,
    prev: CardinalityInfo,
    max_downstream: u32,
    lower: u32,
    upper: u32,
    n: nat,
)
    requires
        spec_save_decision(kind, target, prev, max_downstream, lower, upper) is Create,
        spec_admits(
            spec_info_of_specialization(spec_save_decision(kind, target, prev, max_downstream, lower, upper)->Create_0),
            n,
        ),
    ensures
        spec_admits(prev, n),
{
}

/// A save that narrows is made: where the selected bounds admit only counts
/// that the previous bounds admit, raise no minimum above and lower no
/// maximum below what the builder compares, no downstream operative holds more
/// instances than they admit, and the kind can refine the target, the new
/// specialization is created.
pub proof fn lemma_narrowing_save_is_created(
    kind: CardinalityKind,
    target: SpecializationTarget,
    prev: CardinalityInfo,
    max_downstream: u32,
    lower: u32,
    upper: u32,
)
    requires
        spec_narrows(spec_info_of_specialization(spec_new_specialization(kind, lower, upper)), prev),
        spec_info_of_specialization(spec_new_specialization(kind, lower, upper)).min >= prev.min,
        prev.max matches Some(pm) ==> match kind {
            CardinalityKind::Range | CardinalityKind::RangeOrZero => upper <= pm,
            _ => true,
        },
        match spec_info_of_specialization(spec_new_specialization(kind, lower, upper)).max {
            Some(m) => max_downstream <= m,
            None => true,
        },
        spec_accepts(kind, target),
    ensures
        spec_save_decision(kind, target, prev, max_downstream, lower, upper)
            == CardinalitySaveDecision::Create(spec_new_specialization(kind, lower, upper)),
{
    if kind == CardinalityKind::Zero {
        assert(spec_admits(spec_info_of_specialization(CardinalitySpecialization::Zero), 0));
    }
}

/// A selection inside the previous bounds is never flagged as outside them:
/// where the selected bounds admit only counts the previous bounds admit,
/// with a minimum no lower and, for a range, an upper bound no higher, the
/// check does not fire.
pub proof fn lemma_within_previous_bounds_not_outside(kind: CardinalityKind, prev: CardinalityInfo, lower: u32, upper: u32)
    ensures
        spec_narrows(spec_info_of_specialization(spec_new_specialization(kind, lower, upper)), prev)
            && spec_info_of_specialization(spec_new_specialization(kind, lower, upper)).min >= prev.min
            && (prev.max matches Some(pm) ==> (kind == CardinalityKind::Range || kind == CardinalityKind::RangeOrZero)
            ==> upper <= pm) ==> !spec_selected_outside(kind, prev, lower, upper),
{
    if kind == CardinalityKind::Zero {
        assert(spec_admits(spec_info_of_specialization(CardinalitySpecialization::Zero), 0));
    }
}

/// A save that would leave some downstream operative holding more instances
/// than the new upper bound admits is blocked.
pub proof fn lemma_downstream_conflict_blocks(
    kind: CardinalityKind,
    target: SpecializationTarget,
    prev: CardinalityInfo,
    max_downstream: u32,
    lower: u32,
    upper: u32,
)
    requires
        spec_info_of_specialization(spec_new_specialization(kind, lower, upper)).max matches Some(m) && max_downstream > m,
    ensures
        spec_save_decision(kind, target, prev, max_downstream, lower, upper) == CardinalitySaveDecision::BlockedByDownstream,
{
}

/// A kind that cannot refine the target is never created.
pub proof fn lemma_unaccepted_kind_never_created(
    kind: CardinalityKind,
    target: SpecializationTarget,
    prev: CardinalityInfo,
    max_downstream: u32,
    lower: u32,
    upper: u32,
)
    requires
        !spec_accepts(kind, target),
    ensures
        !(spec_save_decision(kind, target, prev, max_downstream, lower, upper) is Create),
{
}

/// A kind of specialization refines a target exactly where the target leaves
/// room for what the kind keeps: a kind without an upper bound only refines a
/// target without one, and a kind that keeps zero as an exception only one
/// where zero is allowed.
pub proof fn lemma_accepted_kinds_fit_target(kind: CardinalityKind, target: SpecializationTarget)
    ensures
        spec_accepts(kind, target) <==> (
            ((kind == CardinalityKind::LowerBound || kind == CardinalityKind::LowerBoundOrZero)
                ==> spec_info_of_target(target).max is None)
            && ((kind == CardinalityKind::LowerBoundOrZero || kind == CardinalityKind::RangeOrZero)
                ==> spec_info_of_target(target).zero_allowed)),
{
}

} // verus!
