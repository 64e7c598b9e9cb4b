use schema_editor::cardinality::{
    narrows, CardinalityInfo, CardinalityInputType, CardinalityKind, CardinalitySpecialization, SpecializationTarget,
    TemplateSlotCardinality,
};
use schema_editor::cardinality_builder::{
    allowed_specializations, are_selected_values_outside_of_previous_bounds, builder_target,
    decide_cardinality_save, input_type, is_downstream_slot_outside_of_attempted_bounds,
    is_specialization_accepted, local_cardinality_info, new_specialization, previous_bounds,
    restored_specialization, CardinalitySaveDecision,
};

#[test]
fn info_of_each_specialization() {
    assert_eq!(
        CardinalityInfo::from_card_spec(CardinalitySpecialization::LowerBoundOrZero { lower_bound: 3 }),
        CardinalityInfo { min: 3, max: None, zero_allowed: true }
    );
    assert_eq!(
        CardinalityInfo::from_card_spec(CardinalitySpecialization::Single),
        CardinalityInfo { min: 1, max: Some(1), zero_allowed: false }
    );
    assert_eq!(
        CardinalityInfo::from_card_spec(CardinalitySpecialization::Range { lower_bound: 2, upper_bound: 5 }),
        CardinalityInfo { min: 2, max: Some(5), zero_allowed: false }
    );
    assert_eq!(
        CardinalityInfo::from_card_spec(CardinalitySpecialization::Zero),
        CardinalityInfo { min: 0, max: Some(0), zero_allowed: true }
    );
    assert_eq!(
        CardinalityInfo::from_card_spec(CardinalitySpecialization::RangeOrZero { lower_bound: 1, upper_bound: 4 }),
        CardinalityInfo { min: 1, max: Some(4), zero_allowed: true }
    );
    assert_eq!(
        CardinalityInfo::from_card_spec(CardinalitySpecialization::LowerBound { lower_bound: 7 }),
        CardinalityInfo { min: 7, max: None, zero_allowed: false }
    );
}

#[test]
fn info_of_each_template_cardinality() {
    assert_eq!(
        CardinalityInfo::from_template_cardinality(TemplateSlotCardinality::RangeOrZero { lower_bound: 1, upper_bound: 3 }),
        CardinalityInfo { min: 1, max: Some(3), zero_allowed: true }
    );
    assert_eq!(
        CardinalityInfo::from_template_cardinality(TemplateSlotCardinality::LowerBoundOrZero { lower_bound: 2 }),
        CardinalityInfo { min: 2, max: None, zero_allowed: true }
    );
    assert_eq!(
        CardinalityInfo::from_template_cardinality(TemplateSlotCardinality::Range { lower_bound: 0, upper_bound: 9 }),
        CardinalityInfo { min: 0, max: Some(9), zero_allowed: false }
    );
    assert_eq!(
        CardinalityInfo::from_template_cardinality(TemplateSlotCardinality::LowerBound { lower_bound: 4 }),
        CardinalityInfo { min: 4, max: None, zero_allowed: false }
    );
    assert_eq!(
        CardinalityInfo::from_template_cardinality(TemplateSlotCardinality::Single),
        CardinalityInfo { min: 1, max: Some(1), zero_allowed: false }
    );
}

#[test]
fn info_of_targets() {
    assert_eq!(
        CardinalityInfo::from_target(SpecializationTarget::SpecializedRangeOrZero { lower_bound: 2, upper_bound: 6 }),
        CardinalityInfo { min: 2, max: Some(6), zero_allowed: true }
    );
    assert_eq!(
        CardinalityInfo::from_target(SpecializationTarget::TemplateLowerBound { lower_bound: 3 }),
        CardinalityInfo { min: 3, max: None, zero_allowed: false }
    );
}

#[test]
fn local_info_prefers_childest_specialization() {
    let template = TemplateSlotCardinality::Range { lower_bound: 1, upper_bound: 10 };
    assert_eq!(
        local_cardinality_info(Some(CardinalitySpecialization::Single), template),
        CardinalityInfo { min: 1, max: Some(1), zero_allowed: false }
    );
    assert_eq!(
        local_cardinality_info(None, template),
        CardinalityInfo { min: 1, max: Some(10), zero_allowed: false }
    );
}

#[test]
fn previous_bounds_prefer_childest_specialization() {
    let target = SpecializationTarget::TemplateLowerBoundOrZero { lower_bound: 2 };
    assert_eq!(
        previous_bounds(Some(CardinalitySpecialization::LowerBound { lower_bound: 5 }), target),
        CardinalityInfo { min: 5, max: None, zero_allowed: false }
    );
    assert_eq!(previous_bounds(None, target), CardinalityInfo { min: 2, max: None, zero_allowed: true });
}

#[test]
fn offered_kinds_for_each_target() {
    assert_eq!(
        allowed_specializations(SpecializationTarget::TemplateLowerBoundOrZero { lower_bound: 0 }),
        vec![
            CardinalityKind::LowerBoundOrZero,
            CardinalityKind::LowerBound,
            CardinalityKind::Single,
            CardinalityKind::Range,
            CardinalityKind::RangeOrZero,
            CardinalityKind::Zero,
        ]
    );
    assert_eq!(
        allowed_specializations(SpecializationTarget::SpecializedRangeOrZero { lower_bound: 0, upper_bound: 3 }),
        vec![CardinalityKind::Single, CardinalityKind::Range, CardinalityKind::RangeOrZero, CardinalityKind::Zero]
    );
    assert_eq!(
        allowed_specializations(SpecializationTarget::TemplateRange { lower_bound: 1, upper_bound: 3 }),
        vec![CardinalityKind::Single, CardinalityKind::Range, CardinalityKind::Zero]
    );
    assert_eq!(
        allowed_specializations(SpecializationTarget::SpecializedLowerBound { lower_bound: 1 }),
        vec![
            CardinalityKind::LowerBound,
            CardinalityKind::Single,
            CardinalityKind::Range,
            CardinalityKind::RangeOrZero,
            CardinalityKind::Zero,
        ]
    );
}

#[test]
fn inputs_shown_for_each_kind() {
    assert_eq!(input_type(CardinalityKind::LowerBoundOrZero), CardinalityInputType::LowerBoundOnly);
    assert_eq!(input_type(CardinalityKind::LowerBound), CardinalityInputType::LowerBoundOnly);
    assert_eq!(input_type(CardinalityKind::Range), CardinalityInputType::Both);
    assert_eq!(input_type(CardinalityKind::RangeOrZero), CardinalityInputType::Both);
    assert_eq!(input_type(CardinalityKind::Single), CardinalityInputType::Fixed);
    assert_eq!(input_type(CardinalityKind::Zero), CardinalityInputType::Fixed);
}

#[test]
fn downstream_outside_attempted_bounds() {
    assert!(!is_downstream_slot_outside_of_attempted_bounds(CardinalityKind::LowerBound, 100, 0));
    assert!(!is_downstream_slot_outside_of_attempted_bounds(CardinalityKind::LowerBoundOrZero, 100, 0));
    assert!(is_downstream_slot_outside_of_attempted_bounds(CardinalityKind::Single, 2, 0));
    assert!(!is_downstream_slot_outside_of_attempted_bounds(CardinalityKind::Single, 1, 0));
    assert!(is_downstream_slot_outside_of_attempted_bounds(CardinalityKind::Zero, 1, 0));
    assert!(!is_downstream_slot_outside_of_attempted_bounds(CardinalityKind::Zero, 0, 0));
    assert!(is_downstream_slot_outside_of_attempted_bounds(CardinalityKind::Range, 4, 3));
    assert!(!is_downstream_slot_outside_of_attempted_bounds(CardinalityKind::RangeOrZero, 3, 3));
}

#[test]
fn selected_values_outside_previous_bounds() {
    let prev = CardinalityInfo { min: 2, max: Some(5), zero_allowed: false };
    assert!(are_selected_values_outside_of_previous_bounds(CardinalityKind::LowerBound, prev, 1, 0));
    assert!(!are_selected_values_outside_of_previous_bounds(CardinalityKind::LowerBound, prev, 2, 0));
    assert!(are_selected_values_outside_of_previous_bounds(CardinalityKind::Single, prev, 0, 0));
    assert!(are_selected_values_outside_of_previous_bounds(CardinalityKind::Range, prev, 2, 6));
    assert!(!are_selected_values_outside_of_previous_bounds(CardinalityKind::RangeOrZero, prev, 2, 5));
    assert!(are_selected_values_outside_of_previous_bounds(CardinalityKind::Zero, prev, 0, 0));
    let unbounded = CardinalityInfo { min: 0, max: None, zero_allowed: true };
    assert!(!are_selected_values_outside_of_previous_bounds(CardinalityKind::Range, unbounded, 0, 1000));
    assert!(!are_selected_values_outside_of_previous_bounds(CardinalityKind::Zero, unbounded, 0, 0));
}

#[test]
fn acceptance_of_kinds_on_targets() {
    let lboz = SpecializationTarget::TemplateLowerBoundOrZero { lower_bound: 1 };
    let range = SpecializationTarget::SpecializedRange { lower_bound: 1, upper_bound: 4 };
    let lb = SpecializationTarget::TemplateLowerBound { lower_bound: 1 };
    assert!(is_specialization_accepted(CardinalityKind::LowerBoundOrZero, lboz));
    assert!(!is_specialization_accepted(CardinalityKind::LowerBoundOrZero, range));
    assert!(is_specialization_accepted(CardinalityKind::RangeOrZero, lboz));
    assert!(!is_specialization_accepted(CardinalityKind::RangeOrZero, lb));
    assert!(is_specialization_accepted(CardinalityKind::LowerBound, lb));
    assert!(!is_specialization_accepted(CardinalityKind::LowerBound, range));
    assert!(is_specialization_accepted(CardinalityKind::Single, range));
    assert!(is_specialization_accepted(CardinalityKind::Zero, lb));
}

#[test]
fn new_specialization_of_each_kind() {
    assert_eq!(
        new_specialization(CardinalityKind::Range, 2, 4),
        CardinalitySpecialization::Range { lower_bound: 2, upper_bound: 4 }
    );
    assert_eq!(new_specialization(CardinalityKind::Single, 2, 4), CardinalitySpecialization::Single);
    assert_eq!(new_specialization(CardinalityKind::Zero, 2, 4), CardinalitySpecialization::Zero);
    assert_eq!(
        new_specialization(CardinalityKind::LowerBound, 2, 4),
        CardinalitySpecialization::LowerBound { lower_bound: 2 }
    );
    assert_eq!(
        new_specialization(CardinalityKind::LowerBoundOrZero, 3, 4),
        CardinalitySpecialization::LowerBoundOrZero { lower_bound: 3 }
    );
    assert_eq!(
        new_specialization(CardinalityKind::RangeOrZero, 1, 2),
        CardinalitySpecialization::RangeOrZero { lower_bound: 1, upper_bound: 2 }
    );
}

#[test]
fn save_decisions() {
    let target = SpecializationTarget::TemplateRange { lower_bound: 0, upper_bound: 10 };
    let prev = CardinalityInfo { min: 0, max: Some(10), zero_allowed: false };
    assert_eq!(
        decide_cardinality_save(CardinalityKind::Range, target, prev, 6, 1, 5),
        CardinalitySaveDecision::BlockedByDownstream
    );
    assert_eq!(
        decide_cardinality_save(CardinalityKind::LowerBound, target, prev, 6, 1, 5),
        CardinalitySaveDecision::OutsidePreviousBounds
    );
    assert_eq!(
        decide_cardinality_save(CardinalityKind::RangeOrZero, target, prev, 0, 1, 5),
        CardinalitySaveDecision::IllFormed
    );
    assert_eq!(
        decide_cardinality_save(CardinalityKind::Range, target, prev, 5, 1, 5),
        CardinalitySaveDecision::Create(CardinalitySpecialization::Range { lower_bound: 1, upper_bound: 5 })
    );
}

#[test]
fn widening_saves_are_refused() {
    let target = SpecializationTarget::SpecializedRange { lower_bound: 2, upper_bound: 5 };
    let prev = CardinalityInfo { min: 2, max: Some(5), zero_allowed: false };
    // 0..10 admits 10, which 2..5 does not.
    assert_eq!(
        decide_cardinality_save(CardinalityKind::Range, target, prev, 0, 0, 10),
        CardinalitySaveDecision::OutsidePreviousBounds
    );
    // 1..5 admits 1; the upper-bound check alone would let it through.
    assert_eq!(
        decide_cardinality_save(CardinalityKind::Range, target, prev, 0, 1, 5),
        CardinalitySaveDecision::OutsidePreviousBounds
    );
    // Zero is not admitted by 2..5.
    assert_eq!(
        decide_cardinality_save(CardinalityKind::Zero, target, prev, 0, 0, 0),
        CardinalitySaveDecision::OutsidePreviousBounds
    );
    assert_eq!(
        decide_cardinality_save(CardinalityKind::Range, target, prev, 0, 3, 4),
        CardinalitySaveDecision::Create(CardinalitySpecialization::Range { lower_bound: 3, upper_bound: 4 })
    );
    assert_eq!(
        decide_cardinality_save(CardinalityKind::Single, target, prev, 0, 0, 0),
        CardinalitySaveDecision::OutsidePreviousBounds
    );
}

#[test]
fn narrowing_of_bounds() {
    let range = |min: u32, max: u32, zero: bool| CardinalityInfo { min, max: Some(max), zero_allowed: zero };
    let open = |min: u32, zero: bool| CardinalityInfo { min, max: None, zero_allowed: zero };
    assert!(narrows(range(3, 4, false), range(2, 5, false)));
    assert!(!narrows(range(0, 10, false), range(2, 5, false)));
    assert!(!narrows(range(2, 5, true), range(2, 5, false)));
    assert!(narrows(range(0, 5, false), range(1, 5, true)));
    assert!(!narrows(open(3, false), range(0, 9, false)));
    assert!(narrows(range(3, 9, false), open(2, false)));
    // An empty range admits nothing, so it narrows anything.
    assert!(narrows(range(5, 2, false), range(7, 7, false)));
    assert!(narrows(open(1, true), open(0, false)));
}

#[test]
fn builder_target_for_childest_and_template() {
    assert_eq!(
        builder_target(
            Some(CardinalitySpecialization::Range { lower_bound: 1, upper_bound: 3 }),
            TemplateSlotCardinality::Single
        ),
        Some(SpecializationTarget::SpecializedRange { lower_bound: 1, upper_bound: 3 })
    );
    assert_eq!(builder_target(Some(CardinalitySpecialization::Zero), TemplateSlotCardinality::Single), None);
    assert_eq!(
        builder_target(None, TemplateSlotCardinality::LowerBound { lower_bound: 2 }),
        Some(SpecializationTarget::TemplateLowerBound { lower_bound: 2 })
    );
    assert_eq!(builder_target(None, TemplateSlotCardinality::Single), None);
}

#[test]
fn restored_specialization_on_delete() {
    assert_eq!(
        restored_specialization(SpecializationTarget::SpecializedLowerBound { lower_bound: 3 }),
        Some(CardinalitySpecialization::LowerBound { lower_bound: 3 })
    );
    assert_eq!(restored_specialization(SpecializationTarget::TemplateLowerBound { lower_bound: 3 }), None);
}

#[test]
fn refine_then_restore_gives_back_the_specialization() {
    let spec = CardinalitySpecialization::RangeOrZero { lower_bound: 2, upper_bound: 8 };
    let target = builder_target(Some(spec), TemplateSlotCardinality::Single).unwrap();
    assert_eq!(restored_specialization(target), Some(spec));
    assert_eq!(CardinalityInfo::from_target(target), CardinalityInfo::from_card_spec(spec));
}

#[test]
fn offered_kinds_are_accepted_on_range_or_zero_target() {
    let t = SpecializationTarget::TemplateRangeOrZero { lower_bound: 0, upper_bound: 4 };
    for kind in allowed_specializations(t) {
        assert!(is_specialization_accepted(kind, t));
    }
}

#[test]
fn range_or_zero_offered_but_refused_on_lower_bound_target() {
    let t = SpecializationTarget::TemplateLowerBound { lower_bound: 2 };
    assert!(allowed_specializations(t).contains(&CardinalityKind::RangeOrZero));
    assert!(!is_specialization_accepted(CardinalityKind::RangeOrZero, t));
}

#[test]
fn unflagged_range_save_does_not_raise_upper_bound() {
    let prev = CardinalityInfo { min: 1, max: Some(6), zero_allowed: false };
    assert!(!are_selected_values_outside_of_previous_bounds(CardinalityKind::Range, prev, 1, 6));
    let made = CardinalityInfo::from_card_spec(new_specialization(CardinalityKind::Range, 1, 6));
    assert!(made.max.unwrap() <= prev.max.unwrap());
}
