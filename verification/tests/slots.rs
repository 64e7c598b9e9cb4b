use schema_editor::cardinality::{CardinalityInfo, CardinalitySpecialization, SpecializationTarget, TemplateSlotCardinality};
use schema_editor::lineage::{cardinality_lineage, cardinality_text, CardinalityNode, LineageEntry, LineageKind};
use schema_editor::slot_builder::{
    add_selected, final_selected_traits, is_new_slot_save_disabled, plan_new_template_slot, remove_selected,
    slot_bound_from_inputs, unselected_options, NewSlotVariant, SlotBoundKind, SlotVariantKind,
};
use schema_editor::slot_instances::{
    plan_add_slotted_instance, DescendantSlot, ExistingSpecialization, SlotInstanceOp, SlotSpecialization,
    SlottedSlot, UpstreamDescription,
};
use schema_editor::slot_status::{
    downstream_only_count, is_allowed_to_add_another_instance, is_fulfilled, is_maxed, may_slot_instance,
    slot_bound_status, slot_status, SlotBound, SlotStatus,
};
use schema_editor::specialization_section::{
    builder_section, cardinality_restored, exists_downstream_unique_spec, is_locally_owned_spec,
    is_slot_specialization_node_obsolete, plan_delete_specialization, type_builder_target, type_restored, Aspect,
    BuilderSection, OwnedSpecialization, SpecializationDeleteOp, SpecializationSummary, TemplateSlotType,
    TypeSpecialization, TypeUpstream,
};

#[test]
fn fulfilment_and_fullness() {
    let info = CardinalityInfo { min: 2, max: Some(4), zero_allowed: true };
    assert!(is_fulfilled(0, info));
    assert!(!is_fulfilled(2, info));
    assert!(is_fulfilled(3, info));
    assert!(is_maxed(info, 4));
    assert!(!is_maxed(info, 3));
    let unbounded = CardinalityInfo { min: 0, max: None, zero_allowed: false };
    assert!(!is_maxed(unbounded, 0));
    assert!(!is_maxed(unbounded, u32::MAX));
}

#[test]
fn status_of_a_slot() {
    let info = CardinalityInfo { min: 1, max: Some(3), zero_allowed: false };
    assert_eq!(
        slot_status(info, 3, 3),
        SlotStatus { is_fulfilled: true, is_maxed_independently: true, is_maxed_considering_children: true }
    );
    assert_eq!(
        slot_status(info, 1, 2),
        SlotStatus { is_fulfilled: false, is_maxed_independently: false, is_maxed_considering_children: false }
    );
}

#[test]
fn adding_blocked_by_full_downstream() {
    let deepest = vec![
        CardinalityInfo { min: 0, max: Some(5), zero_allowed: true },
        CardinalityInfo { min: 0, max: Some(2), zero_allowed: true },
    ];
    assert!(!is_allowed_to_add_another_instance(true, &deepest, 1));
    assert!(!is_allowed_to_add_another_instance(false, &deepest, 2));
    assert!(is_allowed_to_add_another_instance(false, &deepest, 1));
    assert!(is_allowed_to_add_another_instance(false, &vec![], 7));
}

#[test]
fn count_slotted_below_only() {
    assert_eq!(downstream_only_count(5, 2), Some(3));
    assert_eq!(downstream_only_count(2, 2), Some(0));
    assert_eq!(downstream_only_count(1, 2), None);
}

#[test]
fn bound_status_for_each_bound() {
    assert_eq!(
        slot_bound_status(SlotBound::UpperBound { upper_bound: 2 }, 2, 1),
        SlotStatus { is_fulfilled: true, is_maxed_independently: true, is_maxed_considering_children: false }
    );
    assert_eq!(
        slot_bound_status(SlotBound::RangeOrZero { lower_bound: 2, upper_bound: 3 }, 0, 3),
        SlotStatus { is_fulfilled: true, is_maxed_independently: false, is_maxed_considering_children: true }
    );
    assert_eq!(
        slot_bound_status(SlotBound::LowerBoundOrZero { lower_bound: 2 }, 1, 9),
        SlotStatus { is_fulfilled: false, is_maxed_independently: false, is_maxed_considering_children: false }
    );
    assert_eq!(
        slot_bound_status(SlotBound::Range { lower_bound: 1, upper_bound: 2 }, 1, 2),
        SlotStatus { is_fulfilled: true, is_maxed_independently: false, is_maxed_considering_children: true }
    );
    assert_eq!(
        slot_bound_status(SlotBound::LowerBound { lower_bound: 3 }, 3, 3),
        SlotStatus { is_fulfilled: true, is_maxed_independently: false, is_maxed_considering_children: false }
    );
    assert_eq!(
        slot_bound_status(SlotBound::Single, 1, 1),
        SlotStatus { is_fulfilled: true, is_maxed_independently: true, is_maxed_considering_children: true }
    );
}

#[test]
fn slotting_allowed_only_below_the_upper_bound() {
    let free = SlotStatus { is_fulfilled: true, is_maxed_independently: false, is_maxed_considering_children: false };
    assert!(may_slot_instance(free));
    let full_here = SlotStatus { is_maxed_independently: true, ..free };
    assert!(!may_slot_instance(full_here));
    let full_below = SlotStatus { is_maxed_considering_children: true, ..free };
    assert!(!may_slot_instance(full_below));
    let unbounded = slot_bound_status(SlotBound::LowerBound { lower_bound: 0 }, 1000, 1000);
    assert!(may_slot_instance(unbounded));
}

fn spec_of(id: u128, specializer: u128) -> SlotSpecialization {
    SlotSpecialization {
        id,
        specializer,
        slotted_instances: vec![100, 101],
        type_specializations: vec![200],
        cardinality_specializations: vec![],
    }
}

#[test]
fn slotting_on_own_specialization() {
    let descendants = vec![
        DescendantSlot { operative: 20, specialization: Some(ExistingSpecialization { id: 50, upstream: 7 }) },
        DescendantSlot { operative: 21, specialization: None },
    ];
    let ops = plan_add_slotted_instance(1, 9, 300, true, &Some(spec_of(7, 1)), &descendants);
    assert_eq!(
        ops,
        vec![
            SlotInstanceOp::NewSlottedInstance { fulfiller: 1, instance: 300, slotted_slot: SlottedSlot::Existing(7) },
            SlotInstanceOp::AddInstanceToSpecialization { spec: 7 },
            SlotInstanceOp::AddInstanceToSpecialization { spec: 50 },
            SlotInstanceOp::AddNewSpecialization { operative: 21 },
        ]
    );
}

#[test]
fn slotting_on_inherited_specialization() {
    let descendants = vec![
        DescendantSlot { operative: 20, specialization: Some(ExistingSpecialization { id: 50, upstream: 7 }) },
        DescendantSlot { operative: 21, specialization: Some(ExistingSpecialization { id: 51, upstream: 8 }) },
        DescendantSlot { operative: 22, specialization: None },
    ];
    let ops = plan_add_slotted_instance(1, 9, 300, true, &Some(spec_of(7, 2)), &descendants);
    assert_eq!(
        ops,
        vec![
            SlotInstanceOp::NewSlottedInstance { fulfiller: 1, instance: 300, slotted_slot: SlottedSlot::NewSpecialization },
            SlotInstanceOp::CopySlottedInstance { instance: 100 },
            SlotInstanceOp::CopySlottedInstance { instance: 101 },
            SlotInstanceOp::CopyTypeSpecialization { spec: 200 },
            SlotInstanceOp::RemoveSpecialization { operative: 1, spec: 7 },
            SlotInstanceOp::AddNewSpecialization { operative: 1 },
            SlotInstanceOp::NewSpecialization { specializer: 1, upstream: UpstreamDescription::Specialized(7), root: 9 },
            SlotInstanceOp::Reparent { spec: 50, from: 7 },
            SlotInstanceOp::AddInstanceToSpecialization { spec: 50 },
            SlotInstanceOp::AddInstanceToSpecialization { spec: 51 },
            SlotInstanceOp::RemoveSpecialization { operative: 22, spec: 7 },
            SlotInstanceOp::AddNewSpecialization { operative: 22 },
        ]
    );
}

#[test]
fn slotting_without_specialization() {
    let descendants = vec![DescendantSlot { operative: 20, specialization: None }];
    let ops = plan_add_slotted_instance(1, 9, 300, true, &None, &descendants);
    assert_eq!(
        ops,
        vec![
            SlotInstanceOp::NewSlottedInstance { fulfiller: 1, instance: 300, slotted_slot: SlottedSlot::NewSpecialization },
            SlotInstanceOp::NewSpecialization { specializer: 1, upstream: UpstreamDescription::TemplateSlot(9), root: 9 },
            SlotInstanceOp::AddNewSpecialization { operative: 1 },
            SlotInstanceOp::AddNewSpecialization { operative: 20 },
        ]
    );
}

#[test]
fn slotting_into_full_slot_changes_nothing() {
    let descendants = vec![DescendantSlot { operative: 20, specialization: None }];
    assert!(plan_add_slotted_instance(1, 9, 300, false, &Some(spec_of(7, 1)), &descendants).is_empty());
}

#[test]
fn every_descendant_receives_the_instance() {
    let descendants = vec![
        DescendantSlot { operative: 20, specialization: Some(ExistingSpecialization { id: 50, upstream: 3 }) },
        DescendantSlot { operative: 21, specialization: None },
    ];
    let ops = plan_add_slotted_instance(1, 9, 300, true, &Some(spec_of(7, 2)), &descendants);
    assert!(ops.contains(&SlotInstanceOp::AddInstanceToSpecialization { spec: 50 }));
    assert!(ops.contains(&SlotInstanceOp::AddNewSpecialization { operative: 21 }));
}

#[test]
fn bounds_from_builder_inputs() {
    assert_eq!(slot_bound_from_inputs(SlotBoundKind::UpperBound, 1, 5), SlotBound::UpperBound { upper_bound: 5 });
    assert_eq!(
        slot_bound_from_inputs(SlotBoundKind::RangeOrZero, 1, 5),
        SlotBound::RangeOrZero { lower_bound: 1, upper_bound: 5 }
    );
    assert_eq!(
        slot_bound_from_inputs(SlotBoundKind::LowerBoundOrZero, 1, 5),
        SlotBound::LowerBoundOrZero { lower_bound: 1 }
    );
    assert_eq!(slot_bound_from_inputs(SlotBoundKind::Range, 1, 5), SlotBound::Range { lower_bound: 1, upper_bound: 5 });
    assert_eq!(slot_bound_from_inputs(SlotBoundKind::LowerBound, 1, 5), SlotBound::LowerBound { lower_bound: 1 });
    assert_eq!(slot_bound_from_inputs(SlotBoundKind::Single, 1, 5), SlotBound::Single);
}

#[test]
fn selection_lists() {
    assert_eq!(final_selected_traits(&vec![1, 2, 3], &vec![3, 1]), vec![1, 3]);
    assert_eq!(unselected_options(&vec![1, 2, 3, 4], &vec![2, 4]), vec![1, 3]);
    let mut list = vec![1, 2];
    add_selected(&mut list, Some(5));
    add_selected(&mut list, None);
    assert_eq!(list, vec![1, 2, 5]);
    let mut list = vec![1, 2, 1, 3];
    remove_selected(&mut list, 1);
    assert_eq!(list, vec![2, 3]);
}

#[test]
fn new_slot_save_disabled() {
    assert!(is_new_slot_save_disabled(SlotVariantKind::TraitOperative, &vec![], None, &vec![]));
    assert!(!is_new_slot_save_disabled(SlotVariantKind::TraitOperative, &vec![4], None, &vec![]));
    assert!(is_new_slot_save_disabled(SlotVariantKind::SingleOperative, &vec![], None, &vec![]));
    assert!(!is_new_slot_save_disabled(SlotVariantKind::SingleOperative, &vec![], Some(3), &vec![]));
    assert!(is_new_slot_save_disabled(SlotVariantKind::MultiOperative, &vec![], None, &vec![1]));
    assert!(!is_new_slot_save_disabled(SlotVariantKind::MultiOperative, &vec![], None, &vec![1, 2]));
}

#[test]
fn new_template_slot_plans() {
    let slot = plan_new_template_slot(
        "items".to_string(),
        SlotVariantKind::TraitOperative,
        SlotBoundKind::Range,
        1,
        3,
        vec![8],
        None,
        vec![],
    )
    .unwrap();
    assert_eq!(slot.name, "items");
    assert_eq!(slot.bound, SlotBound::Range { lower_bound: 1, upper_bound: 3 });
    assert!(matches!(slot.variant, NewSlotVariant::TraitOperative(ref t) if *t == vec![8]));
    assert!(plan_new_template_slot(
        "x".to_string(),
        SlotVariantKind::TraitOperative,
        SlotBoundKind::Single,
        0,
        0,
        vec![],
        None,
        vec![]
    )
    .is_none());
    assert!(plan_new_template_slot(
        "x".to_string(),
        SlotVariantKind::SingleOperative,
        SlotBoundKind::Single,
        0,
        0,
        vec![],
        None,
        vec![]
    )
    .is_none());
    let single = plan_new_template_slot(
        "x".to_string(),
        SlotVariantKind::SingleOperative,
        SlotBoundKind::Single,
        0,
        0,
        vec![],
        Some(4),
        vec![],
    )
    .unwrap();
    assert!(matches!(single.variant, NewSlotVariant::SingleOperative(4)));
    let multi = plan_new_template_slot(
        "x".to_string(),
        SlotVariantKind::MultiOperative,
        SlotBoundKind::LowerBound,
        2,
        0,
        vec![],
        None,
        vec![5, 6],
    )
    .unwrap();
    assert!(matches!(multi.variant, NewSlotVariant::MultiOperative(ref m) if *m == vec![5, 6]));
    assert_eq!(multi.bound, SlotBound::LowerBound { lower_bound: 2 });
}

#[test]
fn locally_owned_specialization() {
    assert!(is_locally_owned_spec(Some(4), 4));
    assert!(!is_locally_owned_spec(Some(5), 4));
    assert!(!is_locally_owned_spec(None, 4));
}

#[test]
fn downstream_unique_specializations() {
    let this_spec = SpecializationSummary { id: 1, specializer: 10, first: Some(70) };
    let same = SpecializationSummary { id: 2, specializer: 11, first: Some(70) };
    let other = SpecializationSummary { id: 3, specializer: 12, first: Some(71) };
    let mine = SpecializationSummary { id: 4, specializer: 10, first: Some(72) };
    let empty = SpecializationSummary { id: 5, specializer: 13, first: None };
    assert!(!exists_downstream_unique_spec(Some(this_spec), &vec![same, mine, empty]));
    assert!(exists_downstream_unique_spec(Some(this_spec), &vec![same, other]));
    assert!(!exists_downstream_unique_spec(None, &vec![empty]));
    assert!(exists_downstream_unique_spec(None, &vec![empty, same]));
    let bare = SpecializationSummary { id: 1, specializer: 10, first: None };
    assert!(exists_downstream_unique_spec(Some(bare), &vec![same]));
}

#[test]
fn builder_section_decisions() {
    let template = TemplateSlotCardinality::RangeOrZero { lower_bound: 0, upper_bound: 3 };
    assert_eq!(builder_section(true, false, None, template), BuilderSection::Hidden);
    assert_eq!(builder_section(false, true, None, template), BuilderSection::Hidden);
    assert_eq!(
        builder_section(false, false, None, template),
        BuilderSection::Builder(SpecializationTarget::TemplateRangeOrZero { lower_bound: 0, upper_bound: 3 })
    );
    assert_eq!(builder_section(false, false, Some(CardinalitySpecialization::Single), template), BuilderSection::Leaf);
    assert_eq!(builder_section(false, false, None, TemplateSlotCardinality::Single), BuilderSection::Leaf);
}

#[test]
fn type_builder_targets() {
    assert_eq!(type_builder_target(true, false, None, TemplateSlotType::TraitOperative(3)), None);
    assert_eq!(
        type_builder_target(false, false, None, TemplateSlotType::MultiOperative(3)),
        Some(TypeUpstream::TemplateMultiOperative(3))
    );
    assert_eq!(
        type_builder_target(false, false, Some(TypeSpecialization::Single(8)), TemplateSlotType::MultiOperative(3)),
        Some(TypeUpstream::SingleSpecialization(8))
    );
}

#[test]
fn obsolete_specialization_nodes() {
    let cards = vec![OwnedSpecialization { id: 30, specialized_slot: 9 }];
    let types = vec![OwnedSpecialization { id: 40, specialized_slot: 9 }];
    assert!(is_slot_specialization_node_obsolete(9, &vec![], &vec![], &cards, Aspect::Cardinality, 30));
    assert!(!is_slot_specialization_node_obsolete(9, &vec![], &types, &cards, Aspect::Cardinality, 30));
    assert!(is_slot_specialization_node_obsolete(9, &vec![], &types, &vec![], Aspect::Type, 40));
    assert!(!is_slot_specialization_node_obsolete(9, &vec![9], &vec![], &vec![], Aspect::Type, 40));
    assert!(is_slot_specialization_node_obsolete(9, &vec![8], &vec![], &vec![OwnedSpecialization { id: 31, specialized_slot: 8 }], Aspect::Cardinality, 30));
}

#[test]
fn restored_specializations() {
    assert_eq!(type_restored(TypeUpstream::MultiSpecialization(5)), Some(5));
    assert_eq!(type_restored(TypeUpstream::TemplateSingleOperative(5)), None);
    assert_eq!(cardinality_restored(SpecializationTarget::SpecializedRange { lower_bound: 1, upper_bound: 2 }, 6), Some(6));
    assert_eq!(cardinality_restored(SpecializationTarget::TemplateRange { lower_bound: 1, upper_bound: 2 }, 6), None);
}

#[test]
fn delete_plan_restores_upstream_in_every_specialization() {
    let specs = vec![
        SpecializationSummary { id: 1, specializer: 10, first: Some(70) },
        SpecializationSummary { id: 2, specializer: 11, first: None },
        SpecializationSummary { id: 1, specializer: 10, first: Some(70) },
    ];
    let ops = plan_delete_specialization(Some(1), Aspect::Cardinality, 70, Some(60), &specs);
    assert_eq!(
        ops,
        vec![
            SpecializationDeleteOp::RemoveSpecializationNode { node: 1 },
            SpecializationDeleteOp::DeleteSpecialization { aspect: Aspect::Cardinality, id: 70 },
            SpecializationDeleteOp::RemoveFromSpecialization { aspect: Aspect::Cardinality, spec: 1, item: 70 },
            SpecializationDeleteOp::AddToSpecialization { aspect: Aspect::Cardinality, spec: 1, item: 60 },
            SpecializationDeleteOp::AddToSpecialization { aspect: Aspect::Cardinality, spec: 2, item: 60 },
        ]
    );
}

#[test]
fn delete_plan_without_upstream_specialization() {
    let specs = vec![SpecializationSummary { id: 3, specializer: 10, first: Some(80) }];
    let ops = plan_delete_specialization(None, Aspect::Type, 80, None, &specs);
    assert_eq!(
        ops,
        vec![
            SpecializationDeleteOp::DeleteSpecialization { aspect: Aspect::Type, id: 80 },
            SpecializationDeleteOp::RemoveFromSpecialization { aspect: Aspect::Type, spec: 3, item: 80 },
        ]
    );
    assert!(!ops.iter().any(|op| matches!(op, SpecializationDeleteOp::AddToSpecialization { .. })));
}

#[test]
fn lineage_of_a_range_specialization() {
    let nodes = vec![
        CardinalityNode {
            kind: LineageKind::Refinable(SpecializationTarget::TemplateRangeOrZero { lower_bound: 0, upper_bound: 9 }),
            upstream: None,
        },
        CardinalityNode {
            kind: LineageKind::Refinable(SpecializationTarget::SpecializedRange { lower_bound: 1, upper_bound: 5 }),
            upstream: Some(0),
        },
        CardinalityNode { kind: LineageKind::Single, upstream: Some(1) },
    ];
    assert_eq!(
        cardinality_lineage(&nodes, 1),
        vec![
            LineageEntry::Step {
                target: SpecializationTarget::TemplateRangeOrZero { lower_bound: 0, upper_bound: 9 },
                arrow: true,
            },
            LineageEntry::Step {
                target: SpecializationTarget::SpecializedRange { lower_bound: 1, upper_bound: 5 },
                arrow: false,
            },
        ]
    );
    assert_eq!(
        cardinality_lineage(&nodes, 2),
        vec![
            LineageEntry::Step {
                target: SpecializationTarget::TemplateRangeOrZero { lower_bound: 0, upper_bound: 9 },
                arrow: true,
            },
            LineageEntry::Step {
                target: SpecializationTarget::SpecializedRange { lower_bound: 1, upper_bound: 5 },
                arrow: true,
            },
            LineageEntry::FinalSingle,
        ]
    );
    assert_eq!(
        cardinality_lineage(&nodes, 0),
        vec![LineageEntry::Step {
            target: SpecializationTarget::TemplateRangeOrZero { lower_bound: 0, upper_bound: 9 },
            arrow: false,
        }]
    );
}

#[test]
fn cardinality_texts() {
    assert_eq!(
        cardinality_text(TemplateSlotCardinality::RangeOrZero { lower_bound: 2, upper_bound: 15 }),
        "Lower Bound: 2, Upper Bound: 15"
    );
    assert_eq!(cardinality_text(TemplateSlotCardinality::LowerBound { lower_bound: 0 }), "Lower Bound: 0");
    assert_eq!(cardinality_text(TemplateSlotCardinality::Single), "Exactly 1");
}

#[test]
fn cardinality_texts_write_numbers_as_decimal() {
    for v in [0u32, 9, 10, 99, 100, 4294967295] {
        assert_eq!(
            cardinality_text(TemplateSlotCardinality::LowerBound { lower_bound: v }),
            format!("Lower Bound: {}", v)
        );
    }
}

#[test]
fn selected_list_never_holds_an_option_twice() {
    let options = vec![1, 2, 3, 4];
    let mut list: Vec<u128> = vec![];
    for pick in [Some(3), None, Some(1), Some(4)] {
        let offered = unselected_options(&options, &list);
        if let Some(x) = pick {
            assert!(offered.contains(&x));
        }
        add_selected(&mut list, pick);
    }
    assert_eq!(list, vec![3, 1, 4]);
    assert_eq!(unselected_options(&options, &list), vec![2]);
    remove_selected(&mut list, 1);
    assert_eq!(list, vec![3, 4]);
    let mut sorted = list.clone();
    sorted.sort();
    sorted.dedup();
    assert_eq!(sorted.len(), list.len());
}
