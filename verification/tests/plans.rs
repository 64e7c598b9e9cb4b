use schema_editor::cardinality::CardinalitySpecialization;
use schema_editor::cardinality_builder::CardinalitySaveDecision;
use schema_editor::cardinality_plan::{
    plan_cardinality_specialization, CardinalityHolder, CardinalityPlanOp, HeldSpecialization,
};
use schema_editor::operative_plan::{
    plan_derivative_operative, plan_lock_field, DerivativeOp, FieldKind, FieldValue, LockFieldOp,
};
use schema_editor::operative_tree::{LockedField, OperativeForest, OperativeNode};
use schema_editor::slot_instances::{SlotSpecialization, SlottedSlot, UpstreamDescription};

const SPEC: CardinalitySpecialization = CardinalitySpecialization::Range { lower_bound: 1, upper_bound: 2 };

fn holder(operative: u128, spec: Option<(u128, Option<u128>)>) -> CardinalityHolder {
    CardinalityHolder {
        operative,
        specialization: spec.map(|(id, cardinality)| HeldSpecialization { id, cardinality }),
    }
}

#[test]
fn refused_cardinality_save_changes_nothing() {
    let ops = plan_cardinality_specialization(
        1,
        50,
        70,
        CardinalitySaveDecision::OutsidePreviousBounds,
        &None,
        &vec![holder(1, None)],
    );
    assert!(ops.is_empty());
}

#[test]
fn cardinality_save_on_a_bare_template_slot() {
    let holders = vec![holder(1, None), holder(2, Some((90, Some(91)))), holder(3, Some((92, None)))];
    let ops = plan_cardinality_specialization(1, 50, 70, CardinalitySaveDecision::Create(SPEC), &None, &holders);
    assert_eq!(
        ops,
        vec![
            CardinalityPlanOp::NewSlotSpecialization {
                specializer: 1,
                upstream: UpstreamDescription::TemplateSlot(50),
                root: 50
            },
            CardinalityPlanOp::AddNewSlotSpecialization { operative: 1 },
            CardinalityPlanOp::NewCardinalitySpecialization {
                spec: SPEC,
                upstream: 70,
                holder: SlottedSlot::NewSpecialization
            },
            CardinalityPlanOp::AttachNewCardinality { holder: SlottedSlot::NewSpecialization },
            CardinalityPlanOp::AddNewSlotSpecialization { operative: 1 },
            CardinalityPlanOp::DetachCardinality { slot_spec: 90, cardinality: 91 },
            CardinalityPlanOp::AttachNewCardinality { holder: SlottedSlot::Existing(90) },
            CardinalityPlanOp::AttachNewCardinality { holder: SlottedSlot::Existing(92) },
        ]
    );
}

#[test]
fn cardinality_save_on_own_slot_specialization() {
    let own = SlotSpecialization {
        id: 80,
        specializer: 1,
        slotted_instances: vec![5],
        type_specializations: vec![],
        cardinality_specializations: vec![81],
    };
    let holders = vec![holder(1, Some((80, Some(81))))];
    let ops = plan_cardinality_specialization(1, 50, 70, CardinalitySaveDecision::Create(SPEC), &Some(own), &holders);
    assert_eq!(
        ops,
        vec![
            CardinalityPlanOp::NewCardinalitySpecialization {
                spec: SPEC,
                upstream: 70,
                holder: SlottedSlot::Existing(80)
            },
            CardinalityPlanOp::AttachNewCardinality { holder: SlottedSlot::Existing(80) },
            CardinalityPlanOp::DetachCardinality { slot_spec: 80, cardinality: 81 },
            CardinalityPlanOp::AttachNewCardinality { holder: SlottedSlot::Existing(80) },
        ]
    );
}

#[test]
fn cardinality_save_replacing_an_inherited_slot_specialization() {
    let inherited = SlotSpecialization {
        id: 80,
        specializer: 9,
        slotted_instances: vec![5, 6],
        type_specializations: vec![7],
        cardinality_specializations: vec![81],
    };
    let holders = vec![holder(1, Some((80, Some(81)))), holder(2, Some((95, None))), holder(3, None)];
    let ops =
        plan_cardinality_specialization(1, 50, 70, CardinalitySaveDecision::Create(SPEC), &Some(inherited), &holders);
    assert_eq!(
        ops,
        vec![
            CardinalityPlanOp::RemoveSlotSpecialization { operative: 1, spec: 80 },
            CardinalityPlanOp::NewSlotSpecialization {
                specializer: 1,
                upstream: UpstreamDescription::Specialized(80),
                root: 50
            },
            CardinalityPlanOp::CopySlottedInstance { instance: 5 },
            CardinalityPlanOp::CopySlottedInstance { instance: 6 },
            CardinalityPlanOp::CopyTypeSpecialization { spec: 7 },
            CardinalityPlanOp::AddNewSlotSpecialization { operative: 1 },
            CardinalityPlanOp::NewCardinalitySpecialization {
                spec: SPEC,
                upstream: 70,
                holder: SlottedSlot::NewSpecialization
            },
            CardinalityPlanOp::AttachNewCardinality { holder: SlottedSlot::NewSpecialization },
            CardinalityPlanOp::RemoveSlotSpecialization { operative: 1, spec: 80 },
            CardinalityPlanOp::AddNewSlotSpecialization { operative: 1 },
            CardinalityPlanOp::Reparent { spec: 95, from: 80 },
            CardinalityPlanOp::AttachNewCardinality { holder: SlottedSlot::Existing(95) },
            CardinalityPlanOp::AddNewSlotSpecialization { operative: 3 },
        ]
    );
}

fn node(id: u128, parent: Option<usize>, children: Vec<usize>) -> OperativeNode {
    OperativeNode {
        id,
        parent,
        children,
        locked_fields: vec![],
        slotted_instance_slots: vec![],
        method_impls: vec![],
        trait_impls: vec![],
    }
}

/// 100 has children 101 and 103; 101 has child 102.
fn forest() -> OperativeForest {
    OperativeForest {
        nodes: vec![
            node(100, None, vec![1, 3]),
            node(101, Some(0), vec![2]),
            node(102, Some(1), vec![]),
            node(103, Some(0), vec![]),
        ],
    }
}

fn describe(ops: &[LockFieldOp]) -> Vec<String> {
    ops.iter()
        .map(|o| match o {
            LockFieldOp::NewLockedField { kind, value, fulfiller, constraint } => {
                let v = match value {
                    FieldValue::Text(s) => format!("text {:?}", s),
                    FieldValue::Bool(b) => format!("bool {}", b),
                    FieldValue::Int(i) => format!("int {}", i),
                };
                format!("new {:?} {} by {} for {}", kind, v, fulfiller, constraint)
            },
            LockFieldOp::AddLockedField { operative } => format!("add {}", operative),
        })
        .collect()
}

#[test]
fn locking_a_field_reaches_all_descendants() {
    let f = forest();
    let ops = plan_lock_field(&f, 0, 900, FieldKind::Text);
    assert_eq!(
        describe(&ops),
        vec!["new Text text \"\" by 100 for 900", "add 101", "add 102", "add 103"]
    );
    let ops = plan_lock_field(&f, 1, 901, FieldKind::Bool);
    assert_eq!(describe(&ops), vec!["new Bool bool true by 101 for 901", "add 102"]);
    let ops = plan_lock_field(&f, 3, 902, FieldKind::Int);
    assert_eq!(describe(&ops), vec!["new Int int 0 by 103 for 902"]);
}

#[test]
fn derivative_carries_parent_locks() {
    let locked = vec![
        LockedField { id: 7, constraint: 70, fulfiller: 1 },
        LockedField { id: 8, constraint: 80, fulfiller: 0 },
    ];
    let ops = plan_derivative_operative("Child".to_string(), 1, 2, &locked);
    let got: Vec<String> = ops
        .iter()
        .map(|o| match o {
            DerivativeOp::NewOperative { name, root_template, parent } => {
                format!("new {} of {} under {}", name, root_template, parent)
            },
            DerivativeOp::AddChild { parent } => format!("child of {}", parent),
            DerivativeOp::CarryLockedField { field } => format!("lock {}", field),
        })
        .collect();
    assert_eq!(got, vec!["new Child of 2 under 1", "child of 1", "lock 7", "lock 8"]);
    let ops = plan_derivative_operative("Bare".to_string(), 1, 2, &vec![]);
    assert_eq!(ops.len(), 2);
}
