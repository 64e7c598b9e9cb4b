use schema_editor::implementations::{
    default_trait_impl_name, is_add_method_implementation_disabled, is_trait_fulfilled, method_impl_options,
    plan_trait_implementation,
};
use schema_editor::operative_tree::{
    ancestors_with_impls, gather_all_downstream_slotted_instances, implementable_functions, operative_lineage,
    partition_locked_fields, partition_unlocked_fields, recurse_add_locked_field, recursive_search_for_locked_field,
    slotted_count, unimplemented_traits, FunctionSignature, ImplKind, LockedField, MethodImplRef, OperativeForest,
    OperativeNode,
};
use schema_editor::workspace_list::{create_new_item, is_active_list_item, NewListItem, WorkspaceTab};

fn node(id: u128, parent: Option<usize>, children: Vec<usize>) -> OperativeNode {
    OperativeNode {
        id,
        parent,
        children,
        locked_fields: vec![],
        slotted_instance_slots: vec![],
        method_impls: vec![],
        trait_impls: vec![],
    }
}

/// 0 is the root; 1 and 2 are its children; 3 is a child of 1.
fn sample_forest() -> OperativeForest {
    let mut n0 = node(100, None, vec![1, 2]);
    n0.locked_fields = vec![LockedField { id: 1, constraint: 50, fulfiller: 100 }];
    n0.slotted_instance_slots = vec![7];
    n0.method_impls = vec![MethodImplRef { id: 900, definition: 80 }];
    n0.trait_impls = vec![60];
    let mut n1 = node(101, Some(0), vec![3]);
    n1.locked_fields = vec![
        LockedField { id: 1, constraint: 50, fulfiller: 100 },
        LockedField { id: 2, constraint: 51, fulfiller: 101 },
    ];
    n1.slotted_instance_slots = vec![7, 7, 8];
    let mut n2 = node(102, Some(0), vec![]);
    n2.slotted_instance_slots = vec![7];
    let mut n3 = node(103, Some(1), vec![]);
    n3.locked_fields = vec![LockedField { id: 3, constraint: 52, fulfiller: 103 }];
    n3.slotted_instance_slots = vec![7, 7, 7, 7];
    n3.method_impls = vec![MethodImplRef { id: 903, definition: 81 }, MethodImplRef { id: 904, definition: 80 }];
    OperativeForest { nodes: vec![n0, n1, n2, n3] }
}

#[test]
fn locked_field_search_below_children() {
    let f = sample_forest();
    assert!(recursive_search_for_locked_field(&f, &vec![1, 2], 52));
    assert!(recursive_search_for_locked_field(&f, &vec![1], 51));
    assert!(!recursive_search_for_locked_field(&f, &vec![2], 52));
    assert!(!recursive_search_for_locked_field(&f, &vec![], 50));
}

#[test]
fn slotted_counts() {
    let f = sample_forest();
    assert_eq!(slotted_count(&f, 1, 7), 2);
    assert_eq!(slotted_count(&f, 3, 7), 4);
    assert_eq!(slotted_count(&f, 2, 8), 0);
}

#[test]
fn fullest_descendant_count() {
    let f = sample_forest();
    assert_eq!(gather_all_downstream_slotted_instances(&f, &vec![1, 2], 7, 0), 4);
    assert_eq!(gather_all_downstream_slotted_instances(&f, &vec![2], 7, 0), 1);
    assert_eq!(gather_all_downstream_slotted_instances(&f, &vec![2], 7, 9), 9);
    assert_eq!(gather_all_downstream_slotted_instances(&f, &vec![], 7, 3), 3);
}

#[test]
fn operatives_taking_over_a_locked_field() {
    let f = sample_forest();
    assert_eq!(recurse_add_locked_field(&f, &vec![1, 2]), vec![1, 3, 2]);
    assert_eq!(recurse_add_locked_field(&f, &vec![0]), vec![0, 1, 3, 2]);
    assert!(recurse_add_locked_field(&f, &vec![]).is_empty());
}

#[test]
fn ancestors_with_implementations() {
    let f = sample_forest();
    assert_eq!(ancestors_with_impls(&f, 3, ImplKind::Method), vec![0]);
    assert_eq!(ancestors_with_impls(&f, 3, ImplKind::Trait), vec![0]);
    assert!(ancestors_with_impls(&f, 0, ImplKind::Method).is_empty());
    assert!(ancestors_with_impls(&f, 2, ImplKind::Method) == vec![0]);
}

#[test]
fn unlocked_fields_split_by_descendants() {
    let f = sample_forest();
    let (dependent, independent) = partition_unlocked_fields(&f, 0, &vec![50, 51, 52, 53]);
    assert_eq!(dependent, vec![51, 52]);
    assert_eq!(independent, vec![53]);
}

#[test]
fn locked_fields_split_by_owner() {
    let f = sample_forest();
    let (owned, inherited) = partition_locked_fields(&f, 1);
    assert_eq!(owned, vec![LockedField { id: 2, constraint: 51, fulfiller: 101 }]);
    assert_eq!(inherited, vec![LockedField { id: 1, constraint: 50, fulfiller: 100 }]);
}

#[test]
fn functions_still_implementable() {
    let f = sample_forest();
    let fns = vec![
        FunctionSignature { id: 80, takes_self: true },
        FunctionSignature { id: 81, takes_self: true },
        FunctionSignature { id: 82, takes_self: false },
        FunctionSignature { id: 83, takes_self: true },
    ];
    assert_eq!(
        implementable_functions(&f, 0, &fns),
        vec![FunctionSignature { id: 81, takes_self: true }, FunctionSignature { id: 83, takes_self: true }]
    );
}

#[test]
fn traits_not_yet_implemented() {
    let f = sample_forest();
    assert_eq!(unimplemented_traits(&f, 0, &vec![60, 61, 62]), vec![61, 62]);
    assert_eq!(unimplemented_traits(&f, 1, &vec![60, 61]), vec![60, 61]);
}

#[test]
fn lineage_from_topmost_ancestor() {
    let f = sample_forest();
    assert_eq!(operative_lineage(&f, 3), vec![0, 1, 3]);
    assert_eq!(operative_lineage(&f, 0), vec![0]);
    assert_eq!(operative_lineage(&f, 2), vec![0, 2]);
}

#[test]
fn method_implementation_options_local_first() {
    let f = sample_forest();
    assert_eq!(method_impl_options(&f, 3, 80), vec![904, 900]);
    assert_eq!(method_impl_options(&f, 3, 81), vec![903]);
    assert_eq!(method_impl_options(&f, 2, 80), vec![900]);
    assert!(method_impl_options(&f, 2, 81).is_empty());
}

#[test]
fn trait_fulfilment_and_plan() {
    assert!(is_trait_fulfilled(&vec![Some(1), Some(2)]));
    assert!(!is_trait_fulfilled(&vec![Some(1), None]));
    assert!(is_trait_fulfilled(&vec![]));
    let plan = plan_trait_implementation("Impl".to_string(), "doc".to_string(), 60, 103, &vec![Some(904), Some(903)])
        .unwrap();
    assert_eq!(plan.name, "Impl");
    assert_eq!(plan.documentation, "doc");
    assert_eq!(plan.trait_definition, 60);
    assert_eq!(plan.implementing_operative, 103);
    assert_eq!(plan.method_impls, vec![904, 903]);
    assert!(plan_trait_implementation("Impl".to_string(), String::new(), 60, 103, &vec![None]).is_none());
}

#[test]
fn trait_implementation_default_name() {
    assert_eq!(default_trait_impl_name("Robot", "Walker"), "RobotWalker");
}

#[test]
fn add_method_implementation_button() {
    assert!(is_add_method_implementation_disabled(None, &vec![1]));
    assert!(is_add_method_implementation_disabled(Some(1), &vec![1, 2]));
    assert!(!is_add_method_implementation_disabled(Some(3), &vec![1, 2]));
}

#[test]
fn main_list_tabs() {
    assert_eq!(create_new_item(WorkspaceTab::Template), Some(NewListItem::Template));
    assert_eq!(create_new_item(WorkspaceTab::Trait), Some(NewListItem::Trait));
    assert_eq!(create_new_item(WorkspaceTab::Operative), None);
    assert_eq!(create_new_item(WorkspaceTab::Instance), None);
    assert!(is_active_list_item(Some(4), 4));
    assert!(!is_active_list_item(Some(4), 5));
    assert!(!is_active_list_item(None, 5));
}
