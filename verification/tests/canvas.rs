use schema_editor::canvas::{
    find_downstream_steps, find_upstream_steps, get_slot_name_from_id, is_impl_step_template_id, is_step_input_slot,
    is_step_output_slot, str_contains, str_eq, CanvasConnection, CanvasField, CanvasGraph, CanvasNode,
    CanvasSchemaIds, CanvasSlot, CanvasSlotTemplate, DataTypeKind,
};
use schema_editor::canvas::{check_step_slots_resolve, find_downstream_steps_checked, find_upstream_steps_checked};
use schema_editor::canvas_plan::{
    build_schemaful_representation_checked, build_schemaful_representation_of_graph, check_canvas_buildable, find_node,
    step_kind_lookup, PlanOp,
};
use schema_editor::canvas_templates::{
    connection_bounds, constraint_template_to_canvas_template, rgso_operative_to_canvas_template,
    rgso_trait_to_canvas_template, ConstraintField, ConstraintSlot, FieldType, LibraryOperative, NamedItem,
    PrimitiveType,
};
use schema_editor::function_io::{
    into_most_generic, is_save_disabled, plan_new_function_input, plan_new_function_output, InputOutputOptions, IoOp,
};
use schema_editor::impl_model::{BinaryOp, StepKind};
use schema_editor::schema_canvas::{
    create_functioninput_complex, create_functionoutput_complex, generate_function_input_and_mapstep_complex,
    generate_function_output_and_mapstep_complex, generate_impldata_complex, generate_impldatavariant_complex,
    map_input_types_to_impldatavariant, map_output_types_to_impldatavariant, DataNodeSchema, FunctionInputSchema,
    FunctionInputType, FunctionOutputSchema, ImplDataType, InitialNode, StepTemplates,
};
use schema_editor::slot_status::SlotBound;

fn text(v: u128) -> String {
    uuid::Uuid::from_u128(v).to_string()
}

fn ids() -> CanvasSchemaIds {
    CanvasSchemaIds {
        function_input: 1,
        function_output: 2,
        impl_data: 3,
        map_to_output: 4,
        map_from_input: 5,
        steps: vec![(StepKind::Binary(BinaryOp::MathAdd), 80), (StepKind::BitNot, 85)],
        data_types: vec![(DataTypeKind::Int, 71), (DataTypeKind::ManualInt, 72)],
        map_to_output_input_slot: 54,
        map_to_output_output_slot: 55,
        map_from_input_input_slot: 52,
        map_from_input_output_slot: 53,
        data_type_slot: 60,
        collection_type_slot: 61,
        allowed_operative_slot: 62,
        allowed_operatives_slot: 63,
        required_traits_slot: 64,
        manual_bool_value_field: 90,
        manual_int_value_field: 91,
        manual_string_value_field: 92,
    }
}

fn slot(template: u128, targets: &[&str]) -> CanvasSlot {
    CanvasSlot {
        slot_template_id: text(template),
        connections: targets.iter().map(|t| CanvasConnection { target_node_id: t.to_string() }).collect(),
    }
}

fn slot_template(id: u128, name: &str) -> CanvasSlotTemplate {
    CanvasSlotTemplate { id: text(id), name: name.to_string() }
}

fn canvas_node(instance: &str, template: u128, slots: Vec<CanvasSlot>, templates: Vec<CanvasSlotTemplate>) -> CanvasNode {
    CanvasNode {
        instance_id: instance.to_string(),
        template_id: text(template),
        slots,
        fields: vec![],
        slot_templates: templates,
    }
}

/// Input 500 mapped to d1 (an integer), which step s1 adds to itself into d2
/// (an integer set to 42), mapped out to output 600.
fn graph() -> CanvasGraph {
    let fi_text = text(500);
    let fo_text = text(600);
    let mut t2 = canvas_node("t2", 72, vec![], vec![]);
    t2.fields = vec![CanvasField { field_template_id: text(91), value: "42".to_string() }];
    CanvasGraph {
        nodes: vec![
            canvas_node(&fi_text, 1, vec![], vec![]),
            canvas_node(
                "mfi",
                5,
                vec![slot(52, &[&fi_text]), slot(53, &["d1"])],
                vec![slot_template(52, "Input"), slot_template(53, "Output")],
            ),
            canvas_node("d1", 3, vec![slot(60, &["t1"])], vec![slot_template(60, "DataType")]),
            canvas_node("t1", 71, vec![], vec![]),
            canvas_node(
                "s1",
                80,
                vec![slot(81, &["d1"]), slot(82, &["d1"]), slot(83, &["d2"])],
                vec![slot_template(81, "ArgumentOne"), slot_template(82, "ArgumentTwo"), slot_template(83, "OutputInt")],
            ),
            canvas_node("d2", 3, vec![slot(60, &["t2"])], vec![slot_template(60, "DataType")]),
            t2,
            canvas_node(
                "mto",
                4,
                vec![slot(54, &["d2"]), slot(55, &[&fo_text])],
                vec![slot_template(54, "Input"), slot_template(55, "Output")],
            ),
            canvas_node(&fo_text, 2, vec![], vec![]),
        ],
    }
}

#[test]
fn text_search() {
    assert!(str_contains("OutputInt", "Output"));
    assert!(!str_contains("Input", "Output"));
    assert!(str_contains("abc", ""));
    assert!(str_eq("abc", "abc"));
    assert!(!str_eq("abc", "abd"));
}

#[test]
fn step_templates_recognised() {
    let ids = ids();
    assert!(is_impl_step_template_id(&text(80), &ids));
    assert!(is_impl_step_template_id(&text(4), &ids));
    assert!(is_impl_step_template_id(&text(5), &ids));
    assert!(!is_impl_step_template_id(&text(3), &ids));
    assert!(!is_impl_step_template_id("not-a-template", &ids));
}

#[test]
fn slot_names_and_directions() {
    let g = graph();
    let s1 = &g.nodes[4];
    assert_eq!(get_slot_name_from_id(&text(83), s1), "OutputInt");
    assert!(is_step_output_slot(&s1.slots[2], s1));
    assert!(!is_step_output_slot(&s1.slots[0], s1));
    assert!(is_step_input_slot(&s1.slots[0], s1));
    assert!(!is_step_input_slot(&s1.slots[2], s1));
    let filter = canvas_node(
        "f",
        85,
        vec![slot(86, &["x"]), slot(87, &["y"])],
        vec![slot_template(86, "IterationStartItem"), slot_template(87, "InputCollection")],
    );
    assert!(!is_step_input_slot(&filter.slots[0], &filter));
    assert!(is_step_input_slot(&filter.slots[1], &filter));
}

#[test]
fn steps_linked_to_data_nodes() {
    let g = graph();
    let ids = ids();
    assert_eq!(find_upstream_steps("d1", &g, &ids), vec![("mfi".to_string(), text(5))]);
    assert_eq!(
        find_downstream_steps("d1", &g, &ids),
        vec![("s1".to_string(), text(80)), ("s1".to_string(), text(80))]
    );
    assert_eq!(find_upstream_steps("d2", &g, &ids), vec![("s1".to_string(), text(80))]);
    assert_eq!(find_downstream_steps("d2", &g, &ids), vec![("mto".to_string(), text(4))]);
}

#[test]
fn lookups_by_identifier() {
    let g = graph();
    assert_eq!(find_node(&g, "d2"), Some(5));
    assert_eq!(find_node(&g, "missing"), None);
    let ids = ids();
    assert_eq!(step_kind_lookup(&ids, &text(80)), Some(StepKind::Binary(BinaryOp::MathAdd)));
    assert_eq!(step_kind_lookup(&ids, &text(5)), Some(StepKind::MapFromInput));
    assert_eq!(step_kind_lookup(&ids, &text(71)), None);
}

#[test]
fn plan_for_a_small_canvas() {
    let g = graph();
    let ops = build_schemaful_representation_of_graph(&g, &ids(), 700, 701, &vec![500], &vec![600], "impl".to_string());
    let expected = vec![
        PlanOp::NewImplementation { definition: 700, implementor: 701, name: "impl".to_string() },
        PlanOp::MapFromInput { terminal: "mfi".to_string(), input: 500, data: "d1".to_string() },
        PlanOp::MapToOutput { terminal: "mto".to_string(), output: 600, data: "d2".to_string() },
        PlanOp::Step {
            kind: StepKind::Binary(BinaryOp::MathAdd),
            step: "s1".to_string(),
            slots: vec![
                ("ArgumentOne".to_string(), "d1".to_string()),
                ("ArgumentTwo".to_string(), "d1".to_string()),
                ("OutputInt".to_string(), "d2".to_string()),
            ],
        },
        PlanOp::DataType { data: "d1".to_string(), kind: DataTypeKind::Int, data_type: "t1".to_string() },
        PlanOp::PlainType { node: "t1".to_string(), kind: DataTypeKind::Int },
        PlanOp::Upstream { data: "d1".to_string(), kind: StepKind::MapFromInput, step: "mfi".to_string() },
        PlanOp::Downstream { data: "d1".to_string(), kind: StepKind::Binary(BinaryOp::MathAdd), step: "s1".to_string() },
        PlanOp::Downstream { data: "d1".to_string(), kind: StepKind::Binary(BinaryOp::MathAdd), step: "s1".to_string() },
        PlanOp::DataType { data: "d2".to_string(), kind: DataTypeKind::ManualInt, data_type: "t2".to_string() },
        PlanOp::ManualInt { node: "t2".to_string(), value: 42 },
        PlanOp::Upstream { data: "d2".to_string(), kind: StepKind::Binary(BinaryOp::MathAdd), step: "s1".to_string() },
        PlanOp::Downstream { data: "d2".to_string(), kind: StepKind::MapToOutput, step: "mto".to_string() },
    ];
    assert_eq!(format!("{:?}", ops), format!("{:?}", expected));
}

#[test]
fn step_templates_offered_by_the_canvas() {
    assert!(ids().is_wf());
    let mut bad = ids();
    bad.steps.push((StepKind::IsType, 86));
    assert!(!bad.is_wf());
    let mut bad = ids();
    bad.steps.push((StepKind::If, 80));
    assert!(!bad.is_wf());
    let mut bad = ids();
    bad.steps.push((StepKind::If, 4));
    assert!(!bad.is_wf());
    let mut bad = ids();
    bad.map_from_input = bad.map_to_output;
    assert!(!bad.is_wf());
}

#[test]
fn buildable_canvas_is_recognised() {
    let g = graph();
    assert!(check_step_slots_resolve(&g, &ids()));
    assert!(check_canvas_buildable(&g, &ids(), &vec![500], &vec![600]));
    let checked =
        build_schemaful_representation_checked(&g, &ids(), 700, 701, &vec![500], &vec![600], "impl".to_string());
    let direct = build_schemaful_representation_of_graph(&g, &ids(), 700, 701, &vec![500], &vec![600], "impl".to_string());
    assert_eq!(format!("{:?}", checked), format!("{:?}", Some(direct)));
}

#[test]
fn canvases_that_cannot_be_built() {
    // An input that the definition does not have.
    assert!(!check_canvas_buildable(&graph(), &ids(), &vec![501], &vec![600]));
    // Two nodes under one instance identifier.
    let mut g = graph();
    g.nodes[3].instance_id = "d1".to_string();
    assert!(!check_canvas_buildable(&g, &ids(), &vec![500], &vec![600]));
    // A map-to-output terminal whose output slot is not connected.
    let mut g = graph();
    g.nodes[7].slots[1].connections.clear();
    assert!(!check_canvas_buildable(&g, &ids(), &vec![500], &vec![600]));
    assert!(build_schemaful_representation_checked(&g, &ids(), 700, 701, &vec![500], &vec![600], "impl".to_string())
        .is_none());
    // A step slot whose template its node does not know.
    let mut g = graph();
    g.nodes[4].slot_templates.pop();
    assert!(!check_step_slots_resolve(&g, &ids()));
    assert!(!check_canvas_buildable(&g, &ids(), &vec![500], &vec![600]));
    assert!(find_downstream_steps_checked("d1", &g, &ids()).is_none());
    assert!(find_upstream_steps_checked("d2", &g, &ids()).is_none());
    // A step that lacks one of the slots its builder takes.
    let mut g = graph();
    g.nodes[4].slots[1].connections.clear();
    assert!(check_step_slots_resolve(&g, &ids()));
    assert!(!check_canvas_buildable(&g, &ids(), &vec![500], &vec![600]));
}

#[test]
fn checked_step_links() {
    let g = graph();
    assert_eq!(find_downstream_steps_checked("d2", &g, &ids()), Some(find_downstream_steps("d2", &g, &ids())));
    assert_eq!(find_upstream_steps_checked("d2", &g, &ids()), Some(find_upstream_steps("d2", &g, &ids())));
}

fn manual_int_value(text: &str) -> String {
    let mut g = graph();
    g.nodes[6].fields[0].value = text.to_string();
    let ops = build_schemaful_representation_of_graph(&g, &ids(), 700, 701, &vec![500], &vec![600], "impl".to_string());
    let found = ops.iter().find_map(|o| match o {
        PlanOp::ManualInt { value, .. } => Some(*value),
        _ => None,
    });
    format!("{:?}", found)
}

#[test]
fn manual_int_values_read_as_u32_parses_them() {
    for text in ["0", "+7", "007", "4294967295", "4294967296", "", "+", "-1", "1 ", "12a", "99999999999999999999"] {
        let expected = text.parse::<u32>().unwrap_or(0);
        assert_eq!(manual_int_value(text), format!("{:?}", Some(expected)), "for {:?}", text);
    }
}

#[test]
fn manual_int_that_does_not_parse_is_zero() {
    let mut g = graph();
    g.nodes[6].fields[0].value = "forty".to_string();
    let ops = build_schemaful_representation_of_graph(&g, &ids(), 700, 701, &vec![500], &vec![600], "impl".to_string());
    assert!(format!("{:?}", ops).contains("ManualInt { node: \"t2\", value: 0 }"));
}

#[test]
fn connection_bounds_of_slot_bounds() {
    assert_eq!(connection_bounds(SlotBound::Single), (1, Some(1)));
    assert_eq!(connection_bounds(SlotBound::LowerBound { lower_bound: 3 }), (3, None));
    assert_eq!(connection_bounds(SlotBound::UpperBound { upper_bound: 4 }), (0, Some(4)));
    assert_eq!(connection_bounds(SlotBound::Range { lower_bound: 1, upper_bound: 4 }), (1, Some(4)));
    assert_eq!(connection_bounds(SlotBound::LowerBoundOrZero { lower_bound: 2 }), (0, None));
    assert_eq!(connection_bounds(SlotBound::RangeOrZero { lower_bound: 2, upper_bound: 5 }), (0, Some(5)));
}

#[test]
fn constraint_operative_template() {
    let op = LibraryOperative {
        id: 10,
        template_name: "Adder".to_string(),
        slots: vec![ConstraintSlot {
            id: 11,
            name: "inputs".to_string(),
            allowed_operative_names: vec!["Number".to_string()],
            bounds: SlotBound::Range { lower_bound: 2, upper_bound: 3 },
        }],
        fields: vec![
            ConstraintField { id: 12, name: "flag".to_string(), value_type: PrimitiveType::Bool },
            ConstraintField { id: 13, name: "count".to_string(), value_type: PrimitiveType::Int },
            ConstraintField { id: 14, name: "label".to_string(), value_type: PrimitiveType::Str },
        ],
    };
    let t = constraint_template_to_canvas_template(&op, true);
    assert_eq!(t.template_id, text(10));
    assert_eq!(t.name, "Adder");
    assert_eq!(t.slot_templates.len(), 1);
    let s = &t.slot_templates[0];
    assert_eq!(s.id, text(11));
    assert_eq!(s.name, "inputs");
    assert_eq!(s.position, SlotPosition::Right);
    assert_eq!(s.slot_type, SlotDirection::Outgoing);
    assert!(s.can_modify_connections);
    assert_eq!(s.allowed_connections, vec!["Number".to_string()]);
    assert_eq!((s.min_connections, s.max_connections), (2, Some(3)));
    assert_eq!(t.field_templates.len(), 3);
    assert_eq!(t.field_templates[0].field_type, FieldType::Boolean);
    assert_eq!(t.field_templates[0].default_value, "false");
    assert_eq!(t.field_templates[1].field_type, FieldType::Integer);
    assert_eq!(t.field_templates[1].default_value, "0");
    assert_eq!(t.field_templates[2].field_type, FieldType::Str);
    assert_eq!(t.field_templates[2].default_value, "");
    assert_eq!(t.field_templates[2].id, text(14));
    assert!(constraint_template_to_canvas_template(&op, false).field_templates.is_empty());
}

#[test]
fn operative_and_trait_templates() {
    let item = NamedItem { id: 42, name: "Thing".to_string() };
    let t = rgso_operative_to_canvas_template(&item);
    assert_eq!(t.template_id, text(42));
    assert_eq!(t.name, "Thing");
    assert!(t.slot_templates.is_empty() && t.field_templates.is_empty());
    let t = rgso_trait_to_canvas_template(&item);
    assert_eq!(t.template_id, text(42));
    assert_eq!(t.name, "Thing");
}

#[test]
fn initial_nodes_and_connections() {
    let mut n = InitialNode::new(9);
    assert_eq!(n.template_identifier, 9);
    assert!(n.id.is_none() && n.can_delete && n.can_move);
    n.connect("Slot", &"target".to_string(), false);
    n.set_field("f".to_string(), "v".to_string());
    assert_eq!(n.initial_connections[0].host_slot_name, "Slot");
    assert_eq!(n.initial_connections[0].target_instance_id, "target");
    assert!(!n.initial_connections[0].can_delete);
    assert_eq!(n.initial_field_values[0].field_template_id, "f");
    assert_eq!(n.initial_field_values[0].value, "v");
    let m = InitialNode::with_id(8, &"abc".to_string());
    assert_eq!(m.id, Some("abc".to_string()));
}

#[test]
fn data_type_nodes_under_own_ids() {
    let dt = ImplDataType::Collection {
        id: 20,
        template: 2000,
        item: Box::new(ImplDataType::ManualInt { id: 21, template: 2100, value: 7, value_field: 2101 }),
    };
    let mut owner = InitialNode::new(1);
    let nodes = generate_impldatavariant_complex(&dt, &mut owner, "DataType", false);
    assert_eq!(nodes.len(), 2);
    assert_eq!(nodes[0].id, Some(text(20)));
    assert_eq!(nodes[0].template_identifier, 2000);
    assert_eq!(nodes[0].initial_connections[0].host_slot_name, "CollectionType");
    assert_eq!(nodes[0].initial_connections[0].target_instance_id, text(21));
    assert_eq!(nodes[1].id, Some(text(21)));
    assert_eq!(nodes[1].initial_field_values[0].field_template_id, text(2101));
    assert_eq!(nodes[1].initial_field_values[0].value, "7");
    assert_eq!(owner.initial_connections[0].target_instance_id, text(20));
}

#[test]
fn data_type_nodes_under_new_ids() {
    let dt = ImplDataType::SingleOperative { id: 30, template: 3000, allowed: 3100 };
    let mut owner = InitialNode::new(1);
    let nodes = generate_impldatavariant_complex(&dt, &mut owner, "Type", true);
    assert_eq!(nodes.len(), 2);
    assert_eq!(nodes[0].template_identifier, 3100);
    assert_eq!(nodes[1].template_identifier, 3000);
    let own = nodes[1].id.clone().unwrap();
    assert_ne!(own, text(30));
    assert!(uuid::Uuid::parse_str(&own).is_ok());
    assert_eq!(owner.initial_connections[0].target_instance_id, own);
    assert_eq!(nodes[1].initial_connections[0].target_instance_id, nodes[0].id.clone().unwrap());
}

#[test]
fn trait_and_multi_operative_types() {
    let dt = ImplDataType::TraitOperative { id: 40, template: 4000, required_traits: vec![41, 42] };
    let mut owner = InitialNode::new(1);
    let nodes = generate_impldatavariant_complex(&dt, &mut owner, "DataType", false);
    assert_eq!(nodes.len(), 3);
    assert_eq!(nodes[0].id, Some(text(41)));
    assert_eq!(nodes[2].initial_connections.len(), 2);
    assert_eq!(nodes[2].initial_connections[1].host_slot_name, "RequiredTraits");
    let dt = ImplDataType::MultiOperative { id: 50, template: 5000, allowed: vec![51, 52] };
    let nodes = generate_impldatavariant_complex(&dt, &mut owner, "DataType", false);
    assert_eq!(nodes.len(), 3);
    assert_eq!(nodes[1].template_identifier, 52);
    assert_eq!(nodes[2].initial_connections[0].host_slot_name, "AllowedOperatives");
    let dt = ImplDataType::ManualBool { id: 60, template: 6000, value: true, value_field: 61 };
    let nodes = generate_impldatavariant_complex(&dt, &mut owner, "DataType", false);
    assert_eq!(nodes[0].initial_field_values[0].value, "true");
    let dt = ImplDataType::ManualString { id: 62, template: 6200, value: "hi".to_string(), value_field: 63 };
    let nodes = generate_impldatavariant_complex(&dt, &mut owner, "DataType", false);
    assert_eq!(nodes[0].initial_field_values[0].value, "hi");
}

#[test]
fn data_node_complex() {
    let d = DataNodeSchema { id: 11, template: 1000, data_type: ImplDataType::Str { id: 31, template: 2000 } };
    let nodes = generate_impldata_complex(&d);
    assert_eq!(nodes.len(), 2);
    assert_eq!(nodes[1].id, Some(text(11)));
    assert_eq!(nodes[1].initial_connections[0].host_slot_name, "DataType");
    assert_eq!(nodes[1].initial_connections[0].target_instance_id, text(31));
}

#[test]
fn io_type_mappings() {
    let dt = map_input_types_to_impldatavariant(FunctionInputType::Data(ImplDataType::Bool { id: 1, template: 2 }));
    assert!(matches!(dt, ImplDataType::Bool { id: 1, template: 2 }));
    let dt = map_output_types_to_impldatavariant(ImplDataType::Int { id: 3, template: 4 });
    assert!(matches!(dt, ImplDataType::Int { id: 3, template: 4 }));
    assert!(matches!(
        into_most_generic(ImplDataType::Str { id: 5, template: 6 }),
        FunctionInputType::Data(ImplDataType::Str { id: 5, template: 6 })
    ));
}

fn input(input_type: FunctionInputType) -> FunctionInputSchema {
    FunctionInputSchema { id: 500, template: 3000, name: "a".to_string(), name_field: 3001, input_type }
}

#[test]
fn function_input_complexes() {
    let nodes = create_functioninput_complex(&input(FunctionInputType::Data(ImplDataType::Int { id: 33, template: 2000 })));
    assert_eq!(nodes.len(), 2);
    assert!(!nodes[0].can_delete);
    assert_eq!(nodes[1].id, Some(text(500)));
    assert_eq!(nodes[1].initial_field_values[0].field_template_id, text(3001));
    assert_eq!(nodes[1].initial_field_values[0].value, "a");
    assert_eq!(nodes[1].initial_connections[0].target_instance_id, text(33));
    let nodes = create_functioninput_complex(&input(FunctionInputType::SelfType { template: 7000 }));
    assert_eq!(nodes.len(), 2);
    assert_eq!(nodes[0].template_identifier, 7000);
    assert!(!nodes[0].can_delete);
    assert_eq!(nodes[1].initial_connections[0].target_instance_id, nodes[0].id.clone().unwrap());
    assert!(!nodes[1].initial_connections[0].can_delete);
}

#[test]
fn function_output_complex() {
    let fo = FunctionOutputSchema {
        id: 600,
        template: 4000,
        name: "out".to_string(),
        name_field: 4001,
        output_type: ImplDataType::Bool { id: 34, template: 2000 },
    };
    let nodes = create_functionoutput_complex(&fo);
    assert_eq!(nodes.len(), 2);
    assert_eq!(nodes[0].id, Some(text(600)));
    assert_eq!(nodes[0].initial_connections[0].target_instance_id, text(34));
    assert!(!nodes[1].can_delete);
}

fn tids() -> StepTemplates {
    StepTemplates { impl_data: 3, single_operative: 8, map_from_input: 5, map_to_output: 4 }
}

#[test]
fn input_brought_onto_the_canvas() {
    let nodes = generate_function_input_and_mapstep_complex(
        &input(FunctionInputType::Data(ImplDataType::Int { id: 33, template: 2000 })),
        77,
        &tids(),
    );
    assert_eq!(nodes.len(), 5);
    let step = &nodes[4];
    assert_eq!(step.template_identifier, 5);
    assert!(!step.can_delete);
    assert_eq!(step.initial_connections[0].host_slot_name, "Input");
    assert_eq!(step.initial_connections[0].target_instance_id, text(500));
    assert_eq!(step.initial_connections[1].target_instance_id, nodes[3].id.clone().unwrap());
    assert_eq!(nodes[3].template_identifier, 3);
    assert_ne!(nodes[2].id, Some(text(33)));
}

#[test]
fn self_input_brought_onto_the_canvas() {
    let nodes = generate_function_input_and_mapstep_complex(&input(FunctionInputType::SelfType { template: 7000 }), 77, &tids());
    assert_eq!(nodes.len(), 6);
    assert_eq!(nodes[2].template_identifier, 3);
    assert_eq!(nodes[3].template_identifier, 8);
    assert_eq!(nodes[4].template_identifier, 77);
    assert_eq!(nodes[3].initial_connections[0].host_slot_name, "AllowedOperative");
}

#[test]
fn output_brought_onto_the_canvas() {
    let fo = FunctionOutputSchema {
        id: 600,
        template: 4000,
        name: "out".to_string(),
        name_field: 4001,
        output_type: ImplDataType::Int { id: 34, template: 2000 },
    };
    let nodes = generate_function_output_and_mapstep_complex(&fo, &tids());
    assert_eq!(nodes.len(), 5);
    let step = &nodes[4];
    assert_eq!(step.template_identifier, 4);
    assert_eq!(step.initial_connections[0].host_slot_name, "Output");
    assert_eq!(step.initial_connections[0].target_instance_id, text(600));
    assert_eq!(step.initial_connections[1].target_instance_id, nodes[3].id.clone().unwrap());
}

#[test]
fn save_disabled_for_function_io() {
    assert!(!is_save_disabled(true, true, InputOutputOptions::ImplDataSingleOperative, None, &vec![], &vec![]));
    assert!(is_save_disabled(false, true, InputOutputOptions::ImplDataSingleOperative, None, &vec![], &vec![]));
    assert!(!is_save_disabled(true, false, InputOutputOptions::ImplDataSingleOperative, Some(1), &vec![], &vec![]));
    assert!(is_save_disabled(true, false, InputOutputOptions::ImplDataTraitOperative, None, &vec![], &vec![]));
    assert!(is_save_disabled(true, false, InputOutputOptions::ImplDataMultiOperative, None, &vec![1], &vec![]));
    assert!(!is_save_disabled(true, false, InputOutputOptions::ImplDataMultiOperative, None, &vec![1, 2], &vec![]));
    assert!(!is_save_disabled(false, false, InputOutputOptions::ImplDataBool, None, &vec![], &vec![]));
}

#[test]
fn option_kinds() {
    assert_eq!(InputOutputOptions::ImplDataInt.into(), DataTypeKind::Int);
    assert_eq!(InputOutputOptions::ImplDataString.into(), DataTypeKind::Str);
    assert_eq!(InputOutputOptions::ImplDataMultiOperative.into(), DataTypeKind::MultiOperative);
}

#[test]
fn new_self_input_plan() {
    let ops = plan_new_function_input("me".to_string(), true, InputOutputOptions::ImplDataBool, None, &vec![], &vec![], 0);
    let expected = vec![
        IoOp::NewInput { temp: "new_input_node".to_string(), name: "me".to_string() },
        IoOp::AddInput { temp: "new_input_node".to_string() },
        IoOp::SelfType { input: "new_input_node".to_string() },
    ];
    assert_eq!(format!("{:?}", ops), format!("{:?}", expected));
}

#[test]
fn new_input_in_two_collection_layers() {
    let ops = plan_new_function_input("xs".to_string(), false, InputOutputOptions::ImplDataInt, None, &vec![], &vec![], 2);
    let expected = vec![
        IoOp::NewInput { temp: "new_input_node".to_string(), name: "xs".to_string() },
        IoOp::AddInput { temp: "new_input_node".to_string() },
        IoOp::NewDataType { temp: "new_data_node".to_string(), kind: DataTypeKind::Bool },
        IoOp::NewCollection { temp: "layer_0".to_string() },
        IoOp::SetType { owner: "new_input_node".to_string(), kind: DataTypeKind::Collection, target: "layer_0".to_string() },
        IoOp::NewCollection { temp: "layer_1".to_string() },
        IoOp::SetCollectionType {
            collection: "layer_0".to_string(),
            kind: DataTypeKind::Collection,
            target: "layer_1".to_string(),
        },
        IoOp::SetCollectionType {
            collection: "layer_1".to_string(),
            kind: DataTypeKind::Int,
            target: "new_data_node".to_string(),
        },
    ];
    assert_eq!(format!("{:?}", ops), format!("{:?}", expected));
}

#[test]
fn new_trait_output_plan() {
    let ops = plan_new_function_output("t".to_string(), InputOutputOptions::ImplDataTraitOperative, None, &vec![], &vec![9, 8], 0);
    let expected = vec![
        IoOp::NewOutput { temp: "new_output_node".to_string(), name: "t".to_string() },
        IoOp::AddOutput { temp: "new_output_node".to_string() },
        IoOp::NewDataType { temp: "new_data_node".to_string(), kind: DataTypeKind::TraitOperative },
        IoOp::RequireTrait { temp: "new_data_node".to_string(), trait_id: 9 },
        IoOp::RequireTrait { temp: "new_data_node".to_string(), trait_id: 8 },
        IoOp::SetType {
            owner: "new_output_node".to_string(),
            kind: DataTypeKind::TraitOperative,
            target: "new_data_node".to_string(),
        },
    ];
    assert_eq!(format!("{:?}", ops), format!("{:?}", expected));
}

#[test]
fn new_single_operative_output_plan() {
    let ops = plan_new_function_output("o".to_string(), InputOutputOptions::ImplDataSingleOperative, Some(77), &vec![], &vec![], 0);
    let expected = vec![
        IoOp::NewOutput { temp: "new_output_node".to_string(), name: "o".to_string() },
        IoOp::AddOutput { temp: "new_output_node".to_string() },
        IoOp::NewSingleOperative { temp: "new_data_node".to_string(), operative: 77 },
        IoOp::SetType {
            owner: "new_output_node".to_string(),
            kind: DataTypeKind::SingleOperative,
            target: "new_data_node".to_string(),
        },
    ];
    assert_eq!(format!("{:?}", ops), format!("{:?}", expected));
}

use schema_editor::canvas_templates::{NodeTemplate, SlotDirection, SlotPosition, SlotTemplate};
use schema_editor::impl_builder::{initial_impl_name, new_impl_initial_nodes, with_allowed_connections, without_flow_slots};

fn slot_t(name: &str) -> SlotTemplate {
    SlotTemplate {
        id: format!("id-{}", name),
        name: name.to_string(),
        position: SlotPosition::Right,
        slot_type: SlotDirection::Outgoing,
        can_modify_connections: true,
        allowed_connections: vec!["Old".to_string()],
        min_connections: 0,
        max_connections: Some(2),
    }
}

fn template_with(slots: Vec<SlotTemplate>) -> NodeTemplate {
    NodeTemplate { template_id: "t".to_string(), name: "T".to_string(), field_templates: vec![], slot_templates: slots }
}

#[test]
fn implementation_names_in_the_builder() {
    assert_eq!(initial_impl_name(Some("kept"), "Robot", "walk"), "kept");
    assert_eq!(initial_impl_name(None, "Robot", "walk"), "Robotwalk");
}

#[test]
fn data_type_templates_connect_to_created_items() {
    let instances = vec!["A".to_string(), "B".to_string()];
    let traits = vec!["Tr".to_string()];
    let t = with_allowed_connections(template_with(vec![slot_t("AllowedOperatives")]), DataTypeKind::MultiOperative, &instances, &traits);
    assert_eq!(t.slot_templates[0].allowed_connections, instances);
    assert_eq!(t.slot_templates[0].name, "AllowedOperatives");
    assert_eq!(t.slot_templates[0].max_connections, Some(2));
    let t = with_allowed_connections(template_with(vec![slot_t("RequiredTraits")]), DataTypeKind::TraitOperative, &instances, &traits);
    assert_eq!(t.slot_templates[0].allowed_connections, traits);
    let t = with_allowed_connections(template_with(vec![slot_t("X")]), DataTypeKind::Int, &instances, &traits);
    assert_eq!(t.slot_templates[0].allowed_connections, vec!["Old".to_string()]);
}

#[test]
fn data_node_template_loses_flow_slots() {
    let t = without_flow_slots(template_with(vec![
        slot_t("DataType"),
        slot_t("DownstreamSteps"),
        slot_t("UpstreamStep"),
        slot_t("Other"),
    ]));
    let names: Vec<String> = t.slot_templates.iter().map(|s| s.name.clone()).collect();
    assert_eq!(names, vec!["DataType".to_string(), "Other".to_string()]);
    assert_eq!(t.template_id, "t");
}

#[test]
fn new_implementation_starts_with_inputs_then_outputs() {
    let inputs = vec![input(FunctionInputType::Data(ImplDataType::Int { id: 33, template: 2000 }))];
    let outputs = vec![FunctionOutputSchema {
        id: 600,
        template: 4000,
        name: "out".to_string(),
        name_field: 4001,
        output_type: ImplDataType::Bool { id: 34, template: 2000 },
    }];
    let nodes = new_impl_initial_nodes(&inputs, &outputs, 77, &tids());
    assert_eq!(nodes.len(), 10);
    assert_eq!(nodes[1].id, Some(text(500)));
    assert_eq!(nodes[4].template_identifier, 5);
    assert_eq!(nodes[5].id, Some(text(600)));
    assert_eq!(nodes[9].template_identifier, 4);
    assert!(new_impl_initial_nodes(&vec![], &vec![], 77, &tids()).is_empty());
}
