use schema_editor::deletion::{delete_method_implementation, follow_and_delete_downstream};
use schema_editor::execution_graph::{
    analyze_method_implementation, get_step_data_dependencies, ExecutionEdge, ExecutionGraph, ExecutionNode,
    ExecutionNodeTerminal, SlotType,
};
use std::collections::HashMap;
use schema_editor::existing_canvas::{canvas_for_execution_nodes, setup_existing_fn_impl_in_canvas, ExistingImplSchema};
use schema_editor::impl_model::{find_data, find_step, BinaryOp, ImplData, ImplStep, MethodImplementation, StepKind};
use schema_editor::schema_canvas::{DataNodeSchema, FunctionInputSchema, FunctionInputType, FunctionOutputSchema, ImplDataType};

fn text(v: u128) -> String {
    uuid::Uuid::from_u128(v).to_string()
}

/// Function input 500 mapped in by step 21 to data 11; step 22 adds 11 to
/// itself into data 12; step 23 maps 12 out to function output 600.
fn sample() -> MethodImplementation {
    MethodImplementation {
        data: vec![
            ImplData { id: 11, upstream_steps: vec![21], downstream_steps: vec![22] },
            ImplData { id: 12, upstream_steps: vec![22], downstream_steps: vec![23] },
        ],
        steps: vec![
            ImplStep::MapFromInput { id: 21, input: 500, output: 11 },
            ImplStep::Binary { id: 22, op: BinaryOp::MathAdd, argument_one: 11, argument_two: 11, output: 12 },
            ImplStep::MapToOutput { id: 23, input: 12, output: 600 },
        ],
        map_to_outputs: vec![23],
        map_from_inputs: vec![21],
    }
}

fn sample_schema() -> ExistingImplSchema {
    ExistingImplSchema {
        data: vec![
            DataNodeSchema { id: 11, template: 1000, data_type: ImplDataType::Int { id: 31, template: 2000 } },
            DataNodeSchema { id: 12, template: 1000, data_type: ImplDataType::Int { id: 32, template: 2000 } },
        ],
        function_inputs: vec![FunctionInputSchema {
            id: 500,
            template: 3000,
            name: "a".to_string(),
            name_field: 3001,
            input_type: FunctionInputType::Data(ImplDataType::Int { id: 33, template: 2000 }),
        }],
        function_outputs: vec![FunctionOutputSchema {
            id: 600,
            template: 4000,
            name: "out".to_string(),
            name_field: 4001,
            output_type: ImplDataType::Int { id: 34, template: 2000 },
        }],
        step_templates: vec![
            (StepKind::Binary(BinaryOp::MathAdd), 5000),
            (StepKind::MapFromInput, 5001),
            (StepKind::MapToOutput, 5002),
        ],
    }
}

#[test]
fn lookups_find_positions() {
    let m = sample();
    assert_eq!(find_data(&m, 12), 1);
    assert_eq!(find_step(&m, 23), 2);
    assert_eq!(m.steps[1].get_id(), 22);
    assert_eq!(m.steps[1].kind(), StepKind::Binary(BinaryOp::MathAdd));
    assert_eq!(m.steps[0].outputs(), vec![11]);
    assert!(m.steps[2].outputs().is_empty());
}

#[test]
fn edges_of_a_binary_step() {
    let m = sample();
    let edges = get_step_data_dependencies(&m.steps[1]);
    let from = ExecutionNode::Step(22, StepKind::Binary(BinaryOp::MathAdd));
    let got: Vec<(String, SlotType, ExecutionNode, ExecutionNode)> =
        edges.iter().map(|e| (e.slot_name.clone(), e.slot_type, e.from, e.to)).collect();
    assert_eq!(
        got,
        vec![
            ("ArgumentOne".to_string(), SlotType::Dependency, from, ExecutionNode::Data(11)),
            ("ArgumentTwo".to_string(), SlotType::Dependency, from, ExecutionNode::Data(11)),
            ("OutputInt".to_string(), SlotType::Output, from, ExecutionNode::Data(12)),
        ]
    );
}

#[test]
fn comparison_step_outputs_a_bool() {
    let step = ImplStep::Binary { id: 40, op: BinaryOp::CompareLessThan, argument_one: 1, argument_two: 2, output: 3 };
    let edges = get_step_data_dependencies(&step);
    assert_eq!(edges[2].slot_name, "OutputBool");
}

#[test]
fn analysis_of_a_small_flow() {
    let m = sample();
    let g = analyze_method_implementation(&m);
    assert_eq!(g.terminals, vec![23]);
    assert_eq!(g.nodes.len(), 5);
    assert_eq!(g.nodes[&23], ExecutionNode::Terminal(ExecutionNodeTerminal::Output(23)));
    assert_eq!(g.nodes[&12], ExecutionNode::Data(12));
    assert_eq!(g.nodes[&22], ExecutionNode::Step(22, StepKind::Binary(BinaryOp::MathAdd)));
    assert_eq!(g.nodes[&11], ExecutionNode::Data(11));
    assert_eq!(g.nodes[&21], ExecutionNode::Terminal(ExecutionNodeTerminal::Input(21)));
    assert!(g.inputs.is_empty());
    // Step 22 reads data 11 through both of its arguments; it is listed once.
    assert_eq!(g.get_data_dependencies(&22), vec![ExecutionNode::Data(11)]);
    assert!(g.get_data_dependencies(&23).is_empty());
    assert_eq!(g.get_dependent_steps(&11), vec![ExecutionNode::Step(22, StepKind::Binary(BinaryOp::MathAdd))]);
    // Data 12 is produced by step 22 and read by no step.
    assert!(g.get_dependent_steps(&12).is_empty());
    assert_eq!(g.get_output_data_nodes(), vec![ExecutionNode::Data(12)]);
    assert!(g.get_input_data_nodes().is_empty());
    assert_eq!(g.edges.len(), 6);
}

#[test]
fn data_mapped_out_directly_is_an_input() {
    let m = MethodImplementation {
        data: vec![ImplData { id: 11, upstream_steps: vec![], downstream_steps: vec![23] }],
        steps: vec![ImplStep::MapToOutput { id: 23, input: 11, output: 600 }],
        map_to_outputs: vec![23],
        map_from_inputs: vec![],
    };
    let g = analyze_method_implementation(&m);
    assert_eq!(g.inputs, vec![11]);
    assert_eq!(g.get_input_data_nodes(), vec![ExecutionNode::Data(11)]);
}

#[test]
fn path_from_data_to_its_terminal() {
    let g = analyze_method_implementation(&sample());
    assert_eq!(
        g.find_path_to_terminal(&12),
        vec![ExecutionNode::Data(12), ExecutionNode::Terminal(ExecutionNodeTerminal::Output(23))]
    );
    assert_eq!(g.find_path_to_terminal(&11), vec![ExecutionNode::Data(11)]);
}

fn edge(from: ExecutionNode, to: ExecutionNode) -> ExecutionEdge {
    ExecutionEdge { slot_name: "s".to_string(), slot_type: SlotType::Dependency, from, to }
}

#[test]
fn path_follows_edges_past_a_dead_end() {
    let a = ExecutionNode::Data(1);
    let b = ExecutionNode::Data(2);
    let c = ExecutionNode::Data(3);
    let t = ExecutionNode::Terminal(ExecutionNodeTerminal::Output(4));
    let mut nodes = HashMap::new();
    for n in [a, b, c, t] {
        nodes.insert(n.get_id(), n);
    }
    let g = ExecutionGraph {
        nodes,
        edges: vec![edge(a, b), edge(a, c), edge(c, t)],
        step_data_dependencies: HashMap::new(),
        data_dependent_steps: HashMap::new(),
        terminals: vec![4],
        inputs: vec![1],
    };
    // The search visits 1, 2, 3 and then 4; the path skips the dead end 2.
    assert_eq!(g.find_path_to_terminal(&1), vec![a, c, t]);
    assert_eq!(g.find_path_to_terminal(&2), vec![b]);
    assert_eq!(g.get_output_data_nodes(), vec![c]);
}

#[test]
fn path_from_an_output_terminal_is_the_terminal() {
    let g = analyze_method_implementation(&sample());
    assert_eq!(g.find_path_to_terminal(&23), vec![ExecutionNode::Terminal(ExecutionNodeTerminal::Output(23))]);
}

#[test]
fn node_identifiers() {
    assert_eq!(ExecutionNode::Data(5).get_id(), 5);
    assert_eq!(ExecutionNode::Step(6, StepKind::If).get_id(), 6);
    assert_eq!(ExecutionNode::Terminal(ExecutionNodeTerminal::Input(7)).get_id(), 7);
    assert_eq!(ExecutionNodeTerminal::Output(8).get_id(), 8);
}

#[test]
fn deleting_downstream_of_an_input() {
    let m = sample();
    let mut deleted = follow_and_delete_downstream(&m, &vec![22]);
    deleted.sort();
    deleted.dedup();
    assert_eq!(deleted, vec![12, 22, 23]);
    let mut all = follow_and_delete_downstream(&m, &vec![21]);
    all.sort();
    all.dedup();
    assert_eq!(all, vec![11, 12, 21, 22, 23]);
    assert!(follow_and_delete_downstream(&m, &vec![]).is_empty());
}

#[test]
fn canvas_for_a_given_order() {
    let m = sample();
    let ctx = sample_schema();
    let order = vec![
        ExecutionNode::Step(22, StepKind::Binary(BinaryOp::MathAdd)),
        ExecutionNode::Terminal(ExecutionNodeTerminal::Output(23)),
        ExecutionNode::Data(12),
    ];
    let nodes = canvas_for_execution_nodes(&m, &ctx, &order);
    let ids: Vec<Option<String>> = nodes.iter().map(|n| n.id.clone()).collect();
    assert_eq!(
        ids,
        vec![
            Some(text(22)),
            Some(text(600)),
            Some(text(34)),
            Some(text(23)),
            Some(text(32)),
            Some(text(12)),
        ]
    );
    let step = &nodes[0];
    assert_eq!(step.template_identifier, 5000);
    let conns: Vec<(String, String, bool)> = step
        .initial_connections
        .iter()
        .map(|c| (c.host_slot_name.clone(), c.target_instance_id.clone(), c.can_delete))
        .collect();
    assert_eq!(
        conns,
        vec![
            ("ArgumentOne".to_string(), text(11), true),
            ("ArgumentTwo".to_string(), text(11), true),
            ("OutputInt".to_string(), text(12), true),
        ]
    );
    let terminal = &nodes[3];
    assert_eq!(terminal.template_identifier, 5002);
    let conns: Vec<(String, String)> = terminal
        .initial_connections
        .iter()
        .map(|c| (c.host_slot_name.clone(), c.target_instance_id.clone()))
        .collect();
    assert_eq!(conns, vec![("Input".to_string(), text(12)), ("Output".to_string(), text(600))]);
    assert!(!nodes[2].can_delete);
}

#[test]
fn canvas_of_an_existing_implementation() {
    let m = sample();
    let ctx = sample_schema();
    let nodes = setup_existing_fn_impl_in_canvas(&m, &ctx);
    assert_eq!(nodes.len(), 11);
    let mut ids: Vec<String> = nodes.iter().map(|n| n.id.clone().unwrap()).collect();
    ids.sort();
    let mut expected: Vec<String> = [11u128, 12, 21, 22, 23, 31, 32, 33, 34, 500, 600].iter().map(|v| text(*v)).collect();
    expected.sort();
    assert_eq!(ids, expected);
    let input_terminal = nodes.iter().find(|n| n.id == Some(text(21))).unwrap();
    assert_eq!(input_terminal.template_identifier, 5001);
    let conns: Vec<(String, String)> = input_terminal
        .initial_connections
        .iter()
        .map(|c| (c.host_slot_name.clone(), c.target_instance_id.clone()))
        .collect();
    assert_eq!(conns, vec![("Output".to_string(), text(11)), ("Input".to_string(), text(500))]);
}

#[test]
fn self_input_gets_a_fresh_operative_node() {
    let m = sample();
    let mut ctx = sample_schema();
    ctx.function_inputs[0].input_type = FunctionInputType::SelfType { template: 7000 };
    let order = vec![ExecutionNode::Terminal(ExecutionNodeTerminal::Input(21))];
    let nodes = canvas_for_execution_nodes(&m, &ctx, &order);
    assert_eq!(nodes.len(), 3);
    assert_eq!(nodes[0].template_identifier, 7000);
    let self_id = nodes[0].id.clone().unwrap();
    assert_eq!(self_id.len(), 36);
    assert!(uuid::Uuid::parse_str(&self_id).is_ok());
    assert!(!nodes[0].can_delete);
    assert_eq!(nodes[1].initial_connections[0].target_instance_id, self_id);
}

#[test]
fn edges_in_traversal_order() {
    let g = analyze_method_implementation(&sample());
    let add = ExecutionNode::Step(22, StepKind::Binary(BinaryOp::MathAdd));
    let got: Vec<(String, ExecutionNode, ExecutionNode)> =
        g.edges.iter().map(|e| (e.slot_name.clone(), e.from, e.to)).collect();
    assert_eq!(
        got,
        vec![
            ("input".to_string(), ExecutionNode::Data(12), ExecutionNode::Terminal(ExecutionNodeTerminal::Output(23))),
            ("upstream".to_string(), add, ExecutionNode::Data(12)),
            ("ArgumentOne".to_string(), add, ExecutionNode::Data(11)),
            ("ArgumentTwo".to_string(), add, ExecutionNode::Data(11)),
            ("OutputInt".to_string(), add, ExecutionNode::Data(12)),
            ("upstream".to_string(), ExecutionNode::Terminal(ExecutionNodeTerminal::Input(21)), ExecutionNode::Data(11)),
        ]
    );
}

#[test]
fn shared_nodes_are_visited_once_per_output() {
    let m = MethodImplementation {
        data: vec![ImplData { id: 11, upstream_steps: vec![21], downstream_steps: vec![23, 24] }],
        steps: vec![
            ImplStep::MapFromInput { id: 21, input: 500, output: 11 },
            ImplStep::MapToOutput { id: 23, input: 11, output: 600 },
            ImplStep::MapToOutput { id: 24, input: 11, output: 601 },
        ],
        map_to_outputs: vec![23, 24],
        map_from_inputs: vec![21],
    };
    let g = analyze_method_implementation(&m);
    assert_eq!(g.edges.len(), 4);
    assert_eq!(g.step_data_dependencies[&21], vec![11, 11]);
    assert_eq!(g.data_dependent_steps[&11], vec![21, 21]);
    assert_eq!(g.terminals, vec![23, 24]);
}

#[test]
fn dependency_maps_mirror_each_other() {
    let g = analyze_method_implementation(&sample());
    for (s, ds) in g.step_data_dependencies.iter() {
        for d in ds {
            assert!(g.data_dependent_steps[d].contains(s));
        }
    }
    for (d, ss) in g.data_dependent_steps.iter() {
        for s in ss {
            assert!(g.step_data_dependencies[s].contains(d));
        }
    }
    assert_eq!(g.step_data_dependencies[&22], vec![12]);
    assert_eq!(g.data_dependent_steps[&12], vec![22]);
}

#[test]
fn deleting_an_implementation_takes_its_flow_with_it() {
    let mut got = delete_method_implementation(&sample(), 900);
    got.sort();
    got.dedup();
    // The implementation, output terminal 23, input terminal 21, and what
    // deleting step 22 (which reads data 11) deletes: 22, data 12 and 23.
    assert_eq!(got, vec![12, 21, 22, 23, 900]);
    let lone = MethodImplementation { data: vec![], steps: vec![], map_to_outputs: vec![], map_from_inputs: vec![] };
    assert_eq!(delete_method_implementation(&lone, 5), vec![5]);
}
