use vstd::prelude::*;
use std::collections::HashMap;
use crate::ids::Uid;
use crate::canvas::str_eq;
use crate::impl_model::{
    BinaryOp, ImplData, ImplStep, MethodImplementation, StepKind, find_data, find_step, lemma_data_index_unique,
    lemma_step_index_unique,
};
use crate::flow_model::{
    canonical, dep_recorded, deps_state, edges_state, flow_wf, lemma_canonical_list_bounded, lemma_closed_holds_reached,
    lemma_deps_add, lemma_deps_transfer, lemma_injective_bounded, lemma_edges_record, lemma_edges_transfer, lemma_nodes_transfer, lemma_nodes_record, lemma_processed_canonical,
    lemma_push_contains, lemma_reached_canonical, lemma_reached_from_push, lemma_reaches_extend,
    lemma_successors_canonical, list_appended, node_edges, node_successors, nodes_state, output_root,
    flow_reached, processed, reached_from_any, reaches, reaches_within, roots_wf, step_at, terminal_input, upstream_node,
    upstream_of,
};

verus! {

broadcast use vstd::std_specs::hash::group_hash_axioms;

/// An end of the execution flow: a function input mapped in, or a function
/// output mapped out.
#[derive(Clone, Copy, Debug, PartialEq, Eq, Structural)]
pub enum ExecutionNodeTerminal {
    /// A `MapFromInput` step.
    Input(Uid),
    /// A `MapToOutput` step.
    Output(Uid),
}

impl ExecutionNodeTerminal {
    pub open spec fn spec_id(&self) -> Uid {
        match *self {
            ExecutionNodeTerminal::Input(id) => id,
            ExecutionNodeTerminal::Output(id) => id,
        }
    }

    pub fn get_id(&self) -> (r: Uid)
        ensures
            r == self.spec_id(),
    {
        match self {
            ExecutionNodeTerminal::Input(id) => *id,
            ExecutionNodeTerminal::Output(id) => *id,
        }
    }
}

/// A node of the execution flow graph.
#[derive(Clone, Copy, Debug, PartialEq, Eq, Structural)]
pub enum ExecutionNode {
    /// A data node that holds information.
    Data(Uid),
    /// A step node that performs computation, with the kind of the step.
    Step(Uid, StepKind),
    /// A terminal node.
    Terminal(ExecutionNodeTerminal),
}

impl ExecutionNode {
    pub open spec fn spec_id(&self) -> Uid {
        match *self {
            ExecutionNode::Data(id) => id,
            ExecutionNode::Step(id, _) => id,
            ExecutionNode::Terminal(t) => t.spec_id(),
        }
    }

    pub fn get_id(&self) -> (r: Uid)
        ensures
            r == self.spec_id(),
    {
        match self {
            ExecutionNode::Data(id) => *id,
            ExecutionNode::Step(id, _) => *id,
            ExecutionNode::Terminal(t) => t.get_id(),
        }
    }
}

/// How an edge of the execution flow graph takes part in the step it leaves.
#[derive(Clone, Copy, Debug, PartialEq, Eq, Structural)]
pub enum SlotType {
    Dependency,
    Internal,
    Output,
}

/// An edge of the execution flow graph: the slot it stands for and its ends.
#[derive(Clone, Debug)]
pub struct ExecutionEdge {
    pub slot_name: String,
    pub slot_type: SlotType,
    pub from: ExecutionNode,
    pub to: ExecutionNode,
}

/// An edge taken as plain values: slot name, slot type, source, target.
pub type EdgeView = (Seq<char>, SlotType, ExecutionNode, ExecutionNode);

impl View for ExecutionEdge {
    type V = EdgeView;

    open spec fn view(&self) -> EdgeView {
        (self.slot_name@, self.slot_type, self.from, self.to)
    }
}

/// The edges of a list, taken as plain values.
pub open spec fn edge_views(edges: Seq<ExecutionEdge>) -> Seq<EdgeView> {
    edges.map_values(|e: ExecutionEdge| e@)
}

/// The name of the output slot of a binary step.
pub open spec fn binary_output_name(op: BinaryOp) -> Seq<char> {
    match op {
        BinaryOp::MathDivide | BinaryOp::MathAdd | BinaryOp::MathModulus | BinaryOp::MathMultiply
        | BinaryOp::MathSubtract => "OutputInt"@,
        BinaryOp::BitOr | BinaryOp::CompareEqual | BinaryOp::BitAnd | BinaryOp::CompareGreaterThan
        | BinaryOp::CompareLessThan => "OutputBool"@,
    }
}

/// A slot of a step: its name, its type and the data node in it.
pub type SlotView = (Seq<char>, SlotType, Uid);

/// The slots of a step that hold data nodes, in the order the step lists them.
/// The terminal steps have none here: they are not steps of the flow graph.
pub open spec fn step_slots(step: ImplStep) -> Seq<SlotView> {
    match step {
        ImplStep::IsType { input_operative, output_bool, type_check_operative, .. } => seq![
            ("InputOperative"@, SlotType::Dependency, input_operative),
            ("OutputBool"@, SlotType::Output, output_bool),
            ("TypeCheckOperative"@, SlotType::Internal, type_check_operative),
        ],
        ImplStep::GetCollectionLength { input_collection, output_int, .. } => seq![
            ("InputCollection"@, SlotType::Dependency, input_collection),
            ("OutputInt"@, SlotType::Output, output_int),
        ],
        ImplStep::Identity { input, output, .. } => seq![
            ("Input"@, SlotType::Dependency, input),
            ("Output"@, SlotType::Output, output),
        ],
        ImplStep::InvokeMethod { calling_operative, method_name, method_inputs, method_outputs, .. } =>
            seq![
                ("CallingOperative"@, SlotType::Dependency, calling_operative),
                ("MethodName"@, SlotType::Dependency, method_name),
            ] + method_inputs@.map_values(|d: Uid| ("MethodInputs"@, SlotType::Dependency, d))
                + method_outputs@.map_values(|d: Uid| ("MethodOutputs"@, SlotType::Output, d)),
        ImplStep::BitNot { input_bool, output_bool, .. } => seq![
            ("InputBool"@, SlotType::Dependency, input_bool),
            ("OutputBool"@, SlotType::Output, output_bool),
        ],
        ImplStep::Binary { op, argument_one, argument_two, output, .. } => seq![
            ("ArgumentOne"@, SlotType::Dependency, argument_one),
            ("ArgumentTwo"@, SlotType::Dependency, argument_two),
            (binary_output_name(op), SlotType::Output, output),
        ],
        ImplStep::If { condition, true_branch, false_branch, output, .. } =>
            (if output@.len() > 0 {
                seq![("Output"@, SlotType::Output, output@[0])]
            } else {
                Seq::empty()
            }) + seq![
                ("Condition"@, SlotType::Dependency, condition),
                ("TrueBranch"@, SlotType::Internal, true_branch),
                ("FalseBranch"@, SlotType::Internal, false_branch),
            ],
        ImplStep::IteratorFilter {
            input_collection,
            iteration_end_bool,
            iteration_start_item,
            output_collection,
            ..
        } => seq![
            ("InputCollection"@, SlotType::Dependency, input_collection),
            ("IterationEndBool"@, SlotType::Internal, iteration_end_bool),
            ("IterationStartItem"@, SlotType::Internal, iteration_start_item),
            ("OutputCollection"@, SlotType::Output, output_collection),
        ],
        ImplStep::MutateSlot { mutated_operative, new_value, .. } => seq![
            ("MutatedOperative"@, SlotType::Dependency, mutated_operative),
            ("NewValue"@, SlotType::Internal, new_value),
        ],
        ImplStep::GetField { input_operative, field_name, output_field, .. } => seq![
            ("InputOperative"@, SlotType::Dependency, input_operative),
            ("FieldName"@, SlotType::Dependency, field_name),
            ("OutputField"@, SlotType::Output, output_field),
        ],
        ImplStep::MutateField { mutated_operative, new_value, .. } => seq![
            ("MutatedOperative"@, SlotType::Dependency, mutated_operative),
            ("NewValue"@, SlotType::Internal, new_value),
        ],
        ImplStep::MultiTypeSplitter { input_multi_operative, convergence, discriminant_starts, output, .. } =>
            seq![
                ("InputMultiOperative"@, SlotType::Dependency, input_multi_operative),
                ("Convergence"@, SlotType::Internal, convergence),
                ("DiscriminantStarts"@, SlotType::Internal, discriminant_starts),
                ("Output"@, SlotType::Output, output),
            ],
        ImplStep::IteratorMap {
            input_collection,
            iteration_start_item,
            iteration_end_item,
            output_collection,
            ..
        } => seq![
            ("InputCollection"@, SlotType::Dependency, input_collection),
            ("IterationStartItem"@, SlotType::Internal, iteration_start_item),
            ("IterationEndItem"@, SlotType::Internal, iteration_end_item),
            ("OutputCollection"@, SlotType::Output, output_collection),
        ],
        ImplStep::TraverseSlot { input_operative, slot_name, output_operatives, .. } => seq![
            ("InputOperative"@, SlotType::Dependency, input_operative),
            ("SlotName"@, SlotType::Internal, slot_name),
            ("OutputOperatives"@, SlotType::Output, output_operatives),
        ],
        ImplStep::WhileLoop {
            initial_state,
            loop_state_ingestor,
            loop_exit_state,
            continue_while_bool,
            loop_state_stub,
            output,
            ..
        } => seq![
            ("InitialState"@, SlotType::Dependency, initial_state),
            ("LoopStateIngestor"@, SlotType::Internal, loop_state_ingestor),
            ("LoopExitState"@, SlotType::Internal, loop_exit_state),
            ("ContinueWhileBool"@, SlotType::Internal, continue_while_bool),
            ("LoopStateStub"@, SlotType::Internal, loop_state_stub),
            ("Output"@, SlotType::Output, output),
        ],
        ImplStep::MapToOutput { .. } => Seq::empty(),
        ImplStep::MapFromInput { .. } => Seq::empty(),
    }
}

/// Whether the step is a terminal of the flow rather than one of its steps.
pub open spec fn is_terminal_kind(k: StepKind) -> bool {
    k == StepKind::MapToOutput || k == StepKind::MapFromInput
}

/// The edge that a slot of a step stands for: from the step to the data node.
pub open spec fn slot_edge_view(step: ImplStep, slot: SlotView) -> EdgeView {
    (slot.0, slot.1, ExecutionNode::Step(step.spec_id(), step.spec_kind()), ExecutionNode::Data(slot.2))
}

/// The edges from a step to the data nodes in its slots, in slot order.
pub open spec fn step_edges(step: ImplStep) -> Seq<EdgeView> {
    step_slots(step).map_values(|slot: SlotView| slot_edge_view(step, slot))
}

fn slot_edge(name: &str, slot_type: SlotType, from: ExecutionNode, to: Uid) -> (e: ExecutionEdge)
    ensures
        e@ == (name@, slot_type, from, ExecutionNode::Data(to)),
{
    ExecutionEdge { slot_name: String::from_str(name), slot_type, from, to: ExecutionNode::Data(to) }
}

fn binary_output_slot_edge(op: BinaryOp, from: ExecutionNode, to: Uid) -> (e: ExecutionEdge)
    ensures
        e@ == (binary_output_name(op), SlotType::Output, from, ExecutionNode::Data(to)),
{
    match op {
        BinaryOp::MathDivide | BinaryOp::MathAdd | BinaryOp::MathModulus | BinaryOp::MathMultiply
        | BinaryOp::MathSubtract => slot_edge("OutputInt", SlotType::Output, from, to),
        BinaryOp::BitOr | BinaryOp::CompareEqual | BinaryOp::BitAnd | BinaryOp::CompareGreaterThan
        | BinaryOp::CompareLessThan => slot_edge("OutputBool", SlotType::Output, from, to),
    }
}

/// Appends an edge from `from` for each data node of `ids`, all under one slot.
fn push_slot_list(edges: &mut Vec<ExecutionEdge>, name: &str, slot_type: SlotType, from: ExecutionNode, ids: &Vec<Uid>)
    ensures
        edge_views(final(edges)@) == edge_views(old(edges)@) + ids@.map_values(
            |d: Uid| (name@, slot_type, from, ExecutionNode::Data(d)),
        ),
{
    let ghost start = edge_views(edges@);
    let mut i: usize = 0;
    while i < ids.len()
        invariant
            i <= ids@.len(),
            edge_views(edges@) == start + ids@.take(i as int).map_values(
                |d: Uid| (name@, slot_type, from, ExecutionNode::Data(d)),
            ),
        decreases ids@.len() - i,
    {
        let ghost before = edges@;
        edges.push(slot_edge(name, slot_type, from, ids[i]));
        proof {
            assert(edge_views(edges@) =~= edge_views(before).push(edges@[edges@.len() - 1]@));
            assert(ids@.take(i + 1) =~= ids@.take(i as int).push(ids@[i as int]));
            assert(ids@.take(i + 1).map_values(|d: Uid| (name@, slot_type, from, ExecutionNode::Data(d)))
                =~= ids@.take(i as int).map_values(|d: Uid| (name@, slot_type, from, ExecutionNode::Data(d))).push(
                (name@, slot_type, from, ExecutionNode::Data(ids@[i as int]))));
        }
        i = i + 1;
    }
    proof {
        assert(ids@.take(i as int) =~= ids@);
    }
}

/// The edges from a step to the data nodes in its slots, in slot order. The
/// terminal steps are no steps of the flow graph and are not accepted.
pub fn get_step_data_dependencies(step: &ImplStep) -> (r: Vec<ExecutionEdge>)
    requires
        !is_terminal_kind(step.spec_kind()),
    ensures
        edge_views(r@) == step_edges(*step),
{
    let from = ExecutionNode::Step(step.get_id(), step.kind());
    let r = match step {
        ImplStep::IsType { input_operative, output_bool, type_check_operative, .. } => vec![
            slot_edge("InputOperative", SlotType::Dependency, from, *input_operative),
            slot_edge("OutputBool", SlotType::Output, from, *output_bool),
            slot_edge("TypeCheckOperative", SlotType::Internal, from, *type_check_operative),
        ],
        ImplStep::GetCollectionLength { input_collection, output_int, .. } => vec![
            slot_edge("InputCollection", SlotType::Dependency, from, *input_collection),
            slot_edge("OutputInt", SlotType::Output, from, *output_int),
        ],
        ImplStep::Identity { input, output, .. } => vec![
            slot_edge("Input", SlotType::Dependency, from, *input),
            slot_edge("Output", SlotType::Output, from, *output),
        ],
        ImplStep::InvokeMethod { calling_operative, method_name, method_inputs, method_outputs, .. } => {
            let mut edges = vec![
                slot_edge("CallingOperative", SlotType::Dependency, from, *calling_operative),
                slot_edge("MethodName", SlotType::Dependency, from, *method_name),
            ];
            push_slot_list(&mut edges, "MethodInputs", SlotType::Dependency, from, method_inputs);
            push_slot_list(&mut edges, "MethodOutputs", SlotType::Output, from, method_outputs);
            edges
        },
        ImplStep::BitNot { input_bool, output_bool, .. } => vec![
            slot_edge("InputBool", SlotType::Dependency, from, *input_bool),
            slot_edge("OutputBool", SlotType::Output, from, *output_bool),
        ],
        ImplStep::Binary { op, argument_one, argument_two, output, .. } => vec![
            slot_edge("ArgumentOne", SlotType::Dependency, from, *argument_one),
            slot_edge("ArgumentTwo", SlotType::Dependency, from, *argument_two),
            binary_output_slot_edge(*op, from, *output),
        ],
        ImplStep::If { condition, true_branch, false_branch, output, .. } => {
            let mut edges: Vec<ExecutionEdge> = Vec::new();
            if output.len() > 0 {
                edges.push(slot_edge("Output", SlotType::Output, from, output[0]));
            }
            edges.push(slot_edge("Condition", SlotType::Dependency, from, *condition));
            edges.push(slot_edge("TrueBranch", SlotType::Internal, from, *true_branch));
            edges.push(slot_edge("FalseBranch", SlotType::Internal, from, *false_branch));
            edges
        },
        ImplStep::IteratorFilter {
            input_collection,
            iteration_end_bool,
            iteration_start_item,
            output_collection,
            ..
        } => vec![
            slot_edge("InputCollection", SlotType::Dependency, from, *input_collection),
            slot_edge("IterationEndBool", SlotType::Internal, from, *iteration_end_bool),
            slot_edge("IterationStartItem", SlotType::Internal, from, *iteration_start_item),
            slot_edge("OutputCollection", SlotType::Output, from, *output_collection),
        ],
        ImplStep::MutateSlot { mutated_operative, new_value, .. } => vec![
            slot_edge("MutatedOperative", SlotType::Dependency, from, *mutated_operative),
            slot_edge("NewValue", SlotType::Internal, from, *new_value),
        ],
        ImplStep::GetField { input_operative, field_name, output_field, .. } => vec![
            slot_edge("InputOperative", SlotType::Dependency, from, *input_operative),
            slot_edge("FieldName", SlotType::Dependency, from, *field_name),
            slot_edge("OutputField", SlotType::Output, from, *output_field),
        ],
        ImplStep::MutateField { mutated_operative, new_value, .. } => vec![
            slot_edge("MutatedOperative", SlotType::Dependency, from, *mutated_operative),
            slot_edge("NewValue", SlotType::Internal, from, *new_value),
        ],
        ImplStep::MultiTypeSplitter { input_multi_operative, convergence, discriminant_starts, output, .. } =>
            vec![
                slot_edge("InputMultiOperative", SlotType::Dependency, from, *input_multi_operative),
                slot_edge("Convergence", SlotType::Internal, from, *convergence),
                slot_edge("DiscriminantStarts", SlotType::Internal, from, *discriminant_starts),
                slot_edge("Output", SlotType::Output, from, *output),
            ],
        ImplStep::IteratorMap {
            input_collection,
            iteration_start_item,
            iteration_end_item,
            output_collection,
            ..
        } => vec![
            slot_edge("InputCollection", SlotType::Dependency, from, *input_collection),
            slot_edge("IterationStartItem", SlotType::Internal, from, *iteration_start_item),
            slot_edge("IterationEndItem", SlotType::Internal, from, *iteration_end_item),
            slot_edge("OutputCollection", SlotType::Output, from, *output_collection),
        ],
        ImplStep::TraverseSlot { input_operative, slot_name, output_operatives, .. } => vec![
            slot_edge("InputOperative", SlotType::Dependency, from, *input_operative),
            slot_edge("SlotName", SlotType::Internal, from, *slot_name),
            slot_edge("OutputOperatives", SlotType::Output, from, *output_operatives),
        ],
        ImplStep::WhileLoop {
            initial_state,
            loop_state_ingestor,
            loop_exit_state,
            continue_while_bool,
            loop_state_stub,
            output,
            ..
        } => vec![
            slot_edge("InitialState", SlotType::Dependency, from, *initial_state),
            slot_edge("LoopStateIngestor", SlotType::Internal, from, *loop_state_ingestor),
            slot_edge("LoopExitState", SlotType::Internal, from, *loop_exit_state),
            slot_edge("ContinueWhileBool", SlotType::Internal, from, *continue_while_bool),
            slot_edge("LoopStateStub", SlotType::Internal, from, *loop_state_stub),
            slot_edge("Output", SlotType::Output, from, *output),
        ],
        ImplStep::MapToOutput { .. } => Vec::new(),
        ImplStep::MapFromInput { .. } => Vec::new(),
    };
    proof {
        assert(edge_views(r@) =~= step_edges(*step));
    }
    r
}

/// The execution flow graph of a method implementation.
#[derive(Clone, Debug)]
pub struct ExecutionGraph {
    /// All nodes in the graph, each under its identifier.
    pub nodes: HashMap<Uid, ExecutionNode>,
    /// All edges in the graph.
    pub edges: Vec<ExecutionEdge>,
    /// For each step, the data nodes that come from it.
    pub step_data_dependencies: HashMap<Uid, Vec<Uid>>,
    /// For each data node, the steps it comes from.
    pub data_dependent_steps: HashMap<Uid, Vec<Uid>>,
    /// The output terminals of the execution.
    pub terminals: Vec<Uid>,
    /// The data nodes that no edge leads to.
    pub inputs: Vec<Uid>,
}

fn named_edge(name: &str, slot_type: SlotType, from: ExecutionNode, to: ExecutionNode) -> (e: ExecutionEdge)
    ensures
        e@ == (name@, slot_type, from, to),
{
    ExecutionEdge { slot_name: String::from_str(name), slot_type, from, to }
}

/// The nodes that the traversal reaches from `n`, and the edges it records there.
fn expand_node(m: &MethodImplementation, n: ExecutionNode) -> (r: (Vec<ExecutionNode>, Vec<ExecutionEdge>))
    requires
        flow_wf(*m),
        canonical(*m, n),
    ensures
        r.0@ == node_successors(*m, n),
        edge_views(r.1@) == node_edges(*m, n),
{
    match n {
        ExecutionNode::Terminal(ExecutionNodeTerminal::Output(t)) => {
            let si = find_step(m, t);
            proof {
                lemma_step_index_unique(m, si as int, t);
            }
            let input = match &m.steps[si] {
                ImplStep::MapToOutput { input, .. } => *input,
                other => other.get_id(),
            };
            let succs = vec![ExecutionNode::Data(input)];
            let edges = vec![named_edge("input", SlotType::Dependency, ExecutionNode::Data(input), n)];
            proof {
                assert(edge_views(edges@) =~= node_edges(*m, n));
            }
            (succs, edges)
        },
        ExecutionNode::Data(d) => {
            let di = find_data(m, d);
            proof {
                lemma_data_index_unique(m, di as int, d);
            }
            let ups = &m.data[di].upstream_steps;
            let mut succs: Vec<ExecutionNode> = Vec::new();
            let mut edges: Vec<ExecutionEdge> = Vec::new();
            let mut k: usize = 0;
            while k < ups.len()
                invariant
                    flow_wf(*m),
                    di < m.data@.len(),
                    di as int == m.data_index(d),
                    ups@ == upstream_of(*m, d),
                    n == ExecutionNode::Data(d),
                    k <= ups@.len(),
                    succs@ == ups@.take(k as int).map_values(|u: Uid| upstream_node(*m, u)),
                    edge_views(edges@) == ups@.take(k as int).map_values(
                        |u: Uid| ("upstream"@, SlotType::Dependency, upstream_node(*m, u), n),
                    ),
                decreases ups@.len() - k,
            {
                let u = ups[k];
                assert(m.has_step(m.data@[di as int].upstream_steps@[k as int]));
                let si = find_step(m, u);
                proof {
                    lemma_step_index_unique(m, si as int, u);
                }
                let kind = m.steps[si].kind();
                let node = if kind == StepKind::MapFromInput {
                    ExecutionNode::Terminal(ExecutionNodeTerminal::Input(u))
                } else {
                    ExecutionNode::Step(u, kind)
                };
                let ghost before = edges@;
                succs.push(node);
                edges.push(named_edge("upstream", SlotType::Dependency, node, n));
                proof {
                    assert(ups@.take(k + 1) =~= ups@.take(k as int).push(u));
                    assert(succs@ =~= ups@.take(k + 1).map_values(|u: Uid| upstream_node(*m, u)));
                    assert(edge_views(edges@) =~= edge_views(before).push(edges@[k as int]@));
                    assert(edge_views(edges@) =~= ups@.take(k + 1).map_values(
                        |u: Uid| ("upstream"@, SlotType::Dependency, upstream_node(*m, u), n),
                    ));
                }
                k = k + 1;
            }
            proof {
                assert(ups@.take(k as int) =~= ups@);
            }
            (succs, edges)
        },
        ExecutionNode::Step(s, _) => {
            let si = find_step(m, s);
            proof {
                lemma_step_index_unique(m, si as int, s);
            }
            let edges = get_step_data_dependencies(&m.steps[si]);
            let ghost slots = step_slots(m.steps@[si as int]);
            assert(edges@.len() == edge_views(edges@).len());
            assert(slots.len() == step_edges(m.steps@[si as int]).len());
            let mut succs: Vec<ExecutionNode> = Vec::new();
            let mut k: usize = 0;
            while k < edges.len()
                invariant
                    si < m.steps@.len(),
                    edge_views(edges@) == step_edges(m.steps@[si as int]),
                    slots == step_slots(m.steps@[si as int]),
                    edges@.len() == slots.len(),
                    k <= edges@.len(),
                    succs@ == slots.take(k as int).map_values(|slot: SlotView| ExecutionNode::Data(slot.2)),
                decreases edges@.len() - k,
            {
                assert(edge_views(edges@)[k as int] == edges@[k as int]@);
                assert(step_edges(m.steps@[si as int])[k as int] == slot_edge_view(m.steps@[si as int], slots[k as int]));
                succs.push(edges[k].to);
                proof {
                    assert(slots.take(k + 1) =~= slots.take(k as int).push(slots[k as int]));
                    assert(succs@ =~= slots.take(k + 1).map_values(|slot: SlotView| ExecutionNode::Data(slot.2)));
                }
                k = k + 1;
            }
            proof {
                assert(slots.take(k as int) =~= slots);
            }
            (succs, edges)
        },
        ExecutionNode::Terminal(ExecutionNodeTerminal::Input(_)) => {
            let succs: Vec<ExecutionNode> = Vec::new();
            let edges: Vec<ExecutionEdge> = Vec::new();
            proof {
                assert(edge_views(edges@) =~= node_edges(*m, n));
            }
            (succs, edges)
        },
    }
}

/// Whether `q` lists `n`.
fn contains_node(q: &Vec<ExecutionNode>, n: ExecutionNode) -> (r: bool)
    ensures
        r == q@.contains(n),
{
    let mut i: usize = 0;
    while i < q.len()
        invariant
            i <= q@.len(),
            forall|j: int| 0 <= j < i ==> q@[j] != n,
        decreases q@.len() - i,
    {
        if q[i] == n {
            assert(q@[i as int] == n);
            return true;
        }
        i = i + 1;
    }
    false
}

/// The queue `q` with each of the first `k` of `succs` that it does not hold
/// yet appended, in order.
pub open spec fn enqueue(q: Seq<ExecutionNode>, succs: Seq<ExecutionNode>, k: nat) -> Seq<ExecutionNode>
    decreases k,
{
    if k == 0 {
        q
    } else {
        let p = enqueue(q, succs, (k - 1) as nat);
        if p.contains(succs[k - 1]) {
            p
        } else {
            p.push(succs[k - 1])
        }
    }
}

/// The nodes that the traversal visits, in order, from a queue whose first
/// `head` nodes it has visited, within `fuel` more visits.
pub open spec fn bfs_queue(m: MethodImplementation, q: Seq<ExecutionNode>, head: nat, fuel: nat) -> Seq<ExecutionNode>
    decreases fuel,
{
    if fuel == 0 || head >= q.len() {
        q
    } else {
        bfs_queue(
            m,
            enqueue(q, node_successors(m, q[head as int]), node_successors(m, q[head as int]).len()),
            head + 1,
            (fuel - 1) as nat,
        )
    }
}

/// The nodes that the traversal from the output terminal `t` visits, in the
/// order it visits them: breadth first, each node's successors in order.
pub open spec fn terminal_order(m: MethodImplementation, t: Uid) -> Seq<ExecutionNode> {
    bfs_queue(m, seq![output_root(t)], 0, (m.data@.len() + m.steps@.len()) as nat)
}

/// The nodes that the traversals from the first `n` terminals of `ts` visit,
/// one traversal after the other.
pub open spec fn visit_order(m: MethodImplementation, ts: Seq<Uid>, n: nat) -> Seq<ExecutionNode>
    decreases n,
{
    if n == 0 {
        Seq::empty()
    } else {
        visit_order(m, ts, (n - 1) as nat) + terminal_order(m, ts[n - 1])
    }
}

/// The edges recorded at the visits of `p`, in order.
pub open spec fn edges_at(m: MethodImplementation, p: Seq<ExecutionNode>) -> Seq<EdgeView>
    decreases p.len(),
{
    if p.len() == 0 {
        Seq::empty()
    } else {
        edges_at(m, p.drop_last()) + node_edges(m, p.last())
    }
}

/// The data node `d` once for each time `s` occurs among `ups`.
pub open spec fn data_for_step(ups: Seq<Uid>, s: Uid, d: Uid) -> Seq<Uid>
    decreases ups.len(),
{
    if ups.len() == 0 {
        Seq::empty()
    } else {
        data_for_step(ups.drop_last(), s, d) + if ups.last() == s {
            seq![d]
        } else {
            Seq::empty()
        }
    }
}

/// What the visits of `p` record for the step `s`: each visited data node, once
/// for each time `s` occurs among the steps it comes from.
pub open spec fn step_deps(m: MethodImplementation, p: Seq<ExecutionNode>, s: Uid) -> Seq<Uid>
    decreases p.len(),
{
    if p.len() == 0 {
        Seq::empty()
    } else {
        step_deps(m, p.drop_last(), s) + match p.last() {
            ExecutionNode::Data(d) => data_for_step(upstream_of(m, d), s, d),
            _ => Seq::empty(),
        }
    }
}

/// What the visits of `p` record for the data node `d`: the steps it comes
/// from, once for each visit of `d`.
pub open spec fn data_deps(m: MethodImplementation, p: Seq<ExecutionNode>, d: Uid) -> Seq<Uid>
    decreases p.len(),
{
    if p.len() == 0 {
        Seq::empty()
    } else {
        data_deps(m, p.drop_last(), d) + if p.last() == ExecutionNode::Data(d) {
            upstream_of(m, d)
        } else {
            Seq::empty()
        }
    }
}

/// The lists of `map` are `f` of their keys, for exactly the keys whose `f` is
/// not empty.
pub open spec fn lists_are(map: Map<Uid, Vec<Uid>>, f: spec_fn(Uid) -> Seq<Uid>) -> bool {
    &&& forall|k: Uid| #[trigger] map.contains_key(k) <==> f(k).len() > 0
    &&& forall|k: Uid| #[trigger] map.contains_key(k) ==> map[k]@ == f(k)
}

proof fn lemma_lists_step(
    old: Map<Uid, Vec<Uid>>,
    new: Map<Uid, Vec<Uid>>,
    f: spec_fn(Uid) -> Seq<Uid>,
    g: spec_fn(Uid) -> Seq<Uid>,
    key: Uid,
    value: Uid,
)
    requires
        lists_are(old, f),
        list_appended(old, new, key, value),
        g(key) == f(key).push(value),
        forall|k: Uid| k != key ==> #[trigger] g(k) == f(k),
    ensures
        lists_are(new, g),
{
    assert forall|k: Uid| #[trigger] new.contains_key(k) <==> g(k).len() > 0 by {
        if k != key {
            assert(g(k) == f(k));
        }
    }
    assert forall|k: Uid| #[trigger] new.contains_key(k) implies new[k]@ == g(k) by {
        if k != key {
            assert(g(k) == f(k));
            assert(old.contains_key(k));
        } else {
            if !old.contains_key(key) {
                assert(f(key).len() == 0);
                assert(f(key) =~= Seq::<Uid>::empty());
            }
        }
    }
}

proof fn lemma_lists_same(map: Map<Uid, Vec<Uid>>, f: spec_fn(Uid) -> Seq<Uid>, g: spec_fn(Uid) -> Seq<Uid>)
    requires
        lists_are(map, f),
        forall|k: Uid| #[trigger] g(k) == f(k),
    ensures
        lists_are(map, g),
{
    assert forall|k: Uid| #[trigger] map.contains_key(k) <==> g(k).len() > 0 by {
        assert(g(k) == f(k));
    }
    assert forall|k: Uid| #[trigger] map.contains_key(k) implies map[k]@ == g(k) by {
        assert(g(k) == f(k));
    }
}

/// Appends `value` to the list under `key`, creating the list where missing.
fn add_dep(map: &mut HashMap<Uid, Vec<Uid>>, key: Uid, value: Uid)
    ensures
        list_appended(old(map)@, final(map)@, key, value),
{
    let mut list = match map.remove(&key) {
        Some(v) => v,
        None => Vec::new(),
    };
    list.push(value);
    map.insert(key, list);
}

/// Traverses the flow backwards from the output terminal `terminal_id`,
/// recording the nodes, edges and dependencies met in `g`. `roots` are the
/// terminals traversed before.
fn build_graph_from_terminal(
    g: &mut ExecutionGraph,
    m: &MethodImplementation,
    terminal_id: Uid,
    Ghost(roots): Ghost<Seq<Uid>>,
    Ghost(p0): Ghost<Seq<ExecutionNode>>,
)
    requires
        flow_wf(*m),
        roots_wf(*m, roots),
        canonical(*m, output_root(terminal_id)),
        edges_state(*old(g), *m, roots, Seq::empty()),
        nodes_state(*old(g), *m, roots, seq![output_root(terminal_id)]),
        deps_state(*old(g), *m, roots, Seq::empty(), 0, 0),
        edge_views(old(g).edges@) == edges_at(*m, p0),
        lists_are(old(g).step_data_dependencies@, |s: Uid| step_deps(*m, p0, s)),
        lists_are(old(g).data_dependent_steps@, |d: Uid| data_deps(*m, p0, d)),
    ensures
        edges_state(*final(g), *m, roots.push(terminal_id), Seq::empty()),
        nodes_state(*final(g), *m, roots.push(terminal_id), Seq::empty()),
        deps_state(*final(g), *m, roots.push(terminal_id), Seq::empty(), 0, 0),
        final(g).terminals == old(g).terminals,
        final(g).inputs == old(g).inputs,
        edge_views(final(g).edges@) == edges_at(*m, p0 + terminal_order(*m, terminal_id)),
        lists_are(final(g).step_data_dependencies@, |s: Uid| step_deps(*m, p0 + terminal_order(*m, terminal_id), s)),
        lists_are(final(g).data_dependent_steps@, |d: Uid| data_deps(*m, p0 + terminal_order(*m, terminal_id), d)),
{
    let root = ExecutionNode::Terminal(ExecutionNodeTerminal::Output(terminal_id));
    let mut queue: Vec<ExecutionNode> = vec![root];
    let mut head: usize = 0;
    let ghost fuel_all: int = (m.data@.len() + m.steps@.len()) as int;
    proof {
        assert(queue@.take(0) =~= Seq::<ExecutionNode>::empty());
        assert(queue@ =~= seq![root]);
        assert(reaches_within(*m, root, root, 1));
        assert(p0 + queue@.take(0) =~= p0);
    }
    while head < queue.len()
        invariant
            fuel_all == m.data@.len() + m.steps@.len(),
            bfs_queue(*m, queue@, head as nat, (fuel_all - head) as nat) == terminal_order(*m, terminal_id),
            edge_views(g.edges@) == edges_at(*m, p0 + queue@.take(head as int)),
            lists_are(g.step_data_dependencies@, |s: Uid| step_deps(*m, p0 + queue@.take(head as int), s)),
            lists_are(g.data_dependent_steps@, |d: Uid| data_deps(*m, p0 + queue@.take(head as int), d)),
            flow_wf(*m),
            roots_wf(*m, roots),
            root == output_root(terminal_id),
            canonical(*m, root),
            0 < queue@.len() <= m.data@.len() + m.steps@.len(),
            head <= queue@.len(),
            queue@[0] == root,
            queue@.no_duplicates(),
            forall|i: int| 0 <= i < queue@.len() ==> canonical(*m, #[trigger] queue@[i]),
            forall|i: int| 0 <= i < queue@.len() ==> reaches(*m, root, #[trigger] queue@[i]),
            forall|i: int, k: int| 0 <= i < head && 0 <= k < node_successors(*m, queue@[i]).len()
                ==> queue@.contains(#[trigger] node_successors(*m, queue@[i])[k]),
            edges_state(*g, *m, roots, queue@.take(head as int)),
            nodes_state(*g, *m, roots, queue@),
            deps_state(*g, *m, roots, queue@.take(head as int), 0, 0),
            g.terminals == old(g).terminals,
            g.inputs == old(g).inputs,
        decreases m.data@.len() + m.steps@.len() - head,
    {
        let node = queue[head];
        let ghost done = queue@.take(head as int);
        let ghost fuel = choose|f: nat| #[trigger] reaches_within(*m, root, node, f);
        assert(reaches(*m, root, queue@[head as int]));
        proof {
            assert(queue@.take(head + 1) =~= done.push(node));
            lemma_successors_canonical(*m, node);
        }
        let (succs, mut new_edges) = expand_node(m, node);
        let ghost p_old = p0 + done;
        let ghost p_new = p0 + done.push(node);
        proof {
            assert(p_new.drop_last() =~= p_old);
            assert(p_new.last() == node);
            assert(done =~= queue@.take(head as int));
        }

        // Edges.
        let ghost g_before = *g;
        g.edges.append(&mut new_edges);
        proof {
            assert(edge_views(g.edges@) =~= edge_views(g_before.edges@) + node_edges(*m, node));
            lemma_edges_record(g_before, *g, *m, roots, done, node);
            assert(edge_views(g.edges@) == edges_at(*m, p_new));
        }

        // Nodes, and the queue.
        let ghost queue_before = queue@;
        let mut k: usize = 0;
        while k < succs.len()
            invariant
                queue@ == enqueue(queue_before, succs@, k as nat),
                edge_views(g.edges@) == edges_at(*m, p_new),
                lists_are(g.step_data_dependencies@, |s: Uid| step_deps(*m, p_old, s)),
                lists_are(g.data_dependent_steps@, |d: Uid| data_deps(*m, p_old, d)),
                flow_wf(*m),
                roots_wf(*m, roots),
                root == output_root(terminal_id),
                canonical(*m, node),
                reaches_within(*m, root, node, fuel),
                succs@ == node_successors(*m, node),
                forall|j: int| 0 <= j < succs@.len() ==> canonical(*m, #[trigger] node_successors(*m, node)[j]),
                k <= succs@.len(),
                0 < queue@.len() <= m.data@.len() + m.steps@.len(),
                head < queue@.len(),
                queue@.take(head + 1) == done.push(node),
                queue@[0] == root,
                queue@.no_duplicates(),
                queue_before.len() <= queue@.len(),
                forall|i: int| 0 <= i < queue_before.len() ==> queue@[i] == queue_before[i],
                forall|i: int| 0 <= i < queue@.len() ==> canonical(*m, #[trigger] queue@[i]),
                forall|i: int| 0 <= i < queue@.len() ==> reaches(*m, root, #[trigger] queue@[i]),
                forall|j: int| 0 <= j < k ==> queue@.contains(#[trigger] succs@[j]),
                forall|x: ExecutionNode| #[trigger] queue@.contains(x) ==> (queue_before.contains(x) || succs@.contains(x)),
                nodes_state(*g, *m, roots, queue@),
                edges_state(*g, *m, roots, done.push(node)),
                deps_state(*g, *m, roots, done, 0, 0),
                g.terminals == old(g).terminals,
                g.inputs == old(g).inputs,
            decreases succs@.len() - k,
        {
            let n = succs[k];
            assert(canonical(*m, node_successors(*m, node)[k as int]));
            let ghost g1 = *g;
            let ghost q1 = queue@;
            g.nodes.insert(n.get_id(), n);
            if !contains_node(&queue, n) {
                queue.push(n);
                proof {
                    lemma_push_contains(q1, n);
                    lemma_reaches_extend(*m, root, node, fuel, k as int);
                    assert(reaches(*m, root, n));
                    assert forall|i: int| 0 <= i < queue@.len() implies canonical(*m, #[trigger] queue@[i]) by {
                        if i < q1.len() {
                            assert(canonical(*m, q1[i]));
                        }
                    }
                    assert forall|i: int| 0 <= i < queue@.len() implies reaches(*m, root, #[trigger] queue@[i]) by {
                        if i < q1.len() {
                            assert(reaches(*m, root, q1[i]));
                        }
                    }
                    lemma_canonical_list_bounded(*m, queue@);
                    assert(queue@.take(head + 1) =~= q1.take(head + 1));
                }
            } else {
                proof {
                    assert forall|x: ExecutionNode| #[trigger] queue@.contains(x) <==> (q1.contains(x) || x == n) by {}
                }
            }
            proof {
                lemma_nodes_record(g1, *g, *m, roots, q1, queue@, n);
                assert forall|j: int| 0 <= j < k + 1 implies queue@.contains(#[trigger] succs@[j]) by {
                    if j < k {
                        assert(q1.contains(succs@[j]));
                    }
                }
                assert forall|x: ExecutionNode| #[trigger] queue@.contains(x) implies (queue_before.contains(x)
                    || succs@.contains(x)) by {
                    if x == n {
                        assert(succs@[k as int] == n);
                    } else {
                        assert(q1.contains(x));
                    }
                }
            }
            k = k + 1;
        }

        proof {
            assert(queue_before[head as int] == node);
            assert(bfs_queue(*m, queue_before, head as nat, (fuel_all - head) as nat) == bfs_queue(
                *m,
                queue@,
                (head + 1) as nat,
                (fuel_all - head - 1) as nat,
            ));
        }

        // Dependencies.
        let ghost g_mid = *g;
        match node {
            ExecutionNode::Data(d) => {
                let di = find_data(m, d);
                proof {
                    lemma_data_index_unique(m, di as int, d);
                    lemma_deps_transfer(*g, *m, roots, done, 0, 0, roots, done, d, 0);
                }
                let ups = &m.data[di].upstream_steps;
                proof {
                    assert(ups@.take(0) =~= Seq::<Uid>::empty());
                    lemma_lists_same(
                        g.step_data_dependencies@,
                        |s: Uid| step_deps(*m, p_old, s),
                        |s: Uid| step_deps(*m, p_old, s) + data_for_step(ups@.take(0), s, d),
                    );
                    lemma_lists_same(
                        g.data_dependent_steps@,
                        |x: Uid| data_deps(*m, p_old, x),
                        |x: Uid| data_deps(*m, p_old, x) + if x == d { ups@.take(0) } else { Seq::empty() },
                    );
                }
                let mut j: usize = 0;
                while j < ups.len()
                    invariant
                        ups@ == upstream_of(*m, d),
                        j <= ups@.len(),
                        deps_state(*g, *m, roots, done, d, j as int),
                        lists_are(
                            g.step_data_dependencies@,
                            |s: Uid| step_deps(*m, p_old, s) + data_for_step(ups@.take(j as int), s, d),
                        ),
                        lists_are(
                            g.data_dependent_steps@,
                            |x: Uid| data_deps(*m, p_old, x) + if x == d { ups@.take(j as int) } else { Seq::empty() },
                        ),
                        g.edges == g_mid.edges,
                        g.nodes == g_mid.nodes,
                        g.terminals == g_mid.terminals,
                        g.inputs == g_mid.inputs,
                    decreases ups@.len() - j,
                {
                    let ghost g1 = *g;
                    add_dep(&mut g.step_data_dependencies, ups[j], d);
                    add_dep(&mut g.data_dependent_steps, d, ups[j]);
                    proof {
                        lemma_deps_add(g1, *g, *m, roots, done, d, j as int);
                        let u = ups@[j as int];
                        let t1 = ups@.take(j as int);
                        let t2 = ups@.take(j + 1);
                        assert(t2.drop_last() =~= t1);
                        assert(t2.last() == u);
                        assert(data_for_step(t2, u, d) == data_for_step(t1, u, d) + seq![d]);
                        assert(step_deps(*m, p_old, u) + data_for_step(t2, u, d) =~= (step_deps(*m, p_old, u)
                            + data_for_step(t1, u, d)).push(d));
                        lemma_lists_step(
                            g1.step_data_dependencies@,
                            g.step_data_dependencies@,
                            |s: Uid| step_deps(*m, p_old, s) + data_for_step(t1, s, d),
                            |s: Uid| step_deps(*m, p_old, s) + data_for_step(t2, s, d),
                            u,
                            d,
                        );
                        assert(t2 =~= t1.push(u));
                        assert(data_deps(*m, p_old, d) + t2 =~= (data_deps(*m, p_old, d) + t1).push(u));
                        lemma_lists_step(
                            g1.data_dependent_steps@,
                            g.data_dependent_steps@,
                            |x: Uid| data_deps(*m, p_old, x) + if x == d { t1 } else { Seq::empty() },
                            |x: Uid| data_deps(*m, p_old, x) + if x == d { t2 } else { Seq::empty() },
                            d,
                            u,
                        );
                    }
                    j = j + 1;
                }
                proof {
                    lemma_push_contains(done, node);
                    assert(ups@.take(j as int) =~= ups@);
                    lemma_deps_transfer(*g, *m, roots, done, d, j as int, roots, done.push(node), 0, 0);
                    lemma_lists_same(
                        g.step_data_dependencies@,
                        |s: Uid| step_deps(*m, p_old, s) + data_for_step(ups@.take(j as int), s, d),
                        |s: Uid| step_deps(*m, p_new, s),
                    );
                    lemma_lists_same(
                        g.data_dependent_steps@,
                        |x: Uid| data_deps(*m, p_old, x) + if x == d { ups@.take(j as int) } else { Seq::empty() },
                        |x: Uid| data_deps(*m, p_new, x),
                    );
                }
            },
            _ => {
                proof {
                    lemma_push_contains(done, node);
                    lemma_deps_transfer(*g, *m, roots, done, 0, 0, roots, done.push(node), 0, 0);
                    assert forall|s: Uid| #[trigger] step_deps(*m, p_new, s) == step_deps(*m, p_old, s) by {
                        assert(step_deps(*m, p_new, s) =~= step_deps(*m, p_old, s) + Seq::<Uid>::empty());
                    }
                    assert forall|x: Uid| #[trigger] data_deps(*m, p_new, x) == data_deps(*m, p_old, x) by {
                        assert(data_deps(*m, p_new, x) =~= data_deps(*m, p_old, x) + Seq::<Uid>::empty());
                    }
                    lemma_lists_same(
                        g.step_data_dependencies@,
                        |s: Uid| step_deps(*m, p_old, s),
                        |s: Uid| step_deps(*m, p_new, s),
                    );
                    lemma_lists_same(
                        g.data_dependent_steps@,
                        |x: Uid| data_deps(*m, p_old, x),
                        |x: Uid| data_deps(*m, p_new, x),
                    );
                }
            },
        }
        proof {
            assert forall|i: int, k: int| 0 <= i < head + 1 && 0 <= k < node_successors(*m, queue@[i]).len()
                implies queue@.contains(#[trigger] node_successors(*m, queue@[i])[k]) by {
                if i == head {
                    assert(succs@[k] == node_successors(*m, queue@[i])[k]);
                } else {
                    assert(queue_before.contains(node_successors(*m, queue_before[i])[k]));
                    let w = choose|w: int| 0 <= w < queue_before.len() && queue_before[w] == node_successors(*m, queue_before[i])[k];
                    assert(queue@[w] == queue_before[w]);
                }
            }
            assert(p0 + queue@.take(head + 1) =~= p_new);
        }
        head = head + 1;
    }
    proof {
        assert(queue@ == terminal_order(*m, terminal_id));
        assert(p0 + queue@.take(head as int) =~= p0 + terminal_order(*m, terminal_id));
        let full = queue@;
        assert(full.take(head as int) =~= full);
        assert(full.contains(root)) by {
            assert(full[0] == root);
        }
        assert forall|x: ExecutionNode| processed(*m, roots, full, x) == processed(*m, roots.push(terminal_id), Seq::empty(), x) by {
            lemma_reached_from_push(*m, roots, terminal_id, x);
            if reaches(*m, root, x) {
                let f = choose|f: nat| #[trigger] reaches_within(*m, root, x, f);
                lemma_closed_holds_reached(*m, full, root, x, f);
            }
            if full.contains(x) {
                let i = choose|i: int| 0 <= i < full.len() && full[i] == x;
                assert(reaches(*m, root, full[i]));
            }
        }
        lemma_deps_transfer(*g, *m, roots, full, 0, 0, roots.push(terminal_id), Seq::empty(), 0, 0);
        lemma_nodes_transfer(*g, *m, roots, full, roots.push(terminal_id), Seq::empty());
        lemma_edges_transfer(*g, *m, roots, full, roots.push(terminal_id), Seq::empty());
    }
}

/// `d` is an input of the flow graph `g` of `m`: a reached data node that no
/// edge of `g` leads to.
pub open spec fn is_flow_input(g: ExecutionGraph, m: MethodImplementation, d: Uid) -> bool {
    &&& flow_reached(m, ExecutionNode::Data(d))
    &&& forall|i: int| 0 <= i < g.edges@.len() ==> g.edges@[i].to != ExecutionNode::Data(d)
}

/// `g` is the execution flow graph of `m`: the traversal backwards from each
/// output terminal of `m` in turn, where every node reached is recorded under
/// its identifier, with the edges recorded at it, and every reached data node
/// with the steps it comes from.
pub open spec fn describes_flow(g: ExecutionGraph, m: MethodImplementation) -> bool {
    &&& g.terminals@ == m.map_to_outputs@
    &&& forall|n: ExecutionNode| #[trigger] flow_reached(m, n)
        ==> g.nodes@.contains_key(n.spec_id()) && g.nodes@[n.spec_id()] == n
    &&& forall|k: Uid| #[trigger] g.nodes@.contains_key(k)
        ==> flow_reached(m, g.nodes@[k]) && g.nodes@[k].spec_id() == k
    &&& forall|e: EdgeView|
        edge_views(g.edges@).contains(e) <==> exists|p: ExecutionNode|
            flow_reached(m, p) && #[trigger] node_edges(m, p).contains(e)
    &&& forall|s: Uid|
        g.step_data_dependencies@.contains_key(s) <==> exists|d: Uid|
            flow_reached(m, ExecutionNode::Data(d)) && #[trigger] upstream_of(m, d).contains(s)
    &&& forall|s: Uid, d: Uid| #[trigger] g.step_data_dependencies@[s]@.contains(d)
        ==> g.step_data_dependencies@.contains_key(s) ==> (flow_reached(m, ExecutionNode::Data(d))
            && upstream_of(m, d).contains(s))
    &&& forall|s: Uid, d: Uid| #[trigger] g.step_data_dependencies@.contains_key(s)
        && flow_reached(m, ExecutionNode::Data(d)) && #[trigger] upstream_of(m, d).contains(s)
        ==> g.step_data_dependencies@[s]@.contains(d)
    &&& forall|d: Uid| #[trigger] g.data_dependent_steps@.contains_key(d)
        <==> (flow_reached(m, ExecutionNode::Data(d)) && upstream_of(m, d).len() > 0)
    &&& forall|d: Uid, s: Uid| #[trigger] g.data_dependent_steps@.contains_key(d) ==> (
        #[trigger] g.data_dependent_steps@[d]@.contains(s) <==> upstream_of(m, d).contains(s))
    &&& forall|d: Uid| #[trigger] g.inputs@.contains(d) <==> is_flow_input(g, m, d)
    &&& g.inputs@.no_duplicates()
}

/// The traversal of all output terminals, with its inputs, describes the flow.
proof fn lemma_describes_flow(g: ExecutionGraph, m: MethodImplementation)
    requires
        g.terminals@ == m.map_to_outputs@,
        edges_state(g, m, m.map_to_outputs@, Seq::empty()),
        nodes_state(g, m, m.map_to_outputs@, Seq::empty()),
        deps_state(g, m, m.map_to_outputs@, Seq::empty(), 0, 0),
        forall|d: Uid| #[trigger] g.inputs@.contains(d) <==> is_flow_input(g, m, d),
        g.inputs@.no_duplicates(),
    ensures
        describes_flow(g, m),
{
    let outs = m.map_to_outputs@;
    let e0 = Seq::<ExecutionNode>::empty();
    assert forall|n: ExecutionNode| #[trigger] flow_reached(m, n)
        implies g.nodes@.contains_key(n.spec_id()) && g.nodes@[n.spec_id()] == n by {
        assert(processed(m, outs, e0, n));
    }
    assert forall|k: Uid| #[trigger] g.nodes@.contains_key(k)
        implies flow_reached(m, g.nodes@[k]) && g.nodes@[k].spec_id() == k by {
        assert(processed(m, outs, e0, g.nodes@[k]));
    }
    assert forall|e: EdgeView|
        edge_views(g.edges@).contains(e) <==> exists|p: ExecutionNode|
            flow_reached(m, p) && #[trigger] node_edges(m, p).contains(e) by {
        if edge_views(g.edges@).contains(e) {
            let p = choose|p: ExecutionNode| processed(m, outs, e0, p) && #[trigger] node_edges(m, p).contains(e);
            assert(flow_reached(m, p));
        }
        if exists|p: ExecutionNode| flow_reached(m, p) && #[trigger] node_edges(m, p).contains(e) {
            let p = choose|p: ExecutionNode| flow_reached(m, p) && #[trigger] node_edges(m, p).contains(e);
            assert(processed(m, outs, e0, p));
        }
    }
    assert forall|s: Uid|
        g.step_data_dependencies@.contains_key(s) <==> exists|d: Uid|
            flow_reached(m, ExecutionNode::Data(d)) && #[trigger] upstream_of(m, d).contains(s) by {
        if g.step_data_dependencies@.contains_key(s) {
            let d = choose|d: Uid| #[trigger] dep_recorded(m, outs, e0, 0, 0, s, d);
            assert(upstream_of(m, d).contains(s));
        }
        if exists|d: Uid| flow_reached(m, ExecutionNode::Data(d)) && #[trigger] upstream_of(m, d).contains(s) {
            let d = choose|d: Uid| flow_reached(m, ExecutionNode::Data(d)) && #[trigger] upstream_of(m, d).contains(s);
            assert(dep_recorded(m, outs, e0, 0, 0, s, d));
        }
    }
    assert forall|s: Uid, d: Uid| #[trigger] g.step_data_dependencies@[s]@.contains(d)
        implies g.step_data_dependencies@.contains_key(s) ==> (flow_reached(m, ExecutionNode::Data(d))
            && upstream_of(m, d).contains(s)) by {
        if g.step_data_dependencies@.contains_key(s) {
            assert(dep_recorded(m, outs, e0, 0, 0, s, d));
        }
    }
    assert forall|s: Uid, d: Uid| #[trigger] g.step_data_dependencies@.contains_key(s)
        && flow_reached(m, ExecutionNode::Data(d)) && #[trigger] upstream_of(m, d).contains(s)
        implies g.step_data_dependencies@[s]@.contains(d) by {
        assert(dep_recorded(m, outs, e0, 0, 0, s, d));
    }
    assert forall|d: Uid| #[trigger] g.data_dependent_steps@.contains_key(d)
        <==> (flow_reached(m, ExecutionNode::Data(d)) && upstream_of(m, d).len() > 0) by {
        if g.data_dependent_steps@.contains_key(d) {
            let s = choose|s: Uid| #[trigger] dep_recorded(m, outs, e0, 0, 0, s, d);
            assert(upstream_of(m, d).contains(s));
        }
        if flow_reached(m, ExecutionNode::Data(d)) && upstream_of(m, d).len() > 0 {
            let s = upstream_of(m, d)[0];
            assert(upstream_of(m, d).contains(s));
            assert(dep_recorded(m, outs, e0, 0, 0, s, d));
        }
    }
    assert forall|d: Uid, s: Uid| #[trigger] g.data_dependent_steps@.contains_key(d) implies (
        #[trigger] g.data_dependent_steps@[d]@.contains(s) <==> upstream_of(m, d).contains(s)) by {
        let s0 = choose|s0: Uid| #[trigger] dep_recorded(m, outs, e0, 0, 0, s0, d);
        assert(dep_recorded(m, outs, e0, 0, 0, s, d) <==> upstream_of(m, d).contains(s));
    }
}

/// Whether some edge of `edges` leads to `n`.
fn has_edge_to(edges: &Vec<ExecutionEdge>, n: ExecutionNode) -> (r: bool)
    ensures
        r == exists|i: int| 0 <= i < edges@.len() && edges@[i].to == n,
{
    let mut i: usize = 0;
    while i < edges.len()
        invariant
            i <= edges@.len(),
            forall|j: int| 0 <= j < i ==> edges@[j].to != n,
        decreases edges@.len() - i,
    {
        if edges[i].to == n {
            return true;
        }
        i = i + 1;
    }
    false
}

/// Builds the execution flow graph of a method implementation: from each output
/// terminal in turn, traverses backwards through the data nodes and the steps
/// they come from, then takes as inputs the data nodes that no edge leads to.
pub fn analyze_method_implementation(method_impl: &MethodImplementation) -> (g: ExecutionGraph)
    requires
        flow_wf(*method_impl),
    ensures
        describes_flow(g, *method_impl),
        edge_views(g.edges@) == edges_at(
            *method_impl,
            visit_order(*method_impl, method_impl.map_to_outputs@, method_impl.map_to_outputs@.len()),
        ),
        lists_are(
            g.step_data_dependencies@,
            |s: Uid| step_deps(
                *method_impl,
                visit_order(*method_impl, method_impl.map_to_outputs@, method_impl.map_to_outputs@.len()),
                s,
            ),
        ),
        lists_are(
            g.data_dependent_steps@,
            |d: Uid| data_deps(
                *method_impl,
                visit_order(*method_impl, method_impl.map_to_outputs@, method_impl.map_to_outputs@.len()),
                d,
            ),
        ),
        g.inputs@ == data_ids(*method_impl).filter(|d: Uid| is_flow_input(g, *method_impl, d)),
        forall|i: int| 0 <= i < g.edges@.len() ==> g.nodes@.contains_key(#[trigger] g.edges@[i].from.spec_id())
            && g.nodes@.contains_key(g.edges@[i].to.spec_id()),
        forall|s: Uid, d: Uid|
            (#[trigger] g.step_data_dependencies@.contains_key(s) && g.step_data_dependencies@[s]@.contains(d)) <==> (
                #[trigger] g.data_dependent_steps@.contains_key(d) && g.data_dependent_steps@[d]@.contains(s)),
        g.every_output_fed(),
{
    let m = method_impl;
    let mut g = ExecutionGraph {
        nodes: HashMap::new(),
        edges: Vec::new(),
        step_data_dependencies: HashMap::new(),
        data_dependent_steps: HashMap::new(),
        terminals: Vec::new(),
        inputs: Vec::new(),
    };
    let ghost outs = m.map_to_outputs@;
    proof {
        assert(outs.take(0) =~= Seq::<Uid>::empty());
        assert(edge_views(g.edges@) =~= Seq::<EdgeView>::empty());
        assert(edges_at(*m, visit_order(*m, outs, 0)) =~= Seq::<EdgeView>::empty());
    }
    let mut t: usize = 0;
    while t < m.map_to_outputs.len()
        invariant
            flow_wf(*m),
            outs == m.map_to_outputs@,
            t <= outs.len(),
            g.terminals@ == outs.take(t as int),
            g.inputs@ == Seq::<Uid>::empty(),
            edges_state(g, *m, outs.take(t as int), Seq::empty()),
            nodes_state(g, *m, outs.take(t as int), Seq::empty()),
            deps_state(g, *m, outs.take(t as int), Seq::empty(), 0, 0),
            edge_views(g.edges@) == edges_at(*m, visit_order(*m, outs, t as nat)),
            lists_are(g.step_data_dependencies@, |s: Uid| step_deps(*m, visit_order(*m, outs, t as nat), s)),
            lists_are(g.data_dependent_steps@, |d: Uid| data_deps(*m, visit_order(*m, outs, t as nat), d)),
        decreases outs.len() - t,
    {
        let tid = m.map_to_outputs[t];
        let ghost roots = outs.take(t as int);
        let root = ExecutionNode::Terminal(ExecutionNodeTerminal::Output(tid));
        g.terminals.push(tid);
        let ghost g1 = g;
        g.nodes.insert(tid, root);
        proof {
            assert(m.has_step(outs[t as int]));
            assert forall|i: int| 0 <= i < roots.len() implies canonical(*m, output_root(#[trigger] roots[i])) by {
                assert(roots[i] == outs[i]);
                assert(m.has_step(outs[i]));
            }
            lemma_push_contains(Seq::<ExecutionNode>::empty(), root);
            assert(seq![root] =~= Seq::<ExecutionNode>::empty().push(root));
            lemma_nodes_record(g1, g, *m, roots, Seq::empty(), seq![root], root);
        }
        build_graph_from_terminal(&mut g, m, tid, Ghost(roots), Ghost(visit_order(*m, outs, t as nat)));
        proof {
            assert(outs.take(t + 1) =~= roots.push(tid));
            assert(visit_order(*m, outs, (t + 1) as nat) == visit_order(*m, outs, t as nat) + terminal_order(*m, tid));
        }
        t = t + 1;
    }
    proof {
        assert(outs.take(t as int) =~= outs);
    }
    let mut inputs: Vec<Uid> = Vec::new();
    let ghost ids = data_ids(*m);
    let ghost pred = |x: Uid| is_flow_input(g, *m, x);
    proof {
        assert(ids.take(0) =~= Seq::<Uid>::empty());
        reveal(Seq::filter);
    }
    let mut i: usize = 0;
    while i < m.data.len()
        invariant
            ids == data_ids(*m),
            ids.len() == m.data@.len(),
            pred == (|x: Uid| is_flow_input(g, *m, x)),
            inputs@ == ids.take(i as int).filter(pred),
            flow_wf(*m),
            i <= m.data@.len(),
            g.terminals@ == outs,
            nodes_state(g, *m, outs, Seq::empty()),
            edges_state(g, *m, outs, Seq::empty()),
            deps_state(g, *m, outs, Seq::empty(), 0, 0),
            outs == m.map_to_outputs@,
            inputs@.no_duplicates(),
            forall|k: int| 0 <= k < inputs@.len() ==> exists|j: int| 0 <= j < i && #[trigger] m.data@[j].id == #[trigger] inputs@[k],
            forall|d: Uid| #[trigger] inputs@.contains(d) <==> (exists|j: int| 0 <= j < i && #[trigger] m.data@[j].id == d)
                && is_flow_input(g, *m, d),
        decreases m.data@.len() - i,
    {
        let d = m.data[i].id;
        let node = ExecutionNode::Data(d);
        let is_data_node = match g.nodes.get(&d) {
            Some(n) => *n == node,
            None => false,
        };
        let ghost before = inputs@;
        let add = is_data_node && !has_edge_to(&g.edges, node);
        proof {
            if flow_reached(*m, node) {
                assert(processed(*m, outs, Seq::empty(), node));
            }
            if is_data_node {
                assert(processed(*m, outs, Seq::empty(), g.nodes@[d]));
            }
            assert(add == pred(d));
            assert(ids[i as int] == d);
            assert(ids.take(i + 1) =~= ids.take(i as int).push(d));
            ids.take(i as int).lemma_filter_push(d, pred);
        }
        if add {
            inputs.push(d);
        }
        proof {
            lemma_push_contains(before, d);
            assert forall|x: Uid| #[trigger] before.contains(x) implies x != d by {
                let k = choose|k: int| 0 <= k < before.len() && before[k] == x;
                let j = choose|j: int| 0 <= j < i && #[trigger] m.data@[j].id == before[k];
                assert(m.data@[j].id != m.data@[i as int].id);
            }
            assert(processed(*m, outs, Seq::empty(), node) <==> flow_reached(*m, node));
            if flow_reached(*m, node) {
                assert(processed(*m, outs, Seq::empty(), node));
            }
            if is_data_node {
                assert(processed(*m, outs, Seq::empty(), g.nodes@[d]));
            }
            assert forall|k: int| 0 <= k < inputs@.len() implies exists|j: int| 0 <= j < i + 1 && #[trigger] m.data@[j].id
                == #[trigger] inputs@[k] by {
                if k < before.len() {
                    let j = choose|j: int| 0 <= j < i && #[trigger] m.data@[j].id == before[k];
                    assert(m.data@[j].id == inputs@[k]);
                } else {
                    assert(m.data@[i as int].id == inputs@[k]);
                }
            }
            assert forall|x: Uid| #[trigger] inputs@.contains(x) <==> (exists|j: int| 0 <= j < i + 1 && #[trigger] m.data@[j].id
                == x) && is_flow_input(g, *m, x) by {
                if exists|j: int| 0 <= j < i + 1 && #[trigger] m.data@[j].id == x {
                    let j = choose|j: int| 0 <= j < i + 1 && #[trigger] m.data@[j].id == x;
                    if j < i {
                        assert(exists|j: int| 0 <= j < i && #[trigger] m.data@[j].id == x);
                    }
                }
                if before.contains(x) {
                    let j = choose|j: int| 0 <= j < i && #[trigger] m.data@[j].id == x;
                    assert(exists|j: int| 0 <= j < i + 1 && #[trigger] m.data@[j].id == x);
                }
                if x == d {
                    assert(m.data@[i as int].id == x);
                }
            }
        }
        i = i + 1;
    }
    let ghost g_pre = g;
    g.inputs = inputs;
    proof {
        assert(ids.take(i as int) =~= ids);
        assert(pred =~= (|x: Uid| is_flow_input(g, *m, x)));
        assert forall|d: Uid| #[trigger] g.inputs@.contains(d) <==> is_flow_input(g, *m, d) by {
            if is_flow_input(g, *m, d) {
                assert(processed(*m, outs, Seq::empty(), ExecutionNode::Data(d)));
                lemma_processed_canonical(*m, outs, Seq::empty(), ExecutionNode::Data(d));
                let j = choose|j: int| 0 <= j < m.data@.len() && #[trigger] m.data@[j].id == d;
                assert(exists|j: int| 0 <= j < i && #[trigger] m.data@[j].id == d);
            }
        }
        lemma_describes_flow(g, *m);
        lemma_flow_edges_join_recorded_nodes(g, *m);
        lemma_analysis_feeds_every_output(g, *m);
        assert forall|s: Uid, d: Uid|
            (#[trigger] g.step_data_dependencies@.contains_key(s) && g.step_data_dependencies@[s]@.contains(d)) <==> (
                #[trigger] g.data_dependent_steps@.contains_key(d) && g.data_dependent_steps@[d]@.contains(s)) by {
            lemma_dependency_maps_mirror(g, *m, s, d);
        }
    }
    g
}

/// The identifiers of the data nodes of `m`, in order.
pub open spec fn data_ids(m: MethodImplementation) -> Seq<Uid> {
    m.data@.map_values(|x: ImplData| x.id)
}

/// `n` is an output terminal.
pub open spec fn is_output_node(n: ExecutionNode) -> bool {
    n matches ExecutionNode::Terminal(ExecutionNodeTerminal::Output(_))
}

/// An edge by which a step reads a data node through one of its own
/// dependency slots. The edges from a step to the data nodes it produces,
/// which the traversal records under the name `upstream`, are not such edges.
pub open spec fn is_read_edge(e: EdgeView) -> bool {
    e.1 == SlotType::Dependency && e.2 is Step && e.3 is Data && e.0 != "upstream"@
}

/// The data nodes read by the step `step_id` over the first `n` edges, each
/// once, in order of first reading.
pub open spec fn data_read_by(edges: Seq<EdgeView>, step_id: Uid, n: nat) -> Seq<ExecutionNode>
    decreases n,
{
    if n == 0 || n > edges.len() {
        Seq::empty()
    } else {
        let prev = data_read_by(edges, step_id, (n - 1) as nat);
        let e = edges[n - 1];
        if is_read_edge(e) && e.2.spec_id() == step_id && !prev.contains(e.3) {
            prev.push(e.3)
        } else {
            prev
        }
    }
}

/// The steps that read the data node `data_id` over the first `n` edges, each
/// once, in order of first reading.
pub open spec fn steps_reading(edges: Seq<EdgeView>, data_id: Uid, n: nat) -> Seq<ExecutionNode>
    decreases n,
{
    if n == 0 || n > edges.len() {
        Seq::empty()
    } else {
        let prev = steps_reading(edges, data_id, (n - 1) as nat);
        let e = edges[n - 1];
        if is_read_edge(e) && e.3 == ExecutionNode::Data(data_id) && !prev.contains(e.2) {
            prev.push(e.2)
        } else {
            prev
        }
    }
}

/// An edge by which a data node feeds the output terminal `t`.
pub open spec fn feeds_output(e: EdgeView, t: Uid) -> bool {
    e.2 is Data && e.3 == ExecutionNode::Terminal(ExecutionNodeTerminal::Output(t))
}

/// The data node of the first of the first `n` edges that feeds the output
/// terminal `t`.
pub open spec fn first_feed(edges: Seq<EdgeView>, t: Uid, n: nat) -> Option<ExecutionNode>
    decreases n,
{
    if n == 0 || n > edges.len() {
        None
    } else {
        match first_feed(edges, t, (n - 1) as nat) {
            Some(x) => Some(x),
            None => if feeds_output(edges[n - 1], t) {
                Some(edges[n - 1].2)
            } else {
                None
            },
        }
    }
}

/// Where some edge feeds `t`, the first one is found, and it is a data node
/// that feeds `t`.
proof fn lemma_first_feed(edges: Seq<EdgeView>, t: Uid, n: nat, w: int)
    requires
        n <= edges.len(),
        0 <= w < n,
        feeds_output(edges[w], t),
    ensures
        first_feed(edges, t, n) is Some,
        exists|j: int| 0 <= j < n && feeds_output(edges[j], t) && edges[j].2 == first_feed(edges, t, n).unwrap(),
    decreases n,
{
    if w < n - 1 {
        lemma_first_feed(edges, t, (n - 1) as nat, w);
        let j = choose|j: int| 0 <= j < n - 1 && feeds_output(edges[j], t) && edges[j].2 == first_feed(edges, t, (n - 1) as nat).unwrap();
        assert(edges[j].2 == first_feed(edges, t, n).unwrap());
    } else {
        match first_feed(edges, t, (n - 1) as nat) {
            Some(x) => {
                lemma_first_feed_some(edges, t, (n - 1) as nat);
            },
            None => {},
        }
    }
}

/// A data node that the scan found over some edges feeds `t`.
proof fn lemma_first_feed_some(edges: Seq<EdgeView>, t: Uid, n: nat)
    requires
        first_feed(edges, t, n) is Some,
    ensures
        exists|j: int| 0 <= j < n && feeds_output(edges[j], t) && edges[j].2 == first_feed(edges, t, n).unwrap(),
    decreases n,
{
    if first_feed(edges, t, (n - 1) as nat) is Some {
        lemma_first_feed_some(edges, t, (n - 1) as nat);
    } else {
        assert(feeds_output(edges[n - 1], t));
    }
}

impl ExecutionGraph {
    /// Every node is recorded under its own identifier.
    pub open spec fn keyed_by_id(&self) -> bool {
        forall|k: Uid| #[trigger] self.nodes@.contains_key(k) ==> self.nodes@[k].spec_id() == k
    }

    /// The node recorded under `id` is the data node `id`.
    pub open spec fn holds_data(&self, id: Uid) -> bool {
        self.nodes@.contains_key(id) && self.nodes@[id] == ExecutionNode::Data(id)
    }

    /// The node recorded under `id` is a step.
    pub open spec fn holds_step(&self, id: Uid) -> bool {
        self.nodes@.contains_key(id) && self.nodes@[id] is Step
    }

    /// The node recorded under `id` is a terminal.
    pub open spec fn holds_terminal(&self, id: Uid) -> bool {
        self.nodes@.contains_key(id) && self.nodes@[id] is Terminal
    }

    /// `to` is reached from `from` along at most `fuel - 1` edges, each followed
    /// from its source to its target.
    pub open spec fn edge_reaches_within(&self, from: ExecutionNode, to: ExecutionNode, fuel: nat) -> bool
        decreases fuel,
    {
        if fuel == 0 {
            false
        } else {
            to == from || exists|i: int|
                0 <= i < self.edges@.len() && self.edges@[i].from == from && self.edge_reaches_within(
                    #[trigger] self.edges@[i].to,
                    to,
                    (fuel - 1) as nat,
                )
        }
    }

    /// `to` is reached from `from` along the edges.
    pub open spec fn edge_reaches(&self, from: ExecutionNode, to: ExecutionNode) -> bool {
        exists|fuel: nat| #[trigger] self.edge_reaches_within(from, to, fuel)
    }

    /// Some edge leads from a data node to the output terminal `t`.
    pub open spec fn output_fed(&self, t: Uid) -> bool {
        exists|j: int| 0 <= j < self.edges@.len() && feeds_output(#[trigger] edge_views(self.edges@)[j], t)
    }

    /// Some data node feeds each output terminal.
    pub open spec fn every_output_fed(&self) -> bool {
        forall|k: int| 0 <= k < self.terminals@.len() ==> self.output_fed(#[trigger] self.terminals@[k])
    }

    /// The data nodes that the step `step_id` reads through its own
    /// dependency slots, each once, in the order of the edges.
    pub fn get_data_dependencies(&self, step_id: &Uid) -> (r: Vec<ExecutionNode>)
        ensures
            r@ == data_read_by(edge_views(self.edges@), *step_id, self.edges@.len()),
            r@.no_duplicates(),
            forall|n: ExecutionNode| #[trigger] r@.contains(n) <==> exists|j: int|
                0 <= j < self.edges@.len() && is_read_edge(#[trigger] edge_views(self.edges@)[j])
                    && edge_views(self.edges@)[j].2.spec_id() == *step_id && edge_views(self.edges@)[j].3 == n,
    {
        let ghost ev = edge_views(self.edges@);
        let mut r: Vec<ExecutionNode> = Vec::new();
        let mut i: usize = 0;
        while i < self.edges.len()
            invariant
                ev == edge_views(self.edges@),
                i <= self.edges@.len(),
                r@ == data_read_by(ev, *step_id, i as nat),
                r@.no_duplicates(),
                forall|n: ExecutionNode| #[trigger] r@.contains(n) <==> exists|j: int|
                    0 <= j < i && is_read_edge(#[trigger] ev[j]) && ev[j].2.spec_id() == *step_id && ev[j].3 == n,
            decreases self.edges@.len() - i,
        {
            let e = &self.edges[i];
            assert(ev[i as int] == self.edges@[i as int]@);
            let is_dep = match e.slot_type {
                SlotType::Dependency => true,
                _ => false,
            };
            let from_step = match e.from {
                ExecutionNode::Step(id, _) => id == *step_id,
                _ => false,
            };
            let to_data = match e.to {
                ExecutionNode::Data(_) => true,
                _ => false,
            };
            let ghost r1 = r@;
            if is_dep && from_step && to_data && !str_eq(e.slot_name.as_str(), "upstream") && !contains_node(&r, e.to) {
                r.push(e.to);
                proof {
                    lemma_push_contains(r1, e.to);
                }
            }
            proof {
                assert forall|n: ExecutionNode| #[trigger] r@.contains(n) <==> exists|j: int|
                    0 <= j < i + 1 && is_read_edge(#[trigger] ev[j]) && ev[j].2.spec_id() == *step_id && ev[j].3 == n by {
                    if exists|j: int| 0 <= j < i + 1 && is_read_edge(#[trigger] ev[j]) && ev[j].2.spec_id() == *step_id && ev[j].3 == n {
                        let j = choose|j: int| 0 <= j < i + 1 && is_read_edge(#[trigger] ev[j]) && ev[j].2.spec_id() == *step_id && ev[j].3 == n;
                        if j < i {
                            assert(r1.contains(n));
                        }
                    }
                }
            }
            i = i + 1;
        }
        r
    }

    /// The steps that read the data node `data_id` through one of their own
    /// dependency slots, each once, in the order of the edges.
    pub fn get_dependent_steps(&self, data_id: &Uid) -> (r: Vec<ExecutionNode>)
        ensures
            r@ == steps_reading(edge_views(self.edges@), *data_id, self.edges@.len()),
            r@.no_duplicates(),
            forall|n: ExecutionNode| #[trigger] r@.contains(n) <==> exists|j: int|
                0 <= j < self.edges@.len() && is_read_edge(#[trigger] edge_views(self.edges@)[j])
                    && edge_views(self.edges@)[j].3 == ExecutionNode::Data(*data_id) && edge_views(self.edges@)[j].2 == n,
    {
        let ghost ev = edge_views(self.edges@);
        let mut r: Vec<ExecutionNode> = Vec::new();
        let mut i: usize = 0;
        while i < self.edges.len()
            invariant
                ev == edge_views(self.edges@),
                i <= self.edges@.len(),
                r@ == steps_reading(ev, *data_id, i as nat),
                r@.no_duplicates(),
                forall|n: ExecutionNode| #[trigger] r@.contains(n) <==> exists|j: int|
                    0 <= j < i && is_read_edge(#[trigger] ev[j]) && ev[j].3 == ExecutionNode::Data(*data_id) && ev[j].2 == n,
            decreases self.edges@.len() - i,
        {
            let e = &self.edges[i];
            assert(ev[i as int] == self.edges@[i as int]@);
            let is_dep = match e.slot_type {
                SlotType::Dependency => true,
                _ => false,
            };
            let from_step = match e.from {
                ExecutionNode::Step(_, _) => true,
                _ => false,
            };
            let to_this = match e.to {
                ExecutionNode::Data(id) => id == *data_id,
                _ => false,
            };
            let ghost r1 = r@;
            if is_dep && from_step && to_this && !str_eq(e.slot_name.as_str(), "upstream") && !contains_node(&r, e.from) {
                r.push(e.from);
                proof {
                    lemma_push_contains(r1, e.from);
                }
            }
            proof {
                assert forall|n: ExecutionNode| #[trigger] r@.contains(n) <==> exists|j: int|
                    0 <= j < i + 1 && is_read_edge(#[trigger] ev[j]) && ev[j].3 == ExecutionNode::Data(*data_id) && ev[j].2 == n by {
                    if exists|j: int| 0 <= j < i + 1 && is_read_edge(#[trigger] ev[j]) && ev[j].3 == ExecutionNode::Data(*data_id) && ev[j].2 == n {
                        let j = choose|j: int| 0 <= j < i + 1 && is_read_edge(#[trigger] ev[j]) && ev[j].3 == ExecutionNode::Data(*data_id) && ev[j].2 == n;
                        if j < i {
                            assert(r1.contains(n));
                        }
                    }
                }
            }
            i = i + 1;
        }
        r
    }

    /// The input data nodes of the execution.
    pub fn get_input_data_nodes(&self) -> (r: Vec<ExecutionNode>)
        requires
            forall|k: int| 0 <= k < self.inputs@.len() ==> self.holds_data(#[trigger] self.inputs@[k]),
        ensures
            r@ == self.inputs@.map_values(|id: Uid| ExecutionNode::Data(id)),
    {
        self.lookup_all(&self.inputs, Ghost(|id: Uid| ExecutionNode::Data(id)))
    }

    /// The data nodes that are the outputs of the execution: for each output
    /// terminal in turn, the data node that feeds it.
    pub fn get_output_data_nodes(&self) -> (r: Vec<ExecutionNode>)
        requires
            self.every_output_fed(),
        ensures
            r@.len() == self.terminals@.len(),
            forall|k: int| 0 <= k < r@.len() ==> #[trigger] r@[k] == first_feed(
                edge_views(self.edges@),
                self.terminals@[k],
                self.edges@.len(),
            ).unwrap(),
            forall|k: int| 0 <= k < r@.len() ==> (#[trigger] r@[k]) is Data && exists|j: int|
                0 <= j < self.edges@.len() && feeds_output(edge_views(self.edges@)[j], self.terminals@[k])
                    && edge_views(self.edges@)[j].2 == r@[k],
    {
        let ghost ev = edge_views(self.edges@);
        let mut r: Vec<ExecutionNode> = Vec::new();
        let mut k: usize = 0;
        while k < self.terminals.len()
            invariant
                ev == edge_views(self.edges@),
                k <= self.terminals@.len(),
                r@.len() == k,
                self.every_output_fed(),
                forall|q: int| 0 <= q < k ==> #[trigger] r@[q] == first_feed(ev, self.terminals@[q], ev.len()).unwrap(),
                forall|q: int| 0 <= q < k ==> (#[trigger] r@[q]) is Data && exists|j: int|
                    0 <= j < ev.len() && feeds_output(ev[j], self.terminals@[q]) && ev[j].2 == r@[q],
            decreases self.terminals@.len() - k,
        {
            let t = self.terminals[k];
            let mut found: Option<ExecutionNode> = None;
            let mut j: usize = 0;
            while j < self.edges.len()
                invariant
                    ev == edge_views(self.edges@),
                    j <= self.edges@.len(),
                    found == first_feed(ev, t, j as nat),
                decreases self.edges@.len() - j,
            {
                if found.is_none() {
                    let e = &self.edges[j];
                    assert(ev[j as int] == self.edges@[j as int]@);
                    let from_data = match e.from {
                        ExecutionNode::Data(_) => true,
                        _ => false,
                    };
                    let to_t = match e.to {
                        ExecutionNode::Terminal(ExecutionNodeTerminal::Output(id)) => id == t,
                        _ => false,
                    };
                    if from_data && to_t {
                        found = Some(e.from);
                    }
                }
                j = j + 1;
            }
            proof {
                assert(self.terminals@[k as int] == t);
                assert(self.output_fed(t));
                let w = choose|j: int| 0 <= j < self.edges@.len() && feeds_output(#[trigger] edge_views(self.edges@)[j], t);
                lemma_first_feed(ev, t, ev.len(), w);
            }
            match found {
                Some(n) => {
                    r.push(n);
                },
                None => {},
            }
            k = k + 1;
        }
        r
    }

    /// The nodes recorded under `ids`, in order; `expected` says what each is.
    fn lookup_all(&self, ids: &Vec<Uid>, Ghost(expected): Ghost<spec_fn(Uid) -> ExecutionNode>) -> (r: Vec<ExecutionNode>)
        requires
            forall|k: int| 0 <= k < ids@.len() ==> self.nodes@.contains_key(#[trigger] ids@[k])
                && self.nodes@[ids@[k]] == expected(ids@[k]),
        ensures
            r@ == ids@.map_values(expected),
    {
        let mut r: Vec<ExecutionNode> = Vec::new();
        let mut i: usize = 0;
        while i < ids.len()
            invariant
                i <= ids@.len(),
                forall|k: int| 0 <= k < ids@.len() ==> self.nodes@.contains_key(#[trigger] ids@[k])
                    && self.nodes@[ids@[k]] == expected(ids@[k]),
                r@ == ids@.take(i as int).map_values(expected),
            decreases ids@.len() - i,
        {
            assert(self.nodes@.contains_key(ids@[i as int]));
            match self.nodes.get(&ids[i]) {
                Some(n) => {
                    r.push(*n);
                },
                None => {},
            }
            proof {
                assert(ids@.take(i + 1) =~= ids@.take(i as int).push(ids@[i as int]));
                assert(r@ =~= ids@.take(i + 1).map_values(expected));
            }
            i = i + 1;
        }
        proof {
            assert(ids@.take(i as int) =~= ids@);
        }
        r
    }
}

impl ExecutionGraph {
    /// The position of an edge that leads to `n`.
    pub open spec fn edge_target_position(&self, n: ExecutionNode) -> int {
        choose|i: int| 0 <= i < self.edges@.len() && self.edges@[i].to == n
    }

    proof fn lemma_edge_reaches_monotone(&self, from: ExecutionNode, to: ExecutionNode, f1: nat, f2: nat)
        requires
            self.edge_reaches_within(from, to, f1),
            f1 <= f2,
        ensures
            self.edge_reaches_within(from, to, f2),
        decreases f1,
    {
        if to != from {
            let i = choose|i: int|
                0 <= i < self.edges@.len() && self.edges@[i].from == from && self.edge_reaches_within(
                    #[trigger] self.edges@[i].to,
                    to,
                    (f1 - 1) as nat,
                );
            self.lemma_edge_reaches_monotone(self.edges@[i].to, to, (f1 - 1) as nat, (f2 - 1) as nat);
        }
    }

    proof fn lemma_edge_reaches_extend(&self, from: ExecutionNode, mid: ExecutionNode, fuel: nat, j: int)
        requires
            self.edge_reaches_within(from, mid, fuel),
            0 <= j < self.edges@.len(),
            self.edges@[j].from == mid,
        ensures
            self.edge_reaches_within(from, self.edges@[j].to, fuel + 1),
        decreases fuel,
    {
        let to = self.edges@[j].to;
        if mid == from {
            assert(self.edge_reaches_within(to, to, 1));
            assert(self.edge_reaches_within(from, to, 2));
            self.lemma_edge_reaches_monotone(from, to, 2, fuel + 1);
        } else {
            let i = choose|i: int|
                0 <= i < self.edges@.len() && self.edges@[i].from == from && self.edge_reaches_within(
                    #[trigger] self.edges@[i].to,
                    mid,
                    (fuel - 1) as nat,
                );
            self.lemma_edge_reaches_extend(self.edges@[i].to, mid, (fuel - 1) as nat, j);
        }
    }

    proof fn lemma_edge_closed_holds_reached(&self, q: Seq<ExecutionNode>, from: ExecutionNode, to: ExecutionNode, fuel: nat)
        requires
            q.contains(from),
            forall|i: int, j: int|
                #![trigger q[i], self.edges@[j]]
                0 <= i < q.len() && 0 <= j < self.edges@.len() && self.edges@[j].from == q[i] ==> q.contains(
                    self.edges@[j].to,
                ),
            self.edge_reaches_within(from, to, fuel),
        ensures
            q.contains(to),
        decreases fuel,
    {
        if to != from {
            let j = choose|j: int|
                0 <= j < self.edges@.len() && self.edges@[j].from == from && self.edge_reaches_within(
                    #[trigger] self.edges@[j].to,
                    to,
                    (fuel - 1) as nat,
                );
            let i = choose|i: int| 0 <= i < q.len() && q[i] == from;
            assert(q.contains(self.edges@[j].to));
            self.lemma_edge_closed_holds_reached(q, self.edges@[j].to, to, (fuel - 1) as nat);
        }
    }

    /// An edge leads from `a` to `b`.
    pub open spec fn has_edge(&self, a: ExecutionNode, b: ExecutionNode) -> bool {
        exists|j: int| 0 <= j < self.edges@.len() && (#[trigger] self.edges@[j]).from == a && self.edges@[j].to == b
    }

    /// Finds a path along the edges from the node recorded under `data_id` to
    /// an output terminal, the nearest one by breadth-first search: the path
    /// starts at that node, follows an edge at each step, visits no node twice
    /// and meets no output terminal before its end. Where no output terminal
    /// can be reached, the path is the node alone.
    pub fn find_path_to_terminal(&self, data_id: &Uid) -> (r: Vec<ExecutionNode>)
        requires
            self.nodes@.contains_key(*data_id),
        ensures
            r@.len() >= 1,
            r@[0] == self.nodes@[*data_id],
            r@.no_duplicates(),
            forall|i: int| 0 <= i < r@.len() - 1 ==> self.has_edge(#[trigger] r@[i], r@[i + 1]),
            forall|i: int| 0 <= i < r@.len() - 1 ==> !is_output_node(#[trigger] r@[i]),
            is_output_node(r@.last()) || (r@.len() == 1 && forall|n: ExecutionNode|
                #[trigger] self.edge_reaches(r@[0], n) ==> !is_output_node(n)),
    {
        let start = match self.nodes.get(data_id) {
            Some(n) => *n,
            None => ExecutionNode::Data(*data_id),
        };
        let start_is_output = match start {
            ExecutionNode::Terminal(ExecutionNodeTerminal::Output(_)) => true,
            _ => false,
        };
        if start_is_output {
            let r = vec![start];
            assert(r@.last() == start);
            return r;
        }
        let ghost bound: int = (self.edges@.len() + 1) as int;
        let ghost pos = |n: ExecutionNode| if n == start { 0 } else { 1 + self.edge_target_position(n) };
        let mut queue: Vec<ExecutionNode> = vec![start];
        let mut parent: Vec<usize> = vec![0];
        let mut head: usize = 0;
        let mut found = false;
        proof {
            assert(queue@[0] == start);
            assert(pos(queue@[0]) == 0);
        }
        while head < queue.len() && !found
            invariant
                start == self.nodes@[*data_id],
                !is_output_node(start),
                bound == self.edges@.len() + 1,
                pos == (|n: ExecutionNode| if n == start { 0 } else { 1 + self.edge_target_position(n) }),
                0 < queue@.len() <= bound,
                head <= queue@.len(),
                parent@.len() == queue@.len(),
                queue@[0] == start,
                queue@.no_duplicates(),
                forall|i: int| 0 <= i < queue@.len() ==> 0 <= #[trigger] pos(queue@[i]) < bound,
                forall|i: int| 0 < i < queue@.len() ==> exists|j: int| 0 <= j < self.edges@.len() && self.edges@[j].to
                    == #[trigger] queue@[i],
                forall|i: int| 0 < i < queue@.len() ==> #[trigger] parent@[i] < i && self.has_edge(
                    queue@[parent@[i] as int],
                    queue@[i],
                ),
                found ==> is_output_node(queue@.last()),
                forall|i: int| 0 <= i < queue@.len() && (i < queue@.len() - 1 || !found) ==> !is_output_node(
                    #[trigger] queue@[i],
                ),
                !found ==> forall|i: int, jj: int|
                    #![trigger queue@[i], self.edges@[jj]]
                    0 <= i < head && 0 <= jj < self.edges@.len() && self.edges@[jj].from == queue@[i]
                        ==> queue@.contains(self.edges@[jj].to),
            decreases bound - head,
        {
            let node = queue[head];
            let ghost queue_before = queue@;
            let mut j: usize = 0;
            while j < self.edges.len() && !found
                invariant
                    start == self.nodes@[*data_id],
                    !is_output_node(start),
                    bound == self.edges@.len() + 1,
                    pos == (|n: ExecutionNode| if n == start { 0 } else { 1 + self.edge_target_position(n) }),
                    j <= self.edges@.len(),
                    head < queue_before.len(),
                    node == queue_before[head as int],
                    queue_before.len() <= queue@.len() <= bound,
                    forall|i: int| 0 <= i < queue_before.len() ==> queue@[i] == queue_before[i],
                    parent@.len() == queue@.len(),
                    queue@[0] == start,
                    queue@.no_duplicates(),
                    forall|i: int| 0 <= i < queue@.len() ==> 0 <= #[trigger] pos(queue@[i]) < bound,
                    forall|i: int| 0 < i < queue@.len() ==> exists|j: int| 0 <= j < self.edges@.len()
                        && self.edges@[j].to == #[trigger] queue@[i],
                    forall|i: int| 0 < i < queue@.len() ==> #[trigger] parent@[i] < i && self.has_edge(
                        queue@[parent@[i] as int],
                        queue@[i],
                    ),
                    found ==> is_output_node(queue@.last()),
                    forall|i: int| 0 <= i < queue@.len() && (i < queue@.len() - 1 || !found) ==> !is_output_node(
                        #[trigger] queue@[i],
                    ),
                    !found ==> forall|i: int, jj: int|
                        #![trigger queue@[i], self.edges@[jj]]
                        0 <= i < head && 0 <= jj < self.edges@.len() && self.edges@[jj].from == queue@[i]
                            ==> queue@.contains(self.edges@[jj].to),
                    !found ==> forall|jj: int|
                        0 <= jj < j && self.edges@[jj].from == node ==> queue@.contains(#[trigger] self.edges@[jj].to),
                decreases self.edges@.len() - j,
            {
                let to = self.edges[j].to;
                if self.edges[j].from == node && !contains_node(&queue, to) {
                    let ghost q1 = queue@;
                    let ghost p1 = parent@;
                    queue.push(to);
                    parent.push(head);
                    let to_is_output = match to {
                        ExecutionNode::Terminal(ExecutionNodeTerminal::Output(_)) => true,
                        _ => false,
                    };
                    if to_is_output {
                        found = true;
                    }
                    proof {
                        lemma_push_contains(q1, to);
                        assert(q1[0] == start);
                        assert(to != start);
                        assert(self.edges@[j as int].to == to);
                        assert(0 <= self.edge_target_position(to) < self.edges@.len());
                        assert forall|i: int| 0 < i < queue@.len() implies exists|jj: int| 0 <= jj < self.edges@.len()
                            && self.edges@[jj].to == #[trigger] queue@[i] by {
                            if i < q1.len() {
                                assert(q1[i] == queue@[i]);
                            } else {
                                assert(self.edges@[j as int].to == queue@[i]);
                            }
                        }
                        assert forall|i: int| 0 <= i < queue@.len() implies 0 <= #[trigger] pos(queue@[i]) < bound by {
                            if i < q1.len() {
                                assert(pos(q1[i]) == pos(queue@[i]));
                            }
                        }
                        assert forall|i: int, k: int| 0 <= i < queue@.len() && 0 <= k < queue@.len()
                            && #[trigger] pos(queue@[i]) == #[trigger] pos(queue@[k]) implies i == k by {
                            let a = queue@[i];
                            let b = queue@[k];
                            if i > 0 && k > 0 {
                                assert(self.edges@[self.edge_target_position(a)].to == a);
                                assert(self.edges@[self.edge_target_position(b)].to == b);
                            }
                        }
                        lemma_injective_bounded(queue@, pos, bound);
                        assert forall|i: int| 0 < i < queue@.len() implies #[trigger] parent@[i] < i && self.has_edge(
                            queue@[parent@[i] as int],
                            queue@[i],
                        ) by {
                            if i < q1.len() {
                                assert(parent@[i] == p1[i]);
                                assert(queue@[p1[i] as int] == q1[p1[i] as int]);
                                assert(queue@[i] == q1[i]);
                            } else {
                                assert(parent@[i] == head);
                                assert(queue@[head as int] == node);
                                assert(self.edges@[j as int].from == node && self.edges@[j as int].to == queue@[i]);
                            }
                        }
                        assert forall|i: int| 0 <= i < queue@.len() && (i < queue@.len() - 1 || !found)
                            implies !is_output_node(#[trigger] queue@[i]) by {
                            if i < q1.len() {
                                assert(queue@[i] == q1[i]);
                            }
                        }
                    }
                }
                j = j + 1;
            }
            head = head + 1;
        }
        if !found {
            proof {
                assert forall|n: ExecutionNode| #[trigger] self.edge_reaches(start, n) implies !is_output_node(n) by {
                    let f = choose|f: nat| #[trigger] self.edge_reaches_within(start, n, f);
                    assert(queue@.contains(start)) by {
                        assert(queue@[0] == start);
                    }
                    self.lemma_edge_closed_holds_reached(queue@, start, n, f);
                }
            }
            let r = vec![start];
            assert(r@[0] == start);
            return r;
        }
        let mut idx: usize = queue.len() - 1;
        let mut rev: Vec<ExecutionNode> = vec![queue[idx]];
        let ghost mut idxs: Seq<int> = seq![idx as int];
        while idx != 0
            invariant
                idx < queue@.len(),
                parent@.len() == queue@.len(),
                forall|i: int| 0 < i < queue@.len() ==> #[trigger] parent@[i] < i && self.has_edge(
                    queue@[parent@[i] as int],
                    queue@[i],
                ),
                rev@.len() == idxs.len(),
                idxs.len() >= 1,
                idxs[0] == queue@.len() - 1,
                idxs.last() == idx,
                forall|k: int| 0 <= k < idxs.len() ==> 0 <= #[trigger] idxs[k] < queue@.len() && rev@[k] == queue@[idxs[k]],
                forall|a: int, b: int| 0 <= a < b < idxs.len() ==> #[trigger] idxs[a] > #[trigger] idxs[b],
                forall|k: int| 0 <= k < rev@.len() - 1 ==> self.has_edge(rev@[k + 1], #[trigger] rev@[k]),
            decreases idx,
        {
            let p = parent[idx];
            let ghost r1 = rev@;
            let ghost i1 = idxs;
            assert(parent@[idx as int] < idx && self.has_edge(queue@[parent@[idx as int] as int], queue@[idx as int]));
            rev.push(queue[p]);
            proof {
                idxs = idxs.push(p as int);
                assert(r1[r1.len() - 1] == queue@[idx as int]);
                assert forall|k: int| 0 <= k < rev@.len() - 1 implies self.has_edge(rev@[k + 1], #[trigger] rev@[k]) by {
                    if k < r1.len() - 1 {
                        assert(rev@[k] == r1[k] && rev@[k + 1] == r1[k + 1]);
                    } else {
                        assert(rev@[k] == queue@[idx as int]);
                        assert(rev@[k + 1] == queue@[p as int]);
                    }
                }
                assert forall|a: int, b: int| 0 <= a < b < idxs.len() implies #[trigger] idxs[a] > #[trigger] idxs[b] by {
                    if b < i1.len() {
                        assert(idxs[a] == i1[a] && idxs[b] == i1[b]);
                    } else {
                        assert(idxs[a] == i1[a]);
                        if a < i1.len() - 1 {
                            assert(i1[a] > i1[i1.len() - 1]);
                        }
                    }
                }
                assert forall|k: int| 0 <= k < idxs.len() implies 0 <= #[trigger] idxs[k] < queue@.len() && rev@[k] == queue@[idxs[k]] by {
                    if k < i1.len() {
                        assert(idxs[k] == i1[k] && rev@[k] == r1[k]);
                    }
                }
            }
            idx = p;
        }
        let mut r: Vec<ExecutionNode> = Vec::new();
        let mut k: usize = rev.len();
        while k > 0
            invariant
                k <= rev@.len(),
                r@.len() == rev@.len() - k,
                forall|i: int| 0 <= i < r@.len() ==> #[trigger] r@[i] == rev@[rev@.len() - 1 - i],
            decreases k,
        {
            k = k - 1;
            r.push(rev[k]);
        }
        proof {
            let n = rev@.len();
            assert(idxs[n - 1] == 0);
            assert(r@[0] == rev@[n - 1]);
            assert(rev@[n - 1] == queue@[0]);
            assert forall|a: int, b: int| 0 <= a < r@.len() && 0 <= b < r@.len() && a != b implies r@[a] != r@[b] by {
                let ia = idxs[n - 1 - a];
                let ib = idxs[n - 1 - b];
                assert(r@[a] == queue@[ia] && r@[b] == queue@[ib]);
                if n - 1 - a < n - 1 - b {
                    assert(idxs[n - 1 - a] > idxs[n - 1 - b]);
                } else {
                    assert(idxs[n - 1 - b] > idxs[n - 1 - a]);
                }
            }
            assert forall|i: int| 0 <= i < r@.len() - 1 implies self.has_edge(#[trigger] r@[i], r@[i + 1]) by {
                assert(r@[i] == rev@[n - 1 - i]);
                assert(r@[i + 1] == rev@[n - 2 - i]);
                assert(self.has_edge(rev@[(n - 2 - i) + 1], rev@[n - 2 - i]));
            }
            assert forall|i: int| 0 <= i < r@.len() - 1 implies !is_output_node(#[trigger] r@[i]) by {
                assert(r@[i] == rev@[n - 1 - i]);
                assert(idxs[0] > idxs[n - 1 - i]);
                assert(rev@[n - 1 - i] == queue@[idxs[n - 1 - i]]);
            }
            assert(r@.last() == rev@[0]);
            assert(rev@[0] == queue@.last());
        }
        r
    }
}

/// A node that one of `roots` reaches leads the traversal on to its successors.
proof fn lemma_reached_successor(m: MethodImplementation, roots: Seq<Uid>, p: ExecutionNode, k: int)
    requires
        reached_from_any(m, roots, p),
        0 <= k < node_successors(m, p).len(),
    ensures
        reached_from_any(m, roots, node_successors(m, p)[k]),
{
    let i = choose|i: int| 0 <= i < roots.len() && reaches(m, output_root(#[trigger] roots[i]), p);
    let f = choose|f: nat| #[trigger] reaches_within(m, output_root(roots[i]), p, f);
    lemma_reaches_extend(m, output_root(roots[i]), p, f, k);
    assert(reaches(m, output_root(roots[i]), node_successors(m, p)[k]));
}

/// The graph that the analysis builds answers its queries: every node is
/// recorded under its own identifier, the data nodes listed for a step, the
/// inputs and the terminals are all recorded as such.
pub proof fn lemma_flow_graph_answers_queries(g: ExecutionGraph, m: MethodImplementation)
    requires
        flow_wf(m),
        describes_flow(g, m),
    ensures
        g.keyed_by_id(),
        forall|s: Uid, k: int| #[trigger] g.step_data_dependencies@.contains_key(s)
            && 0 <= k < g.step_data_dependencies@[s]@.len()
            ==> g.holds_data(#[trigger] g.step_data_dependencies@[s]@[k]),
        forall|k: int| 0 <= k < g.inputs@.len() ==> g.holds_data(#[trigger] g.inputs@[k]),
        forall|k: int| 0 <= k < g.terminals@.len() ==> g.holds_terminal(#[trigger] g.terminals@[k]),
{
    assert forall|s: Uid, k: int| #[trigger] g.step_data_dependencies@.contains_key(s)
        && 0 <= k < g.step_data_dependencies@[s]@.len()
        implies g.holds_data(#[trigger] g.step_data_dependencies@[s]@[k]) by {
        let d = g.step_data_dependencies@[s]@[k];
        assert(g.step_data_dependencies@[s]@.contains(d));
        assert(flow_reached(m, ExecutionNode::Data(d)));
    }
    assert forall|k: int| 0 <= k < g.inputs@.len() implies g.holds_data(#[trigger] g.inputs@[k]) by {
        assert(g.inputs@.contains(g.inputs@[k]));
        assert(flow_reached(m, ExecutionNode::Data(g.inputs@[k])));
    }
    assert forall|k: int| 0 <= k < g.terminals@.len() implies g.holds_terminal(#[trigger] g.terminals@[k]) by {
        let t = g.terminals@[k];
        assert(m.map_to_outputs@[k] == t);
        assert(reaches_within(m, output_root(t), output_root(t), 1));
        assert(reaches(m, output_root(t), output_root(t)));
        assert(flow_reached(m, output_root(t)));
    }
}

/// Every edge of the graph that the analysis builds joins two nodes that the
/// traversal reached, both recorded in the graph.
pub proof fn lemma_flow_edges_join_recorded_nodes(g: ExecutionGraph, m: MethodImplementation)
    requires
        flow_wf(m),
        describes_flow(g, m),
    ensures
        forall|i: int| 0 <= i < g.edges@.len() ==> flow_reached(m, #[trigger] g.edges@[i].from) && flow_reached(
            m,
            g.edges@[i].to,
        ),
        forall|i: int| 0 <= i < g.edges@.len() ==> g.nodes@.contains_key(#[trigger] g.edges@[i].from.spec_id())
            && g.nodes@.contains_key(g.edges@[i].to.spec_id()),
{
    let outs = m.map_to_outputs@;
    assert forall|i: int| 0 <= i < g.edges@.len() implies flow_reached(m, #[trigger] g.edges@[i].from)
        && flow_reached(m, g.edges@[i].to) by {
        let e = g.edges@[i]@;
        assert(edge_views(g.edges@)[i] == e);
        assert(edge_views(g.edges@).contains(e));
        let p = choose|p: ExecutionNode| flow_reached(m, p) && #[trigger] node_edges(m, p).contains(e);
        let k = choose|k: int| 0 <= k < node_edges(m, p).len() && node_edges(m, p)[k] == e;
        assert(processed(m, outs, Seq::empty(), p));
        lemma_processed_canonical(m, outs, Seq::empty(), p);
        match p {
            ExecutionNode::Terminal(ExecutionNodeTerminal::Output(t)) => {
                lemma_reached_successor(m, outs, p, 0);
            },
            ExecutionNode::Data(d) => {
                lemma_reached_successor(m, outs, p, k);
            },
            ExecutionNode::Step(s, _) => {
                lemma_reached_successor(m, outs, p, k);
                assert(step_edges(step_at(m, s))[k] == slot_edge_view(step_at(m, s), step_slots(step_at(m, s))[k]));
            },
            ExecutionNode::Terminal(ExecutionNodeTerminal::Input(_)) => {},
        }
    }
}

/// An input of the graph that the analysis builds is a data node that comes
/// from no step.
pub proof fn lemma_flow_inputs_have_no_upstream(g: ExecutionGraph, m: MethodImplementation)
    requires
        flow_wf(m),
        describes_flow(g, m),
    ensures
        forall|d: Uid| #[trigger] g.inputs@.contains(d) ==> upstream_of(m, d).len() == 0,
{
    assert forall|d: Uid| #[trigger] g.inputs@.contains(d) implies upstream_of(m, d).len() == 0 by {
        let n = ExecutionNode::Data(d);
        if upstream_of(m, d).len() > 0 {
            let e = node_edges(m, n)[0];
            assert(node_edges(m, n).contains(e));
            assert(edge_views(g.edges@).contains(e));
            let i = choose|i: int| 0 <= i < edge_views(g.edges@).len() && edge_views(g.edges@)[i] == e;
            assert(g.edges@[i]@ == e);
            assert(g.edges@[i].to == n);
        }
    }
}

/// The graph that the analysis builds has, for each of its output terminals,
/// a data node that feeds it, so its output data nodes can be listed.
pub proof fn lemma_analysis_feeds_every_output(g: ExecutionGraph, m: MethodImplementation)
    requires
        flow_wf(m),
        describes_flow(g, m),
    ensures
        g.every_output_fed(),
{
    let outs = m.map_to_outputs@;
    assert forall|k: int| 0 <= k < g.terminals@.len() implies g.output_fed(#[trigger] g.terminals@[k]) by {
        let t = g.terminals@[k];
        let root = output_root(t);
        assert(outs[k] == t);
        assert(reaches_within(m, root, root, 1));
        assert(reaches(m, output_root(outs[k]), root));
        assert(reached_from_any(m, outs, root));
        assert(flow_reached(m, root));
        let e = node_edges(m, root)[0];
        assert(node_edges(m, root).contains(e));
        assert(edge_views(g.edges@).contains(e));
        let j = choose|j: int| 0 <= j < edge_views(g.edges@).len() && edge_views(g.edges@)[j] == e;
        assert(feeds_output(edge_views(g.edges@)[j], t));
        assert(feeds_output(edge_views(g.edges@)[j], g.terminals@[k]));
        assert(0 <= j < g.edges@.len());
    }
}

/// The two dependency maps of the graph that the analysis builds mirror each
/// other: a step lists a data node exactly where that data node lists the
/// step.
pub proof fn lemma_dependency_maps_mirror(g: ExecutionGraph, m: MethodImplementation, s: Uid, d: Uid)
    requires
        flow_wf(m),
        describes_flow(g, m),
    ensures
        (g.step_data_dependencies@.contains_key(s) && g.step_data_dependencies@[s]@.contains(d)) <==> (
            g.data_dependent_steps@.contains_key(d) && g.data_dependent_steps@[d]@.contains(s)),
{
    if g.step_data_dependencies@.contains_key(s) && g.step_data_dependencies@[s]@.contains(d) {
        assert(flow_reached(m, ExecutionNode::Data(d)) && upstream_of(m, d).contains(s));
        assert(upstream_of(m, d).len() > 0);
        assert(g.data_dependent_steps@.contains_key(d));
    }
    if g.data_dependent_steps@.contains_key(d) && g.data_dependent_steps@[d]@.contains(s) {
        assert(flow_reached(m, ExecutionNode::Data(d)));
        assert(upstream_of(m, d).contains(s));
        assert(g.step_data_dependencies@.contains_key(s));
    }
}

/// The data nodes that a step produces, which deleting the step deletes with
/// it, are exactly the data nodes in its output slots.
pub proof fn lemma_outputs_are_output_slots(step: ImplStep)
    requires
        !is_terminal_kind(step.spec_kind()),
    ensures
        forall|k: int| 0 <= k < step_slots(step).len() && (#[trigger] step_slots(step)[k]).1 == SlotType::Output
            ==> step.spec_outputs().contains(step_slots(step)[k].2),
        forall|x: Uid| #[trigger] step.spec_outputs().contains(x) ==> exists|k: int|
            0 <= k < step_slots(step).len() && (#[trigger] step_slots(step)[k]).1 == SlotType::Output
                && step_slots(step)[k].2 == x,
{
    match step {
        ImplStep::InvokeMethod { calling_operative, method_name, method_inputs, method_outputs, .. } => {
            let head = seq![
                ("CallingOperative"@, SlotType::Dependency, calling_operative),
                ("MethodName"@, SlotType::Dependency, method_name),
            ];
            let ins = method_inputs@.map_values(|d: Uid| ("MethodInputs"@, SlotType::Dependency, d));
            let outs = method_outputs@.map_values(|d: Uid| ("MethodOutputs"@, SlotType::Output, d));
            let slots = step_slots(step);
            assert(slots == head + ins + outs);
            assert forall|k: int| 0 <= k < slots.len() && (#[trigger] slots[k]).1 == SlotType::Output
                implies step.spec_outputs().contains(slots[k].2) by {
                if k < head.len() {
                } else if k < head.len() + ins.len() {
                    assert(slots[k] == ins[k - head.len()]);
                } else {
                    let j = k - head.len() - ins.len();
                    assert(slots[k] == outs[j]);
                    assert(step.spec_outputs()[j] == slots[k].2);
                }
            }
            assert forall|x: Uid| #[trigger] step.spec_outputs().contains(x) implies exists|k: int|
                0 <= k < slots.len() && (#[trigger] slots[k]).1 == SlotType::Output && slots[k].2 == x by {
                let j = choose|j: int| 0 <= j < method_outputs@.len() && method_outputs@[j] == x;
                let k = head.len() + ins.len() + j;
                assert(slots[k] == outs[j]);
            }
        },
        ImplStep::If { output, .. } => {
            let slots = step_slots(step);
            assert forall|x: Uid| #[trigger] step.spec_outputs().contains(x) implies exists|k: int|
                0 <= k < slots.len() && (#[trigger] slots[k]).1 == SlotType::Output && slots[k].2 == x by {
                assert(slots[0].2 == x);
            }
            assert forall|k: int| 0 <= k < slots.len() && (#[trigger] slots[k]).1 == SlotType::Output
                implies step.spec_outputs().contains(slots[k].2) by {
                assert(step.spec_outputs()[0] == slots[k].2);
            }
        },
        _ => {
            let slots = step_slots(step);
            assert forall|x: Uid| #[trigger] step.spec_outputs().contains(x) implies exists|k: int|
                0 <= k < slots.len() && (#[trigger] slots[k]).1 == SlotType::Output && slots[k].2 == x by {
                let j = choose|j: int| 0 <= j < step.spec_outputs().len() && step.spec_outputs()[j] == x;
                assert(j == 0);
            }
            assert forall|k: int| 0 <= k < slots.len() && (#[trigger] slots[k]).1 == SlotType::Output
                implies step.spec_outputs().contains(slots[k].2) by {
                assert(step.spec_outputs()[0] == slots[k].2);
            }
        },
    }
}

/// Deleting a step deletes every data node in its output slots.
pub proof fn lemma_deleting_a_step_deletes_its_output_slots(m: MethodImplementation, s: Uid, k: int)
    requires
        m.ids_wf(),
        m.has_step(s),
        !is_terminal_kind(step_at(m, s).spec_kind()),
        0 <= k < step_slots(step_at(m, s)).len(),
        step_slots(step_at(m, s))[k].1 == SlotType::Output,
    ensures
        m.deletes(s, step_slots(step_at(m, s))[k].2),
{
    let step = step_at(m, s);
    let x = step_slots(step)[k].2;
    lemma_outputs_are_output_slots(step);
    assert(step_slots(step)[k].1 == SlotType::Output);
    assert(step.spec_outputs().contains(x));
    let j = choose|j: int| 0 <= j < step.spec_outputs().len() && step.spec_outputs()[j] == x;
    assert(m.outputs_of(s) == step.spec_outputs());
    assert(m.deletes_within(s, x, 1));
}

} // verus!
