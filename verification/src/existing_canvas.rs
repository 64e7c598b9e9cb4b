use vstd::prelude::*;
use std::collections::HashMap;
use vstd::std_specs::iter::IteratorSpec;
use crate::ids::{Uid, uuid_text, uuid_to_string};
use crate::impl_model::{ImplStep, MethodImplementation, StepKind, find_step, lemma_step_index_unique};
use crate::execution_graph::{
    ExecutionNode, ExecutionNodeTerminal, analyze_method_implementation, describes_flow,
    edge_views, get_step_data_dependencies, slot_edge_view, step_edges, step_slots, SlotView,
};
use crate::flow_model::{canonical, flow_reached, flow_wf, lemma_processed_canonical, step_at};
use crate::schema_canvas::{
    ConnectionView, DataNodeSchema, FunctionInputSchema, FunctionOutputSchema, InitialNode,
    InitialNodeView, create_functioninput_complex, create_functionoutput_complex, data_node_complex,
    generate_impldata_complex, input_complex, is_fresh_text, node_view, node_views, output_complex,
};

verus! {

broadcast use vstd::std_specs::hash::group_hash_axioms;

/// What the canvas needs of the schema to show an existing method
/// implementation: the data type of each data node, each function input and
/// output, and the operative that is the template of each kind of step.
pub struct ExistingImplSchema {
    pub data: Vec<DataNodeSchema>,
    pub function_inputs: Vec<FunctionInputSchema>,
    pub function_outputs: Vec<FunctionOutputSchema>,
    pub step_templates: Vec<(StepKind, Uid)>,
}

impl ExistingImplSchema {
    /// Each list names each object at most once.
    pub open spec fn unique(&self) -> bool {
        &&& forall|i: int, j: int| 0 <= i < self.data@.len() && 0 <= j < self.data@.len()
            && #[trigger] self.data@[i].id == #[trigger] self.data@[j].id ==> i == j
        &&& forall|i: int, j: int| 0 <= i < self.function_inputs@.len() && 0 <= j < self.function_inputs@.len()
            && #[trigger] self.function_inputs@[i].id == #[trigger] self.function_inputs@[j].id ==> i == j
        &&& forall|i: int, j: int| 0 <= i < self.function_outputs@.len() && 0 <= j < self.function_outputs@.len()
            && #[trigger] self.function_outputs@[i].id == #[trigger] self.function_outputs@[j].id ==> i == j
        &&& forall|i: int, j: int| 0 <= i < self.step_templates@.len() && 0 <= j < self.step_templates@.len()
            && #[trigger] self.step_templates@[i].0 == #[trigger] self.step_templates@[j].0 ==> i == j
    }

    pub open spec fn has_data(&self, d: Uid) -> bool {
        exists|i: int| 0 <= i < self.data@.len() && #[trigger] self.data@[i].id == d
    }

    pub open spec fn data_of(&self, d: Uid) -> DataNodeSchema {
        self.data@[choose|i: int| 0 <= i < self.data@.len() && #[trigger] self.data@[i].id == d]
    }

    pub open spec fn has_input(&self, f: Uid) -> bool {
        exists|i: int| 0 <= i < self.function_inputs@.len() && #[trigger] self.function_inputs@[i].id == f
    }

    pub open spec fn input_of(&self, f: Uid) -> FunctionInputSchema {
        self.function_inputs@[choose|i: int|
            0 <= i < self.function_inputs@.len() && #[trigger] self.function_inputs@[i].id == f]
    }

    pub open spec fn has_output(&self, f: Uid) -> bool {
        exists|i: int| 0 <= i < self.function_outputs@.len() && #[trigger] self.function_outputs@[i].id == f
    }

    pub open spec fn output_of(&self, f: Uid) -> FunctionOutputSchema {
        self.function_outputs@[choose|i: int|
            0 <= i < self.function_outputs@.len() && #[trigger] self.function_outputs@[i].id == f]
    }

    pub open spec fn has_template(&self, k: StepKind) -> bool {
        exists|i: int| 0 <= i < self.step_templates@.len() && #[trigger] self.step_templates@[i].0 == k
    }

    pub open spec fn template_of(&self, k: StepKind) -> Uid {
        self.step_templates@[choose|i: int| 0 <= i < self.step_templates@.len() && #[trigger] self.step_templates@[i].0 == k].1
    }

    /// The schema describes every object that the canvas of the node `n` of
    /// `m` needs.
    pub open spec fn covers(&self, m: MethodImplementation, n: ExecutionNode) -> bool {
        match n {
            ExecutionNode::Data(d) => self.has_data(d),
            ExecutionNode::Step(_, k) => self.has_template(k),
            ExecutionNode::Terminal(ExecutionNodeTerminal::Input(s)) => self.has_template(StepKind::MapFromInput)
                && (step_at(m, s) matches ImplStep::MapFromInput { input, .. } && self.has_input(input)),
            ExecutionNode::Terminal(ExecutionNodeTerminal::Output(s)) => self.has_template(StepKind::MapToOutput)
                && (step_at(m, s) matches ImplStep::MapToOutput { output, .. } && self.has_output(output)),
        }
    }
}

/// The connection a step node starts with for one of its slots.
pub open spec fn slot_connection(slot: SlotView) -> ConnectionView {
    (slot.0, uuid_text(slot.2), true)
}

/// The canvas nodes for the execution node `n` of `m`; `self_id` names the
/// node of the operative where `n` maps in a function input that is the
/// operative itself.
pub open spec fn node_complex(
    m: MethodImplementation,
    ctx: ExistingImplSchema,
    n: ExecutionNode,
    self_id: Seq<char>,
) -> Seq<InitialNodeView> {
    match n {
        ExecutionNode::Data(d) => data_node_complex(ctx.data_of(d)),
        ExecutionNode::Step(s, k) => seq![
            node_view(
                ctx.template_of(k),
                Some(uuid_text(s)),
                true,
                step_slots(step_at(m, s)).map_values(|slot: SlotView| slot_connection(slot)),
                Seq::empty(),
            ),
        ],
        ExecutionNode::Terminal(ExecutionNodeTerminal::Input(s)) => match step_at(m, s) {
            ImplStep::MapFromInput { input, output, .. } => input_complex(ctx.input_of(input), self_id) + seq![
                node_view(
                    ctx.template_of(StepKind::MapFromInput),
                    Some(uuid_text(s)),
                    true,
                    seq![("Output"@, uuid_text(output), true), ("Input"@, uuid_text(input), true)],
                    Seq::empty(),
                ),
            ],
            _ => Seq::empty(),
        },
        ExecutionNode::Terminal(ExecutionNodeTerminal::Output(s)) => match step_at(m, s) {
            ImplStep::MapToOutput { input, output, .. } => output_complex(ctx.output_of(output)) + seq![
                node_view(
                    ctx.template_of(StepKind::MapToOutput),
                    Some(uuid_text(s)),
                    true,
                    seq![("Input"@, uuid_text(input), true), ("Output"@, uuid_text(output), true)],
                    Seq::empty(),
                ),
            ],
            _ => Seq::empty(),
        },
    }
}

/// Whether the canvas of the node `n` places a node of the operative itself:
/// `n` maps in a function input whose type is the operative.
pub open spec fn needs_self_id(m: MethodImplementation, ctx: ExistingImplSchema, n: ExecutionNode) -> bool {
    match n {
        ExecutionNode::Terminal(ExecutionNodeTerminal::Input(s)) => match step_at(m, s) {
            ImplStep::MapFromInput { input, .. } => ctx.input_of(input).input_type is SelfType,
            _ => false,
        },
        _ => false,
    }
}

/// The canvas nodes for the first `n` execution nodes of `order`, each after
/// the nodes of those before it.
pub open spec fn canvas_nodes(
    m: MethodImplementation,
    ctx: ExistingImplSchema,
    order: Seq<ExecutionNode>,
    self_ids: Seq<Seq<char>>,
    n: nat,
) -> Seq<InitialNodeView>
    decreases n,
{
    if n == 0 {
        Seq::empty()
    } else {
        canvas_nodes(m, ctx, order, self_ids, (n - 1) as nat) + node_complex(m, ctx, order[n - 1], self_ids[n - 1])
    }
}

fn find_data_schema(ctx: &ExistingImplSchema, d: Uid) -> (r: usize)
    requires
        ctx.unique(),
        ctx.has_data(d),
    ensures
        r < ctx.data@.len(),
        ctx.data@[r as int] == ctx.data_of(d),
{
    let mut i: usize = 0;
    while i < ctx.data.len()
        invariant
            ctx.unique(),
            i <= ctx.data@.len(),
            forall|j: int| 0 <= j < i ==> (#[trigger] ctx.data@[j]).id != d,
        decreases ctx.data@.len() - i,
    {
        if ctx.data[i].id == d {
            proof {
                assert(ctx.data@[i as int].id == d);
                let w = choose|w: int| 0 <= w < ctx.data@.len() && #[trigger] ctx.data@[w].id == d;
                assert(w == i);
            }
            return i;
        }
        i = i + 1;
    }
    proof {
        let w = choose|w: int| 0 <= w < ctx.data@.len() && #[trigger] ctx.data@[w].id == d;
        assert(ctx.data@[w].id != d);
    }
    0
}

fn find_input_schema(ctx: &ExistingImplSchema, f: Uid) -> (r: usize)
    requires
        ctx.unique(),
        ctx.has_input(f),
    ensures
        r < ctx.function_inputs@.len(),
        ctx.function_inputs@[r as int] == ctx.input_of(f),
{
    let mut i: usize = 0;
    while i < ctx.function_inputs.len()
        invariant
            ctx.unique(),
            i <= ctx.function_inputs@.len(),
            forall|j: int| 0 <= j < i ==> (#[trigger] ctx.function_inputs@[j]).id != f,
        decreases ctx.function_inputs@.len() - i,
    {
        if ctx.function_inputs[i].id == f {
            proof {
                assert(ctx.function_inputs@[i as int].id == f);
                let w = choose|w: int| 0 <= w < ctx.function_inputs@.len() && #[trigger] ctx.function_inputs@[w].id == f;
                assert(w == i);
            }
            return i;
        }
        i = i + 1;
    }
    proof {
        let w = choose|w: int| 0 <= w < ctx.function_inputs@.len() && #[trigger] ctx.function_inputs@[w].id == f;
        assert(ctx.function_inputs@[w].id != f);
    }
    0
}

fn find_output_schema(ctx: &ExistingImplSchema, f: Uid) -> (r: usize)
    requires
        ctx.unique(),
        ctx.has_output(f),
    ensures
        r < ctx.function_outputs@.len(),
        ctx.function_outputs@[r as int] == ctx.output_of(f),
{
    let mut i: usize = 0;
    while i < ctx.function_outputs.len()
        invariant
            ctx.unique(),
            i <= ctx.function_outputs@.len(),
            forall|j: int| 0 <= j < i ==> (#[trigger] ctx.function_outputs@[j]).id != f,
        decreases ctx.function_outputs@.len() - i,
    {
        if ctx.function_outputs[i].id == f {
            proof {
                assert(ctx.function_outputs@[i as int].id == f);
                let w = choose|w: int| 0 <= w < ctx.function_outputs@.len() && #[trigger] ctx.function_outputs@[w].id == f;
                assert(w == i);
            }
            return i;
        }
        i = i + 1;
    }
    proof {
        let w = choose|w: int| 0 <= w < ctx.function_outputs@.len() && #[trigger] ctx.function_outputs@[w].id == f;
        assert(ctx.function_outputs@[w].id != f);
    }
    0
}

fn find_template(ctx: &ExistingImplSchema, k: StepKind) -> (r: Uid)
    requires
        ctx.unique(),
        ctx.has_template(k),
    ensures
        r == ctx.template_of(k),
{
    let mut i: usize = 0;
    while i < ctx.step_templates.len()
        invariant
            ctx.unique(),
            i <= ctx.step_templates@.len(),
            forall|j: int| 0 <= j < i ==> (#[trigger] ctx.step_templates@[j]).0 != k,
        decreases ctx.step_templates@.len() - i,
    {
        if ctx.step_templates[i].0 == k {
            proof {
                assert(ctx.step_templates@[i as int].0 == k);
                let w = choose|w: int| 0 <= w < ctx.step_templates@.len() && #[trigger] ctx.step_templates@[w].0 == k;
                assert(w == i);
            }
            return ctx.step_templates[i].1;
        }
        i = i + 1;
    }
    proof {
        let w = choose|w: int| 0 <= w < ctx.step_templates@.len() && #[trigger] ctx.step_templates@[w].0 == k;
        assert(ctx.step_templates@[w].0 != k);
    }
    0
}

/// The node of a step, connected to the data node in each of its slots.
fn step_node(m: &MethodImplementation, ctx: &ExistingImplSchema, s: Uid, k: StepKind) -> (r: InitialNode)
    requires
        flow_wf(*m),
        ctx.unique(),
        canonical(*m, ExecutionNode::Step(s, k)),
        ctx.has_template(k),
    ensures
        r@ == node_complex(*m, *ctx, ExecutionNode::Step(s, k), Seq::empty())[0],
{
    let template = find_template(ctx, k);
    let mut node = InitialNode::with_id(template, &uuid_to_string(s));
    let si = find_step(m, s);
    proof {
        lemma_step_index_unique(m, si as int, s);
    }
    let step = &m.steps[si];
    let edges = get_step_data_dependencies(step);
    let ghost slots = step_slots(*step);
    let ghost conns = slots.map_values(|slot: SlotView| slot_connection(slot));
    proof {
        assert(edges@.len() == edge_views(edges@).len());
        assert forall|q: int| 0 <= q < edges@.len() implies (#[trigger] edges@[q])@.0 == slots[q].0
            && edges@[q].to == ExecutionNode::Data(slots[q].2) by {
            assert(edge_views(edges@)[q] == edges@[q]@);
            assert(step_edges(*step)[q] == slot_edge_view(*step, slots[q]));
        }
        assert(conns.take(0) =~= Seq::<ConnectionView>::empty());
        assert(node@.connections =~= Seq::<ConnectionView>::empty());
    }
    let mut j: usize = 0;
    while j < edges.len()
        invariant
            j <= edges@.len(),
            edges@.len() == slots.len(),
            forall|q: int| 0 <= q < edges@.len() ==> (#[trigger] edges@[q])@.0 == slots[q].0
                && edges@[q].to == ExecutionNode::Data(slots[q].2),
            conns == slots.map_values(|slot: SlotView| slot_connection(slot)),
            node@ == node_view(template, Some(uuid_text(s)), true, conns.take(j as int), Seq::empty()),
        decreases edges@.len() - j,
    {
        let e = &edges[j];
        let target = uuid_to_string(e.to.get_id());
        node.connect(e.slot_name.as_str(), &target, true);
        assert(conns.take(j + 1) =~= conns.take(j as int).push(conns[j as int]));
        j = j + 1;
    }
    assert(conns.take(j as int) =~= conns);
    node
}

/// The canvas nodes for the execution nodes in `order`: for a data node, the
/// nodes of its data type and the node itself; for a step, its node connected
/// to the data nodes in its slots; for a terminal, the nodes of its function
/// input or output and the terminal node connected to its data node and to
/// that input or output. Where a function input is the operative itself, its
/// node gets a new random identifier.
pub fn canvas_for_execution_nodes(
    m: &MethodImplementation,
    ctx: &ExistingImplSchema,
    order: &Vec<ExecutionNode>,
) -> (r: Vec<InitialNode>)
    requires
        flow_wf(*m),
        ctx.unique(),
        forall|i: int| 0 <= i < order@.len() ==> canonical(*m, #[trigger] order@[i]) && ctx.covers(*m, order@[i]),
    ensures
        exists|self_ids: Seq<Seq<char>>|
            self_ids.len() == order@.len() && (forall|i: int|
                0 <= i < self_ids.len() && needs_self_id(*m, *ctx, order@[i]) ==> is_fresh_text(#[trigger] self_ids[i]))
                && node_views(r@) == canvas_nodes(*m, *ctx, order@, self_ids, order@.len()),
{
    let mut out: Vec<InitialNode> = Vec::new();
    let ghost mut self_ids: Seq<Seq<char>> = Seq::empty();
    let mut i: usize = 0;
    while i < order.len()
        invariant
            flow_wf(*m),
            ctx.unique(),
            forall|q: int| 0 <= q < order@.len() ==> canonical(*m, #[trigger] order@[q]) && ctx.covers(*m, order@[q]),
            i <= order@.len(),
            self_ids.len() == i,
            forall|q: int| 0 <= q < self_ids.len() && needs_self_id(*m, *ctx, order@[q]) ==> is_fresh_text(#[trigger] self_ids[q]),
            node_views(out@) == canvas_nodes(*m, *ctx, order@, self_ids, i as nat),
        decreases order@.len() - i,
    {
        let n = order[i];
        assert(canonical(*m, order@[i as int]) && ctx.covers(*m, order@[i as int]));
        let ghost pre = out@;
        let ghost mut sid: Seq<char> = Seq::empty();
        let mut nodes: Vec<InitialNode> = match n {
            ExecutionNode::Data(d) => {
                let di = find_data_schema(ctx, d);
                generate_impldata_complex(&ctx.data[di])
            },
            ExecutionNode::Step(s, k) => {
                let node = step_node(m, ctx, s, k);
                let v = vec![node];
                proof {
                    assert(node_views(v@) =~= node_complex(*m, *ctx, n, sid));
                }
                v
            },
            ExecutionNode::Terminal(ExecutionNodeTerminal::Input(s)) => {
                let si = find_step(m, s);
                let (fi, data) = match &m.steps[si] {
                    ImplStep::MapFromInput { input, output, .. } => (*input, *output),
                    _ => {
                        proof {
                            assert(false);
                        }
                        (0, 0)
                    },
                };
                let fidx = find_input_schema(ctx, fi);
                let mut v = create_functioninput_complex(&ctx.function_inputs[fidx]);
                proof {
                    if ctx.function_inputs@[fidx as int].input_type is SelfType {
                        sid = choose|self_id: Seq<char>|
                            #![trigger input_complex(ctx.function_inputs@[fidx as int], self_id)]
                            is_fresh_text(self_id) && node_views(v@) == input_complex(
                                ctx.function_inputs@[fidx as int],
                                self_id,
                            );
                    } else {
                        assert(node_views(v@) == input_complex(ctx.function_inputs@[fidx as int], Seq::empty()));
                        assert(input_complex(ctx.function_inputs@[fidx as int], Seq::empty())
                            == input_complex(ctx.function_inputs@[fidx as int], sid));
                    }
                }
                let template = find_template(ctx, StepKind::MapFromInput);
                let mut t = InitialNode::with_id(template, &uuid_to_string(s));
                t.connect("Output", &uuid_to_string(data), true);
                t.connect("Input", &uuid_to_string(fi), true);
                let ghost before = v@;
                v.push(t);
                proof {
                    assert(t@.connections =~= seq![("Output"@, uuid_text(data), true), ("Input"@, uuid_text(fi), true)]);
                    assert(node_views(v@) =~= node_views(before).push(t@));
                    assert(node_views(v@) =~= node_complex(*m, *ctx, n, sid));
                }
                v
            },
            ExecutionNode::Terminal(ExecutionNodeTerminal::Output(s)) => {
                let si = find_step(m, s);
                let (data, fo) = match &m.steps[si] {
                    ImplStep::MapToOutput { input, output, .. } => (*input, *output),
                    _ => {
                        proof {
                            assert(false);
                        }
                        (0, 0)
                    },
                };
                let fidx = find_output_schema(ctx, fo);
                let mut v = create_functionoutput_complex(&ctx.function_outputs[fidx]);
                let template = find_template(ctx, StepKind::MapToOutput);
                let mut t = InitialNode::with_id(template, &uuid_to_string(s));
                t.connect("Input", &uuid_to_string(data), true);
                t.connect("Output", &uuid_to_string(fo), true);
                let ghost before = v@;
                v.push(t);
                proof {
                    assert(t@.connections =~= seq![("Input"@, uuid_text(data), true), ("Output"@, uuid_text(fo), true)]);
                    assert(node_views(v@) =~= node_views(before).push(t@));
                    assert(node_views(v@) =~= node_complex(*m, *ctx, n, sid));
                }
                v
            },
        };
        assert(node_views(nodes@) == node_complex(*m, *ctx, n, sid));
        out.append(&mut nodes);
        proof {
            assert(node_views(out@) =~= node_views(pre) + node_complex(*m, *ctx, n, sid));
            let ghost old_ids = self_ids;
            self_ids = self_ids.push(sid);
            assert(canvas_nodes(*m, *ctx, order@, old_ids, i as nat) == canvas_nodes(*m, *ctx, order@, self_ids, i as nat)) by {
                lemma_canvas_nodes_prefix(*m, *ctx, order@, old_ids, self_ids, i as nat);
            }
        }
        i = i + 1;
    }
    out
}

proof fn lemma_canvas_nodes_prefix(
    m: MethodImplementation,
    ctx: ExistingImplSchema,
    order: Seq<ExecutionNode>,
    a: Seq<Seq<char>>,
    b: Seq<Seq<char>>,
    n: nat,
)
    requires
        n <= a.len(),
        n <= b.len(),
        forall|q: int| 0 <= q < n ==> a[q] == b[q],
    ensures
        canvas_nodes(m, ctx, order, a, n) == canvas_nodes(m, ctx, order, b, n),
    decreases n,
{
    if n > 0 {
        lemma_canvas_nodes_prefix(m, ctx, order, a, b, (n - 1) as nat);
    }
}

/// The execution nodes of the graph, in the order the map yields them.
fn graph_nodes(nodes: &HashMap<Uid, ExecutionNode>) -> (r: Vec<ExecutionNode>)
    ensures
        r@.to_set() == nodes@.values(),
        r@.len() == nodes@.dom().len(),
{
    let mut r: Vec<ExecutionNode> = Vec::new();
    for v in it: nodes.values()
        invariant
            r@ == it.seq().take(it.index() as int).map_values(|x: &ExecutionNode| *x),
            it.seq() == vstd::std_specs::hash::spec_values_iter(nodes).remaining(),
    {
        r.push(*v);
    }
    proof {
        let rem = vstd::std_specs::hash::spec_values_iter(nodes).remaining();
        assert(rem.take(rem.len() as int) =~= rem);
        assert(r@ =~= rem.unref());
    }
    r
}

/// The canvas for an existing method implementation: its execution flow is
/// analysed, and each node reached from its outputs is placed with the nodes
/// it brings along (see `canvas_for_execution_nodes`), in the order in which
/// the flow graph's node map yields them.
pub fn setup_existing_fn_impl_in_canvas(m: &MethodImplementation, ctx: &ExistingImplSchema) -> (r: Vec<InitialNode>)
    requires
        flow_wf(*m),
        ctx.unique(),
        forall|n: ExecutionNode| #[trigger] flow_reached(*m, n) ==> ctx.covers(*m, n),
    ensures
        exists|order: Seq<ExecutionNode>, self_ids: Seq<Seq<char>>|
            order.to_set() == Set::new(|n: ExecutionNode| flow_reached(*m, n)) && order.no_duplicates()
                && self_ids.len() == order.len()
                && (forall|i: int| 0 <= i < self_ids.len() && needs_self_id(*m, *ctx, order[i])
                    ==> is_fresh_text(#[trigger] self_ids[i]))
                && node_views(r@) == canvas_nodes(*m, *ctx, order, self_ids, order.len()),
{
    let g = analyze_method_implementation(m);
    let order = graph_nodes(&g.nodes);
    proof {
        assert(describes_flow(g, *m));
        assert forall|n: ExecutionNode| order@.to_set().contains(n) <==> flow_reached(*m, n) by {
            if flow_reached(*m, n) {
                assert(g.nodes@.contains_key(n.spec_id()) && g.nodes@[n.spec_id()] == n);
                assert(g.nodes@.values().contains(n));
            }
            if order@.to_set().contains(n) {
                assert(g.nodes@.values().contains(n));
                let k = choose|k: Uid| g.nodes@.contains_key(k) && g.nodes@[k] == n;
                assert(flow_reached(*m, g.nodes@[k]));
            }
        }
        assert(order@.to_set() =~= Set::new(|n: ExecutionNode| flow_reached(*m, n)));
        assert(g.nodes@.dom().finite());
        assert(g.nodes@.is_injective()) by {
            assert forall|a: Uid, b: Uid| g.nodes@.dom().contains(a) && g.nodes@.dom().contains(b)
                && #[trigger] g.nodes@[a] == #[trigger] g.nodes@[b] implies a == b by {
                assert(g.nodes@[a].spec_id() == a);
                assert(g.nodes@[b].spec_id() == b);
            }
        }
        g.nodes@.lemma_injective_values_len();
        order@.lemma_no_dup_set_cardinality();
        assert forall|i: int| 0 <= i < order@.len() implies canonical(*m, #[trigger] order@[i]) && ctx.covers(*m, order@[i]) by {
            assert(order@.to_set().contains(order@[i]));
            assert(flow_reached(*m, order@[i]));
            lemma_processed_canonical(*m, m.map_to_outputs@, Seq::empty(), order@[i]);
        }
    }
    canvas_for_execution_nodes(m, ctx, &order)
}

/// The canvas nodes of one execution node end with a node carrying its
/// identifier.
proof fn lemma_complex_shows_node(m: MethodImplementation, ctx: ExistingImplSchema, n: ExecutionNode, self_id: Seq<char>)
    requires
        canonical(m, n),
        ctx.covers(m, n),
    ensures
        node_complex(m, ctx, n, self_id).len() > 0,
        node_complex(m, ctx, n, self_id).last().id == Some(uuid_text(n.spec_id())),
{
    match n {
        ExecutionNode::Data(d) => {
            let i = choose|i: int| 0 <= i < ctx.data@.len() && #[trigger] ctx.data@[i].id == d;
            assert(ctx.data_of(d).id == d);
        },
        _ => {},
    }
}

proof fn lemma_canvas_nodes_extend(
    m: MethodImplementation,
    ctx: ExistingImplSchema,
    order: Seq<ExecutionNode>,
    self_ids: Seq<Seq<char>>,
    i: int,
    n: nat,
)
    requires
        0 <= i < n <= order.len(),
        canonical(m, order[i]),
        ctx.covers(m, order[i]),
    ensures
        exists|k: int| 0 <= k < canvas_nodes(m, ctx, order, self_ids, n).len()
            && (#[trigger] canvas_nodes(m, ctx, order, self_ids, n)[k]).id == Some(uuid_text(order[i].spec_id())),
    decreases n,
{
    let prev = canvas_nodes(m, ctx, order, self_ids, (n - 1) as nat);
    let own = node_complex(m, ctx, order[n - 1], self_ids[n - 1]);
    let all = canvas_nodes(m, ctx, order, self_ids, n);
    assert(all == prev + own);
    if i == n - 1 {
        lemma_complex_shows_node(m, ctx, order[i], self_ids[i]);
        assert(all[prev.len() + own.len() - 1] == own.last());
    } else {
        lemma_canvas_nodes_extend(m, ctx, order, self_ids, i, (n - 1) as nat);
        let k = choose|k: int| 0 <= k < prev.len() && (#[trigger] prev[k]).id == Some(uuid_text(order[i].spec_id()));
        assert(all[k] == prev[k]);
    }
}

/// Every node of the execution flow that the canvas is built from appears on
/// the canvas under its own identifier.
pub proof fn lemma_canvas_shows_every_node(
    m: MethodImplementation,
    ctx: ExistingImplSchema,
    order: Seq<ExecutionNode>,
    self_ids: Seq<Seq<char>>,
    i: int,
)
    requires
        0 <= i < order.len(),
        canonical(m, order[i]),
        ctx.covers(m, order[i]),
    ensures
        exists|k: int| 0 <= k < canvas_nodes(m, ctx, order, self_ids, order.len()).len()
            && (#[trigger] canvas_nodes(m, ctx, order, self_ids, order.len())[k]).id == Some(uuid_text(order[i].spec_id())),
{
    lemma_canvas_nodes_extend(m, ctx, order, self_ids, i, order.len());
}

} // verus!
