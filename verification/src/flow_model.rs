use vstd::prelude::*;
use vstd::set_lib::*;
use crate::ids::Uid;
use crate::impl_model::{ImplStep, MethodImplementation, StepKind};
use crate::execution_graph::{
    EdgeView, ExecutionGraph, ExecutionNode, ExecutionNodeTerminal, SlotType, SlotView, edge_views,
    is_terminal_kind, step_edges, step_slots,
};

verus! {

/// The step of `m` with identifier `s`.
pub open spec fn step_at(m: MethodImplementation, s: Uid) -> ImplStep {
    m.steps@[m.step_index(s)]
}

/// The steps whose output the data node `d` of `m` is.
pub open spec fn upstream_of(m: MethodImplementation, d: Uid) -> Seq<Uid> {
    m.data@[m.data_index(d)].upstream_steps@
}

/// The data node that a `MapToOutput` step maps out.
pub open spec fn terminal_input(step: ImplStep) -> Uid {
    match step {
        ImplStep::MapToOutput { input, .. } => input,
        _ => step.spec_id(),
    }
}

/// The node under which a step upstream of a data node enters the graph: a
/// `MapFromInput` step as an input terminal, any other as a step.
pub open spec fn upstream_node(m: MethodImplementation, u: Uid) -> ExecutionNode {
    if step_at(m, u).spec_kind() == StepKind::MapFromInput {
        ExecutionNode::Terminal(ExecutionNodeTerminal::Input(u))
    } else {
        ExecutionNode::Step(u, step_at(m, u).spec_kind())
    }
}

/// The nodes that the traversal reaches from `n`, in order: from an output
/// terminal the data node it maps out, from a data node the steps it comes
/// from, from a step the data nodes in its slots.
pub open spec fn node_successors(m: MethodImplementation, n: ExecutionNode) -> Seq<ExecutionNode> {
    match n {
        ExecutionNode::Terminal(ExecutionNodeTerminal::Output(t)) => seq![
            ExecutionNode::Data(terminal_input(step_at(m, t))),
        ],
        ExecutionNode::Data(d) => upstream_of(m, d).map_values(|u: Uid| upstream_node(m, u)),
        ExecutionNode::Step(s, _) => step_slots(step_at(m, s)).map_values(
            |slot: SlotView| ExecutionNode::Data(slot.2),
        ),
        ExecutionNode::Terminal(ExecutionNodeTerminal::Input(_)) => Seq::empty(),
    }
}

/// The edges that the traversal records at `n`, in order.
pub open spec fn node_edges(m: MethodImplementation, n: ExecutionNode) -> Seq<EdgeView> {
    match n {
        ExecutionNode::Terminal(ExecutionNodeTerminal::Output(t)) => seq![
            ("input"@, SlotType::Dependency, ExecutionNode::Data(terminal_input(step_at(m, t))), n),
        ],
        ExecutionNode::Data(d) => upstream_of(m, d).map_values(
            |u: Uid| ("upstream"@, SlotType::Dependency, upstream_node(m, u), n),
        ),
        ExecutionNode::Step(s, _) => step_edges(step_at(m, s)),
        ExecutionNode::Terminal(ExecutionNodeTerminal::Input(_)) => Seq::empty(),
    }
}

/// `to` is reached from `from` within `fuel` levels of the traversal.
pub open spec fn reaches_within(m: MethodImplementation, from: ExecutionNode, to: ExecutionNode, fuel: nat) -> bool
    decreases fuel,
{
    if fuel == 0 {
        false
    } else {
        to == from || exists|k: int|
            0 <= k < node_successors(m, from).len() && reaches_within(
                m,
                #[trigger] node_successors(m, from)[k],
                to,
                (fuel - 1) as nat,
            )
    }
}

/// `to` is reached from `from` by the traversal.
pub open spec fn reaches(m: MethodImplementation, from: ExecutionNode, to: ExecutionNode) -> bool {
    exists|fuel: nat| #[trigger] reaches_within(m, from, to, fuel)
}

/// The output terminal of the `MapToOutput` step `t`, where a traversal starts.
pub open spec fn output_root(t: Uid) -> ExecutionNode {
    ExecutionNode::Terminal(ExecutionNodeTerminal::Output(t))
}

/// `n` is reached from the output terminal of one of `roots`.
pub open spec fn reached_from_any(m: MethodImplementation, roots: Seq<Uid>, n: ExecutionNode) -> bool {
    exists|i: int| 0 <= i < roots.len() && reaches(m, output_root(#[trigger] roots[i]), n)
}

/// The identifiers that the data slots of a step hold, terminal steps included.
pub open spec fn step_data_refs(step: ImplStep) -> Seq<Uid> {
    match step {
        ImplStep::MapToOutput { input, .. } => seq![input],
        ImplStep::MapFromInput { output, .. } => seq![output],
        _ => step_slots(step).map_values(|slot: SlotView| slot.2),
    }
}

/// A method implementation whose execution flow can be traversed: identifiers
/// resolve, every data slot of a step holds a data node of the implementation,
/// the mapped-out outputs are `MapToOutput` steps, and no data node comes from
/// a `MapToOutput` step.
pub open spec fn flow_wf(m: MethodImplementation) -> bool {
    &&& m.ids_wf()
    &&& forall|j: int, k: int| 0 <= j < m.steps@.len() && 0 <= k < step_data_refs(m.steps@[j]).len()
        ==> m.has_data(#[trigger] step_data_refs(m.steps@[j])[k])
    &&& forall|i: int| 0 <= i < m.map_to_outputs@.len() ==> m.has_step(#[trigger] m.map_to_outputs@[i])
        && step_at(m, m.map_to_outputs@[i]).spec_kind() == StepKind::MapToOutput
    &&& forall|i: int, k: int| 0 <= i < m.data@.len() && 0 <= k < m.data@[i].upstream_steps@.len()
        ==> step_at(m, #[trigger] m.data@[i].upstream_steps@[k]).spec_kind() != StepKind::MapToOutput
}

/// `n` stands for an object of `m` under the node kind that the object's kind
/// gives it.
pub open spec fn canonical(m: MethodImplementation, n: ExecutionNode) -> bool {
    match n {
        ExecutionNode::Data(d) => m.has_data(d),
        ExecutionNode::Step(s, k) => m.has_step(s) && step_at(m, s).spec_kind() == k && !is_terminal_kind(k),
        ExecutionNode::Terminal(ExecutionNodeTerminal::Input(s)) => m.has_step(s) && step_at(m, s).spec_kind()
            == StepKind::MapFromInput,
        ExecutionNode::Terminal(ExecutionNodeTerminal::Output(s)) => m.has_step(s) && step_at(m, s).spec_kind()
            == StepKind::MapToOutput,
    }
}

/// A position for each canonical node: data nodes first, then steps.
pub open spec fn node_position(m: MethodImplementation, n: ExecutionNode) -> int {
    match n {
        ExecutionNode::Data(d) => m.data_index(d),
        _ => m.data@.len() + m.step_index(n.spec_id()),
    }
}

/// A canonical node has a position among the implementation's data nodes and
/// steps.
pub proof fn lemma_canonical_position(m: MethodImplementation, n: ExecutionNode)
    requires
        m.ids_wf(),
        canonical(m, n),
    ensures
        0 <= node_position(m, n) < m.data@.len() + m.steps@.len(),
{
}

/// Two canonical nodes with one identifier are one node.
pub proof fn lemma_canonical_unique(m: MethodImplementation, a: ExecutionNode, b: ExecutionNode)
    requires
        m.ids_wf(),
        canonical(m, a),
        canonical(m, b),
        a.spec_id() == b.spec_id(),
    ensures
        a == b,
{
    match a {
        ExecutionNode::Data(d) => {
            if !(b is Data) {
                let i = m.data_index(d);
                let j = m.step_index(d);
                assert(m.data@[i].id != m.steps@[j].spec_id());
            }
        },
        _ => {
            if b is Data {
                let i = m.data_index(b.spec_id());
                let j = m.step_index(b.spec_id());
                assert(m.data@[i].id != m.steps@[j].spec_id());
            }
        },
    }
}

/// Distinct canonical nodes have distinct positions.
pub proof fn lemma_position_injective(m: MethodImplementation, a: ExecutionNode, b: ExecutionNode)
    requires
        m.ids_wf(),
        canonical(m, a),
        canonical(m, b),
        node_position(m, a) == node_position(m, b),
    ensures
        a == b,
{
    if a is Data && b is Data {
    } else if !(a is Data) && !(b is Data) {
        let i = m.step_index(a.spec_id());
        assert(m.steps@[i].spec_id() == a.spec_id());
        assert(m.steps@[i].spec_id() == b.spec_id());
        lemma_canonical_unique(m, a, b);
    } else {
        lemma_canonical_position(m, a);
        lemma_canonical_position(m, b);
    }
}

/// A list of distinct canonical nodes is no longer than the implementation has
/// objects.
pub proof fn lemma_canonical_list_bounded(m: MethodImplementation, q: Seq<ExecutionNode>)
    requires
        m.ids_wf(),
        q.no_duplicates(),
        forall|i: int| 0 <= i < q.len() ==> canonical(m, #[trigger] q[i]),
    ensures
        q.len() <= m.data@.len() + m.steps@.len(),
{
    let bound: int = (m.data@.len() + m.steps@.len()) as int;
    let f = |n: ExecutionNode| node_position(m, n);
    let s = q.map_values(f);
    assert forall|i: int, j: int| 0 <= i < s.len() && 0 <= j < s.len() && i != j implies s[i] != s[j] by {
        if s[i] == s[j] {
            lemma_position_injective(m, q[i], q[j]);
        }
    }
    assert(s.no_duplicates());
    s.unique_seq_to_set();
    assert forall|x: int| s.to_set().contains(x) implies set_int_range(0, bound).contains(x) by {
        let i = choose|i: int| 0 <= i < s.len() && s[i] == x;
        lemma_canonical_position(m, q[i]);
    }
    lemma_int_range(0, bound);
    lemma_len_subset(s.to_set(), set_int_range(0, bound));
}

/// Every node the traversal reaches from a canonical node is canonical.
pub proof fn lemma_successors_canonical(m: MethodImplementation, n: ExecutionNode)
    requires
        flow_wf(m),
        canonical(m, n),
    ensures
        forall|k: int| 0 <= k < node_successors(m, n).len() ==> canonical(m, #[trigger] node_successors(m, n)[k]),
{
    match n {
        ExecutionNode::Terminal(ExecutionNodeTerminal::Output(t)) => {
            let j = m.step_index(t);
            assert(step_data_refs(m.steps@[j])[0] == terminal_input(step_at(m, t)));
        },
        ExecutionNode::Data(d) => {
            let i = m.data_index(d);
            assert forall|k: int| 0 <= k < node_successors(m, n).len() implies canonical(
                m,
                #[trigger] node_successors(m, n)[k],
            ) by {
                let u = m.data@[i].upstream_steps@[k];
                assert(m.has_step(u));
            }
        },
        ExecutionNode::Step(s, _) => {
            let j = m.step_index(s);
            assert forall|k: int| 0 <= k < node_successors(m, n).len() implies canonical(
                m,
                #[trigger] node_successors(m, n)[k],
            ) by {
                assert(step_data_refs(m.steps@[j])[k] == step_slots(m.steps@[j])[k].2);
            }
        },
        ExecutionNode::Terminal(ExecutionNodeTerminal::Input(_)) => {},
    }
}

/// A node reached from a canonical node is canonical.
pub proof fn lemma_reached_canonical(m: MethodImplementation, from: ExecutionNode, to: ExecutionNode, fuel: nat)
    requires
        flow_wf(m),
        canonical(m, from),
        reaches_within(m, from, to, fuel),
    ensures
        canonical(m, to),
    decreases fuel,
{
    if to != from {
        let k = choose|k: int|
            0 <= k < node_successors(m, from).len() && reaches_within(
                m,
                #[trigger] node_successors(m, from)[k],
                to,
                (fuel - 1) as nat,
            );
        lemma_successors_canonical(m, from);
        lemma_reached_canonical(m, node_successors(m, from)[k], to, (fuel - 1) as nat);
    }
}

/// One more level of traversal after a reached node.
pub proof fn lemma_reaches_extend(m: MethodImplementation, from: ExecutionNode, mid: ExecutionNode, fuel: nat, k: int)
    requires
        reaches_within(m, from, mid, fuel),
        0 <= k < node_successors(m, mid).len(),
    ensures
        reaches_within(m, from, node_successors(m, mid)[k], fuel + 1),
    decreases fuel,
{
    let to = node_successors(m, mid)[k];
    if mid == from {
        assert(reaches_within(m, to, to, 1));
        assert(reaches_within(m, from, to, 2));
        lemma_reaches_monotone(m, from, to, 2, fuel + 1);
    } else {
        let j = choose|j: int|
            0 <= j < node_successors(m, from).len() && reaches_within(
                m,
                #[trigger] node_successors(m, from)[j],
                mid,
                (fuel - 1) as nat,
            );
        lemma_reaches_extend(m, node_successors(m, from)[j], mid, (fuel - 1) as nat, k);
    }
}

/// More fuel reaches no less.
pub proof fn lemma_reaches_monotone(m: MethodImplementation, from: ExecutionNode, to: ExecutionNode, f1: nat, f2: nat)
    requires
        reaches_within(m, from, to, f1),
        f1 <= f2,
    ensures
        reaches_within(m, from, to, f2),
    decreases f1,
{
    if to != from {
        let j = choose|j: int|
            0 <= j < node_successors(m, from).len() && reaches_within(
                m,
                #[trigger] node_successors(m, from)[j],
                to,
                (f1 - 1) as nat,
            );
        lemma_reaches_monotone(m, node_successors(m, from)[j], to, (f1 - 1) as nat, (f2 - 1) as nat);
    }
}

/// A set of nodes that holds every successor of its members holds every node
/// reached from any of them.
pub proof fn lemma_closed_holds_reached(
    m: MethodImplementation,
    q: Seq<ExecutionNode>,
    from: ExecutionNode,
    to: ExecutionNode,
    fuel: nat,
)
    requires
        q.contains(from),
        forall|i: int, k: int| 0 <= i < q.len() && 0 <= k < node_successors(m, q[i]).len()
            ==> q.contains(#[trigger] node_successors(m, q[i])[k]),
        reaches_within(m, from, to, fuel),
    ensures
        q.contains(to),
    decreases fuel,
{
    if to != from {
        let k = choose|k: int|
            0 <= k < node_successors(m, from).len() && reaches_within(
                m,
                #[trigger] node_successors(m, from)[k],
                to,
                (fuel - 1) as nat,
            );
        let i = choose|i: int| 0 <= i < q.len() && q[i] == from;
        assert(q.contains(node_successors(m, q[i])[k]));
        lemma_closed_holds_reached(m, q, node_successors(m, from)[k], to, (fuel - 1) as nat);
    }
}

/// `n` is reached from the output terminal of one of the `MapToOutput` steps
/// of `m`.
pub open spec fn flow_reached(m: MethodImplementation, n: ExecutionNode) -> bool {
    reached_from_any(m, m.map_to_outputs@, n)
}

/// The traversal has processed `n`: reached from one of `roots`, or listed in
/// `done`.
pub open spec fn processed(m: MethodImplementation, roots: Seq<Uid>, done: Seq<ExecutionNode>, n: ExecutionNode) -> bool {
    reached_from_any(m, roots, n) || done.contains(n)
}

/// The edges of `g` are those recorded at the processed nodes.
pub open spec fn edges_state(g: ExecutionGraph, m: MethodImplementation, roots: Seq<Uid>, done: Seq<ExecutionNode>) -> bool {
    forall|e: EdgeView|
        edge_views(g.edges@).contains(e) <==> exists|p: ExecutionNode|
            processed(m, roots, done, p) && #[trigger] node_edges(m, p).contains(e)
}

/// The nodes of `g` are the processed nodes and those listed in `seen`, each
/// under its identifier.
pub open spec fn nodes_state(g: ExecutionGraph, m: MethodImplementation, roots: Seq<Uid>, seen: Seq<ExecutionNode>) -> bool {
    &&& forall|n: ExecutionNode| #[trigger] processed(m, roots, seen, n)
        ==> g.nodes@.contains_key(n.spec_id()) && g.nodes@[n.spec_id()] == n
    &&& forall|k: Uid| #[trigger] g.nodes@.contains_key(k)
        ==> processed(m, roots, seen, g.nodes@[k]) && g.nodes@[k].spec_id() == k
}

/// The traversal has recorded that the data node `d` comes from the step `s`:
/// `d` is processed and lists `s` upstream, or `d` is `cur` and `s` is among
/// the first `j` steps upstream of it.
pub open spec fn dep_recorded(
    m: MethodImplementation,
    roots: Seq<Uid>,
    done: Seq<ExecutionNode>,
    cur: Uid,
    j: int,
    s: Uid,
    d: Uid,
) -> bool {
    ||| processed(m, roots, done, ExecutionNode::Data(d)) && upstream_of(m, d).contains(s)
    ||| d == cur && upstream_of(m, cur).take(j).contains(s)
}

/// The two dependency maps of `g` hold exactly the recorded pairs.
pub open spec fn deps_state(
    g: ExecutionGraph,
    m: MethodImplementation,
    roots: Seq<Uid>,
    done: Seq<ExecutionNode>,
    cur: Uid,
    j: int,
) -> bool {
    &&& forall|s: Uid|
        g.step_data_dependencies@.contains_key(s) <==> exists|d: Uid| #[trigger] dep_recorded(m, roots, done, cur, j, s, d)
    &&& forall|s: Uid, d: Uid|
        #![trigger g.step_data_dependencies@[s]@.contains(d)]
        #![trigger dep_recorded(m, roots, done, cur, j, s, d)]
        g.step_data_dependencies@.contains_key(s) ==> (g.step_data_dependencies@[s]@.contains(d)
            <==> dep_recorded(m, roots, done, cur, j, s, d))
    &&& forall|d: Uid|
        g.data_dependent_steps@.contains_key(d) <==> exists|s: Uid| #[trigger] dep_recorded(m, roots, done, cur, j, s, d)
    &&& forall|d: Uid, s: Uid|
        #![trigger g.data_dependent_steps@[d]@.contains(s)]
        #![trigger dep_recorded(m, roots, done, cur, j, s, d)]
        g.data_dependent_steps@.contains_key(d) ==> (g.data_dependent_steps@[d]@.contains(s)
            <==> dep_recorded(m, roots, done, cur, j, s, d))
}

/// Reaching from one more root.
pub proof fn lemma_reached_from_push(m: MethodImplementation, roots: Seq<Uid>, t: Uid, n: ExecutionNode)
    ensures
        reached_from_any(m, roots.push(t), n) <==> (reached_from_any(m, roots, n) || reaches(m, output_root(t), n)),
{
    let r2 = roots.push(t);
    if reached_from_any(m, r2, n) {
        let i = choose|i: int| 0 <= i < r2.len() && reaches(m, output_root(#[trigger] r2[i]), n);
        if i < roots.len() {
            assert(roots[i] == r2[i]);
        }
    }
    if reached_from_any(m, roots, n) {
        let i = choose|i: int| 0 <= i < roots.len() && reaches(m, output_root(#[trigger] roots[i]), n);
        assert(r2[i] == roots[i]);
    }
    if reaches(m, output_root(t), n) {
        assert(r2[roots.len() as int] == t);
    }
}

/// The output terminals of `roots` are canonical nodes.
pub open spec fn roots_wf(m: MethodImplementation, roots: Seq<Uid>) -> bool {
    forall|i: int| 0 <= i < roots.len() ==> canonical(m, output_root(#[trigger] roots[i]))
}

/// A processed node is canonical.
pub proof fn lemma_processed_canonical(m: MethodImplementation, roots: Seq<Uid>, seen: Seq<ExecutionNode>, n: ExecutionNode)
    requires
        flow_wf(m),
        roots_wf(m, roots),
        forall|i: int| 0 <= i < seen.len() ==> canonical(m, #[trigger] seen[i]),
        processed(m, roots, seen, n),
    ensures
        canonical(m, n),
{
    if reached_from_any(m, roots, n) {
        let i = choose|i: int| 0 <= i < roots.len() && reaches(m, output_root(#[trigger] roots[i]), n);
        let f = choose|f: nat| #[trigger] reaches_within(m, output_root(roots[i]), n, f);
        lemma_reached_canonical(m, output_root(roots[i]), n, f);
    } else {
        let i = choose|i: int| 0 <= i < seen.len() && seen[i] == n;
    }
}

/// What a sequence holds after a push.
pub proof fn lemma_push_contains<A>(s: Seq<A>, a: A)
    ensures
        forall|x: A| #[trigger] s.push(a).contains(x) <==> (s.contains(x) || x == a),
{
    assert forall|x: A| #[trigger] s.push(a).contains(x) <==> (s.contains(x) || x == a) by {
        if s.push(a).contains(x) && x != a {
            let i = choose|i: int| 0 <= i < s.push(a).len() && s.push(a)[i] == x;
            assert(s[i] == x);
        }
        if s.contains(x) {
            let i = choose|i: int| 0 <= i < s.len() && s[i] == x;
            assert(s.push(a)[i] == x);
        }
        if x == a {
            assert(s.push(a)[s.len() as int] == x);
        }
    }
}

/// What a concatenation holds.
pub proof fn lemma_concat_contains<A>(s: Seq<A>, t: Seq<A>)
    ensures
        forall|x: A| #[trigger] (s + t).contains(x) <==> (s.contains(x) || t.contains(x)),
{
    assert forall|x: A| #[trigger] (s + t).contains(x) <==> (s.contains(x) || t.contains(x)) by {
        if (s + t).contains(x) {
            let i = choose|i: int| 0 <= i < (s + t).len() && (s + t)[i] == x;
            if i < s.len() {
                assert(s[i] == x);
            } else {
                assert(t[i - s.len()] == x);
            }
        }
        if s.contains(x) {
            let i = choose|i: int| 0 <= i < s.len() && s[i] == x;
            assert((s + t)[i] == x);
        }
        if t.contains(x) {
            let i = choose|i: int| 0 <= i < t.len() && t[i] == x;
            assert((s + t)[s.len() + i] == x);
        }
    }
}

/// Recording the edges of one more processed node.
pub proof fn lemma_edges_record(
    g1: ExecutionGraph,
    g2: ExecutionGraph,
    m: MethodImplementation,
    roots: Seq<Uid>,
    done: Seq<ExecutionNode>,
    node: ExecutionNode,
)
    requires
        edges_state(g1, m, roots, done),
        edge_views(g2.edges@) == edge_views(g1.edges@) + node_edges(m, node),
    ensures
        edges_state(g2, m, roots, done.push(node)),
{
    lemma_concat_contains(edge_views(g1.edges@), node_edges(m, node));
    lemma_push_contains(done, node);
    assert forall|e: EdgeView|
        edge_views(g2.edges@).contains(e) <==> exists|p: ExecutionNode|
            processed(m, roots, done.push(node), p) && #[trigger] node_edges(m, p).contains(e) by {
        if edge_views(g2.edges@).contains(e) {
            if edge_views(g1.edges@).contains(e) {
                let p = choose|p: ExecutionNode| processed(m, roots, done, p) && #[trigger] node_edges(m, p).contains(e);
                assert(processed(m, roots, done.push(node), p));
            } else {
                assert(processed(m, roots, done.push(node), node));
            }
        }
        if exists|p: ExecutionNode| processed(m, roots, done.push(node), p) && #[trigger] node_edges(m, p).contains(e) {
            let p = choose|p: ExecutionNode| processed(m, roots, done.push(node), p) && #[trigger] node_edges(m, p).contains(e);
            if p != node {
                assert(processed(m, roots, done, p));
            }
        }
    }
}

/// Recording one more node under its identifier.
pub proof fn lemma_nodes_record(
    g1: ExecutionGraph,
    g2: ExecutionGraph,
    m: MethodImplementation,
    roots: Seq<Uid>,
    seen1: Seq<ExecutionNode>,
    seen2: Seq<ExecutionNode>,
    n: ExecutionNode,
)
    requires
        flow_wf(m),
        roots_wf(m, roots),
        forall|i: int| 0 <= i < seen1.len() ==> canonical(m, #[trigger] seen1[i]),
        canonical(m, n),
        nodes_state(g1, m, roots, seen1),
        g2.nodes@ == g1.nodes@.insert(n.spec_id(), n),
        forall|x: ExecutionNode| #[trigger] seen2.contains(x) <==> (seen1.contains(x) || x == n),
    ensures
        nodes_state(g2, m, roots, seen2),
{
    assert forall|x: ExecutionNode| #[trigger] processed(m, roots, seen2, x)
        implies g2.nodes@.contains_key(x.spec_id()) && g2.nodes@[x.spec_id()] == x by {
        if x != n {
            assert(processed(m, roots, seen1, x));
            if x.spec_id() == n.spec_id() {
                lemma_processed_canonical(m, roots, seen1, x);
                lemma_canonical_unique(m, x, n);
            }
        }
    }
    assert forall|k: Uid| #[trigger] g2.nodes@.contains_key(k)
        implies processed(m, roots, seen2, g2.nodes@[k]) && g2.nodes@[k].spec_id() == k by {
        if k != n.spec_id() {
            assert(g1.nodes@.contains_key(k));
            assert(processed(m, roots, seen1, g1.nodes@[k]));
        } else {
            assert(seen2.contains(n));
        }
    }
}

/// The dependency maps depend on the recorded pairs alone.
pub proof fn lemma_deps_transfer(
    g: ExecutionGraph,
    m: MethodImplementation,
    r1: Seq<Uid>,
    d1: Seq<ExecutionNode>,
    c1: Uid,
    j1: int,
    r2: Seq<Uid>,
    d2: Seq<ExecutionNode>,
    c2: Uid,
    j2: int,
)
    requires
        deps_state(g, m, r1, d1, c1, j1),
        forall|s: Uid, d: Uid| dep_recorded(m, r1, d1, c1, j1, s, d) == dep_recorded(m, r2, d2, c2, j2, s, d),
    ensures
        deps_state(g, m, r2, d2, c2, j2),
{
    assert forall|s: Uid|
        g.step_data_dependencies@.contains_key(s) <==> exists|d: Uid| #[trigger] dep_recorded(m, r2, d2, c2, j2, s, d) by {
        if g.step_data_dependencies@.contains_key(s) {
            let d = choose|d: Uid| #[trigger] dep_recorded(m, r1, d1, c1, j1, s, d);
            assert(dep_recorded(m, r2, d2, c2, j2, s, d));
        }
        if exists|d: Uid| #[trigger] dep_recorded(m, r2, d2, c2, j2, s, d) {
            let d = choose|d: Uid| #[trigger] dep_recorded(m, r2, d2, c2, j2, s, d);
            assert(dep_recorded(m, r1, d1, c1, j1, s, d));
        }
    }
    assert forall|d: Uid|
        g.data_dependent_steps@.contains_key(d) <==> exists|s: Uid| #[trigger] dep_recorded(m, r2, d2, c2, j2, s, d) by {
        if g.data_dependent_steps@.contains_key(d) {
            let s = choose|s: Uid| #[trigger] dep_recorded(m, r1, d1, c1, j1, s, d);
            assert(dep_recorded(m, r2, d2, c2, j2, s, d));
        }
        if exists|s: Uid| #[trigger] dep_recorded(m, r2, d2, c2, j2, s, d) {
            let s = choose|s: Uid| #[trigger] dep_recorded(m, r2, d2, c2, j2, s, d);
            assert(dep_recorded(m, r1, d1, c1, j1, s, d));
        }
    }
    assert forall|s: Uid, d: Uid| g.step_data_dependencies@.contains_key(s) implies (
        g.step_data_dependencies@[s]@.contains(d) <==> dep_recorded(m, r2, d2, c2, j2, s, d)) by {
        assert(g.step_data_dependencies@[s]@.contains(d) <==> dep_recorded(m, r1, d1, c1, j1, s, d));
    }
    assert forall|d: Uid, s: Uid| g.data_dependent_steps@.contains_key(d) implies (
        g.data_dependent_steps@[d]@.contains(s) <==> dep_recorded(m, r2, d2, c2, j2, s, d)) by {
        assert(g.data_dependent_steps@[d]@.contains(s) <==> dep_recorded(m, r1, d1, c1, j1, s, d));
    }
}

/// `new` is `old` with `value` appended to the list under `key`, which is
/// created empty where it was missing.
pub open spec fn list_appended(old: Map<Uid, Vec<Uid>>, new: Map<Uid, Vec<Uid>>, key: Uid, value: Uid) -> bool {
    &&& forall|k: Uid| #[trigger] new.contains_key(k) <==> (old.contains_key(k) || k == key)
    &&& forall|k: Uid| k != key && #[trigger] old.contains_key(k) ==> new[k] == old[k]
    &&& new[key]@ == (if old.contains_key(key) { old[key]@ } else { Seq::empty() }).push(value)
}

/// Recording that the data node `cur` comes from the next step upstream of it.
pub proof fn lemma_deps_add(
    g1: ExecutionGraph,
    g2: ExecutionGraph,
    m: MethodImplementation,
    roots: Seq<Uid>,
    done: Seq<ExecutionNode>,
    cur: Uid,
    j: int,
)
    requires
        deps_state(g1, m, roots, done, cur, j),
        0 <= j < upstream_of(m, cur).len(),
        list_appended(g1.step_data_dependencies@, g2.step_data_dependencies@, upstream_of(m, cur)[j], cur),
        list_appended(g1.data_dependent_steps@, g2.data_dependent_steps@, cur, upstream_of(m, cur)[j]),
    ensures
        deps_state(g2, m, roots, done, cur, j + 1),
{
    let ups = upstream_of(m, cur);
    let u = ups[j];
    assert(ups.take(j + 1) =~= ups.take(j).push(u));
    lemma_push_contains(ups.take(j), u);
    assert forall|s: Uid, d: Uid| #[trigger] dep_recorded(m, roots, done, cur, j + 1, s, d) <==> (dep_recorded(
        m,
        roots,
        done,
        cur,
        j,
        s,
        d,
    ) || (s == u && d == cur)) by {}
    let sdd1 = g1.step_data_dependencies@;
    let sdd2 = g2.step_data_dependencies@;
    let dds1 = g1.data_dependent_steps@;
    let dds2 = g2.data_dependent_steps@;
    assert forall|s: Uid| sdd2.contains_key(s) <==> exists|d: Uid| #[trigger] dep_recorded(m, roots, done, cur, j + 1, s, d) by {
        if sdd2.contains_key(s) && s != u {
            let d = choose|d: Uid| #[trigger] dep_recorded(m, roots, done, cur, j, s, d);
            assert(dep_recorded(m, roots, done, cur, j + 1, s, d));
        }
        if s == u {
            assert(dep_recorded(m, roots, done, cur, j + 1, s, cur));
        }
        if exists|d: Uid| #[trigger] dep_recorded(m, roots, done, cur, j + 1, s, d) {
            let d = choose|d: Uid| #[trigger] dep_recorded(m, roots, done, cur, j + 1, s, d);
            if s != u {
                assert(dep_recorded(m, roots, done, cur, j, s, d));
            }
        }
    }
    assert forall|d: Uid| dds2.contains_key(d) <==> exists|s: Uid| #[trigger] dep_recorded(m, roots, done, cur, j + 1, s, d) by {
        if dds2.contains_key(d) && d != cur {
            let s = choose|s: Uid| #[trigger] dep_recorded(m, roots, done, cur, j, s, d);
            assert(dep_recorded(m, roots, done, cur, j + 1, s, d));
        }
        if d == cur {
            assert(dep_recorded(m, roots, done, cur, j + 1, u, d));
        }
        if exists|s: Uid| #[trigger] dep_recorded(m, roots, done, cur, j + 1, s, d) {
            let s = choose|s: Uid| #[trigger] dep_recorded(m, roots, done, cur, j + 1, s, d);
            if d != cur {
                assert(dep_recorded(m, roots, done, cur, j, s, d));
            }
        }
    }
    assert forall|s: Uid, d: Uid| sdd2.contains_key(s) implies (sdd2[s]@.contains(d) <==> dep_recorded(
        m,
        roots,
        done,
        cur,
        j + 1,
        s,
        d,
    )) by {
        if s == u {
            let base = if sdd1.contains_key(u) { sdd1[u]@ } else { Seq::empty() };
            lemma_push_contains(base, cur);
            if !sdd1.contains_key(u) {
                assert(!dep_recorded(m, roots, done, cur, j, s, d));
            } else {
                assert(sdd1[s]@.contains(d) <==> dep_recorded(m, roots, done, cur, j, s, d));
            }
        } else {
            assert(sdd1.contains_key(s));
            assert(sdd1[s]@.contains(d) <==> dep_recorded(m, roots, done, cur, j, s, d));
        }
    }
    assert forall|d: Uid, s: Uid| dds2.contains_key(d) implies (dds2[d]@.contains(s) <==> dep_recorded(
        m,
        roots,
        done,
        cur,
        j + 1,
        s,
        d,
    )) by {
        if d == cur {
            let base = if dds1.contains_key(cur) { dds1[cur]@ } else { Seq::empty() };
            lemma_push_contains(base, u);
            if !dds1.contains_key(cur) {
                assert(!dep_recorded(m, roots, done, cur, j, s, d));
            } else {
                assert(dds1[d]@.contains(s) <==> dep_recorded(m, roots, done, cur, j, s, d));
            }
        } else {
            assert(dds1.contains_key(d));
            assert(dds1[d]@.contains(s) <==> dep_recorded(m, roots, done, cur, j, s, d));
        }
    }
}

/// The node map depends on the processed nodes alone.
pub proof fn lemma_nodes_transfer(
    g: ExecutionGraph,
    m: MethodImplementation,
    r1: Seq<Uid>,
    s1: Seq<ExecutionNode>,
    r2: Seq<Uid>,
    s2: Seq<ExecutionNode>,
)
    requires
        nodes_state(g, m, r1, s1),
        forall|x: ExecutionNode| processed(m, r1, s1, x) == processed(m, r2, s2, x),
    ensures
        nodes_state(g, m, r2, s2),
{
    assert forall|n: ExecutionNode| #[trigger] processed(m, r2, s2, n)
        implies g.nodes@.contains_key(n.spec_id()) && g.nodes@[n.spec_id()] == n by {
        assert(processed(m, r1, s1, n));
    }
    assert forall|k: Uid| #[trigger] g.nodes@.contains_key(k)
        implies processed(m, r2, s2, g.nodes@[k]) && g.nodes@[k].spec_id() == k by {
        assert(processed(m, r1, s1, g.nodes@[k]));
    }
}

/// The edge list depends on the processed nodes alone.
pub proof fn lemma_edges_transfer(
    g: ExecutionGraph,
    m: MethodImplementation,
    r1: Seq<Uid>,
    d1: Seq<ExecutionNode>,
    r2: Seq<Uid>,
    d2: Seq<ExecutionNode>,
)
    requires
        edges_state(g, m, r1, d1),
        forall|x: ExecutionNode| processed(m, r1, d1, x) == processed(m, r2, d2, x),
    ensures
        edges_state(g, m, r2, d2),
{
    assert forall|e: EdgeView|
        edge_views(g.edges@).contains(e) <==> exists|p: ExecutionNode|
            processed(m, r2, d2, p) && #[trigger] node_edges(m, p).contains(e) by {
        if edge_views(g.edges@).contains(e) {
            let p = choose|p: ExecutionNode| processed(m, r1, d1, p) && #[trigger] node_edges(m, p).contains(e);
            assert(processed(m, r2, d2, p));
        }
        if exists|p: ExecutionNode| processed(m, r2, d2, p) && #[trigger] node_edges(m, p).contains(e) {
            let p = choose|p: ExecutionNode| processed(m, r2, d2, p) && #[trigger] node_edges(m, p).contains(e);
            assert(processed(m, r1, d1, p));
        }
    }
}

/// A list of distinct values that `f` maps one to one into `[0, bound)` is no
/// longer than `bound`.
pub proof fn lemma_injective_bounded<A>(q: Seq<A>, f: spec_fn(A) -> int, bound: int)
    requires
        0 <= bound,
        q.no_duplicates(),
        forall|i: int| 0 <= i < q.len() ==> 0 <= #[trigger] f(q[i]) < bound,
        forall|i: int, j: int| 0 <= i < q.len() && 0 <= j < q.len() && #[trigger] f(q[i]) == #[trigger] f(q[j]) ==> i == j,
    ensures
        q.len() <= bound,
{
    let s = q.map_values(f);
    assert forall|i: int, j: int| 0 <= i < s.len() && 0 <= j < s.len() && i != j implies s[i] != s[j] by {
        assert(s[i] == f(q[i]));
        assert(s[j] == f(q[j]));
    }
    assert(s.no_duplicates());
    assert(s.len() == q.len());
    s.unique_seq_to_set();
    assert(s.to_set().len() == s.len());
    assert forall|x: int| s.to_set().contains(x) implies set_int_range(0, bound).contains(x) by {
        let i = choose|i: int| 0 <= i < s.len() && s[i] == x;
        assert(s[i] == f(q[i]));
    }
    lemma_int_range(0, bound);
    lemma_len_subset(s.to_set(), set_int_range(0, bound));
}

} // verus!
