use vstd::prelude::*;
use crate::ids::{Uid, uuid_text, uuid_to_string};
use crate::impl_model::StepKind;

verus! {

/// `needle` occurs in `hay` as a run of consecutive characters.
pub open spec fn text_contains(hay: Seq<char>, needle: Seq<char>) -> bool {
    exists|i: int| 0 <= i <= hay.len() - needle.len() && #[trigger] hay.subrange(i, i + needle.len()) == needle
}

fn matches_at(hay: &str, needle: &str, i: usize, h: usize, n: usize) -> (r: bool)
    requires
        h == hay@.len(),
        n == needle@.len(),
        i + n <= h,
    ensures
        r == (hay@.subrange(i as int, i + n) == needle@),
{
    let mut j: usize = 0;
    while j < n
        invariant
            h == hay@.len(),
            n == needle@.len(),
            i + n <= h,
            j <= n,
            forall|k: int| 0 <= k < j ==> hay@[i + k] == needle@[k],
        decreases n - j,
    {
        if hay.get_char(i + j) != needle.get_char(j) {
            proof {
                assert(hay@.subrange(i as int, i + n)[j as int] == hay@[i + j]);
            }
            return false;
        }
        j = j + 1;
    }
    proof {
        assert(hay@.subrange(i as int, i + n) =~= needle@);
    }
    true
}

/// Whether `needle` occurs in `hay`.
pub fn str_contains(hay: &str, needle: &str) -> (r: bool)
    ensures
        r == text_contains(hay@, needle@),
{
    let h = hay.unicode_len();
    let n = needle.unicode_len();
    if n > h {
        return false;
    }
    let last = h - n;
    let mut i: usize = 0;
    while i < last
        invariant
            h == hay@.len(),
            n == needle@.len(),
            last == h - n,
            i <= last,
            forall|k: int| 0 <= k < i ==> #[trigger] hay@.subrange(k, k + n) != needle@,
        decreases last - i,
    {
        if matches_at(hay, needle, i, h, n) {
            return true;
        }
        i = i + 1;
    }
    let r = matches_at(hay, needle, last, h, n);
    proof {
        if !r {
            assert forall|k: int| 0 <= k <= hay@.len() - needle@.len() implies #[trigger] hay@.subrange(
                k,
                k + needle@.len(),
            ) != needle@ by {
                if k < last {
                    assert(hay@.subrange(k, k + n) != needle@);
                }
            }
        }
    }
    r
}

/// Whether two texts are equal.
pub fn str_eq(a: &str, b: &str) -> (r: bool)
    ensures
        r == (a@ == b@),
{
    let n = a.unicode_len();
    if n != b.unicode_len() {
        return false;
    }
    let mut j: usize = 0;
    while j < n
        invariant
            n == a@.len(),
            n == b@.len(),
            j <= n,
            forall|k: int| 0 <= k < j ==> a@[k] == b@[k],
        decreases n - j,
    {
        if a.get_char(j) != b.get_char(j) {
            return false;
        }
        j = j + 1;
    }
    proof {
        assert(a@ =~= b@);
    }
    true
}

/// A connection of a slot of a canvas node to another node.
#[derive(Clone, Debug)]
pub struct CanvasConnection {
    pub target_node_id: String,
}

/// A slot of a node placed on the canvas.
#[derive(Clone, Debug)]
pub struct CanvasSlot {
    pub slot_template_id: String,
    pub connections: Vec<CanvasConnection>,
}

/// A field value of a node placed on the canvas.
#[derive(Clone, Debug)]
pub struct CanvasField {
    pub field_template_id: String,
    pub value: String,
}

/// A slot of the template that a canvas node was made from.
#[derive(Clone, Debug)]
pub struct CanvasSlotTemplate {
    pub id: String,
    pub name: String,
}

/// A node placed on the canvas, with the slot templates of its template.
#[derive(Clone, Debug)]
pub struct CanvasNode {
    pub instance_id: String,
    pub template_id: String,
    pub slots: Vec<CanvasSlot>,
    pub fields: Vec<CanvasField>,
    pub slot_templates: Vec<CanvasSlotTemplate>,
}

/// The nodes placed on the canvas.
#[derive(Clone, Debug)]
pub struct CanvasGraph {
    pub nodes: Vec<CanvasNode>,
}

/// The kinds of data type a data node can have.
#[derive(Clone, Copy, Debug, PartialEq, Eq, Structural)]
pub enum DataTypeKind {
    Bool,
    ManualBool,
    Collection,
    Int,
    ManualInt,
    MultiOperative,
    SingleOperative,
    Str,
    ManualString,
    TraitOperative,
}

/// The identifiers, in the schema, of the templates, slots and fields that the
/// canvas of a method implementation uses.
#[derive(Clone, Debug)]
pub struct CanvasSchemaIds {
    pub function_input: Uid,
    pub function_output: Uid,
    pub impl_data: Uid,
    pub map_to_output: Uid,
    pub map_from_input: Uid,
    /// The other steps, each with its kind.
    pub steps: Vec<(StepKind, Uid)>,
    /// The data types, each with its kind.
    pub data_types: Vec<(DataTypeKind, Uid)>,
    pub map_to_output_input_slot: Uid,
    pub map_to_output_output_slot: Uid,
    pub map_from_input_input_slot: Uid,
    pub map_from_input_output_slot: Uid,
    pub data_type_slot: Uid,
    pub collection_type_slot: Uid,
    pub allowed_operative_slot: Uid,
    pub allowed_operatives_slot: Uid,
    pub required_traits_slot: Uid,
    pub manual_bool_value_field: Uid,
    pub manual_int_value_field: Uid,
    pub manual_string_value_field: Uid,
}

/// The text under which the canvas knows the schema object `id`.
pub open spec fn id_text(id: Uid) -> Seq<char> {
    uuid_text(id)
}

/// A kind of step that the canvas offers as a step template besides the two
/// terminals: every kind but the terminals and the four kinds that the canvas
/// does not build.
pub open spec fn is_canvas_step_kind(k: StepKind) -> bool {
    !(k is IsType || k is GetCollectionLength || k is Identity || k is InvokeMethod || k is MapToOutput
        || k is MapFromInput)
}

impl CanvasSchemaIds {
    /// The step templates are those the canvas offers: each of a canvas step
    /// kind, each under its own template, none under a terminal's template.
    pub open spec fn wf(&self) -> bool {
        &&& forall|k: int| 0 <= k < self.steps@.len() ==> is_canvas_step_kind(#[trigger] self.steps@[k].0)
        &&& forall|i: int, j: int| 0 <= i < j < self.steps@.len() ==> #[trigger] self.steps@[i].1 != #[trigger] self.steps@[j].1
        &&& forall|k: int| 0 <= k < self.steps@.len() ==> #[trigger] self.steps@[k].1 != self.map_to_output
            && self.steps@[k].1 != self.map_from_input
        &&& self.map_to_output != self.map_from_input
    }

    /// The step templates: the steps, then the two terminals.
    pub open spec fn step_templates(&self) -> Seq<(StepKind, Uid)> {
        self.steps@ + seq![(StepKind::MapToOutput, self.map_to_output), (StepKind::MapFromInput, self.map_from_input)]
    }

    /// `template` is the text of a step template.
    pub open spec fn is_step_template(&self, template: Seq<char>) -> bool {
        exists|k: int| 0 <= k < self.step_templates().len() && template == id_text(#[trigger] self.step_templates()[k].1)
    }
}

/// Whether `template_id` is the template of a step, the terminals included.
pub fn is_impl_step_template_id(template_id: &str, ids: &CanvasSchemaIds) -> (r: bool)
    requires
        ids.wf(),
    ensures
        r == ids.is_step_template(template_id@),
{
    let mut k: usize = 0;
    while k < ids.steps.len()
        invariant
            ids.wf(),
            k <= ids.steps@.len(),
            forall|j: int| 0 <= j < k ==> template_id@ != id_text(#[trigger] ids.step_templates()[j].1),
        decreases ids.steps@.len() - k,
    {
        let text = uuid_to_string(ids.steps[k].1);
        assert(ids.step_templates()[k as int] == ids.steps@[k as int]);
        if str_eq(template_id, text.as_str()) {
            return true;
        }
        k = k + 1;
    }
    let out = uuid_to_string(ids.map_to_output);
    let inp = uuid_to_string(ids.map_from_input);
    let n = ids.steps.len();
    assert(ids.step_templates()[n as int].1 == ids.map_to_output);
    assert(ids.step_templates()[n + 1].1 == ids.map_from_input);
    str_eq(template_id, out.as_str()) || str_eq(template_id, inp.as_str())
}

/// The name of the slot template `slot_template_id` of the node's template: of
/// the first slot template with that identifier.
pub open spec fn slot_template_name(node: CanvasNode, slot_template_id: Seq<char>) -> Seq<char> {
    node.slot_templates@[first_slot_template(node, slot_template_id)].name@
}

/// The position of the first slot template of the node with the identifier.
pub open spec fn first_slot_template(node: CanvasNode, slot_template_id: Seq<char>) -> int {
    choose|k: int|
        0 <= k < node.slot_templates@.len() && node.slot_templates@[k].id@ == slot_template_id && forall|j: int|
            0 <= j < k ==> #[trigger] node.slot_templates@[j].id@ != slot_template_id
}

/// The node's template has a slot template with the identifier.
pub open spec fn has_slot_template(node: CanvasNode, slot_template_id: Seq<char>) -> bool {
    exists|k: int| 0 <= k < node.slot_templates@.len() && #[trigger] node.slot_templates@[k].id@ == slot_template_id
}

/// The name of the slot template `slot_template_id` of the node's template.
pub fn get_slot_name_from_id(slot_template_id: &str, node: &CanvasNode) -> (r: String)
    requires
        has_slot_template(*node, slot_template_id@),
    ensures
        r@ == slot_template_name(*node, slot_template_id@),
{
    let mut k: usize = 0;
    while k < node.slot_templates.len()
        invariant
            k <= node.slot_templates@.len(),
            has_slot_template(*node, slot_template_id@),
            forall|j: int| 0 <= j < k ==> #[trigger] node.slot_templates@[j].id@ != slot_template_id@,
        decreases node.slot_templates@.len() - k,
    {
        if str_eq(node.slot_templates[k].id.as_str(), slot_template_id) {
            proof {
                let c = first_slot_template(*node, slot_template_id@);
                assert(node.slot_templates@[k as int].id@ == slot_template_id@);
                if c != k {
                    if c < k {
                        assert(node.slot_templates@[c].id@ != slot_template_id@);
                    } else {
                        assert(node.slot_templates@[k as int].id@ != slot_template_id@);
                    }
                }
            }
            return node.slot_templates[k].name.clone();
        }
        k = k + 1;
    }
    proof {
        let j = choose|j: int| 0 <= j < node.slot_templates@.len() && #[trigger] node.slot_templates@[j].id@ == slot_template_id@;
    }
    String::new()
}

/// The slot names that mark a slot of a step as internal to the step.
pub open spec fn internal_slot_names() -> Seq<Seq<char>> {
    seq![
        "IterationStartItem"@,
        "IterationEndBool"@,
        "IterationEndItem"@,
        "Convergence"@,
        "DiscriminantStarts"@,
        "ContinueWhileBool"@,
        "LoopExitState"@,
        "LoopStateIngestor"@,
        "LoopStateStub"@,
    ]
}

/// A slot is an output of its step when its name contains `Output`.
pub open spec fn is_output_slot_name(name: Seq<char>) -> bool {
    text_contains(name, "Output"@)
}

/// A slot is an input of its step when it is no output and its name contains
/// none of the internal slot names.
pub open spec fn is_input_slot_name(name: Seq<char>) -> bool {
    !is_output_slot_name(name) && forall|k: int| 0 <= k < internal_slot_names().len() ==> !text_contains(
        name,
        #[trigger] internal_slot_names()[k],
    )
}

/// Whether the slot of `node` is an output of the step.
pub fn is_step_output_slot(slot: &CanvasSlot, node: &CanvasNode) -> (r: bool)
    requires
        has_slot_template(*node, slot.slot_template_id@),
    ensures
        r == is_output_slot_name(slot_template_name(*node, slot.slot_template_id@)),
{
    let name = get_slot_name_from_id(slot.slot_template_id.as_str(), node);
    str_contains(name.as_str(), "Output")
}

/// Whether the slot of `node` is an input of the step.
pub fn is_step_input_slot(slot: &CanvasSlot, node: &CanvasNode) -> (r: bool)
    requires
        has_slot_template(*node, slot.slot_template_id@),
    ensures
        r == is_input_slot_name(slot_template_name(*node, slot.slot_template_id@)),
{
    if is_step_output_slot(slot, node) {
        return false;
    }
    let name = get_slot_name_from_id(slot.slot_template_id.as_str(), node);
    let n = name.as_str();
    let internal = str_contains(n, "IterationStartItem") || str_contains(n, "IterationEndBool") || str_contains(
        n,
        "IterationEndItem",
    ) || str_contains(n, "Convergence") || str_contains(n, "DiscriminantStarts") || str_contains(n, "ContinueWhileBool")
        || str_contains(n, "LoopExitState") || str_contains(n, "LoopStateIngestor") || str_contains(n, "LoopStateStub");
    proof {
        let names = internal_slot_names();
        if !internal {
            assert forall|k: int| 0 <= k < names.len() implies !text_contains(name@, #[trigger] names[k]) by {
                assert(names[0] == "IterationStartItem"@);
                assert(names[1] == "IterationEndBool"@);
                assert(names[2] == "IterationEndItem"@);
                assert(names[3] == "Convergence"@);
                assert(names[4] == "DiscriminantStarts"@);
                assert(names[5] == "ContinueWhileBool"@);
                assert(names[6] == "LoopExitState"@);
                assert(names[7] == "LoopStateIngestor"@);
                assert(names[8] == "LoopStateStub"@);
            }
        } else {
            assert(names[0] == "IterationStartItem"@);
            assert(names[1] == "IterationEndBool"@);
            assert(names[2] == "IterationEndItem"@);
            assert(names[3] == "Convergence"@);
            assert(names[4] == "DiscriminantStarts"@);
            assert(names[5] == "ContinueWhileBool"@);
            assert(names[6] == "LoopExitState"@);
            assert(names[7] == "LoopStateIngestor"@);
            assert(names[8] == "LoopStateStub"@);
        }
    }
    !internal
}

/// The slot has a connection to the node `target`.
pub open spec fn slot_connects_to(slot: CanvasSlot, target: Seq<char>) -> bool {
    exists|c: int| 0 <= c < slot.connections@.len() && #[trigger] slot.connections@[c].target_node_id@ == target
}

/// The slot of `node` is an output of the step (`outputs`), or an input.
pub open spec fn slot_selected(node: CanvasNode, slot: CanvasSlot, outputs: bool) -> bool {
    let name = slot_template_name(node, slot.slot_template_id@);
    if outputs {
        is_output_slot_name(name)
    } else {
        is_input_slot_name(name)
    }
}

/// A step node, by its instance and template identifiers.
pub type StepRef = (Seq<char>, Seq<char>);

/// The step node `node` once for each of `slots` that is selected and connects
/// to `target`.
pub open spec fn linked_slots(node: CanvasNode, slots: Seq<CanvasSlot>, target: Seq<char>, outputs: bool) -> Seq<StepRef>
    decreases slots.len(),
{
    if slots.len() == 0 {
        Seq::empty()
    } else {
        let rest = linked_slots(node, slots.drop_last(), target, outputs);
        if slot_selected(node, slots.last(), outputs) && slot_connects_to(slots.last(), target) {
            rest.push((node.instance_id@, node.template_id@))
        } else {
            rest
        }
    }
}

/// The step nodes among `nodes` linked to `target`, in node order, each once
/// per linking slot.
pub open spec fn linked_steps(nodes: Seq<CanvasNode>, ids: CanvasSchemaIds, target: Seq<char>, outputs: bool) -> Seq<StepRef>
    decreases nodes.len(),
{
    if nodes.len() == 0 {
        Seq::empty()
    } else {
        let last = nodes.last();
        linked_steps(nodes.drop_last(), ids, target, outputs) + (if ids.is_step_template(last.template_id@) {
            linked_slots(last, last.slots@, target, outputs)
        } else {
            Seq::empty()
        })
    }
}

/// Every slot of every step node names a slot template of its node.
pub open spec fn step_slots_resolve(graph: CanvasGraph, ids: CanvasSchemaIds) -> bool {
    forall|i: int, j: int|
        0 <= i < graph.nodes@.len() && ids.is_step_template(graph.nodes@[i].template_id@) && 0 <= j
            < graph.nodes@[i].slots@.len() ==> has_slot_template(
            graph.nodes@[i],
            #[trigger] graph.nodes@[i].slots@[j].slot_template_id@,
        )
}

/// The pairs of texts of a list.
pub open spec fn step_ref_views(v: Seq<(String, String)>) -> Seq<StepRef> {
    v.map_values(|p: (String, String)| (p.0@, p.1@))
}

/// Whether one of the connections of the slot leads to `target`.
fn connects_to(slot: &CanvasSlot, target: &str) -> (r: bool)
    ensures
        r == slot_connects_to(*slot, target@),
{
    let mut c: usize = 0;
    while c < slot.connections.len()
        invariant
            c <= slot.connections@.len(),
            forall|k: int| 0 <= k < c ==> #[trigger] slot.connections@[k].target_node_id@ != target@,
        decreases slot.connections@.len() - c,
    {
        if str_eq(slot.connections[c].target_node_id.as_str(), target) {
            return true;
        }
        c = c + 1;
    }
    false
}

/// Lists the step nodes whose output slots (`outputs`) or input slots connect
/// to the data node `data_node_id`.
fn find_linked_steps(data_node_id: &str, graph: &CanvasGraph, ids: &CanvasSchemaIds, outputs: bool) -> (r: Vec<(String, String)>)
    requires
        ids.wf(),
        step_slots_resolve(*graph, *ids),
    ensures
        step_ref_views(r@) == linked_steps(graph.nodes@, *ids, data_node_id@, outputs),
{
    let mut r: Vec<(String, String)> = Vec::new();
    let mut i: usize = 0;
    while i < graph.nodes.len()
        invariant
            ids.wf(),
            step_slots_resolve(*graph, *ids),
            i <= graph.nodes@.len(),
            step_ref_views(r@) == linked_steps(graph.nodes@.take(i as int), *ids, data_node_id@, outputs),
        decreases graph.nodes@.len() - i,
    {
        let node = &graph.nodes[i];
        proof {
            assert(graph.nodes@.take(i + 1).drop_last() =~= graph.nodes@.take(i as int));
            assert(graph.nodes@.take(i + 1).last() == graph.nodes@[i as int]);
        }
        if is_impl_step_template_id(node.template_id.as_str(), ids) {
            let mut j: usize = 0;
            let ghost before = step_ref_views(r@);
            while j < node.slots.len()
                invariant
                    ids.wf(),
                    step_slots_resolve(*graph, *ids),
                    i < graph.nodes@.len(),
                    *node == graph.nodes@[i as int],
                    ids.is_step_template(node.template_id@),
                    j <= node.slots@.len(),
                    step_ref_views(r@) == before + linked_slots(*node, node.slots@.take(j as int), data_node_id@, outputs),
                decreases node.slots@.len() - j,
            {
                let slot = &node.slots[j];
                assert(has_slot_template(graph.nodes@[i as int], graph.nodes@[i as int].slots@[j as int].slot_template_id@));
                let selected = if outputs {
                    is_step_output_slot(slot, node)
                } else {
                    is_step_input_slot(slot, node)
                };
                proof {
                    assert(node.slots@.take(j + 1).drop_last() =~= node.slots@.take(j as int));
                    assert(node.slots@.take(j + 1).last() == node.slots@[j as int]);
                }
                if selected && connects_to(slot, data_node_id) {
                    let ghost pre = r@;
                    r.push((node.instance_id.clone(), node.template_id.clone()));
                    proof {
                        assert(step_ref_views(r@) =~= step_ref_views(pre).push((node.instance_id@, node.template_id@)));
                    }
                }
                j = j + 1;
            }
            proof {
                assert(node.slots@.take(j as int) =~= node.slots@);
            }
        } else {
            proof {
                assert(step_ref_views(r@) =~= linked_steps(graph.nodes@.take(i as int), *ids, data_node_id@, outputs) + Seq::empty());
            }
        }
        i = i + 1;
    }
    proof {
        assert(graph.nodes@.take(i as int) =~= graph.nodes@);
    }
    r
}

/// The step nodes (instance and template identifiers) whose output slots
/// connect to the data node `data_node_id`, once per such slot.
pub fn find_upstream_steps(data_node_id: &str, graph: &CanvasGraph, ids: &CanvasSchemaIds) -> (r: Vec<(String, String)>)
    requires
        ids.wf(),
        step_slots_resolve(*graph, *ids),
    ensures
        step_ref_views(r@) == linked_steps(graph.nodes@, *ids, data_node_id@, true),
{
    find_linked_steps(data_node_id, graph, ids, true)
}

/// The step nodes (instance and template identifiers) whose input slots
/// connect to the data node `data_node_id`, once per such slot.
pub fn find_downstream_steps(data_node_id: &str, graph: &CanvasGraph, ids: &CanvasSchemaIds) -> (r: Vec<(String, String)>)
    requires
        ids.wf(),
        step_slots_resolve(*graph, *ids),
    ensures
        step_ref_views(r@) == linked_steps(graph.nodes@, *ids, data_node_id@, false),
{
    find_linked_steps(data_node_id, graph, ids, false)
}

/// Whether the node's template has a slot template with the identifier, by a
/// scan.
fn knows_slot_template(node: &CanvasNode, slot_template_id: &str) -> (r: bool)
    ensures
        r == has_slot_template(*node, slot_template_id@),
{
    let mut k: usize = 0;
    while k < node.slot_templates.len()
        invariant
            k <= node.slot_templates@.len(),
            forall|j: int| 0 <= j < k ==> #[trigger] node.slot_templates@[j].id@ != slot_template_id@,
        decreases node.slot_templates@.len() - k,
    {
        if str_eq(node.slot_templates[k].id.as_str(), slot_template_id) {
            return true;
        }
        k = k + 1;
    }
    false
}

/// Whether every slot of every step node of the canvas is made from a slot
/// template of the node's template.
pub fn check_step_slots_resolve(graph: &CanvasGraph, ids: &CanvasSchemaIds) -> (r: bool)
    requires
        ids.wf(),
    ensures
        r == step_slots_resolve(*graph, *ids),
{
    let mut i: usize = 0;
    while i < graph.nodes.len()
        invariant
            ids.wf(),
            i <= graph.nodes@.len(),
            forall|a: int, j: int|
                0 <= a < i && ids.is_step_template(graph.nodes@[a].template_id@) && 0 <= j
                    < graph.nodes@[a].slots@.len() ==> has_slot_template(
                    graph.nodes@[a],
                    #[trigger] graph.nodes@[a].slots@[j].slot_template_id@,
                ),
        decreases graph.nodes@.len() - i,
    {
        let node = &graph.nodes[i];
        if is_impl_step_template_id(node.template_id.as_str(), ids) {
            let mut j: usize = 0;
            while j < node.slots.len()
                invariant
                    ids.wf(),
                    i < graph.nodes@.len(),
                    node == graph.nodes@[i as int],
                    ids.is_step_template(node.template_id@),
                    j <= node.slots@.len(),
                    forall|jj: int| 0 <= jj < j ==> has_slot_template(*node, #[trigger] node.slots@[jj].slot_template_id@),
                decreases node.slots@.len() - j,
            {
                if !knows_slot_template(node, node.slots[j].slot_template_id.as_str()) {
                    proof {
                        assert(!has_slot_template(graph.nodes@[i as int], graph.nodes@[i as int].slots@[j as int].slot_template_id@));
                    }
                    return false;
                }
                j = j + 1;
            }
        }
        proof {
            assert forall|a: int, j: int|
                0 <= a < i + 1 && ids.is_step_template(graph.nodes@[a].template_id@) && 0 <= j
                    < graph.nodes@[a].slots@.len() implies has_slot_template(
                    graph.nodes@[a],
                    #[trigger] graph.nodes@[a].slots@[j].slot_template_id@,
                ) by {
                if a < i {
                } else {
                    assert(graph.nodes@[a] == *node);
                }
            }
        }
        i = i + 1;
    }
    true
}

/// The step nodes whose output slots connect to the data node, where every
/// slot of every step node is made from a slot template of its node's
/// template; `None` where that does not hold.
pub fn find_upstream_steps_checked(data_node_id: &str, graph: &CanvasGraph, ids: &CanvasSchemaIds) -> (r: Option<Vec<(String, String)>>)
    requires
        ids.wf(),
    ensures
        match r {
            Some(v) => step_slots_resolve(*graph, *ids) && step_ref_views(v@) == linked_steps(graph.nodes@, *ids, data_node_id@, true),
            None => !step_slots_resolve(*graph, *ids),
        },
{
    if check_step_slots_resolve(graph, ids) {
        Some(find_upstream_steps(data_node_id, graph, ids))
    } else {
        None
    }
}

/// The step nodes whose input slots connect to the data node, where every
/// slot of every step node is made from a slot template of its node's
/// template; `None` where that does not hold.
pub fn find_downstream_steps_checked(data_node_id: &str, graph: &CanvasGraph, ids: &CanvasSchemaIds) -> (r: Option<Vec<(String, String)>>)
    requires
        ids.wf(),
    ensures
        match r {
            Some(v) => step_slots_resolve(*graph, *ids) && step_ref_views(v@) == linked_steps(graph.nodes@, *ids, data_node_id@, false),
            None => !step_slots_resolve(*graph, *ids),
        },
{
    if check_step_slots_resolve(graph, ids) {
        Some(find_downstream_steps(data_node_id, graph, ids))
    } else {
        None
    }
}

fn is_canvas_kind(k: StepKind) -> (r: bool)
    ensures
        r == is_canvas_step_kind(k),
{
    match k {
        StepKind::IsType | StepKind::GetCollectionLength | StepKind::Identity | StepKind::InvokeMethod
        | StepKind::MapToOutput | StepKind::MapFromInput => false,
        _ => true,
    }
}

impl CanvasSchemaIds {
    /// Whether the step templates are those the canvas offers.
    pub fn is_wf(&self) -> (r: bool)
        ensures
            r == self.wf(),
    {
        if self.map_to_output == self.map_from_input {
            return false;
        }
        let n = self.steps.len();
        let mut i: usize = 0;
        while i < n
            invariant
                n == self.steps@.len(),
                i <= n,
                self.map_to_output != self.map_from_input,
                forall|k: int| 0 <= k < i ==> is_canvas_step_kind(#[trigger] self.steps@[k].0),
                forall|k: int| 0 <= k < i ==> #[trigger] self.steps@[k].1 != self.map_to_output
                    && self.steps@[k].1 != self.map_from_input,
                forall|a: int, b: int| 0 <= a < i && a < b < n ==> #[trigger] self.steps@[a].1 != #[trigger] self.steps@[b].1,
            decreases n - i,
        {
            let (k, id) = self.steps[i];
            if !is_canvas_kind(k) || id == self.map_to_output || id == self.map_from_input {
                return false;
            }
            let mut j: usize = i + 1;
            while j < n
                invariant
                    n == self.steps@.len(),
                    i < j <= n,
                    id == self.steps@[i as int].1,
                    forall|b: int| i < b < j ==> id != #[trigger] self.steps@[b].1,
                decreases n - j,
            {
                if self.steps[j].1 == id {
                    return false;
                }
                j = j + 1;
            }
            i = i + 1;
        }
        true
    }
}

} // verus!
