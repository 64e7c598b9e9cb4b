use vstd::prelude::*;
use crate::ids::Uid;
use crate::canvas::{str_eq, DataTypeKind};
use crate::canvas_templates::{clone_names, NodeTemplate, SlotTemplate};
use crate::schema_canvas::{
    generate_function_input_and_mapstep_complex, generate_function_output_and_mapstep_complex, input_ids_fit,
    input_mapstep_complex, is_fresh_text, ids_fit, node_views, output_mapstep_complex, FunctionInputSchema,
    FunctionOutputSchema, InitialNode, InitialNodeView, StepTemplates,
};

verus! {

/// The name a method implementation starts with in the builder: the existing
/// implementation's own name, or, for a new one, the operative's name followed
/// by the function's.
pub fn initial_impl_name(existing_name: Option<&str>, operative_name: &str, fn_name: &str) -> (r: String)
    ensures
        r@ == match existing_name {
            Some(n) => n@,
            None => operative_name@ + fn_name@,
        },
{
    match existing_name {
        Some(n) => String::from_str(n),
        None => String::from_str(operative_name).concat(fn_name),
    }
}

/// The texts of a list of strings.
pub open spec fn name_views(v: Seq<String>) -> Seq<Seq<char>> {
    v.map_values(|s: String| s@)
}

/// A slot template that lets its slot connect to the templates named `names`
/// instead, otherwise as it was.
pub open spec fn allows_instead(new: SlotTemplate, old: SlotTemplate, names: Seq<String>) -> bool {
    &&& new.id@ == old.id@
    &&& new.name@ == old.name@
    &&& new.position == old.position
    &&& new.slot_type == old.slot_type
    &&& new.can_modify_connections == old.can_modify_connections
    &&& name_views(new.allowed_connections@) == name_views(names)
    &&& new.min_connections == old.min_connections
    &&& new.max_connections == old.max_connections
}

/// The canvas template of a data type of the given kind, whose slots may
/// connect to the operatives created so far (`instance_names`) for the
/// single- and multi-operative kinds, and to the traits created so far for
/// the trait-operative kind; other kinds keep their template as it is.
pub fn with_allowed_connections(
    template: NodeTemplate,
    kind: DataTypeKind,
    instance_names: &Vec<String>,
    trait_names: &Vec<String>,
) -> (r: NodeTemplate)
    ensures
        kind != DataTypeKind::MultiOperative && kind != DataTypeKind::SingleOperative
            && kind != DataTypeKind::TraitOperative ==> r == template,
        kind == DataTypeKind::MultiOperative || kind == DataTypeKind::SingleOperative
            || kind == DataTypeKind::TraitOperative ==> {
            &&& r.template_id@ == template.template_id@
            &&& r.name@ == template.name@
            &&& r.field_templates == template.field_templates
            &&& r.slot_templates@.len() == template.slot_templates@.len()
            &&& forall|k: int| 0 <= k < r.slot_templates@.len() ==> allows_instead(
                #[trigger] r.slot_templates@[k],
                template.slot_templates@[k],
                if kind == DataTypeKind::TraitOperative { trait_names@ } else { instance_names@ },
            )
        },
{
    let names = match kind {
        DataTypeKind::MultiOperative | DataTypeKind::SingleOperative => instance_names,
        DataTypeKind::TraitOperative => trait_names,
        _ => {
            return template;
        },
    };
    let NodeTemplate { template_id, name, field_templates, slot_templates } = template;
    let ghost old_slots = slot_templates@;
    let mut rest = slot_templates;
    let mut out: Vec<SlotTemplate> = Vec::new();
    while rest.len() > 0
        invariant
            out@.len() + rest@.len() == old_slots.len(),
            rest@ == old_slots.subrange(out@.len() as int, old_slots.len() as int),
            forall|k: int| 0 <= k < out@.len() ==> allows_instead(#[trigger] out@[k], old_slots[k], names@),
        decreases rest@.len(),
    {
        let ghost before = rest@;
        let s = rest.remove(0);
        assert(s == old_slots[out@.len() as int]);
        let SlotTemplate {
            id,
            name,
            position,
            slot_type,
            can_modify_connections,
            allowed_connections: _,
            min_connections,
            max_connections,
        } = s;
        let t = SlotTemplate {
            id,
            name,
            position,
            slot_type,
            can_modify_connections,
            allowed_connections: clone_names(names),
            min_connections,
            max_connections,
        };
        out.push(t);
        assert(rest@ =~= old_slots.subrange(out@.len() as int, old_slots.len() as int));
    }
    NodeTemplate { template_id, name, field_templates, slot_templates: out }
}

/// Whether a slot template is one of the data node's links to the steps it
/// comes from and feeds, which the canvas leaves out.
pub open spec fn is_flow_slot(s: SlotTemplate) -> bool {
    s.name@ == "DownstreamSteps"@ || s.name@ == "UpstreamStep"@
}

/// The canvas template of the data node without its links to the steps it
/// comes from and feeds: the slot templates named "DownstreamSteps" and
/// "UpstreamStep" are dropped, the others kept in order.
pub fn without_flow_slots(template: NodeTemplate) -> (r: NodeTemplate)
    ensures
        r.template_id == template.template_id,
        r.name == template.name,
        r.field_templates == template.field_templates,
        r.slot_templates@ == template.slot_templates@.filter(|s: SlotTemplate| !is_flow_slot(s)),
{
    let NodeTemplate { template_id, name, field_templates, slot_templates } = template;
    let ghost old_slots = slot_templates@;
    let ghost pred = |s: SlotTemplate| !is_flow_slot(s);
    let mut rest = slot_templates;
    let mut out: Vec<SlotTemplate> = Vec::new();
    let ghost mut taken: int = 0;
    proof {
        assert(old_slots.take(0) =~= Seq::<SlotTemplate>::empty());
        reveal(Seq::filter);
    }
    while rest.len() > 0
        invariant
            0 <= taken <= old_slots.len(),
            taken + rest@.len() == old_slots.len(),
            rest@ == old_slots.subrange(taken, old_slots.len() as int),
            pred == (|s: SlotTemplate| !is_flow_slot(s)),
            out@ == old_slots.take(taken).filter(pred),
        decreases rest@.len(),
    {
        let s = rest.remove(0);
        proof {
            assert(s == old_slots[taken]);
            assert(old_slots.take(taken + 1) =~= old_slots.take(taken).push(s));
            old_slots.take(taken).lemma_filter_push(s, pred);
        }
        let drop = str_eq(s.name.as_str(), "DownstreamSteps") || str_eq(s.name.as_str(), "UpstreamStep");
        if !drop {
            out.push(s);
        }
        proof {
            taken = taken + 1;
            assert(rest@ =~= old_slots.subrange(taken, old_slots.len() as int));
        }
    }
    proof {
        assert(old_slots.take(taken) =~= old_slots);
    }
    NodeTemplate { template_id, name, field_templates, slot_templates: out }
}

/// The nodes that bring the first `n` function inputs onto the canvas, each
/// under the identifiers drawn for it.
pub open spec fn inputs_complex(
    inputs: Seq<FunctionInputSchema>,
    operative: Uid,
    tids: StepTemplates,
    ids: Seq<Seq<Seq<char>>>,
    cids: Seq<Seq<Seq<char>>>,
    n: nat,
) -> Seq<InitialNodeView>
    decreases n,
{
    if n == 0 {
        Seq::empty()
    } else {
        inputs_complex(inputs, operative, tids, ids, cids, (n - 1) as nat) + input_mapstep_complex(
            inputs[n - 1],
            operative,
            tids,
            ids[n - 1],
            cids[n - 1],
        )
    }
}

/// The nodes that bring the first `n` function outputs onto the canvas, each
/// under the identifiers drawn for it.
pub open spec fn outputs_complex(
    outputs: Seq<FunctionOutputSchema>,
    tids: StepTemplates,
    data_ids: Seq<Seq<char>>,
    step_ids: Seq<Seq<char>>,
    cids: Seq<Seq<Seq<char>>>,
    n: nat,
) -> Seq<InitialNodeView>
    decreases n,
{
    if n == 0 {
        Seq::empty()
    } else {
        outputs_complex(outputs, tids, data_ids, step_ids, cids, (n - 1) as nat) + output_mapstep_complex(
            outputs[n - 1],
            tids,
            data_ids[n - 1],
            step_ids[n - 1],
            cids[n - 1],
        )
    }
}

proof fn lemma_inputs_complex_prefix(
    inputs: Seq<FunctionInputSchema>,
    operative: Uid,
    tids: StepTemplates,
    ids: Seq<Seq<Seq<char>>>,
    cids: Seq<Seq<Seq<char>>>,
    ids2: Seq<Seq<Seq<char>>>,
    cids2: Seq<Seq<Seq<char>>>,
    n: nat,
)
    requires
        n <= ids.len(),
        n <= ids2.len(),
        n <= cids.len(),
        n <= cids2.len(),
        forall|q: int| 0 <= q < n ==> ids[q] == ids2[q] && cids[q] == cids2[q],
    ensures
        inputs_complex(inputs, operative, tids, ids, cids, n) == inputs_complex(inputs, operative, tids, ids2, cids2, n),
    decreases n,
{
    if n > 0 {
        lemma_inputs_complex_prefix(inputs, operative, tids, ids, cids, ids2, cids2, (n - 1) as nat);
    }
}

proof fn lemma_outputs_complex_prefix(
    outputs: Seq<FunctionOutputSchema>,
    tids: StepTemplates,
    d: Seq<Seq<char>>,
    s: Seq<Seq<char>>,
    c: Seq<Seq<Seq<char>>>,
    d2: Seq<Seq<char>>,
    s2: Seq<Seq<char>>,
    c2: Seq<Seq<Seq<char>>>,
    n: nat,
)
    requires
        n <= d.len(),
        n <= d2.len(),
        n <= s.len(),
        n <= s2.len(),
        n <= c.len(),
        n <= c2.len(),
        forall|q: int| 0 <= q < n ==> d[q] == d2[q] && s[q] == s2[q] && c[q] == c2[q],
    ensures
        outputs_complex(outputs, tids, d, s, c, n) == outputs_complex(outputs, tids, d2, s2, c2, n),
    decreases n,
{
    if n > 0 {
        lemma_outputs_complex_prefix(outputs, tids, d, s, c, d2, s2, c2, (n - 1) as nat);
    }
}

/// The nodes the canvas of a new method implementation starts with: for each
/// function input, in order, its nodes with a data node and a `MapFromInput`
/// step; then, for each function output, its nodes with a data node and a
/// `MapToOutput` step; every new node under a new random identifier.
pub fn new_impl_initial_nodes(
    inputs: &Vec<FunctionInputSchema>,
    outputs: &Vec<FunctionOutputSchema>,
    operative: Uid,
    tids: &StepTemplates,
) -> (r: Vec<InitialNode>)
    ensures
        exists|ids: Seq<Seq<Seq<char>>>, cids: Seq<Seq<Seq<char>>>, data_ids: Seq<Seq<char>>, step_ids: Seq<Seq<char>>,
            ocids: Seq<Seq<Seq<char>>>|
            {
                &&& ids.len() == inputs@.len() && cids.len() == inputs@.len()
                &&& forall|i: int| 0 <= i < inputs@.len() ==> input_ids_fit(inputs@[i], #[trigger] ids[i], cids[i])
                &&& data_ids.len() == outputs@.len() && step_ids.len() == outputs@.len() && ocids.len() == outputs@.len()
                &&& forall|i: int| 0 <= i < outputs@.len() ==> is_fresh_text(#[trigger] data_ids[i]) && is_fresh_text(
                    step_ids[i],
                ) && ids_fit(outputs@[i].output_type, ocids[i], true)
                &&& node_views(r@) == inputs_complex(inputs@, operative, *tids, ids, cids, inputs@.len()) + outputs_complex(
                    outputs@,
                    *tids,
                    data_ids,
                    step_ids,
                    ocids,
                    outputs@.len(),
                )
            },
{
    let mut r: Vec<InitialNode> = Vec::new();
    let ghost mut ids: Seq<Seq<Seq<char>>> = Seq::empty();
    let ghost mut cids: Seq<Seq<Seq<char>>> = Seq::empty();
    let mut i: usize = 0;
    while i < inputs.len()
        invariant
            i <= inputs@.len(),
            ids.len() == i && cids.len() == i,
            forall|q: int| 0 <= q < i ==> input_ids_fit(inputs@[q], #[trigger] ids[q], cids[q]),
            node_views(r@) == inputs_complex(inputs@, operative, *tids, ids, cids, i as nat),
        decreases inputs@.len() - i,
    {
        let ghost pre = r@;
        let mut nodes = generate_function_input_and_mapstep_complex(&inputs[i], operative, tids);
        let ghost (a, b) = choose|a: Seq<Seq<char>>, b: Seq<Seq<char>>|
            #![trigger input_mapstep_complex(inputs@[i as int], operative, *tids, a, b)]
            input_ids_fit(inputs@[i as int], a, b) && node_views(nodes@) == input_mapstep_complex(
                inputs@[i as int],
                operative,
                *tids,
                a,
                b,
            );
        r.append(&mut nodes);
        proof {
            let old_ids = ids;
            let old_cids = cids;
            ids = ids.push(a);
            cids = cids.push(b);
            lemma_inputs_complex_prefix(inputs@, operative, *tids, old_ids, old_cids, ids, cids, i as nat);
            assert(node_views(r@) =~= node_views(pre) + input_mapstep_complex(inputs@[i as int], operative, *tids, a, b));
        }
        i = i + 1;
    }
    let ghost mid = r@;
    let ghost mut data_ids: Seq<Seq<char>> = Seq::empty();
    let ghost mut step_ids: Seq<Seq<char>> = Seq::empty();
    let ghost mut ocids: Seq<Seq<Seq<char>>> = Seq::empty();
    let mut j: usize = 0;
    while j < outputs.len()
        invariant
            j <= outputs@.len(),
            data_ids.len() == j && step_ids.len() == j && ocids.len() == j,
            forall|q: int| 0 <= q < j ==> is_fresh_text(#[trigger] data_ids[q]) && is_fresh_text(step_ids[q]) && ids_fit(
                outputs@[q].output_type,
                ocids[q],
                true,
            ),
            node_views(r@) == node_views(mid) + outputs_complex(outputs@, *tids, data_ids, step_ids, ocids, j as nat),
        decreases outputs@.len() - j,
    {
        let ghost pre = r@;
        let mut nodes = generate_function_output_and_mapstep_complex(&outputs[j], tids);
        let ghost (d, s, c) = choose|d: Seq<char>, s: Seq<char>, c: Seq<Seq<char>>|
            #![trigger output_mapstep_complex(outputs@[j as int], *tids, d, s, c)]
            is_fresh_text(d) && is_fresh_text(s) && ids_fit(outputs@[j as int].output_type, c, true) && node_views(nodes@)
                == output_mapstep_complex(outputs@[j as int], *tids, d, s, c);
        r.append(&mut nodes);
        proof {
            let od = data_ids;
            let os = step_ids;
            let oc = ocids;
            data_ids = data_ids.push(d);
            step_ids = step_ids.push(s);
            ocids = ocids.push(c);
            lemma_outputs_complex_prefix(outputs@, *tids, od, os, oc, data_ids, step_ids, ocids, j as nat);
            assert(node_views(r@) =~= node_views(pre) + output_mapstep_complex(outputs@[j as int], *tids, d, s, c));
        }
        j = j + 1;
    }
    r
}

} // verus!
