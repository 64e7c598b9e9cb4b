use vstd::prelude::*;
use crate::cardinality::{SpecializationTarget, TemplateSlotCardinality};
use crate::schema_canvas::{decimal_text, u32_text};

verus! {

/// A cardinality in a lineage: one that can still be refined (a template
/// cardinality or a specialization admitting a single value or a range), or a
/// final zero or single specialization.
#[derive(Clone, Copy, Debug, PartialEq, Eq, Structural)]
pub enum LineageKind {
    Refinable(SpecializationTarget),
    Zero,
    Single,
}

/// A cardinality of a slot with the index of the one it specializes; template
/// cardinalities specialize nothing.
#[derive(Clone, Copy, Debug, PartialEq, Eq, Structural)]
pub struct CardinalityNode {
    pub kind: LineageKind,
    pub upstream: Option<usize>,
}

/// Whether a target is a template slot's own cardinality.
pub open spec fn is_template_target(t: SpecializationTarget) -> bool {
    match t {
        SpecializationTarget::TemplateRangeOrZero { .. } => true,
        SpecializationTarget::TemplateLowerBoundOrZero { .. } => true,
        SpecializationTarget::TemplateRange { .. } => true,
        SpecializationTarget::TemplateLowerBound { .. } => true,
        _ => false,
    }
}

/// Well-formed cardinality nodes: template cardinalities specialize nothing,
/// every specialization specializes a refinable cardinality listed before it.
pub open spec fn lineage_wf(nodes: Seq<CardinalityNode>) -> bool {
    forall|i: int| 0 <= i < nodes.len() ==> {
        let n = #[trigger] nodes[i];
        match n.upstream {
            Some(u) => {
                &&& u < i
                &&& nodes[u as int].kind is Refinable
                &&& !(n.kind matches LineageKind::Refinable(t) && is_template_target(t))
            },
            None => n.kind matches LineageKind::Refinable(t) && is_template_target(t),
        }
    }
}

/// The refinable cardinalities from node `i` up to the template cardinality,
/// node `i` first.
pub open spec fn up_chain(nodes: Seq<CardinalityNode>, i: int) -> Seq<SpecializationTarget>
    decreases i,
    when 0 <= i < nodes.len()
{
    let n = nodes[i];
    let t = match n.kind {
        LineageKind::Refinable(t) => t,
        _ => arbitrary(),
    };
    match n.upstream {
        Some(u) => if u < i {
            seq![t] + up_chain(nodes, u as int)
        } else {
            seq![t]
        },
        None => seq![t],
    }
}

/// One entry of a lineage view, from the template cardinality down.
#[derive(Clone, Copy, Debug, PartialEq, Eq, Structural)]
pub enum LineageEntry {
    /// A refinable cardinality with its bounds; `arrow` marks one that a
    /// further entry refines.
    Step { target: SpecializationTarget, arrow: bool },
    /// A final zero specialization.
    FinalZero,
    /// A final single specialization.
    FinalSingle,
}

/// The entries for a chain given node first, template last: listed from the
/// template down, each with an arrow but the last, which has one when
/// `last_arrow`.
pub open spec fn steps_of(chain: Seq<SpecializationTarget>, last_arrow: bool) -> Seq<LineageEntry> {
    Seq::new(chain.len(), |j: int| LineageEntry::Step {
        target: chain[chain.len() - 1 - j],
        arrow: j != chain.len() - 1 || last_arrow,
    })
}

/// The lineage view of the cardinality specialization at `start`: every
/// cardinality it refines, from the template's down to it.
pub open spec fn spec_lineage(nodes: Seq<CardinalityNode>, start: int) -> Seq<LineageEntry> {
    let n = nodes[start];
    match n.kind {
        LineageKind::Refinable(_) => steps_of(up_chain(nodes, start), false),
        LineageKind::Zero => steps_of(up_chain(nodes, n.upstream->0 as int), true) + seq![LineageEntry::FinalZero],
        LineageKind::Single => steps_of(up_chain(nodes, n.upstream->0 as int), true) + seq![LineageEntry::FinalSingle],
    }
}

fn collect_up_chain(nodes: &Vec<CardinalityNode>, start: usize) -> (r: Vec<SpecializationTarget>)
    requires
        lineage_wf(nodes@),
        start < nodes.len(),
        nodes@[start as int].kind is Refinable,
    ensures
        r@ == up_chain(nodes@, start as int),
        r@.len() > 0,
{
    let mut out: Vec<SpecializationTarget> = Vec::new();
    let mut cur: usize = start;
    loop
        invariant
            lineage_wf(nodes@),
            cur < nodes.len(),
            nodes@[cur as int].kind is Refinable,
            out@ + up_chain(nodes@, cur as int) == up_chain(nodes@, start as int),
        ensures
            out@ == up_chain(nodes@, start as int),
            out@.len() > 0,
        decreases cur,
    {
        let n = nodes[cur];
        let t = match n.kind {
            LineageKind::Refinable(t) => t,
            _ => {
                assert(false);
                return out;
            },
        };
        let ghost before = out@;
        out.push(t);
        match n.upstream {
            Some(u) => {
                assert(nodes@[cur as int] == n);
                assert(up_chain(nodes@, cur as int) == seq![t] + up_chain(nodes@, u as int));
                assert(out@ + up_chain(nodes@, u as int) == before + up_chain(nodes@, cur as int));
                cur = u;
            },
            None => {
                assert(up_chain(nodes@, cur as int) == seq![t]);
                assert(out@ == before + up_chain(nodes@, cur as int));
                return out;
            },
        }
    }
}

fn push_steps(out: &mut Vec<LineageEntry>, chain: &Vec<SpecializationTarget>, last_arrow: bool)
    ensures
        final(out)@ == old(out)@ + steps_of(chain@, last_arrow),
{
    let ghost start = out@;
    let n = chain.len();
    let mut j: usize = 0;
    while j < n
        invariant
            n == chain.len(),
            j <= n,
            out@ == start + steps_of(chain@, last_arrow).take(j as int),
        decreases n - j,
    {
        let arrow = j + 1 != n || last_arrow;
        out.push(LineageEntry::Step { target: chain[n - 1 - j], arrow });
        assert(steps_of(chain@, last_arrow).take(j + 1) == steps_of(chain@, last_arrow).take(j as int).push(
            steps_of(chain@, last_arrow)[j as int],
        ));
        j = j + 1;
    }
    assert(steps_of(chain@, last_arrow).take(n as int) == steps_of(chain@, last_arrow));
}

/// The lineage view of the cardinality specialization at `start`, from the
/// template's cardinality down to it.
pub fn cardinality_lineage(nodes: &Vec<CardinalityNode>, start: usize) -> (r: Vec<LineageEntry>)
    requires
        lineage_wf(nodes@),
        start < nodes.len(),
    ensures
        r@ == spec_lineage(nodes@, start as int),
{
    let n = nodes[start];
    let mut out: Vec<LineageEntry> = Vec::new();
    match n.kind {
        LineageKind::Refinable(_) => {
            let chain = collect_up_chain(nodes, start);
            push_steps(&mut out, &chain, false);
        },
        LineageKind::Zero | LineageKind::Single => {
            let u = match n.upstream {
                Some(u) => u,
                None => {
                    assert(false);
                    return out;
                },
            };
            let chain = collect_up_chain(nodes, u);
            push_steps(&mut out, &chain, true);
            match n.kind {
                LineageKind::Zero => out.push(LineageEntry::FinalZero),
                _ => out.push(LineageEntry::FinalSingle),
            }
        },
    }
    out
}

/// A lineage view starts at the template slot's own cardinality, and every
/// step but the last is followed by the one it leads to.
pub proof fn lemma_lineage_starts_at_template(nodes: Seq<CardinalityNode>, i: int)
    requires
        lineage_wf(nodes),
        0 <= i < nodes.len(),
        nodes[i].kind is Refinable,
    ensures
        up_chain(nodes, i).len() > 0,
        is_template_target(up_chain(nodes, i).last()),
        forall|k: int| 0 <= k < up_chain(nodes, i).len() - 1 ==> !is_template_target(#[trigger] up_chain(nodes, i)[k]),
    decreases i,
{
    let n = nodes[i];
    match n.upstream {
        Some(u) => {
            lemma_lineage_starts_at_template(nodes, u as int);
            let rest = up_chain(nodes, u as int);
            let t = match n.kind {
                LineageKind::Refinable(t) => t,
                _ => arbitrary(),
            };
            assert(up_chain(nodes, i) == seq![t] + rest);
            assert forall|k: int| 0 <= k < up_chain(nodes, i).len() - 1 implies !is_template_target(
                #[trigger] up_chain(nodes, i)[k],
            ) by {
                if k > 0 {
                    assert(up_chain(nodes, i)[k] == rest[k - 1]);
                }
            }
        },
        None => {},
    }
}

/// The text that describes a template slot's cardinality: its bounds, or
/// "Exactly 1" for a single slot.
pub open spec fn spec_cardinality_text(c: TemplateSlotCardinality) -> Seq<char> {
    match c {
        TemplateSlotCardinality::RangeOrZero { lower_bound, upper_bound }
        | TemplateSlotCardinality::Range { lower_bound, upper_bound } =>
            "Lower Bound: "@ + decimal_text(lower_bound as nat) + ", Upper Bound: "@ + decimal_text(upper_bound as nat),
        TemplateSlotCardinality::LowerBoundOrZero { lower_bound }
        | TemplateSlotCardinality::LowerBound { lower_bound } => "Lower Bound: "@ + decimal_text(lower_bound as nat),
        TemplateSlotCardinality::Single => "Exactly 1"@,
    }
}

/// Describes a template slot's cardinality.
pub fn cardinality_text(c: TemplateSlotCardinality) -> (r: String)
    ensures
        r@ == spec_cardinality_text(c),
{
    match c {
        TemplateSlotCardinality::RangeOrZero { lower_bound, upper_bound }
        | TemplateSlotCardinality::Range { lower_bound, upper_bound } => {
            let lower = u32_text(lower_bound);
            let upper = u32_text(upper_bound);
            String::from_str("Lower Bound: ").concat(lower.as_str()).concat(", Upper Bound: ").concat(upper.as_str())
        },
        TemplateSlotCardinality::LowerBoundOrZero { lower_bound }
        | TemplateSlotCardinality::LowerBound { lower_bound } => {
            let lower = u32_text(lower_bound);
            String::from_str("Lower Bound: ").concat(lower.as_str())
        },
        TemplateSlotCardinality::Single => String::from_str("Exactly 1"),
    }
}

} // verus!
