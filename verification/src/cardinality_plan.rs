use vstd::prelude::*;
use crate::cardinality::CardinalitySpecialization;
use crate::cardinality_builder::CardinalitySaveDecision;
use crate::ids::Uid;
use crate::slot_instances::{SlotSpecialization, SlottedSlot, UpstreamDescription};

verus! {

/// A slot specialization held by an operative, with the cardinality
/// specialization it holds, if any.
#[derive(Clone, Copy, Debug, PartialEq, Eq, Structural)]
pub struct HeldSpecialization {
    pub id: Uid,
    pub cardinality: Option<Uid>,
}

/// An operative (the one being edited or one of its descendants) with the
/// first of its specializations of the slot.
#[derive(Clone, Copy, Debug, PartialEq, Eq, Structural)]
pub struct CardinalityHolder {
    pub operative: Uid,
    pub specialization: Option<HeldSpecialization>,
}

/// A change to the schema that saving a cardinality specialization calls for.
#[derive(Clone, Copy, Debug, PartialEq, Eq, Structural)]
pub enum CardinalityPlanOp {
    /// The new slot specialization by `specializer` of `upstream` for the
    /// template slot `root`.
    NewSlotSpecialization { specializer: Uid, upstream: UpstreamDescription, root: Uid },
    /// The new slot specialization holds the earlier slotted instance too.
    CopySlottedInstance { instance: Uid },
    /// The new slot specialization holds the type specialization too.
    CopyTypeSpecialization { spec: Uid },
    /// The operative drops the slot specialization `spec`.
    RemoveSlotSpecialization { operative: Uid, spec: Uid },
    /// The operative takes the new slot specialization.
    AddNewSlotSpecialization { operative: Uid },
    /// The new cardinality specialization, refining the cardinality `upstream`
    /// and specializing the slot specialization `holder`.
    NewCardinalitySpecialization { spec: CardinalitySpecialization, upstream: Uid, holder: SlottedSlot },
    /// The slot specialization `holder` takes the new cardinality
    /// specialization.
    AttachNewCardinality { holder: SlottedSlot },
    /// The slot specialization `slot_spec` drops the cardinality
    /// specialization `cardinality`.
    DetachCardinality { slot_spec: Uid, cardinality: Uid },
    /// The slot specialization `spec` now specializes the new one in place of
    /// `from`.
    Reparent { spec: Uid, from: Uid },
}

/// The changes for one holder: where its specialization is `replaced`, it
/// drops it and takes the new one; otherwise its specialization drops the
/// cardinality it held, is reparented where a specialization was replaced,
/// and takes the new cardinality; a holder with no specialization of the slot
/// takes the new slot specialization.
pub open spec fn holder_ops(h: CardinalityHolder, replaced: Option<Uid>) -> Seq<CardinalityPlanOp> {
    match h.specialization {
        Some(e) => if replaced == Some(e.id) {
            seq![
                CardinalityPlanOp::RemoveSlotSpecialization { operative: h.operative, spec: e.id },
                CardinalityPlanOp::AddNewSlotSpecialization { operative: h.operative },
            ]
        } else {
            (match e.cardinality {
                Some(c) => seq![CardinalityPlanOp::DetachCardinality { slot_spec: e.id, cardinality: c }],
                None => Seq::empty(),
            }) + (match replaced {
                Some(r) => seq![CardinalityPlanOp::Reparent { spec: e.id, from: r }],
                None => Seq::empty(),
            }) + seq![CardinalityPlanOp::AttachNewCardinality { holder: SlottedSlot::Existing(e.id) }]
        },
        None => seq![CardinalityPlanOp::AddNewSlotSpecialization { operative: h.operative }],
    }
}

/// The changes for the first `n` holders.
pub open spec fn holders_ops(hs: Seq<CardinalityHolder>, replaced: Option<Uid>, n: nat) -> Seq<CardinalityPlanOp>
    decreases n,
{
    if n == 0 || n > hs.len() {
        Seq::empty()
    } else {
        holders_ops(hs, replaced, (n - 1) as nat) + holder_ops(hs[n - 1], replaced)
    }
}

/// The change by which a holder ends up with the new cardinality
/// specialization: its own slot specialization takes it, or it takes the new
/// slot specialization, which holds it.
pub open spec fn final_holder_op(h: CardinalityHolder, replaced: Option<Uid>) -> CardinalityPlanOp {
    match h.specialization {
        Some(e) => if replaced == Some(e.id) {
            CardinalityPlanOp::AddNewSlotSpecialization { operative: h.operative }
        } else {
            CardinalityPlanOp::AttachNewCardinality { holder: SlottedSlot::Existing(e.id) }
        },
        None => CardinalityPlanOp::AddNewSlotSpecialization { operative: h.operative },
    }
}

/// The slot specialization that the operative replaces by a new one: the one
/// in force where another operative made it.
pub open spec fn replaced_spec(operative: Uid, self_spec: Option<SlotSpecialization>) -> Option<Uid> {
    match self_spec {
        Some(s) => if s.specializer == operative { None } else { Some(s.id) },
        None => None,
    }
}

/// The changes that saving the cardinality specialization `spec`, refining
/// the cardinality `target`, on the slot `slot` of `operative` calls for:
/// where the slot specialization in force is the operative's own, it takes the
/// new cardinality; where it is another operative's, a new slot specialization
/// of it takes its place, holding its instances and type specializations;
/// where there is none, a new slot specialization of the template slot. Then
/// each holder (the operative and its descendants) gets the new cardinality.
pub open spec fn cardinality_ops(
    operative: Uid,
    slot: Uid,
    target: Uid,
    spec: CardinalitySpecialization,
    self_spec: Option<SlotSpecialization>,
    holders: Seq<CardinalityHolder>,
) -> Seq<CardinalityPlanOp> {
    let replaced = replaced_spec(operative, self_spec);
    let head: Seq<CardinalityPlanOp> = match self_spec {
        Some(s) => if s.specializer == operative {
            Seq::empty()
        } else {
            seq![
                CardinalityPlanOp::RemoveSlotSpecialization { operative, spec: s.id },
                CardinalityPlanOp::NewSlotSpecialization {
                    specializer: operative,
                    upstream: UpstreamDescription::Specialized(s.id),
                    root: slot,
                },
            ] + s.slotted_instances@.map_values(|i: Uid| CardinalityPlanOp::CopySlottedInstance { instance: i })
                + s.type_specializations@.map_values(|t: Uid| CardinalityPlanOp::CopyTypeSpecialization { spec: t })
                + seq![CardinalityPlanOp::AddNewSlotSpecialization { operative }]
        },
        None => seq![
            CardinalityPlanOp::NewSlotSpecialization {
                specializer: operative,
                upstream: UpstreamDescription::TemplateSlot(slot),
                root: slot,
            },
            CardinalityPlanOp::AddNewSlotSpecialization { operative },
        ],
    };
    let holder = match self_spec {
        Some(s) => if s.specializer == operative { SlottedSlot::Existing(s.id) } else { SlottedSlot::NewSpecialization },
        None => SlottedSlot::NewSpecialization,
    };
    head + seq![
        CardinalityPlanOp::NewCardinalitySpecialization { spec, upstream: target, holder },
        CardinalityPlanOp::AttachNewCardinality { holder },
    ] + holders_ops(holders, replaced, holders.len())
}

/// The plan for a save decision: the changes above where a specialization is
/// created, none where the save is refused.
pub open spec fn save_plan(
    operative: Uid,
    slot: Uid,
    target: Uid,
    decision: CardinalitySaveDecision,
    self_spec: Option<SlotSpecialization>,
    holders: Seq<CardinalityHolder>,
) -> Seq<CardinalityPlanOp> {
    match decision {
        CardinalitySaveDecision::Create(spec) => cardinality_ops(operative, slot, target, spec, self_spec, holders),
        _ => Seq::empty(),
    }
}

fn push_copies(ops: &mut Vec<CardinalityPlanOp>, items: &Vec<Uid>, instances: bool)
    ensures
        final(ops)@ == old(ops)@ + items@.map_values(
            |i: Uid|
                if instances {
                    CardinalityPlanOp::CopySlottedInstance { instance: i }
                } else {
                    CardinalityPlanOp::CopyTypeSpecialization { spec: i }
                },
        ),
{
    let ghost start = ops@;
    let mut k: usize = 0;
    while k < items.len()
        invariant
            k <= items@.len(),
            ops@ == start + items@.take(k as int).map_values(
                |i: Uid|
                    if instances {
                        CardinalityPlanOp::CopySlottedInstance { instance: i }
                    } else {
                        CardinalityPlanOp::CopyTypeSpecialization { spec: i }
                    },
            ),
        decreases items@.len() - k,
    {
        let i = items[k];
        if instances {
            ops.push(CardinalityPlanOp::CopySlottedInstance { instance: i });
        } else {
            ops.push(CardinalityPlanOp::CopyTypeSpecialization { spec: i });
        }
        proof {
            assert(items@.take(k + 1) =~= items@.take(k as int).push(i));
            assert(ops@ =~= start + items@.take(k + 1).map_values(
                |i: Uid|
                    if instances {
                        CardinalityPlanOp::CopySlottedInstance { instance: i }
                    } else {
                        CardinalityPlanOp::CopyTypeSpecialization { spec: i }
                    },
            ));
        }
        k = k + 1;
    }
    proof {
        assert(items@.take(k as int) =~= items@);
    }
}

fn push_holders(ops: &mut Vec<CardinalityPlanOp>, holders: &Vec<CardinalityHolder>, replaced: Option<Uid>)
    ensures
        final(ops)@ == old(ops)@ + holders_ops(holders@, replaced, holders@.len()),
{
    let ghost start = ops@;
    let mut k: usize = 0;
    while k < holders.len()
        invariant
            k <= holders@.len(),
            ops@ == start + holders_ops(holders@, replaced, k as nat),
        decreases holders@.len() - k,
    {
        let h = holders[k];
        let ghost before = ops@;
        match h.specialization {
            Some(e) => {
                let is_replaced = match replaced {
                    Some(r) => r == e.id,
                    None => false,
                };
                if is_replaced {
                    ops.push(CardinalityPlanOp::RemoveSlotSpecialization { operative: h.operative, spec: e.id });
                    ops.push(CardinalityPlanOp::AddNewSlotSpecialization { operative: h.operative });
                } else {
                    if let Some(c) = e.cardinality {
                        ops.push(CardinalityPlanOp::DetachCardinality { slot_spec: e.id, cardinality: c });
                    }
                    if let Some(r) = replaced {
                        ops.push(CardinalityPlanOp::Reparent { spec: e.id, from: r });
                    }
                    ops.push(CardinalityPlanOp::AttachNewCardinality { holder: SlottedSlot::Existing(e.id) });
                }
            },
            None => {
                ops.push(CardinalityPlanOp::AddNewSlotSpecialization { operative: h.operative });
            },
        }
        proof {
            assert(ops@ =~= before + holder_ops(h, replaced));
            assert(ops@ =~= start + holders_ops(holders@, replaced, (k + 1) as nat));
        }
        k = k + 1;
    }
}

/// The changes that a save decision calls for on the slot `slot` of
/// `operative`: `target` is the cardinality the new specialization refines,
/// `self_spec` the slot specialization in force for the operative, `holders`
/// the operative and its descendants with their specializations of the slot.
/// A refused save changes nothing.
pub fn plan_cardinality_specialization(
    operative: Uid,
    slot: Uid,
    target: Uid,
    decision: CardinalitySaveDecision,
    self_spec: &Option<SlotSpecialization>,
    holders: &Vec<CardinalityHolder>,
) -> (ops: Vec<CardinalityPlanOp>)
    ensures
        ops@ == save_plan(operative, slot, target, decision, *self_spec, holders@),
{
    let mut ops: Vec<CardinalityPlanOp> = Vec::new();
    let spec = match decision {
        CardinalitySaveDecision::Create(spec) => spec,
        _ => {
            return ops;
        },
    };
    let mut replaced: Option<Uid> = None;
    let mut holder = SlottedSlot::NewSpecialization;
    match self_spec {
        Some(s) => {
            if s.specializer == operative {
                holder = SlottedSlot::Existing(s.id);
            } else {
                replaced = Some(s.id);
                ops.push(CardinalityPlanOp::RemoveSlotSpecialization { operative, spec: s.id });
                ops.push(
                    CardinalityPlanOp::NewSlotSpecialization {
                        specializer: operative,
                        upstream: UpstreamDescription::Specialized(s.id),
                        root: slot,
                    },
                );
                push_copies(&mut ops, &s.slotted_instances, true);
                push_copies(&mut ops, &s.type_specializations, false);
                ops.push(CardinalityPlanOp::AddNewSlotSpecialization { operative });
            }
        },
        None => {
            ops.push(
                CardinalityPlanOp::NewSlotSpecialization {
                    specializer: operative,
                    upstream: UpstreamDescription::TemplateSlot(slot),
                    root: slot,
                },
            );
            ops.push(CardinalityPlanOp::AddNewSlotSpecialization { operative });
        },
    }
    ops.push(CardinalityPlanOp::NewCardinalitySpecialization { spec, upstream: target, holder });
    ops.push(CardinalityPlanOp::AttachNewCardinality { holder });
    push_holders(&mut ops, holders, replaced);
    proof {
        assert(ops@ =~= save_plan(operative, slot, target, decision, *self_spec, holders@));
    }
    ops
}

proof fn lemma_holders_ops_cover(hs: Seq<CardinalityHolder>, replaced: Option<Uid>, n: nat, i: int)
    requires
        0 <= i < n <= hs.len(),
    ensures
        holders_ops(hs, replaced, n).contains(final_holder_op(hs[i], replaced)),
    decreases n,
{
    let prev = holders_ops(hs, replaced, (n - 1) as nat);
    let own = holder_ops(hs[n - 1], replaced);
    let all = holders_ops(hs, replaced, n);
    assert(all == prev + own);
    let target = final_holder_op(hs[i], replaced);
    if i < n - 1 {
        lemma_holders_ops_cover(hs, replaced, (n - 1) as nat, i);
        let k = choose|k: int| 0 <= k < prev.len() && prev[k] == target;
        assert(all[k] == target);
    } else {
        assert(own[own.len() - 1] == target);
        assert(all[prev.len() + own.len() - 1] == target);
    }
}

/// Saving a cardinality specialization reaches the operative and every
/// descendant: each ends with the new cardinality, either on its own slot
/// specialization or through the new slot specialization it takes.
pub proof fn lemma_every_holder_gets_new_cardinality(
    operative: Uid,
    slot: Uid,
    target: Uid,
    spec: CardinalitySpecialization,
    self_spec: Option<SlotSpecialization>,
    holders: Seq<CardinalityHolder>,
    i: int,
)
    requires
        0 <= i < holders.len(),
    ensures
        save_plan(operative, slot, target, CardinalitySaveDecision::Create(spec), self_spec, holders).contains(
            final_holder_op(holders[i], replaced_spec(operative, self_spec)),
        ),
{
    let replaced = replaced_spec(operative, self_spec);
    lemma_holders_ops_cover(holders, replaced, holders.len(), i);
    let tail = holders_ops(holders, replaced, holders.len());
    let all = save_plan(operative, slot, target, CardinalitySaveDecision::Create(spec), self_spec, holders);
    let head_len = all.len() - tail.len();
    assert(all.subrange(head_len, all.len() as int) =~= tail);
    let k = choose|k: int| 0 <= k < tail.len() && tail[k] == final_holder_op(holders[i], replaced);
    assert(all[head_len + k] == tail[k]);
}

/// A save that is refused leaves the schema unchanged.
pub proof fn lemma_refused_save_changes_nothing(
    operative: Uid,
    slot: Uid,
    target: Uid,
    decision: CardinalitySaveDecision,
    self_spec: Option<SlotSpecialization>,
    holders: Seq<CardinalityHolder>,
)
    requires
        !(decision is Create),
    ensures
        save_plan(operative, slot, target, decision, self_spec, holders) == Seq::<CardinalityPlanOp>::empty(),
{
}

} // verus!
