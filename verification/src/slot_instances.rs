use vstd::prelude::*;
use crate::ids::Uid;

verus! {

/// The most specialized specialization of a slot that an operative sees, with
/// what it holds.
#[derive(Clone, Debug)]
pub struct SlotSpecialization {
    pub id: Uid,
    /// The operative that made the specialization.
    pub specializer: Uid,
    pub slotted_instances: Vec<Uid>,
    pub type_specializations: Vec<Uid>,
    pub cardinality_specializations: Vec<Uid>,
}

/// A specialization of the slot held by a descendant operative: its identifier
/// and the slot description it specializes.
#[derive(Clone, Copy, Debug, PartialEq, Eq, Structural)]
pub struct ExistingSpecialization {
    pub id: Uid,
    pub upstream: Uid,
}

/// A descendant operative, with the first of its specializations of the slot.
#[derive(Clone, Copy, Debug, PartialEq, Eq, Structural)]
pub struct DescendantSlot {
    pub operative: Uid,
    pub specialization: Option<ExistingSpecialization>,
}

/// The slot description that a new specialization specializes.
#[derive(Clone, Copy, Debug, PartialEq, Eq, Structural)]
pub enum UpstreamDescription {
    TemplateSlot(Uid),
    Specialized(Uid),
}

/// Where a new slotted instance is slotted.
#[derive(Clone, Copy, Debug, PartialEq, Eq, Structural)]
pub enum SlottedSlot {
    Existing(Uid),
    NewSpecialization,
}

/// A change to the schema that slotting a new instance calls for.
#[derive(Clone, Copy, Debug, PartialEq, Eq, Structural)]
pub enum SlotInstanceOp {
    /// The new slotted instance of `instance`, fulfilled by `fulfiller`.
    NewSlottedInstance { fulfiller: Uid, instance: Uid, slotted_slot: SlottedSlot },
    /// The existing specialization `spec` holds the new slotted instance too.
    AddInstanceToSpecialization { spec: Uid },
    /// The new specialization by `specializer` of `upstream` for the template
    /// slot `root`, holding the new slotted instance.
    NewSpecialization { specializer: Uid, upstream: UpstreamDescription, root: Uid },
    /// The new specialization holds the earlier slotted instance `instance` too.
    CopySlottedInstance { instance: Uid },
    /// The new specialization holds the type specialization `spec` too.
    CopyTypeSpecialization { spec: Uid },
    /// The new specialization holds the cardinality specialization `spec` too.
    CopyCardinalitySpecialization { spec: Uid },
    /// The operative drops the specialization `spec`.
    RemoveSpecialization { operative: Uid, spec: Uid },
    /// The operative takes the new specialization.
    AddNewSpecialization { operative: Uid },
    /// The specialization `spec` now specializes the new one in place of `from`.
    Reparent { spec: Uid, from: Uid },
}

/// The changes for one descendant where the specialization in force is the
/// operative's own, or there was none.
pub open spec fn descendant_ops_plain(d: DescendantSlot) -> Seq<SlotInstanceOp> {
    match d.specialization {
        Some(e) => seq![SlotInstanceOp::AddInstanceToSpecialization { spec: e.id }],
        None => seq![SlotInstanceOp::AddNewSpecialization { operative: d.operative }],
    }
}

/// The changes for one descendant where the specialization `replaced` of
/// another operative gives way to a new one.
pub open spec fn descendant_ops_replacing(d: DescendantSlot, replaced: Uid) -> Seq<SlotInstanceOp> {
    match d.specialization {
        Some(e) => (if e.upstream == replaced {
            seq![SlotInstanceOp::Reparent { spec: e.id, from: replaced }]
        } else {
            Seq::empty()
        }) + seq![SlotInstanceOp::AddInstanceToSpecialization { spec: e.id }],
        None => seq![
            SlotInstanceOp::RemoveSpecialization { operative: d.operative, spec: replaced },
            SlotInstanceOp::AddNewSpecialization { operative: d.operative },
        ],
    }
}

/// The changes for the first `n` descendants.
pub open spec fn descendants_ops(ds: Seq<DescendantSlot>, replaced: Option<Uid>, n: nat) -> Seq<SlotInstanceOp>
    decreases n,
{
    if n == 0 {
        Seq::empty()
    } else {
        descendants_ops(ds, replaced, (n - 1) as nat) + match replaced {
            Some(r) => descendant_ops_replacing(ds[n - 1], r),
            None => descendant_ops_plain(ds[n - 1]),
        }
    }
}

/// The changes that slotting `instance` into the slot `slot` of `operative`
/// calls for, none where the slot is full: where the specialization in force
/// is the operative's own, the instance joins it; where it is another
/// operative's, a new specialization of it takes its place, holding what it
/// held; where there is none, a new specialization of the template slot. Each
/// descendant's specialization of the slot takes the instance too, or the
/// descendant takes the new specialization.
pub open spec fn add_instance_ops(
    operative: Uid,
    slot: Uid,
    instance: Uid,
    allowed: bool,
    childest: Option<SlotSpecialization>,
    descendants: Seq<DescendantSlot>,
) -> Seq<SlotInstanceOp> {
    if !allowed {
        Seq::empty()
    } else {
        match childest {
            Some(spec) => if spec.specializer == operative {
                seq![
                    SlotInstanceOp::NewSlottedInstance {
                        fulfiller: operative,
                        instance,
                        slotted_slot: SlottedSlot::Existing(spec.id),
                    },
                    SlotInstanceOp::AddInstanceToSpecialization { spec: spec.id },
                ] + descendants_ops(descendants, None, descendants.len())
            } else {
                seq![
                    SlotInstanceOp::NewSlottedInstance {
                        fulfiller: operative,
                        instance,
                        slotted_slot: SlottedSlot::NewSpecialization,
                    },
                ] + spec.slotted_instances@.map_values(|i: Uid| SlotInstanceOp::CopySlottedInstance { instance: i })
                    + spec.type_specializations@.map_values(|s: Uid| SlotInstanceOp::CopyTypeSpecialization { spec: s })
                    + spec.cardinality_specializations@.map_values(
                    |s: Uid| SlotInstanceOp::CopyCardinalitySpecialization { spec: s },
                ) + seq![
                    SlotInstanceOp::RemoveSpecialization { operative, spec: spec.id },
                    SlotInstanceOp::AddNewSpecialization { operative },
                    SlotInstanceOp::NewSpecialization {
                        specializer: operative,
                        upstream: UpstreamDescription::Specialized(spec.id),
                        root: slot,
                    },
                ] + descendants_ops(descendants, Some(spec.id), descendants.len())
            },
            None => seq![
                SlotInstanceOp::NewSlottedInstance {
                    fulfiller: operative,
                    instance,
                    slotted_slot: SlottedSlot::NewSpecialization,
                },
                SlotInstanceOp::NewSpecialization {
                    specializer: operative,
                    upstream: UpstreamDescription::TemplateSlot(slot),
                    root: slot,
                },
                SlotInstanceOp::AddNewSpecialization { operative },
            ] + descendants_ops(descendants, None, descendants.len()),
        }
    }
}

fn push_all(ops: &mut Vec<SlotInstanceOp>, items: &Vec<Uid>, kind: u8)
    requires
        kind < 3,
    ensures
        final(ops)@ == old(ops)@ + items@.map_values(
            |i: Uid|
                if kind == 0 {
                    SlotInstanceOp::CopySlottedInstance { instance: i }
                } else if kind == 1 {
                    SlotInstanceOp::CopyTypeSpecialization { spec: i }
                } else {
                    SlotInstanceOp::CopyCardinalitySpecialization { spec: i }
                },
        ),
{
    let ghost start = ops@;
    let mut k: usize = 0;
    while k < items.len()
        invariant
            k <= items@.len(),
            ops@ == start + items@.take(k as int).map_values(
                |i: Uid|
                    if kind == 0 {
                        SlotInstanceOp::CopySlottedInstance { instance: i }
                    } else if kind == 1 {
                        SlotInstanceOp::CopyTypeSpecialization { spec: i }
                    } else {
                        SlotInstanceOp::CopyCardinalitySpecialization { spec: i }
                    },
            ),
        decreases items@.len() - k,
    {
        let i = items[k];
        let op = if kind == 0 {
            SlotInstanceOp::CopySlottedInstance { instance: i }
        } else if kind == 1 {
            SlotInstanceOp::CopyTypeSpecialization { spec: i }
        } else {
            SlotInstanceOp::CopyCardinalitySpecialization { spec: i }
        };
        ops.push(op);
        proof {
            assert(items@.take(k + 1) =~= items@.take(k as int).push(i));
            assert(ops@ =~= start + items@.take(k + 1).map_values(
                |i: Uid|
                    if kind == 0 {
                        SlotInstanceOp::CopySlottedInstance { instance: i }
                    } else if kind == 1 {
                        SlotInstanceOp::CopyTypeSpecialization { spec: i }
                    } else {
                        SlotInstanceOp::CopyCardinalitySpecialization { spec: i }
                    },
            ));
        }
        k = k + 1;
    }
    proof {
        assert(items@.take(k as int) =~= items@);
    }
}

fn push_descendants(ops: &mut Vec<SlotInstanceOp>, descendants: &Vec<DescendantSlot>, replaced: Option<Uid>)
    ensures
        final(ops)@ == old(ops)@ + descendants_ops(descendants@, replaced, descendants@.len()),
{
    let ghost start = ops@;
    let mut k: usize = 0;
    while k < descendants.len()
        invariant
            k <= descendants@.len(),
            ops@ == start + descendants_ops(descendants@, replaced, k as nat),
        decreases descendants@.len() - k,
    {
        let d = descendants[k];
        match replaced {
            Some(r) => match d.specialization {
                Some(e) => {
                    if e.upstream == r {
                        ops.push(SlotInstanceOp::Reparent { spec: e.id, from: r });
                    }
                    ops.push(SlotInstanceOp::AddInstanceToSpecialization { spec: e.id });
                },
                None => {
                    ops.push(SlotInstanceOp::RemoveSpecialization { operative: d.operative, spec: r });
                    ops.push(SlotInstanceOp::AddNewSpecialization { operative: d.operative });
                },
            },
            None => match d.specialization {
                Some(e) => ops.push(SlotInstanceOp::AddInstanceToSpecialization { spec: e.id }),
                None => ops.push(SlotInstanceOp::AddNewSpecialization { operative: d.operative }),
            },
        }
        proof {
            assert(ops@ =~= start + descendants_ops(descendants@, replaced, (k + 1) as nat));
        }
        k = k + 1;
    }
}

/// The changes that slotting `instance` into the slot `slot` of `operative`
/// calls for; `allowed` says whether the slot admits one more instance,
/// `childest` is the most specialized specialization of the slot in force,
/// `descendants` the operative's descendants with their specializations of
/// the slot.
pub fn plan_add_slotted_instance(
    operative: Uid,
    slot: Uid,
    instance: Uid,
    allowed: bool,
    childest: &Option<SlotSpecialization>,
    descendants: &Vec<DescendantSlot>,
) -> (r: Vec<SlotInstanceOp>)
    ensures
        r@ == add_instance_ops(operative, slot, instance, allowed, *childest, descendants@),
{
    let mut ops: Vec<SlotInstanceOp> = Vec::new();
    if !allowed {
        return ops;
    }
    match childest {
        Some(spec) => {
            if spec.specializer == operative {
                ops.push(
                    SlotInstanceOp::NewSlottedInstance {
                        fulfiller: operative,
                        instance,
                        slotted_slot: SlottedSlot::Existing(spec.id),
                    },
                );
                ops.push(SlotInstanceOp::AddInstanceToSpecialization { spec: spec.id });
                push_descendants(&mut ops, descendants, None);
            } else {
                ops.push(
                    SlotInstanceOp::NewSlottedInstance {
                        fulfiller: operative,
                        instance,
                        slotted_slot: SlottedSlot::NewSpecialization,
                    },
                );
                push_all(&mut ops, &spec.slotted_instances, 0);
                push_all(&mut ops, &spec.type_specializations, 1);
                push_all(&mut ops, &spec.cardinality_specializations, 2);
                ops.push(SlotInstanceOp::RemoveSpecialization { operative, spec: spec.id });
                ops.push(SlotInstanceOp::AddNewSpecialization { operative });
                ops.push(
                    SlotInstanceOp::NewSpecialization {
                        specializer: operative,
                        upstream: UpstreamDescription::Specialized(spec.id),
                        root: slot,
                    },
                );
                push_descendants(&mut ops, descendants, Some(spec.id));
            }
        },
        None => {
            ops.push(
                SlotInstanceOp::NewSlottedInstance {
                    fulfiller: operative,
                    instance,
                    slotted_slot: SlottedSlot::NewSpecialization,
                },
            );
            ops.push(
                SlotInstanceOp::NewSpecialization {
                    specializer: operative,
                    upstream: UpstreamDescription::TemplateSlot(slot),
                    root: slot,
                },
            );
            ops.push(SlotInstanceOp::AddNewSpecialization { operative });
            push_descendants(&mut ops, descendants, None);
        },
    }
    proof {
        assert(ops@ =~= add_instance_ops(operative, slot, instance, allowed, *childest, descendants@));
    }
    ops
}

proof fn lemma_descendants_ops_cover(ds: Seq<DescendantSlot>, replaced: Option<Uid>, n: nat, i: int)
    requires
        0 <= i < n <= ds.len(),
    ensures
        descendants_ops(ds, replaced, n).contains(match ds[i].specialization {
            Some(e) => SlotInstanceOp::AddInstanceToSpecialization { spec: e.id },
            None => SlotInstanceOp::AddNewSpecialization { operative: ds[i].operative },
        }),
    decreases n,
{
    let prev = descendants_ops(ds, replaced, (n - 1) as nat);
    let own = match replaced {
        Some(r) => descendant_ops_replacing(ds[n - 1], r),
        None => descendant_ops_plain(ds[n - 1]),
    };
    let all = descendants_ops(ds, replaced, n);
    assert(all == prev + own);
    let target = match ds[i].specialization {
        Some(e) => SlotInstanceOp::AddInstanceToSpecialization { spec: e.id },
        None => SlotInstanceOp::AddNewSpecialization { operative: ds[i].operative },
    };
    if i < n - 1 {
        lemma_descendants_ops_cover(ds, replaced, (n - 1) as nat, i);
        let k = choose|k: int| 0 <= k < prev.len() && prev[k] == target;
        assert(all[k] == target);
    } else {
        assert(own[own.len() - 1] == target);
        assert(all[prev.len() + own.len() - 1] == target);
    }
}

/// Slotting an instance reaches every descendant: one that holds a
/// specialization of the slot has the instance added to it, one that holds
/// none takes the new specialization.
pub proof fn lemma_every_descendant_receives_instance(
    operative: Uid,
    slot: Uid,
    instance: Uid,
    childest: Option<SlotSpecialization>,
    descendants: Seq<DescendantSlot>,
    i: int,
)
    requires
        0 <= i < descendants.len(),
    ensures
        add_instance_ops(operative, slot, instance, true, childest, descendants).contains(
            match descendants[i].specialization {
                Some(e) => SlotInstanceOp::AddInstanceToSpecialization { spec: e.id },
                None => SlotInstanceOp::AddNewSpecialization { operative: descendants[i].operative },
            },
        ),
{
    let replaced = match childest {
        Some(spec) => if spec.specializer == operative { None } else { Some(spec.id) },
        None => None,
    };
    lemma_descendants_ops_cover(descendants, replaced, descendants.len(), i);
    let tail = descendants_ops(descendants, replaced, descendants.len());
    let all = add_instance_ops(operative, slot, instance, true, childest, descendants);
    let head_len = all.len() - tail.len();
    assert(all.subrange(head_len, all.len() as int) =~= tail);
    let k = choose|k: int| 0 <= k < tail.len() && tail[k] == (match descendants[i].specialization {
        Some(e) => SlotInstanceOp::AddInstanceToSpecialization { spec: e.id },
        None => SlotInstanceOp::AddNewSpecialization { operative: descendants[i].operative },
    });
    assert(all[head_len + k] == tail[k]);
}

/// A slot that admits no further instance is left unchanged.
pub proof fn lemma_full_slot_unchanged(
    operative: Uid,
    slot: Uid,
    instance: Uid,
    childest: Option<SlotSpecialization>,
    descendants: Seq<DescendantSlot>,
)
    ensures
        add_instance_ops(operative, slot, instance, false, childest, descendants) == Seq::<SlotInstanceOp>::empty(),
{
}

/// Slotting an instance where the specialization in force is another
/// operative's replaces it without losing anything it held: each of its
/// slotted instances, type specializations and cardinality specializations is
/// carried to the new specialization, which specializes it, and the operative
/// drops it for the new one.
pub proof fn lemma_replacing_specialization_carries_everything(
    operative: Uid,
    slot: Uid,
    instance: Uid,
    spec: SlotSpecialization,
    descendants: Seq<DescendantSlot>,
)
    requires
        spec.specializer != operative,
    ensures
        forall|c: Uid| #[trigger] spec.slotted_instances@.contains(c) ==> add_instance_ops(
            operative, slot, instance, true, Some(spec), descendants,
        ).contains(SlotInstanceOp::CopySlottedInstance { instance: c }),
        forall|c: Uid| #[trigger] spec.type_specializations@.contains(c) ==> add_instance_ops(
            operative, slot, instance, true, Some(spec), descendants,
        ).contains(SlotInstanceOp::CopyTypeSpecialization { spec: c }),
        forall|c: Uid| #[trigger] spec.cardinality_specializations@.contains(c) ==> add_instance_ops(
            operative, slot, instance, true, Some(spec), descendants,
        ).contains(SlotInstanceOp::CopyCardinalitySpecialization { spec: c }),
        add_instance_ops(operative, slot, instance, true, Some(spec), descendants).contains(
            SlotInstanceOp::NewSpecialization { specializer: operative, upstream: UpstreamDescription::Specialized(spec.id), root: slot },
        ),
        add_instance_ops(operative, slot, instance, true, Some(spec), descendants).contains(
            SlotInstanceOp::RemoveSpecialization { operative, spec: spec.id },
        ),
{
    let all = add_instance_ops(operative, slot, instance, true, Some(spec), descendants);
    let a = spec.slotted_instances@.map_values(|i: Uid| SlotInstanceOp::CopySlottedInstance { instance: i });
    let b = spec.type_specializations@.map_values(|s: Uid| SlotInstanceOp::CopyTypeSpecialization { spec: s });
    let c = spec.cardinality_specializations@.map_values(|s: Uid| SlotInstanceOp::CopyCardinalitySpecialization { spec: s });
    let tail = seq![
        SlotInstanceOp::RemoveSpecialization { operative, spec: spec.id },
        SlotInstanceOp::AddNewSpecialization { operative },
        SlotInstanceOp::NewSpecialization {
            specializer: operative,
            upstream: UpstreamDescription::Specialized(spec.id),
            root: slot,
        },
    ];
    let first = seq![
        SlotInstanceOp::NewSlottedInstance { fulfiller: operative, instance, slotted_slot: SlottedSlot::NewSpecialization },
    ];
    let rest = descendants_ops(descendants, Some(spec.id), descendants.len());
    assert(all == first + a + b + c + tail + rest);
    assert forall|x: Uid| #[trigger] spec.slotted_instances@.contains(x) implies all.contains(
        SlotInstanceOp::CopySlottedInstance { instance: x },
    ) by {
        let j = choose|j: int| 0 <= j < spec.slotted_instances@.len() && spec.slotted_instances@[j] == x;
        assert(all[1 + j] == a[j]);
    }
    assert forall|x: Uid| #[trigger] spec.type_specializations@.contains(x) implies all.contains(
        SlotInstanceOp::CopyTypeSpecialization { spec: x },
    ) by {
        let j = choose|j: int| 0 <= j < spec.type_specializations@.len() && spec.type_specializations@[j] == x;
        assert(all[1 + a.len() + j] == b[j]);
    }
    assert forall|x: Uid| #[trigger] spec.cardinality_specializations@.contains(x) implies all.contains(
        SlotInstanceOp::CopyCardinalitySpecialization { spec: x },
    ) by {
        let j = choose|j: int| 0 <= j < spec.cardinality_specializations@.len() && spec.cardinality_specializations@[j] == x;
        assert(all[1 + a.len() + b.len() + j] == c[j]);
    }
    let t0: int = (1 + a.len() + b.len() + c.len()) as int;
    assert(all[t0] == tail[0]);
    assert(all[t0 + 2] == tail[2]);
}

} // verus!
