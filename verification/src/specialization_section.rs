use vstd::prelude::*;
use crate::ids::Uid;
use crate::cardinality::{CardinalitySpecialization, SpecializationTarget, TemplateSlotCardinality};
use crate::cardinality_builder::{
    builder_target, restored_specialization, spec_restored_specialization,
    spec_target_of_specialization, spec_target_of_template,
};

verus! {

/// The aspect of a slot that a specialization section edits.
#[derive(Clone, Copy, Debug, PartialEq, Eq, Structural)]
pub enum Aspect {
    Type,
    Cardinality,
}

/// A specialization of a slot by some operative, as a specialization section
/// sees it: its identifier, the operative that made it and the first of its
/// specializations of the aspect the section edits.
#[derive(Clone, Copy, Debug, PartialEq, Eq, Structural)]
pub struct SpecializationSummary {
    pub id: Uid,
    pub specializer: Uid,
    pub first: Option<Uid>,
}

/// Whether the most derived specialization of the slot belongs to the
/// operative: its specialized slot was made by the operative.
pub fn is_locally_owned_spec(childest_specializer: Option<Uid>, operative: Uid) -> (r: bool)
    ensures
        r == (childest_specializer == Some(operative)),
{
    match childest_specializer {
        Some(s) => s == operative,
        None => false,
    }
}

/// Whether `d` carries a specialization of its own that differs from what
/// this operative's specialization `t` carries, and `d` was made by another
/// operative.
pub open spec fn spec_unique_against(t: SpecializationSummary, d: SpecializationSummary) -> bool {
    &&& d.first is Some
    &&& match t.first {
        Some(c) => c != d.first->0,
        None => true,
    }
    &&& d.specializer != t.specializer
}

/// Whether one of the deepest downstream specializations carries a
/// specialization of its own: with a specialization of the slot on this
/// operative, one unique against it; without one, any that carries a
/// specialization at all.
pub open spec fn spec_downstream_unique(this_spec: Option<SpecializationSummary>, ds: Seq<SpecializationSummary>) -> bool {
    match this_spec {
        Some(t) => exists|i: int| 0 <= i < ds.len() && #[trigger] spec_unique_against(t, ds[i]),
        None => exists|i: int| 0 <= i < ds.len() && #[trigger] ds[i].first is Some,
    }
}

/// Whether a downstream operative holds a specialization of the slot that a
/// new one here would conflict with.
pub fn exists_downstream_unique_spec(
    this_spec: Option<SpecializationSummary>,
    ds: &Vec<SpecializationSummary>,
) -> (r: bool)
    ensures
        r == spec_downstream_unique(this_spec, ds@),
{
    let mut i: usize = 0;
    while i < ds.len()
        invariant
            i <= ds.len(),
            forall|j: int| 0 <= j < i ==> match this_spec {
                Some(t) => !spec_unique_against(t, #[trigger] ds@[j]),
                None => ds@[j].first is None,
            },
        decreases ds.len() - i,
    {
        let d = ds[i];
        let hit = match d.first {
            Some(dc) => match this_spec {
                Some(t) => {
                    let unique = match t.first {
                        Some(c) => c != dc,
                        None => true,
                    };
                    unique && d.specializer != t.specializer
                },
                None => true,
            },
            None => false,
        };
        if hit {
            match this_spec {
                Some(t) => assert(spec_unique_against(t, ds@[i as int])),
                None => assert(ds@[i as int].first is Some),
            }
            return true;
        }
        i = i + 1;
    }
    false
}

/// What the builder part of the cardinality section shows.
#[derive(Clone, Copy, Debug, PartialEq, Eq, Structural)]
pub enum BuilderSection {
    /// Nothing: the specialization is the operative's own, or one downstream
    /// stands in the way.
    Hidden,
    /// A note that the slot cannot be specialized further.
    Leaf,
    /// The builder, refining the given target.
    Builder(SpecializationTarget),
}

/// What the builder part of the cardinality section shows for the most
/// derived cardinality specialization (or the template cardinality where
/// there is none).
pub open spec fn spec_builder_section(
    locally_owned: bool,
    downstream_unique: bool,
    childest: Option<CardinalitySpecialization>,
    template: TemplateSlotCardinality,
) -> BuilderSection {
    if locally_owned || downstream_unique {
        BuilderSection::Hidden
    } else {
        let t = match childest {
            Some(spec) => spec_target_of_specialization(spec),
            None => spec_target_of_template(template),
        };
        match t {
            Some(target) => BuilderSection::Builder(target),
            None => BuilderSection::Leaf,
        }
    }
}

/// Decides what the builder part of the cardinality section shows.
pub fn builder_section(
    locally_owned: bool,
    downstream_unique: bool,
    childest: Option<CardinalitySpecialization>,
    template: TemplateSlotCardinality,
) -> (r: BuilderSection)
    ensures
        r == spec_builder_section(locally_owned, downstream_unique, childest, template),
{
    if locally_owned || downstream_unique {
        return BuilderSection::Hidden;
    }
    match builder_target(childest, template) {
        Some(target) => BuilderSection::Builder(target),
        None => BuilderSection::Leaf,
    }
}

/// A specialization (type or cardinality) held by a slot specialization node,
/// with the node it specializes.
#[derive(Clone, Copy, Debug, PartialEq, Eq, Structural)]
pub struct OwnedSpecialization {
    pub id: Uid,
    pub specialized_slot: Uid,
}

/// Whether one of `items` specializes `node` and is not `excluded`.
pub open spec fn owns_other(items: Seq<OwnedSpecialization>, node: Uid, excluded: Option<Uid>) -> bool {
    exists|i: int|
        0 <= i < items.len() && #[trigger] items[i].specialized_slot == node && excluded != Some(items[i].id)
}

/// Whether the specialization node no longer holds anything of its own once
/// the specialization `deleted` of the aspect `aspect` is gone: no slotted
/// instance slotted on it, and no other type or cardinality specialization of
/// it.
pub open spec fn spec_node_obsolete(
    node: Uid,
    slotted_slots: Seq<Uid>,
    type_specs: Seq<OwnedSpecialization>,
    card_specs: Seq<OwnedSpecialization>,
    aspect: Aspect,
    deleted: Uid,
) -> bool {
    &&& !slotted_slots.contains(node)
    &&& !owns_other(type_specs, node, if aspect == Aspect::Type { Some(deleted) } else { None })
    &&& !owns_other(card_specs, node, if aspect == Aspect::Cardinality { Some(deleted) } else { None })
}

fn contains_uid(v: &Vec<Uid>, x: Uid) -> (r: bool)
    ensures
        r == v@.contains(x),
{
    let mut i: usize = 0;
    while i < v.len()
        invariant
            i <= v.len(),
            forall|j: int| 0 <= j < i ==> v@[j] != x,
        decreases v.len() - i,
    {
        if v[i] == x {
            return true;
        }
        i = i + 1;
    }
    false
}

fn owns_other_exec(items: &Vec<OwnedSpecialization>, node: Uid, excluded: Option<Uid>) -> (r: bool)
    ensures
        r == owns_other(items@, node, excluded),
{
    let mut i: usize = 0;
    while i < items.len()
        invariant
            i <= items.len(),
            forall|j: int| 0 <= j < i ==> !(#[trigger] items@[j].specialized_slot == node && excluded != Some(items@[j].id)),
        decreases items.len() - i,
    {
        let it = items[i];
        let is_excluded = match excluded {
            Some(e) => e == it.id,
            None => false,
        };
        if it.specialized_slot == node && !is_excluded {
            assert(items@[i as int].specialized_slot == node && excluded != Some(items@[i as int].id));
            return true;
        }
        i = i + 1;
    }
    false
}

/// Whether the slot specialization node is obsolete once the specialization
/// `deleted` of `aspect` is gone. `slotted_slots` holds the slotted slot of each
/// of its slotted instances; `type_specs` and `card_specs` its type and
/// cardinality specializations.
pub fn is_slot_specialization_node_obsolete(
    node: Uid,
    slotted_slots: &Vec<Uid>,
    type_specs: &Vec<OwnedSpecialization>,
    card_specs: &Vec<OwnedSpecialization>,
    aspect: Aspect,
    deleted: Uid,
) -> (r: bool)
    ensures
        r == spec_node_obsolete(node, slotted_slots@, type_specs@, card_specs@, aspect, deleted),
{
    let type_excluded = match aspect {
        Aspect::Type => Some(deleted),
        Aspect::Cardinality => None,
    };
    let card_excluded = match aspect {
        Aspect::Type => None,
        Aspect::Cardinality => Some(deleted),
    };
    !contains_uid(slotted_slots, node) && !owns_other_exec(type_specs, node, type_excluded)
        && !owns_other_exec(card_specs, node, card_excluded)
}

/// What a type specialization builds on: one of the template slot's own type
/// variants, or an earlier type specialization.
#[derive(Clone, Copy, Debug, PartialEq, Eq, Structural)]
pub enum TypeUpstream {
    TemplateTraitOperative(Uid),
    TemplateSingleOperative(Uid),
    TemplateMultiOperative(Uid),
    SingleSpecialization(Uid),
    MultiSpecialization(Uid),
    TraitObjectSpecialization(Uid),
}

/// The type specialization that specializations take back when one built on
/// `upstream` is deleted: the upstream one where it is a specialization.
pub open spec fn spec_type_restored(upstream: TypeUpstream) -> Option<Uid> {
    match upstream {
        TypeUpstream::SingleSpecialization(id) => Some(id),
        TypeUpstream::MultiSpecialization(id) => Some(id),
        TypeUpstream::TraitObjectSpecialization(id) => Some(id),
        _ => None,
    }
}

/// The type specialization to take back when one built on `upstream` is
/// deleted.
pub fn type_restored(upstream: TypeUpstream) -> (r: Option<Uid>)
    ensures
        r == spec_type_restored(upstream),
{
    match upstream {
        TypeUpstream::SingleSpecialization(id) => Some(id),
        TypeUpstream::MultiSpecialization(id) => Some(id),
        TypeUpstream::TraitObjectSpecialization(id) => Some(id),
        _ => None,
    }
}

/// A type specialization of a slot, by kind.
#[derive(Clone, Copy, Debug, PartialEq, Eq, Structural)]
pub enum TypeSpecialization {
    Single(Uid),
    Multi(Uid),
    TraitObject(Uid),
}

/// The type variant with which a template declares a slot.
#[derive(Clone, Copy, Debug, PartialEq, Eq, Structural)]
pub enum TemplateSlotType {
    TraitOperative(Uid),
    SingleOperative(Uid),
    MultiOperative(Uid),
}

/// What the type specialization builder refines, if it is shown: nothing
/// where the specialization is the operative's own or one downstream stands
/// in the way; else the most derived type specialization, or the template's
/// type variant where there is none.
pub open spec fn spec_type_builder_target(
    locally_owned: bool,
    downstream_unique: bool,
    childest: Option<TypeSpecialization>,
    template: TemplateSlotType,
) -> Option<TypeUpstream> {
    if locally_owned || downstream_unique {
        None
    } else {
        Some(match childest {
            Some(TypeSpecialization::Single(id)) => TypeUpstream::SingleSpecialization(id),
            Some(TypeSpecialization::Multi(id)) => TypeUpstream::MultiSpecialization(id),
            Some(TypeSpecialization::TraitObject(id)) => TypeUpstream::TraitObjectSpecialization(id),
            None => match template {
                TemplateSlotType::TraitOperative(id) => TypeUpstream::TemplateTraitOperative(id),
                TemplateSlotType::SingleOperative(id) => TypeUpstream::TemplateSingleOperative(id),
                TemplateSlotType::MultiOperative(id) => TypeUpstream::TemplateMultiOperative(id),
            },
        })
    }
}

/// Decides what the type specialization builder refines, if it is shown.
pub fn type_builder_target(
    locally_owned: bool,
    downstream_unique: bool,
    childest: Option<TypeSpecialization>,
    template: TemplateSlotType,
) -> (r: Option<TypeUpstream>)
    ensures
        r == spec_type_builder_target(locally_owned, downstream_unique, childest, template),
{
    if locally_owned || downstream_unique {
        return None;
    }
    Some(match childest {
        Some(TypeSpecialization::Single(id)) => TypeUpstream::SingleSpecialization(id),
        Some(TypeSpecialization::Multi(id)) => TypeUpstream::MultiSpecialization(id),
        Some(TypeSpecialization::TraitObject(id)) => TypeUpstream::TraitObjectSpecialization(id),
        None => match template {
            TemplateSlotType::TraitOperative(id) => TypeUpstream::TemplateTraitOperative(id),
            TemplateSlotType::SingleOperative(id) => TypeUpstream::TemplateSingleOperative(id),
            TemplateSlotType::MultiOperative(id) => TypeUpstream::TemplateMultiOperative(id),
        },
    })
}

/// The cardinality specialization to take back when one built on `upstream`
/// (whose identifier is `upstream_id`) is deleted: the upstream one where it is
/// a specialization rather than the template's own cardinality.
pub open spec fn spec_cardinality_restored(upstream: SpecializationTarget, upstream_id: Uid) -> Option<Uid> {
    if spec_restored_specialization(upstream) is Some {
        Some(upstream_id)
    } else {
        None
    }
}

/// The cardinality specialization to take back when one built on `upstream`
/// is deleted.
pub fn cardinality_restored(upstream: SpecializationTarget, upstream_id: Uid) -> (r: Option<Uid>)
    ensures
        r == spec_cardinality_restored(upstream, upstream_id),
{
    if restored_specialization(upstream).is_some() {
        Some(upstream_id)
    } else {
        None
    }
}

/// A change to the schema that deleting a type or cardinality specialization
/// calls for.
#[derive(Clone, Copy, Debug, PartialEq, Eq, Structural)]
pub enum SpecializationDeleteOp {
    /// The slot specialization node, left with nothing of its own, is removed.
    RemoveSpecializationNode { node: Uid },
    /// The specialization itself is deleted.
    DeleteSpecialization { aspect: Aspect, id: Uid },
    /// The slot specialization `spec` drops the specialization `item`.
    RemoveFromSpecialization { aspect: Aspect, spec: Uid, item: Uid },
    /// The slot specialization `spec` takes the specialization `item`.
    AddToSpecialization { aspect: Aspect, spec: Uid, item: Uid },
}

/// The changes to one slot specialization: it drops its specialization of the
/// aspect, if any, and takes back `restored`, if any.
pub open spec fn spec_ops_for_spec(s: SpecializationSummary, aspect: Aspect, restored: Option<Uid>) -> Seq<SpecializationDeleteOp> {
    (match s.first {
        Some(c) => seq![SpecializationDeleteOp::RemoveFromSpecialization { aspect, spec: s.id, item: c }],
        None => Seq::empty(),
    }) + (match restored {
        Some(u) => seq![SpecializationDeleteOp::AddToSpecialization { aspect, spec: s.id, item: u }],
        None => Seq::empty(),
    })
}

/// Whether the identifier of `specs[k]` occurs earlier in `specs`.
pub open spec fn seen_before(specs: Seq<SpecializationSummary>, k: int) -> bool {
    exists|j: int| 0 <= j < k && #[trigger] specs[j].id == specs[k].id
}

/// The changes to the first `n` specializations, each identifier handled once.
pub open spec fn spec_ops_for_specs(
    specs: Seq<SpecializationSummary>,
    aspect: Aspect,
    restored: Option<Uid>,
    n: nat,
) -> Seq<SpecializationDeleteOp>
    decreases n,
{
    if n == 0 {
        Seq::empty()
    } else {
        spec_ops_for_specs(specs, aspect, restored, (n - 1) as nat) + if seen_before(specs, n - 1) {
            Seq::empty()
        } else {
            spec_ops_for_spec(specs[n - 1], aspect, restored)
        }
    }
}

/// The changes that deleting the specialization `deleted` of `aspect` calls
/// for: the slot specialization node is removed first where it is obsolete,
/// then the specialization is deleted, then each specialization of the slot
/// on the operative and its descendants drops its specialization of the
/// aspect and takes back `restored`, where there is one.
pub open spec fn spec_delete_plan(
    node_obsolete: Option<Uid>,
    aspect: Aspect,
    deleted: Uid,
    restored: Option<Uid>,
    specs: Seq<SpecializationSummary>,
) -> Seq<SpecializationDeleteOp> {
    (match node_obsolete {
        Some(n) => seq![SpecializationDeleteOp::RemoveSpecializationNode { node: n }],
        None => Seq::empty(),
    }) + seq![SpecializationDeleteOp::DeleteSpecialization { aspect, id: deleted }]
        + spec_ops_for_specs(specs, aspect, restored, specs.len())
}

fn seen_in_prefix(specs: &Vec<SpecializationSummary>, k: usize) -> (r: bool)
    requires
        k < specs.len(),
    ensures
        r == seen_before(specs@, k as int),
{
    let mut j: usize = 0;
    while j < k
        invariant
            j <= k < specs.len(),
            forall|m: int| 0 <= m < j ==> specs@[m].id != specs@[k as int].id,
        decreases k - j,
    {
        if specs[j].id == specs[k].id {
            assert(specs@[j as int].id == specs@[k as int].id);
            return true;
        }
        j = j + 1;
    }
    false
}

/// Plans the deletion of the specialization `deleted` of `aspect`.
/// `node_obsolete` names the operative's slot specialization node where it is
/// obsolete (see `is_slot_specialization_node_obsolete`); `restored` is what
/// the specializations take back (see `type_restored` and
/// `cardinality_restored`); `specs` holds the specialization of the slot on the
/// operative and on each descendant.
pub fn plan_delete_specialization(
    node_obsolete: Option<Uid>,
    aspect: Aspect,
    deleted: Uid,
    restored: Option<Uid>,
    specs: &Vec<SpecializationSummary>,
) -> (r: Vec<SpecializationDeleteOp>)
    ensures
        r@ == spec_delete_plan(node_obsolete, aspect, deleted, restored, specs@),
{
    let mut ops: Vec<SpecializationDeleteOp> = Vec::new();
    match node_obsolete {
        Some(n) => ops.push(SpecializationDeleteOp::RemoveSpecializationNode { node: n }),
        None => {},
    }
    ops.push(SpecializationDeleteOp::DeleteSpecialization { aspect, id: deleted });
    let ghost start = ops@;
    let mut k: usize = 0;
    while k < specs.len()
        invariant
            k <= specs.len(),
            ops@ == start + spec_ops_for_specs(specs@, aspect, restored, k as nat),
        decreases specs.len() - k,
    {
        let seen = seen_in_prefix(specs, k);
        let ghost before = ops@;
        if !seen {
            let s = specs[k];
            match s.first {
                Some(c) => ops.push(SpecializationDeleteOp::RemoveFromSpecialization { aspect, spec: s.id, item: c }),
                None => {},
            }
            match restored {
                Some(u) => ops.push(SpecializationDeleteOp::AddToSpecialization { aspect, spec: s.id, item: u }),
                None => {},
            }
            assert(ops@ == before + spec_ops_for_spec(specs@[k as int], aspect, restored));
        } else {
            assert(ops@ == before + Seq::<SpecializationDeleteOp>::empty());
        }
        k = k + 1;
    }
    ops
}

/// Records with one identifier agree.
pub open spec fn consistent_specs(specs: Seq<SpecializationSummary>) -> bool {
    forall|i: int, j: int|
        0 <= i < specs.len() && 0 <= j < specs.len() && #[trigger] specs[i].id == #[trigger] specs[j].id
            ==> specs[i] == specs[j]
}

proof fn lemma_ops_for_specs_cover(
    specs: Seq<SpecializationSummary>,
    aspect: Aspect,
    restored: Option<Uid>,
    n: nat,
)
    requires
        n <= specs.len(),
        consistent_specs(specs),
    ensures
        forall|i: int| 0 <= i < n ==> {
            let ops = spec_ops_for_specs(specs, aspect, restored, n);
            &&& (#[trigger] specs[i].first matches Some(c) ==> ops.contains(
                SpecializationDeleteOp::RemoveFromSpecialization { aspect, spec: specs[i].id, item: c },
            ))
            &&& (restored matches Some(u) ==> ops.contains(
                SpecializationDeleteOp::AddToSpecialization { aspect, spec: specs[i].id, item: u },
            ))
        },
    decreases n,
{
    if n > 0 {
        let m = (n - 1) as nat;
        lemma_ops_for_specs_cover(specs, aspect, restored, m);
        let prev = spec_ops_for_specs(specs, aspect, restored, m);
        let ops = spec_ops_for_specs(specs, aspect, restored, n);
        let tail = if seen_before(specs, m as int) {
            Seq::empty()
        } else {
            spec_ops_for_spec(specs[m as int], aspect, restored)
        };
        assert(ops == prev + tail);
        assert forall|x: SpecializationDeleteOp| prev.contains(x) implies ops.contains(x) by {
            let k = choose|k: int| 0 <= k < prev.len() && prev[k] == x;
            assert(ops[k] == x);
        }
        let s = specs[m as int];
        if seen_before(specs, m as int) {
            let j = choose|j: int| 0 <= j < m && #[trigger] specs[j].id == specs[m as int].id;
            assert(specs[j] == specs[m as int]);
        } else {
            let own = spec_ops_for_spec(s, aspect, restored);
            assert forall|x: SpecializationDeleteOp| own.contains(x) implies ops.contains(x) by {
                let k = choose|k: int| 0 <= k < own.len() && own[k] == x;
                assert(ops[prev.len() + k] == x);
            }
            match s.first {
                Some(c) => {
                    assert(own[0] == SpecializationDeleteOp::RemoveFromSpecialization { aspect, spec: s.id, item: c });
                    if let Some(u) = restored {
                        assert(own[1] == SpecializationDeleteOp::AddToSpecialization { aspect, spec: s.id, item: u });
                    }
                },
                None => {
                    if let Some(u) = restored {
                        assert(own[0] == SpecializationDeleteOp::AddToSpecialization { aspect, spec: s.id, item: u });
                    }
                },
            }
        }
    }
}

proof fn lemma_no_additions(
    specs: Seq<SpecializationSummary>,
    aspect: Aspect,
    n: nat,
)
    requires
        n <= specs.len(),
    ensures
        forall|k: int| 0 <= k < spec_ops_for_specs(specs, aspect, None, n).len()
            ==> !(#[trigger] spec_ops_for_specs(specs, aspect, None, n)[k] is AddToSpecialization),
    decreases n,
{
    if n > 0 {
        lemma_no_additions(specs, aspect, (n - 1) as nat);
    }
}

/// Deleting a specialization reaches every specialization of the slot on the
/// operative and its descendants: each drops the specialization of the aspect
/// that it held, and each takes back the restored one where there is one;
/// where there is none, nothing is added anywhere.
pub proof fn lemma_delete_plan_reaches_every_specialization(
    node_obsolete: Option<Uid>,
    aspect: Aspect,
    deleted: Uid,
    restored: Option<Uid>,
    specs: Seq<SpecializationSummary>,
    i: int,
)
    requires
        consistent_specs(specs),
        0 <= i < specs.len(),
    ensures
        specs[i].first matches Some(c) ==> spec_delete_plan(node_obsolete, aspect, deleted, restored, specs).contains(
            SpecializationDeleteOp::RemoveFromSpecialization { aspect, spec: specs[i].id, item: c },
        ),
        restored matches Some(u) ==> spec_delete_plan(node_obsolete, aspect, deleted, restored, specs).contains(
            SpecializationDeleteOp::AddToSpecialization { aspect, spec: specs[i].id, item: u },
        ),
        restored is None ==> forall|x: SpecializationDeleteOp|
            #[trigger] spec_delete_plan(node_obsolete, aspect, deleted, restored, specs).contains(x)
                ==> !(x is AddToSpecialization),
{
    lemma_ops_for_specs_cover(specs, aspect, restored, specs.len());
    let head = (match node_obsolete {
        Some(n) => seq![SpecializationDeleteOp::RemoveSpecializationNode { node: n }],
        None => Seq::empty(),
    }) + seq![SpecializationDeleteOp::DeleteSpecialization { aspect, id: deleted }];
    let body = spec_ops_for_specs(specs, aspect, restored, specs.len());
    let plan = spec_delete_plan(node_obsolete, aspect, deleted, restored, specs);
    assert(plan == head + body);
    assert forall|x: SpecializationDeleteOp| body.contains(x) implies plan.contains(x) by {
        let k = choose|k: int| 0 <= k < body.len() && body[k] == x;
        assert(plan[head.len() + k] == x);
    }
    if restored is None {
        lemma_no_additions(specs, aspect, specs.len());
        assert forall|x: SpecializationDeleteOp| plan.contains(x) implies !(x is AddToSpecialization) by {
            let k = choose|k: int| 0 <= k < plan.len() && plan[k] == x;
            if k >= head.len() {
                assert(body[k - head.len()] == x);
            }
        }
    }
}

/// The identifier of a type specialization.
pub open spec fn type_spec_id(ts: TypeSpecialization) -> Uid {
    match ts {
        TypeSpecialization::Single(id) => id,
        TypeSpecialization::Multi(id) => id,
        TypeSpecialization::TraitObject(id) => id,
    }
}

/// Refining and then deleting the refinement gives back what was refined:
/// where the builder refined the most derived type specialization, deleting
/// the new one restores exactly that specialization, of whatever kind; where
/// it refined the template's own type, nothing is restored.
pub proof fn lemma_type_refine_then_restore(childest: Option<TypeSpecialization>, template: TemplateSlotType)
    ensures
        spec_type_restored(spec_type_builder_target(false, false, childest, template).unwrap()) == match childest {
            Some(ts) => Some(type_spec_id(ts)),
            None => None::<Uid>,
        },
{
}

/// Deleting a type specialization that refined the type specialization `ts`
/// gives `ts` back to every slot specialization on the operative and its
/// descendants.
pub proof fn lemma_type_delete_gives_back_refined(
    ts: TypeSpecialization,
    template: TemplateSlotType,
    node_obsolete: Option<Uid>,
    deleted: Uid,
    specs: Seq<SpecializationSummary>,
    i: int,
)
    requires
        consistent_specs(specs),
        0 <= i < specs.len(),
    ensures
        spec_delete_plan(
            node_obsolete,
            Aspect::Type,
            deleted,
            spec_type_restored(spec_type_builder_target(false, false, Some(ts), template).unwrap()),
            specs,
        ).contains(SpecializationDeleteOp::AddToSpecialization { aspect: Aspect::Type, spec: specs[i].id, item: type_spec_id(ts) }),
{
    lemma_type_refine_then_restore(Some(ts), template);
    lemma_delete_plan_reaches_every_specialization(
        node_obsolete,
        Aspect::Type,
        deleted,
        spec_type_restored(spec_type_builder_target(false, false, Some(ts), template).unwrap()),
        specs,
        i,
    );
}

} // verus!
