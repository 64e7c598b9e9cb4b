use vstd::prelude::*;
use crate::ids::Uid;
use crate::operative_tree::{LockedField, OperativeForest, recurse_add_locked_field};

verus! {

/// The type of a template field.
#[derive(Clone, Copy, Debug, PartialEq, Eq, Structural)]
pub enum FieldKind {
    Text,
    Bool,
    Int,
}

/// The value of a fulfilled field.
#[derive(Clone, Debug)]
pub enum FieldValue {
    Text(String),
    Bool(bool),
    Int(i32),
}

/// A field value taken as a plain value.
pub enum FieldValueView {
    Text(Seq<char>),
    Bool(bool),
    Int(i32),
}

impl View for FieldValue {
    type V = FieldValueView;

    open spec fn view(&self) -> FieldValueView {
        match self {
            FieldValue::Text(s) => FieldValueView::Text(s@),
            FieldValue::Bool(b) => FieldValueView::Bool(*b),
            FieldValue::Int(i) => FieldValueView::Int(*i),
        }
    }
}

/// The value a newly locked field starts with: an empty text, `true` or zero.
pub open spec fn default_value(kind: FieldKind) -> FieldValueView {
    match kind {
        FieldKind::Text => FieldValueView::Text(Seq::empty()),
        FieldKind::Bool => FieldValueView::Bool(true),
        FieldKind::Int => FieldValueView::Int(0),
    }
}

/// A change to the schema that locking a field calls for.
#[derive(Clone, Debug)]
pub enum LockFieldOp {
    /// The new fulfilled field of type `kind` with `value`, fulfilled by
    /// `fulfiller` for the template field `constraint`, locked on `fulfiller`.
    NewLockedField { kind: FieldKind, value: FieldValue, fulfiller: Uid, constraint: Uid },
    /// The operative locks the new fulfilled field too.
    AddLockedField { operative: Uid },
}

/// A lock change taken as plain values.
pub enum LockFieldOpView {
    NewLockedField { kind: FieldKind, value: FieldValueView, fulfiller: Uid, constraint: Uid },
    AddLockedField { operative: Uid },
}

impl View for LockFieldOp {
    type V = LockFieldOpView;

    open spec fn view(&self) -> LockFieldOpView {
        match self {
            LockFieldOp::NewLockedField { kind, value, fulfiller, constraint } => LockFieldOpView::NewLockedField {
                kind: *kind,
                value: value@,
                fulfiller: *fulfiller,
                constraint: *constraint,
            },
            LockFieldOp::AddLockedField { operative } => LockFieldOpView::AddLockedField { operative: *operative },
        }
    }
}

/// The lock changes taken as plain values.
pub open spec fn lock_op_views(ops: Seq<LockFieldOp>) -> Seq<LockFieldOpView> {
    ops.map_values(|o: LockFieldOp| o@)
}

/// The changes that locking the template field `field` of type `kind` on the
/// operative at `op` calls for: one new fulfilled field, with the default
/// value, fulfilled by the operative for that field, and every operative
/// below it, in depth-first order, locking it too.
pub open spec fn lock_ops(forest: OperativeForest, op: int, field: Uid, kind: FieldKind) -> Seq<LockFieldOpView> {
    seq![
        LockFieldOpView::NewLockedField {
            kind,
            value: default_value(kind),
            fulfiller: forest.nodes@[op].id,
            constraint: field,
        },
    ] + forest.pre_order_all(forest.kids(op), forest.kids(op).len()).map_values(
        |d: usize| LockFieldOpView::AddLockedField { operative: forest.nodes@[d as int].id },
    )
}

/// The changes that locking the template field `field` of type `kind` on the
/// operative at position `op` calls for.
pub fn plan_lock_field(forest: &OperativeForest, op: usize, field: Uid, kind: FieldKind) -> (ops: Vec<LockFieldOp>)
    requires
        forest.wf(),
        op < forest.len(),
    ensures
        lock_op_views(ops@) == lock_ops(*forest, op as int, field, kind),
        forall|d: usize| forest.under_any(forest.kids(op as int), d as int) ==> lock_op_views(ops@).contains(
            LockFieldOpView::AddLockedField { operative: #[trigger] forest.nodes@[d as int].id },
        ),
{
    let value = match kind {
        FieldKind::Text => FieldValue::Text(String::new()),
        FieldKind::Bool => FieldValue::Bool(true),
        FieldKind::Int => FieldValue::Int(0),
    };
    let me = forest.nodes[op].id;
    let mut ops: Vec<LockFieldOp> = vec![LockFieldOp::NewLockedField { kind, value, fulfiller: me, constraint: field }];
    let kids = &forest.nodes[op].children;
    proof {
        assert forall|k: int| 0 <= k < kids@.len() implies #[trigger] kids@[k] < forest.len() by {
            assert(op < forest.kids(op as int)[k] < forest.len());
        }
    }
    let below = recurse_add_locked_field(forest, kids);
    let ghost order = below@;
    let ghost first = lock_op_views(ops@);
    let mut i: usize = 0;
    while i < below.len()
        invariant
            forest.wf(),
            below@ == order,
            order == forest.pre_order_all(forest.kids(op as int), forest.kids(op as int).len()),
            forall|x: usize| #[trigger] order.contains(x) ==> x < forest.len(),
            i <= order.len(),
            first.len() == 1,
            lock_op_views(ops@) == first + order.take(i as int).map_values(
                |d: usize| LockFieldOpView::AddLockedField { operative: forest.nodes@[d as int].id },
            ),
        decreases order.len() - i,
    {
        let d = below[i];
        assert(order.contains(d));
        let ghost before = ops@;
        ops.push(LockFieldOp::AddLockedField { operative: forest.nodes[d].id });
        proof {
            assert(order.take(i + 1) =~= order.take(i as int).push(d));
            assert(lock_op_views(ops@) =~= lock_op_views(before).push(ops@.last()@));
            assert(lock_op_views(ops@) =~= first + order.take(i + 1).map_values(
                |d: usize| LockFieldOpView::AddLockedField { operative: forest.nodes@[d as int].id },
            ));
        }
        i = i + 1;
    }
    proof {
        assert(order.take(i as int) =~= order);
        assert forall|d: usize| forest.under_any(forest.kids(op as int), d as int) implies lock_op_views(ops@).contains(
            LockFieldOpView::AddLockedField { operative: #[trigger] forest.nodes@[d as int].id },
        ) by {
            assert(below@.contains(d));
            let k = choose|k: int| 0 <= k < order.len() && order[k] == d;
            assert(lock_op_views(ops@)[k + 1] == LockFieldOpView::AddLockedField { operative: forest.nodes@[d as int].id });
        }
        assert(first =~= seq![
            LockFieldOpView::NewLockedField {
                kind,
                value: default_value(kind),
                fulfiller: forest.nodes@[op as int].id,
                constraint: field,
            },
        ]);
    }
    ops
}

/// A change to the schema that creating a derivative operative calls for.
#[derive(Clone, Debug)]
pub enum DerivativeOp {
    /// The new operative named `name`, of the template `root_template`, whose
    /// parent is `parent`.
    NewOperative { name: String, root_template: Uid, parent: Uid },
    /// The parent takes the new operative as a child.
    AddChild { parent: Uid },
    /// The new operative locks the parent's locked field `field` too.
    CarryLockedField { field: Uid },
}

/// A derivative change taken as plain values.
pub enum DerivativeOpView {
    NewOperative { name: Seq<char>, root_template: Uid, parent: Uid },
    AddChild { parent: Uid },
    CarryLockedField { field: Uid },
}

impl View for DerivativeOp {
    type V = DerivativeOpView;

    open spec fn view(&self) -> DerivativeOpView {
        match self {
            DerivativeOp::NewOperative { name, root_template, parent } => DerivativeOpView::NewOperative {
                name: name@,
                root_template: *root_template,
                parent: *parent,
            },
            DerivativeOp::AddChild { parent } => DerivativeOpView::AddChild { parent: *parent },
            DerivativeOp::CarryLockedField { field } => DerivativeOpView::CarryLockedField { field: *field },
        }
    }
}

/// The derivative changes taken as plain values.
pub open spec fn derivative_op_views(ops: Seq<DerivativeOp>) -> Seq<DerivativeOpView> {
    ops.map_values(|o: DerivativeOp| o@)
}

/// The changes that creating a derivative operative of `parent` calls for:
/// the new operative of the same template with `parent` as parent, the parent
/// taking it as a child, and the new operative locking each field that the
/// parent locks, in order, so that no lock is undone below.
pub open spec fn derivative_ops(name: Seq<char>, parent: Uid, root_template: Uid, parent_locked: Seq<LockedField>) -> Seq<DerivativeOpView> {
    seq![
        DerivativeOpView::NewOperative { name, root_template, parent },
        DerivativeOpView::AddChild { parent },
    ] + parent_locked.map_values(|f: LockedField| DerivativeOpView::CarryLockedField { field: f.id })
}

/// The changes that creating a derivative operative named `name` of the
/// operative `parent`, of the template `root_template`, calls for, given the
/// fields the parent locks.
pub fn plan_derivative_operative(name: String, parent: Uid, root_template: Uid, parent_locked: &Vec<LockedField>) -> (ops: Vec<DerivativeOp>)
    ensures
        derivative_op_views(ops@) == derivative_ops(name@, parent, root_template, parent_locked@),
{
    let ghost name_view = name@;
    let mut ops: Vec<DerivativeOp> = vec![
        DerivativeOp::NewOperative { name, root_template, parent },
        DerivativeOp::AddChild { parent },
    ];
    let ghost first = derivative_op_views(ops@);
    let mut i: usize = 0;
    while i < parent_locked.len()
        invariant
            i <= parent_locked@.len(),
            first.len() == 2,
            derivative_op_views(ops@) == first + parent_locked@.take(i as int).map_values(
                |f: LockedField| DerivativeOpView::CarryLockedField { field: f.id },
            ),
        decreases parent_locked@.len() - i,
    {
        let f = parent_locked[i];
        let ghost before = ops@;
        ops.push(DerivativeOp::CarryLockedField { field: f.id });
        proof {
            assert(parent_locked@.take(i + 1) =~= parent_locked@.take(i as int).push(f));
            assert(derivative_op_views(ops@) =~= derivative_op_views(before).push(ops@.last()@));
            assert(derivative_op_views(ops@) =~= first + parent_locked@.take(i + 1).map_values(
                |f: LockedField| DerivativeOpView::CarryLockedField { field: f.id },
            ));
        }
        i = i + 1;
    }
    proof {
        assert(parent_locked@.take(i as int) =~= parent_locked@);
        assert(first =~= seq![
            DerivativeOpView::NewOperative { name: name_view, root_template, parent },
            DerivativeOpView::AddChild { parent },
        ]);
    }
    ops
}

/// A derivative operative carries every field its parent locks: a
/// constraint locked above cannot be unlocked below.
pub proof fn lemma_derivative_keeps_parent_locks(
    name: Seq<char>,
    parent: Uid,
    root_template: Uid,
    parent_locked: Seq<LockedField>,
    k: int,
)
    requires
        0 <= k < parent_locked.len(),
    ensures
        derivative_ops(name, parent, root_template, parent_locked).contains(
            DerivativeOpView::CarryLockedField { field: parent_locked[k].id },
        ),
{
    let all = derivative_ops(name, parent, root_template, parent_locked);
    assert(all[k + 2] == DerivativeOpView::CarryLockedField { field: parent_locked[k].id });
}

} // verus!
