use vstd::prelude::*;
use crate::ids::Uid;

verus! {

/// A field that an operative locks to a value: the field's constraint in the
/// template and the operative that fulfils (owns) the lock.
#[derive(Clone, Copy, Debug, PartialEq, Eq, Structural)]
pub struct LockedField {
    pub id: Uid,
    pub constraint: Uid,
    pub fulfiller: Uid,
}

/// A method implementation of an operative, with the function definition it
/// implements.
#[derive(Clone, Copy, Debug, PartialEq, Eq, Structural)]
pub struct MethodImplRef {
    pub id: Uid,
    pub definition: Uid,
}

/// One operative of the hierarchy, with its relations given as positions in
/// the forest.
#[derive(Clone, Debug)]
pub struct OperativeNode {
    pub id: Uid,
    pub parent: Option<usize>,
    pub children: Vec<usize>,
    pub locked_fields: Vec<LockedField>,
    /// The template slot of each instance slotted on this operative.
    pub slotted_instance_slots: Vec<Uid>,
    /// The method implementations of the operative.
    pub method_impls: Vec<MethodImplRef>,
    /// The trait definition that each trait implementation implements.
    pub trait_impls: Vec<Uid>,
}

/// The operatives of a schema, each child placed after its parent.
#[derive(Clone, Debug)]
pub struct OperativeForest {
    pub nodes: Vec<OperativeNode>,
}

impl OperativeForest {
    /// Parents come before their children, so that the hierarchy has no cycle;
    /// every count fits in a `u32`.
    pub open spec fn wf(&self) -> bool {
        &&& forall|i: int, k: int|
            0 <= i < self.nodes@.len() && 0 <= k < self.nodes@[i].children@.len()
                ==> i < #[trigger] self.nodes@[i].children@[k] < self.nodes@.len()
        &&& forall|i: int|
            0 <= i < self.nodes@.len() && (#[trigger] self.nodes@[i].parent) is Some
                ==> self.nodes@[i].parent.unwrap() < i
        &&& forall|i: int|
            0 <= i < self.nodes@.len() ==> (#[trigger] self.nodes@[i].slotted_instance_slots@.len()) <= u32::MAX
    }

    pub open spec fn len(&self) -> int {
        self.nodes@.len() as int
    }

    pub open spec fn kids(&self, i: int) -> Seq<usize> {
        self.nodes@[i].children@
    }

    /// `d` is `root` or lies below it.
    pub open spec fn in_subtree(&self, root: int, d: int) -> bool
        decreases self.len() - root,
    {
        if 0 <= root < self.len() {
            root == d || exists|k: int|
                0 <= k < self.kids(root).len() && root < #[trigger] self.kids(root)[k] < self.len()
                    && self.in_subtree(self.kids(root)[k] as int, d)
        } else {
            false
        }
    }

    /// The operatives of the subtree of `i` in depth-first order, `i` first,
    /// then the subtree of each child in turn.
    pub open spec fn pre_order(&self, i: int) -> Seq<usize>
        decreases self.len() - i, self.kids(i).len() + 1,
    {
        if 0 <= i < self.len() {
            seq![i as usize] + self.pre_order_list(self.kids(i), i, self.kids(i).len())
        } else {
            Seq::empty()
        }
    }

    /// The subtrees of the first `n` children `ks` of `parent`, one after the
    /// other.
    pub open spec fn pre_order_list(&self, ks: Seq<usize>, parent: int, n: nat) -> Seq<usize>
        decreases self.len() - parent, n,
    {
        if n == 0 || n > ks.len() {
            Seq::empty()
        } else {
            self.pre_order_list(ks, parent, (n - 1) as nat) + if 0 <= parent < ks[n - 1] < self.len() {
                self.pre_order(ks[n - 1] as int)
            } else {
                Seq::empty()
            }
        }
    }

    /// The subtrees of the first `n` operatives of `roots`, each in depth-first
    /// order, one after the other.
    pub open spec fn pre_order_all(&self, roots: Seq<usize>, n: nat) -> Seq<usize>
        decreases n,
    {
        if n == 0 || n > roots.len() {
            Seq::empty()
        } else {
            self.pre_order_all(roots, (n - 1) as nat) + self.pre_order(roots[n - 1] as int)
        }
    }

    /// `d` lies in the subtree of one of the operatives listed in `roots`.
    pub open spec fn under_any(&self, roots: Seq<usize>, d: int) -> bool {
        exists|k: int| 0 <= k < roots.len() && #[trigger] self.in_subtree(roots[k] as int, d)
    }

    /// Operative `i` locks the field whose constraint is `field`.
    pub open spec fn locks_field(&self, i: int, field: Uid) -> bool {
        exists|j: int| 0 <= j < self.nodes@[i].locked_fields@.len()
            && (#[trigger] self.nodes@[i].locked_fields@[j]).constraint == field
    }

    /// Operative `i` has a method implementation of the function `def`.
    pub open spec fn implements(&self, i: int, def: Uid) -> bool {
        exists|j: int| 0 <= j < self.nodes@[i].method_impls@.len()
            && (#[trigger] self.nodes@[i].method_impls@[j]).definition == def
    }

    /// The number of instances slotted on operative `i` for the slot `slot`.
    pub open spec fn slotted_count(&self, i: int, slot: Uid) -> nat {
        self.nodes@[i].slotted_instance_slots@.filter(is_slot(slot)).len()
    }
}

/// Holds of the slot identifier `slot` and nothing else.
pub open spec fn is_slot(slot: Uid) -> spec_fn(Uid) -> bool {
    |s: Uid| s == slot
}

/// Whether operative `i` locks the field whose constraint is `field_id`.
fn node_locks_field(forest: &OperativeForest, i: usize, field_id: Uid) -> (r: bool)
    requires
        i < forest.len(),
    ensures
        r == forest.locks_field(i as int, field_id),
{
    let node = &forest.nodes[i];
    let mut j: usize = 0;
    while j < node.locked_fields.len()
        invariant
            node == forest.nodes@[i as int],
            j <= node.locked_fields@.len(),
            forall|jj: int| 0 <= jj < j ==> (#[trigger] node.locked_fields@[jj]).constraint != field_id,
        decreases node.locked_fields@.len() - j,
    {
        if node.locked_fields[j].constraint == field_id {
            assert(forest.nodes@[i as int].locked_fields@[j as int].constraint == field_id);
            return true;
        }
        j = j + 1;
    }
    false
}

/// Whether some operative in the subtree of `i` locks the field.
fn subtree_locks_field(forest: &OperativeForest, i: usize, field_id: Uid) -> (r: bool)
    requires
        forest.wf(),
        i < forest.len(),
    ensures
        r == exists|d: int| 0 <= d < forest.len() && forest.in_subtree(i as int, d) && forest.locks_field(d, field_id),
    decreases forest.len() - i,
{
    if node_locks_field(forest, i, field_id) {
        assert(forest.in_subtree(i as int, i as int));
        return true;
    }
    let kids = &forest.nodes[i].children;
    let mut k: usize = 0;
    while k < kids.len()
        invariant
            forest.wf(),
            i < forest.len(),
            kids == forest.nodes@[i as int].children,
            k <= kids@.len(),
            forall|kk: int, d: int| 0 <= kk < k && 0 <= d < forest.len() && forest.in_subtree(kids@[kk] as int, d)
                ==> !forest.locks_field(d, field_id),
        decreases kids@.len() - k,
    {
        let c = kids[k];
        assert(i < forest.kids(i as int)[k as int] < forest.len());
        if subtree_locks_field(forest, c, field_id) {
            proof {
                let d = choose|d: int| 0 <= d < forest.len() && forest.in_subtree(c as int, d) && forest.locks_field(d, field_id);
                assert(forest.in_subtree(i as int, d));
            }
            return true;
        }
        k = k + 1;
    }
    assert forall|d: int| 0 <= d < forest.len() && forest.in_subtree(i as int, d)
        implies !forest.locks_field(d, field_id) by {
        if d != i {
            let kk = choose|kk: int| 0 <= kk < forest.kids(i as int).len() && i < #[trigger] forest.kids(i as int)[kk] < forest.len()
                && forest.in_subtree(forest.kids(i as int)[kk] as int, d);
        }
    }
    false
}

/// Whether some operative in the subtrees of `children` locks the field whose
/// constraint is `field_id`.
pub fn recursive_search_for_locked_field(forest: &OperativeForest, children: &Vec<usize>, field_id: Uid) -> (r: bool)
    requires
        forest.wf(),
        forall|k: int| 0 <= k < children@.len() ==> #[trigger] children@[k] < forest.len(),
    ensures
        r == exists|d: int| 0 <= d < forest.len() && forest.under_any(children@, d) && forest.locks_field(d, field_id),
{
    let mut k: usize = 0;
    while k < children.len()
        invariant
            forest.wf(),
            k <= children@.len(),
            forall|k: int| 0 <= k < children@.len() ==> #[trigger] children@[k] < forest.len(),
            forall|kk: int, d: int| 0 <= kk < k && 0 <= d < forest.len() && forest.in_subtree(children@[kk] as int, d)
                ==> !forest.locks_field(d, field_id),
        decreases children@.len() - k,
    {
        if subtree_locks_field(forest, children[k], field_id) {
            proof {
                let d = choose|d: int| 0 <= d < forest.len() && forest.in_subtree(children@[k as int] as int, d) && forest.locks_field(d, field_id);
                assert(forest.under_any(children@, d));
            }
            return true;
        }
        k = k + 1;
    }
    false
}

/// The number of instances slotted on operative `i` for the slot `slot`.
pub fn slotted_count(forest: &OperativeForest, i: usize, slot: Uid) -> (r: u32)
    requires
        forest.wf(),
        i < forest.len(),
    ensures
        r == forest.slotted_count(i as int, slot),
{
    let slots = &forest.nodes[i].slotted_instance_slots;
    let ghost pred = is_slot(slot);
    let mut n: u32 = 0;
    let mut j: usize = 0;
    proof {
        assert(slots@.take(0) =~= Seq::<Uid>::empty());
        reveal(Seq::filter);
    }
    while j < slots.len()
        invariant
            slots == forest.nodes@[i as int].slotted_instance_slots,
            slots@.len() <= u32::MAX,
            pred == is_slot(slot),
            j <= slots@.len(),
            n == slots@.take(j as int).filter(pred).len(),
            n <= j,
        decreases slots@.len() - j,
    {
        proof {
            assert(slots@.take(j + 1) =~= slots@.take(j as int).push(slots@[j as int]));
            slots@.take(j as int).lemma_filter_push(slots@[j as int], pred);
        }
        assert(pred(slots@[j as int]) == (slots@[j as int] == slot));
        if slots[j] == slot {
            n = n + 1;
        }
        j = j + 1;
    }
    proof {
        assert(slots@.take(j as int) =~= slots@);
    }
    n
}

/// The largest number of instances slotted for `slot` on any operative of the
/// subtree of `i`.
fn subtree_max_slotted(forest: &OperativeForest, i: usize, slot: Uid) -> (r: u32)
    requires
        forest.wf(),
        i < forest.len(),
    ensures
        forall|d: int| 0 <= d < forest.len() && forest.in_subtree(i as int, d) ==> r >= forest.slotted_count(d, slot),
        exists|d: int| 0 <= d < forest.len() && forest.in_subtree(i as int, d) && r == forest.slotted_count(d, slot),
    decreases forest.len() - i,
{
    let mut best = slotted_count(forest, i, slot);
    let ghost mut witness: int = i as int;
    assert(forest.in_subtree(i as int, i as int));
    let kids = &forest.nodes[i].children;
    let mut k: usize = 0;
    while k < kids.len()
        invariant
            forest.wf(),
            i < forest.len(),
            kids == forest.nodes@[i as int].children,
            k <= kids@.len(),
            best >= forest.slotted_count(i as int, slot),
            forall|kk: int, d: int| 0 <= kk < k && 0 <= d < forest.len() && forest.in_subtree(kids@[kk] as int, d)
                ==> best >= forest.slotted_count(d, slot),
            0 <= witness < forest.len() && forest.in_subtree(i as int, witness) && best == forest.slotted_count(witness, slot),
        decreases kids@.len() - k,
    {
        let c = kids[k];
        assert(i < forest.kids(i as int)[k as int] < forest.len());
        let b = subtree_max_slotted(forest, c, slot);
        if b > best {
            proof {
                let d = choose|d: int| 0 <= d < forest.len() && forest.in_subtree(c as int, d) && b == forest.slotted_count(d, slot);
                assert(forest.in_subtree(i as int, d));
                witness = d;
            }
            best = b;
        }
        k = k + 1;
    }
    assert forall|d: int| 0 <= d < forest.len() && forest.in_subtree(i as int, d)
        implies best >= forest.slotted_count(d, slot) by {
        if d != i {
            let kk = choose|kk: int| 0 <= kk < forest.kids(i as int).len() && i < #[trigger] forest.kids(i as int)[kk] < forest.len()
                && forest.in_subtree(forest.kids(i as int)[kk] as int, d);
        }
    }
    best
}

/// The largest of `current_largest` and the numbers of instances slotted for
/// `slot` on the operatives in the subtrees of `children`: the fullest
/// operative below the one being edited.
pub fn gather_all_downstream_slotted_instances(
    forest: &OperativeForest,
    children: &Vec<usize>,
    slot: Uid,
    current_largest: u32,
) -> (r: u32)
    requires
        forest.wf(),
        forall|k: int| 0 <= k < children@.len() ==> #[trigger] children@[k] < forest.len(),
    ensures
        r >= current_largest,
        forall|d: int| 0 <= d < forest.len() && forest.under_any(children@, d) ==> r >= forest.slotted_count(d, slot),
        r == current_largest || exists|d: int| 0 <= d < forest.len() && forest.under_any(children@, d) && r == forest.slotted_count(d, slot),
{
    let mut agg = current_largest;
    let mut k: usize = 0;
    while k < children.len()
        invariant
            forest.wf(),
            k <= children@.len(),
            forall|k: int| 0 <= k < children@.len() ==> #[trigger] children@[k] < forest.len(),
            agg >= current_largest,
            forall|kk: int, d: int| 0 <= kk < k && 0 <= d < forest.len() && forest.in_subtree(children@[kk] as int, d)
                ==> agg >= forest.slotted_count(d, slot),
            agg == current_largest || exists|d: int| 0 <= d < forest.len() && forest.under_any(children@, d) && agg == forest.slotted_count(d, slot),
        decreases children@.len() - k,
    {
        let b = subtree_max_slotted(forest, children[k], slot);
        if b > agg {
            proof {
                let d = choose|d: int| 0 <= d < forest.len() && forest.in_subtree(children@[k as int] as int, d) && b == forest.slotted_count(d, slot);
                assert(forest.under_any(children@, d));
            }
            agg = b;
        }
        k = k + 1;
    }
    agg
}

/// Appends the subtree of `i`, in depth-first order, to `out`.
fn collect_subtree(forest: &OperativeForest, i: usize, out: &mut Vec<usize>)
    requires
        forest.wf(),
        i < forest.len(),
    ensures
        final(out)@ == old(out)@ + forest.pre_order(i as int),
        forall|x: usize| #[trigger] final(out)@.contains(x) <==> (old(out)@.contains(x) || forest.in_subtree(i as int, x as int)),
        forall|x: usize| #[trigger] final(out)@.contains(x) ==> x < forest.len() || old(out)@.contains(x),
    decreases forest.len() - i,
{
    assert(forest.in_subtree(i as int, i as int));
    out.push(i);
    let kids = &forest.nodes[i].children;
    let ghost start = out@;
    proof {
        assert(out@ =~= start + forest.pre_order_list(kids@, i as int, 0));
    }
    let mut k: usize = 0;
    while k < kids.len()
        invariant
            forest.wf(),
            i < forest.len(),
            kids == forest.nodes@[i as int].children,
            k <= kids@.len(),
            start == old(out)@.push(i),
            out@ == start + forest.pre_order_list(kids@, i as int, k as nat),
            forall|x: usize| #[trigger] out@.contains(x) <==> (start.contains(x)
                || exists|kk: int| 0 <= kk < k && #[trigger] forest.in_subtree(kids@[kk] as int, x as int)),
            forall|x: usize| #[trigger] out@.contains(x) ==> x < forest.len() || old(out)@.contains(x),
        decreases kids@.len() - k,
    {
        let c = kids[k];
        assert(i < forest.kids(i as int)[k as int] < forest.len());
        let ghost pre = out@;
        collect_subtree(forest, c, out);
        proof {
            assert(forest.pre_order_list(kids@, i as int, (k + 1) as nat) == forest.pre_order_list(kids@, i as int, k as nat)
                + forest.pre_order(c as int));
            assert(out@ =~= start + forest.pre_order_list(kids@, i as int, (k + 1) as nat));
            assert forall|x: usize| out@.contains(x) <==> (start.contains(x)
                || exists|kk: int| 0 <= kk < k + 1 && #[trigger] forest.in_subtree(kids@[kk] as int, x as int)) by {
                assert(out@.contains(x) <==> (pre.contains(x) || forest.in_subtree(c as int, x as int)));
                if forest.in_subtree(c as int, x as int) {
                    assert(forest.in_subtree(kids@[k as int] as int, x as int));
                }
                if exists|kk: int| 0 <= kk < k + 1 && #[trigger] forest.in_subtree(kids@[kk] as int, x as int) {
                    let kk = choose|kk: int| 0 <= kk < k + 1 && #[trigger] forest.in_subtree(kids@[kk] as int, x as int);
                    if kk == k {
                        assert(forest.in_subtree(c as int, x as int));
                    }
                }
            }
        }
        k = k + 1;
    }
    assert forall|x: usize| #[trigger] out@.contains(x) <==> (old(out)@.contains(x) || forest.in_subtree(i as int, x as int)) by {
        assert(start.contains(x) <==> (old(out)@.contains(x) || x == i)) by {
            if start.contains(x) {
                let j = choose|j: int| 0 <= j < start.len() && start[j] == x;
                if j < start.len() - 1 {
                    assert(old(out)@[j] == x);
                }
            }
            if old(out)@.contains(x) {
                let j = choose|j: int| 0 <= j < old(out)@.len() && old(out)@[j] == x;
                assert(start[j] == x);
            }
            if x == i {
                assert(start[start.len() - 1] == i);
            }
        }
        if forest.in_subtree(i as int, x as int) && x != i {
            let kk = choose|kk: int| 0 <= kk < forest.kids(i as int).len() && i < #[trigger] forest.kids(i as int)[kk] < forest.len()
                && forest.in_subtree(forest.kids(i as int)[kk] as int, x as int);
            assert(forest.in_subtree(kids@[kk] as int, x as int));
        }
        if exists|kk: int| 0 <= kk < k && #[trigger] forest.in_subtree(kids@[kk] as int, x as int) {
            let kk = choose|kk: int| 0 <= kk < k && #[trigger] forest.in_subtree(kids@[kk] as int, x as int);
            assert(i < forest.kids(i as int)[kk] < forest.len());
            assert(forest.in_subtree(i as int, x as int));
        }
    }
    assert(out@ =~= old(out)@ + forest.pre_order(i as int));
}

/// The operatives in the subtrees of `children`, in depth-first order: those
/// that take over a field newly locked on their ancestor.
pub fn recurse_add_locked_field(forest: &OperativeForest, children: &Vec<usize>) -> (r: Vec<usize>)
    requires
        forest.wf(),
        forall|k: int| 0 <= k < children@.len() ==> #[trigger] children@[k] < forest.len(),
    ensures
        r@ == forest.pre_order_all(children@, children@.len()),
        forall|x: usize| #[trigger] r@.contains(x) <==> forest.under_any(children@, x as int),
        forall|x: usize| #[trigger] r@.contains(x) ==> x < forest.len(),
{
    let mut out: Vec<usize> = Vec::new();
    let mut k: usize = 0;
    proof {
        assert(out@ =~= forest.pre_order_all(children@, 0));
    }
    while k < children.len()
        invariant
            out@ == forest.pre_order_all(children@, k as nat),
            forest.wf(),
            k <= children@.len(),
            forall|k: int| 0 <= k < children@.len() ==> #[trigger] children@[k] < forest.len(),
            forall|x: usize| #[trigger] out@.contains(x) <==>
                exists|kk: int| 0 <= kk < k && #[trigger] forest.in_subtree(children@[kk] as int, x as int),
            forall|x: usize| #[trigger] out@.contains(x) ==> x < forest.len(),
        decreases children@.len() - k,
    {
        let c = children[k];
        let ghost pre = out@;
        collect_subtree(forest, c, &mut out);
        proof {
            assert(out@ =~= forest.pre_order_all(children@, (k + 1) as nat));
            assert(forall|x: usize| #[trigger] out@.contains(x) <==> (pre.contains(x) || forest.in_subtree(c as int, x as int)));
            assert forall|x: usize| out@.contains(x) <==>
                exists|kk: int| 0 <= kk < k + 1 && #[trigger] forest.in_subtree(children@[kk] as int, x as int) by {
                if forest.in_subtree(c as int, x as int) {
                    assert(forest.in_subtree(children@[k as int] as int, x as int));
                }
                if exists|kk: int| 0 <= kk < k + 1 && #[trigger] forest.in_subtree(children@[kk] as int, x as int) {
                    let kk = choose|kk: int| 0 <= kk < k + 1 && #[trigger] forest.in_subtree(children@[kk] as int, x as int);
                    if kk == k {
                        assert(forest.in_subtree(c as int, x as int));
                    }
                }
            }
        }
        k = k + 1;
    }
    out
}

/// Which implementations an ancestor query looks for.
#[derive(Clone, Copy, Debug, PartialEq, Eq, Structural)]
pub enum ImplKind {
    Method,
    Trait,
}

impl OperativeForest {
    /// Operative `a` has at least one implementation of the given kind.
    pub open spec fn has_impls(&self, a: int, kind: ImplKind) -> bool {
        match kind {
            ImplKind::Method => self.nodes@[a].method_impls@.len() > 0,
            ImplKind::Trait => self.nodes@[a].trait_impls@.len() > 0,
        }
    }

    /// The ancestors of `i` that have implementations of the given kind,
    /// nearest first.
    pub open spec fn ancestors_with_impls(&self, i: int, kind: ImplKind) -> Seq<usize>
        decreases i,
    {
        if 0 <= i < self.len() {
            match self.nodes@[i].parent {
                Some(p) => if 0 <= p < i {
                    (if self.has_impls(p as int, kind) { seq![p] } else { Seq::<usize>::empty() })
                        + self.ancestors_with_impls(p as int, kind)
                } else {
                    Seq::<usize>::empty()
                },
                None => Seq::<usize>::empty(),
            }
        } else {
            Seq::<usize>::empty()
        }
    }

    /// Some operative below `op` locks the field whose constraint is `field`.
    pub open spec fn locked_below(&self, op: int, field: Uid) -> bool {
        exists|d: int| 0 <= d < self.len() && self.under_any(self.kids(op), d) && self.locks_field(d, field)
    }

    /// Fields of the template that `op` leaves unlocked but some descendant locks.
    pub open spec fn dependent_field(&self, op: int) -> spec_fn(Uid) -> bool {
        |x: Uid| !self.locks_field(op, x) && self.locked_below(op, x)
    }

    /// Fields of the template that neither `op` nor any descendant locks.
    pub open spec fn independent_field(&self, op: int) -> spec_fn(Uid) -> bool {
        |x: Uid| !self.locks_field(op, x) && !self.locked_below(op, x)
    }
}

/// The ancestors of operative `op` that carry implementations of the given
/// kind, from the parent upwards.
pub fn ancestors_with_impls(forest: &OperativeForest, op: usize, kind: ImplKind) -> (r: Vec<usize>)
    requires
        forest.wf(),
        op < forest.len(),
    ensures
        r@ == forest.ancestors_with_impls(op as int, kind),
{
    let mut result: Vec<usize> = Vec::new();
    let mut cur = op;
    loop
        invariant
            forest.wf(),
            cur < forest.len(),
            result@ + forest.ancestors_with_impls(cur as int, kind) == forest.ancestors_with_impls(op as int, kind),
        ensures
            result@ == forest.ancestors_with_impls(op as int, kind),
        decreases cur,
    {
        match forest.nodes[cur].parent {
            None => {
                assert(result@ + Seq::<usize>::empty() =~= result@);
                break;
            },
            Some(p) => {
                assert(p < cur);
                let has = match kind {
                    ImplKind::Method => forest.nodes[p].method_impls.len() > 0,
                    ImplKind::Trait => forest.nodes[p].trait_impls.len() > 0,
                };
                let ghost before = result@;
                if has {
                    result.push(p);
                    assert(result@ + forest.ancestors_with_impls(p as int, kind)
                        =~= before + (seq![p] + forest.ancestors_with_impls(p as int, kind)));
                } else {
                    assert(before + (Seq::<usize>::empty() + forest.ancestors_with_impls(p as int, kind))
                        =~= result@ + forest.ancestors_with_impls(p as int, kind));
                }
                cur = p;
            },
        }
    }
    result
}

/// Splits the template's fields that `op` leaves unlocked into those some
/// descendant locks (first) and those left free throughout (second), keeping
/// their order.
pub fn partition_unlocked_fields(forest: &OperativeForest, op: usize, fields: &Vec<Uid>) -> (r: (Vec<Uid>, Vec<Uid>))
    requires
        forest.wf(),
        op < forest.len(),
    ensures
        r.0@ == fields@.filter(forest.dependent_field(op as int)),
        r.1@ == fields@.filter(forest.independent_field(op as int)),
{
    let ghost dep = forest.dependent_field(op as int);
    let ghost ind = forest.independent_field(op as int);
    let mut dependent: Vec<Uid> = Vec::new();
    let mut independent: Vec<Uid> = Vec::new();
    let children = &forest.nodes[op].children;
    proof {
        assert(fields@.take(0) =~= Seq::<Uid>::empty());
        reveal(Seq::filter);
        assert forall|k: int| 0 <= k < children@.len() implies #[trigger] children@[k] < forest.len() by {
            assert(op < forest.kids(op as int)[k]);
        }
    }
    let mut i: usize = 0;
    while i < fields.len()
        invariant
            forest.wf(),
            op < forest.len(),
            children == forest.nodes@[op as int].children,
            forall|k: int| 0 <= k < children@.len() ==> #[trigger] children@[k] < forest.len(),
            dep == forest.dependent_field(op as int),
            ind == forest.independent_field(op as int),
            i <= fields@.len(),
            dependent@ == fields@.take(i as int).filter(dep),
            independent@ == fields@.take(i as int).filter(ind),
        decreases fields@.len() - i,
    {
        let f = fields[i];
        proof {
            assert(fields@.take(i + 1) =~= fields@.take(i as int).push(f));
            fields@.take(i as int).lemma_filter_push(f, dep);
            fields@.take(i as int).lemma_filter_push(f, ind);
        }
        if !node_locks_field(forest, op, f) {
            if recursive_search_for_locked_field(forest, children, f) {
                dependent.push(f);
            } else {
                independent.push(f);
            }
        }
        i = i + 1;
    }
    proof {
        assert(fields@.take(i as int) =~= fields@);
    }
    (dependent, independent)
}

/// Splits the fields locked on operative `op` into those it owns (first) and
/// those it inherits from an ancestor (second), keeping their order.
pub fn partition_locked_fields(forest: &OperativeForest, op: usize) -> (r: (Vec<LockedField>, Vec<LockedField>))
    requires
        op < forest.len(),
    ensures
        r.0@ == forest.nodes@[op as int].locked_fields@.filter(|l: LockedField| l.fulfiller == forest.nodes@[op as int].id),
        r.1@ == forest.nodes@[op as int].locked_fields@.filter(|l: LockedField| l.fulfiller != forest.nodes@[op as int].id),
{
    let node = &forest.nodes[op];
    let ghost owned = |l: LockedField| l.fulfiller == forest.nodes@[op as int].id;
    let ghost inherited = |l: LockedField| l.fulfiller != forest.nodes@[op as int].id;
    let locked = &node.locked_fields;
    let mut a: Vec<LockedField> = Vec::new();
    let mut b: Vec<LockedField> = Vec::new();
    proof {
        assert(locked@.take(0) =~= Seq::<LockedField>::empty());
        reveal(Seq::filter);
    }
    let mut i: usize = 0;
    while i < locked.len()
        invariant
            node == forest.nodes@[op as int],
            locked == node.locked_fields,
            owned == (|l: LockedField| l.fulfiller == forest.nodes@[op as int].id),
            inherited == (|l: LockedField| l.fulfiller != forest.nodes@[op as int].id),
            i <= locked@.len(),
            a@ == locked@.take(i as int).filter(owned),
            b@ == locked@.take(i as int).filter(inherited),
        decreases locked@.len() - i,
    {
        let l = locked[i];
        proof {
            assert(locked@.take(i + 1) =~= locked@.take(i as int).push(l));
            locked@.take(i as int).lemma_filter_push(l, owned);
            locked@.take(i as int).lemma_filter_push(l, inherited);
        }
        if l.fulfiller == node.id {
            a.push(l);
        } else {
            b.push(l);
        }
        i = i + 1;
    }
    proof {
        assert(locked@.take(i as int) =~= locked@);
    }
    (a, b)
}

/// What the implementation lists need to know of a function definition.
#[derive(Clone, Copy, Debug, PartialEq, Eq, Structural)]
pub struct FunctionSignature {
    pub id: Uid,
    /// Some input of the function is `self`.
    pub takes_self: bool,
}

/// Whether `ids` lists `x`.
fn lists(ids: &Vec<Uid>, x: Uid) -> (r: bool)
    ensures
        r == ids@.contains(x),
{
    let mut i: usize = 0;
    while i < ids.len()
        invariant
            i <= ids@.len(),
            forall|j: int| 0 <= j < i ==> ids@[j] != x,
        decreases ids@.len() - i,
    {
        if ids[i] == x {
            assert(ids@[i as int] == x);
            return true;
        }
        i = i + 1;
    }
    false
}

/// Whether operative `op` has a method implementation of the function `def`.
fn implements_definition(forest: &OperativeForest, op: usize, def: Uid) -> (r: bool)
    requires
        op < forest.len(),
    ensures
        r == forest.implements(op as int, def),
{
    let impls = &forest.nodes[op].method_impls;
    let mut i: usize = 0;
    while i < impls.len()
        invariant
            impls == forest.nodes@[op as int].method_impls,
            i <= impls@.len(),
            forall|j: int| 0 <= j < i ==> (#[trigger] impls@[j]).definition != def,
        decreases impls@.len() - i,
    {
        if impls[i].definition == def {
            assert(impls@[i as int].definition == def);
            return true;
        }
        i = i + 1;
    }
    false
}

/// The functions an operative can still implement as methods: those taking
/// `self` that it has no implementation for yet, in the schema's order.
pub fn implementable_functions(forest: &OperativeForest, op: usize, functions: &Vec<FunctionSignature>) -> (r: Vec<FunctionSignature>)
    requires
        op < forest.len(),
    ensures
        r@ == functions@.filter(|f: FunctionSignature| f.takes_self && !forest.implements(op as int, f.id)),
{
    let ghost pred = |f: FunctionSignature| f.takes_self && !forest.implements(op as int, f.id);
    let mut out: Vec<FunctionSignature> = Vec::new();
    proof {
        assert(functions@.take(0) =~= Seq::<FunctionSignature>::empty());
        reveal(Seq::filter);
    }
    let mut i: usize = 0;
    while i < functions.len()
        invariant
            op < forest.len(),
            pred == (|f: FunctionSignature| f.takes_self && !forest.implements(op as int, f.id)),
            i <= functions@.len(),
            out@ == functions@.take(i as int).filter(pred),
        decreases functions@.len() - i,
    {
        let f = functions[i];
        proof {
            assert(functions@.take(i + 1) =~= functions@.take(i as int).push(f));
            functions@.take(i as int).lemma_filter_push(f, pred);
        }
        if f.takes_self && !implements_definition(forest, op, f.id) {
            out.push(f);
        }
        i = i + 1;
    }
    proof {
        assert(functions@.take(i as int) =~= functions@);
    }
    out
}

/// The traits an operative does not implement yet, in the schema's order.
pub fn unimplemented_traits(forest: &OperativeForest, op: usize, traits: &Vec<Uid>) -> (r: Vec<Uid>)
    requires
        op < forest.len(),
    ensures
        r@ == traits@.filter(|t: Uid| !forest.nodes@[op as int].trait_impls@.contains(t)),
{
    let impls = &forest.nodes[op].trait_impls;
    let ghost pred = |t: Uid| !forest.nodes@[op as int].trait_impls@.contains(t);
    let mut out: Vec<Uid> = Vec::new();
    proof {
        assert(traits@.take(0) =~= Seq::<Uid>::empty());
        reveal(Seq::filter);
    }
    let mut i: usize = 0;
    while i < traits.len()
        invariant
            impls == forest.nodes@[op as int].trait_impls,
            pred == (|t: Uid| !forest.nodes@[op as int].trait_impls@.contains(t)),
            i <= traits@.len(),
            out@ == traits@.take(i as int).filter(pred),
        decreases traits@.len() - i,
    {
        let t = traits[i];
        proof {
            assert(traits@.take(i + 1) =~= traits@.take(i as int).push(t));
            traits@.take(i as int).lemma_filter_push(t, pred);
        }
        if !lists(impls, t) {
            out.push(t);
        }
        i = i + 1;
    }
    proof {
        assert(traits@.take(i as int) =~= traits@);
    }
    out
}

impl OperativeForest {
    /// Operative `i` and its ancestors, nearest first.
    pub open spec fn up_lineage(&self, i: usize) -> Seq<usize>
        decreases i,
    {
        if i < self.len() {
            seq![i] + match self.nodes@[i as int].parent {
                Some(p) => if p < i {
                    self.up_lineage(p)
                } else {
                    Seq::<usize>::empty()
                },
                None => Seq::<usize>::empty(),
            }
        } else {
            Seq::<usize>::empty()
        }
    }
}

/// The lineage of operative `op`: its ancestors from the topmost (the one
/// built directly on the root template) down to `op` itself.
pub fn operative_lineage(forest: &OperativeForest, op: usize) -> (r: Vec<usize>)
    requires
        forest.wf(),
        op < forest.len(),
    ensures
        r@ == forest.up_lineage(op).reverse(),
{
    let mut up: Vec<usize> = Vec::new();
    let mut cur = op;
    loop
        invariant_except_break
            up@ + forest.up_lineage(cur) == forest.up_lineage(op),
        invariant
            forest.wf(),
            cur < forest.len(),
        ensures
            up@ == forest.up_lineage(op),
        decreases cur,
    {
        let ghost before = up@;
        up.push(cur);
        match forest.nodes[cur].parent {
            None => {
                assert(forest.up_lineage(cur) =~= seq![cur]);
                assert(up@ =~= before + forest.up_lineage(cur));
                break;
            },
            Some(p) => {
                assert(p < cur);
                assert(forest.up_lineage(cur) =~= seq![cur] + forest.up_lineage(p));
                assert(up@ + forest.up_lineage(p) =~= before + forest.up_lineage(cur));
                cur = p;
            },
        }
    }
    let n = up.len();
    let mut out: Vec<usize> = Vec::new();
    let mut j: usize = 0;
    while j < n
        invariant
            n == up@.len(),
            up@ == forest.up_lineage(op),
            j <= n,
            out@.len() == j,
            forall|k: int| 0 <= k < j ==> out@[k] == up@[n - 1 - k],
        decreases n - j,
    {
        out.push(up[n - 1 - j]);
        j = j + 1;
    }
    proof {
        if n > 0 {
            assert(out@ =~= up@.reverse());
        } else {
            assert(out@ =~= up@.reverse());
        }
    }
    out
}

/// The lineage of an operative follows parent links: it starts with the
/// operative itself (nearest first), each entry is the parent of the one
/// before it, and the last has no parent.
pub proof fn lemma_lineage_follows_parents(forest: &OperativeForest, i: usize)
    requires
        forest.wf(),
        i < forest.len(),
    ensures
        forest.up_lineage(i).len() > 0,
        forest.up_lineage(i)[0] == i,
        forall|k: int| 0 <= k < forest.up_lineage(i).len() ==> #[trigger] forest.up_lineage(i)[k] < forest.len(),
        forall|k: int| 0 <= k < forest.up_lineage(i).len() - 1
            ==> forest.nodes@[#[trigger] forest.up_lineage(i)[k] as int].parent == Some(forest.up_lineage(i)[k + 1]),
        forest.nodes@[forest.up_lineage(i).last() as int].parent is None,
    decreases i,
{
    match forest.nodes@[i as int].parent {
        Some(p) => {
            assert(p < i);
            lemma_lineage_follows_parents(forest, p);
            let rest = forest.up_lineage(p);
            assert(forest.up_lineage(i) == seq![i] + rest);
            assert forall|k: int| 0 <= k < forest.up_lineage(i).len() - 1 implies forest.nodes@[
                #[trigger] forest.up_lineage(i)[k] as int
            ].parent == Some(forest.up_lineage(i)[k + 1]) by {
                assert(forest.up_lineage(i)[k + 1] == rest[k]);
                if k > 0 {
                    assert(forest.up_lineage(i)[k] == rest[k - 1]);
                }
            }
            assert(forest.up_lineage(i).last() == rest.last());
            assert forall|k: int| 0 <= k < forest.up_lineage(i).len() implies #[trigger] forest.up_lineage(i)[k] < forest.len() by {
                if k > 0 {
                    assert(forest.up_lineage(i)[k] == rest[k - 1]);
                }
            }
        },
        None => {
            assert(forest.up_lineage(i) =~= seq![i]);
        },
    }
}

} // verus!
