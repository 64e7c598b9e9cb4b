use vstd::prelude::*;
use crate::ids::Uid;
use crate::operative_tree::{MethodImplRef, OperativeForest};

verus! {

impl OperativeForest {
    /// The first method implementation of operative `i` that implements `def`.
    pub open spec fn first_impl_of(&self, i: int, def: Uid) -> Option<Uid> {
        let impls = self.nodes@[i].method_impls@;
        if exists|j: int| 0 <= j < impls.len() && #[trigger] impls[j].definition == def {
            let j = choose|j: int|
                0 <= j < impls.len() && #[trigger] impls[j].definition == def
                    && forall|k: int| 0 <= k < j ==> impls[k].definition != def;
            Some(impls[j].id)
        } else {
            None
        }
    }

    /// The method implementations of `def` that operative `i` may use, its
    /// own first, then that of each ancestor from the parent upwards (each
    /// operative contributes its first implementation of `def`, if any).
    pub open spec fn impl_options(&self, i: int, def: Uid) -> Seq<Uid>
        decreases i,
    {
        if 0 <= i < self.len() {
            (match self.first_impl_of(i, def) {
                Some(m) => seq![m],
                None => Seq::<Uid>::empty(),
            }) + match self.nodes@[i].parent {
                Some(p) => if 0 <= p < i {
                    self.impl_options(p as int, def)
                } else {
                    Seq::<Uid>::empty()
                },
                None => Seq::<Uid>::empty(),
            }
        } else {
            Seq::<Uid>::empty()
        }
    }
}

/// The first method implementation of operative `op` that implements `def`.
fn first_impl_of(forest: &OperativeForest, op: usize, def: Uid) -> (r: Option<Uid>)
    requires
        op < forest.len(),
    ensures
        r == forest.first_impl_of(op as int, def),
{
    let impls = &forest.nodes[op].method_impls;
    let mut i: usize = 0;
    while i < impls.len()
        invariant
            impls == forest.nodes@[op as int].method_impls,
            i <= impls@.len(),
            forall|k: int| 0 <= k < i ==> (#[trigger] impls@[k]).definition != def,
        decreases impls@.len() - i,
    {
        if impls[i].definition == def {
            proof {
                let ghost s = impls@;
                assert(s[i as int].definition == def);
                let j = choose|j: int|
                    0 <= j < s.len() && #[trigger] s[j].definition == def
                        && forall|k: int| 0 <= k < j ==> s[k].definition != def;
                assert(j == i) by {
                    if j < i {
                        assert(s[j].definition != def);
                    }
                    if j > i {
                        assert(s[i as int].definition != def);
                    }
                }
            }
            return Some(impls[i].id);
        }
        i = i + 1;
    }
    None
}

/// The method implementations that a trait implementation on operative `op`
/// may use for the required method `def`: the operative's own, then each
/// ancestor's from the parent upwards.
pub fn method_impl_options(forest: &OperativeForest, op: usize, def: Uid) -> (r: Vec<Uid>)
    requires
        forest.wf(),
        op < forest.len(),
    ensures
        r@ == forest.impl_options(op as int, def),
{
    let mut out: Vec<Uid> = Vec::new();
    let mut cur: usize = op;
    loop
        invariant_except_break
            out@ + forest.impl_options(cur as int, def) == forest.impl_options(op as int, def),
        invariant
            forest.wf(),
            cur < forest.len(),
        ensures
            out@ == forest.impl_options(op as int, def),
        decreases cur,
    {
        let own = first_impl_of(forest, cur, def);
        let ghost before = out@;
        let ghost own_seq = match own {
            Some(m) => seq![m],
            None => Seq::<Uid>::empty(),
        };
        match own {
            Some(m) => out.push(m),
            None => {},
        }
        assert(out@ == before + own_seq);
        match forest.nodes[cur].parent {
            Some(p) => {
                assert(p < cur);
                assert(forest.impl_options(cur as int, def) == own_seq + forest.impl_options(p as int, def));
                assert(out@ + forest.impl_options(p as int, def) =~= before + forest.impl_options(cur as int, def));
                cur = p;
            },
            None => {
                assert(forest.impl_options(cur as int, def) == own_seq + Seq::<Uid>::empty());
                assert(out@ =~= before + forest.impl_options(cur as int, def));
                break;
            },
        }
    }
    out
}

/// Whether every required method of the trait has an implementation
/// selected.
pub fn is_trait_fulfilled(selections: &Vec<Option<Uid>>) -> (r: bool)
    ensures
        r == forall|i: int| 0 <= i < selections@.len() ==> (#[trigger] selections@[i]) is Some,
{
    let mut i: usize = 0;
    while i < selections.len()
        invariant
            i <= selections@.len(),
            forall|k: int| 0 <= k < i ==> (#[trigger] selections@[k]) is Some,
        decreases selections@.len() - i,
    {
        if selections[i].is_none() {
            return false;
        }
        i = i + 1;
    }
    true
}

/// The name a new trait implementation starts with: the operative's name
/// followed by the trait's.
pub fn default_trait_impl_name(operative_name: &str, trait_name: &str) -> (r: String)
    ensures
        r@ == operative_name@ + trait_name@,
{
    String::from_str(operative_name).concat(trait_name)
}

/// A new trait implementation: its name and documentation, the trait it
/// implements, the operative implementing it, and the method implementation
/// chosen for each required method, in the trait's order.
#[derive(Clone, Debug)]
pub struct TraitImplPlan {
    pub name: String,
    pub documentation: String,
    pub trait_definition: Uid,
    pub implementing_operative: Uid,
    pub method_impls: Vec<Uid>,
}

/// The new trait implementation that saving creates, or `None` (nothing
/// saved) while some required method has no implementation selected.
pub fn plan_trait_implementation(
    name: String,
    documentation: String,
    trait_definition: Uid,
    implementing_operative: Uid,
    selections: &Vec<Option<Uid>>,
) -> (r: Option<TraitImplPlan>)
    ensures
        r is None <==> exists|i: int| 0 <= i < selections@.len() && (#[trigger] selections@[i]) is None,
        r matches Some(p) ==> {
            &&& p.name@ == name@
            &&& p.documentation@ == documentation@
            &&& p.trait_definition == trait_definition
            &&& p.implementing_operative == implementing_operative
            &&& p.method_impls@.len() == selections@.len()
            &&& forall|i: int| 0 <= i < selections@.len() ==> selections@[i] == Some(#[trigger] p.method_impls@[i])
        },
{
    let mut impls: Vec<Uid> = Vec::new();
    let mut i: usize = 0;
    while i < selections.len()
        invariant
            i <= selections@.len(),
            impls@.len() == i,
            forall|k: int| 0 <= k < i ==> selections@[k] == Some(#[trigger] impls@[k]),
        decreases selections@.len() - i,
    {
        match selections[i] {
            Some(m) => impls.push(m),
            None => {
                assert(selections@[i as int] is None);
                return None;
            },
        }
        i = i + 1;
    }
    assert forall|k: int| 0 <= k < selections@.len() implies !(#[trigger] selections@[k] is None) by {
        assert(selections@[k] == Some(impls@[k]));
    }
    Some(TraitImplPlan { name, documentation, trait_definition, implementing_operative, method_impls: impls })
}

/// Whether the button that starts a new method implementation is disabled:
/// no function is selected, or one of the operative's method
/// implementations carries the selected function's identifier.
pub fn is_add_method_implementation_disabled(selected: Option<Uid>, impl_ids: &Vec<Uid>) -> (r: bool)
    ensures
        r == match selected {
            None => true,
            Some(s) => impl_ids@.contains(s),
        },
{
    match selected {
        None => true,
        Some(s) => {
            let mut i: usize = 0;
            while i < impl_ids.len()
                invariant
                    selected == Some(s),
                    i <= impl_ids@.len(),
                    forall|k: int| 0 <= k < i ==> impl_ids@[k] != s,
                decreases impl_ids@.len() - i,
            {
                if impl_ids[i] == s {
                    assert(impl_ids@[i as int] == s);
                    return true;
                }
                i = i + 1;
            }
            false
        },
    }
}

proof fn lemma_first_witness(s: Seq<MethodImplRef>, def: Uid, w: int)
    requires
        0 <= w < s.len(),
        s[w].definition == def,
    ensures
        exists|j: int|
            0 <= j < s.len() && #[trigger] s[j].definition == def
                && forall|k: int| 0 <= k < j ==> s[k].definition != def,
    decreases w,
{
    if exists|k: int| 0 <= k < w && #[trigger] s[k].definition == def {
        let k = choose|k: int| 0 <= k < w && #[trigger] s[k].definition == def;
        lemma_first_witness(s, def, k);
    } else {
        assert(forall|k: int| 0 <= k < w ==> s[k].definition != def);
    }
}

/// Every option offered for a required method implements it, and belongs to
/// the operative or one of its ancestors.
pub proof fn lemma_impl_options_implement(forest: &OperativeForest, i: int, def: Uid, k: int)
    requires
        forest.wf(),
        0 <= i < forest.len(),
        0 <= k < forest.impl_options(i, def).len(),
    ensures
        exists|a: int, j: int|
            0 <= a < forest.len() && 0 <= j < forest.nodes@[a].method_impls@.len()
                && #[trigger] forest.nodes@[a].method_impls@[j] == (MethodImplRef {
                    id: forest.impl_options(i, def)[k],
                    definition: def,
                }),
    decreases i,
{
    let own = match forest.first_impl_of(i, def) {
        Some(m) => seq![m],
        None => Seq::<Uid>::empty(),
    };
    if k < own.len() {
        let impls = forest.nodes@[i].method_impls@;
        let w = choose|w: int| 0 <= w < impls.len() && #[trigger] impls[w].definition == def;
        lemma_first_witness(impls, def, w);
        let j = choose|j: int|
            0 <= j < impls.len() && #[trigger] impls[j].definition == def
                && forall|m: int| 0 <= m < j ==> impls[m].definition != def;
        assert(forest.impl_options(i, def)[k] == impls[j].id);
        let target = MethodImplRef { id: forest.impl_options(i, def)[k], definition: def };
        assert(forest.nodes@[i].method_impls@[j] == target);
    } else {
        match forest.nodes@[i].parent {
            Some(p) => {
                assert(p < i);
                assert(forest.impl_options(i, def) == own + forest.impl_options(p as int, def));
                assert(forest.impl_options(i, def)[k] == forest.impl_options(p as int, def)[k - own.len()]);
                lemma_impl_options_implement(forest, p as int, def, k - own.len());
            },
            None => {
                assert(forest.impl_options(i, def) == own + Seq::<Uid>::empty());
            },
        }
    }
}

} // verus!
