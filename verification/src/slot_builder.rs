use vstd::prelude::*;
use crate::ids::Uid;
use crate::slot_status::SlotBound;

verus! {

/// What a new template slot admits.
#[derive(Clone, Copy, Debug, PartialEq, Eq, Structural)]
pub enum SlotVariantKind {
    TraitOperative,
    SingleOperative,
    MultiOperative,
}

/// The kind of bounds chosen for a new template slot.
#[derive(Clone, Copy, Debug, PartialEq, Eq, Structural)]
pub enum SlotBoundKind {
    UpperBound,
    RangeOrZero,
    LowerBoundOrZero,
    Range,
    LowerBound,
    Single,
}

/// The bounds of the kind, from the lower and upper bounds entered.
pub open spec fn spec_slot_bound(kind: SlotBoundKind, min: u32, max: u32) -> SlotBound {
    match kind {
        SlotBoundKind::UpperBound => SlotBound::UpperBound { upper_bound: max },
        SlotBoundKind::RangeOrZero => SlotBound::RangeOrZero { lower_bound: min, upper_bound: max },
        SlotBoundKind::LowerBoundOrZero => SlotBound::LowerBoundOrZero { lower_bound: min },
        SlotBoundKind::Range => SlotBound::Range { lower_bound: min, upper_bound: max },
        SlotBoundKind::LowerBound => SlotBound::LowerBound { lower_bound: min },
        SlotBoundKind::Single => SlotBound::Single,
    }
}

/// The bounds of the kind, from the lower and upper bounds entered.
pub fn slot_bound_from_inputs(kind: SlotBoundKind, min: u32, max: u32) -> (r: SlotBound)
    ensures
        r == spec_slot_bound(kind, min, max),
{
    match kind {
        SlotBoundKind::UpperBound => SlotBound::UpperBound { upper_bound: max },
        SlotBoundKind::RangeOrZero => SlotBound::RangeOrZero { lower_bound: min, upper_bound: max },
        SlotBoundKind::LowerBoundOrZero => SlotBound::LowerBoundOrZero { lower_bound: min },
        SlotBoundKind::Range => SlotBound::Range { lower_bound: min, upper_bound: max },
        SlotBoundKind::LowerBound => SlotBound::LowerBound { lower_bound: min },
        SlotBoundKind::Single => SlotBound::Single,
    }
}

fn contains_uid(v: &Vec<Uid>, x: Uid) -> (r: bool)
    ensures
        r == v@.contains(x),
{
    let mut i: usize = 0;
    while i < v.len()
        invariant
            i <= v@.len(),
            forall|j: int| 0 <= j < i ==> v@[j] != x,
        decreases v@.len() - i,
    {
        if v[i] == x {
            assert(v@[i as int] == x);
            return true;
        }
        i = i + 1;
    }
    false
}

/// The selected traits that the schema still has, in the order selected.
pub fn final_selected_traits(selected: &Vec<Uid>, schema_traits: &Vec<Uid>) -> (r: Vec<Uid>)
    ensures
        r@ == selected@.filter(|t: Uid| schema_traits@.contains(t)),
{
    let mut r: Vec<Uid> = Vec::new();
    let mut i: usize = 0;
    while i < selected.len()
        invariant
            i <= selected@.len(),
            r@ == selected@.take(i as int).filter(|t: Uid| schema_traits@.contains(t)),
        decreases selected@.len() - i,
    {
        proof {
            assert(selected@.take(i + 1) =~= selected@.take(i as int).push(selected@[i as int]));
            selected@.take(i as int).lemma_filter_push(selected@[i as int], |t: Uid| schema_traits@.contains(t));
        }
        if contains_uid(schema_traits, selected[i]) {
            r.push(selected[i]);
        }
        i = i + 1;
    }
    proof {
        assert(selected@.take(i as int) =~= selected@);
    }
    r
}

/// The items of `all` not selected yet, in order: what a selection still offers.
pub fn unselected_options(all: &Vec<Uid>, selected: &Vec<Uid>) -> (r: Vec<Uid>)
    ensures
        r@ == all@.filter(|x: Uid| !selected@.contains(x)),
{
    let mut r: Vec<Uid> = Vec::new();
    let mut i: usize = 0;
    while i < all.len()
        invariant
            i <= all@.len(),
            r@ == all@.take(i as int).filter(|x: Uid| !selected@.contains(x)),
        decreases all@.len() - i,
    {
        proof {
            assert(all@.take(i + 1) =~= all@.take(i as int).push(all@[i as int]));
            all@.take(i as int).lemma_filter_push(all@[i as int], |x: Uid| !selected@.contains(x));
        }
        if !contains_uid(selected, all[i]) {
            r.push(all[i]);
        }
        i = i + 1;
    }
    proof {
        assert(all@.take(i as int) =~= all@);
    }
    r
}

/// Adds the selected item, where there is one, to the list.
pub fn add_selected(list: &mut Vec<Uid>, selected: Option<Uid>)
    ensures
        final(list)@ == match selected {
            Some(x) => old(list)@.push(x),
            None => old(list)@,
        },
        old(list)@.no_duplicates() && (selected matches Some(x) ==> !old(list)@.contains(x))
            ==> final(list)@.no_duplicates(),
{
    proof {
        if old(list)@.no_duplicates() && (selected matches Some(x) ==> !old(list)@.contains(x)) {
            lemma_push_keeps_distinct(old(list)@, selected);
        }
    }
    if let Some(x) = selected {
        list.push(x);
    }
}

/// Removes every occurrence of `item` from the list, keeping the order of the
/// rest.
pub fn remove_selected(list: &mut Vec<Uid>, item: Uid)
    ensures
        final(list)@ == old(list)@.filter(|x: Uid| x != item),
        old(list)@.no_duplicates() ==> final(list)@.no_duplicates(),
{
    proof {
        if old(list)@.no_duplicates() {
            lemma_filter_keeps_distinct(old(list)@, |x: Uid| x != item);
        }
    }
    let ghost start = list@;
    let mut kept: Vec<Uid> = Vec::new();
    let mut i: usize = 0;
    while i < list.len()
        invariant
            i <= list@.len(),
            list@ == start,
            kept@ == start.take(i as int).filter(|x: Uid| x != item),
        decreases list@.len() - i,
    {
        proof {
            assert(start.take(i + 1) =~= start.take(i as int).push(start[i as int]));
            start.take(i as int).lemma_filter_push(start[i as int], |x: Uid| x != item);
        }
        if list[i] != item {
            kept.push(list[i]);
        }
        i = i + 1;
    }
    proof {
        assert(start.take(i as int) =~= start);
    }
    *list = kept;
}

/// Whether saving the new slot is not yet possible: a trait slot needs a
/// trait, a single-operative slot its operative, a multi-operative slot at
/// least two operatives.
pub open spec fn spec_new_slot_save_disabled(kind: SlotVariantKind, trait_count: nat, has_single: bool, multi_count: nat) -> bool {
    match kind {
        SlotVariantKind::TraitOperative => trait_count == 0,
        SlotVariantKind::SingleOperative => !has_single,
        SlotVariantKind::MultiOperative => multi_count < 2,
    }
}

/// Whether saving the new slot is not yet possible.
pub fn is_new_slot_save_disabled(
    kind: SlotVariantKind,
    final_traits: &Vec<Uid>,
    single: Option<Uid>,
    multi: &Vec<Uid>,
) -> (r: bool)
    ensures
        r == spec_new_slot_save_disabled(kind, final_traits@.len(), single is Some, multi@.len()),
{
    match kind {
        SlotVariantKind::TraitOperative => final_traits.len() == 0,
        SlotVariantKind::SingleOperative => single.is_none(),
        SlotVariantKind::MultiOperative => multi.len() < 2,
    }
}

/// What a new template slot admits, with the traits or operatives chosen.
#[derive(Clone, Debug)]
pub enum NewSlotVariant {
    TraitOperative(Vec<Uid>),
    SingleOperative(Uid),
    MultiOperative(Vec<Uid>),
}

/// A new slot for a template.
#[derive(Clone, Debug)]
pub struct NewTemplateSlot {
    pub name: String,
    pub variant: NewSlotVariant,
    pub bound: SlotBound,
}

/// The slot that saving the slot builder adds to the template: a trait slot
/// with the final selected traits where there is one, a single-operative slot
/// with the selected operative where there is one, a multi-operative slot with
/// the chosen operatives; bounds of the chosen kind from the entered numbers.
pub fn plan_new_template_slot(
    name: String,
    kind: SlotVariantKind,
    bound_kind: SlotBoundKind,
    min: u32,
    max: u32,
    final_traits: Vec<Uid>,
    single: Option<Uid>,
    multi: Vec<Uid>,
) -> (r: Option<NewTemplateSlot>)
    ensures
        match kind {
            SlotVariantKind::TraitOperative => final_traits@.len() == 0 ==> r is None,
            SlotVariantKind::SingleOperative => single is None ==> r is None,
            SlotVariantKind::MultiOperative => true,
        },
        r matches Some(s) ==> s.name@ == name@ && s.bound == spec_slot_bound(bound_kind, min, max) && match kind {
            SlotVariantKind::TraitOperative => s.variant matches NewSlotVariant::TraitOperative(t) && t@ == final_traits@,
            SlotVariantKind::SingleOperative => s.variant matches NewSlotVariant::SingleOperative(o) && single == Some(o),
            SlotVariantKind::MultiOperative => s.variant matches NewSlotVariant::MultiOperative(m) && m@ == multi@,
        },
        kind == SlotVariantKind::TraitOperative && final_traits@.len() > 0 ==> r is Some,
        kind == SlotVariantKind::SingleOperative && single is Some ==> r is Some,
        kind == SlotVariantKind::MultiOperative ==> r is Some,
{
    let bound = slot_bound_from_inputs(bound_kind, min, max);
    match kind {
        SlotVariantKind::TraitOperative => {
            if final_traits.len() == 0 {
                None
            } else {
                Some(NewTemplateSlot { name, variant: NewSlotVariant::TraitOperative(final_traits), bound })
            }
        },
        SlotVariantKind::SingleOperative => match single {
            Some(op) => Some(NewTemplateSlot { name, variant: NewSlotVariant::SingleOperative(op), bound }),
            None => None,
        },
        SlotVariantKind::MultiOperative => Some(
            NewTemplateSlot { name, variant: NewSlotVariant::MultiOperative(multi), bound },
        ),
    }
}

/// Filtering a list that holds nothing twice gives a list that holds nothing
/// twice.
proof fn lemma_filter_keeps_distinct(s: Seq<Uid>, pred: spec_fn(Uid) -> bool)
    requires
        s.no_duplicates(),
    ensures
        s.filter(pred).no_duplicates(),
    decreases s.len(),
{
    if s.len() == 0 {
        assert(s.filter(pred).len() == 0) by {
            s.lemma_filter_len(pred);
        }
    } else {
        let t = s.drop_last();
        let x = s.last();
        assert(t.no_duplicates()) by {
            assert forall|i: int, j: int| 0 <= i < t.len() && 0 <= j < t.len() && i != j implies t[i] != t[j] by {
                assert(t[i] == s[i] && t[j] == s[j]);
            }
        }
        lemma_filter_keeps_distinct(t, pred);
        assert(s =~= t.push(x));
        t.lemma_filter_push(x, pred);
        if pred(x) {
            let f = t.filter(pred);
            if f.contains(x) {
                t.lemma_filter_contains_rev(pred, x);
                let k = choose|k: int| 0 <= k < t.len() && t[k] == x;
                assert(s[k] == s[s.len() - 1]);
            }
            assert forall|i: int, j: int| 0 <= i < f.push(x).len() && 0 <= j < f.push(x).len() && i != j
                implies f.push(x)[i] != f.push(x)[j] by {
                if i < f.len() && j < f.len() {
                } else if i < f.len() {
                    assert(f.contains(f[i]));
                } else {
                    assert(f.contains(f[j]));
                }
            }
        }
    }
}

/// The selected list never holds an option twice: from a list without
/// repeats, adding an option that the selection still offers, or adding
/// nothing, keeps it without repeats.
pub proof fn lemma_adding_offered_option_keeps_list_distinct(all: Seq<Uid>, list: Seq<Uid>, selected: Option<Uid>)
    requires
        list.no_duplicates(),
        selected matches Some(x) ==> all.filter(|y: Uid| !list.contains(y)).contains(x),
    ensures
        (match selected {
            Some(x) => list.push(x),
            None => list,
        }).no_duplicates(),
{
    if let Some(x) = selected {
        let pred = |y: Uid| !list.contains(y);
        let k = choose|k: int| 0 <= k < all.filter(pred).len() && all.filter(pred)[k] == x;
        all.lemma_filter_pred(pred, k);
        assert(!list.contains(x));
    }
    lemma_push_keeps_distinct(list, selected);
}

/// Adding an item that a list without repeats does not hold, or adding
/// nothing, leaves it without repeats.
proof fn lemma_push_keeps_distinct(list: Seq<Uid>, selected: Option<Uid>)
    requires
        list.no_duplicates(),
        selected matches Some(x) ==> !list.contains(x),
    ensures
        (match selected {
            Some(x) => list.push(x),
            None => list,
        }).no_duplicates(),
{
    if let Some(x) = selected {
        assert forall|i: int, j: int| 0 <= i < list.push(x).len() && 0 <= j < list.push(x).len() && i != j
            implies list.push(x)[i] != list.push(x)[j] by {
            if i < list.len() && j < list.len() {
            } else if i < list.len() {
                assert(list.contains(list[i]));
            } else {
                assert(list.contains(list[j]));
            }
        }
    }
}

/// Removing an item from a list without repeats leaves a list without
/// repeats.
pub proof fn lemma_removing_keeps_list_distinct(list: Seq<Uid>, item: Uid)
    requires
        list.no_duplicates(),
    ensures
        list.filter(|x: Uid| x != item).no_duplicates(),
{
    lemma_filter_keeps_distinct(list, |x: Uid| x != item);
}

} // verus!
