use vstd::prelude::*;
use crate::ids::{Uid, uuid_from_str, uuid_parse, uuid_to_string};
use crate::impl_model::StepKind;
use crate::execution_graph::binary_output_name;
use crate::canvas::{
    CanvasConnection, CanvasField, CanvasGraph, CanvasNode, CanvasSchemaIds, CanvasSlot, DataTypeKind, StepRef,
    find_downstream_steps, find_upstream_steps, get_slot_name_from_id, has_slot_template, id_text,
    check_step_slots_resolve, is_canvas_step_kind, is_impl_step_template_id, linked_steps,
    slot_template_name, step_ref_views, step_slots_resolve, str_eq,
};

verus! {

/// A change to the schema that the canvas calls for.
#[derive(Clone, Debug)]
pub enum PlanOp {
    /// A new method implementation of the function definition `definition` by
    /// the operative `implementor`, under the name `name`.
    NewImplementation { definition: Uid, implementor: Uid, name: String },
    /// A `MapToOutput` terminal from the data node `data` to the function output `output`.
    MapToOutput { terminal: String, output: Uid, data: String },
    /// A `MapFromInput` terminal from the function input `input` to the data node `data`.
    MapFromInput { terminal: String, input: Uid, data: String },
    /// A step, with the data node in each of its slots, by slot name.
    Step { kind: StepKind, step: String, slots: Vec<(String, String)> },
    /// The data node `data` gets the data type node `data_type`.
    DataType { data: String, kind: DataTypeKind, data_type: String },
    /// The data node `data` comes from the step `step`.
    Upstream { data: String, kind: StepKind, step: String },
    /// The data node `data` feeds the step `step`.
    Downstream { data: String, kind: StepKind, step: String },
    /// A data type node without settings.
    PlainType { node: String, kind: DataTypeKind },
    ManualBool { node: String, value: bool },
    ManualInt { node: String, value: u32 },
    ManualString { node: String, value: String },
    /// A collection data type node, with its item type node where the template
    /// is known.
    Collection { node: String, item: Option<(DataTypeKind, String)> },
    /// The single operative a data type node allows.
    AllowedOperative { node: String, operative: Uid },
    /// One of the operatives a data type node allows.
    AllowedOperatives { node: String, operative: Uid },
    /// One of the traits a data type node requires.
    RequiredTrait { node: String, trait_id: Uid },
}

/// A change to the schema, with its texts as character sequences.
pub enum PlanOpView {
    NewImplementation { definition: Uid, implementor: Uid, name: Seq<char> },
    MapToOutput { terminal: Seq<char>, output: Uid, data: Seq<char> },
    MapFromInput { terminal: Seq<char>, input: Uid, data: Seq<char> },
    Step { kind: StepKind, step: Seq<char>, slots: Seq<(Seq<char>, Seq<char>)> },
    DataType { data: Seq<char>, kind: DataTypeKind, data_type: Seq<char> },
    Upstream { data: Seq<char>, kind: StepKind, step: Seq<char> },
    Downstream { data: Seq<char>, kind: StepKind, step: Seq<char> },
    PlainType { node: Seq<char>, kind: DataTypeKind },
    ManualBool { node: Seq<char>, value: bool },
    ManualInt { node: Seq<char>, value: u32 },
    ManualString { node: Seq<char>, value: Seq<char> },
    Collection { node: Seq<char>, item: Option<(DataTypeKind, Seq<char>)> },
    AllowedOperative { node: Seq<char>, operative: Uid },
    AllowedOperatives { node: Seq<char>, operative: Uid },
    RequiredTrait { node: Seq<char>, trait_id: Uid },
}

/// The pairs of texts of a list of named slots.
pub open spec fn named_views(v: Seq<(String, String)>) -> Seq<(Seq<char>, Seq<char>)> {
    v.map_values(|p: (String, String)| (p.0@, p.1@))
}

impl View for PlanOp {
    type V = PlanOpView;

    open spec fn view(&self) -> PlanOpView {
        match self {
            PlanOp::NewImplementation { definition, implementor, name } => PlanOpView::NewImplementation {
                definition: *definition,
                implementor: *implementor,
                name: name@,
            },
            PlanOp::MapToOutput { terminal, output, data } => PlanOpView::MapToOutput {
                terminal: terminal@,
                output: *output,
                data: data@,
            },
            PlanOp::MapFromInput { terminal, input, data } => PlanOpView::MapFromInput {
                terminal: terminal@,
                input: *input,
                data: data@,
            },
            PlanOp::Step { kind, step, slots } => PlanOpView::Step { kind: *kind, step: step@, slots: named_views(slots@) },
            PlanOp::DataType { data, kind, data_type } => PlanOpView::DataType {
                data: data@,
                kind: *kind,
                data_type: data_type@,
            },
            PlanOp::Upstream { data, kind, step } => PlanOpView::Upstream { data: data@, kind: *kind, step: step@ },
            PlanOp::Downstream { data, kind, step } => PlanOpView::Downstream { data: data@, kind: *kind, step: step@ },
            PlanOp::PlainType { node, kind } => PlanOpView::PlainType { node: node@, kind: *kind },
            PlanOp::ManualBool { node, value } => PlanOpView::ManualBool { node: node@, value: *value },
            PlanOp::ManualInt { node, value } => PlanOpView::ManualInt { node: node@, value: *value },
            PlanOp::ManualString { node, value } => PlanOpView::ManualString { node: node@, value: value@ },
            PlanOp::Collection { node, item } => PlanOpView::Collection {
                node: node@,
                item: match item {
                    Some(p) => Some((p.0, p.1@)),
                    None => None,
                },
            },
            PlanOp::AllowedOperative { node, operative } => PlanOpView::AllowedOperative {
                node: node@,
                operative: *operative,
            },
            PlanOp::AllowedOperatives { node, operative } => PlanOpView::AllowedOperatives {
                node: node@,
                operative: *operative,
            },
            PlanOp::RequiredTrait { node, trait_id } => PlanOpView::RequiredTrait { node: node@, trait_id: *trait_id },
        }
    }
}

/// The changes of a list, as views.
pub open spec fn op_views(v: Seq<PlanOp>) -> Seq<PlanOpView> {
    v.map_values(|op: PlanOp| op@)
}

/// The position of the first of `keys` equal to `key`, where there is one.
#[verifier::opaque]
pub open spec fn first_index_of(keys: Seq<Seq<char>>, key: Seq<char>) -> Option<int> {
    if exists|k: int| 0 <= k < keys.len() && #[trigger] keys[k] == key {
        Some(
            choose|k: int|
                0 <= k < keys.len() && keys[k] == key && forall|j: int| 0 <= j < k ==> #[trigger] keys[j] != key,
        )
    } else {
        None
    }
}

/// A scan that stops at `k` finds the first position.
pub proof fn lemma_first_index(keys: Seq<Seq<char>>, key: Seq<char>, k: int)
    requires
        0 <= k < keys.len(),
        keys[k] == key,
        forall|j: int| 0 <= j < k ==> #[trigger] keys[j] != key,
    ensures
        first_index_of(keys, key) == Some(k),
{
    reveal(first_index_of);
    let c = choose|c: int|
        0 <= c < keys.len() && keys[c] == key && forall|j: int| 0 <= j < c ==> #[trigger] keys[j] != key;
    if c < k {
        assert(keys[c] != key);
    } else if c > k {
        assert(keys[k] != key);
    }
}

/// Where a first position exists, some position is a first one.
proof fn lemma_minimal_witness(keys: Seq<Seq<char>>, key: Seq<char>, w: int)
    requires
        0 <= w < keys.len(),
        keys[w] == key,
    ensures
        exists|k: int| 0 <= k < keys.len() && keys[k] == key && forall|j: int| 0 <= j < k ==> #[trigger] keys[j] != key,
    decreases w,
{
    if exists|j: int| 0 <= j < w && keys[j] == key {
        let j = choose|j: int| 0 <= j < w && keys[j] == key;
        lemma_minimal_witness(keys, key, j);
    } else {
        assert(forall|j: int| 0 <= j < w ==> #[trigger] keys[j] != key);
    }
}

/// The first position holds the key.
pub proof fn lemma_first_index_key(keys: Seq<Seq<char>>, key: Seq<char>, k: int)
    requires
        first_index_of(keys, key) == Some(k),
    ensures
        0 <= k < keys.len(),
        keys[k] == key,
{
    reveal(first_index_of);
    let w = choose|w: int| 0 <= w < keys.len() && #[trigger] keys[w] == key;
    lemma_minimal_witness(keys, key, w);
}

/// A scan that finds nothing finds no position.
pub proof fn lemma_no_index(keys: Seq<Seq<char>>, key: Seq<char>)
    requires
        forall|j: int| 0 <= j < keys.len() ==> #[trigger] keys[j] != key,
    ensures
        first_index_of(keys, key) == None::<int>,
{
    reveal(first_index_of);
}

/// The instance identifiers of the nodes of the canvas.
pub open spec fn node_keys(g: CanvasGraph) -> Seq<Seq<char>> {
    g.nodes@.map_values(|n: CanvasNode| n.instance_id@)
}

/// The node of the canvas with the instance identifier `id`.
pub open spec fn node_with(g: CanvasGraph, id: Seq<char>) -> Option<CanvasNode> {
    match first_index_of(node_keys(g), id) {
        Some(k) => Some(g.nodes@[k]),
        None => None,
    }
}

/// The slot template identifiers of the slots of a node.
pub open spec fn slot_keys(node: CanvasNode) -> Seq<Seq<char>> {
    node.slots@.map_values(|s: CanvasSlot| s.slot_template_id@)
}

/// The first slot of the node made from the slot template `tid`.
pub open spec fn slot_with(node: CanvasNode, tid: Seq<char>) -> Option<CanvasSlot> {
    match first_index_of(slot_keys(node), tid) {
        Some(k) => Some(node.slots@[k]),
        None => None,
    }
}

/// The field template identifiers of the fields of a node.
pub open spec fn field_keys(node: CanvasNode) -> Seq<Seq<char>> {
    node.fields@.map_values(|f: CanvasField| f.field_template_id@)
}

/// The value of the first field of the node made from the field template `fid`.
pub open spec fn field_value(node: CanvasNode, fid: Seq<char>) -> Option<Seq<char>> {
    match first_index_of(field_keys(node), fid) {
        Some(k) => Some(node.fields@[k].value@),
        None => None,
    }
}

/// The node of the canvas with the instance identifier `id`, by a scan.
pub fn find_node(g: &CanvasGraph, id: &str) -> (r: Option<usize>)
    ensures
        match r {
            Some(k) => k < g.nodes@.len() && first_index_of(node_keys(*g), id@) == Some(k as int)
                && g.nodes@[k as int].instance_id@ == id@,
            None => first_index_of(node_keys(*g), id@) == None::<int>,
        },
{
    let mut k: usize = 0;
    while k < g.nodes.len()
        invariant
            k <= g.nodes@.len(),
            forall|j: int| 0 <= j < k ==> #[trigger] node_keys(*g)[j] != id@,
        decreases g.nodes@.len() - k,
    {
        if str_eq(g.nodes[k].instance_id.as_str(), id) {
            assert(node_keys(*g)[k as int] == g.nodes@[k as int].instance_id@);
            proof {
                lemma_first_index(node_keys(*g), id@, k as int);
            }
            return Some(k);
        }
        k = k + 1;
    }
    proof {
        lemma_no_index(node_keys(*g), id@);
    }
    None
}

/// The first slot of the node made from the slot template `tid`, by a scan.
fn find_slot(node: &CanvasNode, tid: &str) -> (r: Option<usize>)
    ensures
        match r {
            Some(k) => k < node.slots@.len() && first_index_of(slot_keys(*node), tid@) == Some(k as int)
                && node.slots@[k as int].slot_template_id@ == tid@,
            None => first_index_of(slot_keys(*node), tid@) == None::<int>,
        },
{
    let mut k: usize = 0;
    while k < node.slots.len()
        invariant
            k <= node.slots@.len(),
            forall|j: int| 0 <= j < k ==> #[trigger] slot_keys(*node)[j] != tid@,
        decreases node.slots@.len() - k,
    {
        if str_eq(node.slots[k].slot_template_id.as_str(), tid) {
            assert(slot_keys(*node)[k as int] == node.slots@[k as int].slot_template_id@);
            proof {
                lemma_first_index(slot_keys(*node), tid@, k as int);
            }
            return Some(k);
        }
        k = k + 1;
    }
    proof {
        lemma_no_index(slot_keys(*node), tid@);
    }
    None
}

/// The first field of the node made from the field template `fid`, by a scan.
fn find_field(node: &CanvasNode, fid: &str) -> (r: Option<usize>)
    ensures
        match r {
            Some(k) => k < node.fields@.len() && first_index_of(field_keys(*node), fid@) == Some(k as int)
                && node.fields@[k as int].field_template_id@ == fid@,
            None => first_index_of(field_keys(*node), fid@) == None::<int>,
        },
{
    let mut k: usize = 0;
    while k < node.fields.len()
        invariant
            k <= node.fields@.len(),
            forall|j: int| 0 <= j < k ==> #[trigger] field_keys(*node)[j] != fid@,
        decreases node.fields@.len() - k,
    {
        if str_eq(node.fields[k].field_template_id.as_str(), fid) {
            assert(field_keys(*node)[k as int] == node.fields@[k as int].field_template_id@);
            proof {
                lemma_first_index(field_keys(*node), fid@, k as int);
            }
            return Some(k);
        }
        k = k + 1;
    }
    proof {
        lemma_no_index(field_keys(*node), fid@);
    }
    None
}

/// The value of a run of decimal digits.
pub open spec fn digits_value(s: Seq<char>) -> int
    decreases s.len(),
{
    if s.len() == 0 {
        0
    } else {
        digits_value(s.drop_last()) * 10 + (s.last() as int - '0' as int)
    }
}

/// The text without its leading `+`, where it has one.
pub open spec fn sign_stripped(s: Seq<char>) -> Seq<char> {
    if s.len() > 0 && s[0] == '+' {
        s.drop_first()
    } else {
        s
    }
}

/// Every character of the text is a decimal digit.
pub open spec fn all_digits(t: Seq<char>) -> bool {
    forall|i: int| 0 <= i < t.len() ==> '0' <= #[trigger] t[i] <= '9'
}

/// The number that a text gives as a `u32`: an optional `+`, then one or more
/// decimal digits, of a value that fits.
pub open spec fn decimal_u32(s: Seq<char>) -> Option<u32> {
    let digits = sign_stripped(s);
    if digits.len() > 0 && all_digits(digits) && digits_value(digits) <= u32::MAX {
        Some(digits_value(digits) as u32)
    } else {
        None
    }
}

/// A run of decimal digits has a value of at least zero and of at least the
/// value of any of its prefixes.
proof fn lemma_digits_value_grows(t: Seq<char>, p: int)
    requires
        0 <= p <= t.len(),
        forall|i: int| 0 <= i < t.len() ==> '0' <= #[trigger] t[i] <= '9',
    ensures
        digits_value(t) >= 0,
        digits_value(t) >= digits_value(t.take(p)),
    decreases t.len(),
{
    if t.len() > 0 {
        let u = t.drop_last();
        assert forall|i: int| 0 <= i < u.len() implies '0' <= #[trigger] u[i] <= '9' by {
            assert(u[i] == t[i]);
        }
        if p == t.len() {
            assert(t.take(p) =~= t);
            lemma_digits_value_grows(u, 0);
        } else {
            lemma_digits_value_grows(u, p);
            assert(u.take(p) =~= t.take(p));
        }
        assert('0' <= t.last() <= '9');
    } else {
        assert(t.take(p) =~= t);
    }
}

/// Reads a text as a `u32`, as `u32::from_str` does: an optional `+`, then
/// one or more decimal digits, of a value that fits.
fn parse_u32(s: &str) -> (r: Option<u32>)
    ensures
        r == decimal_u32(s@),
{
    let n = s.unicode_len();
    let mut start: usize = 0;
    if n > 0 && s.get_char(0) == '+' {
        start = 1;
    }
    let ghost digits = s@.subrange(start as int, n as int);
    proof {
        if n > 0 && s@[0] == '+' {
            assert(digits =~= s@.drop_first());
        } else {
            assert(digits =~= s@);
        }
    }
    if start == n {
        return None;
    }
    let mut acc: u64 = 0;
    let mut i: usize = start;
    proof {
        assert(digits.take(0) =~= Seq::<char>::empty());
    }
    while i < n
        invariant
            n == s@.len(),
            start < n,
            start <= i <= n,
            digits == s@.subrange(start as int, n as int),
            digits == sign_stripped(s@),
            forall|j: int| 0 <= j < i - start ==> '0' <= #[trigger] digits[j] <= '9',
            acc == digits_value(digits.take(i - start)),
            acc <= u32::MAX,
        decreases n - i,
    {
        let c = s.get_char(i);
        assert(digits[i - start] == c);
        if c < '0' || c > '9' {
            assert(!('0' <= digits[i - start] <= '9'));
            assert(!all_digits(digits));
            return None;
        }
        let d: u64 = (c as u32 - '0' as u32) as u64;
        let ghost before = digits.take(i - start);
        proof {
            assert(digits.take(i - start + 1).drop_last() =~= before);
            assert(digits.take(i - start + 1).last() == c);
        }
        acc = acc * 10 + d;
        i = i + 1;
        assert(acc == digits_value(digits.take(i - start)));
        if acc > 0xffff_ffff {
            proof {
                if all_digits(digits) {
                    lemma_digits_value_grows(digits, i - start);
                }
            }
            return None;
        }
    }
    proof {
        assert(digits.take(i - start) =~= digits);
        assert(all_digits(digits));
    }
    Some(acc as u32)
}

/// The identifier that a text names, or zero where it names none.
pub open spec fn parsed_or_nil(s: Seq<char>) -> Uid {
    match uuid_parse(s) {
        Some(v) => v,
        None => 0,
    }
}

fn uuid_or_nil(s: &str) -> (r: Uid)
    ensures
        r == parsed_or_nil(s@),
{
    match uuid_from_str(s) {
        Some(v) => v,
        None => 0,
    }
}

/// The texts of the templates of the data types listed in `ids`.
pub open spec fn data_type_keys(ids: CanvasSchemaIds) -> Seq<Seq<char>> {
    ids.data_types@.map_values(|e: (DataTypeKind, Uid)| id_text(e.1))
}

/// The kind of the data type template `template`: that of the first listed data
/// type with that template.
pub open spec fn data_kind_of(ids: CanvasSchemaIds, template: Seq<char>) -> Option<DataTypeKind> {
    match first_index_of(data_type_keys(ids), template) {
        Some(k) => Some(ids.data_types@[k].0),
        None => None,
    }
}

/// Whether a data type kind holds a value set by hand.
pub open spec fn is_manual_kind(k: DataTypeKind) -> bool {
    k == DataTypeKind::ManualBool || k == DataTypeKind::ManualInt || k == DataTypeKind::ManualString
}

/// The listed data type at `k` is one without a value set by hand, of the
/// template `template`.
pub open spec fn plain_type_at(ids: CanvasSchemaIds, template: Seq<char>, k: int) -> bool {
    !is_manual_kind(ids.data_types@[k].0) && id_text(ids.data_types@[k].1) == template
}

/// The kind of the data type template `template` among the data types without
/// a value set by hand.
pub open spec fn plain_kind_of(ids: CanvasSchemaIds, template: Seq<char>) -> Option<DataTypeKind> {
    if exists|k: int| 0 <= k < ids.data_types@.len() && #[trigger] plain_type_at(ids, template, k) {
        Some(
            ids.data_types@[choose|k: int|
                0 <= k < ids.data_types@.len() && plain_type_at(ids, template, k) && forall|j: int|
                    0 <= j < k ==> !#[trigger] plain_type_at(ids, template, j)].0,
        )
    } else {
        None
    }
}

/// The texts of the step templates listed in `ids`.
pub open spec fn step_template_keys(ids: CanvasSchemaIds) -> Seq<Seq<char>> {
    ids.step_templates().map_values(|e: (StepKind, Uid)| id_text(e.1))
}

/// The kind of the step template `template`: that of the first listed step
/// template with that text, the terminals last.
pub open spec fn step_kind_of(ids: CanvasSchemaIds, template: Seq<char>) -> Option<StepKind> {
    match first_index_of(step_template_keys(ids), template) {
        Some(k) => Some(ids.step_templates()[k].0),
        None => None,
    }
}

/// The kind of a data type template, by a scan of `ids`.
fn data_kind_lookup(ids: &CanvasSchemaIds, template: &str) -> (r: Option<DataTypeKind>)
    requires
        ids.wf(),
    ensures
        r == data_kind_of(*ids, template@),
{
    let mut k: usize = 0;
    while k < ids.data_types.len()
        invariant
            ids.wf(),
            k <= ids.data_types@.len(),
            forall|j: int| 0 <= j < k ==> #[trigger] data_type_keys(*ids)[j] != template@,
        decreases ids.data_types@.len() - k,
    {
        let text = uuid_to_string(ids.data_types[k].1);
        if str_eq(text.as_str(), template) {
            proof {
                lemma_first_index(data_type_keys(*ids), template@, k as int);
            }
            return Some(ids.data_types[k].0);
        }
        k = k + 1;
    }
    proof {
        lemma_no_index(data_type_keys(*ids), template@);
    }
    None
}

fn is_manual(k: DataTypeKind) -> (r: bool)
    ensures
        r == is_manual_kind(k),
{
    match k {
        DataTypeKind::ManualBool | DataTypeKind::ManualInt | DataTypeKind::ManualString => true,
        _ => false,
    }
}

/// The kind of a data type template among those without a value set by hand.
fn plain_kind_lookup(ids: &CanvasSchemaIds, template: &str) -> (r: Option<DataTypeKind>)
    requires
        ids.wf(),
    ensures
        r == plain_kind_of(*ids, template@),
{
    let mut k: usize = 0;
    while k < ids.data_types.len()
        invariant
            ids.wf(),
            k <= ids.data_types@.len(),
            forall|j: int| 0 <= j < k ==> !#[trigger] plain_type_at(*ids, template@, j),
        decreases ids.data_types@.len() - k,
    {
        let text = uuid_to_string(ids.data_types[k].1);
        if !is_manual(ids.data_types[k].0) && str_eq(text.as_str(), template) {
            proof {
                assert(plain_type_at(*ids, template@, k as int));
                let c = choose|c: int|
                    0 <= c < ids.data_types@.len() && plain_type_at(*ids, template@, c) && forall|j: int|
                        0 <= j < c ==> !#[trigger] plain_type_at(*ids, template@, j);
                if c < k {
                    assert(!plain_type_at(*ids, template@, c));
                } else if c > k {
                    assert(!plain_type_at(*ids, template@, k as int));
                }
            }
            return Some(ids.data_types[k].0);
        }
        k = k + 1;
    }
    None
}

/// The kind of a step template, by a scan of `ids`.
pub fn step_kind_lookup(ids: &CanvasSchemaIds, template: &str) -> (r: Option<StepKind>)
    requires
        ids.wf(),
    ensures
        r == step_kind_of(*ids, template@),
{
    let n = ids.steps.len();
    let mut k: usize = 0;
    while k < n
        invariant
            ids.wf(),
            n == ids.steps@.len(),
            k <= n,
            forall|j: int| 0 <= j < k ==> #[trigger] step_template_keys(*ids)[j] != template@,
        decreases n - k,
    {
        let text = uuid_to_string(ids.steps[k].1);
        assert(ids.step_templates()[k as int] == ids.steps@[k as int]);
        if str_eq(text.as_str(), template) {
            proof {
                lemma_first_index(step_template_keys(*ids), template@, k as int);
            }
            return Some(ids.steps[k].0);
        }
        k = k + 1;
    }
    assert(ids.step_templates()[n as int] == (StepKind::MapToOutput, ids.map_to_output));
    assert(ids.step_templates()[n + 1] == (StepKind::MapFromInput, ids.map_from_input));
    let out = uuid_to_string(ids.map_to_output);
    if str_eq(out.as_str(), template) {
        proof {
            lemma_first_index(step_template_keys(*ids), template@, n as int);
        }
        return Some(StepKind::MapToOutput);
    }
    let inp = uuid_to_string(ids.map_from_input);
    if str_eq(inp.as_str(), template) {
        proof {
            lemma_first_index(step_template_keys(*ids), template@, n + 1);
        }
        return Some(StepKind::MapFromInput);
    }
    proof {
        assert forall|j: int| 0 <= j < step_template_keys(*ids).len() implies #[trigger] step_template_keys(*ids)[j]
            != template@ by {
            if j < n {
                assert(step_template_keys(*ids)[j] != template@);
            }
        }
        lemma_no_index(step_template_keys(*ids), template@);
    }
    None
}

/// The node that the first connection of the first slot of `node` made from
/// the slot template `tid` leads to.
pub open spec fn first_target_node(g: CanvasGraph, node: CanvasNode, tid: Seq<char>) -> Option<CanvasNode> {
    match slot_with(node, tid) {
        Some(slot) => if slot.connections@.len() > 0 {
            node_with(g, slot.connections@[0].target_node_id@)
        } else {
            None
        },
        None => None,
    }
}

/// For each of `conns` that leads to a node of the canvas, the operative (or,
/// for `traits`, the trait) that the node's template names, given to `node`.
pub open spec fn connection_ops(g: CanvasGraph, node: Seq<char>, conns: Seq<CanvasConnection>, traits: bool) -> Seq<PlanOpView>
    decreases conns.len(),
{
    if conns.len() == 0 {
        Seq::empty()
    } else {
        let rest = connection_ops(g, node, conns.drop_last(), traits);
        match node_with(g, conns.last().target_node_id@) {
            Some(n) => rest.push(
                if traits {
                    PlanOpView::RequiredTrait { node, trait_id: parsed_or_nil(n.template_id@) }
                } else {
                    PlanOpView::AllowedOperatives { node, operative: parsed_or_nil(n.template_id@) }
                },
            ),
            None => rest,
        }
    }
}

/// The change for a data type node whose value is set by hand, from its value
/// field.
pub open spec fn manual_op(ids: CanvasSchemaIds, node: CanvasNode, k: DataTypeKind) -> PlanOpView {
    let temp = node.instance_id@;
    match k {
        DataTypeKind::ManualBool => PlanOpView::ManualBool {
            node: temp,
            value: match field_value(node, id_text(ids.manual_bool_value_field)) {
                Some(v) => v == "true"@,
                None => false,
            },
        },
        DataTypeKind::ManualInt => PlanOpView::ManualInt {
            node: temp,
            value: match field_value(node, id_text(ids.manual_int_value_field)) {
                Some(v) => match decimal_u32(v) {
                    Some(x) => x,
                    None => 0,
                },
                None => 0,
            },
        },
        _ => PlanOpView::ManualString {
            node: temp,
            value: match field_value(node, id_text(ids.manual_string_value_field)) {
                Some(v) => v,
                None => Seq::empty(),
            },
        },
    }
}

/// The changes for a data type node of kind `k` other than a collection.
pub open spec fn leaf_type_ops(g: CanvasGraph, ids: CanvasSchemaIds, node: CanvasNode, k: DataTypeKind) -> Seq<PlanOpView> {
    let temp = node.instance_id@;
    match k {
        DataTypeKind::Bool | DataTypeKind::Int | DataTypeKind::Str => seq![PlanOpView::PlainType { node: temp, kind: k }],
        DataTypeKind::ManualBool | DataTypeKind::ManualInt | DataTypeKind::ManualString => seq![manual_op(ids, node, k)],
        DataTypeKind::SingleOperative => match first_target_node(g, node, id_text(ids.allowed_operative_slot)) {
            Some(op) => seq![PlanOpView::AllowedOperative { node: temp, operative: parsed_or_nil(op.template_id@) }],
            None => Seq::empty(),
        },
        DataTypeKind::MultiOperative => match slot_with(node, id_text(ids.allowed_operatives_slot)) {
            Some(slot) => connection_ops(g, temp, slot.connections@, false),
            None => Seq::empty(),
        },
        DataTypeKind::TraitOperative => match slot_with(node, id_text(ids.required_traits_slot)) {
            Some(slot) => connection_ops(g, temp, slot.connections@, true),
            None => Seq::empty(),
        },
        DataTypeKind::Collection => Seq::empty(),
    }
}

/// The change for a collection data type node whose item type node is `item`.
pub open spec fn collection_op(ids: CanvasSchemaIds, node: CanvasNode, item: CanvasNode) -> PlanOpView {
    PlanOpView::Collection {
        node: node.instance_id@,
        item: match plain_kind_of(ids, node.template_id@) {
            Some(k) => Some((k, item.instance_id@)),
            None => None,
        },
    }
}

/// The changes that the data type node `node` calls for, its collection item
/// types first.
pub open spec fn type_ops(g: CanvasGraph, ids: CanvasSchemaIds, node: CanvasNode, fuel: nat) -> Seq<PlanOpView>
    decreases fuel,
{
    if fuel == 0 {
        Seq::empty()
    } else {
        match data_kind_of(ids, node.template_id@) {
            Some(DataTypeKind::Collection) => match first_target_node(g, node, id_text(ids.collection_type_slot)) {
                Some(item) => type_ops(g, ids, item, (fuel - 1) as nat).push(collection_op(ids, node, item)),
                None => Seq::empty(),
            },
            Some(k) => leaf_type_ops(g, ids, node, k),
            None => Seq::empty(),
        }
    }
}

/// The chain of collection item types from `node` on ends within `fuel` levels.
pub open spec fn type_chain_ends(g: CanvasGraph, ids: CanvasSchemaIds, node: CanvasNode, fuel: nat) -> bool
    decreases fuel,
{
    fuel > 0 && (data_kind_of(ids, node.template_id@) == Some(DataTypeKind::Collection) ==> match first_target_node(
        g,
        node,
        id_text(ids.collection_type_slot),
    ) {
        Some(item) => type_chain_ends(g, ids, item, (fuel - 1) as nat),
        None => true,
    })
}

/// The node that the first connection of the first slot of `node` made from the
/// slot template `tid` leads to, by scans.
fn find_first_target(g: &CanvasGraph, node: &CanvasNode, tid: &str) -> (r: Option<usize>)
    ensures
        match r {
            Some(k) => k < g.nodes@.len() && first_target_node(*g, *node, tid@) == Some(g.nodes@[k as int]),
            None => first_target_node(*g, *node, tid@) == None::<CanvasNode>,
        },
{
    match find_slot(node, tid) {
        Some(si) => {
            let slot = &node.slots[si];
            if slot.connections.len() == 0 {
                return None;
            }
            find_node(g, slot.connections[0].target_node_id.as_str())
        },
        None => None,
    }
}

/// The operatives (or traits) named by the templates of the nodes that the
/// connections lead to, given to the data type node `temp`.
fn connection_changes(g: &CanvasGraph, temp: &String, conns: &Vec<CanvasConnection>, traits: bool) -> (r: Vec<PlanOp>)
    ensures
        op_views(r@) == connection_ops(*g, temp@, conns@, traits),
{
    let mut r: Vec<PlanOp> = Vec::new();
    let mut c: usize = 0;
    while c < conns.len()
        invariant
            c <= conns@.len(),
            op_views(r@) == connection_ops(*g, temp@, conns@.take(c as int), traits),
        decreases conns@.len() - c,
    {
        proof {
            assert(conns@.take(c + 1).drop_last() =~= conns@.take(c as int));
            assert(conns@.take(c + 1).last() == conns@[c as int]);
        }
        match find_node(g, conns[c].target_node_id.as_str()) {
            Some(k) => {
                let id = uuid_or_nil(g.nodes[k].template_id.as_str());
                let op = if traits {
                    PlanOp::RequiredTrait { node: temp.clone(), trait_id: id }
                } else {
                    PlanOp::AllowedOperatives { node: temp.clone(), operative: id }
                };
                let ghost pre = r@;
                r.push(op);
                proof {
                    assert(op_views(r@) =~= op_views(pre).push(op@));
                }
            },
            None => {},
        }
        c = c + 1;
    }
    proof {
        assert(conns@.take(c as int) =~= conns@);
    }
    r
}

/// The change for a data type node whose value is set by hand.
fn manual_change(node: &CanvasNode, ids: &CanvasSchemaIds, k: DataTypeKind) -> (r: PlanOp)
    requires
        ids.wf(),
        is_manual_kind(k),
    ensures
        r@ == manual_op(*ids, *node, k),
{
    let temp = node.instance_id.clone();
    match k {
        DataTypeKind::ManualBool => {
            let fid = uuid_to_string(ids.manual_bool_value_field);
            let value = match find_field(node, fid.as_str()) {
                Some(i) => str_eq(node.fields[i].value.as_str(), "true"),
                None => false,
            };
            PlanOp::ManualBool { node: temp, value }
        },
        DataTypeKind::ManualInt => {
            let fid = uuid_to_string(ids.manual_int_value_field);
            let value = match find_field(node, fid.as_str()) {
                Some(i) => match parse_u32(node.fields[i].value.as_str()) {
                    Some(x) => x,
                    None => 0,
                },
                None => 0,
            };
            PlanOp::ManualInt { node: temp, value }
        },
        _ => {
            let fid = uuid_to_string(ids.manual_string_value_field);
            let value = match find_field(node, fid.as_str()) {
                Some(i) => node.fields[i].value.clone(),
                None => String::new(),
            };
            PlanOp::ManualString { node: temp, value }
        },
    }
}

/// The changes for a data type node of kind `k` other than a collection.
fn leaf_type_changes(node: &CanvasNode, graph: &CanvasGraph, ids: &CanvasSchemaIds, k: DataTypeKind) -> (r: Vec<PlanOp>)
    requires
        ids.wf(),
    ensures
        op_views(r@) == leaf_type_ops(*graph, *ids, *node, k),
{
    let temp = &node.instance_id;
    let r = match k {
        DataTypeKind::Bool | DataTypeKind::Int | DataTypeKind::Str => vec![PlanOp::PlainType { node: temp.clone(), kind: k }],
        DataTypeKind::ManualBool | DataTypeKind::ManualInt | DataTypeKind::ManualString => vec![manual_change(node, ids, k)],
        DataTypeKind::SingleOperative => {
            let tid = uuid_to_string(ids.allowed_operative_slot);
            match find_first_target(graph, node, tid.as_str()) {
                Some(i) => {
                    let id = uuid_or_nil(graph.nodes[i].template_id.as_str());
                    vec![PlanOp::AllowedOperative { node: temp.clone(), operative: id }]
                },
                None => Vec::new(),
            }
        },
        DataTypeKind::MultiOperative => {
            let tid = uuid_to_string(ids.allowed_operatives_slot);
            match find_slot(node, tid.as_str()) {
                Some(si) => connection_changes(graph, temp, &node.slots[si].connections, false),
                None => Vec::new(),
            }
        },
        DataTypeKind::TraitOperative => {
            let tid = uuid_to_string(ids.required_traits_slot);
            match find_slot(node, tid.as_str()) {
                Some(si) => connection_changes(graph, temp, &node.slots[si].connections, true),
                None => Vec::new(),
            }
        },
        DataTypeKind::Collection => Vec::new(),
    };
    proof {
        assert(op_views(r@) =~= leaf_type_ops(*graph, *ids, *node, k));
    }
    r
}

/// The changes that a data type node of the canvas calls for: for a collection,
/// those of its item type first.
pub fn process_data_type(
    data_type_node: &CanvasNode,
    graph: &CanvasGraph,
    ids: &CanvasSchemaIds,
    Ghost(fuel): Ghost<nat>,
) -> (r: Vec<PlanOp>)
    requires
        ids.wf(),
        type_chain_ends(*graph, *ids, *data_type_node, fuel),
    ensures
        op_views(r@) == type_ops(*graph, *ids, *data_type_node, fuel),
    decreases fuel,
{
    let node = data_type_node;
    match data_kind_lookup(ids, node.template_id.as_str()) {
        Some(DataTypeKind::Collection) => {
            let tid = uuid_to_string(ids.collection_type_slot);
            match find_first_target(graph, node, tid.as_str()) {
                Some(i) => {
                    let item = &graph.nodes[i];
                    let mut r = process_data_type(item, graph, ids, Ghost((fuel - 1) as nat));
                    let item_kind = match plain_kind_lookup(ids, node.template_id.as_str()) {
                        Some(kind) => Some((kind, item.instance_id.clone())),
                        None => None,
                    };
                    let op = PlanOp::Collection { node: node.instance_id.clone(), item: item_kind };
                    let ghost pre = r@;
                    r.push(op);
                    proof {
                        assert(op_views(r@) =~= op_views(pre).push(op@));
                    }
                    r
                },
                None => Vec::new(),
            }
        },
        Some(k) => leaf_type_changes(node, graph, ids, k),
        None => Vec::new(),
    }
}

/// For each of `links` whose template is a step template, that the data node
/// `data` comes from the step (`upstream`) or feeds it.
pub open spec fn link_ops(ids: CanvasSchemaIds, data: Seq<char>, links: Seq<StepRef>, upstream: bool) -> Seq<PlanOpView>
    decreases links.len(),
{
    if links.len() == 0 {
        Seq::empty()
    } else {
        let rest = link_ops(ids, data, links.drop_last(), upstream);
        match step_kind_of(ids, links.last().1) {
            Some(k) => rest.push(
                if upstream {
                    PlanOpView::Upstream { data, kind: k, step: links.last().0 }
                } else {
                    PlanOpView::Downstream { data, kind: k, step: links.last().0 }
                },
            ),
            None => rest,
        }
    }
}

/// The changes for the data type of the data node `node`: `None` where its data
/// type slot has no connection or leads nowhere, which ends the processing of
/// the node.
pub open spec fn data_head_ops(g: CanvasGraph, ids: CanvasSchemaIds, node: CanvasNode, fuel: nat) -> Option<Seq<PlanOpView>> {
    match slot_with(node, id_text(ids.data_type_slot)) {
        None => Some(Seq::empty()),
        Some(slot) => if slot.connections@.len() == 0 {
            None
        } else {
            let target = slot.connections@[0].target_node_id@;
            match node_with(g, target) {
                None => None,
                Some(dt) => Some(
                    (match data_kind_of(ids, dt.template_id@) {
                        Some(k) => seq![PlanOpView::DataType { data: node.instance_id@, kind: k, data_type: target }],
                        None => Seq::empty(),
                    }) + type_ops(g, ids, dt, fuel),
                ),
            }
        },
    }
}

/// The changes that the data node `node` calls for: its data type, then the
/// steps it comes from, then the steps it feeds.
pub open spec fn data_node_ops(g: CanvasGraph, ids: CanvasSchemaIds, node: CanvasNode, fuel: nat) -> Seq<PlanOpView> {
    let id = node.instance_id@;
    match data_head_ops(g, ids, node, fuel) {
        None => Seq::empty(),
        Some(head) => head + link_ops(ids, id, linked_steps(g.nodes@, ids, id, true), true) + link_ops(
            ids,
            id,
            linked_steps(g.nodes@, ids, id, false),
            false,
        ),
    }
}

/// The data type slot of the data node leads, where it leads anywhere, to a
/// data type whose chain of collection item types ends within `fuel` levels.
pub open spec fn data_type_chain_ends(g: CanvasGraph, ids: CanvasSchemaIds, node: CanvasNode, fuel: nat) -> bool {
    match first_target_node(g, node, id_text(ids.data_type_slot)) {
        Some(dt) => type_chain_ends(g, ids, dt, fuel),
        None => true,
    }
}

/// The texts of a list of strings.
pub open spec fn texts(v: Seq<String>) -> Seq<Seq<char>> {
    v.map_values(|s: String| s@)
}

fn contains_text(v: &Vec<String>, t: &str) -> (r: bool)
    ensures
        r == texts(v@).contains(t@),
{
    let mut k: usize = 0;
    while k < v.len()
        invariant
            k <= v@.len(),
            forall|j: int| 0 <= j < k ==> #[trigger] texts(v@)[j] != t@,
        decreases v@.len() - k,
    {
        if str_eq(v[k].as_str(), t) {
            assert(texts(v@)[k as int] == t@);
            return true;
        }
        k = k + 1;
    }
    false
}

/// One change for each of `links` whose template is a step template.
fn link_changes(ids: &CanvasSchemaIds, data: &str, links: &Vec<(String, String)>, upstream: bool) -> (r: Vec<PlanOp>)
    requires
        ids.wf(),
    ensures
        op_views(r@) == link_ops(*ids, data@, step_ref_views(links@), upstream),
{
    let mut r: Vec<PlanOp> = Vec::new();
    let mut i: usize = 0;
    while i < links.len()
        invariant
            ids.wf(),
            i <= links@.len(),
            op_views(r@) == link_ops(*ids, data@, step_ref_views(links@).take(i as int), upstream),
        decreases links@.len() - i,
    {
        proof {
            assert(step_ref_views(links@).take(i + 1).drop_last() =~= step_ref_views(links@).take(i as int));
            assert(step_ref_views(links@).take(i + 1).last() == step_ref_views(links@)[i as int]);
        }
        match step_kind_lookup(ids, links[i].1.as_str()) {
            Some(k) => {
                let op = if upstream {
                    PlanOp::Upstream { data: String::from_str(data), kind: k, step: links[i].0.clone() }
                } else {
                    PlanOp::Downstream { data: String::from_str(data), kind: k, step: links[i].0.clone() }
                };
                let ghost pre = r@;
                r.push(op);
                proof {
                    assert(op_views(r@) =~= op_views(pre).push(op@));
                }
            },
            None => {},
        }
        i = i + 1;
    }
    proof {
        assert(step_ref_views(links@).take(i as int) =~= step_ref_views(links@));
    }
    r
}

/// The changes for the data type of the data node.
fn data_head_changes(node: &CanvasNode, graph: &CanvasGraph, ids: &CanvasSchemaIds, Ghost(fuel): Ghost<nat>) -> (r: Option<Vec<PlanOp>>)
    requires
        ids.wf(),
        data_type_chain_ends(*graph, *ids, *node, fuel),
    ensures
        match r {
            Some(v) => data_head_ops(*graph, *ids, *node, fuel) == Some(op_views(v@)),
            None => data_head_ops(*graph, *ids, *node, fuel) == None::<Seq<PlanOpView>>,
        },
{
    let tid = uuid_to_string(ids.data_type_slot);
    match find_slot(node, tid.as_str()) {
        None => Some(Vec::new()),
        Some(si) => {
            let slot = &node.slots[si];
            if slot.connections.len() == 0 {
                return None;
            }
            let target = &slot.connections[0].target_node_id;
            match find_node(graph, target.as_str()) {
                None => None,
                Some(k) => {
                    let dt = &graph.nodes[k];
                    let mut head: Vec<PlanOp> = match data_kind_lookup(ids, dt.template_id.as_str()) {
                        Some(kind) => vec![
                            PlanOp::DataType { data: node.instance_id.clone(), kind, data_type: target.clone() },
                        ],
                        None => Vec::new(),
                    };
                    let ghost h = op_views(head@);
                    let mut rest = process_data_type(dt, graph, ids, Ghost(fuel));
                    head.append(&mut rest);
                    proof {
                        assert(op_views(head@) =~= h + type_ops(*graph, *ids, *dt, fuel));
                    }
                    Some(head)
                },
            }
        },
    }
}

/// The changes that the data node `node_id` calls for, where it is a node of
/// the canvas not processed yet; records it as processed.
pub fn process_data_node(
    node_id: &str,
    graph: &CanvasGraph,
    ids: &CanvasSchemaIds,
    processed_data_nodes: &mut Vec<String>,
    Ghost(fuel): Ghost<nat>,
) -> (r: Vec<PlanOp>)
    requires
        ids.wf(),
        step_slots_resolve(*graph, *ids),
        forall|k: int| 0 <= k < graph.nodes@.len() ==> data_type_chain_ends(*graph, *ids, #[trigger] graph.nodes@[k], fuel),
    ensures
        texts(old(processed_data_nodes)@).contains(node_id@) ==> r@ == Seq::<PlanOp>::empty()
            && final(processed_data_nodes)@ == old(processed_data_nodes)@,
        !texts(old(processed_data_nodes)@).contains(node_id@) ==> match node_with(*graph, node_id@) {
            None => r@ == Seq::<PlanOp>::empty() && final(processed_data_nodes)@ == old(processed_data_nodes)@,
            Some(node) => op_views(r@) == data_node_ops(*graph, *ids, node, fuel) && texts(
                final(processed_data_nodes)@,
            ) == texts(old(processed_data_nodes)@).push(node_id@),
        },
{
    if contains_text(processed_data_nodes, node_id) {
        return Vec::new();
    }
    let k = match find_node(graph, node_id) {
        Some(k) => k,
        None => {
            return Vec::new();
        },
    };
    let node = &graph.nodes[k];
    let ghost before = texts(processed_data_nodes@);
    processed_data_nodes.push(String::from_str(node_id));
    proof {
        assert(texts(processed_data_nodes@) =~= before.push(node_id@));
    }
    match data_head_changes(node, graph, ids, Ghost(fuel)) {
        None => Vec::new(),
        Some(mut r) => {
            let ups = find_upstream_steps(node_id, graph, ids);
            let downs = find_downstream_steps(node_id, graph, ids);
            let mut up_changes = link_changes(ids, node_id, &ups, true);
            let mut down_changes = link_changes(ids, node_id, &downs, false);
            let ghost h = op_views(r@);
            r.append(&mut up_changes);
            r.append(&mut down_changes);
            proof {
                assert(node.instance_id@ == node_id@);
                assert(op_views(r@) =~= h + link_ops(*ids, node_id@, linked_steps(graph.nodes@, *ids, node_id@, true), true)
                    + link_ops(*ids, node_id@, linked_steps(graph.nodes@, *ids, node_id@, false), false));
            }
            r
        },
    }
}

/// The target of the first connection of the first slot of `node` made from
/// the slot template `tid`.
pub open spec fn first_target(node: CanvasNode, tid: Seq<char>) -> Seq<char> {
    match slot_with(node, tid) {
        Some(slot) => slot.connections@[0].target_node_id@,
        None => Seq::empty(),
    }
}

/// The first slot of `node` made from the slot template `tid` has a connection.
pub open spec fn has_first_target(node: CanvasNode, tid: Seq<char>) -> bool {
    match slot_with(node, tid) {
        Some(slot) => slot.connections@.len() > 0,
        None => false,
    }
}

/// The change that a terminal node of the canvas calls for.
pub open spec fn terminal_ops(ids: CanvasSchemaIds, node: CanvasNode) -> Seq<PlanOpView> {
    if node.template_id@ == id_text(ids.map_to_output) {
        seq![
            PlanOpView::MapToOutput {
                terminal: node.instance_id@,
                output: parsed_or_nil(first_target(node, id_text(ids.map_to_output_output_slot))),
                data: first_target(node, id_text(ids.map_to_output_input_slot)),
            },
        ]
    } else if node.template_id@ == id_text(ids.map_from_input) {
        seq![
            PlanOpView::MapFromInput {
                terminal: node.instance_id@,
                input: parsed_or_nil(first_target(node, id_text(ids.map_from_input_input_slot))),
                data: first_target(node, id_text(ids.map_from_input_output_slot)),
            },
        ]
    } else {
        Seq::empty()
    }
}

/// The slot names, in order, with which the builder of a step kind takes its
/// data nodes; `None` for the kinds that it does not build.
pub open spec fn builder_slot_names(k: StepKind) -> Option<Seq<Seq<char>>> {
    match k {
        StepKind::BitNot => Some(seq!["InputBool"@, "OutputBool"@]),
        StepKind::Binary(op) => Some(seq!["ArgumentOne"@, "ArgumentTwo"@, binary_output_name(op)]),
        StepKind::If => Some(seq!["Condition"@, "TrueBranch"@, "FalseBranch"@]),
        StepKind::IteratorFilter => Some(
            seq!["InputCollection"@, "IterationStartItem"@, "IterationEndBool"@, "OutputCollection"@],
        ),
        StepKind::MutateSlot => Some(seq!["MutatedOperative"@, "SlotName"@, "NewValue"@]),
        StepKind::GetField => Some(seq!["InputOperative"@, "FieldName"@, "OutputField"@]),
        StepKind::MutateField => Some(seq!["MutatedOperative"@, "FieldName"@, "NewValue"@]),
        StepKind::MultiTypeSplitter => Some(
            seq!["InputMultiOperative"@, "Convergence"@, "DiscriminantStarts"@, "Output"@],
        ),
        StepKind::IteratorMap => Some(
            seq!["InputCollection"@, "IterationStartItem"@, "IterationEndItem"@, "OutputCollection"@],
        ),
        StepKind::TraverseSlot => Some(seq!["InputOperative"@, "SlotName"@, "OutputOperatives"@]),
        StepKind::WhileLoop => Some(Seq::empty()),
        _ => None,
    }
}

/// For each of `slots` with a connection, its slot name and the target of its
/// first connection, in slot order.
pub open spec fn slot_deps(node: CanvasNode, slots: Seq<CanvasSlot>) -> Seq<(Seq<char>, Seq<char>)>
    decreases slots.len(),
{
    if slots.len() == 0 {
        Seq::empty()
    } else {
        let rest = slot_deps(node, slots.drop_last());
        let s = slots.last();
        if s.connections@.len() > 0 {
            rest.push((slot_template_name(node, s.slot_template_id@), s.connections@[0].target_node_id@))
        } else {
            rest
        }
    }
}

/// The value of the last of `pairs` with the key `key`.
pub open spec fn last_value(pairs: Seq<(Seq<char>, Seq<char>)>, key: Seq<char>) -> Option<Seq<char>>
    decreases pairs.len(),
{
    if pairs.len() == 0 {
        None
    } else if pairs.last().0 == key {
        Some(pairs.last().1)
    } else {
        last_value(pairs.drop_last(), key)
    }
}

/// The data node that the step node's slot `name` connects to.
pub open spec fn dep_target(node: CanvasNode, name: Seq<char>) -> Option<Seq<char>> {
    last_value(slot_deps(node, node.slots@), name)
}

/// The slots of a step of kind `k` built from the step node, by name.
pub open spec fn step_op_slots(node: CanvasNode, k: StepKind, names: Seq<Seq<char>>) -> Seq<(Seq<char>, Seq<char>)> {
    names.map_values(
        |nm: Seq<char>|
            (
                nm,
                match dep_target(node, nm) {
                    Some(t) => t,
                    None => Seq::empty(),
                },
            ),
    ) + (if k == StepKind::If {
        match dep_target(node, "Output"@) {
            Some(t) => seq![("Output"@, t)],
            None => Seq::empty(),
        }
    } else {
        Seq::empty()
    })
}

/// The change that a step node of the canvas calls for.
pub open spec fn step_node_ops(ids: CanvasSchemaIds, node: CanvasNode) -> Seq<PlanOpView> {
    let t = node.template_id@;
    if t == id_text(ids.map_to_output) || t == id_text(ids.map_from_input) || !ids.is_step_template(t) {
        Seq::empty()
    } else {
        match step_kind_of(ids, t) {
            Some(k) => match builder_slot_names(k) {
                Some(names) => seq![
                    PlanOpView::Step { kind: k, step: node.instance_id@, slots: step_op_slots(node, k, names) },
                ],
                None => Seq::empty(),
            },
            None => Seq::empty(),
        }
    }
}

/// The changes that the data node calls for, where it is one.
pub open spec fn data_pass_ops(g: CanvasGraph, ids: CanvasSchemaIds, node: CanvasNode, fuel: nat) -> Seq<PlanOpView> {
    if node.template_id@ == id_text(ids.impl_data) {
        data_node_ops(g, ids, node, fuel)
    } else {
        Seq::empty()
    }
}

/// The changes of the terminal nodes among `nodes`, in order.
pub open spec fn terminal_pass(ids: CanvasSchemaIds, nodes: Seq<CanvasNode>) -> Seq<PlanOpView>
    decreases nodes.len(),
{
    if nodes.len() == 0 {
        Seq::empty()
    } else {
        terminal_pass(ids, nodes.drop_last()) + terminal_ops(ids, nodes.last())
    }
}

/// The changes of the step nodes among `nodes`, in order.
pub open spec fn step_pass(ids: CanvasSchemaIds, nodes: Seq<CanvasNode>) -> Seq<PlanOpView>
    decreases nodes.len(),
{
    if nodes.len() == 0 {
        Seq::empty()
    } else {
        step_pass(ids, nodes.drop_last()) + step_node_ops(ids, nodes.last())
    }
}

/// The changes of the data nodes among `nodes`, in order.
pub open spec fn data_pass(g: CanvasGraph, ids: CanvasSchemaIds, nodes: Seq<CanvasNode>, fuel: nat) -> Seq<PlanOpView>
    decreases nodes.len(),
{
    if nodes.len() == 0 {
        Seq::empty()
    } else {
        data_pass(g, ids, nodes.drop_last(), fuel) + data_pass_ops(g, ids, nodes.last(), fuel)
    }
}

/// What the canvas needs for the plan to be built: distinct nodes; function
/// input and output nodes that stand for inputs and outputs of the definition;
/// terminals whose slots are connected, a `MapToOutput` to a function output
/// node; step nodes whose slots are known to their template and whose builder
/// finds every slot it takes; and chains of collection item types that end.
pub open spec fn canvas_buildable(g: CanvasGraph, ids: CanvasSchemaIds, fn_inputs: Seq<Uid>, fn_outputs: Seq<Uid>) -> bool {
    let nodes = g.nodes@;
    &&& forall|i: int, j: int| 0 <= i < j < nodes.len() ==> #[trigger] nodes[i].instance_id@ != #[trigger] nodes[j].instance_id@
    &&& forall|i: int| 0 <= i < nodes.len() && #[trigger] nodes[i].template_id@ == id_text(ids.function_input) ==> (
        uuid_parse(nodes[i].instance_id@) matches Some(v) && fn_inputs.contains(v))
    &&& forall|i: int| 0 <= i < nodes.len() && #[trigger] nodes[i].template_id@ == id_text(ids.function_output) ==> (
        uuid_parse(nodes[i].instance_id@) matches Some(v) && fn_outputs.contains(v))
    &&& forall|i: int| 0 <= i < nodes.len() && #[trigger] nodes[i].template_id@ == id_text(ids.map_to_output) ==> {
        &&& has_first_target(nodes[i], id_text(ids.map_to_output_output_slot))
        &&& has_first_target(nodes[i], id_text(ids.map_to_output_input_slot))
        &&& node_with(g, first_target(nodes[i], id_text(ids.map_to_output_output_slot))) matches Some(out)
            && out.template_id@ == id_text(ids.function_output)
    }
    &&& forall|i: int| 0 <= i < nodes.len() && #[trigger] nodes[i].template_id@ == id_text(ids.map_from_input) ==> {
        &&& has_first_target(nodes[i], id_text(ids.map_from_input_input_slot))
        &&& has_first_target(nodes[i], id_text(ids.map_from_input_output_slot))
        &&& node_with(g, first_target(nodes[i], id_text(ids.map_from_input_input_slot))) matches Some(inp)
            && inp.template_id@ == id_text(ids.function_input)
    }
    &&& step_slots_resolve(g, ids)
    &&& forall|i: int| 0 <= i < nodes.len() && ids.is_step_template(#[trigger] nodes[i].template_id@)
        && nodes[i].template_id@ != id_text(ids.map_to_output) && nodes[i].template_id@ != id_text(ids.map_from_input)
        ==> (step_kind_of(ids, nodes[i].template_id@) matches Some(k) && builder_slot_names(k) matches Some(names)
        ==> forall|n: int| 0 <= n < names.len() ==> dep_target(nodes[i], #[trigger] names[n]) is Some)
    &&& forall|k: int| 0 <= k < nodes.len() ==> data_type_chain_ends(g, ids, #[trigger] nodes[k], nodes.len())
}

/// The position of `v` in `ids`, by a scan.
fn find_uid(ids: &Vec<Uid>, v: Uid) -> (r: Option<usize>)
    ensures
        match r {
            Some(k) => k < ids@.len() && ids@[k as int] == v,
            None => !ids@.contains(v),
        },
{
    let mut k: usize = 0;
    while k < ids.len()
        invariant
            k <= ids@.len(),
            forall|j: int| 0 <= j < k ==> ids@[j] != v,
        decreases ids@.len() - k,
    {
        if ids[k] == v {
            return Some(k);
        }
        k = k + 1;
    }
    None
}

/// The target of the first connection of the first slot of `node` made from
/// the slot template `tid`.
fn first_target_text(node: &CanvasNode, tid: &str) -> (r: String)
    requires
        has_first_target(*node, tid@),
    ensures
        r@ == first_target(*node, tid@),
{
    match find_slot(node, tid) {
        Some(si) => node.slots[si].connections[0].target_node_id.clone(),
        None => String::new(),
    }
}

/// The identifier that the text of a function input or output node names,
/// taken from the list of the definition's inputs or outputs.
fn function_io_id(text: &str, list: &Vec<Uid>) -> (r: Uid)
    requires
        uuid_parse(text@) matches Some(v) && list@.contains(v),
    ensures
        r == parsed_or_nil(text@),
{
    let v = uuid_or_nil(text);
    match find_uid(list, v) {
        Some(k) => list[k],
        None => v,
    }
}

/// The change that the terminal node at `i` calls for.
fn terminal_changes(graph: &CanvasGraph, i: usize, ids: &CanvasSchemaIds, fn_inputs: &Vec<Uid>, fn_outputs: &Vec<Uid>) -> (r: Vec<PlanOp>)
    requires
        ids.wf(),
        canvas_buildable(*graph, *ids, fn_inputs@, fn_outputs@),
        i < graph.nodes@.len(),
    ensures
        op_views(r@) == terminal_ops(*ids, graph.nodes@[i as int]),
{
    let node = &graph.nodes[i];
    let mto = uuid_to_string(ids.map_to_output);
    let mfi = uuid_to_string(ids.map_from_input);
    let r = if str_eq(node.template_id.as_str(), mto.as_str()) {
        let out_slot = uuid_to_string(ids.map_to_output_output_slot);
        let in_slot = uuid_to_string(ids.map_to_output_input_slot);
        let out_node = first_target_text(node, out_slot.as_str());
        let data = first_target_text(node, in_slot.as_str());
        proof {
            let k = first_index_of(node_keys(*graph), out_node@)->0;
            lemma_first_index_key(node_keys(*graph), out_node@, k);
            assert(graph.nodes@[k].template_id@ == id_text(ids.function_output));
        }
        let output = function_io_id(out_node.as_str(), fn_outputs);
        vec![PlanOp::MapToOutput { terminal: node.instance_id.clone(), output, data }]
    } else if str_eq(node.template_id.as_str(), mfi.as_str()) {
        let in_slot = uuid_to_string(ids.map_from_input_input_slot);
        let out_slot = uuid_to_string(ids.map_from_input_output_slot);
        let in_node = first_target_text(node, in_slot.as_str());
        let data = first_target_text(node, out_slot.as_str());
        proof {
            let k = first_index_of(node_keys(*graph), in_node@)->0;
            lemma_first_index_key(node_keys(*graph), in_node@, k);
            assert(graph.nodes@[k].template_id@ == id_text(ids.function_input));
        }
        let input = function_io_id(in_node.as_str(), fn_inputs);
        vec![PlanOp::MapFromInput { terminal: node.instance_id.clone(), input, data }]
    } else {
        Vec::new()
    };
    proof {
        assert(op_views(r@) =~= terminal_ops(*ids, graph.nodes@[i as int]));
    }
    r
}

/// The slot name and first connection target of each connected slot of the
/// node, in slot order.
fn collect_deps(node: &CanvasNode) -> (r: Vec<(String, String)>)
    requires
        forall|j: int| 0 <= j < node.slots@.len() ==> has_slot_template(*node, #[trigger] node.slots@[j].slot_template_id@),
    ensures
        named_views(r@) == slot_deps(*node, node.slots@),
{
    let mut r: Vec<(String, String)> = Vec::new();
    let mut j: usize = 0;
    while j < node.slots.len()
        invariant
            forall|j: int| 0 <= j < node.slots@.len() ==> has_slot_template(*node, #[trigger] node.slots@[j].slot_template_id@),
            j <= node.slots@.len(),
            named_views(r@) == slot_deps(*node, node.slots@.take(j as int)),
        decreases node.slots@.len() - j,
    {
        proof {
            assert(node.slots@.take(j + 1).drop_last() =~= node.slots@.take(j as int));
            assert(node.slots@.take(j + 1).last() == node.slots@[j as int]);
        }
        let slot = &node.slots[j];
        if slot.connections.len() > 0 {
            assert(has_slot_template(*node, node.slots@[j as int].slot_template_id@));
            let name = get_slot_name_from_id(slot.slot_template_id.as_str(), node);
            let ghost pre = r@;
            r.push((name, slot.connections[0].target_node_id.clone()));
            proof {
                assert(named_views(r@) =~= named_views(pre).push(
                    (slot_template_name(*node, slot.slot_template_id@), slot.connections@[0].target_node_id@),
                ));
            }
        }
        j = j + 1;
    }
    proof {
        assert(node.slots@.take(j as int) =~= node.slots@);
    }
    r
}

/// The value of the last pair with the key `key`.
fn last_value_of(pairs: &Vec<(String, String)>, key: &str) -> (r: Option<String>)
    ensures
        match r {
            Some(v) => last_value(named_views(pairs@), key@) == Some(v@),
            None => last_value(named_views(pairs@), key@) == None::<Seq<char>>,
        },
{
    let mut i: usize = pairs.len();
    proof {
        assert(named_views(pairs@).take(i as int) =~= named_views(pairs@));
    }
    while i > 0
        invariant
            i <= pairs@.len(),
            last_value(named_views(pairs@), key@) == last_value(named_views(pairs@).take(i as int), key@),
        decreases i,
    {
        proof {
            assert(named_views(pairs@).take(i as int).drop_last() =~= named_views(pairs@).take(i - 1));
            assert(named_views(pairs@).take(i as int).last() == named_views(pairs@)[i - 1]);
        }
        if str_eq(pairs[i - 1].0.as_str(), key) {
            return Some(pairs[i - 1].1.clone());
        }
        i = i - 1;
    }
    proof {
        assert(named_views(pairs@).take(0) =~= Seq::<(Seq<char>, Seq<char>)>::empty());
    }
    None
}

fn text(s: &str) -> (r: String)
    ensures
        r@ == s@,
{
    String::from_str(s)
}

/// The slot names with which the builder of a step kind takes its data nodes.
fn builder_slot_list(k: StepKind) -> (r: Option<Vec<String>>)
    ensures
        match r {
            Some(v) => builder_slot_names(k) == Some(texts(v@)),
            None => builder_slot_names(k) == None::<Seq<Seq<char>>>,
        },
{
    let r = match k {
        StepKind::BitNot => Some(vec![text("InputBool"), text("OutputBool")]),
        StepKind::Binary(op) => {
            let out = match op {
                crate::impl_model::BinaryOp::MathDivide | crate::impl_model::BinaryOp::MathAdd
                | crate::impl_model::BinaryOp::MathModulus | crate::impl_model::BinaryOp::MathMultiply
                | crate::impl_model::BinaryOp::MathSubtract => text("OutputInt"),
                _ => text("OutputBool"),
            };
            Some(vec![text("ArgumentOne"), text("ArgumentTwo"), out])
        },
        StepKind::If => Some(vec![text("Condition"), text("TrueBranch"), text("FalseBranch")]),
        StepKind::IteratorFilter => Some(
            vec![text("InputCollection"), text("IterationStartItem"), text("IterationEndBool"), text("OutputCollection")],
        ),
        StepKind::MutateSlot => Some(vec![text("MutatedOperative"), text("SlotName"), text("NewValue")]),
        StepKind::GetField => Some(vec![text("InputOperative"), text("FieldName"), text("OutputField")]),
        StepKind::MutateField => Some(vec![text("MutatedOperative"), text("FieldName"), text("NewValue")]),
        StepKind::MultiTypeSplitter => Some(
            vec![text("InputMultiOperative"), text("Convergence"), text("DiscriminantStarts"), text("Output")],
        ),
        StepKind::IteratorMap => Some(
            vec![text("InputCollection"), text("IterationStartItem"), text("IterationEndItem"), text("OutputCollection")],
        ),
        StepKind::TraverseSlot => Some(vec![text("InputOperative"), text("SlotName"), text("OutputOperatives")]),
        StepKind::WhileLoop => Some(Vec::new()),
        _ => None,
    };
    proof {
        if r is Some {
            assert(builder_slot_names(k) =~= Some(texts(r->0@)));
        }
    }
    r
}

/// The change that the step node at `i` calls for.
fn step_changes(graph: &CanvasGraph, i: usize, ids: &CanvasSchemaIds, Ghost(fn_inputs): Ghost<Seq<Uid>>, Ghost(fn_outputs): Ghost<Seq<Uid>>) -> (r: Vec<PlanOp>)
    requires
        ids.wf(),
        canvas_buildable(*graph, *ids, fn_inputs, fn_outputs),
        i < graph.nodes@.len(),
    ensures
        op_views(r@) == step_node_ops(*ids, graph.nodes@[i as int]),
{
    let node = &graph.nodes[i];
    let mto = uuid_to_string(ids.map_to_output);
    let mfi = uuid_to_string(ids.map_from_input);
    if str_eq(node.template_id.as_str(), mto.as_str()) || str_eq(node.template_id.as_str(), mfi.as_str()) {
        return Vec::new();
    }
    if !is_impl_step_template_id(node.template_id.as_str(), ids) {
        return Vec::new();
    }
    proof {
        assert forall|j: int| 0 <= j < node.slots@.len() implies has_slot_template(*node, #[trigger] node.slots@[j].slot_template_id@) by {
            assert(has_slot_template(graph.nodes@[i as int], graph.nodes@[i as int].slots@[j].slot_template_id@));
        }
    }
    let deps = collect_deps(node);
    let kind = match step_kind_lookup(ids, node.template_id.as_str()) {
        Some(k) => k,
        None => {
            return Vec::new();
        },
    };
    let names = match builder_slot_list(kind) {
        Some(v) => v,
        None => {
            return Vec::new();
        },
    };
    let ghost names_v = texts(names@);
    let mut slots: Vec<(String, String)> = Vec::new();
    let mut j: usize = 0;
    while j < names.len()
        invariant
            ids.wf(),
            j <= names@.len(),
            names_v == texts(names@),
            named_views(deps@) == slot_deps(*node, node.slots@),
            forall|n: int| 0 <= n < names_v.len() ==> dep_target(*node, #[trigger] names_v[n]) is Some,
            named_views(slots@) == names_v.take(j as int).map_values(
                |nm: Seq<char>|
                    (
                        nm,
                        match dep_target(*node, nm) {
                            Some(t) => t,
                            None => Seq::empty(),
                        },
                    ),
            ),
        decreases names@.len() - j,
    {
        assert(names_v[j as int] == names@[j as int]@);
        let target = match last_value_of(&deps, names[j].as_str()) {
            Some(t) => t,
            None => String::new(),
        };
        let ghost pre = slots@;
        slots.push((names[j].clone(), target));
        proof {
            assert(names_v.take(j + 1) =~= names_v.take(j as int).push(names_v[j as int]));
            assert(named_views(slots@) =~= named_views(pre).push((names@[j as int]@, target@)));
            assert(named_views(slots@) =~= names_v.take(j + 1).map_values(
                |nm: Seq<char>|
                    (
                        nm,
                        match dep_target(*node, nm) {
                            Some(t) => t,
                            None => Seq::empty(),
                        },
                    ),
            ));
        }
        j = j + 1;
    }
    proof {
        assert(names_v.take(j as int) =~= names_v);
    }
    if kind == StepKind::If {
        match last_value_of(&deps, "Output") {
            Some(t) => {
                slots.push((text("Output"), t));
            },
            None => {},
        }
    }
    let r = vec![PlanOp::Step { kind, step: node.instance_id.clone(), slots }];
    proof {
        assert(named_views(r@[0]->Step_slots@) =~= step_op_slots(*node, kind, names_v));
        assert(op_views(r@) =~= step_node_ops(*ids, graph.nodes@[i as int]));
    }
    r
}

/// The changes to the schema that the canvas of a method implementation calls
/// for: a new implementation of the definition by the implementor, then one
/// change for each terminal node, then one for each step node, then those of
/// each data node, its data type and the steps it connects, the nodes taken in
/// canvas order in each pass.
pub fn build_schemaful_representation_of_graph(
    graph: &CanvasGraph,
    ids: &CanvasSchemaIds,
    definition: Uid,
    implementor: Uid,
    fn_inputs: &Vec<Uid>,
    fn_outputs: &Vec<Uid>,
    fn_impl_name: String,
) -> (r: Vec<PlanOp>)
    requires
        ids.wf(),
        canvas_buildable(*graph, *ids, fn_inputs@, fn_outputs@),
    ensures
        op_views(r@) == seq![PlanOpView::NewImplementation { definition, implementor, name: fn_impl_name@ }]
            + terminal_pass(*ids, graph.nodes@) + step_pass(*ids, graph.nodes@) + data_pass(
            *graph,
            *ids,
            graph.nodes@,
            graph.nodes@.len(),
        ),
{
    let ghost nodes = graph.nodes@;
    let ghost fuel = graph.nodes@.len();
    let mut r: Vec<PlanOp> = vec![PlanOp::NewImplementation { definition, implementor, name: fn_impl_name }];
    let ghost first = op_views(r@);
    let mut i: usize = 0;
    proof {
        assert(nodes.take(0) =~= Seq::<CanvasNode>::empty());
        assert(op_views(r@) =~= first + terminal_pass(*ids, nodes.take(0)));
    }
    while i < graph.nodes.len()
        invariant
            ids.wf(),
            canvas_buildable(*graph, *ids, fn_inputs@, fn_outputs@),
            nodes == graph.nodes@,
            i <= nodes.len(),
            op_views(r@) == first + terminal_pass(*ids, nodes.take(i as int)),
        decreases nodes.len() - i,
    {
        let mut more = terminal_changes(graph, i, ids, fn_inputs, fn_outputs);
        let ghost pre = op_views(r@);
        r.append(&mut more);
        proof {
            assert(nodes.take(i + 1).drop_last() =~= nodes.take(i as int));
            assert(nodes.take(i + 1).last() == nodes[i as int]);
            assert(op_views(r@) =~= pre + terminal_ops(*ids, nodes[i as int]));
        }
        i = i + 1;
    }
    proof {
        assert(nodes.take(i as int) =~= nodes);
    }
    let ghost second = op_views(r@);
    i = 0;
    proof {
        assert(op_views(r@) =~= second + step_pass(*ids, nodes.take(0)));
    }
    while i < graph.nodes.len()
        invariant
            ids.wf(),
            canvas_buildable(*graph, *ids, fn_inputs@, fn_outputs@),
            nodes == graph.nodes@,
            i <= nodes.len(),
            op_views(r@) == second + step_pass(*ids, nodes.take(i as int)),
        decreases nodes.len() - i,
    {
        let mut more = step_changes(graph, i, ids, Ghost(fn_inputs@), Ghost(fn_outputs@));
        let ghost pre = op_views(r@);
        r.append(&mut more);
        proof {
            assert(nodes.take(i + 1).drop_last() =~= nodes.take(i as int));
            assert(nodes.take(i + 1).last() == nodes[i as int]);
            assert(op_views(r@) =~= pre + step_node_ops(*ids, nodes[i as int]));
        }
        i = i + 1;
    }
    proof {
        assert(nodes.take(i as int) =~= nodes);
    }
    let ghost third = op_views(r@);
    let data_template = uuid_to_string(ids.impl_data);
    let mut processed: Vec<String> = Vec::new();
    i = 0;
    proof {
        assert(op_views(r@) =~= third + data_pass(*graph, *ids, nodes.take(0), fuel));
    }
    while i < graph.nodes.len()
        invariant
            ids.wf(),
            canvas_buildable(*graph, *ids, fn_inputs@, fn_outputs@),
            nodes == graph.nodes@,
            fuel == nodes.len(),
            data_template@ == id_text(ids.impl_data),
            i <= nodes.len(),
            op_views(r@) == third + data_pass(*graph, *ids, nodes.take(i as int), fuel),
            forall|x: Seq<char>| #[trigger] texts(processed@).contains(x) ==> exists|j: int| 0 <= j < i && nodes[j].instance_id@ == x,
        decreases nodes.len() - i,
    {
        let node = &graph.nodes[i];
        let ghost pre = op_views(r@);
        let ghost pre_processed = texts(processed@);
        proof {
            assert(nodes.take(i + 1).drop_last() =~= nodes.take(i as int));
            assert(nodes.take(i + 1).last() == nodes[i as int]);
        }
        if str_eq(node.template_id.as_str(), data_template.as_str()) {
            proof {
                if pre_processed.contains(node.instance_id@) {
                    let j = choose|j: int| 0 <= j < i && nodes[j].instance_id@ == node.instance_id@;
                    assert(nodes[j].instance_id@ != nodes[i as int].instance_id@);
                }
                assert forall|j: int| 0 <= j < i implies #[trigger] node_keys(*graph)[j] != node.instance_id@ by {
                    assert(nodes[j].instance_id@ != nodes[i as int].instance_id@);
                }
                lemma_first_index(node_keys(*graph), node.instance_id@, i as int);
            }
            let mut more = process_data_node(node.instance_id.as_str(), graph, ids, &mut processed, Ghost(fuel));
            r.append(&mut more);
            proof {
                assert(op_views(r@) =~= pre + data_pass_ops(*graph, *ids, nodes[i as int], fuel));
                lemma_push_text_contains(pre_processed, node.instance_id@);
                assert forall|x: Seq<char>| #[trigger] texts(processed@).contains(x) implies exists|j: int|
                    0 <= j < i + 1 && nodes[j].instance_id@ == x by {
                    if x != node.instance_id@ {
                        assert(pre_processed.contains(x));
                        let j = choose|j: int| 0 <= j < i && nodes[j].instance_id@ == x;
                    }
                }
            }
        } else {
            proof {
                assert(op_views(r@) =~= pre + data_pass_ops(*graph, *ids, nodes[i as int], fuel));
            }
        }
        i = i + 1;
    }
    proof {
        assert(nodes.take(i as int) =~= nodes);
    }
    r
}

proof fn lemma_push_text_contains(s: Seq<Seq<char>>, a: Seq<char>)
    ensures
        forall|x: Seq<char>| #[trigger] s.push(a).contains(x) <==> (s.contains(x) || x == a),
{
    crate::flow_model::lemma_push_contains(s, a);
}

/// What `canvas_buildable` asks of the node at `i` alone.
pub open spec fn node_buildable(g: CanvasGraph, ids: CanvasSchemaIds, fn_inputs: Seq<Uid>, fn_outputs: Seq<Uid>, i: int) -> bool {
    let nodes = g.nodes@;
    &&& nodes[i].template_id@ == id_text(ids.function_input) ==> (
        uuid_parse(nodes[i].instance_id@) matches Some(v) && fn_inputs.contains(v))
    &&& nodes[i].template_id@ == id_text(ids.function_output) ==> (
        uuid_parse(nodes[i].instance_id@) matches Some(v) && fn_outputs.contains(v))
    &&& nodes[i].template_id@ == id_text(ids.map_to_output) ==> {
        &&& has_first_target(nodes[i], id_text(ids.map_to_output_output_slot))
        &&& has_first_target(nodes[i], id_text(ids.map_to_output_input_slot))
        &&& node_with(g, first_target(nodes[i], id_text(ids.map_to_output_output_slot))) matches Some(out)
            && out.template_id@ == id_text(ids.function_output)
    }
    &&& nodes[i].template_id@ == id_text(ids.map_from_input) ==> {
        &&& has_first_target(nodes[i], id_text(ids.map_from_input_input_slot))
        &&& has_first_target(nodes[i], id_text(ids.map_from_input_output_slot))
        &&& node_with(g, first_target(nodes[i], id_text(ids.map_from_input_input_slot))) matches Some(inp)
            && inp.template_id@ == id_text(ids.function_input)
    }
    &&& ids.is_step_template(nodes[i].template_id@)
        && nodes[i].template_id@ != id_text(ids.map_to_output) && nodes[i].template_id@ != id_text(ids.map_from_input)
        ==> (step_kind_of(ids, nodes[i].template_id@) matches Some(k) && builder_slot_names(k) matches Some(names)
        ==> forall|n: int| 0 <= n < names.len() ==> dep_target(nodes[i], #[trigger] names[n]) is Some)
    &&& data_type_chain_ends(g, ids, nodes[i], nodes.len())
}

/// The canvas is buildable exactly where its nodes are distinct, the slots
/// of its step nodes resolve, and each node is buildable on its own.
proof fn lemma_buildable_by_nodes(g: CanvasGraph, ids: CanvasSchemaIds, fn_inputs: Seq<Uid>, fn_outputs: Seq<Uid>)
    ensures
        canvas_buildable(g, ids, fn_inputs, fn_outputs) <==> (
            (forall|i: int, j: int| 0 <= i < j < g.nodes@.len() ==> #[trigger] g.nodes@[i].instance_id@ != #[trigger] g.nodes@[j].instance_id@)
            && step_slots_resolve(g, ids)
            && forall|i: int| 0 <= i < g.nodes@.len() ==> #[trigger] node_buildable(g, ids, fn_inputs, fn_outputs, i)),
{
    if canvas_buildable(g, ids, fn_inputs, fn_outputs) {
        assert forall|i: int| 0 <= i < g.nodes@.len() implies #[trigger] node_buildable(g, ids, fn_inputs, fn_outputs, i) by {
            let t = g.nodes@[i].template_id@;
            assert(t == g.nodes@[i].template_id@);
            assert(data_type_chain_ends(g, ids, g.nodes@[i], g.nodes@.len()));
        }
    }
    if (forall|i: int, j: int| 0 <= i < j < g.nodes@.len() ==> #[trigger] g.nodes@[i].instance_id@ != #[trigger] g.nodes@[j].instance_id@)
        && step_slots_resolve(g, ids)
        && forall|i: int| 0 <= i < g.nodes@.len() ==> #[trigger] node_buildable(g, ids, fn_inputs, fn_outputs, i) {
        let nodes = g.nodes@;
        assert forall|i: int| 0 <= i < nodes.len() && #[trigger] nodes[i].template_id@ == id_text(ids.function_input) implies (
            uuid_parse(nodes[i].instance_id@) matches Some(v) && fn_inputs.contains(v)) by {
            assert(node_buildable(g, ids, fn_inputs, fn_outputs, i));
        }
        assert forall|i: int| 0 <= i < nodes.len() && #[trigger] nodes[i].template_id@ == id_text(ids.function_output) implies (
            uuid_parse(nodes[i].instance_id@) matches Some(v) && fn_outputs.contains(v)) by {
            assert(node_buildable(g, ids, fn_inputs, fn_outputs, i));
        }
        assert forall|i: int| 0 <= i < nodes.len() && #[trigger] nodes[i].template_id@ == id_text(ids.map_to_output) implies {
            &&& has_first_target(nodes[i], id_text(ids.map_to_output_output_slot))
            &&& has_first_target(nodes[i], id_text(ids.map_to_output_input_slot))
            &&& node_with(g, first_target(nodes[i], id_text(ids.map_to_output_output_slot))) matches Some(out)
                && out.template_id@ == id_text(ids.function_output)
        } by {
            assert(node_buildable(g, ids, fn_inputs, fn_outputs, i));
        }
        assert forall|i: int| 0 <= i < nodes.len() && #[trigger] nodes[i].template_id@ == id_text(ids.map_from_input) implies {
            &&& has_first_target(nodes[i], id_text(ids.map_from_input_input_slot))
            &&& has_first_target(nodes[i], id_text(ids.map_from_input_output_slot))
            &&& node_with(g, first_target(nodes[i], id_text(ids.map_from_input_input_slot))) matches Some(inp)
                && inp.template_id@ == id_text(ids.function_input)
        } by {
            assert(node_buildable(g, ids, fn_inputs, fn_outputs, i));
        }
        assert forall|i: int| 0 <= i < nodes.len() && ids.is_step_template(#[trigger] nodes[i].template_id@)
            && nodes[i].template_id@ != id_text(ids.map_to_output) && nodes[i].template_id@ != id_text(ids.map_from_input)
            implies (step_kind_of(ids, nodes[i].template_id@) matches Some(k) && builder_slot_names(k) matches Some(names)
            ==> forall|n: int| 0 <= n < names.len() ==> dep_target(nodes[i], #[trigger] names[n]) is Some) by {
            assert(node_buildable(g, ids, fn_inputs, fn_outputs, i));
        }
        assert forall|k: int| 0 <= k < nodes.len() implies data_type_chain_ends(g, ids, #[trigger] nodes[k], nodes.len()) by {
            assert(node_buildable(g, ids, fn_inputs, fn_outputs, k));
        }
    }
}

/// Whether the chain of collection item types from `node` ends within `fuel`
/// levels, by following it.
fn check_type_chain(g: &CanvasGraph, ids: &CanvasSchemaIds, node: &CanvasNode, fuel: usize) -> (r: bool)
    requires
        ids.wf(),
    ensures
        r == type_chain_ends(*g, *ids, *node, fuel as nat),
    decreases fuel,
{
    if fuel == 0 {
        return false;
    }
    match data_kind_lookup(ids, node.template_id.as_str()) {
        Some(DataTypeKind::Collection) => {
            let slot = uuid_to_string(ids.collection_type_slot);
            match find_first_target(g, node, slot.as_str()) {
                Some(k) => check_type_chain(g, ids, &g.nodes[k], fuel - 1),
                None => true,
            }
        },
        _ => true,
    }
}

/// Whether the data type chain of the data node ends within `fuel` levels.
fn check_data_type_chain(g: &CanvasGraph, ids: &CanvasSchemaIds, node: &CanvasNode, fuel: usize) -> (r: bool)
    requires
        ids.wf(),
    ensures
        r == data_type_chain_ends(*g, *ids, *node, fuel as nat),
{
    let slot = uuid_to_string(ids.data_type_slot);
    match find_first_target(g, node, slot.as_str()) {
        Some(k) => check_type_chain(g, ids, &g.nodes[k], fuel),
        None => true,
    }
}

/// Whether the first slot of `node` made from the slot template `tid` has a
/// connection.
fn check_first_target(node: &CanvasNode, tid: &str) -> (r: bool)
    ensures
        r == has_first_target(*node, tid@),
{
    match find_slot(node, tid) {
        Some(si) => node.slots[si].connections.len() > 0,
        None => false,
    }
}

/// Whether the instance identifier of the node names one of `list`.
fn check_io_node(node: &CanvasNode, list: &Vec<Uid>) -> (r: bool)
    ensures
        r == (uuid_parse(node.instance_id@) matches Some(v) && list@.contains(v)),
{
    match uuid_from_str(node.instance_id.as_str()) {
        Some(v) => find_uid(list, v).is_some(),
        None => false,
    }
}

/// Whether a terminal's two slots are connected and the first target of the
/// slot `end_slot` is a node of the template `end_template`.
fn check_terminal(g: &CanvasGraph, node: &CanvasNode, end_slot: Uid, data_slot: Uid, end_template: Uid) -> (r: bool)
    ensures
        r == ({
            &&& has_first_target(*node, id_text(end_slot))
            &&& has_first_target(*node, id_text(data_slot))
            &&& node_with(*g, first_target(*node, id_text(end_slot))) matches Some(n)
                && n.template_id@ == id_text(end_template)
        }),
{
    let end_text = uuid_to_string(end_slot);
    let data_text = uuid_to_string(data_slot);
    if !check_first_target(node, end_text.as_str()) || !check_first_target(node, data_text.as_str()) {
        return false;
    }
    let target = first_target_text(node, end_text.as_str());
    match find_node(g, target.as_str()) {
        Some(k) => {
            let t = uuid_to_string(end_template);
            str_eq(g.nodes[k].template_id.as_str(), t.as_str())
        },
        None => false,
    }
}

/// Whether the step node's template names a step kind and, where the kind has
/// a builder, the builder finds every slot it takes.
fn check_step_slots(ids: &CanvasSchemaIds, node: &CanvasNode) -> (r: bool)
    requires
        ids.wf(),
        forall|j: int| 0 <= j < node.slots@.len() ==> has_slot_template(*node, #[trigger] node.slots@[j].slot_template_id@),
    ensures
        r == (step_kind_of(*ids, node.template_id@) matches Some(k) && builder_slot_names(k) matches Some(names)
            ==> forall|n: int| 0 <= n < names.len() ==> dep_target(*node, #[trigger] names[n]) is Some),
{
    match step_kind_lookup(ids, node.template_id.as_str()) {
        Some(k) => match builder_slot_list(k) {
            Some(names) => {
                let deps = collect_deps(node);
                let mut n: usize = 0;
                while n < names.len()
                    invariant
                        ids.wf(),
                        n <= names@.len(),
                        step_kind_of(*ids, node.template_id@) == Some(k),
                        builder_slot_names(k) == Some(texts(names@)),
                        named_views(deps@) == slot_deps(*node, node.slots@),
                        forall|m: int| 0 <= m < n ==> dep_target(*node, #[trigger] texts(names@)[m]) is Some,
                    decreases names@.len() - n,
                {
                    assert(texts(names@)[n as int] == names@[n as int]@);
                    if last_value_of(&deps, names[n].as_str()).is_none() {
                        assert(dep_target(*node, texts(names@)[n as int]) is None);
                        return false;
                    }
                    assert(dep_target(*node, texts(names@)[n as int]) is Some);
                    n = n + 1;
                }
                assert(forall|m: int| 0 <= m < texts(names@).len() ==> dep_target(*node, #[trigger] texts(names@)[m]) is Some);
                true
            },
            None => true,
        },
        None => false,
    }
}

/// Whether the node at `i` is buildable on its own.
fn check_node(g: &CanvasGraph, ids: &CanvasSchemaIds, fn_inputs: &Vec<Uid>, fn_outputs: &Vec<Uid>, i: usize) -> (r: bool)
    requires
        ids.wf(),
        i < g.nodes@.len(),
        step_slots_resolve(*g, *ids),
    ensures
        r == node_buildable(*g, *ids, fn_inputs@, fn_outputs@, i as int),
{
    let node = &g.nodes[i];
    let t = node.template_id.as_str();
    let fi = uuid_to_string(ids.function_input);
    let fo = uuid_to_string(ids.function_output);
    let mto = uuid_to_string(ids.map_to_output);
    let mfi = uuid_to_string(ids.map_from_input);
    if str_eq(t, fi.as_str()) && !check_io_node(node, fn_inputs) {
        return false;
    }
    if str_eq(t, fo.as_str()) && !check_io_node(node, fn_outputs) {
        return false;
    }
    if str_eq(t, mto.as_str())
        && !check_terminal(g, node, ids.map_to_output_output_slot, ids.map_to_output_input_slot, ids.function_output) {
        return false;
    }
    if str_eq(t, mfi.as_str())
        && !check_terminal(g, node, ids.map_from_input_input_slot, ids.map_from_input_output_slot, ids.function_input) {
        return false;
    }
    if is_impl_step_template_id(t, ids) && !str_eq(t, mto.as_str()) && !str_eq(t, mfi.as_str()) {
        proof {
            assert forall|j: int| 0 <= j < node.slots@.len() implies has_slot_template(*node, #[trigger] node.slots@[j].slot_template_id@) by {
                assert(has_slot_template(g.nodes@[i as int], g.nodes@[i as int].slots@[j].slot_template_id@));
            }
        }
        if !check_step_slots(ids, node) {
            return false;
        }
    }
    check_data_type_chain(g, ids, node, g.nodes.len())
}

/// Whether the plan can be built from the canvas: `canvas_buildable`, tested.
pub fn check_canvas_buildable(g: &CanvasGraph, ids: &CanvasSchemaIds, fn_inputs: &Vec<Uid>, fn_outputs: &Vec<Uid>) -> (r: bool)
    requires
        ids.wf(),
    ensures
        r == canvas_buildable(*g, *ids, fn_inputs@, fn_outputs@),
{
    proof {
        lemma_buildable_by_nodes(*g, *ids, fn_inputs@, fn_outputs@);
    }
    let n = g.nodes.len();
    let mut a: usize = 0;
    while a < n
        invariant
            ids.wf(),
            n == g.nodes@.len(),
            a <= n,
            forall|i: int, j: int| 0 <= i < a && i < j < n ==> #[trigger] g.nodes@[i].instance_id@ != #[trigger] g.nodes@[j].instance_id@,
        decreases n - a,
    {
        let mut b: usize = a + 1;
        while b < n
            invariant
                ids.wf(),
                n == g.nodes@.len(),
                a < n,
                a < b <= n,
                forall|i: int, j: int| 0 <= i < a && i < j < n ==> #[trigger] g.nodes@[i].instance_id@ != #[trigger] g.nodes@[j].instance_id@,
                forall|j: int| a < j < b ==> g.nodes@[a as int].instance_id@ != #[trigger] g.nodes@[j].instance_id@,
            decreases n - b,
        {
            if str_eq(g.nodes[a].instance_id.as_str(), g.nodes[b].instance_id.as_str()) {
                return false;
            }
            b = b + 1;
        }
        a = a + 1;
    }
    if !check_step_slots_resolve(g, ids) {
        return false;
    }
    let mut i: usize = 0;
    while i < n
        invariant
            ids.wf(),
            n == g.nodes@.len(),
            i <= n,
            step_slots_resolve(*g, *ids),
            forall|k: int| 0 <= k < i ==> #[trigger] node_buildable(*g, *ids, fn_inputs@, fn_outputs@, k),
        decreases n - i,
    {
        if !check_node(g, ids, fn_inputs, fn_outputs, i) {
            return false;
        }
        i = i + 1;
    }
    true
}

/// The plan built from the canvas, where the canvas is buildable; `None`
/// where it is not.
pub fn build_schemaful_representation_checked(
    graph: &CanvasGraph,
    ids: &CanvasSchemaIds,
    definition: Uid,
    implementor: Uid,
    fn_inputs: &Vec<Uid>,
    fn_outputs: &Vec<Uid>,
    fn_impl_name: String,
) -> (r: Option<Vec<PlanOp>>)
    requires
        ids.wf(),
    ensures
        match r {
            Some(ops) => canvas_buildable(*graph, *ids, fn_inputs@, fn_outputs@) && op_views(ops@) == seq![
                PlanOpView::NewImplementation { definition, implementor, name: fn_impl_name@ },
            ] + terminal_pass(*ids, graph.nodes@) + step_pass(*ids, graph.nodes@) + data_pass(
                *graph,
                *ids,
                graph.nodes@,
                graph.nodes@.len(),
            ),
            None => !canvas_buildable(*graph, *ids, fn_inputs@, fn_outputs@),
        },
{
    if check_canvas_buildable(graph, ids, fn_inputs, fn_outputs) {
        Some(build_schemaful_representation_of_graph(graph, ids, definition, implementor, fn_inputs, fn_outputs, fn_impl_name))
    } else {
        None
    }
}

/// With the step templates the canvas offers, every step kind that a step
/// template names, the terminals aside, has a builder: no step node of the
/// canvas is left out of the plan for want of one.
pub proof fn lemma_named_step_kinds_have_builders(ids: CanvasSchemaIds, template: Seq<char>)
    requires
        ids.wf(),
        step_kind_of(ids, template) is Some,
        step_kind_of(ids, template) != Some(StepKind::MapToOutput),
        step_kind_of(ids, template) != Some(StepKind::MapFromInput),
    ensures
        builder_slot_names(step_kind_of(ids, template).unwrap()) is Some,
{
    let i = first_index_of(step_template_keys(ids), template).unwrap();
    lemma_first_index_key(step_template_keys(ids), template, i);
    let k = ids.step_templates()[i].0;
    if i < ids.steps@.len() {
        assert(ids.step_templates()[i] == ids.steps@[i]);
        assert(is_canvas_step_kind(ids.steps@[i].0));
    } else {
        assert(k == StepKind::MapToOutput || k == StepKind::MapFromInput);
    }
}

} // verus!
