use vstd::prelude::*;
use crate::ids::Uid;
use crate::canvas::DataTypeKind;
use crate::schema_canvas::{FunctionInputType, ImplDataType, decimal_text, u32_text};

verus! {

/// The kinds of data type that a new function input or output can have.
#[derive(Clone, Copy, Debug, PartialEq, Eq, Structural)]
pub enum InputOutputOptions {
    ImplDataMultiOperative,
    ImplDataBool,
    ImplDataInt,
    ImplDataString,
    ImplDataSingleOperative,
    ImplDataTraitOperative,
}

/// The data type kind that an option names.
pub open spec fn option_kind(o: InputOutputOptions) -> DataTypeKind {
    match o {
        InputOutputOptions::ImplDataMultiOperative => DataTypeKind::MultiOperative,
        InputOutputOptions::ImplDataBool => DataTypeKind::Bool,
        InputOutputOptions::ImplDataInt => DataTypeKind::Int,
        InputOutputOptions::ImplDataString => DataTypeKind::Str,
        InputOutputOptions::ImplDataSingleOperative => DataTypeKind::SingleOperative,
        InputOutputOptions::ImplDataTraitOperative => DataTypeKind::TraitOperative,
    }
}

impl InputOutputOptions {
    /// The data type kind that the option names.
    pub fn into(self) -> (r: DataTypeKind)
        ensures
            r == option_kind(self),
    {
        match self {
            InputOutputOptions::ImplDataMultiOperative => DataTypeKind::MultiOperative,
            InputOutputOptions::ImplDataBool => DataTypeKind::Bool,
            InputOutputOptions::ImplDataInt => DataTypeKind::Int,
            InputOutputOptions::ImplDataString => DataTypeKind::Str,
            InputOutputOptions::ImplDataSingleOperative => DataTypeKind::SingleOperative,
            InputOutputOptions::ImplDataTraitOperative => DataTypeKind::TraitOperative,
        }
    }
}

/// A data type as the type of a function input.
pub fn into_most_generic(item: ImplDataType) -> (r: FunctionInputType)
    ensures
        r == FunctionInputType::Data(item),
{
    FunctionInputType::Data(item)
}

/// Whether saving a new function input or output is not yet possible: an input
/// that is the operative itself can always be saved; a single-operative type
/// needs its operative, a trait-operative type at least one trait, and a
/// multi-operative type at least two operatives.
pub open spec fn spec_is_save_disabled(
    is_input: bool,
    is_self_input: bool,
    selected_variant: InputOutputOptions,
    has_selected_op: bool,
    selected_op_count: nat,
    selected_trait_count: nat,
) -> bool {
    if is_input && is_self_input {
        false
    } else {
        match selected_variant {
            InputOutputOptions::ImplDataSingleOperative => !has_selected_op,
            InputOutputOptions::ImplDataBool => false,
            InputOutputOptions::ImplDataTraitOperative => selected_trait_count < 1,
            InputOutputOptions::ImplDataInt => false,
            InputOutputOptions::ImplDataMultiOperative => selected_op_count < 2,
            InputOutputOptions::ImplDataString => false,
        }
    }
}

/// Whether saving a new function input or output is not yet possible.
pub fn is_save_disabled(
    is_input: bool,
    is_self_input: bool,
    selected_variant: InputOutputOptions,
    selected_op: Option<Uid>,
    selected_op_list: &Vec<Uid>,
    selected_trait_list: &Vec<Uid>,
) -> (r: bool)
    ensures
        r == spec_is_save_disabled(
            is_input,
            is_self_input,
            selected_variant,
            selected_op is Some,
            selected_op_list@.len(),
            selected_trait_list@.len(),
        ),
{
    if is_input && is_self_input {
        return false;
    }
    match selected_variant {
        InputOutputOptions::ImplDataSingleOperative => selected_op.is_none(),
        InputOutputOptions::ImplDataBool => false,
        InputOutputOptions::ImplDataTraitOperative => selected_trait_list.len() < 1,
        InputOutputOptions::ImplDataInt => false,
        InputOutputOptions::ImplDataMultiOperative => selected_op_list.len() < 2,
        InputOutputOptions::ImplDataString => false,
    }
}

/// A change to a function definition that adding an input or output calls for.
#[derive(Clone, Debug)]
pub enum IoOp {
    /// A new function input or output under the temporary identifier `temp`.
    NewInput { temp: String, name: String },
    NewOutput { temp: String, name: String },
    /// The definition lists the new input or output.
    AddInput { temp: String },
    AddOutput { temp: String },
    /// The new input is the operative itself.
    SelfType { input: String },
    /// A new data type node of the kind.
    NewDataType { temp: String, kind: DataTypeKind },
    /// A new single-operative data type node allowing `operative`.
    NewSingleOperative { temp: String, operative: Uid },
    /// The multi-operative data type node allows `operative` too.
    AllowOperative { temp: String, operative: Uid },
    /// The trait-operative data type node requires `trait_id` too.
    RequireTrait { temp: String, trait_id: Uid },
    /// A new collection data type node.
    NewCollection { temp: String },
    /// The input or output `owner` gets the type node `target` of the kind.
    SetType { owner: String, kind: DataTypeKind, target: String },
    /// The collection `collection` gets the item type node `target` of the kind.
    SetCollectionType { collection: String, kind: DataTypeKind, target: String },
}

/// A change to a function definition, as plain values.
pub enum IoOpView {
    NewInput { temp: Seq<char>, name: Seq<char> },
    NewOutput { temp: Seq<char>, name: Seq<char> },
    AddInput { temp: Seq<char> },
    AddOutput { temp: Seq<char> },
    SelfType { input: Seq<char> },
    NewDataType { temp: Seq<char>, kind: DataTypeKind },
    NewSingleOperative { temp: Seq<char>, operative: Uid },
    AllowOperative { temp: Seq<char>, operative: Uid },
    RequireTrait { temp: Seq<char>, trait_id: Uid },
    NewCollection { temp: Seq<char> },
    SetType { owner: Seq<char>, kind: DataTypeKind, target: Seq<char> },
    SetCollectionType { collection: Seq<char>, kind: DataTypeKind, target: Seq<char> },
}

impl View for IoOp {
    type V = IoOpView;

    open spec fn view(&self) -> IoOpView {
        match self {
            IoOp::NewInput { temp, name } => IoOpView::NewInput { temp: temp@, name: name@ },
            IoOp::NewOutput { temp, name } => IoOpView::NewOutput { temp: temp@, name: name@ },
            IoOp::AddInput { temp } => IoOpView::AddInput { temp: temp@ },
            IoOp::AddOutput { temp } => IoOpView::AddOutput { temp: temp@ },
            IoOp::SelfType { input } => IoOpView::SelfType { input: input@ },
            IoOp::NewDataType { temp, kind } => IoOpView::NewDataType { temp: temp@, kind: *kind },
            IoOp::NewSingleOperative { temp, operative } => IoOpView::NewSingleOperative {
                temp: temp@,
                operative: *operative,
            },
            IoOp::AllowOperative { temp, operative } => IoOpView::AllowOperative { temp: temp@, operative: *operative },
            IoOp::RequireTrait { temp, trait_id } => IoOpView::RequireTrait { temp: temp@, trait_id: *trait_id },
            IoOp::NewCollection { temp } => IoOpView::NewCollection { temp: temp@ },
            IoOp::SetType { owner, kind, target } => IoOpView::SetType { owner: owner@, kind: *kind, target: target@ },
            IoOp::SetCollectionType { collection, kind, target } => IoOpView::SetCollectionType {
                collection: collection@,
                kind: *kind,
                target: target@,
            },
        }
    }
}

/// The changes of a list, as plain values.
pub open spec fn io_views(v: Seq<IoOp>) -> Seq<IoOpView> {
    v.map_values(|op: IoOp| op@)
}

/// The temporary identifier of the new data type node.
pub open spec fn new_data_node() -> Seq<char> {
    "new_data_node"@
}

/// The changes that make the data type node of the chosen option: a
/// boolean node for the integer and string options too, as the editor makes
/// them, though the type it sets names the chosen kind.
pub open spec fn data_type_ops(
    option: InputOutputOptions,
    selected_op: Option<Uid>,
    op_list: Seq<Uid>,
    trait_list: Seq<Uid>,
) -> Seq<IoOpView> {
    match option {
        InputOutputOptions::ImplDataMultiOperative => seq![
            IoOpView::NewDataType { temp: new_data_node(), kind: DataTypeKind::MultiOperative },
        ] + op_list.map_values(|op: Uid| IoOpView::AllowOperative { temp: new_data_node(), operative: op }),
        InputOutputOptions::ImplDataSingleOperative => seq![
            IoOpView::NewSingleOperative {
                temp: new_data_node(),
                operative: match selected_op {
                    Some(op) => op,
                    None => 0,
                },
            },
        ],
        InputOutputOptions::ImplDataTraitOperative => seq![
            IoOpView::NewDataType { temp: new_data_node(), kind: DataTypeKind::TraitOperative },
        ] + trait_list.map_values(|t: Uid| IoOpView::RequireTrait { temp: new_data_node(), trait_id: t }),
        _ => seq![IoOpView::NewDataType { temp: new_data_node(), kind: DataTypeKind::Bool }],
    }
}

/// The temporary identifier of the collection layer `i`.
pub open spec fn layer_name(i: nat) -> Seq<char> {
    "layer_"@ + decimal_text(i)
}

/// The changes for the collection layer `i` of `layers` wrapping the data
/// type node: the layer, its link from the owner or from the layer before,
/// and, for the last, its link to the data type node.
pub open spec fn layer_ops(owner: Seq<char>, option: InputOutputOptions, layers: nat, i: nat) -> Seq<IoOpView> {
    seq![IoOpView::NewCollection { temp: layer_name(i) }] + (if i == 0 {
        seq![IoOpView::SetType { owner, kind: DataTypeKind::Collection, target: layer_name(0) }]
    } else {
        seq![
            IoOpView::SetCollectionType {
                collection: layer_name((i - 1) as nat),
                kind: DataTypeKind::Collection,
                target: layer_name(i),
            },
        ]
    }) + (if i == layers - 1 {
        seq![
            IoOpView::SetCollectionType { collection: layer_name(i), kind: option_kind(option), target: new_data_node() },
        ]
    } else {
        Seq::empty()
    })
}

/// The changes for the first `n` collection layers.
pub open spec fn layers_ops(owner: Seq<char>, option: InputOutputOptions, layers: nat, n: nat) -> Seq<IoOpView>
    decreases n,
{
    if n == 0 {
        Seq::empty()
    } else {
        layers_ops(owner, option, layers, (n - 1) as nat) + layer_ops(owner, option, layers, (n - 1) as nat)
    }
}

/// The changes that give the input or output `owner` its type: the data type
/// node, then the collection layers around it, or, without layers, the type
/// set directly.
pub open spec fn typing_ops(
    owner: Seq<char>,
    option: InputOutputOptions,
    selected_op: Option<Uid>,
    op_list: Seq<Uid>,
    trait_list: Seq<Uid>,
    layers: nat,
) -> Seq<IoOpView> {
    data_type_ops(option, selected_op, op_list, trait_list) + layers_ops(owner, option, layers, layers) + (if layers
        == 0 {
        seq![IoOpView::SetType { owner, kind: option_kind(option), target: new_data_node() }]
    } else {
        Seq::empty()
    })
}

fn text(s: &str) -> (r: String)
    ensures
        r@ == s@,
{
    String::from_str(s)
}

fn push_op(ops: &mut Vec<IoOp>, op: IoOp)
    ensures
        io_views(final(ops)@) == io_views(old(ops)@).push(op@),
{
    let ghost pre = ops@;
    ops.push(op);
    proof {
        assert(io_views(ops@) =~= io_views(pre).push(op@));
    }
}

fn option_kind_of(o: InputOutputOptions) -> (r: DataTypeKind)
    ensures
        r == option_kind(o),
{
    o.into()
}

/// Appends the changes that give `owner` its type.
fn push_typing_ops(
    ops: &mut Vec<IoOp>,
    owner: &str,
    option: InputOutputOptions,
    selected_op: Option<Uid>,
    op_list: &Vec<Uid>,
    trait_list: &Vec<Uid>,
    layers: u32,
)
    ensures
        io_views(final(ops)@) == io_views(old(ops)@) + typing_ops(
            owner@,
            option,
            selected_op,
            op_list@,
            trait_list@,
            layers as nat,
        ),
{
    let ghost start = io_views(ops@);
    match option {
        InputOutputOptions::ImplDataMultiOperative => {
            push_op(ops, IoOp::NewDataType { temp: text("new_data_node"), kind: DataTypeKind::MultiOperative });
            let mut i: usize = 0;
            while i < op_list.len()
                invariant
                    i <= op_list@.len(),
                    io_views(ops@) == start + seq![
                        IoOpView::NewDataType { temp: new_data_node(), kind: DataTypeKind::MultiOperative },
                    ] + op_list@.take(i as int).map_values(
                        |op: Uid| IoOpView::AllowOperative { temp: new_data_node(), operative: op },
                    ),
                decreases op_list@.len() - i,
            {
                push_op(ops, IoOp::AllowOperative { temp: text("new_data_node"), operative: op_list[i] });
                proof {
                    assert(op_list@.take(i + 1) =~= op_list@.take(i as int).push(op_list@[i as int]));
                    assert(io_views(ops@) =~= start + seq![
                        IoOpView::NewDataType { temp: new_data_node(), kind: DataTypeKind::MultiOperative },
                    ] + op_list@.take(i + 1).map_values(
                        |op: Uid| IoOpView::AllowOperative { temp: new_data_node(), operative: op },
                    ));
                }
                i = i + 1;
            }
            proof {
                assert(op_list@.take(i as int) =~= op_list@);
            }
        },
        InputOutputOptions::ImplDataSingleOperative => {
            let op = match selected_op {
                Some(op) => op,
                None => 0,
            };
            push_op(ops, IoOp::NewSingleOperative { temp: text("new_data_node"), operative: op });
        },
        InputOutputOptions::ImplDataTraitOperative => {
            push_op(ops, IoOp::NewDataType { temp: text("new_data_node"), kind: DataTypeKind::TraitOperative });
            let mut i: usize = 0;
            while i < trait_list.len()
                invariant
                    i <= trait_list@.len(),
                    io_views(ops@) == start + seq![
                        IoOpView::NewDataType { temp: new_data_node(), kind: DataTypeKind::TraitOperative },
                    ] + trait_list@.take(i as int).map_values(
                        |t: Uid| IoOpView::RequireTrait { temp: new_data_node(), trait_id: t },
                    ),
                decreases trait_list@.len() - i,
            {
                push_op(ops, IoOp::RequireTrait { temp: text("new_data_node"), trait_id: trait_list[i] });
                proof {
                    assert(trait_list@.take(i + 1) =~= trait_list@.take(i as int).push(trait_list@[i as int]));
                    assert(io_views(ops@) =~= start + seq![
                        IoOpView::NewDataType { temp: new_data_node(), kind: DataTypeKind::TraitOperative },
                    ] + trait_list@.take(i + 1).map_values(
                        |t: Uid| IoOpView::RequireTrait { temp: new_data_node(), trait_id: t },
                    ));
                }
                i = i + 1;
            }
            proof {
                assert(trait_list@.take(i as int) =~= trait_list@);
            }
        },
        _ => {
            push_op(ops, IoOp::NewDataType { temp: text("new_data_node"), kind: DataTypeKind::Bool });
        },
    }
    proof {
        assert(io_views(ops@) =~= start + data_type_ops(option, selected_op, op_list@, trait_list@));
    }
    let ghost mid = io_views(ops@);
    let kind = option_kind_of(option);
    let mut i: u32 = 0;
    while i < layers
        invariant
            i <= layers,
            kind == option_kind(option),
            io_views(ops@) == mid + layers_ops(owner@, option, layers as nat, i as nat),
        decreases layers - i,
    {
        let layer = text("layer_").concat(u32_text(i).as_str());
        push_op(ops, IoOp::NewCollection { temp: layer.clone() });
        if i == 0 {
            push_op(ops, IoOp::SetType { owner: text(owner), kind: DataTypeKind::Collection, target: layer.clone() });
        } else {
            let prev = text("layer_").concat(u32_text(i - 1).as_str());
            push_op(ops, IoOp::SetCollectionType { collection: prev, kind: DataTypeKind::Collection, target: layer.clone() });
        }
        if i == layers - 1 {
            push_op(ops, IoOp::SetCollectionType { collection: layer, kind, target: text("new_data_node") });
        }
        proof {
            assert(io_views(ops@) =~= mid + layers_ops(owner@, option, layers as nat, (i + 1) as nat));
        }
        i = i + 1;
    }
    if layers == 0 {
        push_op(ops, IoOp::SetType { owner: text(owner), kind, target: text("new_data_node") });
    }
    proof {
        assert(io_views(ops@) =~= start + typing_ops(owner@, option, selected_op, op_list@, trait_list@, layers as nat));
    }
}

/// The changes that adding a function input named `name` calls for: the new
/// input, listed by the definition, then, for an input that is the operative
/// itself, its self type; otherwise its data type node, wrapped in `layers`
/// collection layers.
pub open spec fn input_ops(
    name: Seq<char>,
    is_self_input: bool,
    option: InputOutputOptions,
    selected_op: Option<Uid>,
    op_list: Seq<Uid>,
    trait_list: Seq<Uid>,
    layers: nat,
) -> Seq<IoOpView> {
    let temp = "new_input_node"@;
    seq![IoOpView::NewInput { temp, name }, IoOpView::AddInput { temp }] + if is_self_input {
        seq![IoOpView::SelfType { input: temp }]
    } else {
        typing_ops(temp, option, selected_op, op_list, trait_list, layers)
    }
}

/// The changes that adding a function output named `name` calls for: the new
/// output, listed by the definition, then its data type node, wrapped in
/// `layers` collection layers.
pub open spec fn output_ops(
    name: Seq<char>,
    option: InputOutputOptions,
    selected_op: Option<Uid>,
    op_list: Seq<Uid>,
    trait_list: Seq<Uid>,
    layers: nat,
) -> Seq<IoOpView> {
    let temp = "new_output_node"@;
    seq![IoOpView::NewOutput { temp, name }, IoOpView::AddOutput { temp }] + typing_ops(
        temp,
        option,
        selected_op,
        op_list,
        trait_list,
        layers,
    )
}

/// The changes that adding a function input calls for. A single-operative
/// type needs its operative.
pub fn plan_new_function_input(
    name: String,
    is_self_input: bool,
    option: InputOutputOptions,
    selected_op: Option<Uid>,
    op_list: &Vec<Uid>,
    trait_list: &Vec<Uid>,
    layers: u32,
) -> (r: Vec<IoOp>)
    requires
        !is_self_input && option == InputOutputOptions::ImplDataSingleOperative ==> selected_op is Some,
    ensures
        io_views(r@) == input_ops(name@, is_self_input, option, selected_op, op_list@, trait_list@, layers as nat),
{
    let mut ops: Vec<IoOp> = Vec::new();
    let ghost n = name@;
    push_op(&mut ops, IoOp::NewInput { temp: text("new_input_node"), name });
    push_op(&mut ops, IoOp::AddInput { temp: text("new_input_node") });
    if is_self_input {
        push_op(&mut ops, IoOp::SelfType { input: text("new_input_node") });
    } else {
        push_typing_ops(&mut ops, "new_input_node", option, selected_op, op_list, trait_list, layers);
    }
    proof {
        assert(io_views(ops@) =~= input_ops(n, is_self_input, option, selected_op, op_list@, trait_list@, layers as nat));
    }
    ops
}

/// The changes that adding a function output calls for. A single-operative
/// type needs its operative.
pub fn plan_new_function_output(
    name: String,
    option: InputOutputOptions,
    selected_op: Option<Uid>,
    op_list: &Vec<Uid>,
    trait_list: &Vec<Uid>,
    layers: u32,
) -> (r: Vec<IoOp>)
    requires
        option == InputOutputOptions::ImplDataSingleOperative ==> selected_op is Some,
    ensures
        io_views(r@) == output_ops(name@, option, selected_op, op_list@, trait_list@, layers as nat),
{
    let mut ops: Vec<IoOp> = Vec::new();
    let ghost n = name@;
    push_op(&mut ops, IoOp::NewOutput { temp: text("new_output_node"), name });
    push_op(&mut ops, IoOp::AddOutput { temp: text("new_output_node") });
    push_typing_ops(&mut ops, "new_output_node", option, selected_op, op_list, trait_list, layers);
    proof {
        assert(io_views(ops@) =~= output_ops(n, option, selected_op, op_list@, trait_list@, layers as nat));
    }
    ops
}

} // verus!
