use vstd::prelude::*;
use crate::ids::Uid;

verus! {

/// The binary steps: two arguments and one output.
#[derive(Clone, Copy, Debug, PartialEq, Eq, Structural)]
pub enum BinaryOp {
    MathDivide,
    BitOr,
    CompareEqual,
    BitAnd,
    MathAdd,
    MathModulus,
    MathMultiply,
    MathSubtract,
    CompareGreaterThan,
    CompareLessThan,
}

/// The kind of a step of a method implementation.
#[derive(Clone, Copy, Debug, PartialEq, Eq, Structural)]
pub enum StepKind {
    IsType,
    GetCollectionLength,
    Identity,
    InvokeMethod,
    BitNot,
    Binary(BinaryOp),
    If,
    IteratorFilter,
    MutateSlot,
    GetField,
    MutateField,
    MultiTypeSplitter,
    IteratorMap,
    TraverseSlot,
    WhileLoop,
    MapToOutput,
    MapFromInput,
}

/// A step of a method implementation, with the data nodes in each of its slots.
#[derive(Clone, Debug)]
pub enum ImplStep {
    IsType { id: Uid, input_operative: Uid, output_bool: Uid, type_check_operative: Uid },
    GetCollectionLength { id: Uid, input_collection: Uid, output_int: Uid },
    Identity { id: Uid, input: Uid, output: Uid },
    InvokeMethod {
        id: Uid,
        calling_operative: Uid,
        method_name: Uid,
        method_inputs: Vec<Uid>,
        method_outputs: Vec<Uid>,
    },
    BitNot { id: Uid, input_bool: Uid, output_bool: Uid },
    Binary { id: Uid, op: BinaryOp, argument_one: Uid, argument_two: Uid, output: Uid },
    If { id: Uid, condition: Uid, true_branch: Uid, false_branch: Uid, output: Vec<Uid> },
    IteratorFilter {
        id: Uid,
        input_collection: Uid,
        iteration_end_bool: Uid,
        iteration_start_item: Uid,
        output_collection: Uid,
    },
    MutateSlot { id: Uid, mutated_operative: Uid, new_value: Uid },
    GetField { id: Uid, input_operative: Uid, field_name: Uid, output_field: Uid },
    MutateField { id: Uid, mutated_operative: Uid, new_value: Uid },
    MultiTypeSplitter {
        id: Uid,
        input_multi_operative: Uid,
        convergence: Uid,
        discriminant_starts: Uid,
        output: Uid,
    },
    IteratorMap {
        id: Uid,
        input_collection: Uid,
        iteration_start_item: Uid,
        iteration_end_item: Uid,
        output_collection: Uid,
    },
    TraverseSlot { id: Uid, input_operative: Uid, slot_name: Uid, output_operatives: Uid },
    WhileLoop {
        id: Uid,
        initial_state: Uid,
        loop_state_ingestor: Uid,
        loop_exit_state: Uid,
        continue_while_bool: Uid,
        loop_state_stub: Uid,
        output: Uid,
    },
    /// Maps the data node `input` to the function output `output`.
    MapToOutput { id: Uid, input: Uid, output: Uid },
    /// Maps the function input `input` to the data node `output`.
    MapFromInput { id: Uid, input: Uid, output: Uid },
}

impl ImplStep {
    pub open spec fn spec_id(&self) -> Uid {
        match *self {
            ImplStep::IsType { id, .. } => id,
            ImplStep::GetCollectionLength { id, .. } => id,
            ImplStep::Identity { id, .. } => id,
            ImplStep::InvokeMethod { id, .. } => id,
            ImplStep::BitNot { id, .. } => id,
            ImplStep::Binary { id, .. } => id,
            ImplStep::If { id, .. } => id,
            ImplStep::IteratorFilter { id, .. } => id,
            ImplStep::MutateSlot { id, .. } => id,
            ImplStep::GetField { id, .. } => id,
            ImplStep::MutateField { id, .. } => id,
            ImplStep::MultiTypeSplitter { id, .. } => id,
            ImplStep::IteratorMap { id, .. } => id,
            ImplStep::TraverseSlot { id, .. } => id,
            ImplStep::WhileLoop { id, .. } => id,
            ImplStep::MapToOutput { id, .. } => id,
            ImplStep::MapFromInput { id, .. } => id,
        }
    }

    pub open spec fn spec_kind(&self) -> StepKind {
        match *self {
            ImplStep::IsType { .. } => StepKind::IsType,
            ImplStep::GetCollectionLength { .. } => StepKind::GetCollectionLength,
            ImplStep::Identity { .. } => StepKind::Identity,
            ImplStep::InvokeMethod { .. } => StepKind::InvokeMethod,
            ImplStep::BitNot { .. } => StepKind::BitNot,
            ImplStep::Binary { op, .. } => StepKind::Binary(op),
            ImplStep::If { .. } => StepKind::If,
            ImplStep::IteratorFilter { .. } => StepKind::IteratorFilter,
            ImplStep::MutateSlot { .. } => StepKind::MutateSlot,
            ImplStep::GetField { .. } => StepKind::GetField,
            ImplStep::MutateField { .. } => StepKind::MutateField,
            ImplStep::MultiTypeSplitter { .. } => StepKind::MultiTypeSplitter,
            ImplStep::IteratorMap { .. } => StepKind::IteratorMap,
            ImplStep::TraverseSlot { .. } => StepKind::TraverseSlot,
            ImplStep::WhileLoop { .. } => StepKind::WhileLoop,
            ImplStep::MapToOutput { .. } => StepKind::MapToOutput,
            ImplStep::MapFromInput { .. } => StepKind::MapFromInput,
        }
    }

    /// The identifier of the step.
    pub fn get_id(&self) -> (r: Uid)
        ensures
            r == self.spec_id(),
    {
        match self {
            ImplStep::IsType { id, .. } => *id,
            ImplStep::GetCollectionLength { id, .. } => *id,
            ImplStep::Identity { id, .. } => *id,
            ImplStep::InvokeMethod { id, .. } => *id,
            ImplStep::BitNot { id, .. } => *id,
            ImplStep::Binary { id, .. } => *id,
            ImplStep::If { id, .. } => *id,
            ImplStep::IteratorFilter { id, .. } => *id,
            ImplStep::MutateSlot { id, .. } => *id,
            ImplStep::GetField { id, .. } => *id,
            ImplStep::MutateField { id, .. } => *id,
            ImplStep::MultiTypeSplitter { id, .. } => *id,
            ImplStep::IteratorMap { id, .. } => *id,
            ImplStep::TraverseSlot { id, .. } => *id,
            ImplStep::WhileLoop { id, .. } => *id,
            ImplStep::MapToOutput { id, .. } => *id,
            ImplStep::MapFromInput { id, .. } => *id,
        }
    }

    /// The kind of the step.
    pub fn kind(&self) -> (r: StepKind)
        ensures
            r == self.spec_kind(),
    {
        match self {
            ImplStep::IsType { .. } => StepKind::IsType,
            ImplStep::GetCollectionLength { .. } => StepKind::GetCollectionLength,
            ImplStep::Identity { .. } => StepKind::Identity,
            ImplStep::InvokeMethod { .. } => StepKind::InvokeMethod,
            ImplStep::BitNot { .. } => StepKind::BitNot,
            ImplStep::Binary { op, .. } => StepKind::Binary(*op),
            ImplStep::If { .. } => StepKind::If,
            ImplStep::IteratorFilter { .. } => StepKind::IteratorFilter,
            ImplStep::MutateSlot { .. } => StepKind::MutateSlot,
            ImplStep::GetField { .. } => StepKind::GetField,
            ImplStep::MutateField { .. } => StepKind::MutateField,
            ImplStep::MultiTypeSplitter { .. } => StepKind::MultiTypeSplitter,
            ImplStep::IteratorMap { .. } => StepKind::IteratorMap,
            ImplStep::TraverseSlot { .. } => StepKind::TraverseSlot,
            ImplStep::WhileLoop { .. } => StepKind::WhileLoop,
            ImplStep::MapToOutput { .. } => StepKind::MapToOutput,
            ImplStep::MapFromInput { .. } => StepKind::MapFromInput,
        }
    }

    /// The data nodes that the step produces: what a deletion of the step
    /// deletes with it.
    pub open spec fn spec_outputs(&self) -> Seq<Uid> {
        match *self {
            ImplStep::IsType { output_bool, .. } => seq![output_bool],
            ImplStep::GetCollectionLength { output_int, .. } => seq![output_int],
            ImplStep::Identity { output, .. } => seq![output],
            ImplStep::InvokeMethod { method_outputs, .. } => method_outputs@,
            ImplStep::BitNot { output_bool, .. } => seq![output_bool],
            ImplStep::Binary { output, .. } => seq![output],
            ImplStep::If { output, .. } => if output@.len() > 0 { seq![output@[0]] } else { Seq::empty() },
            ImplStep::IteratorFilter { output_collection, .. } => seq![output_collection],
            ImplStep::MutateSlot { .. } => Seq::empty(),
            ImplStep::GetField { output_field, .. } => seq![output_field],
            ImplStep::MutateField { .. } => Seq::empty(),
            ImplStep::MultiTypeSplitter { output, .. } => seq![output],
            ImplStep::IteratorMap { output_collection, .. } => seq![output_collection],
            ImplStep::TraverseSlot { output_operatives, .. } => seq![output_operatives],
            ImplStep::WhileLoop { output, .. } => seq![output],
            ImplStep::MapToOutput { .. } => Seq::empty(),
            ImplStep::MapFromInput { output, .. } => seq![output],
        }
    }

    /// The data nodes that the step produces.
    pub fn outputs(&self) -> (r: Vec<Uid>)
        ensures
            r@ == self.spec_outputs(),
    {
        match self {
            ImplStep::IsType { output_bool, .. } => vec![*output_bool],
            ImplStep::GetCollectionLength { output_int, .. } => vec![*output_int],
            ImplStep::Identity { output, .. } => vec![*output],
            ImplStep::InvokeMethod { method_outputs, .. } => {
                let mut r: Vec<Uid> = Vec::new();
                let mut i: usize = 0;
                while i < method_outputs.len()
                    invariant
                        i <= method_outputs@.len(),
                        r@ == method_outputs@.take(i as int),
                    decreases method_outputs@.len() - i,
                {
                    r.push(method_outputs[i]);
                    proof {
                        assert(method_outputs@.take(i + 1) =~= method_outputs@.take(i as int).push(method_outputs@[i as int]));
                    }
                    i = i + 1;
                }
                proof {
                    assert(method_outputs@.take(i as int) =~= method_outputs@);
                }
                r
            },
            ImplStep::BitNot { output_bool, .. } => vec![*output_bool],
            ImplStep::Binary { output, .. } => vec![*output],
            ImplStep::If { output, .. } => if output.len() > 0 { vec![output[0]] } else { Vec::new() },
            ImplStep::IteratorFilter { output_collection, .. } => vec![*output_collection],
            ImplStep::MutateSlot { .. } => Vec::new(),
            ImplStep::GetField { output_field, .. } => vec![*output_field],
            ImplStep::MutateField { .. } => Vec::new(),
            ImplStep::MultiTypeSplitter { output, .. } => vec![*output],
            ImplStep::IteratorMap { output_collection, .. } => vec![*output_collection],
            ImplStep::TraverseSlot { output_operatives, .. } => vec![*output_operatives],
            ImplStep::WhileLoop { output, .. } => vec![*output],
            ImplStep::MapToOutput { .. } => Vec::new(),
            ImplStep::MapFromInput { output, .. } => vec![*output],
        }
    }
}

/// A data node of a method implementation and the steps it connects.
#[derive(Clone, Debug)]
pub struct ImplData {
    pub id: Uid,
    /// The steps whose output this data node is.
    pub upstream_steps: Vec<Uid>,
    /// The steps that consume this data node.
    pub downstream_steps: Vec<Uid>,
}

/// A method implementation: its data nodes, its steps, and the terminal steps
/// that map the function's inputs in and its outputs out.
#[derive(Clone, Debug)]
pub struct MethodImplementation {
    pub data: Vec<ImplData>,
    pub steps: Vec<ImplStep>,
    /// The `MapToOutput` steps, in order.
    pub map_to_outputs: Vec<Uid>,
    /// The `MapFromInput` steps, in order.
    pub map_from_inputs: Vec<Uid>,
}

impl MethodImplementation {
    pub open spec fn has_data(&self, id: Uid) -> bool {
        exists|i: int| 0 <= i < self.data@.len() && #[trigger] self.data@[i].id == id
    }

    pub open spec fn has_step(&self, id: Uid) -> bool {
        exists|i: int| 0 <= i < self.steps@.len() && #[trigger] self.steps@[i].spec_id() == id
    }

    /// The position of the data node `id`.
    pub open spec fn data_index(&self, id: Uid) -> int {
        choose|i: int| 0 <= i < self.data@.len() && #[trigger] self.data@[i].id == id
    }

    /// The position of the step `id`.
    pub open spec fn step_index(&self, id: Uid) -> int {
        choose|i: int| 0 <= i < self.steps@.len() && #[trigger] self.steps@[i].spec_id() == id
    }

    /// Identifiers are unique; every reference resolves.
    pub open spec fn ids_wf(&self) -> bool {
        &&& forall|i: int, j: int| 0 <= i < j < self.data@.len() ==> #[trigger] self.data@[i].id != #[trigger] self.data@[j].id
        &&& forall|i: int, j: int| 0 <= i < j < self.steps@.len() ==> #[trigger] self.steps@[i].spec_id() != #[trigger] self.steps@[j].spec_id()
        &&& forall|i: int, j: int| 0 <= i < self.data@.len() && 0 <= j < self.steps@.len()
            ==> #[trigger] self.data@[i].id != #[trigger] self.steps@[j].spec_id()
        &&& forall|i: int, k: int| 0 <= i < self.data@.len() && 0 <= k < self.data@[i].upstream_steps@.len()
            ==> self.has_step(#[trigger] self.data@[i].upstream_steps@[k])
        &&& forall|i: int, k: int| 0 <= i < self.data@.len() && 0 <= k < self.data@[i].downstream_steps@.len()
            ==> self.has_step(#[trigger] self.data@[i].downstream_steps@[k])
        &&& forall|i: int, k: int| 0 <= i < self.steps@.len() && 0 <= k < self.steps@[i].spec_outputs().len()
            ==> self.has_data(#[trigger] self.steps@[i].spec_outputs()[k])
        &&& self.data@.len() + self.steps@.len() < usize::MAX
    }
}

/// The position of a data node is the one that holds its identifier.
pub proof fn lemma_data_index_unique(m: &MethodImplementation, i: int, id: Uid)
    requires
        m.ids_wf(),
        0 <= i < m.data@.len(),
        m.data@[i].id == id,
    ensures
        m.data_index(id) == i,
{
    assert(m.has_data(id));
    let j = m.data_index(id);
    if j != i {
        if j < i {
            assert(m.data@[j].id != m.data@[i].id);
        } else {
            assert(m.data@[i].id != m.data@[j].id);
        }
    }
}

/// The position of a step is the one that holds its identifier.
pub proof fn lemma_step_index_unique(m: &MethodImplementation, i: int, id: Uid)
    requires
        m.ids_wf(),
        0 <= i < m.steps@.len(),
        m.steps@[i].spec_id() == id,
    ensures
        m.step_index(id) == i,
{
    assert(m.has_step(id));
    let j = m.step_index(id);
    if j != i {
        if j < i {
            assert(m.steps@[j].spec_id() != m.steps@[i].spec_id());
        } else {
            assert(m.steps@[i].spec_id() != m.steps@[j].spec_id());
        }
    }
}

/// The position of the data node `id`, found by a scan.
pub fn find_data(m: &MethodImplementation, id: Uid) -> (r: usize)
    requires
        m.has_data(id),
    ensures
        r < m.data@.len(),
        m.data@[r as int].id == id,
{
    let mut i: usize = 0;
    while i < m.data.len()
        invariant
            m.has_data(id),
            i <= m.data@.len(),
            forall|j: int| 0 <= j < i ==> m.data@[j].id != id,
        decreases m.data@.len() - i,
    {
        if m.data[i].id == id {
            return i;
        }
        i = i + 1;
    }
    proof {
        let j = choose|j: int| 0 <= j < m.data@.len() && #[trigger] m.data@[j].id == id;
    }
    0
}

/// The position of the step `id`, found by a scan.
pub fn find_step(m: &MethodImplementation, id: Uid) -> (r: usize)
    requires
        m.has_step(id),
    ensures
        r < m.steps@.len(),
        m.steps@[r as int].spec_id() == id,
{
    let mut i: usize = 0;
    while i < m.steps.len()
        invariant
            m.has_step(id),
            i <= m.steps@.len(),
            forall|j: int| 0 <= j < i ==> m.steps@[j].spec_id() != id,
        decreases m.steps@.len() - i,
    {
        if m.steps[i].get_id() == id {
            return i;
        }
        i = i + 1;
    }
    proof {
        let j = choose|j: int| 0 <= j < m.steps@.len() && #[trigger] m.steps@[j].spec_id() == id;
    }
    0
}

} // verus!
