use vstd::prelude::*;
use crate::ids::{Uid, uuid_text, uuid_to_string};
use crate::slot_status::SlotBound;

verus! {

/// The side of a canvas node on which a slot is drawn.
#[derive(Clone, Copy, Debug, PartialEq, Eq, Structural)]
pub enum SlotPosition {
    Left,
    Right,
    Top,
    Bottom,
}

/// Whether a slot's connections lead into the node or out of it.
#[derive(Clone, Copy, Debug, PartialEq, Eq, Structural)]
pub enum SlotDirection {
    Incoming,
    Outgoing,
}

/// A slot that a canvas node template offers.
#[derive(Clone, Debug)]
pub struct SlotTemplate {
    pub id: String,
    pub name: String,
    pub position: SlotPosition,
    pub slot_type: SlotDirection,
    pub can_modify_connections: bool,
    /// The names of the templates that the slot may connect to.
    pub allowed_connections: Vec<String>,
    pub min_connections: usize,
    pub max_connections: Option<usize>,
}

/// The kind of value a field of a canvas node holds.
#[derive(Clone, Copy, Debug, PartialEq, Eq, Structural)]
pub enum FieldType {
    Boolean,
    Integer,
    Str,
}

/// A field that a canvas node template offers, with the value it starts with.
#[derive(Clone, Debug)]
pub struct FieldTemplate {
    pub id: String,
    pub name: String,
    pub field_type: FieldType,
    pub default_value: String,
}

/// A template from which nodes are placed on the canvas.
#[derive(Clone, Debug)]
pub struct NodeTemplate {
    pub template_id: String,
    pub name: String,
    pub field_templates: Vec<FieldTemplate>,
    pub slot_templates: Vec<SlotTemplate>,
}

/// An operative or trait of the schema under its identifier and name.
#[derive(Clone, Debug)]
pub struct NamedItem {
    pub id: Uid,
    pub name: String,
}

/// The type of the values of a field of a constraint template.
#[derive(Clone, Copy, Debug, PartialEq, Eq, Structural)]
pub enum PrimitiveType {
    Bool,
    Int,
    Str,
    EmptyTuple,
    Option,
    List,
}

/// A slot of a constraint template, with the names of the operatives that it
/// admits.
#[derive(Clone, Debug)]
pub struct ConstraintSlot {
    pub id: Uid,
    pub name: String,
    pub allowed_operative_names: Vec<String>,
    pub bounds: SlotBound,
}

/// A field of a constraint template.
#[derive(Clone, Debug)]
pub struct ConstraintField {
    pub id: Uid,
    pub name: String,
    pub value_type: PrimitiveType,
}

/// An operative of the constraint schema, with its template's name, slots and
/// fields.
#[derive(Clone, Debug)]
pub struct LibraryOperative {
    pub id: Uid,
    pub template_name: String,
    pub slots: Vec<ConstraintSlot>,
    pub fields: Vec<ConstraintField>,
}

/// The least number of connections that slot bounds demand on the canvas.
pub open spec fn bound_min(b: SlotBound) -> nat {
    match b {
        SlotBound::Single => 1,
        SlotBound::LowerBound { lower_bound } => lower_bound as nat,
        SlotBound::UpperBound { .. } => 0,
        SlotBound::Range { lower_bound, .. } => lower_bound as nat,
        SlotBound::LowerBoundOrZero { .. } => 0,
        SlotBound::RangeOrZero { .. } => 0,
    }
}

/// The most connections that slot bounds admit on the canvas, where they
/// set a most.
pub open spec fn bound_max(b: SlotBound) -> Option<nat> {
    match b {
        SlotBound::Single => Some(1),
        SlotBound::LowerBound { .. } => None,
        SlotBound::UpperBound { upper_bound } => Some(upper_bound as nat),
        SlotBound::Range { upper_bound, .. } => Some(upper_bound as nat),
        SlotBound::LowerBoundOrZero { .. } => None,
        SlotBound::RangeOrZero { upper_bound, .. } => Some(upper_bound as nat),
    }
}

/// The least and most numbers of connections for slot bounds.
pub fn connection_bounds(b: SlotBound) -> (r: (usize, Option<usize>))
    ensures
        r.0 as nat == bound_min(b),
        match bound_max(b) {
            Some(m) => r.1 == Some(m as usize) && m <= usize::MAX,
            None => r.1 == None::<usize>,
        },
{
    match b {
        SlotBound::Single => (1, Some(1)),
        SlotBound::LowerBound { lower_bound } => (lower_bound as usize, None),
        SlotBound::UpperBound { upper_bound } => (0, Some(upper_bound as usize)),
        SlotBound::Range { lower_bound, upper_bound } => (lower_bound as usize, Some(upper_bound as usize)),
        SlotBound::LowerBoundOrZero { .. } => (0, None),
        SlotBound::RangeOrZero { upper_bound, .. } => (0, Some(upper_bound as usize)),
    }
}

/// The canvas field type of a value type, and the value a field starts with.
pub open spec fn field_kind(t: PrimitiveType) -> (FieldType, Seq<char>) {
    match t {
        PrimitiveType::Bool => (FieldType::Boolean, "false"@),
        PrimitiveType::Int => (FieldType::Integer, "0"@),
        _ => (FieldType::Str, Seq::empty()),
    }
}

/// Only booleans, integers and strings are fields on the canvas.
pub open spec fn is_canvas_field_type(t: PrimitiveType) -> bool {
    t == PrimitiveType::Bool || t == PrimitiveType::Int || t == PrimitiveType::Str
}

/// The slot template for a slot of a constraint template.
pub open spec fn slot_template_matches(st: SlotTemplate, slot: ConstraintSlot) -> bool {
    &&& st.id@ == uuid_text(slot.id)
    &&& st.name@ == slot.name@
    &&& st.position == SlotPosition::Right
    &&& st.slot_type == SlotDirection::Outgoing
    &&& st.can_modify_connections
    &&& st.allowed_connections@.map_values(|s: String| s@) == slot.allowed_operative_names@.map_values(|s: String| s@)
    &&& st.min_connections as nat == bound_min(slot.bounds)
    &&& match bound_max(slot.bounds) {
        Some(m) => st.max_connections == Some(m as usize),
        None => st.max_connections == None::<usize>,
    }
}

/// The field template for a field of a constraint template.
pub open spec fn field_template_matches(ft: FieldTemplate, field: ConstraintField) -> bool {
    &&& ft.id@ == uuid_text(field.id)
    &&& ft.name@ == field.name@
    &&& ft.field_type == field_kind(field.value_type).0
    &&& ft.default_value@ == field_kind(field.value_type).1
}

pub(crate) fn clone_names(v: &Vec<String>) -> (r: Vec<String>)
    ensures
        r@.map_values(|s: String| s@) == v@.map_values(|s: String| s@),
{
    let mut r: Vec<String> = Vec::new();
    let mut i: usize = 0;
    while i < v.len()
        invariant
            i <= v@.len(),
            r@.map_values(|s: String| s@) == v@.take(i as int).map_values(|s: String| s@),
        decreases v@.len() - i,
    {
        let ghost pre = r@;
        let c = v[i].clone();
        r.push(c);
        proof {
            assert(c@ == v@[i as int]@);
            assert(r@.map_values(|s: String| s@) =~= pre.map_values(|s: String| s@).push(c@));
            assert(v@.take(i + 1) =~= v@.take(i as int).push(v@[i as int]));
            assert(r@.map_values(|s: String| s@) =~= v@.take(i + 1).map_values(|s: String| s@));
        }
        i = i + 1;
    }
    proof {
        assert(v@.take(i as int) =~= v@);
    }
    r
}

/// The canvas template for an operative of the constraint schema: a slot
/// template for each of its slots, with the bounds as numbers of connections,
/// and, where `keep_fields`, a field template for each of its fields.
pub fn constraint_template_to_canvas_template(operative: &LibraryOperative, keep_fields: bool) -> (r: NodeTemplate)
    requires
        forall|k: int| 0 <= k < operative.fields@.len() ==> is_canvas_field_type(#[trigger] operative.fields@[k].value_type),
    ensures
        r.template_id@ == uuid_text(operative.id),
        r.name@ == operative.template_name@,
        r.slot_templates@.len() == operative.slots@.len(),
        forall|k: int| 0 <= k < r.slot_templates@.len() ==> slot_template_matches(
            #[trigger] r.slot_templates@[k],
            operative.slots@[k],
        ),
        keep_fields ==> r.field_templates@.len() == operative.fields@.len(),
        keep_fields ==> forall|k: int| 0 <= k < r.field_templates@.len() ==> field_template_matches(
            #[trigger] r.field_templates@[k],
            operative.fields@[k],
        ),
        !keep_fields ==> r.field_templates@.len() == 0,
{
    let mut slot_templates: Vec<SlotTemplate> = Vec::new();
    let mut i: usize = 0;
    while i < operative.slots.len()
        invariant
            i <= operative.slots@.len(),
            slot_templates@.len() == i,
            forall|k: int| 0 <= k < i ==> slot_template_matches(#[trigger] slot_templates@[k], operative.slots@[k]),
        decreases operative.slots@.len() - i,
    {
        let slot = &operative.slots[i];
        let (min_connections, max_connections) = connection_bounds(slot.bounds);
        slot_templates.push(
            SlotTemplate {
                id: uuid_to_string(slot.id),
                name: slot.name.clone(),
                position: SlotPosition::Right,
                slot_type: SlotDirection::Outgoing,
                can_modify_connections: true,
                allowed_connections: clone_names(&slot.allowed_operative_names),
                min_connections,
                max_connections,
            },
        );
        i = i + 1;
    }
    let mut field_templates: Vec<FieldTemplate> = Vec::new();
    let mut j: usize = 0;
    while j < operative.fields.len()
        invariant
            forall|k: int| 0 <= k < operative.fields@.len() ==> is_canvas_field_type(#[trigger] operative.fields@[k].value_type),
            j <= operative.fields@.len(),
            field_templates@.len() == j,
            forall|k: int| 0 <= k < j ==> field_template_matches(#[trigger] field_templates@[k], operative.fields@[k]),
        decreases operative.fields@.len() - j,
    {
        let field = &operative.fields[j];
        assert(is_canvas_field_type(operative.fields@[j as int].value_type));
        let (field_type, default_value) = match field.value_type {
            PrimitiveType::Bool => (FieldType::Boolean, String::from_str("false")),
            PrimitiveType::Int => (FieldType::Integer, String::from_str("0")),
            _ => (FieldType::Str, String::new()),
        };
        field_templates.push(
            FieldTemplate { id: uuid_to_string(field.id), name: field.name.clone(), field_type, default_value },
        );
        j = j + 1;
    }
    NodeTemplate {
        template_id: uuid_to_string(operative.id),
        name: operative.template_name.clone(),
        field_templates: if keep_fields {
            field_templates
        } else {
            Vec::new()
        },
        slot_templates,
    }
}

/// The canvas template for an operative of the schema: its identifier and
/// name, with no slots or fields.
pub fn rgso_operative_to_canvas_template(item: &NamedItem) -> (r: NodeTemplate)
    ensures
        r.template_id@ == uuid_text(item.id),
        r.name@ == item.name@,
        r.slot_templates@.len() == 0,
        r.field_templates@.len() == 0,
{
    NodeTemplate {
        template_id: uuid_to_string(item.id),
        name: item.name.clone(),
        field_templates: Vec::new(),
        slot_templates: Vec::new(),
    }
}

/// The canvas template for a trait of the schema: its identifier and name, with
/// no slots or fields.
pub fn rgso_trait_to_canvas_template(item: &NamedItem) -> (r: NodeTemplate)
    ensures
        r.template_id@ == uuid_text(item.id),
        r.name@ == item.name@,
        r.slot_templates@.len() == 0,
        r.field_templates@.len() == 0,
{
    NodeTemplate {
        template_id: uuid_to_string(item.id),
        name: item.name.clone(),
        field_templates: Vec::new(),
        slot_templates: Vec::new(),
    }
}

} // verus!
