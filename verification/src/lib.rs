//! Verified core of the molecule schema editor: the decisions behind slot
//! cardinality specialization, the operative hierarchy queries, the
//! execution-flow analysis of method implementations and the mapping between
//! the visual method-implementation canvas and the schema.

pub mod ids;
pub mod cardinality;
pub mod cardinality_builder;
pub mod cardinality_plan;
pub mod slot_status;
pub mod operative_tree;
pub mod operative_plan;
pub mod impl_model;
pub mod deletion;
pub mod execution_graph;
pub mod flow_model;
pub mod canvas;
pub mod canvas_plan;
pub mod schema_canvas;
pub mod canvas_templates;
pub mod function_io;
pub mod slot_builder;
pub mod slot_instances;
pub mod specialization_section;
pub mod lineage;
pub mod implementations;
pub mod existing_canvas;
pub mod workspace_list;
pub mod impl_builder;
