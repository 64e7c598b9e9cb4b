# schema_editor

The decision logic of the molecule schema editor, verified with Verus.

The editor lets a user build a schema of templates, operatives (ever more
specialized subtypes of templates), traits and instances, and implement
methods of operatives on a visual canvas. This crate holds what the editor
decides, each function with a contract that Verus proves:

- `cardinality`, `cardinality_builder`, `cardinality_plan`, `slot_status`,
  `slot_builder`, `slot_instances`, `specialization_section`, `lineage`:
  bounds of slots, which cardinality specializations may refine which (a
  specialization only ever narrows the counts admitted above it), what saving
  one changes on the operative and its descendants, when a slot is full, what
  slotting an instance or deleting a specialization changes in the schema,
  and the lineage of a specialization.
- `operative_tree`, `operative_plan`, `implementations`, `workspace_list`:
  queries over the operative hierarchy (locked fields, slotted counts,
  ancestors, lineage), locking a field on an operative and its descendants,
  creating a derivative operative that keeps every lock of its parent, and the
  method and trait implementation lists.
- `impl_model`, `flow_model`, `execution_graph`, `deletion`: the execution
  flow of a method implementation, traced back from its outputs, and what
  deleting a step, or a whole method implementation, deletes with it.
- `canvas`, `canvas_plan`, `canvas_templates`, `schema_canvas`,
  `existing_canvas`, `impl_builder`, `function_io`: the mapping between the
  canvas and the schema in both directions, the canvas templates, and the
  changes that adding a function input or output makes.

Identifiers of schema objects are `u128` values; their text on the canvas is
the hyphenated form that the `uuid` crate writes, and new canvas nodes get
random identifiers from it.

`app/` holds copies of the option enums with `strum`'s derives, for listing,
showing and parsing them in a user interface.
