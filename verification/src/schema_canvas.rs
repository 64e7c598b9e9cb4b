use vstd::prelude::*;
use crate::ids::{Uid, uuid_parse, uuid_text, uuid_to_string};
use crate::canvas_plan::texts;

verus! {

/// A connection that a node placed on the canvas starts with: from its slot
/// `host_slot_name` to the node `target_instance_id`.
#[derive(Clone, Debug)]
pub struct InitialConnection {
    pub host_slot_name: String,
    pub target_instance_id: String,
    pub can_delete: bool,
}

/// A connection taken as plain values: slot name, target, whether it can be
/// deleted.
pub type ConnectionView = (Seq<char>, Seq<char>, bool);

impl View for InitialConnection {
    type V = ConnectionView;

    open spec fn view(&self) -> ConnectionView {
        (self.host_slot_name@, self.target_instance_id@, self.can_delete)
    }
}

/// A field value that a node placed on the canvas starts with.
#[derive(Clone, Debug)]
pub struct InitialFieldValue {
    pub field_template_id: String,
    pub value: String,
}

impl View for InitialFieldValue {
    type V = (Seq<char>, Seq<char>);

    open spec fn view(&self) -> (Seq<char>, Seq<char>) {
        (self.field_template_id@, self.value@)
    }
}

/// A node to place on the canvas: the schema object that is its template, its
/// identifier where it has one, and the connections and field values it starts
/// with.
#[derive(Clone, Debug)]
pub struct InitialNode {
    pub template_identifier: Uid,
    pub id: Option<String>,
    pub can_delete: bool,
    pub can_move: bool,
    pub initial_connections: Vec<InitialConnection>,
    pub initial_field_values: Vec<InitialFieldValue>,
}

/// A node to place on the canvas, as plain values.
pub struct InitialNodeView {
    pub template_identifier: Uid,
    pub id: Option<Seq<char>>,
    pub can_delete: bool,
    pub can_move: bool,
    pub connections: Seq<ConnectionView>,
    pub fields: Seq<(Seq<char>, Seq<char>)>,
}

impl View for InitialNode {
    type V = InitialNodeView;

    open spec fn view(&self) -> InitialNodeView {
        InitialNodeView {
            template_identifier: self.template_identifier,
            id: match self.id {
                Some(s) => Some(s@),
                None => None,
            },
            can_delete: self.can_delete,
            can_move: self.can_move,
            connections: self.initial_connections@.map_values(|c: InitialConnection| c@),
            fields: self.initial_field_values@.map_values(|f: InitialFieldValue| f@),
        }
    }
}

/// The nodes of a list, as plain values.
pub open spec fn node_views(v: Seq<InitialNode>) -> Seq<InitialNodeView> {
    v.map_values(|n: InitialNode| n@)
}

/// A node with the given parts.
pub open spec fn node_view(
    template: Uid,
    id: Option<Seq<char>>,
    can_delete: bool,
    connections: Seq<ConnectionView>,
    fields: Seq<(Seq<char>, Seq<char>)>,
) -> InitialNodeView {
    InitialNodeView { template_identifier: template, id, can_delete, can_move: true, connections, fields }
}

/// The node `v` with one more connection.
pub open spec fn with_connection(v: InitialNodeView, c: ConnectionView) -> InitialNodeView {
    InitialNodeView { connections: v.connections.push(c), ..v }
}

impl InitialNode {
    /// A node of the template, which can be deleted and moved, without an
    /// identifier, connections or field values.
    pub fn new(template_identifier: Uid) -> (r: InitialNode)
        ensures
            r@ == node_view(template_identifier, None, true, Seq::empty(), Seq::empty()),
    {
        let r = InitialNode {
            template_identifier,
            id: None,
            can_delete: true,
            can_move: true,
            initial_connections: Vec::new(),
            initial_field_values: Vec::new(),
        };
        proof {
            assert(r@.connections =~= Seq::<ConnectionView>::empty());
            assert(r@.fields =~= Seq::<(Seq<char>, Seq<char>)>::empty());
        }
        r
    }

    /// A node of the template under the identifier `id`.
    pub fn with_id(template_identifier: Uid, id: &String) -> (r: InitialNode)
        ensures
            r@ == node_view(template_identifier, Some(id@), true, Seq::empty(), Seq::empty()),
    {
        let mut r = InitialNode::new(template_identifier);
        r.id = Some(id.clone());
        r
    }

    /// Adds a field value.
    pub fn set_field(&mut self, field_template_id: String, value: String)
        ensures
            final(self)@ == (InitialNodeView {
                fields: old(self)@.fields.push((field_template_id@, value@)),
                ..old(self)@
            }),
    {
        let f = InitialFieldValue { field_template_id, value };
        let ghost before = self.initial_field_values@;
        self.initial_field_values.push(f);
        proof {
            assert(self.initial_field_values@.map_values(|f: InitialFieldValue| f@) =~= before.map_values(
                |f: InitialFieldValue| f@,
            ).push(f@));
        }
    }

    /// Adds a connection from the slot `host_slot_name` to `target`.
    pub fn connect(&mut self, host_slot_name: &str, target: &String, can_delete: bool)
        ensures
            final(self)@ == with_connection(old(self)@, (host_slot_name@, target@, can_delete)),
    {
        let c = InitialConnection {
            host_slot_name: String::from_str(host_slot_name),
            target_instance_id: target.clone(),
            can_delete,
        };
        let ghost before = self.initial_connections@;
        self.initial_connections.push(c);
        proof {
            assert(self.initial_connections@.map_values(|c: InitialConnection| c@) =~= before.map_values(
                |c: InitialConnection| c@,
            ).push(c@));
        }
    }
}

/// The decimal digit `d`.
pub open spec fn digit_char(d: int) -> char {
    (48 + d) as char
}

/// The decimal text of `v`, without leading zeros.
pub open spec fn decimal_text(v: nat) -> Seq<char>
    decreases v,
{
    if v < 10 {
        seq![digit_char(v as int)]
    } else {
        decimal_text(v / 10).push(digit_char((v % 10) as int))
    }
}

/// The text of a decimal digit.
fn digit_str(d: u32) -> (r: &'static str)
    requires
        d < 10,
    ensures
        r@ == seq![digit_char(d as int)],
{
    let r = match d {
        0 => {
            proof {
                reveal_strlit("0");
            }
            "0"
        },
        1 => {
            proof {
                reveal_strlit("1");
            }
            "1"
        },
        2 => {
            proof {
                reveal_strlit("2");
            }
            "2"
        },
        3 => {
            proof {
                reveal_strlit("3");
            }
            "3"
        },
        4 => {
            proof {
                reveal_strlit("4");
            }
            "4"
        },
        5 => {
            proof {
                reveal_strlit("5");
            }
            "5"
        },
        6 => {
            proof {
                reveal_strlit("6");
            }
            "6"
        },
        7 => {
            proof {
                reveal_strlit("7");
            }
            "7"
        },
        8 => {
            proof {
                reveal_strlit("8");
            }
            "8"
        },
        9 => {
            proof {
                reveal_strlit("9");
            }
            "9"
        },
        _ => {
            proof {
                reveal_strlit("9");
            }
            "9"
        },
    };
    assert(r@ =~= seq![digit_char(d as int)]);
    r
}

/// The decimal text of `v`, as `u32::to_string` writes it: its digits,
/// without sign or leading zeros.
pub(crate) fn u32_text(v: u32) -> (r: String)
    ensures
        r@ == decimal_text(v as nat),
    decreases v,
{
    if v < 10 {
        String::from_str(digit_str(v))
    } else {
        let mut s = u32_text(v / 10);
        s.append(digit_str(v % 10));
        assert(s@ =~= decimal_text((v / 10) as nat).push(digit_char((v % 10) as int)));
        s
    }
}

/// Calls `uuid::Uuid::new_v4().to_string()`. Claims of every outcome: a text
/// of 36 characters, the hyphenated form, that `Uuid::parse_str` reads back.
/// Which identifier comes out is left open: it is drawn at random.
#[verifier::external_body]
fn fresh_uuid_text() -> (r: String)
    ensures
        r@.len() == 36,
        uuid_parse(r@) is Some,
{
    uuid::Uuid::new_v4().to_string()
}

/// The data type of a data node, of a function input or of a function output,
/// with the schema objects it refers to.
#[derive(Debug)]
pub enum ImplDataType {
    MultiOperative { id: Uid, template: Uid, allowed: Vec<Uid> },
    Bool { id: Uid, template: Uid },
    Int { id: Uid, template: Uid },
    Str { id: Uid, template: Uid },
    ManualInt { id: Uid, template: Uid, value: u32, value_field: Uid },
    ManualBool { id: Uid, template: Uid, value: bool, value_field: Uid },
    Collection { id: Uid, template: Uid, item: Box<ImplDataType> },
    SingleOperative { id: Uid, template: Uid, allowed: Uid },
    ManualString { id: Uid, template: Uid, value: String, value_field: Uid },
    TraitOperative { id: Uid, template: Uid, required_traits: Vec<Uid> },
}

impl ImplDataType {
    pub open spec fn spec_id(&self) -> Uid {
        match *self {
            ImplDataType::MultiOperative { id, .. } => id,
            ImplDataType::Bool { id, .. } => id,
            ImplDataType::Int { id, .. } => id,
            ImplDataType::Str { id, .. } => id,
            ImplDataType::ManualInt { id, .. } => id,
            ImplDataType::ManualBool { id, .. } => id,
            ImplDataType::Collection { id, .. } => id,
            ImplDataType::SingleOperative { id, .. } => id,
            ImplDataType::ManualString { id, .. } => id,
            ImplDataType::TraitOperative { id, .. } => id,
        }
    }

    pub open spec fn spec_template(&self) -> Uid {
        match *self {
            ImplDataType::MultiOperative { template, .. } => template,
            ImplDataType::Bool { template, .. } => template,
            ImplDataType::Int { template, .. } => template,
            ImplDataType::Str { template, .. } => template,
            ImplDataType::ManualInt { template, .. } => template,
            ImplDataType::ManualBool { template, .. } => template,
            ImplDataType::Collection { template, .. } => template,
            ImplDataType::SingleOperative { template, .. } => template,
            ImplDataType::ManualString { template, .. } => template,
            ImplDataType::TraitOperative { template, .. } => template,
        }
    }

    /// The schema objects whose canvas identifiers the nodes of the data type
    /// take, in the order the nodes are made.
    pub open spec fn id_sources(&self) -> Seq<Uid>
        decreases *self,
    {
        match *self {
            ImplDataType::MultiOperative { id, allowed, .. } => seq![id] + allowed@,
            ImplDataType::Collection { id, item, .. } => seq![id] + (*item).id_sources(),
            ImplDataType::SingleOperative { id, allowed, .. } => seq![id, allowed],
            _ => seq![self.spec_id()],
        }
    }
}

/// The nodes that stand for the data type `dt` on the canvas, given the canvas
/// identifiers `ids` of its `id_sources`, in order.
pub open spec fn data_type_nodes(dt: ImplDataType, ids: Seq<Seq<char>>) -> Seq<InitialNodeView>
    decreases dt,
{
    let me = Some(ids[0]);
    match dt {
        ImplDataType::MultiOperative { template, allowed, .. } => Seq::new(
            allowed@.len(),
            |k: int| node_view(allowed@[k], Some(ids[1 + k]), true, Seq::empty(), Seq::empty()),
        ).push(
            node_view(
                template,
                me,
                true,
                Seq::new(allowed@.len(), |k: int| ("AllowedOperatives"@, ids[1 + k], true)),
                Seq::empty(),
            ),
        ),
        ImplDataType::ManualInt { template, value, value_field, .. } => seq![
            node_view(template, me, true, Seq::empty(), seq![(uuid_text(value_field), decimal_text(value as nat))]),
        ],
        ImplDataType::ManualBool { template, value, value_field, .. } => seq![
            node_view(
                template,
                me,
                true,
                Seq::empty(),
                seq![(uuid_text(value_field), if value { "true"@ } else { "false"@ })],
            ),
        ],
        ImplDataType::ManualString { template, value, value_field, .. } => seq![
            node_view(template, me, true, Seq::empty(), seq![(uuid_text(value_field), value@)]),
        ],
        ImplDataType::Collection { template, item, .. } => seq![
            node_view(template, me, true, seq![("CollectionType"@, ids[1], true)], Seq::empty()),
        ] + data_type_nodes(*item, ids.subrange(1, ids.len() as int)),
        ImplDataType::SingleOperative { template, allowed, .. } => seq![
            node_view(allowed, Some(ids[1]), true, Seq::empty(), Seq::empty()),
            node_view(template, me, true, seq![("AllowedOperative"@, ids[1], true)], Seq::empty()),
        ],
        ImplDataType::TraitOperative { template, required_traits, .. } => required_traits@.map_values(
            |t: Uid| node_view(t, Some(uuid_text(t)), true, Seq::empty(), Seq::empty()),
        ).push(
            node_view(
                template,
                me,
                true,
                required_traits@.map_values(|t: Uid| ("RequiredTraits"@, uuid_text(t), true)),
                Seq::empty(),
            ),
        ),
        _ => seq![node_view(dt.spec_template(), me, true, Seq::empty(), Seq::empty())],
    }
}

fn bool_text(b: bool) -> (r: String)
    ensures
        r@ == (if b { "true"@ } else { "false"@ }),
{
    if b {
        String::from_str("true")
    } else {
        String::from_str("false")
    }
}

/// The nodes that stand for the data type `dt` on the canvas, whose node
/// identifiers are `ids` from `start` on; connects `node_to_connect` to the
/// node of the data type through its slot `slot_name`.
pub fn data_type_complex_with_ids(
    dt: &ImplDataType,
    node_to_connect: &mut InitialNode,
    slot_name: &str,
    ids: &Vec<String>,
    start: usize,
) -> (r: Vec<InitialNode>)
    requires
        start + dt.id_sources().len() <= ids@.len(),
    ensures
        node_views(r@) == data_type_nodes(*dt, texts(ids@).subrange(start as int, ids@.len() as int)),
        final(node_to_connect)@ == with_connection(old(node_to_connect)@, (slot_name@, ids@[start as int]@, true)),
    decreases dt,
{
    let ghost idv = texts(ids@).subrange(start as int, ids@.len() as int);
    assert(idv[0] == ids@[start as int]@);
    let n = ids.len();
    let mut r: Vec<InitialNode> = Vec::new();
    match dt {
        ImplDataType::MultiOperative { template, allowed, .. } => {
            let mut dt_node = InitialNode::with_id(*template, &ids[start]);
            let mut k: usize = 0;
            proof {
                assert(dt_node@.connections =~= Seq::new(0, |j: int| ("AllowedOperatives"@, idv[1 + j], true)));
                assert(node_views(r@) =~= Seq::new(
                    0,
                    |j: int| node_view(allowed@[j], Some(idv[1 + j]), true, Seq::empty(), Seq::empty()),
                ));
            }
            while k < allowed.len()
                invariant
                    n == ids@.len(),
                    start + 1 + allowed@.len() <= ids@.len(),
                    idv == texts(ids@).subrange(start as int, ids@.len() as int),
                    k <= allowed@.len(),
                    node_views(r@) == Seq::new(
                        k as nat,
                        |j: int| node_view(allowed@[j], Some(idv[1 + j]), true, Seq::empty(), Seq::empty()),
                    ),
                    dt_node@ == node_view(
                        *template,
                        Some(idv[0]),
                        true,
                        Seq::new(k as nat, |j: int| ("AllowedOperatives"@, idv[1 + j], true)),
                        Seq::empty(),
                    ),
                decreases allowed@.len() - k,
            {
                assert(idv[1 + k] == ids@[start + 1 + k]@);
                let op = InitialNode::with_id(allowed[k], &ids[start + 1 + k]);
                dt_node.connect("AllowedOperatives", &ids[start + 1 + k], true);
                let ghost pre = r@;
                r.push(op);
                proof {
                    assert(node_views(r@) =~= node_views(pre).push(op@));
                    assert(node_views(r@) =~= Seq::new(
                        (k + 1) as nat,
                        |j: int| node_view(allowed@[j], Some(idv[1 + j]), true, Seq::empty(), Seq::empty()),
                    ));
                    assert(dt_node@.connections =~= Seq::new((k + 1) as nat, |j: int| ("AllowedOperatives"@, idv[1 + j], true)));
                }
                k = k + 1;
            }
            node_to_connect.connect(slot_name, &ids[start], true);
            let ghost pre = r@;
            r.push(dt_node);
            proof {
                assert(node_views(r@) =~= node_views(pre).push(dt_node@));
            }
        },
        ImplDataType::ManualInt { id, template, value, value_field } => {
            let mut dt_node = InitialNode::with_id(*template, &ids[start]);
            node_to_connect.connect(slot_name, &ids[start], true);
            dt_node.set_field(uuid_to_string(*value_field), u32_text(*value));
            r.push(dt_node);
        },
        ImplDataType::ManualBool { id, template, value, value_field } => {
            let mut dt_node = InitialNode::with_id(*template, &ids[start]);
            node_to_connect.connect(slot_name, &ids[start], true);
            dt_node.set_field(uuid_to_string(*value_field), bool_text(*value));
            r.push(dt_node);
        },
        ImplDataType::ManualString { id, template, value, value_field } => {
            let mut dt_node = InitialNode::with_id(*template, &ids[start]);
            node_to_connect.connect(slot_name, &ids[start], true);
            dt_node.set_field(uuid_to_string(*value_field), value.clone());
            r.push(dt_node);
        },
        ImplDataType::Collection { template, item, .. } => {
            assert(dt.id_sources().len() == 1 + item.id_sources().len());
            let mut dt_node = InitialNode::with_id(*template, &ids[start]);
            node_to_connect.connect(slot_name, &ids[start], true);
            let ghost before = dt_node@;
            let mut next = data_type_complex_with_ids(&**item, &mut dt_node, "CollectionType", ids, start + 1);
            proof {
                assert(texts(ids@).subrange(start + 1, ids@.len() as int) =~= idv.subrange(1, idv.len() as int));
                assert(ids@[start + 1]@ == idv[1]);
            }
            r.push(dt_node);
            let ghost pre = r@;
            r.append(&mut next);
            proof {
                assert(node_views(r@) =~= node_views(pre) + data_type_nodes(**item, idv.subrange(1, idv.len() as int)));
            }
        },
        ImplDataType::SingleOperative { template, allowed, .. } => {
            assert(dt.id_sources().len() == 2);
            let mut dt_node = InitialNode::with_id(*template, &ids[start]);
            assert(idv[1] == ids@[start + 1]@);
            let op = InitialNode::with_id(*allowed, &ids[start + 1]);
            dt_node.connect("AllowedOperative", &ids[start + 1], true);
            r.push(op);
            node_to_connect.connect(slot_name, &ids[start], true);
            r.push(dt_node);
        },
        ImplDataType::TraitOperative { template, required_traits, .. } => {
            let mut dt_node = InitialNode::with_id(*template, &ids[start]);
            let mut k: usize = 0;
            proof {
                assert(dt_node@.connections =~= required_traits@.take(0).map_values(
                    |t: Uid| ("RequiredTraits"@, uuid_text(t), true),
                ));
                assert(node_views(r@) =~= required_traits@.take(0).map_values(
                    |t: Uid| node_view(t, Some(uuid_text(t)), true, Seq::empty(), Seq::empty()),
                ));
            }
            while k < required_traits.len()
                invariant
                    k <= required_traits@.len(),
                    node_views(r@) == required_traits@.take(k as int).map_values(
                        |t: Uid| node_view(t, Some(uuid_text(t)), true, Seq::empty(), Seq::empty()),
                    ),
                    dt_node@ == node_view(
                        *template,
                        Some(idv[0]),
                        true,
                        required_traits@.take(k as int).map_values(|t: Uid| ("RequiredTraits"@, uuid_text(t), true)),
                        Seq::empty(),
                    ),
                decreases required_traits@.len() - k,
            {
                let t_id = uuid_to_string(required_traits[k]);
                let op = InitialNode::with_id(required_traits[k], &t_id);
                dt_node.connect("RequiredTraits", &t_id, true);
                let ghost pre = r@;
                r.push(op);
                proof {
                    assert(required_traits@.take(k + 1) =~= required_traits@.take(k as int).push(required_traits@[k as int]));
                    assert(node_views(r@) =~= node_views(pre).push(op@));
                    assert(dt_node@.connections =~= required_traits@.take(k + 1).map_values(
                        |t: Uid| ("RequiredTraits"@, uuid_text(t), true),
                    ));
                }
                k = k + 1;
            }
            proof {
                assert(required_traits@.take(k as int) =~= required_traits@);
            }
            node_to_connect.connect(slot_name, &ids[start], true);
            let ghost pre = r@;
            r.push(dt_node);
            proof {
                assert(node_views(r@) =~= node_views(pre).push(dt_node@));
            }
        },
        ImplDataType::Bool { template, .. } | ImplDataType::Int { template, .. } | ImplDataType::Str { template, .. } => {
            let dt_node = InitialNode::with_id(*template, &ids[start]);
            node_to_connect.connect(slot_name, &ids[start], true);
            r.push(dt_node);
        },
    }
    proof {
        assert(node_views(r@) =~= data_type_nodes(*dt, idv));
    }
    r
}

/// The canvas identifiers of the nodes of `dt` under their own identifiers.
pub open spec fn own_ids(dt: ImplDataType) -> Seq<Seq<char>> {
    dt.id_sources().map_values(|u: Uid| uuid_text(u))
}

/// `ids` can be the canvas identifiers of the nodes of `dt`: one for each of
/// its sources; where not `fresh`, the text of each source; where `fresh`,
/// each a text of 36 characters that names an identifier.
pub open spec fn ids_fit(dt: ImplDataType, ids: Seq<Seq<char>>, fresh: bool) -> bool {
    &&& ids.len() == dt.id_sources().len()
    &&& !fresh ==> ids == dt.id_sources().map_values(|u: Uid| uuid_text(u))
    &&& fresh ==> forall|k: int| 0 <= k < ids.len() ==> (#[trigger] ids[k]).len() == 36 && uuid_parse(ids[k]) is Some
}

/// The canvas identifier for the schema object `source`: a new random one where
/// `fresh`, its own text otherwise.
fn canvas_id(source: Uid, fresh: bool) -> (r: String)
    ensures
        !fresh ==> r@ == uuid_text(source),
        fresh ==> r@.len() == 36 && uuid_parse(r@) is Some,
{
    if fresh {
        fresh_uuid_text()
    } else {
        uuid_to_string(source)
    }
}

/// Canvas identifiers for the nodes of `dt`.
fn canvas_ids_for(dt: &ImplDataType, fresh: bool) -> (r: Vec<String>)
    ensures
        ids_fit(*dt, texts(r@), fresh),
    decreases dt,
{
    let mut r: Vec<String> = Vec::new();
    match dt {
        ImplDataType::MultiOperative { id, allowed, .. } => {
            r.push(canvas_id(*id, fresh));
            let mut k: usize = 0;
            while k < allowed.len()
                invariant
                    k <= allowed@.len(),
                    texts(r@).len() == 1 + k,
                    !fresh ==> texts(r@) == (seq![*id] + allowed@.take(k as int)).map_values(|u: Uid| uuid_text(u)),
                    fresh ==> forall|j: int| 0 <= j < texts(r@).len() ==> (#[trigger] texts(r@)[j]).len() == 36
                        && uuid_parse(texts(r@)[j]) is Some,
                decreases allowed@.len() - k,
            {
                let ghost pre = r@;
                r.push(canvas_id(allowed[k], fresh));
                proof {
                    assert(texts(r@) =~= texts(pre).push(r@[k + 1]@));
                    assert((seq![*id] + allowed@.take(k + 1)) =~= (seq![*id] + allowed@.take(k as int)).push(allowed@[k as int]));
                    if !fresh {
                        assert(texts(r@) =~= (seq![*id] + allowed@.take(k + 1)).map_values(|u: Uid| uuid_text(u)));
                    }
                }
                k = k + 1;
            }
            proof {
                assert(allowed@.take(k as int) =~= allowed@);
            }
        },
        ImplDataType::Collection { id, item, .. } => {
            r.push(canvas_id(*id, fresh));
            let mut rest = canvas_ids_for(&**item, fresh);
            let ghost pre = r@;
            let ghost rest_v = texts(rest@);
            r.append(&mut rest);
            proof {
                assert(texts(r@) =~= texts(pre) + rest_v);
                assert(dt.id_sources() == seq![*id] + item.id_sources());
                if !fresh {
                    assert((seq![*id] + item.id_sources()).map_values(|u: Uid| uuid_text(u)) =~= seq![uuid_text(*id)]
                        + item.id_sources().map_values(|u: Uid| uuid_text(u)));
                    assert(texts(r@) =~= dt.id_sources().map_values(|u: Uid| uuid_text(u)));
                } else {
                    assert forall|k: int| 0 <= k < texts(r@).len() implies (#[trigger] texts(r@)[k]).len() == 36
                        && uuid_parse(texts(r@)[k]) is Some by {
                        if k > 0 {
                            assert(texts(r@)[k] == rest_v[k - 1]);
                        }
                    }
                }
            }
        },
        ImplDataType::SingleOperative { id, allowed, .. } => {
            r.push(canvas_id(*id, fresh));
            r.push(canvas_id(*allowed, fresh));
            proof {
                if !fresh {
                    assert(texts(r@) =~= dt.id_sources().map_values(|u: Uid| uuid_text(u)));
                }
            }
        },
        ImplDataType::Bool { id, .. } | ImplDataType::Int { id, .. } | ImplDataType::Str { id, .. }
        | ImplDataType::ManualInt { id, .. } | ImplDataType::ManualBool { id, .. }
        | ImplDataType::ManualString { id, .. } | ImplDataType::TraitOperative { id, .. } => {
            r.push(canvas_id(*id, fresh));
            proof {
                if !fresh {
                    assert(texts(r@) =~= dt.id_sources().map_values(|u: Uid| uuid_text(u)));
                }
            }
        },
    }
    r
}

/// The nodes that stand for the data type `dt` on the canvas, under their own
/// identifiers or, where `use_new_ids`, under new random ones; connects
/// `node_to_connect` to the node of the data type through its slot `slot_name`.
pub fn generate_impldatavariant_complex(
    dt: &ImplDataType,
    node_to_connect: &mut InitialNode,
    slot_name: &str,
    use_new_ids: bool,
) -> (r: Vec<InitialNode>)
    ensures
        exists|ids: Seq<Seq<char>>|
            #![trigger data_type_nodes(*dt, ids)]
            ids_fit(*dt, ids, use_new_ids) && node_views(r@) == data_type_nodes(*dt, ids) && final(node_to_connect)@
                == with_connection(old(node_to_connect)@, (slot_name@, ids[0], true)),
        !use_new_ids ==> node_views(r@) == data_type_nodes(*dt, own_ids(*dt)),
        !use_new_ids ==> final(node_to_connect)@ == with_connection(
            old(node_to_connect)@,
            (slot_name@, uuid_text(dt.spec_id()), true),
        ),
{
    let ids = canvas_ids_for(dt, use_new_ids);
    let r = data_type_complex_with_ids(dt, node_to_connect, slot_name, &ids, 0);
    proof {
        assert(texts(ids@).subrange(0, ids@.len() as int) =~= texts(ids@));
        assert(texts(ids@)[0] == ids@[0]@);
        assert(dt.id_sources()[0] == dt.spec_id());
    }
    r
}

/// A data node of a method implementation, with its data type.
#[derive(Debug)]
pub struct DataNodeSchema {
    pub id: Uid,
    pub template: Uid,
    pub data_type: ImplDataType,
}

/// The type of a function input: the implementing operative itself, or a data type.
#[derive(Debug)]
pub enum FunctionInputType {
    SelfType { template: Uid },
    Data(ImplDataType),
}

/// A function input of a function definition.
#[derive(Debug)]
pub struct FunctionInputSchema {
    pub id: Uid,
    pub template: Uid,
    pub name: String,
    /// The name field of the function input's template.
    pub name_field: Uid,
    pub input_type: FunctionInputType,
}

/// A function output of a function definition.
#[derive(Debug)]
pub struct FunctionOutputSchema {
    pub id: Uid,
    pub template: Uid,
    pub name: String,
    /// The name field of the function output's template.
    pub name_field: Uid,
    pub output_type: ImplDataType,
}

/// The templates of the nodes that tie the function's inputs and outputs to
/// data nodes.
#[derive(Clone, Copy, Debug)]
pub struct StepTemplates {
    pub impl_data: Uid,
    pub single_operative: Uid,
    pub map_from_input: Uid,
    pub map_to_output: Uid,
}

/// The nodes `v`, none of which can be deleted.
pub open spec fn undeletable(v: Seq<InitialNodeView>) -> Seq<InitialNodeView> {
    v.map_values(|n: InitialNodeView| InitialNodeView { can_delete: false, ..n })
}

fn make_undeletable(v: &mut Vec<InitialNode>)
    ensures
        node_views(final(v)@) == undeletable(node_views(old(v)@)),
{
    let mut i: usize = 0;
    let ghost start = node_views(v@);
    while i < v.len()
        invariant
            i <= v@.len(),
            v@.len() == start.len(),
            forall|j: int| 0 <= j < i ==> #[trigger] node_views(v@)[j] == undeletable(start)[j],
            forall|j: int| i <= j < v@.len() ==> #[trigger] node_views(v@)[j] == start[j],
        decreases v@.len() - i,
    {
        let ghost before = v@;
        let mut n = v.remove(i);
        n.can_delete = false;
        v.insert(i, n);
        proof {
            assert(v@ =~= before.update(i as int, n));
            assert forall|j: int| 0 <= j < i + 1 implies #[trigger] node_views(v@)[j] == undeletable(start)[j] by {
                if j < i {
                    assert(node_views(v@)[j] == node_views(before)[j]);
                } else {
                    assert(node_views(v@)[j] == n@);
                    assert(node_views(before)[j] == start[j]);
                }
            }
            assert forall|j: int| i + 1 <= j < v@.len() implies #[trigger] node_views(v@)[j] == start[j] by {
                assert(node_views(v@)[j] == node_views(before)[j]);
            }
        }
        i = i + 1;
    }
    proof {
        assert(node_views(v@) =~= undeletable(start));
    }
}

/// The nodes that stand for a data node of a method implementation: those of
/// its data type, then the data node, connected to its data type.
pub open spec fn data_node_complex(d: DataNodeSchema) -> Seq<InitialNodeView> {
    data_type_nodes(d.data_type, own_ids(d.data_type)) + seq![
        node_view(
            d.template,
            Some(uuid_text(d.id)),
            true,
            seq![("DataType"@, uuid_text(d.data_type.spec_id()), true)],
            Seq::empty(),
        ),
    ]
}

/// The nodes that stand for a data node of a method implementation.
pub fn generate_impldata_complex(impl_data_node: &DataNodeSchema) -> (r: Vec<InitialNode>)
    ensures
        node_views(r@) == data_node_complex(*impl_data_node),
{
    let mut data_node = InitialNode::with_id(impl_data_node.template, &uuid_to_string(impl_data_node.id));
    let mut r = generate_impldatavariant_complex(&impl_data_node.data_type, &mut data_node, "DataType", false);
    let ghost pre = r@;
    r.push(data_node);
    proof {
        assert(node_views(r@) =~= node_views(pre).push(data_node@));
        assert(data_node@.connections =~= seq![("DataType"@, uuid_text(impl_data_node.data_type.spec_id()), true)]);
    }
    r
}

/// The data type of a function input that is not the operative itself.
pub fn map_input_types_to_impldatavariant(input_type: FunctionInputType) -> (r: ImplDataType)
    requires
        input_type is Data,
    ensures
        r == input_type->Data_0,
{
    match input_type {
        FunctionInputType::Data(dt) => dt,
        FunctionInputType::SelfType { .. } => {
            proof {
                assert(false);
            }
            ImplDataType::Bool { id: 0, template: 0 }
        },
    }
}

/// The data type of a function output, which is never one set by hand.
pub fn map_output_types_to_impldatavariant(output_type: ImplDataType) -> (r: ImplDataType)
    ensures
        r == output_type,
{
    output_type
}

/// A text of 36 characters that names an identifier: what a new random
/// identifier looks like.
pub open spec fn is_fresh_text(s: Seq<char>) -> bool {
    s.len() == 36 && uuid_parse(s) is Some
}

/// The node of a function input or output, with its name field and the
/// connection `conn` of its `Type` slot.
pub open spec fn io_node(template: Uid, id: Uid, name_field: Uid, name: Seq<char>, conn: ConnectionView) -> InitialNodeView {
    node_view(template, Some(uuid_text(id)), true, seq![conn], seq![(uuid_text(name_field), name)])
}

/// The nodes that stand for a function input; `self_id` is the identifier of
/// the node of the operative where the input is the operative itself.
pub open spec fn input_complex(fi: FunctionInputSchema, self_id: Seq<char>) -> Seq<InitialNodeView> {
    match fi.input_type {
        FunctionInputType::SelfType { template } => seq![
            node_view(template, Some(self_id), false, Seq::empty(), Seq::empty()),
            io_node(fi.template, fi.id, fi.name_field, fi.name@, ("Type"@, self_id, false)),
        ],
        FunctionInputType::Data(dt) => undeletable(data_type_nodes(dt, own_ids(dt))) + seq![
            io_node(fi.template, fi.id, fi.name_field, fi.name@, ("Type"@, uuid_text(dt.spec_id()), true)),
        ],
    }
}

/// The node of a function input or output with its name field.
fn named_io_node(template: Uid, id: Uid, name_field: Uid, name: &String) -> (r: InitialNode)
    ensures
        r@ == node_view(template, Some(uuid_text(id)), true, Seq::empty(), seq![(uuid_text(name_field), name@)]),
{
    let mut n = InitialNode::with_id(template, &uuid_to_string(id));
    n.set_field(uuid_to_string(name_field), name.clone());
    proof {
        assert(n@.fields =~= seq![(uuid_text(name_field), name@)]);
    }
    n
}

/// The nodes that stand for a function input: the nodes of its type, which
/// cannot be deleted, then the input node, connected to its type; for an input
/// that is the operative itself, a node of the operative under a new random
/// identifier.
pub fn create_functioninput_complex(function_input: &FunctionInputSchema) -> (r: Vec<InitialNode>)
    ensures
        function_input.input_type is Data ==> node_views(r@) == input_complex(*function_input, Seq::empty()),
        function_input.input_type is SelfType ==> exists|self_id: Seq<char>|
            #![trigger input_complex(*function_input, self_id)]
            is_fresh_text(self_id) && node_views(r@) == input_complex(*function_input, self_id),
{
    let fi = function_input;
    let mut fi_node = named_io_node(fi.template, fi.id, fi.name_field, &fi.name);
    let mut r: Vec<InitialNode> = Vec::new();
    let ghost mut self_id: Seq<char> = Seq::empty();
    match &fi.input_type {
        FunctionInputType::SelfType { template } => {
            let sid = fresh_uuid_text();
            let mut self_node = InitialNode::with_id(*template, &sid);
            self_node.can_delete = false;
            fi_node.connect("Type", &sid, false);
            r.push(self_node);
            proof {
                self_id = sid@;
            }
        },
        FunctionInputType::Data(dt) => {
            let mut nodes = generate_impldatavariant_complex(dt, &mut fi_node, "Type", false);
            make_undeletable(&mut nodes);
            r.append(&mut nodes);
        },
    }
    let ghost pre = r@;
    r.push(fi_node);
    proof {
        assert(node_views(r@) =~= node_views(pre).push(fi_node@));
        assert(fi_node@.connections.len() == 1);
        assert(node_views(r@) =~= input_complex(*function_input, self_id));
    }
    r
}

/// The nodes that stand for a function output: the output node, connected to
/// its type, then the nodes of its type, which cannot be deleted.
pub open spec fn output_complex(fo: FunctionOutputSchema) -> Seq<InitialNodeView> {
    seq![
        io_node(
            fo.template,
            fo.id,
            fo.name_field,
            fo.name@,
            ("Type"@, uuid_text(fo.output_type.spec_id()), true),
        ),
    ] + undeletable(data_type_nodes(fo.output_type, own_ids(fo.output_type)))
}

/// The nodes that stand for a function output.
pub fn create_functionoutput_complex(function_output: &FunctionOutputSchema) -> (r: Vec<InitialNode>)
    ensures
        node_views(r@) == output_complex(*function_output),
{
    let fo = function_output;
    let mut fo_node = named_io_node(fo.template, fo.id, fo.name_field, &fo.name);
    let mut nodes = generate_impldatavariant_complex(&fo.output_type, &mut fo_node, "Type", false);
    make_undeletable(&mut nodes);
    let mut r: Vec<InitialNode> = vec![fo_node];
    let ghost pre = r@;
    r.append(&mut nodes);
    proof {
        assert(node_views(r@) =~= node_views(pre) + undeletable(data_type_nodes(fo.output_type, own_ids(fo.output_type))));
        assert(node_views(pre) =~= seq![fo_node@]);
    }
    r
}

/// The `MapFromInput` step node from the function input `fi_id` to the data
/// node `data_id`.
pub open spec fn map_from_input_node(tids: StepTemplates, fi_id: Uid, data_id: Seq<char>, step_id: Seq<char>) -> InitialNodeView {
    node_view(
        tids.map_from_input,
        Some(step_id),
        false,
        seq![("Input"@, uuid_text(fi_id), false), ("Output"@, data_id, false)],
        Seq::empty(),
    )
}

/// The data node that a function input is mapped to, with its data type: for an
/// input that is the operative itself, a single-operative data type allowing
/// the implementing operative.
pub open spec fn input_data_part(
    input: FunctionInputSchema,
    impling_operative: Uid,
    tids: StepTemplates,
    data_id: Seq<char>,
    dt_id: Seq<char>,
    op_id: Seq<char>,
    cids: Seq<Seq<char>>,
) -> Seq<InitialNodeView> {
    match input.input_type {
        FunctionInputType::SelfType { .. } => seq![
            node_view(tids.impl_data, Some(data_id), false, seq![("DataType"@, dt_id, false)], Seq::empty()),
            node_view(tids.single_operative, Some(dt_id), false, seq![("AllowedOperative"@, op_id, false)], Seq::empty()),
            node_view(impling_operative, Some(op_id), true, Seq::empty(), Seq::empty()),
        ],
        FunctionInputType::Data(dt) => data_type_nodes(dt, cids) + seq![
            node_view(tids.impl_data, Some(data_id), false, seq![("DataType"@, cids[0], true)], Seq::empty()),
        ],
    }
}

/// The identifiers drawn for a function input brought onto the canvas fit it.
pub open spec fn input_ids_fit(input: FunctionInputSchema, ids: Seq<Seq<char>>, cids: Seq<Seq<char>>) -> bool {
    &&& ids.len() == 5
    &&& forall|k: int| 0 <= k < 5 ==> is_fresh_text(#[trigger] ids[k])
    &&& input.input_type is Data ==> ids_fit(input.input_type->Data_0, cids, true)
}

/// The nodes that bring a function input onto the canvas of its method
/// implementation: the input's own nodes, a data node under a new identifier
/// with its data type, and a `MapFromInput` step between them.
pub open spec fn input_mapstep_complex(
    input: FunctionInputSchema,
    impling_operative: Uid,
    tids: StepTemplates,
    ids: Seq<Seq<char>>,
    cids: Seq<Seq<char>>,
) -> Seq<InitialNodeView> {
    let self_id = ids[0];
    let data_id = ids[1];
    let step_id = ids[2];
    input_complex(input, if input.input_type is SelfType { self_id } else { Seq::empty() }) + input_data_part(
        input,
        impling_operative,
        tids,
        data_id,
        ids[3],
        ids[4],
        cids,
    ) + seq![map_from_input_node(tids, input.id, data_id, step_id)]
}

/// The nodes that bring a function input onto the canvas of its method
/// implementation, its data node and step under new random identifiers.
pub fn generate_function_input_and_mapstep_complex(
    input: &FunctionInputSchema,
    impling_operative: Uid,
    tids: &StepTemplates,
) -> (r: Vec<InitialNode>)
    ensures
        exists|ids: Seq<Seq<char>>, cids: Seq<Seq<char>>|
            #![trigger input_mapstep_complex(*input, impling_operative, *tids, ids, cids)]
            input_ids_fit(*input, ids, cids) && node_views(r@) == input_mapstep_complex(*input, impling_operative, *tids, ids, cids),
{
    let function_input_id = uuid_to_string(input.id);
    let data_node_id = fresh_uuid_text();
    let mut r = create_functioninput_complex(input);
    let ghost self_id = if input.input_type is SelfType {
        choose|sid: Seq<char>| is_fresh_text(sid) && node_views(r@) == input_complex(*input, sid)
    } else {
        data_node_id@
    };
    let mut map_step_node = InitialNode::with_id(tids.map_from_input, &fresh_uuid_text());
    map_step_node.can_delete = false;
    map_step_node.connect("Input", &function_input_id, false);
    map_step_node.connect("Output", &data_node_id, false);
    let ghost step_id = map_step_node@.id->0;
    let ghost mut dt_id = data_node_id@;
    let ghost mut op_id = data_node_id@;
    let ghost mut cids: Seq<Seq<char>> = Seq::empty();
    let ghost pre = node_views(r@);
    match &input.input_type {
        FunctionInputType::SelfType { .. } => {
            let data_type_node_id = fresh_uuid_text();
            let allowed_operative_node_id = fresh_uuid_text();
            let mut impl_data_node = InitialNode::with_id(tids.impl_data, &data_node_id);
            impl_data_node.can_delete = false;
            impl_data_node.connect("DataType", &data_type_node_id, false);
            let mut data_type_node = InitialNode::with_id(tids.single_operative, &data_type_node_id);
            data_type_node.can_delete = false;
            data_type_node.connect("AllowedOperative", &allowed_operative_node_id, false);
            let op_node = InitialNode::with_id(impling_operative, &allowed_operative_node_id);
            r.push(impl_data_node);
            r.push(data_type_node);
            r.push(op_node);
            proof {
                dt_id = data_type_node_id@;
                op_id = allowed_operative_node_id@;
                assert(node_views(r@) =~= pre + input_data_part(*input, impling_operative, *tids, data_node_id@, dt_id, op_id, cids));
            }
        },
        FunctionInputType::Data(dt) => {
            let mut data_node = InitialNode::with_id(tids.impl_data, &data_node_id);
            data_node.can_delete = false;
            let ghost before = data_node@;
            let mut additional = generate_impldatavariant_complex(dt, &mut data_node, "DataType", true);
            proof {
                cids = choose|ids: Seq<Seq<char>>|
                    #![trigger data_type_nodes(*dt, ids)]
                    ids_fit(*dt, ids, true) && node_views(additional@) == data_type_nodes(*dt, ids) && data_node@
                        == with_connection(before, ("DataType"@, ids[0], true));
                assert(data_node@.connections =~= seq![("DataType"@, cids[0], true)]);
            }
            r.append(&mut additional);
            r.push(data_node);
            proof {
                assert(node_views(r@) =~= pre + input_data_part(*input, impling_operative, *tids, data_node_id@, dt_id, op_id, cids));
            }
        },
    }
    let ghost mid = node_views(r@);
    r.push(map_step_node);
    proof {
        let ids = seq![self_id, data_node_id@, step_id, dt_id, op_id];
        assert(map_step_node@ == map_from_input_node(*tids, input.id, data_node_id@, step_id)) by {
            assert(map_step_node@.connections =~= seq![("Input"@, uuid_text(input.id), false), ("Output"@, data_node_id@, false)]);
        }
        assert(node_views(r@) =~= mid.push(map_step_node@));
        assert(input_ids_fit(*input, ids, cids));
        assert(node_views(r@) =~= input_mapstep_complex(*input, impling_operative, *tids, ids, cids));
    }
    r
}

/// The `MapToOutput` step node from the data node `data_id` to the function
/// output `fo_id`.
pub open spec fn map_to_output_node(tids: StepTemplates, fo_id: Uid, data_id: Seq<char>, step_id: Seq<char>) -> InitialNodeView {
    node_view(
        tids.map_to_output,
        Some(step_id),
        false,
        seq![("Output"@, uuid_text(fo_id), false), ("Input"@, data_id, false)],
        Seq::empty(),
    )
}

/// The nodes that bring a function output onto the canvas of its method
/// implementation: the output's own nodes, a data node under a new identifier
/// with its data type under new identifiers, and a `MapToOutput` step between
/// them.
pub open spec fn output_mapstep_complex(
    output: FunctionOutputSchema,
    tids: StepTemplates,
    data_id: Seq<char>,
    step_id: Seq<char>,
    cids: Seq<Seq<char>>,
) -> Seq<InitialNodeView> {
    output_complex(output) + data_type_nodes(output.output_type, cids) + seq![
        node_view(tids.impl_data, Some(data_id), false, seq![("DataType"@, cids[0], true)], Seq::empty()),
        map_to_output_node(tids, output.id, data_id, step_id),
    ]
}

/// The nodes that bring a function output onto the canvas of its method
/// implementation, its data node and step under new random identifiers.
pub fn generate_function_output_and_mapstep_complex(output: &FunctionOutputSchema, tids: &StepTemplates) -> (r: Vec<InitialNode>)
    ensures
        exists|data_id: Seq<char>, step_id: Seq<char>, cids: Seq<Seq<char>>|
            #![trigger output_mapstep_complex(*output, *tids, data_id, step_id, cids)]
            is_fresh_text(data_id) && is_fresh_text(step_id) && ids_fit(output.output_type, cids, true) && node_views(r@)
                == output_mapstep_complex(*output, *tids, data_id, step_id, cids),
{
    let function_output_id = uuid_to_string(output.id);
    let data_node_id = fresh_uuid_text();
    let mut r = create_functionoutput_complex(output);
    let mut map_step_node = InitialNode::with_id(tids.map_to_output, &fresh_uuid_text());
    map_step_node.can_delete = false;
    map_step_node.connect("Output", &function_output_id, false);
    map_step_node.connect("Input", &data_node_id, false);
    let mapped_type = &output.output_type;
    let mut data_node = InitialNode::with_id(tids.impl_data, &data_node_id);
    data_node.can_delete = false;
    let ghost before = data_node@;
    let mut additional = generate_impldatavariant_complex(mapped_type, &mut data_node, "DataType", true);
    let ghost cids = choose|ids: Seq<Seq<char>>|
        #![trigger data_type_nodes(*mapped_type, ids)]
        ids_fit(*mapped_type, ids, true) && node_views(additional@) == data_type_nodes(*mapped_type, ids) && data_node@
            == with_connection(before, ("DataType"@, ids[0], true));
    let ghost pre = node_views(r@);
    let ghost adds = node_views(additional@);
    r.append(&mut additional);
    r.push(data_node);
    r.push(map_step_node);
    proof {
        let step_id = map_step_node@.id->0;
        assert(data_node@.connections =~= seq![("DataType"@, cids[0], true)]);
        assert(map_step_node@.connections =~= seq![("Output"@, uuid_text(output.id), false), ("Input"@, data_node_id@, false)]);
        assert(node_views(r@) =~= output_mapstep_complex(*output, *tids, data_node_id@, step_id, cids));
    }
    r
}

} // verus!
