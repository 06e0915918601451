//! Domain taxonomy: how the graph distinguishes nodes, edges,
//! hyperedges and the objects attached to them.

use vstd::prelude::*;
use vstd::string::*;

use crate::common::global_path::Pointee;
use crate::common::ids::EdgeId;

verus! {

/// A complete description of an edge — its id and both endpoints.
/// Returned by `Graph::edge` and `Graph::remove_edge`.
#[derive(Debug, PartialEq)]
pub struct EdgeView {
    pub id: EdgeId,
    pub source: Pointee,
    pub target: Pointee,
}

/// Classification of an entity id — what kind of entity it stands for
/// in the graph's storage.
#[derive(Clone, Copy, Debug, PartialEq, Eq, Structural)]
pub enum EntityType {
    Node,
    Edge,
    Hyperedge,
    /// An edge at least one of whose endpoints is itself an edge or a
    /// hyperedge. Structurally still an edge.
    MetaEdge,
    /// An id that carries an object and is also an edge or hyperedge:
    /// an edge or hyperedge with an object attached.
    AttachedObject,
}

/// Classification of a [`Pointee`]: the [`EntityType`] kinds for an
/// entity id, and `Subobject` for a path into an object.
#[derive(Debug, PartialEq, Eq, Clone, Copy, Structural)]
pub enum PointeeKind {
    Node,
    Edge,
    Hyperedge,
    MetaEdge,
    AttachedObject,
    Subobject,
}

/// The display name of an entity type.
pub open spec fn entity_type_name(t: EntityType) -> Seq<char> {
    match t {
        EntityType::Node => "Node"@,
        EntityType::Edge => "Edge"@,
        EntityType::Hyperedge => "HyperEdge"@,
        EntityType::MetaEdge => "MetaEdge"@,
        EntityType::AttachedObject => "AttachedObject"@,
    }
}

impl EntityType {
    /// Whether this entity kind is a valid target for `attach_obj`
    /// (an edge or hyperedge without an attached object yet).
    pub open spec fn is_attach_target_spec(&self) -> bool {
        match self {
            EntityType::Node | EntityType::AttachedObject => false,
            EntityType::Edge | EntityType::Hyperedge | EntityType::MetaEdge => true,
        }
    }

    /// Whether this entity kind is a valid target for `attach_obj`.
    pub fn is_attach_target(&self) -> (b: bool)
        ensures
            b == self.is_attach_target_spec(),
    {
        match self {
            EntityType::Node | EntityType::AttachedObject => false,
            EntityType::Edge | EntityType::Hyperedge | EntityType::MetaEdge => true,
        }
    }

    /// Whether this entity kind can carry an `Object` payload.
    pub fn can_contain_object(&self) -> (b: bool)
        ensures
            b == !(*self is AttachedObject),
    {
        match self {
            EntityType::Node | EntityType::Edge | EntityType::Hyperedge | EntityType::MetaEdge => true,
            EntityType::AttachedObject => false,
        }
    }

    /// The display name.
    pub fn to_string(&self) -> (s: String)
        ensures
            s@ == entity_type_name(*self),
    {
        let text: &str = match self {
            EntityType::Node => "Node",
            EntityType::Edge => "Edge",
            EntityType::Hyperedge => "HyperEdge",
            EntityType::MetaEdge => "MetaEdge",
            EntityType::AttachedObject => "AttachedObject",
        };
        proof {
            reveal_strlit("Node");
            reveal_strlit("Edge");
            reveal_strlit("HyperEdge");
            reveal_strlit("MetaEdge");
            reveal_strlit("AttachedObject");
        }
        text.to_owned()
    }

    /// The pointee kind for an entity of this type.
    pub open spec fn kind_spec(&self) -> PointeeKind {
        match self {
            EntityType::Node => PointeeKind::Node,
            EntityType::Edge => PointeeKind::Edge,
            EntityType::Hyperedge => PointeeKind::Hyperedge,
            EntityType::MetaEdge => PointeeKind::MetaEdge,
            EntityType::AttachedObject => PointeeKind::AttachedObject,
        }
    }
}

} // verus!
