//! Error types returned by graph operations.
//!
//! Each error carries what is needed to diagnose the failure (the
//! offending id, the pointees concerned). Data structs end in `Error`;
//! enum variants do not repeat the suffix.

use vstd::prelude::*;

use crate::common::global_path::Pointee;
use crate::common::ids::{AttachTargetId, EdgeId, EntityId, HyperedgeId, NodeId};
use crate::common::patch::RetargetEdge;
use crate::common::pointee_set::PointeeSet;
use crate::db::model::ApplyErr;
use crate::db::object_patch::ObjectPatchError;

verus! {

/// The id is not currently a hyperedge of the graph.
#[derive(Debug, PartialEq)]
pub struct HyperedgeNotFoundError {
    pub id: HyperedgeId,
}

/// The id is not a known entity (node, edge, or hyperedge).
#[derive(Debug, PartialEq)]
pub struct EntityNotFoundError {
    pub id: EntityId,
}

/// The id is not a known node: it may be missing entirely, or be an
/// edge, a hyperedge or an attached object.
#[derive(Debug, PartialEq)]
pub struct NodeNotFoundError {
    pub id: NodeId,
}

/// The id is not a known edge.
#[derive(Debug, PartialEq)]
pub struct EdgeNotFoundError {
    pub id: EdgeId,
}

/// Adding a node collided with an id that already carries an object.
#[derive(Debug, PartialEq)]
pub struct NodeAlreadyExistsError {
    pub id: NodeId,
}

/// Creating a hyperedge collided with an existing hyperedge id.
#[derive(Debug, PartialEq)]
pub struct HyperedgeAlreadyExistsError {
    pub id: HyperedgeId,
}

/// Adding an edge collided with an existing edge id.
#[derive(Debug, PartialEq)]
pub struct EdgeAlreadyExistsError {
    pub id: EdgeId,
}

/// One or both endpoints of an edge being added do not resolve.
#[derive(Debug, PartialEq)]
pub struct MissingEndpointsError {
    /// The endpoints that do not resolve, source first.
    pub missing_endpoints: Vec<Pointee>,
}

/// Some pointees handed to a hyperedge operation do not resolve.
#[derive(Debug, PartialEq)]
pub struct PointeesNotFoundError {
    pub pointees: PointeeSet,
}

/// Adding members that are already members of the hyperedge.
#[derive(Debug, PartialEq)]
pub struct MembersAlreadyExistError {
    pub members: Vec<Pointee>,
}

/// Removing members that are not members of the hyperedge.
#[derive(Debug, PartialEq)]
pub struct MembersNotInHyperedgeError {
    pub members: Vec<Pointee>,
}

/// The id resolved to an entity of a kind the operation does not take.
#[derive(Debug, PartialEq)]
pub struct IncorrectTypeError {
    /// The id whose type did not match.
    pub entity_id: EntityId,
    /// The names of the accepted entity types.
    pub expected_type: Vec<String>,
    /// The name of the actual type.
    pub actual_type: String,
}

/// Attaching an object to an id that does not exist at all.
#[derive(Debug, PartialEq)]
pub struct AttachTargetNotFoundError {
    pub id: AttachTargetId,
}

/// The id is not an edge or hyperedge with an attached object.
#[derive(Debug, PartialEq)]
pub struct NoAttachedObjectError {
    pub id: AttachTargetId,
}

/// Retargeting an edge to a pointee that does not resolve.
#[derive(Debug, PartialEq)]
pub struct InvalidRetargetError {
    pub edge_id: EdgeId,
    pub new_target: RetargetEdge,
}

/// Errors of `Graph::create_hyperedge`.
#[derive(Debug, PartialEq)]
pub enum CreateHyperedgeError {
    /// At least one member does not resolve.
    PointeesNotFound(PointeesNotFoundError),
    /// The id is already a hyperedge.
    HyperedgeAlreadyExists(HyperedgeAlreadyExistsError),
    /// A hyperedge needs at least one member.
    EmptyHyperedge,
}

/// Errors of `Graph::add_edge`.
#[derive(Debug, PartialEq)]
pub enum AddEdgeError {
    MissingEndpoints(MissingEndpointsError),
    EdgeAlreadyExists(EdgeAlreadyExistsError),
}

/// Errors of `Graph::retarget_edge`.
#[derive(Debug, PartialEq)]
pub enum RetargetError {
    EdgeNotFound(EdgeNotFoundError),
    InvalidTarget(InvalidRetargetError),
}

/// Errors of `Graph::attach_obj`.
#[derive(Debug, PartialEq)]
pub enum AttachObjectError {
    /// The id does not exist anywhere in the graph.
    AttachTargetNotFound(AttachTargetNotFoundError),
    /// The id exists but is not an edge or hyperedge without an
    /// attached object.
    IncorrectType(IncorrectTypeError),
}

/// Errors of `Graph::edge`.
#[derive(Debug, PartialEq)]
pub enum GetEdgeError {
    /// The id does not exist in the graph.
    NotFound(EntityNotFoundError),
    /// The id exists but is not an edge.
    IncorrectType(IncorrectTypeError),
}

/// Errors of `Graph::add_hyperedge_members`.
#[derive(Debug, PartialEq)]
pub enum AddHyperedgeMembersError {
    HyperedgeNotFound(HyperedgeNotFoundError),
    MembersAlreadyExist(MembersAlreadyExistError),
    PointeesNotFound(PointeesNotFoundError),
}

/// Errors of `Graph::remove_hyperedge_members`.
#[derive(Debug, PartialEq)]
pub enum RemoveHyperedgeMembersError {
    HyperedgeNotFound(HyperedgeNotFoundError),
    MembersNotInHyperedge(MembersNotInHyperedgeError),
}

/// Errors of applying object patches to the object carried by an id.
#[derive(Debug, PartialEq)]
pub enum DeltaError {
    /// The id carries no object.
    NotFound(EntityNotFoundError),
    /// Applying the patches failed.
    Delta(ObjectPatchError),
}

/// Errors of `Graph::apply_patch`: the failure of whichever operation
/// the offending patch stands for.
#[derive(Debug, PartialEq)]
pub enum ApplyPatchError {
    NodeAlreadyExists(NodeAlreadyExistsError),
    AddEdge(AddEdgeError),
    CreateHyperedge(CreateHyperedgeError),
    NodeNotFound(NodeNotFoundError),
    EdgeNotFound(EdgeNotFoundError),
    HyperedgeNotFound(HyperedgeNotFoundError),
    Retarget(RetargetError),
    Change(DeltaError),
    AddHyperedgeMembers(AddHyperedgeMembersError),
    RemoveHyperedgeMembers(RemoveHyperedgeMembersError),
    NoAttachedObject(NoAttachedObjectError),
    Attach(AttachObjectError),
}

impl ApplyPatchError {
    /// Which refusal of the model this error stands for.
    pub open spec fn kind(&self) -> ApplyErr {
        match self {
            ApplyPatchError::NodeAlreadyExists(_) => ApplyErr::NodeAlreadyExists,
            ApplyPatchError::AddEdge(AddEdgeError::MissingEndpoints(_)) => ApplyErr::AddEdgeMissingEndpoints,
            ApplyPatchError::AddEdge(AddEdgeError::EdgeAlreadyExists(_)) => ApplyErr::EdgeAlreadyExists,
            ApplyPatchError::CreateHyperedge(CreateHyperedgeError::EmptyHyperedge) => ApplyErr::HyperedgeEmpty,
            ApplyPatchError::CreateHyperedge(CreateHyperedgeError::HyperedgeAlreadyExists(_)) => ApplyErr::HyperedgeAlreadyExists,
            ApplyPatchError::CreateHyperedge(CreateHyperedgeError::PointeesNotFound(_)) => ApplyErr::HyperedgePointeesNotFound,
            ApplyPatchError::NodeNotFound(_) => ApplyErr::NodeNotFound,
            ApplyPatchError::EdgeNotFound(_) => ApplyErr::EdgeNotFound,
            ApplyPatchError::HyperedgeNotFound(_) => ApplyErr::HyperedgeNotFound,
            ApplyPatchError::Retarget(RetargetError::EdgeNotFound(_)) => ApplyErr::RetargetEdgeNotFound,
            ApplyPatchError::Retarget(RetargetError::InvalidTarget(_)) => ApplyErr::RetargetInvalidTarget,
            ApplyPatchError::Change(DeltaError::NotFound(_)) => ApplyErr::ChangeNotFound,
            ApplyPatchError::Change(DeltaError::Delta(e)) => ApplyErr::ChangeDelta(e@),
            ApplyPatchError::AddHyperedgeMembers(AddHyperedgeMembersError::HyperedgeNotFound(_)) => ApplyErr::AddMembersHyperedgeNotFound,
            ApplyPatchError::AddHyperedgeMembers(AddHyperedgeMembersError::MembersAlreadyExist(_)) => ApplyErr::AddMembersAlreadyExist,
            ApplyPatchError::AddHyperedgeMembers(AddHyperedgeMembersError::PointeesNotFound(_)) => ApplyErr::AddMembersPointeesNotFound,
            ApplyPatchError::RemoveHyperedgeMembers(RemoveHyperedgeMembersError::HyperedgeNotFound(_)) => ApplyErr::RemoveMembersHyperedgeNotFound,
            ApplyPatchError::RemoveHyperedgeMembers(RemoveHyperedgeMembersError::MembersNotInHyperedge(_)) => ApplyErr::RemoveMembersNotInHyperedge,
            ApplyPatchError::NoAttachedObject(_) => ApplyErr::NoAttachedObject,
            ApplyPatchError::Attach(AttachObjectError::AttachTargetNotFound(_)) => ApplyErr::AttachTargetNotFound,
            ApplyPatchError::Attach(AttachObjectError::IncorrectType(_)) => ApplyErr::AttachIncorrectType,
        }
    }
}

} // verus!
