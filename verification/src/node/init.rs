//! The `init` exchange that tells a node its own id and those of its peers.

use vstd::prelude::*;

use crate::message::NodeId;

verus! {

/// The first message a node receives: its own id and the ids of every node in the cluster.
#[derive(Debug, PartialEq)]
pub struct Init {
    pub node_id: NodeId,
    pub node_ids: Vec<NodeId>,
}

/// The reply to [`Init`].
#[derive(Debug, PartialEq)]
pub struct InitOk {}

/// A node's own id and the ids of every node in the cluster, itself included.
#[derive(Clone, Debug, Default)]
pub struct Ids {
    pub id: NodeId,
    pub ids: Vec<NodeId>,
}

/// Answers an `init` request: the ids it carries, for the node to keep, and the reply.
pub fn init(req: Init) -> (res: (Ids, InitOk))
    ensures
        res.0.id == req.node_id,
        res.0.ids == req.node_ids,
{
    (Ids { id: req.node_id, ids: req.node_ids }, InitOk {})
}

} // verus!
