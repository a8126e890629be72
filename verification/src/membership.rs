//! The members a cluster is initialised with.

use crate::types::NodeId;
use std::collections::BTreeMap;
use vstd::prelude::*;

verus! {

/// The nodes named by a list of identities and addresses: where an identity
/// is named more than once, its last address counts.
pub open spec fn nodes_of(requested: Seq<(NodeId, String)>) -> Map<NodeId, String>
    decreases requested.len(),
{
    if requested.len() == 0 {
        Map::empty()
    } else {
        nodes_of(requested.drop_last()).insert(requested.last().0, requested.last().1)
    }
}

/// The first members of a cluster: the nodes of the request, or this node
/// alone when the request names none.
pub open spec fn initial_members(
    own_id: NodeId,
    own_addr: String,
    requested: Seq<(NodeId, String)>,
) -> Map<NodeId, String> {
    if requested.len() == 0 {
        Map::empty().insert(own_id, own_addr)
    } else {
        nodes_of(requested)
    }
}

/// Chooses the members a cluster is initialised with.
pub fn init(own_id: NodeId, own_addr: String, requested: Vec<(NodeId, String)>) -> (nodes: BTreeMap<
    NodeId,
    String,
>)
    ensures
        nodes@ == initial_members(own_id, own_addr, requested@),
{
    broadcast use vstd::std_specs::btree::group_btree_axioms;

    let mut nodes: BTreeMap<NodeId, String> = BTreeMap::new();
    if requested.len() == 0 {
        nodes.insert(own_id, own_addr);
    } else {
        let ghost all = requested@;
        for pair in it: requested
            invariant
                it.seq() == all,
                nodes@ == nodes_of(all.subrange(0, it.index() as int)),
        {
            let ghost k = it.index() as int;
            assert(all.subrange(0, k + 1).drop_last() == all.subrange(0, k));
            let (id, addr) = pair;
            nodes.insert(id, addr);
        }
        assert(all.subrange(0, all.len() as int) == all);
    }
    nodes
}

} // verus!
