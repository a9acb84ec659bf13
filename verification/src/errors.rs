//! Structured errors. Every operation is total over its documented failure
//! conditions: errors are returned, never thrown.

use vstd::prelude::*;
use crate::model::FlowId;
use crate::model::NodeId;
use crate::model::flow_id_views;

verus! {

/// The error of a graph operation.
#[derive(Debug, PartialEq, Eq)]
#[allow(inconsistent_fields)]
pub enum GraphError {
    /// A node with the given id already exists.
    NodeConflict { id: NodeId },
    /// A flow with the given key already exists.
    FlowConflict { id: FlowId },
    /// No node with the given id exists.
    NodeNotFound { id: NodeId },
    /// No flow with the given key exists.
    FlowNotFound { id: FlowId },
    /// The node is the designated home node and may not be removed.
    HomeNodeProtected { id: NodeId },
    /// A withdrawal would drive the node's balance below zero.
    Underflow { id: NodeId },
    /// A deposit would push the node's balance past the largest
    /// representable balance.
    Overflow { id: NodeId },
    /// One or more items of a batch failed; carries the keys of the failed
    /// items, in batch order.
    AggregateFailure { failed: Vec<FlowId> },
    /// No home node has been designated.
    HomeNodeNotSet,
}

/// Mathematical value of a [`GraphError`].
#[allow(inconsistent_fields)]
pub ghost enum GraphErrorSpec {
    NodeConflict { id: Seq<char> },
    FlowConflict { id: (Seq<char>, Seq<char>) },
    NodeNotFound { id: Seq<char> },
    FlowNotFound { id: (Seq<char>, Seq<char>) },
    HomeNodeProtected { id: Seq<char> },
    Underflow { id: Seq<char> },
    Overflow { id: Seq<char> },
    AggregateFailure { failed: Seq<(Seq<char>, Seq<char>)> },
    HomeNodeNotSet,
}

impl View for GraphError {
    type V = GraphErrorSpec;

    open spec fn view(&self) -> GraphErrorSpec {
        match self {
            GraphError::NodeConflict { id } => GraphErrorSpec::NodeConflict { id: id@ },
            GraphError::FlowConflict { id } => GraphErrorSpec::FlowConflict { id: id@ },
            GraphError::NodeNotFound { id } => GraphErrorSpec::NodeNotFound { id: id@ },
            GraphError::FlowNotFound { id } => GraphErrorSpec::FlowNotFound { id: id@ },
            GraphError::HomeNodeProtected { id } => GraphErrorSpec::HomeNodeProtected { id: id@ },
            GraphError::Underflow { id } => GraphErrorSpec::Underflow { id: id@ },
            GraphError::Overflow { id } => GraphErrorSpec::Overflow { id: id@ },
            GraphError::AggregateFailure { failed } => GraphErrorSpec::AggregateFailure {
                failed: flow_id_views(failed@),
            },
            GraphError::HomeNodeNotSet => GraphErrorSpec::HomeNodeNotSet,
        }
    }
}

} // verus!
