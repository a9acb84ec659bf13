//! A persistent directed-graph ledger.
//!
//! Named nodes hold a monetary balance and descriptive metadata; named flows
//! are directed, weighted edges between two existing nodes. The [`Summits`]
//! engine keeps the node/flow adjacency bookkeeping consistent: a flow may
//! exist only while both endpoints do, removing a node cascades to its
//! incident flows, the designated "home" node is protected from removal, and
//! batched flow updates commit item by item while collecting failures.

mod engine;
mod errors;
mod inv_lemmas;
mod keyed;
mod laws;
mod model;
mod semantics;
mod seq_facts;
mod stores;

pub use engine::Summits;
pub use errors::GraphError;
pub use semantics::SummitsSpec;
pub use errors::GraphErrorSpec;
pub use model::Flow;
pub use model::FlowId;
pub use model::FlowSpec;
pub use model::Manager;
pub use model::Node;
pub use model::NodeId;
pub use model::NodeSpec;
pub use model::NodeView;
pub use model::NodeViewSpec;
pub use model::NodeChanges;
pub use model::NodeChangesSpec;
pub use model::FlowChanges;
pub use model::FlowChangesSpec;
pub use model::WrappedFlowChanges;
pub use model::flow_id_views;
pub use model::manager_views;
pub use model::string_views;
pub use model::wrapped_views;
pub use laws::lemma_balance_round_trip;
pub use laws::lemma_bulk_partial_failure;
pub use laws::lemma_cascading_delete;
pub use laws::lemma_create_node_unique;
pub use laws::lemma_home_node_protection;
pub use laws::lemma_query_redaction;
pub use laws::lemma_sparse_patch_title;
pub use semantics::create_node_allowed;
pub use semantics::deposit_allowed;
pub use semantics::inv;
pub use semantics::ne_pred;
pub use semantics::node_flows_of;
pub use semantics::node_view_of;
pub use semantics::patched_flow;
pub use semantics::patched_node;
pub use semantics::remove_node_allowed;
pub use semantics::retracted;
pub use semantics::scrubbed;
pub use semantics::spec_bulk_failed;
pub use semantics::spec_bulk_state;
pub use semantics::spec_bulk_step;
pub use semantics::spec_change_flow;
pub use semantics::spec_change_node;
pub use semantics::spec_create_flow;
pub use semantics::spec_create_node;
pub use semantics::spec_deposit;
pub use semantics::spec_remove_flow;
pub use semantics::spec_remove_node;
pub use semantics::spec_set_home;
pub use semantics::spec_withdraw;
pub use semantics::withdraw_allowed;
pub use stores::flow_views;
