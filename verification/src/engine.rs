//! The graph-integrity engine: every public operation enters here, observes
//! the graph in a structurally consistent state, and leaves it in one. Each
//! contract says exactly which transition of the semantic model the call
//! realises and on which inputs it fails instead, and with which error.

use vstd::prelude::*;
use crate::errors::GraphError;
use crate::errors::GraphErrorSpec;
use crate::inv_lemmas::lemma_inv_change_flow;
use crate::inv_lemmas::lemma_inv_change_node;
use crate::inv_lemmas::lemma_inv_create_flow;
use crate::inv_lemmas::lemma_inv_remove_flow;
use crate::inv_lemmas::lemma_inv_remove_node;
use crate::inv_lemmas::lemma_inv_create_node;
use crate::inv_lemmas::lemma_inv_patch;
use crate::model::Flow;
use crate::model::FlowChanges;
use crate::model::FlowId;
use crate::model::Node;
use crate::model::NodeChanges;
use crate::model::NodeId;
use crate::model::string_views;
use crate::model::wrapped_views;
use crate::model::flow_id_views;
use crate::model::WrappedFlowChanges;
use crate::model::NodeSpec;
use crate::model::NodeView;
use crate::semantics::SummitsSpec;
use crate::semantics::create_node_allowed;
use crate::semantics::ne_pred;
use crate::semantics::retracted;
use crate::semantics::scrubbed;
use crate::semantics::spec_change_flow;
use crate::semantics::spec_create_flow;
use crate::semantics::spec_remove_flow;
use crate::semantics::spec_remove_node;
use crate::semantics::remove_node_allowed;
use crate::semantics::spec_bulk_state;
use crate::semantics::spec_bulk_failed;
use crate::semantics::node_flows_of;
use crate::semantics::deposit_allowed;
use crate::semantics::inv;
use crate::semantics::node_view_of;
use crate::semantics::spec_change_node;
use crate::semantics::spec_create_node;
use crate::semantics::spec_deposit;
use crate::semantics::spec_set_home;
use crate::semantics::spec_withdraw;
use crate::semantics::withdraw_allowed;
use crate::seq_facts::lemma_filter_all;
use crate::stores::FlowStore;
use crate::stores::NodeStore;
use crate::stores::flow_views;

verus! {

/// The graph: the node store, the flow store, and the optional home node.
pub struct Summits {
    nodes: NodeStore,
    flows: FlowStore,
    home_node_id: Option<NodeId>,
}

impl View for Summits {
    type V = SummitsSpec;

    closed spec fn view(&self) -> SummitsSpec {
        SummitsSpec {
            nodes: self.nodes@,
            flows: self.flows@,
            home: match self.home_node_id {
                Some(h) => Some(h@),
                None => None,
            },
        }
    }
}

impl Summits {
    /// The stores are internally consistent and the graph satisfies the
    /// structural invariant of the semantic model.
    pub closed spec fn wf(&self) -> bool {
        &&& self.nodes.wf()
        &&& self.flows.wf()
        &&& inv(self@)
    }

    /// A well-formed engine's state satisfies the open structural invariant;
    /// this carries that fact to callers, for whom `wf` is opaque.
    pub proof fn lemma_wf_implies_inv(&self)
        requires
            self.wf(),
        ensures
            inv(self@),
    {
    }

    /// An empty graph: no nodes, no flows, no home designation.
    pub fn new() -> (r: Self)
        ensures
            r.wf(),
            r@.nodes == Map::<Seq<char>, NodeSpec>::empty(),
            r@.flows == Map::<(Seq<char>, Seq<char>), crate::model::FlowSpec>::empty(),
            r@.home is None,
    {
        Summits { nodes: NodeStore::new(), flows: FlowStore::new(), home_node_id: None }
    }

    /// Creates a node with the given metadata, balance and owner, and empty
    /// adjacency and manager lists. Fails exactly when the id is taken.
    pub fn create_node(
        &mut self,
        id: NodeId,
        title: String,
        notes: String,
        deposit: u128,
        owner: String,
    ) -> (r: Result<(), GraphError>)
        requires
            old(self).wf(),
        ensures
            final(self).wf(),
            match r {
                Ok(_) => create_node_allowed(old(self)@, id@) && final(self)@ == spec_create_node(
                    old(self)@,
                    id@,
                    title@,
                    notes@,
                    deposit,
                    owner@,
                ),
                Err(e) => {
                    &&& !create_node_allowed(old(self)@, id@)
                    &&& *final(self) == *old(self)
                    &&& e@ == (GraphErrorSpec::NodeConflict { id: id@ })
                },
            },
    {
        if self.nodes.contains_key(&id) {
            Err(GraphError::NodeConflict { id })
        } else {
            proof {
                lemma_inv_create_node(self@, id@, title@, notes@, deposit, owner@);
            }
            let node = Node {
                id,
                title,
                notes,
                deposit,
                owner,
                managers: Vec::new(),
                flows_into: Vec::new(),
                flows_from: Vec::new(),
            };
            proof {
                assert(crate::model::manager_views(node.managers@) =~= Seq::<Seq<char>>::empty());
                assert(crate::model::string_views(node.flows_into@) =~= Seq::<Seq<char>>::empty());
                assert(crate::model::string_views(node.flows_from@) =~= Seq::<Seq<char>>::empty());
            }
            self.nodes.insert(node);
            Ok(())
        }
    }

    /// Adds the value to the node's balance. Fails exactly when the node is
    /// absent or the sum would not be representable.
    pub fn deposit_value(&mut self, id: NodeId, value: u128) -> (r: Result<(), GraphError>)
        requires
            old(self).wf(),
        ensures
            final(self).wf(),
            match r {
                Ok(_) => deposit_allowed(old(self)@, id@, value) && final(self)@ == spec_deposit(
                    old(self)@,
                    id@,
                    value,
                ),
                Err(e) => {
                    &&& !deposit_allowed(old(self)@, id@, value)
                    &&& *final(self) == *old(self)
                    &&& e@ == if old(self)@.nodes.dom().contains(id@) {
                        GraphErrorSpec::Overflow { id: id@ }
                    } else {
                        GraphErrorSpec::NodeNotFound { id: id@ }
                    }
                },
            },
    {
        match self.nodes.get(&id) {
            Some(n) => {
                match n.deposit.checked_add(value) {
                    Some(d2) => {
                        let mut n2 = n.clone();
                        n2.deposit = d2;
                        proof {
                            lemma_inv_patch(self@, id@, n2@);
                        }
                        self.nodes.put(n2);
                        Ok(())
                    },
                    None => Err(GraphError::Overflow { id }),
                }
            },
            None => Err(GraphError::NodeNotFound { id }),
        }
    }

    /// Subtracts the value from the node's balance. Fails exactly when the
    /// node is absent or the balance does not cover the value.
    pub fn withdraw_value(&mut self, id: NodeId, value: u128) -> (r: Result<(), GraphError>)
        requires
            old(self).wf(),
        ensures
            final(self).wf(),
            match r {
                Ok(_) => withdraw_allowed(old(self)@, id@, value) && final(self)@ == spec_withdraw(
                    old(self)@,
                    id@,
                    value,
                ),
                Err(e) => {
                    &&& !withdraw_allowed(old(self)@, id@, value)
                    &&& *final(self) == *old(self)
                    &&& e@ == if old(self)@.nodes.dom().contains(id@) {
                        GraphErrorSpec::Underflow { id: id@ }
                    } else {
                        GraphErrorSpec::NodeNotFound { id: id@ }
                    }
                },
            },
    {
        match self.nodes.get(&id) {
            Some(n) => {
                match n.deposit.checked_sub(value) {
                    Some(d2) => {
                        let mut n2 = n.clone();
                        n2.deposit = d2;
                        proof {
                            lemma_inv_patch(self@, id@, n2@);
                        }
                        self.nodes.put(n2);
                        Ok(())
                    },
                    None => Err(GraphError::Underflow { id }),
                }
            },
            None => Err(GraphError::NodeNotFound { id }),
        }
    }

    /// Applies a sparse patch to the node: only the fields present in the
    /// patch change. Fails exactly when the node is absent.
    pub fn change_node(&mut self, id: NodeId, changes: NodeChanges) -> (r: Result<
        (),
        GraphError,
    >)
        requires
            old(self).wf(),
        ensures
            final(self).wf(),
            match r {
                Ok(_) => old(self)@.nodes.dom().contains(id@) && final(self)@ == spec_change_node(
                    old(self)@,
                    id@,
                    changes@,
                ),
                Err(e) => {
                    &&& !old(self)@.nodes.dom().contains(id@)
                    &&& *final(self) == *old(self)
                    &&& e@ == (GraphErrorSpec::NodeNotFound { id: id@ })
                },
            },
    {
        let ghost chv = changes@;
        match self.nodes.get(&id) {
            Some(n) => {
                let mut n2 = n.clone();
                if let Some(title) = changes.title {
                    n2.title = title;
                }
                if let Some(notes) = changes.notes {
                    n2.notes = notes;
                }
                if let Some(deposit) = changes.deposit {
                    n2.deposit = deposit;
                }
                proof {
                    lemma_inv_change_node(self@, id@, chv);
                }
                self.nodes.put(n2);
                Ok(())
            },
            None => Err(GraphError::NodeNotFound { id }),
        }
    }

    /// Designates the home node, unconditionally: the id is recorded even if
    /// no node carries it.
    pub fn set_home_node_id(&mut self, id: NodeId) -> (r: Result<(), GraphError>)
        requires
            old(self).wf(),
        ensures
            final(self).wf(),
            r is Ok,
            final(self)@ == spec_set_home(old(self)@, id@),
    {
        self.home_node_id = Some(id);
        Ok(())
    }

    /// The designated home node. Fails exactly when none was ever assigned.
    pub fn get_home_node_id(&self) -> (r: Result<NodeId, GraphError>)
        requires
            self.wf(),
        ensures
            match r {
                Ok(h) => self@.home == Some(h@),
                Err(e) => self@.home is None && e@ == GraphErrorSpec::HomeNodeNotSet,
            },
    {
        match &self.home_node_id {
            Some(h) => Ok(h.clone()),
            None => Err(GraphError::HomeNodeNotSet),
        }
    }

    /// The redacted view of a node: id, metadata, balance and owner; the
    /// adjacency lists are never exposed. Fails exactly when the node is
    /// absent.
    pub fn get_node(&self, id: NodeId) -> (r: Result<NodeView, GraphError>)
        requires
            self.wf(),
        ensures
            match r {
                Ok(v) => self@.nodes.dom().contains(id@) && v@ == node_view_of(self@.nodes[id@]),
                Err(e) => !self@.nodes.dom().contains(id@) && e@ == (GraphErrorSpec::NodeNotFound {
                    id: id@,
                }),
            },
    {
        match self.nodes.get(&id) {
            Some(n) => Ok(
                NodeView {
                    id: n.id.clone(),
                    title: n.title.clone(),
                    notes: n.notes.clone(),
                    deposit: n.deposit,
                    owner: n.owner.clone(),
                },
            ),
            None => Err(GraphError::NodeNotFound { id }),
        }
    }

    /// Retracts every occurrence of `x` from the node's outgoing adjacency
    /// list, if the node exists; a missing node is left to the caller's
    /// best-effort cleanup.
    fn retract_into(&mut self, node_id: &NodeId, x: &NodeId)
        requires
            old(self).nodes.wf(),
            old(self).flows.wf(),
        ensures
            final(self).nodes.wf(),
            final(self).flows == old(self).flows,
            final(self).home_node_id == old(self).home_node_id,
            final(self)@.nodes.dom() == old(self)@.nodes.dom(),
            forall|k: Seq<char>| #[trigger] final(self)@.nodes.dom().contains(k)
                ==> final(self)@.nodes[k] == (if k == node_id@ {
                    NodeSpec {
                        flows_into: old(self)@.nodes[k].flows_into.filter(ne_pred(x@)),
                        ..old(self)@.nodes[k]
                    }
                } else {
                    old(self)@.nodes[k]
                }),
    {
        let found = self.nodes.get(node_id);
        match found {
            Some(n) => {
                let mut n2 = n.clone();
                let fi = filter_ids(&n2.flows_into, x);
                n2.flows_into = fi;
                self.nodes.put(n2);
                proof {
                    assert(self@.nodes.dom() =~= old(self)@.nodes.dom());
                }
            },
            None => {
                proof {
                    assert(self@.nodes.dom() =~= old(self)@.nodes.dom());
                }
            },
        }
    }

    /// Retracts every occurrence of `x` from the node's incoming adjacency
    /// list, if the node exists.
    fn retract_from(&mut self, node_id: &NodeId, x: &NodeId)
        requires
            old(self).nodes.wf(),
            old(self).flows.wf(),
        ensures
            final(self).nodes.wf(),
            final(self).flows == old(self).flows,
            final(self).home_node_id == old(self).home_node_id,
            final(self)@.nodes.dom() == old(self)@.nodes.dom(),
            forall|k: Seq<char>| #[trigger] final(self)@.nodes.dom().contains(k)
                ==> final(self)@.nodes[k] == (if k == node_id@ {
                    NodeSpec {
                        flows_from: old(self)@.nodes[k].flows_from.filter(ne_pred(x@)),
                        ..old(self)@.nodes[k]
                    }
                } else {
                    old(self)@.nodes[k]
                }),
    {
        let found = self.nodes.get(node_id);
        match found {
            Some(n) => {
                let mut n2 = n.clone();
                let ff = filter_ids(&n2.flows_from, x);
                n2.flows_from = ff;
                self.nodes.put(n2);
                proof {
                    assert(self@.nodes.dom() =~= old(self)@.nodes.dom());
                }
            },
            None => {
                proof {
                    assert(self@.nodes.dom() =~= old(self)@.nodes.dom());
                }
            },
        }
    }

    /// Removes the flow (`from`, `into`) and retracts the matching entries
    /// from both endpoints' adjacency lists; reports whether the flow was
    /// there. Used directly by the cascade of `remove_node`, where an
    /// endpoint may already be gone.
    fn remove_flow_pair(&mut self, from: &NodeId, into: &NodeId) -> (removed: bool)
        requires
            old(self).nodes.wf(),
            old(self).flows.wf(),
        ensures
            final(self).nodes.wf(),
            final(self).flows.wf(),
            final(self).home_node_id == old(self).home_node_id,
            removed == old(self)@.flows.dom().contains((from@, into@)),
            removed ==> final(self)@ == spec_remove_flow(old(self)@, from@, into@),
            !removed ==> *final(self) == *old(self),
    {
        let ghost s0 = self@;
        match self.flows.remove(from, into) {
            Some(_flow) => {
                self.retract_into(from, into);
                let ghost s2 = self@;
                self.retract_from(into, from);
                proof {
                    let t = spec_remove_flow(s0, from@, into@);
                    assert forall|k: Seq<char>| #[trigger] self@.nodes.dom().contains(k)
                        implies self@.nodes[k] == retracted(k, s0.nodes[k], from@, into@) by {
                        assert(s2.nodes.dom().contains(k));
                    }
                    assert(self@.nodes =~= t.nodes);
                    assert(self@.flows =~= t.flows);
                    assert(self@ == t);
                }
                true
            },
            None => false,
        }
    }

    /// Creates a flow between two existing nodes, recording the edge and
    /// extending both endpoints' adjacency lists. Fails exactly when `from`
    /// is absent (reported first), `into` is absent, or the edge already
    /// exists; a duplicate edge is rejected rather than overwritten, so
    /// adjacency entries are never duplicated.
    pub fn create_flow(
        &mut self,
        id: FlowId,
        dx: i64,
        dy: i64,
        notes: String,
        share: i64,
    ) -> (r: Result<(), GraphError>)
        requires
            old(self).wf(),
        ensures
            final(self).wf(),
            match r {
                Ok(_) => {
                    &&& old(self)@.nodes.dom().contains(id@.0)
                    &&& old(self)@.nodes.dom().contains(id@.1)
                    &&& !old(self)@.flows.dom().contains(id@)
                    &&& final(self)@ == spec_create_flow(
                        old(self)@,
                        id@.0,
                        id@.1,
                        dx,
                        dy,
                        notes@,
                        share,
                    )
                },
                Err(e) => {
                    &&& !(old(self)@.nodes.dom().contains(id@.0) && old(self)@.nodes.dom().contains(
                        id@.1,
                    ) && !old(self)@.flows.dom().contains(id@))
                    &&& *final(self) == *old(self)
                    &&& e@ == if !old(self)@.nodes.dom().contains(id@.0) {
                        GraphErrorSpec::NodeNotFound { id: id@.0 }
                    } else if !old(self)@.nodes.dom().contains(id@.1) {
                        GraphErrorSpec::NodeNotFound { id: id@.1 }
                    } else {
                        GraphErrorSpec::FlowConflict { id: id@ }
                    }
                },
            },
    {
        if !self.nodes.contains_key(&id.from) {
            return Err(GraphError::NodeNotFound { id: id.from });
        }
        if !self.nodes.contains_key(&id.into) {
            return Err(GraphError::NodeNotFound { id: id.into });
        }
        if self.flows.contains_key(&id.from, &id.into) {
            return Err(GraphError::FlowConflict { id });
        }
        let ghost s0 = self@;
        proof {
            lemma_inv_create_flow(s0, id@.0, id@.1, dx, dy, notes@, share);
        }
        let flow = Flow {
            id: FlowId { from: id.from.clone(), into: id.into.clone() },
            dx,
            dy,
            notes,
            share,
        };
        self.flows.insert(flow);
        if id.from == id.into {
            let n = match self.nodes.get(&id.from) {
                Some(n) => n,
                None => unreached(),
            };
            let mut n2 = n.clone();
            let ghost before_into = n2.flows_into@;
            let ghost before_from = n2.flows_from@;
            n2.flows_into.push(id.into.clone());
            n2.flows_from.push(id.from.clone());
            proof {
                assert(string_views(n2.flows_into@) =~= string_views(before_into).push(id@.1));
                assert(string_views(n2.flows_from@) =~= string_views(before_from).push(id@.0));
            }
            self.nodes.put(n2);
            proof {
                let t = spec_create_flow(s0, id@.0, id@.1, dx, dy, notes@, share);
                assert(self@.nodes =~= t.nodes);
                assert(self@.flows =~= t.flows);
                assert(self@ == t);
            }
        } else {
            let nf = match self.nodes.get(&id.from) {
                Some(n) => n,
                None => unreached(),
            };
            let mut nf2 = nf.clone();
            let ghost before_into = nf2.flows_into@;
            nf2.flows_into.push(id.into.clone());
            proof {
                assert(string_views(nf2.flows_into@) =~= string_views(before_into).push(id@.1));
            }
            self.nodes.put(nf2);
            let ni = match self.nodes.get(&id.into) {
                Some(n) => n,
                None => unreached(),
            };
            let mut ni2 = ni.clone();
            let ghost before_from = ni2.flows_from@;
            ni2.flows_from.push(id.from.clone());
            proof {
                assert(string_views(ni2.flows_from@) =~= string_views(before_from).push(id@.0));
            }
            self.nodes.put(ni2);
            proof {
                let t = spec_create_flow(s0, id@.0, id@.1, dx, dy, notes@, share);
                assert(self@.nodes =~= t.nodes);
                assert(self@.flows =~= t.flows);
                assert(self@ == t);
            }
        }
        Ok(())
    }

    /// Applies a sparse patch to the flow: only the fields present in the
    /// patch change. Fails exactly when the edge is absent.
    pub fn change_flow(&mut self, id: FlowId, changes: FlowChanges) -> (r: Result<
        (),
        GraphError,
    >)
        requires
            old(self).wf(),
        ensures
            final(self).wf(),
            match r {
                Ok(_) => old(self)@.flows.dom().contains(id@) && final(self)@ == spec_change_flow(
                    old(self)@,
                    id@,
                    changes@,
                ),
                Err(e) => {
                    &&& !old(self)@.flows.dom().contains(id@)
                    &&& *final(self) == *old(self)
                    &&& e@ == (GraphErrorSpec::FlowNotFound { id: id@ })
                },
            },
    {
        let ghost chv = changes@;
        match self.flows.get(&id.from, &id.into) {
            Some(f) => {
                let mut f2 = f.clone();
                if let Some(dx) = changes.dx {
                    f2.dx = dx;
                }
                if let Some(dy) = changes.dy {
                    f2.dy = dy;
                }
                if let Some(notes) = changes.notes {
                    f2.notes = notes;
                }
                if let Some(share) = changes.share {
                    f2.share = share;
                }
                proof {
                    lemma_inv_change_flow(self@, id@, chv);
                }
                self.flows.put(f2);
                Ok(())
            },
            None => Err(GraphError::FlowNotFound { id }),
        }
    }

    /// Removes the flow and retracts the matching entry from both endpoints'
    /// adjacency lists, keeping the adjacency cache exact. Fails exactly
    /// when the edge is absent.
    pub fn remove_flow(&mut self, id: FlowId) -> (r: Result<(), GraphError>)
        requires
            old(self).wf(),
        ensures
            final(self).wf(),
            match r {
                Ok(_) => old(self)@.flows.dom().contains(id@) && final(self)@ == spec_remove_flow(
                    old(self)@,
                    id@.0,
                    id@.1,
                ),
                Err(e) => {
                    &&& !old(self)@.flows.dom().contains(id@)
                    &&& *final(self) == *old(self)
                    &&& e@ == (GraphErrorSpec::FlowNotFound { id: id@ })
                },
            },
    {
        proof {
            lemma_inv_remove_flow(self@, id@.0, id@.1);
        }
        let removed = self.remove_flow_pair(&id.from, &id.into);
        if removed {
            Ok(())
        } else {
            Err(GraphError::FlowNotFound { id })
        }
    }

    /// Removes the node and cascades to every incident flow: each flow named
    /// by the removed record's adjacency lists is removed best-effort, its
    /// own absence swallowed rather than propagated. Fails exactly when the
    /// id names the designated home node (checked first) or no node.
    #[verifier::loop_isolation(false)]
    pub fn remove_node(&mut self, id: NodeId) -> (r: Result<(), GraphError>)
        requires
            old(self).wf(),
        ensures
            final(self).wf(),
            match r {
                Ok(_) => remove_node_allowed(old(self)@, id@) && final(self)@ == spec_remove_node(
                    old(self)@,
                    id@,
                ),
                Err(e) => {
                    &&& !remove_node_allowed(old(self)@, id@)
                    &&& *final(self) == *old(self)
                    &&& e@ == if old(self)@.home == Some(id@) {
                        GraphErrorSpec::HomeNodeProtected { id: id@ }
                    } else {
                        GraphErrorSpec::NodeNotFound { id: id@ }
                    }
                },
            },
    {
        if let Some(h) = &self.home_node_id {
            if *h == id {
                return Err(GraphError::HomeNodeProtected { id });
            }
        }
        let ghost s0 = self@;
        match self.nodes.remove(&id) {
            None => Err(GraphError::NodeNotFound { id }),
            Some(node) => {
                let ghost ffv = string_views(node.flows_from@);
                let ghost fiv = string_views(node.flows_into@);
                proof {
                    assert(ffv == s0.nodes[id@].flows_from);
                    assert(fiv == s0.nodes[id@].flows_into);
                    assert(ffv.no_duplicates());
                    assert(fiv.no_duplicates());
                }
                let mut i: usize = 0;
                while i < node.flows_from.len()
                    invariant
                        i <= node.flows_from@.len(),
                        self.nodes.wf(),
                        self.flows.wf(),
                        self.home_node_id == old(self).home_node_id,
                        forall|k: Seq<char>| #[trigger] self@.nodes.dom().contains(k)
                            <==> s0.nodes.dom().contains(k) && k != id@,
                        forall|k: (Seq<char>, Seq<char>)| #[trigger] self@.flows.dom().contains(k)
                            <==> (s0.flows.dom().contains(k) && !(k.1 == id@
                                && ffv.subrange(0, i as int).contains(k.0))),
                        forall|k: (Seq<char>, Seq<char>)| #[trigger] self@.flows.dom().contains(k)
                            ==> self@.flows[k] == s0.flows[k],
                        forall|k: Seq<char>| #[trigger] self@.nodes.dom().contains(k)
                            ==> self@.nodes[k] == (if ffv.subrange(0, i as int).contains(k) {
                                NodeSpec {
                                    flows_into: s0.nodes[k].flows_into.filter(ne_pred(id@)),
                                    ..s0.nodes[k]
                                }
                            } else {
                                s0.nodes[k]
                            }),
                    decreases node.flows_from@.len() - i,
                {
                    let ghost pre = ffv.subrange(0, i as int);
                    let ghost pv = ffv[i as int];
                    let ghost sb = self@;
                    proof {
                        assert(ffv.contains(pv));
                        assert(s0.flows.dom().contains((pv, id@)));
                        if pre.contains(pv) {
                            let j = choose|j: int| 0 <= j < pre.len() && pre[j] == pv;
                            assert(ffv[j] == ffv[i as int]);
                            assert(false);
                        }
                        assert(sb.flows.dom().contains((pv, id@)));
                    }
                    self.remove_flow_pair(&node.flows_from[i], &id);
                    proof {
                        assert(self@ == spec_remove_flow(sb, pv, id@));
                        assert(ffv.subrange(0, i as int + 1) =~= pre.push(pv));
                        assert forall|k: Seq<char>| #[trigger] self@.nodes.dom().contains(k)
                            implies self@.nodes[k] == (if ffv.subrange(0, i as int + 1).contains(k) {
                                NodeSpec {
                                    flows_into: s0.nodes[k].flows_into.filter(ne_pred(id@)),
                                    ..s0.nodes[k]
                                }
                            } else {
                                s0.nodes[k]
                            }) by {
                            crate::seq_facts::lemma_push_contains(pre, pv, k);
                            assert(self@.nodes[k] == retracted(k, sb.nodes[k], pv, id@));
                            if k == pv {
                                assert(!pre.contains(pv));
                                assert(sb.nodes[k] == s0.nodes[k]);
                            }
                        }
                        assert forall|k: (Seq<char>, Seq<char>)|
                            #[trigger] self@.flows.dom().contains(k) <==> (s0.flows.dom().contains(
                            k) && !(k.1 == id@ && ffv.subrange(0, i as int + 1).contains(k.0))) by {
                            crate::seq_facts::lemma_push_contains(pre, pv, k.0);
                        }
                    }
                    i = i + 1;
                }
                let ghost s1 = self@;
                proof {
                    assert(ffv.subrange(0, node.flows_from@.len() as int) =~= ffv);
                    assert forall|k: Seq<char>| #[trigger] s1.nodes.dom().contains(k)
                        implies s1.nodes[k] == (NodeSpec {
                            flows_into: s0.nodes[k].flows_into.filter(ne_pred(id@)),
                            ..s0.nodes[k]
                        }) by {
                        if !ffv.contains(k) {
                            assert(!s0.flows.dom().contains((k, id@)));
                            assert(!s0.nodes[k].flows_into.contains(id@));
                            assert forall|t: int|
                                0 <= t < s0.nodes[k].flows_into.len() implies ne_pred(id@)(
                                #[trigger] s0.nodes[k].flows_into[t]) by {
                                assert(s0.nodes[k].flows_into.contains(s0.nodes[k].flows_into[t])
                                    ==> s0.nodes[k].flows_into[t] != id@);
                            }
                            lemma_filter_all(s0.nodes[k].flows_into, ne_pred(id@));
                        }
                    }
                }
                let mut j: usize = 0;
                while j < node.flows_into.len()
                    invariant
                        j <= node.flows_into@.len(),
                        self.nodes.wf(),
                        self.flows.wf(),
                        self.home_node_id == old(self).home_node_id,
                        forall|k: Seq<char>| #[trigger] self@.nodes.dom().contains(k)
                            <==> s0.nodes.dom().contains(k) && k != id@,
                        forall|k: (Seq<char>, Seq<char>)| #[trigger] self@.flows.dom().contains(k)
                            <==> (s0.flows.dom().contains(k) && !(k.1 == id@ && ffv.contains(k.0))
                                && !(k.0 == id@ && fiv.subrange(0, j as int).contains(k.1))),
                        forall|k: (Seq<char>, Seq<char>)| #[trigger] self@.flows.dom().contains(k)
                            ==> self@.flows[k] == s0.flows[k],
                        forall|k: Seq<char>| #[trigger] self@.nodes.dom().contains(k)
                            ==> self@.nodes[k] == (NodeSpec {
                                flows_into: s0.nodes[k].flows_into.filter(ne_pred(id@)),
                                flows_from: if fiv.subrange(0, j as int).contains(k) {
                                    s0.nodes[k].flows_from.filter(ne_pred(id@))
                                } else {
                                    s0.nodes[k].flows_from
                                },
                                ..s0.nodes[k]
                            }),
                    decreases node.flows_into@.len() - j,
                {
                    let ghost prq = fiv.subrange(0, j as int);
                    let ghost qv = fiv[j as int];
                    let ghost sb = self@;
                    proof {
                        assert(fiv.contains(qv));
                        assert(s0.flows.dom().contains((id@, qv)));
                        if prq.contains(qv) {
                            let t = choose|t: int| 0 <= t < prq.len() && prq[t] == qv;
                            assert(fiv[t] == fiv[j as int]);
                            assert(false);
                        }
                    }
                    let removed = self.remove_flow_pair(&id, &node.flows_into[j]);
                    proof {
                        assert(fiv.subrange(0, j as int + 1) =~= prq.push(qv));
                        if removed {
                            assert(self@ == spec_remove_flow(sb, id@, qv));
                        } else {
                            // only a self-loop's second pass finds the flow gone
                            assert(qv == id@ && ffv.contains(qv));
                        }
                        assert forall|k: Seq<char>| #[trigger] self@.nodes.dom().contains(k)
                            implies self@.nodes[k] == (NodeSpec {
                                flows_into: s0.nodes[k].flows_into.filter(ne_pred(id@)),
                                flows_from: if fiv.subrange(0, j as int + 1).contains(k) {
                                    s0.nodes[k].flows_from.filter(ne_pred(id@))
                                } else {
                                    s0.nodes[k].flows_from
                                },
                                ..s0.nodes[k]
                            }) by {
                            crate::seq_facts::lemma_push_contains(prq, qv, k);
                            if removed {
                                assert(self@.nodes[k] == retracted(k, sb.nodes[k], id@, qv));
                            }
                            if !(k == qv) && fiv.subrange(0, j as int + 1).contains(k) {
                                assert(prq.contains(k));
                            }
                        }
                        assert forall|k: (Seq<char>, Seq<char>)|
                            #[trigger] self@.flows.dom().contains(k) <==> (s0.flows.dom().contains(
                            k) && !(k.1 == id@ && ffv.contains(k.0)) && !(k.0 == id@
                                && fiv.subrange(0, j as int + 1).contains(k.1))) by {
                            crate::seq_facts::lemma_push_contains(prq, qv, k.1);
                        }
                    }
                    j = j + 1;
                }
                proof {
                    assert(fiv.subrange(0, node.flows_into@.len() as int) =~= fiv);
                    let t = spec_remove_node(s0, id@);
                    assert forall|k: (Seq<char>, Seq<char>)| #[trigger] self@.flows.dom().contains(
                    k) <==> t.flows.dom().contains(k) by {
                        if s0.flows.dom().contains(k) {
                            if k.1 == id@ {
                                assert(s0.nodes[id@].flows_from.contains(k.0));
                            }
                            if k.0 == id@ {
                                assert(s0.nodes[id@].flows_into.contains(k.1));
                            }
                        }
                    }
                    assert(self@.flows =~= t.flows);
                    assert forall|k: Seq<char>| #[trigger] self@.nodes.dom().contains(k)
                        implies self@.nodes[k] == scrubbed(s0.nodes[k], id@) by {
                        if !fiv.contains(k) {
                            assert(!s0.flows.dom().contains((id@, k)));
                            assert(!s0.nodes[k].flows_from.contains(id@));
                            assert forall|t2: int|
                                0 <= t2 < s0.nodes[k].flows_from.len() implies ne_pred(id@)(
                                #[trigger] s0.nodes[k].flows_from[t2]) by {
                                assert(s0.nodes[k].flows_from.contains(s0.nodes[k].flows_from[t2])
                                    ==> s0.nodes[k].flows_from[t2] != id@);
                            }
                            lemma_filter_all(s0.nodes[k].flows_from, ne_pred(id@));
                        }
                    }
                    assert(self@.nodes =~= t.nodes);
                    assert(self@ == t);
                    lemma_inv_remove_node(s0, id@);
                }
                Ok(())
            },
        }
    }

    /// The flow with the given key. Fails exactly when the edge is absent.
    pub fn get_flow(&self, id: FlowId) -> (r: Result<Flow, GraphError>)
        requires
            self.wf(),
        ensures
            match r {
                Ok(f) => self@.flows.dom().contains(id@) && f@ == self@.flows[id@],
                Err(e) => !self@.flows.dom().contains(id@) && e@ == (GraphErrorSpec::FlowNotFound {
                    id: id@,
                }),
            },
    {
        match self.flows.get(&id.from, &id.into) {
            Some(f) => Ok(f.clone()),
            None => Err(GraphError::FlowNotFound { id }),
        }
    }

    /// Every flow incident to the node: the incoming flows in adjacency
    /// order, then the outgoing ones; a dangling adjacency entry would be
    /// skipped, though a well-formed graph has none. Fails exactly when the
    /// node is absent.
    #[verifier::loop_isolation(false)]
    pub fn get_node_flows(&self, id: NodeId) -> (r: Result<Vec<Flow>, GraphError>)
        requires
            self.wf(),
        ensures
            match r {
                Ok(v) => self@.nodes.dom().contains(id@) && flow_views(v@) == node_flows_of(
                    self@,
                    id@,
                ),
                Err(e) => !self@.nodes.dom().contains(id@) && e@ == (GraphErrorSpec::NodeNotFound {
                    id: id@,
                }),
            },
    {
        match self.nodes.get(&id) {
            None => Err(GraphError::NodeNotFound { id }),
            Some(node) => {
                let ghost ffv = string_views(node.flows_from@);
                let ghost fiv = string_views(node.flows_into@);
                let mut result: Vec<Flow> = Vec::new();
                let mut i: usize = 0;
                while i < node.flows_from.len()
                    invariant
                        i <= node.flows_from@.len(),
                        result@.len() == i,
                        forall|t: int| 0 <= t < i ==> #[trigger] flow_views(result@)[t]
                            == self@.flows[(ffv[t], id@)],
                    decreases node.flows_from@.len() - i,
                {
                    proof {
                        assert(ffv.contains(ffv[i as int]));
                        assert(self@.nodes[id@].flows_from.contains(ffv[i as int]));
                        assert(self@.flows.dom().contains((ffv[i as int], id@)));
                    }
                    let ghost rpre = result@;
                    match self.flows.get(&node.flows_from[i], &id) {
                        Some(f) => {
                            result.push(f.clone());
                            proof {
                                assert(flow_views(result@) =~= flow_views(rpre).push(f@));
                            }
                        },
                        None => {},
                    }
                    i = i + 1;
                }
                let ghost half = node.flows_from@.len() as int;
                let mut j: usize = 0;
                while j < node.flows_into.len()
                    invariant
                        j <= node.flows_into@.len(),
                        result@.len() == half + j,
                        forall|t: int| 0 <= t < half ==> #[trigger] flow_views(result@)[t]
                            == self@.flows[(ffv[t], id@)],
                        forall|t: int| 0 <= t < j ==> #[trigger] flow_views(result@)[half + t]
                            == self@.flows[(id@, fiv[t])],
                    decreases node.flows_into@.len() - j,
                {
                    proof {
                        assert(fiv.contains(fiv[j as int]));
                        assert(self@.nodes[id@].flows_into.contains(fiv[j as int]));
                        assert(self@.flows.dom().contains((id@, fiv[j as int])));
                    }
                    let ghost rpre = result@;
                    match self.flows.get(&id, &node.flows_into[j]) {
                        Some(f) => {
                            result.push(f.clone());
                            proof {
                                assert(flow_views(result@) =~= flow_views(rpre).push(f@));
                            }
                        },
                        None => {},
                    }
                    j = j + 1;
                }
                proof {
                    let nfo = node_flows_of(self@, id@);
                    assert(nfo.len() == half + fiv.len());
                    assert forall|t: int| 0 <= t < half implies #[trigger] nfo[t]
                        == self@.flows[(ffv[t], id@)] by {}
                    assert forall|t: int| half <= t < nfo.len() implies #[trigger] nfo[t]
                        == self@.flows[(id@, fiv[t - half])] by {}
                    assert(flow_views(result@).len() == nfo.len());
                    assert forall|t: int|
                        0 <= t < flow_views(result@).len() implies #[trigger] flow_views(result@)[t]
                        == nfo[t] by {
                        if t >= half {
                            assert(flow_views(result@)[half + (t - half)] == self@.flows[
                                (id@, fiv[t - half])
                            ]);
                        }
                    }
                    assert(flow_views(result@) =~= nfo);
                }
                Ok(result)
            },
        }
    }

    /// Applies every item of the batch independently, in order, without
    /// stopping at a failure; collects the keys of the items that failed.
    /// Succeeds exactly when every item applied; otherwise the applied items
    /// stay applied and the aggregate error carries the failed keys.
    #[verifier::loop_isolation(false)]
    pub fn bulk_change_flow(&mut self, bulk: Vec<WrappedFlowChanges>) -> (r: Result<
        (),
        GraphError,
    >)
        requires
            old(self).wf(),
        ensures
            final(self).wf(),
            final(self)@ == spec_bulk_state(old(self)@, wrapped_views(bulk@)),
            match r {
                Ok(_) => spec_bulk_failed(old(self)@, wrapped_views(bulk@)).len() == 0,
                Err(e) => {
                    &&& spec_bulk_failed(old(self)@, wrapped_views(bulk@)).len() > 0
                    &&& e@ == (GraphErrorSpec::AggregateFailure {
                        failed: spec_bulk_failed(old(self)@, wrapped_views(bulk@)),
                    })
                },
            },
    {
        let ghost items = wrapped_views(bulk@);
        let ghost s0 = self@;
        let mut errors: Vec<FlowId> = Vec::new();
        let mut i: usize = 0;
        proof {
            assert(items.subrange(0, 0) =~= Seq::<((Seq<char>, Seq<char>), crate::model::FlowChangesSpec)>::empty());
            assert(flow_id_views(errors@) =~= Seq::<(Seq<char>, Seq<char>)>::empty());
        }
        while i < bulk.len()
            invariant
                i <= bulk@.len(),
                self.wf(),
                self@ == spec_bulk_state(s0, items.subrange(0, i as int)),
                flow_id_views(errors@) == spec_bulk_failed(s0, items.subrange(0, i as int)),
            decreases bulk@.len() - i,
        {
            let ghost pre = items.subrange(0, i as int);
            proof {
                assert(items.subrange(0, i as int + 1).drop_last() =~= pre);
            }
            let w = &bulk[i];
            let res = self.change_flow(w.id.clone(), w.changes.clone());
            match res {
                Err(_) => {
                    let ghost epre = errors@;
                    errors.push(w.id.clone());
                    proof {
                        assert(flow_id_views(errors@) =~= flow_id_views(epre).push(w.id@));
                    }
                },
                _ => {},
            }
            i = i + 1;
        }
        proof {
            assert(items.subrange(0, bulk@.len() as int) =~= items);
        }
        if errors.len() == 0 {
            proof {
                assert(flow_id_views(errors@).len() == 0);
            }
            Ok(())
        } else {
            proof {
                assert(flow_id_views(errors@).len() == errors@.len());
            }
            Err(GraphError::AggregateFailure { failed: errors })
        }
    }
}

/// A copy of the identifier list with every occurrence of `x` left out,
/// order kept.
fn filter_ids(v: &Vec<NodeId>, x: &NodeId) -> (r: Vec<NodeId>)
    ensures
        string_views(r@) == string_views(v@).filter(ne_pred(x@)),
{
    let mut r: Vec<NodeId> = Vec::new();
    let mut i: usize = 0;
    proof {
        reveal(Seq::filter);
        assert(string_views(v@).subrange(0, 0) =~= Seq::<Seq<char>>::empty());
        assert(string_views(r@) =~= Seq::<Seq<char>>::empty());
    }
    while i < v.len()
        invariant
            i <= v@.len(),
            string_views(r@) == string_views(v@).subrange(0, i as int).filter(ne_pred(x@)),
        decreases v@.len() - i,
    {
        let ghost pre = string_views(v@).subrange(0, i as int);
        let ghost cur = string_views(v@).subrange(0, i as int + 1);
        proof {
            reveal(Seq::filter);
            assert(cur.drop_last() =~= pre);
            assert(cur.last() == v@[i as int]@);
        }
        if !(v[i] == *x) {
            let ghost rpre = r@;
            r.push(v[i].clone());
            proof {
                assert(string_views(r@) =~= string_views(rpre).push(v@[i as int]@));
            }
        }
        i = i + 1;
    }
    proof {
        assert(string_views(v@).subrange(0, v@.len() as int) =~= string_views(v@));
    }
    r
}

} // verus!
