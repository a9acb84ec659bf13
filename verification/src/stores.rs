//! The two keyed record stores. Each is a pure map from key to record: no
//! cross-record validation happens here, that is the engine's job.

use vstd::prelude::*;
use crate::keyed::keyed_map;
use crate::keyed::keys_unique;
use crate::keyed::lemma_keyed_map_dom;
use crate::keyed::lemma_keyed_map_index;
use crate::keyed::lemma_keyed_map_push;
use crate::keyed::lemma_keyed_map_remove;
use crate::keyed::lemma_keyed_map_update;
use crate::model::Flow;
use crate::model::FlowId;
use crate::model::FlowSpec;
use crate::model::Node;
use crate::model::NodeId;
use crate::model::NodeSpec;

verus! {

/// The key of a node record: its identifier.
pub open spec fn node_key() -> spec_fn(NodeSpec) -> Seq<char> {
    |n: NodeSpec| n.id
}

/// The key of a flow record: its ordered endpoint pair.
pub open spec fn flow_key() -> spec_fn(FlowSpec) -> (Seq<char>, Seq<char>) {
    |f: FlowSpec| (f.from, f.into)
}

/// The mathematical values of a sequence of node records.
pub open spec fn node_views(s: Seq<Node>) -> Seq<NodeSpec> {
    s.map_values(|n: Node| n@)
}

/// The mathematical values of a sequence of flow records.
pub open spec fn flow_views(s: Seq<Flow>) -> Seq<FlowSpec> {
    s.map_values(|f: Flow| f@)
}

/// Owns the set of nodes, keyed by node id.
pub struct NodeStore {
    entries: Vec<Node>,
}

impl View for NodeStore {
    type V = Map<Seq<char>, NodeSpec>;

    closed spec fn view(&self) -> Map<Seq<char>, NodeSpec> {
        keyed_map(node_views(self.entries@), node_key())
    }
}

impl NodeStore {
    /// Record ids are mutually distinct.
    pub closed spec fn wf(&self) -> bool {
        keys_unique(node_views(self.entries@), node_key())
    }

    pub fn new() -> (r: Self)
        ensures
            r.wf(),
            r@ == Map::<Seq<char>, NodeSpec>::empty(),
    {
        NodeStore { entries: Vec::new() }
    }

    /// Index of the record with the given id, if any.
    fn find(&self, id: &NodeId) -> (r: Option<usize>)
        ensures
            match r {
                Some(i) => i < self.entries@.len() && self.entries@[i as int].id@ == id@,
                None => forall|j: int|
                    0 <= j < self.entries@.len() ==> (#[trigger] self.entries@[j]).id@ != id@,
            },
    {
        let mut i: usize = 0;
        while i < self.entries.len()
            invariant
                i <= self.entries@.len(),
                forall|j: int| 0 <= j < i ==> (#[trigger] self.entries@[j]).id@ != id@,
            decreases self.entries@.len() - i,
        {
            if self.entries[i].id == *id {
                return Some(i);
            }
            i = i + 1;
        }
        None
    }

    pub fn contains_key(&self, id: &NodeId) -> (r: bool)
        ensures
            r == self@.dom().contains(id@),
    {
        let found = self.find(id);
        proof {
            lemma_keyed_map_dom(node_views(self.entries@), node_key());
            match found {
                Some(i) => {
                    assert(node_key()(node_views(self.entries@)[i as int]) == id@);
                },
                None => {
                    if self@.dom().contains(id@) {
                        let j = choose|j: int|
                            0 <= j < node_views(self.entries@).len() && node_key()(
                                #[trigger] node_views(self.entries@)[j],
                            ) == id@;
                        assert(self.entries@[j].id@ == id@);
                    }
                },
            }
        }
        match found {
            Some(_) => true,
            None => false,
        }
    }

    pub fn get(&self, id: &NodeId) -> (r: Option<&Node>)
        requires
            self.wf(),
        ensures
            match r {
                Some(n) => self@.dom().contains(id@) && n@ == self@[id@] && n.id@ == id@,
                None => !self@.dom().contains(id@),
            },
    {
        let found = self.find(id);
        proof {
            lemma_keyed_map_dom(node_views(self.entries@), node_key());
            match found {
                Some(i) => {
                    lemma_keyed_map_index(node_views(self.entries@), node_key(), i as int);
                },
                None => {
                    if self@.dom().contains(id@) {
                        let j = choose|j: int|
                            0 <= j < node_views(self.entries@).len() && node_key()(
                                #[trigger] node_views(self.entries@)[j],
                            ) == id@;
                        assert(self.entries@[j].id@ == id@);
                    }
                },
            }
        }
        match found {
            Some(i) => Some(&self.entries[i]),
            None => None,
        }
    }

    /// Adds a record whose id is not yet present.
    pub fn insert(&mut self, node: Node)
        requires
            old(self).wf(),
            !old(self)@.dom().contains(node.id@),
        ensures
            final(self).wf(),
            final(self)@ == old(self)@.insert(node.id@, node@),
    {
        proof {
            lemma_keyed_map_dom(node_views(self.entries@), node_key());
            assert forall|j: int| 0 <= j < self.entries@.len() implies (
            #[trigger] self.entries@[j]).id@ != node.id@ by {
                if self.entries@[j].id@ == node.id@ {
                    assert(node_key()(node_views(self.entries@)[j]) == node.id@);
                }
            }
            lemma_keyed_map_push(node_views(self.entries@), node_key(), node@);
        }
        let ghost prior = self.entries@;
        self.entries.push(node);
        proof {
            assert(node_views(self.entries@) =~= node_views(prior).push(self.entries@.last()@));
        }
    }

    /// Unconditional overwrite: replaces the record with the same id, or adds
    /// the record if its id is absent.
    pub fn put(&mut self, node: Node)
        requires
            old(self).wf(),
        ensures
            final(self).wf(),
            final(self)@ == old(self)@.insert(node.id@, node@),
    {
        let found = self.find(&node.id);
        match found {
            Some(i) => {
                proof {
                    lemma_keyed_map_update(
                        node_views(self.entries@),
                        node_key(),
                        i as int,
                        node@,
                    );
                }
                let ghost prior = self.entries@;
                self.entries.set(i, node);
                proof {
                    assert(node_views(self.entries@) =~= node_views(prior).update(
                        i as int,
                        self.entries@[i as int]@,
                    ));
                    assert forall|p: int, q: int|
                        0 <= p < q < node_views(self.entries@).len() implies node_key()(
                        #[trigger] node_views(self.entries@)[p]) != node_key()(
                        #[trigger] node_views(self.entries@)[q]) by {
                        assert(node_key()(node_views(prior)[p]) != node_key()(
                            node_views(prior)[q],
                        ));
                    }
                }
            },
            None => {
                proof {
                    lemma_keyed_map_dom(node_views(self.entries@), node_key());
                    if self@.dom().contains(node.id@) {
                        let j = choose|j: int|
                            0 <= j < node_views(self.entries@).len() && node_key()(
                                #[trigger] node_views(self.entries@)[j],
                            ) == node.id@;
                        assert(self.entries@[j].id@ == node.id@);
                    }
                }
                self.insert(node);
            },
        }
    }

    /// Removes and returns the record with the given id, if any.
    pub fn remove(&mut self, id: &NodeId) -> (r: Option<Node>)
        requires
            old(self).wf(),
        ensures
            final(self).wf(),
            match r {
                Some(n) => {
                    &&& old(self)@.dom().contains(id@)
                    &&& n@ == old(self)@[id@]
                    &&& n.id@ == id@
                    &&& final(self)@ == old(self)@.remove(id@)
                },
                None => {
                    &&& !old(self)@.dom().contains(id@)
                    &&& *final(self) == *old(self)
                },
            },
    {
        let found = self.find(id);
        match found {
            Some(i) => {
                proof {
                    lemma_keyed_map_index(node_views(self.entries@), node_key(), i as int);
                    lemma_keyed_map_remove(node_views(self.entries@), node_key(), i as int);
                }
                let ghost prior = self.entries@;
                let n = self.entries.remove(i);
                proof {
                    prior.remove_ensures(i as int);
                    node_views(prior).remove_ensures(i as int);
                    assert(node_views(self.entries@) =~= node_views(prior).remove(i as int));
                    assert forall|p: int, q: int|
                        0 <= p < q < node_views(self.entries@).len() implies node_key()(
                        #[trigger] node_views(self.entries@)[p]) != node_key()(
                        #[trigger] node_views(self.entries@)[q]) by {
                        let p0: int = if p < i { p } else { p + 1 };
                        let q0: int = if q < i { q } else { q + 1 };
                        assert(node_key()(node_views(prior)[p0]) != node_key()(
                            node_views(prior)[q0],
                        ));
                    }
                }
                Some(n)
            },
            None => {
                proof {
                    lemma_keyed_map_dom(node_views(self.entries@), node_key());
                    if self@.dom().contains(id@) {
                        let j = choose|j: int|
                            0 <= j < node_views(self.entries@).len() && node_key()(
                                #[trigger] node_views(self.entries@)[j],
                            ) == id@;
                        assert(self.entries@[j].id@ == id@);
                    }
                }
                None
            },
        }
    }
}

/// Owns the set of directed edges, keyed by the ordered pair (from, into).
pub struct FlowStore {
    entries: Vec<Flow>,
}

impl View for FlowStore {
    type V = Map<(Seq<char>, Seq<char>), FlowSpec>;

    closed spec fn view(&self) -> Map<(Seq<char>, Seq<char>), FlowSpec> {
        keyed_map(flow_views(self.entries@), flow_key())
    }
}

impl FlowStore {
    /// Record keys are mutually distinct.
    pub closed spec fn wf(&self) -> bool {
        keys_unique(flow_views(self.entries@), flow_key())
    }

    pub fn new() -> (r: Self)
        ensures
            r.wf(),
            r@ == Map::<(Seq<char>, Seq<char>), FlowSpec>::empty(),
    {
        FlowStore { entries: Vec::new() }
    }

    /// Index of the record with the given key, if any.
    fn find(&self, from: &NodeId, into: &NodeId) -> (r: Option<usize>)
        ensures
            match r {
                Some(i) => {
                    &&& i < self.entries@.len()
                    &&& self.entries@[i as int].id.from@ == from@
                    &&& self.entries@[i as int].id.into@ == into@
                },
                None => forall|j: int|
                    0 <= j < self.entries@.len() ==> !((#[trigger] self.entries@[j]).id.from@
                        == from@ && self.entries@[j].id.into@ == into@),
            },
    {
        let mut i: usize = 0;
        while i < self.entries.len()
            invariant
                i <= self.entries@.len(),
                forall|j: int|
                    0 <= j < i ==> !((#[trigger] self.entries@[j]).id.from@ == from@
                        && self.entries@[j].id.into@ == into@),
            decreases self.entries@.len() - i,
        {
            if self.entries[i].id.from == *from && self.entries[i].id.into == *into {
                return Some(i);
            }
            i = i + 1;
        }
        None
    }

    pub fn contains_key(&self, from: &NodeId, into: &NodeId) -> (r: bool)
        ensures
            r == self@.dom().contains((from@, into@)),
    {
        let found = self.find(from, into);
        proof {
            lemma_keyed_map_dom(flow_views(self.entries@), flow_key());
            match found {
                Some(i) => {
                    assert(flow_key()(flow_views(self.entries@)[i as int]) == (from@, into@));
                },
                None => {
                    if self@.dom().contains((from@, into@)) {
                        let j = choose|j: int|
                            0 <= j < flow_views(self.entries@).len() && flow_key()(
                                #[trigger] flow_views(self.entries@)[j],
                            ) == (from@, into@);
                        assert(self.entries@[j].id.from@ == from@);
                        assert(self.entries@[j].id.into@ == into@);
                    }
                },
            }
        }
        match found {
            Some(_) => true,
            None => false,
        }
    }

    pub fn get(&self, from: &NodeId, into: &NodeId) -> (r: Option<&Flow>)
        requires
            self.wf(),
        ensures
            match r {
                Some(f) => {
                    &&& self@.dom().contains((from@, into@))
                    &&& f@ == self@[(from@, into@)]
                    &&& f.id.from@ == from@
                    &&& f.id.into@ == into@
                },
                None => !self@.dom().contains((from@, into@)),
            },
    {
        let found = self.find(from, into);
        proof {
            lemma_keyed_map_dom(flow_views(self.entries@), flow_key());
            match found {
                Some(i) => {
                    lemma_keyed_map_index(flow_views(self.entries@), flow_key(), i as int);
                    assert(flow_key()(flow_views(self.entries@)[i as int]) == (from@, into@));
                },
                None => {
                    if self@.dom().contains((from@, into@)) {
                        let j = choose|j: int|
                            0 <= j < flow_views(self.entries@).len() && flow_key()(
                                #[trigger] flow_views(self.entries@)[j],
                            ) == (from@, into@);
                        assert(self.entries@[j].id.from@ == from@);
                        assert(self.entries@[j].id.into@ == into@);
                    }
                },
            }
        }
        match found {
            Some(i) => Some(&self.entries[i]),
            None => None,
        }
    }

    /// Adds a record whose key is not yet present.
    pub fn insert(&mut self, flow: Flow)
        requires
            old(self).wf(),
            !old(self)@.dom().contains((flow.id.from@, flow.id.into@)),
        ensures
            final(self).wf(),
            final(self)@ == old(self)@.insert((flow.id.from@, flow.id.into@), flow@),
    {
        proof {
            lemma_keyed_map_dom(flow_views(self.entries@), flow_key());
            assert forall|j: int| 0 <= j < self.entries@.len() implies !((
            #[trigger] self.entries@[j]).id.from@ == flow.id.from@ && self.entries@[j].id.into@
                == flow.id.into@) by {
                if self.entries@[j].id.from@ == flow.id.from@ && self.entries@[j].id.into@
                    == flow.id.into@ {
                    assert(flow_key()(flow_views(self.entries@)[j]) == (
                        flow.id.from@,
                        flow.id.into@,
                    ));
                }
            }
            lemma_keyed_map_push(flow_views(self.entries@), flow_key(), flow@);
        }
        let ghost prior = self.entries@;
        self.entries.push(flow);
        proof {
            assert(flow_views(self.entries@) =~= flow_views(prior).push(self.entries@.last()@));
            assert forall|p: int, q: int|
                0 <= p < q < flow_views(self.entries@).len() implies flow_key()(
            #[trigger] flow_views(self.entries@)[p]) != flow_key()(
            #[trigger] flow_views(self.entries@)[q]) by {
                if q < flow_views(prior).len() {
                    assert(flow_key()(flow_views(prior)[p]) != flow_key()(flow_views(prior)[q]));
                }
            }
        }
    }

    /// Unconditional overwrite: replaces the record with the same key, or
    /// adds the record if its key is absent.
    pub fn put(&mut self, flow: Flow)
        requires
            old(self).wf(),
        ensures
            final(self).wf(),
            final(self)@ == old(self)@.insert((flow.id.from@, flow.id.into@), flow@),
    {
        let found = self.find(&flow.id.from, &flow.id.into);
        match found {
            Some(i) => {
                proof {
                    lemma_keyed_map_update(flow_views(self.entries@), flow_key(), i as int, flow@);
                }
                let ghost prior = self.entries@;
                self.entries.set(i, flow);
                proof {
                    assert(flow_views(self.entries@) =~= flow_views(prior).update(
                        i as int,
                        self.entries@[i as int]@,
                    ));
                    assert forall|p: int, q: int|
                        0 <= p < q < flow_views(self.entries@).len() implies flow_key()(
                    #[trigger] flow_views(self.entries@)[p]) != flow_key()(
                    #[trigger] flow_views(self.entries@)[q]) by {
                        assert(flow_key()(flow_views(prior)[p]) != flow_key()(flow_views(prior)[q]));
                    }
                }
            },
            None => {
                proof {
                    lemma_keyed_map_dom(flow_views(self.entries@), flow_key());
                    if self@.dom().contains((flow.id.from@, flow.id.into@)) {
                        let j = choose|j: int|
                            0 <= j < flow_views(self.entries@).len() && flow_key()(
                                #[trigger] flow_views(self.entries@)[j],
                            ) == (flow.id.from@, flow.id.into@);
                        assert(self.entries@[j].id.from@ == flow.id.from@);
                        assert(self.entries@[j].id.into@ == flow.id.into@);
                    }
                }
                self.insert(flow);
            },
        }
    }

    /// Removes and returns the record with the given key, if any.
    pub fn remove(&mut self, from: &NodeId, into: &NodeId) -> (r: Option<Flow>)
        requires
            old(self).wf(),
        ensures
            final(self).wf(),
            match r {
                Some(f) => {
                    &&& old(self)@.dom().contains((from@, into@))
                    &&& f@ == old(self)@[(from@, into@)]
                    &&& final(self)@ == old(self)@.remove((from@, into@))
                },
                None => {
                    &&& !old(self)@.dom().contains((from@, into@))
                    &&& *final(self) == *old(self)
                },
            },
    {
        let found = self.find(from, into);
        match found {
            Some(i) => {
                proof {
                    lemma_keyed_map_index(flow_views(self.entries@), flow_key(), i as int);
                    lemma_keyed_map_remove(flow_views(self.entries@), flow_key(), i as int);
                    assert(flow_key()(flow_views(self.entries@)[i as int]) == (from@, into@));
                }
                let ghost prior = self.entries@;
                let f = self.entries.remove(i);
                proof {
                    prior.remove_ensures(i as int);
                    flow_views(prior).remove_ensures(i as int);
                    assert(flow_views(self.entries@) =~= flow_views(prior).remove(i as int));
                    assert forall|p: int, q: int|
                        0 <= p < q < flow_views(self.entries@).len() implies flow_key()(
                    #[trigger] flow_views(self.entries@)[p]) != flow_key()(
                    #[trigger] flow_views(self.entries@)[q]) by {
                        let p0: int = if p < i { p } else { p + 1 };
                        let q0: int = if q < i { q } else { q + 1 };
                        assert(flow_key()(flow_views(prior)[p0]) != flow_key()(
                            flow_views(prior)[q0],
                        ));
                    }
                }
                Some(f)
            },
            None => {
                proof {
                    lemma_keyed_map_dom(flow_views(self.entries@), flow_key());
                    if self@.dom().contains((from@, into@)) {
                        let j = choose|j: int|
                            0 <= j < flow_views(self.entries@).len() && flow_key()(
                                #[trigger] flow_views(self.entries@)[j],
                            ) == (from@, into@);
                        assert(self.entries@[j].id.from@ == from@);
                        assert(self.entries@[j].id.into@ == into@);
                    }
                }
                None
            },
        }
    }
}

} // verus!
