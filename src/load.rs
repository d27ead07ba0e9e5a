//! What loading a flattened document into the store decides: which stored
//! node each record's parent became, and which stored node is the root.
use vstd::prelude::*;
use std::collections::HashMap;
use crate::tree::NodeData;

verus! {

broadcast use vstd::std_specs::hash::group_hash_axioms;

/// The store id given to each record id of the document being loaded.
pub struct StoreIds {
    ids: HashMap<i64, i64>,
}

impl View for StoreIds {
    type V = Map<i64, i64>;

    closed spec fn view(&self) -> Map<i64, i64> {
        self.ids@
    }
}

pub open spec fn lookup(m: Map<i64, i64>, local: Option<i64>) -> Option<i64> {
    match local {
        Some(p) => if m.contains_key(p) {
            Some(m[p])
        } else {
            None
        },
        None => None,
    }
}

impl StoreIds {
    pub fn new() -> (r: StoreIds)
        ensures
            r@ == Map::<i64, i64>::empty(),
    {
        StoreIds { ids: HashMap::new() }
    }

    /// The store id of `local`, where it was stored.
    pub fn get(&self, local: i64) -> (r: Option<i64>)
        ensures
            r == lookup(self@, Some(local)),
    {
        match self.ids.get(&local) {
            Some(v) => Some(*v),
            None => None,
        }
    }

    /// The store id of the parent of `node`; none for a root, or for a
    /// parent that was not stored.
    pub fn parent_in_store(&self, node: &NodeData) -> (r: Option<i64>)
        ensures
            r == lookup(self@, node.parent_id),
    {
        match node.parent_id {
            Some(p) => self.get(p),
            None => None,
        }
    }

    /// Notes that the record `local` was stored as `stored`.
    pub fn record(&mut self, local: i64, stored: i64)
        ensures
            final(self)@ == old(self)@.insert(local, stored),
    {
        self.ids.insert(local, stored);
    }

    /// The store id of the document's root, its first record.
    pub fn root_in_store(&self, nodes: &[NodeData]) -> (r: Option<i64>)
        ensures
            r == (if nodes@.len() > 0 {
                lookup(self@, Some(nodes@[0].id))
            } else {
                None
            }),
    {
        if nodes.len() > 0 {
            self.get(nodes[0].id)
        } else {
            None
        }
    }
}

} // verus!
