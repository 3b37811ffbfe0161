//! The node registry: which node each node id stands for.

use vstd::prelude::*;
use crate::error::ErrorKind;

verus! {

/// A growable table from node ids to node handles. Ids are dense but may be
/// bound in any order; the table grows to hold the largest id bound so far.
pub struct NodeRegistry {
    pub slots: Vec<Option<usize>>,
}

impl View for NodeRegistry {
    type V = Map<u32, usize>;

    open spec fn view(&self) -> Map<u32, usize> {
        Map::new(
            |id: u32| (id as int) < self.slots@.len() && self.slots@[id as int] is Some,
            |id: u32| self.slots@[id as int].unwrap(),
        )
    }
}

impl NodeRegistry {
    pub fn new() -> (r: Self)
        ensures
            r@ == Map::<u32, usize>::empty(),
    {
        let r = NodeRegistry { slots: Vec::new() };
        assert(r@ =~= Map::<u32, usize>::empty());
        r
    }

    /// The handle bound to `id`.
    pub fn get(&self, id: u32) -> (r: Result<usize, ErrorKind>)
        ensures
            match r {
                Ok(h) => self@.contains_key(id) && h == self@[id],
                Err(e) => e == ErrorKind::UnknownNodeId && !self@.contains_key(id),
            },
    {
        let i = id as usize;
        if i < self.slots.len() {
            match self.slots[i] {
                Some(h) => Ok(h),
                None => Err(ErrorKind::UnknownNodeId),
            }
        } else {
            Err(ErrorKind::UnknownNodeId)
        }
    }

    /// Binds `id` to `handle`, whatever it was bound to before.
    pub fn set(&mut self, id: u32, handle: usize)
        ensures
            final(self)@ == old(self)@.insert(id, handle),
    {
        let i = id as usize;
        while self.slots.len() <= i
            invariant
                i == id as usize,
                self@ == old(self)@,
            decreases i + 1 - self.slots.len(),
        {
            let ghost before = self@;
            self.slots.push(None);
            assert(self@ =~= before);
        }
        self.slots[i] = Some(handle);
        assert(self@ =~= old(self)@.insert(id, handle));
    }

    /// Drops the binding of `id` and returns the handle it was bound to.
    pub fn remove(&mut self, id: u32) -> (r: Option<usize>)
        ensures
            final(self)@ == old(self)@.remove(id),
            r == (if old(self)@.contains_key(id) {
                Some(old(self)@[id])
            } else {
                None
            }),
    {
        let i = id as usize;
        if i < self.slots.len() {
            let r = self.slots[i];
            self.slots[i] = None;
            assert(self@ =~= old(self)@.remove(id));
            r
        } else {
            assert(self@ =~= old(self)@.remove(id));
            None
        }
    }
}

} // verus!
