//! The template cache: fragments kept to be copied.

use vstd::prelude::*;
use crate::error::ErrorKind;
use crate::forest::{is_copy, sound, NodeView};
use crate::platform::Platform;

verus! {

/// Every slot of every template of `m` is a handle of the table `f`.
pub open spec fn templates_in(f: Seq<NodeView>, m: Map<u16, Seq<usize>>) -> bool {
    forall|t: u16, i: int|
        m.contains_key(t) && 0 <= i < m[t].len() ==> (#[trigger] m[t][i]) < f.len()
}

/// The slot `index` of the template `tmpl_id`, or why there is none.
pub open spec fn slot_of(m: Map<u16, Seq<usize>>, tmpl_id: u16, index: u16) -> Result<
    usize,
    ErrorKind,
> {
    if !m.contains_key(tmpl_id) {
        Err(ErrorKind::UnknownTemplateId)
    } else if index as int >= m[tmpl_id].len() {
        Err(ErrorKind::SlotIndexOutOfRange)
    } else {
        Ok(m[tmpl_id][index as int])
    }
}

/// A table from template ids to the prototype nodes of each template, the
/// slots, in their order.
pub struct TemplateCache {
    pub entries: Vec<Option<Vec<usize>>>,
}

impl View for TemplateCache {
    type V = Map<u16, Seq<usize>>;

    open spec fn view(&self) -> Map<u16, Seq<usize>> {
        Map::new(
            |t: u16| (t as int) < self.entries@.len() && self.entries@[t as int] is Some,
            |t: u16| self.entries@[t as int].unwrap()@,
        )
    }
}

impl TemplateCache {
    pub fn new() -> (c: Self)
        ensures
            c@ == Map::<u16, Seq<usize>>::empty(),
    {
        let c = TemplateCache { entries: Vec::new() };
        assert(c@ =~= Map::<u16, Seq<usize>>::empty());
        c
    }

    /// Stores `slots` as the template `tmpl_id`, in place of what was there.
    pub fn register(&mut self, tmpl_id: u16, slots: Vec<usize>)
        ensures
            final(self)@ == old(self)@.insert(tmpl_id, slots@),
    {
        let i = tmpl_id as usize;
        while self.entries.len() <= i
            invariant
                i == tmpl_id as usize,
                self@ == old(self)@,
            decreases i + 1 - self.entries.len(),
        {
            let ghost before = self@;
            self.entries.push(None);
            assert(self@ =~= before);
        }
        self.entries[i] = Some(slots);
        assert(self@ =~= old(self)@.insert(tmpl_id, slots@));
    }

    /// The prototype in slot `index` of the template `tmpl_id`.
    pub fn slot(&self, tmpl_id: u16, index: u16) -> (r: Result<usize, ErrorKind>)
        ensures
            r == slot_of(self@, tmpl_id, index),
    {
        let t = tmpl_id as usize;
        if t >= self.entries.len() {
            return Err(ErrorKind::UnknownTemplateId);
        }
        match &self.entries[t] {
            None => Err(ErrorKind::UnknownTemplateId),
            Some(slots) => {
                let i = index as usize;
                if i < slots.len() {
                    Ok(slots[i])
                } else {
                    Err(ErrorKind::SlotIndexOutOfRange)
                }
            },
        }
    }

    /// Copies slot `index` of the template `tmpl_id` on `platform` and returns
    /// the top of the copy. The prototype and every earlier copy stay as they
    /// are: the copy is made of new nodes.
    pub fn clone_slot<P: Platform>(&self, platform: &mut P, tmpl_id: u16, index: u16) -> (r:
        Result<usize, ErrorKind>)
        requires
            old(platform).inv(),
            templates_in(old(platform).forest(), self@),
        ensures
            final(platform).inv(),
            sound(old(platform).forest()) ==> sound(final(platform).forest()),
            final(platform).posted() == old(platform).posted(),
            match r {
                Ok(h) => slot_of(self@, tmpl_id, index) matches Ok(proto) && is_copy(
                    old(platform).forest(),
                    final(platform).forest(),
                    proto,
                    h,
                ),
                Err(e) => slot_of(self@, tmpl_id, index) == Err::<usize, ErrorKind>(e)
                    && final(platform).forest() == old(platform).forest(),
            },
    {
        match self.slot(tmpl_id, index) {
            Ok(proto) => Ok(platform.clone_subtree(proto)),
            Err(e) => Err(e),
        }
    }
}

} // verus!
