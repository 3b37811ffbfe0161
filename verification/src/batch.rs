//! Applying instructions: one at a time, and a batch of them.

use vstd::prelude::*;
use crate::error::{BatchError, ErrorKind};
use crate::interpreter::Interpreter;
use crate::listeners::{count_in, ListenerKey};
use crate::names::NameKind;
use crate::platform::Platform;
use crate::semantics::{
    effect, known, lemma_counts_step, name, name_kind, room_for, runs, StateView,
};
use crate::wire::{decode, Op};

verus! {

/// The vocabulary that a kind byte of the protocol names.
pub fn kind_of(kind: u8) -> (r: Option<NameKind>)
    ensures
        r == name_kind(kind),
{
    if kind == 0 {
        Some(NameKind::Element)
    } else if kind == 1 {
        Some(NameKind::Attribute)
    } else if kind == 2 {
        Some(NameKind::Namespace)
    } else if kind == 3 {
        Some(NameKind::Event)
    } else {
        None
    }
}

impl<P: Platform> Interpreter<P> {
    /// The name that `code` stands for, as a string of its own.
    fn named(&self, kind: NameKind, code: u8) -> (r: Result<String, ErrorKind>)
        ensures
            match r {
                Ok(n) => known(self@, kind, code) && n@
                    == name(self@, kind, code),
                Err(e) => e == ErrorKind::UninternedCode && !known(
                    self@,
                    kind,
                    code,
                ),
            },
    {
        match self.names.lookup(kind, code) {
            Ok(n) => Ok(n.to_owned()),
            Err(e) => Err(e),
        }
    }

    /// Applies one instruction.
    #[verifier::rlimit(100)]
    pub fn apply(&mut self, op: &Op) -> (r: Result<(), ErrorKind>)
        requires
            old(self).wf(),
            room_for(old(self)@, 1),
        ensures
            final(self).wf(),
            effect(old(self)@, op@, final(self)@, r),
    {
        match op {
            Op::MountToRoot => self.mount_to_root(),
            Op::PushRoot { root } => self.push_root(*root),
            Op::AppendChildren { id, many } => self.append_children(*id, *many),
            Op::PopRoot => self.pop_root(),
            Op::ReplaceWith { id, n } => self.replace_with(*id, *n),
            Op::InsertAfter { id, n } => self.insert_after(*id, *n),
            Op::InsertBefore { id, n } => self.insert_before(*id, *n),
            Op::Remove { id } => self.remove(*id),
            Op::CreateRawText { text } => self.create_raw_text(text.as_str()),
            Op::CreateTextNode { text, id } => self.create_text_node(text.as_str(), *id),
            Op::CreatePlaceholder { id } => self.create_placeholder(*id),
            Op::NewEventListener { event_name, id, bubbles } => {
                let event = match self.named(NameKind::Event, *event_name) {
                    Ok(n) => n,
                    Err(e) => {
                        return Err(e);
                    },
                };
                self.new_event_listener(event.as_str(), *id, *bubbles)
            },
            Op::RemoveEventListener { event_name, id, bubbles } => {
                let event = match self.named(NameKind::Event, *event_name) {
                    Ok(n) => n,
                    Err(e) => {
                        return Err(e);
                    },
                };
                self.remove_event_listener(event.as_str(), *id, *bubbles)
            },
            Op::SetText { id, text } => self.set_text(*id, text.as_str()),
            Op::SetAttribute { id, field, value, ns } => {
                let field = match self.named(NameKind::Attribute, *field) {
                    Ok(n) => n,
                    Err(e) => {
                        return Err(e);
                    },
                };
                let ns = match self.named(NameKind::Namespace, *ns) {
                    Ok(n) => n,
                    Err(e) => {
                        return Err(e);
                    },
                };
                self.set_attribute(*id, field.as_str(), value.as_str(), ns.as_str())
            },
            Op::RemoveAttribute { id, field, ns } => {
                let field = match self.named(NameKind::Attribute, *field) {
                    Ok(n) => n,
                    Err(e) => {
                        return Err(e);
                    },
                };
                let ns = match self.named(NameKind::Namespace, *ns) {
                    Ok(n) => n,
                    Err(e) => {
                        return Err(e);
                    },
                };
                self.remove_attribute(*id, field.as_str(), ns.as_str())
            },
            Op::AssignId { ptr, len, id } => self.assign_id(*ptr, *len, *id),
            Op::HydrateText { ptr, len, value, id } => self.hydrate_text(
                *ptr,
                *len,
                value.as_str(),
                *id,
            ),
            Op::ReplacePlaceholder { ptr, len, n } => self.replace_placeholder(*ptr, *len, *n),
            Op::LoadTemplate { tmpl_id, index, id } => self.load_template(*tmpl_id, *index, *id),
            Op::AppendChildrenToTop { many } => self.append_children_to_top(*many),
            Op::SetTopAttribute { field, value, ns } => {
                let field = match self.named(NameKind::Attribute, *field) {
                    Ok(n) => n,
                    Err(e) => {
                        return Err(e);
                    },
                };
                let ns = match self.named(NameKind::Namespace, *ns) {
                    Ok(n) => n,
                    Err(e) => {
                        return Err(e);
                    },
                };
                self.set_top_attribute(field.as_str(), value.as_str(), ns.as_str())
            },
            Op::AddPlaceholder => self.add_placeholder(),
            Op::CreateElement { element } => {
                let element = match self.named(NameKind::Element, *element) {
                    Ok(n) => n,
                    Err(e) => {
                        return Err(e);
                    },
                };
                self.create_element(element.as_str())
            },
            Op::CreateElementNs { element, ns } => {
                let element = match self.named(NameKind::Element, *element) {
                    Ok(n) => n,
                    Err(e) => {
                        return Err(e);
                    },
                };
                let ns = match self.named(NameKind::Namespace, *ns) {
                    Ok(n) => n,
                    Err(e) => {
                        return Err(e);
                    },
                };
                self.create_element_ns(element.as_str(), ns.as_str())
            },
            Op::AddTemplates { tmpl_id, len } => self.add_templates(*tmpl_id, *len),
            Op::ForeignEventListener { event, id, bubbles } => {
                let event = match self.named(NameKind::Event, *event) {
                    Ok(n) => n,
                    Err(e) => {
                        return Err(e);
                    },
                };
                self.foreign_event_listener(event.as_str(), *id, *bubbles)
            },
            Op::AssignIdRef { array, id } => self.assign_id_ref(array.as_slice(), *id),
            Op::HydrateTextRef { array, value, id } => self.hydrate_text_ref(
                array.as_slice(),
                value.as_str(),
                *id,
            ),
            Op::ReplacePlaceholderRef { array, n } => self.replace_placeholder_ref(
                array.as_slice(),
                *n,
            ),
            Op::DefineName { kind, code, name } => {
                match kind_of(*kind) {
                    None => Err(ErrorKind::UnsupportedOperation),
                    Some(k) => {
                        self.names.define(k, *code, name.clone());
                        Ok(())
                    },
                }
            },
        }
    }

    /// Applies a batch: the instructions of `stream`, in their order, until
    /// the stream ends or one of them fails. Returns how many were applied.
    pub fn run(&mut self, stream: &[u8]) -> (r: Result<usize, BatchError>)
        requires
            old(self).wf(),
            room_for(old(self)@, stream@.len() as int),
        ensures
            final(self).wf(),
            runs(old(self)@, stream@, 0, 0, final(self)@, r),
    {
        let mut at: usize = 0;
        let mut index: usize = 0;
        while at < stream.len()
            invariant
                at <= stream@.len(),
                index <= at,
                self.wf(),
                room_for(self@, stream@.len() - at),
                forall|post: StateView, r: Result<usize, BatchError>|
                    #[trigger] runs(self@, stream@, at as int, index as int, post, r) ==> runs(
                        old(self)@,
                        stream@,
                        0,
                        0,
                        post,
                        r,
                    ),
            decreases stream@.len() - at,
        {
            let ghost cur = self@;
            match decode(stream, at) {
                None => {
                    let e = BatchError { index, kind: ErrorKind::UnsupportedOperation };
                    assert(runs(cur, stream@, at as int, index as int, cur, Err(e)));
                    return Err(e);
                },
                Some((op, next)) => {
                    match self.apply(&op) {
                        Err(kind) => {
                            let e = BatchError { index, kind };
                            assert(effect(cur, op@, self@, Err(kind)));
                            assert(runs(cur, stream@, at as int, index as int, self@, Err(e)));
                            return Err(e);
                        },
                        Ok(_) => {
                            proof {
                                let mid = self@;
                                assert(effect(cur, op@, mid, Ok(())));
                                assert forall|k: ListenerKey|
                                    count_in(mid.listeners, k) + (stream@.len()
                                        - next) <= u64::MAX by {
                                    lemma_counts_step(cur, op@, mid, k);
                                }
                                assert forall|post: StateView, r: Result<usize, BatchError>|
                                    #[trigger] runs(
                                        mid,
                                        stream@,
                                        next as int,
                                        index + 1,
                                        post,
                                        r,
                                    ) implies runs(old(self)@, stream@, 0, 0, post, r) by {
                                    assert(runs(cur, stream@, at as int, index as int, post, r));
                                }
                            }
                            at = next;
                            index = index + 1;
                        },
                    }
                },
            }
        }
        assert(runs(self@, stream@, at as int, index as int, self@, Ok(index)));
        Ok(index)
    }
}

} // verus!
