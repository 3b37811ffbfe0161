//! What the interpreter asks of the platform that owns the nodes.

use vstd::prelude::*;
use crate::forest::{
    add_handler, append_all, detach, fresh_element, fresh_placeholder, fresh_text,
    handles_in, insert_all_after, insert_all_before, is_copy, remove_attribute, remove_handler,
    replace, resolve, set_attribute, set_text, sound, NodeKind, NodeView, PostedView,
};

verus! {

/// The capabilities of a host platform: to create nodes, to move them, to
/// change what they hold, to read its tree, and to pass a lifecycle event on
/// to the host.
///
/// A platform keeps a table of nodes, [`Platform::forest`], and hands out
/// handles into it. A handle stays valid for the life of the platform. Each
/// method says how it changes the table; none changes anything else.
///
/// A platform that states its model, as [`crate::document::Document`] does,
/// defines the three functions of the model and is held to the contracts of
/// the methods. The functions have a body here so that a platform can be
/// written where no model can be stated; of such a platform nothing is
/// known, and its invariant never holds.
pub trait Platform: Sized {
    /// The nodes, by handle.
    open spec fn forest(&self) -> Seq<NodeView> {
        Seq::empty()
    }

    /// The lifecycle events posted to the host so far.
    open spec fn posted(&self) -> Seq<PostedView> {
        Seq::empty()
    }

    /// What the platform needs to hold of itself between calls.
    open spec fn inv(&self) -> bool {
        false
    }

    fn create_element(&mut self, tag: &str) -> (h: usize)
        requires
            old(self).inv(),
        ensures
            final(self).inv(),
            sound(final(self).forest()),
            h == old(self).forest().len(),
            final(self).forest() == old(self).forest().push(fresh_element(tag@, Seq::empty())),
            final(self).posted() == old(self).posted(),
    ;

    fn create_element_ns(&mut self, tag: &str, namespace: &str) -> (h: usize)
        requires
            old(self).inv(),
        ensures
            final(self).inv(),
            sound(final(self).forest()),
            h == old(self).forest().len(),
            final(self).forest() == old(self).forest().push(fresh_element(tag@, namespace@)),
            final(self).posted() == old(self).posted(),
    ;

    fn create_text(&mut self, content: &str) -> (h: usize)
        requires
            old(self).inv(),
        ensures
            final(self).inv(),
            sound(final(self).forest()),
            h == old(self).forest().len(),
            final(self).forest() == old(self).forest().push(fresh_text(content@)),
            final(self).posted() == old(self).posted(),
    ;

    fn create_placeholder(&mut self) -> (h: usize)
        requires
            old(self).inv(),
        ensures
            final(self).inv(),
            sound(final(self).forest()),
            h == old(self).forest().len(),
            final(self).forest() == old(self).forest().push(fresh_placeholder()),
            final(self).posted() == old(self).posted(),
    ;

    /// Makes a copy of the subtree under `node`, with its text and attributes
    /// and without its handlers, and returns the top of the copy.
    fn clone_subtree(&mut self, node: usize) -> (h: usize)
        requires
            old(self).inv(),
            node < old(self).forest().len(),
        ensures
            final(self).inv(),
            sound(final(self).forest()),
            is_copy(old(self).forest(), final(self).forest(), node, h),
            final(self).posted() == old(self).posted(),
    ;

    fn append(&mut self, parent: usize, children: &[usize])
        requires
            old(self).inv(),
            parent < old(self).forest().len(),
            handles_in(old(self).forest(), children@),
        ensures
            final(self).inv(),
            sound(final(self).forest()),
            final(self).forest() == append_all(old(self).forest(), parent, children@),
            final(self).forest().len() == old(self).forest().len(),
            final(self).posted() == old(self).posted(),
    ;

    fn insert_before(&mut self, reference: usize, nodes: &[usize])
        requires
            old(self).inv(),
            reference < old(self).forest().len(),
            handles_in(old(self).forest(), nodes@),
        ensures
            final(self).inv(),
            sound(final(self).forest()),
            final(self).forest() == insert_all_before(old(self).forest(), reference, nodes@),
            final(self).forest().len() == old(self).forest().len(),
            final(self).posted() == old(self).posted(),
    ;

    fn insert_after(&mut self, reference: usize, nodes: &[usize])
        requires
            old(self).inv(),
            reference < old(self).forest().len(),
            handles_in(old(self).forest(), nodes@),
        ensures
            final(self).inv(),
            sound(final(self).forest()),
            final(self).forest() == insert_all_after(old(self).forest(), reference, nodes@),
            final(self).forest().len() == old(self).forest().len(),
            final(self).posted() == old(self).posted(),
    ;

    fn replace(&mut self, node: usize, with: &[usize])
        requires
            old(self).inv(),
            node < old(self).forest().len(),
            handles_in(old(self).forest(), with@),
        ensures
            final(self).inv(),
            sound(final(self).forest()),
            final(self).forest() == replace(old(self).forest(), node, with@),
            final(self).forest().len() == old(self).forest().len(),
            final(self).posted() == old(self).posted(),
    ;

    fn remove(&mut self, node: usize)
        requires
            old(self).inv(),
            node < old(self).forest().len(),
        ensures
            final(self).inv(),
            sound(final(self).forest()),
            final(self).forest() == detach(old(self).forest(), node),
            final(self).forest().len() == old(self).forest().len(),
            final(self).posted() == old(self).posted(),
    ;

    /// Sets an attribute. An empty `namespace` stands for none.
    fn set_attribute(&mut self, node: usize, name: &str, value: &str, namespace: &str)
        requires
            old(self).inv(),
            node < old(self).forest().len(),
        ensures
            final(self).inv(),
            sound(final(self).forest()),
            final(self).forest() == set_attribute(
                old(self).forest(),
                node,
                namespace@,
                name@,
                value@,
            ),
            final(self).forest().len() == old(self).forest().len(),
            final(self).posted() == old(self).posted(),
    ;

    /// Removes an attribute. An empty `namespace` stands for none.
    fn remove_attribute(&mut self, node: usize, name: &str, namespace: &str)
        requires
            old(self).inv(),
            node < old(self).forest().len(),
        ensures
            final(self).inv(),
            sound(final(self).forest()),
            final(self).forest() == remove_attribute(old(self).forest(), node, namespace@, name@),
            final(self).forest().len() == old(self).forest().len(),
            final(self).posted() == old(self).posted(),
    ;

    fn set_text(&mut self, node: usize, content: &str)
        requires
            old(self).inv(),
            node < old(self).forest().len(),
        ensures
            final(self).inv(),
            sound(final(self).forest()),
            final(self).forest() == set_text(old(self).forest(), node, content@),
            final(self).forest().len() == old(self).forest().len(),
            final(self).posted() == old(self).posted(),
    ;

    /// Installs the handler that forwards `event` on `node` to the host.
    fn register_listener(&mut self, node: usize, event: &str, bubbles: bool)
        requires
            old(self).inv(),
            node < old(self).forest().len(),
        ensures
            final(self).inv(),
            sound(final(self).forest()),
            final(self).forest() == add_handler(old(self).forest(), node, event@, bubbles),
            final(self).forest().len() == old(self).forest().len(),
            final(self).posted() == old(self).posted(),
    ;

    /// Takes the handler for `event` on `node` away.
    fn unregister_listener(&mut self, node: usize, event: &str, bubbles: bool)
        requires
            old(self).inv(),
            node < old(self).forest().len(),
        ensures
            final(self).inv(),
            sound(final(self).forest()),
            final(self).forest() == remove_handler(old(self).forest(), node, event@, bubbles),
            final(self).forest().len() == old(self).forest().len(),
            final(self).posted() == old(self).posted(),
    ;

    /// Whether `node` is a text node.
    fn is_text(&self, node: usize) -> (b: bool)
        requires
            self.inv(),
            node < self.forest().len(),
        ensures
            b == (self.forest()[node as int].kind == NodeKind::Text),
    ;

    /// Walks `path` down from `root`.
    fn load_child_by_path(&self, root: usize, path: &[u8]) -> (r: Option<usize>)
        requires
            self.inv(),
            root < self.forest().len(),
        ensures
            r == resolve(self.forest(), root, path@),
    ;

    /// Hands a lifecycle event to the host at once.
    fn post_lifecycle_event(&mut self, name: &str, node_id: u32, bubbles: bool)
        requires
            old(self).inv(),
        ensures
            final(self).inv(),
            sound(final(self).forest()),
            final(self).forest() == old(self).forest(),
            final(self).posted() == old(self).posted().push(
                PostedView { name: name@, node_id, bubbles },
            ),
    ;
}

} // verus!
