//! The interpreter: one method for each operation of the protocol.

use vstd::prelude::*;
use crate::error::ErrorKind;
use crate::forest::{
    forest_wf, handles_in, lemma_resolve, remove_handler, sound, without_handlers, NodeView,
    PostedView,
};
use crate::listeners::{count_in, lemma_push_contains, names_of, ListenerKey, ListenerTable};
use crate::names::{NameCaches, NamesView};
use crate::platform::Platform;
use crate::registry::NodeRegistry;
use crate::semantics::{
    add_placeholder_step, add_templates_step, append_children_step, append_children_to_top_step,
    assign_id_ref_step, assign_id_step, create_element_ns_step, create_element_step,
    create_placeholder_step, create_raw_text_step, create_text_node_step, flag, host_flag,
    lifecycle_event, listen_step, unhooked,
    foreign_event_listener_step, hydrate_text_ref_step, hydrate_text_step, insert_after_step,
    insert_before_step, load_template_effect, located, mount_to_root_step,
    new_event_listener_step, outcome, path_at, pop_root_step, push_root_step,
    remove_attribute_step, remove_event_listener_step, remove_step, replace_placeholder_ref_step,
    replace_placeholder_step, replace_with_step, set_attribute_step, set_text_step,
    set_top_attribute_step, StateView,
};
use crate::stack::OperandStack;
use crate::templates::{templates_in, TemplateCache};
use crate::text::{decimal, str_eq};

verus! {

/// The interpreter of a session: the platform it works on, and the tables
/// that the operations of the stream speak of.
pub struct Interpreter<P: Platform> {
    pub platform: P,
    /// The node under which batches mount what they build.
    pub root: usize,
    pub stack: OperandStack,
    pub nodes: NodeRegistry,
    pub templates: TemplateCache,
    pub listeners: ListenerTable,
    pub names: NameCaches,
    /// The side buffer that hydration paths are read from.
    pub paths: Vec<u8>,
}

impl<P: Platform> View for Interpreter<P> {
    type V = StateView;

    open spec fn view(&self) -> StateView {
        StateView {
            forest: self.platform.forest(),
            posted: self.platform.posted(),
            root: self.root,
            stack: self.stack@,
            nodes: self.nodes@,
            templates: self.templates@,
            listeners: self.listeners@,
            names: self.names@,
            paths: self.paths@,
        }
    }
}

/// The state in which a session starts: the root is on the stack and bound
/// to the node id 0.
pub open spec fn initial(forest: Seq<NodeView>, posted: Seq<PostedView>, root: usize) -> StateView {
    StateView {
        forest,
        posted,
        root,
        stack: seq![root],
        nodes: Map::<u32, usize>::empty().insert(0u32, root),
        templates: Map::empty(),
        listeners: Map::empty(),
        names: NamesView {
            element: Map::empty(),
            attribute: Map::empty(),
            namespace: Map::empty(),
            event: Map::empty(),
        },
        paths: Seq::empty(),
    }
}

/// Taking the handlers for the events of the purged records away is taking
/// the handlers of the records that do not bubble away.
proof fn lemma_unhooked(
    f: Seq<NodeView>,
    listeners: Map<ListenerKey, nat>,
    h: usize,
    id: u32,
    events: Seq<Seq<char>>,
)
    requires
        h < f.len(),
        forall|e: Seq<char>| #[trigger] events.contains(e) <==> listeners.contains_key((id, e, false)),
    ensures
        without_handlers(f, h, events) == unhooked(f, listeners, h, id),
{
    let a = without_handlers(f, h, events);
    let b = unhooked(f, listeners, h, id);
    assert forall|k: (Seq<char>, bool)|
        a[h as int].handlers.contains(k) <==> b[h as int].handlers.contains(k) by {
        assert(events.contains(k.0) <==> listeners.contains_key((id, k.0, false)));
    }
    assert(a[h as int].handlers =~= b[h as int].handlers);
    assert(a =~= b);
}

/// Takes the handlers for `events`, none of which bubbles, away from `node`.
fn unhook<P: Platform>(platform: &mut P, node: usize, events: &Vec<String>)
    requires
        old(platform).inv(),
        sound(old(platform).forest()),
        node < old(platform).forest().len(),
    ensures
        final(platform).inv(),
        sound(final(platform).forest()),
        final(platform).forest() == without_handlers(
            old(platform).forest(),
            node,
            names_of(events@),
        ),
        final(platform).forest().len() == old(platform).forest().len(),
        final(platform).posted() == old(platform).posted(),
{
    let ghost f0 = platform.forest();
    let ghost names = names_of(events@);
    let mut k: usize = 0;
    proof {
        let g = without_handlers(f0, node, names.take(0));
        assert forall|x: Seq<char>| !names.take(0).contains(x) by {
            if names.take(0).contains(x) {
                let j = choose|j: int| 0 <= j < names.take(0).len() && names.take(0)[j] == x;
            }
        }
        assert(g[node as int].handlers =~= f0[node as int].handlers);
        assert(g =~= f0);
    }
    while k < events.len()
        invariant
            k <= events@.len(),
            names == names_of(events@),
            platform.inv(),
            sound(platform.forest()),
            node < f0.len(),
            platform.forest().len() == f0.len(),
            platform.forest() == without_handlers(f0, node, names.take(k as int)),
            platform.posted() == old(platform).posted(),
        decreases events@.len() - k,
    {
        let ghost cur = platform.forest();
        platform.unregister_listener(node, events[k].as_str(), false);
        proof {
            let e = names[k as int];
            let before = names.take(k as int);
            let after = names.take(k + 1);
            assert(after =~= before.push(e));
            let g = without_handlers(f0, node, after);
            let h = remove_handler(cur, node, e, false);
            assert forall|x: (Seq<char>, bool)|
                h[node as int].handlers.contains(x) <==> g[node as int].handlers.contains(x) by {
                lemma_push_contains(before, e, x.0);
            }
            assert(h[node as int].handlers =~= g[node as int].handlers);
            assert(h =~= g);
        }
        k += 1;
    }
    assert(names.take(k as int) =~= names);
}

impl<P: Platform> Interpreter<P> {
    /// The platform and the listener table are in order, and every handle
    /// that the interpreter holds is a handle of the platform.
    pub open spec fn wf(&self) -> bool {
        &&& self.platform.inv()
        &&& self.listeners.wf()
        &&& self@.wf()
    }

    /// Starts a session on `platform`, with `root` as the node to mount under.
    pub fn new(platform: P, root: usize) -> (it: Self)
        requires
            platform.inv(),
            sound(platform.forest()),
            root < platform.forest().len(),
        ensures
            it.wf(),
            it@ == initial(platform.forest(), platform.posted(), root),
    {
        let mut stack = OperandStack::new();
        stack.push(root);
        let mut nodes = NodeRegistry::new();
        nodes.set(0, root);
        let it = Interpreter {
            platform,
            root,
            stack,
            nodes,
            templates: TemplateCache::new(),
            listeners: ListenerTable::new(),
            names: NameCaches::new(),
            paths: Vec::new(),
        };
        proof {
            assert(it@.stack =~= seq![root]);
            assert(it@.paths =~= Seq::<u8>::empty());
        }
        it
    }

    /// Sets the side buffer that hydration paths are read from.
    pub fn set_paths(&mut self, paths: Vec<u8>)
        requires
            old(self).wf(),
        ensures
            final(self).wf(),
            final(self)@ == (StateView { paths: paths@, ..old(self)@ }),
    {
        self.paths = paths;
    }

    /// Appends every operand above the bottom one to the root, in order, and
    /// leaves the bottom operand alone on the stack.
    pub fn mount_to_root(&mut self) -> (r: Result<(), ErrorKind>)
        requires
            old(self).wf(),
        ensures
            final(self).wf(),
            outcome(mount_to_root_step(old(self)@), old(self)@, final(self)@, r),
    {
        let depth = self.stack.depth();
        if depth == 0 {
            return Err(ErrorKind::StackUnderflow);
        }
        let els = match self.stack.take_top(depth - 1) {
            Ok(els) => els,
            Err(e) => {
                return Err(e);
            },
        };
        self.platform.append(self.root, els.as_slice());
        Ok(())
    }

    /// Pushes the node bound to `root`.
    pub fn push_root(&mut self, root: u32) -> (r: Result<(), ErrorKind>)
        requires
            old(self).wf(),
        ensures
            final(self).wf(),
            outcome(push_root_step(old(self)@, root), old(self)@, final(self)@, r),
    {
        let h = match self.nodes.get(root) {
            Ok(h) => h,
            Err(e) => {
                return Err(e);
            },
        };
        self.stack.push(h);
        Ok(())
    }

    /// Takes the top `many` operands off and appends them, in the order in
    /// which they were pushed, to the node bound to `id`.
    pub fn append_children(&mut self, id: u32, many: u16) -> (r: Result<(), ErrorKind>)
        requires
            old(self).wf(),
        ensures
            final(self).wf(),
            outcome(append_children_step(old(self)@, id, many), old(self)@, final(self)@, r),
    {
        let parent = match self.nodes.get(id) {
            Ok(h) => h,
            Err(e) => {
                return Err(e);
            },
        };
        let els = match self.stack.take_top(many as usize) {
            Ok(els) => els,
            Err(e) => {
                return Err(e);
            },
        };
        self.platform.append(parent, els.as_slice());
        Ok(())
    }

    /// Takes the top operand off.
    pub fn pop_root(&mut self) -> (r: Result<(), ErrorKind>)
        requires
            old(self).wf(),
        ensures
            final(self).wf(),
            outcome(pop_root_step(old(self)@), old(self)@, final(self)@, r),
    {
        match self.stack.pop() {
            Ok(_) => Ok(()),
            Err(e) => Err(e),
        }
    }

    /// Takes the top `many` operands off and appends them, in order, to the
    /// operand that lies under them, which stays on the stack.
    pub fn append_children_to_top(&mut self, many: u16) -> (r: Result<(), ErrorKind>)
        requires
            old(self).wf(),
        ensures
            final(self).wf(),
            outcome(append_children_to_top_step(old(self)@, many), old(self)@, final(self)@, r),
    {
        let parent = match self.stack.peek(many as usize) {
            Ok(h) => h,
            Err(e) => {
                return Err(e);
            },
        };
        let els = match self.stack.take_top(many as usize) {
            Ok(els) => els,
            Err(e) => {
                return Err(e);
            },
        };
        self.platform.append(parent, els.as_slice());
        Ok(())
    }

    /// Takes the top `n` operands off and puts them, in order, in the place
    /// of the node bound to `id`. Before that the node loses its listeners
    /// that do not bubble, whatever their counts: the records leave the
    /// table, and the platform takes the handler of each away while it can
    /// still reach the node. The id is free again.
    pub fn replace_with(&mut self, id: u32, n: u16) -> (r: Result<(), ErrorKind>)
        requires
            old(self).wf(),
        ensures
            final(self).wf(),
            outcome(replace_with_step(old(self)@, id, n), old(self)@, final(self)@, r),
    {
        let node = match self.nodes.get(id) {
            Ok(h) => h,
            Err(e) => {
                return Err(e);
            },
        };
        let els = match self.stack.take_top(n as usize) {
            Ok(els) => els,
            Err(e) => {
                return Err(e);
            },
        };
        let events = self.listeners.purge_non_bubbling(id);
        unhook(&mut self.platform, node, &events);
        proof {
            lemma_unhooked(old(self)@.forest, old(self)@.listeners, node, id, names_of(events@));
        }
        self.platform.replace(node, els.as_slice());
        let _ = self.nodes.remove(id);
        Ok(())
    }

    /// Takes the top `n` operands off and puts them, in order, after the node
    /// bound to `id`.
    pub fn insert_after(&mut self, id: u32, n: u16) -> (r: Result<(), ErrorKind>)
        requires
            old(self).wf(),
        ensures
            final(self).wf(),
            outcome(insert_after_step(old(self)@, id, n), old(self)@, final(self)@, r),
    {
        let node = match self.nodes.get(id) {
            Ok(h) => h,
            Err(e) => {
                return Err(e);
            },
        };
        let els = match self.stack.take_top(n as usize) {
            Ok(els) => els,
            Err(e) => {
                return Err(e);
            },
        };
        self.platform.insert_after(node, els.as_slice());
        Ok(())
    }

    /// Takes the top `n` operands off and puts them, in order, before the
    /// node bound to `id`.
    pub fn insert_before(&mut self, id: u32, n: u16) -> (r: Result<(), ErrorKind>)
        requires
            old(self).wf(),
        ensures
            final(self).wf(),
            outcome(insert_before_step(old(self)@, id, n), old(self)@, final(self)@, r),
    {
        let node = match self.nodes.get(id) {
            Ok(h) => h,
            Err(e) => {
                return Err(e);
            },
        };
        let els = match self.stack.take_top(n as usize) {
            Ok(els) => els,
            Err(e) => {
                return Err(e);
            },
        };
        self.platform.insert_before(node, els.as_slice());
        Ok(())
    }

    /// Takes the node bound to `id` out of the document. Before that the
    /// node loses its listeners that do not bubble, whatever their counts:
    /// the records leave the table, and the platform takes the handler of
    /// each away while it can still reach the node. The id is free again.
    pub fn remove(&mut self, id: u32) -> (r: Result<(), ErrorKind>)
        requires
            old(self).wf(),
        ensures
            final(self).wf(),
            outcome(remove_step(old(self)@, id), old(self)@, final(self)@, r),
    {
        let node = match self.nodes.get(id) {
            Ok(h) => h,
            Err(e) => {
                return Err(e);
            },
        };
        let events = self.listeners.purge_non_bubbling(id);
        unhook(&mut self.platform, node, &events);
        proof {
            lemma_unhooked(old(self)@.forest, old(self)@.listeners, node, id, names_of(events@));
        }
        self.platform.remove(node);
        let _ = self.nodes.remove(id);
        Ok(())
    }

    /// Creates a text node and pushes it.
    pub fn create_raw_text(&mut self, text: &str) -> (r: Result<(), ErrorKind>)
        requires
            old(self).wf(),
        ensures
            final(self).wf(),
            outcome(create_raw_text_step(old(self)@, text@), old(self)@, final(self)@, r),
    {
        let h = self.platform.create_text(text);
        self.stack.push(h);
        Ok(())
    }

    /// Creates a text node, binds it to `id` and pushes it.
    pub fn create_text_node(&mut self, text: &str, id: u32) -> (r: Result<(), ErrorKind>)
        requires
            old(self).wf(),
        ensures
            final(self).wf(),
            outcome(create_text_node_step(old(self)@, text@, id), old(self)@, final(self)@, r),
    {
        let h = self.platform.create_text(text);
        self.nodes.set(id, h);
        self.stack.push(h);
        Ok(())
    }

    /// Creates a placeholder, binds it to `id` and pushes it.
    pub fn create_placeholder(&mut self, id: u32) -> (r: Result<(), ErrorKind>)
        requires
            old(self).wf(),
        ensures
            final(self).wf(),
            outcome(create_placeholder_step(old(self)@, id), old(self)@, final(self)@, r),
    {
        let h = self.platform.create_placeholder();
        self.stack.push(h);
        self.nodes.set(id, h);
        Ok(())
    }

    /// Creates a placeholder and pushes it.
    pub fn add_placeholder(&mut self) -> (r: Result<(), ErrorKind>)
        requires
            old(self).wf(),
        ensures
            final(self).wf(),
            outcome(add_placeholder_step(old(self)@), old(self)@, final(self)@, r),
    {
        let h = self.platform.create_placeholder();
        self.stack.push(h);
        Ok(())
    }

    /// Creates an element with the tag `element` and pushes it.
    pub fn create_element(&mut self, element: &str) -> (r: Result<(), ErrorKind>)
        requires
            old(self).wf(),
        ensures
            final(self).wf(),
            outcome(create_element_step(old(self)@, element@), old(self)@, final(self)@, r),
    {
        let h = self.platform.create_element(element);
        self.stack.push(h);
        Ok(())
    }

    /// Creates an element with the tag `element` in the namespace `ns` and
    /// pushes it.
    pub fn create_element_ns(&mut self, element: &str, ns: &str) -> (r: Result<(), ErrorKind>)
        requires
            old(self).wf(),
        ensures
            final(self).wf(),
            outcome(create_element_ns_step(old(self)@, element@, ns@), old(self)@, final(self)@, r),
    {
        let h = self.platform.create_element_ns(element, ns);
        self.stack.push(h);
        Ok(())
    }

    /// Sets the text of the node bound to `id`.
    pub fn set_text(&mut self, id: u32, text: &str) -> (r: Result<(), ErrorKind>)
        requires
            old(self).wf(),
        ensures
            final(self).wf(),
            outcome(set_text_step(old(self)@, id, text@), old(self)@, final(self)@, r),
    {
        let node = match self.nodes.get(id) {
            Ok(h) => h,
            Err(e) => {
                return Err(e);
            },
        };
        self.platform.set_text(node, text);
        Ok(())
    }

    /// Sets the attribute `field` of the node bound to `id`. An empty `ns`
    /// stands for no namespace.
    pub fn set_attribute(&mut self, id: u32, field: &str, value: &str, ns: &str) -> (r: Result<
        (),
        ErrorKind,
    >)
        requires
            old(self).wf(),
        ensures
            final(self).wf(),
            outcome(
                set_attribute_step(old(self)@, id, field@, value@, ns@),
                old(self)@,
                final(self)@,
                r,
            ),
    {
        let node = match self.nodes.get(id) {
            Ok(h) => h,
            Err(e) => {
                return Err(e);
            },
        };
        self.platform.set_attribute(node, field, value, ns);
        Ok(())
    }

    /// Sets the attribute `field` of the top operand.
    pub fn set_top_attribute(&mut self, field: &str, value: &str, ns: &str) -> (r: Result<
        (),
        ErrorKind,
    >)
        requires
            old(self).wf(),
        ensures
            final(self).wf(),
            outcome(
                set_top_attribute_step(old(self)@, field@, value@, ns@),
                old(self)@,
                final(self)@,
                r,
            ),
    {
        let node = match self.stack.peek(0) {
            Ok(h) => h,
            Err(e) => {
                return Err(e);
            },
        };
        self.platform.set_attribute(node, field, value, ns);
        Ok(())
    }

    /// Clears the attribute `field` of the node bound to `id`: a reflected
    /// attribute without a namespace is reset, any other is removed.
    pub fn remove_attribute(&mut self, id: u32, field: &str, ns: &str) -> (r: Result<
        (),
        ErrorKind,
    >)
        requires
            old(self).wf(),
        ensures
            final(self).wf(),
            outcome(remove_attribute_step(old(self)@, id, field@, ns@), old(self)@, final(self)@, r),
    {
        let node = match self.nodes.get(id) {
            Ok(h) => h,
            Err(e) => {
                return Err(e);
            },
        };
        proof {
            reveal_strlit("");
            assert(""@ =~= Seq::<char>::empty());
        }
        if ns.is_empty() {
            assert(ns@ =~= Seq::<char>::empty());
            if str_eq(field, "value") {
                self.platform.set_attribute(node, field, "", "");
            } else if str_eq(field, "checked") {
                self.platform.set_attribute(node, field, "false", "");
            } else if str_eq(field, "selected") {
                self.platform.set_attribute(node, field, "false", "");
            } else if str_eq(field, "dangerous_inner_html") {
                self.platform.set_attribute(node, field, "", "");
            } else {
                self.platform.remove_attribute(node, field, "");
            }
        } else {
            self.platform.remove_attribute(node, field, ns);
        }
        Ok(())
    }

    /// Takes the top `len` operands off and stores them, in order, as the
    /// slots of the template `tmpl_id`.
    pub fn add_templates(&mut self, tmpl_id: u16, len: u16) -> (r: Result<(), ErrorKind>)
        requires
            old(self).wf(),
        ensures
            final(self).wf(),
            outcome(add_templates_step(old(self)@, tmpl_id, len), old(self)@, final(self)@, r),
    {
        let els = match self.stack.take_top(len as usize) {
            Ok(els) => els,
            Err(e) => {
                return Err(e);
            },
        };
        self.templates.register(tmpl_id, els);
        Ok(())
    }

    /// Copies slot `index` of the template `tmpl_id`, binds the copy to `id`
    /// and pushes it.
    pub fn load_template(&mut self, tmpl_id: u16, index: u16, id: u32) -> (r: Result<
        (),
        ErrorKind,
    >)
        requires
            old(self).wf(),
        ensures
            final(self).wf(),
            load_template_effect(old(self)@, tmpl_id, index, id, final(self)@, r),
    {
        let h = match self.templates.clone_slot(&mut self.platform, tmpl_id, index) {
            Ok(h) => h,
            Err(e) => {
                return Err(e);
            },
        };
        self.nodes.set(id, h);
        self.stack.push(h);
        proof {
            let pre = old(self)@;
            let post = self@;
            assert(post.stack.last() == h);
            assert(pre.forest.len() < post.forest.len());
            assert(forest_wf(post.forest));
            assert(post.root < post.forest.len());
            assert(handles_in(post.forest, post.stack)) by {
                assert forall|i: int| 0 <= i < post.stack.len() implies (#[trigger] post.stack[i])
                    < post.forest.len() by {
                    if i < pre.stack.len() {
                        assert(post.stack[i] == pre.stack[i]);
                    }
                }
            }
            assert forall|k: u32| post.nodes.contains_key(k) implies (#[trigger] post.nodes[k])
                < post.forest.len() by {
                if k != id {
                    assert(pre.nodes.contains_key(k));
                    assert(pre.nodes[k] < pre.forest.len());
                }
            }
            assert(templates_in(post.forest, post.templates));
        }
        Ok(())
    }

    /// Counts one more listener for `event` on the node bound to `id`. The
    /// first listener of a node marks the node with its id; the first
    /// listener for an event on a node installs the handler of the platform.
    fn listen(&mut self, event: &str, id: u32, bubbling: bool) -> (r: Result<(), ErrorKind>)
        requires
            old(self).wf(),
            count_in(old(self)@.listeners, (id, event@, bubbling)) < u64::MAX,
        ensures
            final(self).wf(),
            outcome(listen_step(old(self)@, event@, id, bubbling), old(self)@, final(self)@, r),
    {
        let node = match self.nodes.get(id) {
            Ok(h) => h,
            Err(e) => {
                return Err(e);
            },
        };
        let was = self.listeners.retain(id, event, bubbling);
        proof {
            reveal_strlit("");
            assert(""@ =~= Seq::<char>::empty());
        }
        if was.first_for_node {
            let digits = decimal(id);
            self.platform.set_attribute(node, "data-node-id", digits.as_str(), "");
        }
        if was.first_for_event {
            self.platform.register_listener(node, event, bubbling);
        }
        Ok(())
    }

    /// Counts one more listener for `event_name` on the node bound to `id`.
    /// The first listener of a node marks the node with its id; the first
    /// listener for an event on a node installs the handler of the platform.
    /// The listener bubbles unless `bubbles` is 0.
    pub fn new_event_listener(&mut self, event_name: &str, id: u32, bubbles: u8) -> (r: Result<
        (),
        ErrorKind,
    >)
        requires
            old(self).wf(),
            count_in(old(self)@.listeners, (id, event_name@, flag(bubbles))) < u64::MAX,
        ensures
            final(self).wf(),
            outcome(
                new_event_listener_step(old(self)@, event_name@, id, bubbles),
                old(self)@,
                final(self)@,
                r,
            ),
    {
        self.listen(event_name, id, bubbles != 0)
    }

    /// Counts one listener less for `event_name` on the node bound to `id`.
    /// The last listener for an event on a node takes the handler of the
    /// platform away, and the last listener of a node takes its mark away.
    /// Where no listener is counted for the event, nothing happens.
    pub fn remove_event_listener(&mut self, event_name: &str, id: u32, bubbles: u8) -> (r: Result<
        (),
        ErrorKind,
    >)
        requires
            old(self).wf(),
        ensures
            final(self).wf(),
            outcome(
                remove_event_listener_step(old(self)@, event_name@, id, bubbles),
                old(self)@,
                final(self)@,
                r,
            ),
    {
        let node = match self.nodes.get(id) {
            Ok(h) => h,
            Err(e) => {
                return Err(e);
            },
        };
        let b = bubbles != 0;
        let was = self.listeners.release(id, event_name, b);
        proof {
            reveal_strlit("");
            assert(""@ =~= Seq::<char>::empty());
        }
        if was.last_for_event {
            self.platform.unregister_listener(node, event_name, b);
        }
        if was.last_for_node {
            self.platform.remove_attribute(node, "data-node-id", "");
        }
        Ok(())
    }

    /// A listener that the host routes. It is counted like a listener of
    /// [`Interpreter::new_event_listener`], but for two things. The
    /// lifecycle event is not listened for and not counted: the node is
    /// marked, and the event is posted to the host at once. (The mark is
    /// taken away with the last counted listener of the node, like any mark.)
    /// And the listener bubbles where `bubbles` is 1, and at no other value.
    pub fn foreign_event_listener(&mut self, event: &str, id: u32, bubbles: u8) -> (r: Result<
        (),
        ErrorKind,
    >)
        requires
            old(self).wf(),
            event@ != lifecycle_event() ==> count_in(
                old(self)@.listeners,
                (id, event@, host_flag(bubbles)),
            ) < u64::MAX,
        ensures
            final(self).wf(),
            outcome(
                foreign_event_listener_step(old(self)@, event@, id, bubbles),
                old(self)@,
                final(self)@,
                r,
            ),
    {
        if str_eq(event, "mounted") {
            let node = match self.nodes.get(id) {
                Ok(h) => h,
                Err(e) => {
                    return Err(e);
                },
            };
            proof {
                reveal_strlit("");
                assert(""@ =~= Seq::<char>::empty());
            }
            let digits = decimal(id);
            self.platform.set_attribute(node, "data-node-id", digits.as_str(), "");
            self.platform.post_lifecycle_event(event, id, bubbles == 1);
            Ok(())
        } else {
            self.listen(event, id, bubbles == 1)
        }
    }

    /// The node that `path` leads to from the operand that lies `below`
    /// places under the top.
    fn locate(&self, below: usize, path: &[u8]) -> (r: Result<usize, ErrorKind>)
        requires
            self.wf(),
        ensures
            below > self@.stack.len() ==> r == Err::<usize, ErrorKind>(ErrorKind::StackUnderflow),
            below <= self@.stack.len() ==> r == located(
                self@.forest,
                self@.below(below as int),
                path@,
            ),
            r matches Ok(n) ==> n < self@.forest.len(),
    {
        let from = match self.stack.peek(below) {
            Ok(h) => h,
            Err(e) => {
                return Err(e);
            },
        };
        proof {
            lemma_resolve(self@.forest, from, path@);
        }
        match self.platform.load_child_by_path(from, path) {
            Some(n) => Ok(n),
            None => Err(ErrorKind::MalformedPath),
        }
    }

    /// The part of the path buffer that starts at `ptr` and is `len` long.
    fn path_bytes(&self, ptr: u32, len: u8) -> (r: Option<Vec<u8>>)
        ensures
            match r {
                Some(v) => path_at(self@.paths, ptr, len) == Some(v@),
                None => path_at(self@.paths, ptr, len) is None,
            },
    {
        let total = self.paths.len();
        let start = ptr as usize;
        let count = len as usize;
        if start > total || count > total - start {
            return None;
        }
        let mut v: Vec<u8> = Vec::new();
        let mut i: usize = 0;
        while i < count
            invariant
                i <= count,
                start + count <= total,
                total == self.paths@.len(),
                v@ == self.paths@.subrange(start as int, start + i),
            decreases count - i,
        {
            v.push(self.paths[start + i]);
            assert(v@ =~= self.paths@.subrange(start as int, start + i + 1));
            i += 1;
        }
        Some(v)
    }

    /// Binds `id` to the node that `array` leads to from the top operand.
    pub fn assign_id_ref(&mut self, array: &[u8], id: u32) -> (r: Result<(), ErrorKind>)
        requires
            old(self).wf(),
        ensures
            final(self).wf(),
            outcome(assign_id_ref_step(old(self)@, array@, id), old(self)@, final(self)@, r),
    {
        assert(self@.below(0) =~= self@.stack);
        let node = match self.locate(0, array) {
            Ok(n) => n,
            Err(e) => {
                return Err(e);
            },
        };
        self.nodes.set(id, node);
        Ok(())
    }

    /// Binds `id` to the node that the path at `ptr` in the path buffer, `len`
    /// bytes long, leads to from the top operand.
    pub fn assign_id(&mut self, ptr: u32, len: u8, id: u32) -> (r: Result<(), ErrorKind>)
        requires
            old(self).wf(),
        ensures
            final(self).wf(),
            outcome(assign_id_step(old(self)@, ptr, len, id), old(self)@, final(self)@, r),
    {
        match self.path_bytes(ptr, len) {
            None => Err(ErrorKind::MalformedPath),
            Some(path) => self.assign_id_ref(path.as_slice(), id),
        }
    }

    /// Gives the node that `array` leads to the text `value`. A text node
    /// gets it in place; any other node is replaced by a new text node.
    /// Either way `id` is bound to the text node.
    pub fn hydrate_text_ref(&mut self, array: &[u8], value: &str, id: u32) -> (r: Result<
        (),
        ErrorKind,
    >)
        requires
            old(self).wf(),
        ensures
            final(self).wf(),
            outcome(
                hydrate_text_ref_step(old(self)@, array@, value@, id),
                old(self)@,
                final(self)@,
                r,
            ),
    {
        assert(self@.below(0) =~= self@.stack);
        let node = match self.locate(0, array) {
            Ok(n) => n,
            Err(e) => {
                return Err(e);
            },
        };
        if self.platform.is_text(node) {
            self.platform.set_text(node, value);
            self.nodes.set(id, node);
        } else {
            let text = self.platform.create_text(value);
            let mut with: Vec<usize> = Vec::new();
            with.push(text);
            assert(with@ =~= seq![text]);
            self.platform.replace(node, with.as_slice());
            self.nodes.set(id, text);
        }
        Ok(())
    }

    /// As [`Interpreter::hydrate_text_ref`], with the path read from the path
    /// buffer.
    pub fn hydrate_text(&mut self, ptr: u32, len: u8, value: &str, id: u32) -> (r: Result<
        (),
        ErrorKind,
    >)
        requires
            old(self).wf(),
        ensures
            final(self).wf(),
            outcome(
                hydrate_text_step(old(self)@, ptr, len, value@, id),
                old(self)@,
                final(self)@,
                r,
            ),
    {
        match self.path_bytes(ptr, len) {
            None => Err(ErrorKind::MalformedPath),
            Some(path) => self.hydrate_text_ref(path.as_slice(), value, id),
        }
    }

    /// Takes the top `n` operands off and puts them, in order, in the place
    /// of the node that `array` leads to from the operand under them.
    pub fn replace_placeholder_ref(&mut self, array: &[u8], n: u16) -> (r: Result<(), ErrorKind>)
        requires
            old(self).wf(),
        ensures
            final(self).wf(),
            outcome(
                replace_placeholder_ref_step(old(self)@, array@, n),
                old(self)@,
                final(self)@,
                r,
            ),
    {
        let node = match self.locate(n as usize, array) {
            Ok(node) => node,
            Err(e) => {
                return Err(e);
            },
        };
        let els = match self.stack.take_top(n as usize) {
            Ok(els) => els,
            Err(e) => {
                return Err(e);
            },
        };
        self.platform.replace(node, els.as_slice());
        Ok(())
    }

    /// As [`Interpreter::replace_placeholder_ref`], with the path read from
    /// the path buffer.
    pub fn replace_placeholder(&mut self, ptr: u32, len: u8, n: u16) -> (r: Result<(), ErrorKind>)
        requires
            old(self).wf(),
        ensures
            final(self).wf(),
            outcome(
                replace_placeholder_step(old(self)@, ptr, len, n),
                old(self)@,
                final(self)@,
                r,
            ),
    {
        match self.path_bytes(ptr, len) {
            None => Err(ErrorKind::MalformedPath),
            Some(path) => self.replace_placeholder_ref(path.as_slice(), n),
        }
    }
}

} // verus!
