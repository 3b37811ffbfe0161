//! What each operation does, stated over the model of the interpreter.
//!
//! An operation either fails, and then changes nothing, or succeeds and leads
//! to one new state. The functions of this file say which, and to which
//! state. The one operation whose new state is not a function of the old one
//! is the copying of a template: a platform is free in how it lays the copy
//! out, so that operation is stated as a relation.

use vstd::prelude::*;
use crate::error::{BatchError, ErrorKind};
use crate::forest::{
    add_handler, append_all, detach, fresh_element, fresh_placeholder, fresh_text,
    handles_in, insert_all_after, insert_all_before, is_copy, remove_attribute, remove_handler,
    replace, resolve, set_attribute, set_text, sound, NodeKind, NodeView, PostedView,
};
use crate::listeners::{count_in, listening, purged, released, retained, ListenerKey};
use crate::names::{NameKind, NamesView};
use crate::templates::{slot_of, templates_in};
use crate::text::decimal_text;
use crate::wire::{parse_at, OpView};

verus! {

/// The model of an interpreter and its platform.
pub struct StateView {
    /// The nodes of the platform, by handle.
    pub forest: Seq<NodeView>,
    /// The lifecycle events posted to the host so far.
    pub posted: Seq<PostedView>,
    /// The node under which a batch mounts what it built.
    pub root: usize,
    /// The operand stack, from the bottom to the top.
    pub stack: Seq<usize>,
    /// The node registry.
    pub nodes: Map<u32, usize>,
    /// The template cache.
    pub templates: Map<u16, Seq<usize>>,
    /// The listener table.
    pub listeners: Map<ListenerKey, nat>,
    /// The name caches.
    pub names: NamesView,
    /// The side buffer of hydration paths.
    pub paths: Seq<u8>,
}

impl StateView {
    /// Every handle that the interpreter holds is a handle of the platform.
    pub open spec fn wf(self) -> bool {
        &&& sound(self.forest)
        &&& self.root < self.forest.len()
        &&& handles_in(self.forest, self.stack)
        &&& forall|id: u32| self.nodes.contains_key(id) ==> (#[trigger] self.nodes[id]) < self.forest.len()
        &&& templates_in(self.forest, self.templates)
        &&& forall|k: ListenerKey| self.listeners.contains_key(k) ==> (#[trigger] self.listeners[k]) >= 1
    }

    /// The top `n` operands, in the order in which they were pushed.
    pub open spec fn top(self, n: int) -> Seq<usize> {
        self.stack.skip(self.stack.len() - n)
    }

    /// The stack without its top `n` operands.
    pub open spec fn below(self, n: int) -> Seq<usize> {
        self.stack.take(self.stack.len() - n)
    }

    /// The handle that a new node gets.
    pub open spec fn next_handle(self) -> usize {
        self.forest.len() as usize
    }
}

/// How the result of an operation and the state after it relate to what the
/// operation is expected to do: on success the new state is the expected one,
/// on failure the error is the expected one and the state is as it was.
pub open spec fn outcome(
    expected: Result<StateView, ErrorKind>,
    pre: StateView,
    post: StateView,
    r: Result<(), ErrorKind>,
) -> bool {
    match expected {
        Ok(s) => r is Ok && post == s,
        Err(e) => r == Err::<(), ErrorKind>(e) && post == pre,
    }
}

/// The name of the attribute that marks a node as listened to. Its value is
/// the node id in decimal digits.
pub open spec fn marker() -> Seq<char> {
    "data-node-id"@
}

/// The event that is not listened for but posted to the host at once.
pub open spec fn lifecycle_event() -> Seq<char> {
    "mounted"@
}

/// Whether a flag byte of the protocol says that a listener bubbles.
pub open spec fn flag(bubbles: u8) -> bool {
    bubbles != 0
}

/// Whether the flag byte of a listener that the host routes says that the
/// listener bubbles: there the byte 1 alone does.
pub open spec fn host_flag(bubbles: u8) -> bool {
    bubbles == 1
}

/// The table after the node `h`, which `id` is bound to, has lost the handler
/// of each listener record of `id` that does not bubble.
pub open spec fn unhooked(
    f: Seq<NodeView>,
    listeners: Map<ListenerKey, nat>,
    h: usize,
    id: u32,
) -> Seq<NodeView> {
    f.update(
        h as int,
        NodeView {
            handlers: Set::new(
                |k: (Seq<char>, bool)|
                    f[h as int].handlers.contains(k) && (k.1 || !listeners.contains_key(
                        (id, k.0, false),
                    )),
            ),
            ..f[h as int]
        },
    )
}

/// The value that clears a reflected attribute: such an attribute mirrors a
/// property of the node, and is cleared by resetting the property.
pub open spec fn reset_value(field: Seq<char>) -> Option<Seq<char>> {
    if field == "value"@ {
        Some(Seq::empty())
    } else if field == "checked"@ {
        Some("false"@)
    } else if field == "selected"@ {
        Some("false"@)
    } else if field == "dangerous_inner_html"@ {
        Some(Seq::empty())
    } else {
        None
    }
}

/// The table after the attribute `field` is cleared on `n`. Without a
/// namespace a reflected attribute is reset and any other removed; with a
/// namespace the attribute of that namespace is removed.
pub open spec fn cleared(f: Seq<NodeView>, n: usize, field: Seq<char>, ns: Seq<char>) -> Seq<
    NodeView,
> {
    if ns.len() == 0 {
        match reset_value(field) {
            Some(v) => set_attribute(f, n, Seq::empty(), field, v),
            None => remove_attribute(f, n, Seq::empty(), field),
        }
    } else {
        remove_attribute(f, n, ns, field)
    }
}

/// The node that `path` leads to from the top of `stack`.
pub open spec fn located(f: Seq<NodeView>, stack: Seq<usize>, path: Seq<u8>) -> Result<
    usize,
    ErrorKind,
> {
    if stack.len() == 0 {
        Err(ErrorKind::StackUnderflow)
    } else {
        match resolve(f, stack.last(), path) {
            Some(n) => Ok(n),
            None => Err(ErrorKind::MalformedPath),
        }
    }
}

/// The part of the path buffer that starts at `ptr` and is `len` bytes long.
pub open spec fn path_at(paths: Seq<u8>, ptr: u32, len: u8) -> Option<Seq<u8>> {
    if ptr + len <= paths.len() {
        Some(paths.subrange(ptr as int, ptr + len))
    } else {
        None
    }
}

pub open spec fn mount_to_root_step(s: StateView) -> Result<StateView, ErrorKind> {
    if s.stack.len() == 0 {
        Err(ErrorKind::StackUnderflow)
    } else {
        Ok(
            StateView {
                forest: append_all(s.forest, s.root, s.stack.skip(1)),
                stack: s.stack.take(1),
                ..s
            },
        )
    }
}

pub open spec fn push_root_step(s: StateView, root: u32) -> Result<StateView, ErrorKind> {
    if !s.nodes.contains_key(root) {
        Err(ErrorKind::UnknownNodeId)
    } else {
        Ok(StateView { stack: s.stack.push(s.nodes[root]), ..s })
    }
}

pub open spec fn append_children_step(s: StateView, id: u32, many: u16) -> Result<
    StateView,
    ErrorKind,
> {
    if !s.nodes.contains_key(id) {
        Err(ErrorKind::UnknownNodeId)
    } else if many > s.stack.len() {
        Err(ErrorKind::StackUnderflow)
    } else {
        Ok(
            StateView {
                forest: append_all(s.forest, s.nodes[id], s.top(many as int)),
                stack: s.below(many as int),
                ..s
            },
        )
    }
}

pub open spec fn append_children_to_top_step(s: StateView, many: u16) -> Result<
    StateView,
    ErrorKind,
> {
    if many + 1 > s.stack.len() {
        Err(ErrorKind::StackUnderflow)
    } else {
        Ok(
            StateView {
                forest: append_all(
                    s.forest,
                    s.stack[s.stack.len() - many - 1],
                    s.top(many as int),
                ),
                stack: s.below(many as int),
                ..s
            },
        )
    }
}

pub open spec fn pop_root_step(s: StateView) -> Result<StateView, ErrorKind> {
    if s.stack.len() == 0 {
        Err(ErrorKind::StackUnderflow)
    } else {
        Ok(StateView { stack: s.stack.drop_last(), ..s })
    }
}

/// The node bound to `id` first loses the handlers of its listeners that do
/// not bubble, with their records; then the top `n` operands take its place,
/// and its id is free.
pub open spec fn replace_with_step(s: StateView, id: u32, n: u16) -> Result<StateView, ErrorKind> {
    if !s.nodes.contains_key(id) {
        Err(ErrorKind::UnknownNodeId)
    } else if n > s.stack.len() {
        Err(ErrorKind::StackUnderflow)
    } else {
        Ok(
            StateView {
                forest: replace(
                    unhooked(s.forest, s.listeners, s.nodes[id], id),
                    s.nodes[id],
                    s.top(n as int),
                ),
                stack: s.below(n as int),
                listeners: purged(s.listeners, id),
                nodes: s.nodes.remove(id),
                ..s
            },
        )
    }
}

pub open spec fn insert_after_step(s: StateView, id: u32, n: u16) -> Result<StateView, ErrorKind> {
    if !s.nodes.contains_key(id) {
        Err(ErrorKind::UnknownNodeId)
    } else if n > s.stack.len() {
        Err(ErrorKind::StackUnderflow)
    } else {
        Ok(
            StateView {
                forest: insert_all_after(s.forest, s.nodes[id], s.top(n as int)),
                stack: s.below(n as int),
                ..s
            },
        )
    }
}

pub open spec fn insert_before_step(s: StateView, id: u32, n: u16) -> Result<StateView, ErrorKind> {
    if !s.nodes.contains_key(id) {
        Err(ErrorKind::UnknownNodeId)
    } else if n > s.stack.len() {
        Err(ErrorKind::StackUnderflow)
    } else {
        Ok(
            StateView {
                forest: insert_all_before(s.forest, s.nodes[id], s.top(n as int)),
                stack: s.below(n as int),
                ..s
            },
        )
    }
}

/// The node bound to `id` first loses the handlers of its listeners that do
/// not bubble, with their records; then it is taken out, and its id is free.
pub open spec fn remove_step(s: StateView, id: u32) -> Result<StateView, ErrorKind> {
    if !s.nodes.contains_key(id) {
        Err(ErrorKind::UnknownNodeId)
    } else {
        Ok(
            StateView {
                forest: detach(unhooked(s.forest, s.listeners, s.nodes[id], id), s.nodes[id]),
                listeners: purged(s.listeners, id),
                nodes: s.nodes.remove(id),
                ..s
            },
        )
    }
}

/// The state after a new node `v` is pushed, and bound to `id` where one is
/// given.
pub open spec fn created(s: StateView, v: NodeView, id: Option<u32>) -> StateView {
    StateView {
        forest: s.forest.push(v),
        stack: s.stack.push(s.next_handle()),
        nodes: match id {
            Some(id) => s.nodes.insert(id, s.next_handle()),
            None => s.nodes,
        },
        ..s
    }
}

pub open spec fn create_raw_text_step(s: StateView, text: Seq<char>) -> Result<
    StateView,
    ErrorKind,
> {
    Ok(created(s, fresh_text(text), None))
}

pub open spec fn create_text_node_step(s: StateView, text: Seq<char>, id: u32) -> Result<
    StateView,
    ErrorKind,
> {
    Ok(created(s, fresh_text(text), Some(id)))
}

pub open spec fn create_placeholder_step(s: StateView, id: u32) -> Result<StateView, ErrorKind> {
    Ok(created(s, fresh_placeholder(), Some(id)))
}

pub open spec fn add_placeholder_step(s: StateView) -> Result<StateView, ErrorKind> {
    Ok(created(s, fresh_placeholder(), None))
}

pub open spec fn create_element_step(s: StateView, element: Seq<char>) -> Result<
    StateView,
    ErrorKind,
> {
    Ok(created(s, fresh_element(element, Seq::empty()), None))
}

pub open spec fn create_element_ns_step(s: StateView, element: Seq<char>, ns: Seq<char>) -> Result<
    StateView,
    ErrorKind,
> {
    Ok(created(s, fresh_element(element, ns), None))
}

/// The table after one more listener for `event` is counted on the node `h`
/// with the id `id`: the first listener of a node marks it, and the first
/// listener for a key installs the handler.
pub open spec fn listened(
    f: Seq<NodeView>,
    listeners: Map<ListenerKey, nat>,
    h: usize,
    id: u32,
    event: Seq<char>,
    bubbles: bool,
) -> Seq<NodeView> {
    let f1 = if listening(listeners, id) {
        f
    } else {
        set_attribute(f, h, Seq::empty(), marker(), decimal_text(id as nat))
    };
    if listeners.contains_key((id, event, bubbles)) {
        f1
    } else {
        add_handler(f1, h, event, bubbles)
    }
}

/// The table after one listener less is counted: the last listener for a key
/// takes the handler away, and the last listener of a node its mark.
pub open spec fn unlistened(
    f: Seq<NodeView>,
    listeners: Map<ListenerKey, nat>,
    h: usize,
    id: u32,
    event: Seq<char>,
    bubbles: bool,
) -> Seq<NodeView> {
    let key = (id, event, bubbles);
    if count_in(listeners, key) == 1 {
        let f1 = remove_handler(f, h, event, bubbles);
        if listening(released(listeners, key), id) {
            f1
        } else {
            remove_attribute(f1, h, Seq::empty(), marker())
        }
    } else {
        f
    }
}

/// One more listener for `event` on the node bound to `id` is counted.
pub open spec fn listen_step(s: StateView, event: Seq<char>, id: u32, bubbling: bool) -> Result<
    StateView,
    ErrorKind,
> {
    if !s.nodes.contains_key(id) {
        Err(ErrorKind::UnknownNodeId)
    } else {
        Ok(
            StateView {
                forest: listened(s.forest, s.listeners, s.nodes[id], id, event, bubbling),
                listeners: retained(s.listeners, (id, event, bubbling)),
                ..s
            },
        )
    }
}

pub open spec fn new_event_listener_step(
    s: StateView,
    event_name: Seq<char>,
    id: u32,
    bubbles: u8,
) -> Result<StateView, ErrorKind> {
    listen_step(s, event_name, id, flag(bubbles))
}

pub open spec fn remove_event_listener_step(
    s: StateView,
    event_name: Seq<char>,
    id: u32,
    bubbles: u8,
) -> Result<StateView, ErrorKind> {
    if !s.nodes.contains_key(id) {
        Err(ErrorKind::UnknownNodeId)
    } else {
        Ok(
            StateView {
                forest: unlistened(
                    s.forest,
                    s.listeners,
                    s.nodes[id],
                    id,
                    event_name,
                    flag(bubbles),
                ),
                listeners: released(s.listeners, (id, event_name, flag(bubbles))),
                ..s
            },
        )
    }
}

/// A listener that the host routes. The lifecycle event is not counted: the
/// node is marked and the event is posted. Any other event is counted like a
/// listener of the interpreter's own. The flag byte is read as the host reads
/// it: the byte 1 bubbles, every other byte does not.
pub open spec fn foreign_event_listener_step(
    s: StateView,
    event: Seq<char>,
    id: u32,
    bubbles: u8,
) -> Result<StateView, ErrorKind> {
    if !s.nodes.contains_key(id) {
        Err(ErrorKind::UnknownNodeId)
    } else if event == lifecycle_event() {
        Ok(
            StateView {
                forest: set_attribute(
                    s.forest,
                    s.nodes[id],
                    Seq::empty(),
                    marker(),
                    decimal_text(id as nat),
                ),
                posted: s.posted.push(
                    PostedView { name: event, node_id: id, bubbles: host_flag(bubbles) },
                ),
                ..s
            },
        )
    } else {
        listen_step(s, event, id, host_flag(bubbles))
    }
}

pub open spec fn set_text_step(s: StateView, id: u32, text: Seq<char>) -> Result<
    StateView,
    ErrorKind,
> {
    if !s.nodes.contains_key(id) {
        Err(ErrorKind::UnknownNodeId)
    } else {
        Ok(StateView { forest: set_text(s.forest, s.nodes[id], text), ..s })
    }
}

pub open spec fn set_attribute_step(
    s: StateView,
    id: u32,
    field: Seq<char>,
    value: Seq<char>,
    ns: Seq<char>,
) -> Result<StateView, ErrorKind> {
    if !s.nodes.contains_key(id) {
        Err(ErrorKind::UnknownNodeId)
    } else {
        Ok(StateView { forest: set_attribute(s.forest, s.nodes[id], ns, field, value), ..s })
    }
}

pub open spec fn set_top_attribute_step(
    s: StateView,
    field: Seq<char>,
    value: Seq<char>,
    ns: Seq<char>,
) -> Result<StateView, ErrorKind> {
    if s.stack.len() == 0 {
        Err(ErrorKind::StackUnderflow)
    } else {
        Ok(StateView { forest: set_attribute(s.forest, s.stack.last(), ns, field, value), ..s })
    }
}

pub open spec fn remove_attribute_step(
    s: StateView,
    id: u32,
    field: Seq<char>,
    ns: Seq<char>,
) -> Result<StateView, ErrorKind> {
    if !s.nodes.contains_key(id) {
        Err(ErrorKind::UnknownNodeId)
    } else {
        Ok(StateView { forest: cleared(s.forest, s.nodes[id], field, ns), ..s })
    }
}

pub open spec fn assign_id_ref_step(s: StateView, array: Seq<u8>, id: u32) -> Result<
    StateView,
    ErrorKind,
> {
    match located(s.forest, s.stack, array) {
        Err(e) => Err(e),
        Ok(n) => Ok(StateView { nodes: s.nodes.insert(id, n), ..s }),
    }
}

pub open spec fn assign_id_step(s: StateView, ptr: u32, len: u8, id: u32) -> Result<
    StateView,
    ErrorKind,
> {
    match path_at(s.paths, ptr, len) {
        None => Err(ErrorKind::MalformedPath),
        Some(path) => assign_id_ref_step(s, path, id),
    }
}

/// A text node that is found is given the new content and keeps its handle;
/// any other node is replaced by a new text node. Either way `id` is bound
/// to the text node.
pub open spec fn hydrate_text_ref_step(
    s: StateView,
    array: Seq<u8>,
    value: Seq<char>,
    id: u32,
) -> Result<StateView, ErrorKind> {
    match located(s.forest, s.stack, array) {
        Err(e) => Err(e),
        Ok(n) => if s.forest[n as int].kind == NodeKind::Text {
            Ok(StateView { forest: set_text(s.forest, n, value), nodes: s.nodes.insert(id, n), ..s })
        } else {
            Ok(
                StateView {
                    forest: replace(s.forest.push(fresh_text(value)), n, seq![s.next_handle()]),
                    nodes: s.nodes.insert(id, s.next_handle()),
                    ..s
                },
            )
        },
    }
}

pub open spec fn hydrate_text_step(
    s: StateView,
    ptr: u32,
    len: u8,
    value: Seq<char>,
    id: u32,
) -> Result<StateView, ErrorKind> {
    match path_at(s.paths, ptr, len) {
        None => Err(ErrorKind::MalformedPath),
        Some(path) => hydrate_text_ref_step(s, path, value, id),
    }
}

/// The path is followed from the operand that is on top once the `n`
/// operands are taken off.
pub open spec fn replace_placeholder_ref_step(s: StateView, array: Seq<u8>, n: u16) -> Result<
    StateView,
    ErrorKind,
> {
    if n > s.stack.len() {
        Err(ErrorKind::StackUnderflow)
    } else {
        match located(s.forest, s.below(n as int), array) {
            Err(e) => Err(e),
            Ok(node) => Ok(
                StateView {
                    forest: replace(s.forest, node, s.top(n as int)),
                    stack: s.below(n as int),
                    ..s
                },
            ),
        }
    }
}

pub open spec fn replace_placeholder_step(s: StateView, ptr: u32, len: u8, n: u16) -> Result<
    StateView,
    ErrorKind,
> {
    match path_at(s.paths, ptr, len) {
        None => Err(ErrorKind::MalformedPath),
        Some(path) => replace_placeholder_ref_step(s, path, n),
    }
}

pub open spec fn add_templates_step(s: StateView, tmpl_id: u16, len: u16) -> Result<
    StateView,
    ErrorKind,
> {
    if len > s.stack.len() {
        Err(ErrorKind::StackUnderflow)
    } else {
        Ok(
            StateView {
                templates: s.templates.insert(tmpl_id, s.top(len as int)),
                stack: s.below(len as int),
                ..s
            },
        )
    }
}

pub open spec fn define_name_step(s: StateView, kind: NameKind, code: u8, name: Seq<char>) -> Result<
    StateView,
    ErrorKind,
> {
    Ok(StateView { names: s.names.define(kind, code, name), ..s })
}

/// Loading a template: the slot is copied, the top of the copy is pushed and
/// bound to `id`. The copy is a new subtree with the shape of the slot, and
/// no node that was there before is changed.
pub open spec fn load_template_effect(
    pre: StateView,
    tmpl_id: u16,
    index: u16,
    id: u32,
    post: StateView,
    r: Result<(), ErrorKind>,
) -> bool {
    match slot_of(pre.templates, tmpl_id, index) {
        Err(e) => r == Err::<(), ErrorKind>(e) && post == pre,
        Ok(proto) => {
            &&& r is Ok
            &&& post.stack.len() > 0
            &&& is_copy(pre.forest, post.forest, proto, post.stack.last())
            &&& post == StateView {
                forest: post.forest,
                stack: pre.stack.push(post.stack.last()),
                nodes: pre.nodes.insert(id, post.stack.last()),
                ..pre
            }
        },
    }
}

/// The vocabulary that a kind byte of the protocol names.
pub open spec fn name_kind(kind: u8) -> Option<NameKind> {
    if kind == 0 {
        Some(NameKind::Element)
    } else if kind == 1 {
        Some(NameKind::Attribute)
    } else if kind == 2 {
        Some(NameKind::Namespace)
    } else if kind == 3 {
        Some(NameKind::Event)
    } else {
        None
    }
}

/// Whether `code` is defined in the vocabulary `kind`.
pub open spec fn known(s: StateView, kind: NameKind, code: u8) -> bool {
    s.names.of(kind).contains_key(code)
}

/// The name that `code` stands for in the vocabulary `kind`.
pub open spec fn name(s: StateView, kind: NameKind, code: u8) -> Seq<char> {
    s.names.of(kind)[code]
}

/// What an instruction does: its names are looked up, and a code that is not
/// defined fails the instruction; then the operation is applied. This holds
/// of every instruction but the loading of a template, whose new state is no
/// function of the old one: [`effect`] says what that one does, and never
/// asks this function about it.
pub open spec fn step(s: StateView, op: OpView) -> Result<StateView, ErrorKind>
    recommends
        !(op is LoadTemplate),
{
    match op {
        OpView::MountToRoot => mount_to_root_step(s),
        OpView::PushRoot { root } => push_root_step(s, root),
        OpView::AppendChildren { id, many } => append_children_step(s, id, many),
        OpView::PopRoot => pop_root_step(s),
        OpView::ReplaceWith { id, n } => replace_with_step(s, id, n),
        OpView::InsertAfter { id, n } => insert_after_step(s, id, n),
        OpView::InsertBefore { id, n } => insert_before_step(s, id, n),
        OpView::Remove { id } => remove_step(s, id),
        OpView::CreateRawText { text } => create_raw_text_step(s, text),
        OpView::CreateTextNode { text, id } => create_text_node_step(s, text, id),
        OpView::CreatePlaceholder { id } => create_placeholder_step(s, id),
        OpView::NewEventListener { event_name, id, bubbles } => if !known(
            s,
            NameKind::Event,
            event_name,
        ) {
            Err(ErrorKind::UninternedCode)
        } else {
            new_event_listener_step(s, name(s, NameKind::Event, event_name), id, bubbles)
        },
        OpView::RemoveEventListener { event_name, id, bubbles } => if !known(
            s,
            NameKind::Event,
            event_name,
        ) {
            Err(ErrorKind::UninternedCode)
        } else {
            remove_event_listener_step(s, name(s, NameKind::Event, event_name), id, bubbles)
        },
        OpView::SetText { id, text } => set_text_step(s, id, text),
        OpView::SetAttribute { id, field, value, ns } => if !known(s, NameKind::Attribute, field)
            || !known(s, NameKind::Namespace, ns) {
            Err(ErrorKind::UninternedCode)
        } else {
            set_attribute_step(
                s,
                id,
                name(s, NameKind::Attribute, field),
                value,
                name(s, NameKind::Namespace, ns),
            )
        },
        OpView::RemoveAttribute { id, field, ns } => if !known(s, NameKind::Attribute, field)
            || !known(s, NameKind::Namespace, ns) {
            Err(ErrorKind::UninternedCode)
        } else {
            remove_attribute_step(
                s,
                id,
                name(s, NameKind::Attribute, field),
                name(s, NameKind::Namespace, ns),
            )
        },
        OpView::AssignId { ptr, len, id } => assign_id_step(s, ptr, len, id),
        OpView::HydrateText { ptr, len, value, id } => hydrate_text_step(s, ptr, len, value, id),
        OpView::ReplacePlaceholder { ptr, len, n } => replace_placeholder_step(s, ptr, len, n),
        OpView::LoadTemplate { tmpl_id, index, id } => Ok(s),
        OpView::AppendChildrenToTop { many } => append_children_to_top_step(s, many),
        OpView::SetTopAttribute { field, value, ns } => if !known(s, NameKind::Attribute, field)
            || !known(s, NameKind::Namespace, ns) {
            Err(ErrorKind::UninternedCode)
        } else {
            set_top_attribute_step(
                s,
                name(s, NameKind::Attribute, field),
                value,
                name(s, NameKind::Namespace, ns),
            )
        },
        OpView::AddPlaceholder => add_placeholder_step(s),
        OpView::CreateElement { element } => if !known(s, NameKind::Element, element) {
            Err(ErrorKind::UninternedCode)
        } else {
            create_element_step(s, name(s, NameKind::Element, element))
        },
        OpView::CreateElementNs { element, ns } => if !known(s, NameKind::Element, element)
            || !known(s, NameKind::Namespace, ns) {
            Err(ErrorKind::UninternedCode)
        } else {
            create_element_ns_step(
                s,
                name(s, NameKind::Element, element),
                name(s, NameKind::Namespace, ns),
            )
        },
        OpView::AddTemplates { tmpl_id, len } => add_templates_step(s, tmpl_id, len),
        OpView::ForeignEventListener { event, id, bubbles } => if !known(
            s,
            NameKind::Event,
            event,
        ) {
            Err(ErrorKind::UninternedCode)
        } else {
            foreign_event_listener_step(s, name(s, NameKind::Event, event), id, bubbles)
        },
        OpView::AssignIdRef { array, id } => assign_id_ref_step(s, array, id),
        OpView::HydrateTextRef { array, value, id } => hydrate_text_ref_step(s, array, value, id),
        OpView::ReplacePlaceholderRef { array, n } => replace_placeholder_ref_step(s, array, n),
        OpView::DefineName { kind, code, name } => match name_kind(kind) {
            None => Err(ErrorKind::UnsupportedOperation),
            Some(k) => define_name_step(s, k, code, name),
        },
    }
}

/// How the state before an instruction, the state after it and its result
/// relate.
pub open spec fn effect(pre: StateView, op: OpView, post: StateView, r: Result<(), ErrorKind>) -> bool {
    match op {
        OpView::LoadTemplate { tmpl_id, index, id } => load_template_effect(
            pre,
            tmpl_id,
            index,
            id,
            post,
            r,
        ),
        _ => outcome(step(pre, op), pre, post, r),
    }
}

/// No listener count of `s` is within `n` of the largest count there is.
pub open spec fn room_for(s: StateView, n: int) -> bool {
    forall|k: ListenerKey| count_in(s.listeners, k) + n <= u64::MAX
}

/// What a batch does, from the instruction at `at`, which is the one with
/// the number `index`: the instructions are applied in their order, each to
/// the state that the one before left. The batch ends with the number of
/// instructions applied, or at the first instruction that cannot be read or
/// fails, with the number of that instruction and the kind of the failure;
/// what the instructions before it did stays done.
pub open spec fn runs(
    pre: StateView,
    stream: Seq<u8>,
    at: int,
    index: int,
    post: StateView,
    r: Result<usize, BatchError>,
) -> bool
    decreases stream.len() - at,
{
    if at >= stream.len() {
        post == pre && ended(r, index)
    } else {
        match parse_at(stream, at) {
            None => post == pre && failed(r, index, ErrorKind::UnsupportedOperation),
            Some((op, next)) => exists|mid: StateView, r1: Result<(), ErrorKind>|
                #[trigger] effect(pre, op, mid, r1) && match r1 {
                    Err(kind) => post == mid && failed(r, index, kind),
                    Ok(_) => if at < next <= stream.len() {
                        runs(mid, stream, next, index + 1, post, r)
                    } else {
                        false
                    },
                },
        }
    }
}

/// The batch ended after `index` instructions.
pub open spec fn ended(r: Result<usize, BatchError>, index: int) -> bool {
    r matches Ok(n) && n == index
}

/// The batch failed at the instruction with the number `index`.
pub open spec fn failed(r: Result<usize, BatchError>, index: int, kind: ErrorKind) -> bool {
    r matches Err(e) && e.index == index && e.kind == kind
}

/// An instruction adds at most one to any listener count.
pub proof fn lemma_counts_step(pre: StateView, op: OpView, post: StateView, k: ListenerKey)
    requires
        effect(pre, op, post, Ok(())),
    ensures
        count_in(post.listeners, k) <= count_in(pre.listeners, k) + 1,
{
    match op {
        OpView::LoadTemplate { tmpl_id, index, id } => {},
        OpView::NewEventListener { event_name, id, bubbles } => {},
        OpView::RemoveEventListener { event_name, id, bubbles } => {},
        OpView::ForeignEventListener { event, id, bubbles } => {},
        OpView::ReplaceWith { id, n } => {},
        OpView::Remove { id } => {},
        OpView::DefineName { kind, code, name } => {},
        _ => {},
    }
}

} // verus!
