use mutation_interpreter::document::Document;
use mutation_interpreter::error::ErrorKind;
use mutation_interpreter::forest::NodeKind;
use mutation_interpreter::interpreter::Interpreter;
use mutation_interpreter::platform::Platform;

fn session() -> (Interpreter<Document>, usize) {
    let mut doc = Document::new();
    let root = doc.create_element("main");
    (Interpreter::new(doc, root), root)
}

fn same_subtree(doc: &Document, a: usize, b: usize) -> bool {
    let x = &doc.nodes[a];
    let y = &doc.nodes[b];
    if x.kind != y.kind || x.tag != y.tag || x.namespace != y.namespace || x.text != y.text {
        return false;
    }
    if x.attrs.len() != y.attrs.len() || x.children.len() != y.children.len() {
        return false;
    }
    for at in &x.attrs {
        if doc.attribute(b, &at.name, &at.namespace) != Some(at.value.clone()) {
            return false;
        }
    }
    for i in 0..x.children.len() {
        if !same_subtree(doc, x.children[i], y.children[i]) {
            return false;
        }
    }
    true
}

#[test]
fn a_session_starts_with_the_root_on_the_stack_and_under_id_zero() {
    let (it, root) = session();
    assert_eq!(it.stack.items, vec![root]);
    assert_eq!(it.nodes.get(0), Ok(root));
    assert_eq!(it.nodes.get(1), Err(ErrorKind::UnknownNodeId));
}

#[test]
fn building_a_div_with_a_text_and_mounting_it() {
    let (mut it, root) = session();
    assert_eq!(it.create_element("div"), Ok(()));
    let div = it.stack.items[1];
    // the div takes the id under which the stream appends to it
    assert_eq!(it.assign_id_ref(&[], 0), Ok(()));
    assert_eq!(it.create_raw_text("hi"), Ok(()));
    let text = it.stack.items[2];
    assert_eq!(it.append_children(0, 1), Ok(()));
    assert_eq!(it.mount_to_root(), Ok(()));

    let doc = &it.platform;
    assert_eq!(doc.nodes[root].children, vec![div]);
    assert_eq!(doc.nodes[div].kind, NodeKind::Element);
    assert_eq!(doc.nodes[div].tag, "div");
    assert_eq!(doc.nodes[div].parent, Some(root));
    assert_eq!(doc.nodes[div].children, vec![text]);
    assert_eq!(doc.nodes[text].kind, NodeKind::Text);
    assert_eq!(doc.nodes[text].text, "hi");
    assert_eq!(doc.nodes[text].parent, Some(div));
    assert_eq!(it.stack.items, vec![root]);
}

#[test]
fn appending_to_id_zero_of_a_fresh_session_appends_to_the_root() {
    let (mut it, root) = session();
    it.create_element("div").unwrap();
    let div = it.stack.items[1];
    it.create_raw_text("hi").unwrap();
    let text = it.stack.items[2];
    it.append_children(0, 1).unwrap();
    it.mount_to_root().unwrap();
    assert_eq!(it.platform.nodes[root].children, vec![text, div]);
    assert!(it.platform.nodes[div].children.is_empty());
    assert_eq!(it.stack.items, vec![root]);
}

#[test]
fn building_with_append_children_to_top() {
    let (mut it, root) = session();
    it.create_element("div").unwrap();
    let div = it.stack.items[1];
    it.create_raw_text("hi").unwrap();
    let text = it.stack.items[2];
    it.append_children_to_top(1).unwrap();
    it.mount_to_root().unwrap();
    assert_eq!(it.platform.nodes[root].children, vec![div]);
    assert_eq!(it.platform.nodes[div].children, vec![text]);
    assert_eq!(it.platform.nodes[text].text, "hi");
}

#[test]
fn loading_a_template_twice_gives_two_independent_copies() {
    let (mut it, _root) = session();
    // the first prototype: <p class="note">one</p>
    it.create_element("p").unwrap();
    it.set_top_attribute("class", "note", "").unwrap();
    it.create_raw_text("one").unwrap();
    it.append_children_to_top(1).unwrap();
    // the second prototype: a text
    it.create_raw_text("two").unwrap();
    let proto = it.stack.items[1];
    let second = it.stack.items[2];
    assert_eq!(it.add_templates(1, 2), Ok(()));
    assert_eq!(it.stack.depth(), 1);
    assert_eq!(it.templates.slot(1, 0), Ok(proto));
    assert_eq!(it.templates.slot(1, 1), Ok(second));

    assert_eq!(it.load_template(1, 0, 5), Ok(()));
    let a = it.stack.items[1];
    assert_eq!(it.nodes.get(5), Ok(a));
    assert_eq!(it.load_template(1, 0, 5), Ok(()));
    let b = it.stack.items[2];
    assert_eq!(it.nodes.get(5), Ok(b));

    assert!(a != b && a != proto && b != proto);
    assert!(same_subtree(&it.platform, a, proto));
    assert!(same_subtree(&it.platform, b, proto));
    assert_eq!(it.platform.nodes[a].tag, "p");
    assert_eq!(it.platform.attribute(a, "class", ""), Some("note".to_string()));
    let a_text = it.platform.nodes[a].children[0];
    let b_text = it.platform.nodes[b].children[0];
    let proto_text = it.platform.nodes[proto].children[0];
    assert!(a_text != b_text && a_text != proto_text);
    assert_eq!(it.platform.nodes[a_text].text, "one");
    assert_eq!(it.platform.nodes[a_text].parent, Some(a));
    assert_eq!(it.platform.nodes[a].parent, None);

    // a change of one copy shows in neither the other copy nor the prototype
    it.set_text(5, "changed").unwrap();
    it.set_attribute(5, "class", "other", "").unwrap();
    assert_eq!(it.platform.nodes[b].text, "changed");
    assert_eq!(it.platform.attribute(b, "class", ""), Some("other".to_string()));
    assert_eq!(it.platform.nodes[a].text, "");
    assert_eq!(it.platform.attribute(a, "class", ""), Some("note".to_string()));
    assert_eq!(it.platform.nodes[proto].text, "");
    assert_eq!(it.platform.attribute(proto, "class", ""), Some("note".to_string()));
    assert!(same_subtree(&it.platform, a, proto));
}

#[test]
fn loading_a_template_under_two_ids() {
    let (mut it, _root) = session();
    it.create_element("li").unwrap();
    it.create_element("ul").unwrap();
    it.add_templates(1, 2).unwrap();
    it.load_template(1, 0, 5).unwrap();
    it.load_template(1, 0, 6).unwrap();
    let a = it.nodes.get(5).unwrap();
    let b = it.nodes.get(6).unwrap();
    assert!(a != b);
    assert_eq!(it.stack.items[1..], [a, b]);
    assert_eq!(it.platform.nodes[a].tag, "li");
    assert_eq!(it.platform.nodes[b].tag, "li");
    it.load_template(1, 1, 7).unwrap();
    assert_eq!(it.platform.nodes[it.nodes.get(7).unwrap()].tag, "ul");
}

#[test]
fn loading_a_template_that_is_not_there() {
    let (mut it, _root) = session();
    it.create_element("li").unwrap();
    it.add_templates(1, 1).unwrap();
    let nodes = it.platform.nodes.len();
    assert_eq!(it.load_template(2, 0, 5), Err(ErrorKind::UnknownTemplateId));
    assert_eq!(it.load_template(1, 1, 5), Err(ErrorKind::SlotIndexOutOfRange));
    assert_eq!(it.platform.nodes.len(), nodes);
    assert_eq!(it.stack.depth(), 1);
    assert_eq!(it.nodes.get(5), Err(ErrorKind::UnknownNodeId));
}

#[test]
fn registering_a_template_again_replaces_it() {
    let (mut it, _root) = session();
    it.create_element("li").unwrap();
    it.add_templates(3, 1).unwrap();
    it.create_element("ol").unwrap();
    it.create_element("ul").unwrap();
    it.add_templates(3, 2).unwrap();
    it.load_template(3, 0, 9).unwrap();
    assert_eq!(it.platform.nodes[it.nodes.get(9).unwrap()].tag, "ol");
    assert_eq!(it.load_template(3, 2, 9), Err(ErrorKind::SlotIndexOutOfRange));
}

#[test]
fn a_listener_comes_and_goes() {
    let (mut it, _root) = session();
    it.create_placeholder(7).unwrap();
    let node = it.nodes.get(7).unwrap();
    assert_eq!(it.new_event_listener("click", 7, 1), Ok(()));
    assert_eq!(it.listeners.count(7, "click", true), 1);
    assert!(it.platform.has_handler(node, "click", true));
    assert_eq!(it.platform.attribute(node, "data-node-id", ""), Some("7".to_string()));

    assert_eq!(it.remove_event_listener("click", 7, 1), Ok(()));
    assert_eq!(it.listeners.count(7, "click", true), 0);
    assert!(it.listeners.records.is_empty());
    assert!(!it.platform.has_handler(node, "click", true));
    assert_eq!(it.platform.attribute(node, "data-node-id", ""), None);

    // one release too many is no error and changes nothing
    assert_eq!(it.remove_event_listener("click", 7, 1), Ok(()));
    assert_eq!(it.listeners.count(7, "click", true), 0);
    assert!(it.listeners.records.is_empty());
    assert!(!it.platform.has_handler(node, "click", true));
}

#[test]
fn listeners_are_counted() {
    let (mut it, _root) = session();
    it.create_placeholder(7).unwrap();
    let node = it.nodes.get(7).unwrap();
    it.new_event_listener("click", 7, 1).unwrap();
    it.new_event_listener("click", 7, 1).unwrap();
    it.new_event_listener("input", 7, 0).unwrap();
    assert_eq!(it.listeners.count(7, "click", true), 2);
    assert_eq!(it.listeners.count(7, "click", false), 0);
    assert_eq!(it.listeners.count(7, "input", false), 1);
    assert_eq!(it.platform.nodes[node].handlers.len(), 2);

    it.remove_event_listener("click", 7, 1).unwrap();
    assert_eq!(it.listeners.count(7, "click", true), 1);
    assert!(it.platform.has_handler(node, "click", true));
    it.remove_event_listener("click", 7, 1).unwrap();
    assert!(!it.platform.has_handler(node, "click", true));
    // the node is still listened to
    assert!(it.platform.has_handler(node, "input", false));
    assert_eq!(it.platform.attribute(node, "data-node-id", ""), Some("7".to_string()));
    it.remove_event_listener("input", 7, 0).unwrap();
    assert_eq!(it.platform.attribute(node, "data-node-id", ""), None);
}

#[test]
fn a_listener_on_an_unknown_node() {
    let (mut it, _root) = session();
    assert_eq!(it.new_event_listener("click", 7, 1), Err(ErrorKind::UnknownNodeId));
    assert_eq!(it.remove_event_listener("click", 7, 1), Err(ErrorKind::UnknownNodeId));
    assert_eq!(it.foreign_event_listener("mounted", 7, 0), Err(ErrorKind::UnknownNodeId));
    assert!(it.listeners.records.is_empty());
    assert!(it.platform.posted.is_empty());
}

#[test]
fn the_lifecycle_event_is_posted_at_once() {
    let (mut it, _root) = session();
    it.create_placeholder(12).unwrap();
    let node = it.nodes.get(12).unwrap();
    assert_eq!(it.foreign_event_listener("mounted", 12, 0), Ok(()));
    assert_eq!(it.platform.posted.len(), 1);
    assert_eq!(it.platform.posted[0].name, "mounted");
    assert_eq!(it.platform.posted[0].node_id, 12);
    assert!(!it.platform.posted[0].bubbles);
    assert!(it.listeners.records.is_empty());
    assert!(it.platform.nodes[node].handlers.is_empty());
    assert_eq!(it.platform.attribute(node, "data-node-id", ""), Some("12".to_string()));

    // any other event is listened for
    assert_eq!(it.foreign_event_listener("click", 12, 1), Ok(()));
    assert_eq!(it.platform.posted.len(), 1);
    assert_eq!(it.listeners.count(12, "click", true), 1);
    assert!(it.platform.has_handler(node, "click", true));
}

#[test]
fn removing_a_node_purges_its_listeners_that_do_not_bubble() {
    let (mut it, root) = session();
    it.create_placeholder(3).unwrap();
    it.mount_to_root().unwrap();
    let node = it.nodes.get(3).unwrap();
    it.new_event_listener("scroll", 3, 0).unwrap();
    it.new_event_listener("scroll", 3, 0).unwrap();
    it.new_event_listener("focus", 3, 0).unwrap();
    it.new_event_listener("click", 3, 1).unwrap();
    it.create_placeholder(4).unwrap();
    it.new_event_listener("scroll", 4, 0).unwrap();
    let other = it.nodes.get(4).unwrap();
    assert!(it.platform.has_handler(node, "scroll", false));
    assert!(it.platform.has_handler(node, "focus", false));
    assert!(it.platform.has_handler(node, "click", true));

    assert_eq!(it.remove(3), Ok(()));
    // the handlers that do not bubble went with their records
    assert!(!it.platform.has_handler(node, "scroll", false));
    assert!(!it.platform.has_handler(node, "focus", false));
    assert!(it.platform.has_handler(node, "click", true));
    assert!(it.platform.has_handler(other, "scroll", false));
    assert_eq!(it.platform.nodes[node].handlers.len(), 1);
    assert_eq!(it.listeners.count(3, "scroll", false), 0);
    assert_eq!(it.listeners.count(3, "focus", false), 0);
    assert_eq!(it.listeners.count(3, "click", true), 1);
    assert_eq!(it.listeners.count(4, "scroll", false), 1);
    assert_eq!(it.nodes.get(3), Err(ErrorKind::UnknownNodeId));
    assert!(it.platform.nodes[root].children.is_empty());
    assert_eq!(it.platform.nodes[node].parent, None);
    assert_eq!(it.remove(3), Err(ErrorKind::UnknownNodeId));
}

#[test]
fn replacing_a_node_purges_its_listeners_that_do_not_bubble() {
    let (mut it, root) = session();
    it.create_placeholder(3).unwrap();
    it.mount_to_root().unwrap();
    let old = it.nodes.get(3).unwrap();
    it.new_event_listener("scroll", 3, 0).unwrap();
    it.new_event_listener("scroll", 3, 0).unwrap();
    it.new_event_listener("click", 3, 1).unwrap();
    it.create_element("a").unwrap();
    it.create_element("b").unwrap();
    let a = it.stack.items[1];
    let b = it.stack.items[2];

    assert!(it.platform.has_handler(old, "scroll", false));
    assert_eq!(it.replace_with(3, 2), Ok(()));
    // the handler that does not bubble went with its record
    assert!(!it.platform.has_handler(old, "scroll", false));
    assert!(it.platform.has_handler(old, "click", true));
    assert_eq!(it.listeners.count(3, "scroll", false), 0);
    assert_eq!(it.listeners.count(3, "click", true), 1);
    assert_eq!(it.platform.nodes[root].children, vec![a, b]);
    assert_eq!(it.platform.nodes[old].parent, None);
    assert_eq!(it.nodes.get(3), Err(ErrorKind::UnknownNodeId));
    assert_eq!(it.stack.items, vec![root]);
}

#[test]
fn inserting_before_and_after_keeps_the_order() {
    let (mut it, root) = session();
    it.create_placeholder(1).unwrap();
    it.mount_to_root().unwrap();
    let mid = it.nodes.get(1).unwrap();
    it.create_element("a").unwrap();
    it.create_element("b").unwrap();
    let a = it.stack.items[1];
    let b = it.stack.items[2];
    assert_eq!(it.insert_before(1, 2), Ok(()));
    it.create_element("c").unwrap();
    it.create_element("d").unwrap();
    let c = it.stack.items[1];
    let d = it.stack.items[2];
    assert_eq!(it.insert_after(1, 2), Ok(()));
    assert_eq!(it.platform.nodes[root].children, vec![a, b, mid, c, d]);
    assert_eq!(it.stack.items, vec![root]);
    for n in [a, b, c, d] {
        assert_eq!(it.platform.nodes[n].parent, Some(root));
    }
}

#[test]
fn operations_on_too_few_operands_underflow() {
    let (mut it, root) = session();
    assert_eq!(it.append_children(0, 2), Err(ErrorKind::StackUnderflow));
    assert_eq!(it.append_children_to_top(1), Err(ErrorKind::StackUnderflow));
    assert_eq!(it.replace_with(0, 2), Err(ErrorKind::StackUnderflow));
    assert_eq!(it.insert_after(0, 2), Err(ErrorKind::StackUnderflow));
    assert_eq!(it.insert_before(0, 2), Err(ErrorKind::StackUnderflow));
    assert_eq!(it.add_templates(0, 2), Err(ErrorKind::StackUnderflow));
    assert_eq!(it.replace_placeholder_ref(&[], 1), Err(ErrorKind::StackUnderflow));
    assert_eq!(it.stack.items, vec![root]);
    assert_eq!(it.pop_root(), Ok(()));
    assert_eq!(it.pop_root(), Err(ErrorKind::StackUnderflow));
    assert_eq!(it.mount_to_root(), Err(ErrorKind::StackUnderflow));
    assert_eq!(it.set_top_attribute("a", "b", ""), Err(ErrorKind::StackUnderflow));
    assert_eq!(it.assign_id_ref(&[], 1), Err(ErrorKind::StackUnderflow));
    assert_eq!(it.hydrate_text_ref(&[], "x", 1), Err(ErrorKind::StackUnderflow));
    assert!(it.stack.items.is_empty());
}

#[test]
fn an_unknown_id_comes_before_an_underflow() {
    let (mut it, root) = session();
    assert_eq!(it.append_children(9, 5), Err(ErrorKind::UnknownNodeId));
    assert_eq!(it.replace_with(9, 5), Err(ErrorKind::UnknownNodeId));
    assert_eq!(it.insert_after(9, 5), Err(ErrorKind::UnknownNodeId));
    assert_eq!(it.insert_before(9, 5), Err(ErrorKind::UnknownNodeId));
    assert_eq!(it.push_root(9), Err(ErrorKind::UnknownNodeId));
    assert_eq!(it.set_text(9, "x"), Err(ErrorKind::UnknownNodeId));
    assert_eq!(it.set_attribute(9, "a", "b", ""), Err(ErrorKind::UnknownNodeId));
    assert_eq!(it.remove_attribute(9, "a", ""), Err(ErrorKind::UnknownNodeId));
    assert_eq!(it.stack.items, vec![root]);
}

#[test]
fn push_root_and_pop_root() {
    let (mut it, root) = session();
    it.create_placeholder(2).unwrap();
    let p = it.nodes.get(2).unwrap();
    it.push_root(0).unwrap();
    it.push_root(2).unwrap();
    assert_eq!(it.stack.items, vec![root, p, root, p]);
    it.pop_root().unwrap();
    assert_eq!(it.stack.items, vec![root, p, root]);
}

#[test]
fn text_nodes_and_placeholders() {
    let (mut it, _root) = session();
    it.create_text_node("a", 1).unwrap();
    it.create_placeholder(2).unwrap();
    it.add_placeholder().unwrap();
    it.create_element_ns("circle", "http://www.w3.org/2000/svg").unwrap();
    let t = it.nodes.get(1).unwrap();
    let p = it.nodes.get(2).unwrap();
    assert_eq!(it.stack.items[1], t);
    assert_eq!(it.stack.items[2], p);
    let q = it.stack.items[3];
    let c = it.stack.items[4];
    assert_eq!(it.platform.nodes[t].kind, NodeKind::Text);
    assert_eq!(it.platform.nodes[t].text, "a");
    assert_eq!(it.platform.nodes[p].kind, NodeKind::Placeholder);
    assert_eq!(it.platform.nodes[q].kind, NodeKind::Placeholder);
    assert_eq!(it.platform.nodes[c].kind, NodeKind::Element);
    assert_eq!(it.platform.nodes[c].tag, "circle");
    assert_eq!(it.platform.nodes[c].namespace, "http://www.w3.org/2000/svg");
    it.set_text(1, "b").unwrap();
    assert_eq!(it.platform.nodes[t].text, "b");
}

#[test]
fn attributes_are_set_and_cleared() {
    let (mut it, _root) = session();
    it.create_placeholder(1).unwrap();
    let n = it.nodes.get(1).unwrap();
    it.set_attribute(1, "class", "x", "").unwrap();
    it.set_attribute(1, "class", "y", "").unwrap();
    it.set_attribute(1, "color", "red", "style").unwrap();
    it.set_attribute(1, "href", "#", "http://www.w3.org/1999/xlink").unwrap();
    it.set_attribute(1, "value", "typed", "").unwrap();
    it.set_attribute(1, "checked", "true", "").unwrap();
    it.set_attribute(1, "selected", "true", "").unwrap();
    it.set_attribute(1, "dangerous_inner_html", "<b>x</b>", "").unwrap();
    it.set_top_attribute("id", "top", "").unwrap();
    assert_eq!(it.platform.attribute(n, "class", ""), Some("y".to_string()));
    assert_eq!(it.platform.attribute(n, "id", ""), Some("top".to_string()));
    assert_eq!(it.platform.nodes[n].attrs.len(), 8);

    it.remove_attribute(1, "class", "").unwrap();
    assert_eq!(it.platform.attribute(n, "class", ""), None);
    it.remove_attribute(1, "color", "style").unwrap();
    assert_eq!(it.platform.attribute(n, "color", "style"), None);
    it.remove_attribute(1, "href", "http://www.w3.org/1999/xlink").unwrap();
    assert_eq!(it.platform.attribute(n, "href", "http://www.w3.org/1999/xlink"), None);
    // reflected attributes are reset, not removed
    it.remove_attribute(1, "value", "").unwrap();
    assert_eq!(it.platform.attribute(n, "value", ""), Some("".to_string()));
    it.remove_attribute(1, "checked", "").unwrap();
    assert_eq!(it.platform.attribute(n, "checked", ""), Some("false".to_string()));
    it.remove_attribute(1, "selected", "").unwrap();
    assert_eq!(it.platform.attribute(n, "selected", ""), Some("false".to_string()));
    it.remove_attribute(1, "dangerous_inner_html", "").unwrap();
    assert_eq!(it.platform.attribute(n, "dangerous_inner_html", ""), Some("".to_string()));
    // with a namespace the same name is an attribute like any other
    it.set_attribute(1, "value", "v", "style").unwrap();
    it.remove_attribute(1, "value", "style").unwrap();
    assert_eq!(it.platform.attribute(n, "value", "style"), None);
    assert_eq!(it.platform.attribute(n, "value", ""), Some("".to_string()));
    // clearing what is not there changes nothing
    it.remove_attribute(1, "title", "").unwrap();
    assert_eq!(it.platform.nodes[n].attrs.len(), 5);
}

fn hydration_session() -> (Interpreter<Document>, usize, usize, usize, usize) {
    // <main><section><p>old</p><span></span></section></main>, made by the platform
    let mut doc = Document::new();
    let root = doc.create_element("main");
    let section = doc.create_element("section");
    let p = doc.create_element("p");
    let old = doc.create_text("old");
    let span = doc.create_element("span");
    doc.append(p, &[old]);
    doc.append(section, &[p, span]);
    doc.append(root, &[section]);
    (Interpreter::new(doc, root), section, p, old, span)
}

#[test]
fn hydrating_a_text_node_keeps_the_node() {
    let (mut it, _section, p, old, _span) = hydration_session();
    let nodes = it.platform.nodes.len();
    assert_eq!(it.hydrate_text_ref(&[0, 0, 0], "new", 8), Ok(()));
    assert_eq!(it.nodes.get(8), Ok(old));
    assert_eq!(it.platform.nodes[old].text, "new");
    assert_eq!(it.platform.nodes[p].children, vec![old]);
    assert_eq!(it.platform.nodes.len(), nodes);
    it.push_root(8).unwrap();
    assert_eq!(it.stack.items[1], old);
}

#[test]
fn hydrating_another_node_replaces_it_with_a_text_node() {
    let (mut it, section, p, _old, span) = hydration_session();
    let nodes = it.platform.nodes.len();
    assert_eq!(it.hydrate_text_ref(&[0, 1], "new", 8), Ok(()));
    let text = it.nodes.get(8).unwrap();
    assert_eq!(text, nodes);
    assert!(text != span);
    assert_eq!(it.platform.nodes[text].kind, NodeKind::Text);
    assert_eq!(it.platform.nodes[text].text, "new");
    assert_eq!(it.platform.nodes[text].parent, Some(section));
    assert_eq!(it.platform.nodes[section].children, vec![p, text]);
    assert_eq!(it.platform.nodes[span].parent, None);
    it.push_root(8).unwrap();
    assert_eq!(it.stack.items[1], text);
}

#[test]
fn hydrating_from_the_path_buffer() {
    let (mut it, section, p, old, span) = hydration_session();
    it.set_paths(vec![9, 0, 0, 0, 0, 1]);
    assert_eq!(it.assign_id(1, 1, 20), Ok(()));
    assert_eq!(it.nodes.get(20), Ok(section));
    assert_eq!(it.assign_id(1, 2, 21), Ok(()));
    assert_eq!(it.nodes.get(21), Ok(p));
    assert_eq!(it.assign_id(4, 2, 22), Ok(()));
    assert_eq!(it.nodes.get(22), Ok(span));
    assert_eq!(it.assign_id(6, 0, 23), Ok(()));
    assert_eq!(it.nodes.get(23), Ok(it.root));
    assert_eq!(it.hydrate_text(1, 3, "new", 24), Ok(()));
    assert_eq!(it.nodes.get(24), Ok(old));
    assert_eq!(it.platform.nodes[old].text, "new");
    // a path beyond the buffer, and a path that leads nowhere
    assert_eq!(it.assign_id(5, 2, 25), Err(ErrorKind::MalformedPath));
    assert_eq!(it.assign_id(7, 0, 25), Err(ErrorKind::MalformedPath));
    assert_eq!(it.assign_id(4294967295, 255, 25), Err(ErrorKind::MalformedPath));
    assert_eq!(it.assign_id(0, 1, 25), Err(ErrorKind::MalformedPath));
    assert_eq!(it.hydrate_text(0, 1, "x", 25), Err(ErrorKind::MalformedPath));
    assert_eq!(it.replace_placeholder(0, 1, 0), Err(ErrorKind::MalformedPath));
    assert_eq!(it.nodes.get(25), Err(ErrorKind::UnknownNodeId));
}

#[test]
fn a_path_that_leads_nowhere() {
    let (mut it, _section, _p, _old, _span) = hydration_session();
    assert_eq!(it.assign_id_ref(&[1], 5), Err(ErrorKind::MalformedPath));
    assert_eq!(it.assign_id_ref(&[0, 2], 5), Err(ErrorKind::MalformedPath));
    assert_eq!(it.assign_id_ref(&[0, 0, 0, 0], 5), Err(ErrorKind::MalformedPath));
    assert_eq!(it.hydrate_text_ref(&[0, 2], "x", 5), Err(ErrorKind::MalformedPath));
    assert_eq!(it.nodes.get(5), Err(ErrorKind::UnknownNodeId));
}

#[test]
fn replacing_a_placeholder_keeps_the_order_of_the_operands() {
    let (mut it, section, p, _old, span) = hydration_session();
    it.create_element("a").unwrap();
    it.create_element("b").unwrap();
    let a = it.stack.items[1];
    let b = it.stack.items[2];
    // the path is followed from the operand under the two
    assert_eq!(it.replace_placeholder_ref(&[0, 1], 2), Ok(()));
    assert_eq!(it.platform.nodes[section].children, vec![p, a, b]);
    assert_eq!(it.platform.nodes[span].parent, None);
    assert_eq!(it.stack.depth(), 1);
    it.set_paths(vec![0, 0]);
    it.create_element("c").unwrap();
    let c = it.stack.items[1];
    assert_eq!(it.replace_placeholder(0, 2, 1), Ok(()));
    assert_eq!(it.platform.nodes[section].children, vec![c, a, b]);
    it.create_element("d").unwrap();
    assert_eq!(it.replace_placeholder_ref(&[0, 7], 1), Err(ErrorKind::MalformedPath));
    assert_eq!(it.stack.depth(), 2);
}

#[test]
fn removing_a_node_by_nothing_takes_its_handler_away() {
    let (mut it, _root) = session();
    it.create_placeholder(3).unwrap();
    let node = it.nodes.get(3).unwrap();
    it.new_event_listener("scroll", 3, 0).unwrap();
    assert!(it.platform.has_handler(node, "scroll", false));
    assert_eq!(it.replace_with(3, 0), Ok(()));
    assert!(!it.platform.has_handler(node, "scroll", false));
    assert!(it.listeners.records.is_empty());

    it.create_placeholder(5).unwrap();
    let node = it.nodes.get(5).unwrap();
    it.new_event_listener("scroll", 5, 0).unwrap();
    assert_eq!(it.remove(5), Ok(()));
    assert!(!it.platform.has_handler(node, "scroll", false));
    assert!(it.platform.nodes[node].handlers.is_empty());
}

#[test]
fn the_host_reads_one_as_bubbling_and_nothing_else() {
    let (mut it, _root) = session();
    it.create_placeholder(3).unwrap();
    let node = it.nodes.get(3).unwrap();
    assert_eq!(it.foreign_event_listener("click", 3, 2), Ok(()));
    assert_eq!(it.listeners.count(3, "click", false), 1);
    assert_eq!(it.listeners.count(3, "click", true), 0);
    assert!(it.platform.has_handler(node, "click", false));
    assert!(!it.platform.has_handler(node, "click", true));
    assert_eq!(it.foreign_event_listener("click", 3, 1), Ok(()));
    assert_eq!(it.listeners.count(3, "click", true), 1);
    assert!(it.platform.has_handler(node, "click", true));
    assert_eq!(it.foreign_event_listener("click", 3, 0), Ok(()));
    assert_eq!(it.listeners.count(3, "click", false), 2);

    assert_eq!(it.foreign_event_listener("mounted", 3, 2), Ok(()));
    assert_eq!(it.foreign_event_listener("mounted", 3, 1), Ok(()));
    assert_eq!(it.platform.posted.len(), 2);
    assert!(!it.platform.posted[0].bubbles);
    assert!(it.platform.posted[1].bubbles);

    // a listener of the interpreter's own bubbles at every byte but 0
    assert_eq!(it.new_event_listener("input", 3, 2), Ok(()));
    assert_eq!(it.listeners.count(3, "input", true), 1);
    assert_eq!(it.remove_event_listener("input", 3, 2), Ok(()));
    assert_eq!(it.listeners.count(3, "input", true), 0);
}

#[test]
fn the_path_of_a_replaced_node_leads_to_the_text_node() {
    let (mut it, _section, _p, _old, span) = hydration_session();
    assert_eq!(it.hydrate_text_ref(&[0, 1], "new", 8), Ok(()));
    let text = it.nodes.get(8).unwrap();
    assert_eq!(it.assign_id_ref(&[0, 1], 9), Ok(()));
    assert_eq!(it.nodes.get(9), Ok(text));
    assert!(text != span);
    // hydrating again finds the text node and keeps it
    assert_eq!(it.hydrate_text_ref(&[0, 1], "newer", 10), Ok(()));
    assert_eq!(it.nodes.get(10), Ok(text));
    assert_eq!(it.platform.nodes[text].text, "newer");
}
