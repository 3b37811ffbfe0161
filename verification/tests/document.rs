use mutation_interpreter::document::Document;
use mutation_interpreter::forest::NodeKind;
use mutation_interpreter::platform::Platform;

fn list() -> (Document, usize, Vec<usize>) {
    // <ul><li>0</li><li>1</li><li>2</li></ul>
    let mut doc = Document::new();
    let ul = doc.create_element("ul");
    let mut items = Vec::new();
    for n in ["0", "1", "2"] {
        let li = doc.create_element("li");
        let text = doc.create_text(n);
        doc.append(li, &[text]);
        items.push(li);
    }
    doc.append(ul, &items);
    (doc, ul, items)
}

#[test]
fn new_nodes_are_bare() {
    let mut doc = Document::new();
    let e = doc.create_element("div");
    let n = doc.create_element_ns("rect", "http://www.w3.org/2000/svg");
    let t = doc.create_text("some");
    let p = doc.create_placeholder();
    assert_eq!((e, n, t, p), (0, 1, 2, 3));
    assert_eq!(doc.nodes[e].kind, NodeKind::Element);
    assert_eq!(doc.nodes[e].tag, "div");
    assert_eq!(doc.nodes[e].namespace, "");
    assert_eq!(doc.nodes[n].namespace, "http://www.w3.org/2000/svg");
    assert_eq!(doc.nodes[t].kind, NodeKind::Text);
    assert_eq!(doc.nodes[t].text, "some");
    assert!(doc.is_text(t) && !doc.is_text(e) && !doc.is_text(p));
    assert_eq!(doc.nodes[p].kind, NodeKind::Placeholder);
    for h in [e, n, t, p] {
        assert!(doc.nodes[h].children.is_empty());
        assert!(doc.nodes[h].attrs.is_empty());
        assert!(doc.nodes[h].handlers.is_empty());
        assert_eq!(doc.nodes[h].parent, None);
    }
}

#[test]
fn appending_moves_a_node_to_the_end() {
    let (mut doc, ul, items) = list();
    assert_eq!(doc.nodes[ul].children, items);
    doc.append(ul, &[items[0]]);
    assert_eq!(doc.nodes[ul].children, vec![items[1], items[2], items[0]]);
    let other = doc.create_element("ol");
    doc.append(other, &[items[2], items[1]]);
    assert_eq!(doc.nodes[ul].children, vec![items[0]]);
    assert_eq!(doc.nodes[other].children, vec![items[2], items[1]]);
    assert_eq!(doc.nodes[items[2]].parent, Some(other));
    assert_eq!(doc.nodes[items[0]].parent, Some(ul));
}

#[test]
fn inserting_before_and_after() {
    let (mut doc, ul, items) = list();
    let a = doc.create_element("a");
    let b = doc.create_element("b");
    doc.insert_before(items[0], &[a, b]);
    assert_eq!(doc.nodes[ul].children, vec![a, b, items[0], items[1], items[2]]);
    let c = doc.create_element("c");
    let d = doc.create_element("d");
    doc.insert_after(items[2], &[c, d]);
    assert_eq!(doc.nodes[ul].children, vec![a, b, items[0], items[1], items[2], c, d]);
    // nodes that are in the list already are moved
    doc.insert_after(items[0], &[d, a]);
    assert_eq!(doc.nodes[ul].children, vec![b, items[0], d, a, items[1], items[2], c]);
    doc.insert_before(b, &[c]);
    assert_eq!(doc.nodes[ul].children, vec![c, b, items[0], d, a, items[1], items[2]]);
    // next to a node without a parent nothing happens
    let lone = doc.create_element("x");
    doc.insert_before(lone, &[a]);
    doc.insert_after(lone, &[b]);
    assert_eq!(doc.nodes[ul].children, vec![c, b, items[0], d, a, items[1], items[2]]);
    assert_eq!(doc.nodes[a].parent, Some(ul));
    // and a node is not put next to itself
    doc.insert_before(a, &[a]);
    doc.insert_after(a, &[a]);
    assert_eq!(doc.nodes[ul].children, vec![c, b, items[0], d, a, items[1], items[2]]);
}

#[test]
fn replacing_and_removing() {
    let (mut doc, ul, items) = list();
    let a = doc.create_element("a");
    let b = doc.create_element("b");
    doc.replace(items[1], &[a, b]);
    assert_eq!(doc.nodes[ul].children, vec![items[0], a, b, items[2]]);
    assert_eq!(doc.nodes[items[1]].parent, None);
    assert_eq!(doc.nodes[a].parent, Some(ul));
    // the subtree of the node that left is whole
    assert_eq!(doc.nodes[items[1]].children.len(), 1);
    doc.replace(a, &[]);
    assert_eq!(doc.nodes[ul].children, vec![items[0], b, items[2]]);
    // a node that is among its own replacements stays, and the others come before it
    doc.replace(b, &[items[2], b, items[0]]);
    assert_eq!(doc.nodes[ul].children, vec![items[2], items[0], b]);
    doc.remove(b);
    assert_eq!(doc.nodes[ul].children, vec![items[2], items[0]]);
    assert_eq!(doc.nodes[b].parent, None);
    doc.remove(b);
    doc.replace(b, &[items[0]]);
    assert_eq!(doc.nodes[ul].children, vec![items[2], items[0]]);
}

#[test]
fn a_copy_is_deep_and_apart() {
    let (mut doc, ul, items) = list();
    doc.set_attribute(ul, "class", "menu", "");
    doc.set_attribute(items[1], "fill", "red", "style");
    doc.register_listener(ul, "click", true);
    let before = doc.nodes.len();
    let copy = doc.clone_subtree(ul);
    assert_eq!(copy, before);
    assert_eq!(doc.nodes.len(), 2 * before);
    assert_eq!(doc.nodes[copy].tag, "ul");
    assert_eq!(doc.nodes[copy].parent, None);
    assert_eq!(doc.attribute(copy, "class", ""), Some("menu".to_string()));
    // handlers are not copied
    assert!(doc.nodes[copy].handlers.is_empty());
    assert!(doc.has_handler(ul, "click", true));
    assert_eq!(doc.nodes[copy].children.len(), 3);
    for i in 0..3 {
        let li = doc.nodes[copy].children[i];
        assert!(li >= before);
        assert_eq!(doc.nodes[li].tag, "li");
        assert_eq!(doc.nodes[li].parent, Some(copy));
        assert_eq!(doc.nodes[li].children.len(), 1);
        let text = doc.nodes[li].children[0];
        assert!(text >= before);
        assert_eq!(doc.nodes[text].kind, NodeKind::Text);
        assert_eq!(doc.nodes[text].text, ["0", "1", "2"][i]);
        assert_eq!(doc.nodes[text].parent, Some(li));
    }
    let li = doc.nodes[copy].children[1];
    assert_eq!(doc.attribute(li, "fill", "style"), Some("red".to_string()));
    // the original is as it was
    assert_eq!(doc.nodes[ul].children, items);
    let text = doc.nodes[li].children[0];
    doc.set_text(text, "changed");
    doc.set_attribute(li, "fill", "blue", "style");
    assert_eq!(doc.nodes[doc.nodes[items[1]].children[0]].text, "1");
    assert_eq!(doc.attribute(items[1], "fill", "style"), Some("red".to_string()));
    // a copy of a part
    let part = doc.clone_subtree(items[2]);
    assert_eq!(doc.nodes.len(), 2 * before + 2);
    assert_eq!(doc.nodes[part].parent, None);
    assert_eq!(doc.nodes[doc.nodes[part].children[0]].text, "2");
}

#[test]
fn attributes_of_a_node() {
    let mut doc = Document::new();
    let n = doc.create_element("input");
    assert_eq!(doc.attribute(n, "type", ""), None);
    doc.set_attribute(n, "type", "text", "");
    doc.set_attribute(n, "type", "number", "");
    doc.set_attribute(n, "type", "other", "ns");
    assert_eq!(doc.attribute(n, "type", ""), Some("number".to_string()));
    assert_eq!(doc.attribute(n, "type", "ns"), Some("other".to_string()));
    assert_eq!(doc.nodes[n].attrs.len(), 2);
    doc.remove_attribute(n, "type", "");
    assert_eq!(doc.attribute(n, "type", ""), None);
    assert_eq!(doc.attribute(n, "type", "ns"), Some("other".to_string()));
    doc.remove_attribute(n, "type", "");
    assert_eq!(doc.nodes[n].attrs.len(), 1);
}

#[test]
fn handlers_of_a_node() {
    let mut doc = Document::new();
    let n = doc.create_element("button");
    doc.register_listener(n, "click", true);
    doc.register_listener(n, "click", true);
    doc.register_listener(n, "click", false);
    assert!(doc.has_handler(n, "click", true));
    assert!(doc.has_handler(n, "click", false));
    assert!(!doc.has_handler(n, "focus", true));
    assert_eq!(doc.nodes[n].handlers.len(), 2);
    doc.unregister_listener(n, "click", true);
    assert!(!doc.has_handler(n, "click", true));
    assert!(doc.has_handler(n, "click", false));
    doc.unregister_listener(n, "click", true);
    assert_eq!(doc.nodes[n].handlers.len(), 1);
}

#[test]
fn paths_are_walked_child_by_child() {
    let (doc, ul, items) = list();
    assert_eq!(doc.load_child_by_path(ul, &[]), Some(ul));
    assert_eq!(doc.load_child_by_path(ul, &[2]), Some(items[2]));
    assert_eq!(doc.load_child_by_path(ul, &[1, 0]), Some(doc.nodes[items[1]].children[0]));
    assert_eq!(doc.load_child_by_path(ul, &[3]), None);
    assert_eq!(doc.load_child_by_path(ul, &[1, 1]), None);
    assert_eq!(doc.load_child_by_path(ul, &[1, 0, 0]), None);
    assert_eq!(doc.load_child_by_path(ul, &[3, 0]), None);
    assert_eq!(doc.load_child_by_path(items[0], &[0]), Some(doc.nodes[items[0]].children[0]));
}

#[test]
fn lifecycle_events_are_kept_in_their_order() {
    let mut doc = Document::new();
    doc.post_lifecycle_event("mounted", 4, false);
    doc.post_lifecycle_event("mounted", 2, true);
    assert_eq!(doc.posted.len(), 2);
    assert_eq!(doc.posted[0].node_id, 4);
    assert!(!doc.posted[0].bubbles);
    assert_eq!(doc.posted[1].node_id, 2);
    assert!(doc.posted[1].bubbles);
    assert_eq!(doc.posted[1].name, "mounted");
}

#[test]
fn a_node_does_not_come_to_lie_under_itself() {
    let (mut doc, ul, items) = list();
    let text = doc.nodes[items[0]].children[0];
    doc.append(ul, &[ul]);
    doc.append(items[0], &[ul]);
    doc.append(text, &[items[0], ul]);
    doc.insert_before(text, &[ul, items[0]]);
    doc.insert_after(text, &[items[0]]);
    assert_eq!(doc.nodes[ul].children, items);
    assert_eq!(doc.nodes[ul].parent, None);
    assert_eq!(doc.nodes[items[0]].children, vec![text]);
    assert_eq!(doc.nodes[items[0]].parent, Some(ul));
    assert!(doc.nodes[text].children.is_empty());
    assert_eq!(doc.nodes[text].parent, Some(items[0]));
    // a node that is replaced by one above it is replaced by nothing
    doc.replace(text, &[ul]);
    assert_eq!(doc.nodes[ul].children, items);
    assert!(doc.nodes[items[0]].children.is_empty());
    assert_eq!(doc.nodes[text].parent, None);
    // the others of a list are moved all the same
    doc.append(items[1], &[ul, items[2], items[1]]);
    assert_eq!(doc.nodes[ul].children, vec![items[0], items[1]]);
    assert_eq!(doc.nodes[items[1]].children.len(), 2);
    assert_eq!(doc.nodes[items[1]].children[1], items[2]);
}
