use mutation_interpreter::batch::kind_of;
use mutation_interpreter::document::Document;
use mutation_interpreter::error::{BatchError, ErrorKind};
use mutation_interpreter::listeners::{ListenerTable, Released, Retained};
use mutation_interpreter::names::{NameCache, NameCaches, NameKind};
use mutation_interpreter::platform::Platform;
use mutation_interpreter::registry::NodeRegistry;
use mutation_interpreter::stack::OperandStack;
use mutation_interpreter::templates::TemplateCache;
use mutation_interpreter::text::{decimal, str_eq};

#[test]
fn the_stack_gives_back_last_what_came_first() {
    let mut s = OperandStack::new();
    assert_eq!(s.depth(), 0);
    s.push(10);
    s.push(20);
    s.push(30);
    assert_eq!(s.depth(), 3);
    assert_eq!(s.peek(0), Ok(30));
    assert_eq!(s.peek(2), Ok(10));
    assert_eq!(s.peek(3), Err(ErrorKind::StackUnderflow));
    assert_eq!(s.pop(), Ok(30));
    assert_eq!(s.pop(), Ok(20));
    assert_eq!(s.pop(), Ok(10));
    assert_eq!(s.pop(), Err(ErrorKind::StackUnderflow));
    assert_eq!(s.peek(0), Err(ErrorKind::StackUnderflow));
}

#[test]
fn taking_several_operands_keeps_their_order() {
    let mut s = OperandStack::new();
    for h in [1, 2, 3, 4, 5] {
        s.push(h);
    }
    assert_eq!(s.take_top(2), Ok(vec![4, 5]));
    assert_eq!(s.items, vec![1, 2, 3]);
    assert_eq!(s.take_top(0), Ok(vec![]));
    assert_eq!(s.take_top(4), Err(ErrorKind::StackUnderflow));
    assert_eq!(s.items, vec![1, 2, 3]);
    assert_eq!(s.take_top(3), Ok(vec![1, 2, 3]));
    assert_eq!(s.depth(), 0);
}

#[test]
fn the_registry_binds_ids_in_any_order() {
    let mut r = NodeRegistry::new();
    assert_eq!(r.get(0), Err(ErrorKind::UnknownNodeId));
    r.set(40, 7);
    r.set(2, 8);
    assert_eq!(r.get(40), Ok(7));
    assert_eq!(r.get(2), Ok(8));
    assert_eq!(r.get(3), Err(ErrorKind::UnknownNodeId));
    assert_eq!(r.get(41), Err(ErrorKind::UnknownNodeId));
    r.set(40, 9);
    assert_eq!(r.get(40), Ok(9));
    assert_eq!(r.remove(40), Some(9));
    assert_eq!(r.get(40), Err(ErrorKind::UnknownNodeId));
    assert_eq!(r.remove(40), None);
    assert_eq!(r.remove(1000), None);
    assert_eq!(r.get(2), Ok(8));
}

#[test]
fn a_name_is_looked_up_by_its_code() {
    let mut c = NameCache::new();
    assert_eq!(c.lookup(0), Err(ErrorKind::UninternedCode));
    c.define(200, "section".to_string());
    c.define(0, "".to_string());
    assert_eq!(c.lookup(200), Ok("section"));
    assert_eq!(c.lookup(0), Ok(""));
    assert_eq!(c.lookup(1), Err(ErrorKind::UninternedCode));
    assert_eq!(c.lookup(255), Err(ErrorKind::UninternedCode));
    c.define(200, "article".to_string());
    assert_eq!(c.lookup(200), Ok("article"));
}

#[test]
fn the_vocabularies_are_apart() {
    let mut c = NameCaches::new();
    c.define(NameKind::Element, 1, "div".to_string());
    c.define(NameKind::Attribute, 1, "class".to_string());
    c.define(NameKind::Namespace, 1, "style".to_string());
    c.define(NameKind::Event, 1, "click".to_string());
    assert_eq!(c.lookup(NameKind::Element, 1), Ok("div"));
    assert_eq!(c.lookup(NameKind::Attribute, 1), Ok("class"));
    assert_eq!(c.lookup(NameKind::Namespace, 1), Ok("style"));
    assert_eq!(c.lookup(NameKind::Event, 1), Ok("click"));
    assert_eq!(c.lookup(NameKind::Event, 2), Err(ErrorKind::UninternedCode));
    assert_eq!(kind_of(0), Some(NameKind::Element));
    assert_eq!(kind_of(1), Some(NameKind::Attribute));
    assert_eq!(kind_of(2), Some(NameKind::Namespace));
    assert_eq!(kind_of(3), Some(NameKind::Event));
    assert_eq!(kind_of(4), None);
}

#[test]
fn templates_are_stored_and_copied() {
    let mut doc = Document::new();
    let a = doc.create_element("a");
    let b = doc.create_text("b");
    let mut t = TemplateCache::new();
    assert_eq!(t.slot(0, 0), Err(ErrorKind::UnknownTemplateId));
    t.register(300, vec![a, b]);
    assert_eq!(t.slot(300, 0), Ok(a));
    assert_eq!(t.slot(300, 1), Ok(b));
    assert_eq!(t.slot(300, 2), Err(ErrorKind::SlotIndexOutOfRange));
    assert_eq!(t.slot(299, 0), Err(ErrorKind::UnknownTemplateId));
    assert_eq!(t.slot(301, 0), Err(ErrorKind::UnknownTemplateId));
    let copy = t.clone_slot(&mut doc, 300, 1).unwrap();
    assert!(copy != b);
    assert_eq!(doc.nodes[copy].text, "b");
    assert_eq!(t.clone_slot(&mut doc, 300, 2), Err(ErrorKind::SlotIndexOutOfRange));
    assert_eq!(t.clone_slot(&mut doc, 1, 0), Err(ErrorKind::UnknownTemplateId));
    assert_eq!(doc.nodes.len(), 3);
    t.register(300, vec![]);
    assert_eq!(t.slot(300, 0), Err(ErrorKind::SlotIndexOutOfRange));
}

#[test]
fn retentions_and_releases_are_counted() {
    let mut t = ListenerTable::new();
    assert!(!t.is_listening(1));
    assert_eq!(
        t.retain(1, "click", true),
        Retained { first_for_node: true, first_for_event: true }
    );
    assert_eq!(
        t.retain(1, "click", true),
        Retained { first_for_node: false, first_for_event: false }
    );
    assert_eq!(
        t.retain(1, "click", false),
        Retained { first_for_node: false, first_for_event: true }
    );
    assert_eq!(
        t.retain(2, "click", true),
        Retained { first_for_node: true, first_for_event: true }
    );
    assert_eq!(t.retain(1, "click", true), Retained { first_for_node: false, first_for_event: false });
    assert_eq!(t.count(1, "click", true), 3);
    assert_eq!(t.count(1, "click", false), 1);
    assert_eq!(t.count(2, "click", true), 1);
    assert_eq!(t.count(2, "keydown", true), 0);
    assert!(t.is_listening(1) && t.is_listening(2) && !t.is_listening(3));

    assert_eq!(t.release(1, "click", true), Released { last_for_event: false, last_for_node: false });
    assert_eq!(t.release(1, "click", true), Released { last_for_event: false, last_for_node: false });
    assert_eq!(t.count(1, "click", true), 1);
    // the handler goes with the last listener, the mark stays with the node
    assert_eq!(t.release(1, "click", true), Released { last_for_event: true, last_for_node: false });
    assert_eq!(t.count(1, "click", true), 0);
    // below nothing there is nothing
    assert_eq!(t.release(1, "click", true), Released { last_for_event: false, last_for_node: false });
    assert_eq!(t.count(1, "click", true), 0);
    assert_eq!(t.release(1, "click", false), Released { last_for_event: true, last_for_node: true });
    assert!(!t.is_listening(1));
    assert_eq!(t.count(2, "click", true), 1);
    assert_eq!(t.records.len(), 1);
}

#[test]
fn three_retentions_and_two_releases_leave_one() {
    let mut t = ListenerTable::new();
    t.retain(5, "input", false);
    t.release(5, "input", false);
    t.retain(5, "input", false);
    t.retain(5, "input", false);
    t.release(5, "input", false);
    assert_eq!(t.count(5, "input", false), 1);
}

#[test]
fn purging_takes_what_does_not_bubble() {
    let mut t = ListenerTable::new();
    t.retain(1, "scroll", false);
    t.retain(1, "scroll", false);
    t.retain(1, "focus", false);
    t.retain(1, "click", true);
    t.retain(2, "scroll", false);
    let mut gone = t.purge_non_bubbling(1);
    gone.sort();
    assert_eq!(gone, vec!["focus".to_string(), "scroll".to_string()]);
    assert_eq!(t.count(1, "scroll", false), 0);
    assert_eq!(t.count(1, "focus", false), 0);
    assert_eq!(t.count(1, "click", true), 1);
    assert_eq!(t.count(2, "scroll", false), 1);
    assert_eq!(t.records.len(), 2);
    assert!(t.purge_non_bubbling(3).is_empty());
    assert!(t.purge_non_bubbling(1).is_empty());
    assert_eq!(t.records.len(), 2);
}

#[test]
fn numbers_in_decimal() {
    assert_eq!(decimal(0), "0");
    assert_eq!(decimal(7), "7");
    assert_eq!(decimal(10), "10");
    assert_eq!(decimal(1234567890), "1234567890");
    assert_eq!(decimal(4294967295), "4294967295");
}

#[test]
fn strings_are_compared_by_their_characters() {
    assert!(str_eq("", ""));
    assert!(str_eq("value", "value"));
    assert!(!str_eq("value", "valu"));
    assert!(!str_eq("value", "valuE"));
    assert!(str_eq("\u{e9}", "\u{e9}"));
    assert!(!str_eq("\u{e9}", "e\u{301}"));
}

#[test]
fn errors_have_names() {
    assert_eq!(ErrorKind::UnknownNodeId.name(), "UnknownNodeId");
    assert_eq!(ErrorKind::StackUnderflow.name(), "StackUnderflow");
    assert_eq!(ErrorKind::UnknownTemplateId.name(), "UnknownTemplateId");
    assert_eq!(ErrorKind::SlotIndexOutOfRange.name(), "SlotIndexOutOfRange");
    assert_eq!(ErrorKind::UninternedCode.name(), "UninternedCode");
    assert_eq!(ErrorKind::MalformedPath.name(), "MalformedPath");
    assert_eq!(ErrorKind::UnsupportedOperation.name(), "UnsupportedOperation");
    let e = BatchError { index: 3, kind: ErrorKind::MalformedPath };
    assert_eq!(e.index, 3);
    assert_eq!(e.kind.name(), "MalformedPath");
}
