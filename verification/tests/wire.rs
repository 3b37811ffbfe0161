use mutation_interpreter::document::Document;
use mutation_interpreter::error::{BatchError, ErrorKind};
use mutation_interpreter::forest::NodeKind;
use mutation_interpreter::interpreter::Interpreter;
use mutation_interpreter::platform::Platform;
use mutation_interpreter::wire::{decode, Op};

fn session() -> (Interpreter<Document>, usize) {
    let mut doc = Document::new();
    let root = doc.create_element("main");
    (Interpreter::new(doc, root), root)
}

fn stream(ops: &[Op]) -> Vec<u8> {
    let mut out = Vec::new();
    for op in ops {
        assert!(op.encode(&mut out));
    }
    out
}

fn one_of_each() -> Vec<Op> {
    vec![
        Op::MountToRoot,
        Op::PushRoot { root: 1 },
        Op::AppendChildren { id: 2, many: 3 },
        Op::PopRoot,
        Op::ReplaceWith { id: 4, n: 5 },
        Op::InsertAfter { id: 6, n: 7 },
        Op::InsertBefore { id: 8, n: 9 },
        Op::Remove { id: 10 },
        Op::CreateRawText { text: "raw".to_string() },
        Op::CreateTextNode { text: "".to_string(), id: 11 },
        Op::CreatePlaceholder { id: 12 },
        Op::NewEventListener { event_name: 13, id: 14, bubbles: 1 },
        Op::RemoveEventListener { event_name: 15, id: 16, bubbles: 0 },
        Op::SetText { id: 17, text: "gr\u{fc}\u{df}e \u{4e16}\u{754c} \u{1f600}".to_string() },
        Op::SetAttribute { id: 18, field: 19, value: "v".to_string(), ns: 20 },
        Op::RemoveAttribute { id: 21, field: 22, ns: 23 },
        Op::AssignId { ptr: 24, len: 25, id: 26 },
        Op::HydrateText { ptr: 27, len: 28, value: "h".to_string(), id: 29 },
        Op::ReplacePlaceholder { ptr: 30, len: 31, n: 32 },
        Op::LoadTemplate { tmpl_id: 33, index: 34, id: 35 },
        Op::AppendChildrenToTop { many: 36 },
        Op::SetTopAttribute { field: 37, value: "top".to_string(), ns: 38 },
        Op::AddPlaceholder,
        Op::CreateElement { element: 39 },
        Op::CreateElementNs { element: 40, ns: 41 },
        Op::AddTemplates { tmpl_id: 42, len: 43 },
        Op::ForeignEventListener { event: 44, id: 45, bubbles: 1 },
        Op::AssignIdRef { array: vec![0, 1, 2], id: 46 },
        Op::HydrateTextRef { array: vec![], value: "x".to_string(), id: 47 },
        Op::ReplacePlaceholderRef { array: vec![255], n: 48 },
        Op::DefineName { kind: 3, code: 49, name: "click".to_string() },
    ]
}

#[test]
fn numbers_are_written_low_byte_first() {
    let mut out = vec![9];
    assert!(Op::AppendChildren { id: 0x0102_0304, many: 0x0506 }.encode(&mut out));
    assert_eq!(out, vec![9, 2, 4, 3, 2, 1, 6, 5]);
    let mut out = Vec::new();
    assert!(Op::LoadTemplate { tmpl_id: 0xffff, index: 256, id: 0xffff_ffff }.encode(&mut out));
    assert_eq!(out, vec![19, 255, 255, 0, 1, 255, 255, 255, 255]);
}

#[test]
fn a_text_is_written_behind_its_length_in_bytes() {
    let mut out = Vec::new();
    assert!(Op::CreateRawText { text: "h\u{e9}".to_string() }.encode(&mut out));
    assert_eq!(out, vec![8, 3, 0, 0, 0, 0x68, 0xc3, 0xa9]);
    let mut out = Vec::new();
    assert!(Op::SetAttribute { id: 1, field: 2, value: "ab".to_string(), ns: 3 }.encode(&mut out));
    assert_eq!(out, vec![14, 1, 0, 0, 0, 2, 2, 0, 0, 0, 97, 98, 3]);
    let mut out = Vec::new();
    assert!(Op::AssignIdRef { array: vec![7, 8], id: 1 }.encode(&mut out));
    assert_eq!(out, vec![27, 2, 0, 0, 0, 7, 8, 1, 0, 0, 0]);
    let mut out = Vec::new();
    assert!(Op::DefineName { kind: 0, code: 5, name: "div".to_string() }.encode(&mut out));
    assert_eq!(out, vec![30, 0, 5, 3, 0, 0, 0, 100, 105, 118]);
}

#[test]
fn operations_without_fields_take_one_byte() {
    assert_eq!(stream(&[Op::MountToRoot, Op::PopRoot, Op::AddPlaceholder]), vec![0, 3, 22]);
}

#[test]
fn what_is_written_is_read_back() {
    let ops = one_of_each();
    let bytes = stream(&ops);
    let mut at = 0;
    for op in &ops {
        let mut alone = Vec::new();
        assert!(op.encode(&mut alone));
        let (read, next) = decode(&bytes, at).unwrap();
        assert_eq!(&read, op);
        assert_eq!(next, at + alone.len());
        let (again, end) = decode(&alone, 0).unwrap();
        assert_eq!(&again, op);
        assert_eq!(end, alone.len());
        at = next;
    }
    assert_eq!(at, bytes.len());
}

#[test]
fn an_instruction_that_is_cut_short_is_not_read() {
    for op in one_of_each() {
        let mut bytes = Vec::new();
        assert!(op.encode(&mut bytes));
        for cut in 0..bytes.len() {
            assert_eq!(decode(&bytes[..cut], 0), None);
        }
    }
    assert_eq!(decode(&[], 0), None);
    assert_eq!(decode(&[0], 1), None);
}

#[test]
fn an_unknown_operation_is_not_read() {
    assert_eq!(decode(&[31], 0), None);
    assert_eq!(decode(&[255, 0, 0, 0, 0], 0), None);
    assert_eq!(decode(&[0, 200], 1), None);
}

#[test]
fn a_text_that_is_not_utf8_is_not_read() {
    assert_eq!(decode(&[8, 1, 0, 0, 0, 0xff], 0), None);
    assert_eq!(decode(&[8, 2, 0, 0, 0, 0xc3, 0x28], 0), None);
    // a surrogate, and an encoding that is longer than need be
    assert_eq!(decode(&[8, 3, 0, 0, 0, 0xed, 0xa0, 0x80], 0), None);
    assert_eq!(decode(&[8, 2, 0, 0, 0, 0xc0, 0x80], 0), None);
    // a path may hold any bytes
    assert_eq!(
        decode(&[27, 2, 0, 0, 0, 0xff, 0xfe, 1, 0, 0, 0], 0),
        Some((Op::AssignIdRef { array: vec![0xff, 0xfe], id: 1 }, 11))
    );
}

#[test]
fn a_text_is_decoded_from_its_bytes() {
    let bytes = [8, 7, 0, 0, 0, 0xe4, 0xb8, 0x96, 0xf0, 0x9f, 0x98, 0x80];
    let (op, next) = decode(&bytes, 0).unwrap();
    assert_eq!(next, 12);
    match op {
        Op::CreateRawText { text } => {
            assert_eq!(text.chars().count(), 2);
            assert_eq!(text, "\u{4e16}\u{1f600}");
        }
        _ => panic!("another operation"),
    }
}

#[test]
fn a_batch_builds_and_mounts_a_tree() {
    let (mut it, root) = session();
    let bytes = stream(&[
        Op::DefineName { kind: 0, code: 0, name: "div".to_string() },
        Op::DefineName { kind: 1, code: 0, name: "class".to_string() },
        Op::DefineName { kind: 2, code: 0, name: "".to_string() },
        Op::CreateElement { element: 0 },
        Op::SetTopAttribute { field: 0, value: "box".to_string(), ns: 0 },
        Op::CreateRawText { text: "hi".to_string() },
        Op::AppendChildrenToTop { many: 1 },
        Op::MountToRoot,
    ]);
    assert_eq!(it.run(&bytes), Ok(8));
    let doc = &it.platform;
    assert_eq!(doc.nodes[root].children.len(), 1);
    let div = doc.nodes[root].children[0];
    assert_eq!(doc.nodes[div].tag, "div");
    assert_eq!(doc.attribute(div, "class", ""), Some("box".to_string()));
    assert_eq!(doc.nodes[div].children.len(), 1);
    let text = doc.nodes[div].children[0];
    assert_eq!(doc.nodes[text].kind, NodeKind::Text);
    assert_eq!(doc.nodes[text].text, "hi");
    assert_eq!(it.stack.items, vec![root]);
}

#[test]
fn an_empty_batch_does_nothing() {
    let (mut it, root) = session();
    assert_eq!(it.run(&[]), Ok(0));
    assert_eq!(it.stack.items, vec![root]);
    assert_eq!(it.platform.nodes.len(), 1);
}

#[test]
fn names_live_as_long_as_the_session() {
    let (mut it, _root) = session();
    let first = stream(&[Op::DefineName { kind: 0, code: 7, name: "span".to_string() }]);
    assert_eq!(it.run(&first), Ok(1));
    let second = stream(&[Op::CreateElement { element: 7 }]);
    assert_eq!(it.run(&second), Ok(1));
    assert_eq!(it.platform.nodes[it.stack.items[1]].tag, "span");
    // a name can be defined anew
    let third = stream(&[
        Op::DefineName { kind: 0, code: 7, name: "b".to_string() },
        Op::CreateElement { element: 7 },
    ]);
    assert_eq!(it.run(&third), Ok(2));
    assert_eq!(it.platform.nodes[it.stack.items[2]].tag, "b");
}

#[test]
fn a_code_that_was_not_defined_fails_the_instruction() {
    let (mut it, root) = session();
    let bytes = stream(&[
        Op::DefineName { kind: 1, code: 0, name: "div".to_string() },
        Op::AddPlaceholder,
        Op::CreateElement { element: 0 },
        Op::AddPlaceholder,
    ]);
    assert_eq!(it.run(&bytes), Err(BatchError { index: 2, kind: ErrorKind::UninternedCode }));
    // what came before stays done, what comes after is not done
    assert_eq!(it.stack.depth(), 2);
    assert_eq!(it.stack.items[0], root);
    assert_eq!(it.platform.nodes.len(), 2);

    for op in [
        Op::NewEventListener { event_name: 0, id: 0, bubbles: 1 },
        Op::RemoveEventListener { event_name: 0, id: 0, bubbles: 1 },
        Op::ForeignEventListener { event: 0, id: 0, bubbles: 1 },
        Op::SetAttribute { id: 0, field: 9, value: "v".to_string(), ns: 0 },
        Op::SetAttribute { id: 0, field: 0, value: "v".to_string(), ns: 0 },
        Op::SetTopAttribute { field: 0, value: "v".to_string(), ns: 0 },
        Op::RemoveAttribute { id: 0, field: 0, ns: 0 },
        Op::CreateElementNs { element: 0, ns: 0 },
    ] {
        assert_eq!(it.apply(&op), Err(ErrorKind::UninternedCode));
    }
    assert_eq!(it.platform.nodes.len(), 2);
    assert!(it.platform.nodes[root].attrs.is_empty());
}

#[test]
fn a_batch_stops_at_what_it_cannot_read() {
    let (mut it, _root) = session();
    let mut bytes = stream(&[Op::AddPlaceholder, Op::AddPlaceholder]);
    bytes.push(99);
    bytes.extend(stream(&[Op::AddPlaceholder]));
    assert_eq!(
        it.run(&bytes),
        Err(BatchError { index: 2, kind: ErrorKind::UnsupportedOperation })
    );
    assert_eq!(it.stack.depth(), 3);

    let mut cut = stream(&[Op::AddPlaceholder, Op::PushRoot { root: 0 }]);
    cut.pop();
    assert_eq!(it.run(&cut), Err(BatchError { index: 1, kind: ErrorKind::UnsupportedOperation }));
    assert_eq!(it.stack.depth(), 4);

    let kind = stream(&[Op::DefineName { kind: 4, code: 0, name: "x".to_string() }]);
    assert_eq!(it.run(&kind), Err(BatchError { index: 0, kind: ErrorKind::UnsupportedOperation }));
}

#[test]
fn a_batch_that_takes_more_than_there_is_underflows() {
    let (mut it, root) = session();
    let bytes = stream(&[
        Op::AddPlaceholder,
        Op::AddPlaceholder,
        Op::AppendChildrenToTop { many: 1 },
        Op::PopRoot,
        Op::PopRoot,
        Op::PopRoot,
        Op::AddPlaceholder,
    ]);
    assert_eq!(it.run(&bytes), Err(BatchError { index: 5, kind: ErrorKind::StackUnderflow }));
    assert!(it.stack.items.is_empty());
    assert_eq!(it.platform.nodes.len(), 3);
    // the same batch fails in the same way in another session
    let (mut again, _) = session();
    assert_eq!(again.run(&bytes), Err(BatchError { index: 5, kind: ErrorKind::StackUnderflow }));
    assert_eq!(root, 0);
}

#[test]
fn the_depth_after_a_batch_is_the_depth_before_plus_what_it_pushes_minus_what_it_takes() {
    let (mut it, _root) = session();
    let bytes = stream(&[
        Op::DefineName { kind: 0, code: 1, name: "li".to_string() },
        Op::CreateElement { element: 1 },        // 2
        Op::CreateRawText { text: "a".to_string() }, // 3
        Op::CreateTextNode { text: "b".to_string(), id: 4 }, // 4
        Op::AppendChildrenToTop { many: 2 },     // 2
        Op::CreatePlaceholder { id: 5 },         // 3
        Op::PushRoot { root: 0 },                // 4
        Op::PopRoot,                             // 3
        Op::AddTemplates { tmpl_id: 0, len: 1 }, // 2
        Op::LoadTemplate { tmpl_id: 0, index: 0, id: 6 }, // 3
        Op::AppendChildren { id: 0, many: 1 },   // 2
        Op::SetText { id: 4, text: "c".to_string() },
        Op::AssignIdRef { array: vec![0], id: 7 },
    ]);
    assert_eq!(it.run(&bytes), Ok(13));
    assert_eq!(it.stack.depth(), 2);
    assert_eq!(it.run(&stream(&[Op::MountToRoot])), Ok(1));
    assert_eq!(it.stack.depth(), 1);
}

#[test]
fn every_operation_can_be_applied_as_an_instruction() {
    let mut doc = Document::new();
    let root = doc.create_element("main");
    let first = doc.create_element("p");
    let inner = doc.create_element("i");
    doc.append(first, &[inner]);
    doc.append(root, &[first]);
    let mut it = Interpreter::new(doc, root);
    it.set_paths(vec![0, 0]);
    let batch = stream(&[
        Op::DefineName { kind: 0, code: 0, name: "svg".to_string() },
        Op::DefineName { kind: 1, code: 0, name: "value".to_string() },
        Op::DefineName { kind: 2, code: 0, name: "".to_string() },
        Op::DefineName { kind: 2, code: 1, name: "http://www.w3.org/2000/svg".to_string() },
        Op::DefineName { kind: 3, code: 0, name: "click".to_string() },
        Op::DefineName { kind: 3, code: 1, name: "mounted".to_string() },
        Op::AssignId { ptr: 0, len: 1, id: 1 },
        Op::AssignIdRef { array: vec![0, 0], id: 2 },
        Op::HydrateText { ptr: 0, len: 2, value: "t".to_string(), id: 2 },
        Op::HydrateTextRef { array: vec![0, 0], value: "u".to_string(), id: 2 },
        Op::CreateElementNs { element: 0, ns: 1 },
        Op::SetTopAttribute { field: 0, value: "1".to_string(), ns: 0 },
        Op::CreatePlaceholder { id: 3 },
        Op::InsertAfter { id: 2, n: 2 },
        Op::CreateElement { element: 0 },
        Op::InsertBefore { id: 2, n: 1 },
        Op::SetAttribute { id: 1, field: 0, value: "2".to_string(), ns: 0 },
        Op::RemoveAttribute { id: 1, field: 0, ns: 0 },
        Op::NewEventListener { event_name: 0, id: 1, bubbles: 0 },
        Op::ForeignEventListener { event: 0, id: 1, bubbles: 0 },
        Op::ForeignEventListener { event: 1, id: 1, bubbles: 0 },
        Op::RemoveEventListener { event_name: 0, id: 1, bubbles: 0 },
        Op::PushRoot { root: 1 },
        Op::AddPlaceholder,
        Op::ReplacePlaceholder { ptr: 0, len: 1, n: 1 },
        Op::CreateRawText { text: "r".to_string() },
        Op::ReplacePlaceholderRef { array: vec![0], n: 1 },
        Op::PopRoot,
        Op::CreateTextNode { text: "n".to_string(), id: 9 },
        Op::ReplaceWith { id: 3, n: 1 },
        Op::Remove { id: 9 },
        Op::SetText { id: 2, text: "v".to_string() },
    ]);
    assert_eq!(it.run(&batch), Ok(32));
    let doc = &it.platform;
    let text = it.nodes.get(2).unwrap();
    assert_eq!(doc.nodes[text].text, "v");
    assert_eq!(doc.nodes[text].kind, NodeKind::Text);
    assert_eq!(doc.posted.len(), 1);
    assert_eq!(doc.attribute(first, "value", ""), Some("".to_string()));
    assert_eq!(it.listeners.count(1, "click", false), 1);
    assert_eq!(it.stack.items, vec![root]);
    assert_eq!(it.nodes.get(3), Err(ErrorKind::UnknownNodeId));
    assert_eq!(it.nodes.get(9), Err(ErrorKind::UnknownNodeId));
}
