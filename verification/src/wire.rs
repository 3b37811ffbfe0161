//! The wire format: how a batch of operations is framed in bytes.
//!
//! A batch is a run of instructions. An instruction is one byte that names the
//! operation, followed by the fields of the operation in their order. Numbers
//! are little-endian: ids take four bytes, counts two, codes and flags one. A
//! text is its length in bytes, as a four-byte number, and then that many
//! bytes of UTF-8. A path is framed in the same way. An instruction can be
//! read without knowing what follows it, and a batch is read front to back.

use vstd::prelude::*;
use vstd::string::StringSliceAdditionalSpecFns;
use vstd::utf8::{decode_utf8, encode_utf8, encode_utf8_decode_utf8, valid_utf8};

verus! {

/// An instruction of the protocol. Names that the protocol interns are given
/// by their code.
#[allow(inconsistent_fields)]
#[derive(Debug, PartialEq, Eq)]
pub enum Op {
    /// Append what was built to the root.
    MountToRoot,
    /// Push the node of an id.
    PushRoot { root: u32 },
    /// Append the top operands to the node of an id.
    AppendChildren { id: u32, many: u16 },
    /// Take the top operand off.
    PopRoot,
    /// Put the top operands in the place of the node of an id.
    ReplaceWith { id: u32, n: u16 },
    /// Put the top operands after the node of an id.
    InsertAfter { id: u32, n: u16 },
    /// Put the top operands before the node of an id.
    InsertBefore { id: u32, n: u16 },
    /// Take the node of an id out.
    Remove { id: u32 },
    /// Create a text node.
    CreateRawText { text: String },
    /// Create a text node under an id.
    CreateTextNode { text: String, id: u32 },
    /// Create a placeholder under an id.
    CreatePlaceholder { id: u32 },
    /// Count one more listener. The event is a code of the event names.
    NewEventListener { event_name: u8, id: u32, bubbles: u8 },
    /// Count one listener less. The event is a code of the event names.
    RemoveEventListener { event_name: u8, id: u32, bubbles: u8 },
    /// Set the text of the node of an id.
    SetText { id: u32, text: String },
    /// Set an attribute. Field and namespace are codes.
    SetAttribute { id: u32, field: u8, value: String, ns: u8 },
    /// Clear an attribute. Field and namespace are codes.
    RemoveAttribute { id: u32, field: u8, ns: u8 },
    /// Bind an id to the node at a path of the path buffer.
    AssignId { ptr: u32, len: u8, id: u32 },
    /// Give the node at a path of the path buffer a text.
    HydrateText { ptr: u32, len: u8, value: String, id: u32 },
    /// Put the top operands in the place of the node at a path of the path buffer.
    ReplacePlaceholder { ptr: u32, len: u8, n: u16 },
    /// Copy a slot of a template.
    LoadTemplate { tmpl_id: u16, index: u16, id: u32 },
    /// Append the top operands to the operand under them.
    AppendChildrenToTop { many: u16 },
    /// Set an attribute of the top operand. Field and namespace are codes.
    SetTopAttribute { field: u8, value: String, ns: u8 },
    /// Create a placeholder.
    AddPlaceholder,
    /// Create an element. The tag is a code of the element names.
    CreateElement { element: u8 },
    /// Create an element in a namespace. Tag and namespace are codes.
    CreateElementNs { element: u8, ns: u8 },
    /// Store the top operands as a template.
    AddTemplates { tmpl_id: u16, len: u16 },
    /// Count one more listener, or post the lifecycle event.
    ForeignEventListener { event: u8, id: u32, bubbles: u8 },
    /// Bind an id to the node at a path.
    AssignIdRef { array: Vec<u8>, id: u32 },
    /// Give the node at a path a text.
    HydrateTextRef { array: Vec<u8>, value: String, id: u32 },
    /// Put the top operands in the place of the node at a path.
    ReplacePlaceholderRef { array: Vec<u8>, n: u16 },
    /// Let a code stand for a name. The kind is the number of the vocabulary.
    DefineName { kind: u8, code: u8, name: String },
}

/// The model of an instruction.
#[allow(inconsistent_fields)]
pub enum OpView {
    MountToRoot,
    PushRoot { root: u32 },
    AppendChildren { id: u32, many: u16 },
    PopRoot,
    ReplaceWith { id: u32, n: u16 },
    InsertAfter { id: u32, n: u16 },
    InsertBefore { id: u32, n: u16 },
    Remove { id: u32 },
    CreateRawText { text: Seq<char> },
    CreateTextNode { text: Seq<char>, id: u32 },
    CreatePlaceholder { id: u32 },
    NewEventListener { event_name: u8, id: u32, bubbles: u8 },
    RemoveEventListener { event_name: u8, id: u32, bubbles: u8 },
    SetText { id: u32, text: Seq<char> },
    SetAttribute { id: u32, field: u8, value: Seq<char>, ns: u8 },
    RemoveAttribute { id: u32, field: u8, ns: u8 },
    AssignId { ptr: u32, len: u8, id: u32 },
    HydrateText { ptr: u32, len: u8, value: Seq<char>, id: u32 },
    ReplacePlaceholder { ptr: u32, len: u8, n: u16 },
    LoadTemplate { tmpl_id: u16, index: u16, id: u32 },
    AppendChildrenToTop { many: u16 },
    SetTopAttribute { field: u8, value: Seq<char>, ns: u8 },
    AddPlaceholder,
    CreateElement { element: u8 },
    CreateElementNs { element: u8, ns: u8 },
    AddTemplates { tmpl_id: u16, len: u16 },
    ForeignEventListener { event: u8, id: u32, bubbles: u8 },
    AssignIdRef { array: Seq<u8>, id: u32 },
    HydrateTextRef { array: Seq<u8>, value: Seq<char>, id: u32 },
    ReplacePlaceholderRef { array: Seq<u8>, n: u16 },
    DefineName { kind: u8, code: u8, name: Seq<char> },
}

impl View for Op {
    type V = OpView;

    open spec fn view(&self) -> OpView {
        match self {
            Op::MountToRoot => OpView::MountToRoot,
            Op::PushRoot { root } => OpView::PushRoot { root: *root },
            Op::AppendChildren { id, many } => OpView::AppendChildren { id: *id, many: *many },
            Op::PopRoot => OpView::PopRoot,
            Op::ReplaceWith { id, n } => OpView::ReplaceWith { id: *id, n: *n },
            Op::InsertAfter { id, n } => OpView::InsertAfter { id: *id, n: *n },
            Op::InsertBefore { id, n } => OpView::InsertBefore { id: *id, n: *n },
            Op::Remove { id } => OpView::Remove { id: *id },
            Op::CreateRawText { text } => OpView::CreateRawText { text: text@ },
            Op::CreateTextNode { text, id } => OpView::CreateTextNode { text: text@, id: *id },
            Op::CreatePlaceholder { id } => OpView::CreatePlaceholder { id: *id },
            Op::NewEventListener { event_name, id, bubbles } => OpView::NewEventListener { event_name: *event_name, id: *id, bubbles: *bubbles },
            Op::RemoveEventListener { event_name, id, bubbles } => OpView::RemoveEventListener { event_name: *event_name, id: *id, bubbles: *bubbles },
            Op::SetText { id, text } => OpView::SetText { id: *id, text: text@ },
            Op::SetAttribute { id, field, value, ns } => OpView::SetAttribute { id: *id, field: *field, value: value@, ns: *ns },
            Op::RemoveAttribute { id, field, ns } => OpView::RemoveAttribute { id: *id, field: *field, ns: *ns },
            Op::AssignId { ptr, len, id } => OpView::AssignId { ptr: *ptr, len: *len, id: *id },
            Op::HydrateText { ptr, len, value, id } => OpView::HydrateText { ptr: *ptr, len: *len, value: value@, id: *id },
            Op::ReplacePlaceholder { ptr, len, n } => OpView::ReplacePlaceholder { ptr: *ptr, len: *len, n: *n },
            Op::LoadTemplate { tmpl_id, index, id } => OpView::LoadTemplate { tmpl_id: *tmpl_id, index: *index, id: *id },
            Op::AppendChildrenToTop { many } => OpView::AppendChildrenToTop { many: *many },
            Op::SetTopAttribute { field, value, ns } => OpView::SetTopAttribute { field: *field, value: value@, ns: *ns },
            Op::AddPlaceholder => OpView::AddPlaceholder,
            Op::CreateElement { element } => OpView::CreateElement { element: *element },
            Op::CreateElementNs { element, ns } => OpView::CreateElementNs { element: *element, ns: *ns },
            Op::AddTemplates { tmpl_id, len } => OpView::AddTemplates { tmpl_id: *tmpl_id, len: *len },
            Op::ForeignEventListener { event, id, bubbles } => OpView::ForeignEventListener { event: *event, id: *id, bubbles: *bubbles },
            Op::AssignIdRef { array, id } => OpView::AssignIdRef { array: array@, id: *id },
            Op::HydrateTextRef { array, value, id } => OpView::HydrateTextRef { array: array@, value: value@, id: *id },
            Op::ReplacePlaceholderRef { array, n } => OpView::ReplacePlaceholderRef { array: array@, n: *n },
            Op::DefineName { kind, code, name } => OpView::DefineName { kind: *kind, code: *code, name: name@ },
        }
    }
}

/// A place in a stream, and whether everything before it could be read.
pub struct Cursor {
    pub at: int,
    pub ok: bool,
}

pub open spec fn fits(s: Seq<u8>, c: Cursor, n: int) -> bool {
    c.ok && 0 <= c.at && c.at + n <= s.len()
}

/// The cursor after `n` bytes are read: it moves on if they are there, and
/// stays and fails if they are not.
pub open spec fn advance(s: Seq<u8>, c: Cursor, n: int) -> Cursor {
    if fits(s, c, n) {
        Cursor { at: c.at + n, ok: true }
    } else {
        Cursor { at: c.at, ok: false }
    }
}

#[verifier::opaque]
pub open spec fn u8_of(s: Seq<u8>, c: Cursor) -> u8 {
    if fits(s, c, 1) {
        s[c.at]
    } else {
        0
    }
}

#[verifier::opaque]
pub open spec fn after_u8(s: Seq<u8>, c: Cursor) -> Cursor {
    advance(s, c, 1)
}

#[verifier::opaque]
pub open spec fn u16_of(s: Seq<u8>, c: Cursor) -> u16 {
    if fits(s, c, 2) {
        (s[c.at] + 256 * s[c.at + 1]) as u16
    } else {
        0
    }
}

#[verifier::opaque]
pub open spec fn after_u16(s: Seq<u8>, c: Cursor) -> Cursor {
    advance(s, c, 2)
}

#[verifier::opaque]
pub open spec fn u32_of(s: Seq<u8>, c: Cursor) -> u32 {
    if fits(s, c, 4) {
        (s[c.at] + 256 * s[c.at + 1] + 65536 * s[c.at + 2] + 16777216 * s[c.at + 3]) as u32
    } else {
        0
    }
}

#[verifier::opaque]
pub open spec fn after_u32(s: Seq<u8>, c: Cursor) -> Cursor {
    advance(s, c, 4)
}

/// A run of bytes behind its length.
#[verifier::opaque]
pub open spec fn bytes_of(s: Seq<u8>, c: Cursor) -> Seq<u8> {
    let body = after_u32(s, c);
    if fits(s, body, u32_of(s, c) as int) {
        s.subrange(body.at, body.at + u32_of(s, c))
    } else {
        Seq::empty()
    }
}

#[verifier::opaque]
pub open spec fn after_bytes(s: Seq<u8>, c: Cursor) -> Cursor {
    advance(s, after_u32(s, c), u32_of(s, c) as int)
}

/// A text behind its length in bytes. Bytes that are not UTF-8 fail.
#[verifier::opaque]
pub open spec fn text_of(s: Seq<u8>, c: Cursor) -> Seq<char> {
    if after_text(s, c).ok {
        decode_utf8(bytes_of(s, c))
    } else {
        Seq::empty()
    }
}

#[verifier::opaque]
pub open spec fn after_text(s: Seq<u8>, c: Cursor) -> Cursor {
    let end = after_bytes(s, c);
    if end.ok && valid_utf8(bytes_of(s, c)) {
        end
    } else {
        Cursor { at: c.at, ok: false }
    }
}

/// The instruction read, if all of it was there.
pub open spec fn finish(c: Cursor, op: OpView) -> Option<(OpView, int)> {
    if c.ok {
        Some((op, c.at))
    } else {
        None
    }
}

/// The instruction that starts at `at` in `s`, and where the next one starts.
/// There is none where the first byte names no operation, where the stream
/// ends before the instruction does, or where a text is not UTF-8.
pub open spec fn parse_at(s: Seq<u8>, at: int) -> Option<(OpView, int)> {
    let c = Cursor { at, ok: true };
    let code = u8_of(s, c);
    let c0 = after_u8(s, c);
    if !c0.ok {
        None
    }
    else if code == 0 {
        finish(c0, OpView::MountToRoot)
    }
    else if code == 1 {
        let c1 = after_u32(s, c0);
        finish(c1, OpView::PushRoot { root: u32_of(s, c0) })
    }
    else if code == 2 {
        let c1 = after_u32(s, c0);
        let c2 = after_u16(s, c1);
        finish(c2, OpView::AppendChildren { id: u32_of(s, c0), many: u16_of(s, c1) })
    }
    else if code == 3 {
        finish(c0, OpView::PopRoot)
    }
    else if code == 4 {
        let c1 = after_u32(s, c0);
        let c2 = after_u16(s, c1);
        finish(c2, OpView::ReplaceWith { id: u32_of(s, c0), n: u16_of(s, c1) })
    }
    else if code == 5 {
        let c1 = after_u32(s, c0);
        let c2 = after_u16(s, c1);
        finish(c2, OpView::InsertAfter { id: u32_of(s, c0), n: u16_of(s, c1) })
    }
    else if code == 6 {
        let c1 = after_u32(s, c0);
        let c2 = after_u16(s, c1);
        finish(c2, OpView::InsertBefore { id: u32_of(s, c0), n: u16_of(s, c1) })
    }
    else if code == 7 {
        let c1 = after_u32(s, c0);
        finish(c1, OpView::Remove { id: u32_of(s, c0) })
    }
    else if code == 8 {
        let c1 = after_text(s, c0);
        finish(c1, OpView::CreateRawText { text: text_of(s, c0) })
    }
    else if code == 9 {
        let c1 = after_text(s, c0);
        let c2 = after_u32(s, c1);
        finish(c2, OpView::CreateTextNode { text: text_of(s, c0), id: u32_of(s, c1) })
    }
    else if code == 10 {
        let c1 = after_u32(s, c0);
        finish(c1, OpView::CreatePlaceholder { id: u32_of(s, c0) })
    }
    else if code == 11 {
        let c1 = after_u8(s, c0);
        let c2 = after_u32(s, c1);
        let c3 = after_u8(s, c2);
        finish(c3, OpView::NewEventListener { event_name: u8_of(s, c0), id: u32_of(s, c1), bubbles: u8_of(s, c2) })
    }
    else if code == 12 {
        let c1 = after_u8(s, c0);
        let c2 = after_u32(s, c1);
        let c3 = after_u8(s, c2);
        finish(c3, OpView::RemoveEventListener { event_name: u8_of(s, c0), id: u32_of(s, c1), bubbles: u8_of(s, c2) })
    }
    else if code == 13 {
        let c1 = after_u32(s, c0);
        let c2 = after_text(s, c1);
        finish(c2, OpView::SetText { id: u32_of(s, c0), text: text_of(s, c1) })
    }
    else if code == 14 {
        let c1 = after_u32(s, c0);
        let c2 = after_u8(s, c1);
        let c3 = after_text(s, c2);
        let c4 = after_u8(s, c3);
        finish(c4, OpView::SetAttribute { id: u32_of(s, c0), field: u8_of(s, c1), value: text_of(s, c2), ns: u8_of(s, c3) })
    }
    else if code == 15 {
        let c1 = after_u32(s, c0);
        let c2 = after_u8(s, c1);
        let c3 = after_u8(s, c2);
        finish(c3, OpView::RemoveAttribute { id: u32_of(s, c0), field: u8_of(s, c1), ns: u8_of(s, c2) })
    }
    else if code == 16 {
        let c1 = after_u32(s, c0);
        let c2 = after_u8(s, c1);
        let c3 = after_u32(s, c2);
        finish(c3, OpView::AssignId { ptr: u32_of(s, c0), len: u8_of(s, c1), id: u32_of(s, c2) })
    }
    else if code == 17 {
        let c1 = after_u32(s, c0);
        let c2 = after_u8(s, c1);
        let c3 = after_text(s, c2);
        let c4 = after_u32(s, c3);
        finish(c4, OpView::HydrateText { ptr: u32_of(s, c0), len: u8_of(s, c1), value: text_of(s, c2), id: u32_of(s, c3) })
    }
    else if code == 18 {
        let c1 = after_u32(s, c0);
        let c2 = after_u8(s, c1);
        let c3 = after_u16(s, c2);
        finish(c3, OpView::ReplacePlaceholder { ptr: u32_of(s, c0), len: u8_of(s, c1), n: u16_of(s, c2) })
    }
    else if code == 19 {
        let c1 = after_u16(s, c0);
        let c2 = after_u16(s, c1);
        let c3 = after_u32(s, c2);
        finish(c3, OpView::LoadTemplate { tmpl_id: u16_of(s, c0), index: u16_of(s, c1), id: u32_of(s, c2) })
    }
    else if code == 20 {
        let c1 = after_u16(s, c0);
        finish(c1, OpView::AppendChildrenToTop { many: u16_of(s, c0) })
    }
    else if code == 21 {
        let c1 = after_u8(s, c0);
        let c2 = after_text(s, c1);
        let c3 = after_u8(s, c2);
        finish(c3, OpView::SetTopAttribute { field: u8_of(s, c0), value: text_of(s, c1), ns: u8_of(s, c2) })
    }
    else if code == 22 {
        finish(c0, OpView::AddPlaceholder)
    }
    else if code == 23 {
        let c1 = after_u8(s, c0);
        finish(c1, OpView::CreateElement { element: u8_of(s, c0) })
    }
    else if code == 24 {
        let c1 = after_u8(s, c0);
        let c2 = after_u8(s, c1);
        finish(c2, OpView::CreateElementNs { element: u8_of(s, c0), ns: u8_of(s, c1) })
    }
    else if code == 25 {
        let c1 = after_u16(s, c0);
        let c2 = after_u16(s, c1);
        finish(c2, OpView::AddTemplates { tmpl_id: u16_of(s, c0), len: u16_of(s, c1) })
    }
    else if code == 26 {
        let c1 = after_u8(s, c0);
        let c2 = after_u32(s, c1);
        let c3 = after_u8(s, c2);
        finish(c3, OpView::ForeignEventListener { event: u8_of(s, c0), id: u32_of(s, c1), bubbles: u8_of(s, c2) })
    }
    else if code == 27 {
        let c1 = after_bytes(s, c0);
        let c2 = after_u32(s, c1);
        finish(c2, OpView::AssignIdRef { array: bytes_of(s, c0), id: u32_of(s, c1) })
    }
    else if code == 28 {
        let c1 = after_bytes(s, c0);
        let c2 = after_text(s, c1);
        let c3 = after_u32(s, c2);
        finish(c3, OpView::HydrateTextRef { array: bytes_of(s, c0), value: text_of(s, c1), id: u32_of(s, c2) })
    }
    else if code == 29 {
        let c1 = after_bytes(s, c0);
        let c2 = after_u16(s, c1);
        finish(c2, OpView::ReplacePlaceholderRef { array: bytes_of(s, c0), n: u16_of(s, c1) })
    }
    else if code == 30 {
        let c1 = after_u8(s, c0);
        let c2 = after_u8(s, c1);
        let c3 = after_text(s, c2);
        finish(c3, OpView::DefineName { kind: u8_of(s, c0), code: u8_of(s, c1), name: text_of(s, c2) })
    }
    else {
        None
    }
}

/// core's `str::from_utf8`: the bytes as a string where they are UTF-8, and
/// nothing where they are not. The string is made of the very bytes given.
#[verifier::external_body]
fn utf8_text(bytes: &[u8]) -> (r: Option<&str>)
    ensures
        r is Some <==> valid_utf8(bytes@),
        r matches Some(t) ==> t.spec_bytes() == bytes@,
{
    match core::str::from_utf8(bytes) {
        Ok(t) => Some(t),
        Err(_) => None,
    }
}

/// A stream that is being read.
pub struct Reader<'a> {
    pub bytes: &'a [u8],
    pub at: usize,
    pub ok: bool,
}

impl<'a> Reader<'a> {
    pub open spec fn cursor(&self) -> Cursor {
        Cursor { at: self.at as int, ok: self.ok }
    }

    fn take(&mut self, n: usize) -> (start: usize)
        requires
            old(self).at <= old(self).bytes@.len(),
        ensures
            final(self).bytes == old(self).bytes,
            final(self).cursor() == advance(old(self).bytes@, old(self).cursor(), n as int),
            old(self).at <= final(self).at <= final(self).bytes@.len(),
            start == old(self).at,
    {
        let start = self.at;
        if self.ok && n <= self.bytes.len() - self.at {
            self.at = self.at + n;
        } else {
            self.ok = false;
        }
        start
    }

    fn u8(&mut self) -> (v: u8)
        requires
            old(self).at <= old(self).bytes@.len(),
        ensures
            final(self).bytes == old(self).bytes,
            final(self).cursor() == after_u8(old(self).bytes@, old(self).cursor()),
            old(self).at <= final(self).at <= final(self).bytes@.len(),
            final(self).ok ==> old(self).at < final(self).at,
            v == u8_of(old(self).bytes@, old(self).cursor()),
    {
        proof {
            reveal(u8_of);
            reveal(after_u8);
        }
        let i = self.take(1);
        if self.ok {
            self.bytes[i]
        } else {
            0
        }
    }

    fn u16(&mut self) -> (v: u16)
        requires
            old(self).at <= old(self).bytes@.len(),
        ensures
            final(self).bytes == old(self).bytes,
            final(self).cursor() == after_u16(old(self).bytes@, old(self).cursor()),
            old(self).at <= final(self).at <= final(self).bytes@.len(),
            v == u16_of(old(self).bytes@, old(self).cursor()),
    {
        proof {
            reveal(u16_of);
            reveal(after_u16);
        }
        let i = self.take(2);
        if self.ok {
            self.bytes[i] as u16 + 256 * (self.bytes[i + 1] as u16)
        } else {
            0
        }
    }

    fn u32(&mut self) -> (v: u32)
        requires
            old(self).at <= old(self).bytes@.len(),
        ensures
            final(self).bytes == old(self).bytes,
            final(self).cursor() == after_u32(old(self).bytes@, old(self).cursor()),
            old(self).at <= final(self).at <= final(self).bytes@.len(),
            v == u32_of(old(self).bytes@, old(self).cursor()),
    {
        proof {
            reveal(u32_of);
            reveal(after_u32);
        }
        let i = self.take(4);
        if self.ok {
            self.bytes[i] as u32 + 256 * (self.bytes[i + 1] as u32) + 65536 * (self.bytes[i
                + 2] as u32) + 16777216 * (self.bytes[i + 3] as u32)
        } else {
            0
        }
    }

    fn span(&mut self) -> (v: &'a [u8])
        requires
            old(self).at <= old(self).bytes@.len(),
        ensures
            final(self).bytes == old(self).bytes,
            final(self).cursor() == after_bytes(old(self).bytes@, old(self).cursor()),
            old(self).at <= final(self).at <= final(self).bytes@.len(),
            v@ == bytes_of(old(self).bytes@, old(self).cursor()),
    {
        proof {
            reveal(bytes_of);
            reveal(after_bytes);
        }
        let n = self.u32();
        let i = self.take(n as usize);
        let bytes = self.bytes;
        if self.ok {
            let v = &bytes[i..i + n as usize];
            v
        } else {
            let v = &bytes[0..0];
            assert(v@ =~= Seq::<u8>::empty());
            v
        }
    }

    fn bytes(&mut self) -> (v: Vec<u8>)
        requires
            old(self).at <= old(self).bytes@.len(),
        ensures
            final(self).bytes == old(self).bytes,
            final(self).cursor() == after_bytes(old(self).bytes@, old(self).cursor()),
            old(self).at <= final(self).at <= final(self).bytes@.len(),
            v@ == bytes_of(old(self).bytes@, old(self).cursor()),
    {
        let run = self.span();
        let mut v: Vec<u8> = Vec::new();
        let mut i: usize = 0;
        while i < run.len()
            invariant
                i <= run@.len(),
                v@ == run@.take(i as int),
            decreases run@.len() - i,
        {
            v.push(run[i]);
            assert(v@ =~= run@.take(i + 1));
            i += 1;
        }
        assert(run@.take(i as int) =~= run@);
        v
    }

    fn text(&mut self) -> (v: String)
        requires
            old(self).at <= old(self).bytes@.len(),
        ensures
            final(self).bytes == old(self).bytes,
            final(self).cursor() == after_text(old(self).bytes@, old(self).cursor()),
            old(self).at <= final(self).at <= final(self).bytes@.len(),
            v@ == text_of(old(self).bytes@, old(self).cursor()),
    {
        proof {
            reveal(text_of);
            reveal(after_text);
            reveal(after_bytes);
        }
        let start = self.at;
        let run = self.span();
        if !self.ok {
            self.at = start;
            return String::new();
        }
        match utf8_text(run) {
            Some(t) => {
                proof {
                    encode_utf8_decode_utf8(t@);
                }
                t.to_owned()
            },
            None => {
                self.at = start;
                self.ok = false;
                String::new()
            },
        }
    }
}

/// Reads the instruction that starts at `at`, and says where the next one
/// starts.
pub fn decode(stream: &[u8], at: usize) -> (r: Option<(Op, usize)>)
    requires
        at <= stream@.len(),
    ensures
        match r {
            Some((op, next)) => parse_at(stream@, at as int) == Some((op@, next as int)) && at
                < next <= stream@.len(),
            None => parse_at(stream@, at as int) is None,
        },
{
    let mut rd = Reader { bytes: stream, at, ok: true };
    let code = rd.u8();
    if !rd.ok {
        return None;
    }
    let op =
    if code == 0 {
        Op::MountToRoot
    } else if code == 1 {
        let root = rd.u32();
        Op::PushRoot { root }
    } else if code == 2 {
        let id = rd.u32();
        let many = rd.u16();
        Op::AppendChildren { id, many }
    } else if code == 3 {
        Op::PopRoot
    } else if code == 4 {
        let id = rd.u32();
        let n = rd.u16();
        Op::ReplaceWith { id, n }
    } else if code == 5 {
        let id = rd.u32();
        let n = rd.u16();
        Op::InsertAfter { id, n }
    } else if code == 6 {
        let id = rd.u32();
        let n = rd.u16();
        Op::InsertBefore { id, n }
    } else if code == 7 {
        let id = rd.u32();
        Op::Remove { id }
    } else if code == 8 {
        let text = rd.text();
        Op::CreateRawText { text }
    } else if code == 9 {
        let text = rd.text();
        let id = rd.u32();
        Op::CreateTextNode { text, id }
    } else if code == 10 {
        let id = rd.u32();
        Op::CreatePlaceholder { id }
    } else if code == 11 {
        let event_name = rd.u8();
        let id = rd.u32();
        let bubbles = rd.u8();
        Op::NewEventListener { event_name, id, bubbles }
    } else if code == 12 {
        let event_name = rd.u8();
        let id = rd.u32();
        let bubbles = rd.u8();
        Op::RemoveEventListener { event_name, id, bubbles }
    } else if code == 13 {
        let id = rd.u32();
        let text = rd.text();
        Op::SetText { id, text }
    } else if code == 14 {
        let id = rd.u32();
        let field = rd.u8();
        let value = rd.text();
        let ns = rd.u8();
        Op::SetAttribute { id, field, value, ns }
    } else if code == 15 {
        let id = rd.u32();
        let field = rd.u8();
        let ns = rd.u8();
        Op::RemoveAttribute { id, field, ns }
    } else if code == 16 {
        let ptr = rd.u32();
        let len = rd.u8();
        let id = rd.u32();
        Op::AssignId { ptr, len, id }
    } else if code == 17 {
        let ptr = rd.u32();
        let len = rd.u8();
        let value = rd.text();
        let id = rd.u32();
        Op::HydrateText { ptr, len, value, id }
    } else if code == 18 {
        let ptr = rd.u32();
        let len = rd.u8();
        let n = rd.u16();
        Op::ReplacePlaceholder { ptr, len, n }
    } else if code == 19 {
        let tmpl_id = rd.u16();
        let index = rd.u16();
        let id = rd.u32();
        Op::LoadTemplate { tmpl_id, index, id }
    } else if code == 20 {
        let many = rd.u16();
        Op::AppendChildrenToTop { many }
    } else if code == 21 {
        let field = rd.u8();
        let value = rd.text();
        let ns = rd.u8();
        Op::SetTopAttribute { field, value, ns }
    } else if code == 22 {
        Op::AddPlaceholder
    } else if code == 23 {
        let element = rd.u8();
        Op::CreateElement { element }
    } else if code == 24 {
        let element = rd.u8();
        let ns = rd.u8();
        Op::CreateElementNs { element, ns }
    } else if code == 25 {
        let tmpl_id = rd.u16();
        let len = rd.u16();
        Op::AddTemplates { tmpl_id, len }
    } else if code == 26 {
        let event = rd.u8();
        let id = rd.u32();
        let bubbles = rd.u8();
        Op::ForeignEventListener { event, id, bubbles }
    } else if code == 27 {
        let array = rd.bytes();
        let id = rd.u32();
        Op::AssignIdRef { array, id }
    } else if code == 28 {
        let array = rd.bytes();
        let value = rd.text();
        let id = rd.u32();
        Op::HydrateTextRef { array, value, id }
    } else if code == 29 {
        let array = rd.bytes();
        let n = rd.u16();
        Op::ReplacePlaceholderRef { array, n }
    } else if code == 30 {
        let kind = rd.u8();
        let code = rd.u8();
        let name = rd.text();
        Op::DefineName { kind, code, name }
    } else {
        return None;
    };
    if rd.ok {
        Some((op, rd.at))
    } else {
        None
    }
}

/// The two bytes of `v`, the low one first.
pub open spec fn le16(v: u16) -> Seq<u8> {
    seq![(v % 256) as u8, (v / 256) as u8]
}

/// The four bytes of `v`, the lowest first.
pub open spec fn le32(v: u32) -> Seq<u8> {
    seq![
        (v % 256) as u8,
        ((v / 256) % 256) as u8,
        ((v / 65536) % 256) as u8,
        (v / 16777216) as u8,
    ]
}

/// A run of bytes behind its length.
pub open spec fn framed(b: Seq<u8>) -> Seq<u8> {
    le32(b.len() as u32) + b
}

/// A text as it stands in a stream.
pub open spec fn text_bytes(t: Seq<char>) -> Seq<u8> {
    framed(encode_utf8(t))
}

/// Whether a text is short enough for its length to be written.
pub open spec fn text_fits(t: Seq<char>) -> bool {
    encode_utf8(t).len() <= u32::MAX
}

/// Whether a run of bytes is short enough for its length to be written.
pub open spec fn run_fits(b: Seq<u8>) -> bool {
    b.len() <= u32::MAX
}

/// Whether an instruction can be written: its texts and paths are short
/// enough for their lengths to be written.
pub open spec fn encodable(op: OpView) -> bool {
    match op {
        OpView::MountToRoot => true,
        OpView::PushRoot { root } => true,
        OpView::AppendChildren { id, many } => true,
        OpView::PopRoot => true,
        OpView::ReplaceWith { id, n } => true,
        OpView::InsertAfter { id, n } => true,
        OpView::InsertBefore { id, n } => true,
        OpView::Remove { id } => true,
        OpView::CreateRawText { text } => text_fits(text),
        OpView::CreateTextNode { text, id } => text_fits(text),
        OpView::CreatePlaceholder { id } => true,
        OpView::NewEventListener { event_name, id, bubbles } => true,
        OpView::RemoveEventListener { event_name, id, bubbles } => true,
        OpView::SetText { id, text } => text_fits(text),
        OpView::SetAttribute { id, field, value, ns } => text_fits(value),
        OpView::RemoveAttribute { id, field, ns } => true,
        OpView::AssignId { ptr, len, id } => true,
        OpView::HydrateText { ptr, len, value, id } => text_fits(value),
        OpView::ReplacePlaceholder { ptr, len, n } => true,
        OpView::LoadTemplate { tmpl_id, index, id } => true,
        OpView::AppendChildrenToTop { many } => true,
        OpView::SetTopAttribute { field, value, ns } => text_fits(value),
        OpView::AddPlaceholder => true,
        OpView::CreateElement { element } => true,
        OpView::CreateElementNs { element, ns } => true,
        OpView::AddTemplates { tmpl_id, len } => true,
        OpView::ForeignEventListener { event, id, bubbles } => true,
        OpView::AssignIdRef { array, id } => run_fits(array),
        OpView::HydrateTextRef { array, value, id } => run_fits(array) && text_fits(value),
        OpView::ReplacePlaceholderRef { array, n } => run_fits(array),
        OpView::DefineName { kind, code, name } => text_fits(name),
    }
}

/// The bytes of an instruction: the byte that names the operation, and the
/// fields in their order.
pub open spec fn encoding(op: OpView) -> Seq<u8> {
    match op {
        OpView::MountToRoot => seq![0u8] + (Seq::<u8>::empty()),
        OpView::PushRoot { root } => seq![1u8] + (le32(root) + (Seq::<u8>::empty())),
        OpView::AppendChildren { id, many } => seq![2u8] + (le32(id) + (le16(many) + (Seq::<u8>::empty()))),
        OpView::PopRoot => seq![3u8] + (Seq::<u8>::empty()),
        OpView::ReplaceWith { id, n } => seq![4u8] + (le32(id) + (le16(n) + (Seq::<u8>::empty()))),
        OpView::InsertAfter { id, n } => seq![5u8] + (le32(id) + (le16(n) + (Seq::<u8>::empty()))),
        OpView::InsertBefore { id, n } => seq![6u8] + (le32(id) + (le16(n) + (Seq::<u8>::empty()))),
        OpView::Remove { id } => seq![7u8] + (le32(id) + (Seq::<u8>::empty())),
        OpView::CreateRawText { text } => seq![8u8] + (text_bytes(text) + (Seq::<u8>::empty())),
        OpView::CreateTextNode { text, id } => seq![9u8] + (text_bytes(text) + (le32(id) + (Seq::<u8>::empty()))),
        OpView::CreatePlaceholder { id } => seq![10u8] + (le32(id) + (Seq::<u8>::empty())),
        OpView::NewEventListener { event_name, id, bubbles } => seq![11u8] + (seq![event_name] + (le32(id) + (seq![bubbles] + (Seq::<u8>::empty())))),
        OpView::RemoveEventListener { event_name, id, bubbles } => seq![12u8] + (seq![event_name] + (le32(id) + (seq![bubbles] + (Seq::<u8>::empty())))),
        OpView::SetText { id, text } => seq![13u8] + (le32(id) + (text_bytes(text) + (Seq::<u8>::empty()))),
        OpView::SetAttribute { id, field, value, ns } => seq![14u8] + (le32(id) + (seq![field] + (text_bytes(value) + (seq![ns] + (Seq::<u8>::empty()))))),
        OpView::RemoveAttribute { id, field, ns } => seq![15u8] + (le32(id) + (seq![field] + (seq![ns] + (Seq::<u8>::empty())))),
        OpView::AssignId { ptr, len, id } => seq![16u8] + (le32(ptr) + (seq![len] + (le32(id) + (Seq::<u8>::empty())))),
        OpView::HydrateText { ptr, len, value, id } => seq![17u8] + (le32(ptr) + (seq![len] + (text_bytes(value) + (le32(id) + (Seq::<u8>::empty()))))),
        OpView::ReplacePlaceholder { ptr, len, n } => seq![18u8] + (le32(ptr) + (seq![len] + (le16(n) + (Seq::<u8>::empty())))),
        OpView::LoadTemplate { tmpl_id, index, id } => seq![19u8] + (le16(tmpl_id) + (le16(index) + (le32(id) + (Seq::<u8>::empty())))),
        OpView::AppendChildrenToTop { many } => seq![20u8] + (le16(many) + (Seq::<u8>::empty())),
        OpView::SetTopAttribute { field, value, ns } => seq![21u8] + (seq![field] + (text_bytes(value) + (seq![ns] + (Seq::<u8>::empty())))),
        OpView::AddPlaceholder => seq![22u8] + (Seq::<u8>::empty()),
        OpView::CreateElement { element } => seq![23u8] + (seq![element] + (Seq::<u8>::empty())),
        OpView::CreateElementNs { element, ns } => seq![24u8] + (seq![element] + (seq![ns] + (Seq::<u8>::empty()))),
        OpView::AddTemplates { tmpl_id, len } => seq![25u8] + (le16(tmpl_id) + (le16(len) + (Seq::<u8>::empty()))),
        OpView::ForeignEventListener { event, id, bubbles } => seq![26u8] + (seq![event] + (le32(id) + (seq![bubbles] + (Seq::<u8>::empty())))),
        OpView::AssignIdRef { array, id } => seq![27u8] + (framed(array) + (le32(id) + (Seq::<u8>::empty()))),
        OpView::HydrateTextRef { array, value, id } => seq![28u8] + (framed(array) + (text_bytes(value) + (le32(id) + (Seq::<u8>::empty())))),
        OpView::ReplacePlaceholderRef { array, n } => seq![29u8] + (framed(array) + (le16(n) + (Seq::<u8>::empty()))),
        OpView::DefineName { kind, code, name } => seq![30u8] + (seq![kind] + (seq![code] + (text_bytes(name) + (Seq::<u8>::empty())))),
    }
}

/// The bytes `e` stand in `s` at the place `at`.
pub open spec fn starts_with(s: Seq<u8>, at: int, e: Seq<u8>) -> bool {
    0 <= at && at + e.len() <= s.len() && s.subrange(at, at + e.len()) == e
}

proof fn lemma_split(s: Seq<u8>, at: int, a: Seq<u8>, b: Seq<u8>)
    requires
        starts_with(s, at, a + b),
    ensures
        starts_with(s, at, a),
        starts_with(s, at + a.len(), b),
{
    let e = a + b;
    let w = s.subrange(at, at + e.len());
    assert forall|i: int| 0 <= i < a.len() implies s[at + i] == a[i] by {
        assert(w[i] == e[i]);
    }
    assert forall|i: int| 0 <= i < b.len() implies s[at + a.len() + i] == b[i] by {
        assert(w[a.len() + i] == e[a.len() + i]);
    }
    assert(s.subrange(at, at + a.len()) =~= a);
    assert(s.subrange(at + a.len(), at + a.len() + b.len()) =~= b);
}

proof fn lemma_u8(s: Seq<u8>, c: Cursor, v: u8, rest: Seq<u8>)
    requires
        c.ok,
        starts_with(s, c.at, seq![v] + rest),
    ensures
        u8_of(s, c) == v,
        after_u8(s, c) == (Cursor { at: c.at + 1, ok: true }),
        starts_with(s, c.at + 1, rest),
{
    reveal(u8_of);
    reveal(after_u8);
    lemma_split(s, c.at, seq![v], rest);
    assert(s.subrange(c.at, c.at + 1)[0] == v);
}

proof fn lemma_u16(s: Seq<u8>, c: Cursor, v: u16, rest: Seq<u8>)
    requires
        c.ok,
        starts_with(s, c.at, le16(v) + rest),
    ensures
        u16_of(s, c) == v,
        after_u16(s, c) == (Cursor { at: c.at + 2, ok: true }),
        starts_with(s, c.at + 2, rest),
{
    reveal(u16_of);
    reveal(after_u16);
    lemma_split(s, c.at, le16(v), rest);
    let w = s.subrange(c.at, c.at + 2);
    assert(w[0] == le16(v)[0]);
    assert(w[1] == le16(v)[1]);
}

proof fn lemma_u32(s: Seq<u8>, c: Cursor, v: u32, rest: Seq<u8>)
    requires
        c.ok,
        starts_with(s, c.at, le32(v) + rest),
    ensures
        u32_of(s, c) == v,
        after_u32(s, c) == (Cursor { at: c.at + 4, ok: true }),
        starts_with(s, c.at + 4, rest),
{
    reveal(u32_of);
    reveal(after_u32);
    lemma_split(s, c.at, le32(v), rest);
    let w = s.subrange(c.at, c.at + 4);
    assert(w[0] == le32(v)[0]);
    assert(w[1] == le32(v)[1]);
    assert(w[2] == le32(v)[2]);
    assert(w[3] == le32(v)[3]);
}

proof fn lemma_bytes(s: Seq<u8>, c: Cursor, b: Seq<u8>, rest: Seq<u8>)
    requires
        c.ok,
        run_fits(b),
        starts_with(s, c.at, framed(b) + rest),
    ensures
        bytes_of(s, c) == b,
        after_bytes(s, c) == (Cursor { at: c.at + 4 + b.len(), ok: true }),
        starts_with(s, c.at + 4 + b.len(), rest),
{
    reveal(bytes_of);
    reveal(after_bytes);
    lemma_split(s, c.at, framed(b), rest);
    lemma_u32(s, c, b.len() as u32, b);
}

proof fn lemma_text(s: Seq<u8>, c: Cursor, t: Seq<char>, rest: Seq<u8>)
    requires
        c.ok,
        text_fits(t),
        starts_with(s, c.at, text_bytes(t) + rest),
    ensures
        text_of(s, c) == t,
        after_text(s, c) == (Cursor { at: c.at + 4 + encode_utf8(t).len(), ok: true }),
        starts_with(s, c.at + 4 + encode_utf8(t).len(), rest),
{
    reveal(text_of);
    reveal(after_text);
    lemma_bytes(s, c, encode_utf8(t), rest);
    vstd::utf8::encode_utf8_valid_utf8(t);
    encode_utf8_decode_utf8(t);
}

proof fn lemma_reads_mount_to_root(s: Seq<u8>, at: int)
    requires
        encodable(OpView::MountToRoot),
        starts_with(s, at, encoding(OpView::MountToRoot)),
    ensures
        parse_at(s, at) == Some((OpView::MountToRoot, at + encoding(OpView::MountToRoot).len())),
{
    let c = Cursor { at, ok: true };
    lemma_u8(s, c, 0u8, Seq::<u8>::empty());
    let c0 = after_u8(s, c);
}

proof fn lemma_reads_push_root(s: Seq<u8>, at: int, root: u32)
    requires
        encodable(OpView::PushRoot { root }),
        starts_with(s, at, encoding(OpView::PushRoot { root })),
    ensures
        parse_at(s, at) == Some((OpView::PushRoot { root }, at + encoding(OpView::PushRoot { root }).len())),
{
    let c = Cursor { at, ok: true };
    lemma_u8(s, c, 1u8, le32(root) + (Seq::<u8>::empty()));
    let c0 = after_u8(s, c);
    lemma_u32(s, c0, root, Seq::<u8>::empty());
    let c1 = after_u32(s, c0);
}

proof fn lemma_reads_append_children(s: Seq<u8>, at: int, id: u32, many: u16)
    requires
        encodable(OpView::AppendChildren { id, many }),
        starts_with(s, at, encoding(OpView::AppendChildren { id, many })),
    ensures
        parse_at(s, at) == Some((OpView::AppendChildren { id, many }, at + encoding(OpView::AppendChildren { id, many }).len())),
{
    let c = Cursor { at, ok: true };
    lemma_u8(s, c, 2u8, le32(id) + (le16(many) + (Seq::<u8>::empty())));
    let c0 = after_u8(s, c);
    lemma_u32(s, c0, id, le16(many) + (Seq::<u8>::empty()));
    let c1 = after_u32(s, c0);
    lemma_u16(s, c1, many, Seq::<u8>::empty());
    let c2 = after_u16(s, c1);
}

proof fn lemma_reads_pop_root(s: Seq<u8>, at: int)
    requires
        encodable(OpView::PopRoot),
        starts_with(s, at, encoding(OpView::PopRoot)),
    ensures
        parse_at(s, at) == Some((OpView::PopRoot, at + encoding(OpView::PopRoot).len())),
{
    let c = Cursor { at, ok: true };
    lemma_u8(s, c, 3u8, Seq::<u8>::empty());
    let c0 = after_u8(s, c);
}

proof fn lemma_reads_replace_with(s: Seq<u8>, at: int, id: u32, n: u16)
    requires
        encodable(OpView::ReplaceWith { id, n }),
        starts_with(s, at, encoding(OpView::ReplaceWith { id, n })),
    ensures
        parse_at(s, at) == Some((OpView::ReplaceWith { id, n }, at + encoding(OpView::ReplaceWith { id, n }).len())),
{
    let c = Cursor { at, ok: true };
    lemma_u8(s, c, 4u8, le32(id) + (le16(n) + (Seq::<u8>::empty())));
    let c0 = after_u8(s, c);
    lemma_u32(s, c0, id, le16(n) + (Seq::<u8>::empty()));
    let c1 = after_u32(s, c0);
    lemma_u16(s, c1, n, Seq::<u8>::empty());
    let c2 = after_u16(s, c1);
}

proof fn lemma_reads_insert_after(s: Seq<u8>, at: int, id: u32, n: u16)
    requires
        encodable(OpView::InsertAfter { id, n }),
        starts_with(s, at, encoding(OpView::InsertAfter { id, n })),
    ensures
        parse_at(s, at) == Some((OpView::InsertAfter { id, n }, at + encoding(OpView::InsertAfter { id, n }).len())),
{
    let c = Cursor { at, ok: true };
    lemma_u8(s, c, 5u8, le32(id) + (le16(n) + (Seq::<u8>::empty())));
    let c0 = after_u8(s, c);
    lemma_u32(s, c0, id, le16(n) + (Seq::<u8>::empty()));
    let c1 = after_u32(s, c0);
    lemma_u16(s, c1, n, Seq::<u8>::empty());
    let c2 = after_u16(s, c1);
}

proof fn lemma_reads_insert_before(s: Seq<u8>, at: int, id: u32, n: u16)
    requires
        encodable(OpView::InsertBefore { id, n }),
        starts_with(s, at, encoding(OpView::InsertBefore { id, n })),
    ensures
        parse_at(s, at) == Some((OpView::InsertBefore { id, n }, at + encoding(OpView::InsertBefore { id, n }).len())),
{
    let c = Cursor { at, ok: true };
    lemma_u8(s, c, 6u8, le32(id) + (le16(n) + (Seq::<u8>::empty())));
    let c0 = after_u8(s, c);
    lemma_u32(s, c0, id, le16(n) + (Seq::<u8>::empty()));
    let c1 = after_u32(s, c0);
    lemma_u16(s, c1, n, Seq::<u8>::empty());
    let c2 = after_u16(s, c1);
}

proof fn lemma_reads_remove(s: Seq<u8>, at: int, id: u32)
    requires
        encodable(OpView::Remove { id }),
        starts_with(s, at, encoding(OpView::Remove { id })),
    ensures
        parse_at(s, at) == Some((OpView::Remove { id }, at + encoding(OpView::Remove { id }).len())),
{
    let c = Cursor { at, ok: true };
    lemma_u8(s, c, 7u8, le32(id) + (Seq::<u8>::empty()));
    let c0 = after_u8(s, c);
    lemma_u32(s, c0, id, Seq::<u8>::empty());
    let c1 = after_u32(s, c0);
}

proof fn lemma_reads_create_raw_text(s: Seq<u8>, at: int, text: Seq<char>)
    requires
        encodable(OpView::CreateRawText { text }),
        starts_with(s, at, encoding(OpView::CreateRawText { text })),
    ensures
        parse_at(s, at) == Some((OpView::CreateRawText { text }, at + encoding(OpView::CreateRawText { text }).len())),
{
    let c = Cursor { at, ok: true };
    lemma_u8(s, c, 8u8, text_bytes(text) + (Seq::<u8>::empty()));
    let c0 = after_u8(s, c);
    lemma_text(s, c0, text, Seq::<u8>::empty());
    let c1 = after_text(s, c0);
}

proof fn lemma_reads_create_text_node(s: Seq<u8>, at: int, text: Seq<char>, id: u32)
    requires
        encodable(OpView::CreateTextNode { text, id }),
        starts_with(s, at, encoding(OpView::CreateTextNode { text, id })),
    ensures
        parse_at(s, at) == Some((OpView::CreateTextNode { text, id }, at + encoding(OpView::CreateTextNode { text, id }).len())),
{
    let c = Cursor { at, ok: true };
    lemma_u8(s, c, 9u8, text_bytes(text) + (le32(id) + (Seq::<u8>::empty())));
    let c0 = after_u8(s, c);
    lemma_text(s, c0, text, le32(id) + (Seq::<u8>::empty()));
    let c1 = after_text(s, c0);
    lemma_u32(s, c1, id, Seq::<u8>::empty());
    let c2 = after_u32(s, c1);
}

proof fn lemma_reads_create_placeholder(s: Seq<u8>, at: int, id: u32)
    requires
        encodable(OpView::CreatePlaceholder { id }),
        starts_with(s, at, encoding(OpView::CreatePlaceholder { id })),
    ensures
        parse_at(s, at) == Some((OpView::CreatePlaceholder { id }, at + encoding(OpView::CreatePlaceholder { id }).len())),
{
    let c = Cursor { at, ok: true };
    lemma_u8(s, c, 10u8, le32(id) + (Seq::<u8>::empty()));
    let c0 = after_u8(s, c);
    lemma_u32(s, c0, id, Seq::<u8>::empty());
    let c1 = after_u32(s, c0);
}

proof fn lemma_reads_new_event_listener(s: Seq<u8>, at: int, event_name: u8, id: u32, bubbles: u8)
    requires
        encodable(OpView::NewEventListener { event_name, id, bubbles }),
        starts_with(s, at, encoding(OpView::NewEventListener { event_name, id, bubbles })),
    ensures
        parse_at(s, at) == Some((OpView::NewEventListener { event_name, id, bubbles }, at + encoding(OpView::NewEventListener { event_name, id, bubbles }).len())),
{
    let c = Cursor { at, ok: true };
    lemma_u8(s, c, 11u8, seq![event_name] + (le32(id) + (seq![bubbles] + (Seq::<u8>::empty()))));
    let c0 = after_u8(s, c);
    lemma_u8(s, c0, event_name, le32(id) + (seq![bubbles] + (Seq::<u8>::empty())));
    let c1 = after_u8(s, c0);
    lemma_u32(s, c1, id, seq![bubbles] + (Seq::<u8>::empty()));
    let c2 = after_u32(s, c1);
    lemma_u8(s, c2, bubbles, Seq::<u8>::empty());
    let c3 = after_u8(s, c2);
}

proof fn lemma_reads_remove_event_listener(s: Seq<u8>, at: int, event_name: u8, id: u32, bubbles: u8)
    requires
        encodable(OpView::RemoveEventListener { event_name, id, bubbles }),
        starts_with(s, at, encoding(OpView::RemoveEventListener { event_name, id, bubbles })),
    ensures
        parse_at(s, at) == Some((OpView::RemoveEventListener { event_name, id, bubbles }, at + encoding(OpView::RemoveEventListener { event_name, id, bubbles }).len())),
{
    let c = Cursor { at, ok: true };
    lemma_u8(s, c, 12u8, seq![event_name] + (le32(id) + (seq![bubbles] + (Seq::<u8>::empty()))));
    let c0 = after_u8(s, c);
    lemma_u8(s, c0, event_name, le32(id) + (seq![bubbles] + (Seq::<u8>::empty())));
    let c1 = after_u8(s, c0);
    lemma_u32(s, c1, id, seq![bubbles] + (Seq::<u8>::empty()));
    let c2 = after_u32(s, c1);
    lemma_u8(s, c2, bubbles, Seq::<u8>::empty());
    let c3 = after_u8(s, c2);
}

proof fn lemma_reads_set_text(s: Seq<u8>, at: int, id: u32, text: Seq<char>)
    requires
        encodable(OpView::SetText { id, text }),
        starts_with(s, at, encoding(OpView::SetText { id, text })),
    ensures
        parse_at(s, at) == Some((OpView::SetText { id, text }, at + encoding(OpView::SetText { id, text }).len())),
{
    let c = Cursor { at, ok: true };
    lemma_u8(s, c, 13u8, le32(id) + (text_bytes(text) + (Seq::<u8>::empty())));
    let c0 = after_u8(s, c);
    lemma_u32(s, c0, id, text_bytes(text) + (Seq::<u8>::empty()));
    let c1 = after_u32(s, c0);
    lemma_text(s, c1, text, Seq::<u8>::empty());
    let c2 = after_text(s, c1);
}

proof fn lemma_reads_set_attribute(s: Seq<u8>, at: int, id: u32, field: u8, value: Seq<char>, ns: u8)
    requires
        encodable(OpView::SetAttribute { id, field, value, ns }),
        starts_with(s, at, encoding(OpView::SetAttribute { id, field, value, ns })),
    ensures
        parse_at(s, at) == Some((OpView::SetAttribute { id, field, value, ns }, at + encoding(OpView::SetAttribute { id, field, value, ns }).len())),
{
    let c = Cursor { at, ok: true };
    lemma_u8(s, c, 14u8, le32(id) + (seq![field] + (text_bytes(value) + (seq![ns] + (Seq::<u8>::empty())))));
    let c0 = after_u8(s, c);
    lemma_u32(s, c0, id, seq![field] + (text_bytes(value) + (seq![ns] + (Seq::<u8>::empty()))));
    let c1 = after_u32(s, c0);
    lemma_u8(s, c1, field, text_bytes(value) + (seq![ns] + (Seq::<u8>::empty())));
    let c2 = after_u8(s, c1);
    lemma_text(s, c2, value, seq![ns] + (Seq::<u8>::empty()));
    let c3 = after_text(s, c2);
    lemma_u8(s, c3, ns, Seq::<u8>::empty());
    let c4 = after_u8(s, c3);
}

proof fn lemma_reads_remove_attribute(s: Seq<u8>, at: int, id: u32, field: u8, ns: u8)
    requires
        encodable(OpView::RemoveAttribute { id, field, ns }),
        starts_with(s, at, encoding(OpView::RemoveAttribute { id, field, ns })),
    ensures
        parse_at(s, at) == Some((OpView::RemoveAttribute { id, field, ns }, at + encoding(OpView::RemoveAttribute { id, field, ns }).len())),
{
    let c = Cursor { at, ok: true };
    lemma_u8(s, c, 15u8, le32(id) + (seq![field] + (seq![ns] + (Seq::<u8>::empty()))));
    let c0 = after_u8(s, c);
    lemma_u32(s, c0, id, seq![field] + (seq![ns] + (Seq::<u8>::empty())));
    let c1 = after_u32(s, c0);
    lemma_u8(s, c1, field, seq![ns] + (Seq::<u8>::empty()));
    let c2 = after_u8(s, c1);
    lemma_u8(s, c2, ns, Seq::<u8>::empty());
    let c3 = after_u8(s, c2);
}

proof fn lemma_reads_assign_id(s: Seq<u8>, at: int, ptr: u32, len: u8, id: u32)
    requires
        encodable(OpView::AssignId { ptr, len, id }),
        starts_with(s, at, encoding(OpView::AssignId { ptr, len, id })),
    ensures
        parse_at(s, at) == Some((OpView::AssignId { ptr, len, id }, at + encoding(OpView::AssignId { ptr, len, id }).len())),
{
    let c = Cursor { at, ok: true };
    lemma_u8(s, c, 16u8, le32(ptr) + (seq![len] + (le32(id) + (Seq::<u8>::empty()))));
    let c0 = after_u8(s, c);
    lemma_u32(s, c0, ptr, seq![len] + (le32(id) + (Seq::<u8>::empty())));
    let c1 = after_u32(s, c0);
    lemma_u8(s, c1, len, le32(id) + (Seq::<u8>::empty()));
    let c2 = after_u8(s, c1);
    lemma_u32(s, c2, id, Seq::<u8>::empty());
    let c3 = after_u32(s, c2);
}

proof fn lemma_reads_hydrate_text(s: Seq<u8>, at: int, ptr: u32, len: u8, value: Seq<char>, id: u32)
    requires
        encodable(OpView::HydrateText { ptr, len, value, id }),
        starts_with(s, at, encoding(OpView::HydrateText { ptr, len, value, id })),
    ensures
        parse_at(s, at) == Some((OpView::HydrateText { ptr, len, value, id }, at + encoding(OpView::HydrateText { ptr, len, value, id }).len())),
{
    let c = Cursor { at, ok: true };
    lemma_u8(s, c, 17u8, le32(ptr) + (seq![len] + (text_bytes(value) + (le32(id) + (Seq::<u8>::empty())))));
    let c0 = after_u8(s, c);
    lemma_u32(s, c0, ptr, seq![len] + (text_bytes(value) + (le32(id) + (Seq::<u8>::empty()))));
    let c1 = after_u32(s, c0);
    lemma_u8(s, c1, len, text_bytes(value) + (le32(id) + (Seq::<u8>::empty())));
    let c2 = after_u8(s, c1);
    lemma_text(s, c2, value, le32(id) + (Seq::<u8>::empty()));
    let c3 = after_text(s, c2);
    lemma_u32(s, c3, id, Seq::<u8>::empty());
    let c4 = after_u32(s, c3);
}

proof fn lemma_reads_replace_placeholder(s: Seq<u8>, at: int, ptr: u32, len: u8, n: u16)
    requires
        encodable(OpView::ReplacePlaceholder { ptr, len, n }),
        starts_with(s, at, encoding(OpView::ReplacePlaceholder { ptr, len, n })),
    ensures
        parse_at(s, at) == Some((OpView::ReplacePlaceholder { ptr, len, n }, at + encoding(OpView::ReplacePlaceholder { ptr, len, n }).len())),
{
    let c = Cursor { at, ok: true };
    lemma_u8(s, c, 18u8, le32(ptr) + (seq![len] + (le16(n) + (Seq::<u8>::empty()))));
    let c0 = after_u8(s, c);
    lemma_u32(s, c0, ptr, seq![len] + (le16(n) + (Seq::<u8>::empty())));
    let c1 = after_u32(s, c0);
    lemma_u8(s, c1, len, le16(n) + (Seq::<u8>::empty()));
    let c2 = after_u8(s, c1);
    lemma_u16(s, c2, n, Seq::<u8>::empty());
    let c3 = after_u16(s, c2);
}

proof fn lemma_reads_load_template(s: Seq<u8>, at: int, tmpl_id: u16, index: u16, id: u32)
    requires
        encodable(OpView::LoadTemplate { tmpl_id, index, id }),
        starts_with(s, at, encoding(OpView::LoadTemplate { tmpl_id, index, id })),
    ensures
        parse_at(s, at) == Some((OpView::LoadTemplate { tmpl_id, index, id }, at + encoding(OpView::LoadTemplate { tmpl_id, index, id }).len())),
{
    let c = Cursor { at, ok: true };
    lemma_u8(s, c, 19u8, le16(tmpl_id) + (le16(index) + (le32(id) + (Seq::<u8>::empty()))));
    let c0 = after_u8(s, c);
    lemma_u16(s, c0, tmpl_id, le16(index) + (le32(id) + (Seq::<u8>::empty())));
    let c1 = after_u16(s, c0);
    lemma_u16(s, c1, index, le32(id) + (Seq::<u8>::empty()));
    let c2 = after_u16(s, c1);
    lemma_u32(s, c2, id, Seq::<u8>::empty());
    let c3 = after_u32(s, c2);
}

proof fn lemma_reads_append_children_to_top(s: Seq<u8>, at: int, many: u16)
    requires
        encodable(OpView::AppendChildrenToTop { many }),
        starts_with(s, at, encoding(OpView::AppendChildrenToTop { many })),
    ensures
        parse_at(s, at) == Some((OpView::AppendChildrenToTop { many }, at + encoding(OpView::AppendChildrenToTop { many }).len())),
{
    let c = Cursor { at, ok: true };
    lemma_u8(s, c, 20u8, le16(many) + (Seq::<u8>::empty()));
    let c0 = after_u8(s, c);
    lemma_u16(s, c0, many, Seq::<u8>::empty());
    let c1 = after_u16(s, c0);
}

proof fn lemma_reads_set_top_attribute(s: Seq<u8>, at: int, field: u8, value: Seq<char>, ns: u8)
    requires
        encodable(OpView::SetTopAttribute { field, value, ns }),
        starts_with(s, at, encoding(OpView::SetTopAttribute { field, value, ns })),
    ensures
        parse_at(s, at) == Some((OpView::SetTopAttribute { field, value, ns }, at + encoding(OpView::SetTopAttribute { field, value, ns }).len())),
{
    let c = Cursor { at, ok: true };
    lemma_u8(s, c, 21u8, seq![field] + (text_bytes(value) + (seq![ns] + (Seq::<u8>::empty()))));
    let c0 = after_u8(s, c);
    lemma_u8(s, c0, field, text_bytes(value) + (seq![ns] + (Seq::<u8>::empty())));
    let c1 = after_u8(s, c0);
    lemma_text(s, c1, value, seq![ns] + (Seq::<u8>::empty()));
    let c2 = after_text(s, c1);
    lemma_u8(s, c2, ns, Seq::<u8>::empty());
    let c3 = after_u8(s, c2);
}

proof fn lemma_reads_add_placeholder(s: Seq<u8>, at: int)
    requires
        encodable(OpView::AddPlaceholder),
        starts_with(s, at, encoding(OpView::AddPlaceholder)),
    ensures
        parse_at(s, at) == Some((OpView::AddPlaceholder, at + encoding(OpView::AddPlaceholder).len())),
{
    let c = Cursor { at, ok: true };
    lemma_u8(s, c, 22u8, Seq::<u8>::empty());
    let c0 = after_u8(s, c);
}

proof fn lemma_reads_create_element(s: Seq<u8>, at: int, element: u8)
    requires
        encodable(OpView::CreateElement { element }),
        starts_with(s, at, encoding(OpView::CreateElement { element })),
    ensures
        parse_at(s, at) == Some((OpView::CreateElement { element }, at + encoding(OpView::CreateElement { element }).len())),
{
    let c = Cursor { at, ok: true };
    lemma_u8(s, c, 23u8, seq![element] + (Seq::<u8>::empty()));
    let c0 = after_u8(s, c);
    lemma_u8(s, c0, element, Seq::<u8>::empty());
    let c1 = after_u8(s, c0);
}

proof fn lemma_reads_create_element_ns(s: Seq<u8>, at: int, element: u8, ns: u8)
    requires
        encodable(OpView::CreateElementNs { element, ns }),
        starts_with(s, at, encoding(OpView::CreateElementNs { element, ns })),
    ensures
        parse_at(s, at) == Some((OpView::CreateElementNs { element, ns }, at + encoding(OpView::CreateElementNs { element, ns }).len())),
{
    let c = Cursor { at, ok: true };
    lemma_u8(s, c, 24u8, seq![element] + (seq![ns] + (Seq::<u8>::empty())));
    let c0 = after_u8(s, c);
    lemma_u8(s, c0, element, seq![ns] + (Seq::<u8>::empty()));
    let c1 = after_u8(s, c0);
    lemma_u8(s, c1, ns, Seq::<u8>::empty());
    let c2 = after_u8(s, c1);
}

proof fn lemma_reads_add_templates(s: Seq<u8>, at: int, tmpl_id: u16, len: u16)
    requires
        encodable(OpView::AddTemplates { tmpl_id, len }),
        starts_with(s, at, encoding(OpView::AddTemplates { tmpl_id, len })),
    ensures
        parse_at(s, at) == Some((OpView::AddTemplates { tmpl_id, len }, at + encoding(OpView::AddTemplates { tmpl_id, len }).len())),
{
    let c = Cursor { at, ok: true };
    lemma_u8(s, c, 25u8, le16(tmpl_id) + (le16(len) + (Seq::<u8>::empty())));
    let c0 = after_u8(s, c);
    lemma_u16(s, c0, tmpl_id, le16(len) + (Seq::<u8>::empty()));
    let c1 = after_u16(s, c0);
    lemma_u16(s, c1, len, Seq::<u8>::empty());
    let c2 = after_u16(s, c1);
}

proof fn lemma_reads_foreign_event_listener(s: Seq<u8>, at: int, event: u8, id: u32, bubbles: u8)
    requires
        encodable(OpView::ForeignEventListener { event, id, bubbles }),
        starts_with(s, at, encoding(OpView::ForeignEventListener { event, id, bubbles })),
    ensures
        parse_at(s, at) == Some((OpView::ForeignEventListener { event, id, bubbles }, at + encoding(OpView::ForeignEventListener { event, id, bubbles }).len())),
{
    let c = Cursor { at, ok: true };
    lemma_u8(s, c, 26u8, seq![event] + (le32(id) + (seq![bubbles] + (Seq::<u8>::empty()))));
    let c0 = after_u8(s, c);
    lemma_u8(s, c0, event, le32(id) + (seq![bubbles] + (Seq::<u8>::empty())));
    let c1 = after_u8(s, c0);
    lemma_u32(s, c1, id, seq![bubbles] + (Seq::<u8>::empty()));
    let c2 = after_u32(s, c1);
    lemma_u8(s, c2, bubbles, Seq::<u8>::empty());
    let c3 = after_u8(s, c2);
}

proof fn lemma_reads_assign_id_ref(s: Seq<u8>, at: int, array: Seq<u8>, id: u32)
    requires
        encodable(OpView::AssignIdRef { array, id }),
        starts_with(s, at, encoding(OpView::AssignIdRef { array, id })),
    ensures
        parse_at(s, at) == Some((OpView::AssignIdRef { array, id }, at + encoding(OpView::AssignIdRef { array, id }).len())),
{
    let c = Cursor { at, ok: true };
    lemma_u8(s, c, 27u8, framed(array) + (le32(id) + (Seq::<u8>::empty())));
    let c0 = after_u8(s, c);
    lemma_bytes(s, c0, array, le32(id) + (Seq::<u8>::empty()));
    let c1 = after_bytes(s, c0);
    lemma_u32(s, c1, id, Seq::<u8>::empty());
    let c2 = after_u32(s, c1);
}

proof fn lemma_reads_hydrate_text_ref(s: Seq<u8>, at: int, array: Seq<u8>, value: Seq<char>, id: u32)
    requires
        encodable(OpView::HydrateTextRef { array, value, id }),
        starts_with(s, at, encoding(OpView::HydrateTextRef { array, value, id })),
    ensures
        parse_at(s, at) == Some((OpView::HydrateTextRef { array, value, id }, at + encoding(OpView::HydrateTextRef { array, value, id }).len())),
{
    let c = Cursor { at, ok: true };
    lemma_u8(s, c, 28u8, framed(array) + (text_bytes(value) + (le32(id) + (Seq::<u8>::empty()))));
    let c0 = after_u8(s, c);
    lemma_bytes(s, c0, array, text_bytes(value) + (le32(id) + (Seq::<u8>::empty())));
    let c1 = after_bytes(s, c0);
    lemma_text(s, c1, value, le32(id) + (Seq::<u8>::empty()));
    let c2 = after_text(s, c1);
    lemma_u32(s, c2, id, Seq::<u8>::empty());
    let c3 = after_u32(s, c2);
}

proof fn lemma_reads_replace_placeholder_ref(s: Seq<u8>, at: int, array: Seq<u8>, n: u16)
    requires
        encodable(OpView::ReplacePlaceholderRef { array, n }),
        starts_with(s, at, encoding(OpView::ReplacePlaceholderRef { array, n })),
    ensures
        parse_at(s, at) == Some((OpView::ReplacePlaceholderRef { array, n }, at + encoding(OpView::ReplacePlaceholderRef { array, n }).len())),
{
    let c = Cursor { at, ok: true };
    lemma_u8(s, c, 29u8, framed(array) + (le16(n) + (Seq::<u8>::empty())));
    let c0 = after_u8(s, c);
    lemma_bytes(s, c0, array, le16(n) + (Seq::<u8>::empty()));
    let c1 = after_bytes(s, c0);
    lemma_u16(s, c1, n, Seq::<u8>::empty());
    let c2 = after_u16(s, c1);
}

proof fn lemma_reads_define_name(s: Seq<u8>, at: int, kind: u8, code: u8, name: Seq<char>)
    requires
        encodable(OpView::DefineName { kind, code, name }),
        starts_with(s, at, encoding(OpView::DefineName { kind, code, name })),
    ensures
        parse_at(s, at) == Some((OpView::DefineName { kind, code, name }, at + encoding(OpView::DefineName { kind, code, name }).len())),
{
    let c = Cursor { at, ok: true };
    lemma_u8(s, c, 30u8, seq![kind] + (seq![code] + (text_bytes(name) + (Seq::<u8>::empty()))));
    let c0 = after_u8(s, c);
    lemma_u8(s, c0, kind, seq![code] + (text_bytes(name) + (Seq::<u8>::empty())));
    let c1 = after_u8(s, c0);
    lemma_u8(s, c1, code, text_bytes(name) + (Seq::<u8>::empty()));
    let c2 = after_u8(s, c1);
    lemma_text(s, c2, name, Seq::<u8>::empty());
    let c3 = after_text(s, c2);
}

/// What is written can be read: wherever the bytes of an instruction stand
/// in a stream, that instruction is read there, and the next one is looked
/// for right behind it.
pub proof fn law_round_trip(op: OpView, before: Seq<u8>, after: Seq<u8>)
    requires
        encodable(op),
    ensures
        parse_at(before + encoding(op) + after, before.len() as int) == Some(
            (op, (before.len() + encoding(op).len()) as int),
        ),
{
    let s = before + encoding(op) + after;
    let at = before.len() as int;
    assert(s.subrange(at, at + encoding(op).len()) =~= encoding(op));
    match op {
        OpView::MountToRoot => lemma_reads_mount_to_root(s, at),
        OpView::PushRoot { root } => lemma_reads_push_root(s, at, root),
        OpView::AppendChildren { id, many } => lemma_reads_append_children(s, at, id, many),
        OpView::PopRoot => lemma_reads_pop_root(s, at),
        OpView::ReplaceWith { id, n } => lemma_reads_replace_with(s, at, id, n),
        OpView::InsertAfter { id, n } => lemma_reads_insert_after(s, at, id, n),
        OpView::InsertBefore { id, n } => lemma_reads_insert_before(s, at, id, n),
        OpView::Remove { id } => lemma_reads_remove(s, at, id),
        OpView::CreateRawText { text } => lemma_reads_create_raw_text(s, at, text),
        OpView::CreateTextNode { text, id } => lemma_reads_create_text_node(s, at, text, id),
        OpView::CreatePlaceholder { id } => lemma_reads_create_placeholder(s, at, id),
        OpView::NewEventListener { event_name, id, bubbles } => lemma_reads_new_event_listener(s, at, event_name, id, bubbles),
        OpView::RemoveEventListener { event_name, id, bubbles } => lemma_reads_remove_event_listener(s, at, event_name, id, bubbles),
        OpView::SetText { id, text } => lemma_reads_set_text(s, at, id, text),
        OpView::SetAttribute { id, field, value, ns } => lemma_reads_set_attribute(s, at, id, field, value, ns),
        OpView::RemoveAttribute { id, field, ns } => lemma_reads_remove_attribute(s, at, id, field, ns),
        OpView::AssignId { ptr, len, id } => lemma_reads_assign_id(s, at, ptr, len, id),
        OpView::HydrateText { ptr, len, value, id } => lemma_reads_hydrate_text(s, at, ptr, len, value, id),
        OpView::ReplacePlaceholder { ptr, len, n } => lemma_reads_replace_placeholder(s, at, ptr, len, n),
        OpView::LoadTemplate { tmpl_id, index, id } => lemma_reads_load_template(s, at, tmpl_id, index, id),
        OpView::AppendChildrenToTop { many } => lemma_reads_append_children_to_top(s, at, many),
        OpView::SetTopAttribute { field, value, ns } => lemma_reads_set_top_attribute(s, at, field, value, ns),
        OpView::AddPlaceholder => lemma_reads_add_placeholder(s, at),
        OpView::CreateElement { element } => lemma_reads_create_element(s, at, element),
        OpView::CreateElementNs { element, ns } => lemma_reads_create_element_ns(s, at, element, ns),
        OpView::AddTemplates { tmpl_id, len } => lemma_reads_add_templates(s, at, tmpl_id, len),
        OpView::ForeignEventListener { event, id, bubbles } => lemma_reads_foreign_event_listener(s, at, event, id, bubbles),
        OpView::AssignIdRef { array, id } => lemma_reads_assign_id_ref(s, at, array, id),
        OpView::HydrateTextRef { array, value, id } => lemma_reads_hydrate_text_ref(s, at, array, value, id),
        OpView::ReplacePlaceholderRef { array, n } => lemma_reads_replace_placeholder_ref(s, at, array, n),
        OpView::DefineName { kind, code, name } => lemma_reads_define_name(s, at, kind, code, name),
    }
}

fn put_u16(out: &mut Vec<u8>, v: u16)
    ensures
        final(out)@ == old(out)@ + le16(v),
{
    out.push((v % 256) as u8);
    out.push((v / 256) as u8);
    assert(out@ =~= old(out)@ + le16(v));
}

fn put_u32(out: &mut Vec<u8>, v: u32)
    ensures
        final(out)@ == old(out)@ + le32(v),
{
    out.push((v % 256) as u8);
    out.push(((v / 256) % 256) as u8);
    out.push(((v / 65536) % 256) as u8);
    out.push((v / 16777216) as u8);
    assert(out@ =~= old(out)@ + le32(v));
}

fn put_run(out: &mut Vec<u8>, b: &[u8])
    requires
        run_fits(b@),
    ensures
        final(out)@ == old(out)@ + framed(b@),
{
    put_u32(out, b.len() as u32);
    let ghost start = out@;
    let mut i: usize = 0;
    while i < b.len()
        invariant
            i <= b@.len(),
            out@ == start + b@.take(i as int),
        decreases b@.len() - i,
    {
        out.push(b[i]);
        assert(out@ =~= start + b@.take(i + 1));
        i += 1;
    }
    assert(b@.take(i as int) =~= b@);
    assert(out@ =~= old(out)@ + framed(b@));
}

fn put_text(out: &mut Vec<u8>, t: &str)
    requires
        text_fits(t@),
    ensures
        final(out)@ == old(out)@ + text_bytes(t@),
{
    put_run(out, t.as_bytes());
}

fn text_is_short(t: &str) -> (r: bool)
    ensures
        r == text_fits(t@),
{
    t.as_bytes().len() as u64 <= 4294967295
}

fn run_is_short(b: &[u8]) -> (r: bool)
    ensures
        r == run_fits(b@),
{
    b.len() as u64 <= 4294967295
}

impl Op {
    /// Whether the instruction can be written.
    pub fn is_encodable(&self) -> (r: bool)
        ensures
            r == encodable(self@),
    {
        match self {
            Op::MountToRoot => true,
            Op::PushRoot { .. } => true,
            Op::AppendChildren { .. } => true,
            Op::PopRoot => true,
            Op::ReplaceWith { .. } => true,
            Op::InsertAfter { .. } => true,
            Op::InsertBefore { .. } => true,
            Op::Remove { .. } => true,
            Op::CreateRawText { text, .. } => text_is_short(text.as_str()),
            Op::CreateTextNode { text, .. } => text_is_short(text.as_str()),
            Op::CreatePlaceholder { .. } => true,
            Op::NewEventListener { .. } => true,
            Op::RemoveEventListener { .. } => true,
            Op::SetText { text, .. } => text_is_short(text.as_str()),
            Op::SetAttribute { value, .. } => text_is_short(value.as_str()),
            Op::RemoveAttribute { .. } => true,
            Op::AssignId { .. } => true,
            Op::HydrateText { value, .. } => text_is_short(value.as_str()),
            Op::ReplacePlaceholder { .. } => true,
            Op::LoadTemplate { .. } => true,
            Op::AppendChildrenToTop { .. } => true,
            Op::SetTopAttribute { value, .. } => text_is_short(value.as_str()),
            Op::AddPlaceholder => true,
            Op::CreateElement { .. } => true,
            Op::CreateElementNs { .. } => true,
            Op::AddTemplates { .. } => true,
            Op::ForeignEventListener { .. } => true,
            Op::AssignIdRef { array, .. } => run_is_short(array.as_slice()),
            Op::HydrateTextRef { array, value, .. } => run_is_short(array.as_slice()) && text_is_short(value.as_str()),
            Op::ReplacePlaceholderRef { array, .. } => run_is_short(array.as_slice()),
            Op::DefineName { name, .. } => text_is_short(name.as_str()),
        }
    }

    /// Writes the instruction at the end of `out`. An instruction that cannot
    /// be written leaves `out` as it is.
    #[verifier::rlimit(100)]
    pub fn encode(&self, out: &mut Vec<u8>) -> (ok: bool)
        ensures
            ok == encodable(self@),
            ok ==> final(out)@ == old(out)@ + encoding(self@),
            !ok ==> final(out)@ == old(out)@,
    {
        if !self.is_encodable() {
            return false;
        }
        match self {
            Op::MountToRoot => {
                out.push(0u8);
                assert(out@ =~= old(out)@ + encoding(self@));
            },
            Op::PushRoot { root } => {
                out.push(1u8);
                put_u32(out, *root);
                assert(out@ =~= old(out)@ + encoding(self@));
            },
            Op::AppendChildren { id, many } => {
                out.push(2u8);
                put_u32(out, *id);
                put_u16(out, *many);
                assert(out@ =~= old(out)@ + encoding(self@));
            },
            Op::PopRoot => {
                out.push(3u8);
                assert(out@ =~= old(out)@ + encoding(self@));
            },
            Op::ReplaceWith { id, n } => {
                out.push(4u8);
                put_u32(out, *id);
                put_u16(out, *n);
                assert(out@ =~= old(out)@ + encoding(self@));
            },
            Op::InsertAfter { id, n } => {
                out.push(5u8);
                put_u32(out, *id);
                put_u16(out, *n);
                assert(out@ =~= old(out)@ + encoding(self@));
            },
            Op::InsertBefore { id, n } => {
                out.push(6u8);
                put_u32(out, *id);
                put_u16(out, *n);
                assert(out@ =~= old(out)@ + encoding(self@));
            },
            Op::Remove { id } => {
                out.push(7u8);
                put_u32(out, *id);
                assert(out@ =~= old(out)@ + encoding(self@));
            },
            Op::CreateRawText { text } => {
                out.push(8u8);
                put_text(out, text.as_str());
                assert(out@ =~= old(out)@ + encoding(self@));
            },
            Op::CreateTextNode { text, id } => {
                out.push(9u8);
                put_text(out, text.as_str());
                put_u32(out, *id);
                assert(out@ =~= old(out)@ + encoding(self@));
            },
            Op::CreatePlaceholder { id } => {
                out.push(10u8);
                put_u32(out, *id);
                assert(out@ =~= old(out)@ + encoding(self@));
            },
            Op::NewEventListener { event_name, id, bubbles } => {
                out.push(11u8);
                out.push(*event_name);
                put_u32(out, *id);
                out.push(*bubbles);
                assert(out@ =~= old(out)@ + encoding(self@));
            },
            Op::RemoveEventListener { event_name, id, bubbles } => {
                out.push(12u8);
                out.push(*event_name);
                put_u32(out, *id);
                out.push(*bubbles);
                assert(out@ =~= old(out)@ + encoding(self@));
            },
            Op::SetText { id, text } => {
                out.push(13u8);
                put_u32(out, *id);
                put_text(out, text.as_str());
                assert(out@ =~= old(out)@ + encoding(self@));
            },
            Op::SetAttribute { id, field, value, ns } => {
                out.push(14u8);
                put_u32(out, *id);
                out.push(*field);
                put_text(out, value.as_str());
                out.push(*ns);
                assert(out@ =~= old(out)@ + encoding(self@));
            },
            Op::RemoveAttribute { id, field, ns } => {
                out.push(15u8);
                put_u32(out, *id);
                out.push(*field);
                out.push(*ns);
                assert(out@ =~= old(out)@ + encoding(self@));
            },
            Op::AssignId { ptr, len, id } => {
                out.push(16u8);
                put_u32(out, *ptr);
                out.push(*len);
                put_u32(out, *id);
                assert(out@ =~= old(out)@ + encoding(self@));
            },
            Op::HydrateText { ptr, len, value, id } => {
                out.push(17u8);
                put_u32(out, *ptr);
                out.push(*len);
                put_text(out, value.as_str());
                put_u32(out, *id);
                assert(out@ =~= old(out)@ + encoding(self@));
            },
            Op::ReplacePlaceholder { ptr, len, n } => {
                out.push(18u8);
                put_u32(out, *ptr);
                out.push(*len);
                put_u16(out, *n);
                assert(out@ =~= old(out)@ + encoding(self@));
            },
            Op::LoadTemplate { tmpl_id, index, id } => {
                out.push(19u8);
                put_u16(out, *tmpl_id);
                put_u16(out, *index);
                put_u32(out, *id);
                assert(out@ =~= old(out)@ + encoding(self@));
            },
            Op::AppendChildrenToTop { many } => {
                out.push(20u8);
                put_u16(out, *many);
                assert(out@ =~= old(out)@ + encoding(self@));
            },
            Op::SetTopAttribute { field, value, ns } => {
                out.push(21u8);
                out.push(*field);
                put_text(out, value.as_str());
                out.push(*ns);
                assert(out@ =~= old(out)@ + encoding(self@));
            },
            Op::AddPlaceholder => {
                out.push(22u8);
                assert(out@ =~= old(out)@ + encoding(self@));
            },
            Op::CreateElement { element } => {
                out.push(23u8);
                out.push(*element);
                assert(out@ =~= old(out)@ + encoding(self@));
            },
            Op::CreateElementNs { element, ns } => {
                out.push(24u8);
                out.push(*element);
                out.push(*ns);
                assert(out@ =~= old(out)@ + encoding(self@));
            },
            Op::AddTemplates { tmpl_id, len } => {
                out.push(25u8);
                put_u16(out, *tmpl_id);
                put_u16(out, *len);
                assert(out@ =~= old(out)@ + encoding(self@));
            },
            Op::ForeignEventListener { event, id, bubbles } => {
                out.push(26u8);
                out.push(*event);
                put_u32(out, *id);
                out.push(*bubbles);
                assert(out@ =~= old(out)@ + encoding(self@));
            },
            Op::AssignIdRef { array, id } => {
                out.push(27u8);
                put_run(out, array.as_slice());
                put_u32(out, *id);
                assert(out@ =~= old(out)@ + encoding(self@));
            },
            Op::HydrateTextRef { array, value, id } => {
                out.push(28u8);
                put_run(out, array.as_slice());
                put_text(out, value.as_str());
                put_u32(out, *id);
                assert(out@ =~= old(out)@ + encoding(self@));
            },
            Op::ReplacePlaceholderRef { array, n } => {
                out.push(29u8);
                put_run(out, array.as_slice());
                put_u16(out, *n);
                assert(out@ =~= old(out)@ + encoding(self@));
            },
            Op::DefineName { kind, code, name } => {
                out.push(30u8);
                out.push(*kind);
                out.push(*code);
                put_text(out, name.as_str());
                assert(out@ =~= old(out)@ + encoding(self@));
            },
        }
        true
    }
}

} // verus!
