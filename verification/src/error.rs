//! The ways in which an operation can fail.

use vstd::prelude::*;

verus! {

/// Why an operation could not be applied.
#[derive(Clone, Copy, Debug, PartialEq, Eq, Structural)]
pub enum ErrorKind {
    /// A node id that is bound to no node.
    UnknownNodeId,
    /// The operand stack holds fewer operands than the operation takes.
    StackUnderflow,
    /// A template id under which nothing was registered.
    UnknownTemplateId,
    /// A slot number beyond the slots of the template.
    SlotIndexOutOfRange,
    /// A name code that was used before it was defined.
    UninternedCode,
    /// A hydration path that leads to no node.
    MalformedPath,
    /// An instruction that this version of the protocol does not frame.
    UnsupportedOperation,
}

/// The failure of a batch: which instruction failed, counted from zero, and why.
#[derive(Clone, Copy, Debug, PartialEq, Eq, Structural)]
pub struct BatchError {
    pub index: usize,
    pub kind: ErrorKind,
}

impl ErrorKind {
    /// The name of the kind, for logs and reports.
    pub fn name(&self) -> (s: &'static str)
        ensures
            s@ == self.spec_name(),
    {
        match self {
            ErrorKind::UnknownNodeId => "UnknownNodeId",
            ErrorKind::StackUnderflow => "StackUnderflow",
            ErrorKind::UnknownTemplateId => "UnknownTemplateId",
            ErrorKind::SlotIndexOutOfRange => "SlotIndexOutOfRange",
            ErrorKind::UninternedCode => "UninternedCode",
            ErrorKind::MalformedPath => "MalformedPath",
            ErrorKind::UnsupportedOperation => "UnsupportedOperation",
        }
    }

    pub open spec fn spec_name(&self) -> Seq<char> {
        match self {
            ErrorKind::UnknownNodeId => "UnknownNodeId"@,
            ErrorKind::StackUnderflow => "StackUnderflow"@,
            ErrorKind::UnknownTemplateId => "UnknownTemplateId"@,
            ErrorKind::SlotIndexOutOfRange => "SlotIndexOutOfRange"@,
            ErrorKind::UninternedCode => "UninternedCode"@,
            ErrorKind::MalformedPath => "MalformedPath"@,
            ErrorKind::UnsupportedOperation => "UnsupportedOperation"@,
        }
    }
}

} // verus!
