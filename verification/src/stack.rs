//! The operand stack: node handles staged for the next tree operation.

use vstd::prelude::*;
use crate::error::ErrorKind;

verus! {

/// A stack of node handles. The view lists them from the bottom to the top,
/// which is the order in which they enter the document.
pub struct OperandStack {
    pub items: Vec<usize>,
}

impl View for OperandStack {
    type V = Seq<usize>;

    open spec fn view(&self) -> Seq<usize> {
        self.items@
    }
}

impl OperandStack {
    pub fn new() -> (s: Self)
        ensures
            s@ == Seq::<usize>::empty(),
    {
        OperandStack { items: Vec::new() }
    }

    pub fn depth(&self) -> (n: usize)
        ensures
            n == self@.len(),
    {
        self.items.len()
    }

    pub fn push(&mut self, handle: usize)
        ensures
            final(self)@ == old(self)@.push(handle),
    {
        self.items.push(handle);
    }

    /// Takes the top operand off.
    pub fn pop(&mut self) -> (r: Result<usize, ErrorKind>)
        ensures
            match r {
                Ok(h) => old(self)@.len() > 0 && h == old(self)@.last() && final(self)@ == old(
                    self,
                )@.drop_last(),
                Err(e) => e == ErrorKind::StackUnderflow && old(self)@.len() == 0 && final(self)@
                    == old(self)@,
            },
    {
        match self.items.pop() {
            Some(h) => Ok(h),
            None => Err(ErrorKind::StackUnderflow),
        }
    }

    /// The operand that lies `below` places under the top; the top itself for 0.
    pub fn peek(&self, below: usize) -> (r: Result<usize, ErrorKind>)
        ensures
            match r {
                Ok(h) => below < self@.len() && h == self@[self@.len() - 1 - below],
                Err(e) => e == ErrorKind::StackUnderflow && below >= self@.len(),
            },
    {
        let n = self.items.len();
        if below < n {
            Ok(self.items[n - 1 - below])
        } else {
            Err(ErrorKind::StackUnderflow)
        }
    }

    /// Takes the top `n` operands off and returns them in the order in which
    /// they were pushed.
    pub fn take_top(&mut self, n: usize) -> (r: Result<Vec<usize>, ErrorKind>)
        ensures
            match r {
                Ok(els) => {
                    &&& n <= old(self)@.len()
                    &&& els@ == old(self)@.skip(old(self)@.len() - n)
                    &&& final(self)@ == old(self)@.take(old(self)@.len() - n)
                },
                Err(e) => e == ErrorKind::StackUnderflow && n > old(self)@.len() && final(self)@
                    == old(self)@,
            },
    {
        let len = self.items.len();
        if n > len {
            return Err(ErrorKind::StackUnderflow);
        }
        let els = self.items.split_off(len - n);
        Ok(els)
    }
}

} // verus!
