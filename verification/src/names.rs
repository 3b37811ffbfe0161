//! The name caches: short codes that stand for strings sent once.

use vstd::prelude::*;
use crate::error::ErrorKind;

verus! {

/// Which vocabulary a code belongs to.
#[derive(Clone, Copy, Debug, PartialEq, Eq, Structural)]
pub enum NameKind {
    /// Tag names of elements.
    Element,
    /// Names of attributes.
    Attribute,
    /// Namespaces, of elements and of attributes.
    Namespace,
    /// Names of events.
    Event,
}

/// One vocabulary: the strings defined so far, by code.
pub struct NameCache {
    pub entries: Vec<Option<String>>,
}

impl View for NameCache {
    type V = Map<u8, Seq<char>>;

    open spec fn view(&self) -> Map<u8, Seq<char>> {
        Map::new(
            |code: u8| (code as int) < self.entries@.len() && self.entries@[code as int] is Some,
            |code: u8| self.entries@[code as int].unwrap()@,
        )
    }
}

impl NameCache {
    pub fn new() -> (c: Self)
        ensures
            c@ == Map::<u8, Seq<char>>::empty(),
    {
        let c = NameCache { entries: Vec::new() };
        assert(c@ =~= Map::<u8, Seq<char>>::empty());
        c
    }

    /// Lets `code` stand for `name` from now on.
    pub fn define(&mut self, code: u8, name: String)
        ensures
            final(self)@ == old(self)@.insert(code, name@),
    {
        let i = code as usize;
        while self.entries.len() <= i
            invariant
                i == code as usize,
                self@ == old(self)@,
            decreases i + 1 - self.entries.len(),
        {
            let ghost before = self@;
            self.entries.push(None);
            assert(self@ =~= before);
        }
        self.entries[i] = Some(name);
        assert(self@ =~= old(self)@.insert(code, name@));
    }

    /// The string that `code` stands for. A code that was never defined is an
    /// error, never an empty string.
    pub fn lookup(&self, code: u8) -> (r: Result<&str, ErrorKind>)
        ensures
            match r {
                Ok(s) => self@.contains_key(code) && s@ == self@[code],
                Err(e) => e == ErrorKind::UninternedCode && !self@.contains_key(code),
            },
    {
        let i = code as usize;
        if i < self.entries.len() {
            match &self.entries[i] {
                Some(s) => Ok(s.as_str()),
                None => Err(ErrorKind::UninternedCode),
            }
        } else {
            Err(ErrorKind::UninternedCode)
        }
    }
}

/// The model of the four vocabularies.
pub struct NamesView {
    pub element: Map<u8, Seq<char>>,
    pub attribute: Map<u8, Seq<char>>,
    pub namespace: Map<u8, Seq<char>>,
    pub event: Map<u8, Seq<char>>,
}

impl NamesView {
    pub open spec fn of(self, kind: NameKind) -> Map<u8, Seq<char>> {
        match kind {
            NameKind::Element => self.element,
            NameKind::Attribute => self.attribute,
            NameKind::Namespace => self.namespace,
            NameKind::Event => self.event,
        }
    }

    pub open spec fn define(self, kind: NameKind, code: u8, name: Seq<char>) -> NamesView {
        match kind {
            NameKind::Element => NamesView { element: self.element.insert(code, name), ..self },
            NameKind::Attribute => NamesView {
                attribute: self.attribute.insert(code, name),
                ..self
            },
            NameKind::Namespace => NamesView {
                namespace: self.namespace.insert(code, name),
                ..self
            },
            NameKind::Event => NamesView { event: self.event.insert(code, name), ..self },
        }
    }
}

/// The four vocabularies of a session. They live as long as the session and
/// change only when a name is defined.
pub struct NameCaches {
    pub element: NameCache,
    pub attribute: NameCache,
    pub namespace: NameCache,
    pub event: NameCache,
}

impl View for NameCaches {
    type V = NamesView;

    open spec fn view(&self) -> NamesView {
        NamesView {
            element: self.element@,
            attribute: self.attribute@,
            namespace: self.namespace@,
            event: self.event@,
        }
    }
}

impl NameCaches {
    pub fn new() -> (c: Self)
        ensures
            c@.element == Map::<u8, Seq<char>>::empty(),
            c@.attribute == Map::<u8, Seq<char>>::empty(),
            c@.namespace == Map::<u8, Seq<char>>::empty(),
            c@.event == Map::<u8, Seq<char>>::empty(),
    {
        NameCaches {
            element: NameCache::new(),
            attribute: NameCache::new(),
            namespace: NameCache::new(),
            event: NameCache::new(),
        }
    }

    /// Lets `code` stand for `name` in the vocabulary `kind`.
    pub fn define(&mut self, kind: NameKind, code: u8, name: String)
        ensures
            final(self)@ == old(self)@.define(kind, code, name@),
    {
        match kind {
            NameKind::Element => self.element.define(code, name),
            NameKind::Attribute => self.attribute.define(code, name),
            NameKind::Namespace => self.namespace.define(code, name),
            NameKind::Event => self.event.define(code, name),
        }
    }

    /// The string that `code` stands for in the vocabulary `kind`.
    pub fn lookup(&self, kind: NameKind, code: u8) -> (r: Result<&str, ErrorKind>)
        ensures
            match r {
                Ok(s) => self@.of(kind).contains_key(code) && s@ == self@.of(kind)[code],
                Err(e) => e == ErrorKind::UninternedCode && !self@.of(kind).contains_key(code),
            },
    {
        match kind {
            NameKind::Element => self.element.lookup(code),
            NameKind::Attribute => self.attribute.lookup(code),
            NameKind::Namespace => self.namespace.lookup(code),
            NameKind::Event => self.event.lookup(code),
        }
    }
}

} // verus!
