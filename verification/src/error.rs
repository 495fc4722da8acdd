use crate::document::{Node, NodeV};
use vstd::prelude::*;

verus! {

/// An error of the schema pipeline: parsing a document into the model, or
/// resolving the model.  Every layer returns the first fault it meets;
/// nothing is recovered from.
#[derive(PartialEq, Eq, Debug)]
pub enum Error {
    /// An entry of the attribute sequence is not a mapping.
    InvalidAttribute(Node),
    /// A byte order other than the two recognized tokens.
    InvalidEndianness,
    /// A key is present but its value has the wrong shape; the value is kept
    /// for diagnostics.
    InvalidAttrType { attr: String, pat: String, actual: Node },
    /// A required key is absent.
    RequiredAttrNotFound(String),
    /// A type or enumeration reference that names neither a built-in code
    /// nor a declared definition.
    UnresolvedTypeReference(String),
    /// An enumeration binding on an attribute whose read is not an unsigned
    /// scalar.
    EnumLookupNotApplicable(String),
}

/// The mathematical shape of a pipeline error.
#[verifier::ext_equal]
pub enum ErrorV {
    InvalidAttribute(NodeV),
    InvalidEndianness,
    InvalidAttrType { attr: Seq<char>, pat: Seq<char>, actual: NodeV },
    RequiredAttrNotFound(Seq<char>),
    UnresolvedTypeReference(Seq<char>),
    EnumLookupNotApplicable(Seq<char>),
}

impl View for Error {
    type V = ErrorV;

    open spec fn view(&self) -> ErrorV {
        match self {
            Error::InvalidAttribute(n) => ErrorV::InvalidAttribute(n@),
            Error::InvalidEndianness => ErrorV::InvalidEndianness,
            Error::InvalidAttrType { attr, pat, actual } => ErrorV::InvalidAttrType {
                attr: attr@,
                pat: pat@,
                actual: actual@,
            },
            Error::RequiredAttrNotFound(k) => ErrorV::RequiredAttrNotFound(k@),
            Error::UnresolvedTypeReference(k) => ErrorV::UnresolvedTypeReference(k@),
            Error::EnumLookupNotApplicable(k) => ErrorV::EnumLookupNotApplicable(k@),
        }
    }
}

/// The attribute path along which an error was found, innermost frame first.
#[derive(PartialEq, Eq, Debug)]
pub struct StackTrace(pub Vec<String>);

impl View for StackTrace {
    type V = Seq<Seq<char>>;

    open spec fn view(&self) -> Seq<Seq<char>> {
        Seq::new(self.0@.len(), |i: int| self.0@[i]@)
    }
}

impl StackTrace {
    /// A trace holding one root frame.
    pub fn from(root: &str) -> (r: Self)
        ensures
            r@ =~= seq![root@],
    {
        let mut frames: Vec<String> = Vec::new();
        frames.push(root.to_owned());
        StackTrace(frames)
    }
}

/// A pipeline error together with the attribute path it was found along.
#[derive(PartialEq, Eq, Debug)]
pub enum MacroError {
    /// An entry of the attribute sequence is not a mapping.
    InvalidAttribute(Node, StackTrace),
    /// A byte order other than the two recognized tokens.
    InvalidEndianness(StackTrace),
    /// A key is present but its value has the wrong shape.
    InvalidAttrType { attr: String, pat: String, actual: Node, st: StackTrace },
    /// A required key is absent.
    RequiredAttrNotFound(String, StackTrace),
}

/// The mathematical shape of a traced error.
#[verifier::ext_equal]
pub enum MacroErrorV {
    InvalidAttribute(NodeV, Seq<Seq<char>>),
    InvalidEndianness(Seq<Seq<char>>),
    InvalidAttrType { attr: Seq<char>, pat: Seq<char>, actual: NodeV, st: Seq<Seq<char>> },
    RequiredAttrNotFound(Seq<char>, Seq<Seq<char>>),
}

impl View for MacroError {
    type V = MacroErrorV;

    open spec fn view(&self) -> MacroErrorV {
        match self {
            MacroError::InvalidAttribute(n, st) => MacroErrorV::InvalidAttribute(n@, st@),
            MacroError::InvalidEndianness(st) => MacroErrorV::InvalidEndianness(st@),
            MacroError::InvalidAttrType { attr, pat, actual, st } => MacroErrorV::InvalidAttrType {
                attr: attr@,
                pat: pat@,
                actual: actual@,
                st: st@,
            },
            MacroError::RequiredAttrNotFound(k, st) => MacroErrorV::RequiredAttrNotFound(k@, st@),
        }
    }
}

/// The trace of a traced error.
pub open spec fn spec_trace_of(e: MacroErrorV) -> Seq<Seq<char>> {
    match e {
        MacroErrorV::InvalidAttribute(_, st) => st,
        MacroErrorV::InvalidEndianness(st) => st,
        MacroErrorV::InvalidAttrType { st, .. } => st,
        MacroErrorV::RequiredAttrNotFound(_, st) => st,
    }
}

/// The same error under another trace.
pub open spec fn spec_with_trace(e: MacroErrorV, st: Seq<Seq<char>>) -> MacroErrorV {
    match e {
        MacroErrorV::InvalidAttribute(n, _) => MacroErrorV::InvalidAttribute(n, st),
        MacroErrorV::InvalidEndianness(_) => MacroErrorV::InvalidEndianness(st),
        MacroErrorV::InvalidAttrType { attr, pat, actual, .. } => MacroErrorV::InvalidAttrType {
            attr,
            pat,
            actual,
            st,
        },
        MacroErrorV::RequiredAttrNotFound(k, _) => MacroErrorV::RequiredAttrNotFound(k, st),
    }
}

impl MacroError {
    /// Pushes a frame onto the trace of the error.
    pub fn push(&mut self, frame: &str)
        ensures
            final(self)@ == spec_with_trace(old(self)@, spec_trace_of(old(self)@).push(frame@)),
    {
        let st: &mut StackTrace = match self {
            MacroError::InvalidAttribute(_, ref mut st) => st,
            MacroError::InvalidEndianness(ref mut st) => st,
            MacroError::InvalidAttrType { ref mut st, .. } => st,
            MacroError::RequiredAttrNotFound(_, ref mut st) => st,
        };
        st.0.push(frame.to_owned());
        proof {
            assert(final(self)@ =~= spec_with_trace(
                old(self)@,
                spec_trace_of(old(self)@).push(frame@),
            ));
        }
    }

    /// The error that is the product of pushing the given frame onto the end
    /// of the trace of this one; this error itself is unchanged.
    pub fn with(&self, frame: &str) -> (r: Self)
        ensures
            r@ == spec_with_trace(self@, spec_trace_of(self@).push(frame@)),
    {
        let mut result = self.duplicate();
        result.push(frame);
        result
    }

    /// A structural copy of the error.
    pub fn duplicate(&self) -> (r: Self)
        ensures
            r@ == self@,
    {
        let r = match self {
            MacroError::InvalidAttribute(n, st) => MacroError::InvalidAttribute(
                n.duplicate(),
                st.duplicate(),
            ),
            MacroError::InvalidEndianness(st) => MacroError::InvalidEndianness(st.duplicate()),
            MacroError::InvalidAttrType { attr, pat, actual, st } => MacroError::InvalidAttrType {
                attr: attr.clone(),
                pat: pat.clone(),
                actual: actual.duplicate(),
                st: st.duplicate(),
            },
            MacroError::RequiredAttrNotFound(k, st) => MacroError::RequiredAttrNotFound(
                k.clone(),
                st.duplicate(),
            ),
        };
        proof {
            assert(r@ =~= self@);
        }
        r
    }
}

impl StackTrace {
    /// A structural copy of the trace.
    pub fn duplicate(&self) -> (r: Self)
        ensures
            r@ == self@,
    {
        let mut frames: Vec<String> = Vec::new();
        let mut i: usize = 0;
        #[verifier::loop_isolation(false)]
        while i < self.0.len()
            invariant
                i <= self.0.len(),
                frames@.len() == i,
                forall|j: int| 0 <= j < i ==> #[trigger] frames@[j]@ == self.0@[j]@,
            decreases self.0.len() - i,
        {
            frames.push(self.0[i].clone());
            i = i + 1;
        }
        let r = StackTrace(frames);
        proof {
            assert(r@ =~= self@);
        }
        r
    }
}


/// An error of the generated decoder at run time: a decode aborts on the
/// first fault and returns it to the caller.
#[derive(PartialEq, Eq, Debug)]
pub enum KaitaiError {
    /// The stream ended before the terminator of a delimited read was found.
    EofBeforeTerminator(char),
    /// The stream did not hold the declared fixed contents; both byte runs
    /// are kept for diagnostics.
    UnexpectedContents { actual: Vec<u8>, expected: Vec<u8> },
    /// An enumeration-bound read yielded a code outside the declared set.
    NoEnumMatch,
    /// The stream ended before a read was complete.
    Eof,
}

/// The mathematical shape of a decoder error.
#[verifier::ext_equal]
pub enum KaitaiErrorV {
    EofBeforeTerminator(char),
    UnexpectedContents { actual: Seq<u8>, expected: Seq<u8> },
    NoEnumMatch,
    Eof,
}

impl View for KaitaiError {
    type V = KaitaiErrorV;

    open spec fn view(&self) -> KaitaiErrorV {
        match self {
            KaitaiError::EofBeforeTerminator(c) => KaitaiErrorV::EofBeforeTerminator(*c),
            KaitaiError::UnexpectedContents { actual, expected } => {
                KaitaiErrorV::UnexpectedContents { actual: actual@, expected: expected@ }
            },
            KaitaiError::NoEnumMatch => KaitaiErrorV::NoEnumMatch,
            KaitaiError::Eof => KaitaiErrorV::Eof,
        }
    }
}

} // verus!
