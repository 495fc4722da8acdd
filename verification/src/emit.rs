use crate::hir::{
    Attribute, AttributeV, Attributes, BuiltIn, Contents, ContentsV, DocSpec, DocSpecV, MetaSpec,
    TypeDef, TypeDefV, VariableContents,
};
use crate::schema::Endianness;
use vstd::prelude::*;
use vstd::string::StringExecFns;

verus! {

/// The element type a generated field holds, before any repetition wrap.
#[derive(PartialEq, Eq, Debug)]
pub enum BaseType {
    /// A built-in scalar.
    BuiltIn(BuiltIn),
    /// A user-defined type or an enumeration, by its canonicalized name.
    Named(String),
    /// A raw byte run.
    Bytes,
    /// A switch-typed field: a tagged variant set over the named
    /// discriminant.
    SwitchOn(String),
}

/// The mathematical shape of a field's element type.
#[verifier::ext_equal]
pub enum BaseTypeV {
    BuiltIn(BuiltIn),
    Named(Seq<char>),
    Bytes,
    SwitchOn(Seq<char>),
}

impl View for BaseType {
    type V = BaseTypeV;

    open spec fn view(&self) -> BaseTypeV {
        match self {
            BaseType::BuiltIn(b) => BaseTypeV::BuiltIn(*b),
            BaseType::Named(s) => BaseTypeV::Named(s@),
            BaseType::Bytes => BaseTypeV::Bytes,
            BaseType::SwitchOn(s) => BaseTypeV::SwitchOn(s@),
        }
    }
}

/// One emitted field declaration: its documentation, identifier, element
/// type, and whether repetition makes it a sequence of that element.
#[derive(PartialEq, Eq, Debug)]
pub struct FieldDecl {
    pub doc: DocSpec,
    pub id: String,
    pub ty: BaseType,
    pub repeated: bool,
}

/// The mathematical shape of a field declaration.
#[verifier::ext_equal]
pub struct FieldDeclV {
    pub doc: DocSpecV,
    pub id: Seq<char>,
    pub ty: BaseTypeV,
    pub repeated: bool,
}

impl View for FieldDecl {
    type V = FieldDeclV;

    open spec fn view(&self) -> FieldDeclV {
        FieldDeclV { doc: self.doc@, id: self.id@, ty: self.ty@, repeated: self.repeated }
    }
}

/// The element type of a stored attribute's field: an enumeration binding
/// names the enumeration, otherwise the read's own type decides.
pub open spec fn spec_base_type(vc: crate::hir::VariableContentsV) -> BaseTypeV {
    match vc.enum_ident {
        Some(en) => BaseTypeV::Named(en),
        None => match vc.ty {
            TypeDefV::BuiltIn(b) => BaseTypeV::BuiltIn(b),
            TypeDefV::Custom(name) => BaseTypeV::Named(name),
            TypeDefV::Bytes(_) => BaseTypeV::Bytes,
            TypeDefV::Switch { on, cases } => BaseTypeV::SwitchOn(on),
        },
    }
}

/// The field declaration of one attribute: an attribute with fixed contents
/// is check-only and declares no field.
pub open spec fn spec_declaration(a: AttributeV) -> Option<FieldDeclV> {
    match a.contents {
        ContentsV::Fixed(_) => None,
        ContentsV::Variable(vc) => Some(
            FieldDeclV {
                doc: a.doc,
                id: a.id,
                ty: spec_base_type(vc),
                repeated: vc.repeat is Some,
            },
        ),
    }
}

/// The field declarations of a whole attribute sequence: one per stored
/// attribute, in declaration order; fixed-content attributes are left out.
pub open spec fn spec_field_declarations(attrs: Seq<AttributeV>) -> Seq<FieldDeclV>
    decreases attrs.len(),
{
    if attrs.len() == 0 {
        Seq::empty()
    } else {
        match spec_declaration(attrs[0]) {
            Some(d) => seq![d] + spec_field_declarations(attrs.drop_first()),
            None => spec_field_declarations(attrs.drop_first()),
        }
    }
}

impl Attribute {
    /// The field declaration of this attribute, if it stores one.
    pub fn declaration(&self) -> (r: Option<FieldDecl>)
        ensures
            match r {
                Some(d) => spec_declaration(self@) == Some(d@),
                None => spec_declaration(self@) is None,
            },
    {
        match &self.contents {
            Contents::Fixed(_) => None,
            Contents::Variable(vc) => {
                let ty = match &vc.enum_ident {
                    Some(en) => BaseType::Named(en.clone()),
                    None => match &vc.ty {
                        TypeDef::BuiltIn(b) => BaseType::BuiltIn(*b),
                        TypeDef::Custom(name) => BaseType::Named(name.clone()),
                        TypeDef::Bytes(_) => BaseType::Bytes,
                        TypeDef::Switch { on, cases } => BaseType::SwitchOn(on.clone()),
                    },
                };
                let doc = DocSpec {
                    description: match &self.doc.description {
                        Some(s) => Some(s.clone()),
                        None => None,
                    },
                    reference: match &self.doc.reference {
                        Some(s) => Some(s.clone()),
                        None => None,
                    },
                };
                let d = FieldDecl { doc, id: self.id.clone(), ty, repeated: vc.repeat.is_some() };
                proof {
                    assert(spec_declaration(self@) matches Some(dv) && dv =~= d@);
                }
                Some(d)
            },
        }
    }
}

impl Attributes {
    /// The field declarations of all stored attributes, in order; any
    /// attribute with fixed contents is check-only and is left out.
    pub fn field_declarations(&self) -> (r: Vec<FieldDecl>)
        ensures
            Seq::new(r@.len(), |i: int| r@[i]@) == spec_field_declarations(self@),
    {
        let ghost av = self@;
        let mut out: Vec<FieldDecl> = Vec::new();
        let mut i: usize = 0;
        proof {
            assert(av.skip(0) =~= av);
            assert(Seq::<FieldDeclV>::empty() + spec_field_declarations(av)
                =~= spec_field_declarations(av));
        }
        #[verifier::loop_isolation(false)]
        while i < self.0.len()
            invariant
                i <= self.0@.len(),
                av == self@,
                av.len() == self.0@.len(),
                spec_field_declarations(av) == Seq::new(out@.len(), |j: int| out@[j]@)
                    + spec_field_declarations(av.skip(i as int)),
            decreases self.0@.len() - i,
        {
            let ghost acc = Seq::new(out@.len(), |j: int| out@[j]@);
            proof {
                assert(av.skip(i as int)[0] == av[i as int]);
                assert(av.skip(i as int).drop_first() =~= av.skip(i + 1));
                assert(av[i as int] == self.0@[i as int]@);
            }
            match self.0[i].declaration() {
                Some(d) => {
                    out.push(d);
                    proof {
                        let acc2 = Seq::new(out@.len(), |j: int| out@[j]@);
                        assert(acc2 =~= acc.push(d@));
                        assert(acc + (seq![d@] + spec_field_declarations(av.skip(i + 1))) =~= acc2
                            + spec_field_declarations(av.skip(i + 1)));
                    }
                },
                None => {},
            }
            i = i + 1;
        }
        proof {
            assert(av.skip(av.len() as int).len() == 0);
            assert(Seq::new(out@.len(), |j: int| out@[j]@) + Seq::<FieldDeclV>::empty()
                =~= Seq::new(out@.len(), |j: int| out@[j]@));
        }
        out
    }
}

impl VariableContents {
    /// The byte-order suffix of this read: reads of one byte carry none,
    /// wider scalar reads are qualified by the resolved byte order.
    pub fn endianness(&self, meta: &MetaSpec) -> (r: String)
        ensures
            r@ == spec_read_suffix(self@, meta.endianness),
    {
        match &self.ty {
            TypeDef::BuiltIn(b) => b.endianness(meta.endianness),
            _ => match meta.endianness {
                Endianness::Le => String::from_str("le"),
                Endianness::Be => String::from_str("be"),
            },
        }
    }
}

/// The byte-order suffix of a resolved read.
pub open spec fn spec_read_suffix(vc: crate::hir::VariableContentsV, endian: Endianness) -> Seq<
    char,
> {
    match vc.ty {
        TypeDefV::BuiltIn(b) => crate::hir::spec_endian_suffix(b, endian),
        _ => match endian {
            Endianness::Le => "le"@,
            Endianness::Be => "be"@,
        },
    }
}


/// The documentation comment of one resolved item: its description, and its
/// reference under a heading of its own; an item with neither has an empty
/// comment.
pub open spec fn spec_doc_comment(d: DocSpecV) -> Seq<char> {
    (match d.description {
        Some(s) => s,
        None => Seq::empty(),
    }) + (match d.reference {
        Some(r) => "\n### Reference\n"@ + r,
        None => Seq::empty(),
    })
}

impl DocSpec {
    /// Renders the documentation comment of this item.
    pub fn doc_comment(&self) -> (r: String)
        ensures
            r@ == spec_doc_comment(self@),
    {
        let mut out = String::new();
        match &self.description {
            Some(s) => {
                out.append(s.as_str());
            },
            None => {},
        }
        match &self.reference {
            Some(rf) => {
                out.append("\n### Reference\n");
                out.append(rf.as_str());
            },
            None => {},
        }
        proof {
            assert(out@ =~= spec_doc_comment(self@));
        }
        out
    }
}

} // verus!
