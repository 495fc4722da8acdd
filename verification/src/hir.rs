use crate::schema::{Endianness, IntegerValue, IntegerValueV, Param, ParamV};
use vstd::prelude::*;
use vstd::string::StringExecFns;

verus! {

/// A built-in scalar: unsigned and signed integers of 8, 16, 32 and 64
/// bits, and floating-point values of 32 and 64 bits.
#[derive(Copy, Clone, PartialEq, Eq, Structural, Debug)]
pub enum BuiltIn {
    U8,
    U16,
    U32,
    U64,
    I8,
    I16,
    I32,
    I64,
    F32,
    F64,
}

/// The two-character format code of a built-in scalar.
pub open spec fn spec_ks_type(b: BuiltIn) -> Seq<char> {
    match b {
        BuiltIn::U8 => "u1"@,
        BuiltIn::U16 => "u2"@,
        BuiltIn::U32 => "u4"@,
        BuiltIn::U64 => "u8"@,
        BuiltIn::I8 => "s1"@,
        BuiltIn::I16 => "s2"@,
        BuiltIn::I32 => "s4"@,
        BuiltIn::I64 => "s8"@,
        BuiltIn::F32 => "f4"@,
        BuiltIn::F64 => "f8"@,
    }
}

/// The built-in scalar of a format code, if the code names one.
pub open spec fn spec_built_in_of(s: Seq<char>) -> Option<BuiltIn> {
    if s == "u1"@ {
        Some(BuiltIn::U8)
    } else if s == "u2"@ {
        Some(BuiltIn::U16)
    } else if s == "u4"@ {
        Some(BuiltIn::U32)
    } else if s == "u8"@ {
        Some(BuiltIn::U64)
    } else if s == "s1"@ {
        Some(BuiltIn::I8)
    } else if s == "s2"@ {
        Some(BuiltIn::I16)
    } else if s == "s4"@ {
        Some(BuiltIn::I32)
    } else if s == "s8"@ {
        Some(BuiltIn::I64)
    } else if s == "f4"@ {
        Some(BuiltIn::F32)
    } else if s == "f8"@ {
        Some(BuiltIn::F64)
    } else {
        None
    }
}

impl BuiltIn {
    /// The format code of this scalar.
    pub fn ks_type(&self) -> (r: String)
        ensures
            r@ == spec_ks_type(*self),
    {
        match self {
            BuiltIn::U8 => String::from_str("u1"),
            BuiltIn::U16 => String::from_str("u2"),
            BuiltIn::U32 => String::from_str("u4"),
            BuiltIn::U64 => String::from_str("u8"),
            BuiltIn::I8 => String::from_str("s1"),
            BuiltIn::I16 => String::from_str("s2"),
            BuiltIn::I32 => String::from_str("s4"),
            BuiltIn::I64 => String::from_str("s8"),
            BuiltIn::F32 => String::from_str("f4"),
            BuiltIn::F64 => String::from_str("f8"),
        }
    }

    /// The byte-order suffix of a read of this scalar: single-byte reads
    /// carry none, every wider read is qualified by the resolved order.
    pub fn endianness(&self, endian: Endianness) -> (r: String)
        ensures
            r@ == spec_endian_suffix(*self, endian),
    {
        match self {
            BuiltIn::U8 => String::new(),
            BuiltIn::I8 => String::new(),
            _ => match endian {
                Endianness::Le => String::from_str("le"),
                Endianness::Be => String::from_str("be"),
            },
        }
    }

    /// The width of this scalar in bytes.
    pub fn width(&self) -> (r: usize)
        ensures
            r == spec_width(*self),
    {
        match self {
            BuiltIn::U8 => 1,
            BuiltIn::U16 => 2,
            BuiltIn::U32 => 4,
            BuiltIn::U64 => 8,
            BuiltIn::I8 => 1,
            BuiltIn::I16 => 2,
            BuiltIn::I32 => 4,
            BuiltIn::I64 => 8,
            BuiltIn::F32 => 4,
            BuiltIn::F64 => 8,
        }
    }

    /// Resolves a format code.
    pub fn from_code(s: &str) -> (r: Option<BuiltIn>)
        ensures
            r == spec_built_in_of(s@),
    {
        if crate::parse::str_eq(s, "u1") {
            Some(BuiltIn::U8)
        } else if crate::parse::str_eq(s, "u2") {
            Some(BuiltIn::U16)
        } else if crate::parse::str_eq(s, "u4") {
            Some(BuiltIn::U32)
        } else if crate::parse::str_eq(s, "u8") {
            Some(BuiltIn::U64)
        } else if crate::parse::str_eq(s, "s1") {
            Some(BuiltIn::I8)
        } else if crate::parse::str_eq(s, "s2") {
            Some(BuiltIn::I16)
        } else if crate::parse::str_eq(s, "s4") {
            Some(BuiltIn::I32)
        } else if crate::parse::str_eq(s, "s8") {
            Some(BuiltIn::I64)
        } else if crate::parse::str_eq(s, "f4") {
            Some(BuiltIn::F32)
        } else if crate::parse::str_eq(s, "f8") {
            Some(BuiltIn::F64)
        } else {
            None
        }
    }
}

/// The byte-order suffix of a scalar read.
pub open spec fn spec_endian_suffix(b: BuiltIn, endian: Endianness) -> Seq<char> {
    match b {
        BuiltIn::U8 => Seq::empty(),
        BuiltIn::I8 => Seq::empty(),
        _ => match endian {
            Endianness::Le => "le"@,
            Endianness::Be => "be"@,
        },
    }
}

/// The width of a built-in scalar in bytes.
pub open spec fn spec_width(b: BuiltIn) -> nat {
    match b {
        BuiltIn::U8 => 1,
        BuiltIn::U16 => 2,
        BuiltIn::U32 => 4,
        BuiltIn::U64 => 8,
        BuiltIn::I8 => 1,
        BuiltIn::I16 => 2,
        BuiltIn::I32 => 4,
        BuiltIn::I64 => 8,
        BuiltIn::F32 => 4,
        BuiltIn::F64 => 8,
    }
}

/// The key of one resolved switch case.
#[derive(PartialEq, Eq, Debug)]
pub enum CaseIdent {
    /// The name of an enumeration value.
    Enum(String),
    /// An integer literal.
    Int(i64),
}

/// The mathematical shape of a resolved case key.
#[verifier::ext_equal]
pub enum CaseIdentV {
    Enum(Seq<char>),
    Int(i64),
}

impl View for CaseIdent {
    type V = CaseIdentV;

    open spec fn view(&self) -> CaseIdentV {
        match self {
            CaseIdent::Enum(s) => CaseIdentV::Enum(s@),
            CaseIdent::Int(i) => CaseIdentV::Int(*i),
        }
    }
}

/// A size bound of a byte read: an exact count, or the rest of the stream.
#[derive(PartialEq, Eq, Debug)]
pub enum Size {
    Fixed(IntegerValue),
    Eos,
}

/// The mathematical shape of a size bound.
#[verifier::ext_equal]
pub enum SizeV {
    Fixed(IntegerValueV),
    Eos,
}

impl View for Size {
    type V = SizeV;

    open spec fn view(&self) -> SizeV {
        match self {
            Size::Fixed(v) => SizeV::Fixed(v@),
            Size::Eos => SizeV::Eos,
        }
    }
}

/// The resolved type of an attribute's read.
#[derive(PartialEq, Eq, Debug)]
pub enum TypeDef {
    /// A built-in scalar.
    BuiltIn(BuiltIn),
    /// A user-defined type, by its canonicalized name.
    Custom(String),
    /// A switch over the value of another attribute.
    Switch { on: String, cases: Vec<Case> },
    /// A size-bounded byte read.
    Bytes(Size),
}

/// One resolved case of a switch.
#[derive(PartialEq, Eq, Debug)]
pub struct Case {
    pub ident: CaseIdent,
    pub ty: TypeDef,
}

/// The mathematical shape of a resolved read type.
#[verifier::ext_equal]
pub enum TypeDefV {
    BuiltIn(BuiltIn),
    Custom(Seq<char>),
    Switch { on: Seq<char>, cases: Seq<CaseV> },
    Bytes(SizeV),
}

/// The mathematical shape of a resolved switch case.
#[verifier::ext_equal]
pub struct CaseV {
    pub ident: CaseIdentV,
    pub ty: TypeDefV,
}

pub open spec fn type_def_view(t: TypeDef) -> TypeDefV
    decreases t,
{
    match t {
        TypeDef::BuiltIn(b) => TypeDefV::BuiltIn(b),
        TypeDef::Custom(s) => TypeDefV::Custom(s@),
        TypeDef::Switch { on, cases } => TypeDefV::Switch {
            on: on@,
            cases: Seq::new(
                cases@.len(),
                |i: int|
                    if 0 <= i < cases@.len() {
                        case_view(cases@[i])
                    } else {
                        CaseV { ident: CaseIdentV::Int(0), ty: TypeDefV::Bytes(SizeV::Eos) }
                    },
            ),
        },
        TypeDef::Bytes(sz) => TypeDefV::Bytes(sz@),
    }
}

pub open spec fn case_view(c: Case) -> CaseV
    decreases c,
{
    CaseV { ident: c.ident@, ty: type_def_view(c.ty) }
}

impl View for TypeDef {
    type V = TypeDefV;

    open spec fn view(&self) -> TypeDefV {
        type_def_view(*self)
    }
}

impl View for Case {
    type V = CaseV;

    open spec fn view(&self) -> CaseV {
        case_view(*self)
    }
}

/// Resolved repetition of an attribute.
#[derive(PartialEq, Eq, Debug)]
pub enum Repeat {
    /// Until the end of the stream.
    Eos,
    /// As many times as the count gives.
    Expr(IntegerValue),
    /// Until a predicate holds, kept unevaluated.
    Until(String),
}

/// The mathematical shape of resolved repetition.
#[verifier::ext_equal]
pub enum RepeatV {
    Eos,
    Expr(IntegerValueV),
    Until(Seq<char>),
}

impl View for Repeat {
    type V = RepeatV;

    open spec fn view(&self) -> RepeatV {
        match self {
            Repeat::Eos => RepeatV::Eos,
            Repeat::Expr(v) => RepeatV::Expr(v@),
            Repeat::Until(s) => RepeatV::Until(s@),
        }
    }
}

/// The resolved documentation of an attribute or type.
#[derive(PartialEq, Eq, Debug)]
pub struct DocSpec {
    /// A description of the item.
    pub description: Option<String>,
    /// A reference to the original documentation of the format.
    pub reference: Option<String>,
}

/// The mathematical shape of resolved documentation.
#[verifier::ext_equal]
pub struct DocSpecV {
    pub description: Option<Seq<char>>,
    pub reference: Option<Seq<char>>,
}

impl View for DocSpec {
    type V = DocSpecV;

    open spec fn view(&self) -> DocSpecV {
        DocSpecV {
            description: crate::schema::opt_string_view(self.description),
            reference: crate::schema::opt_string_view(self.reference),
        }
    }
}

/// The resolved metadata of a type: its byte order.
#[derive(Copy, Clone, PartialEq, Eq, Structural, Debug)]
pub struct MetaSpec {
    pub endianness: Endianness,
}

/// What the reads of an attribute produce and check: fixed contents are
/// checked and never stored, variable contents are read and stored.
#[derive(PartialEq, Eq, Debug)]
pub enum Contents {
    Fixed(crate::schema::FixedContents),
    Variable(VariableContents),
}

/// A stored attribute's resolved read: its type, an optional enumeration
/// binding, and optional repetition.
#[derive(PartialEq, Eq, Debug)]
pub struct VariableContents {
    pub ty: TypeDef,
    pub enum_ident: Option<String>,
    pub repeat: Option<Repeat>,
}

/// The mathematical shape of an attribute's contents.
#[verifier::ext_equal]
pub enum ContentsV {
    Fixed(crate::schema::FixedContentsV),
    Variable(VariableContentsV),
}

/// The mathematical shape of a resolved read.
#[verifier::ext_equal]
pub struct VariableContentsV {
    pub ty: TypeDefV,
    pub enum_ident: Option<Seq<char>>,
    pub repeat: Option<RepeatV>,
}

impl View for VariableContents {
    type V = VariableContentsV;

    open spec fn view(&self) -> VariableContentsV {
        VariableContentsV {
            ty: self.ty@,
            enum_ident: crate::schema::opt_string_view(self.enum_ident),
            repeat: match self.repeat {
                Some(r) => Some(r@),
                None => None,
            },
        }
    }
}

impl View for Contents {
    type V = ContentsV;

    open spec fn view(&self) -> ContentsV {
        match self {
            Contents::Fixed(c) => ContentsV::Fixed(c@),
            Contents::Variable(vc) => ContentsV::Variable(vc@),
        }
    }
}

/// One resolved attribute of a type's sequence.
#[derive(PartialEq, Eq, Debug)]
pub struct Attribute {
    /// The identifier; empty only for an attribute that holds fixed
    /// contents and so is never stored.
    pub id: String,
    pub doc: DocSpec,
    pub contents: Contents,
}

/// The mathematical shape of a resolved attribute.
#[verifier::ext_equal]
pub struct AttributeV {
    pub id: Seq<char>,
    pub doc: DocSpecV,
    pub contents: ContentsV,
}

impl View for Attribute {
    type V = AttributeV;

    open spec fn view(&self) -> AttributeV {
        AttributeV { id: self.id@, doc: self.doc@, contents: self.contents@ }
    }
}

/// The resolved attributes of one type, in declaration order.
#[derive(PartialEq, Eq, Debug)]
pub struct Attributes(pub Vec<Attribute>);

/// The mathematical shape of a resolved attribute list.
pub open spec fn attributes_view(a: Attributes) -> Seq<AttributeV> {
    Seq::new(a.0@.len(), |i: int| a.0@[i]@)
}

impl View for Attributes {
    type V = Seq<AttributeV>;

    open spec fn view(&self) -> Seq<AttributeV> {
        attributes_view(*self)
    }
}

/// One variant of an emitted enumeration.
#[derive(PartialEq, Eq, Debug)]
pub struct EnumVariant {
    /// The canonicalized symbol.
    pub ident: String,
    /// The integer code.
    pub value: u64,
}

/// The mathematical shape of an enumeration variant.
#[verifier::ext_equal]
pub struct EnumVariantV {
    pub ident: Seq<char>,
    pub value: u64,
}

impl View for EnumVariant {
    type V = EnumVariantV;

    open spec fn view(&self) -> EnumVariantV {
        EnumVariantV { ident: self.ident@, value: self.value }
    }
}

/// One emitted enumeration: a canonicalized name and a closed variant set.
#[derive(PartialEq, Eq, Debug)]
pub struct EnumSpec {
    pub ident: String,
    pub variants: Vec<EnumVariant>,
}

/// The mathematical shape of an emitted enumeration.
#[verifier::ext_equal]
pub struct EnumSpecV {
    pub ident: Seq<char>,
    pub variants: Seq<EnumVariantV>,
}

impl View for EnumSpec {
    type V = EnumSpecV;

    open spec fn view(&self) -> EnumSpecV {
        EnumSpecV {
            ident: self.ident@,
            variants: Seq::new(self.variants@.len(), |i: int| self.variants@[i]@),
        }
    }
}

/// The emitted enumerations of one type.
#[derive(PartialEq, Eq, Debug)]
pub struct EnumsSpec(pub Vec<EnumSpec>);

/// The mathematical shape of the enumerations of one type.
pub open spec fn enums_spec_view(e: EnumsSpec) -> Seq<EnumSpecV> {
    Seq::new(e.0@.len(), |i: int| e.0@[i]@)
}

impl View for EnumsSpec {
    type V = Seq<EnumSpecV>;

    open spec fn view(&self) -> Seq<EnumSpecV> {
        enums_spec_view(*self)
    }
}

/// The naming and byte-order context a nested type resolves under.
#[derive(PartialEq, Eq, Debug)]
pub struct InheritedMeta {
    /// A name given from outside, if any.
    pub id: Option<String>,
    /// Whether the given name overrides the type's own declared one.
    pub id_override: bool,
    /// The enclosing type's resolved byte order, if any.
    pub endianness: Option<Endianness>,
}

/// The mathematical shape of the inherited context.
#[verifier::ext_equal]
pub struct InheritedMetaV {
    pub id: Option<Seq<char>>,
    pub id_override: bool,
    pub endianness: Option<Endianness>,
}

impl View for InheritedMeta {
    type V = InheritedMetaV;

    open spec fn view(&self) -> InheritedMetaV {
        InheritedMetaV {
            id: crate::schema::opt_string_view(self.id),
            id_override: self.id_override,
            endianness: self.endianness,
        }
    }
}

/// A fully resolved type: its identifier and byte order are settled, every
/// attribute's logic is classified, and its nested types and enumerations
/// are resolved in turn.
#[derive(PartialEq, Eq, Debug)]
pub struct Type {
    /// The canonicalized identifier.
    pub id: String,
    /// The resolved byte order.
    pub endianness: Endianness,
    pub doc: DocSpec,
    /// Declared construction inputs, recorded and not wired into emission.
    pub params: Vec<Param>,
    pub seq: Attributes,
    /// Nested types, exclusively owned.
    pub types: Vec<Type>,
    /// Enumerations, exclusively owned.
    pub enums: EnumsSpec,
}

/// The mathematical shape of a resolved type.
#[verifier::ext_equal]
pub struct TypeV {
    pub id: Seq<char>,
    pub endianness: Endianness,
    pub doc: DocSpecV,
    pub params: Seq<ParamV>,
    pub seq: Seq<AttributeV>,
    pub types: Seq<TypeV>,
    pub enums: Seq<EnumSpecV>,
}

pub open spec fn resolved_type_view(t: Type) -> TypeV
    decreases t,
{
    TypeV {
        id: t.id@,
        endianness: t.endianness,
        doc: t.doc@,
        params: Seq::new(t.params@.len(), |i: int| t.params@[i]@),
        seq: attributes_view(t.seq),
        types: Seq::new(
            t.types@.len(),
            |i: int|
                if 0 <= i < t.types@.len() {
                    resolved_type_view(t.types@[i])
                } else {
                    arbitrary_resolved_type_v()
                },
        ),
        enums: enums_spec_view(t.enums),
    }
}

/// A placeholder view, never the view of a real type.
pub open spec fn arbitrary_resolved_type_v() -> TypeV {
    TypeV {
        id: Seq::empty(),
        endianness: Endianness::Le,
        doc: DocSpecV { description: None, reference: None },
        params: Seq::empty(),
        seq: Seq::empty(),
        types: Seq::empty(),
        enums: Seq::empty(),
    }
}

impl View for Type {
    type V = TypeV;

    open spec fn view(&self) -> TypeV {
        resolved_type_view(*self)
    }
}

} // verus!
