use vstd::prelude::*;

verus! {

/// A byte order: the only inherited property of a type's metadata.
#[derive(Copy, Clone, PartialEq, Eq, Structural, Debug)]
pub enum Endianness {
    Le,
    Be,
}

/// A documentation block: a description and references to the original
/// documentation of the format.
#[derive(PartialEq, Eq, Debug)]
pub struct Doc {
    pub doc: Option<String>,
    pub doc_ref: Vec<String>,
}

/// The mathematical shape of a documentation block.
#[verifier::ext_equal]
pub struct DocV {
    pub doc: Option<Seq<char>>,
    pub doc_ref: Seq<Seq<char>>,
}

impl View for Doc {
    type V = DocV;

    open spec fn view(&self) -> DocV {
        DocV {
            doc: opt_string_view(self.doc),
            doc_ref: Seq::new(self.doc_ref@.len(), |i: int| self.doc_ref@[i]@),
        }
    }
}

/// Cross references into external registries describing the format.
#[derive(PartialEq, Eq, Debug)]
pub struct Xref {
    pub forensicswiki: Vec<String>,
    pub iso: Vec<String>,
    pub justsolve: Vec<String>,
    pub loc: Vec<String>,
    pub mime: Vec<String>,
    pub pronom: Vec<String>,
    pub rfc: Vec<String>,
    pub wikidata: Vec<String>,
}

/// The mathematical shape of the cross references.
#[verifier::ext_equal]
pub struct XrefV {
    pub forensicswiki: Seq<Seq<char>>,
    pub iso: Seq<Seq<char>>,
    pub justsolve: Seq<Seq<char>>,
    pub loc: Seq<Seq<char>>,
    pub mime: Seq<Seq<char>>,
    pub pronom: Seq<Seq<char>>,
    pub rfc: Seq<Seq<char>>,
    pub wikidata: Seq<Seq<char>>,
}

/// The view of a list of strings.
pub open spec fn strings_view(v: Seq<String>) -> Seq<Seq<char>> {
    Seq::new(v.len(), |i: int| v[i]@)
}

impl View for Xref {
    type V = XrefV;

    open spec fn view(&self) -> XrefV {
        XrefV {
            forensicswiki: strings_view(self.forensicswiki@),
            iso: strings_view(self.iso@),
            justsolve: strings_view(self.justsolve@),
            loc: strings_view(self.loc@),
            mime: strings_view(self.mime@),
            pronom: strings_view(self.pronom@),
            rfc: strings_view(self.rfc@),
            wikidata: strings_view(self.wikidata@),
        }
    }
}

/// The documentation-bearing part of a type's metadata.
#[derive(PartialEq, Eq, Debug)]
pub struct MetaDoc {
    pub title: String,
    pub application: Vec<String>,
    pub file_extension: Vec<String>,
    pub xref: Xref,
    pub license: String,
}

/// The mathematical shape of the documentation metadata.
#[verifier::ext_equal]
pub struct MetaDocV {
    pub title: Seq<char>,
    pub application: Seq<Seq<char>>,
    pub file_extension: Seq<Seq<char>>,
    pub xref: XrefV,
    pub license: Seq<char>,
}

impl View for MetaDoc {
    type V = MetaDocV;

    open spec fn view(&self) -> MetaDocV {
        MetaDocV {
            title: self.title@,
            application: strings_view(self.application@),
            file_extension: strings_view(self.file_extension@),
            xref: self.xref@,
            license: self.license@,
        }
    }
}

/// A type's metadata: its identifier, documentation, format version
/// markers, imports, default text encoding, and declared byte order.
#[derive(PartialEq, Eq, Debug)]
pub struct Meta {
    pub id: Option<String>,
    pub doc: MetaDoc,
    pub ks_version: Option<String>,
    pub ks_debug: bool,
    pub ks_opaque_types: bool,
    pub imports: Vec<String>,
    pub encoding: Option<String>,
    pub endianness: Option<Endianness>,
}

/// The mathematical shape of a type's metadata.
#[verifier::ext_equal]
pub struct MetaV {
    pub id: Option<Seq<char>>,
    pub doc: MetaDocV,
    pub ks_version: Option<Seq<char>>,
    pub ks_debug: bool,
    pub ks_opaque_types: bool,
    pub imports: Seq<Seq<char>>,
    pub encoding: Option<Seq<char>>,
    pub endianness: Option<Endianness>,
}

/// The view of an optional string.
pub open spec fn opt_string_view(v: Option<String>) -> Option<Seq<char>> {
    match v {
        Some(s) => Some(s@),
        None => None,
    }
}

impl View for Meta {
    type V = MetaV;

    open spec fn view(&self) -> MetaV {
        MetaV {
            id: opt_string_view(self.id),
            doc: self.doc@,
            ks_version: opt_string_view(self.ks_version),
            ks_debug: self.ks_debug,
            ks_opaque_types: self.ks_opaque_types,
            imports: strings_view(self.imports@),
            encoding: opt_string_view(self.encoding),
            endianness: self.endianness,
        }
    }
}

/// An integer-valued key: either a literal or a reference to another
/// attribute, kept as an unevaluated name.
#[derive(PartialEq, Eq, Debug)]
pub enum IntegerValue {
    Variable(String),
    Literal(u64),
}

/// The mathematical shape of an integer-valued key.
#[verifier::ext_equal]
pub enum IntegerValueV {
    Variable(Seq<char>),
    Literal(u64),
}

impl View for IntegerValue {
    type V = IntegerValueV;

    open spec fn view(&self) -> IntegerValueV {
        match self {
            IntegerValue::Variable(s) => IntegerValueV::Variable(s@),
            IntegerValue::Literal(v) => IntegerValueV::Literal(*v),
        }
    }
}

/// Declared fixed contents of an attribute: either a text, standing for its
/// bytes, or an explicit byte array.
#[derive(PartialEq, Eq, Debug)]
pub enum FixedContents {
    String(String),
    Array(Vec<u8>),
}

/// The mathematical shape of declared fixed contents.
#[verifier::ext_equal]
pub enum FixedContentsV {
    String(Seq<char>),
    Array(Seq<u8>),
}

impl View for FixedContents {
    type V = FixedContentsV;

    open spec fn view(&self) -> FixedContentsV {
        match self {
            FixedContents::String(s) => FixedContentsV::String(s@),
            FixedContents::Array(a) => FixedContentsV::Array(a@),
        }
    }
}

/// The key of one switch case: an integer literal, or a symbol naming an
/// enumeration value.
#[derive(PartialEq, Eq, Debug)]
pub enum CaseKey {
    Int(i64),
    Sym(String),
}

/// The mathematical shape of a switch-case key.
#[verifier::ext_equal]
pub enum CaseKeyV {
    Int(i64),
    Sym(Seq<char>),
}

impl View for CaseKey {
    type V = CaseKeyV;

    open spec fn view(&self) -> CaseKeyV {
        match self {
            CaseKey::Int(i) => CaseKeyV::Int(*i),
            CaseKey::Sym(s) => CaseKeyV::Sym(s@),
        }
    }
}

/// One case of a switch type: a key mapped to a type reference.
#[derive(PartialEq, Eq, Debug)]
pub struct SwitchCase {
    pub key: CaseKey,
    pub ty: String,
}

/// The mathematical shape of a switch case.
#[verifier::ext_equal]
pub struct SwitchCaseV {
    pub key: CaseKeyV,
    pub ty: Seq<char>,
}

impl View for SwitchCase {
    type V = SwitchCaseV;

    open spec fn view(&self) -> SwitchCaseV {
        SwitchCaseV { key: self.key@, ty: self.ty@ }
    }
}

/// The `type` key of an attribute: a bare type reference, or a switch over
/// the value of another attribute.
#[derive(PartialEq, Eq, Debug)]
pub enum AttrType {
    TypeRef(String),
    Switch { switch_on: String, cases: Vec<SwitchCase> },
}

/// The mathematical shape of an attribute's `type` key.
#[verifier::ext_equal]
pub enum AttrTypeV {
    TypeRef(Seq<char>),
    Switch { switch_on: Seq<char>, cases: Seq<SwitchCaseV> },
}

impl View for AttrType {
    type V = AttrTypeV;

    open spec fn view(&self) -> AttrTypeV {
        match self {
            AttrType::TypeRef(s) => AttrTypeV::TypeRef(s@),
            AttrType::Switch { switch_on, cases } => AttrTypeV::Switch {
                switch_on: switch_on@,
                cases: Seq::new(cases@.len(), |i: int| cases@[i]@),
            },
        }
    }
}

/// The `repeat` key of an attribute.
#[derive(Copy, Clone, PartialEq, Eq, Structural, Debug)]
pub enum Repeat {
    /// As many times as an expression gives.
    Expr,
    /// Until the end of the stream.
    Eos,
    /// Until a predicate holds.
    Until,
}

/// One attribute of a type's sequence, as parsed: every key of the
/// description is represented, whether or not later stages evaluate it.
#[derive(PartialEq, Eq, Debug)]
pub struct Attr {
    /// The identifier; an attribute holding only fixed contents may omit it.
    pub id: Option<String>,
    pub doc: Doc,
    pub contents: Option<FixedContents>,
    pub ty: Option<AttrType>,
    pub repeat: Option<Repeat>,
    pub repeat_expr: Option<IntegerValue>,
    pub repeat_until: Option<String>,
    /// A conditional-presence expression, kept unevaluated.
    pub if_expr: Option<String>,
    pub size: Option<IntegerValue>,
    pub size_eos: bool,
    pub process: Option<String>,
    pub en: Option<String>,
    pub encoding: Option<String>,
    pub pad_right: Option<u64>,
    pub terminator: Option<u64>,
    pub consume: bool,
    /// Whether a terminator-delimited read keeps the terminator.
    pub include_term: bool,
    pub eos_error: bool,
    pub pos: Option<IntegerValue>,
    pub io: Option<String>,
    pub value: Option<String>,
}

/// The mathematical shape of a parsed attribute.
#[verifier::ext_equal]
pub struct AttrV {
    pub id: Option<Seq<char>>,
    pub doc: DocV,
    pub contents: Option<FixedContentsV>,
    pub ty: Option<AttrTypeV>,
    pub repeat: Option<Repeat>,
    pub repeat_expr: Option<IntegerValueV>,
    pub repeat_until: Option<Seq<char>>,
    pub if_expr: Option<Seq<char>>,
    pub size: Option<IntegerValueV>,
    pub size_eos: bool,
    pub process: Option<Seq<char>>,
    pub en: Option<Seq<char>>,
    pub encoding: Option<Seq<char>>,
    pub pad_right: Option<u64>,
    pub terminator: Option<u64>,
    pub consume: bool,
    pub include_term: bool,
    pub eos_error: bool,
    pub pos: Option<IntegerValueV>,
    pub io: Option<Seq<char>>,
    pub value: Option<Seq<char>>,
}

impl View for Attr {
    type V = AttrV;

    open spec fn view(&self) -> AttrV {
        AttrV {
            id: opt_string_view(self.id),
            doc: self.doc@,
            contents: match self.contents {
                Some(c) => Some(c@),
                None => None,
            },
            ty: match self.ty {
                Some(t) => Some(t@),
                None => None,
            },
            repeat: self.repeat,
            repeat_expr: match self.repeat_expr {
                Some(v) => Some(v@),
                None => None,
            },
            repeat_until: opt_string_view(self.repeat_until),
            if_expr: opt_string_view(self.if_expr),
            size: match self.size {
                Some(v) => Some(v@),
                None => None,
            },
            size_eos: self.size_eos,
            process: opt_string_view(self.process),
            en: opt_string_view(self.en),
            encoding: opt_string_view(self.encoding),
            pad_right: self.pad_right,
            terminator: self.terminator,
            consume: self.consume,
            include_term: self.include_term,
            eos_error: self.eos_error,
            pos: match self.pos {
                Some(v) => Some(v@),
                None => None,
            },
            io: opt_string_view(self.io),
            value: opt_string_view(self.value),
        }
    }
}

/// One value of an enumeration: its symbol and documentation.
#[derive(PartialEq, Eq, Debug)]
pub struct EnumValue {
    pub id: String,
    pub doc: Doc,
}

/// The mathematical shape of an enumeration value.
#[verifier::ext_equal]
pub struct EnumValueV {
    pub id: Seq<char>,
    pub doc: DocV,
}

impl View for EnumValue {
    type V = EnumValueV;

    open spec fn view(&self) -> EnumValueV {
        EnumValueV { id: self.id@, doc: self.doc@ }
    }
}

/// One declared code of an enumeration, with its value.
#[derive(PartialEq, Eq, Debug)]
pub struct EnumEntry {
    pub code: u64,
    pub value: EnumValue,
}

/// The mathematical shape of one enumeration code.
#[verifier::ext_equal]
pub struct EnumEntryV {
    pub code: u64,
    pub value: EnumValueV,
}

impl View for EnumEntry {
    type V = EnumEntryV;

    open spec fn view(&self) -> EnumEntryV {
        EnumEntryV { code: self.code, value: self.value@ }
    }
}

/// An enumeration: a closed mapping from a non-negative integer code to a
/// symbol, in declaration order.
#[derive(PartialEq, Eq, Debug)]
pub struct Enum(pub Vec<EnumEntry>);

/// The mathematical shape of an enumeration.
pub open spec fn enum_view(e: Enum) -> Seq<EnumEntryV> {
    Seq::new(e.0@.len(), |i: int| e.0@[i]@)
}

impl View for Enum {
    type V = Seq<EnumEntryV>;

    open spec fn view(&self) -> Seq<EnumEntryV> {
        enum_view(*self)
    }
}

/// A declared input of a user-defined type's construction.  Parameters are
/// recorded in the model and are not wired into emission.
#[derive(PartialEq, Eq, Debug)]
pub struct Param {
    pub id: String,
    pub ty: String,
    pub doc: String,
    pub doc_ref: Vec<String>,
    pub en: Option<String>,
}

/// The mathematical shape of a parameter.
#[verifier::ext_equal]
pub struct ParamV {
    pub id: Seq<char>,
    pub ty: Seq<char>,
    pub doc: Seq<char>,
    pub doc_ref: Seq<Seq<char>>,
    pub en: Option<Seq<char>>,
}

impl View for Param {
    type V = ParamV;

    open spec fn view(&self) -> ParamV {
        ParamV {
            id: self.id@,
            ty: self.ty@,
            doc: self.doc@,
            doc_ref: strings_view(self.doc_ref@),
            en: opt_string_view(self.en),
        }
    }
}


/// One nested type declaration, under its key name.
#[derive(PartialEq, Eq, Debug)]
pub struct TypeEntry {
    pub key: String,
    pub ty: Type,
}

/// One named instance: a lazily computed attribute, recorded in the model
/// and out of scope for evaluation.
#[derive(PartialEq, Eq, Debug)]
pub struct InstanceEntry {
    pub key: String,
    pub attr: Attr,
}

/// One enumeration declaration, under its key name.
#[derive(PartialEq, Eq, Debug)]
pub struct EnumDecl {
    pub key: String,
    pub en: Enum,
}

/// A type definition as parsed: metadata, documentation, parameters, the
/// attribute sequence, and the nested types, instances and enumerations it
/// exclusively owns.
#[derive(PartialEq, Eq, Debug)]
pub struct Type {
    pub meta: Option<Meta>,
    pub doc: Option<String>,
    pub doc_ref: Vec<String>,
    pub params: Vec<Param>,
    pub seq: Vec<Attr>,
    pub types: Vec<TypeEntry>,
    pub instances: Vec<InstanceEntry>,
    pub enums: Vec<EnumDecl>,
}

/// The mathematical shape of a nested type declaration.
#[verifier::ext_equal]
pub struct TypeEntryV {
    pub key: Seq<char>,
    pub ty: TypeV,
}

/// The mathematical shape of a named instance.
#[verifier::ext_equal]
pub struct InstanceEntryV {
    pub key: Seq<char>,
    pub attr: AttrV,
}

/// The mathematical shape of an enumeration declaration.
#[verifier::ext_equal]
pub struct EnumDeclV {
    pub key: Seq<char>,
    pub en: Seq<EnumEntryV>,
}

/// The mathematical shape of a parsed type definition.
#[verifier::ext_equal]
pub struct TypeV {
    pub meta: Option<MetaV>,
    pub doc: Option<Seq<char>>,
    pub doc_ref: Seq<Seq<char>>,
    pub params: Seq<ParamV>,
    pub seq: Seq<AttrV>,
    pub types: Seq<TypeEntryV>,
    pub instances: Seq<InstanceEntryV>,
    pub enums: Seq<EnumDeclV>,
}

pub open spec fn type_view(t: Type) -> TypeV
    decreases t,
{
    TypeV {
        meta: match t.meta {
            Some(m) => Some(m@),
            None => None,
        },
        doc: opt_string_view(t.doc),
        doc_ref: strings_view(t.doc_ref@),
        params: Seq::new(t.params@.len(), |i: int| t.params@[i]@),
        seq: Seq::new(t.seq@.len(), |i: int| t.seq@[i]@),
        types: Seq::new(
            t.types@.len(),
            |i: int|
                if 0 <= i < t.types@.len() {
                    type_entry_view(t.types@[i])
                } else {
                    arbitrary_type_entry_v()
                },
        ),
        instances: Seq::new(t.instances@.len(), |i: int| t.instances@[i]@),
        enums: Seq::new(t.enums@.len(), |i: int| t.enums@[i]@),
    }
}

pub open spec fn type_entry_view(e: TypeEntry) -> TypeEntryV
    decreases e,
{
    TypeEntryV { key: e.key@, ty: type_view(e.ty) }
}

/// A placeholder entry view, never the view of a real entry.
pub open spec fn arbitrary_type_entry_v() -> TypeEntryV {
    TypeEntryV {
        key: Seq::empty(),
        ty: TypeV {
            meta: None,
            doc: None,
            doc_ref: Seq::empty(),
            params: Seq::empty(),
            seq: Seq::empty(),
            types: Seq::empty(),
            instances: Seq::empty(),
            enums: Seq::empty(),
        },
    }
}

impl View for InstanceEntry {
    type V = InstanceEntryV;

    open spec fn view(&self) -> InstanceEntryV {
        InstanceEntryV { key: self.key@, attr: self.attr@ }
    }
}

impl View for EnumDecl {
    type V = EnumDeclV;

    open spec fn view(&self) -> EnumDeclV {
        EnumDeclV { key: self.key@, en: enum_view(self.en) }
    }
}

impl View for TypeEntry {
    type V = TypeEntryV;

    open spec fn view(&self) -> TypeEntryV {
        type_entry_view(*self)
    }
}

impl View for Type {
    type V = TypeV;

    open spec fn view(&self) -> TypeV {
        type_view(*self)
    }
}

} // verus!
