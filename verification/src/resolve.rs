use crate::document::{dict_pairs, Entry, EntryV};
use crate::error::{Error, ErrorV};
use crate::hir::{
    attributes_view, enums_spec_view, spec_built_in_of, Attribute, AttributeV, Attributes, Case,
    CaseIdent, CaseIdentV, CaseV, Contents, ContentsV, DocSpec, DocSpecV, EnumSpec, EnumSpecV,
    EnumVariant, EnumVariantV, EnumsSpec, MetaSpec, Repeat, RepeatV, Size, SizeV, TypeDef,
    TypeDefV, VariableContents, VariableContentsV,
};
use crate::hir::BuiltIn;
use crate::parse::{
    attr_items, get_dict, get_required_arr, spec_attr_items, spec_enum_decl_items, spec_get_dict,
    spec_get_required_arr, spec_parse_endianness,
};
use crate::schema::{Attr, AttrTypeV, AttrV, CaseKeyV, EnumDeclV, Endianness, SwitchCaseV};
use crate::schema::strings_view;
use crate::util::{sc_to_ucc, spec_sc_to_ucc};
use vstd::prelude::*;

verus! {

/// The resolved type of a bare reference: one of the ten format codes is a
/// built-in scalar, any other name is a user-defined type, canonicalized.
pub open spec fn spec_typedef_of(s: Seq<char>) -> TypeDefV {
    match spec_built_in_of(s) {
        Some(b) => TypeDefV::BuiltIn(b),
        None => TypeDefV::Custom(spec_sc_to_ucc(s)),
    }
}

/// Resolves a bare type reference.
pub fn typedef_of(s: &str) -> (r: TypeDef)
    ensures
        r@ == spec_typedef_of(s@),
{
    match BuiltIn::from_code(s) {
        Some(b) => TypeDef::BuiltIn(b),
        None => TypeDef::Custom(sc_to_ucc(s)),
    }
}

/// One resolved switch case: an integer key stays an integer, a symbol key
/// names an enumeration value; the case type is resolved as a reference.
pub open spec fn spec_resolve_case(c: SwitchCaseV) -> CaseV {
    CaseV {
        ident: match c.key {
            CaseKeyV::Int(i) => CaseIdentV::Int(i),
            CaseKeyV::Sym(s) => CaseIdentV::Enum(s),
        },
        ty: spec_typedef_of(c.ty),
    }
}

/// Resolved repetition: a counted repetition requires its count key, a
/// predicate repetition its predicate key.
pub open spec fn spec_resolve_repeat(a: AttrV) -> Result<Option<RepeatV>, ErrorV> {
    match a.repeat {
        None => Ok(None),
        Some(crate::schema::Repeat::Eos) => Ok(Some(RepeatV::Eos)),
        Some(crate::schema::Repeat::Expr) => match a.repeat_expr {
            Some(v) => Ok(Some(RepeatV::Expr(v))),
            None => Err(ErrorV::RequiredAttrNotFound("repeat-expr"@)),
        },
        Some(crate::schema::Repeat::Until) => match a.repeat_until {
            Some(s) => Ok(Some(RepeatV::Until(s))),
            None => Err(ErrorV::RequiredAttrNotFound("repeat-until"@)),
        },
    }
}

/// The resolved documentation of an attribute: the description is the `doc`
/// text, the reference the first `doc-ref` entry.
pub open spec fn spec_resolve_doc(d: crate::schema::DocV) -> DocSpecV {
    DocSpecV {
        description: d.doc,
        reference: if d.doc_ref.len() > 0 {
            Some(d.doc_ref[0])
        } else {
            None
        },
    }
}

/// Whether a resolved read is one an enumeration binding may wrap: an
/// unsigned scalar, whose decoded value the lookup takes.
pub open spec fn spec_enum_applicable(t: TypeDefV) -> bool {
    t matches TypeDefV::BuiltIn(b) && (b == BuiltIn::U8 || b == BuiltIn::U16 || b == BuiltIn::U32
        || b == BuiltIn::U64)
}

/// Classifies one parsed attribute, in the fixed priority: declared fixed
/// contents first, then an explicit size, then a size to the end of the
/// stream, then the declared type.  An attribute with none of the four is
/// missing its `type`; a stored attribute requires its `id`; an enumeration
/// binding is only legal on an unsigned scalar read.
pub open spec fn spec_classify(a: AttrV) -> Result<AttributeV, ErrorV> {
    let doc = spec_resolve_doc(a.doc);
    if a.contents is Some {
        Ok(
            AttributeV {
                id: match a.id {
                    Some(s) => s,
                    None => Seq::empty(),
                },
                doc,
                contents: ContentsV::Fixed(a.contents->Some_0),
            },
        )
    } else if a.id is None {
        Err(ErrorV::RequiredAttrNotFound("id"@))
    } else if spec_resolve_repeat(a) is Err {
        Err(spec_resolve_repeat(a)->Err_0)
    } else {
        let ty_r: Result<TypeDefV, ErrorV> = if a.size is Some {
            Ok(TypeDefV::Bytes(SizeV::Fixed(a.size->Some_0)))
        } else if a.size_eos {
            Ok(TypeDefV::Bytes(SizeV::Eos))
        } else {
            match a.ty {
                None => Err(ErrorV::RequiredAttrNotFound("type"@)),
                Some(AttrTypeV::TypeRef(s)) => Ok(spec_typedef_of(s)),
                Some(AttrTypeV::Switch { switch_on, cases }) => Ok(
                    TypeDefV::Switch {
                        on: switch_on,
                        cases: Seq::new(cases.len(), |i: int| spec_resolve_case(cases[i])),
                    },
                ),
            }
        };
        if ty_r is Err {
            Err(ty_r->Err_0)
        } else if a.en is Some && !spec_enum_applicable(ty_r->Ok_0) {
            Err(ErrorV::EnumLookupNotApplicable(a.en->Some_0))
        } else {
            Ok(
                AttributeV {
                    id: a.id->Some_0,
                    doc,
                    contents: ContentsV::Variable(
                        VariableContentsV {
                            ty: ty_r->Ok_0,
                            enum_ident: match a.en {
                                Some(en) => Some(spec_sc_to_ucc(en)),
                                None => None,
                            },
                            repeat: spec_resolve_repeat(a)->Ok_0,
                        },
                    ),
                },
            )
        }
    }
}

/// Classifies one parsed attribute.
pub fn classify(a: &Attr) -> (r: Result<Attribute, Error>)
    ensures
        match r {
            Ok(v) => spec_classify(a@) matches Ok(av) && av == v@,
            Err(e) => spec_classify(a@) matches Err(ev) && ev == e@,
        },
{
    let doc = DocSpec {
        description: match &a.doc.doc {
            Some(s) => Some(s.clone()),
            None => None,
        },
        reference: if a.doc.doc_ref.len() > 0 {
            Some(a.doc.doc_ref[0].clone())
        } else {
            None
        },
    };
    proof {
        assert(doc@ =~= spec_resolve_doc(a@.doc));
    }
    if let Some(c) = &a.contents {
        let r = Attribute {
            id: match &a.id {
                Some(s) => s.clone(),
                None => String::new(),
            },
            doc,
            contents: Contents::Fixed(
                match c {
                    crate::schema::FixedContents::String(s) => crate::schema::FixedContents::String(
                        s.clone(),
                    ),
                    crate::schema::FixedContents::Array(b) => {
                        let mut copy: Vec<u8> = Vec::new();
                        let mut i: usize = 0;
                        #[verifier::loop_isolation(false)]
                        while i < b.len()
                            invariant
                                i <= b@.len(),
                                copy@ =~= b@.subrange(0, i as int),
                            decreases b@.len() - i,
                        {
                            copy.push(b[i]);
                            proof {
                                assert(copy@ =~= b@.subrange(0, i + 1));
                            }
                            i = i + 1;
                        }
                        proof {
                            assert(copy@ =~= b@);
                        }
                        crate::schema::FixedContents::Array(copy)
                    },
                },
            ),
        };
        proof {
            assert(spec_classify(a@) matches Ok(av) && av =~= r@);
        }
        return Ok(r);
    }
    let id = match &a.id {
        Some(s) => s.clone(),
        None => {
            return Err(Error::RequiredAttrNotFound("id".to_owned()));
        },
    };
    let repeat = match &a.repeat {
        None => None,
        Some(crate::schema::Repeat::Eos) => Some(Repeat::Eos),
        Some(crate::schema::Repeat::Expr) => match &a.repeat_expr {
            Some(crate::schema::IntegerValue::Literal(v)) => Some(
                Repeat::Expr(crate::schema::IntegerValue::Literal(*v)),
            ),
            Some(crate::schema::IntegerValue::Variable(s)) => Some(
                Repeat::Expr(crate::schema::IntegerValue::Variable(s.clone())),
            ),
            None => {
                return Err(Error::RequiredAttrNotFound("repeat-expr".to_owned()));
            },
        },
        Some(crate::schema::Repeat::Until) => match &a.repeat_until {
            Some(s) => Some(Repeat::Until(s.clone())),
            None => {
                return Err(Error::RequiredAttrNotFound("repeat-until".to_owned()));
            },
        },
    };
    let ty: TypeDef = if let Some(sz) = &a.size {
        TypeDef::Bytes(
            Size::Fixed(
                match sz {
                    crate::schema::IntegerValue::Literal(v) => crate::schema::IntegerValue::Literal(
                        *v,
                    ),
                    crate::schema::IntegerValue::Variable(s) => {
                        crate::schema::IntegerValue::Variable(s.clone())
                    },
                },
            ),
        )
    } else if a.size_eos {
        TypeDef::Bytes(Size::Eos)
    } else {
        match &a.ty {
            None => {
                return Err(Error::RequiredAttrNotFound("type".to_owned()));
            },
            Some(crate::schema::AttrType::TypeRef(s)) => typedef_of(s.as_str()),
            Some(crate::schema::AttrType::Switch { switch_on, cases }) => {
                let mut out: Vec<Case> = Vec::new();
                let mut i: usize = 0;
                #[verifier::loop_isolation(false)]
                while i < cases.len()
                    invariant
                        i <= cases@.len(),
                        out@.len() == i,
                        forall|j: int|
                            0 <= j < i ==> #[trigger] out@[j]@ == spec_resolve_case(cases@[j]@),
                    decreases cases@.len() - i,
                {
                    let ident = match &cases[i].key {
                        crate::schema::CaseKey::Int(v) => CaseIdent::Int(*v),
                        crate::schema::CaseKey::Sym(s) => CaseIdent::Enum(s.clone()),
                    };
                    out.push(Case { ident, ty: typedef_of(cases[i].ty.as_str()) });
                    i = i + 1;
                }
                let t = TypeDef::Switch { on: switch_on.clone(), cases: out };
                proof {
                    let cv = a@.ty->Some_0->Switch_cases;
                    let rv = t@->Switch_cases;
                    assert(rv.len() == out@.len());
                    assert(cv.len() == cases@.len());
                    assert forall|j: int| 0 <= j < rv.len() implies #[trigger] rv[j]
                        == spec_resolve_case(cv[j]) by {
                        assert(rv[j] == out@[j]@);
                        assert(cv[j] == cases@[j]@);
                    }
                    assert(rv =~= Seq::new(cv.len(), |i: int| spec_resolve_case(cv[i])));
                }
                t
            },
        }
    };
    let enum_ident = match &a.en {
        Some(en) => {
            let applicable = match &ty {
                TypeDef::BuiltIn(BuiltIn::U8) => true,
                TypeDef::BuiltIn(BuiltIn::U16) => true,
                TypeDef::BuiltIn(BuiltIn::U32) => true,
                TypeDef::BuiltIn(BuiltIn::U64) => true,
                _ => false,
            };
            if !applicable {
                return Err(Error::EnumLookupNotApplicable(en.clone()));
            }
            Some(sc_to_ucc(en.as_str()))
        },
        None => None,
    };
    let r = Attribute {
        id,
        doc,
        contents: Contents::Variable(VariableContents { ty, enum_ident, repeat }),
    };
    proof {
        assert(spec_classify(a@) matches Ok(av) && av =~= r@);
    }
    Ok(r)
}


/// The view of a list of parsed attributes.
pub open spec fn attrs_view(v: Seq<Attr>) -> Seq<AttrV> {
    Seq::new(v.len(), |i: int| v[i]@)
}

/// The classified attributes of a parsed sequence, in order.
pub open spec fn spec_classify_items(xs: Seq<AttrV>) -> Result<Seq<AttributeV>, ErrorV>
    decreases xs.len(),
{
    if xs.len() == 0 {
        Ok(Seq::empty())
    } else {
        match spec_classify(xs[0]) {
            Err(e) => Err(e),
            Ok(v) => match spec_classify_items(xs.drop_first()) {
                Ok(rest) => Ok(seq![v] + rest),
                Err(e) => Err(e),
            },
        }
    }
}

/// All attributes before `i` classify to the values of `acc`.
pub open spec fn spec_classify_prefix_ok(xs: Seq<AttrV>, i: int, acc: Seq<AttributeV>) -> bool {
    0 <= i <= xs.len() && acc.len() == i && forall|j: int|
        0 <= j < i ==> #[trigger] spec_classify(xs[j]) == Ok::<AttributeV, ErrorV>(acc[j])
}

proof fn lemma_classify_from(xs: Seq<AttrV>, i: int, acc: Seq<AttributeV>)
    requires
        spec_classify_prefix_ok(xs, i, acc),
    ensures
        spec_classify_items(xs) == match spec_classify_items(xs.skip(i)) {
            Ok(rest) => Ok::<Seq<AttributeV>, ErrorV>(acc + rest),
            Err(e) => Err::<Seq<AttributeV>, ErrorV>(e),
        },
    decreases i,
{
    if i == 0 {
        assert(xs.skip(0) =~= xs);
        match spec_classify_items(xs) {
            Ok(rest) => {
                assert(acc + rest =~= rest);
            },
            Err(_) => {},
        }
    } else {
        let prev = acc.take(i - 1);
        assert(prev.len() == i - 1);
        assert forall|j: int| 0 <= j < i - 1 implies #[trigger] spec_classify(xs[j]) == Ok::<
            AttributeV,
            ErrorV,
        >(prev[j]) by {
            assert(prev[j] == acc[j]);
        }
        assert(spec_classify_prefix_ok(xs, i - 1, prev));
        lemma_classify_from(xs, i - 1, prev);
        assert(xs.skip(i - 1).drop_first() =~= xs.skip(i));
        assert(xs.skip(i - 1)[0] == xs[i - 1]);
        assert(spec_classify(xs[i - 1]) == Ok::<AttributeV, ErrorV>(acc[i - 1]));
        match spec_classify_items(xs.skip(i)) {
            Ok(rest) => {
                assert(prev + (seq![acc[i - 1]] + rest) =~= acc + rest);
            },
            Err(_) => {},
        }
    }
}

/// Classifies a whole list of parsed attributes.
pub fn classify_items(xs: &Vec<Attr>) -> (r: Result<Vec<Attribute>, Error>)
    ensures
        match r {
            Ok(v) => spec_classify_items(attrs_view(xs@)) matches Ok(sv) && sv == Seq::new(
                v@.len(),
                |i: int| v@[i]@,
            ),
            Err(e) => spec_classify_items(attrs_view(xs@)) matches Err(ev) && ev == e@,
        },
{
    let ghost iv = attrs_view(xs@);
    let mut out: Vec<Attribute> = Vec::new();
    let mut i: usize = 0;
    #[verifier::loop_isolation(false)]
    while i < xs.len()
        invariant
            i <= xs@.len(),
            iv == attrs_view(xs@),
            spec_classify_prefix_ok(iv, i as int, Seq::new(out@.len(), |j: int| out@[j]@)),
        decreases xs@.len() - i,
    {
        let ghost prev_acc = Seq::new(out@.len(), |j: int| out@[j]@);
        proof {
            assert(iv[i as int] == xs@[i as int]@);
        }
        match classify(&xs[i]) {
            Ok(v) => {
                out.push(v);
                proof {
                    let acc = Seq::new(out@.len(), |j: int| out@[j]@);
                    assert forall|j: int| 0 <= j < i + 1 implies #[trigger] spec_classify(iv[j])
                        == Ok::<AttributeV, ErrorV>(acc[j]) by {
                        if j < i {
                            assert(acc[j] == prev_acc[j]);
                        } else {
                            assert(acc[j] == out@[j]@);
                        }
                    }
                }
            },
            Err(e) => {
                proof {
                    lemma_classify_from(iv, i as int, prev_acc);
                    assert(iv.skip(i as int)[0] == iv[i as int]);
                }
                return Err(e);
            },
        }
        i = i + 1;
    }
    proof {
        let acc = Seq::new(out@.len(), |j: int| out@[j]@);
        lemma_classify_from(iv, iv.len() as int, acc);
        assert(iv.skip(iv.len() as int).len() == 0);
        assert(acc + Seq::<AttributeV>::empty() =~= acc);
    }
    Ok(out)
}

/// Parses and classifies the attribute sequence of a type's mapping: the
/// `seq` key is required.
pub open spec fn spec_seq(pairs: Seq<EntryV>) -> Result<Seq<AttributeV>, ErrorV> {
    match spec_get_required_arr(pairs, "seq"@) {
        Err(e) => Err(e),
        Ok(items) => match spec_attr_items(items) {
            Err(e) => Err(e),
            Ok(raws) => spec_classify_items(raws),
        },
    }
}

/// The classified attribute sequence of a type's mapping.
pub fn seq(map: &Vec<Entry>) -> (r: Result<Attributes, Error>)
    ensures
        match r {
            Ok(v) => spec_seq(dict_pairs(map@)) matches Ok(sv) && sv == v@,
            Err(e) => spec_seq(dict_pairs(map@)) matches Err(ev) && ev == e@,
        },
{
    let items = match get_required_arr(map, "seq") {
        Ok(v) => v,
        Err(e) => {
            return Err(e);
        },
    };
    let raws = match attr_items(items) {
        Ok(v) => v,
        Err(e) => {
            return Err(e);
        },
    };
    proof {
        assert(attrs_view(raws@) =~= Seq::new(raws@.len(), |i: int| raws@[i]@));
    }
    match classify_items(&raws) {
        Ok(v) => {
            let r = Attributes(v);
            proof {
                assert(r@ =~= Seq::new(v@.len(), |i: int| v@[i]@));
            }
            Ok(r)
        },
        Err(e) => Err(e),
    }
}

/// The resolved metadata of a type's mapping: an explicit byte order wins,
/// otherwise the inherited one holds; a type with neither is an error, as
/// is a root type without a `meta` block.
pub open spec fn spec_meta(pairs: Seq<EntryV>, inherited: Option<MetaSpec>) -> Result<
    MetaSpec,
    ErrorV,
> {
    match spec_get_dict(pairs, "meta"@) {
        Err(e) => Err(e),
        Ok(None) => match inherited {
            Some(m) => Ok(m),
            None => Err(ErrorV::RequiredAttrNotFound("meta"@)),
        },
        Ok(Some(mp)) => match spec_parse_endianness(mp) {
            Err(e) => Err(e),
            Ok(Some(e)) => Ok(MetaSpec { endianness: e }),
            Ok(None) => match inherited {
                Some(m) => Ok(m),
                None => Err(ErrorV::RequiredAttrNotFound("endian"@)),
            },
        },
    }
}

/// Resolves the metadata of a type's mapping under an inherited context.
pub fn meta(map: &Vec<Entry>, inherited: Option<MetaSpec>) -> (r: Result<MetaSpec, Error>)
    ensures
        match r {
            Ok(v) => spec_meta(dict_pairs(map@), inherited) matches Ok(mv) && mv == v,
            Err(e) => spec_meta(dict_pairs(map@), inherited) matches Err(ev) && ev == e@,
        },
{
    match get_dict(map, "meta") {
        Err(e) => Err(e),
        Ok(None) => match inherited {
            Some(m) => Ok(m),
            None => Err(Error::RequiredAttrNotFound("meta".to_owned())),
        },
        Ok(Some(mp)) => match crate::parse::parse_endianness(mp) {
            Err(e) => Err(e),
            Ok(Some(e)) => Ok(MetaSpec { endianness: e }),
            Ok(None) => match inherited {
                Some(m) => Ok(m),
                None => Err(Error::RequiredAttrNotFound("endian".to_owned())),
            },
        },
    }
}

/// One resolved enumeration: its name and every symbol canonicalized, the
/// codes kept in declaration order.
pub open spec fn spec_resolve_enum_decl(d: EnumDeclV) -> EnumSpecV {
    EnumSpecV {
        ident: spec_sc_to_ucc(d.key),
        variants: Seq::new(
            d.en.len(),
            |i: int|
                EnumVariantV { ident: spec_sc_to_ucc(d.en[i].value.id), value: d.en[i].code },
        ),
    }
}

fn resolve_enum_decl(d: &crate::schema::EnumDecl) -> (r: EnumSpec)
    ensures
        r@ == spec_resolve_enum_decl(d@),
{
    let mut variants: Vec<EnumVariant> = Vec::new();
    let entries = &d.en.0;
    let mut i: usize = 0;
    #[verifier::loop_isolation(false)]
    while i < entries.len()
        invariant
            i <= entries@.len(),
            variants@.len() == i,
            forall|j: int|
                0 <= j < i ==> #[trigger] variants@[j]@ == (EnumVariantV {
                    ident: spec_sc_to_ucc(entries@[j].value.id@),
                    value: entries@[j].code,
                }),
        decreases entries@.len() - i,
    {
        variants.push(
            EnumVariant { ident: sc_to_ucc(entries[i].value.id.as_str()), value: entries[i].code },
        );
        i = i + 1;
    }
    let r = EnumSpec { ident: sc_to_ucc(d.key.as_str()), variants };
    proof {
        assert(r@.variants =~= spec_resolve_enum_decl(d@).variants);
        assert(r@ =~= spec_resolve_enum_decl(d@));
    }
    r
}

/// Parses and resolves the enumerations of a type's mapping; a type without
/// the `enums` key has none.
pub open spec fn spec_enums(pairs: Seq<EntryV>) -> Result<Seq<EnumSpecV>, ErrorV> {
    match spec_get_dict(pairs, "enums"@) {
        Err(e) => Err(e),
        Ok(None) => Ok(Seq::empty()),
        Ok(Some(ps)) => match spec_enum_decl_items(ps) {
            Err(e) => Err(e),
            Ok(decls) => Ok(Seq::new(decls.len(), |i: int| spec_resolve_enum_decl(decls[i]))),
        },
    }
}

/// The resolved enumerations of a type's mapping.
pub fn enums(map: &Vec<Entry>) -> (r: Result<EnumsSpec, Error>)
    ensures
        match r {
            Ok(v) => spec_enums(dict_pairs(map@)) matches Ok(sv) && sv == v@,
            Err(e) => spec_enums(dict_pairs(map@)) matches Err(ev) && ev == e@,
        },
{
    match get_dict(map, "enums") {
        Err(e) => Err(e),
        Ok(None) => {
            let r = EnumsSpec(Vec::new());
            proof {
                assert(r@ =~= Seq::<EnumSpecV>::empty());
            }
            Ok(r)
        },
        Ok(Some(ps)) => match crate::parse::enum_decl_items(ps) {
            Err(e) => Err(e),
            Ok(decls) => {
                let mut out: Vec<EnumSpec> = Vec::new();
                let mut i: usize = 0;
                #[verifier::loop_isolation(false)]
                while i < decls.len()
                    invariant
                        i <= decls@.len(),
                        out@.len() == i,
                        forall|j: int|
                            0 <= j < i ==> #[trigger] out@[j]@ == spec_resolve_enum_decl(
                                decls@[j]@,
                            ),
                    decreases decls@.len() - i,
                {
                    out.push(resolve_enum_decl(&decls[i]));
                    i = i + 1;
                }
                let r = EnumsSpec(out);
                proof {
                    let decl_views = Seq::new(decls@.len(), |i: int| decls@[i]@);
                    assert forall|j: int| 0 <= j < r@.len() implies #[trigger] r@[j]
                        == spec_resolve_enum_decl(decl_views[j]) by {
                        assert(r@[j] == out@[j]@);
                        assert(decl_views[j] == decls@[j]@);
                    }
                    assert(r@ =~= Seq::new(
                        decl_views.len(),
                        |i: int| spec_resolve_enum_decl(decl_views[i]),
                    ));
                }
                Ok(r)
            },
        },
    }
}


/// The canonicalized identifiers of resolved nested types.
pub open spec fn spec_type_ids(types: Seq<crate::hir::TypeV>) -> Seq<Seq<char>> {
    Seq::new(types.len(), |i: int| types[i].id)
}

/// The canonicalized names of resolved enumerations.
pub open spec fn spec_enum_ids(enums: Seq<EnumSpecV>) -> Seq<Seq<char>> {
    Seq::new(enums.len(), |i: int| enums[i].ident)
}

/// The first unresolved reference of a read type, if any: a user-defined
/// name must name a nested type of the enclosing definition.
pub open spec fn spec_check_typedef(t: TypeDefV, tids: Seq<Seq<char>>) -> Option<ErrorV>
    decreases t,
{
    match t {
        TypeDefV::Custom(name) => if tids.contains(name) {
            None
        } else {
            Some(ErrorV::UnresolvedTypeReference(name))
        },
        TypeDefV::Switch { on, cases } => spec_check_cases(cases, tids),
        _ => None,
    }
}

/// The first unresolved reference among switch cases, if any.
pub open spec fn spec_check_cases(cases: Seq<CaseV>, tids: Seq<Seq<char>>) -> Option<ErrorV>
    decreases cases,
{
    if cases.len() == 0 {
        None
    } else {
        match spec_check_typedef(cases[0].ty, tids) {
            Some(e) => Some(e),
            None => spec_check_cases(cases.drop_first(), tids),
        }
    }
}

/// The first unresolved reference of one attribute, if any: its read type,
/// then its enumeration binding.
pub open spec fn spec_check_attr(a: AttributeV, tids: Seq<Seq<char>>, eids: Seq<Seq<char>>) -> Option<
    ErrorV,
> {
    match a.contents {
        ContentsV::Fixed(_) => None,
        ContentsV::Variable(vc) => match spec_check_typedef(vc.ty, tids) {
            Some(e) => Some(e),
            None => match vc.enum_ident {
                Some(en) => if eids.contains(en) {
                    None
                } else {
                    Some(ErrorV::UnresolvedTypeReference(en))
                },
                None => None,
            },
        },
    }
}

/// The first unresolved reference of an attribute sequence, if any.
pub open spec fn spec_check_attrs(
    attrs: Seq<AttributeV>,
    tids: Seq<Seq<char>>,
    eids: Seq<Seq<char>>,
) -> Option<ErrorV>
    decreases attrs.len(),
{
    if attrs.len() == 0 {
        None
    } else {
        match spec_check_attr(attrs[0], tids, eids) {
            Some(e) => Some(e),
            None => spec_check_attrs(attrs.drop_first(), tids, eids),
        }
    }
}

/// Whether a sequence of texts holds the given text.
fn ids_contain(ids: &Vec<String>, name: &String) -> (r: bool)
    ensures
        r == strings_view(ids@).contains(name@),
{
    let mut i: usize = 0;
    #[verifier::loop_isolation(false)]
    while i < ids.len()
        invariant
            i <= ids@.len(),
            forall|j: int| 0 <= j < i ==> strings_view(ids@)[j] != name@,
        decreases ids@.len() - i,
    {
        if ids[i] == *name {
            proof {
                assert(strings_view(ids@)[i as int] == name@);
            }
            return true;
        }
        proof {
            assert(strings_view(ids@)[i as int] == ids@[i as int]@);
        }
        i = i + 1;
    }
    proof {
        if strings_view(ids@).contains(name@) {
            let j = choose|j: int|
                0 <= j < strings_view(ids@).len() && strings_view(ids@)[j] == name@;
            assert(strings_view(ids@)[j] != name@);
        }
    }
    false
}

fn check_typedef(t: &TypeDef, tids: &Vec<String>) -> (r: Option<Error>)
    ensures
        match r {
            Some(e) => spec_check_typedef(t@, strings_view(tids@)) == Some(e@),
            None => spec_check_typedef(t@, strings_view(tids@)) is None,
        },
    decreases t,
{
    match t {
        TypeDef::Custom(name) => {
            if ids_contain(tids, name) {
                None
            } else {
                Some(Error::UnresolvedTypeReference(name.clone()))
            }
        },
        TypeDef::Switch { on, cases } => {
            let ghost cv = t@->Switch_cases;
            let mut i: usize = 0;
            proof {
                assert(cv.skip(0) =~= cv);
            }
            #[verifier::loop_isolation(false)]
            while i < cases.len()
                invariant
                    i <= cases@.len(),
                    cv == t@->Switch_cases,
                    cv.len() == cases@.len(),
                    forall|j: int| 0 <= j < cases@.len() ==> #[trigger] cv[j] == cases@[j]@,
                    spec_check_cases(cv, strings_view(tids@)) == spec_check_cases(
                        cv.skip(i as int),
                        strings_view(tids@),
                    ),
                decreases cases@.len() - i,
            {
                proof {
                    assert(cv.skip(i as int)[0] == cv[i as int]);
                    assert(cv.skip(i as int).drop_first() =~= cv.skip(i + 1));
                }
                match check_typedef(&cases[i].ty, tids) {
                    Some(e) => {
                        return Some(e);
                    },
                    None => {},
                }
                i = i + 1;
            }
            proof {
                assert(cv.skip(cv.len() as int).len() == 0);
            }
            None
        },
        _ => None,
    }
}

fn check_attr(a: &Attribute, tids: &Vec<String>, eids: &Vec<String>) -> (r: Option<Error>)
    ensures
        match r {
            Some(e) => spec_check_attr(a@, strings_view(tids@), strings_view(eids@)) == Some(e@),
            None => spec_check_attr(a@, strings_view(tids@), strings_view(eids@)) is None,
        },
{
    match &a.contents {
        Contents::Fixed(_) => None,
        Contents::Variable(vc) => {
            match check_typedef(&vc.ty, tids) {
                Some(e) => Some(e),
                None => match &vc.enum_ident {
                    Some(en) => {
                        if ids_contain(eids, en) {
                            None
                        } else {
                            Some(Error::UnresolvedTypeReference(en.clone()))
                        }
                    },
                    None => None,
                },
            }
        },
    }
}

fn check_attrs(attrs: &Vec<Attribute>, tids: &Vec<String>, eids: &Vec<String>) -> (r: Option<
    Error,
>)
    ensures
        match r {
            Some(e) => spec_check_attrs(
                Seq::new(attrs@.len(), |i: int| attrs@[i]@),
                strings_view(tids@),
                strings_view(eids@),
            ) == Some(e@),
            None => spec_check_attrs(
                Seq::new(attrs@.len(), |i: int| attrs@[i]@),
                strings_view(tids@),
                strings_view(eids@),
            ) is None,
        },
{
    let ghost av = Seq::new(attrs@.len(), |i: int| attrs@[i]@);
    let mut i: usize = 0;
    proof {
        assert(av.skip(0) =~= av);
    }
    #[verifier::loop_isolation(false)]
    while i < attrs.len()
        invariant
            i <= attrs@.len(),
            av == Seq::new(attrs@.len(), |j: int| attrs@[j]@),
            spec_check_attrs(av, strings_view(tids@), strings_view(eids@)) == spec_check_attrs(
                av.skip(i as int),
                strings_view(tids@),
                strings_view(eids@),
            ),
        decreases attrs@.len() - i,
    {
        proof {
            assert(av.skip(i as int)[0] == av[i as int]);
            assert(av.skip(i as int).drop_first() =~= av.skip(i + 1));
            assert(av[i as int] == attrs@[i as int]@);
        }
        match check_attr(&attrs[i], tids, eids) {
            Some(e) => {
                return Some(e);
            },
            None => {},
        }
        i = i + 1;
    }
    proof {
        assert(av.skip(av.len() as int).len() == 0);
    }
    None
}


/// The inherited context a nested type resolves under: named by its key,
/// not overriding its own declared identifier, inheriting the byte order.
pub open spec fn spec_child_context(key: Seq<char>, endian: Endianness) -> crate::hir::InheritedMetaV {
    crate::hir::InheritedMetaV {
        id: Some(spec_sc_to_ucc(key)),
        id_override: false,
        endianness: Some(endian),
    }
}

/// Resolves one parsed type definition under an inherited context.
///
/// The identifier precedence is: an overriding given name, then the type's
/// own declared `meta` identifier, then a non-overriding given name; a type
/// with none is missing its `id`.  An explicit byte order wins over the
/// inherited one; a type with neither is missing its configuration.  Every
/// user-defined type reference and enumeration binding of the attribute
/// sequence must name one of the type's own nested declarations, so a
/// definition can never reach itself through its own attributes.
pub open spec fn spec_resolve_type(
    t: crate::schema::TypeV,
    inh: crate::hir::InheritedMetaV,
) -> Result<crate::hir::TypeV, ErrorV>
    decreases t, 1int,
{
    let meta_id: Option<Seq<char>> = match t.meta {
        Some(m) => match m.id {
            Some(s) => Some(spec_sc_to_ucc(s)),
            None => None,
        },
        None => None,
    };
    let id_r: Result<Seq<char>, ErrorV> = match inh.id {
        Some(given) => if inh.id_override {
            Ok(given)
        } else {
            match meta_id {
                Some(mid) => Ok(mid),
                None => Ok(given),
            }
        },
        None => match meta_id {
            Some(mid) => Ok(mid),
            None => Err(ErrorV::RequiredAttrNotFound("id"@)),
        },
    };
    let explicit: Option<Endianness> = match t.meta {
        Some(m) => m.endianness,
        None => None,
    };
    let endian_r: Result<Endianness, ErrorV> = match explicit {
        Some(e) => Ok(e),
        None => match inh.endianness {
            Some(e) => Ok(e),
            None => if t.meta is Some {
                Err(ErrorV::RequiredAttrNotFound("endian"@))
            } else {
                Err(ErrorV::RequiredAttrNotFound("meta"@))
            },
        },
    };
    let seq_r = spec_classify_items(t.seq);
    let enums = Seq::new(t.enums.len(), |i: int| spec_resolve_enum_decl(t.enums[i]));
    if id_r is Err {
        Err(id_r->Err_0)
    } else if endian_r is Err {
        Err(endian_r->Err_0)
    } else if seq_r is Err {
        Err(seq_r->Err_0)
    } else {
        match spec_resolve_entries(t.types, endian_r->Ok_0) {
            Err(e) => Err(e),
            Ok(types) => match spec_check_attrs(
                seq_r->Ok_0,
                spec_type_ids(types),
                spec_enum_ids(enums),
            ) {
                Some(e) => Err(e),
                None => Ok(
                    crate::hir::TypeV {
                        id: id_r->Ok_0,
                        endianness: endian_r->Ok_0,
                        doc: spec_resolve_doc(
                            crate::schema::DocV { doc: t.doc, doc_ref: t.doc_ref },
                        ),
                        params: t.params,
                        seq: seq_r->Ok_0,
                        types,
                        enums,
                    },
                ),
            },
        }
    }
}

/// Resolves the nested type declarations, in order, each under its key name
/// and the enclosing type's byte order.
pub open spec fn spec_resolve_entries(
    entries: Seq<crate::schema::TypeEntryV>,
    endian: Endianness,
) -> Result<Seq<crate::hir::TypeV>, ErrorV>
    decreases entries, 0int,
{
    if entries.len() == 0 {
        Ok(Seq::empty())
    } else {
        match spec_resolve_type(entries[0].ty, spec_child_context(entries[0].key, endian)) {
            Err(e) => Err(e),
            Ok(t) => match spec_resolve_entries(entries.drop_first(), endian) {
                Ok(rest) => Ok(seq![t] + rest),
                Err(e) => Err(e),
            },
        }
    }
}

/// All entries before `i` resolve to the types of `acc`.
pub open spec fn spec_resolve_entries_prefix_ok(
    entries: Seq<crate::schema::TypeEntryV>,
    endian: Endianness,
    i: int,
    acc: Seq<crate::hir::TypeV>,
) -> bool {
    0 <= i <= entries.len() && acc.len() == i && forall|j: int|
        0 <= j < i ==> #[trigger] spec_resolve_type(
            entries[j].ty,
            spec_child_context(entries[j].key, endian),
        ) == Ok::<crate::hir::TypeV, ErrorV>(acc[j])
}

proof fn lemma_resolve_entries_from(
    entries: Seq<crate::schema::TypeEntryV>,
    endian: Endianness,
    i: int,
    acc: Seq<crate::hir::TypeV>,
)
    requires
        spec_resolve_entries_prefix_ok(entries, endian, i, acc),
    ensures
        spec_resolve_entries(entries, endian) == match spec_resolve_entries(
            entries.skip(i),
            endian,
        ) {
            Ok(rest) => Ok::<Seq<crate::hir::TypeV>, ErrorV>(acc + rest),
            Err(e) => Err::<Seq<crate::hir::TypeV>, ErrorV>(e),
        },
    decreases i,
{
    if i == 0 {
        assert(entries.skip(0) =~= entries);
        match spec_resolve_entries(entries, endian) {
            Ok(rest) => {
                assert(acc + rest =~= rest);
            },
            Err(_) => {},
        }
    } else {
        let prev = acc.take(i - 1);
        assert(prev.len() == i - 1);
        assert forall|j: int| 0 <= j < i - 1 implies #[trigger] spec_resolve_type(
            entries[j].ty,
            spec_child_context(entries[j].key, endian),
        ) == Ok::<crate::hir::TypeV, ErrorV>(prev[j]) by {
            assert(prev[j] == acc[j]);
        }
        assert(spec_resolve_entries_prefix_ok(entries, endian, i - 1, prev));
        lemma_resolve_entries_from(entries, endian, i - 1, prev);
        assert(entries.skip(i - 1).drop_first() =~= entries.skip(i));
        assert(entries.skip(i - 1)[0] == entries[i - 1]);
        assert(spec_resolve_type(
            entries[i - 1].ty,
            spec_child_context(entries[i - 1].key, endian),
        ) == Ok::<crate::hir::TypeV, ErrorV>(acc[i - 1]));
        match spec_resolve_entries(entries.skip(i), endian) {
            Ok(rest) => {
                assert(prev + (seq![acc[i - 1]] + rest) =~= acc + rest);
            },
            Err(_) => {},
        }
    }
}

/// Resolves a parsed type definition and, recursively, its nested types.
pub fn resolve_type(t: &crate::schema::Type, inh: &crate::hir::InheritedMeta) -> (r: Result<
    crate::hir::Type,
    Error,
>)
    ensures
        match r {
            Ok(v) => spec_resolve_type(t@, inh@) matches Ok(tv) && tv == v@,
            Err(e) => spec_resolve_type(t@, inh@) matches Err(ev) && ev == e@,
        },
    decreases t, 1int,
{
    let meta_id: Option<String> = match &t.meta {
        Some(m) => match &m.id {
            Some(s) => Some(sc_to_ucc(s.as_str())),
            None => None,
        },
        None => None,
    };
    let id: String = match &inh.id {
        Some(given) => {
            if inh.id_override {
                given.clone()
            } else {
                match meta_id {
                    Some(mid) => mid,
                    None => given.clone(),
                }
            }
        },
        None => match meta_id {
            Some(mid) => mid,
            None => {
                return Err(Error::RequiredAttrNotFound("id".to_owned()));
            },
        },
    };
    let explicit: Option<Endianness> = match &t.meta {
        Some(m) => m.endianness,
        None => None,
    };
    let endian: Endianness = match explicit {
        Some(e) => e,
        None => match inh.endianness {
            Some(e) => e,
            None => {
                if t.meta.is_some() {
                    return Err(Error::RequiredAttrNotFound("endian".to_owned()));
                } else {
                    return Err(Error::RequiredAttrNotFound("meta".to_owned()));
                }
            },
        },
    };
    let attrs = match classify_items(&t.seq) {
        Ok(v) => v,
        Err(e) => {
            return Err(e);
        },
    };
    proof {
        assert(attrs_view(t.seq@) =~= t@.seq);
    }
    let mut enums_out: Vec<EnumSpec> = Vec::new();
    let mut k: usize = 0;
    #[verifier::loop_isolation(false)]
    while k < t.enums.len()
        invariant
            k <= t.enums@.len(),
            enums_out@.len() == k,
            forall|j: int|
                0 <= j < k ==> #[trigger] enums_out@[j]@ == spec_resolve_enum_decl(t.enums@[j]@),
        decreases t.enums@.len() - k,
    {
        enums_out.push(resolve_enum_decl(&t.enums[k]));
        k = k + 1;
    }
    let ghost entries_v = t@.types;
    let mut types_out: Vec<crate::hir::Type> = Vec::new();
    let mut i: usize = 0;
    #[verifier::loop_isolation(false)]
    while i < t.types.len()
        invariant
            i <= t.types@.len(),
            entries_v == t@.types,
            entries_v.len() == t.types@.len(),
            forall|j: int| 0 <= j < t.types@.len() ==> #[trigger] entries_v[j] == t.types@[j]@,
            spec_resolve_entries_prefix_ok(
                entries_v,
                endian,
                i as int,
                Seq::new(types_out@.len(), |j: int| types_out@[j]@),
            ),
        decreases t.types@.len() - i,
    {
        let ghost prev_acc = Seq::new(types_out@.len(), |j: int| types_out@[j]@);
        let child_inh = crate::hir::InheritedMeta {
            id: Some(sc_to_ucc(t.types[i].key.as_str())),
            id_override: false,
            endianness: Some(endian),
        };
        proof {
            assert(child_inh@ =~= spec_child_context(entries_v[i as int].key, endian));
        }
        match resolve_type(&t.types[i].ty, &child_inh) {
            Ok(v) => {
                types_out.push(v);
                proof {
                    let acc = Seq::new(types_out@.len(), |j: int| types_out@[j]@);
                    assert forall|j: int| 0 <= j < i + 1 implies #[trigger] spec_resolve_type(
                        entries_v[j].ty,
                        spec_child_context(entries_v[j].key, endian),
                    ) == Ok::<crate::hir::TypeV, ErrorV>(acc[j]) by {
                        if j < i {
                            assert(acc[j] == prev_acc[j]);
                        } else {
                            assert(acc[j] == types_out@[j]@);
                        }
                    }
                }
            },
            Err(e) => {
                proof {
                    lemma_resolve_entries_from(entries_v, endian, i as int, prev_acc);
                    assert(entries_v.skip(i as int)[0] == entries_v[i as int]);
                }
                return Err(e);
            },
        }
        i = i + 1;
    }
    proof {
        let acc = Seq::new(types_out@.len(), |j: int| types_out@[j]@);
        lemma_resolve_entries_from(entries_v, endian, entries_v.len() as int, acc);
        assert(entries_v.skip(entries_v.len() as int).len() == 0);
        assert(acc + Seq::<crate::hir::TypeV>::empty() =~= acc);
    }
    let mut tids: Vec<String> = Vec::new();
    let mut i2: usize = 0;
    #[verifier::loop_isolation(false)]
    while i2 < types_out.len()
        invariant
            i2 <= types_out@.len(),
            tids@.len() == i2,
            forall|j: int| 0 <= j < i2 ==> #[trigger] tids@[j]@ == types_out@[j]@.id,
        decreases types_out@.len() - i2,
    {
        tids.push(types_out[i2].id.clone());
        i2 = i2 + 1;
    }
    let mut eids: Vec<String> = Vec::new();
    let mut i3: usize = 0;
    #[verifier::loop_isolation(false)]
    while i3 < enums_out.len()
        invariant
            i3 <= enums_out@.len(),
            eids@.len() == i3,
            forall|j: int| 0 <= j < i3 ==> #[trigger] eids@[j]@ == enums_out@[j]@.ident,
        decreases enums_out@.len() - i3,
    {
        eids.push(enums_out[i3].ident.clone());
        i3 = i3 + 1;
    }
    let ghost types_view = Seq::new(types_out@.len(), |j: int| types_out@[j]@);
    let ghost enums_view = Seq::new(enums_out@.len(), |j: int| enums_out@[j]@);
    proof {
        assert(strings_view(tids@) =~= spec_type_ids(types_view));
        assert(strings_view(eids@) =~= spec_enum_ids(enums_view));
        assert(Seq::new(attrs@.len(), |j: int| attrs@[j]@) =~= spec_classify_items(t@.seq)->Ok_0);
        assert(spec_resolve_entries(t@.types, endian) == Ok::<Seq<crate::hir::TypeV>, ErrorV>(
            types_view,
        ));
        assert(Seq::new(t@.enums.len(), |i: int| spec_resolve_enum_decl(t@.enums[i]))
            =~= enums_view);
    }
    match check_attrs(&attrs, &tids, &eids) {
        Some(e) => {
            return Err(e);
        },
        None => {},
    }
    let doc = DocSpec {
        description: match &t.doc {
            Some(s) => Some(s.clone()),
            None => None,
        },
        reference: if t.doc_ref.len() > 0 {
            Some(t.doc_ref[0].clone())
        } else {
            None
        },
    };
    let mut params_out: Vec<crate::schema::Param> = Vec::new();
    let mut i4: usize = 0;
    #[verifier::loop_isolation(false)]
    while i4 < t.params.len()
        invariant
            i4 <= t.params@.len(),
            params_out@.len() == i4,
            forall|j: int| 0 <= j < i4 ==> #[trigger] params_out@[j]@ == t.params@[j]@,
        decreases t.params@.len() - i4,
    {
        let p = &t.params[i4];
        let en = match &p.en {
            Some(s) => Some(s.clone()),
            None => None,
        };
        let mut doc_ref: Vec<String> = Vec::new();
        let mut i5: usize = 0;
        #[verifier::loop_isolation(false)]
        while i5 < p.doc_ref.len()
            invariant
                i5 <= p.doc_ref@.len(),
                doc_ref@.len() == i5,
                forall|j: int| 0 <= j < i5 ==> #[trigger] doc_ref@[j]@ == p.doc_ref@[j]@,
            decreases p.doc_ref@.len() - i5,
        {
            doc_ref.push(p.doc_ref[i5].clone());
            i5 = i5 + 1;
        }
        let copy = crate::schema::Param {
            id: p.id.clone(),
            ty: p.ty.clone(),
            doc: p.doc.clone(),
            doc_ref,
            en,
        };
        proof {
            assert(copy@ =~= t.params@[i4 as int]@);
        }
        params_out.push(copy);
        i4 = i4 + 1;
    }
    let r = crate::hir::Type {
        id,
        endianness: endian,
        doc,
        params: params_out,
        seq: Attributes(attrs),
        types: types_out,
        enums: EnumsSpec(enums_out),
    };
    proof {
        assert(spec_resolve_type(t@, inh@) is Ok);
        let tv = spec_resolve_type(t@, inh@)->Ok_0;
        assert(tv.id == r@.id);
        assert(tv.doc == r@.doc);
        assert(tv.params =~= r@.params);
        assert(tv.seq =~= r@.seq);
        assert(tv.types =~= r@.types);
        assert(tv.enums =~= r@.enums);
        assert(tv =~= r@);
    }
    Ok(r)
}

/// Compiles one type's document node under an inherited context: the node
/// is parsed into the schema model and then resolved.
pub open spec fn spec_gen_type(
    n: crate::document::NodeV,
    inh: crate::hir::InheritedMetaV,
) -> Result<crate::hir::TypeV, ErrorV> {
    match crate::parse::spec_parse_type(n) {
        Err(e) => Err(e),
        Ok(t) => spec_resolve_type(t, inh),
    }
}

/// Compiles one type's document node under an inherited context.
pub fn gen_type(n: &crate::document::Node, inh: &crate::hir::InheritedMeta) -> (r: Result<
    crate::hir::Type,
    Error,
>)
    ensures
        match r {
            Ok(v) => spec_gen_type(n@, inh@) matches Ok(tv) && tv == v@,
            Err(e) => spec_gen_type(n@, inh@) matches Err(ev) && ev == e@,
        },
{
    match crate::parse::parse_type(n) {
        Err(e) => Err(e),
        Ok(t) => resolve_type(&t, inh),
    }
}


/// A document whose mapping lacks the `seq` key is reported as missing it:
/// the attribute sequence of every type is required.
pub proof fn lemma_missing_seq_is_reported(pairs: Seq<EntryV>)
    requires
        crate::document::spec_dict_get(pairs, "seq"@) is None,
    ensures
        spec_seq(pairs) == Err::<Seq<AttributeV>, ErrorV>(ErrorV::RequiredAttrNotFound("seq"@)),
        crate::parse::spec_parse_type(crate::document::NodeV::Dict(pairs)) is Err,
{
}

/// An attribute that declares none of the four kinds of logic, no fixed
/// contents, no size bound and no type, is missing its `type`; this holds
/// of every attribute whose identifier and repetition keys are themselves
/// well-formed.
pub proof fn lemma_missing_logic_is_reported(a: AttrV)
    requires
        a.contents is None,
        a.size is None,
        !a.size_eos,
        a.ty is None,
        a.id is Some,
        spec_resolve_repeat(a) is Ok,
    ensures
        spec_classify(a) == Err::<AttributeV, ErrorV>(ErrorV::RequiredAttrNotFound("type"@)),
{
}

/// An attribute with declared fixed contents needs no `type`: it always
/// classifies, as a check-only attribute.
pub proof fn lemma_contents_need_no_type(a: AttrV)
    requires
        a.contents is Some,
    ensures
        spec_classify(a) is Ok,
        spec_classify(a)->Ok_0.contents == ContentsV::Fixed(a.contents->Some_0),
{
}

/// A type without its own byte order resolves to the inherited one: where
/// resolution succeeds under an inherited order, that order is the type's.
pub proof fn lemma_endianness_inherited(
    t: crate::schema::TypeV,
    inh: crate::hir::InheritedMetaV,
    e: Endianness,
)
    requires
        t.meta is None || t.meta->Some_0.endianness is None,
        inh.endianness == Some(e),
        spec_resolve_type(t, inh) is Ok,
    ensures
        spec_resolve_type(t, inh)->Ok_0.endianness == e,
{
}

/// A root type with neither its own byte order nor an inherited one cannot
/// resolve: the missing configuration is a fatal error.
pub proof fn lemma_endianness_required_at_root(
    t: crate::schema::TypeV,
    inh: crate::hir::InheritedMetaV,
)
    requires
        t.meta is None || t.meta->Some_0.endianness is None,
        inh.endianness is None,
    ensures
        spec_resolve_type(t, inh) is Err,
{
}

/// Each nested type resolves under its parent's resolved byte order: where
/// the list of nested declarations resolves, a child without its own
/// declared order carries the parent's.
pub proof fn lemma_nested_endianness(
    entries: Seq<crate::schema::TypeEntryV>,
    e: Endianness,
    j: int,
)
    requires
        spec_resolve_entries(entries, e) is Ok,
        0 <= j < entries.len(),
        entries[j].ty.meta is None || entries[j].ty.meta->Some_0.endianness is None,
    ensures
        spec_resolve_entries(entries, e)->Ok_0.len() == entries.len(),
        spec_resolve_entries(entries, e)->Ok_0[j].endianness == e,
    decreases entries.len(),
{
    lemma_resolve_entries_len(entries, e);
    let rest = spec_resolve_entries(entries.drop_first(), e);
    assert(rest is Ok);
    lemma_resolve_entries_len(entries.drop_first(), e);
    if j == 0 {
        lemma_endianness_inherited(entries[0].ty, spec_child_context(entries[0].key, e), e);
        assert(spec_resolve_entries(entries, e)->Ok_0[0] == spec_resolve_type(
            entries[0].ty,
            spec_child_context(entries[0].key, e),
        )->Ok_0);
    } else {
        assert(entries.drop_first()[j - 1] == entries[j]);
        lemma_nested_endianness(entries.drop_first(), e, j - 1);
        assert(spec_resolve_entries(entries, e)->Ok_0[j] == rest->Ok_0[j - 1]);
    }
}

/// Where the nested declarations resolve, there is one resolved type per
/// declaration.
pub proof fn lemma_resolve_entries_len(entries: Seq<crate::schema::TypeEntryV>, e: Endianness)
    requires
        spec_resolve_entries(entries, e) is Ok,
    ensures
        spec_resolve_entries(entries, e)->Ok_0.len() == entries.len(),
    decreases entries.len(),
{
    if entries.len() > 0 {
        lemma_resolve_entries_len(entries.drop_first(), e);
    }
}


/// One nested type declaration as the driver sees it: the canonicalized
/// name and the declaration's own document node.
#[derive(PartialEq, Eq, Debug)]
pub struct TypeDecl {
    pub ident: String,
    pub node: crate::document::Node,
}

/// The mathematical shape of a surfaced type declaration.
#[verifier::ext_equal]
pub struct TypeDeclV {
    pub ident: Seq<char>,
    pub node: crate::document::NodeV,
}

impl View for TypeDecl {
    type V = TypeDeclV;

    open spec fn view(&self) -> TypeDeclV {
        TypeDeclV { ident: self.ident@, node: self.node@ }
    }
}

/// The nested type declarations of a `types` mapping: each key must be a
/// string and is canonicalized, each value must itself be a mapping.
pub open spec fn spec_get_types_entries(ps: Seq<EntryV>) -> Result<Seq<TypeDeclV>, ErrorV>
    decreases ps.len(),
{
    if ps.len() == 0 {
        Ok(Seq::empty())
    } else {
        match ps[0].key {
            crate::document::NodeV::Str(name) => match ps[0].val {
                crate::document::NodeV::Dict(_) => match spec_get_types_entries(ps.drop_first()) {
                    Ok(rest) => Ok(
                        seq![TypeDeclV { ident: spec_sc_to_ucc(name), node: ps[0].val }] + rest,
                    ),
                    Err(e) => Err(e),
                },
                _ => Err(
                    ErrorV::InvalidAttrType {
                        attr: "type"@,
                        pat: "Yaml::Hash(h)"@,
                        actual: ps[0].val,
                    },
                ),
            },
            _ => Err(
                ErrorV::InvalidAttrType {
                    attr: "type name"@,
                    pat: "Yaml::String(s)"@,
                    actual: ps[0].key,
                },
            ),
        }
    }
}

/// The declarations surfaced by a type's mapping, under canonicalized
/// names; a mapping without the `types` key declares none.
pub open spec fn spec_get_types(pairs: Seq<EntryV>) -> Result<Seq<TypeDeclV>, ErrorV> {
    match spec_get_dict(pairs, "types"@) {
        Err(e) => Err(e),
        Ok(None) => Ok(Seq::empty()),
        Ok(Some(ps)) => spec_get_types_entries(ps),
    }
}

/// The nested type declarations of a type's mapping.
pub fn get_types(map: &Vec<Entry>) -> (r: Result<Vec<TypeDecl>, Error>)
    ensures
        match r {
            Ok(v) => spec_get_types(dict_pairs(map@)) matches Ok(sv) && sv == Seq::new(
                v@.len(),
                |i: int| v@[i]@,
            ),
            Err(e) => spec_get_types(dict_pairs(map@)) matches Err(ev) && ev == e@,
        },
{
    let ps = match get_dict(map, "types") {
        Err(e) => {
            return Err(e);
        },
        Ok(None) => {
            let v: Vec<TypeDecl> = Vec::new();
            proof {
                assert(Seq::new(v@.len(), |i: int| v@[i]@) =~= Seq::<TypeDeclV>::empty());
            }
            return Ok(v);
        },
        Ok(Some(ps)) => ps,
    };
    let ghost pv = dict_pairs(ps@);
    let mut out: Vec<TypeDecl> = Vec::new();
    let mut i: usize = 0;
    proof {
        assert(pv.skip(0) =~= pv);
        match spec_get_types_entries(pv) {
            Ok(rest) => {
                assert(Seq::<TypeDeclV>::empty() + rest =~= rest);
            },
            Err(_) => {},
        }
    }
    #[verifier::loop_isolation(false)]
    while i < ps.len()
        invariant
            i <= ps@.len(),
            pv == dict_pairs(ps@),
            spec_get_types_entries(pv) == (match spec_get_types_entries(pv.skip(i as int)) {
                Ok(rest) => Ok::<Seq<TypeDeclV>, ErrorV>(
                    Seq::new(out@.len(), |j: int| out@[j]@) + rest,
                ),
                Err(e) => Err::<Seq<TypeDeclV>, ErrorV>(e),
            }),
        decreases ps@.len() - i,
    {
        let ghost acc = Seq::new(out@.len(), |j: int| out@[j]@);
        proof {
            assert(pv.skip(i as int)[0] == pv[i as int]);
            assert(pv.skip(i as int).drop_first() =~= pv.skip(i + 1));
            assert(pv[i as int] == ps@[i as int]@);
        }
        let name = match &ps[i].key {
            crate::document::Node::Str(s) => s,
            other => {
                return Err(
                    Error::InvalidAttrType {
                        attr: "type name".to_owned(),
                        pat: "Yaml::String(s)".to_owned(),
                        actual: other.duplicate(),
                    },
                );
            },
        };
        match &ps[i].val {
            crate::document::Node::Dict(_) => {},
            other => {
                return Err(
                    Error::InvalidAttrType {
                        attr: "type".to_owned(),
                        pat: "Yaml::Hash(h)".to_owned(),
                        actual: other.duplicate(),
                    },
                );
            },
        }
        let decl = TypeDecl { ident: sc_to_ucc(name.as_str()), node: ps[i].val.duplicate() };
        out.push(decl);
        proof {
            let acc2 = Seq::new(out@.len(), |j: int| out@[j]@);
            assert(acc2 =~= acc.push(out@[out@.len() - 1]@));
            match spec_get_types_entries(pv.skip(i + 1)) {
                Ok(rest) => {
                    assert(acc + (seq![
                        TypeDeclV {
                            ident: spec_sc_to_ucc(pv[i as int].key->Str_0),
                            node: pv[i as int].val,
                        },
                    ] + rest) =~= acc2 + rest);
                },
                Err(_) => {},
            }
        }
        i = i + 1;
    }
    proof {
        assert(pv.skip(pv.len() as int).len() == 0);
        assert(Seq::new(out@.len(), |j: int| out@[j]@) + Seq::<TypeDeclV>::empty() =~= Seq::new(
            out@.len(),
            |j: int| out@[j]@,
        ));
    }
    Ok(out)
}

} // verus!
