use crate::error::{KaitaiError, KaitaiErrorV};
use crate::hir::{
    spec_width, Attribute, AttributeV, BuiltIn, Contents, ContentsV, EnumSpec, EnumSpecV,
    EnumVariantV, Repeat, RepeatV, Size, SizeV, TypeDef, TypeDefV, VariableContents,
    VariableContentsV,
};
use crate::schema::{Endianness, FixedContents, FixedContentsV, IntegerValue, IntegerValueV};
use crate::stream::{spec_be_value, spec_le_value, KaitaiStream};
use vstd::prelude::*;

verus! {

/// One decoded value: a scalar carries its read value, floating-point reads
/// their IEEE 754 bit patterns, byte runs their bytes, enumeration-bound
/// reads the matched symbol, sub-structures their own records, and repeated
/// reads the collected list.
#[derive(PartialEq, Eq, Debug)]
pub enum FieldValue {
    U8(u8),
    U16(u16),
    U32(u32),
    U64(u64),
    I8(i8),
    I16(i16),
    I32(i32),
    I64(i64),
    F32Bits(u32),
    F64Bits(u64),
    Bytes(Vec<u8>),
    Enum(String),
    Record(Record),
    List(Vec<FieldValue>),
}

/// One decoded field: the attribute's identifier and its value.
#[derive(PartialEq, Eq, Debug)]
pub struct Field {
    pub id: String,
    pub value: FieldValue,
}

/// A decoded structure: its stored fields, in declaration order.
#[derive(PartialEq, Eq, Debug)]
pub struct Record {
    pub fields: Vec<Field>,
}

/// The mathematical shape of a decoded value.
#[verifier::ext_equal]
pub enum FieldValueV {
    U8(u8),
    U16(u16),
    U32(u32),
    U64(u64),
    I8(i8),
    I16(i16),
    I32(i32),
    I64(i64),
    F32Bits(u32),
    F64Bits(u64),
    Bytes(Seq<u8>),
    Enum(Seq<char>),
    Record(Seq<FieldV>),
    List(Seq<FieldValueV>),
}

/// The mathematical shape of a decoded field.
#[verifier::ext_equal]
pub struct FieldV {
    pub id: Seq<char>,
    pub value: FieldValueV,
}

pub open spec fn field_value_view(v: FieldValue) -> FieldValueV
    decreases v,
{
    match v {
        FieldValue::U8(x) => FieldValueV::U8(x),
        FieldValue::U16(x) => FieldValueV::U16(x),
        FieldValue::U32(x) => FieldValueV::U32(x),
        FieldValue::U64(x) => FieldValueV::U64(x),
        FieldValue::I8(x) => FieldValueV::I8(x),
        FieldValue::I16(x) => FieldValueV::I16(x),
        FieldValue::I32(x) => FieldValueV::I32(x),
        FieldValue::I64(x) => FieldValueV::I64(x),
        FieldValue::F32Bits(x) => FieldValueV::F32Bits(x),
        FieldValue::F64Bits(x) => FieldValueV::F64Bits(x),
        FieldValue::Bytes(b) => FieldValueV::Bytes(b@),
        FieldValue::Enum(s) => FieldValueV::Enum(s@),
        FieldValue::Record(rec) => FieldValueV::Record(record_view(rec)),
        FieldValue::List(items) => FieldValueV::List(
            Seq::new(
                items@.len(),
                |i: int|
                    if 0 <= i < items@.len() {
                        field_value_view(items@[i])
                    } else {
                        FieldValueV::U8(0)
                    },
            ),
        ),
    }
}

pub open spec fn record_view(r: Record) -> Seq<FieldV>
    decreases r,
{
    Seq::new(
        r.fields@.len(),
        |i: int|
            if 0 <= i < r.fields@.len() {
                FieldV { id: r.fields@[i].id@, value: field_value_view(r.fields@[i].value) }
            } else {
                FieldV { id: Seq::empty(), value: FieldValueV::U8(0) }
            },
    )
}

impl View for FieldValue {
    type V = FieldValueV;

    open spec fn view(&self) -> FieldValueV {
        field_value_view(*self)
    }
}

impl View for Field {
    type V = FieldV;

    open spec fn view(&self) -> FieldV {
        FieldV { id: self.id@, value: field_value_view(self.value) }
    }
}

impl View for Record {
    type V = Seq<FieldV>;

    open spec fn view(&self) -> Seq<FieldV> {
        record_view(*self)
    }
}

/// The scalar value read from `width` bytes at `pos`, under a byte order.
pub open spec fn spec_scalar_of(b: BuiltIn, endian: Endianness, bytes: Seq<u8>) -> FieldValueV {
    let v = match endian {
        Endianness::Le => spec_le_value(bytes),
        Endianness::Be => spec_be_value(bytes),
    };
    match b {
        BuiltIn::U8 => FieldValueV::U8(v as u8),
        BuiltIn::U16 => FieldValueV::U16(v as u16),
        BuiltIn::U32 => FieldValueV::U32(v as u32),
        BuiltIn::U64 => FieldValueV::U64(v as u64),
        BuiltIn::I8 => FieldValueV::I8(v as u8 as i8),
        BuiltIn::I16 => FieldValueV::I16(v as u16 as i16),
        BuiltIn::I32 => FieldValueV::I32(v as u32 as i32),
        BuiltIn::I64 => FieldValueV::I64(v as u64 as i64),
        BuiltIn::F32 => FieldValueV::F32Bits(v as u32),
        BuiltIn::F64 => FieldValueV::F64Bits(v as u64),
    }
}

/// The unsigned code of a decoded scalar, where an enumeration lookup can
/// take it.
pub open spec fn spec_scalar_code(v: FieldValueV) -> Option<u64> {
    match v {
        FieldValueV::U8(x) => Some(x as u64),
        FieldValueV::U16(x) => Some(x as u64),
        FieldValueV::U32(x) => Some(x as u64),
        FieldValueV::U64(x) => Some(x),
        _ => None,
    }
}

/// The symbol of the first variant declared with the given code, if any:
/// the reverse lookup of an enumeration is total over its declared set and
/// yields nothing for any other code.
pub open spec fn spec_enum_lookup(variants: Seq<EnumVariantV>, code: u64) -> Option<Seq<char>>
    decreases variants.len(),
{
    if variants.len() == 0 {
        None
    } else if variants[0].value == code {
        Some(variants[0].ident)
    } else {
        spec_enum_lookup(variants.drop_first(), code)
    }
}

impl EnumSpec {
    /// The symbol declared for a code, or nothing for a code outside the
    /// declared set.
    pub fn n(&self, code: u64) -> (r: Option<String>)
        ensures
            match r {
                Some(sym) => spec_enum_lookup(self@.variants, code) == Some(sym@),
                None => spec_enum_lookup(self@.variants, code) is None,
            },
    {
        let ghost vv = self@.variants;
        let mut i: usize = 0;
        proof {
            assert(vv.skip(0) =~= vv);
        }
        #[verifier::loop_isolation(false)]
        while i < self.variants.len()
            invariant
                i <= self.variants@.len(),
                vv == self@.variants,
                spec_enum_lookup(vv, code) == spec_enum_lookup(vv.skip(i as int), code),
            decreases self.variants@.len() - i,
        {
            proof {
                assert(vv.skip(i as int)[0] == vv[i as int]);
                assert(vv.skip(i as int).drop_first() =~= vv.skip(i + 1));
                assert(vv[i as int] == self.variants@[i as int]@);
            }
            if self.variants[i].value == code {
                return Some(self.variants[i].ident.clone());
            }
            i = i + 1;
        }
        proof {
            assert(vv.skip(vv.len() as int).len() == 0);
        }
        None
    }
}

/// The enumeration of a type with the given canonicalized name, if any.
pub open spec fn spec_find_enum(enums: Seq<EnumSpecV>, name: Seq<char>) -> Option<EnumSpecV>
    decreases enums.len(),
{
    if enums.len() == 0 {
        None
    } else if enums[0].ident == name {
        Some(enums[0])
    } else {
        spec_find_enum(enums.drop_first(), name)
    }
}

/// The bytes a fixed-contents declaration stands for: a text stands for its
/// encoded bytes, an array for its own.
pub open spec fn spec_content_bytes(c: FixedContentsV) -> Seq<u8> {
    match c {
        FixedContentsV::String(s) => vstd::utf8::encode_utf8(s),
        FixedContentsV::Array(b) => b,
    }
}

/// The bytes of a fixed-contents declaration.
pub fn content_bytes(c: &FixedContents) -> (r: Vec<u8>)
    ensures
        r@ == spec_content_bytes(c@),
{
    match c {
        FixedContents::String(s) => {
            let b = s.as_str().as_bytes();
            let mut out: Vec<u8> = Vec::new();
            let mut i: usize = 0;
            #[verifier::loop_isolation(false)]
            while i < b.len()
                invariant
                    i <= b@.len(),
                    out@ =~= b@.subrange(0, i as int),
                decreases b@.len() - i,
            {
                out.push(b[i]);
                proof {
                    assert(out@ =~= b@.subrange(0, i + 1));
                }
                i = i + 1;
            }
            proof {
                assert(out@ =~= b@);
            }
            out
        },
        FixedContents::Array(b) => {
            let mut out: Vec<u8> = Vec::new();
            let mut i: usize = 0;
            #[verifier::loop_isolation(false)]
            while i < b.len()
                invariant
                    i <= b@.len(),
                    out@ =~= b@.subrange(0, i as int),
                decreases b@.len() - i,
            {
                out.push(b[i]);
                proof {
                    assert(out@ =~= b@.subrange(0, i + 1));
                }
                i = i + 1;
            }
            proof {
                assert(out@ =~= b@);
            }
            out
        },
    }
}


/// The nested type of a definition with the given canonicalized name, if
/// any.
pub open spec fn spec_find_type(
    types: Seq<crate::hir::TypeV>,
    name: Seq<char>,
) -> Option<crate::hir::TypeV>
    decreases types.len(),
{
    if types.len() == 0 {
        None
    } else if types[0].id == name {
        Some(types[0])
    } else {
        spec_find_type(types.drop_first(), name)
    }
}

/// A nested type found by name lies inside the list searched.
pub proof fn lemma_find_type_smaller(types: Seq<crate::hir::TypeV>, name: Seq<char>)
    ensures
        spec_find_type(types, name) matches Some(c) ==> decreases_to!(types => c),
    decreases types.len(),
{
    if types.len() > 0 {
        lemma_find_type_smaller(types.drop_first(), name);
        if types[0].id == name {
            assert(decreases_to!(types => types[0]));
        } else {
            assert(types.drop_first() =~= types.subrange(1, types.len() as int));
            assert(decreases_to!(types => types.drop_first()));
        }
    }
}

/// Finds the index of the nested type with the given name.
fn find_type_idx(types: &Vec<crate::hir::Type>, name: &String) -> (r: Option<usize>)
    ensures
        match r {
            Some(j) => j < types@.len() && spec_find_type(
                Seq::new(types@.len(), |i: int| types@[i]@),
                name@,
            ) == Some(types@[j as int]@),
            None => spec_find_type(Seq::new(types@.len(), |i: int| types@[i]@), name@) is None,
        },
{
    let ghost tv = Seq::new(types@.len(), |i: int| types@[i]@);
    let mut i: usize = 0;
    proof {
        assert(tv.skip(0) =~= tv);
    }
    #[verifier::loop_isolation(false)]
    while i < types.len()
        invariant
            i <= types@.len(),
            tv == Seq::new(types@.len(), |j: int| types@[j]@),
            spec_find_type(tv, name@) == spec_find_type(tv.skip(i as int), name@),
        decreases types@.len() - i,
    {
        proof {
            assert(tv.skip(i as int)[0] == tv[i as int]);
            assert(tv.skip(i as int).drop_first() =~= tv.skip(i + 1));
            assert(tv[i as int] == types@[i as int]@);
        }
        if types[i].id == *name {
            return Some(i);
        }
        i = i + 1;
    }
    proof {
        assert(tv.skip(tv.len() as int).len() == 0);
    }
    None
}

/// Decoding one read of an attribute: a scalar in the type's byte order,
/// possibly mapped through an enumeration; a sub-structure, decoded by its
/// own definition against the same stream; or a size-bounded byte run.
/// A read the description cannot drive here, a switch or an
/// expression-valued size, ends the decode at once as an exhausted stream.
pub open spec fn spec_decode_read(
    t: crate::hir::TypeV,
    vc: VariableContentsV,
    data: Seq<u8>,
    pos: int,
) -> Result<(FieldValueV, int), KaitaiErrorV>
    decreases t, 0int, 0int,
    via spec_decode_read_dec
{
    match vc.ty {
        TypeDefV::BuiltIn(b) => {
            let w = spec_width(b) as int;
            if pos < 0 || pos + w > data.len() {
                Err(KaitaiErrorV::Eof)
            } else {
                let v = spec_scalar_of(b, t.endianness, data.subrange(pos, pos + w));
                match vc.enum_ident {
                    None => Ok((v, pos + w)),
                    Some(en) => match spec_find_enum(t.enums, en) {
                        Some(es) => match spec_scalar_code(v) {
                            Some(code) => match spec_enum_lookup(es.variants, code) {
                                Some(sym) => Ok((FieldValueV::Enum(sym), pos + w)),
                                None => Err(KaitaiErrorV::NoEnumMatch),
                            },
                            None => Err(KaitaiErrorV::NoEnumMatch),
                        },
                        None => Err(KaitaiErrorV::NoEnumMatch),
                    },
                }
            }
        },
        TypeDefV::Custom(name) => match spec_find_type(t.types, name) {
            Some(child) => match spec_decode_type(child, data, pos) {
                Ok((fields, p)) => Ok((FieldValueV::Record(fields), p)),
                Err(e) => Err(e),
            },
            None => Err(KaitaiErrorV::Eof),
        },
        TypeDefV::Bytes(SizeV::Fixed(IntegerValueV::Literal(n))) => {
            if pos < 0 || pos + n > data.len() {
                Err(KaitaiErrorV::Eof)
            } else {
                Ok((FieldValueV::Bytes(data.subrange(pos, pos + n)), pos + n))
            }
        },
        TypeDefV::Bytes(SizeV::Eos) => {
            if 0 <= pos <= data.len() {
                Ok((FieldValueV::Bytes(data.subrange(pos, data.len() as int)), data.len() as int))
            } else {
                Ok((FieldValueV::Bytes(Seq::empty()), pos))
            }
        },
        _ => Err(KaitaiErrorV::Eof),
    }
}

#[via_fn]
proof fn spec_decode_read_dec(
    t: crate::hir::TypeV,
    vc: VariableContentsV,
    data: Seq<u8>,
    pos: int,
) {
    match vc.ty {
        TypeDefV::Custom(name) => {
            lemma_find_type_smaller(t.types, name);
            assert(decreases_to!(t => t.types));
        },
        _ => {},
    }
}

/// Decoding a repetition to the end of the stream: the end is tested before
/// each attempted read, so an empty collection is valid; a read that makes
/// no progress can never reach the end.
pub open spec fn spec_decode_repeat(
    t: crate::hir::TypeV,
    vc: VariableContentsV,
    data: Seq<u8>,
    pos: int,
) -> Result<(Seq<FieldValueV>, int), KaitaiErrorV>
    decreases t, 1int, data.len() - pos,
{
    if pos >= data.len() {
        Ok((Seq::empty(), pos))
    } else {
        match spec_decode_read(t, vc, data, pos) {
            Err(e) => Err(e),
            Ok((v, p)) => if p <= pos || p > data.len() {
                Err(KaitaiErrorV::Eof)
            } else {
                match spec_decode_repeat(t, vc, data, p) {
                    Err(e) => Err(e),
                    Ok((items, pend)) => Ok((seq![v] + items, pend)),
                }
            },
        }
    }
}

/// Decoding a type's attribute sequence from a position: each attribute in
/// order decodes exactly one check or read, and only stored attributes
/// yield fields.
pub open spec fn spec_decode_attrs(
    t: crate::hir::TypeV,
    attrs: Seq<AttributeV>,
    data: Seq<u8>,
    pos: int,
) -> Result<(Seq<FieldV>, int), KaitaiErrorV>
    decreases t, 2int, attrs.len(),
{
    if attrs.len() == 0 {
        Ok((Seq::empty(), pos))
    } else {
        match attrs[0].contents {
            ContentsV::Fixed(c) => {
                let expected = spec_content_bytes(c);
                if pos < 0 || pos + expected.len() > data.len() {
                    Err(KaitaiErrorV::Eof)
                } else if data.subrange(pos, pos + expected.len()) == expected {
                    spec_decode_attrs(t, attrs.drop_first(), data, pos + expected.len())
                } else {
                    Err(
                        KaitaiErrorV::UnexpectedContents {
                            actual: data.subrange(pos, pos + expected.len()),
                            expected,
                        },
                    )
                }
            },
            ContentsV::Variable(vc) => {
                let one: Result<(FieldValueV, int), KaitaiErrorV> = match vc.repeat {
                    None => spec_decode_read(t, vc, data, pos),
                    Some(RepeatV::Eos) => match spec_decode_repeat(t, vc, data, pos) {
                        Ok((items, p)) => Ok((FieldValueV::List(items), p)),
                        Err(e) => Err(e),
                    },
                    Some(_) => Err(KaitaiErrorV::Eof),
                };
                match one {
                    Err(e) => Err(e),
                    Ok((v, p)) => match spec_decode_attrs(t, attrs.drop_first(), data, p) {
                        Err(e) => Err(e),
                        Ok((fields, pend)) => Ok(
                            (seq![FieldV { id: attrs[0].id, value: v }] + fields, pend),
                        ),
                    },
                }
            },
        }
    }
}

/// Decoding one structure: its attributes in declaration order, against one
/// shared stream; the whole structure decodes or none of it does.
pub open spec fn spec_decode_type(
    t: crate::hir::TypeV,
    data: Seq<u8>,
    pos: int,
) -> Result<(Seq<FieldV>, int), KaitaiErrorV>
    decreases t, 3int, 0int,
{
    spec_decode_attrs(t, t.seq, data, pos)
}


/// Finds the index of the enumeration with the given name.
fn find_enum_idx(enums: &Vec<EnumSpec>, name: &String) -> (r: Option<usize>)
    ensures
        match r {
            Some(j) => j < enums@.len() && spec_find_enum(
                Seq::new(enums@.len(), |i: int| enums@[i]@),
                name@,
            ) == Some(enums@[j as int]@),
            None => spec_find_enum(Seq::new(enums@.len(), |i: int| enums@[i]@), name@) is None,
        },
{
    let ghost ev = Seq::new(enums@.len(), |i: int| enums@[i]@);
    let mut i: usize = 0;
    proof {
        assert(ev.skip(0) =~= ev);
    }
    #[verifier::loop_isolation(false)]
    while i < enums.len()
        invariant
            i <= enums@.len(),
            ev == Seq::new(enums@.len(), |j: int| enums@[j]@),
            spec_find_enum(ev, name@) == spec_find_enum(ev.skip(i as int), name@),
        decreases enums@.len() - i,
    {
        proof {
            assert(ev.skip(i as int)[0] == ev[i as int]);
            assert(ev.skip(i as int).drop_first() =~= ev.skip(i + 1));
            assert(ev[i as int] == enums@[i as int]@);
        }
        if enums[i].ident == *name {
            return Some(i);
        }
        i = i + 1;
    }
    proof {
        assert(ev.skip(ev.len() as int).len() == 0);
    }
    None
}

/// Performs one read of an attribute against the stream.
fn decode_read(t: &crate::hir::Type, vc: &VariableContents, stream: &mut KaitaiStream) -> (r:
    Result<FieldValue, KaitaiError>)
    ensures
        final(stream).data@ == old(stream).data@,
        match r {
            Ok(v) => spec_decode_read(t@, vc@, old(stream).data@, old(stream).pos as int) == Ok::<
                (FieldValueV, int),
                KaitaiErrorV,
            >((v@, final(stream).pos as int)),
            Err(e) => spec_decode_read(t@, vc@, old(stream).data@, old(stream).pos as int)
                matches Err(ev) && ev == e@,
        },
    decreases t, 0int, 0int,
{
    let ghost data = old(stream).data@;
    let ghost pos0 = old(stream).pos as int;
    match &vc.ty {
        TypeDef::BuiltIn(b) => {
            let raw: Result<FieldValue, KaitaiError> = match b {
                BuiltIn::U8 => match stream.read_u1() {
                    Ok(x) => Ok(FieldValue::U8(x)),
                    Err(e) => Err(e),
                },
                BuiltIn::I8 => match stream.read_s1() {
                    Ok(x) => Ok(FieldValue::I8(x)),
                    Err(e) => Err(e),
                },
                BuiltIn::U16 => match (match t.endianness {
                    Endianness::Le => stream.read_u2le(),
                    Endianness::Be => stream.read_u2be(),
                }) {
                    Ok(x) => Ok(FieldValue::U16(x)),
                    Err(e) => Err(e),
                },
                BuiltIn::U32 => match (match t.endianness {
                    Endianness::Le => stream.read_u4le(),
                    Endianness::Be => stream.read_u4be(),
                }) {
                    Ok(x) => Ok(FieldValue::U32(x)),
                    Err(e) => Err(e),
                },
                BuiltIn::U64 => match (match t.endianness {
                    Endianness::Le => stream.read_u8le(),
                    Endianness::Be => stream.read_u8be(),
                }) {
                    Ok(x) => Ok(FieldValue::U64(x)),
                    Err(e) => Err(e),
                },
                BuiltIn::I16 => match (match t.endianness {
                    Endianness::Le => stream.read_s2le(),
                    Endianness::Be => stream.read_s2be(),
                }) {
                    Ok(x) => Ok(FieldValue::I16(x)),
                    Err(e) => Err(e),
                },
                BuiltIn::I32 => match (match t.endianness {
                    Endianness::Le => stream.read_s4le(),
                    Endianness::Be => stream.read_s4be(),
                }) {
                    Ok(x) => Ok(FieldValue::I32(x)),
                    Err(e) => Err(e),
                },
                BuiltIn::I64 => match (match t.endianness {
                    Endianness::Le => stream.read_s8le(),
                    Endianness::Be => stream.read_s8be(),
                }) {
                    Ok(x) => Ok(FieldValue::I64(x)),
                    Err(e) => Err(e),
                },
                BuiltIn::F32 => match (match t.endianness {
                    Endianness::Le => stream.read_f4le(),
                    Endianness::Be => stream.read_f4be(),
                }) {
                    Ok(x) => Ok(FieldValue::F32Bits(x)),
                    Err(e) => Err(e),
                },
                BuiltIn::F64 => match (match t.endianness {
                    Endianness::Le => stream.read_f8le(),
                    Endianness::Be => stream.read_f8be(),
                }) {
                    Ok(x) => Ok(FieldValue::F64Bits(x)),
                    Err(e) => Err(e),
                },
            };
            proof {
                let w = spec_width(*b) as int;
                if pos0 + w <= data.len() {
                    let sub = data.subrange(pos0, pos0 + w);
                    crate::stream::lemma_le_value_bound(sub);
                    crate::stream::lemma_be_value_bound(sub);
                    crate::stream::lemma_pow256_values();
                }
            }
            match raw {
                Err(e) => Err(e),
                Ok(v) => {
                    match &vc.enum_ident {
                        None => Ok(v),
                        Some(en) => {
                            let code: u64 = match &v {
                                FieldValue::U8(x) => *x as u64,
                                FieldValue::U16(x) => *x as u64,
                                FieldValue::U32(x) => *x as u64,
                                FieldValue::U64(x) => *x,
                                _ => {
                                    return Err(KaitaiError::NoEnumMatch);
                                },
                            };
                            match find_enum_idx(&t.enums.0, en) {
                                Some(j) => {
                                    proof {
                                        assert(Seq::new(
                                            t.enums.0@.len(),
                                            |i: int| t.enums.0@[i]@,
                                        ) =~= t@.enums);
                                    }
                                    match t.enums.0[j].n(code) {
                                        Some(sym) => Ok(FieldValue::Enum(sym)),
                                        None => Err(KaitaiError::NoEnumMatch),
                                    }
                                },
                                None => {
                                    proof {
                                        assert(Seq::new(
                                            t.enums.0@.len(),
                                            |i: int| t.enums.0@[i]@,
                                        ) =~= t@.enums);
                                    }
                                    Err(KaitaiError::NoEnumMatch)
                                },
                            }
                        },
                    }
                },
            }
        },
        TypeDef::Custom(name) => {
            match find_type_idx(&t.types, name) {
                Some(j) => {
                    proof {
                        assert(Seq::new(t.types@.len(), |i: int| t.types@[i]@) =~= t@.types);
                        assert(decreases_to!(t.types@ => t.types@[j as int]));
                    }
                    match decode_type(&t.types[j], stream) {
                        Ok(rec) => Ok(FieldValue::Record(rec)),
                        Err(e) => Err(e),
                    }
                },
                None => {
                    proof {
                        assert(Seq::new(t.types@.len(), |i: int| t.types@[i]@) =~= t@.types);
                    }
                    Err(KaitaiError::Eof)
                },
            }
        },
        TypeDef::Bytes(Size::Fixed(IntegerValue::Literal(n))) => {
            if stream.pos() > stream.size() || *n > (stream.size() - stream.pos()) as u64 {
                Err(KaitaiError::Eof)
            } else {
                match stream.read_bytes(*n as usize) {
                    Ok(v) => Ok(FieldValue::Bytes(v)),
                    Err(e) => Err(e),
                }
            }
        },
        TypeDef::Bytes(Size::Eos) => Ok(FieldValue::Bytes(stream.read_bytes_full())),
        _ => Err(KaitaiError::Eof),
    }
}

/// Decodes one structure against the stream: its attributes in declaration
/// order, the cursor advancing by exactly the bytes each read consumed.
/// Fixed contents are checked and dropped; every stored attribute yields
/// one field; a repetition collects values until the end of the stream,
/// testing the end before each attempted read, so that no partial extra
/// read is made.  The first fault aborts the whole decode.
pub fn decode_type(t: &crate::hir::Type, stream: &mut KaitaiStream) -> (r: Result<
    Record,
    KaitaiError,
>)
    ensures
        final(stream).data@ == old(stream).data@,
        match r {
            Ok(rec) => spec_decode_type(t@, old(stream).data@, old(stream).pos as int) == Ok::<
                (Seq<FieldV>, int),
                KaitaiErrorV,
            >((rec@, final(stream).pos as int)),
            Err(e) => spec_decode_type(t@, old(stream).data@, old(stream).pos as int)
                matches Err(ev) && ev == e@,
        },
    decreases t, 3int, 0int,
{
    let ghost data = old(stream).data@;
    let ghost pos0 = old(stream).pos as int;
    let ghost av = t@.seq;
    let attrs = &t.seq.0;
    let mut fields: Vec<Field> = Vec::new();
    let mut i: usize = 0;
    proof {
        assert(av.skip(0) =~= av);
        assert(av.len() == attrs@.len());
        match spec_decode_attrs(t@, av, data, pos0) {
            Ok((f, p)) => {
                assert(Seq::<FieldV>::empty() + f =~= f);
            },
            Err(_) => {},
        }
    }
    #[verifier::loop_isolation(false)]
    while i < attrs.len()
        invariant
            i <= attrs@.len(),
            stream.data@ == data,
            av == t@.seq,
            av.len() == attrs@.len(),
            forall|j: int| 0 <= j < attrs@.len() ==> #[trigger] av[j] == attrs@[j]@,
            spec_decode_attrs(t@, av, data, pos0) == (match spec_decode_attrs(
                t@,
                av.skip(i as int),
                data,
                stream.pos as int,
            ) {
                Ok((f, p)) => Ok::<(Seq<FieldV>, int), KaitaiErrorV>(
                    (Seq::new(fields@.len(), |j: int| fields@[j]@) + f, p),
                ),
                Err(e) => Err::<(Seq<FieldV>, int), KaitaiErrorV>(e),
            }),
        decreases attrs@.len() - i,
    {
        let ghost acc = Seq::new(fields@.len(), |j: int| fields@[j]@);
        proof {
            assert(av.skip(i as int)[0] == av[i as int]);
            assert(av.skip(i as int).drop_first() =~= av.skip(i + 1));
        }
        let attr = &attrs[i];
        match &attr.contents {
            Contents::Fixed(c) => {
                let expected = content_bytes(c);
                match stream.ensure_fixed_contents(expected) {
                    Ok(_) => {},
                    Err(e) => {
                        return Err(e);
                    },
                }
            },
            Contents::Variable(vc) => {
                match &vc.repeat {
                    None => {
                        match decode_read(t, vc, stream) {
                            Ok(v) => {
                                fields.push(Field { id: attr.id.clone(), value: v });
                                proof {
                                    let acc2 = Seq::new(fields@.len(), |j: int| fields@[j]@);
                                    assert(acc2 =~= acc.push(
                                        FieldV { id: av[i as int].id, value: v@ },
                                    ));
                                    match spec_decode_attrs(
                                        t@,
                                        av.skip(i + 1),
                                        data,
                                        stream.pos as int,
                                    ) {
                                        Ok((f, p)) => {
                                            assert(acc + (seq![
                                                FieldV { id: av[i as int].id, value: v@ },
                                            ] + f) =~= acc2 + f);
                                        },
                                        Err(_) => {},
                                    }
                                }
                            },
                            Err(e) => {
                                return Err(e);
                            },
                        }
                    },
                    Some(Repeat::Eos) => {
                        let ghost rpos0 = stream.pos as int;
                        let mut items: Vec<FieldValue> = Vec::new();
                        proof {
                            match spec_decode_repeat(t@, vc@, data, rpos0) {
                                Ok((xs, p)) => {
                                    assert(Seq::<FieldValueV>::empty() + xs =~= xs);
                                },
                                Err(_) => {},
                            }
                        }
                        #[verifier::loop_isolation(false)]
                        while !stream.is_eof()
                            invariant
                                stream.data@ == data,
                                spec_decode_repeat(t@, vc@, data, rpos0) == (match
                                    spec_decode_repeat(t@, vc@, data, stream.pos as int) {
                                    Ok((xs, p)) => Ok::<(Seq<FieldValueV>, int), KaitaiErrorV>(
                                        (Seq::new(items@.len(), |j: int| items@[j]@) + xs, p),
                                    ),
                                    Err(e) => Err::<(Seq<FieldValueV>, int), KaitaiErrorV>(e),
                                }),
                            decreases data.len() - stream.pos,
                        {
                            let ghost iacc = Seq::new(items@.len(), |j: int| items@[j]@);
                            let before = stream.pos();
                            match decode_read(t, vc, stream) {
                                Ok(v) => {
                                    if stream.pos() <= before || stream.pos() > stream.size() {
                                        proof {
                                            assert(spec_decode_repeat(t@, vc@, data, rpos0)
                                                == Err::<(Seq<FieldValueV>, int), KaitaiErrorV>(
                                                KaitaiErrorV::Eof,
                                            ));
                                        }
                                        return Err(KaitaiError::Eof);
                                    }
                                    items.push(v);
                                    proof {
                                        let iacc2 = Seq::new(items@.len(), |j: int| items@[j]@);
                                        assert(iacc2 =~= iacc.push(v@));
                                        match spec_decode_repeat(
                                            t@,
                                            vc@,
                                            data,
                                            stream.pos as int,
                                        ) {
                                            Ok((xs, p)) => {
                                                assert(iacc + (seq![v@] + xs) =~= iacc2 + xs);
                                            },
                                            Err(_) => {},
                                        }
                                    }
                                },
                                Err(e) => {
                                    return Err(e);
                                },
                            }
                        }
                        let list = FieldValue::List(items);
                        proof {
                            assert(spec_decode_repeat(t@, vc@, data, stream.pos as int) == Ok::<
                                (Seq<FieldValueV>, int),
                                KaitaiErrorV,
                            >((Seq::empty(), stream.pos as int)));
                            assert(list@ matches FieldValueV::List(xs) && xs =~= Seq::new(
                                items@.len(),
                                |j: int| items@[j]@,
                            ) + Seq::<FieldValueV>::empty());
                        }
                        fields.push(Field { id: attr.id.clone(), value: list });
                        proof {
                            let acc2 = Seq::new(fields@.len(), |j: int| fields@[j]@);
                            assert(acc2 =~= acc.push(fields@[fields@.len() - 1]@));
                            match spec_decode_attrs(t@, av.skip(i + 1), data, stream.pos as int) {
                                Ok((f, p)) => {
                                    assert(acc + (seq![
                                        FieldV {
                                            id: av[i as int].id,
                                            value: fields@[fields@.len() - 1]@.value,
                                        },
                                    ] + f) =~= acc2 + f);
                                },
                                Err(_) => {},
                            }
                        }
                    },
                    Some(_) => {
                        return Err(KaitaiError::Eof);
                    },
                }
            },
        }
        i = i + 1;
    }
    proof {
        assert(av.skip(av.len() as int).len() == 0);
        assert(spec_decode_attrs(t@, av.skip(av.len() as int), data, stream.pos as int) == Ok::<
            (Seq<FieldV>, int),
            KaitaiErrorV,
        >((Seq::empty(), stream.pos as int)));
    }
    let r = Record { fields };
    proof {
        assert(record_view(r) =~= Seq::new(r.fields@.len(), |j: int| r.fields@[j]@));
        assert(Seq::new(r.fields@.len(), |j: int| r.fields@[j]@) + Seq::<FieldV>::empty()
            =~= record_view(r));
    }
    Ok(r)
}

impl crate::hir::Type {
    /// Decodes one value of this type from the given bytes.
    pub fn from_bytes(&self, bytes: Vec<u8>) -> (r: Result<Record, KaitaiError>)
        ensures
            match r {
                Ok(rec) => spec_decode_type(self@, bytes@, 0) matches Ok(res) && res.0 == rec@,
                Err(e) => spec_decode_type(self@, bytes@, 0) matches Err(ev) && ev == e@,
            },
    {
        let mut stream = KaitaiStream::new(bytes);
        decode_type(self, &mut stream)
    }
}


/// The reverse lookup of an enumeration is exact: a code yields a symbol
/// exactly when some variant declares that code, and the symbol is that of
/// a variant declaring it; a code outside the declared set yields nothing,
/// never a default.
pub proof fn lemma_enum_lookup_exact(variants: Seq<EnumVariantV>, code: u64)
    ensures
        (spec_enum_lookup(variants, code) is Some) <==> exists|k: int|
            0 <= k < variants.len() && variants[k].value == code,
        spec_enum_lookup(variants, code) matches Some(sym) ==> exists|k: int|
            0 <= k < variants.len() && variants[k].value == code && variants[k].ident == sym,
    decreases variants.len(),
{
    if variants.len() == 0 {
    } else if variants[0].value == code {
        assert(variants[0].value == code && 0 <= 0 < variants.len());
    } else {
        lemma_enum_lookup_exact(variants.drop_first(), code);
        if spec_enum_lookup(variants, code) is Some {
            let k = choose|k: int|
                0 <= k < variants.drop_first().len() && variants.drop_first()[k].value == code;
            assert(variants[k + 1].value == code);
        }
        if exists|k: int| 0 <= k < variants.len() && variants[k].value == code {
            let k = choose|k: int| 0 <= k < variants.len() && variants[k].value == code;
            assert(variants.drop_first()[k - 1].value == code);
        }
        if spec_enum_lookup(variants, code) is Some {
            let sym = spec_enum_lookup(variants, code)->Some_0;
            let k = choose|k: int|
                0 <= k < variants.drop_first().len() && variants.drop_first()[k].value == code
                    && variants.drop_first()[k].ident == sym;
            assert(variants[k + 1].value == code && variants[k + 1].ident == sym);
        }
    }
}

/// The fixed-content check consumes exactly the declared length: where the
/// stream holds exactly the declared bytes, decoding goes on immediately
/// after them; on any byte-level mismatch it fails carrying both the
/// expected and the actual bytes, having consumed no more and no less.
pub proof fn lemma_fixed_content_check(
    t: crate::hir::TypeV,
    attrs: Seq<AttributeV>,
    data: Seq<u8>,
    pos: int,
    c: crate::schema::FixedContentsV,
)
    requires
        attrs.len() > 0,
        attrs[0].contents == ContentsV::Fixed(c),
        0 <= pos,
        pos + spec_content_bytes(c).len() <= data.len(),
    ensures
        data.subrange(pos, pos + spec_content_bytes(c).len() as int) == spec_content_bytes(c)
            ==> spec_decode_attrs(t, attrs, data, pos) == spec_decode_attrs(
            t,
            attrs.drop_first(),
            data,
            pos + spec_content_bytes(c).len(),
        ),
        data.subrange(pos, pos + spec_content_bytes(c).len() as int) != spec_content_bytes(c)
            ==> spec_decode_attrs(t, attrs, data, pos) == Err::<
            (Seq<FieldV>, int),
            KaitaiErrorV,
        >(
            KaitaiErrorV::UnexpectedContents {
                actual: data.subrange(pos, pos + spec_content_bytes(c).len() as int),
                expected: spec_content_bytes(c),
            },
        ),
{
}


/// An enumeration-bound scalar read is exhaustive-or-fail: where the stream
/// holds enough bytes and the binding names a declared enumeration, a code
/// declared by some variant decodes to that variant's symbol, and a code
/// outside the declared set aborts with a failed match, never a default.
pub proof fn lemma_enum_bound_read(
    t: crate::hir::TypeV,
    vc: VariableContentsV,
    data: Seq<u8>,
    pos: int,
    b: BuiltIn,
    en: Seq<char>,
    es: EnumSpecV,
)
    requires
        vc.ty == TypeDefV::BuiltIn(b),
        vc.enum_ident == Some(en),
        spec_find_enum(t.enums, en) == Some(es),
        0 <= pos,
        pos + spec_width(b) <= data.len(),
        spec_scalar_code(
            spec_scalar_of(b, t.endianness, data.subrange(pos, pos + spec_width(b))),
        ) is Some,
    ensures
        ({
            let code = spec_scalar_code(
                spec_scalar_of(b, t.endianness, data.subrange(pos, pos + spec_width(b))),
            )->Some_0;
            &&& (spec_enum_lookup(es.variants, code) matches Some(sym) ==> spec_decode_read(
                t,
                vc,
                data,
                pos,
            ) == Ok::<(FieldValueV, int), KaitaiErrorV>(
                (FieldValueV::Enum(sym), pos + spec_width(b)),
            ))
            &&& (spec_enum_lookup(es.variants, code) is None ==> spec_decode_read(t, vc, data, pos)
                == Err::<(FieldValueV, int), KaitaiErrorV>(KaitaiErrorV::NoEnumMatch))
        }),
{
}

} // verus!
