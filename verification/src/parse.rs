use crate::document::{dict_pairs, spec_dict_get, Entry, EntryV, Node, NodeV};
use crate::document::{dict_find, dict_get, lemma_dict_get_smaller};
use crate::error::{Error, ErrorV};
use crate::schema::{opt_string_view, strings_view, Doc, DocV, Endianness, IntegerValue, IntegerValueV, Attr, AttrV, AttrType, AttrTypeV, CaseKey, CaseKeyV, Enum, EnumDecl, EnumDeclV, EnumEntry, EnumEntryV, EnumValue, EnumValueV, InstanceEntry, InstanceEntryV, Param, ParamV, Type, TypeEntry, TypeEntryV, TypeV, FixedContents, FixedContentsV, Meta, MetaDoc, MetaDocV, MetaV, Repeat, SwitchCase, SwitchCaseV, Xref, XrefV};
use vstd::prelude::*;
use vstd::string::StringExecFns;

verus! {

/// Whether two texts are equal.
pub fn str_eq(a: &str, b: &str) -> (r: bool)
    ensures
        r == (a@ == b@),
{
    let sa = String::from_str(a);
    let sb = String::from_str(b);
    sa == sb
}

/// An optional string key: absent is allowed, any present value must be a
/// string scalar.
pub open spec fn spec_get_str(pairs: Seq<EntryV>, key: Seq<char>) -> Result<
    Option<Seq<char>>,
    ErrorV,
> {
    match spec_dict_get(pairs, key) {
        None => Ok(None),
        Some(n) => match n {
            NodeV::Str(s) => Ok(Some(s)),
            _ => Err(
                ErrorV::InvalidAttrType { attr: key, pat: "Yaml::String(s)"@, actual: n },
            ),
        },
    }
}

pub fn get_str(pairs: &Vec<Entry>, key: &str) -> (r: Result<Option<String>, Error>)
    ensures
        match r {
            Ok(v) => spec_get_str(dict_pairs(pairs@), key@) matches Ok(sv) && sv
                == opt_string_view(v),
            Err(e) => spec_get_str(dict_pairs(pairs@), key@) matches Err(ev) && ev == e@,
        },
{
    match dict_get(pairs, key) {
        None => Ok(None),
        Some(n) => match n {
            Node::Str(s) => Ok(Some(s.clone())),
            other => Err(
                Error::InvalidAttrType {
                    attr: key.to_owned(),
                    pat: "Yaml::String(s)".to_owned(),
                    actual: other.duplicate(),
                },
            ),
        },
    }
}

/// A required string key: absent is an error of its own.
pub open spec fn spec_get_required_str(pairs: Seq<EntryV>, key: Seq<char>) -> Result<
    Seq<char>,
    ErrorV,
> {
    match spec_dict_get(pairs, key) {
        None => Err(ErrorV::RequiredAttrNotFound(key)),
        Some(n) => match n {
            NodeV::Str(s) => Ok(s),
            _ => Err(
                ErrorV::InvalidAttrType { attr: key, pat: "Yaml::String(s)"@, actual: n },
            ),
        },
    }
}

pub fn get_required_str(pairs: &Vec<Entry>, key: &str) -> (r: Result<String, Error>)
    ensures
        match r {
            Ok(v) => spec_get_required_str(dict_pairs(pairs@), key@) matches Ok(sv) && sv == v@,
            Err(e) => spec_get_required_str(dict_pairs(pairs@), key@) matches Err(ev) && ev == e@,
        },
{
    match dict_get(pairs, key) {
        None => Err(Error::RequiredAttrNotFound(key.to_owned())),
        Some(n) => match n {
            Node::Str(s) => Ok(s.clone()),
            other => Err(
                Error::InvalidAttrType {
                    attr: key.to_owned(),
                    pat: "Yaml::String(s)".to_owned(),
                    actual: other.duplicate(),
                },
            ),
        },
    }
}

/// An optional boolean key with a default.
pub open spec fn spec_get_bool(pairs: Seq<EntryV>, key: Seq<char>, default: bool) -> Result<
    bool,
    ErrorV,
> {
    match spec_dict_get(pairs, key) {
        None => Ok(default),
        Some(n) => match n {
            NodeV::Bool(b) => Ok(b),
            _ => Err(
                ErrorV::InvalidAttrType { attr: key, pat: "Yaml::Boolean(b)"@, actual: n },
            ),
        },
    }
}

pub fn get_bool(pairs: &Vec<Entry>, key: &str, default: bool) -> (r: Result<bool, Error>)
    ensures
        match r {
            Ok(v) => spec_get_bool(dict_pairs(pairs@), key@, default) matches Ok(bv) && bv == v,
            Err(e) => spec_get_bool(dict_pairs(pairs@), key@, default) matches Err(ev) && ev
                == e@,
        },
{
    match dict_get(pairs, key) {
        None => Ok(default),
        Some(n) => match n {
            Node::Bool(b) => Ok(*b),
            other => Err(
                Error::InvalidAttrType {
                    attr: key.to_owned(),
                    pat: "Yaml::Boolean(b)".to_owned(),
                    actual: other.duplicate(),
                },
            ),
        },
    }
}

/// An optional non-negative integer key, as a `u64`.
pub open spec fn spec_get_u64(pairs: Seq<EntryV>, key: Seq<char>) -> Result<Option<u64>, ErrorV> {
    match spec_dict_get(pairs, key) {
        None => Ok(None),
        Some(n) => match n {
            NodeV::Int(i) => if i >= 0 {
                Ok(Some(i as u64))
            } else {
                Err(ErrorV::InvalidAttrType { attr: key, pat: "Yaml::Integer(i)"@, actual: n })
            },
            _ => Err(
                ErrorV::InvalidAttrType { attr: key, pat: "Yaml::Integer(i)"@, actual: n },
            ),
        },
    }
}

pub fn get_u64(pairs: &Vec<Entry>, key: &str) -> (r: Result<Option<u64>, Error>)
    ensures
        match r {
            Ok(v) => spec_get_u64(dict_pairs(pairs@), key@) matches Ok(iv) && iv == v,
            Err(e) => spec_get_u64(dict_pairs(pairs@), key@) matches Err(ev) && ev == e@,
        },
{
    match dict_get(pairs, key) {
        None => Ok(None),
        Some(n) => match n {
            Node::Int(i) => {
                if *i >= 0 {
                    Ok(Some(*i as u64))
                } else {
                    Err(
                        Error::InvalidAttrType {
                            attr: key.to_owned(),
                            pat: "Yaml::Integer(i)".to_owned(),
                            actual: n.duplicate(),
                        },
                    )
                }
            },
            other => Err(
                Error::InvalidAttrType {
                    attr: key.to_owned(),
                    pat: "Yaml::Integer(i)".to_owned(),
                    actual: other.duplicate(),
                },
            ),
        },
    }
}

/// The decimal digits of a non-negative number.
pub open spec fn spec_decimal(v: nat) -> Seq<char>
    decreases v,
{
    if v < 10 {
        seq![spec_digit(v)]
    } else {
        spec_decimal(v / 10).push(spec_digit(v % 10))
    }
}

/// The digit character of a value below ten.
pub open spec fn spec_digit(d: nat) -> char {
    (('0' as u8) + d) as char
}

/// Renders a number in decimal.
pub fn u64_string(v: u64) -> (r: String)
    ensures
        r@ == spec_decimal(v as nat),
    decreases v,
{
    if v < 10 {
        let mut s = String::new();
        s.push((('0' as u8) + (v as u8)) as char);
        proof {
            assert(s@ =~= spec_decimal(v as nat));
        }
        s
    } else {
        let mut s = u64_string(v / 10);
        s.push((('0' as u8) + ((v % 10) as u8)) as char);
        s
    }
}

/// A field that is one string or a list of strings, normalized to a list:
/// an absent key is the empty list, a single scalar a one-element list, and
/// a list is kept in order.  A number stands for its decimal text.
pub open spec fn spec_string_or_seq(pairs: Seq<EntryV>, key: Seq<char>) -> Result<
    Seq<Seq<char>>,
    ErrorV,
> {
    match spec_dict_get(pairs, key) {
        None => Ok(Seq::empty()),
        Some(n) => match n {
            NodeV::Str(s) => Ok(seq![s]),
            NodeV::Int(i) => if i >= 0 {
                Ok(seq![spec_decimal(i as nat)])
            } else {
                Err(
                    ErrorV::InvalidAttrType {
                        attr: key,
                        pat: "Yaml::String(s) or Yaml::Array(a)"@,
                        actual: n,
                    },
                )
            },
            NodeV::Arr(items) => spec_string_items(items, key, n),
            _ => Err(
                ErrorV::InvalidAttrType {
                    attr: key,
                    pat: "Yaml::String(s) or Yaml::Array(a)"@,
                    actual: n,
                },
            ),
        },
    }
}

/// The strings of a list node, each element of which must be a string.
pub open spec fn spec_string_items(items: Seq<NodeV>, key: Seq<char>, whole: NodeV) -> Result<
    Seq<Seq<char>>,
    ErrorV,
>
    decreases items.len(),
{
    if items.len() == 0 {
        Ok(Seq::empty())
    } else {
        match items[0] {
            NodeV::Str(s) => match spec_string_items(items.drop_first(), key, whole) {
                Ok(rest) => Ok(seq![s] + rest),
                Err(e) => Err(e),
            },
            _ => Err(
                ErrorV::InvalidAttrType {
                    attr: key,
                    pat: "Yaml::String(s) or Yaml::Array(a)"@,
                    actual: items[0],
                },
            ),
        }
    }
}

/// Normalizes a one-string-or-many field into a list of strings.
pub fn string_or_seq(pairs: &Vec<Entry>, key: &str) -> (r: Result<Vec<String>, Error>)
    ensures
        match r {
            Ok(v) => spec_string_or_seq(dict_pairs(pairs@), key@) matches Ok(sv) && sv
                == strings_view(v@),
            Err(e) => spec_string_or_seq(dict_pairs(pairs@), key@) matches Err(ev) && ev == e@,
        },
{
    match dict_get(pairs, key) {
        None => {
            let v: Vec<String> = Vec::new();
            proof {
                assert(strings_view(v@) =~= Seq::<Seq<char>>::empty());
            }
            Ok(v)
        },
        Some(n) => match n {
            Node::Str(s) => {
                let mut v: Vec<String> = Vec::new();
                v.push(s.clone());
                proof {
                    assert(strings_view(v@) =~= seq![s@]);
                }
                Ok(v)
            },
            Node::Int(i) => {
                if *i >= 0 {
                    let mut v: Vec<String> = Vec::new();
                    v.push(u64_string(*i as u64));
                    proof {
                        assert(strings_view(v@) =~= seq![spec_decimal(*i as nat)]);
                    }
                    Ok(v)
                } else {
                    Err(
                        Error::InvalidAttrType {
                            attr: key.to_owned(),
                            pat: "Yaml::String(s) or Yaml::Array(a)".to_owned(),
                            actual: n.duplicate(),
                        },
                    )
                }
            },
            Node::Arr(items) => {
                proof {
                    assert(n@ matches NodeV::Arr(s0) && s0 =~= nodes_view(items@));
                }
                string_items(items, key, n)
            },
            other => Err(
                Error::InvalidAttrType {
                    attr: key.to_owned(),
                    pat: "Yaml::String(s) or Yaml::Array(a)".to_owned(),
                    actual: other.duplicate(),
                },
            ),
        },
    }
}

/// The view of a list node's elements.
pub open spec fn nodes_view(items: Seq<Node>) -> Seq<NodeV> {
    Seq::new(items.len(), |i: int| items[i]@)
}

pub fn string_items(items: &Vec<Node>, key: &str, whole: &Node) -> (r: Result<Vec<String>, Error>)
    ensures
        match r {
            Ok(v) => spec_string_items(nodes_view(items@), key@, whole@) matches Ok(sv) && sv
                == strings_view(v@),
            Err(e) => spec_string_items(nodes_view(items@), key@, whole@) matches Err(ev) && ev
                == e@,
        },
{
    let ghost iv = nodes_view(items@);
    let mut out: Vec<String> = Vec::new();
    let mut i: usize = 0;
    #[verifier::loop_isolation(false)]
    while i < items.len()
        invariant
            i <= items@.len(),
            iv == nodes_view(items@),
            spec_string_items_prefix_ok(iv, i as int, strings_view(out@)),
        decreases items@.len() - i,
    {
        match &items[i] {
            Node::Str(s) => {
                let ghost prev_sv = strings_view(out@);
                out.push(s.clone());
                proof {
                    assert(iv[i as int] == items@[i as int]@);
                    assert(iv[i as int] == NodeV::Str(s@));
                    assert(strings_view(out@) =~= prev_sv.push(s@));
                    assert forall|j: int| 0 <= j < i + 1 implies #[trigger] iv[j] == NodeV::Str(
                        strings_view(out@)[j],
                    ) by {
                        if j < i {
                            assert(strings_view(out@)[j] == prev_sv[j]);
                        } else {
                            assert(strings_view(out@)[j] == s@);
                        }
                    }
                }
            },
            other => {
                proof {
                    assert(iv[i as int] == items@[i as int]@);
                    lemma_string_items_err(iv, i as int, key@, whole@, strings_view(out@));
                }
                return Err(
                    Error::InvalidAttrType {
                        attr: key.to_owned(),
                        pat: "Yaml::String(s) or Yaml::Array(a)".to_owned(),
                        actual: other.duplicate(),
                    },
                );
            },
        }
        i = i + 1;
    }
    proof {
        lemma_string_items_ok(iv, key@, whole@, strings_view(out@));
    }
    Ok(out)
}

/// All elements before `i` are strings, and `acc` holds their texts.
pub open spec fn spec_string_items_prefix_ok(items: Seq<NodeV>, i: int, acc: Seq<Seq<char>>) -> bool {
    0 <= i <= items.len() && acc.len() == i && forall|j: int|
        0 <= j < i ==> #[trigger] items[j] == NodeV::Str(acc[j])
}

proof fn lemma_string_items_from(
    items: Seq<NodeV>,
    i: int,
    key: Seq<char>,
    whole: NodeV,
    acc: Seq<Seq<char>>,
)
    requires
        spec_string_items_prefix_ok(items, i, acc),
    ensures
        spec_string_items(items, key, whole) == match spec_string_items(
            items.skip(i),
            key,
            whole,
        ) {
            Ok(rest) => Ok::<Seq<Seq<char>>, ErrorV>(acc + rest),
            Err(e) => Err::<Seq<Seq<char>>, ErrorV>(e),
        },
    decreases i,
{
    if i == 0 {
        assert(items.skip(0) =~= items);
        match spec_string_items(items, key, whole) {
            Ok(rest) => {
                assert(acc + rest =~= rest);
            },
            Err(_) => {},
        }
    } else {
        let prev = acc.take(i - 1);
        assert(prev.len() == i - 1);
        assert forall|j: int| 0 <= j < i - 1 implies #[trigger] items[j] == NodeV::Str(
            prev[j],
        ) by {
            assert(prev[j] == acc[j]);
        }
        assert(spec_string_items_prefix_ok(items, i - 1, prev));
        lemma_string_items_from(items, i - 1, key, whole, prev);
        assert(items.skip(i - 1).drop_first() =~= items.skip(i));
        assert(items.skip(i - 1)[0] == items[i - 1]);
        assert(items[i - 1] == NodeV::Str(acc[i - 1]));
        match spec_string_items(items.skip(i), key, whole) {
            Ok(rest) => {
                assert(spec_string_items(items.skip(i - 1), key, whole) == Ok::<
                    Seq<Seq<char>>,
                    ErrorV,
                >(seq![acc[i - 1]] + rest));
                assert(prev + (seq![acc[i - 1]] + rest) =~= acc + rest);
            },
            Err(e) => {
                assert(spec_string_items(items.skip(i - 1), key, whole) == Err::<
                    Seq<Seq<char>>,
                    ErrorV,
                >(e));
            },
        }
    }
}

proof fn lemma_string_items_err(
    items: Seq<NodeV>,
    i: int,
    key: Seq<char>,
    whole: NodeV,
    acc: Seq<Seq<char>>,
)
    requires
        0 <= i < items.len(),
        !(items[i] matches NodeV::Str(_)),
        spec_string_items_prefix_ok(items, i, acc),
    ensures
        spec_string_items(items, key, whole) == Err::<Seq<Seq<char>>, ErrorV>(
            ErrorV::InvalidAttrType {
                attr: key,
                pat: "Yaml::String(s) or Yaml::Array(a)"@,
                actual: items[i],
            },
        ),
{
    lemma_string_items_from(items, i, key, whole, acc);
    assert(items.skip(i)[0] == items[i]);
}

proof fn lemma_string_items_ok(
    items: Seq<NodeV>,
    key: Seq<char>,
    whole: NodeV,
    acc: Seq<Seq<char>>,
)
    requires
        spec_string_items_prefix_ok(items, items.len() as int, acc),
    ensures
        spec_string_items(items, key, whole) == Ok::<Seq<Seq<char>>, ErrorV>(acc),
{
    lemma_string_items_from(items, items.len() as int, key, whole, acc);
    assert(items.skip(items.len() as int).len() == 0);
    assert(acc + Seq::<Seq<char>>::empty() =~= acc);
}

/// Parses the documentation keys of a mapping: `doc` an optional string,
/// `doc-ref` one string or a list of strings.
pub open spec fn spec_parse_doc(pairs: Seq<EntryV>) -> Result<DocV, ErrorV> {
    match spec_get_str(pairs, "doc"@) {
        Err(e) => Err(e),
        Ok(d) => match spec_string_or_seq(pairs, "doc-ref"@) {
            Err(e) => Err(e),
            Ok(refs) => Ok(DocV { doc: d, doc_ref: refs }),
        },
    }
}

pub fn parse_doc(pairs: &Vec<Entry>) -> (r: Result<Doc, Error>)
    ensures
        match r {
            Ok(v) => spec_parse_doc(dict_pairs(pairs@)) matches Ok(dv) && dv == v@,
            Err(e) => spec_parse_doc(dict_pairs(pairs@)) matches Err(ev) && ev == e@,
        },
{
    let d = match get_str(pairs, "doc") {
        Ok(d) => d,
        Err(e) => {
            return Err(e);
        },
    };
    let refs = match string_or_seq(pairs, "doc-ref") {
        Ok(v) => v,
        Err(e) => {
            return Err(e);
        },
    };
    let r = Doc { doc: d, doc_ref: refs };
    proof {
        assert(spec_parse_doc(dict_pairs(pairs@)) matches Ok(dv) && dv =~= r@);
    }
    Ok(r)
}


/// An optional mapping-valued key.
pub open spec fn spec_get_dict(pairs: Seq<EntryV>, key: Seq<char>) -> Result<
    Option<Seq<EntryV>>,
    ErrorV,
> {
    match spec_dict_get(pairs, key) {
        None => Ok(None),
        Some(n) => match n {
            NodeV::Dict(ps) => Ok(Some(ps)),
            _ => Err(ErrorV::InvalidAttrType { attr: key, pat: "Yaml::Hash(h)"@, actual: n }),
        },
    }
}

pub fn get_dict<'a>(pairs: &'a Vec<Entry>, key: &str) -> (r: Result<Option<&'a Vec<Entry>>, Error>)
    ensures
        match r {
            Ok(Some(d)) => spec_get_dict(dict_pairs(pairs@), key@) matches Ok(dv) && dv == Some(
                dict_pairs(d@),
            ),
            Ok(None) => spec_get_dict(dict_pairs(pairs@), key@) matches Ok(dv) && dv is None,
            Err(e) => spec_get_dict(dict_pairs(pairs@), key@) matches Err(ev) && ev == e@,
        },
{
    match dict_get(pairs, key) {
        None => Ok(None),
        Some(n) => match n {
            Node::Dict(d) => {
                proof {
                    assert(n@ matches NodeV::Dict(s0) && s0 =~= dict_pairs(d@));
                }
                Ok(Some(d))
            },
            other => Err(
                Error::InvalidAttrType {
                    attr: key.to_owned(),
                    pat: "Yaml::Hash(h)".to_owned(),
                    actual: other.duplicate(),
                },
            ),
        },
    }
}

/// An optional list-valued key.
pub open spec fn spec_get_arr(pairs: Seq<EntryV>, key: Seq<char>) -> Result<
    Option<Seq<NodeV>>,
    ErrorV,
> {
    match spec_dict_get(pairs, key) {
        None => Ok(None),
        Some(n) => match n {
            NodeV::Arr(items) => Ok(Some(items)),
            _ => Err(ErrorV::InvalidAttrType { attr: key, pat: "Yaml::Array(a)"@, actual: n }),
        },
    }
}

pub fn get_arr<'a>(pairs: &'a Vec<Entry>, key: &str) -> (r: Result<Option<&'a Vec<Node>>, Error>)
    ensures
        match r {
            Ok(Some(items)) => spec_get_arr(dict_pairs(pairs@), key@) matches Ok(av) && av == Some(
                nodes_view(items@),
            ),
            Ok(None) => spec_get_arr(dict_pairs(pairs@), key@) matches Ok(av) && av is None,
            Err(e) => spec_get_arr(dict_pairs(pairs@), key@) matches Err(ev) && ev == e@,
        },
{
    match dict_get(pairs, key) {
        None => Ok(None),
        Some(n) => match n {
            Node::Arr(items) => {
                proof {
                    assert(n@ matches NodeV::Arr(s0) && s0 =~= nodes_view(items@));
                }
                Ok(Some(items))
            },
            other => Err(
                Error::InvalidAttrType {
                    attr: key.to_owned(),
                    pat: "Yaml::Array(a)".to_owned(),
                    actual: other.duplicate(),
                },
            ),
        },
    }
}

/// An optional key holding an integer literal or an attribute reference.
pub open spec fn spec_get_integer_value(pairs: Seq<EntryV>, key: Seq<char>) -> Result<
    Option<IntegerValueV>,
    ErrorV,
> {
    match spec_dict_get(pairs, key) {
        None => Ok(None),
        Some(n) => match n {
            NodeV::Int(i) => if i >= 0 {
                Ok(Some(IntegerValueV::Literal(i as u64)))
            } else {
                Err(
                    ErrorV::InvalidAttrType {
                        attr: key,
                        pat: "Yaml::Integer(i) or Yaml::String(s)"@,
                        actual: n,
                    },
                )
            },
            NodeV::Str(s) => Ok(Some(IntegerValueV::Variable(s))),
            _ => Err(
                ErrorV::InvalidAttrType {
                    attr: key,
                    pat: "Yaml::Integer(i) or Yaml::String(s)"@,
                    actual: n,
                },
            ),
        },
    }
}

pub fn get_integer_value(pairs: &Vec<Entry>, key: &str) -> (r: Result<
    Option<IntegerValue>,
    Error,
>)
    ensures
        match r {
            Ok(Some(v)) => spec_get_integer_value(dict_pairs(pairs@), key@) matches Ok(iv) && iv
                == Some(v@),
            Ok(None) => spec_get_integer_value(dict_pairs(pairs@), key@) matches Ok(iv) && iv
                is None,
            Err(e) => spec_get_integer_value(dict_pairs(pairs@), key@) matches Err(ev) && ev
                == e@,
        },
{
    match dict_get(pairs, key) {
        None => Ok(None),
        Some(n) => match n {
            Node::Int(i) => {
                if *i >= 0 {
                    Ok(Some(IntegerValue::Literal(*i as u64)))
                } else {
                    Err(
                        Error::InvalidAttrType {
                            attr: key.to_owned(),
                            pat: "Yaml::Integer(i) or Yaml::String(s)".to_owned(),
                            actual: n.duplicate(),
                        },
                    )
                }
            },
            Node::Str(s) => Ok(Some(IntegerValue::Variable(s.clone()))),
            other => Err(
                Error::InvalidAttrType {
                    attr: key.to_owned(),
                    pat: "Yaml::Integer(i) or Yaml::String(s)".to_owned(),
                    actual: other.duplicate(),
                },
            ),
        },
    }
}

/// Parses the optional `endian` key: only the two byte-order tokens are
/// recognized, and any other string is an invalid byte order.
pub open spec fn spec_parse_endianness(pairs: Seq<EntryV>) -> Result<Option<Endianness>, ErrorV> {
    match spec_get_str(pairs, "endian"@) {
        Err(e) => Err(e),
        Ok(None) => Ok(None),
        Ok(Some(s)) => if s == "le"@ {
            Ok(Some(Endianness::Le))
        } else if s == "be"@ {
            Ok(Some(Endianness::Be))
        } else {
            Err(ErrorV::InvalidEndianness)
        },
    }
}

pub fn parse_endianness(pairs: &Vec<Entry>) -> (r: Result<Option<Endianness>, Error>)
    ensures
        match r {
            Ok(v) => spec_parse_endianness(dict_pairs(pairs@)) matches Ok(ev) && ev == v,
            Err(e) => spec_parse_endianness(dict_pairs(pairs@)) matches Err(ev) && ev == e@,
        },
{
    let s = match get_str(pairs, "endian") {
        Ok(v) => v,
        Err(e) => {
            return Err(e);
        },
    };
    match s {
        None => Ok(None),
        Some(tok) => {
            if str_eq(tok.as_str(), "le") {
                Ok(Some(Endianness::Le))
            } else if str_eq(tok.as_str(), "be") {
                Ok(Some(Endianness::Be))
            } else {
                Err(Error::InvalidEndianness)
            }
        },
    }
}

/// Parses the cross-reference block: every field is one string or a list.
pub open spec fn spec_parse_xref(pairs: Seq<EntryV>) -> Result<XrefV, ErrorV> {
    match spec_string_or_seq(pairs, "forensicswiki"@) {
        Err(e) => Err(e),
        Ok(forensicswiki) => match spec_string_or_seq(pairs, "iso"@) {
            Err(e) => Err(e),
            Ok(iso) => match spec_string_or_seq(pairs, "justsolve"@) {
                Err(e) => Err(e),
                Ok(justsolve) => match spec_string_or_seq(pairs, "loc"@) {
                    Err(e) => Err(e),
                    Ok(loc) => match spec_string_or_seq(pairs, "mime"@) {
                        Err(e) => Err(e),
                        Ok(mime) => match spec_string_or_seq(pairs, "pronom"@) {
                            Err(e) => Err(e),
                            Ok(pronom) => match spec_string_or_seq(pairs, "rfc"@) {
                                Err(e) => Err(e),
                                Ok(rfc) => match spec_string_or_seq(pairs, "wikidata"@) {
                                    Err(e) => Err(e),
                                    Ok(wikidata) => Ok(
                                        XrefV {
                                            forensicswiki,
                                            iso,
                                            justsolve,
                                            loc,
                                            mime,
                                            pronom,
                                            rfc,
                                            wikidata,
                                        },
                                    ),
                                },
                            },
                        },
                    },
                },
            },
        },
    }
}

pub fn parse_xref(pairs: &Vec<Entry>) -> (r: Result<Xref, Error>)
    ensures
        match r {
            Ok(v) => spec_parse_xref(dict_pairs(pairs@)) matches Ok(xv) && xv == v@,
            Err(e) => spec_parse_xref(dict_pairs(pairs@)) matches Err(ev) && ev == e@,
        },
{
    let forensicswiki = match string_or_seq(pairs, "forensicswiki") {
        Ok(v) => v,
        Err(e) => {
            return Err(e);
        },
    };
    let iso = match string_or_seq(pairs, "iso") {
        Ok(v) => v,
        Err(e) => {
            return Err(e);
        },
    };
    let justsolve = match string_or_seq(pairs, "justsolve") {
        Ok(v) => v,
        Err(e) => {
            return Err(e);
        },
    };
    let loc = match string_or_seq(pairs, "loc") {
        Ok(v) => v,
        Err(e) => {
            return Err(e);
        },
    };
    let mime = match string_or_seq(pairs, "mime") {
        Ok(v) => v,
        Err(e) => {
            return Err(e);
        },
    };
    let pronom = match string_or_seq(pairs, "pronom") {
        Ok(v) => v,
        Err(e) => {
            return Err(e);
        },
    };
    let rfc = match string_or_seq(pairs, "rfc") {
        Ok(v) => v,
        Err(e) => {
            return Err(e);
        },
    };
    let wikidata = match string_or_seq(pairs, "wikidata") {
        Ok(v) => v,
        Err(e) => {
            return Err(e);
        },
    };
    let r = Xref { forensicswiki, iso, justsolve, loc, mime, pronom, rfc, wikidata };
    proof {
        assert(spec_parse_xref(dict_pairs(pairs@)) matches Ok(xv) && xv =~= r@);
    }
    Ok(r)
}


/// An optional version-shaped key: a string, a number kept as its source
/// text, or a non-negative integer as its decimal text.
pub open spec fn spec_get_version(pairs: Seq<EntryV>, key: Seq<char>) -> Result<
    Option<Seq<char>>,
    ErrorV,
> {
    match spec_dict_get(pairs, key) {
        None => Ok(None),
        Some(n) => match n {
            NodeV::Str(s) => Ok(Some(s)),
            NodeV::Real(s) => Ok(Some(s)),
            NodeV::Int(i) => if i >= 0 {
                Ok(Some(spec_decimal(i as nat)))
            } else {
                Err(ErrorV::InvalidAttrType { attr: key, pat: "Yaml::String(s)"@, actual: n })
            },
            _ => Err(
                ErrorV::InvalidAttrType { attr: key, pat: "Yaml::String(s)"@, actual: n },
            ),
        },
    }
}

pub fn get_version(pairs: &Vec<Entry>, key: &str) -> (r: Result<Option<String>, Error>)
    ensures
        match r {
            Ok(v) => spec_get_version(dict_pairs(pairs@), key@) matches Ok(sv) && sv
                == opt_string_view(v),
            Err(e) => spec_get_version(dict_pairs(pairs@), key@) matches Err(ev) && ev == e@,
        },
{
    match dict_get(pairs, key) {
        None => Ok(None),
        Some(n) => match n {
            Node::Str(s) => Ok(Some(s.clone())),
            Node::Real(s) => Ok(Some(s.clone())),
            Node::Int(i) => {
                if *i >= 0 {
                    Ok(Some(u64_string(*i as u64)))
                } else {
                    Err(
                        Error::InvalidAttrType {
                            attr: key.to_owned(),
                            pat: "Yaml::String(s)".to_owned(),
                            actual: n.duplicate(),
                        },
                    )
                }
            },
            other => Err(
                Error::InvalidAttrType {
                    attr: key.to_owned(),
                    pat: "Yaml::String(s)".to_owned(),
                    actual: other.duplicate(),
                },
            ),
        },
    }
}

/// Parses the documentation-bearing metadata keys.
pub open spec fn spec_parse_meta_doc(pairs: Seq<EntryV>) -> Result<MetaDocV, ErrorV> {
    match spec_get_str(pairs, "title"@) {
        Err(e) => Err(e),
        Ok(title) => match spec_string_or_seq(pairs, "application"@) {
            Err(e) => Err(e),
            Ok(application) => match spec_string_or_seq(pairs, "file-extension"@) {
                Err(e) => Err(e),
                Ok(file_extension) => match spec_get_dict(pairs, "xref"@) {
                    Err(e) => Err(e),
                    Ok(xref_pairs) => {
                        let xref = match xref_pairs {
                            Some(ps) => spec_parse_xref(ps),
                            None => spec_parse_xref(Seq::empty()),
                        };
                        match xref {
                            Err(e) => Err(e),
                            Ok(xref) => match spec_get_str(pairs, "license"@) {
                                Err(e) => Err(e),
                                Ok(license) => Ok(
                                    MetaDocV {
                                        title: match title {
                                            Some(s) => s,
                                            None => Seq::empty(),
                                        },
                                        application,
                                        file_extension,
                                        xref,
                                        license: match license {
                                            Some(s) => s,
                                            None => Seq::empty(),
                                        },
                                    },
                                ),
                            },
                        }
                    },
                },
            },
        },
    }
}

pub fn parse_meta_doc(pairs: &Vec<Entry>) -> (r: Result<MetaDoc, Error>)
    ensures
        match r {
            Ok(v) => spec_parse_meta_doc(dict_pairs(pairs@)) matches Ok(mv) && mv == v@,
            Err(e) => spec_parse_meta_doc(dict_pairs(pairs@)) matches Err(ev) && ev == e@,
        },
{
    let title = match get_str(pairs, "title") {
        Ok(v) => v,
        Err(e) => {
            return Err(e);
        },
    };
    let application = match string_or_seq(pairs, "application") {
        Ok(v) => v,
        Err(e) => {
            return Err(e);
        },
    };
    let file_extension = match string_or_seq(pairs, "file-extension") {
        Ok(v) => v,
        Err(e) => {
            return Err(e);
        },
    };
    let xref_dict = match get_dict(pairs, "xref") {
        Ok(v) => v,
        Err(e) => {
            return Err(e);
        },
    };
    let xref = match xref_dict {
        Some(ps) => match parse_xref(ps) {
            Ok(v) => v,
            Err(e) => {
                return Err(e);
            },
        },
        None => {
            let empty: Vec<Entry> = Vec::new();
            proof {
                assert(dict_pairs(empty@) =~= Seq::<EntryV>::empty());
            }
            match parse_xref(&empty) {
                Ok(v) => v,
                Err(e) => {
                    return Err(e);
                },
            }
        },
    };
    let license = match get_str(pairs, "license") {
        Ok(v) => v,
        Err(e) => {
            return Err(e);
        },
    };
    let r = MetaDoc {
        title: match title {
            Some(s) => s,
            None => String::new(),
        },
        application,
        file_extension,
        xref,
        license: match license {
            Some(s) => s,
            None => String::new(),
        },
    };
    proof {
        assert(spec_parse_meta_doc(dict_pairs(pairs@)) matches Ok(mv) && mv =~= r@);
    }
    Ok(r)
}

/// Parses the `meta` block of a type.
pub open spec fn spec_parse_meta(pairs: Seq<EntryV>) -> Result<MetaV, ErrorV> {
    match spec_get_str(pairs, "id"@) {
        Err(e) => Err(e),
        Ok(id) => match spec_parse_meta_doc(pairs) {
            Err(e) => Err(e),
            Ok(doc) => match spec_get_version(pairs, "ks-version"@) {
                Err(e) => Err(e),
                Ok(ks_version) => match spec_get_bool(pairs, "ks-debug"@, false) {
                    Err(e) => Err(e),
                    Ok(ks_debug) => match spec_get_bool(pairs, "ks-opaque-types"@, false) {
                        Err(e) => Err(e),
                        Ok(ks_opaque_types) => match spec_string_or_seq(pairs, "imports"@) {
                            Err(e) => Err(e),
                            Ok(imports) => match spec_get_str(pairs, "encoding"@) {
                                Err(e) => Err(e),
                                Ok(encoding) => match spec_parse_endianness(pairs) {
                                    Err(e) => Err(e),
                                    Ok(endianness) => Ok(
                                        MetaV {
                                            id,
                                            doc,
                                            ks_version,
                                            ks_debug,
                                            ks_opaque_types,
                                            imports,
                                            encoding,
                                            endianness,
                                        },
                                    ),
                                },
                            },
                        },
                    },
                },
            },
        },
    }
}

pub fn parse_meta(pairs: &Vec<Entry>) -> (r: Result<Meta, Error>)
    ensures
        match r {
            Ok(v) => spec_parse_meta(dict_pairs(pairs@)) matches Ok(mv) && mv == v@,
            Err(e) => spec_parse_meta(dict_pairs(pairs@)) matches Err(ev) && ev == e@,
        },
{
    let id = match get_str(pairs, "id") {
        Ok(v) => v,
        Err(e) => {
            return Err(e);
        },
    };
    let doc = match parse_meta_doc(pairs) {
        Ok(v) => v,
        Err(e) => {
            return Err(e);
        },
    };
    let ks_version = match get_version(pairs, "ks-version") {
        Ok(v) => v,
        Err(e) => {
            return Err(e);
        },
    };
    let ks_debug = match get_bool(pairs, "ks-debug", false) {
        Ok(v) => v,
        Err(e) => {
            return Err(e);
        },
    };
    let ks_opaque_types = match get_bool(pairs, "ks-opaque-types", false) {
        Ok(v) => v,
        Err(e) => {
            return Err(e);
        },
    };
    let imports = match string_or_seq(pairs, "imports") {
        Ok(v) => v,
        Err(e) => {
            return Err(e);
        },
    };
    let encoding = match get_str(pairs, "encoding") {
        Ok(v) => v,
        Err(e) => {
            return Err(e);
        },
    };
    let endianness = match parse_endianness(pairs) {
        Ok(v) => v,
        Err(e) => {
            return Err(e);
        },
    };
    let r = Meta { id, doc, ks_version, ks_debug, ks_opaque_types, imports, encoding, endianness };
    proof {
        assert(spec_parse_meta(dict_pairs(pairs@)) matches Ok(mv) && mv =~= r@);
    }
    Ok(r)
}


/// The bytes of a list node, each element of which must fit in one byte.
pub open spec fn spec_byte_items(items: Seq<NodeV>, key: Seq<char>) -> Result<Seq<u8>, ErrorV>
    decreases items.len(),
{
    if items.len() == 0 {
        Ok(Seq::empty())
    } else {
        match items[0] {
            NodeV::Int(i) => if 0 <= i <= 255 {
                match spec_byte_items(items.drop_first(), key) {
                    Ok(rest) => Ok(seq![items[0]->Int_0 as u8] + rest),
                    Err(e) => Err(e),
                }
            } else {
                Err(
                    ErrorV::InvalidAttrType {
                        attr: key,
                        pat: "Yaml::Integer(i)"@,
                        actual: items[0],
                    },
                )
            },
            _ => Err(
                ErrorV::InvalidAttrType { attr: key, pat: "Yaml::Integer(i)"@, actual: items[0] },
            ),
        }
    }
}

/// All elements before `i` are bytes, and `acc` holds them.
pub open spec fn spec_byte_items_prefix_ok(items: Seq<NodeV>, i: int, acc: Seq<u8>) -> bool {
    0 <= i <= items.len() && acc.len() == i && forall|j: int|
        0 <= j < i ==> #[trigger] items[j] == NodeV::Int(acc[j] as i64)
}

proof fn lemma_byte_items_from(items: Seq<NodeV>, i: int, key: Seq<char>, acc: Seq<u8>)
    requires
        spec_byte_items_prefix_ok(items, i, acc),
    ensures
        spec_byte_items(items, key) == match spec_byte_items(items.skip(i), key) {
            Ok(rest) => Ok::<Seq<u8>, ErrorV>(acc + rest),
            Err(e) => Err::<Seq<u8>, ErrorV>(e),
        },
    decreases i,
{
    if i == 0 {
        assert(items.skip(0) =~= items);
        match spec_byte_items(items, key) {
            Ok(rest) => {
                assert(acc + rest =~= rest);
            },
            Err(_) => {},
        }
    } else {
        let prev = acc.take(i - 1);
        assert(prev.len() == i - 1);
        assert forall|j: int| 0 <= j < i - 1 implies #[trigger] items[j] == NodeV::Int(
            prev[j] as i64,
        ) by {
            assert(prev[j] == acc[j]);
        }
        assert(spec_byte_items_prefix_ok(items, i - 1, prev));
        lemma_byte_items_from(items, i - 1, key, prev);
        assert(items.skip(i - 1).drop_first() =~= items.skip(i));
        assert(items.skip(i - 1)[0] == items[i - 1]);
        assert(items[i - 1] == NodeV::Int(acc[i - 1] as i64));
        match spec_byte_items(items.skip(i), key) {
            Ok(rest) => {
                assert(prev + (seq![acc[i - 1]] + rest) =~= acc + rest);
            },
            Err(_) => {},
        }
    }
}

pub fn byte_items(items: &Vec<Node>, key: &str) -> (r: Result<Vec<u8>, Error>)
    ensures
        match r {
            Ok(v) => spec_byte_items(nodes_view(items@), key@) matches Ok(bv) && bv == v@,
            Err(e) => spec_byte_items(nodes_view(items@), key@) matches Err(ev) && ev == e@,
        },
{
    let ghost iv = nodes_view(items@);
    let mut out: Vec<u8> = Vec::new();
    let mut i: usize = 0;
    #[verifier::loop_isolation(false)]
    while i < items.len()
        invariant
            i <= items@.len(),
            iv == nodes_view(items@),
            spec_byte_items_prefix_ok(iv, i as int, out@),
        decreases items@.len() - i,
    {
        proof {
            assert(iv[i as int] == items@[i as int]@);
        }
        match &items[i] {
            Node::Int(c) => {
                if 0 <= *c && *c <= 255 {
                    out.push(*c as u8);
                } else {
                    proof {
                        lemma_byte_items_from(iv, i as int, key@, out@);
                        assert(iv.skip(i as int)[0] == iv[i as int]);
                    }
                    return Err(
                        Error::InvalidAttrType {
                            attr: key.to_owned(),
                            pat: "Yaml::Integer(i)".to_owned(),
                            actual: Node::Int(*c),
                        },
                    );
                }
            },
            other => {
                proof {
                    lemma_byte_items_from(iv, i as int, key@, out@);
                    assert(iv.skip(i as int)[0] == iv[i as int]);
                }
                return Err(
                    Error::InvalidAttrType {
                        attr: key.to_owned(),
                        pat: "Yaml::Integer(i)".to_owned(),
                        actual: other.duplicate(),
                    },
                );
            },
        }
        i = i + 1;
    }
    proof {
        lemma_byte_items_from(iv, iv.len() as int, key@, out@);
        assert(iv.skip(iv.len() as int).len() == 0);
        assert(out@ + Seq::<u8>::empty() =~= out@);
    }
    Ok(out)
}

/// Parses the `contents` key: a string stands for its raw bytes, a list
/// must hold single-byte integers.
pub open spec fn spec_fixed_contents(pairs: Seq<EntryV>) -> Result<
    Option<FixedContentsV>,
    ErrorV,
> {
    match spec_dict_get(pairs, "contents"@) {
        None => Ok(None),
        Some(n) => match n {
            NodeV::Str(s) => Ok(Some(FixedContentsV::String(s))),
            NodeV::Arr(items) => match spec_byte_items(items, "contents"@) {
                Ok(bytes) => Ok(Some(FixedContentsV::Array(bytes))),
                Err(e) => Err(e),
            },
            _ => Err(
                ErrorV::InvalidAttrType {
                    attr: "contents"@,
                    pat: "Yaml::String(s) or Yaml::Array(a)"@,
                    actual: n,
                },
            ),
        },
    }
}

/// Parses the declared fixed contents of an attribute, if any.
pub fn fixed_contents(pairs: &Vec<Entry>) -> (r: Result<Option<FixedContents>, Error>)
    ensures
        match r {
            Ok(Some(v)) => spec_fixed_contents(dict_pairs(pairs@)) matches Ok(cv) && cv == Some(
                v@,
            ),
            Ok(None) => spec_fixed_contents(dict_pairs(pairs@)) matches Ok(cv) && cv is None,
            Err(e) => spec_fixed_contents(dict_pairs(pairs@)) matches Err(ev) && ev == e@,
        },
{
    match dict_get(pairs, "contents") {
        None => Ok(None),
        Some(n) => match n {
            Node::Str(s) => Ok(Some(FixedContents::String(s.clone()))),
            Node::Arr(items) => {
                proof {
                    assert(n@ matches NodeV::Arr(s0) && s0 =~= nodes_view(items@));
                }
                match byte_items(items, "contents") {
                    Ok(bytes) => Ok(Some(FixedContents::Array(bytes))),
                    Err(e) => Err(e),
                }
            },
            other => Err(
                Error::InvalidAttrType {
                    attr: "contents".to_owned(),
                    pat: "Yaml::String(s) or Yaml::Array(a)".to_owned(),
                    actual: other.duplicate(),
                },
            ),
        },
    }
}


/// A required mapping-valued key.
pub open spec fn spec_get_required_dict(pairs: Seq<EntryV>, key: Seq<char>) -> Result<
    Seq<EntryV>,
    ErrorV,
> {
    match spec_dict_get(pairs, key) {
        None => Err(ErrorV::RequiredAttrNotFound(key)),
        Some(n) => match n {
            NodeV::Dict(ps) => Ok(ps),
            _ => Err(ErrorV::InvalidAttrType { attr: key, pat: "Yaml::Hash(h)"@, actual: n }),
        },
    }
}

pub fn get_required_dict<'a>(pairs: &'a Vec<Entry>, key: &str) -> (r: Result<
    &'a Vec<Entry>,
    Error,
>)
    ensures
        match r {
            Ok(d) => spec_get_required_dict(dict_pairs(pairs@), key@) matches Ok(dv) && dv
                == dict_pairs(d@),
            Err(e) => spec_get_required_dict(dict_pairs(pairs@), key@) matches Err(ev) && ev
                == e@,
        },
{
    match dict_get(pairs, key) {
        None => Err(Error::RequiredAttrNotFound(key.to_owned())),
        Some(n) => match n {
            Node::Dict(d) => {
                proof {
                    assert(n@ matches NodeV::Dict(s0) && s0 =~= dict_pairs(d@));
                }
                Ok(d)
            },
            other => Err(
                Error::InvalidAttrType {
                    attr: key.to_owned(),
                    pat: "Yaml::Hash(h)".to_owned(),
                    actual: other.duplicate(),
                },
            ),
        },
    }
}

/// One case of a switch: the key is an integer or a symbol, the value a
/// type reference string.
pub open spec fn spec_case_entry(e: EntryV) -> Result<SwitchCaseV, ErrorV> {
    match e.key {
        NodeV::Int(i) => match e.val {
            NodeV::Str(t) => Ok(SwitchCaseV { key: CaseKeyV::Int(i), ty: t }),
            _ => Err(
                ErrorV::InvalidAttrType {
                    attr: "case type"@,
                    pat: "Yaml::String(s)"@,
                    actual: e.val,
                },
            ),
        },
        NodeV::Str(s) => match e.val {
            NodeV::Str(t) => Ok(SwitchCaseV { key: CaseKeyV::Sym(s), ty: t }),
            _ => Err(
                ErrorV::InvalidAttrType {
                    attr: "case type"@,
                    pat: "Yaml::String(s)"@,
                    actual: e.val,
                },
            ),
        },
        _ => Err(
            ErrorV::InvalidAttrType {
                attr: "case key"@,
                pat: "Yaml::Integer(i) or Yaml::String(s)"@,
                actual: e.key,
            },
        ),
    }
}

/// The cases of a switch, in declaration order.
pub open spec fn spec_case_items(pairs: Seq<EntryV>) -> Result<Seq<SwitchCaseV>, ErrorV>
    decreases pairs.len(),
{
    if pairs.len() == 0 {
        Ok(Seq::empty())
    } else {
        match spec_case_entry(pairs[0]) {
            Err(e) => Err(e),
            Ok(c) => match spec_case_items(pairs.drop_first()) {
                Ok(rest) => Ok(seq![c] + rest),
                Err(e) => Err(e),
            },
        }
    }
}

/// All entries before `i` parse to the cases of `acc`.
pub open spec fn spec_case_items_prefix_ok(
    pairs: Seq<EntryV>,
    i: int,
    acc: Seq<SwitchCaseV>,
) -> bool {
    0 <= i <= pairs.len() && acc.len() == i && forall|j: int|
        0 <= j < i ==> #[trigger] spec_case_entry(pairs[j]) == Ok::<SwitchCaseV, ErrorV>(acc[j])
}

proof fn lemma_case_items_from(pairs: Seq<EntryV>, i: int, acc: Seq<SwitchCaseV>)
    requires
        spec_case_items_prefix_ok(pairs, i, acc),
    ensures
        spec_case_items(pairs) == match spec_case_items(pairs.skip(i)) {
            Ok(rest) => Ok::<Seq<SwitchCaseV>, ErrorV>(acc + rest),
            Err(e) => Err::<Seq<SwitchCaseV>, ErrorV>(e),
        },
    decreases i,
{
    if i == 0 {
        assert(pairs.skip(0) =~= pairs);
        match spec_case_items(pairs) {
            Ok(rest) => {
                assert(acc + rest =~= rest);
            },
            Err(_) => {},
        }
    } else {
        let prev = acc.take(i - 1);
        assert(prev.len() == i - 1);
        assert forall|j: int| 0 <= j < i - 1 implies #[trigger] spec_case_entry(pairs[j]) == Ok::<
            SwitchCaseV,
            ErrorV,
        >(prev[j]) by {
            assert(prev[j] == acc[j]);
        }
        assert(spec_case_items_prefix_ok(pairs, i - 1, prev));
        lemma_case_items_from(pairs, i - 1, prev);
        assert(pairs.skip(i - 1).drop_first() =~= pairs.skip(i));
        assert(pairs.skip(i - 1)[0] == pairs[i - 1]);
        assert(spec_case_entry(pairs[i - 1]) == Ok::<SwitchCaseV, ErrorV>(acc[i - 1]));
        match spec_case_items(pairs.skip(i)) {
            Ok(rest) => {
                assert(prev + (seq![acc[i - 1]] + rest) =~= acc + rest);
            },
            Err(_) => {},
        }
    }
}

pub fn case_items(pairs: &Vec<Entry>) -> (r: Result<Vec<SwitchCase>, Error>)
    ensures
        match r {
            Ok(v) => spec_case_items(dict_pairs(pairs@)) matches Ok(cv) && cv == Seq::new(
                v@.len(),
                |i: int| v@[i]@,
            ),
            Err(e) => spec_case_items(dict_pairs(pairs@)) matches Err(ev) && ev == e@,
        },
{
    let ghost pv = dict_pairs(pairs@);
    let mut out: Vec<SwitchCase> = Vec::new();
    let mut i: usize = 0;
    #[verifier::loop_isolation(false)]
    while i < pairs.len()
        invariant
            i <= pairs@.len(),
            pv == dict_pairs(pairs@),
            spec_case_items_prefix_ok(pv, i as int, Seq::new(out@.len(), |j: int| out@[j]@)),
        decreases pairs@.len() - i,
    {
        let ghost prev_cv = Seq::new(out@.len(), |j: int| out@[j]@);
        proof {
            assert(pv[i as int] == pairs@[i as int]@);
        }
        let key = match &pairs[i].key {
            Node::Int(c) => CaseKey::Int(*c),
            Node::Str(sym) => CaseKey::Sym(sym.clone()),
            other => {
                proof {
                    lemma_case_items_from(pv, i as int, prev_cv);
                    assert(pv.skip(i as int)[0] == pv[i as int]);
                }
                return Err(
                    Error::InvalidAttrType {
                        attr: "case key".to_owned(),
                        pat: "Yaml::Integer(i) or Yaml::String(s)".to_owned(),
                        actual: other.duplicate(),
                    },
                );
            },
        };
        let ty = match &pairs[i].val {
            Node::Str(t) => t.clone(),
            other => {
                proof {
                    lemma_case_items_from(pv, i as int, prev_cv);
                    assert(pv.skip(i as int)[0] == pv[i as int]);
                }
                return Err(
                    Error::InvalidAttrType {
                        attr: "case type".to_owned(),
                        pat: "Yaml::String(s)".to_owned(),
                        actual: other.duplicate(),
                    },
                );
            },
        };
        out.push(SwitchCase { key, ty });
        proof {
            let cv = Seq::new(out@.len(), |j: int| out@[j]@);
            assert(cv.len() == i + 1);
            assert forall|j: int| 0 <= j < i + 1 implies #[trigger] spec_case_entry(pv[j]) == Ok::<
                SwitchCaseV,
                ErrorV,
            >(cv[j]) by {
                if j < i {
                    assert(cv[j] == prev_cv[j]);
                } else {
                    assert(cv[j] == out@[j]@);
                }
            }
        }
        i = i + 1;
    }
    proof {
        let cv = Seq::new(out@.len(), |j: int| out@[j]@);
        lemma_case_items_from(pv, pv.len() as int, cv);
        assert(pv.skip(pv.len() as int).len() == 0);
        assert(cv + Seq::<SwitchCaseV>::empty() =~= cv);
    }
    Ok(out)
}

/// Parses the `type` key: a bare reference string, or a mapping introducing
/// a switch with `switch-on` and `cases`.
pub open spec fn spec_parse_attr_type(pairs: Seq<EntryV>) -> Result<Option<AttrTypeV>, ErrorV> {
    match spec_dict_get(pairs, "type"@) {
        None => Ok(None),
        Some(n) => match n {
            NodeV::Str(s) => Ok(Some(AttrTypeV::TypeRef(s))),
            NodeV::Dict(ps) => match spec_get_required_str(ps, "switch-on"@) {
                Err(e) => Err(e),
                Ok(on) => match spec_get_required_dict(ps, "cases"@) {
                    Err(e) => Err(e),
                    Ok(case_pairs) => match spec_case_items(case_pairs) {
                        Err(e) => Err(e),
                        Ok(cases) => Ok(Some(AttrTypeV::Switch { switch_on: on, cases })),
                    },
                },
            },
            _ => Err(
                ErrorV::InvalidAttrType {
                    attr: "type"@,
                    pat: "Yaml::String(s) or Yaml::Hash(h)"@,
                    actual: n,
                },
            ),
        },
    }
}

pub fn parse_attr_type(pairs: &Vec<Entry>) -> (r: Result<Option<AttrType>, Error>)
    ensures
        match r {
            Ok(Some(v)) => spec_parse_attr_type(dict_pairs(pairs@)) matches Ok(tv) && tv == Some(
                v@,
            ),
            Ok(None) => spec_parse_attr_type(dict_pairs(pairs@)) matches Ok(tv) && tv is None,
            Err(e) => spec_parse_attr_type(dict_pairs(pairs@)) matches Err(ev) && ev == e@,
        },
{
    match dict_get(pairs, "type") {
        None => Ok(None),
        Some(n) => match n {
            Node::Str(s) => Ok(Some(AttrType::TypeRef(s.clone()))),
            Node::Dict(ps) => {
                proof {
                    assert(n@ matches NodeV::Dict(s0) && s0 =~= dict_pairs(ps@));
                }
                let on = match get_required_str(ps, "switch-on") {
                    Ok(v) => v,
                    Err(e) => {
                        return Err(e);
                    },
                };
                let case_dict = match get_required_dict(ps, "cases") {
                    Ok(v) => v,
                    Err(e) => {
                        return Err(e);
                    },
                };
                let cases = match case_items(case_dict) {
                    Ok(v) => v,
                    Err(e) => {
                        return Err(e);
                    },
                };
                let t = AttrType::Switch { switch_on: on, cases };
                proof {
                    assert(t@ matches AttrTypeV::Switch { switch_on, cases: cv } && cv =~= Seq::new(
                        cases@.len(),
                        |i: int| cases@[i]@,
                    ));
                }
                Ok(Some(t))
            },
            other => Err(
                Error::InvalidAttrType {
                    attr: "type".to_owned(),
                    pat: "Yaml::String(s) or Yaml::Hash(h)".to_owned(),
                    actual: other.duplicate(),
                },
            ),
        },
    }
}

/// Parses the `repeat` key: one of the three repetition tokens.
pub open spec fn spec_parse_repeat(pairs: Seq<EntryV>) -> Result<Option<Repeat>, ErrorV> {
    match spec_get_str(pairs, "repeat"@) {
        Err(e) => Err(e),
        Ok(None) => Ok(None),
        Ok(Some(s)) => if s == "eos"@ {
            Ok(Some(Repeat::Eos))
        } else if s == "expr"@ {
            Ok(Some(Repeat::Expr))
        } else if s == "until"@ {
            Ok(Some(Repeat::Until))
        } else {
            Err(
                ErrorV::InvalidAttrType {
                    attr: "repeat"@,
                    pat: "eos, expr or until"@,
                    actual: NodeV::Str(s),
                },
            )
        },
    }
}

pub fn parse_repeat(pairs: &Vec<Entry>) -> (r: Result<Option<Repeat>, Error>)
    ensures
        match r {
            Ok(v) => spec_parse_repeat(dict_pairs(pairs@)) matches Ok(rv) && rv == v,
            Err(e) => spec_parse_repeat(dict_pairs(pairs@)) matches Err(ev) && ev == e@,
        },
{
    let s = match get_str(pairs, "repeat") {
        Ok(v) => v,
        Err(e) => {
            return Err(e);
        },
    };
    match s {
        None => Ok(None),
        Some(tok) => {
            if str_eq(tok.as_str(), "eos") {
                Ok(Some(Repeat::Eos))
            } else if str_eq(tok.as_str(), "expr") {
                Ok(Some(Repeat::Expr))
            } else if str_eq(tok.as_str(), "until") {
                Ok(Some(Repeat::Until))
            } else {
                Err(
                    Error::InvalidAttrType {
                        attr: "repeat".to_owned(),
                        pat: "eos, expr or until".to_owned(),
                        actual: Node::Str(tok),
                    },
                )
            }
        },
    }
}


/// Parses one entry of the attribute sequence, which must be a mapping;
/// every key of an attribute is represented.
pub open spec fn spec_parse_attr(n: NodeV) -> Result<AttrV, ErrorV> {
    match n {
        NodeV::Dict(pairs) => spec_parse_attr_fields(pairs),
        _ => Err(ErrorV::InvalidAttribute(n)),
    }
}

/// Parses the keys of one attribute mapping, in a fixed order; the first
/// ill-shaped key is the error returned.
pub open spec fn spec_parse_attr_fields(pairs: Seq<EntryV>) -> Result<AttrV, ErrorV> {
    if spec_get_str(pairs, "id"@) is Err {
        Err(spec_get_str(pairs, "id"@)->Err_0)
    } else if spec_parse_doc(pairs) is Err {
        Err(spec_parse_doc(pairs)->Err_0)
    } else if spec_fixed_contents(pairs) is Err {
        Err(spec_fixed_contents(pairs)->Err_0)
    } else if spec_parse_attr_type(pairs) is Err {
        Err(spec_parse_attr_type(pairs)->Err_0)
    } else if spec_parse_repeat(pairs) is Err {
        Err(spec_parse_repeat(pairs)->Err_0)
    } else if spec_get_integer_value(pairs, "repeat-expr"@) is Err {
        Err(spec_get_integer_value(pairs, "repeat-expr"@)->Err_0)
    } else if spec_get_str(pairs, "repeat-until"@) is Err {
        Err(spec_get_str(pairs, "repeat-until"@)->Err_0)
    } else if spec_get_str(pairs, "if"@) is Err {
        Err(spec_get_str(pairs, "if"@)->Err_0)
    } else if spec_get_integer_value(pairs, "size"@) is Err {
        Err(spec_get_integer_value(pairs, "size"@)->Err_0)
    } else if spec_get_bool(pairs, "size-eos"@, false) is Err {
        Err(spec_get_bool(pairs, "size-eos"@, false)->Err_0)
    } else if spec_get_str(pairs, "process"@) is Err {
        Err(spec_get_str(pairs, "process"@)->Err_0)
    } else if spec_get_str(pairs, "enum"@) is Err {
        Err(spec_get_str(pairs, "enum"@)->Err_0)
    } else if spec_get_str(pairs, "encoding"@) is Err {
        Err(spec_get_str(pairs, "encoding"@)->Err_0)
    } else if spec_get_u64(pairs, "pad-right"@) is Err {
        Err(spec_get_u64(pairs, "pad-right"@)->Err_0)
    } else if spec_get_u64(pairs, "terminator"@) is Err {
        Err(spec_get_u64(pairs, "terminator"@)->Err_0)
    } else if spec_get_bool(pairs, "consume"@, true) is Err {
        Err(spec_get_bool(pairs, "consume"@, true)->Err_0)
    } else if spec_get_bool(pairs, "include"@, false) is Err {
        Err(spec_get_bool(pairs, "include"@, false)->Err_0)
    } else if spec_get_bool(pairs, "eos-error"@, true) is Err {
        Err(spec_get_bool(pairs, "eos-error"@, true)->Err_0)
    } else if spec_get_integer_value(pairs, "pos"@) is Err {
        Err(spec_get_integer_value(pairs, "pos"@)->Err_0)
    } else if spec_get_str(pairs, "io"@) is Err {
        Err(spec_get_str(pairs, "io"@)->Err_0)
    } else if spec_get_str(pairs, "value"@) is Err {
        Err(spec_get_str(pairs, "value"@)->Err_0)
    } else {
        Ok(
            AttrV {
                id: spec_get_str(pairs, "id"@)->Ok_0,
                doc: spec_parse_doc(pairs)->Ok_0,
                contents: spec_fixed_contents(pairs)->Ok_0,
                ty: spec_parse_attr_type(pairs)->Ok_0,
                repeat: spec_parse_repeat(pairs)->Ok_0,
                repeat_expr: spec_get_integer_value(pairs, "repeat-expr"@)->Ok_0,
                repeat_until: spec_get_str(pairs, "repeat-until"@)->Ok_0,
                if_expr: spec_get_str(pairs, "if"@)->Ok_0,
                size: spec_get_integer_value(pairs, "size"@)->Ok_0,
                size_eos: spec_get_bool(pairs, "size-eos"@, false)->Ok_0,
                process: spec_get_str(pairs, "process"@)->Ok_0,
                en: spec_get_str(pairs, "enum"@)->Ok_0,
                encoding: spec_get_str(pairs, "encoding"@)->Ok_0,
                pad_right: spec_get_u64(pairs, "pad-right"@)->Ok_0,
                terminator: spec_get_u64(pairs, "terminator"@)->Ok_0,
                consume: spec_get_bool(pairs, "consume"@, true)->Ok_0,
                include_term: spec_get_bool(pairs, "include"@, false)->Ok_0,
                eos_error: spec_get_bool(pairs, "eos-error"@, true)->Ok_0,
                pos: spec_get_integer_value(pairs, "pos"@)->Ok_0,
                io: spec_get_str(pairs, "io"@)->Ok_0,
                value: spec_get_str(pairs, "value"@)->Ok_0,
            },
        )
    }
}

pub fn parse_attr(n: &Node) -> (r: Result<Attr, Error>)
    ensures
        match r {
            Ok(v) => spec_parse_attr(n@) matches Ok(av) && av == v@,
            Err(e) => spec_parse_attr(n@) matches Err(ev) && ev == e@,
        },
{
    let pairs = match n {
        Node::Dict(pairs) => pairs,
        _ => {
            return Err(Error::InvalidAttribute(n.duplicate()));
        },
    };
    proof {
        assert(n@ matches NodeV::Dict(s0) && s0 =~= dict_pairs(pairs@));
    }
    let id = match get_str(pairs, "id") {
        Ok(v) => v,
        Err(e) => {
            return Err(e);
        },
    };
    let doc = match parse_doc(pairs) {
        Ok(v) => v,
        Err(e) => {
            return Err(e);
        },
    };
    let contents = match fixed_contents(pairs) {
        Ok(v) => v,
        Err(e) => {
            return Err(e);
        },
    };
    let ty = match parse_attr_type(pairs) {
        Ok(v) => v,
        Err(e) => {
            return Err(e);
        },
    };
    let repeat = match parse_repeat(pairs) {
        Ok(v) => v,
        Err(e) => {
            return Err(e);
        },
    };
    let repeat_expr = match get_integer_value(pairs, "repeat-expr") {
        Ok(v) => v,
        Err(e) => {
            return Err(e);
        },
    };
    let repeat_until = match get_str(pairs, "repeat-until") {
        Ok(v) => v,
        Err(e) => {
            return Err(e);
        },
    };
    let if_expr = match get_str(pairs, "if") {
        Ok(v) => v,
        Err(e) => {
            return Err(e);
        },
    };
    let size = match get_integer_value(pairs, "size") {
        Ok(v) => v,
        Err(e) => {
            return Err(e);
        },
    };
    let size_eos = match get_bool(pairs, "size-eos", false) {
        Ok(v) => v,
        Err(e) => {
            return Err(e);
        },
    };
    let process = match get_str(pairs, "process") {
        Ok(v) => v,
        Err(e) => {
            return Err(e);
        },
    };
    let en = match get_str(pairs, "enum") {
        Ok(v) => v,
        Err(e) => {
            return Err(e);
        },
    };
    let encoding = match get_str(pairs, "encoding") {
        Ok(v) => v,
        Err(e) => {
            return Err(e);
        },
    };
    let pad_right = match get_u64(pairs, "pad-right") {
        Ok(v) => v,
        Err(e) => {
            return Err(e);
        },
    };
    let terminator = match get_u64(pairs, "terminator") {
        Ok(v) => v,
        Err(e) => {
            return Err(e);
        },
    };
    let consume = match get_bool(pairs, "consume", true) {
        Ok(v) => v,
        Err(e) => {
            return Err(e);
        },
    };
    let include_term = match get_bool(pairs, "include", false) {
        Ok(v) => v,
        Err(e) => {
            return Err(e);
        },
    };
    let eos_error = match get_bool(pairs, "eos-error", true) {
        Ok(v) => v,
        Err(e) => {
            return Err(e);
        },
    };
    let pos = match get_integer_value(pairs, "pos") {
        Ok(v) => v,
        Err(e) => {
            return Err(e);
        },
    };
    let io = match get_str(pairs, "io") {
        Ok(v) => v,
        Err(e) => {
            return Err(e);
        },
    };
    let value = match get_str(pairs, "value") {
        Ok(v) => v,
        Err(e) => {
            return Err(e);
        },
    };
    let r = Attr {
        id,
        doc,
        contents,
        ty,
        repeat,
        repeat_expr,
        repeat_until,
        if_expr,
        size,
        size_eos,
        process,
        en,
        encoding,
        pad_right,
        terminator,
        consume,
        include_term,
        eos_error,
        pos,
        io,
        value,
    };
    proof {
        assert(spec_parse_attr(n@) matches Ok(av) && av =~= r@);
    }
    Ok(r)
}


/// Parses one parameter declaration, which must be a mapping with `id` and
/// `type`.
pub open spec fn spec_parse_param(n: NodeV) -> Result<ParamV, ErrorV> {
    match n {
        NodeV::Dict(pairs) => {
            if spec_get_required_str(pairs, "id"@) is Err {
                Err(spec_get_required_str(pairs, "id"@)->Err_0)
            } else if spec_get_required_str(pairs, "type"@) is Err {
                Err(spec_get_required_str(pairs, "type"@)->Err_0)
            } else if spec_get_str(pairs, "doc"@) is Err {
                Err(spec_get_str(pairs, "doc"@)->Err_0)
            } else if spec_string_or_seq(pairs, "doc-ref"@) is Err {
                Err(spec_string_or_seq(pairs, "doc-ref"@)->Err_0)
            } else if spec_get_str(pairs, "enum"@) is Err {
                Err(spec_get_str(pairs, "enum"@)->Err_0)
            } else {
                Ok(
                    ParamV {
                        id: spec_get_required_str(pairs, "id"@)->Ok_0,
                        ty: spec_get_required_str(pairs, "type"@)->Ok_0,
                        doc: match spec_get_str(pairs, "doc"@)->Ok_0 {
                            Some(s) => s,
                            None => Seq::empty(),
                        },
                        doc_ref: spec_string_or_seq(pairs, "doc-ref"@)->Ok_0,
                        en: spec_get_str(pairs, "enum"@)->Ok_0,
                    },
                )
            }
        },
        _ => Err(ErrorV::InvalidAttrType { attr: "param"@, pat: "Yaml::Hash(h)"@, actual: n }),
    }
}

pub fn parse_param(n: &Node) -> (r: Result<Param, Error>)
    ensures
        match r {
            Ok(v) => spec_parse_param(n@) matches Ok(pv) && pv == v@,
            Err(e) => spec_parse_param(n@) matches Err(ev) && ev == e@,
        },
{
    let pairs = match n {
        Node::Dict(pairs) => pairs,
        _ => {
            return Err(
                Error::InvalidAttrType {
                    attr: "param".to_owned(),
                    pat: "Yaml::Hash(h)".to_owned(),
                    actual: n.duplicate(),
                },
            );
        },
    };
    proof {
        assert(n@ matches NodeV::Dict(s0) && s0 =~= dict_pairs(pairs@));
    }
    let id = match get_required_str(pairs, "id") {
        Ok(v) => v,
        Err(e) => {
            return Err(e);
        },
    };
    let ty = match get_required_str(pairs, "type") {
        Ok(v) => v,
        Err(e) => {
            return Err(e);
        },
    };
    let doc = match get_str(pairs, "doc") {
        Ok(v) => v,
        Err(e) => {
            return Err(e);
        },
    };
    let doc_ref = match string_or_seq(pairs, "doc-ref") {
        Ok(v) => v,
        Err(e) => {
            return Err(e);
        },
    };
    let en = match get_str(pairs, "enum") {
        Ok(v) => v,
        Err(e) => {
            return Err(e);
        },
    };
    let r = Param {
        id,
        ty,
        doc: match doc {
            Some(s) => s,
            None => String::new(),
        },
        doc_ref,
        en,
    };
    proof {
        assert(spec_parse_param(n@) matches Ok(pv) && pv =~= r@);
    }
    Ok(r)
}

/// Parses one enumeration value: a bare symbol string, or a mapping with a
/// required `id` and optional documentation.
pub open spec fn spec_parse_enum_value(n: NodeV) -> Result<EnumValueV, ErrorV> {
    match n {
        NodeV::Str(s) => Ok(EnumValueV { id: s, doc: DocV { doc: None, doc_ref: Seq::empty() } }),
        NodeV::Dict(pairs) => {
            if spec_get_required_str(pairs, "id"@) is Err {
                Err(spec_get_required_str(pairs, "id"@)->Err_0)
            } else if spec_parse_doc(pairs) is Err {
                Err(spec_parse_doc(pairs)->Err_0)
            } else {
                Ok(
                    EnumValueV {
                        id: spec_get_required_str(pairs, "id"@)->Ok_0,
                        doc: spec_parse_doc(pairs)->Ok_0,
                    },
                )
            }
        },
        _ => Err(
            ErrorV::InvalidAttrType {
                attr: "enum variant ident"@,
                pat: "Yaml::String(s) or Yaml::Hash(h)"@,
                actual: n,
            },
        ),
    }
}

pub fn parse_enum_value(n: &Node) -> (r: Result<EnumValue, Error>)
    ensures
        match r {
            Ok(v) => spec_parse_enum_value(n@) matches Ok(ev) && ev == v@,
            Err(e) => spec_parse_enum_value(n@) matches Err(ev) && ev == e@,
        },
{
    match n {
        Node::Str(s) => {
            let r = EnumValue { id: s.clone(), doc: Doc { doc: None, doc_ref: Vec::new() } };
            proof {
                assert(spec_parse_enum_value(n@) matches Ok(ev) && ev =~= r@);
            }
            Ok(r)
        },
        Node::Dict(pairs) => {
            proof {
                assert(n@ matches NodeV::Dict(s0) && s0 =~= dict_pairs(pairs@));
            }
            let id = match get_required_str(pairs, "id") {
                Ok(v) => v,
                Err(e) => {
                    return Err(e);
                },
            };
            let doc = match parse_doc(pairs) {
                Ok(v) => v,
                Err(e) => {
                    return Err(e);
                },
            };
            let r = EnumValue { id, doc };
            proof {
                assert(spec_parse_enum_value(n@) matches Ok(ev) && ev =~= r@);
            }
            Ok(r)
        },
        other => Err(
            Error::InvalidAttrType {
                attr: "enum variant ident".to_owned(),
                pat: "Yaml::String(s) or Yaml::Hash(h)".to_owned(),
                actual: other.duplicate(),
            },
        ),
    }
}

/// Parses one code of an enumeration: the key a non-negative integer, the
/// value a symbol.
pub open spec fn spec_parse_enum_entry(e: EntryV) -> Result<EnumEntryV, ErrorV> {
    match e.key {
        NodeV::Int(i) => if i >= 0 {
            match spec_parse_enum_value(e.val) {
                Ok(v) => Ok(EnumEntryV { code: i as u64, value: v }),
                Err(err) => Err(err),
            }
        } else {
            Err(
                ErrorV::InvalidAttrType {
                    attr: "enum variant value"@,
                    pat: "Yaml::Integer(i)"@,
                    actual: e.key,
                },
            )
        },
        _ => Err(
            ErrorV::InvalidAttrType {
                attr: "enum variant value"@,
                pat: "Yaml::Integer(i)"@,
                actual: e.key,
            },
        ),
    }
}

pub fn parse_enum_entry(e: &Entry) -> (r: Result<EnumEntry, Error>)
    ensures
        match r {
            Ok(v) => spec_parse_enum_entry(e@) matches Ok(ev) && ev == v@,
            Err(err) => spec_parse_enum_entry(e@) matches Err(ev) && ev == err@,
        },
{
    match &e.key {
        Node::Int(i) => {
            if *i >= 0 {
                match parse_enum_value(&e.val) {
                    Ok(v) => Ok(EnumEntry { code: *i as u64, value: v }),
                    Err(err) => Err(err),
                }
            } else {
                Err(
                    Error::InvalidAttrType {
                        attr: "enum variant value".to_owned(),
                        pat: "Yaml::Integer(i)".to_owned(),
                        actual: e.key.duplicate(),
                    },
                )
            }
        },
        other => Err(
            Error::InvalidAttrType {
                attr: "enum variant value".to_owned(),
                pat: "Yaml::Integer(i)".to_owned(),
                actual: other.duplicate(),
            },
        ),
    }
}


/// The parsed elements of a list, in order; the first fault is the error.
pub open spec fn spec_attr_items(xs: Seq<NodeV>) -> Result<Seq<AttrV>, ErrorV>
    decreases xs.len(),
{
    if xs.len() == 0 {
        Ok(Seq::empty())
    } else {
        match spec_parse_attr(xs[0]) {
            Err(e) => Err(e),
            Ok(v) => match spec_attr_items(xs.drop_first()) {
                Ok(rest) => Ok(seq![v] + rest),
                Err(e) => Err(e),
            },
        }
    }
}

/// All elements before `i` parse to the values of `acc`.
pub open spec fn spec_attr_prefix_ok(xs: Seq<NodeV>, i: int, acc: Seq<AttrV>) -> bool {
    0 <= i <= xs.len() && acc.len() == i && forall|j: int|
        0 <= j < i ==> #[trigger] spec_parse_attr(xs[j]) == Ok::<AttrV, ErrorV>(acc[j])
}

proof fn lemma_attr_from(xs: Seq<NodeV>, i: int, acc: Seq<AttrV>)
    requires
        spec_attr_prefix_ok(xs, i, acc),
    ensures
        spec_attr_items(xs) == match spec_attr_items(xs.skip(i)) {
            Ok(rest) => Ok::<Seq<AttrV>, ErrorV>(acc + rest),
            Err(e) => Err::<Seq<AttrV>, ErrorV>(e),
        },
    decreases i,
{
    if i == 0 {
        assert(xs.skip(0) =~= xs);
        match spec_attr_items(xs) {
            Ok(rest) => {
                assert(acc + rest =~= rest);
            },
            Err(_) => {},
        }
    } else {
        let prev = acc.take(i - 1);
        assert(prev.len() == i - 1);
        assert forall|j: int| 0 <= j < i - 1 implies #[trigger] spec_parse_attr(xs[j]) == Ok::<
            AttrV,
            ErrorV,
        >(prev[j]) by {
            assert(prev[j] == acc[j]);
        }
        assert(spec_attr_prefix_ok(xs, i - 1, prev));
        lemma_attr_from(xs, i - 1, prev);
        assert(xs.skip(i - 1).drop_first() =~= xs.skip(i));
        assert(xs.skip(i - 1)[0] == xs[i - 1]);
        assert(spec_parse_attr(xs[i - 1]) == Ok::<AttrV, ErrorV>(acc[i - 1]));
        match spec_attr_items(xs.skip(i)) {
            Ok(rest) => {
                assert(prev + (seq![acc[i - 1]] + rest) =~= acc + rest);
            },
            Err(_) => {},
        }
    }
}

pub fn attr_items(xs: &Vec<Node>) -> (r: Result<Vec<Attr>, Error>)
    ensures
        match r {
            Ok(v) => spec_attr_items(nodes_view(xs@)) matches Ok(sv) && sv == Seq::new(
                v@.len(),
                |i: int| v@[i]@,
            ),
            Err(e) => spec_attr_items(nodes_view(xs@)) matches Err(ev) && ev == e@,
        },
{
    let ghost iv = nodes_view(xs@);
    let mut out: Vec<Attr> = Vec::new();
    let mut i: usize = 0;
    #[verifier::loop_isolation(false)]
    while i < xs.len()
        invariant
            i <= xs@.len(),
            iv == nodes_view(xs@),
            spec_attr_prefix_ok(iv, i as int, Seq::new(out@.len(), |j: int| out@[j]@)),
        decreases xs@.len() - i,
    {
        let ghost prev_acc = Seq::new(out@.len(), |j: int| out@[j]@);
        proof {
            assert(iv[i as int] == xs@[i as int]@);
        }
        match parse_attr(&xs[i]) {
            Ok(v) => {
                out.push(v);
                proof {
                    let acc = Seq::new(out@.len(), |j: int| out@[j]@);
                    assert forall|j: int| 0 <= j < i + 1 implies #[trigger] spec_parse_attr(iv[j])
                        == Ok::<AttrV, ErrorV>(acc[j]) by {
                        if j < i {
                            assert(acc[j] == prev_acc[j]);
                        } else {
                            assert(acc[j] == out@[j]@);
                        }
                    }
                }
            },
            Err(e) => {
                proof {
                    lemma_attr_from(iv, i as int, prev_acc);
                    assert(iv.skip(i as int)[0] == iv[i as int]);
                }
                return Err(e);
            },
        }
        i = i + 1;
    }
    proof {
        let acc = Seq::new(out@.len(), |j: int| out@[j]@);
        lemma_attr_from(iv, iv.len() as int, acc);
        assert(iv.skip(iv.len() as int).len() == 0);
        assert(acc + Seq::<AttrV>::empty() =~= acc);
    }
    Ok(out)
}


/// The parsed elements of a list, in order; the first fault is the error.
pub open spec fn spec_param_items(xs: Seq<NodeV>) -> Result<Seq<ParamV>, ErrorV>
    decreases xs.len(),
{
    if xs.len() == 0 {
        Ok(Seq::empty())
    } else {
        match spec_parse_param(xs[0]) {
            Err(e) => Err(e),
            Ok(v) => match spec_param_items(xs.drop_first()) {
                Ok(rest) => Ok(seq![v] + rest),
                Err(e) => Err(e),
            },
        }
    }
}

/// All elements before `i` parse to the values of `acc`.
pub open spec fn spec_param_prefix_ok(xs: Seq<NodeV>, i: int, acc: Seq<ParamV>) -> bool {
    0 <= i <= xs.len() && acc.len() == i && forall|j: int|
        0 <= j < i ==> #[trigger] spec_parse_param(xs[j]) == Ok::<ParamV, ErrorV>(acc[j])
}

proof fn lemma_param_from(xs: Seq<NodeV>, i: int, acc: Seq<ParamV>)
    requires
        spec_param_prefix_ok(xs, i, acc),
    ensures
        spec_param_items(xs) == match spec_param_items(xs.skip(i)) {
            Ok(rest) => Ok::<Seq<ParamV>, ErrorV>(acc + rest),
            Err(e) => Err::<Seq<ParamV>, ErrorV>(e),
        },
    decreases i,
{
    if i == 0 {
        assert(xs.skip(0) =~= xs);
        match spec_param_items(xs) {
            Ok(rest) => {
                assert(acc + rest =~= rest);
            },
            Err(_) => {},
        }
    } else {
        let prev = acc.take(i - 1);
        assert(prev.len() == i - 1);
        assert forall|j: int| 0 <= j < i - 1 implies #[trigger] spec_parse_param(xs[j]) == Ok::<
            ParamV,
            ErrorV,
        >(prev[j]) by {
            assert(prev[j] == acc[j]);
        }
        assert(spec_param_prefix_ok(xs, i - 1, prev));
        lemma_param_from(xs, i - 1, prev);
        assert(xs.skip(i - 1).drop_first() =~= xs.skip(i));
        assert(xs.skip(i - 1)[0] == xs[i - 1]);
        assert(spec_parse_param(xs[i - 1]) == Ok::<ParamV, ErrorV>(acc[i - 1]));
        match spec_param_items(xs.skip(i)) {
            Ok(rest) => {
                assert(prev + (seq![acc[i - 1]] + rest) =~= acc + rest);
            },
            Err(_) => {},
        }
    }
}

pub fn param_items(xs: &Vec<Node>) -> (r: Result<Vec<Param>, Error>)
    ensures
        match r {
            Ok(v) => spec_param_items(nodes_view(xs@)) matches Ok(sv) && sv == Seq::new(
                v@.len(),
                |i: int| v@[i]@,
            ),
            Err(e) => spec_param_items(nodes_view(xs@)) matches Err(ev) && ev == e@,
        },
{
    let ghost iv = nodes_view(xs@);
    let mut out: Vec<Param> = Vec::new();
    let mut i: usize = 0;
    #[verifier::loop_isolation(false)]
    while i < xs.len()
        invariant
            i <= xs@.len(),
            iv == nodes_view(xs@),
            spec_param_prefix_ok(iv, i as int, Seq::new(out@.len(), |j: int| out@[j]@)),
        decreases xs@.len() - i,
    {
        let ghost prev_acc = Seq::new(out@.len(), |j: int| out@[j]@);
        proof {
            assert(iv[i as int] == xs@[i as int]@);
        }
        match parse_param(&xs[i]) {
            Ok(v) => {
                out.push(v);
                proof {
                    let acc = Seq::new(out@.len(), |j: int| out@[j]@);
                    assert forall|j: int| 0 <= j < i + 1 implies #[trigger] spec_parse_param(iv[j])
                        == Ok::<ParamV, ErrorV>(acc[j]) by {
                        if j < i {
                            assert(acc[j] == prev_acc[j]);
                        } else {
                            assert(acc[j] == out@[j]@);
                        }
                    }
                }
            },
            Err(e) => {
                proof {
                    lemma_param_from(iv, i as int, prev_acc);
                    assert(iv.skip(i as int)[0] == iv[i as int]);
                }
                return Err(e);
            },
        }
        i = i + 1;
    }
    proof {
        let acc = Seq::new(out@.len(), |j: int| out@[j]@);
        lemma_param_from(iv, iv.len() as int, acc);
        assert(iv.skip(iv.len() as int).len() == 0);
        assert(acc + Seq::<ParamV>::empty() =~= acc);
    }
    Ok(out)
}


/// The parsed elements of a list, in order; the first fault is the error.
pub open spec fn spec_enum_entry_items(xs: Seq<EntryV>) -> Result<Seq<EnumEntryV>, ErrorV>
    decreases xs.len(),
{
    if xs.len() == 0 {
        Ok(Seq::empty())
    } else {
        match spec_parse_enum_entry(xs[0]) {
            Err(e) => Err(e),
            Ok(v) => match spec_enum_entry_items(xs.drop_first()) {
                Ok(rest) => Ok(seq![v] + rest),
                Err(e) => Err(e),
            },
        }
    }
}

/// All elements before `i` parse to the values of `acc`.
pub open spec fn spec_enum_entry_prefix_ok(xs: Seq<EntryV>, i: int, acc: Seq<EnumEntryV>) -> bool {
    0 <= i <= xs.len() && acc.len() == i && forall|j: int|
        0 <= j < i ==> #[trigger] spec_parse_enum_entry(xs[j]) == Ok::<EnumEntryV, ErrorV>(acc[j])
}

proof fn lemma_enum_entry_from(xs: Seq<EntryV>, i: int, acc: Seq<EnumEntryV>)
    requires
        spec_enum_entry_prefix_ok(xs, i, acc),
    ensures
        spec_enum_entry_items(xs) == match spec_enum_entry_items(xs.skip(i)) {
            Ok(rest) => Ok::<Seq<EnumEntryV>, ErrorV>(acc + rest),
            Err(e) => Err::<Seq<EnumEntryV>, ErrorV>(e),
        },
    decreases i,
{
    if i == 0 {
        assert(xs.skip(0) =~= xs);
        match spec_enum_entry_items(xs) {
            Ok(rest) => {
                assert(acc + rest =~= rest);
            },
            Err(_) => {},
        }
    } else {
        let prev = acc.take(i - 1);
        assert(prev.len() == i - 1);
        assert forall|j: int| 0 <= j < i - 1 implies #[trigger] spec_parse_enum_entry(xs[j]) == Ok::<
            EnumEntryV,
            ErrorV,
        >(prev[j]) by {
            assert(prev[j] == acc[j]);
        }
        assert(spec_enum_entry_prefix_ok(xs, i - 1, prev));
        lemma_enum_entry_from(xs, i - 1, prev);
        assert(xs.skip(i - 1).drop_first() =~= xs.skip(i));
        assert(xs.skip(i - 1)[0] == xs[i - 1]);
        assert(spec_parse_enum_entry(xs[i - 1]) == Ok::<EnumEntryV, ErrorV>(acc[i - 1]));
        match spec_enum_entry_items(xs.skip(i)) {
            Ok(rest) => {
                assert(prev + (seq![acc[i - 1]] + rest) =~= acc + rest);
            },
            Err(_) => {},
        }
    }
}

pub fn enum_entry_items(xs: &Vec<Entry>) -> (r: Result<Vec<EnumEntry>, Error>)
    ensures
        match r {
            Ok(v) => spec_enum_entry_items(dict_pairs(xs@)) matches Ok(sv) && sv == Seq::new(
                v@.len(),
                |i: int| v@[i]@,
            ),
            Err(e) => spec_enum_entry_items(dict_pairs(xs@)) matches Err(ev) && ev == e@,
        },
{
    let ghost iv = dict_pairs(xs@);
    let mut out: Vec<EnumEntry> = Vec::new();
    let mut i: usize = 0;
    #[verifier::loop_isolation(false)]
    while i < xs.len()
        invariant
            i <= xs@.len(),
            iv == dict_pairs(xs@),
            spec_enum_entry_prefix_ok(iv, i as int, Seq::new(out@.len(), |j: int| out@[j]@)),
        decreases xs@.len() - i,
    {
        let ghost prev_acc = Seq::new(out@.len(), |j: int| out@[j]@);
        proof {
            assert(iv[i as int] == xs@[i as int]@);
        }
        match parse_enum_entry(&xs[i]) {
            Ok(v) => {
                out.push(v);
                proof {
                    let acc = Seq::new(out@.len(), |j: int| out@[j]@);
                    assert forall|j: int| 0 <= j < i + 1 implies #[trigger] spec_parse_enum_entry(iv[j])
                        == Ok::<EnumEntryV, ErrorV>(acc[j]) by {
                        if j < i {
                            assert(acc[j] == prev_acc[j]);
                        } else {
                            assert(acc[j] == out@[j]@);
                        }
                    }
                }
            },
            Err(e) => {
                proof {
                    lemma_enum_entry_from(iv, i as int, prev_acc);
                    assert(iv.skip(i as int)[0] == iv[i as int]);
                }
                return Err(e);
            },
        }
        i = i + 1;
    }
    proof {
        let acc = Seq::new(out@.len(), |j: int| out@[j]@);
        lemma_enum_entry_from(iv, iv.len() as int, acc);
        assert(iv.skip(iv.len() as int).len() == 0);
        assert(acc + Seq::<EnumEntryV>::empty() =~= acc);
    }
    Ok(out)
}


/// A required list-valued key.
pub open spec fn spec_get_required_arr(pairs: Seq<EntryV>, key: Seq<char>) -> Result<
    Seq<NodeV>,
    ErrorV,
> {
    match spec_dict_get(pairs, key) {
        None => Err(ErrorV::RequiredAttrNotFound(key)),
        Some(n) => match n {
            NodeV::Arr(items) => Ok(items),
            _ => Err(ErrorV::InvalidAttrType { attr: key, pat: "Yaml::Array(a)"@, actual: n }),
        },
    }
}

pub fn get_required_arr<'a>(pairs: &'a Vec<Entry>, key: &str) -> (r: Result<&'a Vec<Node>, Error>)
    ensures
        match r {
            Ok(items) => spec_get_required_arr(dict_pairs(pairs@), key@) matches Ok(av) && av
                == nodes_view(items@),
            Err(e) => spec_get_required_arr(dict_pairs(pairs@), key@) matches Err(ev) && ev == e@,
        },
{
    match dict_get(pairs, key) {
        None => Err(Error::RequiredAttrNotFound(key.to_owned())),
        Some(n) => match n {
            Node::Arr(items) => {
                proof {
                    assert(n@ matches NodeV::Arr(s0) && s0 =~= nodes_view(items@));
                }
                Ok(items)
            },
            other => Err(
                Error::InvalidAttrType {
                    attr: key.to_owned(),
                    pat: "Yaml::Array(a)".to_owned(),
                    actual: other.duplicate(),
                },
            ),
        },
    }
}

/// Parses one enumeration declaration: the key its name, the value the
/// mapping from code to symbol.
pub open spec fn spec_parse_enum_decl(e: EntryV) -> Result<EnumDeclV, ErrorV> {
    match e.key {
        NodeV::Str(name) => match e.val {
            NodeV::Dict(ps) => match spec_enum_entry_items(ps) {
                Ok(entries) => Ok(EnumDeclV { key: name, en: entries }),
                Err(err) => Err(err),
            },
            _ => Err(
                ErrorV::InvalidAttrType {
                    attr: "enum variants"@,
                    pat: "Yaml::Hash(h)"@,
                    actual: e.val,
                },
            ),
        },
        _ => Err(
            ErrorV::InvalidAttrType {
                attr: "enum ident"@,
                pat: "Yaml::String(s)"@,
                actual: e.key,
            },
        ),
    }
}

pub fn parse_enum_decl(e: &Entry) -> (r: Result<EnumDecl, Error>)
    ensures
        match r {
            Ok(v) => spec_parse_enum_decl(e@) matches Ok(dv) && dv == v@,
            Err(err) => spec_parse_enum_decl(e@) matches Err(ev) && ev == err@,
        },
{
    let name = match &e.key {
        Node::Str(s) => s.clone(),
        other => {
            return Err(
                Error::InvalidAttrType {
                    attr: "enum ident".to_owned(),
                    pat: "Yaml::String(s)".to_owned(),
                    actual: other.duplicate(),
                },
            );
        },
    };
    match &e.val {
        Node::Dict(ps) => {
            proof {
                assert(e.val@ matches NodeV::Dict(s0) && s0 =~= dict_pairs(ps@));
            }
            match enum_entry_items(ps) {
                Ok(entries) => {
                    let r = EnumDecl { key: name, en: Enum(entries) };
                    proof {
                        assert(spec_parse_enum_decl(e@) matches Ok(dv) && dv =~= r@);
                    }
                    Ok(r)
                },
                Err(err) => Err(err),
            }
        },
        other => Err(
            Error::InvalidAttrType {
                attr: "enum variants".to_owned(),
                pat: "Yaml::Hash(h)".to_owned(),
                actual: other.duplicate(),
            },
        ),
    }
}

/// Parses one named instance: the key its name, the value an attribute.
pub open spec fn spec_parse_instance(e: EntryV) -> Result<InstanceEntryV, ErrorV> {
    match e.key {
        NodeV::Str(name) => match spec_parse_attr(e.val) {
            Ok(a) => Ok(InstanceEntryV { key: name, attr: a }),
            Err(err) => Err(err),
        },
        _ => Err(
            ErrorV::InvalidAttrType {
                attr: "instance ident"@,
                pat: "Yaml::String(s)"@,
                actual: e.key,
            },
        ),
    }
}

pub fn parse_instance(e: &Entry) -> (r: Result<InstanceEntry, Error>)
    ensures
        match r {
            Ok(v) => spec_parse_instance(e@) matches Ok(iv) && iv == v@,
            Err(err) => spec_parse_instance(e@) matches Err(ev) && ev == err@,
        },
{
    let name = match &e.key {
        Node::Str(s) => s.clone(),
        other => {
            return Err(
                Error::InvalidAttrType {
                    attr: "instance ident".to_owned(),
                    pat: "Yaml::String(s)".to_owned(),
                    actual: other.duplicate(),
                },
            );
        },
    };
    match parse_attr(&e.val) {
        Ok(a) => Ok(InstanceEntry { key: name, attr: a }),
        Err(err) => Err(err),
    }
}


/// The parsed elements of a list, in order; the first fault is the error.
pub open spec fn spec_enum_decl_items(xs: Seq<EntryV>) -> Result<Seq<EnumDeclV>, ErrorV>
    decreases xs.len(),
{
    if xs.len() == 0 {
        Ok(Seq::empty())
    } else {
        match spec_parse_enum_decl(xs[0]) {
            Err(e) => Err(e),
            Ok(v) => match spec_enum_decl_items(xs.drop_first()) {
                Ok(rest) => Ok(seq![v] + rest),
                Err(e) => Err(e),
            },
        }
    }
}

/// All elements before `i` parse to the values of `acc`.
pub open spec fn spec_enum_decl_prefix_ok(xs: Seq<EntryV>, i: int, acc: Seq<EnumDeclV>) -> bool {
    0 <= i <= xs.len() && acc.len() == i && forall|j: int|
        0 <= j < i ==> #[trigger] spec_parse_enum_decl(xs[j]) == Ok::<EnumDeclV, ErrorV>(acc[j])
}

proof fn lemma_enum_decl_from(xs: Seq<EntryV>, i: int, acc: Seq<EnumDeclV>)
    requires
        spec_enum_decl_prefix_ok(xs, i, acc),
    ensures
        spec_enum_decl_items(xs) == match spec_enum_decl_items(xs.skip(i)) {
            Ok(rest) => Ok::<Seq<EnumDeclV>, ErrorV>(acc + rest),
            Err(e) => Err::<Seq<EnumDeclV>, ErrorV>(e),
        },
    decreases i,
{
    if i == 0 {
        assert(xs.skip(0) =~= xs);
        match spec_enum_decl_items(xs) {
            Ok(rest) => {
                assert(acc + rest =~= rest);
            },
            Err(_) => {},
        }
    } else {
        let prev = acc.take(i - 1);
        assert(prev.len() == i - 1);
        assert forall|j: int| 0 <= j < i - 1 implies #[trigger] spec_parse_enum_decl(xs[j]) == Ok::<
            EnumDeclV,
            ErrorV,
        >(prev[j]) by {
            assert(prev[j] == acc[j]);
        }
        assert(spec_enum_decl_prefix_ok(xs, i - 1, prev));
        lemma_enum_decl_from(xs, i - 1, prev);
        assert(xs.skip(i - 1).drop_first() =~= xs.skip(i));
        assert(xs.skip(i - 1)[0] == xs[i - 1]);
        assert(spec_parse_enum_decl(xs[i - 1]) == Ok::<EnumDeclV, ErrorV>(acc[i - 1]));
        match spec_enum_decl_items(xs.skip(i)) {
            Ok(rest) => {
                assert(prev + (seq![acc[i - 1]] + rest) =~= acc + rest);
            },
            Err(_) => {},
        }
    }
}

pub fn enum_decl_items(xs: &Vec<Entry>) -> (r: Result<Vec<EnumDecl>, Error>)
    ensures
        match r {
            Ok(v) => spec_enum_decl_items(dict_pairs(xs@)) matches Ok(sv) && sv == Seq::new(
                v@.len(),
                |i: int| v@[i]@,
            ),
            Err(e) => spec_enum_decl_items(dict_pairs(xs@)) matches Err(ev) && ev == e@,
        },
{
    let ghost iv = dict_pairs(xs@);
    let mut out: Vec<EnumDecl> = Vec::new();
    let mut i: usize = 0;
    #[verifier::loop_isolation(false)]
    while i < xs.len()
        invariant
            i <= xs@.len(),
            iv == dict_pairs(xs@),
            spec_enum_decl_prefix_ok(iv, i as int, Seq::new(out@.len(), |j: int| out@[j]@)),
        decreases xs@.len() - i,
    {
        let ghost prev_acc = Seq::new(out@.len(), |j: int| out@[j]@);
        proof {
            assert(iv[i as int] == xs@[i as int]@);
        }
        match parse_enum_decl(&xs[i]) {
            Ok(v) => {
                out.push(v);
                proof {
                    let acc = Seq::new(out@.len(), |j: int| out@[j]@);
                    assert forall|j: int| 0 <= j < i + 1 implies #[trigger] spec_parse_enum_decl(iv[j])
                        == Ok::<EnumDeclV, ErrorV>(acc[j]) by {
                        if j < i {
                            assert(acc[j] == prev_acc[j]);
                        } else {
                            assert(acc[j] == out@[j]@);
                        }
                    }
                }
            },
            Err(e) => {
                proof {
                    lemma_enum_decl_from(iv, i as int, prev_acc);
                    assert(iv.skip(i as int)[0] == iv[i as int]);
                }
                return Err(e);
            },
        }
        i = i + 1;
    }
    proof {
        let acc = Seq::new(out@.len(), |j: int| out@[j]@);
        lemma_enum_decl_from(iv, iv.len() as int, acc);
        assert(iv.skip(iv.len() as int).len() == 0);
        assert(acc + Seq::<EnumDeclV>::empty() =~= acc);
    }
    Ok(out)
}

/// The parsed elements of a list, in order; the first fault is the error.
pub open spec fn spec_instance_items(xs: Seq<EntryV>) -> Result<Seq<InstanceEntryV>, ErrorV>
    decreases xs.len(),
{
    if xs.len() == 0 {
        Ok(Seq::empty())
    } else {
        match spec_parse_instance(xs[0]) {
            Err(e) => Err(e),
            Ok(v) => match spec_instance_items(xs.drop_first()) {
                Ok(rest) => Ok(seq![v] + rest),
                Err(e) => Err(e),
            },
        }
    }
}

/// All elements before `i` parse to the values of `acc`.
pub open spec fn spec_instance_prefix_ok(xs: Seq<EntryV>, i: int, acc: Seq<InstanceEntryV>) -> bool {
    0 <= i <= xs.len() && acc.len() == i && forall|j: int|
        0 <= j < i ==> #[trigger] spec_parse_instance(xs[j]) == Ok::<InstanceEntryV, ErrorV>(acc[j])
}

proof fn lemma_instance_from(xs: Seq<EntryV>, i: int, acc: Seq<InstanceEntryV>)
    requires
        spec_instance_prefix_ok(xs, i, acc),
    ensures
        spec_instance_items(xs) == match spec_instance_items(xs.skip(i)) {
            Ok(rest) => Ok::<Seq<InstanceEntryV>, ErrorV>(acc + rest),
            Err(e) => Err::<Seq<InstanceEntryV>, ErrorV>(e),
        },
    decreases i,
{
    if i == 0 {
        assert(xs.skip(0) =~= xs);
        match spec_instance_items(xs) {
            Ok(rest) => {
                assert(acc + rest =~= rest);
            },
            Err(_) => {},
        }
    } else {
        let prev = acc.take(i - 1);
        assert(prev.len() == i - 1);
        assert forall|j: int| 0 <= j < i - 1 implies #[trigger] spec_parse_instance(xs[j]) == Ok::<
            InstanceEntryV,
            ErrorV,
        >(prev[j]) by {
            assert(prev[j] == acc[j]);
        }
        assert(spec_instance_prefix_ok(xs, i - 1, prev));
        lemma_instance_from(xs, i - 1, prev);
        assert(xs.skip(i - 1).drop_first() =~= xs.skip(i));
        assert(xs.skip(i - 1)[0] == xs[i - 1]);
        assert(spec_parse_instance(xs[i - 1]) == Ok::<InstanceEntryV, ErrorV>(acc[i - 1]));
        match spec_instance_items(xs.skip(i)) {
            Ok(rest) => {
                assert(prev + (seq![acc[i - 1]] + rest) =~= acc + rest);
            },
            Err(_) => {},
        }
    }
}

pub fn instance_items(xs: &Vec<Entry>) -> (r: Result<Vec<InstanceEntry>, Error>)
    ensures
        match r {
            Ok(v) => spec_instance_items(dict_pairs(xs@)) matches Ok(sv) && sv == Seq::new(
                v@.len(),
                |i: int| v@[i]@,
            ),
            Err(e) => spec_instance_items(dict_pairs(xs@)) matches Err(ev) && ev == e@,
        },
{
    let ghost iv = dict_pairs(xs@);
    let mut out: Vec<InstanceEntry> = Vec::new();
    let mut i: usize = 0;
    #[verifier::loop_isolation(false)]
    while i < xs.len()
        invariant
            i <= xs@.len(),
            iv == dict_pairs(xs@),
            spec_instance_prefix_ok(iv, i as int, Seq::new(out@.len(), |j: int| out@[j]@)),
        decreases xs@.len() - i,
    {
        let ghost prev_acc = Seq::new(out@.len(), |j: int| out@[j]@);
        proof {
            assert(iv[i as int] == xs@[i as int]@);
        }
        match parse_instance(&xs[i]) {
            Ok(v) => {
                out.push(v);
                proof {
                    let acc = Seq::new(out@.len(), |j: int| out@[j]@);
                    assert forall|j: int| 0 <= j < i + 1 implies #[trigger] spec_parse_instance(iv[j])
                        == Ok::<InstanceEntryV, ErrorV>(acc[j]) by {
                        if j < i {
                            assert(acc[j] == prev_acc[j]);
                        } else {
                            assert(acc[j] == out@[j]@);
                        }
                    }
                }
            },
            Err(e) => {
                proof {
                    lemma_instance_from(iv, i as int, prev_acc);
                    assert(iv.skip(i as int)[0] == iv[i as int]);
                }
                return Err(e);
            },
        }
        i = i + 1;
    }
    proof {
        let acc = Seq::new(out@.len(), |j: int| out@[j]@);
        lemma_instance_from(iv, iv.len() as int, acc);
        assert(iv.skip(iv.len() as int).len() == 0);
        assert(acc + Seq::<InstanceEntryV>::empty() =~= acc);
    }
    Ok(out)
}


/// Parses a whole type definition, which must be a mapping; nested types
/// are parsed recursively, and the attribute sequence is required.
pub open spec fn spec_parse_type(n: NodeV) -> Result<TypeV, ErrorV>
    decreases n, 1int,
    via spec_parse_type_dec
{
    match n {
        NodeV::Dict(pairs) => {
            let meta_r: Result<Option<MetaV>, ErrorV> = match spec_get_dict(pairs, "meta"@) {
                Err(e) => Err(e),
                Ok(None) => Ok(None),
                Ok(Some(mp)) => match spec_parse_meta(mp) {
                    Ok(m) => Ok(Some(m)),
                    Err(e) => Err(e),
                },
            };
            let params_r: Result<Seq<ParamV>, ErrorV> = match spec_get_arr(pairs, "params"@) {
                Err(e) => Err(e),
                Ok(None) => Ok(Seq::empty()),
                Ok(Some(items)) => spec_param_items(items),
            };
            let seq_r: Result<Seq<AttrV>, ErrorV> = match spec_get_required_arr(pairs, "seq"@) {
                Err(e) => Err(e),
                Ok(items) => spec_attr_items(items),
            };
            let types_r: Result<Seq<TypeEntryV>, ErrorV> = match spec_get_dict(pairs, "types"@) {
                Err(e) => Err(e),
                Ok(None) => Ok(Seq::empty()),
                Ok(Some(ps)) => spec_type_entry_items(ps),
            };
            let instances_r: Result<Seq<InstanceEntryV>, ErrorV> = match spec_get_dict(
                pairs,
                "instances"@,
            ) {
                Err(e) => Err(e),
                Ok(None) => Ok(Seq::empty()),
                Ok(Some(ps)) => spec_instance_items(ps),
            };
            let enums_r: Result<Seq<EnumDeclV>, ErrorV> = match spec_get_dict(pairs, "enums"@) {
                Err(e) => Err(e),
                Ok(None) => Ok(Seq::empty()),
                Ok(Some(ps)) => spec_enum_decl_items(ps),
            };
            if meta_r is Err {
                Err(meta_r->Err_0)
            } else if spec_get_str(pairs, "doc"@) is Err {
                Err(spec_get_str(pairs, "doc"@)->Err_0)
            } else if spec_string_or_seq(pairs, "doc-ref"@) is Err {
                Err(spec_string_or_seq(pairs, "doc-ref"@)->Err_0)
            } else if params_r is Err {
                Err(params_r->Err_0)
            } else if seq_r is Err {
                Err(seq_r->Err_0)
            } else if types_r is Err {
                Err(types_r->Err_0)
            } else if instances_r is Err {
                Err(instances_r->Err_0)
            } else if enums_r is Err {
                Err(enums_r->Err_0)
            } else {
                Ok(
                    TypeV {
                        meta: meta_r->Ok_0,
                        doc: spec_get_str(pairs, "doc"@)->Ok_0,
                        doc_ref: spec_string_or_seq(pairs, "doc-ref"@)->Ok_0,
                        params: params_r->Ok_0,
                        seq: seq_r->Ok_0,
                        types: types_r->Ok_0,
                        instances: instances_r->Ok_0,
                        enums: enums_r->Ok_0,
                    },
                )
            }
        },
        _ => Err(ErrorV::InvalidAttrType { attr: "type"@, pat: "Yaml::Hash(h)"@, actual: n }),
    }
}

#[via_fn]
proof fn spec_parse_type_dec(n: NodeV) {
    match n {
        NodeV::Dict(pairs) => {
            lemma_dict_get_smaller(pairs, "types"@);
            assert(decreases_to!(n => pairs));
            match spec_dict_get(pairs, "types"@) {
                Some(v) => {
                    match v {
                        NodeV::Dict(ps) => {
                            assert(decreases_to!(v => ps));
                        },
                        _ => {},
                    }
                },
                None => {},
            }
        },
        _ => {},
    }
}

/// The nested type declarations of a `types` mapping, each key a name and
/// each value a type definition.
pub open spec fn spec_type_entry_items(xs: Seq<EntryV>) -> Result<Seq<TypeEntryV>, ErrorV>
    decreases xs, 0int,
    via spec_type_entry_items_dec
{
    if xs.len() == 0 {
        Ok(Seq::empty())
    } else {
        match xs[0].key {
            NodeV::Str(name) => match spec_parse_type(xs[0].val) {
                Err(e) => Err(e),
                Ok(t) => match spec_type_entry_items(xs.drop_first()) {
                    Ok(rest) => Ok(seq![TypeEntryV { key: name, ty: t }] + rest),
                    Err(e) => Err(e),
                },
            },
            _ => Err(
                ErrorV::InvalidAttrType {
                    attr: "type name"@,
                    pat: "Yaml::String(s)"@,
                    actual: xs[0].key,
                },
            ),
        }
    }
}

#[via_fn]
proof fn spec_type_entry_items_dec(xs: Seq<EntryV>) {
    if xs.len() > 0 {
        assert(decreases_to!(xs => xs[0]));
        assert(decreases_to!(xs[0] => xs[0].val));
        assert(xs.drop_first() =~= xs.subrange(1, xs.len() as int));
        assert(decreases_to!(xs => xs.drop_first()));
    }
}

/// All entries before `i` parse to the declarations of `acc`.
pub open spec fn spec_type_entry_prefix_ok(xs: Seq<EntryV>, i: int, acc: Seq<TypeEntryV>) -> bool {
    0 <= i <= xs.len() && acc.len() == i && forall|j: int|
        0 <= j < i ==> (xs[j].key matches NodeV::Str(name) && spec_parse_type(xs[j].val) == Ok::<
            TypeV,
            ErrorV,
        >(#[trigger] acc[j].ty) && acc[j].key == name)
}

proof fn lemma_type_entry_from(xs: Seq<EntryV>, i: int, acc: Seq<TypeEntryV>)
    requires
        spec_type_entry_prefix_ok(xs, i, acc),
    ensures
        spec_type_entry_items(xs) == match spec_type_entry_items(xs.skip(i)) {
            Ok(rest) => Ok::<Seq<TypeEntryV>, ErrorV>(acc + rest),
            Err(e) => Err::<Seq<TypeEntryV>, ErrorV>(e),
        },
    decreases i,
{
    if i == 0 {
        assert(xs.skip(0) =~= xs);
        match spec_type_entry_items(xs) {
            Ok(rest) => {
                assert(acc + rest =~= rest);
            },
            Err(_) => {},
        }
    } else {
        let prev = acc.take(i - 1);
        assert(prev.len() == i - 1);
        assert forall|j: int| 0 <= j < i - 1 implies (xs[j].key matches NodeV::Str(name)
            && spec_parse_type(xs[j].val) == Ok::<TypeV, ErrorV>(#[trigger] prev[j].ty)
            && prev[j].key == name) by {
            assert(prev[j] == acc[j]);
            assert(xs[j].key matches NodeV::Str(name) && spec_parse_type(xs[j].val) == Ok::<
                TypeV,
                ErrorV,
            >(acc[j].ty) && acc[j].key == name);
        }
        assert(spec_type_entry_prefix_ok(xs, i - 1, prev));
        lemma_type_entry_from(xs, i - 1, prev);
        assert(xs.skip(i - 1).drop_first() =~= xs.skip(i));
        assert(xs.skip(i - 1)[0] == xs[i - 1]);
        assert(xs[i - 1].key matches NodeV::Str(name) && spec_parse_type(xs[i - 1].val) == Ok::<
            TypeV,
            ErrorV,
        >(acc[i - 1].ty) && acc[i - 1].key == name);
        match spec_type_entry_items(xs.skip(i)) {
            Ok(rest) => {
                assert(seq![acc[i - 1]] =~= seq![
                    TypeEntryV { key: acc[i - 1].key, ty: acc[i - 1].ty },
                ]);
                assert(prev + (seq![acc[i - 1]] + rest) =~= acc + rest);
            },
            Err(_) => {},
        }
    }
}

pub fn type_entry_items(xs: &Vec<Entry>) -> (r: Result<Vec<TypeEntry>, Error>)
    ensures
        match r {
            Ok(v) => spec_type_entry_items(dict_pairs(xs@)) matches Ok(sv) && sv == Seq::new(
                v@.len(),
                |i: int| v@[i]@,
            ),
            Err(e) => spec_type_entry_items(dict_pairs(xs@)) matches Err(ev) && ev == e@,
        },
    decreases xs, 0int,
{
    let ghost iv = dict_pairs(xs@);
    let mut out: Vec<TypeEntry> = Vec::new();
    let mut i: usize = 0;
    #[verifier::loop_isolation(false)]
    while i < xs.len()
        invariant
            i <= xs@.len(),
            iv == dict_pairs(xs@),
            spec_type_entry_prefix_ok(iv, i as int, Seq::new(out@.len(), |j: int| out@[j]@)),
        decreases xs@.len() - i,
    {
        let ghost prev_acc = Seq::new(out@.len(), |j: int| out@[j]@);
        proof {
            assert(iv[i as int] == xs@[i as int]@);
        }
        let name = match &xs[i].key {
            Node::Str(s) => s.clone(),
            other => {
                proof {
                    lemma_type_entry_from(iv, i as int, prev_acc);
                    assert(iv.skip(i as int)[0] == iv[i as int]);
                }
                return Err(
                    Error::InvalidAttrType {
                        attr: "type name".to_owned(),
                        pat: "Yaml::String(s)".to_owned(),
                        actual: other.duplicate(),
                    },
                );
            },
        };
        proof {
            assert(decreases_to!(xs => xs@[i as int]));
            assert(decreases_to!(xs@[i as int] => xs@[i as int].val));
        }
        match parse_type(&xs[i].val) {
            Ok(t) => {
                out.push(TypeEntry { key: name, ty: t });
                proof {
                    let acc = Seq::new(out@.len(), |j: int| out@[j]@);
                    assert forall|j: int| 0 <= j < i + 1 implies (iv[j].key matches NodeV::Str(
                        nm,
                    ) && spec_parse_type(iv[j].val) == Ok::<TypeV, ErrorV>(#[trigger] acc[j].ty)
                        && acc[j].key == nm) by {
                        if j < i {
                            assert(acc[j] == prev_acc[j]);
                            assert(iv[j].key matches NodeV::Str(nm) && spec_parse_type(iv[j].val)
                                == Ok::<TypeV, ErrorV>(prev_acc[j].ty) && prev_acc[j].key == nm);
                        } else {
                            assert(acc[j] == out@[j]@);
                        }
                    }
                }
            },
            Err(e) => {
                proof {
                    lemma_type_entry_from(iv, i as int, prev_acc);
                    assert(iv.skip(i as int)[0] == iv[i as int]);
                }
                return Err(e);
            },
        }
        i = i + 1;
    }
    proof {
        let acc = Seq::new(out@.len(), |j: int| out@[j]@);
        lemma_type_entry_from(iv, iv.len() as int, acc);
        assert(iv.skip(iv.len() as int).len() == 0);
        assert(acc + Seq::<TypeEntryV>::empty() =~= acc);
        assert forall|j: int| 0 <= j < acc.len() implies #[trigger] spec_type_entry_items(
            iv,
        )->Ok_0[j] == acc[j] by {}
    }
    Ok(out)
}

/// Parses a whole type definition from a document node.
pub fn parse_type(n: &Node) -> (r: Result<Type, Error>)
    ensures
        match r {
            Ok(v) => spec_parse_type(n@) matches Ok(tv) && tv == v@,
            Err(e) => spec_parse_type(n@) matches Err(ev) && ev == e@,
        },
    decreases n, 1int,
{
    let pairs = match n {
        Node::Dict(pairs) => pairs,
        other => {
            return Err(
                Error::InvalidAttrType {
                    attr: "type".to_owned(),
                    pat: "Yaml::Hash(h)".to_owned(),
                    actual: other.duplicate(),
                },
            );
        },
    };
    proof {
        assert(n@ matches NodeV::Dict(s0) && s0 =~= dict_pairs(pairs@));
    }
    let meta = match get_dict(pairs, "meta") {
        Ok(Some(mp)) => match parse_meta(mp) {
            Ok(m) => Some(m),
            Err(e) => {
                return Err(e);
            },
        },
        Ok(None) => None,
        Err(e) => {
            return Err(e);
        },
    };
    let doc = match get_str(pairs, "doc") {
        Ok(v) => v,
        Err(e) => {
            return Err(e);
        },
    };
    let doc_ref = match string_or_seq(pairs, "doc-ref") {
        Ok(v) => v,
        Err(e) => {
            return Err(e);
        },
    };
    let params = match get_arr(pairs, "params") {
        Ok(Some(items)) => match param_items(items) {
            Ok(v) => v,
            Err(e) => {
                return Err(e);
            },
        },
        Ok(None) => Vec::new(),
        Err(e) => {
            return Err(e);
        },
    };
    let seq_attrs = match get_required_arr(pairs, "seq") {
        Ok(items) => match attr_items(items) {
            Ok(v) => v,
            Err(e) => {
                return Err(e);
            },
        },
        Err(e) => {
            return Err(e);
        },
    };
    let types = match dict_find(pairs, "types") {
        Some(j) => match &pairs[j].val {
            Node::Dict(tps) => {
                proof {
                    assert(pairs@[j as int].val@ matches NodeV::Dict(s0) && s0 =~= dict_pairs(
                        tps@,
                    ));
                    assert(decreases_to!(n => pairs));
                    assert(decreases_to!(pairs => pairs@[j as int]));
                    assert(decreases_to!(pairs@[j as int] => pairs@[j as int].val));
                    assert(pairs@[j as int].val == Node::Dict(*tps));
                    assert(decreases_to!(pairs@[j as int].val => *tps));
                }
                match type_entry_items(tps) {
                    Ok(v) => v,
                    Err(e) => {
                        return Err(e);
                    },
                }
            },
            other => {
                return Err(
                    Error::InvalidAttrType {
                        attr: "types".to_owned(),
                        pat: "Yaml::Hash(h)".to_owned(),
                        actual: other.duplicate(),
                    },
                );
            },
        },
        None => Vec::new(),
    };
    let instances = match get_dict(pairs, "instances") {
        Ok(Some(ps)) => match instance_items(ps) {
            Ok(v) => v,
            Err(e) => {
                return Err(e);
            },
        },
        Ok(None) => Vec::new(),
        Err(e) => {
            return Err(e);
        },
    };
    let enums = match get_dict(pairs, "enums") {
        Ok(Some(ps)) => match enum_decl_items(ps) {
            Ok(v) => v,
            Err(e) => {
                return Err(e);
            },
        },
        Ok(None) => Vec::new(),
        Err(e) => {
            return Err(e);
        },
    };
    let r = Type { meta, doc, doc_ref, params, seq: seq_attrs, types, instances, enums };
    proof {
        assert(spec_parse_type(n@) is Ok);
        let tv = spec_parse_type(n@)->Ok_0;
        assert(tv.meta == r@.meta);
        assert(tv.doc == r@.doc);
        assert(tv.doc_ref =~= r@.doc_ref);
        assert(tv.params =~= r@.params);
        assert(tv.seq =~= r@.seq);
        assert(tv.types =~= r@.types);
        assert(tv.instances =~= r@.instances);
        assert(tv.enums =~= r@.enums);
        assert(tv =~= r@);
    }
    Ok(r)
}

} // verus!
