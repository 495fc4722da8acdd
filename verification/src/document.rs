use vstd::prelude::*;
use vstd::string::StringExecFns;

verus! {

/// A structured document: the scalar / sequence / mapping tree that a format
/// description is written in.  It mirrors the shape of a loaded YAML value
/// with plain owned data, so that every rule about the document can be
/// stated and checked over it.
#[derive(PartialEq, Eq, Debug)]
pub enum Node {
    /// A floating-point scalar, kept as its source text.
    Real(String),
    /// An integer scalar.
    Int(i64),
    /// A string scalar.
    Str(String),
    /// A boolean scalar.
    Bool(bool),
    /// A sequence of nodes.
    Arr(Vec<Node>),
    /// A mapping, as key/value pairs in document order.
    Dict(Vec<Entry>),
    /// A reference to an anchored node.
    Alias(usize),
    /// An explicit null.
    Null,
    /// A node the loader could not give a value.
    Bad,
}

/// One key/value pair of a mapping node.
#[derive(PartialEq, Eq, Debug)]
pub struct Entry {
    pub key: Node,
    pub val: Node,
}

/// The mathematical shape of a document node: the same tree over sequences.
#[verifier::ext_equal]
pub enum NodeV {
    Real(Seq<char>),
    Int(i64),
    Str(Seq<char>),
    Bool(bool),
    Arr(Seq<NodeV>),
    Dict(Seq<EntryV>),
    Alias(usize),
    Null,
    Bad,
}

/// The mathematical shape of one mapping pair.
#[verifier::ext_equal]
pub struct EntryV {
    pub key: NodeV,
    pub val: NodeV,
}

pub open spec fn node_view(n: Node) -> NodeV
    decreases n,
{
    match n {
        Node::Real(s) => NodeV::Real(s@),
        Node::Int(i) => NodeV::Int(i),
        Node::Str(s) => NodeV::Str(s@),
        Node::Bool(b) => NodeV::Bool(b),
        Node::Arr(items) => NodeV::Arr(
            Seq::new(
                items@.len(),
                |i: int|
                    if 0 <= i < items@.len() {
                        node_view(items@[i])
                    } else {
                        NodeV::Bad
                    },
            ),
        ),
        Node::Dict(pairs) => NodeV::Dict(
            Seq::new(
                pairs@.len(),
                |i: int|
                    if 0 <= i < pairs@.len() {
                        entry_view(pairs@[i])
                    } else {
                        EntryV { key: NodeV::Bad, val: NodeV::Bad }
                    },
            ),
        ),
        Node::Alias(a) => NodeV::Alias(a),
        Node::Null => NodeV::Null,
        Node::Bad => NodeV::Bad,
    }
}

pub open spec fn entry_view(e: Entry) -> EntryV
    decreases e,
{
    EntryV { key: node_view(e.key), val: node_view(e.val) }
}

impl View for Node {
    type V = NodeV;

    open spec fn view(&self) -> NodeV {
        node_view(*self)
    }
}

impl View for Entry {
    type V = EntryV;

    open spec fn view(&self) -> EntryV {
        entry_view(*self)
    }
}

impl Node {
    /// A structural copy of the node.
    pub fn duplicate(&self) -> (r: Node)
        ensures
            r@ == self@,
        decreases self,
    {
        match self {
            Node::Real(s) => Node::Real(s.clone()),
            Node::Int(i) => Node::Int(*i),
            Node::Str(s) => Node::Str(s.clone()),
            Node::Bool(b) => Node::Bool(*b),
            Node::Arr(items) => {
                let mut out: Vec<Node> = Vec::new();
                let mut i: usize = 0;
                #[verifier::loop_isolation(false)]
                while i < items.len()
                    invariant
                        i <= items.len(),
                        out@.len() == i,
                        forall|j: int| 0 <= j < i ==> #[trigger] node_view(out@[j]) == node_view(
                            items@[j],
                        ),
                    decreases items.len() - i,
                {
                    out.push(items[i].duplicate());
                    i = i + 1;
                }
                let r = Node::Arr(out);
                proof {
                    assert(*self == Node::Arr(*items));
                    let rv = node_view(r);
                    let sv = node_view(*self);
                    let a = rv->Arr_0;
                    let b = sv->Arr_0;
                    assert(a.len() == out@.len());
                    assert(b.len() == items@.len());
                    assert forall|j: int| 0 <= j < a.len() implies a[j] == b[j] by {
                        assert(a[j] == node_view(out@[j]));
                        assert(b[j] == node_view(items@[j]));
                    }
                    assert(a =~= b);
                    assert(rv =~= sv);
                }
                r
            },
            Node::Dict(pairs) => {
                let mut out: Vec<Entry> = Vec::new();
                let mut i: usize = 0;
                #[verifier::loop_isolation(false)]
                while i < pairs.len()
                    invariant
                        i <= pairs.len(),
                        out@.len() == i,
                        forall|j: int| 0 <= j < i ==> #[trigger] entry_view(out@[j]) == entry_view(
                            pairs@[j],
                        ),
                    decreases pairs.len() - i,
                {
                    out.push(
                        Entry { key: pairs[i].key.duplicate(), val: pairs[i].val.duplicate() },
                    );
                    i = i + 1;
                }
                let r = Node::Dict(out);
                proof {
                    assert(*self == Node::Dict(*pairs));
                    let rv = node_view(r);
                    let sv = node_view(*self);
                    let a = rv->Dict_0;
                    let b = sv->Dict_0;
                    assert(a.len() == out@.len());
                    assert(b.len() == pairs@.len());
                    assert forall|j: int| 0 <= j < a.len() implies a[j] == b[j] by {
                        assert(a[j] == entry_view(out@[j]));
                        assert(b[j] == entry_view(pairs@[j]));
                    }
                    assert(a =~= b);
                    assert(rv =~= sv);
                }
                r
            },
            Node::Alias(a) => Node::Alias(*a),
            Node::Null => Node::Null,
            Node::Bad => Node::Bad,
        }
    }
}

/// The value stored under a string key of a mapping, at its first
/// occurrence in document order.
pub open spec fn spec_dict_get(pairs: Seq<EntryV>, key: Seq<char>) -> Option<NodeV>
    decreases pairs.len(),
{
    if pairs.len() == 0 {
        None
    } else {
        match pairs[0].key {
            NodeV::Str(s) => if s == key {
                Some(pairs[0].val)
            } else {
                spec_dict_get(pairs.drop_first(), key)
            },
            _ => spec_dict_get(pairs.drop_first(), key),
        }
    }
}

/// The pairs of a mapping, viewed mathematically.
pub open spec fn dict_pairs(pairs: Seq<Entry>) -> Seq<EntryV> {
    Seq::new(pairs.len(), |i: int| entry_view(pairs[i]))
}

/// Looks a string key up in a mapping's pairs.
pub fn dict_get<'a>(pairs: &'a Vec<Entry>, key: &str) -> (r: Option<&'a Node>)
    ensures
        match r {
            Some(n) => spec_dict_get(dict_pairs(pairs@), key@) == Some(n@),
            None => spec_dict_get(dict_pairs(pairs@), key@) is None,
        },
{
    let ghost pv = dict_pairs(pairs@);
    let key_string = String::from_str(key);
    let mut i: usize = 0;
    proof {
        assert(pv.skip(0) =~= pv);
    }
    while i < pairs.len()
        invariant
            i <= pairs.len(),
            pv == dict_pairs(pairs@),
            key_string@ == key@,
            spec_dict_get(pv, key@) == spec_dict_get(pv.skip(i as int), key@),
        decreases pairs.len() - i,
    {
        proof {
            assert(pv.skip(i as int)[0] == pv[i as int]);
            assert(pv.skip(i as int).drop_first() =~= pv.skip(i + 1));
        }
        match &pairs[i].key {
            Node::Str(s) => {
                if *s == key_string {
                    return Some(&pairs[i].val);
                }
            },
            _ => {},
        }
        i = i + 1;
    }
    proof {
        assert(pv.skip(pv.len() as int).len() == 0);
    }
    None
}

/// The loaded form of a schema source text: `None` where the text is not a
/// well-formed document, otherwise the view of the first document in it.
/// Loading is a pure function of the text, so the result has a name that
/// contracts can share.
pub uninterp spec fn spec_parsed_doc(source: Seq<char>) -> Option<NodeV>;

#[verifier::external_type_specification]
#[verifier::external_body]
pub struct ExYaml(yaml_rust::Yaml);

/// Relies on yaml_rust::YamlLoader::load_from_str: the parse of a text
/// depends on the text alone, and yields the documents of the stream in
/// order; the first one is kept here.
#[verifier::external_body]
fn load_document(source: &str) -> (r: Option<Node>)
    ensures
        match r {
            Some(n) => spec_parsed_doc(source@) == Some(n@),
            None => spec_parsed_doc(source@) is None,
        },
{
    match yaml_rust::YamlLoader::load_from_str(source) {
        Ok(docs) => docs.into_iter().next().map(|y| yaml_to_node(&y)),
        Err(_) => None,
    }
}

/// Relies on the shape of yaml_rust::Yaml: a loaded value is one of nine
/// variants, and each is moved field for field into the document tree.
#[verifier::external_body]
fn yaml_to_node(y: &yaml_rust::Yaml) -> Node {
    match y {
        yaml_rust::Yaml::Real(s) => Node::Real(s.clone()),
        yaml_rust::Yaml::Integer(i) => Node::Int(*i),
        yaml_rust::Yaml::String(s) => Node::Str(s.clone()),
        yaml_rust::Yaml::Boolean(b) => Node::Bool(*b),
        yaml_rust::Yaml::Array(a) => Node::Arr(a.iter().map(yaml_to_node).collect()),
        yaml_rust::Yaml::Hash(h) => Node::Dict(
            h.iter().map(|(k, v)| Entry { key: yaml_to_node(k), val: yaml_to_node(v) }).collect(),
        ),
        yaml_rust::Yaml::Alias(a) => Node::Alias(*a),
        yaml_rust::Yaml::Null => Node::Null,
        yaml_rust::Yaml::BadValue => Node::Bad,
    }
}

/// Loads a schema source text into a document tree.
pub fn parse_document(source: &str) -> (r: Option<Node>)
    ensures
        match r {
            Some(n) => spec_parsed_doc(source@) == Some(n@),
            None => spec_parsed_doc(source@) is None,
        },
{
    load_document(source)
}


/// A value found under a key lies inside the mapping's pairs.
pub proof fn lemma_dict_get_smaller(pairs: Seq<EntryV>, key: Seq<char>)
    ensures
        spec_dict_get(pairs, key) matches Some(v) ==> decreases_to!(pairs => v),
    decreases pairs.len(),
{
    if pairs.len() > 0 {
        lemma_dict_get_smaller(pairs.drop_first(), key);
        let head_match = match pairs[0].key {
            NodeV::Str(s) => s == key,
            _ => false,
        };
        if head_match {
            assert(decreases_to!(pairs => pairs[0]));
            assert(decreases_to!(pairs[0] => pairs[0].val));
        } else {
            assert(pairs.drop_first() =~= pairs.subrange(1, pairs.len() as int));
            assert(decreases_to!(pairs => pairs.drop_first()));
        }
    }
}

/// Finds the index of the first pair whose key is the given string.
pub fn dict_find(pairs: &Vec<Entry>, key: &str) -> (r: Option<usize>)
    ensures
        match r {
            Some(j) => j < pairs@.len() && spec_dict_get(dict_pairs(pairs@), key@) == Some(
                pairs@[j as int].val@,
            ) && (pairs@[j as int].key matches Node::Str(s) && s@ == key@),
            None => spec_dict_get(dict_pairs(pairs@), key@) is None,
        },
{
    let ghost pv = dict_pairs(pairs@);
    let key_string = String::from_str(key);
    let mut i: usize = 0;
    proof {
        assert(pv.skip(0) =~= pv);
    }
    #[verifier::loop_isolation(false)]
    while i < pairs.len()
        invariant
            i <= pairs.len(),
            pv == dict_pairs(pairs@),
            key_string@ == key@,
            spec_dict_get(pv, key@) == spec_dict_get(pv.skip(i as int), key@),
        decreases pairs.len() - i,
    {
        proof {
            assert(pv.skip(i as int)[0] == pv[i as int]);
            assert(pv.skip(i as int).drop_first() =~= pv.skip(i + 1));
        }
        match &pairs[i].key {
            Node::Str(s) => {
                if *s == key_string {
                    return Some(i);
                }
            },
            _ => {},
        }
        i = i + 1;
    }
    proof {
        assert(pv.skip(pv.len() as int).len() == 0);
    }
    None
}

} // verus!
