//! A compiler for declarative binary-format descriptions.
//!
//! A format description is a structured document naming, field by field, how
//! a binary record is laid out: scalar fields with a byte order, fixed
//! contents to check, nested records, enumerations, and repetition.  This
//! crate parses such a document into a schema model, resolves inherited
//! properties and attribute logic, and yields both the declarations a code
//! generator needs and a decoder that reads a byte stream against the
//! resolved description.

use vstd::prelude::*;

pub mod decode;
pub mod document;
pub mod emit;
pub mod error;
pub mod gendoc;
pub mod hir;
pub mod parse;
pub mod resolve;
pub mod schema;
pub mod stream;
pub mod util;

use vstd::string::StringExecFns;

verus! {

pub assume_specification[ std::string::String::push ](s: &mut std::string::String, c: char)
    ensures
        final(s)@ == old(s)@.push(c),
;

/// Compiles a format description source text into a resolved type for the
/// named target: the text is loaded into a document tree, parsed into the
/// schema model, and resolved; the given name overrides any declared
/// identifier.  A text that is no well-formed document is reported as an
/// invalid attribute holding the unreadable marker.
pub fn compile(source: &str, ident: &str) -> (r: Result<hir::Type, error::Error>)
    ensures
        match document::spec_parsed_doc(source@) {
            Some(n) => match r {
                Ok(v) => resolve::spec_gen_type(
                    n,
                    crate::hir::InheritedMetaV {
                        id: Some(ident@),
                        id_override: true,
                        endianness: None,
                    },
                ) matches Ok(tv) && tv == v@,
                Err(e) => resolve::spec_gen_type(
                    n,
                    crate::hir::InheritedMetaV {
                        id: Some(ident@),
                        id_override: true,
                        endianness: None,
                    },
                ) matches Err(ev) && ev == e@,
            },
            None => r matches Err(e) && e@ == error::ErrorV::InvalidAttribute(document::NodeV::Bad),
        },
{
    match document::parse_document(source) {
        Some(n) => {
            let inh = hir::InheritedMeta {
                id: Some(ident.to_owned()),
                id_override: true,
                endianness: None,
            };
            proof {
                assert(inh@ =~= (crate::hir::InheritedMetaV {
                    id: Some(ident@),
                    id_override: true,
                    endianness: None,
                }));
            }
            resolve::gen_type(&n, &inh)
        },
        None => Err(error::Error::InvalidAttribute(document::Node::Bad)),
    }
}

} // verus!
