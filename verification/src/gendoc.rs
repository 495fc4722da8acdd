use crate::schema::{strings_view, DocV, MetaDoc, MetaDocV};
use vstd::prelude::*;
use vstd::string::StringExecFns;

verus! {

/// A section header line of a generated documentation comment.
pub open spec fn spec_header(title: Seq<char>) -> Seq<char> {
    "### "@ + title + seq!['\n']
}

/// Renders a section header.
pub fn header(title: &str) -> (r: String)
    ensures
        r@ == spec_header(title@),
{
    let mut s = String::from_str("### ");
    s.append(title);
    s.push('\n');
    proof {
        assert(s@ =~= spec_header(title@));
    }
    s
}

/// The text of a bullet list, one line per item.
pub open spec fn spec_list(items: Seq<Seq<char>>) -> Seq<char>
    decreases items.len(),
{
    if items.len() == 0 {
        Seq::empty()
    } else {
        "- "@ + items[0] + seq!['\n'] + spec_list(items.drop_first())
    }
}

/// Renders a bullet list.
pub fn list(items: &Vec<String>) -> (r: String)
    ensures
        r@ == spec_list(strings_view(items@)),
{
    let ghost iv = strings_view(items@);
    let mut out = String::new();
    let mut i: usize = 0;
    proof {
        assert(iv.skip(0) =~= iv);
        assert(out@ + spec_list(iv) =~= spec_list(iv));
    }
    #[verifier::loop_isolation(false)]
    while i < items.len()
        invariant
            i <= items@.len(),
            iv == strings_view(items@),
            out@ + spec_list(iv.skip(i as int)) == spec_list(iv),
        decreases items@.len() - i,
    {
        proof {
            assert(iv.skip(i as int)[0] == iv[i as int]);
            assert(iv.skip(i as int).drop_first() =~= iv.skip(i + 1));
            assert(iv[i as int] == items@[i as int]@);
        }
        out.append("- ");
        out.append(items[i].as_str());
        out.push('\n');
        proof {
            assert(out@ + spec_list(iv.skip(i + 1)) =~= spec_list(iv));
        }
        i = i + 1;
    }
    proof {
        assert(iv.skip(iv.len() as int).len() == 0);
        assert(out@ =~= spec_list(iv));
    }
    out
}

/// The parts of a documentation comment, in order: a title line, the
/// description, the format license under its header, the references, and
/// the catalogued registry lists, each under its header and only where it
/// has entries.
pub open spec fn spec_doc_parts(doc: DocV, meta_doc: Option<MetaDocV>) -> Seq<Seq<char>> {
    let title_part: Seq<Seq<char>> = match meta_doc {
        Some(md) => if md.title.len() > 0 {
            seq!["A "@ + md.title + ", deserializer"@]
        } else {
            Seq::empty()
        },
        None => Seq::empty(),
    };
    let doc_part: Seq<Seq<char>> = match doc.doc {
        Some(d) => if d.len() > 0 {
            seq![d]
        } else {
            Seq::empty()
        },
        None => Seq::empty(),
    };
    let license_part: Seq<Seq<char>> = match meta_doc {
        Some(md) => seq![spec_header("Format License"@) + md.license],
        None => Seq::empty(),
    };
    let base = title_part + doc_part + license_part + spec_list_part("References"@, doc.doc_ref);
    match meta_doc {
        Some(md) => base + spec_list_part("Applications"@, md.application) + spec_list_part(
            "File Extensions"@,
            md.file_extension,
        ) + spec_list_part("Forensics Wiki Articles"@, md.xref.forensicswiki) + spec_list_part(
            "ISOs"@,
            md.xref.iso,
        ) + spec_list_part("Just Solve Articles"@, md.xref.justsolve) + spec_list_part(
            "US Library of Congress Digital Formats Identifiers"@,
            md.xref.loc,
        ) + spec_list_part("Mime Types"@, md.xref.mime) + spec_list_part(
            "UK National Archives PRONOM Identifiers"@,
            md.xref.pronom,
        ) + spec_list_part("RFCs"@, md.xref.rfc) + spec_list_part(
            "Wikidata Identifiers"@,
            md.xref.wikidata,
        ),
        None => base,
    }
}

/// One headed list part, present only where the list has entries.
pub open spec fn spec_list_part(title: Seq<char>, items: Seq<Seq<char>>) -> Seq<Seq<char>> {
    if items.len() > 0 {
        seq![spec_header(title) + spec_list(items)]
    } else {
        Seq::empty()
    }
}

/// The parts joined into one text, one part per line.
pub open spec fn spec_join_lines(parts: Seq<Seq<char>>) -> Seq<char>
    decreases parts.len(),
{
    if parts.len() == 0 {
        Seq::empty()
    } else if parts.len() == 1 {
        parts[0]
    } else {
        parts[0] + seq!['\n'] + spec_join_lines(parts.drop_first())
    }
}

fn push_list_part(parts: &mut Vec<String>, title: &str, items: &Vec<String>)
    ensures
        strings_view(final(parts)@) == strings_view(old(parts)@) + spec_list_part(
            title@,
            strings_view(items@),
        ),
{
    let ghost before = strings_view(parts@);
    if items.len() > 0 {
        let mut part = header(title);
        let body = list(items);
        part.append(body.as_str());
        parts.push(part);
        proof {
            assert(strings_view(parts@) =~= before + spec_list_part(
                title@,
                strings_view(items@),
            ));
        }
    } else {
        proof {
            assert(strings_view(parts@) =~= before + spec_list_part(
                title@,
                strings_view(items@),
            ));
        }
    }
}

/// Renders the whole documentation comment of a type from its own
/// documentation block and, for a top-level type, its metadata.
#[verifier::rlimit(60)]
pub fn doc_attr(doc: &crate::schema::Doc, meta_doc: Option<&MetaDoc>) -> (r: String)
    ensures
        r@ == spec_join_lines(
            spec_doc_parts(
                doc@,
                match meta_doc {
                    Some(md) => Some(md@),
                    None => None,
                },
            ),
        ),
{
    let ghost mdv: Option<MetaDocV> = match meta_doc {
        Some(md) => Some(md@),
        None => None,
    };
    let mut parts: Vec<String> = Vec::new();
    match meta_doc {
        Some(md) => {
            if md.title.as_str().unicode_len() > 0 {
                let mut t = String::from_str("A ");
                t.append(md.title.as_str());
                t.append(", deserializer");
                parts.push(t);
            }
        },
        None => {},
    }
    let ghost title_part = strings_view(parts@);
    proof {
        assert(title_part =~= spec_doc_parts_title(mdv));
    }
    match &doc.doc {
        Some(d) => {
            if d.as_str().unicode_len() > 0 {
                parts.push(d.clone());
            }
        },
        None => {},
    }
    let ghost with_doc = strings_view(parts@);
    proof {
        assert(with_doc =~= title_part + (match doc@.doc {
            Some(d) => if d.len() > 0 {
                seq![d]
            } else {
                Seq::<Seq<char>>::empty()
            },
            None => Seq::<Seq<char>>::empty(),
        }));
    }
    match meta_doc {
        Some(md) => {
            let mut lic = header("Format License");
            lic.append(md.license.as_str());
            parts.push(lic);
        },
        None => {},
    }
    let ghost with_lic = strings_view(parts@);
    proof {
        assert(with_lic =~= with_doc + (match mdv {
            Some(md) => seq![spec_header("Format License"@) + md.license],
            None => Seq::<Seq<char>>::empty(),
        }));
    }
    push_list_part(&mut parts, "References", &doc.doc_ref);
    proof {
        assert(strings_view(doc.doc_ref@) == doc@.doc_ref);
    }
    match meta_doc {
        Some(md) => {
            push_list_part(&mut parts, "Applications", &md.application);
            push_list_part(&mut parts, "File Extensions", &md.file_extension);
            push_list_part(&mut parts, "Forensics Wiki Articles", &md.xref.forensicswiki);
            push_list_part(&mut parts, "ISOs", &md.xref.iso);
            push_list_part(&mut parts, "Just Solve Articles", &md.xref.justsolve);
            push_list_part(
                &mut parts,
                "US Library of Congress Digital Formats Identifiers",
                &md.xref.loc,
            );
            push_list_part(&mut parts, "Mime Types", &md.xref.mime);
            push_list_part(&mut parts, "UK National Archives PRONOM Identifiers", &md.xref.pronom);
            push_list_part(&mut parts, "RFCs", &md.xref.rfc);
            push_list_part(&mut parts, "Wikidata Identifiers", &md.xref.wikidata);
        },
        None => {},
    }
    proof {
        assert(strings_view(parts@) == spec_doc_parts(doc@, mdv));
    }
    join_lines(&parts)
}

/// The title part alone.
pub open spec fn spec_doc_parts_title(meta_doc: Option<MetaDocV>) -> Seq<Seq<char>> {
    match meta_doc {
        Some(md) => if md.title.len() > 0 {
            seq!["A "@ + md.title + ", deserializer"@]
        } else {
            Seq::empty()
        },
        None => Seq::empty(),
    }
}

/// Joins parts into one text, one part per line.
fn join_lines(parts: &Vec<String>) -> (r: String)
    ensures
        r@ == spec_join_lines(strings_view(parts@)),
{
    let ghost pv = strings_view(parts@);
    let mut out = String::new();
    let mut i: usize = 0;
    proof {
        assert(pv.skip(0) =~= pv);
    }
    #[verifier::loop_isolation(false)]
    while i < parts.len()
        invariant
            i <= parts@.len(),
            pv == strings_view(parts@),
            (i == 0 && out@ =~= Seq::<char>::empty()) || (0 < i < pv.len() && out@ + seq!['\n']
                + spec_join_lines(pv.skip(i as int)) == spec_join_lines(pv)) || (i == pv.len() && i
                > 0 && out@ == spec_join_lines(pv)),
        decreases parts@.len() - i,
    {
        proof {
            assert(pv.skip(i as int)[0] == pv[i as int]);
            assert(pv.skip(i as int).drop_first() =~= pv.skip(i + 1));
            assert(pv[i as int] == parts@[i as int]@);
        }
        let ghost before = out@;
        if i > 0 {
            out.push('\n');
        }
        out.append(parts[i].as_str());
        proof {
            if i == 0 {
                if pv.len() == 1 {
                    assert(out@ =~= spec_join_lines(pv));
                } else {
                    assert(out@ + seq!['\n'] + spec_join_lines(pv.skip(1)) =~= spec_join_lines(
                        pv,
                    ));
                }
            } else {
                if i + 1 < pv.len() {
                    assert(spec_join_lines(pv.skip(i as int)) =~= pv[i as int] + seq!['\n']
                        + spec_join_lines(pv.skip(i + 1)));
                    assert(out@ =~= before + seq!['\n'] + pv[i as int]);
                    assert(out@ + seq!['\n'] + spec_join_lines(pv.skip(i + 1))
                        =~= spec_join_lines(pv));
                } else {
                    assert(pv.skip(i as int).len() == 1);
                    assert(spec_join_lines(pv.skip(i as int)) == pv[i as int]);
                    assert(out@ =~= spec_join_lines(pv));
                }
            }
        }
        i = i + 1;
    }
    proof {
        if pv.len() == 0 {
            assert(out@ =~= spec_join_lines(pv));
        }
    }
    out
}


/// The documentation sources of one generated item: the enclosing type's
/// documentation metadata, where there is one, and the item's own block.
#[derive(PartialEq, Eq, Debug)]
pub struct Doc {
    pub meta_doc: Option<MetaDoc>,
    pub doc: crate::schema::Doc,
}

impl Doc {
    /// An empty documentation pairing.
    pub fn new() -> (r: Doc)
        ensures
            r.meta_doc is None,
            r.doc.doc is None,
            r.doc.doc_ref@.len() == 0,
    {
        Doc { meta_doc: None, doc: crate::schema::Doc { doc: None, doc_ref: Vec::new() } }
    }

    /// Renders the documentation comment of this pairing.
    pub fn render(&self) -> (r: String)
        ensures
            r@ == spec_join_lines(
                spec_doc_parts(
                    self.doc@,
                    match self.meta_doc {
                        Some(md) => Some(md@),
                        None => None,
                    },
                ),
            ),
    {
        match &self.meta_doc {
            Some(md) => doc_attr(&self.doc, Some(md)),
            None => doc_attr(&self.doc, None),
        }
    }
}

} // verus!
