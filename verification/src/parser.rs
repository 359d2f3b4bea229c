//! A second handle over the same codec, kept beside `RekordboxXml` for
//! callers that re-emit the element tree without the declaration line.

use vstd::prelude::*;

use crate::codec::doc_elem;
use crate::codec::doc_to_tree;
use crate::codec::doc_wf;
use crate::codec::tree_to_doc;
use crate::model::CollectionDocument;
use crate::xml::chars_to_string;
use crate::xml::parse_document;
use crate::xml::print_elem;
use crate::xml::write_elem;
use crate::xml::FormatError;
use crate::xml::XmlElem;

verus! {

/// A collection document held in memory; `to_xml` renders the bare element
/// tree, without the declaration line.
#[derive(Debug, PartialEq)]
pub struct Parser {
    pub doc: CollectionDocument,
}

impl Parser {
    /// Decodes the textual form; `Err` when the text is not well-formed
    /// against the schema. Decoding is strict: attributes must appear in the
    /// schema's canonical order and numeric attributes in canonical decimal
    /// form, so that every accepted value can be re-emitted byte-faithfully.
    pub fn new(xml: &str) -> (r: Result<Self, FormatError>)
        ensures
            r is Ok ==> doc_wf(r.unwrap().doc),
    {
        match parse_document(xml) {
            Ok(tree) => match tree_to_doc(&tree) {
                Ok(doc) => Ok(Parser { doc }),
                Err(e) => Err(e),
            },
            Err(e) => Err(e),
        }
    }

    /// Renders the element tree of the document, in fixed order with a
    /// 2-space indent step and no declaration line.
    pub fn to_xml(&self) -> (r: String)
        ensures
            exists|t: XmlElem|
                #[trigger] doc_elem(t, self.doc) && r@ == print_elem(t, Seq::empty()),
    {
        let tree = doc_to_tree(&self.doc);
        let mut pad: Vec<char> = Vec::new();
        let mut out: Vec<char> = Vec::new();
        write_elem(&tree, &mut pad, &mut out);
        let r = chars_to_string(&out);
        proof {
            assert(out@ =~= print_elem(tree, Seq::empty()));
            assert(doc_elem(tree, self.doc) && r@ == print_elem(tree, Seq::empty()));
        }
        r
    }
}

} // verus!
