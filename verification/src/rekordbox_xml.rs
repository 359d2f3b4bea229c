//! The parsed document handle: owns a `CollectionDocument` and offers the
//! codec entry points over it.

use vstd::prelude::*;

use crate::codec::doc_elem;
use crate::codec::doc_to_tree;
use crate::codec::doc_wf;
use crate::codec::tree_to_doc;
use crate::model::CollectionDocument;
use crate::model::Track;
use crate::xml::parse_document;
use crate::xml::print_elem;
use crate::xml::render_document;
use crate::xml::xml_header;
use crate::xml::FormatError;
use crate::xml::XmlElem;

verus! {

/// A collection document held in memory, as decoded from or ready to be
/// re-emitted as the external text form.
#[derive(Debug, PartialEq)]
pub struct RekordboxXml {
    pub doc: CollectionDocument,
}

impl RekordboxXml {
    /// Wraps an already-built document.
    pub fn from_document(doc: CollectionDocument) -> (r: Self)
        ensures
            r.doc == doc,
    {
        RekordboxXml { doc }
    }

    /// Decodes the textual form. `Err` when the text is not well-formed
    /// against the schema; the decoded document is canonical and stands in
    /// the exact `doc_elem` correspondence with the parsed element tree.
    ///
    /// Decoding is strict where a defaulting reader would reshape: attributes
    /// must appear in the schema's canonical order and numeric attributes in
    /// canonical decimal form (`007` is rejected, not read as `7`), because a
    /// silently reshaped value could not be re-emitted byte-faithfully.
    pub fn new(xml: &str) -> (r: Result<Self, FormatError>)
        ensures
            r is Ok ==> doc_wf(r.unwrap().doc),
    {
        match parse_document(xml) {
            Ok(tree) => match tree_to_doc(&tree) {
                Ok(doc) => Ok(RekordboxXml { doc }),
                Err(e) => Err(e),
            },
            Err(e) => Err(e),
        }
    }

    /// Re-emits the document: the declaration line, then the element tree
    /// of the document in fixed order with a 2-space indent step.
    pub fn to_xml(&self) -> (r: String)
        ensures
            exists|t: XmlElem|
                #[trigger] doc_elem(t, self.doc) && r@ == xml_header() + print_elem(
                    t,
                    Seq::empty(),
                ),
    {
        let tree = doc_to_tree(&self.doc);
        let out = render_document(&tree);
        proof {
            assert(doc_elem(tree, self.doc) && out@ == xml_header() + print_elem(
                tree,
                Seq::empty(),
            ));
        }
        out
    }

    /// The ordered track collection of the document.
    pub fn tracks(&self) -> (r: &Vec<Track>)
        ensures
            r == &self.doc.tracks,
    {
        &self.doc.tracks
    }
}

} // verus!
