//! The page record that the whole pipeline moves around: a source identity,
//! a title used only as display payload, and a plain-text body.

use vstd::prelude::*;
use crate::docid::parse_id_spec;
use crate::text::is_markup_delim;

verus! {

/// Spec-level image of a page record: the three fields as character
/// sequences.
#[verifier::ext_equal]
pub ghost struct DocView {
    pub page_id: Seq<char>,
    pub page_title: Seq<char>,
    pub page_body: Seq<char>,
}

/// A page record pulled from the document source: its source identity, a
/// human-readable title, and the body as plain text.
pub struct ConfluenceMeta {
    pub page_id: String,
    pub page_title: String,
    pub page_body: String,
}

impl View for ConfluenceMeta {
    type V = DocView;

    open spec fn view(&self) -> DocView {
        DocView {
            page_id: self.page_id@,
            page_title: self.page_title@,
            page_body: self.page_body@,
        }
    }
}

impl Clone for ConfluenceMeta {
    fn clone(&self) -> (r: Self)
        ensures
            r@ == self@,
    {
        ConfluenceMeta {
            page_id: self.page_id.clone(),
            page_title: self.page_title.clone(),
            page_body: self.page_body.clone(),
        }
    }
}

/// The point id that a record is stored under in the vector index: its
/// string id read as a decimal `u64`, when it is one.
pub open spec fn doc_num_id(d: DocView) -> Option<u64> {
    parse_id_spec(d.page_id)
}

/// A record fit for indexing: the id denotes a point id and the body holds
/// no markup delimiter.
pub open spec fn wf_doc(d: DocView) -> bool {
    &&& doc_num_id(d) is Some
    &&& forall|i: int| 0 <= i < d.page_body.len() ==> !is_markup_delim(#[trigger] d.page_body[i])
}

} // verus!
