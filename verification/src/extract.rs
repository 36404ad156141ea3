//! Turning a raw page-source payload into document records.
//!
//! The payload is one JSON document holding a `results` array of pages;
//! each page carries an id, a title, and its markup body under
//! `body.storage.value`. Extraction reads those pieces, cleans the markup
//! out of the body, and checks that the id can serve as a point id.
//!
//! A malformed page — a missing piece, or an id that is not numeric — is
//! handled by policy, applied uniformly: `Lenient` skips the page and goes
//! on (the default stance of the pipelines), `Strict` fails the whole
//! batch naming the first bad page and what it lacked.

use vstd::prelude::*;
use crate::doc::{ConfluenceMeta, DocView, wf_doc};
use crate::docid::parse_id_spec;
use crate::jsonio::{
    json_array_elem_of, json_array_len_of, json_doc_of, json_field_of, json_str_of,
};
use crate::text::{clean_text, clean_text_spec};

verus! {

/// How a malformed page is treated: skipped, or a batch-wide error.
#[derive(Clone, Copy, Debug, PartialEq, Eq, Structural)]
pub enum ExtractPolicy {
    Strict,
    Lenient,
}

/// What a malformed page lacked.
#[derive(Clone, Copy, Debug, PartialEq, Eq, Structural)]
pub enum PageFault {
    MissingPageId,
    MissingTitle,
    MissingBody,
    NonNumericId,
}

/// Why extraction failed.
#[derive(Debug)]
pub enum ExtractionError {
    /// The payload is not JSON at all.
    NotJson,
    /// The payload holds no `results` array.
    NoResults,
    /// Strict mode: the first malformed page, and what it lacked.
    Page { index: usize, fault: PageFault },
}

/// Spec-level image of a decoded page: each piece present or missing.
#[verifier::ext_equal]
pub ghost struct RawPageView {
    pub id: Option<Seq<char>>,
    pub title: Option<Seq<char>>,
    pub body: Option<Seq<char>>,
}

/// One page as decoded from the payload, before any checking: each piece
/// is present exactly when the payload held it as a string.
pub struct RawPage {
    pub id: Option<String>,
    pub title: Option<String>,
    pub body: Option<String>,
}

impl View for RawPage {
    type V = RawPageView;

    open spec fn view(&self) -> RawPageView {
        RawPageView {
            id: match self.id {
                Some(ref s) => Some(s@),
                None => None,
            },
            title: match self.title {
                Some(ref s) => Some(s@),
                None => None,
            },
            body: match self.body {
                Some(ref s) => Some(s@),
                None => None,
            },
        }
    }
}

/// What, if anything, makes this page malformed: the first missing piece
/// in id, title, body order, or a non-numeric id.
pub open spec fn page_fault(p: RawPageView) -> Option<PageFault> {
    if p.id is None {
        Some(PageFault::MissingPageId)
    } else if p.title is None {
        Some(PageFault::MissingTitle)
    } else if p.body is None {
        Some(PageFault::MissingBody)
    } else if parse_id_spec(p.id->0) is None {
        Some(PageFault::NonNumericId)
    } else {
        None
    }
}

/// The record a well-formed page extracts to: id and title as they stand,
/// the body cleaned of markup and whitespace-normalized.
pub open spec fn page_doc(p: RawPageView) -> DocView {
    DocView { page_id: p.id->0, page_title: p.title->0, page_body: clean_text_spec(p.body->0) }
}

/// The records of all well-formed pages, in payload order.
pub open spec fn extracted_docs(pages: Seq<RawPageView>) -> Seq<DocView>
    decreases pages.len(),
{
    if pages.len() == 0 {
        Seq::empty()
    } else {
        let rest = extracted_docs(pages.drop_last());
        if page_fault(pages.last()) is None {
            rest.push(page_doc(pages.last()))
        } else {
            rest
        }
    }
}

/// Some page is malformed.
pub open spec fn has_page_fault(pages: Seq<RawPageView>) -> bool {
    exists|i: int| 0 <= i < pages.len() && page_fault(#[trigger] pages[i]) is Some
}

/// Every extracted record is fit for indexing: its id denotes a point id
/// and its body holds no markup delimiter, whatever the payload held.
pub proof fn lemma_extracted_docs_wf(pages: Seq<RawPageView>)
    ensures
        forall|l: int|
            0 <= l < extracted_docs(pages).len() ==> wf_doc(#[trigger] extracted_docs(pages)[l]),
    decreases pages.len(),
{
    if pages.len() > 0 {
        lemma_extracted_docs_wf(pages.drop_last());
        let rest = extracted_docs(pages.drop_last());
        let cur = extracted_docs(pages);
        assert forall|l: int| 0 <= l < cur.len() implies wf_doc(cur[l]) by {
            if l < rest.len() {
                assert(cur[l] == rest[l]);
            } else {
                assert(page_fault(pages.last()) is None);
                crate::text::lemma_clean_text_no_markup(pages.last().body->0);
            }
        }
    }
}

/// The spec-level pages of a decoded vector.
pub open spec fn raw_views(pages: Seq<RawPage>) -> Seq<RawPageView> {
    pages.map_values(|p: RawPage| p@)
}

/// The page a decoded array element denotes: id and title as strings at
/// the top of the object, the markup body under `body.storage.value`,
/// each piece present exactly when the payload holds it as a string in
/// its place.
pub open spec fn decoded_page(p: serde_json::Value) -> RawPageView {
    RawPageView {
        id: match json_field_of(p, "id"@) {
            Some(f) => json_str_of(f),
            None => None,
        },
        title: match json_field_of(p, "title"@) {
            Some(f) => json_str_of(f),
            None => None,
        },
        body: match json_field_of(p, "body"@) {
            Some(b) => match json_field_of(b, "storage"@) {
                Some(st) => match json_field_of(st, "value"@) {
                    Some(f) => json_str_of(f),
                    None => None,
                },
                None => None,
            },
            None => None,
        },
    }
}

/// The pages of a parsed payload document: the elements of its `results`
/// array, decoded in order; nothing when the document holds no such
/// array.
pub open spec fn decoded_doc_pages(doc: serde_json::Value) -> Option<Seq<RawPageView>> {
    match json_field_of(doc, "results"@) {
        None => None,
        Some(results) => match json_array_len_of(results) {
            None => None,
            Some(n) => Some(
                Seq::new(
                    n as nat,
                    |i: int|
                        match json_array_elem_of(results, i) {
                            Some(p) => decoded_page(p),
                            None => RawPageView { id: None, title: None, body: None },
                        },
                ),
            ),
        },
    }
}

/// The pages a payload text decodes to: parse it as JSON, find the
/// `results` array, decode each element. Nothing when the text is not
/// JSON or the document holds no `results` array.
pub open spec fn decoded_pages_of(raw: Seq<char>) -> Option<Seq<RawPageView>> {
    match json_doc_of(raw) {
        None => None,
        Some(doc) => decoded_doc_pages(doc),
    }
}

/// Extraction of a page payload.
pub struct PageExtractor {
    pub policy: ExtractPolicy,
}

impl PageExtractor {
    /// An extractor applying this policy to every page.
    pub fn new(policy: ExtractPolicy) -> (r: PageExtractor)
        ensures
            r.policy == policy,
    {
        PageExtractor { policy }
    }

    /// The checked half of extraction, on already-decoded pages: keeps
    /// every well-formed page as a record, in order. Under `Lenient` a
    /// malformed page is skipped; under `Strict` the first malformed page
    /// fails the batch, named with what it lacked.
    #[verifier::loop_isolation(false)]
    pub fn extract_pages(&self, pages: &Vec<RawPage>) -> (r: Result<
        Vec<ConfluenceMeta>,
        ExtractionError,
    >)
        ensures
            match r {
                Ok(docs) => {
                    &&& docs@.map_values(|d: ConfluenceMeta| d@) == extracted_docs(
                        raw_views(pages@),
                    )
                    &&& (self.policy is Strict ==> !has_page_fault(raw_views(pages@)))
                    &&& forall|l: int| 0 <= l < docs@.len() ==> wf_doc((#[trigger] docs@[l])@)
                },
                Err(e) => {
                    &&& self.policy is Strict
                    &&& e matches ExtractionError::Page { index, fault } && 0 <= index
                        < pages@.len() && page_fault(raw_views(pages@)[index as int]) == Some(
                        fault,
                    ) && (forall|l: int|
                        0 <= l < index ==> page_fault(#[trigger] raw_views(pages@)[l]) is None)
                },
            },
    {
        let ghost pvs = raw_views(pages@);
        let strict = match self.policy {
            ExtractPolicy::Strict => true,
            ExtractPolicy::Lenient => false,
        };
        let mut docs: Vec<ConfluenceMeta> = Vec::new();
        let n = pages.len();
        let mut i: usize = 0;
        while i < n
            invariant
                i <= n,
                docs@.map_values(|d: ConfluenceMeta| d@) == extracted_docs(pvs.take(i as int)),
                strict ==> forall|l: int| 0 <= l < i ==> page_fault(#[trigger] pvs[l]) is None,
            decreases n - i,
        {
            proof {
                assert(pvs.take(i + 1).drop_last() =~= pvs.take(i as int));
                assert(pvs.take(i + 1).last() == pvs[i as int]);
                assert(pvs[i as int] == pages@[i as int]@);
            }
            let ghost old_docs = docs@.map_values(|d: ConfluenceMeta| d@);
            let page = &pages[i];
            let mut fault: Option<PageFault> = None;
            match &page.id {
                None => {
                    fault = Some(PageFault::MissingPageId);
                },
                Some(id) => {
                    if page.title.is_none() {
                        fault = Some(PageFault::MissingTitle);
                    } else if page.body.is_none() {
                        fault = Some(PageFault::MissingBody);
                    } else if crate::docid::parse_doc_id(id.as_str()).is_none() {
                        fault = Some(PageFault::NonNumericId);
                    }
                },
            }
            proof {
                assert(fault == page_fault(pvs[i as int]));
            }
            match fault {
                Some(f) => {
                    if strict {
                        return Err(ExtractionError::Page { index: i, fault: f });
                    }
                },
                None => {
                    let id = match &page.id {
                        Some(s) => s.clone(),
                        None => {
                            vstd::pervasive::unreached()
                        },
                    };
                    let title = match &page.title {
                        Some(s) => s.clone(),
                        None => {
                            vstd::pervasive::unreached()
                        },
                    };
                    let body_raw = match &page.body {
                        Some(s) => s.clone(),
                        None => {
                            vstd::pervasive::unreached()
                        },
                    };
                    let body = clean_text(body_raw.as_str());
                    let doc = ConfluenceMeta { page_id: id, page_title: title, page_body: body };
                    proof {
                        assert(doc@ == page_doc(pvs[i as int]));
                    }
                    docs.push(doc);
                    proof {
                        assert(docs@.map_values(|d: ConfluenceMeta| d@) =~= old_docs.push(
                            page_doc(pvs[i as int]),
                        ));
                    }
                },
            }
            i = i + 1;
        }
        proof {
            assert(pvs.take(n as int) =~= pvs);
            lemma_extracted_docs_wf(pvs);
            assert forall|l: int| 0 <= l < docs@.len() implies wf_doc((#[trigger] docs@[l])@) by {
                assert(docs@.map_values(|d: ConfluenceMeta| d@)[l] == docs@[l]@);
                assert(wf_doc(extracted_docs(pvs)[l]));
            }
        }
        Ok(docs)
    }

    /// Decodes the payload's `results` array into raw pages: each piece
    /// present exactly as far as the payload holds it as a string. The
    /// result is exactly the decoded pages the document denotes; the only
    /// failure is a document without a `results` array.
    #[verifier::loop_isolation(false)]
    fn collect_raw_pages(doc: &serde_json::Value) -> (r: Result<Vec<RawPage>, ExtractionError>)
        ensures
            match r {
                Ok(pages) => decoded_doc_pages(*doc) == Some(raw_views(pages@)),
                Err(e) => e is NoResults && decoded_doc_pages(*doc) is None,
            },
    {
        let results = match crate::jsonio::json_get(doc, "results") {
            Some(x) => x,
            None => {
                return Err(ExtractionError::NoResults);
            },
        };
        let n = match crate::jsonio::json_array_len(results) {
            Some(n) => n,
            None => {
                return Err(ExtractionError::NoResults);
            },
        };
        let ghost target = decoded_doc_pages(*doc)->0;
        proof {
            assert(decoded_doc_pages(*doc) == Some(target));
            assert(target.len() == n);
        }
        let mut pages: Vec<RawPage> = Vec::new();
        let mut i: usize = 0;
        while i < n
            invariant
                i <= n,
                pages@.len() == i,
                forall|l: int| 0 <= l < i ==> (#[trigger] pages@[l])@ == target[l],
            decreases n - i,
        {
            let page = match crate::jsonio::json_array_get(results, i) {
                Some(p) => p,
                None => {
                    vstd::pervasive::unreached()
                },
            };
            let id = match crate::jsonio::json_get(page, "id") {
                Some(x) => crate::jsonio::json_as_str(x),
                None => None,
            };
            let title = match crate::jsonio::json_get(page, "title") {
                Some(x) => crate::jsonio::json_as_str(x),
                None => None,
            };
            let body = match crate::jsonio::json_get(page, "body") {
                Some(b) => match crate::jsonio::json_get(b, "storage") {
                    Some(s) => match crate::jsonio::json_get(s, "value") {
                        Some(x) => crate::jsonio::json_as_str(x),
                        None => None,
                    },
                    None => None,
                },
                None => None,
            };
            let rp = RawPage { id, title, body };
            proof {
                assert(rp@ == decoded_page(*page));
                assert(target[i as int] == decoded_page(*page));
            }
            pages.push(rp);
            i = i + 1;
        }
        proof {
            assert(raw_views(pages@) =~= target);
        }
        Ok(pages)
    }

    /// Extraction end to end: parses the payload, decodes its pages, and
    /// checks them under the policy. It succeeds exactly when the payload
    /// parses, holds a `results` array, and — under `Strict` — every
    /// decoded page is well formed; the records are then exactly the
    /// extraction of the decoded pages, each fit for indexing. Each error
    /// names the first of those steps that failed.
    pub fn extract(&self, raw: &str) -> (r: Result<Vec<ConfluenceMeta>, ExtractionError>)
        ensures
            match r {
                Ok(docs) => {
                    &&& decoded_pages_of(raw@) matches Some(pages) && docs@.map_values(
                        |d: ConfluenceMeta| d@,
                    ) == extracted_docs(pages) && (self.policy is Strict ==> !has_page_fault(
                        pages,
                    ))
                    &&& forall|l: int| 0 <= l < docs@.len() ==> wf_doc((#[trigger] docs@[l])@)
                },
                Err(e) => match e {
                    ExtractionError::NotJson => json_doc_of(raw@) is None,
                    ExtractionError::NoResults => json_doc_of(raw@) matches Some(d)
                        && decoded_doc_pages(d) is None,
                    ExtractionError::Page { index, fault } => {
                        &&& self.policy is Strict
                        &&& decoded_pages_of(raw@) matches Some(pages) && 0 <= index
                            < pages.len() && page_fault(pages[index as int]) == Some(fault) && (
                        forall|l: int|
                            0 <= l < index ==> page_fault(#[trigger] pages[l]) is None)
                    },
                },
            },
    {
        let value = match crate::jsonio::parse_json(raw) {
            Ok(v) => v,
            Err(_) => {
                return Err(ExtractionError::NotJson);
            },
        };
        let pages = match Self::collect_raw_pages(&value) {
            Ok(p) => p,
            Err(e) => {
                return Err(e);
            },
        };
        proof {
            assert(decoded_pages_of(raw@) == Some(raw_views(pages@)));
        }
        self.extract_pages(&pages)
    }
}

} // verus!
