//! The two orchestrations over store, embedder and index.
//!
//! Indexing: every document of the store is embedded (the remote call is
//! made by the caller, one result per document, in store order) and the
//! accepted ones are upserted as one batch. A document with a non-numeric
//! id or a failed or mis-sized embedding is skipped and recorded in the
//! report; it never aborts the run. A failed batch upsert marks the whole
//! batch failed.
//!
//! Retrieval: the query embedding is searched for the top-k point ids and
//! each id is resolved against the store. An id the store does not know is
//! dropped silently — store and index drift apart between re-indexing
//! runs, and that staleness is a modeled state, not an error. Ranking
//! order is kept.

use vstd::prelude::*;
use crate::doc::{ConfluenceMeta, DocView, doc_num_id};
use crate::embed::{Embedding, EmbeddingError};
use crate::index::{
    IndexError, IndexedPoint, PointView, SearchHit, VectorIndex, dims_ok, search_post, upsert_seq,
};
use crate::store::{DocumentStore, first_num_index, has_num_id};

verus! {

/// The kind of fault a report entry records; the exec report carries the
/// full causes, contracts pin the kind.
#[derive(Clone, Copy, PartialEq, Eq, Structural)]
pub enum FaultKind {
    NonNumericId,
    EmptyInput,
    DimensionMismatch,
    Transient,
    Upsert,
}

/// Why one document was not indexed.
#[derive(Debug)]
pub enum IndexingFault {
    /// Its id is not the decimal notation of a point id.
    NonNumericId,
    /// Embedding its body failed, or returned the wrong dimension.
    Embedding(EmbeddingError),
    /// The batch it belonged to never reached the index.
    Upsert(IndexError),
}

/// The kind an embedding error is recorded under.
pub open spec fn embed_fault_kind(e: EmbeddingError) -> FaultKind {
    match e {
        EmbeddingError::EmptyInput => FaultKind::EmptyInput,
        EmbeddingError::DimensionMismatch => FaultKind::DimensionMismatch,
        EmbeddingError::Transient(_) => FaultKind::Transient,
    }
}

/// The kind a fault is recorded under.
pub open spec fn fault_kind(f: IndexingFault) -> FaultKind {
    match f {
        IndexingFault::NonNumericId => FaultKind::NonNumericId,
        IndexingFault::Embedding(e) => embed_fault_kind(e),
        IndexingFault::Upsert(_) => FaultKind::Upsert,
    }
}

/// One document the indexing run could not index, with its cause.
pub struct FailedDoc {
    pub page_id: String,
    pub fault: IndexingFault,
}

impl View for FailedDoc {
    type V = (Seq<char>, FaultKind);

    open spec fn view(&self) -> (Seq<char>, FaultKind) {
        (self.page_id@, fault_kind(self.fault))
    }
}

/// What an indexing run reports back: how many documents were indexed and
/// which were not, each with its cause. Partial failure is a success
/// carrying this list, not an abort.
pub struct IndexingReport {
    pub succeeded: usize,
    pub failed: Vec<FailedDoc>,
}

/// Whether and why a document is skipped, given its embedding outcome and
/// the collection dimension: a non-numeric id first, then a failed
/// embedding, then a mis-sized one.
pub open spec fn doc_fault(
    d: DocView,
    e: Result<Embedding, EmbeddingError>,
    dim: int,
) -> Option<FaultKind> {
    if doc_num_id(d) is None {
        Some(FaultKind::NonNumericId)
    } else {
        match e {
            Err(er) => Some(embed_fault_kind(er)),
            Ok(emb) => if emb@.len() != dim {
                Some(FaultKind::DimensionMismatch)
            } else {
                None
            },
        }
    }
}

/// The point a document is indexed as.
pub open spec fn point_of(d: DocView, emb: Embedding) -> PointView {
    PointView { id: doc_num_id(d)->0, vector: emb@, title: d.page_title }
}

/// The batch an indexing run upserts: one point per accepted document, in
/// store order.
pub open spec fn prepared_points(
    docs: Seq<DocView>,
    embeds: Seq<Result<Embedding, EmbeddingError>>,
    dim: int,
) -> Seq<PointView>
    decreases docs.len(),
{
    if docs.len() == 0 || embeds.len() == 0 {
        Seq::empty()
    } else {
        let rest = prepared_points(docs.drop_last(), embeds.drop_last(), dim);
        if doc_fault(docs.last(), embeds.last(), dim) is None {
            rest.push(point_of(docs.last(), match embeds.last() {
                Ok(emb) => emb,
                Err(_) => embeds.last()->Ok_0,
            }))
        } else {
            rest
        }
    }
}

/// The report entries an indexing run records before the upsert: one per
/// skipped document, in store order.
pub open spec fn prepared_fails(
    docs: Seq<DocView>,
    embeds: Seq<Result<Embedding, EmbeddingError>>,
    dim: int,
) -> Seq<(Seq<char>, FaultKind)>
    decreases docs.len(),
{
    if docs.len() == 0 || embeds.len() == 0 {
        Seq::empty()
    } else {
        let rest = prepared_fails(docs.drop_last(), embeds.drop_last(), dim);
        match doc_fault(docs.last(), embeds.last(), dim) {
            Some(kind) => rest.push((docs.last().page_id, kind)),
            None => rest,
        }
    }
}

/// The ids of the accepted documents, in store order: what the report
/// marks failed should the whole batch upsert fail.
pub open spec fn prepared_ok_ids(
    docs: Seq<DocView>,
    embeds: Seq<Result<Embedding, EmbeddingError>>,
    dim: int,
) -> Seq<Seq<char>>
    decreases docs.len(),
{
    if docs.len() == 0 || embeds.len() == 0 {
        Seq::empty()
    } else {
        let rest = prepared_ok_ids(docs.drop_last(), embeds.drop_last(), dim);
        if doc_fault(docs.last(), embeds.last(), dim) is None {
            rest.push(docs.last().page_id)
        } else {
            rest
        }
    }
}

/// Every document is accounted for, once: a point or a report entry. And
/// every prepared point already has the collection's dimension.
pub proof fn lemma_prepared_props(
    docs: Seq<DocView>,
    embeds: Seq<Result<Embedding, EmbeddingError>>,
    dim: int,
)
    requires
        docs.len() == embeds.len(),
    ensures
        prepared_points(docs, embeds, dim).len() + prepared_fails(docs, embeds, dim).len()
            == docs.len(),
        prepared_ok_ids(docs, embeds, dim).len() == prepared_points(docs, embeds, dim).len(),
        dims_ok(prepared_points(docs, embeds, dim), dim),
    decreases docs.len(),
{
    if docs.len() > 0 {
        lemma_prepared_props(docs.drop_last(), embeds.drop_last(), dim);
        let pts = prepared_points(docs, embeds, dim);
        let rest = prepared_points(docs.drop_last(), embeds.drop_last(), dim);
        assert forall|i: int| 0 <= i < pts.len() implies (#[trigger] pts[i]).vector.len()
            == dim by {
            if i < rest.len() {
                assert(pts[i] == rest[i]);
            }
        }
    }
}

/// The exec half of preparation: pairs each document with its embedding
/// outcome, keeps the accepted ones as index points, and records each
/// skipped one with its cause. Returns points, report entries, and the
/// accepted documents' ids (for reporting a failed batch).
#[verifier::loop_isolation(false)]
pub fn prepare_points(
    docs: &Vec<ConfluenceMeta>,
    embeds: &Vec<Result<Embedding, EmbeddingError>>,
    dim: usize,
) -> (r: (Vec<IndexedPoint>, Vec<FailedDoc>, Vec<String>))
    requires
        embeds@.len() == docs@.len(),
    ensures
        r.0@.map_values(|p: IndexedPoint| p@) == prepared_points(
            docs@.map_values(|d: ConfluenceMeta| d@),
            embeds@,
            dim as int,
        ),
        r.1@.map_values(|f: FailedDoc| f@) == prepared_fails(
            docs@.map_values(|d: ConfluenceMeta| d@),
            embeds@,
            dim as int,
        ),
        r.2@.map_values(|s: String| s@) == prepared_ok_ids(
            docs@.map_values(|d: ConfluenceMeta| d@),
            embeds@,
            dim as int,
        ),
{
    let ghost dvs = docs@.map_values(|d: ConfluenceMeta| d@);
    let mut points: Vec<IndexedPoint> = Vec::new();
    let mut fails: Vec<FailedDoc> = Vec::new();
    let mut ok_ids: Vec<String> = Vec::new();
    let n = docs.len();
    let mut i: usize = 0;
    while i < n
        invariant
            i <= n,
            points@.map_values(|p: IndexedPoint| p@) == prepared_points(
                dvs.take(i as int),
                embeds@.take(i as int),
                dim as int,
            ),
            fails@.map_values(|f: FailedDoc| f@) == prepared_fails(
                dvs.take(i as int),
                embeds@.take(i as int),
                dim as int,
            ),
            ok_ids@.map_values(|s: String| s@) == prepared_ok_ids(
                dvs.take(i as int),
                embeds@.take(i as int),
                dim as int,
            ),
        decreases n - i,
    {
        proof {
            assert(dvs.take(i + 1).drop_last() =~= dvs.take(i as int));
            assert(embeds@.take(i + 1).drop_last() =~= embeds@.take(i as int));
            assert(dvs.take(i + 1).last() == dvs[i as int]);
            assert(embeds@.take(i + 1).last() == embeds@[i as int]);
            assert(dvs[i as int] == docs@[i as int]@);
        }
        let ghost old_points = points@.map_values(|p: IndexedPoint| p@);
        let ghost old_fails = fails@.map_values(|f: FailedDoc| f@);
        let ghost old_ok_ids = ok_ids@.map_values(|s: String| s@);
        let parsed = crate::docid::parse_doc_id(docs[i].page_id.as_str());
        match parsed {
            None => {
                fails.push(
                    FailedDoc { page_id: docs[i].page_id.clone(), fault: IndexingFault::NonNumericId },
                );
                proof {
                    assert(fails@.map_values(|f: FailedDoc| f@) =~= old_fails.push(
                        (dvs[i as int].page_id, FaultKind::NonNumericId),
                    ));
                }
            },
            Some(num) => {
                match &embeds[i] {
                    Err(er) => {
                        let fault = IndexingFault::Embedding(er.clone());
                        proof {
                            assert(fault_kind(fault) == embed_fault_kind(embeds@[i as int]->Err_0));
                        }
                        fails.push(FailedDoc { page_id: docs[i].page_id.clone(), fault });
                        proof {
                            assert(fails@.map_values(|f: FailedDoc| f@) =~= old_fails.push(
                                (dvs[i as int].page_id, embed_fault_kind(embeds@[i as int]->Err_0)),
                            ));
                        }
                    },
                    Ok(emb) => {
                        if emb.len() != dim {
                            fails.push(
                                FailedDoc {
                                    page_id: docs[i].page_id.clone(),
                                    fault: IndexingFault::Embedding(
                                        EmbeddingError::DimensionMismatch,
                                    ),
                                },
                            );
                            proof {
                                assert(fails@.map_values(|f: FailedDoc| f@) =~= old_fails.push(
                                    (dvs[i as int].page_id, FaultKind::DimensionMismatch),
                                ));
                            }
                        } else {
                            let p = IndexedPoint {
                                id: num,
                                vector: emb.clone(),
                                payload_title: docs[i].page_title.clone(),
                            };
                            proof {
                                assert(p@ == point_of(dvs[i as int], embeds@[i as int]->Ok_0));
                            }
                            points.push(p);
                            ok_ids.push(docs[i].page_id.clone());
                            proof {
                                assert(points@.map_values(|p: IndexedPoint| p@) =~= old_points.push(
                                    point_of(dvs[i as int], embeds@[i as int]->Ok_0),
                                ));
                                assert(ok_ids@.map_values(|s: String| s@) =~= old_ok_ids.push(
                                    dvs[i as int].page_id,
                                ));
                            }
                        }
                    },
                }
            },
        }
        i = i + 1;
    }
    proof {
        assert(dvs.take(n as int) =~= dvs);
        assert(embeds@.take(n as int) =~= embeds@);
    }
    (points, fails, ok_ids)
}

/// Everything an indexing run promises about the index it wrote to and
/// the report it returns.
pub open spec fn run_post(
    docs: Seq<DocView>,
    embeds: Seq<Result<Embedding, EmbeddingError>>,
    dim: int,
    before: VectorIndex,
    after: VectorIndex,
    r: IndexingReport,
) -> bool {
    let pts = prepared_points(docs, embeds, dim);
    let fls = prepared_fails(docs, embeds, dim);
    let oks = prepared_ok_ids(docs, embeds, dim);
    if before.is_created() && dims_ok(pts, before.spec_dimension() as int) {
        &&& after.is_created()
        &&& after.spec_dimension() == before.spec_dimension()
        &&& after.points_view() == upsert_seq(before.points_view(), pts)
        &&& r.succeeded == pts.len()
        &&& r.failed@.map_values(|f: FailedDoc| f@) == fls
    } else {
        &&& after == before
        &&& r.succeeded == 0
        &&& r.failed@.map_values(|f: FailedDoc| f@) == fls + oks.map_values(
            |id: Seq<char>| (id, FaultKind::Upsert),
        )
    }
}

/// The write path: embed every document of the store, upsert the accepted
/// ones, report the rest.
pub struct IndexingPipeline;

impl IndexingPipeline {
    /// Runs one indexing pass against a collection of dimension `dim`.
    /// `embeds` carries, in store order, what the embedding service
    /// returned for each document's body; the caller made those calls. A
    /// skipped document never aborts the run; a failed batch upsert marks
    /// every accepted document failed.
    #[verifier::loop_isolation(false)]
    pub fn run(
        store: &DocumentStore,
        embeds: &Vec<Result<Embedding, EmbeddingError>>,
        dim: usize,
        index: &mut VectorIndex,
    ) -> (r: IndexingReport)
        requires
            embeds@.len() == store@.len(),
            old(index).wf(),
        ensures
            final(index).wf(),
            run_post(store@, embeds@, dim as int, *old(index), *final(index), r),
    {
        let docs = store.snapshot_all();
        let (points, fails, ok_ids) = prepare_points(&docs, embeds, dim);
        proof {
            lemma_prepared_props(store@, embeds@, dim as int);
        }
        match index.upsert_points(&points) {
            Ok(_) => IndexingReport { succeeded: points.len(), failed: fails },
            Err(e) => {
                let ghost fls = prepared_fails(store@, embeds@, dim as int);
                let ghost oks = prepared_ok_ids(store@, embeds@, dim as int);
                let mut failed = fails;
                let m = ok_ids.len();
                let mut l: usize = 0;
                while l < m
                    invariant
                        l <= m,
                        failed@.map_values(|f: FailedDoc| f@) == fls + oks.take(
                            l as int,
                        ).map_values(|id: Seq<char>| (id, FaultKind::Upsert)),
                    decreases m - l,
                {
                    let ghost old_failed = failed@.map_values(|f: FailedDoc| f@);
                    let fault = IndexingFault::Upsert(e.clone());
                    failed.push(FailedDoc { page_id: ok_ids[l].clone(), fault });
                    proof {
                        assert(ok_ids@[l as int]@ == oks[l as int]);
                        assert(failed@.map_values(|f: FailedDoc| f@) =~= old_failed.push(
                            (oks[l as int], FaultKind::Upsert),
                        ));
                        assert(oks.take(l + 1) =~= oks.take(l as int).push(oks[l as int]));
                        assert(oks.take(l + 1).map_values(|id: Seq<char>| (id, FaultKind::Upsert))
                            =~= oks.take(l as int).map_values(
                            |id: Seq<char>| (id, FaultKind::Upsert),
                        ).push((oks[l as int], FaultKind::Upsert)));
                        assert(failed@.map_values(|f: FailedDoc| f@) =~= fls + oks.take(
                            l + 1,
                        ).map_values(|id: Seq<char>| (id, FaultKind::Upsert)));
                    }
                    l = l + 1;
                }
                proof {
                    assert(oks.take(m as int) =~= oks);
                }
                IndexingReport { succeeded: 0, failed }
            },
        }
    }
}

/// Running the same indexing pass twice over an unchanged store leaves
/// the index's point count unchanged: the second pass prepares the same
/// batch, and upsert overwrites by id instead of duplicating.
pub proof fn lemma_run_twice_point_count_unchanged(
    docs: Seq<DocView>,
    embeds: Seq<Result<Embedding, EmbeddingError>>,
    dim: int,
    stored: Seq<PointView>,
)
    ensures
        upsert_seq(
            upsert_seq(stored, prepared_points(docs, embeds, dim)),
            prepared_points(docs, embeds, dim),
        ).len() == upsert_seq(stored, prepared_points(docs, embeds, dim)).len(),
{
    crate::index::lemma_upsert_twice_count_unchanged(stored, prepared_points(docs, embeds, dim));
}

/// Why a query failed outright (a query that merely finds fewer documents
/// than asked for has not failed).
#[derive(Debug)]
pub enum RetrievalError {
    Embedding(EmbeddingError),
    Index(IndexError),
}

/// The documents a ranked hit list resolves to: each hit's id looked up in
/// the store, hits the store does not know dropped, ranking order kept.
pub open spec fn resolved_docs(hits: Seq<SearchHit>, store: Seq<DocView>) -> Seq<DocView>
    decreases hits.len(),
{
    if hits.len() == 0 {
        Seq::empty()
    } else {
        let rest = resolved_docs(hits.drop_last(), store);
        if has_num_id(store, hits.last().id) {
            rest.push(store[first_num_index(store, hits.last().id)])
        } else {
            rest
        }
    }
}

proof fn lemma_resolved_props(hits: Seq<SearchHit>, store: Seq<DocView>)
    requires
        forall|i: int, j: int|
            0 <= i < j < hits.len() ==> (#[trigger] hits[i]).id != (#[trigger] hits[j]).id,
    ensures
        resolved_docs(hits, store).len() <= hits.len(),
        forall|l: int|
            0 <= l < resolved_docs(hits, store).len() ==> store.contains(
                #[trigger] resolved_docs(hits, store)[l],
            ),
        forall|l: int|
            0 <= l < resolved_docs(hits, store).len() ==> exists|i: int|
                0 <= i < hits.len() && doc_num_id(#[trigger] resolved_docs(hits, store)[l])
                    == Some(hits[i].id),
        forall|l: int, m: int|
            0 <= l < m < resolved_docs(hits, store).len() ==> doc_num_id(
                #[trigger] resolved_docs(hits, store)[l],
            ) != doc_num_id(#[trigger] resolved_docs(hits, store)[m]),
    decreases hits.len(),
{
    if hits.len() > 0 {
        assert forall|i: int, j: int| 0 <= i < j < hits.drop_last().len() implies (
        #[trigger] hits.drop_last()[i]).id != (#[trigger] hits.drop_last()[j]).id by {
            assert(hits.drop_last()[i] == hits[i] && hits.drop_last()[j] == hits[j]);
        }
        lemma_resolved_props(hits.drop_last(), store);
        let rest = resolved_docs(hits.drop_last(), store);
        let cur = resolved_docs(hits, store);
        if has_num_id(store, hits.last().id) {
            crate::store::lemma_first_num_index(store, hits.last().id);
            let d = store[first_num_index(store, hits.last().id)];
            assert(cur == rest.push(d));
            assert(doc_num_id(d) == Some(hits.last().id));
            assert(store.contains(d));
            assert forall|l: int| 0 <= l < cur.len() implies store.contains(cur[l]) by {
                if l < rest.len() {
                    assert(cur[l] == rest[l]);
                } else {
                    assert(cur[l] == d);
                }
            }
            assert forall|l: int| 0 <= l < cur.len() implies exists|i: int|
                0 <= i < hits.len() && doc_num_id(#[trigger] cur[l]) == Some(hits[i].id) by {
                if l < rest.len() {
                    assert(cur[l] == rest[l]);
                    let i = choose|i: int|
                        0 <= i < hits.drop_last().len() && doc_num_id(rest[l]) == Some(
                            hits.drop_last()[i].id,
                        );
                    assert(doc_num_id(cur[l]) == Some(hits[i].id));
                } else {
                    assert(cur[l] == d);
                    assert(doc_num_id(cur[l]) == Some(hits[hits.len() - 1].id));
                }
            }
            assert forall|l: int, m: int| 0 <= l < m < cur.len() implies doc_num_id(
                #[trigger] cur[l],
            ) != doc_num_id(#[trigger] cur[m]) by {
                if m < rest.len() {
                    assert(cur[l] == rest[l] && cur[m] == rest[m]);
                } else {
                    assert(cur[l] == rest[l] && cur[m] == d);
                    let i = choose|i: int|
                        0 <= i < hits.drop_last().len() && doc_num_id(rest[l]) == Some(
                            hits.drop_last()[i].id,
                        );
                    assert(hits[i].id != hits[hits.len() - 1].id);
                }
            }
        } else {
            assert(cur == rest);
        }
    }
}

/// A query can only thin out: it returns at most `k` documents, and at
/// most as many as the store holds — an index that knows more ids than
/// the store, or fewer points than were asked for, shortens the answer
/// and never pads or fails it.
pub proof fn lemma_query_result_bounded(
    pts: Seq<PointView>,
    q: Seq<i32>,
    k: int,
    hits: Seq<SearchHit>,
    store: Seq<DocView>,
)
    requires
        search_post(pts, q, k, hits),
        k >= 0,
    ensures
        resolved_docs(hits, store).len() <= k,
        resolved_docs(hits, store).len() <= store.len(),
{
    broadcast use vstd::set::group_set_axioms;

    lemma_resolved_props(hits, store);
    let res = resolved_docs(hits, store);
    assert(res.len() <= hits.len());
    assert(res.no_duplicates()) by {
        assert forall|l: int, m: int|
            0 <= l < res.len() && 0 <= m < res.len() && l != m implies res[l] != res[m] by {
            if l < m {
                assert(doc_num_id(res[l]) != doc_num_id(res[m]));
            } else {
                assert(doc_num_id(res[m]) != doc_num_id(res[l]));
            }
        }
    }
    res.unique_seq_to_set();
    assert(res.to_set().subset_of(store.to_set())) by {
        assert forall|x: DocView| res.to_set().contains(x) implies store.to_set().contains(x) by {
            assert(res.contains(x));
            let l = choose|l: int| 0 <= l < res.len() && res[l] == x;
            assert(store.contains(res[l]));
        }
    }
    vstd::seq_lib::seq_to_set_is_finite(res);
    vstd::seq_lib::seq_to_set_is_finite(store);
    vstd::set_lib::lemma_len_subset(res.to_set(), store.to_set());
    store.lemma_cardinality_of_set();
}

/// The read path: embed the query, search the index, resolve the ids.
pub struct RetrievalPipeline;

impl RetrievalPipeline {
    /// Resolves a ranked hit list against the store: ids the store knows
    /// become their documents, in ranking order; ids it does not know are
    /// dropped silently.
    #[verifier::loop_isolation(false)]
    pub fn resolve_hits(hits: &Vec<SearchHit>, store: &DocumentStore) -> (r: Vec<ConfluenceMeta>)
        ensures
            r@.map_values(|d: ConfluenceMeta| d@) == resolved_docs(hits@, store@),
    {
        let mut out: Vec<ConfluenceMeta> = Vec::new();
        let n = hits.len();
        let mut i: usize = 0;
        while i < n
            invariant
                i <= n,
                out@.map_values(|d: ConfluenceMeta| d@) == resolved_docs(
                    hits@.take(i as int),
                    store@,
                ),
            decreases n - i,
        {
            proof {
                assert(hits@.take(i + 1).drop_last() =~= hits@.take(i as int));
                assert(hits@.take(i + 1).last() == hits@[i as int]);
            }
            let ghost old_out = out@.map_values(|d: ConfluenceMeta| d@);
            match store.get_by_num(hits[i].id) {
                Some(d) => {
                    let d2 = d.clone();
                    out.push(d2);
                    proof {
                        assert(out@.map_values(|d: ConfluenceMeta| d@) =~= old_out.push(
                            store@[first_num_index(store@, hits@[i as int].id)],
                        ));
                    }
                },
                None => {},
            }
            i = i + 1;
        }
        proof {
            assert(hits@.take(n as int) =~= hits@);
        }
        out
    }

    /// Answers a query: searches the index for the top-k ids of the
    /// already-embedded query and resolves them against the store. The
    /// result can be shorter than `k` — fewer points stored, or ids the
    /// store no longer knows — and that is a normal answer, not an error.
    pub fn query(
        query_vec: &Embedding,
        k: usize,
        store: &DocumentStore,
        index: &VectorIndex,
    ) -> (r: Result<Vec<ConfluenceMeta>, RetrievalError>)
        requires
            index.wf(),
        ensures
            match r {
                Ok(docs) => index.is_created() && query_vec@.len() == index.spec_dimension()
                    && exists|hits: Seq<SearchHit>|
                    #[trigger] search_post(index.points_view(), query_vec@, k as int, hits)
                        && docs@.map_values(|d: ConfluenceMeta| d@) == resolved_docs(
                        hits,
                        store@,
                    ),
                Err(e) => e is Index && !(index.is_created() && query_vec@.len()
                    == index.spec_dimension()),
            },
    {
        match index.search(query_vec, k) {
            Ok(hits) => {
                let docs = Self::resolve_hits(&hits, store);
                proof {
                    assert(search_post(index.points_view(), query_vec@, k as int, hits@));
                }
                Ok(docs)
            },
            Err(e) => Err(RetrievalError::Index(e)),
        }
    }
}

} // verus!
