//! An exact model of the vector index collection that the core works
//! against: a named collection created once with a fixed dimension, filled
//! by upsert (overwrite by point id, never append), and queried for the
//! top-k points by descending score.
//!
//! The remote vector database is reached from the surrounding application;
//! this model is the contract the core relies on and proves its pipelines
//! against. Scores are exact integer dot products over the fixed-point
//! embedding components; ties between equal scores are broken arbitrarily,
//! as the remote service's are.

use vstd::prelude::*;
use crate::embed::Embedding;

verus! {

broadcast use vstd::seq_lib::group_to_multiset_ensures;

/// Why an index operation failed.
#[derive(Debug)]
pub enum IndexError {
    /// The collection does not exist or a vector has the wrong dimension.
    Invalid,
    /// The remote service could not be reached; the cause is carried for
    /// the report. The in-memory model never raises this; the remote
    /// facade does, and the pipelines interpret it.
    Unavailable(String),
}

impl Clone for IndexError {
    fn clone(&self) -> (r: Self)
        ensures
            r is Invalid <==> self is Invalid,
            r is Unavailable <==> self is Unavailable,
    {
        match self {
            IndexError::Invalid => IndexError::Invalid,
            IndexError::Unavailable(cause) => IndexError::Unavailable(cause.clone()),
        }
    }
}

/// What `create_collection` reports: both outcomes are success, so that
/// setting a collection up is idempotent.
#[derive(Debug)]
pub enum CreateOutcome {
    Created,
    AlreadyExists,
}

/// Spec-level image of one stored point.
#[verifier::ext_equal]
pub ghost struct PointView {
    pub id: u64,
    pub vector: Seq<i32>,
    pub title: Seq<char>,
}

/// One record of the vector index: the point id a document is stored
/// under, its embedding, and the title kept as display payload.
pub struct IndexedPoint {
    pub id: u64,
    pub vector: Embedding,
    pub payload_title: String,
}

impl View for IndexedPoint {
    type V = PointView;

    open spec fn view(&self) -> PointView {
        PointView { id: self.id, vector: self.vector@, title: self.payload_title@ }
    }
}

impl Clone for IndexedPoint {
    fn clone(&self) -> (r: Self)
        ensures
            r@ == self@,
    {
        IndexedPoint {
            id: self.id,
            vector: self.vector.clone(),
            payload_title: self.payload_title.clone(),
        }
    }
}

/// One search answer: a stored point id and its score against the query.
#[derive(Clone, Copy, PartialEq, Eq, Structural)]
pub struct SearchHit {
    pub id: u64,
    pub score: i128,
}

/// Some point in `s` has this id.
pub open spec fn has_point_id(s: Seq<PointView>, id: u64) -> bool {
    exists|i: int| 0 <= i < s.len() && (#[trigger] s[i]).id == id
}

/// No two points in `s` share an id.
pub open spec fn unique_point_ids(s: Seq<PointView>) -> bool {
    forall|i: int, j: int| 0 <= i < j < s.len() ==> (#[trigger] s[i]).id != (#[trigger] s[j]).id
}

/// Every vector in `b` has length `dim`.
pub open spec fn dims_ok(b: Seq<PointView>, dim: int) -> bool {
    forall|i: int| 0 <= i < b.len() ==> (#[trigger] b[i]).vector.len() == dim
}

/// `s` after upserting one point: if the id is already stored the point
/// replaces the old one in place, otherwise it is appended.
pub open spec fn upsert_one(s: Seq<PointView>, p: PointView) -> Seq<PointView>
    decreases s.len(),
{
    if s.len() == 0 {
        seq![p]
    } else if s.first().id == p.id {
        seq![p] + s.drop_first()
    } else {
        seq![s.first()] + upsert_one(s.drop_first(), p)
    }
}

/// `s` after upserting a whole batch, in batch order.
pub open spec fn upsert_seq(s: Seq<PointView>, b: Seq<PointView>) -> Seq<PointView>
    decreases b.len(),
{
    if b.len() == 0 {
        s
    } else {
        upsert_seq(upsert_one(s, b.first()), b.drop_first())
    }
}

/// Upserting a stored id replaces in place: when `j` is the first index
/// carrying `p.id`, the result is `s` with position `j` overwritten.
proof fn lemma_upsert_one_found(s: Seq<PointView>, p: PointView, j: int)
    requires
        0 <= j < s.len(),
        s[j].id == p.id,
        forall|l: int| 0 <= l < j ==> (#[trigger] s[l]).id != p.id,
    ensures
        upsert_one(s, p) == s.update(j, p),
    decreases s.len(),
{
    if s.first().id == p.id {
        assert(j == 0);
        assert(upsert_one(s, p) =~= s.update(0, p));
    } else {
        assert(j > 0);
        assert(s.drop_first()[j - 1].id == p.id);
        assert forall|l: int| 0 <= l < j - 1 implies (#[trigger] s.drop_first()[l]).id != p.id by {
            assert(s.drop_first()[l] == s[l + 1]);
        }
        lemma_upsert_one_found(s.drop_first(), p, j - 1);
        assert(upsert_one(s, p) =~= s.update(j, p));
    }
}

/// Upserting a fresh id appends.
proof fn lemma_upsert_one_absent(s: Seq<PointView>, p: PointView)
    requires
        !has_point_id(s, p.id),
    ensures
        upsert_one(s, p) == s.push(p),
    decreases s.len(),
{
    if s.len() > 0 {
        assert(s[0].id != p.id);
        assert(!has_point_id(s.drop_first(), p.id)) by {
            if has_point_id(s.drop_first(), p.id) {
                let i = choose|i: int|
                    0 <= i < s.drop_first().len() && s.drop_first()[i].id == p.id;
                assert(s[i + 1].id == p.id);
            }
        }
        lemma_upsert_one_absent(s.drop_first(), p);
        assert(upsert_one(s, p) =~= s.push(p));
    } else {
        assert(upsert_one(s, p) =~= s.push(p));
    }
}

/// What one upsert does to size and to the set of stored ids.
proof fn lemma_upsert_one_ids(s: Seq<PointView>, p: PointView)
    ensures
        has_point_id(s, p.id) ==> upsert_one(s, p).len() == s.len(),
        !has_point_id(s, p.id) ==> upsert_one(s, p).len() == s.len() + 1,
        forall|x: u64|
            has_point_id(upsert_one(s, p), x) <==> (has_point_id(s, x) || x == p.id),
    decreases s.len(),
{
    if has_point_id(s, p.id) {
        let j = first_index_of_id(s, p.id);
        lemma_first_index_of_id(s, p.id);
        lemma_upsert_one_found(s, p, j);
        let r = s.update(j, p);
        assert forall|x: u64| has_point_id(r, x) implies (has_point_id(s, x) || x == p.id) by {
            let i = choose|i: int| 0 <= i < r.len() && r[i].id == x;
            if i != j {
                assert(s[i].id == x);
            }
        }
        assert forall|x: u64| has_point_id(s, x) || x == p.id implies has_point_id(r, x) by {
            if x == p.id {
                assert(r[j].id == x);
            } else {
                let i = choose|i: int| 0 <= i < s.len() && s[i].id == x;
                assert(r[i].id == x);
            }
        }
    } else {
        lemma_upsert_one_absent(s, p);
        let r = s.push(p);
        assert forall|x: u64| has_point_id(r, x) implies (has_point_id(s, x) || x == p.id) by {
            let i = choose|i: int| 0 <= i < r.len() && r[i].id == x;
            if i < s.len() {
                assert(s[i].id == x);
            }
        }
        assert forall|x: u64| has_point_id(s, x) || x == p.id implies has_point_id(r, x) by {
            if x == p.id {
                assert(r[s.len() as int].id == x);
            } else {
                let i = choose|i: int| 0 <= i < s.len() && s[i].id == x;
                assert(r[i].id == x);
            }
        }
    }
}

/// The first position in `s` carrying `id`, when one exists.
pub open spec fn first_index_of_id(s: Seq<PointView>, id: u64) -> int
    decreases s.len(),
{
    if s.len() == 0 {
        0
    } else if s.first().id == id {
        0
    } else {
        1 + first_index_of_id(s.drop_first(), id)
    }
}

proof fn lemma_first_index_of_id(s: Seq<PointView>, id: u64)
    requires
        has_point_id(s, id),
    ensures
        0 <= first_index_of_id(s, id) < s.len(),
        s[first_index_of_id(s, id)].id == id,
        forall|l: int| 0 <= l < first_index_of_id(s, id) ==> (#[trigger] s[l]).id != id,
    decreases s.len(),
{
    if s.first().id == id {
    } else {
        assert(has_point_id(s.drop_first(), id)) by {
            let i = choose|i: int| 0 <= i < s.len() && s[i].id == id;
            assert(s.drop_first()[i - 1].id == id);
        }
        lemma_first_index_of_id(s.drop_first(), id);
        let j = first_index_of_id(s, id);
        assert(s[j] == s.drop_first()[j - 1]);
        assert forall|l: int| 0 <= l < j implies (#[trigger] s[l]).id != id by {
            if l > 0 {
                assert(s[l] == s.drop_first()[l - 1]);
            }
        }
    }
}

/// What a whole batch does to the set of stored ids: afterwards an id is
/// stored exactly when it was stored before or the batch carries it.
pub proof fn lemma_upsert_seq_ids(s: Seq<PointView>, b: Seq<PointView>)
    ensures
        forall|x: u64|
            has_point_id(upsert_seq(s, b), x) <==> (has_point_id(s, x) || has_point_id(b, x)),
    decreases b.len(),
{
    if b.len() > 0 {
        lemma_upsert_one_ids(s, b.first());
        lemma_upsert_seq_ids(upsert_one(s, b.first()), b.drop_first());
        assert forall|x: u64|
            has_point_id(upsert_seq(s, b), x) <==> (has_point_id(s, x) || has_point_id(
                b,
                x,
            )) by {
            if has_point_id(b, x) {
                let i = choose|i: int| 0 <= i < b.len() && b[i].id == x;
                if i > 0 {
                    assert(b.drop_first()[i - 1].id == x);
                    assert(has_point_id(b.drop_first(), x));
                }
            }
            if has_point_id(b.drop_first(), x) {
                let i = choose|i: int|
                    0 <= i < b.drop_first().len() && b.drop_first()[i].id == x;
                assert(b[i + 1].id == x);
            }
            assert(b[0].id == b.first().id);
        }
    }
}

/// A batch whose ids are all already stored changes no point count.
proof fn lemma_upsert_seq_len_when_present(s: Seq<PointView>, b: Seq<PointView>)
    requires
        forall|i: int| 0 <= i < b.len() ==> has_point_id(s, (#[trigger] b[i]).id),
    ensures
        upsert_seq(s, b).len() == s.len(),
    decreases b.len(),
{
    if b.len() > 0 {
        lemma_upsert_one_ids(s, b.first());
        let s1 = upsert_one(s, b.first());
        assert(b[0].id == b.first().id);
        assert forall|i: int| 0 <= i < b.drop_first().len() implies has_point_id(
            s1,
            (#[trigger] b.drop_first()[i]).id,
        ) by {
            assert(b.drop_first()[i] == b[i + 1]);
        }
        lemma_upsert_seq_len_when_present(s1, b.drop_first());
    }
}

/// Indexing is idempotent: upserting the same batch a second time leaves
/// the point count unchanged, because upsert overwrites by id and never
/// duplicates.
pub proof fn lemma_upsert_twice_count_unchanged(s: Seq<PointView>, b: Seq<PointView>)
    ensures
        upsert_seq(upsert_seq(s, b), b).len() == upsert_seq(s, b).len(),
{
    lemma_upsert_seq_ids(s, b);
    assert forall|i: int| 0 <= i < b.len() implies has_point_id(
        upsert_seq(s, b),
        (#[trigger] b[i]).id,
    ) by {
        assert(has_point_id(b, b[i].id));
    }
    lemma_upsert_seq_len_when_present(upsert_seq(s, b), b);
}

/// The exact score of a stored vector against the query: the integer dot
/// product of the fixed-point components.
pub open spec fn dot_rec(a: Seq<i32>, b: Seq<i32>) -> int
    decreases a.len(),
{
    if a.len() == 0 || b.len() == 0 {
        0
    } else {
        a.last() * b.last() + dot_rec(a.drop_last(), b.drop_last())
    }
}

/// The similarity score the index ranks by.
pub open spec fn score_spec(q: Seq<i32>, v: Seq<i32>) -> int {
    dot_rec(q, v)
}

/// Some hit carries this id.
pub open spec fn has_hit_id(hits: Seq<SearchHit>, id: u64) -> bool {
    exists|i: int| 0 <= i < hits.len() && (#[trigger] hits[i]).id == id
}

/// `h` reports a stored point faithfully: its id is stored and its score
/// is that point's score against the query.
pub open spec fn hit_matches(pts: Seq<PointView>, q: Seq<i32>, h: SearchHit) -> bool {
    exists|i: int|
        0 <= i < pts.len() && (#[trigger] pts[i]).id == h.id && h.score == score_spec(
            q,
            pts[i].vector,
        )
}

/// Everything a search answer promises: as many hits as stored points but
/// never more than `k`; every hit reports a stored point with its true
/// score; scores descend; no id twice; and no stored point left out scores
/// above any returned hit.
pub open spec fn search_post(
    pts: Seq<PointView>,
    q: Seq<i32>,
    k: int,
    hits: Seq<SearchHit>,
) -> bool {
    &&& hits.len() == if k < pts.len() {
        k
    } else {
        pts.len() as int
    }
    &&& forall|i: int| 0 <= i < hits.len() ==> hit_matches(pts, q, #[trigger] hits[i])
    &&& forall|i: int, j: int|
        0 <= i < j < hits.len() ==> (#[trigger] hits[i]).score >= (#[trigger] hits[j]).score
    &&& forall|i: int, j: int|
        0 <= i < j < hits.len() ==> (#[trigger] hits[i]).id != (#[trigger] hits[j]).id
    &&& forall|i: int|
        0 <= i < pts.len() && hits.len() > 0 && !has_hit_id(hits, (#[trigger] pts[i]).id)
            ==> score_spec(q, pts[i].vector) <= hits[hits.len() - 1].score
}

/// The score as executable arithmetic. The fixed-point components are
/// `i32`, so every addend fits in 62 bits and the running sum stays far
/// inside `i128` for any vector length.
fn score(q: &Embedding, v: &Embedding) -> (r: i128)
    requires
        q@.len() == v@.len(),
    ensures
        r as int == score_spec(q@, v@),
{
    let n = q.len();
    let mut acc: i128 = 0;
    let mut i: usize = 0;
    while i < n
        invariant
            n == q@.len(),
            n == v@.len(),
            i <= n,
            acc as int == dot_rec(q@.take(i as int), v@.take(i as int)),
            -(i as int) * 0x4000_0000_0000_0000 <= acc as int <= (i as int)
                * 0x4000_0000_0000_0000,
        decreases n - i,
    {
        proof {
            assert(q@.take(i + 1).drop_last() =~= q@.take(i as int));
            assert(v@.take(i + 1).drop_last() =~= v@.take(i as int));
            assert(q@.take(i + 1).last() == q@[i as int]);
            assert(v@.take(i + 1).last() == v@[i as int]);
        }
        let qc = q.component(i) as i128;
        let vc = v.component(i) as i128;
        proof {
            assert(-0x4000_0000_0000_0000 <= qc as int * vc as int <= 0x4000_0000_0000_0000)
                by (nonlinear_arith)
                requires
                    -0x8000_0000 <= qc as int <= 0x7fff_ffff,
                    -0x8000_0000 <= vc as int <= 0x7fff_ffff,
            ;
            assert((i as int + 1) * 0x4000_0000_0000_0000 <= 0x4000_0000_0000_0000_0000_0000_0000_0000)
                by (nonlinear_arith)
                requires
                    0 <= i as int + 1 <= 0x1_0000_0000_0000_0000,
            ;
        }
        let t = qc * vc;
        acc = acc + t;
        i = i + 1;
    }
    proof {
        assert(q@.take(n as int) =~= q@);
        assert(v@.take(n as int) =~= v@);
    }
    acc
}

/// The model of the vector index service: at most one collection, created
/// once with a fixed dimension.
pub struct VectorIndex {
    created: bool,
    dimension: usize,
    points: Vec<IndexedPoint>,
}

impl VectorIndex {
    /// Whether the collection has been created yet.
    pub closed spec fn is_created(&self) -> bool {
        self.created
    }

    /// The dimension fixed at collection creation.
    pub closed spec fn spec_dimension(&self) -> usize {
        self.dimension
    }

    /// The stored points, in storage order.
    pub closed spec fn points_view(&self) -> Seq<PointView> {
        self.points@.map_values(|p: IndexedPoint| p@)
    }

    /// The invariant every operation keeps: point ids are unique, every
    /// stored vector has the collection's dimension, and nothing is stored
    /// before the collection exists.
    pub open spec fn wf(&self) -> bool {
        &&& unique_point_ids(self.points_view())
        &&& dims_ok(self.points_view(), self.spec_dimension() as int)
        &&& (!self.is_created() ==> self.points_view().len() == 0)
    }

    /// A fresh service with no collection.
    pub fn new() -> (r: VectorIndex)
        ensures
            r.wf(),
            !r.is_created(),
            r.points_view() == Seq::<PointView>::empty(),
    {
        let r = VectorIndex { created: false, dimension: 0, points: Vec::new() };
        proof {
            assert(r.points_view() =~= Seq::<PointView>::empty());
        }
        r
    }

    /// Whether the collection exists yet.
    pub fn created(&self) -> (r: bool)
        ensures
            r == self.is_created(),
    {
        self.created
    }

    /// The dimension the collection was created with.
    pub fn dimension(&self) -> (r: usize)
        ensures
            r == self.spec_dimension(),
    {
        self.dimension
    }

    /// How many points are stored.
    pub fn point_count(&self) -> (r: usize)
        ensures
            r == self.points_view().len(),
    {
        self.points.len()
    }

    /// Creates the collection with the given dimension, or reports that it
    /// already exists, leaving it untouched. Both outcomes are success:
    /// setting up twice with the same parameters is safe and changes
    /// nothing the second time.
    pub fn create_collection(&mut self, dimension: usize) -> (r: CreateOutcome)
        requires
            old(self).wf(),
        ensures
            final(self).wf(),
            old(self).is_created() ==> r is AlreadyExists && *final(self) == *old(self),
            !old(self).is_created() ==> r is Created && final(self).is_created()
                && final(self).spec_dimension() == dimension && final(self).points_view()
                == Seq::<PointView>::empty(),
    {
        if self.created {
            CreateOutcome::AlreadyExists
        } else {
            self.created = true;
            self.dimension = dimension;
            self.points = Vec::new();
            proof {
                assert(self.points_view() =~= Seq::<PointView>::empty());
            }
            CreateOutcome::Created
        }
    }

    /// Upserts a batch: each point overwrites the stored point with its id
    /// or is appended, in batch order. Fails, changing nothing, exactly
    /// when the collection does not exist or some vector in the batch has
    /// the wrong dimension.
    #[verifier::loop_isolation(false)]
    pub fn upsert_points(&mut self, batch: &Vec<IndexedPoint>) -> (r: Result<(), IndexError>)
        requires
            old(self).wf(),
        ensures
            final(self).wf(),
            match r {
                Ok(_) => {
                    &&& old(self).is_created()
                    &&& dims_ok(
                        batch@.map_values(|p: IndexedPoint| p@),
                        old(self).spec_dimension() as int,
                    )
                    &&& final(self).points_view() == upsert_seq(
                        old(self).points_view(),
                        batch@.map_values(|p: IndexedPoint| p@),
                    )
                    &&& final(self).is_created()
                    &&& final(self).spec_dimension() == old(self).spec_dimension()
                },
                Err(e) => {
                    &&& e is Invalid
                    &&& !(old(self).is_created() && dims_ok(
                        batch@.map_values(|p: IndexedPoint| p@),
                        old(self).spec_dimension() as int,
                    ))
                    &&& *final(self) == *old(self)
                },
            },
    {
        let ghost b = batch@.map_values(|p: IndexedPoint| p@);
        if !self.created {
            return Err(IndexError::Invalid);
        }
        let n = batch.len();
        let mut i: usize = 0;
        while i < n
            invariant
                n == batch@.len(),
                i <= n,
                b == batch@.map_values(|p: IndexedPoint| p@),
                forall|l: int| 0 <= l < i ==> (#[trigger] b[l]).vector.len() == self.dimension,
            decreases n - i,
        {
            if batch[i].vector.len() != self.dimension {
                proof {
                    assert(b[i as int].vector.len() != self.dimension);
                }
                return Err(IndexError::Invalid);
            }
            i = i + 1;
        }
        let ghost orig = self.points_view();
        let ghost dim = self.spec_dimension();
        let mut i: usize = 0;
        while i < n
            invariant
                n == batch@.len(),
                i <= n,
                b == batch@.map_values(|p: IndexedPoint| p@),
                dims_ok(b, dim as int),
                self.points_view() == upsert_seq(orig, b.take(i as int)),
                unique_point_ids(self.points_view()),
                dims_ok(self.points_view(), dim as int),
                self.created,
                self.dimension == dim,
            decreases n - i,
        {
            let ghost before = self.points_view();
            let p = batch[i].clone();
            let ghost pv = p@;
            proof {
                assert(pv == b[i as int]);
            }
            let m = self.points.len();
            let mut j: usize = 0;
            let mut found: bool = false;
            while j < m && !found
                invariant
                    m == before.len(),
                    j <= m,
                    self.points_view() == before,
                    found ==> j < m && before[j as int].id == pv.id,
                    !found ==> forall|l: int|
                        0 <= l < j ==> (#[trigger] before[l]).id != pv.id,
                decreases m - j + if found {
                    0int
                } else {
                    1int
                },
            {
                if self.points[j].id == p.id {
                    proof {
                        assert(before[j as int] == self.points@[j as int]@);
                    }
                    found = true;
                } else {
                    proof {
                        assert(before[j as int] == self.points@[j as int]@);
                    }
                    j = j + 1;
                }
            }
            if found {
                proof {
                    lemma_upsert_one_found(before, pv, j as int);
                }
                self.points.remove(j);
                self.points.insert(j, p);
                proof {
                    assert(self.points_view() =~= before.update(j as int, pv));
                }
            } else {
                proof {
                    assert(!has_point_id(before, pv.id));
                    lemma_upsert_one_absent(before, pv);
                }
                self.points.push(p);
                proof {
                    assert(self.points_view() =~= before.push(pv));
                }
            }
            proof {
                assert(self.points_view() == upsert_one(before, pv));
                assert(b.take(i + 1) =~= b.take(i as int).push(pv));
                lemma_upsert_seq_snoc(orig, b.take(i as int), pv);
                lemma_upsert_one_ids(before, pv);
                if has_point_id(before, pv.id) {
                    let j0 = first_index_of_id(before, pv.id);
                    lemma_first_index_of_id(before, pv.id);
                    lemma_upsert_one_found(before, pv, j0);
                    assert forall|a: int, c: int|
                        0 <= a < c < self.points_view().len() implies (
                        #[trigger] self.points_view()[a]).id != (
                        #[trigger] self.points_view()[c]).id by {
                        let r = before.update(j0, pv);
                        if a != j0 && c != j0 {
                            assert(r[a] == before[a] && r[c] == before[c]);
                        } else if a == j0 {
                            assert(r[c] == before[c] && before[j0].id == pv.id);
                        } else {
                            assert(r[a] == before[a] && before[j0].id == pv.id);
                        }
                    }
                    assert forall|l: int| 0 <= l < self.points_view().len() implies (
                    #[trigger] self.points_view()[l]).vector.len() == dim by {
                        let r = before.update(j0, pv);
                        if l != j0 {
                            assert(r[l] == before[l]);
                        }
                    }
                } else {
                    assert forall|a: int, c: int|
                        0 <= a < c < self.points_view().len() implies (
                        #[trigger] self.points_view()[a]).id != (
                        #[trigger] self.points_view()[c]).id by {
                        let r = before.push(pv);
                        if c < before.len() {
                            assert(r[a] == before[a] && r[c] == before[c]);
                        } else {
                            assert(r[c] == pv);
                            assert(r[a] == before[a]);
                            assert(!has_point_id(before, pv.id));
                        }
                    }
                    assert forall|l: int| 0 <= l < self.points_view().len() implies (
                    #[trigger] self.points_view()[l]).vector.len() == dim by {
                        let r = before.push(pv);
                        if l < before.len() {
                            assert(r[l] == before[l]);
                        }
                    }
                }
            }
            i = i + 1;
        }
        proof {
            assert(b.take(n as int) =~= b);
        }
        Ok(())
    }

    /// Searches for the `k` stored points scoring highest against the
    /// query, in descending score order. Asking for more points than are
    /// stored returns them all, never an error and never padding. Fails
    /// exactly when the collection does not exist or the query vector has
    /// the wrong dimension.
    #[verifier::loop_isolation(false)]
    pub fn search(&self, query: &Embedding, k: usize) -> (r: Result<Vec<SearchHit>, IndexError>)
        requires
            self.wf(),
        ensures
            match r {
                Ok(hits) => self.is_created() && query@.len() == self.spec_dimension()
                    && search_post(self.points_view(), query@, k as int, hits@),
                Err(e) => e is Invalid && !(self.is_created() && query@.len()
                    == self.spec_dimension()),
            },
    {
        if !self.created {
            return Err(IndexError::Invalid);
        }
        if query.len() != self.dimension {
            return Err(IndexError::Invalid);
        }
        let ghost pts = self.points_view();
        let ghost q = query@;
        let n = self.points.len();
        let mut scored: Vec<SearchHit> = Vec::new();
        let mut i: usize = 0;
        while i < n
            invariant
                scored@.len() == i as int,
                i <= n,
                forall|l: int|
                    0 <= l < i ==> (#[trigger] scored@[l]).id == pts[l].id && scored@[l].score
                        == score_spec(q, pts[l].vector),
            decreases n - i,
        {
            proof {
                assert(pts[i as int] == self.points@[i as int]@);
            }
            let sc = score(query, &self.points[i].vector);
            scored.push(SearchHit { id: self.points[i].id, score: sc });
            i = i + 1;
        }
        let ghost all = scored@;
        let mut rest = scored;
        let mut hits: Vec<SearchHit> = Vec::new();
        while hits.len() < k && rest.len() > 0
            invariant
                hits@.len() + rest@.len() == all.len(),
                hits@.len() <= k as int,
                hits@.to_multiset().add(rest@.to_multiset()) == all.to_multiset(),
                forall|a: int, c: int|
                    0 <= a < c < hits@.len() ==> (#[trigger] hits@[a]).score >= (
                    #[trigger] hits@[c]).score,
                forall|a: int, c: int|
                    0 <= a < hits@.len() && 0 <= c < rest@.len() ==> (#[trigger] hits@[a]).score
                        >= (#[trigger] rest@[c]).score,
                forall|a: int| 0 <= a < hits@.len() ==> hit_matches(pts, q, #[trigger] hits@[a]),
                forall|a: int| 0 <= a < rest@.len() ==> hit_matches(pts, q, #[trigger] rest@[a]),
                forall|a: int, c: int|
                    0 <= a < c < hits@.len() ==> (#[trigger] hits@[a]).id != (
                    #[trigger] hits@[c]).id,
                forall|a: int, c: int|
                    0 <= a < c < rest@.len() ==> (#[trigger] rest@[a]).id != (
                    #[trigger] rest@[c]).id,
                forall|a: int, c: int|
                    0 <= a < hits@.len() && 0 <= c < rest@.len() ==> (#[trigger] hits@[a]).id != (
                    #[trigger] rest@[c]).id,
            decreases rest@.len(),
        {
            let m = rest.len();
            let mut best: usize = 0;
            let mut j: usize = 1;
            while j < m
                invariant
                    1 <= j <= m,
                    best < j,
                    forall|l: int| 0 <= l < j ==> (#[trigger] rest@[l]).score <= rest@[best as int].score,
                decreases m - j,
            {
                if rest[j].score > rest[best].score {
                    best = j;
                }
                j = j + 1;
            }
            let ghost old_hits = hits@;
            let ghost old_rest = rest@;
            let h = rest.remove(best);
            hits.push(h);
            proof {
                old_rest.remove_ensures(best as int);
                assert(h == old_rest[best as int]);
                assert(hits@ == old_hits.push(h));
                assert(rest@ == old_rest.remove(best as int));
                assert(hits@.to_multiset() =~= old_hits.to_multiset().insert(h));
                assert(rest@.to_multiset() =~= old_rest.to_multiset().remove(h));
                assert(old_rest.contains(h));
                assert(old_rest.to_multiset().count(h) > 0);
                assert forall|x: SearchHit|
                    hits@.to_multiset().add(rest@.to_multiset()).count(x)
                        == all.to_multiset().count(x) by {
                    assert(old_hits.to_multiset().add(old_rest.to_multiset()).count(x)
                        == all.to_multiset().count(x));
                }
                assert(hits@.to_multiset().add(rest@.to_multiset()) =~= all.to_multiset());
            }
        }
        proof {
            assert(all.len() == pts.len());
            if hits@.len() < k as int {
                assert(rest@.len() == 0);
                assert(hits@.len() == pts.len());
            }
            assert forall|i2: int|
                0 <= i2 < pts.len() && hits@.len() > 0 && !has_hit_id(hits@, (
                #[trigger] pts[i2]).id) implies score_spec(q, pts[i2].vector) <= hits@[hits@.len()
                - 1].score by {
                let hv = all[i2];
                assert(hv.id == pts[i2].id && hv.score == score_spec(q, pts[i2].vector));
                assert(all.contains(hv));
                assert(all.to_multiset().count(hv) > 0);
                assert(hits@.to_multiset().count(hv) + rest@.to_multiset().count(hv) > 0);
                if hits@.to_multiset().count(hv) > 0 {
                    assert(hits@.contains(hv));
                    let a = choose|a: int| 0 <= a < hits@.len() && hits@[a] == hv;
                    assert(hits@[a].id == pts[i2].id);
                    assert(false);
                }
                assert(rest@.to_multiset().count(hv) > 0);
                assert(rest@.contains(hv));
                let c = choose|c: int| 0 <= c < rest@.len() && rest@[c] == hv;
                assert(hits@[hits@.len() - 1].score >= rest@[c].score);
            }
        }
        Ok(hits)
    }
}

/// A stub embedding along one axis: one positive component, zero
/// everywhere else.
pub open spec fn axis_vector(v: Seq<i32>, a: int) -> bool {
    &&& 0 <= a < v.len()
    &&& v[a] > 0
    &&& forall|j: int| 0 <= j < v.len() && j != a ==> v[j] == 0
}

proof fn lemma_dot_zero(q: Seq<i32>, v: Seq<i32>)
    requires
        forall|j: int| 0 <= j < q.len() ==> q[j] == 0,
    ensures
        dot_rec(q, v) == 0,
    decreases q.len(),
{
    if q.len() > 0 && v.len() > 0 {
        assert(q.last() == 0);
        assert(forall|j: int| 0 <= j < q.drop_last().len() ==> q.drop_last()[j] == 0);
        lemma_dot_zero(q.drop_last(), v.drop_last());
    }
}

proof fn lemma_dot_single_axis(q: Seq<i32>, v: Seq<i32>, a: int)
    requires
        q.len() == v.len(),
        0 <= a < q.len(),
        forall|j: int| 0 <= j < q.len() && j != a ==> q[j] == 0,
    ensures
        dot_rec(q, v) == q[a] * v[a],
    decreases q.len(),
{
    if a == q.len() - 1 {
        assert(forall|j: int| 0 <= j < q.drop_last().len() ==> q.drop_last()[j] == 0);
        lemma_dot_zero(q.drop_last(), v.drop_last());
        assert(q.last() == q[a] && v.last() == v[a]);
    } else {
        assert(q.last() == 0);
        assert(forall|j: int|
            0 <= j < q.drop_last().len() && j != a ==> q.drop_last()[j] == 0);
        lemma_dot_single_axis(q.drop_last(), v.drop_last(), a);
        assert(q.drop_last()[a] == q[a] && v.drop_last()[a] == v[a]);
    }
}

/// The round trip with the orthogonal stub embedder: when every stored
/// vector lies along its own positive axis and the query is exactly one
/// stored vector, any search asked for at least one result ranks that
/// point first.
pub proof fn lemma_axis_stub_round_trip(
    pts: Seq<PointView>,
    q: Seq<i32>,
    k: int,
    hits: Seq<SearchHit>,
    d: int,
    axes: Seq<int>,
)
    requires
        search_post(pts, q, k, hits),
        unique_point_ids(pts),
        0 <= d < pts.len(),
        pts[d].vector == q,
        axes.len() == pts.len(),
        forall|i: int| 0 <= i < pts.len() ==> (#[trigger] pts[i]).vector.len() == q.len(),
        forall|i: int| 0 <= i < pts.len() ==> axis_vector((#[trigger] pts[i]).vector, axes[i]),
        forall|i: int, j: int| 0 <= i < j < pts.len() ==> axes[i] != axes[j],
        k >= 1,
    ensures
        hits.len() >= 1,
        hits[0].id == pts[d].id,
        hits[0].score == score_spec(q, q),
{
    let aq = axes[d];
    assert(axis_vector(pts[d].vector, aq));
    assert forall|i: int| 0 <= i < pts.len() && i != d implies score_spec(
        q,
        (#[trigger] pts[i]).vector,
    ) < score_spec(q, q) by {
        let ai = axes[i];
        assert(aq != ai) by {
            if i < d {
                assert(axes[i] != axes[d]);
            } else {
                assert(axes[d] != axes[i]);
            }
        }
        assert(axis_vector(pts[i].vector, ai));
        lemma_dot_single_axis(q, pts[i].vector, aq);
        assert(pts[i].vector[aq] == 0);
        lemma_dot_single_axis(q, q, aq);
        assert(q[aq] * q[aq] > 0) by (nonlinear_arith)
            requires q[aq] > 0;
    }
    lemma_exact_match_ranks_first(pts, q, k, hits, d);
}

/// The round trip from indexing to retrieval: when the query vector is
/// exactly the vector some stored point was indexed with, and every other
/// stored point scores strictly below it against that query, any search
/// asked for at least one result ranks that point first, with its true
/// score. (With scores that are plain dot products the strict-dominance
/// premise is needed: a longer vector elsewhere could outscore the exact
/// match; a similarity metric that is maximal at equality always grants
/// it.)
pub proof fn lemma_exact_match_ranks_first(
    pts: Seq<PointView>,
    q: Seq<i32>,
    k: int,
    hits: Seq<SearchHit>,
    d: int,
)
    requires
        search_post(pts, q, k, hits),
        unique_point_ids(pts),
        0 <= d < pts.len(),
        pts[d].vector == q,
        forall|i: int|
            0 <= i < pts.len() && i != d ==> score_spec(q, (#[trigger] pts[i]).vector)
                < score_spec(q, q),
        k >= 1,
    ensures
        hits.len() >= 1,
        hits[0].id == pts[d].id,
        hits[0].score == score_spec(q, q),
{
    assert(hits.len() >= 1);
    if has_hit_id(hits, pts[d].id) {
        let a = choose|a: int| 0 <= a < hits.len() && hits[a].id == pts[d].id;
        assert(hit_matches(pts, q, hits[a]));
        let i = choose|i: int|
            0 <= i < pts.len() && pts[i].id == hits[a].id && hits[a].score == score_spec(
                q,
                pts[i].vector,
            );
        assert(i == d) by {
            if i != d {
                if i < d {
                    assert(pts[i].id != pts[d].id);
                } else {
                    assert(pts[d].id != pts[i].id);
                }
            }
        }
        assert(hits[a].score == score_spec(q, q));
        if a != 0 {
            assert(hit_matches(pts, q, hits[0]));
            let i0 = choose|i0: int|
                0 <= i0 < pts.len() && pts[i0].id == hits[0].id && hits[0].score == score_spec(
                    q,
                    pts[i0].vector,
                );
            assert(hits[0].id != hits[a].id);
            assert(i0 != d);
            assert(hits[0].score < score_spec(q, q));
            assert(hits[0].score >= hits[a].score);
            assert(false);
        }
    } else {
        assert(score_spec(q, pts[d].vector) <= hits[hits.len() - 1].score);
        assert(hit_matches(pts, q, hits[hits.len() - 1]));
        let i1 = choose|i1: int|
            0 <= i1 < pts.len() && pts[i1].id == hits[hits.len() - 1].id && hits[hits.len()
                - 1].score == score_spec(q, pts[i1].vector);
        assert(i1 != d) by {
            if i1 == d {
                assert(hits[hits.len() - 1].id == pts[d].id);
            }
        }
        assert(hits[hits.len() - 1].score < score_spec(q, q));
        assert(false);
    }
}

/// Upserting a batch and then one more point is upserting the extended
/// batch.
proof fn lemma_upsert_seq_snoc(s: Seq<PointView>, b: Seq<PointView>, p: PointView)
    ensures
        upsert_seq(s, b.push(p)) == upsert_one(upsert_seq(s, b), p),
    decreases b.len(),
{
    if b.len() == 0 {
        assert(b.push(p).first() == p);
        assert(b.push(p).drop_first() =~= Seq::<PointView>::empty());
        assert(upsert_seq(s, b.push(p)) == upsert_seq(
            upsert_one(s, p),
            b.push(p).drop_first(),
        ));
        assert(upsert_seq(upsert_one(s, p), b.push(p).drop_first()) == upsert_one(s, p));
        assert(upsert_seq(s, b) == s);
    } else {
        assert(b.push(p).first() == b.first());
        assert(b.push(p).drop_first() =~= b.drop_first().push(p));
        lemma_upsert_seq_snoc(upsert_one(s, b.first()), b.drop_first(), p);
        assert(upsert_seq(s, b.push(p)) == upsert_seq(
            upsert_one(s, b.first()),
            b.drop_first().push(p),
        ));
        assert(upsert_seq(s, b) == upsert_seq(upsert_one(s, b.first()), b.drop_first()));
    }
}

} // verus!
