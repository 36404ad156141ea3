//! The in-process snapshot of all documents, keyed by document id.
//!
//! A store is built once from a full pull of the document source and then
//! read by every retrieval request. `replace` swaps the whole contents in
//! one step and silently de-duplicates: of two records with the same id the
//! first one wins. Readers see either the old snapshot or the new one in
//! full; the locking that makes the swap atomic between threads lives with
//! the caller, never inside the store.

use vstd::prelude::*;
use crate::doc::{ConfluenceMeta, DocView, doc_num_id};

verus! {

/// No two records share an id.
pub open spec fn unique_ids(s: Seq<DocView>) -> bool {
    forall|i: int, j: int|
        0 <= i < j < s.len() ==> (#[trigger] s[i]).page_id != (#[trigger] s[j]).page_id
}

/// Some record in `s` carries the id.
pub open spec fn has_id(s: Seq<DocView>, id: Seq<char>) -> bool {
    exists|i: int| 0 <= i < s.len() && (#[trigger] s[i]).page_id == id
}

/// Some record in `s` is stored under the point id `num`.
pub open spec fn has_num_id(s: Seq<DocView>, num: u64) -> bool {
    exists|i: int| 0 <= i < s.len() && doc_num_id(#[trigger] s[i]) == Some(num)
}

/// The first position in `s` whose record is stored under the point id
/// `num`, when one exists.
pub open spec fn first_num_index(s: Seq<DocView>, num: u64) -> int
    decreases s.len(),
{
    if s.len() == 0 {
        0
    } else if doc_num_id(s.first()) == Some(num) {
        0
    } else {
        1 + first_num_index(s.drop_first(), num)
    }
}

pub proof fn lemma_first_num_index(s: Seq<DocView>, num: u64)
    requires
        has_num_id(s, num),
    ensures
        0 <= first_num_index(s, num) < s.len(),
        doc_num_id(s[first_num_index(s, num)]) == Some(num),
        forall|l: int| 0 <= l < first_num_index(s, num) ==> doc_num_id(#[trigger] s[l]) != Some(
            num,
        ),
    decreases s.len(),
{
    if doc_num_id(s.first()) == Some(num) {
    } else {
        assert(has_num_id(s.drop_first(), num)) by {
            let i = choose|i: int| 0 <= i < s.len() && doc_num_id(s[i]) == Some(num);
            assert(s.drop_first()[i - 1] == s[i]);
        }
        lemma_first_num_index(s.drop_first(), num);
        let j = first_num_index(s, num);
        assert(s[j] == s.drop_first()[j - 1]);
        assert forall|l: int| 0 <= l < j implies doc_num_id(#[trigger] s[l]) != Some(num) by {
            if l > 0 {
                assert(s[l] == s.drop_first()[l - 1]);
            }
        }
    }
}

proof fn lemma_first_num_index_is(s: Seq<DocView>, num: u64, i: int)
    requires
        0 <= i < s.len(),
        doc_num_id(s[i]) == Some(num),
        forall|l: int| 0 <= l < i ==> doc_num_id(#[trigger] s[l]) != Some(num),
    ensures
        first_num_index(s, num) == i,
    decreases s.len(),
{
    if doc_num_id(s.first()) == Some(num) {
        assert(i == 0);
    } else {
        assert(i > 0);
        assert(s.drop_first()[i - 1] == s[i]);
        assert forall|l: int| 0 <= l < i - 1 implies doc_num_id(#[trigger] s.drop_first()[l])
            != Some(num) by {
            assert(s.drop_first()[l] == s[l + 1]);
        }
        lemma_first_num_index_is(s.drop_first(), num, i - 1);
    }
}

/// `s` with every record whose id already appeared dropped: the first
/// record of each id wins.
pub open spec fn dedup_first(s: Seq<DocView>) -> Seq<DocView>
    decreases s.len(),
{
    if s.len() == 0 {
        Seq::empty()
    } else {
        let prev = dedup_first(s.drop_last());
        if has_id(prev, s.last().page_id) {
            prev
        } else {
            prev.push(s.last())
        }
    }
}

proof fn lemma_dedup_first_unique(s: Seq<DocView>)
    ensures
        unique_ids(dedup_first(s)),
        forall|id: Seq<char>| has_id(dedup_first(s), id) <==> has_id(s, id),
    decreases s.len(),
{
    if s.len() > 0 {
        lemma_dedup_first_unique(s.drop_last());
        let prev = dedup_first(s.drop_last());
        let cur = dedup_first(s);
        assert forall|id: Seq<char>| has_id(cur, id) implies has_id(s, id) by {
            if has_id(prev, id) {
                let i = choose|i: int| 0 <= i < prev.len() && prev[i].page_id == id;
                assert(has_id(s.drop_last(), id));
                let j = choose|j: int| 0 <= j < s.drop_last().len() && s.drop_last()[j].page_id
                    == id;
                assert(s[j].page_id == id);
            } else {
                assert(cur.last().page_id == s.last().page_id);
                assert(s[s.len() - 1].page_id == s.last().page_id);
            }
        }
        assert forall|id: Seq<char>| has_id(s, id) implies has_id(cur, id) by {
            let i = choose|i: int| 0 <= i < s.len() && s[i].page_id == id;
            if i < s.len() - 1 {
                assert(s.drop_last()[i].page_id == id);
                assert(has_id(s.drop_last(), id));
                let j = choose|j: int| 0 <= j < prev.len() && prev[j].page_id == id;
                if has_id(prev, s.last().page_id) {
                    assert(cur[j].page_id == id);
                } else {
                    assert(cur[j].page_id == id);
                }
            } else {
                if has_id(prev, s.last().page_id) {
                    assert(has_id(prev, id));
                    let j = choose|j: int| 0 <= j < prev.len() && prev[j].page_id == id;
                    assert(cur[j].page_id == id);
                } else {
                    assert(cur[cur.len() - 1].page_id == id);
                }
            }
        }
    }
}

/// The snapshot of all documents, keyed by id. Shared between readers
/// and the rare writer under whatever lock the surrounding application
/// chooses; the store itself only guarantees whole-snapshot swaps.
pub struct DocumentStore {
    docs: Vec<ConfluenceMeta>,
}

impl View for DocumentStore {
    type V = Seq<DocView>;

    closed spec fn view(&self) -> Seq<DocView> {
        self.docs@.map_values(|d: ConfluenceMeta| d@)
    }
}

fn str_equal(a: &str, b: &String) -> (r: bool)
    ensures
        r == (a@ == b@),
{
    let a_owned = a.to_owned();
    a_owned == *b
}

impl DocumentStore {
    /// A store holding nothing.
    pub fn new() -> (r: DocumentStore)
        ensures
            r@ == Seq::<DocView>::empty(),
            unique_ids(r@),
    {
        let r = DocumentStore { docs: Vec::new() };
        proof {
            assert(r@ =~= Seq::<DocView>::empty());
        }
        r
    }

    /// How many documents the snapshot holds.
    pub fn len(&self) -> (r: usize)
        ensures
            r == self@.len(),
    {
        self.docs.len()
    }

    /// Swaps the entire contents for `docs`, de-duplicating by id: of two
    /// records with the same id, the first stays. The new snapshot always
    /// has unique ids.
    pub fn replace(&mut self, docs: Vec<ConfluenceMeta>)
        ensures
            final(self)@ == dedup_first(docs@.map_values(|d: ConfluenceMeta| d@)),
            unique_ids(final(self)@),
    {
        let ghost target = docs@.map_values(|d: ConfluenceMeta| d@);
        let mut out: Vec<ConfluenceMeta> = Vec::new();
        let n = docs.len();
        let mut i: usize = 0;
        while i < n
            invariant
                n == docs@.len(),
                i <= n,
                target == docs@.map_values(|d: ConfluenceMeta| d@),
                out@.map_values(|d: ConfluenceMeta| d@) == dedup_first(target.take(i as int)),
            decreases n - i,
        {
            proof {
                assert(target.take(i + 1).drop_last() =~= target.take(i as int));
                assert(target.take(i + 1).last() == target[i as int]);
            }
            let ghost prev = dedup_first(target.take(i as int));
            let mut seen: bool = false;
            let m = out.len();
            let mut j: usize = 0;
            while j < m
                invariant
                    m == out@.len(),
                    j <= m,
                    i < n,
                    n == docs@.len(),
                    target == docs@.map_values(|d: ConfluenceMeta| d@),
                    out@.map_values(|d: ConfluenceMeta| d@) == prev,
                    seen ==> has_id(prev, target[i as int].page_id),
                    !seen ==> forall|l: int|
                        0 <= l < j ==> (#[trigger] prev[l]).page_id != target[i as int].page_id,
                decreases m - j,
            {
                if str_equal(docs[i].page_id.as_str(), &out[j].page_id) {
                    proof {
                        assert(prev[j as int].page_id == target[i as int].page_id);
                    }
                    seen = true;
                }
                j = j + 1;
            }
            if !seen {
                proof {
                    assert(!has_id(prev, target[i as int].page_id));
                }
                let d = docs[i].clone();
                out.push(d);
                proof {
                    assert(out@.map_values(|d: ConfluenceMeta| d@) =~= prev.push(
                        target[i as int],
                    ));
                }
            }
            i = i + 1;
        }
        proof {
            assert(target.take(n as int) =~= target);
        }
        self.docs = out;
        proof {
            lemma_dedup_first_unique(target);
        }
    }

    /// Looks a document up by its string id. Returns a record carrying the
    /// id exactly when the snapshot holds one.
    pub fn get<'a>(&'a self, id: &str) -> (r: Option<&'a ConfluenceMeta>)
        ensures
            match r {
                Some(d) => exists|i: int|
                    0 <= i < self@.len() && #[trigger] self@[i] == d@ && d@.page_id == id@,
                None => !has_id(self@, id@),
            },
    {
        let n = self.docs.len();
        let mut i: usize = 0;
        while i < n
            invariant
                n == self@.len(),
                i <= n,
                forall|j: int| 0 <= j < i ==> (#[trigger] self@[j]).page_id != id@,
            decreases n - i,
        {
            if str_equal(id, &self.docs[i].page_id) {
                proof {
                    assert(self@[i as int] == self.docs@[i as int]@);
                }
                return Some(&self.docs[i]);
            }
            i = i + 1;
        }
        None
    }

    /// Looks a document up by the point id it is stored under in the
    /// vector index. Returns a record whose id denotes `num` exactly when
    /// the snapshot holds one.
    pub fn get_by_num<'a>(&'a self, num: u64) -> (r: Option<&'a ConfluenceMeta>)
        ensures
            match r {
                Some(d) => has_num_id(self@, num) && d@ == self@[first_num_index(self@, num)]
                    && doc_num_id(d@) == Some(num),
                None => !has_num_id(self@, num),
            },
    {
        let n = self.docs.len();
        let mut i: usize = 0;
        while i < n
            invariant
                n == self@.len(),
                i <= n,
                forall|j: int| 0 <= j < i ==> doc_num_id(#[trigger] self@[j]) != Some(num),
            decreases n - i,
        {
            let parsed = crate::docid::parse_doc_id(self.docs[i].page_id.as_str());
            match parsed {
                Some(p) => {
                    if p == num {
                        proof {
                            assert(self@[i as int] == self.docs@[i as int]@);
                            lemma_first_num_index_is(self@, num, i as int);
                        }
                        return Some(&self.docs[i]);
                    }
                },
                None => {},
            }
            i = i + 1;
        }
        None
    }

    /// A copy of the whole snapshot, in store order, for bulk indexing.
    pub fn snapshot_all(&self) -> (r: Vec<ConfluenceMeta>)
        ensures
            r@.map_values(|d: ConfluenceMeta| d@) == self@,
    {
        let n = self.docs.len();
        let mut out: Vec<ConfluenceMeta> = Vec::new();
        proof {
            assert(out@.map_values(|d: ConfluenceMeta| d@) =~= self@.take(0));
        }
        let mut i: usize = 0;
        while i < n
            invariant
                n == self@.len(),
                i <= n,
                out@.map_values(|d: ConfluenceMeta| d@) == self@.take(i as int),
            decreases n - i,
        {
            let ghost prev_map = out@.map_values(|d: ConfluenceMeta| d@);
            let d = self.docs[i].clone();
            let ghost dv = d@;
            proof {
                assert(self@[i as int] == self.docs@[i as int]@);
            }
            out.push(d);
            proof {
                assert(out@.map_values(|d: ConfluenceMeta| d@) =~= prev_map.push(dv));
                assert(prev_map.push(dv) =~= self@.take(i + 1));
            }
            i = i + 1;
        }
        proof {
            assert(self@.take(n as int) =~= self@);
        }
        out
    }
}

} // verus!
