//! Hover content interner: assigns a dense integer id to each distinct hover
//! payload, in first-seen order, and hands the ordered payload list out for
//! the rendering pass.

use vstd::prelude::*;

verus! {

/// No payload occurs twice in the table.
pub open spec fn distinct_payloads(tbl: Seq<Seq<char>>) -> bool {
    forall|i: int, j: int| 0 <= i < j < tbl.len() ==> tbl[i] != tbl[j]
}

/// Position of the first occurrence of `p` in the table, or `tbl.len()` if
/// it does not occur.
pub open spec fn first_index(tbl: Seq<Seq<char>>, p: Seq<char>) -> int
    decreases tbl.len(),
{
    if tbl.len() == 0 {
        0
    } else if tbl[0] == p {
        0
    } else {
        1 + first_index(tbl.drop_first(), p)
    }
}

/// The id that interning `p` into the table yields.
pub open spec fn intern_id(tbl: Seq<Seq<char>>, p: Seq<char>) -> int {
    if tbl.contains(p) {
        first_index(tbl, p)
    } else {
        tbl.len() as int
    }
}

/// The table after interning `p`.
pub open spec fn intern_tbl(tbl: Seq<Seq<char>>, p: Seq<char>) -> Seq<Seq<char>> {
    if tbl.contains(p) {
        tbl
    } else {
        tbl.push(p)
    }
}

proof fn lemma_first_index(tbl: Seq<Seq<char>>, p: Seq<char>)
    requires
        tbl.contains(p),
    ensures
        0 <= first_index(tbl, p) < tbl.len(),
        tbl[first_index(tbl, p)] == p,
        forall|k: int| 0 <= k < first_index(tbl, p) ==> tbl[k] != p,
    decreases tbl.len(),
{
    if tbl[0] == p {
    } else {
        let t = tbl.drop_first();
        assert(t.contains(p)) by {
            let w = choose|w: int| 0 <= w < tbl.len() && tbl[w] == p;
            assert(t[w - 1] == p);
        }
        lemma_first_index(t, p);
        let f = first_index(tbl, p);
        assert(tbl[f] == t[f - 1]);
        assert forall|k: int| 0 <= k < f implies tbl[k] != p by {
            if k >= 1 {
                assert(tbl[k] == t[k - 1]);
            }
        }
    }
}

proof fn lemma_first_index_unique(tbl: Seq<Seq<char>>, p: Seq<char>, i: int)
    requires
        0 <= i < tbl.len(),
        tbl[i] == p,
        forall|k: int| 0 <= k < i ==> tbl[k] != p,
    ensures
        first_index(tbl, p) == i,
{
    assert(tbl.contains(p));
    lemma_first_index(tbl, p);
    let f = first_index(tbl, p);
    if f < i {
        assert(tbl[f] != p);
        assert(false);
    }
    if f > i {
        assert(tbl[i] != p);
        assert(false);
    }
}

/// Interning is deterministic: interning a payload a second time leaves the
/// table unchanged and returns the same id, the table holds the payload at
/// that id, and every payload interned earlier keeps its slot.
pub proof fn lemma_interner_deterministic(tbl: Seq<Seq<char>>, p: Seq<char>)
    requires
        distinct_payloads(tbl),
    ensures
        intern_tbl(intern_tbl(tbl, p), p) == intern_tbl(tbl, p),
        intern_id(intern_tbl(tbl, p), p) == intern_id(tbl, p),
        intern_tbl(tbl, p)[intern_id(tbl, p)] == p,
        distinct_payloads(intern_tbl(tbl, p)),
        tbl.len() <= intern_tbl(tbl, p).len(),
        forall|i: int| 0 <= i < tbl.len() ==> intern_tbl(tbl, p)[i] == tbl[i],
{
    if tbl.contains(p) {
        lemma_first_index(tbl, p);
    } else {
        let t = tbl.push(p);
        assert(t[tbl.len() as int] == p);
        assert(t.contains(p));
        assert forall|k: int| 0 <= k < tbl.len() implies t[k] != p by {
            assert(t[k] == tbl[k]);
        }
        lemma_first_index_unique(t, p, tbl.len() as int);
        assert forall|i: int, j: int| 0 <= i < j < t.len() implies t[i] != t[j] by {
            if j < tbl.len() {
                assert(t[i] == tbl[i] && t[j] == tbl[j]);
            } else {
                assert(t[j] == p && t[i] == tbl[i]);
            }
        }
    }
}

/// Deduplicating store of hover payloads, scoped to one chapter.
pub struct HoverStore {
    entries: Vec<String>,
}

impl View for HoverStore {
    type V = Seq<Seq<char>>;

    closed spec fn view(&self) -> Seq<Seq<char>> {
        self.entries@.map_values(|p: String| p@)
    }
}

impl Default for HoverStore {
    /// An empty store.
    fn default() -> (r: HoverStore)
        ensures
            r@ == Seq::<Seq<char>>::empty(),
            r.wf(),
    {
        let r = HoverStore { entries: Vec::new() };
        proof {
            assert(r@ =~= Seq::<Seq<char>>::empty());
        }
        r
    }
}

impl HoverStore {
    /// The store never holds a payload twice.
    pub open spec fn wf(&self) -> bool {
        distinct_payloads(self@)
    }

    /// The id of `hover`: the id it already has, or the next free one.
    pub fn get_id(&mut self, hover: String) -> (id: usize)
        requires
            old(self).wf(),
        ensures
            final(self).wf(),
            final(self)@ == intern_tbl(old(self)@, hover@),
            id == intern_id(old(self)@, hover@),
            id < final(self)@.len(),
            final(self)@[id as int] == hover@,
    {
        proof {
            lemma_interner_deterministic(old(self)@, hover@);
        }
        let n = self.entries.len();
        let mut i: usize = 0;
        while i < n
            invariant
                self == old(self),
                old(self).wf(),
                n == self@.len(),
                self@.len() == self.entries@.len(),
                self@ == self.entries@.map_values(|p: String| p@),
                i <= n,
                forall|k: int| 0 <= k < i ==> self@[k] != hover@,
            decreases n - i,
        {
            if self.entries[i] == hover {
                proof {
                    assert(self@[i as int] == hover@);
                    lemma_first_index_unique(self@, hover@, i as int);
                    assert(self@.contains(hover@));
                }
                return i;
            }
            proof {
                assert(self@[i as int] == self.entries@[i as int]@);
            }
            i = i + 1;
        }
        proof {
            if self@.contains(hover@) {
                let w = choose|w: int| 0 <= w < self@.len() && self@[w] == hover@;
                assert(self@[w] != hover@);
                assert(false);
            }
        }
        let ghost prev = self@;
        self.entries.push(hover);
        proof {
            assert(self@ =~= prev.push(hover@));
        }
        n
    }

    /// Finalizes the store into the payload list ordered by id.
    pub fn to_vec(self) -> (r: Vec<String>)
        ensures
            r@.map_values(|p: String| p@) == self@,
    {
        self.entries
    }
}

} // verus!
