//! Interned string pool for the output profile.
//!
//! The destination profile format stores every string once, in an
//! index-addressed table, and all string-valued fields refer to table
//! indices. Index 0 is a sentinel for the absent/empty string and must hold
//! `""` from construction on; ids of later strings are handed out in
//! insertion order, starting at 1, and are never reassigned.

use vstd::prelude::*;

verus! {

/// Effect of interning `s` into a table `t`: a string already present leaves
/// the table unchanged, a new one is appended at the end.
pub open spec fn intern_model(t: Seq<Seq<char>>, s: Seq<char>) -> Seq<Seq<char>> {
    if t.contains(s) {
        t
    } else {
        t.push(s)
    }
}

/// Id handed out for `s` by a table `t`: the index of `s` when it is already
/// present, the next fresh index otherwise.
pub open spec fn id_model(t: Seq<Seq<char>>, s: Seq<char>) -> int {
    if t.contains(s) {
        t.index_of(s)
    } else {
        t.len() as int
    }
}

/// An append-only deduplicated string pool; a string's id is its index.
#[derive(Debug)]
pub struct StringTable {
    data: Vec<String>,
}

impl View for StringTable {
    type V = Seq<Seq<char>>;

    closed spec fn view(&self) -> Seq<Seq<char>> {
        self.data.deep_view()
    }
}

impl StringTable {
    /// Well-formedness: the table is never empty, id 0 maps to the empty
    /// string, and no string occurs twice.
    pub open spec fn wf(&self) -> bool {
        &&& self@.len() >= 1
        &&& self@[0] == Seq::<char>::empty()
        &&& forall|i: int, j: int|
            0 <= i < j < self@.len() ==> self@[i] != self@[j]
    }

    /// A fresh table holding only the reserved empty string at id 0.
    pub fn new() -> (r: Self)
        ensures
            r.wf(),
            r@ == seq![Seq::<char>::empty()],
    {
        let data: Vec<String> = vec![String::new()];
        let r = StringTable { data };
        proof {
            assert(r@ =~= seq![Seq::<char>::empty()]);
        }
        r
    }

    /// The stable id of `q`, allocating the next id on first use. A repeated
    /// string returns its existing id and leaves the table unchanged.
    pub fn id(&mut self, q: &str) -> (r: i64)
        requires
            old(self).wf(),
            old(self)@.len() < i64::MAX,
        ensures
            final(self).wf(),
            final(self)@ == intern_model(old(self)@, q@),
            r == id_model(old(self)@, q@),
            0 <= r < final(self)@.len(),
            final(self)@[r as int] == q@,
    {
        let qs: String = q.to_owned();
        let n = self.data.len();
        for i in 0..n
            invariant
                n == self.data.len(),
                self.wf(),
                self@.len() < i64::MAX,
                qs@ == q@,
                forall|j: int| 0 <= j < i ==> self@[j] != q@,
        {
            if self.data[i] == qs {
                proof {
                    assert(self@[i as int] == q@);
                    assert(self@.contains(q@));
                    let k = self@.index_of(q@);
                    assert(self@[k] == q@);
                    assert(k == i as int);
                }
                return i as i64;
            }
            proof {
                assert(self@[i as int] == self.data@[i as int]@);
            }
        }
        proof {
            assert(forall|j: int| 0 <= j < self@.len() ==> self@[j] != q@);
            assert(!self@.contains(q@));
        }
        let ghost t0 = self@;
        self.data.push(qs);
        proof {
            assert(self@ =~= t0.push(q@));
        }
        (n as i64)
    }

    /// The ids-to-strings projection, ordered by id ascending.
    pub fn to_string_table(&self) -> (r: Vec<String>)
        ensures
            r.deep_view() == self@,
    {
        let mut r: Vec<String> = Vec::new();
        let n = self.data.len();
        for i in 0..n
            invariant
                n == self.data.len(),
                r.deep_view() =~= self@.subrange(0, i as int),
        {
            let s = self.data[i].clone();
            proof {
                assert(s@ == self.data@[i as int]@);
            }
            let ghost prev = r.deep_view();
            r.push(s);
            proof {
                assert(r.deep_view() =~= prev.push(self@[i as int]));
                assert(r.deep_view() =~= self@.subrange(0, i as int + 1));
            }
        }
        proof {
            assert(self@.subrange(0, n as int) =~= self@);
        }
        r
    }
}

/// Interning never disturbs existing ids: the old table is a prefix of the
/// new one, so every id already handed out keeps its string — in particular
/// id 0 keeps the empty string it was reserved for.
pub proof fn lemma_intern_preserves_ids(t: Seq<Seq<char>>, s: Seq<char>)
    ensures
        t.is_prefix_of(intern_model(t, s)),
        forall|j: int| 0 <= j < t.len() ==> intern_model(t, s)[j] == t[j],
{
    if t.contains(s) {
        assert(t =~= t.subrange(0, t.len() as int));
    } else {
        assert(t =~= t.push(s).subrange(0, t.len() as int));
    }
}

/// An id always resolves: interning `s` yields an id inside the new table
/// that maps back to `s` itself.
pub proof fn lemma_intern_resolves(t: Seq<Seq<char>>, s: Seq<char>)
    ensures
        0 <= id_model(t, s) < intern_model(t, s).len(),
        intern_model(t, s)[id_model(t, s)] == s,
{
    if t.contains(s) {
        let k = t.index_of(s);
        assert(0 <= k < t.len() && t[k] == s);
    }
}

/// Asking twice for one string is idempotent: the second request returns
/// the same id and leaves the table exactly as the first left it.
pub proof fn lemma_id_stable(t: Seq<Seq<char>>, s: Seq<char>)
    ensures
        intern_model(intern_model(t, s), s) == intern_model(t, s),
        id_model(intern_model(t, s), s) == id_model(t, s),
{
    if !t.contains(s) {
        let t1 = t.push(s);
        assert(t1[t.len() as int] == s);
        assert(t1.contains(s));
        let k = t1.index_of(s);
        assert(0 <= k < t1.len() && t1[k] == s);
        if k < t.len() {
            assert(t[k] == s);
            assert(t.contains(s));
        }
        assert(k == t.len() as int);
    }
}

/// Distinct strings that are both new receive strictly increasing ids, and
/// in a table that already holds the reserved empty string every fresh id is
/// at least 1.
pub proof fn lemma_fresh_ids_increase(t: Seq<Seq<char>>, s1: Seq<char>, s2: Seq<char>)
    requires
        t.len() >= 1,
        !t.contains(s1),
        !t.contains(s2),
        s1 != s2,
    ensures
        1 <= id_model(t, s1),
        id_model(t, s1) < id_model(intern_model(t, s1), s2),
{
    let t1 = intern_model(t, s1);
    assert(t1 == t.push(s1));
    assert(!t1.contains(s2)) by {
        if t1.contains(s2) {
            let k = choose|k: int| 0 <= k < t1.len() && t1[k] == s2;
            if k < t.len() {
                assert(t[k] == s2);
                assert(t.contains(s2));
            } else {
                assert(s1 == s2);
            }
        }
    };
    assert(id_model(t1, s2) == t.len() + 1);
}

} // verus!
