use vstd::prelude::*;
use crate::model::{
    Accommodation, AccommodationServiceLog, Class, ClassStudent, SixWeekPeriod, Student,
};

verus! {

/// A stored row: it carries the id that the store assigned to it.
pub trait Row: Sized {
    spec fn row_id(&self) -> Option<i64>;

    fn id(&self) -> (r: Option<i64>)
        ensures
            r == self.row_id(),
    ;

    fn duplicate(&self) -> (r: Self)
        ensures
            r == *self,
    ;
}

impl Row for Class {
    open spec fn row_id(&self) -> Option<i64> {
        self.id
    }

    fn id(&self) -> (r: Option<i64>) {
        self.id
    }

    fn duplicate(&self) -> (r: Self) {
        self.clone()
    }
}

impl Row for Student {
    open spec fn row_id(&self) -> Option<i64> {
        self.id
    }

    fn id(&self) -> (r: Option<i64>) {
        self.id
    }

    fn duplicate(&self) -> (r: Self) {
        self.clone()
    }
}

impl Row for Accommodation {
    open spec fn row_id(&self) -> Option<i64> {
        self.id
    }

    fn id(&self) -> (r: Option<i64>) {
        self.id
    }

    fn duplicate(&self) -> (r: Self) {
        self.clone()
    }
}

impl Row for ClassStudent {
    open spec fn row_id(&self) -> Option<i64> {
        self.id
    }

    fn id(&self) -> (r: Option<i64>) {
        self.id
    }

    fn duplicate(&self) -> (r: Self) {
        self.clone()
    }
}

impl Row for SixWeekPeriod {
    open spec fn row_id(&self) -> Option<i64> {
        self.id
    }

    fn id(&self) -> (r: Option<i64>) {
        self.id
    }

    fn duplicate(&self) -> (r: Self) {
        self.clone()
    }
}

impl Row for AccommodationServiceLog {
    open spec fn row_id(&self) -> Option<i64> {
        self.id
    }

    fn id(&self) -> (r: Option<i64>) {
        self.id
    }

    fn duplicate(&self) -> (r: Self) {
        self.clone()
    }
}

/// Every row has an id in `1..next`, and ids rise strictly along the table.
pub open spec fn ids_rise<R: Row>(s: Seq<R>, next: i64) -> bool {
    &&& forall|i: int|
        0 <= i < s.len() ==> (#[trigger] s[i].row_id()).is_some() && 0 < s[i].row_id().unwrap()
            < next
    &&& forall|i: int, j: int|
        0 <= i < j < s.len() ==> (#[trigger] s[i].row_id()).unwrap()
            < (#[trigger] s[j].row_id()).unwrap()
}

/// Whether the table holds a row with id `id`.
pub open spec fn has_id<R: Row>(s: Seq<R>, id: i64) -> bool {
    exists|x: R| #[trigger] s.contains(x) && x.row_id() == Some(id)
}

pub proof fn lemma_filter_members<A>(s: Seq<A>, p: spec_fn(A) -> bool)
    ensures
        forall|x: A| #[trigger] s.filter(p).contains(x) <==> s.contains(x) && p(x),
{
    broadcast use Seq::lemma_filter_contains_rev, Seq::lemma_filter_pred;

    assert forall|x: A| #[trigger] s.filter(p).contains(x) <==> s.contains(x) && p(x) by {
        if s.contains(x) && p(x) {
            let i = choose|i: int| 0 <= i < s.len() && s[i] == x;
            s.lemma_filter_contains(p, i);
        }
        if s.filter(p).contains(x) {
            let k = choose|k: int| 0 <= k < s.filter(p).len() && s.filter(p)[k] == x;
            s.lemma_filter_pred(p, k);
        }
    }
}

pub proof fn lemma_filter_ids_rise<R: Row>(s: Seq<R>, p: spec_fn(R) -> bool, next: i64)
    requires
        ids_rise(s, next),
    ensures
        ids_rise(s.filter(p), next),
    decreases s.len(),
{
    reveal(Seq::filter);
    if s.len() > 0 {
        let rest = s.drop_last();
        assert(ids_rise(rest, next)) by {
            assert forall|i: int| 0 <= i < rest.len() implies rest[i] == s[i] by {}
        }
        lemma_filter_ids_rise(rest, p, next);
        lemma_filter_members(rest, p);
        let f = rest.filter(p);
        if p(s.last()) {
            assert forall|k: int| 0 <= k < f.len() implies (#[trigger] f[k].row_id()).unwrap()
                < s.last().row_id().unwrap() by {
                assert(f.contains(f[k]));
                let m = choose|m: int| 0 <= m < rest.len() && rest[m] == f[k];
                assert(s[m] == rest[m]);
            }
            assert(s.last() == s[s.len() - 1]);
            let g = f.push(s.last());
            assert forall|i: int, j: int| 0 <= i < j < g.len() implies (#[trigger] g[i].row_id()).unwrap()
                < (#[trigger] g[j].row_id()).unwrap() by {
                if j == g.len() - 1 {
                    assert(g[i] == f[i]);
                } else {
                    assert(g[i] == f[i] && g[j] == f[j]);
                }
            }
        }
    }
}

proof fn lemma_filter_step<A>(s: Seq<A>, p: spec_fn(A) -> bool, j: int)
    requires
        0 <= j < s.len(),
    ensures
        s.subrange(0, j + 1).filter(p) == if p(s[j]) {
            s.subrange(0, j).filter(p).push(s[j])
        } else {
            s.subrange(0, j).filter(p)
        },
{
    reveal(Seq::filter);
    assert(s.subrange(0, j + 1).drop_last() =~= s.subrange(0, j));
}

/// Keeps in `v` only the rows on which `f` holds.
pub(crate) fn keep_where<R, F: Fn(&R) -> bool>(v: &mut Vec<R>, f: F, Ghost(p): Ghost<spec_fn(R) -> bool>)
    requires
        forall|x: &R| #[trigger] f.requires((x,)),
        forall|x: &R, b: bool| f.ensures((x,), b) ==> b == p(*x),
    ensures
        final(v)@ == old(v)@.filter(p),
{
    let ghost orig = v@;
    let ghost np = p;
    let ghost n = orig.len() as int;
    let mut i: usize = 0;
    let ghost mut j: int = 0;
    assert(orig.subrange(0, 0).filter(np) =~= Seq::<R>::empty()) by {
        reveal(Seq::filter);
    }
    assert(orig.subrange(0, n) =~= orig);
    while i < v.len()
        invariant
            forall|x: &R| #[trigger] f.requires((x,)),
            forall|x: &R, b: bool| f.ensures((x,), b) ==> b == p(*x),
            np == p,
            n == orig.len(),
            0 <= j <= n,
            i == orig.subrange(0, j).filter(np).len(),
            v@ == orig.subrange(0, j).filter(np) + orig.subrange(j, n),
        decreases v@.len() - i,
    {
        proof {
            lemma_filter_step(orig, np, j);
            assert(v@[i as int] == orig[j]);
        }
        if f(&v[i]) {
            i = i + 1;
            proof {
                assert(v@ =~= orig.subrange(0, j + 1).filter(np) + orig.subrange(j + 1, n));
            }
        } else {
            v.remove(i);
            proof {
                assert(v@ =~= orig.subrange(0, j + 1).filter(np) + orig.subrange(j + 1, n));
            }
        }
        proof {
            j = j + 1;
        }
    }
    proof {
        assert(orig.subrange(j, n) =~= Seq::<R>::empty());
        assert(v@ =~= orig.filter(np));
    }
}

/// A row with id `id` that passes `p` is still there after filtering by `p`.
pub proof fn lemma_filter_has_id<R: Row>(s: Seq<R>, p: spec_fn(R) -> bool, id: i64, w: R)
    requires
        s.contains(w),
        w.row_id() == Some(id),
        p(w),
    ensures
        has_id(s.filter(p), id),
{
    lemma_filter_members(s, p);
    assert(s.filter(p).contains(w));
}

/// Every row but the one with id `id`.
pub open spec fn other_rows<R: Row>(id: i64) -> spec_fn(R) -> bool {
    |r: R| r.row_id() != Some(id)
}

/// Copies of the rows of `v` on which `f` holds, in table order.
pub(crate) fn copy_where<R: Row, F: Fn(&R) -> bool>(v: &Vec<R>, f: F, Ghost(p): Ghost<spec_fn(R) -> bool>) -> (r: Vec<R>)
    requires
        forall|x: &R| #[trigger] f.requires((x,)),
        forall|x: &R, b: bool| f.ensures((x,), b) ==> b == p(*x),
    ensures
        r@ == v@.filter(p),
{
    let mut r: Vec<R> = Vec::new();
    let mut i: usize = 0;
    assert(v@.subrange(0, 0).filter(p) =~= Seq::<R>::empty()) by {
        reveal(Seq::filter);
    }
    while i < v.len()
        invariant
            forall|x: &R| #[trigger] f.requires((x,)),
            forall|x: &R, b: bool| f.ensures((x,), b) ==> b == p(*x),
            i <= v@.len(),
            r@ == v@.subrange(0, i as int).filter(p),
        decreases v@.len() - i,
    {
        proof {
            lemma_filter_step(v@, p, i as int);
        }
        if f(&v[i]) {
            r.push(v[i].duplicate());
        }
        i = i + 1;
    }
    assert(v@.subrange(0, v@.len() as int) =~= v@);
    r
}

/// Copies of all rows of `v`, in table order.
pub fn copy_all<R: Row>(v: &Vec<R>) -> (r: Vec<R>)
    ensures
        r@ == v@,
{
    let mut r: Vec<R> = Vec::new();
    let mut i: usize = 0;
    while i < v.len()
        invariant
            i <= v@.len(),
            r@ == v@.subrange(0, i as int),
        decreases v@.len() - i,
    {
        r.push(v[i].duplicate());
        proof {
            assert(r@ =~= v@.subrange(0, i as int + 1));
        }
        i = i + 1;
    }
    assert(v@.subrange(0, v@.len() as int) =~= v@);
    r
}

/// The position of the row with id `id` (the one such row, where ids rise).
pub open spec fn row_index<R: Row>(s: Seq<R>, id: i64) -> int {
    choose|k: int| 0 <= k < s.len() && s[k].row_id() == Some(id)
}

/// Where ids rise, a row found by id sits at `row_index`.
pub proof fn lemma_row_index<R: Row>(s: Seq<R>, next: i64, id: i64, k: int)
    requires
        ids_rise(s, next),
        0 <= k < s.len(),
        s[k].row_id() == Some(id),
    ensures
        row_index(s, id) == k,
{
    let j = row_index(s, id);
    if j < k {
        assert(s[j].row_id().unwrap() < s[k].row_id().unwrap());
    } else if k < j {
        assert(s[k].row_id().unwrap() < s[j].row_id().unwrap());
    }
}

/// Replacing a row by one with the same id keeps the ids and their order.
pub proof fn lemma_update_same_id<R: Row>(s: Seq<R>, next: i64, k: int, x: R)
    requires
        ids_rise(s, next),
        0 <= k < s.len(),
        x.row_id() == s[k].row_id(),
    ensures
        ids_rise(s.update(k, x), next),
        forall|id: i64| #[trigger] has_id(s.update(k, x), id) == has_id(s, id),
        forall|y: R| #[trigger] s.update(k, x).contains(y) ==> y == x || s.contains(y),
{
    let t = s.update(k, x);
    assert forall|i: int| 0 <= i < t.len() implies (#[trigger] t[i].row_id()).is_some() && 0
        < t[i].row_id().unwrap() < next by {
        assert(s[i].row_id().is_some());
    }
    assert forall|i: int, j: int| 0 <= i < j < t.len() implies (#[trigger] t[i].row_id()).unwrap()
        < (#[trigger] t[j].row_id()).unwrap() by {
        assert(s[i].row_id().unwrap() < s[j].row_id().unwrap());
    }
    assert forall|y: R| #[trigger] t.contains(y) implies y == x || s.contains(y) by {
        let m = choose|m: int| 0 <= m < t.len() && t[m] == y;
        if m != k {
            assert(s[m] == y);
        }
    }
    assert forall|id: i64| #[trigger] has_id(t, id) == has_id(s, id) by {
        if has_id(s, id) {
            let w = choose|w: R| #[trigger] s.contains(w) && w.row_id() == Some(id);
            let m = choose|m: int| 0 <= m < s.len() && s[m] == w;
            if m == k {
                assert(t.contains(t[k]));
            } else {
                assert(t.contains(t[m]));
            }
        }
        if has_id(t, id) {
            let w = choose|w: R| #[trigger] t.contains(w) && w.row_id() == Some(id);
            if w == x {
                assert(s.contains(s[k]));
            }
        }
    }
}

/// The position of the row with id `id`, if there is one.
pub fn find_row<R: Row>(v: &Vec<R>, id: i64) -> (r: Option<usize>)
    ensures
        match r {
            Some(k) => k < v@.len() && v@[k as int].row_id() == Some(id) && has_id(v@, id),
            None => !has_id(v@, id),
        },
{
    let mut i: usize = 0;
    while i < v.len()
        invariant
            i <= v@.len(),
            forall|k: int| 0 <= k < i ==> v@[k].row_id() != Some(id),
        decreases v@.len() - i,
    {
        if v[i].id() == Some(id) {
            assert(v@.contains(v@[i as int]));
            return Some(i);
        }
        i = i + 1;
    }
    None
}

} // verus!
