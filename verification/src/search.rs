//! Finding text: the first occurrence of a query at or after a position.
use vstd::prelude::*;

verus! {

/// `q` occurs in `t` at position `p`.
pub open spec fn occurs_at(t: Seq<char>, q: Seq<char>, p: int) -> bool {
    0 <= p && p + q.len() <= t.len() && t.subrange(p, p + q.len()) == q
}

/// `p` is the first position at or after `from` where `q` occurs in `t`.
pub open spec fn is_first_match(t: Seq<char>, q: Seq<char>, from: int, p: int) -> bool {
    &&& from <= p
    &&& occurs_at(t, q, p)
    &&& forall|r: int| from <= r < p ==> !occurs_at(t, q, r)
}

/// `q` occurs in `t` somewhere at or after `from`.
pub open spec fn occurs_from(t: Seq<char>, q: Seq<char>, from: int) -> bool {
    exists|p: int| from <= p && occurs_at(t, q, p)
}

/// Whether `q` occurs in `t` at position `p`.
pub fn matches_at(t: &Vec<char>, q: &Vec<char>, p: usize) -> (b: bool)
    ensures
        b == occurs_at(t@, q@, p as int),
{
    if p > t.len() || q.len() > t.len() - p {
        return false;
    }
    let mut k: usize = 0;
    while k < q.len()
        invariant
            k <= q.len(),
            p + q.len() <= t.len(),
            forall|j: int| 0 <= j < k ==> t@[p + j] == q@[j],
        decreases q.len() - k,
    {
        if t[p + k] != q[k] {
            assert(t@.subrange(p as int, p + q.len())[k as int] != q@[k as int]);
            return false;
        }
        k += 1;
    }
    assert(t@.subrange(p as int, p + q.len()) =~= q@);
    true
}

/// The first position at or after `from` where `q` occurs in `t`.
pub fn find_from(t: &Vec<char>, q: &Vec<char>, from: usize) -> (r: Option<usize>)
    ensures
        r matches Some(p) ==> is_first_match(t@, q@, from as int, p as int),
        r is None ==> !occurs_from(t@, q@, from as int),
{
    if q.len() > t.len() {
        return None;
    }
    let last = t.len() - q.len();
    let mut p = from;
    while p <= last
        invariant
            from <= p,
            last == t.len() - q.len(),
            forall|r: int| from <= r < p ==> !occurs_at(t@, q@, r),
        decreases last - p,
    {
        if matches_at(t, q, p) {
            return Some(p);
        }
        if p == last {
            return None;
        }
        p += 1;
    }
    None
}

} // verus!
