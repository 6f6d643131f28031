//! Merge sort of (key, index) pairs by key.
use vstd::multiset::Multiset;
use vstd::prelude::*;

verus! {

/// The pairs are in non-decreasing order of their keys.
pub open spec fn sorted_by_key(s: Seq<(u64, usize)>) -> bool {
    forall|i: int, j: int| 0 <= i <= j < s.len() ==> s[i].0 <= s[j].0
}

/// `x` comes before `y` by key, and by index between equal keys.
pub open spec fn pair_lt(x: (u64, usize), y: (u64, usize)) -> bool {
    x.0 < y.0 || (x.0 == y.0 && x.1 < y.1)
}

/// The pairs strictly ascend by key, and by index between equal keys.
pub open spec fn lex_sorted(s: Seq<(u64, usize)>) -> bool {
    forall|i: int, j: int| 0 <= i < j < s.len() ==> pair_lt(s[i], s[j])
}

/// The indices of the pairs strictly ascend.
pub open spec fn index_ascending(s: Seq<(u64, usize)>) -> bool {
    forall|i: int, j: int| 0 <= i < j < s.len() ==> s[i].1 < s[j].1
}

/// Every index in `a` is smaller than every index in `b`.
spec fn indices_before(a: Seq<(u64, usize)>, b: Seq<(u64, usize)>) -> bool {
    forall|x: (u64, usize), y: (u64, usize)| #[trigger] a.contains(x) && #[trigger] b.contains(y) ==> x.1 < y.1
}

proof fn lemma_push_lex(s: Seq<(u64, usize)>, e: (u64, usize))
    requires
        lex_sorted(s),
        s.len() > 0 ==> pair_lt(s.last(), e),
    ensures
        lex_sorted(s.push(e)),
{
    assert forall|i: int, j: int| 0 <= i < j < s.push(e).len() implies pair_lt(s.push(e)[i], s.push(e)[j]) by {
        if j == s.len() && i < s.len() - 1 {
            assert(pair_lt(s[i], s[s.len() - 1]));
        }
    }
}

proof fn lemma_mset_concat_push(x: Seq<(u64, usize)>, y: Seq<(u64, usize)>, e: (u64, usize))
    ensures
        (x.push(e) + y).to_multiset() =~= (x + y).to_multiset().insert(e),
        (x + y.push(e)).to_multiset() =~= (x + y).to_multiset().insert(e),
{
    broadcast use vstd::seq_lib::group_to_multiset_ensures;

    vstd::seq_lib::lemma_multiset_commutative(x.push(e), y);
    vstd::seq_lib::lemma_multiset_commutative(x, y);
    vstd::seq_lib::lemma_multiset_commutative(x, y.push(e));
}

fn merge(a: &Vec<(u64, usize)>, b: &Vec<(u64, usize)>) -> (out: Vec<(u64, usize)>)
    requires
        sorted_by_key(a@),
        sorted_by_key(b@),
    ensures
        sorted_by_key(out@),
        out@.to_multiset() == (a@ + b@).to_multiset(),
        lex_sorted(a@) && lex_sorted(b@) && indices_before(a@, b@) ==> lex_sorted(out@),
{
    broadcast use vstd::seq_lib::group_to_multiset_ensures;

    let ghost stable = lex_sorted(a@) && lex_sorted(b@) && indices_before(a@, b@);

    let mut out: Vec<(u64, usize)> = Vec::new();
    let mut i: usize = 0;
    let mut j: usize = 0;
    assert(a@.take(0) + b@.take(0) =~= Seq::<(u64, usize)>::empty());
    while i < a.len() || j < b.len()
        invariant
            sorted_by_key(a@),
            sorted_by_key(b@),
            i <= a@.len(),
            j <= b@.len(),
            sorted_by_key(out@),
            out@.len() == i + j,
            out@.to_multiset() == (a@.take(i as int) + b@.take(j as int)).to_multiset(),
            out@.len() > 0 && i < a@.len() ==> out@.last().0 <= a@[i as int].0,
            out@.len() > 0 && j < b@.len() ==> out@.last().0 <= b@[j as int].0,
            stable == (lex_sorted(a@) && lex_sorted(b@) && indices_before(a@, b@)),
            stable ==> lex_sorted(out@),
            stable && out@.len() > 0 && i < a@.len() ==> pair_lt(out@.last(), a@[i as int]),
            stable && out@.len() > 0 && j < b@.len() ==> pair_lt(out@.last(), b@[j as int]),
        decreases a@.len() + b@.len() - i - j,
    {
        let take_a = j >= b.len() || (i < a.len() && a[i].0 <= b[j].0);
        if take_a {
            let e = a[i];
            proof {
                assert(a@.take(i + 1) =~= a@.take(i as int).push(e));
                lemma_mset_concat_push(a@.take(i as int), b@.take(j as int), e);
            }
            let ghost old_out = out@;
            out.push(e);
            assert(out@ == old_out.push(e));
            proof {
                vstd::seq_lib::to_multiset_build(old_out, e);
                if stable {
                    lemma_push_lex(old_out, e);
                    assert(a@.contains(a@[i as int]));
                    if j < b.len() {
                        assert(b@.contains(b@[j as int]));
                    }
                }
            }
            i += 1;
        } else {
            let e = b[j];
            proof {
                assert(b@.take(j + 1) =~= b@.take(j as int).push(e));
                lemma_mset_concat_push(a@.take(i as int), b@.take(j as int), e);
            }
            let ghost old_out = out@;
            out.push(e);
            assert(out@ == old_out.push(e));
            proof {
                vstd::seq_lib::to_multiset_build(old_out, e);
                if stable {
                    lemma_push_lex(old_out, e);
                }
            }
            j += 1;
        }
    }
    assert(a@.take(i as int) =~= a@);
    assert(b@.take(j as int) =~= b@);
    out
}

fn copy_range(v: &[(u64, usize)], lo: usize, hi: usize) -> (out: Vec<(u64, usize)>)
    requires
        lo <= hi <= v@.len(),
    ensures
        out@ == v@.subrange(lo as int, hi as int),
{
    let mut out: Vec<(u64, usize)> = Vec::new();
    let mut k = lo;
    while k < hi
        invariant
            lo <= k <= hi,
            hi <= v@.len(),
            out@ == v@.subrange(lo as int, k as int),
        decreases hi - k,
    {
        out.push(v[k]);
        k += 1;
    }
    out
}

/// The pairs of `v` in non-decreasing order of their keys. The sort is
/// stable: pairs with equal keys keep their order, so pairs given in
/// ascending order of index come out ascending by key, then index.
pub fn sort_by_key(v: &[(u64, usize)]) -> (out: Vec<(u64, usize)>)
    ensures
        sorted_by_key(out@),
        out@.to_multiset() == v@.to_multiset(),
        index_ascending(v@) ==> lex_sorted(out@),
    decreases v@.len(),
{
    let n = v.len();
    if n <= 1 {
        let out = copy_range(v, 0, n);
        assert(out@ =~= v@);
        return out;
    }
    let mid = n / 2;
    let left = copy_range(v, 0, mid);
    let right = copy_range(v, mid, n);
    let ls = sort_by_key(&left);
    let rs = sort_by_key(&right);
    proof {
        if index_ascending(v@) {
            broadcast use vstd::seq_lib::group_to_multiset_ensures;

            assert forall|x: (u64, usize), y: (u64, usize)| #[trigger] ls@.contains(x) && #[trigger] rs@.contains(y) implies x.1 < y.1 by {
                assert(ls@.to_multiset().count(x) > 0);
                assert(left@.contains(x));
                assert(rs@.to_multiset().count(y) > 0);
                assert(right@.contains(y));
                let k1 = choose|k: int| 0 <= k < left@.len() && left@[k] == x;
                let k2 = choose|k: int| 0 <= k < right@.len() && right@[k] == y;
                assert(v@[k1] == x);
                assert(v@[mid + k2] == y);
            }
        }
    }
    let out = merge(&ls, &rs);
    proof {
        assert(v@ =~= left@ + right@);
        vstd::seq_lib::lemma_multiset_commutative(left@, right@);
        vstd::seq_lib::lemma_multiset_commutative(ls@, rs@);
    }
    out
}

} // verus!
