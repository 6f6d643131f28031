//! Left folds over the actions of a commit log, and integer arithmetic that
//! wraps around as the counters of the log analyses do.
use crate::engine::model::action::Action;
use crate::engine::reader::CommitEntry;
use vstd::prelude::*;

verus! {

/// Folds `f` over `acts`, all belonging to the commit of version `v`.
pub open spec fn fold_acts<S>(init: S, v: u64, acts: Seq<Action>, f: spec_fn(S, u64, Action) -> S) -> S
    decreases acts.len(),
{
    if acts.len() == 0 {
        init
    } else {
        f(fold_acts(init, v, acts.drop_last(), f), v, acts.last())
    }
}

/// Folds `f` over every action of every commit of `es`, in log order.
pub open spec fn fold_log<S>(init: S, es: Seq<CommitEntry>, f: spec_fn(S, u64, Action) -> S) -> S
    decreases es.len(),
{
    if es.len() == 0 {
        init
    } else {
        fold_acts(fold_log(init, es.drop_last(), f), es.last().version, es.last().actions@, f)
    }
}

/// One more commit of the log.
pub proof fn lemma_fold_log_step<S>(init: S, es: Seq<CommitEntry>, i: int, f: spec_fn(S, u64, Action) -> S)
    requires
        0 <= i < es.len(),
    ensures
        fold_log(init, es.take(i + 1), f) == fold_acts(
            fold_log(init, es.take(i), f),
            es[i].version,
            es[i].actions@,
            f,
        ),
{
    assert(es.take(i + 1).drop_last() =~= es.take(i));
}

/// One more action of a commit.
pub proof fn lemma_fold_acts_step<S>(init: S, v: u64, acts: Seq<Action>, j: int, f: spec_fn(S, u64, Action) -> S)
    requires
        0 <= j < acts.len(),
    ensures
        fold_acts(init, v, acts.take(j + 1), f) == f(fold_acts(init, v, acts.take(j), f), v, acts[j]),
{
    assert(acts.take(j + 1).drop_last() =~= acts.take(j));
}

/// The whole log and the whole commit.
pub proof fn lemma_take_all<A>(s: Seq<A>)
    ensures
        s.take(s.len() as int) == s,
{
    assert(s.take(s.len() as int) =~= s);
}

/// `x` reduced into the range of `i64` modulo 2^64, as two's-complement
/// addition leaves it.
pub open spec fn wrap_i64(x: int) -> i64 {
    let r = x % 0x1_0000_0000_0000_0000;
    if r > i64::MAX {
        (r - 0x1_0000_0000_0000_0000) as i64
    } else {
        r as i64
    }
}

/// `x` reduced into the range of `usize` modulo its size.
pub open spec fn wrap_usize(x: int) -> usize {
    (x % (usize::MAX as int + 1)) as usize
}

/// Adding to a wrapped total wraps the sum.
pub proof fn lemma_wrap_i64_add(a: int, b: i64)
    ensures
        wrap_i64(a + b) == vstd::wrapping::i64_specs::wrapping_add(wrap_i64(a), b),
{
    let m: int = 0x1_0000_0000_0000_0000;
    let w = wrap_i64(a);
    vstd::arithmetic::div_mod::lemma_fundamental_div_mod(a, m);
    vstd::arithmetic::div_mod::lemma_fundamental_div_mod(a + b, m);
    vstd::arithmetic::div_mod::lemma_mod_bound(a, m);
    vstd::arithmetic::div_mod::lemma_mod_bound(a + b, m);
    let q1 = a / m;
    let q2 = (a + b) / m;
    assert(w == a - m * q1 || w == a - m * q1 - m);
    assert((a + b) % m == a + b - m * q2);
    assert(-0x8000_0000_0000_0000 <= b < 0x8000_0000_0000_0000);
    // a + b - m*q2 and w + b differ by a multiple of m; both are pinned to a window of width m.
    let y = vstd::wrapping::i64_specs::wrapping_add(w, b);
    assert(i64::MIN <= y <= i64::MAX);
    assert(wrap_i64(a + b) as int - y as int == m * (q1 - q2) || wrap_i64(a + b) as int - y as int
        == m * (q1 - q2) + m || wrap_i64(a + b) as int - y as int == m * (q1 - q2) - m
        || wrap_i64(a + b) as int - y as int == m * (q1 - q2) + 2 * m || wrap_i64(a + b) as int
        - y as int == m * (q1 - q2) - 2 * m);
    let d = wrap_i64(a + b) as int - y as int;
    assert(-m < d < m);
    assert(d == 0) by (nonlinear_arith)
        requires
            -m < d < m,
            d == m * (q1 - q2) || d == m * (q1 - q2) + m || d == m * (q1 - q2) - m || d == m * (
            q1 - q2) + 2 * m || d == m * (q1 - q2) - 2 * m,
            m == 0x1_0000_0000_0000_0000,
    ;
}

/// Adding one to a wrapped count wraps the incremented count.
pub proof fn lemma_wrap_usize_inc(a: int)
    requires
        a >= 0,
    ensures
        wrap_usize(a + 1) == vstd::wrapping::usize_specs::wrapping_add(wrap_usize(a), 1),
{
    let m: int = usize::MAX as int + 1;
    vstd::arithmetic::div_mod::lemma_fundamental_div_mod(a, m);
    vstd::arithmetic::div_mod::lemma_fundamental_div_mod(a + 1, m);
    vstd::arithmetic::div_mod::lemma_mod_bound(a, m);
    vstd::arithmetic::div_mod::lemma_mod_bound(a + 1, m);
    let q1 = a / m;
    let q2 = (a + 1) / m;
    let r1 = a % m;
    let r2 = (a + 1) % m;
    assert(r2 - r1 == 1 + m * (q1 - q2));
    if r1 == m - 1 {
        assert(r2 == 0) by (nonlinear_arith)
            requires
                r2 - r1 == 1 + m * (q1 - q2),
                r1 == m - 1,
                0 <= r2 < m,
                m > 0,
        ;
    } else {
        assert(r2 == r1 + 1) by (nonlinear_arith)
            requires
                r2 - r1 == 1 + m * (q1 - q2),
                0 <= r1 < m - 1,
                0 <= r2 < m,
                m > 0,
        ;
    }
}

/// A value already in range is its own wrap.
pub proof fn lemma_wrap_i64_small(x: int)
    requires
        i64::MIN <= x <= i64::MAX,
    ensures
        wrap_i64(x) == x,
{
    let m: int = 0x1_0000_0000_0000_0000;
    if x >= 0 {
        vstd::arithmetic::div_mod::lemma_small_mod(x as nat, m as nat);
    } else {
        vstd::arithmetic::div_mod::lemma_fundamental_div_mod(x, m);
        vstd::arithmetic::div_mod::lemma_mod_bound(x, m);
        let q = x / m;
        assert(x % m == x - m * q);
        assert(q == -1) by (nonlinear_arith)
            requires
                0 <= x - m * q < m,
                -0x8000_0000_0000_0000 <= x < 0,
                m == 0x1_0000_0000_0000_0000,
        ;
    }
}

/// A count already in range is its own wrap.
pub proof fn lemma_wrap_usize_small(x: int)
    requires
        0 <= x <= usize::MAX,
    ensures
        wrap_usize(x) == x,
{
    vstd::arithmetic::div_mod::lemma_small_mod(x as nat, (usize::MAX as int + 1) as nat);
}

} // verus!
