//! Partition keys: the partition values of a file rendered as
//! `col=value/col=value`, columns in ascending order of name.
use crate::text::{chars_of, opt_view, string_from_chars};
use vstd::prelude::*;

verus! {

/// `a` comes strictly before `b` in lexicographic order of code points (the
/// order of `str`, whose bytes are UTF-8).
pub open spec fn lex_lt(a: Seq<char>, b: Seq<char>) -> bool
    decreases a.len(),
{
    if a.len() == 0 {
        b.len() > 0
    } else if b.len() == 0 {
        false
    } else if a[0] != b[0] {
        (a[0] as int) < (b[0] as int)
    } else {
        lex_lt(a.drop_first(), b.drop_first())
    }
}

/// Whether `a` comes strictly before `b`.
pub fn lex_less(a: &[char], b: &[char]) -> (r: bool)
    ensures
        r == lex_lt(a@, b@),
{
    let mut i: usize = 0;
    assert(a@.skip(0) =~= a@ && b@.skip(0) =~= b@);
    loop
        invariant
            i <= a@.len(),
            i <= b@.len(),
            lex_lt(a@, b@) == lex_lt(a@.skip(i as int), b@.skip(i as int)),
        decreases a@.len() - i,
    {
        if i == a.len() {
            return i < b.len();
        }
        if i == b.len() {
            return false;
        }
        assert(a@.skip(i as int)[0] == a@[i as int] && b@.skip(i as int)[0] == b@[i as int]);
        if a[i] != b[i] {
            return a[i] < b[i];
        }
        assert(a@.skip(i as int).drop_first() =~= a@.skip(i + 1));
        assert(b@.skip(i as int).drop_first() =~= b@.skip(i + 1));
        i += 1;
    }
}

/// A partition value: column name and optional value.
pub open spec fn pv_view(p: (String, Option<String>)) -> (Seq<char>, Option<Seq<char>>) {
    (p.0@, opt_view(p.1))
}

/// Inserts `x` after every element whose name is not greater than its name.
pub open spec fn insert_by_name<V>(s: Seq<(Seq<char>, V)>, x: (Seq<char>, V)) -> Seq<(Seq<char>, V)>
    decreases s.len(),
{
    if s.len() == 0 {
        seq![x]
    } else if lex_lt(x.0, s.last().0) {
        insert_by_name(s.drop_last(), x).push(s.last())
    } else {
        s.push(x)
    }
}

/// `s` stably sorted by name (what `sort_by_key` on the names gives).
pub open spec fn sort_by_name<V>(s: Seq<(Seq<char>, V)>) -> Seq<(Seq<char>, V)>
    decreases s.len(),
{
    if s.len() == 0 {
        s
    } else {
        insert_by_name(sort_by_name(s.drop_last()), s.last())
    }
}

/// `name=value`, with `null` for a missing value.
pub open spec fn pv_piece(p: (Seq<char>, Option<Seq<char>>), null: Seq<char>) -> Seq<char> {
    p.0 + seq!['='] + match p.1 {
        Some(v) => v,
        None => null,
    }
}

/// The pieces joined with `/`.
pub open spec fn join_pieces(s: Seq<(Seq<char>, Option<Seq<char>>)>, null: Seq<char>) -> Seq<char>
    decreases s.len(),
{
    if s.len() == 0 {
        seq![]
    } else if s.len() == 1 {
        pv_piece(s[0], null)
    } else {
        join_pieces(s.drop_last(), null) + seq!['/'] + pv_piece(s.last(), null)
    }
}

/// The partition key of the partition values `pv`, with `null` standing for a
/// missing value.
pub open spec fn spec_partition_key(pv: Seq<(String, Option<String>)>, null: Seq<char>) -> Seq<char> {
    join_pieces(sort_by_name(pv_views(pv)), null)
}

/// The partition values `pv`, each as its name and optional value.
pub open spec fn pv_views(pv: Seq<(String, Option<String>)>) -> Seq<(Seq<char>, Option<Seq<char>>)> {
    pv.map_values(|p: (String, Option<String>)| pv_view(p))
}

/// No two partition values share a column name.
pub open spec fn distinct_names(s: Seq<(Seq<char>, Option<Seq<char>>)>) -> bool {
    forall|i: int, j: int| 0 <= i < j < s.len() ==> s[i].0 != s[j].0
}

/// The column names strictly ascend.
pub open spec fn names_ascending(s: Seq<(Seq<char>, Option<Seq<char>>)>) -> bool {
    forall|i: int, j: int| 0 <= i < j < s.len() ==> lex_lt(s[i].0, s[j].0)
}

proof fn lemma_lex_irreflexive(a: Seq<char>)
    ensures
        !lex_lt(a, a),
    decreases a.len(),
{
    if a.len() > 0 {
        lemma_lex_irreflexive(a.drop_first());
    }
}

proof fn lemma_lex_transitive(a: Seq<char>, b: Seq<char>, c: Seq<char>)
    requires
        lex_lt(a, b),
        lex_lt(b, c),
    ensures
        lex_lt(a, c),
    decreases a.len(),
{
    if a.len() > 0 && a[0] == b[0] && b[0] == c[0] {
        lemma_lex_transitive(a.drop_first(), b.drop_first(), c.drop_first());
    }
}

proof fn lemma_lex_total(a: Seq<char>, b: Seq<char>)
    requires
        a != b,
    ensures
        lex_lt(a, b) || lex_lt(b, a),
    decreases a.len(),
{
    if a.len() == 0 && b.len() == 0 {
        assert(a =~= b);
    } else if a.len() > 0 && b.len() > 0 && a[0] == b[0] {
        assert(a.drop_first() != b.drop_first()) by {
            if a.drop_first() == b.drop_first() {
                assert(a.len() == b.len()) by {
                    assert(a.drop_first().len() == b.drop_first().len());
                }
                assert(a =~= b) by {
                    assert forall|k: int| 0 <= k < a.len() implies a[k] == b[k] by {
                        if k > 0 {
                            assert(a[k] == a.drop_first()[k - 1]);
                            assert(b[k] == b.drop_first()[k - 1]);
                        }
                    }
                }
            }
        }
        lemma_lex_total(a.drop_first(), b.drop_first());
    }
}

proof fn lemma_push_contains(
    s: Seq<(Seq<char>, Option<Seq<char>>)>,
    v: (Seq<char>, Option<Seq<char>>),
    y: (Seq<char>, Option<Seq<char>>),
)
    ensures
        s.push(v).contains(y) <==> (s.contains(y) || y == v),
{
    if s.contains(y) {
        let i = choose|i: int| 0 <= i < s.len() && s[i] == y;
        assert(s.push(v)[i] == y);
    }
    if y == v {
        assert(s.push(v)[s.len() as int] == y);
    }
    if s.push(v).contains(y) {
        let i = choose|i: int| 0 <= i < s.len() + 1 && s.push(v)[i] == y;
        if i < s.len() {
            assert(s[i] == y);
        }
    }
}

proof fn lemma_insert_ascending(s: Seq<(Seq<char>, Option<Seq<char>>)>, x: (Seq<char>, Option<Seq<char>>))
    requires
        names_ascending(s),
        forall|k: int| 0 <= k < s.len() ==> s[k].0 != x.0,
    ensures
        names_ascending(insert_by_name(s, x)),
        forall|y: (Seq<char>, Option<Seq<char>>)|
            #[trigger] insert_by_name(s, x).contains(y) <==> (s.contains(y) || y == x),
    decreases s.len(),
{
    if s.len() == 0 {
        assert forall|y: (Seq<char>, Option<Seq<char>>)|
            insert_by_name(s, x).contains(y) <==> (s.contains(y) || y == x) by {
            lemma_push_contains(s, x, y);
            assert(s.push(x) =~= seq![x]);
        }
    } else if lex_lt(x.0, s.last().0) {
        let t = s.drop_last();
        let l = s.last();
        assert forall|k: int| 0 <= k < t.len() implies t[k].0 != x.0 by {
            assert(t[k] == s[k]);
        }
        assert forall|i: int, j: int| 0 <= i < j < t.len() implies lex_lt(t[i].0, t[j].0) by {
            assert(t[i] == s[i] && t[j] == s[j]);
        }
        lemma_insert_ascending(t, x);
        let r = insert_by_name(t, x);
        assert forall|i: int, j: int| 0 <= i < j < r.push(l).len() implies lex_lt(
            r.push(l)[i].0,
            r.push(l)[j].0,
        ) by {
            assert(r.push(l)[i] == r[i]);
            if j < r.len() {
                assert(r.push(l)[j] == r[j]);
            } else {
                assert(r.contains(r[i]));
                if r[i] != x {
                    assert(t.contains(r[i]));
                    let k = choose|k: int| 0 <= k < t.len() && t[k] == r[i];
                    assert(s[k] == t[k]);
                }
            }
        }
        assert forall|y: (Seq<char>, Option<Seq<char>>)|
            r.push(l).contains(y) <==> (s.contains(y) || y == x) by {
            lemma_push_contains(r, l, y);
            lemma_push_contains(t, l, y);
            assert(t.push(l) =~= s);
        }
    } else {
        let l = s.last();
        assert(l.0 != x.0);
        lemma_lex_total(x.0, l.0);
        assert forall|i: int, j: int| 0 <= i < j < s.push(x).len() implies lex_lt(
            s.push(x)[i].0,
            s.push(x)[j].0,
        ) by {
            assert(s.push(x)[i] == s[i]);
            if j < s.len() {
                assert(s.push(x)[j] == s[j]);
            } else if i < s.len() - 1 {
                lemma_lex_transitive(s[i].0, l.0, x.0);
            }
        }
        assert forall|y: (Seq<char>, Option<Seq<char>>)|
            s.push(x).contains(y) <==> (s.contains(y) || y == x) by {
            lemma_push_contains(s, x, y);
        }
    }
}

proof fn lemma_sort_ascending(s: Seq<(Seq<char>, Option<Seq<char>>)>)
    requires
        distinct_names(s),
    ensures
        names_ascending(sort_by_name(s)),
        forall|y: (Seq<char>, Option<Seq<char>>)| #[trigger] sort_by_name(s).contains(y) <==> s.contains(y),
    decreases s.len(),
{
    if s.len() > 0 {
        let t = s.drop_last();
        let l = s.last();
        assert forall|i: int, j: int| 0 <= i < j < t.len() implies t[i].0 != t[j].0 by {
            assert(t[i] == s[i] && t[j] == s[j]);
        }
        lemma_sort_ascending(t);
        let st = sort_by_name(t);
        assert forall|k: int| 0 <= k < st.len() implies st[k].0 != l.0 by {
            assert(st.contains(st[k]));
            assert(t.contains(st[k]));
            let m = choose|m: int| 0 <= m < t.len() && t[m] == st[k];
            assert(s[m] == t[m]);
        }
        lemma_insert_ascending(st, l);
        assert forall|y: (Seq<char>, Option<Seq<char>>)| sort_by_name(s).contains(y) <==> s.contains(y) by {
            lemma_push_contains(t, l, y);
            assert(t.push(l) =~= s);
        }
    }
}

proof fn lemma_ascending_unique(s: Seq<(Seq<char>, Option<Seq<char>>)>, t: Seq<(Seq<char>, Option<Seq<char>>)>)
    requires
        names_ascending(s),
        names_ascending(t),
        forall|y: (Seq<char>, Option<Seq<char>>)| s.contains(y) <==> t.contains(y),
    ensures
        s == t,
    decreases s.len(),
{
    if s.len() == 0 {
        if t.len() > 0 {
            assert(t.contains(t[0]));
        }
        assert(s =~= t);
    } else {
        assert(s.contains(s[0]));
        let k = choose|k: int| 0 <= k < t.len() && t[k] == s[0];
        assert(t.contains(t[0]));
        let m = choose|m: int| 0 <= m < s.len() && s[m] == t[0];
        if k > 0 {
            lemma_lex_irreflexive(s[0].0);
            if m > 0 {
                lemma_lex_transitive(s[0].0, s[m].0, s[0].0);
            }
        }
        assert(s[0] == t[0]);
        let s1 = s.drop_first();
        let t1 = t.drop_first();
        assert forall|i: int, j: int| 0 <= i < j < s1.len() implies lex_lt(s1[i].0, s1[j].0) by {
            assert(s1[i] == s[i + 1] && s1[j] == s[j + 1]);
        }
        assert forall|i: int, j: int| 0 <= i < j < t1.len() implies lex_lt(t1[i].0, t1[j].0) by {
            assert(t1[i] == t[i + 1] && t1[j] == t[j + 1]);
        }
        assert forall|y: (Seq<char>, Option<Seq<char>>)| s1.contains(y) implies t1.contains(y) by {
            let i = choose|i: int| 0 <= i < s1.len() && s1[i] == y;
            assert(s[i + 1] == y);
            assert(s.contains(y));
            let j = choose|j: int| 0 <= j < t.len() && t[j] == y;
            if j == 0 {
                lemma_lex_irreflexive(y.0);
            } else {
                assert(t1[j - 1] == y);
            }
        }
        assert forall|y: (Seq<char>, Option<Seq<char>>)| t1.contains(y) implies s1.contains(y) by {
            let j = choose|j: int| 0 <= j < t1.len() && t1[j] == y;
            assert(t[j + 1] == y);
            assert(t.contains(y));
            let i = choose|i: int| 0 <= i < s.len() && s[i] == y;
            if i == 0 {
                lemma_lex_irreflexive(y.0);
            } else {
                assert(s1[i - 1] == y);
            }
        }
        lemma_ascending_unique(s1, t1);
        assert forall|i: int| 0 <= i < s.len() implies s[i] == t[i] by {
            if i > 0 {
                assert(s[i] == s1[i - 1] && t[i] == t1[i - 1]);
            }
        }
        assert(s =~= t);
    }
}

/// A partition key does not depend on the order in which the partition values
/// come: two lists of the same (column, value) pairs, each naming a column at
/// most once, give the same key.
pub proof fn lemma_partition_key_order_free(
    a: Seq<(String, Option<String>)>,
    b: Seq<(String, Option<String>)>,
    null: Seq<char>,
)
    requires
        distinct_names(pv_views(a)),
        distinct_names(pv_views(b)),
        pv_views(a).to_set() == pv_views(b).to_set(),
    ensures
        spec_partition_key(a, null) == spec_partition_key(b, null),
{
    let va = pv_views(a);
    let vb = pv_views(b);
    lemma_sort_ascending(va);
    lemma_sort_ascending(vb);
    assert forall|y: (Seq<char>, Option<Seq<char>>)| sort_by_name(va).contains(y) <==> sort_by_name(vb).contains(y) by {
        assert(va.to_set().contains(y) == va.contains(y));
        assert(vb.to_set().contains(y) == vb.contains(y));
    }
    lemma_ascending_unique(sort_by_name(va), sort_by_name(vb));
}

/// Character-vector form of a partition value.
pub open spec fn cv_view(p: (Vec<char>, Option<Vec<char>>)) -> (Seq<char>, Option<Seq<char>>) {
    (
        p.0@,
        match p.1 {
            Some(v) => Some(v@),
            None => None,
        },
    )
}

/// Inserting by name into a list places the new element at the first
/// position from which on every name is greater.
pub proof fn lemma_insert_at<V>(s: Seq<(Seq<char>, V)>, x: (Seq<char>, V), pos: int)
    requires
        0 <= pos <= s.len(),
        forall|k: int| pos <= k < s.len() ==> lex_lt(x.0, #[trigger] s[k].0),
        pos == 0 || !lex_lt(x.0, s[pos - 1].0),
    ensures
        insert_by_name(s, x) == s.take(pos) + seq![x] + s.skip(pos),
    decreases s.len(),
{
    if s.len() == 0 {
        assert(s.take(pos) + seq![x] + s.skip(pos) =~= seq![x]);
    } else if pos == s.len() {
        assert(s.take(pos) + seq![x] + s.skip(pos) =~= s.push(x));
    } else {
        let t = s.drop_last();
        assert(lex_lt(x.0, s[s.len() - 1].0));
        assert forall|k: int| pos <= k < t.len() implies lex_lt(x.0, #[trigger] t[k].0) by {
            assert(t[k] == s[k]);
        }
        if pos > 0 {
            assert(t[pos - 1] == s[pos - 1]);
        }
        lemma_insert_at(t, x, pos);
        assert((t.take(pos) + seq![x] + t.skip(pos)).push(s.last()) =~= s.take(pos) + seq![x]
            + s.skip(pos));
    }
}

fn to_cv(p: &(String, Option<String>)) -> (r: (Vec<char>, Option<Vec<char>>))
    ensures
        cv_view(r) == pv_view(*p),
{
    let v = match &p.1 {
        Some(s) => Some(chars_of(s.as_str())),
        None => None,
    };
    (chars_of(p.0.as_str()), v)
}

fn append_chars(out: &mut Vec<char>, s: &[char])
    ensures
        final(out)@ == old(out)@ + s@,
{
    let mut i: usize = 0;
    while i < s.len()
        invariant
            i <= s@.len(),
            out@ == old(out)@ + s@.take(i as int),
        decreases s@.len() - i,
    {
        out.push(s[i]);
        assert(s@.take(i + 1) =~= s@.take(i as int).push(s@[i as int]));
        i += 1;
    }
    assert(s@.take(i as int) =~= s@);
}

/// Renders the partition key of `pv`, with `null` standing for a missing value.
pub fn render_partition_key(pv: &Vec<(String, Option<String>)>, null: &str) -> (key: String)
    ensures
        key@ == spec_partition_key(pv@, null@),
{
    let ghost pvv = pv_views(pv@);
    let mut sorted: Vec<(Vec<char>, Option<Vec<char>>)> = Vec::new();
    let mut i: usize = 0;
    while i < pv.len()
        invariant
            i <= pv@.len(),
            pvv == pv_views(pv@),
            sorted@.map_values(|c: (Vec<char>, Option<Vec<char>>)| cv_view(c)) == sort_by_name(pvv.take(i as int)),
        decreases pv@.len() - i,
    {
        let x = to_cv(&pv[i]);
        let ghost sv = sorted@.map_values(|c: (Vec<char>, Option<Vec<char>>)| cv_view(c));
        let mut p = sorted.len();
        while p > 0 && lex_less(&x.0, &sorted[p - 1].0)
            invariant
                p <= sorted@.len(),
                sv == sorted@.map_values(|c: (Vec<char>, Option<Vec<char>>)| cv_view(c)),
                forall|k: int| p <= k < sv.len() ==> lex_lt(x.0@, #[trigger] sv[k].0),
            decreases p,
        {
            p -= 1;
        }
        proof {
            lemma_insert_at(sv, cv_view(x), p as int);
            assert(pvv.take(i + 1).drop_last() =~= pvv.take(i as int));
            assert(pvv[i as int] == cv_view(x));
        }
        sorted.insert(p, x);
        assert(sorted@.map_values(|c: (Vec<char>, Option<Vec<char>>)| cv_view(c)) =~= sv.take(p as int)
            + seq![cv_view(x)] + sv.skip(p as int));
        i += 1;
    }
    assert(pvv.take(i as int) =~= pvv);
    let ghost sv = sorted@.map_values(|c: (Vec<char>, Option<Vec<char>>)| cv_view(c));
    let nullc = chars_of(null);
    let mut out: Vec<char> = Vec::new();
    let mut j: usize = 0;
    while j < sorted.len()
        invariant
            j <= sorted@.len(),
            sv == sorted@.map_values(|c: (Vec<char>, Option<Vec<char>>)| cv_view(c)),
            nullc@ == null@,
            out@ == join_pieces(sv.take(j as int), null@),
        decreases sorted@.len() - j,
    {
        let ghost before = out@;
        if j > 0 {
            out.push('/');
        }
        append_chars(&mut out, &sorted[j].0);
        out.push('=');
        match &sorted[j].1 {
            Some(v) => append_chars(&mut out, v),
            None => append_chars(&mut out, &nullc),
        }
        proof {
            let t = sv.take(j + 1);
            assert(t.drop_last() =~= sv.take(j as int));
            assert(t.last() == sv[j as int]);
            if j == 0 {
                assert(out@ =~= pv_piece(sv[0], null@));
            } else {
                assert(out@ =~= before + seq!['/'] + pv_piece(sv[j as int], null@));
            }
        }
        j += 1;
    }
    assert(sv.take(j as int) =~= sv);
    string_from_chars(&out)
}

} // verus!
