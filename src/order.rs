use vstd::prelude::*;

use crate::text::chars_of;

verus! {

broadcast use vstd::seq_lib::group_to_multiset_ensures;

/// Lexicographic order of names by character code, the order of `String`'s `Ord`.
pub open spec fn name_le(a: Seq<char>, b: Seq<char>) -> bool
    decreases a.len(),
{
    if a.len() == 0 {
        true
    } else if b.len() == 0 {
        false
    } else if a[0] != b[0] {
        (a[0] as int) < (b[0] as int)
    } else {
        name_le(a.drop_first(), b.drop_first())
    }
}

pub proof fn lemma_name_le_total(a: Seq<char>, b: Seq<char>)
    ensures
        name_le(a, b) || name_le(b, a),
    decreases a.len(),
{
    if a.len() > 0 && b.len() > 0 && a[0] == b[0] {
        lemma_name_le_total(a.drop_first(), b.drop_first());
    }
}

pub proof fn lemma_name_le_refl(a: Seq<char>)
    ensures
        name_le(a, a),
    decreases a.len(),
{
    if a.len() > 0 {
        lemma_name_le_refl(a.drop_first());
    }
}

pub proof fn lemma_name_le_trans(a: Seq<char>, b: Seq<char>, c: Seq<char>)
    requires
        name_le(a, b),
        name_le(b, c),
    ensures
        name_le(a, c),
    decreases a.len(),
{
    if a.len() > 0 && b.len() > 0 && c.len() > 0 && a[0] == b[0] && b[0] == c[0] {
        lemma_name_le_trans(a.drop_first(), b.drop_first(), c.drop_first());
    }
}

pub proof fn lemma_name_le_antisym(a: Seq<char>, b: Seq<char>)
    requires
        name_le(a, b),
        name_le(b, a),
    ensures
        a == b,
    decreases a.len(),
{
    if a.len() > 0 && b.len() > 0 {
        lemma_name_le_antisym(a.drop_first(), b.drop_first());
        assert(a =~= seq![a[0]] + a.drop_first());
        assert(b =~= seq![b[0]] + b.drop_first());
    } else {
        assert(a =~= b);
    }
}

/// A value that carries a name, by which it is ordered.
pub trait Named: Sized {
    spec fn name_of(&self) -> Seq<char>;

    fn name(&self) -> (r: &String)
        ensures
            r@ == self.name_of(),
    ;

    fn copy_of(&self) -> (r: Self)
        ensures
            r == *self,
    ;
}

/// `s` is in order of names.
pub open spec fn sorted<A: Named>(s: Seq<A>) -> bool {
    forall|i: int, j: int| 0 <= i < j < s.len() ==> name_le(#[trigger] s[i].name_of(), #[trigger] s[j].name_of())
}

/// Equal names mean equal values: no two different values of `s` share a name.
pub open spec fn names_distinct<A: Named>(s: Seq<A>) -> bool {
    forall|i: int, j: int|
        0 <= i < s.len() && 0 <= j < s.len() && (#[trigger] s[i]).name_of() == (#[trigger] s[j]).name_of()
            ==> s[i] == s[j]
}

/// Where `x` goes into `s`: after every value whose name is at most its own.
pub open spec fn insert_pos<A: Named>(s: Seq<A>, x: A) -> int
    decreases s.len(),
{
    if s.len() == 0 {
        0
    } else if name_le(s[0].name_of(), x.name_of()) {
        1 + insert_pos(s.drop_first(), x)
    } else {
        0
    }
}

/// `s` sorted by name, each value inserted after those with names at most
/// its own, so equal names keep their order.
pub open spec fn sort_by_name<A: Named>(s: Seq<A>) -> Seq<A>
    decreases s.len(),
{
    if s.len() == 0 {
        s
    } else {
        let t = sort_by_name(s.drop_last());
        t.insert(insert_pos(t, s.last()), s.last())
    }
}

proof fn lemma_insert_pos<A: Named>(s: Seq<A>, x: A)
    ensures
        0 <= insert_pos(s, x) <= s.len(),
        forall|k: int| 0 <= k < insert_pos(s, x) ==> name_le(#[trigger] s[k].name_of(), x.name_of()),
        insert_pos(s, x) < s.len() ==> !name_le(s[insert_pos(s, x)].name_of(), x.name_of()),
    decreases s.len(),
{
    if s.len() > 0 && name_le(s[0].name_of(), x.name_of()) {
        let t = s.drop_first();
        lemma_insert_pos(t, x);
        assert forall|k: int| 0 <= k < insert_pos(s, x) implies name_le(#[trigger] s[k].name_of(), x.name_of()) by {
            if k > 0 {
                assert(s[k] == t[k - 1]);
            }
        }
        if insert_pos(s, x) < s.len() {
            assert(s[insert_pos(s, x)] == t[insert_pos(t, x)]);
        }
    }
}

proof fn lemma_insert_pos_at<A: Named>(s: Seq<A>, x: A, p: int)
    requires
        0 <= p <= s.len(),
        forall|k: int| 0 <= k < p ==> name_le(#[trigger] s[k].name_of(), x.name_of()),
        p < s.len() ==> !name_le(s[p].name_of(), x.name_of()),
    ensures
        insert_pos(s, x) == p,
    decreases s.len(),
{
    if s.len() > 0 && p > 0 {
        let t = s.drop_first();
        assert forall|k: int| 0 <= k < p - 1 implies name_le(#[trigger] t[k].name_of(), x.name_of()) by {
            assert(t[k] == s[k + 1]);
        }
        if p - 1 < t.len() {
            assert(t[p - 1] == s[p]);
        }
        assert(name_le(s[0].name_of(), x.name_of()));
        lemma_insert_pos_at(t, x, p - 1);
    }
}

proof fn lemma_insert_sorted<A: Named>(s: Seq<A>, x: A)
    requires
        sorted(s),
    ensures
        sorted(s.insert(insert_pos(s, x), x)),
{
    lemma_insert_pos(s, x);
    let p = insert_pos(s, x);
    let n = s.insert(p, x);
    if p < s.len() {
        lemma_name_le_total(s[p].name_of(), x.name_of());
    }
    assert forall|a: int, b: int| 0 <= a < b < n.len() implies name_le(#[trigger] n[a].name_of(), #[trigger] n[b].name_of()) by {
        if b < p {
            assert(n[a] == s[a] && n[b] == s[b]);
        } else if b == p {
            assert(n[a] == s[a]);
        } else if a == p {
            assert(n[b] == s[b - 1]);
            if b - 1 > p {
                assert(name_le(s[p].name_of(), s[b - 1].name_of()));
            } else {
                lemma_name_le_refl(s[p].name_of());
            }
            lemma_name_le_trans(x.name_of(), s[p].name_of(), s[b - 1].name_of());
        } else if a < p {
            assert(n[a] == s[a] && n[b] == s[b - 1]);
        } else {
            assert(n[a] == s[a - 1] && n[b] == s[b - 1]);
        }
    }
}

/// The sorted sequence holds the values of `s`, in order of names.
pub proof fn lemma_sort_by_name<A: Named>(s: Seq<A>)
    ensures
        sorted(sort_by_name(s)),
        sort_by_name(s).to_multiset() == s.to_multiset(),
    decreases s.len(),
{
    if s.len() > 0 {
        let t = sort_by_name(s.drop_last());
        lemma_sort_by_name(s.drop_last());
        lemma_insert_sorted(t, s.last());
        lemma_insert_pos(t, s.last());
        assert(s =~= s.drop_last().push(s.last()));
    }
}

/// A value of one listing is a value of any other listing of the same values.
pub proof fn lemma_contains_of_multiset<A>(a: Seq<A>, b: Seq<A>, x: A)
    requires
        a.to_multiset() == b.to_multiset(),
        a.contains(x),
    ensures
        b.contains(x),
{
    a.to_multiset_ensures();
    b.to_multiset_ensures();
    assert(a.to_multiset().count(x) > 0);
}

/// Two sequences in order of names that hold the same values, no two
/// different of which share a name, are equal.
pub proof fn lemma_sorted_unique<A: Named>(a: Seq<A>, b: Seq<A>)
    requires
        sorted(a),
        sorted(b),
        names_distinct(a),
        a.to_multiset() == b.to_multiset(),
    ensures
        a == b,
    decreases a.len(),
{
    broadcast use vstd::multiset::group_multiset_axioms;

    assert(a.len() == a.to_multiset().len() && b.len() == b.to_multiset().len());
    if a.len() > 0 {
        let n = a.len() as int;
        let x = a.last();
        let y = b.last();
        assert(a.contains(x)) by {
            assert(a[n - 1] == x);
        }
        assert(b.contains(y)) by {
            assert(b[n - 1] == y);
        }
        lemma_contains_of_multiset(a, b, x);
        lemma_contains_of_multiset(b, a, y);
        let i = choose|i: int| 0 <= i < n && a[i] == y;
        let j = choose|j: int| 0 <= j < n && b[j] == x;
        if i < n - 1 {
            assert(name_le(a[i].name_of(), a[n - 1].name_of()));
        } else {
            lemma_name_le_refl(y.name_of());
        }
        if j < n - 1 {
            assert(name_le(b[j].name_of(), b[n - 1].name_of()));
        } else {
            lemma_name_le_refl(x.name_of());
        }
        lemma_name_le_antisym(x.name_of(), y.name_of());
        assert(a[i] == a[n - 1]);
        assert(x == y);
        let a2 = a.drop_last();
        let b2 = b.drop_last();
        assert(a =~= a2.push(x));
        assert(b =~= b2.push(x));
        assert(a2.to_multiset() =~= b2.to_multiset()) by {
            assert(a2.to_multiset().insert(x) == b2.to_multiset().insert(x));
            assert forall|v: A| a2.to_multiset().count(v) == b2.to_multiset().count(v) by {
                assert(a2.to_multiset().insert(x).count(v) == b2.to_multiset().insert(x).count(v));
            }
        }
        assert(sorted(a2)) by {
            assert forall|p: int, q: int| 0 <= p < q < a2.len() implies name_le(#[trigger] a2[p].name_of(), #[trigger] a2[q].name_of()) by {
                assert(a2[p] == a[p] && a2[q] == a[q]);
            }
        }
        assert(sorted(b2)) by {
            assert forall|p: int, q: int| 0 <= p < q < b2.len() implies name_le(#[trigger] b2[p].name_of(), #[trigger] b2[q].name_of()) by {
                assert(b2[p] == b[p] && b2[q] == b[q]);
            }
        }
        assert(names_distinct(a2)) by {
            assert forall|p: int, q: int|
                0 <= p < a2.len() && 0 <= q < a2.len() && (#[trigger] a2[p]).name_of() == (#[trigger] a2[q]).name_of()
                    implies a2[p] == a2[q] by {
                assert(a2[p] == a[p] && a2[q] == a[q]);
            }
        }
        lemma_sorted_unique(a2, b2);
    }
}

/// Names stay distinct when the same values are listed in another order.
pub proof fn lemma_distinct_permuted<A: Named>(a: Seq<A>, b: Seq<A>)
    requires
        names_distinct(a),
        a.to_multiset() == b.to_multiset(),
    ensures
        names_distinct(b),
{
    assert forall|p: int, q: int|
        0 <= p < b.len() && 0 <= q < b.len() && (#[trigger] b[p]).name_of() == (#[trigger] b[q]).name_of()
            implies b[p] == b[q] by {
        assert(b.contains(b[p]));
        assert(b.contains(b[q]));
        lemma_contains_of_multiset(b, a, b[p]);
        lemma_contains_of_multiset(b, a, b[q]);
        let i = choose|i: int| 0 <= i < a.len() && a[i] == b[p];
        let j = choose|j: int| 0 <= j < a.len() && a[j] == b[q];
        assert(a[i].name_of() == a[j].name_of());
    }
}

/// Whether `a` comes no later than `b` in name order.
pub fn name_before(a: &String, b: &String) -> (r: bool)
    ensures
        r == name_le(a@, b@),
{
    let ac = chars_of(a.as_str());
    let bc = chars_of(b.as_str());
    let mut i: usize = 0;
    assert(a@.subrange(0, a@.len() as int) =~= a@);
    assert(b@.subrange(0, b@.len() as int) =~= b@);
    while i < ac.len() && i < bc.len() && ac[i] == bc[i]
        invariant
            ac@ == a@,
            bc@ == b@,
            i <= a@.len(),
            i <= b@.len(),
            name_le(a@, b@) == name_le(a@.subrange(i as int, a@.len() as int), b@.subrange(i as int, b@.len() as int)),
        decreases a@.len() - i,
    {
        let ghost sa = a@.subrange(i as int, a@.len() as int);
        let ghost sb = b@.subrange(i as int, b@.len() as int);
        assert(sa[0] == a@[i as int] && sb[0] == b@[i as int]);
        assert(sa.drop_first() =~= a@.subrange(i + 1, a@.len() as int));
        assert(sb.drop_first() =~= b@.subrange(i + 1, b@.len() as int));
        i = i + 1;
    }
    let ghost sa = a@.subrange(i as int, a@.len() as int);
    let ghost sb = b@.subrange(i as int, b@.len() as int);
    if i == ac.len() {
        true
    } else if i == bc.len() {
        false
    } else {
        assert(sa[0] == a@[i as int] && sb[0] == b@[i as int]);
        ac[i] < bc[i]
    }
}

/// A copy of `v` in order of names; values with equal names keep their order.
pub fn sorted_copy<A: Named>(v: &Vec<A>) -> (r: Vec<A>)
    ensures
        r@ == sort_by_name(v@),
        sorted(r@),
        r@.to_multiset() == v@.to_multiset(),
{
    let mut out: Vec<A> = Vec::new();
    let mut i: usize = 0;
    while i < v.len()
        invariant
            i <= v@.len(),
            out@ == sort_by_name(v@.subrange(0, i as int)),
        decreases v@.len() - i,
    {
        let x = v[i].copy_of();
        let mut p: usize = 0;
        while p < out.len() && name_before(out[p].name(), x.name())
            invariant
                p <= out@.len(),
                forall|k: int| 0 <= k < p ==> name_le(#[trigger] out@[k].name_of(), x.name_of()),
            decreases out@.len() - p,
        {
            p = p + 1;
        }
        proof {
            lemma_insert_pos_at(out@, x, p as int);
            let s = v@.subrange(0, i + 1);
            assert(s.drop_last() =~= v@.subrange(0, i as int));
            assert(s.last() == x);
        }
        out.insert(p, x);
        i = i + 1;
    }
    assert(v@.subrange(0, v@.len() as int) =~= v@);
    proof {
        lemma_sort_by_name(v@);
    }
    out
}

} // verus!
