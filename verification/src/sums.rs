//! Sums and products of scalar sequences, and their behaviour under
//! permutation: the mathematical backbone of the shuffle-proof argument.

use vstd::prelude::*;
use vstd::seq_lib::{commutative_foldr, lemma_fold_right_permutation};
use vstd::seq_lib::{
    to_multiset_build, to_multiset_remove, to_multiset_contains, to_multiset_len,
    to_multiset_update, lemma_multiset_commutative,
};
use vstd::multiset::Multiset;

verus! {

/// The sum of a sequence of integers.
pub open spec fn sum_seq(s: Seq<int>) -> int
    decreases s.len(),
{
    if s.len() == 0 {
        0
    } else {
        sum_seq(s.drop_last()) + s.last()
    }
}

/// The product of a sequence of integers.
pub open spec fn prod_seq(s: Seq<int>) -> int
    decreases s.len(),
{
    if s.len() == 0 {
        1
    } else {
        prod_seq(s.drop_last()) * s.last()
    }
}

/// The product of the entries `s[a..b)`.
pub open spec fn prod_range(s: Seq<int>, a: int, b: int) -> int
    decreases b - a,
{
    if a >= b {
        1
    } else {
        prod_range(s, a, b - 1) * s[b - 1]
    }
}

/// The identity arrangement of `n` positions.
pub open spec fn ident_seq(n: nat) -> Seq<usize> {
    Seq::new(n, |i: int| i as usize)
}

/// `psi` is a bijection on the positions `0..n`, given as the sequence of
/// images: it holds each position exactly once.
pub open spec fn is_permutation(psi: Seq<usize>, n: nat) -> bool {
    &&& psi.len() == n
    &&& psi.to_multiset() == ident_seq(n).to_multiset()
}

/// The sequence `a` read through the arrangement `psi`: position `i` holds
/// `a[psi[i]]`.
pub open spec fn compose(a: Seq<int>, psi: Seq<usize>) -> Seq<int> {
    psi.map_values(|j: usize| a[j as int])
}

pub proof fn lemma_sum_fold(s: Seq<int>, b: int)
    ensures
        s.fold_right(|x: int, acc: int| x + acc, b) == sum_seq(s) + b,
    decreases s.len(),
{
    if s.len() > 0 {
        lemma_sum_fold(s.drop_last(), s.last() + b);
    }
}

pub proof fn lemma_prod_fold(s: Seq<int>, b: int)
    ensures
        s.fold_right(|x: int, acc: int| x * acc, b) == prod_seq(s) * b,
    decreases s.len(),
{
    if s.len() == 0 {
    } else {
        lemma_prod_fold(s.drop_last(), s.last() * b);
        assert(prod_seq(s.drop_last()) * (s.last() * b) == (prod_seq(s.drop_last()) * s.last())
            * b) by (nonlinear_arith);
    }
}

/// Two sequences with the same multiset of entries have the same sum.
pub proof fn lemma_sum_multiset(s1: Seq<int>, s2: Seq<int>)
    requires
        s1.to_multiset() == s2.to_multiset(),
    ensures
        sum_seq(s1) == sum_seq(s2),
{
    let f = |x: int, acc: int| x + acc;
    assert(commutative_foldr(f)) by {
        assert forall|x: int, y: int, v: int| #[trigger] f(x, f(y, v)) == f(y, f(x, v)) by {}
    }
    lemma_fold_right_permutation(s1, s2, f, 0);
    lemma_sum_fold(s1, 0);
    lemma_sum_fold(s2, 0);
}

/// Two sequences with the same multiset of entries have the same product.
pub proof fn lemma_prod_multiset(s1: Seq<int>, s2: Seq<int>)
    requires
        s1.to_multiset() == s2.to_multiset(),
    ensures
        prod_seq(s1) == prod_seq(s2),
{
    let f = |x: int, acc: int| x * acc;
    assert(commutative_foldr(f)) by {
        assert forall|x: int, y: int, v: int| #[trigger] f(x, f(y, v)) == f(y, f(x, v)) by {
            assert(x * (y * v) == y * (x * v)) by (nonlinear_arith);
        }
    }
    lemma_fold_right_permutation(s1, s2, f, 1);
    lemma_prod_fold(s1, 1);
    lemma_prod_fold(s2, 1);
}

/// Mapping a function over two multiset-equal sequences yields multiset-equal
/// sequences.
pub proof fn lemma_map_values_multiset<A, B>(s1: Seq<A>, s2: Seq<A>, f: spec_fn(A) -> B)
    requires
        s1.to_multiset() == s2.to_multiset(),
    ensures
        s1.map_values(f).to_multiset() == s2.map_values(f).to_multiset(),
    decreases s1.len(),
{
    to_multiset_len(s1);
    to_multiset_len(s2);
    if s1.len() == 0 {
        assert(s1.map_values(f) =~= s2.map_values(f));
    } else {
        let last = s1.len() - 1;
        let a = s1[last];
        assert(s1.contains(a));
        to_multiset_contains(s1, a);
        to_multiset_contains(s2, a);
        assert(s2.contains(a));
        let i = choose|i: int| 0 <= i < s2.len() && s2[i] == a;
        to_multiset_remove(s1, last);
        to_multiset_remove(s2, i);
        assert(s1.remove(last).to_multiset() == s2.remove(i).to_multiset());
        lemma_map_values_multiset(s1.remove(last), s2.remove(i), f);

        assert(s1.remove(last).map_values(f) =~= s1.map_values(f).remove(last));
        assert(s2.remove(i).map_values(f) =~= s2.map_values(f).remove(i));

        let m1 = s1.map_values(f).to_multiset();
        let m2 = s2.map_values(f).to_multiset();
        to_multiset_remove(s1.map_values(f), last);
        to_multiset_remove(s2.map_values(f), i);
        assert(m1.remove(f(a)) == m2.remove(f(a)));
        assert(s1.map_values(f).contains(f(a)));
        to_multiset_contains(s1.map_values(f), f(a));
        assert(s2.map_values(f).contains(f(a)));
        to_multiset_contains(s2.map_values(f), f(a));
        assert forall|x: B| m1.count(x) == m2.count(x) by {
            if x == f(a) {
                assert(m1.remove(f(a)).count(x) == m1.count(x) - 1);
                assert(m2.remove(f(a)).count(x) == m2.count(x) - 1);
            } else {
                assert(m1.remove(f(a)).count(x) == m1.count(x));
                assert(m2.remove(f(a)).count(x) == m2.count(x));
            }
        }
        assert(m1 =~= m2);
    }
}

/// Reading a sequence through a permutation preserves its multiset of entries.
pub proof fn lemma_compose_multiset(a: Seq<int>, psi: Seq<usize>)
    requires
        is_permutation(psi, a.len()),
        a.len() <= usize::MAX,
    ensures
        compose(a, psi).to_multiset() == a.to_multiset(),
{
    let n = a.len();
    let f = |j: usize| a[j as int];
    lemma_map_values_multiset(psi, ident_seq(n), f);
    assert forall|i: int| 0 <= i < n implies ident_seq(n).map_values(f)[i] == a[i] by {
        assert(ident_seq(n)[i] == i as usize);
    }
    assert(ident_seq(n).map_values(f) =~= a);
}

/// A permutation maps every position below `n` to a position below `n`.
pub proof fn lemma_permutation_bounds(psi: Seq<usize>, n: nat)
    requires
        is_permutation(psi, n),
    ensures
        forall|i: int| 0 <= i < n ==> (#[trigger] psi[i]) < n,
{
    assert forall|i: int| 0 <= i < n implies (#[trigger] psi[i]) < n by {
        assert(psi.contains(psi[i]));
        to_multiset_contains(psi, psi[i]);
        to_multiset_contains(ident_seq(n), psi[i]);
        assert(ident_seq(n).contains(psi[i]));
        let j = choose|j: int| 0 <= j < n && ident_seq(n)[j] == psi[i];
    }
}

/// A permutation holds no position twice.
pub proof fn lemma_permutation_injective(psi: Seq<usize>, n: nat, i: int, j: int)
    requires
        is_permutation(psi, n),
        n <= usize::MAX,
        0 <= i < n,
        0 <= j < n,
        i != j,
    ensures
        psi[i] != psi[j],
{
    if psi[i] == psi[j] {
        let v = psi[i];
        lemma_permutation_bounds(psi, n);
        to_multiset_remove(psi, i);
        let j2 = if j < i { j } else { j - 1 };
        assert(psi.remove(i)[j2] == v);
        assert(psi.remove(i).contains(v));
        to_multiset_contains(psi.remove(i), v);
        to_multiset_remove(ident_seq(n), v as int);
        assert(ident_seq(n)[v as int] == v);
        assert forall|k: int|
            0 <= k < ident_seq(n).remove(v as int).len() implies ident_seq(n).remove(
            v as int,
        )[k] != v by {
            if k < v {
                assert(ident_seq(n).remove(v as int)[k] == ident_seq(n)[k]);
                assert(ident_seq(n)[k] == k as usize);
            } else {
                assert(ident_seq(n).remove(v as int)[k] == ident_seq(n)[k + 1]);
                assert(ident_seq(n)[k + 1] == (k + 1) as usize);
            }
        }
        assert(!ident_seq(n).remove(v as int).contains(v));
        to_multiset_contains(ident_seq(n).remove(v as int), v);
        assert(psi.to_multiset().count(v) >= 2);
        assert(ident_seq(n).to_multiset().count(v) <= 1);
        assert(false);
    }
}

/// One step of a draw-and-swap shuffle of the pool `aux[i..]`: drawing the
/// entry at `k` into the arrangement and moving the pool's first entry into
/// its place keeps the combined multiset.
pub proof fn lemma_draw_swap_step(psi: Seq<usize>, aux: Seq<usize>, i: int, k: int, n: nat)
    requires
        aux.len() == n,
        0 <= i <= k < n,
        psi.len() == i,
        (psi + aux.skip(i)).to_multiset() == ident_seq(n).to_multiset(),
    ensures
        (psi.push(aux[k]) + aux.update(k, aux[i]).skip(i + 1)).to_multiset() == ident_seq(
            n,
        ).to_multiset(),
{
    broadcast use vstd::seq_lib::group_to_multiset_ensures;
    broadcast use vstd::multiset::group_multiset_axioms;

    let p = aux.skip(i);
    let pu = aux.update(k, aux[i]).skip(i + 1);
    let p_upd = p.update(k - i, p[0]);
    assert(p[0] == aux[i]);
    assert(p[k - i] == aux[k]);
    assert(aux.update(k, aux[i]).skip(i) =~= p_upd);
    assert(pu =~= p_upd.skip(1));

    to_multiset_update(p, k - i, p[0]);
    assert(p.contains(p[k - i]));
    to_multiset_contains(p, p[k - i]);

    assert(p_upd[0] == p[0]);
    assert(p_upd =~= seq![p_upd[0]] + p_upd.skip(1));
    assert(seq![p_upd[0]] =~= Seq::<usize>::empty().push(p_upd[0]));
    to_multiset_build(Seq::<usize>::empty(), p_upd[0]);
    assert forall|x: usize| Seq::<usize>::empty().to_multiset().count(x) == 0 by {
        to_multiset_contains(Seq::<usize>::empty(), x);
    }
    assert(Seq::<usize>::empty().to_multiset() =~= Multiset::empty());
    lemma_multiset_commutative(seq![p_upd[0]], p_upd.skip(1));
    assert(p_upd.contains(p_upd[0]));
    to_multiset_contains(p_upd, p_upd[0]);

    to_multiset_build(psi, aux[k]);
    lemma_multiset_commutative(psi, p);
    lemma_multiset_commutative(psi.push(aux[k]), pu);

    assert forall|x: usize| (psi.push(aux[k]) + pu).to_multiset().count(x) == (psi
        + p).to_multiset().count(x) by {
        to_multiset_contains(p, x);
        to_multiset_contains(p_upd, x);
    }
    assert((psi.push(aux[k]) + pu).to_multiset() =~= (psi + p).to_multiset());
}

/// Summing a sequence in permuted order gives the same total.
pub proof fn lemma_sum_compose(a: Seq<int>, psi: Seq<usize>)
    requires
        is_permutation(psi, a.len()),
        a.len() <= usize::MAX,
    ensures
        sum_seq(compose(a, psi)) == sum_seq(a),
{
    lemma_compose_multiset(a, psi);
    lemma_sum_multiset(compose(a, psi), a);
}

/// Multiplying a sequence in permuted order gives the same product.
pub proof fn lemma_prod_compose(a: Seq<int>, psi: Seq<usize>)
    requires
        is_permutation(psi, a.len()),
        a.len() <= usize::MAX,
    ensures
        prod_seq(compose(a, psi)) == prod_seq(a),
{
    lemma_compose_multiset(a, psi);
    lemma_prod_multiset(compose(a, psi), a);
}

/// Pointwise congruent sequences have congruent sums.
pub proof fn lemma_sum_congruent(a: Seq<int>, b: Seq<int>, m: int)
    requires
        m > 0,
        a.len() == b.len(),
        forall|i: int| 0 <= i < a.len() ==> #[trigger] a[i] % m == b[i] % m,
    ensures
        sum_seq(a) % m == sum_seq(b) % m,
    decreases a.len(),
{
    if a.len() > 0 {
        lemma_sum_congruent(a.drop_last(), b.drop_last(), m);
        vstd::arithmetic::div_mod::lemma_add_mod_noop(
            sum_seq(a.drop_last()),
            a.last(),
            m,
        );
        vstd::arithmetic::div_mod::lemma_add_mod_noop(
            sum_seq(b.drop_last()),
            b.last(),
            m,
        );
    }
}

/// A sum of pointwise sums splits into two sums.
pub proof fn lemma_sum_pointwise_add(a: Seq<int>, b: Seq<int>)
    requires
        a.len() == b.len(),
    ensures
        sum_seq(Seq::new(a.len(), |i: int| a[i] + b[i])) == sum_seq(a) + sum_seq(b),
    decreases a.len(),
{
    let n = a.len();
    if n > 0 {
        lemma_sum_pointwise_add(a.drop_last(), b.drop_last());
        assert(Seq::new(n, |i: int| a[i] + b[i]).drop_last() =~= Seq::new(
            (n - 1) as nat,
            |i: int| a.drop_last()[i] + b.drop_last()[i],
        ));
    }
}

/// A common factor moves out of a sum.
pub proof fn lemma_sum_scale(a: Seq<int>, x: int)
    ensures
        sum_seq(Seq::new(a.len(), |i: int| a[i] * x)) == sum_seq(a) * x,
    decreases a.len(),
{
    let n = a.len();
    if n > 0 {
        lemma_sum_scale(a.drop_last(), x);
        assert(Seq::new(n, |i: int| a[i] * x).drop_last() =~= Seq::new(
            (n - 1) as nat,
            |i: int| a.drop_last()[i] * x,
        ));
        assert((sum_seq(a.drop_last()) + a.last()) * x == sum_seq(a.drop_last()) * x + a.last()
            * x) by (nonlinear_arith);
    }
}

/// A product range peels its first factor.
pub proof fn lemma_prod_range_unfold_left(s: Seq<int>, a: int, b: int)
    requires
        a < b,
    ensures
        prod_range(s, a, b) == s[a] * prod_range(s, a + 1, b),
    decreases b - a,
{
    if b == a + 1 {
        assert(prod_range(s, a, a) == 1);
        assert(prod_range(s, a + 1, b) == 1);
    } else {
        lemma_prod_range_unfold_left(s, a, b - 1);
        assert((s[a] * prod_range(s, a + 1, b - 1)) * s[b - 1] == s[a] * (prod_range(
            s,
            a + 1,
            b - 1,
        ) * s[b - 1])) by (nonlinear_arith);
    }
}

/// The full product range is the product of the sequence.
pub proof fn lemma_prod_range_full(s: Seq<int>, b: int)
    requires
        0 <= b <= s.len(),
    ensures
        prod_range(s, 0, b) == prod_seq(s.take(b)),
    decreases b,
{
    if b > 0 {
        lemma_prod_range_full(s, b - 1);
        assert(s.take(b).drop_last() =~= s.take(b - 1));
    }
}

} // verus!
