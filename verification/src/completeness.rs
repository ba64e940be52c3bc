//! Completeness of the shuffle argument: a proof produced by the prover's
//! algorithm on a consistent re-randomized permutation satisfies every one
//! of the verifier's equations.

use vstd::prelude::*;
use vstd::arithmetic::div_mod::lemma_mod_twice;
use crate::group::{
    Q, madd, mmul, msub, lemma_add_cong, lemma_sub_cong, lemma_mul_cong, lemma_mod_cancel,
};
use crate::sums::{
    sum_seq, prod_seq, prod_range, compose, is_permutation, lemma_sum_compose, lemma_prod_compose,
    lemma_sum_congruent, lemma_sum_pointwise_add, lemma_sum_scale, lemma_prod_range_full,
};

verus! {

/// The verifier's `c_bar` aggregate collapses to the prover's summed
/// permutation-commitment randomness.
pub proof fn lemma_c_bar(hs: Seq<int>, cl: Seq<int>, rl: Seq<int>, psi: Seq<usize>)
    requires
        hs.len() == cl.len(),
        hs.len() == rl.len(),
        hs.len() <= usize::MAX,
        is_permutation(psi, hs.len()),
        forall|i: int| 0 <= i < hs.len() ==> #[trigger] cl[psi[i] as int] == madd(
            rl[psi[i] as int],
            hs[i],
        ),
    ensures
        msub(sum_seq(cl) % (Q as int), sum_seq(hs) % (Q as int)) == sum_seq(rl) % (Q as int),
{
    let n = hs.len();
    let q = Q as int;
    crate::sums::lemma_permutation_bounds(psi, n);
    let composed = compose(cl, psi);
    lemma_sum_compose(cl, psi);
    let rl_psi = compose(rl, psi);
    lemma_sum_compose(rl, psi);
    let b = Seq::new(n, |i: int| rl_psi[i] + hs[i]);
    assert forall|i: int| 0 <= i < n implies #[trigger] composed[i] % q == b[i] % q by {
        assert(composed[i] == cl[psi[i] as int]);
        assert(rl_psi[i] == rl[psi[i] as int]);
        lemma_mod_twice(rl[psi[i] as int] + hs[i], q);
    }
    lemma_sum_congruent(composed, b, q);
    lemma_sum_pointwise_add(rl_psi, hs);
    assert(sum_seq(cl) % q == (sum_seq(rl) + sum_seq(hs)) % q);
    lemma_sub_cong(sum_seq(cl), sum_seq(rl) + sum_seq(hs), sum_seq(hs), sum_seq(hs));
    assert((sum_seq(cl) - sum_seq(hs)) % q == sum_seq(rl) % q);
    lemma_sub_cong(sum_seq(cl) % q, sum_seq(cl), sum_seq(hs) % q, sum_seq(hs));
    lemma_mod_twice(sum_seq(cl), q);
    lemma_mod_twice(sum_seq(hs), q);
}

/// The first verification equation: recomputing `t0` from the response `s0`
/// gives back the prover's blinding `w0`.
pub proof fn lemma_eq_t0(
    hs: Seq<int>,
    cl: Seq<int>,
    rl: Seq<int>,
    psi: Seq<usize>,
    chal: int,
    w0: int,
    rbar: int,
    s0: int,
)
    requires
        hs.len() == cl.len(),
        hs.len() == rl.len(),
        hs.len() <= usize::MAX,
        is_permutation(psi, hs.len()),
        forall|i: int| 0 <= i < hs.len() ==> #[trigger] cl[psi[i] as int] == madd(
            rl[psi[i] as int],
            hs[i],
        ),
        0 <= w0 < Q,
        rbar == sum_seq(rl) % (Q as int),
        s0 == madd(w0, mmul(chal, rbar)),
    ensures
        msub(s0, mmul(msub(sum_seq(cl) % (Q as int), sum_seq(hs) % (Q as int)), chal)) == w0,
{
    let q = Q as int;
    lemma_c_bar(hs, cl, rl, psi);
    assert(mmul(rbar, chal) == mmul(chal, rbar)) by {
        assert(rbar * chal == chal * rbar) by (nonlinear_arith);
    }
    lemma_mod_cancel(w0, mmul(chal, rbar));
    vstd::arithmetic::div_mod::lemma_mod_bound(chal * rbar, q);
}

/// Closed form of the chained commitment: link `i` carries each randomness
/// weighted by the product of the later challenges, plus the seed weighted
/// by the product of all challenges so far.
pub proof fn lemma_chain_closed(chs: Seq<int>, rhs: Seq<int>, ups: Seq<int>, c0: int, i: int)
    requires
        chs.len() == rhs.len(),
        chs.len() == ups.len(),
        0 <= i < chs.len(),
        forall|j: int| 0 <= j < chs.len() ==> #[trigger] chs[j] == madd(
            rhs[j],
            mmul(if j == 0 { c0 } else { chs[j - 1] }, ups[j]),
        ),
    ensures
        chs[i] == (sum_seq(Seq::new((i + 1) as nat, |k: int| rhs[k] * prod_range(ups, k + 1, i + 1)))
            + c0 * prod_range(ups, 0, i + 1)) % (Q as int),
    decreases i,
{
    let q = Q as int;
    let terms = Seq::new((i + 1) as nat, |k: int| rhs[k] * prod_range(ups, k + 1, i + 1));
    if i == 0 {
        assert(prod_range(ups, 1, 1) == 1);
        assert(prod_range(ups, 0, 1) == prod_range(ups, 0, 0) * ups[0]);
        assert(terms.drop_last() =~= Seq::<int>::empty());
        assert(sum_seq(Seq::<int>::empty()) == 0);
        assert(terms.last() == rhs[0] * prod_range(ups, 1, 1));
        assert(sum_seq(terms) == rhs[0] * 1);
        lemma_mod_twice(c0 * ups[0], q);
        lemma_add_cong(rhs[0], rhs[0], (c0 * ups[0]) % q, c0 * ups[0]);
    } else {
        lemma_chain_closed(chs, rhs, ups, c0, i - 1);
        let prev_terms = Seq::new(i as nat, |k: int| rhs[k] * prod_range(ups, k + 1, i));
        let sp = sum_seq(prev_terms);
        let pp = prod_range(ups, 0, i);
        assert(chs[i - 1] == (sp + c0 * pp) % q);
        assert(chs[i] == madd(rhs[i], mmul(chs[i - 1], ups[i])));

        // Replace the reduced previous link by its unreduced closed form.
        lemma_mod_twice(sp + c0 * pp, q);
        lemma_mul_cong(chs[i - 1], sp + c0 * pp, ups[i], ups[i]);
        lemma_mod_twice(chs[i - 1] * ups[i], q);
        lemma_add_cong(rhs[i], rhs[i], (chs[i - 1] * ups[i]) % q, (sp + c0 * pp) * ups[i]);
        assert(chs[i] == (rhs[i] + (sp + c0 * pp) * ups[i]) % q);

        // Distribute the challenge over the closed form.
        assert((sp + c0 * pp) * ups[i] == sp * ups[i] + (c0 * pp) * ups[i]) by (nonlinear_arith);
        assert((c0 * pp) * ups[i] == c0 * (pp * ups[i])) by (nonlinear_arith);
        assert(pp * ups[i] == prod_range(ups, 0, i + 1));

        // The scaled earlier terms are exactly the earlier terms of the new
        // sum.
        let scaled = Seq::new(prev_terms.len(), |k: int| prev_terms[k] * ups[i]);
        lemma_sum_scale(prev_terms, ups[i]);
        assert forall|k: int| 0 <= k < i implies scaled[k] == terms[k] by {
            assert(prod_range(ups, k + 1, i + 1) == prod_range(ups, k + 1, i) * ups[i]);
            assert((rhs[k] * prod_range(ups, k + 1, i)) * ups[i] == rhs[k] * (prod_range(
                ups,
                k + 1,
                i,
            ) * ups[i])) by (nonlinear_arith);
        }
        assert(terms.drop_last() =~= scaled);
        assert(prod_range(ups, i + 1, i + 1) == 1);
        assert(terms.last() == rhs[i] * 1);
        assert(sum_seq(terms) == sp * ups[i] + rhs[i]);
    }
}

/// The second verification equation: the chain aggregate `c_hat` collapses
/// to the prover's weighted chain randomness, and recomputing `t1` from the
/// response `s1` gives back the blinding `w1`.
#[verifier::rlimit(100)]
pub proof fn lemma_eq_t1(
    c0: int,
    chs: Seq<int>,
    rhs: Seq<int>,
    ups: Seq<int>,
    us: Seq<int>,
    vs: Seq<int>,
    psi: Seq<usize>,
    chal: int,
    w1: int,
    rhat: int,
    s1: int,
)
    requires
        chs.len() >= 1,
        chs.len() == rhs.len(),
        chs.len() == ups.len(),
        chs.len() == us.len(),
        chs.len() == vs.len(),
        chs.len() <= usize::MAX,
        is_permutation(psi, chs.len()),
        forall|i: int| 0 <= i < chs.len() ==> #[trigger] ups[i] == us[psi[i] as int],
        forall|j: int| 0 <= j < chs.len() ==> #[trigger] chs[j] == madd(
            rhs[j],
            mmul(if j == 0 { c0 } else { chs[j - 1] }, ups[j]),
        ),
        forall|i: int| 0 <= i < chs.len() ==> #[trigger] vs[i] == prod_range(
            ups,
            i + 1,
            chs.len() as int,
        ) % (Q as int),
        rhat == sum_seq(Seq::new(chs.len(), |i: int| rhs[i] * vs[i])) % (Q as int),
        s1 == madd(w1, mmul(chal, rhat)),
        0 <= w1 < Q,
    ensures
        msub(s1, mmul(msub(chs[chs.len() - 1], mmul(c0, prod_seq(us) % (Q as int))), chal)) == w1,
{
    let q = Q as int;
    let n = chs.len() as int;
    lemma_chain_closed(chs, rhs, ups, c0, n - 1);
    let terms = Seq::new(n as nat, |k: int| rhs[k] * prod_range(ups, k + 1, n));
    let s_sum = sum_seq(terms);
    let pr = prod_range(ups, 0, n);
    assert(chs[n - 1] == (s_sum + c0 * pr) % q);

    assert(ups =~= compose(us, psi));
    lemma_prod_compose(us, psi);
    lemma_prod_range_full(ups, n);
    assert(ups.take(n) =~= ups);
    assert(pr == prod_seq(us));

    // The subtracted term equals the seed's weight in the closed form.
    lemma_mod_twice(prod_seq(us), q);
    lemma_mul_cong(c0, c0, prod_seq(us) % q, prod_seq(us));
    // c_hat collapses to the weighted chain randomness.
    lemma_mod_twice(s_sum + c0 * pr, q);
    lemma_mod_twice(c0 * pr, q);
    lemma_sub_cong(chs[n - 1], s_sum + c0 * pr, (c0 * prod_seq(us) % q) % q, c0 * pr);
    let c_hat = msub(chs[n - 1], mmul(c0, prod_seq(us) % q));
    assert(c_hat == (s_sum + c0 * pr - c0 * pr) % q);
    assert(c_hat == s_sum % q);

    // The prover's aggregate is the same sum with each suffix product
    // reduced.
    let vterms = Seq::new(n as nat, |i: int| rhs[i] * vs[i]);
    assert forall|i: int| 0 <= i < n implies #[trigger] vterms[i] % q == terms[i] % q by {
        lemma_mod_twice(prod_range(ups, i + 1, n), q);
        lemma_mul_cong(rhs[i], rhs[i], vs[i], prod_range(ups, i + 1, n));
    }
    lemma_sum_congruent(vterms, terms, q);
    assert(c_hat == rhat);

    assert(mmul(rhat, chal) == mmul(chal, rhat)) by {
        assert(rhat * chal == chal * rhat) by (nonlinear_arith);
    }
    lemma_mod_cancel(w1, mmul(chal, rhat));
}

/// A response-weighted sum splits into the blinding-weighted sum plus the
/// challenge times the challenge-weighted sum.
pub proof fn lemma_response_sum(a: Seq<int>, wp: Seq<int>, ups: Seq<int>, sp: Seq<int>, chal: int)
    requires
        a.len() == wp.len(),
        a.len() == ups.len(),
        a.len() == sp.len(),
        forall|i: int| 0 <= i < a.len() ==> #[trigger] sp[i] == madd(wp[i], mmul(chal, ups[i])),
    ensures
        sum_seq(Seq::new(a.len(), |i: int| a[i] * sp[i])) % (Q as int) == (sum_seq(
            Seq::new(a.len(), |i: int| a[i] * wp[i]),
        ) + chal * sum_seq(Seq::new(a.len(), |i: int| a[i] * ups[i]))) % (Q as int),
{
    let q = Q as int;
    let n = a.len();
    let t_sp = Seq::new(n, |i: int| a[i] * sp[i]);
    let t_aw = Seq::new(n, |i: int| a[i] * wp[i]);
    let t_au = Seq::new(n, |i: int| a[i] * ups[i]);
    let t_au_scaled = Seq::new(n, |i: int| t_au[i] * chal);
    let t_open = Seq::new(n, |i: int| t_aw[i] + t_au_scaled[i]);
    assert forall|i: int| 0 <= i < n implies #[trigger] t_sp[i] % q == t_open[i] % q by {
        lemma_mod_twice(wp[i] + (chal * ups[i]) % q, q);
        lemma_mod_twice(chal * ups[i], q);
        lemma_add_cong(wp[i], wp[i], (chal * ups[i]) % q, chal * ups[i]);
        assert(sp[i] % q == (wp[i] + chal * ups[i]) % q);
        lemma_mul_cong(a[i], a[i], sp[i], wp[i] + chal * ups[i]);
        assert(a[i] * (wp[i] + chal * ups[i]) == a[i] * wp[i] + (a[i] * ups[i]) * chal)
            by (nonlinear_arith);
    }
    lemma_sum_congruent(t_sp, t_open, q);
    lemma_sum_pointwise_add(t_aw, t_au_scaled);
    lemma_sum_scale(t_au, chal);
}

/// The verifier's `c_tilde` aggregate is congruent to the prover's
/// `r_tilde` plus the challenge-weighted generators.
pub proof fn lemma_c_tilde(
    hs: Seq<int>,
    cl: Seq<int>,
    rl: Seq<int>,
    us: Seq<int>,
    ups: Seq<int>,
    psi: Seq<usize>,
)
    requires
        hs.len() == cl.len(),
        hs.len() == rl.len(),
        hs.len() == us.len(),
        hs.len() == ups.len(),
        hs.len() <= usize::MAX,
        is_permutation(psi, hs.len()),
        forall|i: int| 0 <= i < hs.len() ==> #[trigger] ups[i] == us[psi[i] as int],
        forall|i: int| 0 <= i < hs.len() ==> #[trigger] cl[psi[i] as int] == madd(
            rl[psi[i] as int],
            hs[i],
        ),
    ensures
        sum_seq(Seq::new(hs.len(), |i: int| cl[i] * us[i])) % (Q as int) == (sum_seq(
            Seq::new(hs.len(), |i: int| rl[i] * us[i]),
        ) + sum_seq(Seq::new(hs.len(), |i: int| hs[i] * ups[i]))) % (Q as int),
{
    let q = Q as int;
    let n = hs.len();
    crate::sums::lemma_permutation_bounds(psi, n);
    let t_cu = Seq::new(n, |i: int| cl[i] * us[i]);
    let t_ru = Seq::new(n, |i: int| rl[i] * us[i]);
    let t_hu = Seq::new(n, |i: int| hs[i] * ups[i]);
    lemma_sum_compose(t_cu, psi);
    let perm_cu = compose(t_cu, psi);
    let t_ru_psi = compose(t_ru, psi);
    lemma_sum_compose(t_ru, psi);
    let t_open = Seq::new(n, |i: int| t_ru_psi[i] + t_hu[i]);
    assert forall|i: int| 0 <= i < n implies #[trigger] perm_cu[i] % q == t_open[i] % q by {
        assert(perm_cu[i] == cl[psi[i] as int] * us[psi[i] as int]);
        assert(cl[psi[i] as int] == madd(rl[psi[i] as int], hs[i]));
        lemma_mod_twice(rl[psi[i] as int] + hs[i], q);
        lemma_mul_cong(
            cl[psi[i] as int],
            rl[psi[i] as int] + hs[i],
            us[psi[i] as int],
            us[psi[i] as int],
        );
        assert((rl[psi[i] as int] + hs[i]) * us[psi[i] as int] == rl[psi[i] as int] * us[psi[
            i
        ] as int] + hs[i] * us[psi[i] as int]) by (nonlinear_arith);
        assert(t_ru_psi[i] == rl[psi[i] as int] * us[psi[i] as int]);
        assert(t_hu[i] == hs[i] * ups[i]);
        assert(ups[i] == us[psi[i] as int]);
    }
    lemma_sum_congruent(perm_cu, t_open, q);
    lemma_sum_pointwise_add(t_ru_psi, t_hu);
}

/// The third verification equation, recomputing `t2`.
#[verifier::rlimit(100)]
pub proof fn lemma_eq_t2(
    hs: Seq<int>,
    cl: Seq<int>,
    rl: Seq<int>,
    us: Seq<int>,
    ups: Seq<int>,
    psi: Seq<usize>,
    wp: Seq<int>,
    sp: Seq<int>,
    chal: int,
    w2: int,
    rtilde: int,
    s2: int,
    t2: int,
)
    requires
        hs.len() == cl.len(),
        hs.len() == rl.len(),
        hs.len() == us.len(),
        hs.len() == ups.len(),
        hs.len() == wp.len(),
        hs.len() == sp.len(),
        hs.len() <= usize::MAX,
        is_permutation(psi, hs.len()),
        forall|i: int| 0 <= i < hs.len() ==> #[trigger] ups[i] == us[psi[i] as int],
        forall|i: int| 0 <= i < hs.len() ==> #[trigger] cl[psi[i] as int] == madd(
            rl[psi[i] as int],
            hs[i],
        ),
        forall|i: int| 0 <= i < hs.len() ==> #[trigger] sp[i] == madd(wp[i], mmul(chal, ups[i])),
        rtilde == sum_seq(Seq::new(hs.len(), |i: int| rl[i] * us[i])) % (Q as int),
        s2 == madd(w2, mmul(chal, rtilde)),
        t2 == madd(sum_seq(Seq::new(hs.len(), |i: int| hs[i] * wp[i])) % (Q as int), w2),
    ensures
        t2 == madd(
            msub(
                sum_seq(Seq::new(hs.len(), |i: int| hs[i] * sp[i])) % (Q as int),
                mmul(
                    sum_seq(Seq::new(hs.len(), |i: int| cl[i] * us[i])) % (Q as int),
                    chal,
                ),
            ),
            s2,
        ),
{
    let q = Q as int;
    let n = hs.len();
    let hw = sum_seq(Seq::new(n, |i: int| hs[i] * wp[i]));
    let hu = sum_seq(Seq::new(n, |i: int| hs[i] * ups[i]));
    let rt = sum_seq(Seq::new(n, |i: int| rl[i] * us[i]));
    let w_exec = sum_seq(Seq::new(n, |i: int| hs[i] * sp[i])) % q;
    let ct_exec = sum_seq(Seq::new(n, |i: int| cl[i] * us[i])) % q;

    lemma_response_sum(hs, wp, ups, sp, chal);
    assert(w_exec % q == (hw + chal * hu) % q) by {
        lemma_mod_twice(sum_seq(Seq::new(n, |i: int| hs[i] * sp[i])), q);
    }
    lemma_c_tilde(hs, cl, rl, us, ups, psi);
    assert(ct_exec % q == (rt + hu) % q) by {
        lemma_mod_twice(sum_seq(Seq::new(n, |i: int| cl[i] * us[i])), q);
    }

    // The challenge times the aggregate.
    lemma_mul_cong(ct_exec, rt + hu, chal, chal);
    // The recomputed first part.
    lemma_mod_twice((rt + hu) * chal, q);
    lemma_sub_cong(w_exec, hw + chal * hu, mmul(ct_exec, chal), (rt + hu) * chal);
    // The response.
    lemma_mod_twice(chal * rtilde, q);
    lemma_mul_cong(chal, chal, rtilde, rt);
    lemma_add_cong(w2, w2, (chal * rtilde) % q, chal * rt);
    assert(s2 % q == (w2 + chal * rt) % q) by {
        lemma_mod_twice(w2 + (chal * rtilde) % q, q);
    }
    // Assemble.
    lemma_mod_twice(hw + chal * hu - (rt + hu) * chal, q);
    lemma_add_cong(
        msub(w_exec, mmul(ct_exec, chal)),
        hw + chal * hu - (rt + hu) * chal,
        s2,
        w2 + chal * rt,
    );
    assert(hw + chal * hu - (rt + hu) * chal + (w2 + chal * rt) == hw + w2) by (nonlinear_arith);
    // Both sides are the same residue.
    lemma_mod_twice(hw, q);
    lemma_add_cong(hw % q, hw, w2, w2);
}

/// The fourth verification equation, recomputing `t3`.
#[verifier::rlimit(100)]
pub proof fn lemma_eq_t3(
    cls: Seq<int>,
    cpls: Seq<int>,
    rps: Seq<int>,
    us: Seq<int>,
    ups: Seq<int>,
    psi: Seq<usize>,
    wp: Seq<int>,
    sp: Seq<int>,
    chal: int,
    w3: int,
    rprime: int,
    s3: int,
    t3: int,
)
    requires
        cls.len() == cpls.len(),
        cls.len() == rps.len(),
        cls.len() == us.len(),
        cls.len() == ups.len(),
        cls.len() == wp.len(),
        cls.len() == sp.len(),
        cls.len() <= usize::MAX,
        is_permutation(psi, cls.len()),
        forall|i: int| 0 <= i < cls.len() ==> #[trigger] ups[i] == us[psi[i] as int],
        forall|i: int| 0 <= i < cls.len() ==> #[trigger] cpls[i] == madd(
            cls[psi[i] as int],
            rps[psi[i] as int],
        ),
        forall|i: int| 0 <= i < cls.len() ==> #[trigger] sp[i] == madd(wp[i], mmul(chal, ups[i])),
        rprime == sum_seq(Seq::new(cls.len(), |i: int| rps[i] * us[i])) % (Q as int),
        s3 == madd(w3, mmul(chal, rprime)),
        t3 == msub(sum_seq(Seq::new(cls.len(), |i: int| cpls[i] * wp[i])) % (Q as int), w3),
    ensures
        t3 == msub(
            msub(
                sum_seq(Seq::new(cls.len(), |i: int| cpls[i] * sp[i])) % (Q as int),
                mmul(
                    sum_seq(Seq::new(cls.len(), |i: int| cls[i] * us[i])) % (Q as int),
                    chal,
                ),
            ),
            s3,
        ),
{
    let q = Q as int;
    let n = cls.len();
    crate::sums::lemma_permutation_bounds(psi, n);
    let cw = sum_seq(Seq::new(n, |i: int| cpls[i] * wp[i]));
    let cu = sum_seq(Seq::new(n, |i: int| cpls[i] * ups[i]));
    let ee = sum_seq(Seq::new(n, |i: int| cls[i] * us[i]));
    let rp = sum_seq(Seq::new(n, |i: int| rps[i] * us[i]));
    let w_exec = sum_seq(Seq::new(n, |i: int| cpls[i] * sp[i])) % q;
    let e_exec = ee % q;

    lemma_response_sum(cpls, wp, ups, sp, chal);
    assert(w_exec % q == (cw + chal * cu) % q) by {
        lemma_mod_twice(sum_seq(Seq::new(n, |i: int| cpls[i] * sp[i])), q);
    }

    // The shuffled commitments, challenge-weighted, split into the original
    // statement term and the re-randomizer term.
    let t_cpu = Seq::new(n, |i: int| cpls[i] * ups[i]);
    let t_eu = Seq::new(n, |i: int| cls[i] * us[i]);
    let t_ru = Seq::new(n, |i: int| rps[i] * us[i]);
    let t_eu_psi = compose(t_eu, psi);
    let t_ru_psi = compose(t_ru, psi);
    lemma_sum_compose(t_eu, psi);
    lemma_sum_compose(t_ru, psi);
    let t_open = Seq::new(n, |i: int| t_eu_psi[i] + t_ru_psi[i]);
    assert forall|i: int| 0 <= i < n implies #[trigger] t_cpu[i] % q == t_open[i] % q by {
        assert(cpls[i] == madd(cls[psi[i] as int], rps[psi[i] as int]));
        lemma_mod_twice(cls[psi[i] as int] + rps[psi[i] as int], q);
        lemma_mul_cong(cpls[i], cls[psi[i] as int] + rps[psi[i] as int], ups[i], ups[i]);
        assert((cls[psi[i] as int] + rps[psi[i] as int]) * us[psi[i] as int] == cls[psi[
            i
        ] as int] * us[psi[i] as int] + rps[psi[i] as int] * us[psi[i] as int])
            by (nonlinear_arith);
        assert(t_eu_psi[i] == cls[psi[i] as int] * us[psi[i] as int]);
        assert(t_ru_psi[i] == rps[psi[i] as int] * us[psi[i] as int]);
        assert(ups[i] == us[psi[i] as int]);
    }
    lemma_sum_congruent(t_cpu, t_open, q);
    lemma_sum_pointwise_add(t_eu_psi, t_ru_psi);
    assert(cu % q == (ee + rp) % q);

    // The challenge times the aggregates.
    lemma_mul_cong(chal, chal, cu, ee + rp);
    lemma_mod_twice(ee, q);
    lemma_mul_cong(e_exec, ee, chal, chal);
    // The response.
    lemma_mod_twice(chal * rprime, q);
    lemma_mul_cong(chal, chal, rprime, rp);
    lemma_add_cong(w3, w3, (chal * rprime) % q, chal * rp);
    assert(s3 % q == (w3 + chal * rp) % q) by {
        lemma_mod_twice(w3 + (chal * rprime) % q, q);
    }
    // Assemble.
    lemma_mod_twice(ee * chal, q);
    lemma_sub_cong(w_exec, cw + chal * cu, mmul(e_exec, chal), ee * chal);
    assert((cw + chal * cu - ee * chal) % q == (cw + chal * (ee + rp) - ee * chal) % q) by {
        lemma_mul_cong(chal, chal, cu, ee + rp);
        lemma_sub_cong(cw + chal * cu, cw + chal * (ee + rp), ee * chal, ee * chal);
    }
    lemma_mod_twice(cw + chal * (ee + rp) - ee * chal, q);
    lemma_sub_cong(
        msub(w_exec, mmul(e_exec, chal)),
        cw + chal * (ee + rp) - ee * chal,
        s3,
        w3 + chal * rp,
    );
    assert(cw + chal * (ee + rp) - ee * chal - (w3 + chal * rp) == cw - w3) by (nonlinear_arith);
    lemma_mod_twice(cw, q);
    lemma_sub_cong(cw % q, cw, w3, w3);
}

/// The chained verification equations, recomputing each `t_hat[i]`.
pub proof fn lemma_eq_that(
    base: int,
    wh_i: int,
    wp_i: int,
    rh_i: int,
    up_i: int,
    chal: int,
    ch_i: int,
    sh_i: int,
    sp_i: int,
    th_i: int,
)
    requires
        ch_i == madd(rh_i, mmul(base, up_i)),
        sh_i == madd(wh_i, mmul(chal, rh_i)),
        sp_i == madd(wp_i, mmul(chal, up_i)),
        th_i == madd(wh_i, mmul(base, wp_i)),
    ensures
        th_i == msub(madd(sh_i, mmul(base, sp_i)), mmul(ch_i, chal)),
{
    let q = Q as int;
    // The left half: responses recombined.
    lemma_mod_twice(chal * rh_i, q);
    lemma_add_cong(wh_i, wh_i, (chal * rh_i) % q, chal * rh_i);
    lemma_mod_twice(chal * up_i, q);
    lemma_add_cong(wp_i, wp_i, (chal * up_i) % q, chal * up_i);
    lemma_mod_twice(wp_i + chal * up_i, q);
    lemma_mul_cong(base, base, sp_i, wp_i + chal * up_i);
    lemma_mod_twice(base * (wp_i + chal * up_i), q);
    lemma_mod_twice(wh_i + chal * rh_i, q);
    lemma_add_cong(sh_i, wh_i + chal * rh_i, mmul(base, sp_i), base * (wp_i + chal * up_i));
    // The subtracted half: the chain link times the challenge.
    lemma_mod_twice(base * up_i, q);
    lemma_add_cong(rh_i, rh_i, (base * up_i) % q, base * up_i);
    lemma_mod_twice(rh_i + base * up_i, q);
    lemma_mul_cong(ch_i, rh_i + base * up_i, chal, chal);
    lemma_mod_twice((rh_i + base * up_i) * chal, q);
    // Combine and cancel.
    lemma_mod_twice(wh_i + chal * rh_i + base * (wp_i + chal * up_i), q);
    lemma_sub_cong(
        madd(sh_i, mmul(base, sp_i)),
        wh_i + chal * rh_i + base * (wp_i + chal * up_i),
        mmul(ch_i, chal),
        (rh_i + base * up_i) * chal,
    );
    assert(wh_i + chal * rh_i + base * (wp_i + chal * up_i) - (rh_i + base * up_i) * chal == wh_i
        + base * wp_i) by (nonlinear_arith);
    lemma_mod_twice(base * wp_i, q);
    lemma_add_cong(wh_i, wh_i, (base * wp_i) % q, base * wp_i);
}

/// Completeness of the shuffle argument: a transcript assembled by the
/// prover's algorithm — a permutation commitment, a challenge chain, fresh
/// blindings, and Schnorr-style responses to the Fiat–Shamir challenges —
/// satisfies every verification equation.
#[verifier::rlimit(100)]
pub proof fn lemma_shuffle_proof_complete(
    hs: Seq<int>,
    cls: Seq<int>,
    cpls: Seq<int>,
    pi: crate::types::ShuffleProofView,
    psi: Seq<usize>,
    rps: Seq<int>,
    rl: Seq<int>,
    rhs: Seq<int>,
    us: Seq<int>,
    ups: Seq<int>,
    vs: Seq<int>,
    wh: Seq<int>,
    wp: Seq<int>,
    w0: int,
    w1: int,
    w2: int,
    w3: int,
    rbar: int,
    rhat: int,
    rtilde: int,
    rprime: int,
    chal: int,
)
    requires
        hs.len() >= 1,
        hs.len() <= usize::MAX,
        cls.len() == hs.len(),
        cpls.len() == hs.len(),
        rps.len() == hs.len(),
        rl.len() == hs.len(),
        rhs.len() == hs.len(),
        us.len() == hs.len(),
        ups.len() == hs.len(),
        vs.len() == hs.len(),
        wh.len() == hs.len(),
        wp.len() == hs.len(),
        pi.c_list.len() == hs.len(),
        pi.c_hat_list.len() == hs.len(),
        pi.t_hat.len() == hs.len(),
        pi.s_hat.len() == hs.len(),
        pi.s_prime.len() == hs.len(),
        is_permutation(psi, hs.len()),
        0 <= w0 < Q,
        0 <= w1 < Q,
        0 <= w2 < Q,
        0 <= w3 < Q,
        forall|i: int| 0 <= i < hs.len() ==> #[trigger] cpls[i] == madd(
            cls[psi[i] as int],
            rps[psi[i] as int],
        ),
        forall|i: int| 0 <= i < hs.len() ==> #[trigger] pi.c_list[psi[i] as int] == madd(
            rl[psi[i] as int],
            hs[i],
        ),
        forall|i: int| 0 <= i < hs.len() ==> #[trigger] us[i] == crate::transcript::u_challenge(
            cls,
            cpls,
            pi.c_list,
            i,
        ),
        forall|i: int| 0 <= i < hs.len() ==> #[trigger] ups[i] == us[psi[i] as int],
        forall|j: int| 0 <= j < hs.len() ==> #[trigger] pi.c_hat_list[j] == madd(
            rhs[j],
            mmul(if j == 0 { hs[0] } else { pi.c_hat_list[j - 1] }, ups[j]),
        ),
        forall|i: int| 0 <= i < hs.len() ==> #[trigger] vs[i] == prod_range(
            ups,
            i + 1,
            hs.len() as int,
        ) % (Q as int),
        rbar == sum_seq(rl) % (Q as int),
        rhat == sum_seq(Seq::new(hs.len(), |i: int| rhs[i] * vs[i])) % (Q as int),
        rtilde == sum_seq(Seq::new(hs.len(), |i: int| rl[i] * us[i])) % (Q as int),
        rprime == sum_seq(Seq::new(hs.len(), |i: int| rps[i] * us[i])) % (Q as int),
        pi.t0 == w0,
        pi.t1 == w1,
        pi.t2 == madd(sum_seq(Seq::new(hs.len(), |i: int| hs[i] * wp[i])) % (Q as int), w2),
        pi.t3 == msub(sum_seq(Seq::new(hs.len(), |i: int| cpls[i] * wp[i])) % (Q as int), w3),
        forall|i: int| 0 <= i < hs.len() ==> #[trigger] pi.t_hat[i] == madd(
            wh[i],
            mmul(if i == 0 { hs[0] } else { pi.c_hat_list[i - 1] }, wp[i]),
        ),
        chal == crate::transcript::global_challenge(
            cls,
            cpls,
            pi.c_list,
            pi.c_hat_list,
            pi.t0,
            pi.t1,
            pi.t2,
            pi.t3,
            pi.t_hat,
        ),
        pi.s0 == madd(w0, mmul(chal, rbar)),
        pi.s1 == madd(w1, mmul(chal, rhat)),
        pi.s2 == madd(w2, mmul(chal, rtilde)),
        pi.s3 == madd(w3, mmul(chal, rprime)),
        forall|i: int| 0 <= i < hs.len() ==> #[trigger] pi.s_hat[i] == madd(
            wh[i],
            mmul(chal, rhs[i]),
        ),
        forall|i: int| 0 <= i < hs.len() ==> #[trigger] pi.s_prime[i] == madd(
            wp[i],
            mmul(chal, ups[i]),
        ),
    ensures
        crate::shuffle_verifier::proof_equations_ok(hs, cls, cpls, pi),
{
    reveal(crate::shuffle_verifier::proof_equations_ok);
    let q = Q as int;
    let n = hs.len() as int;
    let u = crate::shuffle_verifier::u_seq(cls, cpls, pi.c_list, n);
    assert(u =~= us);

    lemma_eq_t0(hs, pi.c_list, rl, psi, chal, w0, rbar, pi.s0);

    lemma_eq_t1(hs[0], pi.c_hat_list, rhs, ups, us, vs, psi, chal, w1, rhat, pi.s1);

    lemma_eq_t2(hs, pi.c_list, rl, us, ups, psi, wp, pi.s_prime, chal, w2, rtilde, pi.s2, pi.t2);
    assert(Seq::new(n as nat, |i: int| pi.c_list[i] * u[i]) =~= Seq::new(
        hs.len(),
        |i: int| pi.c_list[i] * us[i],
    ));

    lemma_eq_t3(cls, cpls, rps, us, ups, psi, wp, pi.s_prime, chal, w3, rprime, pi.s3, pi.t3);
    assert(Seq::new(n as nat, |i: int| cls[i] * u[i]) =~= Seq::new(
        hs.len(),
        |i: int| cls[i] * us[i],
    ));

    assert forall|i: int| 0 <= i < n implies #[trigger] pi.t_hat[i] == msub(
        madd(
            pi.s_hat[i],
            mmul(if i == 0 { hs[0] } else { pi.c_hat_list[i - 1] }, pi.s_prime[i]),
        ),
        mmul(pi.c_hat_list[i], chal),
    ) by {
        let base = if i == 0 { hs[0] } else { pi.c_hat_list[i - 1] };
        lemma_eq_that(
            base,
            wh[i],
            wp[i],
            rhs[i],
            ups[i],
            chal,
            pi.c_hat_list[i],
            pi.s_hat[i],
            pi.s_prime[i],
            pi.t_hat[i],
        );
    }
}

} // verus!
