//! A toy multiplicative group backend: the quadratic residues of `Z_p*` for
//! a safe prime `p = 2q + 1`, with 32-bit arithmetic verified down to the
//! machine operations.

use vstd::prelude::*;
use vstd::arithmetic::power::{
    pow, lemma_pow0, lemma_pow1, lemma_pow_adds, lemma_pow_multiplies, lemma_pow_mod_noop,
};
use vstd::arithmetic::div_mod::{
    lemma_fundamental_div_mod, lemma_mul_mod_noop_general, lemma_mod_twice, lemma_small_mod,
    lemma_mod_multiples_vanish, lemma_mod_self_0,
};
use crate::utils::random_range_u64;

verus! {

/// `n` has no divisor strictly between one and itself.
pub open spec fn is_prime_spec(n: nat) -> bool {
    &&& n >= 2
    &&& forall|d: int| 2 <= d < n ==> #[trigger] (n as int % d) != 0
}

/// `d` divides `n`.
pub open spec fn divides(d: int, n: int) -> bool {
    exists|k: int| n == #[trigger] (d * k)
}

/// The greatest common divisor, by Euclid's recursion.
pub open spec fn spec_gcd(a: nat, b: nat) -> nat
    decreases b,
{
    if b == 0 {
        a
    } else {
        spec_gcd(b, a % b)
    }
}

/// A common divisor divides every linear combination.
pub proof fn lemma_divides_linear(d: int, x: int, y: int, c1: int, c2: int)
    requires
        divides(d, x),
        divides(d, y),
    ensures
        divides(d, c1 * x + c2 * y),
{
    let kx = choose|k: int| x == #[trigger] (d * k);
    let ky = choose|k: int| y == #[trigger] (d * k);
    assert(c1 * x + c2 * y == d * (c1 * kx + c2 * ky)) by (nonlinear_arith)
        requires
            x == d * kx,
            y == d * ky,
    ;
}

/// The greatest common divisor divides both its arguments.
pub proof fn lemma_gcd_divides(a: nat, b: nat)
    ensures
        divides(spec_gcd(a, b) as int, a as int),
        divides(spec_gcd(a, b) as int, b as int),
    decreases b,
{
    if b == 0 {
        assert(a as int == a as int * 1);
        assert(0int == a as int * 0);
    } else {
        lemma_gcd_divides(b, a % b);
        let g = spec_gcd(a, b) as int;
        lemma_fundamental_div_mod(a as int, b as int);
        lemma_divides_linear(g, b as int, (a % b) as int, a as int / b as int, 1);
        assert((a as int / b as int) * b + 1 * ((a % b) as int) == a as int);
    }
}

/// Modular multiplication through a 64-bit intermediate.
pub fn modmul(a: u32, b: u32, modulo: u32) -> (r: u32)
    requires
        modulo >= 1,
    ensures
        r == (a * b) % (modulo as int),
        r < modulo,
{
    assert((a as u64) * (b as u64) < 0xffff_ffff_ffff_ffff) by (nonlinear_arith)
        requires
            a <= 0xffff_ffff_u64,
            b <= 0xffff_ffff_u64,
    ;
    ((a as u64 * b as u64) % modulo as u64) as u32
}

/// Modular exponentiation by repeated squaring.
#[verifier::rlimit(100)]
pub fn modexp(base: u32, exp: u32, modulo: u32) -> (r: u32)
    requires
        modulo >= 1,
    ensures
        r == pow(base as int, exp as nat) % (modulo as int),
        r < modulo,
{
    let m = modulo as u64;
    if modulo == 1 {
        proof {
            assert(pow(base as int, exp as nat) % 1int == 0);
        }
        return 0;
    }
    let mut b: u64 = base as u64 % m;
    let mut e: u32 = exp;
    let mut result: u64 = 1;
    proof {
        lemma_pow_mod_noop(base as int, exp as nat, m as int);
    }
    while e > 0
        invariant
            m == modulo,
            m >= 2,
            result < m,
            b < m,
            (result * pow(b as int, e as nat)) % (m as int) == pow(base as int, exp as nat) % (
            m as int),
        decreases e,
    {
        let ghost e0 = e as nat;
        let ghost b0 = b as int;
        let ghost r0 = result as int;
        let ghost mi = m as int;
        assert(result * b < 0xffff_ffff_ffff_ffff && b * b < 0xffff_ffff_ffff_ffff)
            by (nonlinear_arith)
            requires
                result < m,
                b < m,
                m <= 0xffff_ffff_u64,
        ;
        let half = e / 2;
        let bit = e % 2;
        if bit == 1 {
            result = result * b % m;
        }
        b = b * b % m;
        e = half;
        proof {
            let q = half as nat;
            assert(e0 == 2 * q + bit);
            lemma_pow_adds(b0, (2 * q) as nat, bit as nat);
            lemma_pow_multiplies(b0, 2, q);
            assert(pow(b0, 2) == b0 * b0) by {
                lemma_pow1(b0);
                lemma_pow_adds(b0, 1, 1);
            }
            lemma_pow_mod_noop(b0 * b0, q, mi);
            assert(b as int == (b0 * b0) % mi);
            assert(pow(b as int, q) % mi == pow(b0 * b0, q) % mi);
            if bit == 1 {
                lemma_pow1(b0);
                assert(result as int == (r0 * b0) % mi);
                assert((r0 * b0) * pow(b0 * b0, q) == r0 * pow(b0, e0)) by (nonlinear_arith)
                    requires
                        pow(b0 * b0, q) == pow(b0, (2 * q) as nat),
                        pow(b0, e0) == pow(b0, (2 * q) as nat) * pow(b0, 1),
                        pow(b0, 1) == b0,
                ;
                lemma_mul_mod_noop_general(r0 * b0, pow(b0 * b0, q), mi);
                lemma_mul_mod_noop_general(result as int, pow(b as int, q), mi);
                assert((result as int * pow(b as int, q)) % mi == ((r0 * b0) * pow(
                    b0 * b0,
                    q,
                )) % mi);
            } else {
                lemma_pow0(b0);
                assert(pow(b0, e0) == pow(b0 * b0, q));
                lemma_mul_mod_noop_general(r0, pow(b0 * b0, q), mi);
                lemma_mul_mod_noop_general(r0, pow(b as int, q), mi);
            }
        }
    }
    proof {
        lemma_pow0(b as int);
        lemma_small_mod(result as nat, m as nat);
    }
    result as u32
}

/// Modular inverse by the extended Euclidean algorithm, with the Bézout
/// coefficient kept as a residue.  Returns the inverse whenever the final
/// remainder is one; a larger final remainder yields nothing.
#[verifier::rlimit(100)]
pub fn modinv(a: u32, modulo: u32) -> (r: Option<u32>)
    requires
        modulo >= 2,
    ensures
        r is Some <==> spec_gcd(modulo as nat, (a as int % modulo as int) as nat) == 1,
        r is Some ==> r.unwrap() < modulo && (a * r.unwrap()) % (modulo as int) == 1,
        r is None ==> forall|t: int| #[trigger] ((a as int * t) % (modulo as int)) != 1,
{
    let m = modulo as u64;
    let ghost mi = m as int;
    let ghost ai = a as int;
    let mut r_cur: u64 = m;
    let mut r_new: u64 = a as u64 % m;
    let mut t_cur: u64 = 0;
    let mut t_new: u64 = 1;
    let ghost g = spec_gcd(m as nat, (a as int % mi) as nat);
    proof {
        lemma_mod_self_0(mi);
        lemma_mod_twice(ai, mi);
        lemma_small_mod(0nat, m as nat);
        assert(ai * 0 == 0);
        assert(ai * 1 == ai);
    }
    while r_new != 0
        invariant
            m == modulo,
            m >= 2,
            mi == m as int,
            ai == a as int,
            g == spec_gcd(m as nat, (a as int % mi) as nat),
            spec_gcd(r_cur as nat, r_new as nat) == g,
            r_cur <= m,
            r_new < m,
            t_cur < m,
            t_new < m,
            (ai * t_cur as int) % mi == (r_cur as int) % mi,
            (ai * t_new as int) % mi == (r_new as int) % mi,
        decreases r_new,
    {
        let q = r_cur / r_new;
        let r_next = r_cur % r_new;
        proof {
            assert(spec_gcd(r_cur as nat, r_new as nat) == spec_gcd(
                r_new as nat,
                (r_cur as nat) % (r_new as nat),
            ));
            assert((r_cur as nat) % (r_new as nat) == r_next as nat);
        }
        assert(q * t_new < 0xffff_ffff_ffff_ffff) by (nonlinear_arith)
            requires
                q <= m,
                t_new < m,
                m <= 0xffff_ffff_u64,
        ;
        let qt = q * t_new % m;
        let t_next = (t_cur + m - qt) % m;
        proof {
            lemma_fundamental_div_mod(r_cur as int, r_new as int);
            let qi = q as int;
            let tn = t_new as int;
            let tc = t_cur as int;
            let qt_i = qt as int;
            let rc = r_cur as int;
            let rn = r_new as int;
            // a * t_next ≡ a*t_cur - a*qt (mod m)
            lemma_mul_mod_noop_general(ai, t_next as int, mi);
            lemma_mod_twice(tc + mi - qt_i, mi);
            lemma_mul_mod_noop_general(ai, tc + mi - qt_i, mi);
            assert(ai * (tc + mi - qt_i) == ai * tc + ai * mi - ai * qt_i)
                by (nonlinear_arith);
            lemma_mod_multiples_vanish(ai, ai * tc - ai * qt_i, mi);
            assert((ai * (tc + mi - qt_i)) % mi == (ai * tc - ai * qt_i) % mi);
            // a*qt ≡ q * (a*t_new) ≡ q * r_new (mod m)
            lemma_mul_mod_noop_general(ai, qt_i, mi);
            lemma_mod_twice(qi * tn, mi);
            lemma_mul_mod_noop_general(ai, qi * tn, mi);
            assert(ai * (qi * tn) == qi * (ai * tn)) by (nonlinear_arith);
            lemma_mul_mod_noop_general(qi, ai * tn, mi);
            lemma_mul_mod_noop_general(qi, rn, mi);
            assert((ai * qt_i) % mi == (qi * rn) % mi);
            // combine: a*t_next ≡ r_cur - q*r_new = r_next (mod m)
            crate::group::lemma_sub_cong_m(ai * tc, rc, ai * qt_i, qi * rn, mi);
            assert(rc - qi * rn == r_next as int);
            crate::group::lemma_sub_cong_m(rc, rc, qi * rn, qi * rn, mi);
            assert((ai * t_next as int) % mi == (r_next as int) % mi);
        }
        r_cur = r_new;
        r_new = r_next;
        t_cur = t_new;
        t_new = t_next;
    }
    proof {
        assert(spec_gcd(r_cur as nat, 0) == r_cur as nat);
        assert(r_cur as nat == g);
    }
    if r_cur == 1 {
        proof {
            lemma_small_mod(1nat, m as nat);
            lemma_small_mod(t_cur as nat, m as nat);
        }
        Some(t_cur as u32)
    } else {
        proof {
            assert(r_cur != 1);
            assert(g >= 2) by {
                assert(g == r_cur as nat);
                if r_cur == 0 {
                    // The chain started from m >= 2 and the remainders only
                    // shrink to the greatest common divisor, never to zero.
                    lemma_gcd_divides(m as nat, (ai % mi) as nat);
                    let k = choose|k: int| m as int == #[trigger] (0 * k);
                    assert(false);
                }
            }
            assert forall|t: int| #[trigger] ((ai * t) % mi) != 1 by {
                if (ai * t) % mi == 1 {
                    lemma_fundamental_div_mod(ai * t, mi);
                    let quo = (ai * t) / mi;
                    assert(ai * t == mi * quo + 1);
                    lemma_gcd_divides(m as nat, (ai % mi) as nat);
                    let gi = g as int;
                    // g divides a, since a = (a/m)·m + a%m.
                    lemma_fundamental_div_mod(ai, mi);
                    lemma_divides_linear(gi, mi, ai % mi, ai / mi, 1);
                    assert((ai / mi) * mi + 1 * (ai % mi) == ai);
                    assert(divides(gi, ai));
                    // g divides 1 = t·a - quo·m.
                    lemma_divides_linear(gi, ai, mi, t, 0 - quo);
                    assert(t * ai + (0 - quo) * mi == 1) by (nonlinear_arith)
                        requires
                            ai * t == mi * quo + 1,
                    ;
                    assert(divides(gi, 1));
                    let k = choose|k: int| 1int == #[trigger] (gi * k);
                    assert(false) by (nonlinear_arith)
                        requires
                            1int == gi * k,
                            gi >= 2,
                    ;
                }
            }
        }
        None
    }
}

/// Primality by trial division up to the square root.
#[verifier::rlimit(60)]
pub fn is_prime(n: u32) -> (r: bool)
    ensures
        r == is_prime_spec(n as nat),
{
    if n < 2 {
        return false;
    }
    let mut d: u32 = 2;
    while d <= n / d
        invariant
            2 <= d,
            n >= 2,
            d <= n,
            forall|e: int| 2 <= e < d ==> #[trigger] (n as int % e) != 0,
        decreases n - d,
    {
        proof {
            lemma_fundamental_div_mod(n as int, d as int);
        }
        assert((d as int) * (d as int) <= n) by (nonlinear_arith)
            requires
                d as int <= n as int / d as int,
                n as int == (n as int / d as int) * d as int + n as int % d as int,
                0 <= n as int % d as int,
                d >= 2,
        ;
        if n % d == 0 {
            assert(d < n) by (nonlinear_arith)
                requires
                    (d as int) * (d as int) <= n as int,
                    d >= 2,
                    n >= 2,
            ;
            assert(n as int % d as int == 0);
            return false;
        }
        assert(d < n) by (nonlinear_arith)
            requires
                (d as int) * (d as int) <= n as int,
                d >= 2,
                n >= 2,
        ;
        d = d + 1;
    }
    proof {
        lemma_fundamental_div_mod(n as int, d as int);
    }
    assert((d as int) * (d as int) > n) by (nonlinear_arith)
        requires
            d as int > n as int / d as int,
            n as int == (n as int / d as int) * d as int + n as int % d as int,
            (n as int % d as int) < d as int,
            d >= 2,
    ;
    proof {
        assert forall|e: int| 2 <= e < n implies #[trigger] (n as int % e) != 0 by {
            if n as int % e == 0 {
                let f = n as int / e;
                lemma_fundamental_div_mod(n as int, e);
                assert(n as int == e * f);
                assert(f >= 2) by (nonlinear_arith)
                    requires
                        n as int == e * f,
                        2 <= e < n,
                        n >= 2,
                ;
                if e < d {
                    assert(n as int % e != 0);
                } else {
                    assert(f < d) by (nonlinear_arith)
                        requires
                            n as int == e * f,
                            e >= d,
                            (d as int) * (d as int) > n as int,
                            f >= 2,
                            d >= 2,
                    ;
                    assert(n as int % f == 0) by {
                        lemma_mod_multiples_vanish(e, 0, f);
                        assert(f * e == n as int) by (nonlinear_arith)
                            requires
                                n as int == e * f,
                        ;
                        lemma_small_mod(0, f as nat);
                    }
                    assert(n as int % f != 0);
                }
            }
        }
    }
    true
}

/// Draws random candidates until it finds a safe prime `p = 2q + 1` below
/// twice the bound, giving up after a fixed number of attempts.
pub fn safe_prime(size: u32) -> (r: Option<(u32, u32)>)
    requires
        size >= 2,
    ensures
        r is Some ==> {
            let (p, q) = r.unwrap();
            &&& p == 2 * q + 1
            &&& is_prime_spec(p as nat)
            &&& is_prime_spec(q as nat)
            &&& q < size
        },
{
    let mut attempts: u32 = 0;
    while attempts < 100000
        invariant
            size >= 2,
        decreases 100000 - attempts,
    {
        let q = random_range_u64(0, size as u64) as u32;
        if q <= (u32::MAX - 1) / 2 {
            let p = 2 * q + 1;
            if is_prime(p) && is_prime(q) {
                return Some((p, q));
            }
        }
        attempts = attempts + 1;
    }
    None
}

/// A scalar of the toy group: a residue modulo the group order `q`.
#[derive(Clone, Copy, PartialEq, Eq, Structural, Debug)]
pub struct U32ModScalar {
    pub value: u32,
    pub group: U32ModGroup,
}

/// An element of the toy group: a residue modulo the prime `p`, composed
/// multiplicatively.
#[derive(Clone, Copy, PartialEq, Eq, Structural, Debug)]
pub struct U32ModElement {
    pub value: u32,
    pub group: U32ModGroup,
}

/// The group parameters: modulus `p`, order `q`, and generator `g`.
#[derive(Clone, Copy, PartialEq, Eq, Structural, Debug)]
pub struct U32ModGroup {
    pub p: u32,
    pub q: u32,
    pub g: u32,
}

impl U32ModGroup {
    pub open spec fn wf(self) -> bool {
        &&& self.p >= 2
        &&& self.q >= 2
        &&& self.g < self.p
    }

    pub fn new(p: u32, q: u32, g: u32) -> (r: Self)
        ensures
            r.p == p,
            r.q == q,
            r.g == g,
    {
        U32ModGroup { p, q, g }
    }

    /// The multiplicative identity.
    pub fn identity(&self) -> (r: U32ModElement)
        ensures
            r.value == 1,
            r.group == *self,
    {
        U32ModElement { value: 1, group: *self }
    }

    pub fn zero(&self) -> (r: U32ModScalar)
        ensures
            r.value == 0,
            r.group == *self,
    {
        U32ModScalar { value: 0, group: *self }
    }

    pub fn one(&self) -> (r: U32ModScalar)
        ensures
            r.value == 1,
            r.group == *self,
    {
        U32ModScalar { value: 1, group: *self }
    }

    /// A random group element, drawn as the square of a random residue; for
    /// a safe prime modulus the squares are exactly the order-`q` subgroup.
    pub fn random_element(&self) -> (r: U32ModElement)
        requires
            self.p > 2,
        ensures
            r.group == *self,
            r.value < self.p,
            exists|x: int| r.value == #[trigger] (pow(x, 2) % (self.p as int)),
    {
        let v = random_range_u64(2, self.p as u64) as u32;
        let value = modexp(v, 2, self.p);
        proof {
            assert(value == pow(v as int, 2) % (self.p as int));
        }
        U32ModElement { value, group: *self }
    }

    pub fn random_scalar(&self) -> (r: U32ModScalar)
        requires
            self.q > 2,
        ensures
            r.group == *self,
            r.value < self.q,
    {
        U32ModScalar { value: random_range_u64(2, self.q as u64) as u32, group: *self }
    }

    /// The generator raised to a scalar.
    pub fn mul_generator(&self, scalar: &U32ModScalar) -> (r: U32ModElement)
        requires
            self.wf(),
        ensures
            r.group == *self,
            r.value == pow(self.g as int, scalar.value as nat) % (self.p as int),
    {
        U32ModElement { value: modexp(self.g, scalar.value, self.p), group: *self }
    }

    /// An element read from four big-endian bytes, reduced modulo `p`.
    pub fn element_from_bytes(&self, bytes: &Vec<u8>) -> (r: U32ModElement)
        requires
            self.wf(),
            bytes@.len() >= 4,
        ensures
            r.group == *self,
            r.value < self.p,
    {
        let v = ((bytes[0] as u32) << 24) | ((bytes[1] as u32) << 16) | ((bytes[2] as u32) << 8)
            | (bytes[3] as u32);
        U32ModElement { value: v % self.p, group: *self }
    }

    /// A scalar read from four big-endian bytes, reduced modulo `q`.
    pub fn scalar_from_bytes(&self, bytes: &Vec<u8>) -> (r: U32ModScalar)
        requires
            self.wf(),
            bytes@.len() >= 4,
        ensures
            r.group == *self,
            r.value < self.q,
    {
        let v = ((bytes[0] as u32) << 24) | ((bytes[1] as u32) << 16) | ((bytes[2] as u32) << 8)
            | (bytes[3] as u32);
        U32ModScalar { value: v % self.q, group: *self }
    }
}

impl U32ModScalar {
    pub fn add(&self, other: &U32ModScalar) -> (r: U32ModScalar)
        requires
            self.group.wf(),
            self.value < self.group.q,
            other.value < self.group.q,
        ensures
            r.group == self.group,
            r.value == (self.value + other.value) % (self.group.q as int),
    {
        U32ModScalar {
            value: ((self.value as u64 + other.value as u64) % self.group.q as u64) as u32,
            group: self.group,
        }
    }

    pub fn sub(&self, other: &U32ModScalar) -> (r: U32ModScalar)
        requires
            self.group.wf(),
            self.value < self.group.q,
            other.value < self.group.q,
        ensures
            r.group == self.group,
            r.value == (self.value - other.value) % (self.group.q as int),
    {
        proof {
            lemma_mod_multiples_vanish(
                1,
                self.value as int - other.value as int,
                self.group.q as int,
            );
        }
        U32ModScalar {
            value: ((self.value as u64 + self.group.q as u64 - other.value as u64)
                % self.group.q as u64) as u32,
            group: self.group,
        }
    }

    pub fn mul(&self, other: &U32ModScalar) -> (r: U32ModScalar)
        requires
            self.group.wf(),
        ensures
            r.group == self.group,
            r.value == (self.value * other.value) % (self.group.q as int),
    {
        U32ModScalar { value: modmul(self.value, other.value, self.group.q), group: self.group }
    }

    pub fn neg(&self) -> (r: U32ModScalar)
        requires
            self.group.wf(),
            self.value < self.group.q,
        ensures
            r.group == self.group,
            r.value == (0 - self.value as int) % (self.group.q as int),
    {
        proof {
            lemma_mod_multiples_vanish(1, 0 - self.value as int, self.group.q as int);
        }
        U32ModScalar {
            value: (self.group.q - self.value) % self.group.q,
            group: self.group,
        }
    }

    /// The multiplicative inverse in the scalar field: present exactly when
    /// the value is coprime to the order.
    pub fn inv(&self) -> (r: Option<U32ModScalar>)
        requires
            self.group.wf(),
        ensures
            r is Some <==> spec_gcd(
                self.group.q as nat,
                (self.value as int % self.group.q as int) as nat,
            ) == 1,
            r is Some ==> r.unwrap().value < self.group.q && (self.value * r.unwrap().value) % (
            self.group.q as int) == 1,
            r is None ==> forall|t: int| #[trigger] ((self.value as int * t) % (
            self.group.q as int)) != 1,
    {
        match modinv(self.value, self.group.q) {
            Some(v) => Some(U32ModScalar { value: v, group: self.group }),
            None => None,
        }
    }

    /// The scalar's four big-endian bytes.
    pub fn to_bytes(&self) -> (r: Vec<u8>)
        ensures
            r@.len() == 4,
    {
        let mut out: Vec<u8> = Vec::new();
        out.push((self.value >> 24) as u8);
        out.push((self.value >> 16) as u8);
        out.push((self.value >> 8) as u8);
        out.push(self.value as u8);
        out
    }
}

impl U32ModElement {
    /// The group operation: multiplication modulo `p`.
    pub fn add(&self, other: &U32ModElement) -> (r: U32ModElement)
        requires
            self.group.wf(),
        ensures
            r.group == self.group,
            r.value == (self.value * other.value) % (self.group.p as int),
    {
        U32ModElement { value: modmul(self.value, other.value, self.group.p), group: self.group }
    }

    /// Scalar multiplication: exponentiation modulo `p`.
    pub fn mul_scalar(&self, scalar: &U32ModScalar) -> (r: U32ModElement)
        requires
            self.group.wf(),
        ensures
            r.group == self.group,
            r.value == pow(self.value as int, scalar.value as nat) % (self.group.p as int),
    {
        U32ModElement { value: modexp(self.value, scalar.value, self.group.p), group: self.group }
    }

    /// The group inverse: present exactly when the residue is coprime to
    /// the modulus.
    pub fn inv(&self) -> (r: Option<U32ModElement>)
        requires
            self.group.wf(),
        ensures
            r is Some <==> spec_gcd(
                self.group.p as nat,
                (self.value as int % self.group.p as int) as nat,
            ) == 1,
            r is Some ==> r.unwrap().value < self.group.p && (self.value * r.unwrap().value) % (
            self.group.p as int) == 1,
            r is None ==> forall|t: int| #[trigger] ((self.value as int * t) % (
            self.group.p as int)) != 1,
    {
        match modinv(self.value, self.group.p) {
            Some(v) => Some(U32ModElement { value: v, group: self.group }),
            None => None,
        }
    }

    /// The element's four big-endian bytes.
    pub fn to_bytes(&self) -> (r: Vec<u8>)
        ensures
            r@.len() == 4,
    {
        let mut out: Vec<u8> = Vec::new();
        out.push((self.value >> 24) as u8);
        out.push((self.value >> 16) as u8);
        out.push((self.value >> 8) as u8);
        out.push(self.value as u8);
        out
    }
}

} // verus!
