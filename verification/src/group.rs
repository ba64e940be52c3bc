//! The cyclic group of known prime order that the protocol works over.
//!
//! The protocol only needs the abstract contract of a cyclic group of prime
//! order `Q` with a scalar field of the same order: element addition, scalar
//! multiplication, a distinguished generator `G`, and an independent Pedersen
//! base `h` chosen at election setup.  This backend realizes that contract as
//! the additive group of integers modulo the prime `Q`, with every operation
//! verified down to the machine arithmetic; an element's mathematical view is
//! its discrete logarithm with respect to `G`, so contracts and proofs speak
//! plain modular arithmetic.

use vstd::prelude::*;

verus! {

/// The group order: the Mersenne prime 2^31 - 1.
pub const Q: u64 = 0x7fff_ffff;

/// Addition in the scalar field / group, on mathematical integers.
pub open spec fn madd(a: int, b: int) -> int {
    (a + b) % (Q as int)
}

/// Subtraction modulo the group order.
pub open spec fn msub(a: int, b: int) -> int {
    (a - b) % (Q as int)
}

/// Multiplication modulo the group order.
pub open spec fn mmul(a: int, b: int) -> int {
    (a * b) % (Q as int)
}

/// Additive inverse modulo the group order.
pub open spec fn mneg(a: int) -> int {
    (0 - a) % (Q as int)
}

/// The views of a sequence of group elements.
pub open spec fn elem_views(s: Seq<Element>) -> Seq<int> {
    s.map_values(|e: Element| e@)
}

/// Every element of the sequence is a canonical residue.
pub open spec fn elems_wf(s: Seq<Element>) -> bool {
    forall|i: int| 0 <= i < s.len() ==> (#[trigger] s[i]).wf()
}

/// The views of a sequence of scalars.
pub open spec fn scalar_views(s: Seq<Scalar>) -> Seq<int> {
    s.map_values(|x: Scalar| x@)
}

/// Every scalar of the sequence is a canonical residue.
pub open spec fn scalars_wf(s: Seq<Scalar>) -> bool {
    forall|i: int| 0 <= i < s.len() ==> (#[trigger] s[i]).wf()
}

/// A scalar: an exponent for the group, i.e. an integer modulo `Q`.
#[derive(Clone, Copy, PartialEq, Eq, Structural, Debug)]
pub struct Scalar {
    pub value: u64,
}

/// A group element, identified by its discrete logarithm with respect to the
/// generator `G`; the group operation is written additively.
#[derive(Clone, Copy, PartialEq, Eq, Structural, Debug)]
pub struct Element {
    pub value: u64,
}

impl View for Scalar {
    type V = int;

    open spec fn view(&self) -> int {
        self.value as int
    }
}

impl View for Element {
    type V = int;

    open spec fn view(&self) -> int {
        self.value as int
    }
}

impl Scalar {
    /// A scalar is well formed when it is a canonical residue modulo `Q`.
    pub open spec fn wf(self) -> bool {
        self.value < Q
    }

    /// The canonical scalar representing `value` modulo `Q`.
    pub fn new(value: u64) -> (r: Scalar)
        ensures
            r.wf(),
            r@ == value as int % (Q as int),
    {
        Scalar { value: value % Q }
    }

    /// The zero of the scalar field.
    pub fn zero() -> (r: Scalar)
        ensures
            r.wf(),
            r@ == 0,
    {
        Scalar { value: 0 }
    }

    /// The one of the scalar field.
    pub fn one() -> (r: Scalar)
        ensures
            r.wf(),
            r@ == 1,
    {
        Scalar { value: 1 }
    }

    pub fn add(&self, other: &Scalar) -> (r: Scalar)
        requires
            self.wf(),
            other.wf(),
        ensures
            r.wf(),
            r@ == madd(self@, other@),
    {
        Scalar { value: (self.value + other.value) % Q }
    }

    pub fn sub(&self, other: &Scalar) -> (r: Scalar)
        requires
            self.wf(),
            other.wf(),
        ensures
            r.wf(),
            r@ == msub(self@, other@),
    {
        proof {
            vstd::arithmetic::div_mod::lemma_mod_add_multiples_vanish(
                self@ - other@,
                Q as int,
            );
        }
        Scalar { value: (self.value + Q - other.value) % Q }
    }

    pub fn mul(&self, other: &Scalar) -> (r: Scalar)
        requires
            self.wf(),
            other.wf(),
        ensures
            r.wf(),
            r@ == mmul(self@, other@),
    {
        assert(self.value * other.value < 0x4000_0000_0000_0000) by (nonlinear_arith)
            requires
                self.value < Q,
                other.value < Q,
        ;
        Scalar { value: (self.value * other.value) % Q }
    }

    pub fn neg(&self) -> (r: Scalar)
        requires
            self.wf(),
        ensures
            r.wf(),
            r@ == mneg(self@),
    {
        proof {
            vstd::arithmetic::div_mod::lemma_mod_add_multiples_vanish(
                0 - self@,
                Q as int,
            );
        }
        Scalar { value: (Q - self.value) % Q }
    }

    /// The multiplicative inverse in the scalar field: present exactly when
    /// the value is coprime to the group order, and absent otherwise, in
    /// which case no scalar at all multiplies with it to one.
    pub fn inv(&self) -> (r: Option<Scalar>)
        requires
            self.wf(),
        ensures
            r is Some <==> crate::groups::u32_mod::spec_gcd(Q as nat, self.value as nat) == 1,
            r is Some ==> r.unwrap().wf() && mmul(self@, r.unwrap()@) == 1,
            r is None ==> forall|t: int| #[trigger] mmul(self@, t) != 1,
    {
        proof {
            vstd::arithmetic::div_mod::lemma_small_mod(self.value as nat, Q as nat);
        }
        match crate::groups::u32_mod::modinv(self.value as u32, Q as u32) {
            Some(v) => Some(Scalar { value: v as u64 }),
            None => None,
        }
    }
}

impl Element {
    /// An element is well formed when its discrete logarithm is a canonical
    /// residue modulo the group order.
    pub open spec fn wf(self) -> bool {
        self.value < Q
    }

    /// The group's neutral element.
    pub fn identity() -> (r: Element)
        ensures
            r.wf(),
            r@ == 0,
    {
        Element { value: 0 }
    }

    /// The distinguished generator `G` (discrete logarithm one).
    pub fn generator() -> (r: Element)
        ensures
            r.wf(),
            r@ == 1,
    {
        Element { value: 1 }
    }

    /// The group operation.
    pub fn add(&self, other: &Element) -> (r: Element)
        requires
            self.wf(),
            other.wf(),
        ensures
            r.wf(),
            r@ == madd(self@, other@),
    {
        Element { value: (self.value + other.value) % Q }
    }

    /// The difference `self - other` in the group.
    pub fn sub(&self, other: &Element) -> (r: Element)
        requires
            self.wf(),
            other.wf(),
        ensures
            r.wf(),
            r@ == msub(self@, other@),
    {
        proof {
            vstd::arithmetic::div_mod::lemma_mod_add_multiples_vanish(
                self@ - other@,
                Q as int,
            );
        }
        Element { value: (self.value + Q - other.value) % Q }
    }

    /// The group inverse.
    pub fn inv(&self) -> (r: Element)
        requires
            self.wf(),
        ensures
            r.wf(),
            r@ == mneg(self@),
    {
        proof {
            vstd::arithmetic::div_mod::lemma_mod_add_multiples_vanish(
                0 - self@,
                Q as int,
            );
        }
        Element { value: (Q - self.value) % Q }
    }

    /// Scalar multiplication (repeated group operation).
    pub fn mul_scalar(&self, scalar: &Scalar) -> (r: Element)
        requires
            self.wf(),
            scalar.wf(),
        ensures
            r.wf(),
            r@ == mmul(self@, scalar@),
    {
        assert(self.value * scalar.value < 0x4000_0000_0000_0000) by (nonlinear_arith)
            requires
                self.value < Q,
                scalar.value < Q,
        ;
        Element { value: (self.value * scalar.value) % Q }
    }

    /// `G` raised to the scalar: the map from exponents to elements.
    pub fn mul_generator(scalar: &Scalar) -> (r: Element)
        requires
            scalar.wf(),
        ensures
            r.wf(),
            r@ == scalar@,
    {
        Element { value: scalar.value }
    }
}

/// Congruent summands give congruent sums.
pub proof fn lemma_add_cong(a: int, b: int, c: int, d: int)
    requires
        a % (Q as int) == b % (Q as int),
        c % (Q as int) == d % (Q as int),
    ensures
        (a + c) % (Q as int) == (b + d) % (Q as int),
{
    vstd::arithmetic::div_mod::lemma_add_mod_noop(a, c, Q as int);
    vstd::arithmetic::div_mod::lemma_add_mod_noop(b, d, Q as int);
}

/// Congruent operands give congruent differences.
pub proof fn lemma_sub_cong(a: int, b: int, c: int, d: int)
    requires
        a % (Q as int) == b % (Q as int),
        c % (Q as int) == d % (Q as int),
    ensures
        (a - c) % (Q as int) == (b - d) % (Q as int),
{
    vstd::arithmetic::div_mod::lemma_sub_mod_noop(a, c, Q as int);
    vstd::arithmetic::div_mod::lemma_sub_mod_noop(b, d, Q as int);
}

/// Congruent factors give congruent products.
pub proof fn lemma_mul_cong(a: int, b: int, c: int, d: int)
    requires
        a % (Q as int) == b % (Q as int),
        c % (Q as int) == d % (Q as int),
    ensures
        (a * c) % (Q as int) == (b * d) % (Q as int),
{
    vstd::arithmetic::div_mod::lemma_mul_mod_noop_general(a, c, Q as int);
    vstd::arithmetic::div_mod::lemma_mul_mod_noop_general(b, d, Q as int);
}

/// Congruent operands give congruent differences, for any modulus.
pub proof fn lemma_sub_cong_m(a: int, b: int, c: int, d: int, m: int)
    requires
        m > 0,
        a % m == b % m,
        c % m == d % m,
    ensures
        (a - c) % m == (b - d) % m,
{
    vstd::arithmetic::div_mod::lemma_sub_mod_noop(a, c, m);
    vstd::arithmetic::div_mod::lemma_sub_mod_noop(b, d, m);
}

/// Adding a residue and then subtracting it gives the value back.
pub proof fn lemma_mod_cancel(w: int, y: int)
    requires
        0 <= w < Q,
    ensures
        msub(madd(w, y), y) == w,
{
    vstd::arithmetic::div_mod::lemma_mod_twice(w + y, Q as int);
    lemma_sub_cong(w + y, (w + y) % (Q as int), y, y);
    vstd::arithmetic::div_mod::lemma_small_mod(w as nat, Q as nat);
}

} // verus!
