//! Elements of the prime field of order `p = 2^64 - 2^32 + 1`, kept in Montgomery form.
use vstd::arithmetic::div_mod::*;
use vstd::arithmetic::mul::*;
use vstd::arithmetic::power::*;
use vstd::arithmetic::power2::*;
use vstd::prelude::*;

verus! {

/// The field's prime, 2^64 - 2^32 + 1.
pub const P: u64 = 0xffff_ffff_0000_0001;

/// 2^128 mod p, used to bring integers into Montgomery form.
pub const R2: u64 = 0xffff_fffe_0000_0001;

/// 2^64 mod p, i.e. 2^32 - 1.
pub const EPSILON: u64 = 0xffff_ffff;

/// The Montgomery radix, 2^64.
pub open spec fn radix() -> int {
    0x1_0000_0000_0000_0000
}

/// The inverse of p modulo 2^64, i.e. 2^32 + 1.
pub open spec fn p_inv_mod_radix() -> int {
    0x1_0000_0001
}

/// The inverse of 2^64 modulo p, i.e. p - 2^32.
pub open spec fn radix_inv() -> int {
    18446744065119617025
}

/// Montgomery reduction of `x`: the integer `t = (x - m * p) / 2^64`, where `m` is the
/// multiple that makes the division exact, lifted by `p` when it is negative.
pub open spec fn mont_reduce(x: int) -> int {
    let m = ((x % radix()) * p_inv_mod_radix()) % radix();
    let t = (x - m * P) / radix();
    if t < 0 {
        t + P
    } else {
        t
    }
}

/// The exact division behind `mont_reduce`, step by step over the 64-bit halves of `x`.
proof fn lemma_mont_reduce_parts(x: int)
    requires
        0 <= x < radix() * radix(),
    ensures
        ({
            let m = ((x % radix()) * p_inv_mod_radix()) % radix();
            let xh = x / radix();
            let b = (m * P - x % radix()) / radix();
            &&& 0 <= m < radix()
            &&& 0 <= b < P
            &&& m * P - x % radix() == b * radix()
            &&& x - m * P == (xh - b) * radix()
            &&& 0 <= xh < radix()
        }),
{
    let xl = x % radix();
    let xh = x / radix();
    lemma_fundamental_div_mod(x, radix());
    let l0 = xl % 0x1_0000_0000;
    let l1 = xl / 0x1_0000_0000;
    lemma_fundamental_div_mod(xl, 0x1_0000_0000);
    let s = xl + l0 * 0x1_0000_0000;
    let e: int = if s >= radix() { 1 } else { 0 };
    let a = s - e * radix();
    lemma_fundamental_div_mod_converse(a, 0x1_0000_0000, l0 + l1 - e * 0x1_0000_0000, l0);
    let m = (xl * p_inv_mod_radix()) % radix();
    assert(xl * p_inv_mod_radix() == a + (e + l1) * radix());
    lemma_fundamental_div_mod_converse(xl * p_inv_mod_radix(), radix(), e + l1, a);
    assert(m == a);
    let b = a - (l0 + l1 - e * 0x1_0000_0000) - e;
    assert(m * P - xl == b * radix());
    lemma_fundamental_div_mod_converse(m * P - xl, radix(), b, 0);
}

/// What Montgomery reduction yields: a residue of `x / 2^64` modulo p, in 64 bits, and
/// canonical when `x < p * 2^64`.
pub proof fn lemma_mont_reduce(x: int)
    requires
        0 <= x < radix() * radix(),
    ensures
        0 <= mont_reduce(x) < radix(),
        (mont_reduce(x) * radix()) % (P as int) == x % (P as int),
        x < P * radix() ==> mont_reduce(x) < P,
{
    lemma_mont_reduce_parts(x);
    let m = ((x % radix()) * p_inv_mod_radix()) % radix();
    let t = (x - m * P) / radix();
    let r = mont_reduce(x);
    if t < 0 {
        assert(r * radix() == x + (radix() - m) * P);
    } else {
        assert(r * radix() == x + (-m) * P);
    }
    lemma_mod_multiples_vanish(radix() - m, x, P as int);
    lemma_mod_multiples_vanish(-m, x, P as int);
}

/// Below `p * 2^64`, Montgomery reduction is exactly `x * 2^-64 mod p`.
pub proof fn lemma_mont_reduce_canonical(x: int)
    requires
        0 <= x < P * radix(),
    ensures
        mont_reduce(x) == (x * radix_inv()) % (P as int),
{
    lemma_mont_reduce(x);
    lemma_unmont(mont_reduce(x), x);
    lemma_small_mod(mont_reduce(x) as nat, P as nat);
}

impl BFieldElement {
    /// Montgomery reduction, without a division: the result `r` fits in 64 bits, satisfies
    /// `r * 2^64 == x (mod p)`, and lies in `[0, p)` when `x < p * 2^64`.
    pub fn montyred(x: u128) -> (r: u64)
        ensures
            r as int == mont_reduce(x as int),
            x < P * radix() ==> r as int == (x * radix_inv()) % (P as int),
    {
        let xl = (x % 0x1_0000_0000_0000_0000) as u64;
        let xh = (x / 0x1_0000_0000_0000_0000) as u64;
        // xl << 32, truncated to 64 bits
        let shifted: u64 = (xl % 0x1_0000_0000) * 0x1_0000_0000;
        let a = xl.wrapping_add(shifted);
        let e: u64 = if a < xl { 1 } else { 0 };
        let b = a.wrapping_sub(a / 0x1_0000_0000).wrapping_sub(e);
        let r = xh.wrapping_sub(b);
        let c: u64 = if xh < b { 1 } else { 0 };
        let res = r.wrapping_sub(EPSILON * c);
        proof {
            let xi = x as int;
            let l0 = xl as int % 0x1_0000_0000;
            let l1 = xl as int / 0x1_0000_0000;
            lemma_fundamental_div_mod(xl as int, 0x1_0000_0000);
            assert(a as int + e * radix() == xl + l0 * 0x1_0000_0000);
            lemma_fundamental_div_mod_converse(
                a as int,
                0x1_0000_0000,
                l0 + l1 - e * 0x1_0000_0000,
                l0,
            );
            assert(b as int == a - (l0 + l1 - e * 0x1_0000_0000) - e);
            let m = ((xi % radix()) * p_inv_mod_radix()) % radix();
            assert(xl as int * p_inv_mod_radix() == a + (e + l1) * radix());
            lemma_fundamental_div_mod_converse(xl as int * p_inv_mod_radix(), radix(), e + l1, a as int);
            assert(m == a);
            assert(a * P - xl == b * radix());
            lemma_fundamental_div_mod(xi, radix());
            assert(xi - m * P == (xh - b) * radix());
            lemma_fundamental_div_mod_converse(xi - m * P, radix(), xh - b, 0);
            assert(b < P);
            if x < P * radix() {
                lemma_mont_reduce_canonical(x as int);
            }
        }
        res
    }
}

/// The field value that a Montgomery-form word `w` stands for: `w * 2^-64 mod p`.
pub open spec fn value_of(w: int) -> int {
    (w * radix_inv()) % (P as int)
}

/// Raw word of the sum, as the field's addition computes it.
pub open spec fn add_raw(a: u64, b: u64) -> u64 {
    let b1 = if b > P { (b - P) as int } else { b as int };
    if a + b1 < P {
        (a + b1) as u64
    } else {
        (a + b1 - P) as u64
    }
}

/// Raw word of the difference, as the field's subtraction computes it.
pub open spec fn sub_raw(a: u64, b: u64) -> u64 {
    let b1 = if b > P { (b - P) as int } else { b as int };
    if a >= b1 {
        (a - b1) as u64
    } else {
        (a - b1 + P) as u64
    }
}

/// Raw word of the product, as the field's multiplication computes it.
pub open spec fn mul_raw(a: u64, b: u64) -> u64 {
    mont_reduce(a * b) as u64
}

proof fn lemma_radix_inv()
    ensures
        (radix() * radix_inv()) % (P as int) == 1,
{
}

/// A word `r` with `r * 2^64 == x (mod p)` is congruent to `x * 2^-64`.
pub proof fn lemma_unmont(r: int, x: int)
    requires
        (r * radix()) % (P as int) == x % (P as int),
    ensures
        r % (P as int) == (x * radix_inv()) % (P as int),
{
    let p = P as int;
    lemma_radix_inv();
    lemma_mul_mod_noop_right(r, radix() * radix_inv(), p);
    lemma_mul_is_associative(r, radix(), radix_inv());
    lemma_mul_mod_noop_left(r * radix(), radix_inv(), p);
    lemma_mul_mod_noop_left(x, radix_inv(), p);
}

/// Words congruent modulo p stand for the same value.
pub proof fn lemma_value_congruent(w1: int, w2: int)
    requires
        w1 % (P as int) == w2 % (P as int),
    ensures
        value_of(w1) == value_of(w2),
{
    lemma_mul_mod_noop_left(w1, radix_inv(), P as int);
    lemma_mul_mod_noop_left(w2, radix_inv(), P as int);
}

/// The value of a sum of words is the sum of their values.
pub proof fn lemma_value_add(a: int, b: int)
    ensures
        value_of(a + b) == (value_of(a) + value_of(b)) % (P as int),
{
    lemma_mul_is_distributive_add_other_way(radix_inv(), a, b);
    lemma_add_mod_noop(a * radix_inv(), b * radix_inv(), P as int);
}

/// The value of a difference of words is the difference of their values.
pub proof fn lemma_value_sub(a: int, b: int)
    ensures
        value_of(a - b) == (value_of(a) - value_of(b)) % (P as int),
{
    lemma_mul_is_distributive_sub_other_way(radix_inv(), a, b);
    lemma_sub_mod_noop(a * radix_inv(), b * radix_inv(), P as int);
}

/// Montgomery multiplication of words multiplies the values they stand for.
pub proof fn lemma_value_mul(a: u64, b: u64)
    ensures
        value_of(mul_raw(a, b) as int) == (value_of(a as int) * value_of(b as int)) % (P as int),
{
    let p = P as int;
    let x = a * b;
    assert(0 <= x < radix() * radix()) by (nonlinear_arith)
        requires x == a * b, a < radix(), b < radix(), a >= 0, b >= 0;
    lemma_mont_reduce(x);
    let r = mont_reduce(x);
    assert(mul_raw(a, b) as int == r);
    lemma_radix_inv();
    // r == r * (R * R^-1) == x * R^-1 (mod p)
    lemma_mul_mod_noop_right(r, radix() * radix_inv(), p);
    lemma_mul_is_associative(r, radix(), radix_inv());
    lemma_mul_mod_noop_left(r * radix(), radix_inv(), p);
    lemma_mul_mod_noop_left(x, radix_inv(), p);
    assert(r % p == (x * radix_inv()) % p);
    lemma_mul_mod_noop_left(r, radix_inv(), p);
    lemma_mul_mod_noop_left(x * radix_inv(), radix_inv(), p);
    assert((r * radix_inv()) % p == (x * radix_inv() * radix_inv()) % p);
    lemma_mul_mod_noop(a * radix_inv(), b * radix_inv(), p);
    assert(x * radix_inv() * radix_inv() == (a * radix_inv()) * (b * radix_inv()))
        by (nonlinear_arith)
        requires x == a * b;
}

/// Bringing `value` into Montgomery form, as `mont_reduce(value * 2^128 mod p)`, yields the
/// canonical word of `value mod p`.
pub proof fn lemma_montify(value: u64)
    ensures
        0 <= mont_reduce(value * R2) < P,
        value_of(mont_reduce(value * R2)) == (value as int) % (P as int),
{
    let x = value * R2;
    let w = mont_reduce(x);
    assert(x < P * radix()) by (nonlinear_arith)
        requires x == value * R2, value < radix(), R2 < P;
    lemma_mont_reduce(x);
    lemma_unmont(w, x);
    let p = P as int;
    lemma_mul_mod_noop_left(w, radix_inv(), p);
    lemma_mul_mod_noop_left(x * radix_inv(), radix_inv(), p);
    assert(x * radix_inv() * radix_inv() == value * (R2 * radix_inv() * radix_inv()))
        by (nonlinear_arith)
        requires x == value * R2;
    assert((R2 * radix_inv() * radix_inv()) % p == 1);
    lemma_mul_mod_noop_right(value as int, R2 * radix_inv() * radix_inv(), p);
}

/// Round trip: every canonical value comes back out of its Montgomery form unchanged.
pub proof fn lemma_round_trip(v: u64)
    requires
        v < P,
    ensures
        value_of(mont_reduce(v * R2)) == v,
{
    lemma_montify(v);
    lemma_small_mod(v as nat, P as nat);
}

/// The field laws, on the values that `+`, `*` and `-` compute: commutativity and
/// associativity of addition and multiplication, distributivity, the identities `0` and `1`,
/// and `a + (-a) == 0`.
pub proof fn lemma_field_axioms(a: BFieldElement, b: BFieldElement, c: BFieldElement)
    ensures
        (a@ + b@) % (P as int) == (b@ + a@) % (P as int),
        (a@ * b@) % (P as int) == (b@ * a@) % (P as int),
        ((a@ + b@) % (P as int) + c@) % (P as int) == (a@ + (b@ + c@) % (P as int)) % (P as int),
        ((a@ * b@) % (P as int) * c@) % (P as int) == (a@ * ((b@ * c@) % (P as int))) % (P as int),
        (a@ * ((b@ + c@) % (P as int))) % (P as int) == ((a@ * b@) % (P as int) + (a@ * c@) % (
        P as int)) % (P as int),
        (a@ + 0) % (P as int) == a@,
        (a@ * 1) % (P as int) == a@,
        (a@ + (-a@) % (P as int)) % (P as int) == 0,
{
    let p = P as int;
    let (x, y, z) = (a@, b@, c@);
    assert((x * y) % p == (y * x) % p) by {
        lemma_mul_is_commutative(x, y);
    }
    assert(((x + y) % p + z) % p == (x + (y + z) % p) % p) by {
        lemma_add_mod_noop(x + y, z, p);
        lemma_add_mod_noop(x, y + z, p);
        lemma_mod_twice(x + y, p);
        lemma_mod_twice(y + z, p);
        lemma_mod_twice(z, p);
        lemma_mod_twice(x, p);
    }
    assert(((x * y) % p * z) % p == (x * ((y * z) % p)) % p) by {
        lemma_mul_mod_noop_left(x * y, z, p);
        lemma_mul_mod_noop_right(x, y * z, p);
        lemma_mul_is_associative(x, y, z);
    }
    assert((x * ((y + z) % p)) % p == ((x * y) % p + (x * z) % p) % p) by {
        lemma_mul_mod_noop_right(x, y + z, p);
        lemma_mul_is_distributive_add(x, y, z);
        lemma_add_mod_noop(x * y, x * z, p);
    }
    assert((x + (-x) % p) % p == 0) by {
        lemma_add_mod_noop(x, -x, p);
        lemma_mod_twice(x, p);
    }
}

/// For words below p, addition gives the same word in either order, and so does
/// multiplication for any words: `a + b == b + a` and `a * b == b * a` as elements.
pub proof fn lemma_commutative_words(a: BFieldElement, b: BFieldElement)
    requires
        a.raw() < P,
        b.raw() < P,
    ensures
        add_raw(a.raw(), b.raw()) == add_raw(b.raw(), a.raw()),
        mul_raw(a.raw(), b.raw()) == mul_raw(b.raw(), a.raw()),
{
    lemma_mul_is_commutative(a.raw() as int, b.raw() as int);
}

/// Division agrees with multiplication by the inverse: the value that `a / b` yields is that of
/// `a * inv` for the inverse `inv` of `b`.
pub proof fn lemma_div_is_mul_inverse(a: BFieldElement, b: BFieldElement, inv: BFieldElement)
    requires
        inv@ == pow(b@, (P - 2) as nat) % (P as int),
    ensures
        (pow(b@, (P - 2) as nat) % (P as int) * a@) % (P as int) == (a@ * inv@) % (P as int),
{
    lemma_mul_is_commutative(a@, inv@);
}

/// Of the inverse law, what holds without knowing that p is prime: `a * a^(p-2)` is
/// `a^(p-1)`, the power that Fermat's little theorem sends to `1`.
pub proof fn lemma_inverse_product(a: BFieldElement, inv: BFieldElement)
    requires
        inv@ == pow(a@, (P - 2) as nat) % (P as int),
    ensures
        (a@ * inv@) % (P as int) == pow(a@, (P - 1) as nat) % (P as int),
{
    lemma_pow1(a@);
    lemma_small_mod(a@ as nat, P as nat);
    lemma_pow_mul_mod(a@, (P - 2) as nat, 1);
    lemma_mul_is_commutative(a@, inv@);
}

/// An element of the prime field of order p = 2^64 - 2^32 + 1, held in Montgomery form: the
/// word `w` stands for the value `w * 2^-64 mod p`. Any 64-bit word is a valid element; the
/// field operations keep words below p when their operands are.
#[derive(Debug, Copy, Clone, Default, Hash, PartialEq, Eq, Structural)]
pub struct BFieldElement(u64);

impl View for BFieldElement {
    type V = int;

    /// The field value, in `[0, p)`.
    open spec fn view(&self) -> int {
        value_of(self.raw() as int)
    }
}

impl BFieldElement {
    /// Number of bytes in the raw representation.
    pub const BYTES: usize = 8;

    /// The field's prime.
    pub const P: u64 = 0xffff_ffff_0000_0001;

    /// The largest canonical value, p - 1.
    pub const MAX: u64 = 0xffff_ffff_0000_0000;

    /// The Montgomery-form word.
    pub closed spec fn raw(self) -> u64 {
        self.0
    }

    /// The element for `value mod p`; its word lies below p.
    pub fn new(value: u64) -> (r: Self)
        ensures
            r@ == (value as int) % (P as int),
            r.raw() < P,
            r.raw() as int == mont_reduce(value * R2),
    {
        proof {
            lemma_mul_upper_bound(value as int, 0xffff_ffff_ffff_ffff, R2 as int, 0xffff_ffff_ffff_ffff);
        }
        let w = Self::montyred((value as u128) * (R2 as u128));
        proof {
            lemma_montify(value);
        }
        BFieldElement(w)
    }

    /// The canonical value of the element, in `[0, p)`.
    pub fn value(&self) -> (r: u64)
        ensures
            r as int == self@,
    {
        self.canonical_representation()
    }

    fn canonical_representation(&self) -> (r: u64)
        ensures
            r as int == self@,
    {
        let r = Self::montyred(self.0 as u128);
        proof {
            lemma_mont_reduce(self.0 as int);
            lemma_radix_inv();
            lemma_mul_mod_noop_right(r as int, radix() * radix_inv(), P as int);
            lemma_mul_is_associative(r as int, radix(), radix_inv());
            lemma_mul_mod_noop_left(r as int * radix(), radix_inv(), P as int);
            lemma_mul_mod_noop_left(self.0 as int, radix_inv(), P as int);
            lemma_small_mod(r as nat, P as nat);
        }
        r
    }

    /// The additive identity.
    pub fn zero() -> (r: Self)
        ensures
            r@ == 0,
            r.raw() == 0,
    {
        BFieldElement(0)
    }

    /// The multiplicative identity.
    pub fn one() -> (r: Self)
        ensures
            r@ == 1,
            r.raw() == EPSILON,
    {
        BFieldElement(EPSILON)
    }

    /// Whether the word is that of `zero()`.
    pub fn is_zero(&self) -> (r: bool)
        ensures
            r == (self.raw() == 0),
    {
        self.0 == 0
    }

    /// Whether the word is that of `one()`.
    pub fn is_one(&self) -> (r: bool)
        ensures
            r == (self.raw() == EPSILON),
    {
        self.0 == EPSILON
    }

    /// The eight bytes of the Montgomery-form word, least significant first.
    pub fn raw_bytes(&self) -> (r: [u8; 8])
        ensures
            r@ == bytes_of_word(self.raw()),
    {
        let w = self.0;
        let r = [
            (w % 0x100) as u8,
            (w / 0x100 % 0x100) as u8,
            (w / 0x1_0000 % 0x100) as u8,
            (w / 0x100_0000 % 0x100) as u8,
            (w / 0x1_0000_0000 % 0x100) as u8,
            (w / 0x100_0000_0000 % 0x100) as u8,
            (w / 0x1_0000_0000_0000 % 0x100) as u8,
            (w / 0x100_0000_0000_0000 % 0x100) as u8,
        ];
        assert(r@ =~= bytes_of_word(w));
        r
    }

    /// The Montgomery-form word.
    pub fn raw_u64(&self) -> (r: u64)
        ensures
            r == self.raw(),
    {
        self.0
    }

    /// The element whose Montgomery-form word has these bytes, least significant first.
    pub fn from_raw_bytes(bytes: &[u8; 8]) -> (r: Self)
        ensures
            r.raw() as int == word_of_bytes(bytes@),
    {
        let w: u64 = bytes[0] as u64 + bytes[1] as u64 * 0x100 + bytes[2] as u64 * 0x1_0000
            + bytes[3] as u64 * 0x100_0000 + bytes[4] as u64 * 0x1_0000_0000 + bytes[5] as u64
            * 0x100_0000_0000 + bytes[6] as u64 * 0x1_0000_0000_0000 + bytes[7] as u64
            * 0x100_0000_0000_0000;
        BFieldElement(w)
    }

    /// The element whose Montgomery-form word is `e`.
    pub fn from_raw_u64(e: u64) -> (r: Self)
        ensures
            r.raw() == e,
    {
        BFieldElement(e)
    }
}

/// `v^e1 * v^e2 == v^(e1 + e2)`, modulo p.
pub proof fn lemma_pow_mul_mod(v: int, e1: nat, e2: nat)
    ensures
        ((pow(v, e1) % (P as int)) * (pow(v, e2) % (P as int))) % (P as int) == pow(v, e1 + e2)
            % (P as int),
{
    lemma_pow_adds(v, e1, e2);
    lemma_mul_mod_noop(pow(v, e1), pow(v, e2), P as int);
}

/// `n` squarings of `base`, which raise it to the power `2^n`.
fn exp(base: BFieldElement, n: u64, Ghost(v): Ghost<int>, Ghost(e): Ghost<nat>) -> (r:
    BFieldElement)
    requires
        base@ == pow(v, e) % (P as int),
    ensures
        r@ == pow(v, e * pow2(n as nat)) % (P as int),
{
    let mut res = base;
    let mut i: u64 = 0;
    proof {
        lemma2_to64();
    }
    while i < n
        invariant
            i <= n,
            res@ == pow(v, e * pow2(i as nat)) % (P as int),
        decreases n - i,
    {
        proof {
            lemma_pow_mul_mod(v, e * pow2(i as nat), e * pow2(i as nat));
            lemma_pow2_unfold((i + 1) as nat);
            assert(e * pow2((i + 1) as nat) == e * pow2(i as nat) + e * pow2(i as nat))
                by (nonlinear_arith)
                requires pow2((i + 1) as nat) == 2 * pow2(i as nat);
        }
        res = res * res;
        i += 1;
    }
    res
}

/// The product of two powers of `v`, as a power of `v`.
fn mul_pow(
    a: BFieldElement,
    b: BFieldElement,
    Ghost(v): Ghost<int>,
    Ghost(e1): Ghost<nat>,
    Ghost(e2): Ghost<nat>,
) -> (r: BFieldElement)
    requires
        a@ == pow(v, e1) % (P as int),
        b@ == pow(v, e2) % (P as int),
    ensures
        r@ == pow(v, e1 + e2) % (P as int),
{
    proof {
        lemma_pow_mul_mod(v, e1, e2);
    }
    a * b
}

impl BFieldElement {
    /// The multiplicative inverse, `self^(p - 2)`, by a fixed addition chain.
    pub fn inverse(&self) -> (r: Self)
        requires
            self@ != 0,
        ensures
            r@ == pow(self@, (P - 2) as nat) % (P as int),
            (r@ * self@) % (P as int) == pow(self@, (P - 1) as nat) % (P as int),
    {
        let x = *self;
        let ghost v = self@;
        proof {
            lemma_pow1(v);
            lemma_small_mod(v as nat, P as nat);
            lemma2_to64();
        }
        let bin_2_ones = mul_pow(exp(x, 1, Ghost(v), Ghost(1)), x, Ghost(v), Ghost(2), Ghost(1));
        let bin_3_ones = mul_pow(
            exp(bin_2_ones, 1, Ghost(v), Ghost(3)),
            x,
            Ghost(v),
            Ghost(6),
            Ghost(1),
        );
        let bin_6_ones = mul_pow(
            exp(bin_3_ones, 3, Ghost(v), Ghost(7)),
            bin_3_ones,
            Ghost(v),
            Ghost(56),
            Ghost(7),
        );
        let bin_12_ones = mul_pow(
            exp(bin_6_ones, 6, Ghost(v), Ghost(63)),
            bin_6_ones,
            Ghost(v),
            Ghost(4032),
            Ghost(63),
        );
        let bin_24_ones = mul_pow(
            exp(bin_12_ones, 12, Ghost(v), Ghost(4095)),
            bin_12_ones,
            Ghost(v),
            Ghost(16773120),
            Ghost(4095),
        );
        let bin_30_ones = mul_pow(
            exp(bin_24_ones, 6, Ghost(v), Ghost(16777215)),
            bin_6_ones,
            Ghost(v),
            Ghost(1073741760),
            Ghost(63),
        );
        let bin_31_ones = mul_pow(
            exp(bin_30_ones, 1, Ghost(v), Ghost(1073741823)),
            x,
            Ghost(v),
            Ghost(2147483646),
            Ghost(1),
        );
        let bin_31_ones_1_zero = exp(bin_31_ones, 1, Ghost(v), Ghost(2147483647));
        let bin_32_ones = mul_pow(bin_31_ones_1_zero, x, Ghost(v), Ghost(4294967294), Ghost(1));
        let r = mul_pow(
            exp(bin_31_ones_1_zero, 32, Ghost(v), Ghost(4294967294)),
            bin_32_ones,
            Ghost(v),
            Ghost(18446744065119617024),
            Ghost(4294967295),
        );
        proof {
            lemma_pow_mul_mod(v, (P - 2) as nat, 1);
        }
        r
    }

    fn square(self) -> (r: Self)
        ensures
            r@ == (self@ * self@) % (P as int),
            r.raw() == mul_raw(self.raw(), self.raw()),
    {
        self * self
    }
}

impl core::ops::Add for BFieldElement {
    type Output = Self;

    /// Field addition on the Montgomery words: `a + b = a - (p - b)`, corrected by p on borrow.
    fn add(self, rhs: Self) -> (r: Self)
        ensures
            r.raw() == add_raw(self.raw(), rhs.raw()),
            r@ == (self@ + rhs@) % (P as int),
            self.raw() < P && rhs.raw() < P ==> r.raw() < P,
    {
        let b = if rhs.0 > P { rhs.0 - P } else { rhs.0 };
        let x1 = self.0.wrapping_sub(P - b);
        let c1 = self.0 < P - b;
        let r = if c1 { x1.wrapping_add(P) } else { x1 };
        proof {
            lemma_add_raw_congruent(self.0, rhs.0);
            lemma_value_congruent(r as int, self.0 + rhs.0);
            lemma_value_add(self.0 as int, rhs.0 as int);
        }
        BFieldElement(r)
    }
}

impl vstd::std_specs::ops::AddSpecImpl for BFieldElement {
    open spec fn obeys_add_spec() -> bool {
        true
    }

    open spec fn add_req(self, rhs: Self) -> bool {
        true
    }

    closed spec fn add_spec(self, rhs: Self) -> Self {
        BFieldElement(add_raw(self.0, rhs.0))
    }
}

impl core::ops::Sub for BFieldElement {
    type Output = Self;

    /// Field subtraction on the Montgomery words, corrected by p on borrow.
    fn sub(self, rhs: Self) -> (r: Self)
        ensures
            r.raw() == sub_raw(self.raw(), rhs.raw()),
            r@ == (self@ - rhs@) % (P as int),
            self.raw() < P && rhs.raw() < P ==> r.raw() < P,
    {
        let b = if rhs.0 > P { rhs.0 - P } else { rhs.0 };
        let x1 = self.0.wrapping_sub(b);
        let c1: u64 = if self.0 < b { 1 } else { 0 };
        let r = x1.wrapping_sub(EPSILON * c1);
        proof {
            lemma_sub_raw_congruent(self.0, rhs.0);
            lemma_value_congruent(r as int, self.0 - rhs.0);
            lemma_value_sub(self.0 as int, rhs.0 as int);
        }
        BFieldElement(r)
    }
}

impl vstd::std_specs::ops::SubSpecImpl for BFieldElement {
    open spec fn obeys_sub_spec() -> bool {
        true
    }

    open spec fn sub_req(self, rhs: Self) -> bool {
        true
    }

    closed spec fn sub_spec(self, rhs: Self) -> Self {
        BFieldElement(sub_raw(self.0, rhs.0))
    }
}

impl core::ops::Mul for BFieldElement {
    type Output = Self;

    /// Field multiplication: Montgomery reduction of the product of the words.
    fn mul(self, rhs: Self) -> (r: Self)
        ensures
            r.raw() == mul_raw(self.raw(), rhs.raw()),
            r@ == (self@ * rhs@) % (P as int),
            self.raw() < P && rhs.raw() < P ==> r.raw() < P,
    {
        proof {
            lemma_mul_upper_bound(self.0 as int, 0xffff_ffff_ffff_ffff, rhs.0 as int, 0xffff_ffff_ffff_ffff);
        }
        let r = Self::montyred((self.0 as u128) * (rhs.0 as u128));
        proof {
            lemma_value_mul(self.0, rhs.0);
            let x = self.0 * rhs.0;
            assert(0 <= x < radix() * radix()) by (nonlinear_arith)
                requires x == self.0 * rhs.0, self.0 < radix(), rhs.0 < radix(), self.0 >= 0, rhs.0 >= 0;
            assert(self.0 < P && rhs.0 < P ==> x < P * radix()) by (nonlinear_arith)
                requires x == self.0 * rhs.0, self.0 >= 0, rhs.0 >= 0, P < radix();
            lemma_mont_reduce(x);
        }
        BFieldElement(r)
    }
}

impl vstd::std_specs::ops::MulSpecImpl for BFieldElement {
    open spec fn obeys_mul_spec() -> bool {
        true
    }

    open spec fn mul_req(self, rhs: Self) -> bool {
        true
    }

    closed spec fn mul_spec(self, rhs: Self) -> Self {
        BFieldElement(mul_raw(self.0, rhs.0))
    }
}

impl core::ops::Neg for BFieldElement {
    type Output = Self;

    /// The additive inverse, `zero() - self`.
    fn neg(self) -> (r: Self)
        ensures
            r.raw() == sub_raw(0, self.raw()),
            r@ == (-self@) % (P as int),
            self.raw() < P ==> r.raw() < P,
    {
        Self::zero() - self
    }
}

impl vstd::std_specs::ops::NegSpecImpl for BFieldElement {
    open spec fn obeys_neg_spec() -> bool {
        true
    }

    open spec fn neg_req(self) -> bool {
        true
    }

    closed spec fn neg_spec(self) -> Self {
        BFieldElement(sub_raw(0, self.0))
    }
}

impl core::ops::Div for BFieldElement {
    type Output = Self;

    /// Field division, `self * other.inverse()`; `other` must not be zero.
    fn div(self, other: Self) -> (r: Self)
        ensures
            r@ == (pow(other@, (P - 2) as nat) % (P as int) * self@) % (P as int),
    {
        other.inverse() * self
    }
}

impl vstd::std_specs::ops::DivSpecImpl for BFieldElement {
    open spec fn obeys_div_spec() -> bool {
        false
    }

    open spec fn div_req(self, rhs: Self) -> bool {
        rhs@ != 0
    }

    open spec fn div_spec(self, rhs: Self) -> Self {
        self
    }
}

impl core::ops::AddAssign for BFieldElement {
    fn add_assign(&mut self, rhs: Self)
        ensures
            final(self).raw() == add_raw(old(self).raw(), rhs.raw()),
            final(self)@ == (old(self)@ + rhs@) % (P as int),
    {
        *self = *self + rhs
    }
}

impl core::ops::SubAssign for BFieldElement {
    fn sub_assign(&mut self, rhs: Self)
        ensures
            final(self).raw() == sub_raw(old(self).raw(), rhs.raw()),
            final(self)@ == (old(self)@ - rhs@) % (P as int),
    {
        *self = *self - rhs
    }
}

impl core::ops::MulAssign for BFieldElement {
    fn mul_assign(&mut self, rhs: Self)
        ensures
            final(self).raw() == mul_raw(old(self).raw(), rhs.raw()),
            final(self)@ == (old(self)@ * rhs@) % (P as int),
    {
        *self = *self * rhs;
    }
}

/// The sum word is congruent to the sum of the words.
proof fn lemma_add_raw_congruent(a: u64, b: u64)
    ensures
        (add_raw(a, b) as int) % (P as int) == (a + b) % (P as int),
{
    let b1 = if b > P { b - P } else { b as int };
    if a + b1 < P {
    } else {
        assert(add_raw(a, b) as int == a + b1 - P);
    }
    lemma_mod_multiples_vanish(-1, a + b, P as int);
    lemma_mod_multiples_vanish(-2, a + b, P as int);
}

/// The difference word is congruent to the difference of the words.
proof fn lemma_sub_raw_congruent(a: u64, b: u64)
    ensures
        (sub_raw(a, b) as int) % (P as int) == (a - b) % (P as int),
{
    lemma_mod_multiples_vanish(1, a - b, P as int);
    lemma_mod_multiples_vanish(2, a - b, P as int);
}

/// The eight bytes of the word `w`, least significant first.
pub open spec fn bytes_of_word(w: u64) -> Seq<u8> {
    seq![
        (w % 0x100) as u8,
        (w / 0x100 % 0x100) as u8,
        (w / 0x1_0000 % 0x100) as u8,
        (w / 0x100_0000 % 0x100) as u8,
        (w / 0x1_0000_0000 % 0x100) as u8,
        (w / 0x100_0000_0000 % 0x100) as u8,
        (w / 0x1_0000_0000_0000 % 0x100) as u8,
        (w / 0x100_0000_0000_0000 % 0x100) as u8,
    ]
}

/// The word whose bytes, least significant first, are `b[0..8]`.
pub open spec fn word_of_bytes(b: Seq<u8>) -> int {
    b[0] + b[1] * 0x100 + b[2] * 0x1_0000 + b[3] * 0x100_0000 + b[4] * 0x1_0000_0000 + b[5]
        * 0x100_0000_0000 + b[6] * 0x1_0000_0000_0000 + b[7] * 0x100_0000_0000_0000
}

} // verus!
