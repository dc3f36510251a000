//! Constant-product (Uniswap V2) pricing with the 0.3% fee, and the size of
//! the trade that maximises a two-pool round trip.
use vstd::prelude::*;
use vstd::arithmetic::power::{pow, lemma_square_is_pow2};
use vstd::arithmetic::div_mod::lemma_small_mod;
use crate::uint::{
    U256, U512, word_modulus, wide_modulus, is_zero, lt, mul_wrapping, add_wrapping, div_floor,
    checked_add, checked_sub, checked_mul, checked_div, mul_wrapping_wide, root_wide,
};

verus! {

/// The pool fee is `1 - FEE_NUMERATOR / FEE_DENOMINATOR` (0.3%).
pub const FEE_NUMERATOR: u64 = 997;

/// See [`FEE_NUMERATOR`].
pub const FEE_DENOMINATOR: u64 = 1000;

/// [`FEE_NUMERATOR`] as a mathematical integer.
pub open spec fn fee_num() -> nat {
    FEE_NUMERATOR as nat
}

/// [`FEE_DENOMINATOR`] as a mathematical integer.
pub open spec fn fee_den() -> nat {
    FEE_DENOMINATOR as nat
}

/// The input amount after the fee, as the 256-bit arithmetic computes it.
pub open spec fn amount_in_with_fee(amount_in: nat) -> nat {
    (amount_in * fee_num()) % word_modulus()
}

/// The divisor of the pricing formula, as the 256-bit arithmetic computes it.
pub open spec fn amount_out_denominator(amount_in: nat, reserve_in: nat) -> nat {
    ((reserve_in * fee_den()) % word_modulus() + amount_in_with_fee(amount_in))
        % word_modulus()
}

/// The inputs on which `get_amount_out` does not divide by zero.
pub open spec fn amount_out_defined(amount_in: nat, reserve_in: nat, reserve_out: nat) -> bool {
    amount_in == 0 || reserve_in == 0 || reserve_out == 0
        || amount_out_denominator(amount_in, reserve_in) != 0
}

/// What `get_amount_out` returns: zero when any input is zero, else
/// `floor(997·a·R_out / (1000·R_in + 997·a))` with every product and sum taken
/// modulo 2^256 as the 256-bit arithmetic does.
pub open spec fn amount_out(amount_in: nat, reserve_in: nat, reserve_out: nat) -> nat {
    if amount_in == 0 || reserve_in == 0 || reserve_out == 0 {
        0
    } else {
        ((amount_in_with_fee(amount_in) * reserve_out) % word_modulus()) / amount_out_denominator(
            amount_in,
            reserve_in,
        )
    }
}

/// The constant-product output over unbounded integers.
pub open spec fn constant_product_out(amount_in: nat, reserve_in: nat, reserve_out: nat) -> nat {
    (amount_in * fee_num() * reserve_out) / (reserve_in * fee_den() + amount_in * fee_num())
}

/// Output of a swap of `amount_in` against reserves `(reserve_in, reserve_out)`.
pub fn get_amount_out(amount_in: U256, reserve_in: U256, reserve_out: U256) -> (r: U256)
    requires
        amount_out_defined(amount_in@, reserve_in@, reserve_out@),
    ensures
        r@ == amount_out(amount_in@, reserve_in@, reserve_out@),
        amount_in@ < reserve_bound() && reserve_in@ < reserve_bound() && reserve_out@
            < reserve_bound() && amount_in@ > 0 && reserve_in@ > 0 && reserve_out@ > 0 ==> r@
            == constant_product_out(amount_in@, reserve_in@, reserve_out@),
{
    proof {
        if amount_in@ < reserve_bound() && reserve_in@ < reserve_bound() && reserve_out@
            < reserve_bound() {
            lemma_amount_out_constant_product(amount_in@, reserve_in@, reserve_out@);
        }
    }
    if is_zero(&amount_in) || is_zero(&reserve_in) || is_zero(&reserve_out) {
        return U256::zero();
    }
    let amount_in_with_fee = mul_wrapping(&amount_in, &U256::from_u64(FEE_NUMERATOR));
    let numerator = mul_wrapping(&amount_in_with_fee, &reserve_out);
    let denominator = add_wrapping(
        &mul_wrapping(&reserve_in, &U256::from_u64(FEE_DENOMINATOR)),
        &amount_in_with_fee,
    );
    div_floor(&numerator, &denominator)
}

/// `r` is the floor of the square root of `x`.
pub open spec fn is_isqrt(x: nat, r: nat) -> bool {
    r * r <= x && x < (r + 1) * (r + 1)
}

/// The floor of the square root of `x`: the `r` with `r² <= x < (r + 1)²`.
pub open spec fn isqrt(x: nat) -> nat {
    choose|r: nat| #[trigger] is_isqrt(x, r)
}

/// The square root is unique: any `r` with `r² <= x < (r + 1)²` is `isqrt(x)`.
pub proof fn lemma_isqrt_unique(x: nat, r: nat)
    requires
        r * r <= x,
        x < (r + 1) * (r + 1),
    ensures
        isqrt(x) == r,
{
    assert(is_isqrt(x, r));
    let s = isqrt(x);
    assert(s * s <= x && x < (s + 1) * (s + 1));
    if s < r {
        assert((s + 1) * (s + 1) <= r * r) by (nonlinear_arith)
            requires
                s < r,
        ;
    } else if r < s {
        assert((r + 1) * (r + 1) <= s * s) by (nonlinear_arith)
            requires
                r < s,
        ;
    }
}

/// The trade size that `get_optimial_arbitrage_amount` returns for selling A
/// on pool 1 (reserves `r1_a`, `r1_b`) and buying it back on pool 2
/// (reserves `r2_a`, `r2_b`): with γ = 997/1000, the size
/// `δ = (√(C·K) − K) / M` where `C = γ²·r1_b·r2_a`, `K = r1_a·r2_b` and
/// `M = γ·(r2_b + γ·r1_b)`, all scaled to integers by powers of 1000 and
/// rounded down. It is `None` when a reserve is zero, when pool 1 does not
/// overprice A after fees (`C <= K`), or when one of the overflow-checked
/// steps of the computation leaves 256 bits.
pub open spec fn optimal_amount(r1_a: nat, r1_b: nat, r2_a: nat, r2_b: nat) -> Option<nat> {
    let m = word_modulus();
    let r1b_r2a = r1_b * r2_a;
    let r2b_scaled = r2_b * fee_den();
    let r1b_fee = fee_num() * r1_b;
    let raw_m = fee_num() * (r2b_scaled + r1b_fee);
    let raw_c = (r1b_r2a * (fee_num() * fee_num())) % m;
    let k = (r1_a * r2_b) % m;
    let k_scaled = k * (fee_den() * fee_den());
    let scaled_root = fee_den() * isqrt(raw_c * k);
    if r1_a == 0 || r1_b == 0 || r2_a == 0 || r2_b == 0 {
        None
    } else if r1b_r2a >= m || r2b_scaled >= m || r1b_fee >= m || r2b_scaled + r1b_fee >= m
        || raw_m >= m || k_scaled >= m {
        None
    } else if raw_c <= k_scaled {
        None
    } else if scaled_root >= m || scaled_root < k_scaled || raw_m == 0 {
        None
    } else {
        Some(((scaled_root - k_scaled) as nat) / raw_m)
    }
}

/// A value below 2^256 squared stays below 2^512.
proof fn lemma_word_product_bound(a: nat, b: nat)
    requires
        a < word_modulus(),
        b < word_modulus(),
    ensures
        a * b < wide_modulus(),
{
    assert(a * b < word_modulus() * word_modulus()) by (nonlinear_arith)
        requires
            a < word_modulus(),
            b < word_modulus(),
    ;
}

/// The square root of a value below 2^512 lies below 2^256.
proof fn lemma_root_of_wide_bound(r: nat, x: nat)
    requires
        r * r <= x,
        x < wide_modulus(),
    ensures
        r < word_modulus(),
{
    if r >= word_modulus() {
        assert(r * r >= word_modulus() * word_modulus()) by (nonlinear_arith)
            requires
                r >= word_modulus(),
        ;
    }
}

/// Trade size that maximises the round trip "sell A on pool 1, buy A back on
/// pool 2", or `None` when there is no such trade; see [`optimal_amount`].
pub fn get_optimial_arbitrage_amount(r1_a: U256, r1_b: U256, r2_a: U256, r2_b: U256) -> (r:
    Option<U256>)
    ensures
        match r {
            Some(x) => optimal_amount(r1_a@, r1_b@, r2_a@, r2_b@) == Some(x@),
            None => optimal_amount(r1_a@, r1_b@, r2_a@, r2_b@) is None,
        },
        r1_a@ < reserve_bound() && r1_b@ < reserve_bound() && r2_a@ < reserve_bound() && r2_b@
            < reserve_bound() ==> {
            &&& r is Some <==> (r1_a@ > 0 && r1_b@ > 0 && r2_a@ > 0 && r2_b@ > 0 && overpriced(
                r1_a@,
                r1_b@,
                r2_a@,
                r2_b@,
            ))
            &&& r matches Some(x) ==> x@ == closed_form_size(r1_a@, r1_b@, r2_a@, r2_b@)
        },
{
    proof {
        if r1_a@ < reserve_bound() && r1_b@ < reserve_bound() && r2_a@ < reserve_bound() && r2_b@
            < reserve_bound() {
            lemma_optimal_amount_small_reserves(r1_a@, r1_b@, r2_a@, r2_b@);
        }
    }
    let any_zero = is_zero(&r1_a) || is_zero(&r1_b) || is_zero(&r2_a) || is_zero(&r2_b);
    if any_zero {
        return None;
    }
    let fee_numerator = U256::from_u64(FEE_NUMERATOR);
    let fee_numerator_sqr = U256::from_u64(FEE_NUMERATOR * FEE_NUMERATOR);
    let fee_denominator = U256::from_u64(FEE_DENOMINATOR);
    let fee_denominator_sqr = U256::from_u64(FEE_DENOMINATOR * FEE_DENOMINATOR);
    let r1br2a = checked_mul(&r1_b, &r2_a)?;
    let raw_c = mul_wrapping(&r1br2a, &fee_numerator_sqr);
    let k = mul_wrapping(&r1_a, &r2_b);
    let raw_m = checked_mul(
        &fee_numerator,
        &checked_add(&checked_mul(&r2_b, &fee_denominator)?, &checked_mul(&fee_numerator, &r1_b)?)?,
    )?;
    let ck = mul_wrapping_wide(&raw_c.widen(), &k.widen());
    let root = root_wide(&ck, 2);
    proof {
        crate::uint::lemma_u256_bound(raw_c);
        crate::uint::lemma_u256_bound(k);
        lemma_word_product_bound(raw_c@, k@);
        lemma_small_mod(raw_c@ * k@, wide_modulus());
        lemma_square_is_pow2(root@ as int);
        lemma_square_is_pow2(root@ + 1int);
        lemma_root_of_wide_bound(root@, ck@);
        lemma_isqrt_unique(ck@, root@);
    }
    let sqrt_ck = root.narrow();
    if lt(&checked_mul(&k, &fee_denominator_sqr)?, &raw_c) {
        let num = checked_sub(
            &checked_mul(&fee_denominator, &sqrt_ck)?,
            &checked_mul(&k, &fee_denominator_sqr)?,
        )?;
        return checked_div(&num, &raw_m);
    }
    None
}

/// Uniswap V2 pairs keep each reserve in 112 bits.
pub open spec fn reserve_bound() -> nat {
    0x10000000000000000000000000000nat
}

/// Every natural number has an integer square root.
pub proof fn lemma_isqrt_exists(x: nat)
    ensures
        is_isqrt(x, isqrt(x)),
    decreases x,
{
    if x == 0 {
        assert(0nat * 0nat == 0nat && 1nat * 1nat == 1nat) by (nonlinear_arith);
        assert(is_isqrt(0, 0));
    } else {
        lemma_isqrt_exists((x - 1) as nat);
        let r = isqrt((x - 1) as nat);
        if x < (r + 1) * (r + 1) {
            assert(is_isqrt(x, r));
        } else {
            assert((r + 1) * (r + 1) < (r + 2) * (r + 2)) by (nonlinear_arith);
            assert(is_isqrt(x, r + 1));
        }
    }
}

/// For amounts and reserves that fit in 112 bits, `get_amount_out` never
/// divides by zero, computes the constant-product formula without wrapping,
/// and never pays out the whole output reserve.
pub proof fn lemma_amount_out_constant_product(amount_in: nat, reserve_in: nat, reserve_out: nat)
    requires
        amount_in < reserve_bound(),
        reserve_in < reserve_bound(),
        reserve_out < reserve_bound(),
    ensures
        amount_out_defined(amount_in, reserve_in, reserve_out),
        amount_in > 0 && reserve_in > 0 && reserve_out > 0 ==> amount_out(
            amount_in,
            reserve_in,
            reserve_out,
        ) == constant_product_out(amount_in, reserve_in, reserve_out) && amount_out(
            amount_in,
            reserve_in,
            reserve_out,
        ) < reserve_out,
{
    let m = word_modulus();
    assert(fee_num() == 997 && fee_den() == 1000);
    let fee_in = amount_in * fee_num();
    lemma_small_mod(fee_in, m);
    lemma_small_mod(reserve_in * fee_den(), m);
    lemma_small_mod(reserve_in * fee_den() + fee_in, m);
    if amount_in > 0 && reserve_in > 0 && reserve_out > 0 {
        // 997·a < 2^122 and R_out < 2^112, so the product stays below 2^244.
        assert(fee_in * reserve_out < 0x10000000000000000000000000000000000000000000000000000000000000nat)
            by (nonlinear_arith)
            requires
                fee_in < 0x4000000000000000000000000000000nat,
                reserve_out < 0x10000000000000000000000000000nat,
        ;
        lemma_small_mod(fee_in * reserve_out, m);
        let num = fee_in * reserve_out;
        let den = reserve_in * fee_den() + fee_in;
        assert(amount_in * fee_num() * reserve_out == num);
        assert(num < reserve_out * den) by (nonlinear_arith)
            requires
                num == fee_in * reserve_out,
                den == reserve_in * 1000 + fee_in,
                reserve_in > 0,
                reserve_out > 0,
        ;
        assert(num / den < reserve_out) by (nonlinear_arith)
            requires
                num < reserve_out * den,
                den > 0,
        ;
    }
}

/// Pool 1 overprices A against pool 2 after both fees:
/// `γ²·r1_b·r2_a > r1_a·r2_b` with γ = 997/1000, cleared of denominators.
pub open spec fn overpriced(r1_a: nat, r1_b: nat, r2_a: nat, r2_b: nat) -> bool {
    r1_b * r2_a * (fee_num() * fee_num()) > r1_a * r2_b * (fee_den() * fee_den())
}

/// `C` of the size formula cleared of denominators: `997²·r1_b·r2_a`.
pub open spec fn scaled_c(r1_b: nat, r2_a: nat) -> nat {
    r1_b * r2_a * (fee_num() * fee_num())
}

/// `K` of the size formula: `r1_a·r2_b`.
pub open spec fn scaled_k(r1_a: nat, r2_b: nat) -> nat {
    r1_a * r2_b
}

/// `M` of the size formula cleared of denominators: `997·(1000·r2_b + 997·r1_b)`.
pub open spec fn scaled_m(r1_b: nat, r2_b: nat) -> nat {
    fee_num() * (r2_b * fee_den() + fee_num() * r1_b)
}

/// The size formula over unbounded integers:
/// `floor((1000·isqrt(C·K) − 10⁶·K) / M)`.
pub open spec fn closed_form_size(r1_a: nat, r1_b: nat, r2_a: nat, r2_b: nat) -> nat {
    ((fee_den() * isqrt(scaled_c(r1_b, r2_a) * scaled_k(r1_a, r2_b)) - scaled_k(r1_a, r2_b) * (
    fee_den() * fee_den())) as nat) / scaled_m(r1_b, r2_b)
}

/// A bound on trade sizes: 2^244.
pub open spec fn trade_bound() -> nat {
    0x10000000000000000000000000000000000000000000000000000000000000nat
}

/// For reserves that fit in 112 bits, a trade size is found exactly when all
/// reserves are positive and pool 1 overprices A after fees, and the size then
/// stays below 2^244.
pub proof fn lemma_optimal_amount_small_reserves(r1_a: nat, r1_b: nat, r2_a: nat, r2_b: nat)
    requires
        r1_a < reserve_bound(),
        r1_b < reserve_bound(),
        r2_a < reserve_bound(),
        r2_b < reserve_bound(),
    ensures
        optimal_amount(r1_a, r1_b, r2_a, r2_b) is Some <==> (r1_a > 0 && r1_b > 0 && r2_a > 0 && r2_b
            > 0 && overpriced(r1_a, r1_b, r2_a, r2_b)),
        optimal_amount(r1_a, r1_b, r2_a, r2_b) is Some ==> optimal_amount(
            r1_a,
            r1_b,
            r2_a,
            r2_b,
        ).unwrap() < trade_bound(),
        optimal_amount(r1_a, r1_b, r2_a, r2_b) is Some ==> optimal_amount(
            r1_a,
            r1_b,
            r2_a,
            r2_b,
        ).unwrap() == closed_form_size(r1_a, r1_b, r2_a, r2_b),
        optimal_amount(r1_a, r1_b, r2_a, r2_b) is Some ==> fee_den() * isqrt(
            scaled_c(r1_b, r2_a) * scaled_k(r1_a, r2_b),
        ) >= scaled_k(r1_a, r2_b) * (fee_den() * fee_den()),
{
    if r1_a > 0 && r1_b > 0 && r2_a > 0 && r2_b > 0 {
        let m = word_modulus();
        assert(fee_num() == 997 && fee_den() == 1000);
        // 2^224
        let b224 = 0x100000000000000000000000000000000000000000000000000000000nat;
        let r1b_r2a = r1_b * r2_a;
        let r1a_r2b = r1_a * r2_b;
        assert(r1b_r2a < b224 && r1a_r2b < b224) by (nonlinear_arith)
            requires
                r1b_r2a == r1_b * r2_a,
                r1a_r2b == r1_a * r2_b,
                r1_a < 0x10000000000000000000000000000nat,
                r1_b < 0x10000000000000000000000000000nat,
                r2_a < 0x10000000000000000000000000000nat,
                r2_b < 0x10000000000000000000000000000nat,
                b224 == 0x100000000000000000000000000000000000000000000000000000000nat,
        ;
        let raw_c = r1b_r2a * 994009;
        let k = r1a_r2b;
        lemma_small_mod(raw_c, m);
        lemma_small_mod(k, m);
        let k_scaled = k * 1000000;
        let raw_m = 997 * (r2_b * 1000 + 997 * r1_b);
        assert(raw_m >= 1);
        let x = raw_c * k;
        lemma_isqrt_exists(x);
        let s = isqrt(x);
        // 2^234
        let b234 = 0x40000000000000000000000000000000000000000000000000000000000nat;
        assert(x < b234 * b234) by (nonlinear_arith)
            requires
                x == raw_c * k,
                raw_c < 994009 * b224,
                k < b224,
                b224 == 0x100000000000000000000000000000000000000000000000000000000nat,
                b234 == 0x40000000000000000000000000000000000000000000000000000000000nat,
        ;
        assert(s < b234) by (nonlinear_arith)
            requires
                s * s <= x,
                x < b234 * b234,
        ;
        let scaled_root = 1000 * s;
        if raw_c > k_scaled {
            let t = 1000 * k;
            assert(t * t <= x) by (nonlinear_arith)
                requires
                    t == 1000 * k,
                    x == raw_c * k,
                    raw_c > k * 1000000,
            ;
            assert(t <= s) by (nonlinear_arith)
                requires
                    t * t <= x,
                    x < (s + 1) * (s + 1),
            ;
            assert(scaled_root >= k_scaled);
            let d = ((scaled_root - k_scaled) as nat) / raw_m;
            assert(d <= (scaled_root - k_scaled) as nat) by (nonlinear_arith)
                requires
                    d == ((scaled_root - k_scaled) as nat) / raw_m,
                    raw_m >= 1,
            ;
        }
    }
}

/// Pools whose prices do not favour selling A on pool 1 even before fees
/// (`r1_b·r2_a <= r1_a·r2_b`, balanced pools among them) yield no trade size,
/// for reserves that fit in 112 bits.
pub proof fn lemma_no_trade_without_mispricing(r1_a: nat, r1_b: nat, r2_a: nat, r2_b: nat)
    requires
        r1_a < reserve_bound(),
        r1_b < reserve_bound(),
        r2_a < reserve_bound(),
        r2_b < reserve_bound(),
        r1_b * r2_a <= r1_a * r2_b,
    ensures
        optimal_amount(r1_a, r1_b, r2_a, r2_b) is None,
{
    lemma_optimal_amount_small_reserves(r1_a, r1_b, r2_a, r2_b);
    assert(fee_num() == 997 && fee_den() == 1000);
    let x = r1_b * r2_a;
    let y = r1_a * r2_b;
    assert(x * 994009 <= y * 1000000) by (nonlinear_arith)
        requires
            x <= y,
            x >= 0,
    ;
}

/// The returned size is within 2 of the real maximiser of the round trip,
/// `δ* = (√(10⁶·C·K) − 10⁶·K) / M`: `δ <= δ* < δ + 2`, stated over integers by
/// squaring, for reserves that fit in 112 bits.
pub proof fn lemma_optimal_amount_near_maximiser(r1_a: nat, r1_b: nat, r2_a: nat, r2_b: nat)
    requires
        r1_a < reserve_bound(),
        r1_b < reserve_bound(),
        r2_a < reserve_bound(),
        r2_b < reserve_bound(),
        optimal_amount(r1_a, r1_b, r2_a, r2_b) is Some,
    ensures
        ({
            let d = optimal_amount(r1_a, r1_b, r2_a, r2_b).unwrap();
            let x = 1000000 * (scaled_c(r1_b, r2_a) * scaled_k(r1_a, r2_b));
            let m = scaled_m(r1_b, r2_b);
            let k = 1000000 * scaled_k(r1_a, r2_b);
            &&& (d * m + k) * (d * m + k) <= x
            &&& x < ((d + 2) * m + k) * ((d + 2) * m + k)
        }),
{
    lemma_optimal_amount_small_reserves(r1_a, r1_b, r2_a, r2_b);
    assert(fee_num() == 997 && fee_den() == 1000);
    assert(fee_den() * fee_den() == 1000000 && fee_num() * fee_num() == 994009) by (nonlinear_arith)
        requires
            fee_num() == 997,
            fee_den() == 1000,
    ;
    let d = optimal_amount(r1_a, r1_b, r2_a, r2_b).unwrap();
    let cx = scaled_c(r1_b, r2_a) * scaled_k(r1_a, r2_b);
    let x = 1000000 * cx;
    let m = scaled_m(r1_b, r2_b);
    let k = 1000000 * scaled_k(r1_a, r2_b);
    lemma_isqrt_exists(cx);
    let s = isqrt(cx);
    assert(s * s <= cx && cx < (s + 1) * (s + 1));
    assert(m >= 1000) by (nonlinear_arith)
        requires
            m == 997 * (r2_b * 1000 + 997 * r1_b),
            r1_b > 0,
    ;
    let num = (1000 * s - scaled_k(r1_a, r2_b) * 1000000) as nat;
    assert(1000 * s >= k);
    assert(d == closed_form_size(r1_a, r1_b, r2_a, r2_b));
    assert(d == num / m);
    assert(d * m <= num && num < (d + 1) * m) by (nonlinear_arith)
        requires
            d == num / m,
            m > 0,
    ;
    let t = d * m + k;
    assert(t <= 1000 * s);
    assert(t * t <= x) by (nonlinear_arith)
        requires
            t <= 1000 * s,
            s * s <= cx,
            x == 1000000 * cx,
    ;
    let u = (d + 2) * m + k;
    assert(u >= 1000 * (s + 1)) by (nonlinear_arith)
        requires
            u == (d + 2) * m + k,
            num < (d + 1) * m,
            num == 1000 * s - k,
            m >= 1000,
    ;
    assert(x < u * u) by (nonlinear_arith)
        requires
            u >= 1000 * (s + 1),
            cx < (s + 1) * (s + 1),
            x == 1000000 * cx,
    ;
}

/// For amounts and reserves that fit in 112 bits, selling more never yields
/// less: `get_amount_out` is monotone in its input.
pub proof fn lemma_amount_out_monotone(a1: nat, a2: nat, reserve_in: nat, reserve_out: nat)
    requires
        a1 <= a2,
        a2 < reserve_bound(),
        reserve_in < reserve_bound(),
        reserve_out < reserve_bound(),
    ensures
        amount_out(a1, reserve_in, reserve_out) <= amount_out(a2, reserve_in, reserve_out),
{
    lemma_amount_out_constant_product(a1, reserve_in, reserve_out);
    lemma_amount_out_constant_product(a2, reserve_in, reserve_out);
    if a1 > 0 && reserve_in > 0 && reserve_out > 0 {
        assert(fee_num() == 997 && fee_den() == 1000);
        let x1 = a1 * 997 * reserve_out;
        let x2 = a2 * 997 * reserve_out;
        let d1 = reserve_in * 1000 + a1 * 997;
        let d2 = reserve_in * 1000 + a2 * 997;
        assert(x1 * d2 <= x2 * d1) by (nonlinear_arith)
            requires
                x1 == a1 * 997 * reserve_out,
                x2 == a2 * 997 * reserve_out,
                d1 == reserve_in * 1000 + a1 * 997,
                d2 == reserve_in * 1000 + a2 * 997,
                a1 <= a2,
        ;
        let q1 = x1 / d1;
        assert(q1 * d1 <= x1) by (nonlinear_arith)
            requires
                q1 == x1 / d1,
                d1 > 0,
        ;
        assert(q1 * d2 <= x2) by (nonlinear_arith)
            requires
                q1 * d1 <= x1,
                x1 * d2 <= x2 * d1,
                d1 > 0,
                d2 > 0,
        ;
        assert(q1 <= x2 / d2) by (nonlinear_arith)
            requires
                q1 * d2 <= x2,
                d2 > 0,
        ;
    }
}

/// Two pools never both overprice each other's asset: at most one direction of
/// the round trip has a trade size, for reserves that fit in 112 bits.
pub proof fn lemma_one_direction_at_most(r1_a: nat, r1_b: nat, r2_a: nat, r2_b: nat)
    requires
        r1_a < reserve_bound(),
        r1_b < reserve_bound(),
        r2_a < reserve_bound(),
        r2_b < reserve_bound(),
    ensures
        !(optimal_amount(r1_a, r1_b, r2_a, r2_b) is Some && optimal_amount(r2_a, r2_b, r1_a, r1_b)
            is Some),
{
    lemma_optimal_amount_small_reserves(r1_a, r1_b, r2_a, r2_b);
    lemma_optimal_amount_small_reserves(r2_a, r2_b, r1_a, r1_b);
    assert(fee_num() == 997 && fee_den() == 1000);
    if overpriced(r1_a, r1_b, r2_a, r2_b) && overpriced(r2_a, r2_b, r1_a, r1_b) {
        let x = r1_b * r2_a;
        let y = r1_a * r2_b;
        assert(false) by (nonlinear_arith)
            requires
                x * 994009 > y * 1000000,
                y * 994009 > x * 1000000,
                x >= 0,
                y >= 0,
        ;
    }
}

} // verus!
