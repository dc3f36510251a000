//! Net profit of a two-pool round trip after gas.
use vstd::prelude::*;
use vstd::arithmetic::div_mod::lemma_small_mod;
use crate::uint::{U256, word_modulus, is_zero, lt, sub_wrapping, mul_wrapping};
use crate::math::{
    get_amount_out, amount_out, amount_out_defined, amount_in_with_fee, amount_out_denominator,
    fee_num, fee_den, reserve_bound, trade_bound, constant_product_out,
    lemma_amount_out_constant_product,
};

verus! {

/// The amount of A that comes back from selling `amount_in` of A on pool 1
/// and selling the B obtained on pool 2.
pub open spec fn round_trip(amount_in: nat, r1_a: nat, r1_b: nat, r2_a: nat, r2_b: nat) -> nat {
    amount_out(amount_out(amount_in, r1_a, r1_b), r2_b, r2_a)
}

/// The inputs on which neither swap of the round trip divides by zero.
pub open spec fn round_trip_defined(amount_in: nat, r1_a: nat, r1_b: nat, r2_a: nat, r2_b: nat) -> bool {
    amount_out_defined(amount_in, r1_a, r1_b) && amount_out_defined(
        amount_out(amount_in, r1_a, r1_b),
        r2_b,
        r2_a,
    )
}

/// The gas cost `gas · base_fee`, as the 256-bit arithmetic computes it.
pub open spec fn gas_cost(estimated_gas_used: nat, base_fee_per_gas: nat) -> nat {
    (estimated_gas_used * base_fee_per_gas) % word_modulus()
}

/// What `calculate_net_profit` returns: the round trip's gain over
/// `amount_in` minus the gas cost, when `amount_in` is positive and the gain
/// exceeds the gas cost; `None` otherwise.
pub open spec fn net_profit(
    amount_in: nat,
    r1_a: nat,
    r1_b: nat,
    r2_a: nat,
    r2_b: nat,
    estimated_gas_used: nat,
    base_fee_per_gas: nat,
) -> Option<nat> {
    let back = round_trip(amount_in, r1_a, r1_b, r2_a, r2_b);
    let cost = gas_cost(estimated_gas_used, base_fee_per_gas);
    if amount_in == 0 || back <= amount_in {
        None
    } else if back - amount_in > cost {
        Some((back - amount_in - cost) as nat)
    } else {
        None
    }
}

/// Net profit in A of selling `amount_in` of A on pool 1 (reserves `r1_a`,
/// `r1_b`) and buying A back on pool 2 (reserves `r2_a`, `r2_b`), after paying
/// `estimated_gas_used · base_fee_per_gas`; `None` when the trip does not pay.
pub fn calculate_net_profit(
    amount_in: U256,
    r1_a: U256,
    r1_b: U256,
    r2_a: U256,
    r2_b: U256,
    estimated_gas_used: U256,
    base_fee_per_gas: U256,
) -> (r: Option<U256>)
    requires
        round_trip_defined(amount_in@, r1_a@, r1_b@, r2_a@, r2_b@),
    ensures
        match r {
            Some(p) => net_profit(
                amount_in@,
                r1_a@,
                r1_b@,
                r2_a@,
                r2_b@,
                estimated_gas_used@,
                base_fee_per_gas@,
            ) == Some(p@),
            None => net_profit(
                amount_in@,
                r1_a@,
                r1_b@,
                r2_a@,
                r2_b@,
                estimated_gas_used@,
                base_fee_per_gas@,
            ) is None,
        },
        amount_in@ < reserve_bound() && 0 < r1_a@ < reserve_bound() && 0 < r1_b@ < reserve_bound()
            && 0 < r2_a@ < reserve_bound() && 0 < r2_b@ < reserve_bound() ==> {
            let back = constant_product_out(
                constant_product_out(amount_in@, r1_a@, r1_b@),
                r2_b@,
                r2_a@,
            );
            let cost = (estimated_gas_used@ * base_fee_per_gas@) % word_modulus();
            match r {
                Some(p) => p@ + cost + amount_in@ == back,
                None => !(amount_in@ > 0 && back > amount_in@ + cost),
            }
        },
{
    proof {
        if amount_in@ < reserve_bound() && 0 < r1_a@ < reserve_bound() && 0 < r1_b@
            < reserve_bound() && 0 < r2_a@ < reserve_bound() && 0 < r2_b@ < reserve_bound() {
            lemma_net_profit_constant_product(
                amount_in@,
                r1_a@,
                r1_b@,
                r2_a@,
                r2_b@,
                estimated_gas_used@,
                base_fee_per_gas@,
            );
        }
    }
    let amount_b_out = get_amount_out(amount_in, r1_a, r1_b);
    if is_zero(&amount_in) {
        return None;
    }
    let amount_a_final = get_amount_out(amount_b_out, r2_b, r2_a);
    if !lt(&amount_in, &amount_a_final) {
        return None;
    }
    let gross_profit = sub_wrapping(&amount_a_final, &amount_in);
    proof {
        crate::uint::lemma_u256_bound(amount_a_final);
        lemma_small_mod((amount_a_final@ - amount_in@) as nat, word_modulus());
    }
    let total_gas_cost = mul_wrapping(&estimated_gas_used, &base_fee_per_gas);
    if lt(&total_gas_cost, &gross_profit) {
        let net = sub_wrapping(&gross_profit, &total_gas_cost);
        proof {
            lemma_small_mod((gross_profit@ - total_gas_cost@) as nat, word_modulus());
        }
        return Some(net);
    }
    None
}

/// A reported profit is what the round trip returns beyond the input and the
/// gas: `profit + gas cost + amount_in == amount back`, and it is positive.
pub proof fn lemma_net_profit_accounts(
    amount_in: nat,
    r1_a: nat,
    r1_b: nat,
    r2_a: nat,
    r2_b: nat,
    estimated_gas_used: nat,
    base_fee_per_gas: nat,
)
    requires
        net_profit(amount_in, r1_a, r1_b, r2_a, r2_b, estimated_gas_used, base_fee_per_gas) is Some,
    ensures
        ({
            let p = net_profit(
                amount_in,
                r1_a,
                r1_b,
                r2_a,
                r2_b,
                estimated_gas_used,
                base_fee_per_gas,
            ).unwrap();
            &&& p > 0
            &&& p + gas_cost(estimated_gas_used, base_fee_per_gas) + amount_in == round_trip(
                amount_in,
                r1_a,
                r1_b,
                r2_a,
                r2_b,
            )
        }),
{
}

/// For amounts and positive reserves below 2^112, the round trip is the
/// constant-product formula applied on pool 1 (A in, B out) and then on pool 2
/// with pool 2's own reserves (B in at `r2_b`, A out at `r2_a`): a reported
/// profit `p` satisfies `p + gas·fee + amount_in == A back`, and a profit is
/// reported whenever the amount is positive and A back exceeds it plus gas.
pub proof fn lemma_net_profit_constant_product(
    amount_in: nat,
    r1_a: nat,
    r1_b: nat,
    r2_a: nat,
    r2_b: nat,
    estimated_gas_used: nat,
    base_fee_per_gas: nat,
)
    requires
        amount_in < reserve_bound(),
        0 < r1_a < reserve_bound(),
        0 < r1_b < reserve_bound(),
        0 < r2_a < reserve_bound(),
        0 < r2_b < reserve_bound(),
    ensures
        ({
            let b_out = constant_product_out(amount_in, r1_a, r1_b);
            let back = constant_product_out(b_out, r2_b, r2_a);
            let cost = (estimated_gas_used * base_fee_per_gas) % word_modulus();
            let r = net_profit(
                amount_in,
                r1_a,
                r1_b,
                r2_a,
                r2_b,
                estimated_gas_used,
                base_fee_per_gas,
            );
            &&& r is Some ==> r.unwrap() + cost + amount_in == back
            &&& r is Some <==> (amount_in > 0 && back > amount_in + cost)
        }),
{
    lemma_amount_out_constant_product(amount_in, r1_a, r1_b);
    let b_out = amount_out(amount_in, r1_a, r1_b);
    assert(fee_num() == 997 && fee_den() == 1000);
    if amount_in == 0 {
        assert(constant_product_out(0, r1_a, r1_b) == 0) by (nonlinear_arith)
            requires
                r1_a > 0,
                fee_num() == 997,
                fee_den() == 1000,
        ;
    }
    assert(b_out == constant_product_out(amount_in, r1_a, r1_b));
    assert(b_out < reserve_bound());
    lemma_amount_out_constant_product(b_out, r2_b, r2_a);
    if b_out == 0 {
        assert(constant_product_out(0, r2_b, r2_a) == 0) by (nonlinear_arith)
            requires
                r2_b > 0,
                fee_num() == 997,
                fee_den() == 1000,
        ;
    }
    assert(amount_out(b_out, r2_b, r2_a) == constant_product_out(b_out, r2_b, r2_a));
}

/// With reserves that fit in 112 bits and a trade size below 2^244, neither
/// swap of the round trip divides by zero.
pub proof fn lemma_round_trip_defined(amount_in: nat, r1_a: nat, r1_b: nat, r2_a: nat, r2_b: nat)
    requires
        amount_in < trade_bound(),
        r1_a < reserve_bound(),
        r1_b < reserve_bound(),
        r2_a < reserve_bound(),
        r2_b < reserve_bound(),
    ensures
        round_trip_defined(amount_in, r1_a, r1_b, r2_a, r2_b),
{
    let m = word_modulus();
    assert(fee_num() == 997 && fee_den() == 1000);
    if amount_in > 0 && r1_a > 0 && r1_b > 0 {
        let fee_in = amount_in * 997;
        lemma_small_mod(fee_in, m);
        lemma_small_mod(r1_a * 1000, m);
        let den = r1_a * 1000 + fee_in;
        lemma_small_mod(den, m);
        assert(amount_out_denominator(amount_in, r1_a) == den);
        let num = (amount_in_with_fee(amount_in) * r1_b) % m;
        let b_out = num / den;
        assert(b_out * 1997 < m) by (nonlinear_arith)
            requires
                b_out == num / den,
                num < m,
                den >= 1997,
        ;
        assert(amount_out(amount_in, r1_a, r1_b) == b_out);
        if b_out > 0 && r2_b > 0 && r2_a > 0 {
            lemma_small_mod(b_out * 997, m);
            lemma_small_mod(r2_b * 1000, m);
            lemma_small_mod(r2_b * 1000 + b_out * 997, m);
        }
    }
}

} // verus!
