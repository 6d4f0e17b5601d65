//! Liquidity pools and their pricing math.
//!
//! Reserves, supplies and fees are integers; the constant-product and
//! stable-swap curves are computed exactly with 128-bit intermediates and
//! specified as integer formulas. Weighted pools price with real-number
//! exponentiation, which lives outside this integer model: the functions
//! here take only integrally priced pools.

use vstd::prelude::*;

use crate::arith::{
    is_isqrt, isqrt_u128, lemma_div_bound_le, lemma_div_bound_lt, lemma_div_lower_bound,
    lemma_div_mono, lemma_mul_le,
};
use crate::strutil::str_eq;

verus! {

/// Bootstrap liquidity burned on a fresh pool against inflation attacks;
/// minimal for the demo deployment.
pub const MINIMUM_LIQUIDITY: u64 = 1;

#[derive(Clone, Copy, Debug, PartialEq, Eq, Structural)]
pub enum PoolType {
    ConstantProduct,
    StableSwap { amplification: u64 },
    Weighted { weight_a: u8, weight_b: u8 },
}

#[derive(Clone, Copy, Debug, PartialEq, Eq, Structural)]
pub enum PoolError {
    PoolAlreadyExists,
    PoolNotFound,
    PoolPaused,
    InvalidToken,
    InsufficientLiquidity,
    InsufficientInputAmount,
    InsufficientOutputAmount,
    InsufficientLiquidityMinted,
    InsufficientLiquidityBurned,
    InsufficientLPTokens,
    SlippageExceeded,
    ExcessivePriceImpact,
}

pub struct LiquidityPool {
    pub id: String,
    pub token_a: String,
    pub token_b: String,
    pub reserve_a: u64,
    pub reserve_b: u64,
    pub total_lp_supply: u64,
    pub storage_account: String,
    pub lp_token: String,
    /// Fee in basis points (30 = 0.3%).
    pub fee_rate: u64,
    pub pool_type: PoolType,
    pub paused: bool,
    pub protocol_fees_a: u64,
    pub protocol_fees_b: u64,
    pub on_chain_storage_account: String,
    pub on_chain_reserve_a: u64,
    pub on_chain_reserve_b: u64,
    pub last_reconciled_at: Option<String>,
    pub pending_settlement: bool,
    pub last_swap_signature: Option<String>,
    pub last_swap_at: Option<String>,
    pub last_swap_token_in: Option<String>,
    pub last_swap_token_out: Option<String>,
    pub last_swap_amount_in: Option<u64>,
    pub last_swap_amount_out: Option<u64>,
}

/// Constant-product output: with fee `f` in basis points the raw value is
/// `amount_in (10000 - f) r_out / (r_in 10000 + amount_in (10000 - f))`.
pub open spec fn cp_out_val(amount_in: u64, r_in: u64, r_out: u64, fee: u64) -> int {
    (amount_in * (10000 - fee) * r_out) / (r_in * 10000 + amount_in * (10000 - fee))
}

/// Constant-product pricing with its error cases.
pub open spec fn spec_cp_out(amount_in: u64, r_in: u64, r_out: u64, fee: u64) -> Result<
    u64,
    PoolError,
> {
    if amount_in == 0 {
        Err(PoolError::InsufficientInputAmount)
    } else if r_in == 0 || r_out == 0 {
        Err(PoolError::InsufficientLiquidity)
    } else if cp_out_val(amount_in, r_in, r_out, fee) == 0 {
        Err(PoolError::InsufficientOutputAmount)
    } else {
        Ok(cp_out_val(amount_in, r_in, r_out, fee) as u64)
    }
}

/// A stable pool is near balance when the larger reserve is under 1.1 times
/// the smaller.
pub open spec fn ss_balanced(r_in: u64, r_out: u64) -> bool {
    if r_in > r_out {
        r_in * 10 < r_out * 11
    } else {
        r_out * 10 < r_in * 11
    }
}

/// Amplified output used near balance: the fee-reduced input priced against
/// reserves scaled by the amplification factor.
pub open spec fn ss_out_val(amount_in: u64, r_in: u64, r_out: u64, amp: u64, fee: u64) -> int {
    let afd = (amount_in * (10000 - fee)) / 10000;
    (afd * (r_out * amp)) / (r_in * amp + afd)
}

/// Stable-swap pricing: amplified near balance, constant product otherwise.
pub open spec fn spec_stable_out(amount_in: u64, r_in: u64, r_out: u64, amp: u64, fee: u64) -> Result<
    u64,
    PoolError,
> {
    if ss_balanced(r_in, r_out) {
        Ok(ss_out_val(amount_in, r_in, r_out, amp, fee) as u64)
    } else {
        spec_cp_out(amount_in, r_in, r_out, fee)
    }
}

/// The 128-bit intermediates of the constant-product formula stay in range.
pub open spec fn cp_fits(amount_in: u64, r_out: u64, fee: u64) -> bool {
    amount_in * (10000 - fee) * r_out <= u128::MAX
}

/// The 128-bit intermediates of the stable-swap formula stay in range, and
/// its near-balance output fits the result type.
pub open spec fn ss_fits(amount_in: u64, r_in: u64, r_out: u64, amp: u64, fee: u64) -> bool {
    let afd = (amount_in * (10000 - fee)) / 10000;
    &&& afd * (r_out * amp) <= u128::MAX
    &&& r_in * amp + afd <= u128::MAX
    &&& (ss_balanced(r_in, r_out) ==> ss_out_val(amount_in, r_in, r_out, amp, fee)
        <= u64::MAX)
}

impl LiquidityPool {
    /// Reserves seen from the input side, or nothing for a foreign token.
    pub open spec fn swap_reserves_spec(self, token_in: Seq<char>) -> Option<(u64, u64)> {
        if token_in == self.token_a@ {
            Some((self.reserve_a, self.reserve_b))
        } else if token_in == self.token_b@ {
            Some((self.reserve_b, self.reserve_a))
        } else {
            None
        }
    }

    /// Reserves seen from the output side, or nothing for a foreign token.
    pub open spec fn in_reserves_spec(self, token_out: Seq<char>) -> Option<(u64, u64)> {
        if token_out == self.token_a@ {
            Some((self.reserve_b, self.reserve_a))
        } else if token_out == self.token_b@ {
            Some((self.reserve_a, self.reserve_b))
        } else {
            None
        }
    }

    /// The pool prices within integer arithmetic: weighted pools do not.
    pub open spec fn integer_priced(self) -> bool {
        !(self.pool_type is Weighted)
    }

    pub open spec fn fee_ok(self) -> bool {
        self.fee_rate <= 10000
    }

    /// A stable pool's amplification is at least one.
    pub open spec fn amp_ok(self) -> bool {
        self.pool_type matches PoolType::StableSwap { amplification } ==> amplification >= 1
    }

    /// All intermediates of a quote stay in range for this input.
    pub open spec fn swap_fits(self, amount_in: u64, token_in: Seq<char>) -> bool {
        match self.swap_reserves_spec(token_in) {
            Some((ri, ro)) => match self.pool_type {
                PoolType::ConstantProduct => cp_fits(amount_in, ro, self.fee_rate),
                PoolType::StableSwap { amplification } => cp_fits(amount_in, ro, self.fee_rate)
                    && ss_fits(amount_in, ri, ro, amplification, self.fee_rate),
                PoolType::Weighted { .. } => true,
            },
            None => true,
        }
    }

    /// The quoted output amount for a swap, with every error case.
    pub open spec fn spec_swap_out(self, amount_in: u64, token_in: Seq<char>) -> Result<
        u64,
        PoolError,
    >
        recommends
            self.integer_priced(),
    {
        if self.paused {
            Err(PoolError::PoolPaused)
        } else {
            match self.swap_reserves_spec(token_in) {
                None => Err(PoolError::InvalidToken),
                Some((ri, ro)) => match self.pool_type {
                    PoolType::ConstantProduct => spec_cp_out(amount_in, ri, ro, self.fee_rate),
                    PoolType::StableSwap { amplification } => spec_stable_out(
                        amount_in,
                        ri,
                        ro,
                        amplification,
                        self.fee_rate,
                    ),
                    // integrally priced callers never reach this arm
                    PoolType::Weighted { .. } => Err(PoolError::InvalidToken),
                },
            }
        }
    }

    /// Output amount for a swap, after the fee. A paused pool never quotes.
    pub fn get_amount_out(&self, amount_in: u64, token_in: &str) -> (r: Result<u64, PoolError>)
        requires
            self.integer_priced(),
            self.fee_ok(),
            self.amp_ok(),
            self.swap_fits(amount_in, token_in@),
        ensures
            r == self.spec_swap_out(amount_in, token_in@),
            self.paused ==> r == Err::<u64, PoolError>(PoolError::PoolPaused),
    {
        if self.paused {
            return Err(PoolError::PoolPaused);
        }
        let hit_a = str_eq(token_in, self.token_a.as_str());
        let hit_b = str_eq(token_in, self.token_b.as_str());
        let (reserve_in, reserve_out) = if hit_a {
            (self.reserve_a, self.reserve_b)
        } else if hit_b {
            (self.reserve_b, self.reserve_a)
        } else {
            return Err(PoolError::InvalidToken);
        };
        match self.pool_type {
            PoolType::ConstantProduct => self.constant_product_out(
                amount_in,
                reserve_in,
                reserve_out,
            ),
            PoolType::StableSwap { amplification } => self.stable_swap_out(
                amount_in,
                reserve_in,
                reserve_out,
                amplification,
            ),
            PoolType::Weighted { .. } => vstd::pervasive::unreached(),
        }
    }

    /// Constant-product output with the fee applied.
    fn constant_product_out(&self, amount_in: u64, reserve_in: u64, reserve_out: u64) -> (r:
        Result<u64, PoolError>)
        requires
            self.fee_ok(),
            cp_fits(amount_in, reserve_out, self.fee_rate),
        ensures
            r == spec_cp_out(amount_in, reserve_in, reserve_out, self.fee_rate),
    {
        if amount_in == 0 {
            return Err(PoolError::InsufficientInputAmount);
        }
        if reserve_in == 0 || reserve_out == 0 {
            return Err(PoolError::InsufficientLiquidity);
        }
        proof {
            lemma_mul_le(
                amount_in as int,
                (10000 - self.fee_rate) as int,
                u64::MAX as int,
                10000,
            );
        }
        let a_fee: u128 = amount_in as u128 * (10000 - self.fee_rate) as u128;
        let numerator: u128 = a_fee * reserve_out as u128;
        proof {
            lemma_mul_le(reserve_in as int, 10000, u64::MAX as int, 10000);
        }
        let denominator: u128 = reserve_in as u128 * 10000 + a_fee;
        proof {
            assert(reserve_in as int * 10000 >= 10000) by (nonlinear_arith)
                requires
                    reserve_in >= 1,
            ;
            // the output is strictly below the outgoing reserve
            assert(numerator < reserve_out * denominator) by (nonlinear_arith)
                requires
                    numerator == a_fee * reserve_out,
                    denominator == reserve_in * 10000 + a_fee,
                    reserve_in >= 1,
                    reserve_out >= 1,
                    a_fee >= 0,
            ;
            lemma_div_bound_lt(numerator as int, denominator as int, reserve_out as int);
        }
        let out128: u128 = numerator / denominator;
        let amount_out: u64 = out128 as u64;
        if amount_out == 0 {
            return Err(PoolError::InsufficientOutputAmount);
        }
        Ok(amount_out)
    }

    /// Stable-swap output: amplified near balance, constant product away
    /// from it.
    fn stable_swap_out(
        &self,
        amount_in: u64,
        reserve_in: u64,
        reserve_out: u64,
        amplification: u64,
    ) -> (r: Result<u64, PoolError>)
        requires
            self.fee_ok(),
            amplification >= 1,
            cp_fits(amount_in, reserve_out, self.fee_rate),
            ss_fits(amount_in, reserve_in, reserve_out, amplification, self.fee_rate),
        ensures
            r == spec_stable_out(
                amount_in,
                reserve_in,
                reserve_out,
                amplification,
                self.fee_rate,
            ),
    {
        let balanced: bool = if reserve_in > reserve_out {
            (reserve_in as u128) * 10 < (reserve_out as u128) * 11
        } else {
            (reserve_out as u128) * 10 < (reserve_in as u128) * 11
        };
        if balanced {
            proof {
                lemma_mul_le(
                    amount_in as int,
                    (10000 - self.fee_rate) as int,
                    u64::MAX as int,
                    10000,
                );
                lemma_mul_le(
                    reserve_out as int,
                    amplification as int,
                    u64::MAX as int,
                    u64::MAX as int,
                );
                lemma_mul_le(
                    reserve_in as int,
                    amplification as int,
                    u64::MAX as int,
                    u64::MAX as int,
                );
            }
            let afd: u128 = (amount_in as u128 * (10000 - self.fee_rate) as u128) / 10000;
            let amp_out: u128 = reserve_out as u128 * amplification as u128;
            let amp_in: u128 = reserve_in as u128 * amplification as u128;
            let numerator: u128 = afd * amp_out;
            let denominator: u128 = amp_in + afd;
            proof {
                assert(reserve_in >= 1 && reserve_out >= 1);
                assert(amp_in >= 1) by (nonlinear_arith)
                    requires
                        amp_in == reserve_in * amplification,
                        reserve_in >= 1,
                        amplification >= 1,
                ;
            }
            let out: u128 = numerator / denominator;
            Ok(out as u64)
        } else {
            self.constant_product_out(amount_in, reserve_in, reserve_out)
        }
    }

    /// Raw input amount required for a desired output, rounded up.
    pub open spec fn in_val(self, amount_out: u64, r_in: u64, r_out: u64) -> int {
        (r_in * amount_out * 10000) / ((r_out - amount_out) * (10000 - self.fee_rate)) + 1
    }

    /// The required input for a desired output, with every error case.
    pub open spec fn spec_swap_in(self, amount_out: u64, token_out: Seq<char>) -> Result<
        u64,
        PoolError,
    > {
        if self.paused {
            Err(PoolError::PoolPaused)
        } else {
            match self.in_reserves_spec(token_out) {
                None => Err(PoolError::InvalidToken),
                Some((ri, ro)) => if amount_out >= ro {
                    Err(PoolError::InsufficientLiquidity)
                } else {
                    Ok(self.in_val(amount_out, ri, ro) as u64)
                },
            }
        }
    }

    /// The 128-bit intermediates of the inverse quote stay in range and the
    /// result fits.
    pub open spec fn swap_in_fits(self, amount_out: u64, token_out: Seq<char>) -> bool {
        match self.in_reserves_spec(token_out) {
            Some((ri, ro)) => ri * amount_out * 10000 <= u128::MAX && (amount_out < ro
                ==> self.in_val(amount_out, ri, ro) <= u64::MAX),
            None => true,
        }
    }

    /// Input amount needed for a desired output (inverse constant-product
    /// quote, one added for rounding up). A paused pool never quotes.
    pub fn get_amount_in(&self, amount_out: u64, token_out: &str) -> (r: Result<u64, PoolError>)
        requires
            self.fee_rate < 10000,
            self.swap_in_fits(amount_out, token_out@),
        ensures
            r == self.spec_swap_in(amount_out, token_out@),
            self.paused ==> r == Err::<u64, PoolError>(PoolError::PoolPaused),
    {
        if self.paused {
            return Err(PoolError::PoolPaused);
        }
        let hit_a = str_eq(token_out, self.token_a.as_str());
        let hit_b = str_eq(token_out, self.token_b.as_str());
        let (reserve_in, reserve_out) = if hit_a {
            (self.reserve_b, self.reserve_a)
        } else if hit_b {
            (self.reserve_a, self.reserve_b)
        } else {
            return Err(PoolError::InvalidToken);
        };
        if amount_out >= reserve_out {
            return Err(PoolError::InsufficientLiquidity);
        }
        proof {
            lemma_mul_le(
                reserve_in as int,
                amount_out as int,
                u64::MAX as int,
                u64::MAX as int,
            );
            lemma_mul_le(
                (reserve_out - amount_out) as int,
                (10000 - self.fee_rate) as int,
                u64::MAX as int,
                10000,
            );
            assert((reserve_out - amount_out) as int * ((10000 - self.fee_rate) as int) >= 1)
                by (nonlinear_arith)
                requires
                    reserve_out - amount_out >= 1,
                    self.fee_rate < 10000,
            ;
        }
        let numerator: u128 = reserve_in as u128 * amount_out as u128 * 10000;
        let denominator: u128 = (reserve_out - amount_out) as u128 * (10000 - self.fee_rate)
            as u128;
        let q: u128 = numerator / denominator;
        let amount_in: u64 = (q + 1) as u64;
        Ok(amount_in)
    }

    /// Liquidity minted for a follow-on deposit: the lesser of the two
    /// pro-rata shares.
    pub open spec fn lp_mint_liq(self, amount_a: u64, amount_b: u64) -> int {
        let la = (amount_a * self.total_lp_supply) / (self.reserve_a as int);
        let lb = (amount_b * self.total_lp_supply) / (self.reserve_b as int);
        if la <= lb {
            la
        } else {
            lb
        }
    }

    /// The minted amount `v` is what the deposit is owed: the bootstrap
    /// square-root share on a fresh pool, the pro-rata minimum afterwards.
    pub open spec fn mint_amount_ok(self, amount_a: u64, amount_b: u64, v: u64) -> bool {
        if self.total_lp_supply == 0 {
            is_isqrt(amount_a * amount_b, v + (MINIMUM_LIQUIDITY as int))
        } else {
            v == self.lp_mint_liq(amount_a, amount_b)
        }
    }

    /// Bounds that keep the mint computation inside its integer types.
    pub open spec fn lp_mint_fits(self, amount_a: u64, amount_b: u64) -> bool {
        self.total_lp_supply != 0 ==> self.reserve_a >= 1 && self.reserve_b >= 1
            && self.lp_mint_liq(amount_a, amount_b) <= u64::MAX
    }

    /// LP tokens to mint for a deposit. On a fresh pool the bootstrap share
    /// is the floor square root of the product, less the burned minimum
    /// unit; a product too small to cover that minimum is refused.
    pub fn calculate_lp_mint(&self, amount_a: u64, amount_b: u64) -> (r: Result<u64, PoolError>)
        requires
            self.lp_mint_fits(amount_a, amount_b),
        ensures
            self.total_lp_supply == 0 && amount_a * amount_b < 4 ==> r == Err::<u64, PoolError>(
                PoolError::InsufficientLiquidity,
            ),
            self.total_lp_supply == 0 && amount_a * amount_b >= 4 ==> (r matches Ok(v)
                && self.mint_amount_ok(amount_a, amount_b, v)),
            self.total_lp_supply != 0 ==> r == (if self.lp_mint_liq(amount_a, amount_b) == 0 {
                Err::<u64, PoolError>(PoolError::InsufficientLiquidityMinted)
            } else {
                Ok(self.lp_mint_liq(amount_a, amount_b) as u64)
            }),
    {
        if self.total_lp_supply == 0 {
            proof {
                lemma_mul_le(
                    amount_a as int,
                    amount_b as int,
                    u64::MAX as int,
                    u64::MAX as int,
                );
            }
            let s = isqrt_u128(amount_a as u128 * amount_b as u128);
            proof {
                let p = amount_a as int * amount_b as int;
                let si = s as int;
                if p < 4 && si >= 2 {
                    assert(si * si >= 4) by (nonlinear_arith)
                        requires
                            si >= 2,
                    ;
                }
                if p >= 4 && si <= 1 {
                    assert((si + 1) * (si + 1) <= 4) by (nonlinear_arith)
                        requires
                            0 <= si <= 1,
                    ;
                }
                if si > u64::MAX as int {
                    assert(si * si > u64::MAX as int * u64::MAX as int) by (nonlinear_arith)
                        requires
                            si > u64::MAX as int,
                    ;
                    lemma_mul_le(
                        amount_a as int,
                        amount_b as int,
                        u64::MAX as int,
                        u64::MAX as int,
                    );
                }
            }
            if s <= MINIMUM_LIQUIDITY as u128 {
                return Err(PoolError::InsufficientLiquidity);
            }
            return Ok(s as u64 - MINIMUM_LIQUIDITY);
        }
        proof {
            lemma_mul_le(
                amount_a as int,
                self.total_lp_supply as int,
                u64::MAX as int,
                u64::MAX as int,
            );
            lemma_mul_le(
                amount_b as int,
                self.total_lp_supply as int,
                u64::MAX as int,
                u64::MAX as int,
            );
        }
        let la: u128 = (amount_a as u128 * self.total_lp_supply as u128) / self.reserve_a as u128;
        let lb: u128 = (amount_b as u128 * self.total_lp_supply as u128) / self.reserve_b as u128;
        let liq128: u128 = if la <= lb {
            la
        } else {
            lb
        };
        let liquidity: u64 = liq128 as u64;
        if liquidity == 0 {
            return Err(PoolError::InsufficientLiquidityMinted);
        }
        Ok(liquidity)
    }

    /// Deposit amounts adjusted onto the current pool ratio: one desired
    /// amount is scaled down to match the other.
    pub open spec fn spec_optimal_amounts(self, amount_a_desired: u64, amount_b_desired: u64) -> (
        int,
        int,
    ) {
        if self.reserve_a == 0 || self.reserve_b == 0 {
            (amount_a_desired as int, amount_b_desired as int)
        } else {
            let b_opt = (amount_a_desired * self.reserve_b) / (self.reserve_a as int);
            if b_opt <= amount_b_desired {
                (amount_a_desired as int, b_opt)
            } else {
                ((amount_b_desired * self.reserve_a) / (self.reserve_b as int), amount_b_desired as int)
            }
        }
    }

    /// Optimal deposit amounts that keep the current pool ratio: scale one
    /// desired amount down to match the other.
    pub fn calculate_optimal_amounts(&self, amount_a_desired: u64, amount_b_desired: u64) -> (r: (
        u64,
        u64,
    ))
        ensures
            r.0 == self.spec_optimal_amounts(amount_a_desired, amount_b_desired).0,
            r.1 == self.spec_optimal_amounts(amount_a_desired, amount_b_desired).1,
            r.0 <= amount_a_desired,
            r.1 <= amount_b_desired,
    {
        if self.reserve_a == 0 || self.reserve_b == 0 {
            return (amount_a_desired, amount_b_desired);
        }
        proof {
            lemma_mul_le(
                amount_a_desired as int,
                self.reserve_b as int,
                u64::MAX as int,
                u64::MAX as int,
            );
        }
        let b_opt: u128 = (amount_a_desired as u128 * self.reserve_b as u128) / self.reserve_a
            as u128;
        if b_opt <= amount_b_desired as u128 {
            return (amount_a_desired, b_opt as u64);
        }
        proof {
            lemma_mul_le(
                amount_b_desired as int,
                self.reserve_a as int,
                u64::MAX as int,
                u64::MAX as int,
            );
            // the rescaled first amount cannot exceed the desired one
            let ad = amount_a_desired as int;
            let bd = amount_b_desired as int;
            let ra = self.reserve_a as int;
            let rb = self.reserve_b as int;
            lemma_div_lower_bound(ad * rb, ra, bd + 1);
            assert(bd * ra <= (bd + 1) * ra - ra) by (nonlinear_arith);
            assert(bd * ra <= ad * rb - ra);
            lemma_div_bound_le(bd * ra, rb, ad);
        }
        let a_opt: u128 = (amount_b_desired as u128 * self.reserve_a as u128) / self.reserve_b
            as u128;
        (a_opt as u64, amount_b_desired)
    }

    /// Redemption amounts for burning LP tokens: the pro-rata share of each
    /// reserve, rounded down.
    pub open spec fn remove_amounts(self, lp_tokens: u64) -> (int, int) {
        (
            (lp_tokens * self.reserve_a) / (self.total_lp_supply as int),
            (lp_tokens * self.reserve_b) / (self.total_lp_supply as int),
        )
    }

    /// Token amounts paid out when removing liquidity.
    pub fn calculate_remove_amounts(&self, lp_tokens: u64) -> (r: Result<(u64, u64), PoolError>)
        ensures
            lp_tokens == 0 ==> r == Err::<(u64, u64), PoolError>(
                PoolError::InsufficientLiquidityBurned,
            ),
            lp_tokens > self.total_lp_supply ==> r == Err::<(u64, u64), PoolError>(
                PoolError::InsufficientLPTokens,
            ),
            0 < lp_tokens <= self.total_lp_supply ==> r == Ok::<(u64, u64), PoolError>(
                (
                    self.remove_amounts(lp_tokens).0 as u64,
                    self.remove_amounts(lp_tokens).1 as u64,
                ),
            ),
            0 < lp_tokens <= self.total_lp_supply ==> 0 <= self.remove_amounts(lp_tokens).0
                <= self.reserve_a && 0 <= self.remove_amounts(lp_tokens).1 <= self.reserve_b,
    {
        if lp_tokens == 0 {
            return Err(PoolError::InsufficientLiquidityBurned);
        }
        if lp_tokens > self.total_lp_supply {
            return Err(PoolError::InsufficientLPTokens);
        }
        proof {
            lemma_mul_le(
                lp_tokens as int,
                self.reserve_a as int,
                u64::MAX as int,
                u64::MAX as int,
            );
            lemma_mul_le(
                lp_tokens as int,
                self.reserve_b as int,
                u64::MAX as int,
                u64::MAX as int,
            );
            lemma_mul_le(
                lp_tokens as int,
                self.reserve_a as int,
                self.total_lp_supply as int,
                self.reserve_a as int,
            );
            lemma_div_bound_le(
                lp_tokens as int * self.reserve_a as int,
                self.total_lp_supply as int,
                self.reserve_a as int,
            );
            lemma_mul_le(
                lp_tokens as int,
                self.reserve_b as int,
                self.total_lp_supply as int,
                self.reserve_b as int,
            );
            lemma_div_bound_le(
                lp_tokens as int * self.reserve_b as int,
                self.total_lp_supply as int,
                self.reserve_b as int,
            );
        }
        let amount_a: u128 = (lp_tokens as u128 * self.reserve_a as u128) / self.total_lp_supply
            as u128;
        let amount_b: u128 = (lp_tokens as u128 * self.reserve_b as u128) / self.total_lp_supply
            as u128;
        Ok((amount_a as u64, amount_b as u64))
    }

    /// Protocol's cut of the swap fee: a fifth of the fee on the input.
    pub open spec fn spec_protocol_fee(amount_in: u64, fee: u64) -> int {
        (((amount_in * fee) / 10000) * 20) / 100
    }

    /// The pool after a confirmed swap of `amount_in` for `o`.
    pub open spec fn swapped(self, amount_in: u64, token_in: Seq<char>, o: u64) -> LiquidityPool {
        if token_in == self.token_a@ {
            (LiquidityPool {
                reserve_a: (self.reserve_a + amount_in) as u64,
                reserve_b: (self.reserve_b - o) as u64,
                protocol_fees_a: (self.protocol_fees_a + Self::spec_protocol_fee(
                    amount_in,
                    self.fee_rate,
                )) as u64,
                ..self
            })
        } else {
            (LiquidityPool {
                reserve_b: (self.reserve_b + amount_in) as u64,
                reserve_a: (self.reserve_a - o) as u64,
                protocol_fees_b: (self.protocol_fees_b + Self::spec_protocol_fee(
                    amount_in,
                    self.fee_rate,
                )) as u64,
                ..self
            })
        }
    }

    /// The reserve and fee updates of a swap stay in range.
    pub open spec fn swap_update_fits(self, amount_in: u64, token_in: Seq<char>) -> bool {
        match self.spec_swap_out(amount_in, token_in) {
            Ok(o) => {
                let pf = Self::spec_protocol_fee(amount_in, self.fee_rate);
                if token_in == self.token_a@ {
                    &&& self.reserve_a + amount_in <= u64::MAX
                    &&& o <= self.reserve_b
                    &&& self.protocol_fees_a + pf <= u64::MAX
                } else {
                    &&& self.reserve_b + amount_in <= u64::MAX
                    &&& o <= self.reserve_a
                    &&& self.protocol_fees_b + pf <= u64::MAX
                }
            },
            Err(_) => true,
        }
    }

    /// Apply a swap to the shadow reserves, refusing quotes below the given
    /// floor, and collect the protocol's share of the fee.
    pub fn execute_swap(&mut self, amount_in: u64, token_in: &str, min_amount_out: u64) -> (r:
        Result<u64, PoolError>)
        requires
            old(self).integer_priced(),
            old(self).fee_ok(),
            old(self).amp_ok(),
            old(self).swap_fits(amount_in, token_in@),
            old(self).swap_update_fits(amount_in, token_in@),
        ensures
            old(self).spec_swap_out(amount_in, token_in@) matches Err(e) ==> r == Err::<
                u64,
                PoolError,
            >(e) && *final(self) == *old(self),
            old(self).spec_swap_out(amount_in, token_in@) matches Ok(o) ==> (if o
                < min_amount_out {
                r == Err::<u64, PoolError>(PoolError::SlippageExceeded) && *final(self) == *old(
                    self,
                )
            } else {
                r == Ok::<u64, PoolError>(o) && *final(self) == old(self).swapped(
                    amount_in,
                    token_in@,
                    o,
                )
            }),
    {
        let amount_out = match self.get_amount_out(amount_in, token_in) {
            Ok(o) => o,
            Err(e) => {
                return Err(e);
            },
        };
        if amount_out < min_amount_out {
            return Err(PoolError::SlippageExceeded);
        }
        proof {
            lemma_mul_le(amount_in as int, self.fee_rate as int, u64::MAX as int, 10000);
            lemma_div_bound_le(
                amount_in as int * self.fee_rate as int,
                10000,
                amount_in as int * self.fee_rate as int,
            );
            lemma_mul_le(
                (amount_in as int * self.fee_rate as int) / 10000,
                20,
                u128::MAX as int / 20,
                20,
            );
        }
        let fee128: u128 = (amount_in as u128 * self.fee_rate as u128) / 10000;
        proof {
            lemma_div_bound_le(fee128 as int * 20, 100, fee128 as int);
            lemma_div_bound_le(amount_in as int * self.fee_rate as int, 10000, u64::MAX as int);
        }
        let protocol_fee: u128 = (fee128 * 20) / 100;
        let pf: u64 = protocol_fee as u64;
        if str_eq(token_in, self.token_a.as_str()) {
            self.reserve_a = self.reserve_a + amount_in;
            self.reserve_b = self.reserve_b - amount_out;
            self.protocol_fees_a = self.protocol_fees_a + pf;
        } else {
            self.reserve_b = self.reserve_b + amount_in;
            self.reserve_a = self.reserve_a - amount_out;
            self.protocol_fees_b = self.protocol_fees_b + pf;
        }
        Ok(amount_out)
    }

    /// The pool after a deposit minting `v` LP tokens.
    pub open spec fn liquidity_added(self, amount_a: u64, amount_b: u64, v: u64) -> LiquidityPool {
        (LiquidityPool {
            reserve_a: (self.reserve_a + amount_a) as u64,
            reserve_b: (self.reserve_b + amount_b) as u64,
            total_lp_supply: (self.total_lp_supply + v) as u64,
            ..self
        })
    }

    /// Deposit both tokens, minting LP tokens; refuse mints below the given
    /// floor.
    pub fn add_liquidity(&mut self, amount_a: u64, amount_b: u64, min_liquidity: u64) -> (r: Result<
        u64,
        PoolError,
    >)
        requires
            old(self).lp_mint_fits(amount_a, amount_b),
            old(self).reserve_a + amount_a <= u64::MAX,
            old(self).reserve_b + amount_b <= u64::MAX,
            old(self).total_lp_supply != 0 ==> old(self).total_lp_supply + old(self).lp_mint_liq(
                amount_a,
                amount_b,
            ) <= u64::MAX,
        ensures
            r matches Ok(v) ==> old(self).mint_amount_ok(amount_a, amount_b, v) && v
                >= min_liquidity && *final(self) == old(self).liquidity_added(
                amount_a,
                amount_b,
                v,
            ),
            r is Err ==> *final(self) == *old(self),
            old(self).total_lp_supply != 0 ==> r == (if old(self).lp_mint_liq(amount_a, amount_b)
                == 0 {
                Err::<u64, PoolError>(PoolError::InsufficientLiquidityMinted)
            } else if old(self).lp_mint_liq(amount_a, amount_b) < min_liquidity {
                Err::<u64, PoolError>(PoolError::SlippageExceeded)
            } else {
                Ok(old(self).lp_mint_liq(amount_a, amount_b) as u64)
            }),
            old(self).total_lp_supply == 0 && amount_a * amount_b < 4 ==> r == Err::<
                u64,
                PoolError,
            >(PoolError::InsufficientLiquidity),
            old(self).total_lp_supply == 0 && amount_a * amount_b >= 4 ==> (r matches Err(e)
                ==> e == PoolError::SlippageExceeded),
    {
        let lp_tokens = match self.calculate_lp_mint(amount_a, amount_b) {
            Ok(v) => v,
            Err(e) => {
                return Err(e);
            },
        };
        if lp_tokens < min_liquidity {
            return Err(PoolError::SlippageExceeded);
        }

        self.reserve_a = self.reserve_a + amount_a;
        self.reserve_b = self.reserve_b + amount_b;
        self.total_lp_supply = self.total_lp_supply + lp_tokens;
        Ok(lp_tokens)
    }

    /// The pool after burning `lp` tokens for its pro-rata amounts.
    pub open spec fn liquidity_removed(self, lp_tokens: u64) -> LiquidityPool {
        (LiquidityPool {
            reserve_a: (self.reserve_a - self.remove_amounts(lp_tokens).0) as u64,
            reserve_b: (self.reserve_b - self.remove_amounts(lp_tokens).1) as u64,
            total_lp_supply: (self.total_lp_supply - lp_tokens) as u64,
            ..self
        })
    }

    /// Burn LP tokens for the pro-rata share of both reserves; refuse
    /// payouts below the given floors.
    pub fn remove_liquidity(&mut self, lp_tokens: u64, min_amount_a: u64, min_amount_b: u64) -> (r:
        Result<(u64, u64), PoolError>)
        ensures
            lp_tokens == 0 ==> r == Err::<(u64, u64), PoolError>(
                PoolError::InsufficientLiquidityBurned,
            ) && *final(self) == *old(self),
            lp_tokens > old(self).total_lp_supply ==> r == Err::<(u64, u64), PoolError>(
                PoolError::InsufficientLPTokens,
            ) && *final(self) == *old(self),
            0 < lp_tokens <= old(self).total_lp_supply ==> ({
                let (a, b) = old(self).remove_amounts(lp_tokens);
                if a < min_amount_a || b < min_amount_b {
                    r == Err::<(u64, u64), PoolError>(PoolError::SlippageExceeded) && *final(self)
                        == *old(self)
                } else {
                    r == Ok::<(u64, u64), PoolError>((a as u64, b as u64)) && *final(self) == old(
                        self,
                    ).liquidity_removed(lp_tokens)
                }
            }),
    {
        let (amount_a, amount_b) = match self.calculate_remove_amounts(lp_tokens) {
            Ok(v) => v,
            Err(e) => {
                return Err(e);
            },
        };
        if amount_a < min_amount_a || amount_b < min_amount_b {
            return Err(PoolError::SlippageExceeded);
        }
        proof {
            lemma_mul_le(
                lp_tokens as int,
                self.reserve_a as int,
                self.total_lp_supply as int,
                self.reserve_a as int,
            );
            lemma_div_bound_le(
                lp_tokens as int * self.reserve_a as int,
                self.total_lp_supply as int,
                self.reserve_a as int,
            );
            lemma_mul_le(
                lp_tokens as int,
                self.reserve_b as int,
                self.total_lp_supply as int,
                self.reserve_b as int,
            );
            lemma_div_bound_le(
                lp_tokens as int * self.reserve_b as int,
                self.total_lp_supply as int,
                self.reserve_b as int,
            );
        }
        self.reserve_a = self.reserve_a - amount_a;
        self.reserve_b = self.reserve_b - amount_b;
        self.total_lp_supply = self.total_lp_supply - lp_tokens;
        Ok((amount_a, amount_b))
    }

    /// Price impact of a swap in basis points: the gap between execution
    /// price and mid price, relative to the mid price.
    pub open spec fn impact_bp_val(amount_in: u64, o: u64, ri: u64, ro: u64) -> int {
        let num = if o * ri >= amount_in * ro {
            o * ri - amount_in * ro
        } else {
            amount_in * ro - o * ri
        };
        (num * 10000) / (amount_in * ro)
    }

    /// The impact computation stays inside its integer types.
    pub open spec fn impact_fits(self, amount_in: u64, token_in: Seq<char>) -> bool {
        match self.swap_reserves_spec(token_in) {
            Some((ri, ro)) => match self.spec_swap_out(amount_in, token_in) {
                Ok(o) => {
                    let num = if o * ri >= amount_in * ro {
                        o * ri - amount_in * ro
                    } else {
                        amount_in * ro - o * ri
                    };
                    num * 10000 <= u128::MAX && Self::impact_bp_val(amount_in, o, ri, ro)
                        <= u64::MAX
                },
                Err(_) => true,
            },
            None => true,
        }
    }

    /// Price impact of a swap, in basis points. As in the output quote, an
    /// unknown token is refused before the paused state is consulted.
    pub fn calculate_price_impact(&self, amount_in: u64, token_in: &str) -> (r: Result<
        u64,
        PoolError,
    >)
        requires
            self.integer_priced(),
            self.fee_ok(),
            self.amp_ok(),
            self.swap_fits(amount_in, token_in@),
            self.impact_fits(amount_in, token_in@),
            amount_in > 0,
        ensures
            self.swap_reserves_spec(token_in@) is None ==> r == Err::<u64, PoolError>(
                PoolError::InvalidToken,
            ),
            self.swap_reserves_spec(token_in@) is Some ==> (self.spec_swap_out(
                amount_in,
                token_in@,
            ) matches Err(e) ==> r == Err::<u64, PoolError>(e)),
            self.swap_reserves_spec(token_in@) matches Some((ri, ro)) ==> (self.spec_swap_out(
                amount_in,
                token_in@,
            ) matches Ok(o) ==> r == Ok::<u64, PoolError>(
                Self::impact_bp_val(amount_in, o, ri, ro) as u64,
            )),
    {
        let hit_a = str_eq(token_in, self.token_a.as_str());
        let hit_b = str_eq(token_in, self.token_b.as_str());
        let (reserve_in, reserve_out) = if hit_a {
            (self.reserve_a, self.reserve_b)
        } else if hit_b {
            (self.reserve_b, self.reserve_a)
        } else {
            return Err(PoolError::InvalidToken);
        };
        let amount_out = match self.get_amount_out(amount_in, token_in) {
            Ok(o) => o,
            Err(e) => {
                return Err(e);
            },
        };
        proof {
            lemma_mul_le(
                amount_out as int,
                reserve_in as int,
                u64::MAX as int,
                u64::MAX as int,
            );
            lemma_mul_le(
                amount_in as int,
                reserve_out as int,
                u64::MAX as int,
                u64::MAX as int,
            );
            // a successful quote implies liquidity on the output side
            assert(reserve_out >= 1);
            assert(amount_in as int * reserve_out as int >= 1) by (nonlinear_arith)
                requires
                    amount_in >= 1,
                    reserve_out >= 1,
            ;
        }
        let exec_side: u128 = amount_out as u128 * reserve_in as u128;
        let mid_side: u128 = amount_in as u128 * reserve_out as u128;
        let num: u128 = if exec_side >= mid_side {
            exec_side - mid_side
        } else {
            mid_side - exec_side
        };
        let impact: u128 = (num * 10000) / mid_side;
        Ok(impact as u64)
    }
}

/// Law: minting LP tokens for a deposit and then valuing that same mint as
/// a removal pays out at most the deposit, on each side: the pro-rata
/// arithmetic only rounds down.
pub proof fn lemma_mint_then_remove_bounded(p: LiquidityPool, amount_a: u64, amount_b: u64)
    requires
        p.total_lp_supply >= 1,
        p.reserve_a >= 1,
        p.reserve_b >= 1,
        0 <= p.lp_mint_liq(amount_a, amount_b) <= u64::MAX,
    ensures
        p.remove_amounts(p.lp_mint_liq(amount_a, amount_b) as u64).0 <= amount_a,
        p.remove_amounts(p.lp_mint_liq(amount_a, amount_b) as u64).1 <= amount_b,
{
    let s = p.total_lp_supply as int;
    let ra = p.reserve_a as int;
    let rb = p.reserve_b as int;
    let la = (amount_a * p.total_lp_supply) / (p.reserve_a as int);
    let lb = (amount_b * p.total_lp_supply) / (p.reserve_b as int);
    let v = p.lp_mint_liq(amount_a, amount_b);
    crate::arith::div_mod_facts(amount_a as int * s, ra);
    crate::arith::div_mod_facts(amount_b as int * s, rb);
    // v <= la and v <= lb, and la * ra <= a * s, lb * rb <= b * s
    assert(ra * la <= amount_a as int * s);
    assert(rb * lb <= amount_b as int * s);
    assert(v * ra <= la * ra) by (nonlinear_arith)
        requires
            v <= la,
            ra >= 1,
            0 <= v,
    ;
    assert(la * ra == ra * la) by (nonlinear_arith);
    assert(v * rb <= lb * rb) by (nonlinear_arith)
        requires
            v <= lb,
            rb >= 1,
            0 <= v,
    ;
    assert(lb * rb == rb * lb) by (nonlinear_arith);
    // hence v * r / s <= amount on each side
    lemma_div_bound_le((v as u64) as int * ra, s, amount_a as int);
    lemma_div_bound_le((v as u64) as int * rb, s, amount_b as int);
    assert(amount_a as int * s == s * amount_a) by (nonlinear_arith);
    assert(amount_b as int * s == s * amount_b) by (nonlinear_arith);
}

} // verus!
