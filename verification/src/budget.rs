//! Budget-domain primitives shared by configuration, admission, and reporting:
//! exact micro-USD amounts, per-model prices, and the call/cost ledger that
//! admits billable requests.

use vstd::prelude::*;

use crate::openai::TokenUsage;
use crate::text::{decimal_chars, push_decimal, push_six_digits, six_digit_chars};

verus! {

/// Monetary amount represented exactly in micro-USD.
#[derive(Debug, Clone, Copy, PartialEq, Eq, Structural, PartialOrd, Ord, Hash)]
pub struct MicroUsd(pub u64);

/// `$<dollars>.<six-digit micro part>`, the display form of an amount.
pub open spec fn micro_usd_display(v: nat) -> Seq<char> {
    seq!['$'] + decimal_chars(v / 1_000_000) + seq!['.'] + six_digit_chars(v % 1_000_000)
}

impl MicroUsd {
    /// The zero amount.
    pub fn zero() -> (r: MicroUsd)
        ensures
            r.0 == 0,
    {
        MicroUsd(0)
    }

    pub fn from_micro_usd(value: u64) -> (r: MicroUsd)
        ensures
            r.0 == value,
    {
        MicroUsd(value)
    }

    pub fn as_u64(self) -> (r: u64)
        ensures
            r == self.0,
    {
        self.0
    }

    /// Dollar display: whole dollars, a point, and exactly six micro digits.
    pub fn to_display_string(self) -> (s: String)
        ensures
            s@ == micro_usd_display(self.0 as nat),
    {
        let mut s = String::new();
        s.push('$');
        push_decimal(&mut s, self.0 / 1_000_000);
        s.push('.');
        push_six_digits(&mut s, self.0 % 1_000_000);
        proof {
            assert(s@ =~= micro_usd_display(self.0 as nat));
        }
        s
    }
}

// ---------------------------------------------------------------------------
// Decimal amounts
// ---------------------------------------------------------------------------

/// A decimal as `rust_decimal` holds it: a sign, a mantissa below 2^96 and
/// a scale of at most 28 places. Its value is `mantissa / 10^scale`,
/// negated when `negative` is set.
#[derive(Debug, Clone, Copy, PartialEq, Eq, Structural)]
pub struct DecimalAmount {
    pub negative: bool,
    pub mantissa: u128,
    pub scale: u32,
}

/// One more than the largest mantissa a decimal holds: 2^96.
pub open spec fn mantissa_limit() -> nat {
    0x1_0000_0000_0000_0000_0000_0000
}

impl DecimalAmount {
    /// A mantissa below 2^96 and a scale of at most 28.
    pub open spec fn wf(self) -> bool {
        self.mantissa < mantissa_limit() && self.scale <= 28
    }
}

/// `10^n`.
pub open spec fn pow10(n: nat) -> nat
    decreases n,
{
    if n == 0 {
        1
    } else {
        10 * pow10((n - 1) as nat)
    }
}

proof fn lemma_pow10_mono(a: nat, b: nat)
    requires
        a <= b,
    ensures
        1 <= pow10(a) <= pow10(b),
    decreases b,
{
    if b > 0 {
        if a < b {
            lemma_pow10_mono(a, (b - 1) as nat);
        } else {
            lemma_pow10_mono((b - 1) as nat, (b - 1) as nat);
        }
    }
}

/// Why a decimal amount is not a micro-USD amount.
#[derive(Debug, Clone, Copy, PartialEq, Eq, Structural)]
pub enum MicroUsdError {
    /// The amount is negative.
    Negative,
    /// The amount has more than six decimal places.
    TooPrecise(DecimalAmount),
    /// The amount is too large for micro-USD representation.
    Overflow(DecimalAmount),
}

/// What `rust_decimal::Decimal::checked_mul` gives for an amount times a
/// whole factor; `None` where the product cannot be represented.
pub uninterp spec fn spec_decimal_mul(d: DecimalAmount, factor: u64) -> Option<DecimalAmount>;

/// Calls `Decimal::checked_mul` on the amount and the factor. Beside naming
/// the result, it states what rust_decimal's multiplication does when the
/// exact product fits the 96-bit mantissa (`mul_impl`, `finish_mul`): that
/// product at the amount's scale, and zero for a zero operand. Where the
/// product does not fit, the rescaling and rounding are left unstated.
#[verifier::external_body]
fn decimal_mul(d: DecimalAmount, factor: u64) -> (r: Option<DecimalAmount>)
    requires
        d.wf(),
        !d.negative,
    ensures
        r == spec_decimal_mul(d, factor),
        r matches Some(p) ==> p.wf() && !p.negative,
        d.mantissa == 0 || factor == 0 ==> r == Some(
            DecimalAmount { negative: false, mantissa: 0, scale: 0 },
        ),
        0 < d.mantissa && 0 < factor && d.mantissa * factor < mantissa_limit() ==> r == Some(
            DecimalAmount { negative: false, mantissa: (d.mantissa * factor) as u128, scale: d.scale },
        ),
{
    let amount = rust_decimal::Decimal::from_i128_with_scale(d.mantissa as i128, d.scale);
    match amount.checked_mul(rust_decimal::Decimal::from(factor)) {
        Some(p) => Some(
            DecimalAmount {
                negative: p.is_sign_negative(),
                mantissa: p.mantissa().unsigned_abs(),
                scale: p.scale(),
            },
        ),
        None => None,
    }
}

/// The micro-USD amount of a decimal, given its value times one million
/// (`scaled`): refused when negative, when a fraction of a micro-dollar
/// remains, or when it does not fit a `u64`.
pub open spec fn from_scaled_spec(amount: DecimalAmount, scaled: DecimalAmount) -> Result<MicroUsd, MicroUsdError> {
    if amount.negative {
        Err(MicroUsdError::Negative)
    } else if (scaled.mantissa as nat) % pow10(scaled.scale as nat) != 0 {
        Err(MicroUsdError::TooPrecise(amount))
    } else if (scaled.mantissa as nat) / pow10(scaled.scale as nat) > u64::MAX {
        Err(MicroUsdError::Overflow(amount))
    } else {
        Ok(MicroUsd(((scaled.mantissa as nat) / pow10(scaled.scale as nat)) as u64))
    }
}

/// What converting a decimal amount gives: `None` where the conversion
/// overflows rust_decimal before it can decide.
pub open spec fn decimal_outcome(amount: DecimalAmount) -> Option<Result<MicroUsd, MicroUsdError>> {
    if amount.negative {
        Some(Err(MicroUsdError::Negative))
    } else {
        match spec_decimal_mul(amount, 1_000_000) {
            Some(scaled) => Some(from_scaled_spec(amount, scaled)),
            None => None,
        }
    }
}

fn pow10_u128(n: u32) -> (r: u128)
    requires
        n <= 28,
    ensures
        r == pow10(n as nat),
        r >= 1,
{
    let mut r: u128 = 1;
    let mut i: u32 = 0;
    proof {
        assert(pow10(28) == 10000000000000000000000000000) by {
            reveal_with_fuel(pow10, 29);
        }
    }
    while i < n
        invariant
            i <= n <= 28,
            r == pow10(i as nat),
            pow10(28) == 10000000000000000000000000000,
        decreases n - i,
    {
        proof {
            lemma_pow10_mono((i + 1) as nat, 28);
        }
        r = r * 10;
        i = i + 1;
    }
    proof {
        lemma_pow10_mono(0, n as nat);
    }
    r
}

impl MicroUsd {
    /// The micro-USD amount of a decimal whose value times one million is
    /// `scaled`.
    pub fn from_scaled(amount: DecimalAmount, scaled: DecimalAmount) -> (r: Result<MicroUsd, MicroUsdError>)
        requires
            scaled.wf(),
        ensures
            r == from_scaled_spec(amount, scaled),
    {
        if amount.negative {
            return Err(MicroUsdError::Negative);
        }
        let p = pow10_u128(scaled.scale);
        if scaled.mantissa % p != 0 {
            return Err(MicroUsdError::TooPrecise(amount));
        }
        let whole = scaled.mantissa / p;
        if whole > u64::MAX as u128 {
            return Err(MicroUsdError::Overflow(amount));
        }
        Ok(MicroUsd(whole as u64))
    }

    /// Convert a decimal USD amount exactly: refused when negative, finer
    /// than a micro-dollar, or too large. A product past rust_decimal's
    /// range is excluded (the multiplication would panic); see
    /// [`MicroUsd::checked_from_decimal`]. Where the amount times one million
    /// fits a decimal's mantissa, the product is exact.
    pub fn try_from_decimal(amount: DecimalAmount) -> (r: Result<MicroUsd, MicroUsdError>)
        requires
            amount.wf(),
            !amount.negative ==> spec_decimal_mul(amount, 1_000_000) is Some,
        ensures
            amount.negative ==> r == Err::<MicroUsd, MicroUsdError>(MicroUsdError::Negative),
            !amount.negative ==> r == from_scaled_spec(amount, spec_decimal_mul(amount, 1_000_000)->0),
            !amount.negative && amount.mantissa * 1_000_000 < mantissa_limit() ==> r
                == from_scaled_spec(amount, exact_scaled(amount)),
    {
        if amount.negative {
            return Err(MicroUsdError::Negative);
        }
        let scaled = decimal_mul(amount, 1_000_000).unwrap();
        proof {
            lemma_exact_product(amount, scaled);
        }
        MicroUsd::from_scaled(amount, scaled)
    }

    /// [`MicroUsd::try_from_decimal`], or `None` where multiplying the
    /// amount by one million overflows rust_decimal.
    pub fn checked_from_decimal(amount: DecimalAmount) -> (r: Option<Result<MicroUsd, MicroUsdError>>)
        requires
            amount.wf(),
        ensures
            r == decimal_outcome(amount),
            !amount.negative && amount.mantissa * 1_000_000 < mantissa_limit() ==> r == Some(
                from_scaled_spec(amount, exact_scaled(amount)),
            ),
    {
        if amount.negative {
            return Some(MicroUsd::try_from_decimal(amount));
        }
        match decimal_mul(amount, 1_000_000) {
            Some(_) => Some(MicroUsd::try_from_decimal(amount)),
            None => None,
        }
    }
}

/// The amount times one million, exactly, at the amount's scale.
pub open spec fn exact_scaled(amount: DecimalAmount) -> DecimalAmount {
    DecimalAmount { negative: false, mantissa: (amount.mantissa * 1_000_000) as u128, scale: amount.scale }
}

/// Where the exact product fits, converting the product rust_decimal gives
/// is converting the exact product.
proof fn lemma_exact_product(amount: DecimalAmount, scaled: DecimalAmount)
    requires
        amount.wf(),
        !amount.negative,
        amount.mantissa * 1_000_000 < mantissa_limit() ==> (amount.mantissa == 0 ==> scaled == DecimalAmount {
            negative: false,
            mantissa: 0,
            scale: 0,
        }) && (amount.mantissa > 0 ==> scaled == exact_scaled(amount)),
    ensures
        amount.mantissa * 1_000_000 < mantissa_limit() ==> from_scaled_spec(amount, scaled)
            == from_scaled_spec(amount, exact_scaled(amount)),
{
    if amount.mantissa * 1_000_000 < mantissa_limit() && amount.mantissa == 0 {
        lemma_pow10_mono(0, amount.scale as nat);
        lemma_pow10_mono(0, 0);
        let p = pow10(amount.scale as nat);
        assert(0nat % p == 0 && 0nat / p == 0) by (nonlinear_arith)
            requires
                p >= 1,
        ;
        assert(pow10(0) == 1);
    }
}

proof fn lemma_pow10_add(a: nat, b: nat)
    ensures
        pow10(a + b) == pow10(a) * pow10(b),
    decreases a,
{
    if a > 0 {
        let a1 = (a - 1) as nat;
        lemma_pow10_add(a1, b);
        assert(pow10(a + b) == 10 * pow10(a1 + b));
        assert(pow10(a) == 10 * pow10(a1));
        vstd::arithmetic::mul::lemma_mul_is_associative(10, pow10(a1) as int, pow10(b) as int);
    } else {
        assert(pow10(a) == 1);
        assert(a + b == b);
    }
}

/// An amount of at most six decimal places, multiplied exactly, converts to
/// its value in micro-dollars whenever that fits a `u64`; one with a
/// nonzero digit past the sixth decimal place is refused as too precise.
pub proof fn law_six_decimal_places(amount: DecimalAmount)
    requires
        amount.wf(),
        !amount.negative,
    ensures
        ({
            let m = amount.mantissa as nat;
            let s = amount.scale as nat;
            let scaled = DecimalAmount {
                negative: false,
                mantissa: (amount.mantissa * 1_000_000) as u128,
                scale: amount.scale,
            };
            &&& s <= 6 && m * pow10((6 - s) as nat) <= u64::MAX ==> from_scaled_spec(amount, scaled)
                == Ok::<MicroUsd, MicroUsdError>(MicroUsd((m * pow10((6 - s) as nat)) as u64))
            &&& s <= 6 && m * pow10((6 - s) as nat) > u64::MAX ==> from_scaled_spec(amount, scaled)
                == Err::<MicroUsd, MicroUsdError>(MicroUsdError::Overflow(amount))
            &&& s > 6 && m % pow10((s - 6) as nat) != 0 ==> from_scaled_spec(amount, scaled)
                == Err::<MicroUsd, MicroUsdError>(MicroUsdError::TooPrecise(amount))
        }),
{
    let m = amount.mantissa as nat;
    let s = amount.scale as nat;
    assert(pow10(6) == 1_000_000) by {
        reveal_with_fuel(pow10, 7);
    }
    assert(m * 1_000_000 < 0x1_0000_0000_0000_0000_0000_0000_0000_0000) by (nonlinear_arith)
        requires
            m < 0x1_0000_0000_0000_0000_0000_0000,
    ;
    let big = m * 1_000_000;
    lemma_pow10_mono(0, s);
    if s <= 6 {
        let k = (6 - s) as nat;
        lemma_pow10_add(k, s);
        lemma_pow10_mono(0, k);
        assert(big == (m * pow10(k)) * pow10(s)) by (nonlinear_arith)
            requires
                big == m * 1_000_000,
                pow10(k) * pow10(s) == 1_000_000,
        ;
        vstd::arithmetic::div_mod::lemma_mod_multiples_basic((m * pow10(k)) as int, pow10(s) as int);
        vstd::arithmetic::div_mod::lemma_div_multiples_vanish((m * pow10(k)) as int, pow10(s) as int);
        assert(pow10(s) * (m * pow10(k)) == (m * pow10(k)) * pow10(s)) by (nonlinear_arith);
    } else {
        let k = (s - 6) as nat;
        lemma_pow10_add(6, k);
        lemma_pow10_mono(0, k);
        vstd::arithmetic::div_mod::lemma_truncate_middle(m as int, 1_000_000, pow10(k) as int);
        assert(1_000_000 * m == big);
        if m % pow10(k) != 0 {
            assert(1_000_000 * (m % pow10(k)) != 0) by (nonlinear_arith)
                requires
                    m % pow10(k) != 0,
                    m % pow10(k) >= 0,
            ;
        }
    }
}

// ---------------------------------------------------------------------------
// Prices
// ---------------------------------------------------------------------------

/// USD per million tokens, for prompt (input) and completion (output) tokens.
#[derive(Debug, Clone, Copy, PartialEq, Eq, Structural)]
pub struct Price {
    pub input_per_million: MicroUsd,
    pub output_per_million: MicroUsd,
}

/// A cost that does not fit in a `u64` micro-USD amount.
#[derive(Debug, Clone, Copy, PartialEq, Eq, Structural)]
pub enum PriceError {
    Overflow,
}

/// Exact cost in micro-USD of `prompt` and `completion` tokens, rounded up
/// to a whole micro-USD.
pub open spec fn cost_spec(price: Price, prompt: nat, completion: nat) -> nat {
    let total: nat = prompt * (price.input_per_million.0 as nat) + completion * (price.output_per_million.0 as nat);
    if total % 1_000_000 == 0 {
        total / 1_000_000
    } else {
        total / 1_000_000 + 1
    }
}

impl Price {
    pub fn new(input_per_million: MicroUsd, output_per_million: MicroUsd) -> (p: Price)
        ensures
            p.input_per_million == input_per_million,
            p.output_per_million == output_per_million,
    {
        Price { input_per_million, output_per_million }
    }

    /// Cost of a response's token usage; an error when it exceeds `u64`.
    pub fn calculate(&self, usage: &TokenUsage) -> (r: Result<MicroUsd, PriceError>)
        ensures
            match r {
                Ok(c) => c.0 == cost_spec(*self, usage.prompt_tokens as nat, usage.completion_tokens as nat),
                Err(_) => cost_spec(*self, usage.prompt_tokens as nat, usage.completion_tokens as nat) > u64::MAX,
            },
    {
        let p = usage.prompt_tokens as u128;
        let c = usage.completion_tokens as u128;
        let i = self.input_per_million.0 as u128;
        let o = self.output_per_million.0 as u128;
        proof {
            lemma_mul_u64_bound(p as int, i as int);
            lemma_mul_u64_bound(c as int, o as int);
        }
        let a = p * i;
        let b = c * o;
        let total = match a.checked_add(b) {
            Some(t) => t,
            None => {
                proof {
                    lemma_cost_large(a as int + b as int);
                }
                return Err(PriceError::Overflow);
            },
        };
        let whole = total / 1_000_000;
        let micro = if total % 1_000_000 == 0 {
            whole
        } else {
            whole + 1
        };
        if micro > u64::MAX as u128 {
            Err(PriceError::Overflow)
        } else {
            Ok(MicroUsd(micro as u64))
        }
    }
}

proof fn lemma_mul_u64_bound(x: int, y: int)
    requires
        0 <= x <= u64::MAX,
        0 <= y <= u64::MAX,
    ensures
        0 <= x * y <= u64::MAX * u64::MAX,
{
    assert(0 <= x * y <= u64::MAX * u64::MAX) by (nonlinear_arith)
        requires
            0 <= x <= u64::MAX,
            0 <= y <= u64::MAX,
    ;
}

proof fn lemma_cost_large(total: int)
    requires
        total > u128::MAX,
    ensures
        total / 1_000_000 > u64::MAX,
{
}

/// The cost is the exact price of the tokens rounded up to a whole
/// micro-USD: the smallest amount whose million-fold covers prompt tokens
/// at the input rate plus completion tokens at the output rate.
pub proof fn law_cost_rounds_up(price: Price, prompt: nat, completion: nat)
    ensures
        ({
            let exact = prompt * (price.input_per_million.0 as nat) + completion * (price.output_per_million.0 as nat);
            let c = cost_spec(price, prompt, completion);
            &&& c * 1_000_000 >= exact
            &&& c == 0 || (c - 1) * 1_000_000 < exact
        }),
{
    let exact = prompt * (price.input_per_million.0 as nat) + completion * (price.output_per_million.0 as nat);
    assert(exact >= 0) by (nonlinear_arith)
        requires
            exact == prompt * (price.input_per_million.0 as nat) + completion * (price.output_per_million.0 as nat),
    ;
    let q = exact / 1_000_000;
    let r = exact % 1_000_000;
    assert(exact == q * 1_000_000 + r && 0 <= r < 1_000_000) by (nonlinear_arith)
        requires
            exact >= 0,
            q == exact / 1_000_000,
            r == exact % 1_000_000,
    ;
}

/// Cost is monotonic in the token counts: more prompt or completion tokens
/// never cost less.
pub proof fn law_cost_monotonic(price: Price, p1: nat, c1: nat, p2: nat, c2: nat)
    requires
        p1 <= p2,
        c1 <= c2,
    ensures
        cost_spec(price, p1, c1) <= cost_spec(price, p2, c2),
{
    let i = price.input_per_million.0 as nat;
    let o = price.output_per_million.0 as nat;
    assert(p1 * i <= p2 * i) by (nonlinear_arith)
        requires
            p1 <= p2,
    ;
    assert(c1 * o <= c2 * o) by (nonlinear_arith)
        requires
            c1 <= c2,
    ;
    let t1 = p1 * i + c1 * o;
    let t2 = p2 * i + c2 * o;
    assert(t1 / 1_000_000 <= t2 / 1_000_000) by (nonlinear_arith)
        requires
            0 <= t1 <= t2,
    ;
    assert(t1 <= t2);
    if t1 / 1_000_000 == t2 / 1_000_000 && t1 % 1_000_000 != 0 {
        assert(t2 % 1_000_000 != 0) by (nonlinear_arith)
            requires
                t1 / 1_000_000 == t2 / 1_000_000,
                t1 % 1_000_000 != 0,
                0 <= t1 <= t2,
        ;
    }
}

// ---------------------------------------------------------------------------
// Admission ledger
// ---------------------------------------------------------------------------

/// Configured caps. A zero cost limit disables cost-based admission.
#[derive(Debug, Clone, Copy, PartialEq, Eq, Structural)]
pub struct BudgetLimits {
    pub max_llm_calls: u64,
    pub max_cost_usd: MicroUsd,
}

/// Point-in-time view of the ledger.
#[derive(Debug, Clone, Copy, PartialEq, Eq, Structural)]
pub struct BudgetSnapshot {
    pub calls_reserved: u64,
    pub calls_limit: u64,
    pub observed_cost_usd: MicroUsd,
    pub cost_limit_usd: MicroUsd,
}

/// Proof that one billable call was admitted, with its 1-based number.
#[derive(Debug, Clone, Copy, PartialEq, Eq, Structural)]
pub struct CallPermit {
    pub call_number: u64,
}

/// Outcome of asking the ledger to admit one billable call.
#[derive(Debug, Clone, Copy, PartialEq, Eq, Structural)]
pub enum BudgetAdmission {
    Allowed(CallPermit),
    CallCapExceeded { calls_reserved: u64, calls_limit: u64 },
    CostCapExceeded { observed_cost_usd: MicroUsd, cost_limit_usd: MicroUsd },
}

/// Call and observed-cost ledger. Calls are reserved on admission; costs are
/// committed after a response is metered, so the cost cap is an observed cap.
#[derive(Debug, Clone, Copy, PartialEq, Eq, Structural)]
pub struct BudgetTracker {
    limits: BudgetLimits,
    calls_reserved: u64,
    observed_cost: u64,
}

/// The admission decision the ledger owes in a state.
pub open spec fn admission_spec(limits: BudgetLimits, calls_reserved: u64, observed_cost: u64) -> BudgetAdmission {
    if calls_reserved >= limits.max_llm_calls {
        BudgetAdmission::CallCapExceeded {
            calls_reserved: calls_reserved,
            calls_limit: limits.max_llm_calls,
        }
    } else if limits.max_cost_usd.0 != 0 && observed_cost >= limits.max_cost_usd.0 {
        BudgetAdmission::CostCapExceeded {
            observed_cost_usd: MicroUsd(observed_cost),
            cost_limit_usd: limits.max_cost_usd,
        }
    } else {
        BudgetAdmission::Allowed(CallPermit { call_number: (calls_reserved + 1) as u64 })
    }
}

impl BudgetTracker {
    pub closed spec fn limits_spec(&self) -> BudgetLimits {
        self.limits
    }

    pub closed spec fn calls_reserved_spec(&self) -> u64 {
        self.calls_reserved
    }

    pub closed spec fn observed_cost_spec(&self) -> u64 {
        self.observed_cost
    }

    /// Reserved calls never exceed the call limit.
    pub closed spec fn wf(&self) -> bool {
        self.calls_reserved <= self.limits.max_llm_calls
    }

    pub fn new(limits: BudgetLimits) -> (t: BudgetTracker)
        ensures
            t.wf(),
            t.limits_spec() == limits,
            t.calls_reserved_spec() == 0,
            t.observed_cost_spec() == 0,
    {
        BudgetTracker { limits, calls_reserved: 0, observed_cost: 0 }
    }

    /// Admit one billable call, reserving it, or report which cap blocks it.
    /// A refused call leaves the ledger unchanged.
    pub fn try_admit(&mut self) -> (r: BudgetAdmission)
        requires
            old(self).wf(),
        ensures
            final(self).wf(),
            r == admission_spec(old(self).limits_spec(), old(self).calls_reserved_spec(), old(self).observed_cost_spec()),
            final(self).limits_spec() == old(self).limits_spec(),
            final(self).observed_cost_spec() == old(self).observed_cost_spec(),
            final(self).calls_reserved_spec() == if r is Allowed {
                old(self).calls_reserved_spec() + 1
            } else {
                old(self).calls_reserved_spec() as int
            },
    {
        if self.calls_reserved >= self.limits.max_llm_calls {
            return BudgetAdmission::CallCapExceeded {
                calls_reserved: self.calls_reserved,
                calls_limit: self.limits.max_llm_calls,
            };
        }
        if self.limits.max_cost_usd.0 != 0 && self.observed_cost >= self.limits.max_cost_usd.0 {
            return BudgetAdmission::CostCapExceeded {
                observed_cost_usd: MicroUsd(self.observed_cost),
                cost_limit_usd: self.limits.max_cost_usd,
            };
        }
        self.calls_reserved = self.calls_reserved + 1;
        BudgetAdmission::Allowed(CallPermit { call_number: self.calls_reserved })
    }

    /// Record an observed cost; the total saturates instead of wrapping.
    pub fn commit_cost(&mut self, cost: MicroUsd)
        requires
            old(self).wf(),
        ensures
            final(self).wf(),
            final(self).limits_spec() == old(self).limits_spec(),
            final(self).calls_reserved_spec() == old(self).calls_reserved_spec(),
            final(self).observed_cost_spec() == if old(self).observed_cost_spec() + cost.0 > u64::MAX {
                u64::MAX as int
            } else {
                old(self).observed_cost_spec() + cost.0
            },
    {
        self.observed_cost = self.observed_cost.saturating_add(cost.0);
    }

    pub fn snapshot(&self) -> (s: BudgetSnapshot)
        ensures
            s.calls_reserved == self.calls_reserved_spec(),
            s.calls_limit == self.limits_spec().max_llm_calls,
            s.observed_cost_usd.0 == self.observed_cost_spec(),
            s.cost_limit_usd == self.limits_spec().max_cost_usd,
    {
        BudgetSnapshot {
            calls_reserved: self.calls_reserved,
            calls_limit: self.limits.max_llm_calls,
            observed_cost_usd: MicroUsd(self.observed_cost),
            cost_limit_usd: self.limits.max_cost_usd,
        }
    }
}

/// Admission never lets reserved calls pass the call limit, numbers admitted
/// calls consecutively from one, and a zero cost limit never blocks a call.
pub proof fn law_admission(limits: BudgetLimits, calls_reserved: u64, observed_cost: u64)
    requires
        calls_reserved <= limits.max_llm_calls,
    ensures
        admission_spec(limits, calls_reserved, observed_cost) matches BudgetAdmission::Allowed(p)
            ==> p.call_number == calls_reserved + 1 && p.call_number <= limits.max_llm_calls,
        calls_reserved == limits.max_llm_calls ==> admission_spec(
            limits,
            calls_reserved,
            observed_cost,
        ) is CallCapExceeded,
        limits.max_cost_usd.0 == 0 ==> !(admission_spec(
            limits,
            calls_reserved,
            observed_cost,
        ) is CostCapExceeded),
        limits.max_cost_usd.0 != 0 && observed_cost >= limits.max_cost_usd.0 ==> !(admission_spec(
            limits,
            calls_reserved,
            observed_cost,
        ) is Allowed),
{
}

/// A call is admitted exactly when it is under the call cap and, with a
/// nonzero cost limit, observed cost is still below that limit; it is then
/// numbered one past the calls reserved. Otherwise the call cap refuses
/// first, reporting the counts, and the cost cap reports the observed cost
/// and the limit.
pub proof fn law_admission_exact(limits: BudgetLimits, calls_reserved: u64, observed_cost: u64)
    ensures
        calls_reserved < limits.max_llm_calls && (limits.max_cost_usd.0 == 0 || observed_cost
            < limits.max_cost_usd.0) ==> admission_spec(limits, calls_reserved, observed_cost)
            == BudgetAdmission::Allowed(CallPermit { call_number: (calls_reserved + 1) as u64 }),
        calls_reserved >= limits.max_llm_calls ==> admission_spec(limits, calls_reserved, observed_cost)
            == (BudgetAdmission::CallCapExceeded {
            calls_reserved: calls_reserved,
            calls_limit: limits.max_llm_calls,
        }),
        calls_reserved < limits.max_llm_calls && limits.max_cost_usd.0 != 0 && observed_cost
            >= limits.max_cost_usd.0 ==> admission_spec(limits, calls_reserved, observed_cost)
            == (BudgetAdmission::CostCapExceeded {
            observed_cost_usd: MicroUsd(observed_cost),
            cost_limit_usd: limits.max_cost_usd,
        }),
{
}

} // verus!
