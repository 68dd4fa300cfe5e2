use maul::budget::{BudgetAdmission, BudgetLimits, BudgetTracker, MicroUsd, Price};
use maul::openai::TokenUsage;

fn tracker(max_calls: u64, max_cost: u64) -> BudgetTracker {
    BudgetTracker::new(BudgetLimits {
        max_llm_calls: max_calls,
        max_cost_usd: MicroUsd::from_micro_usd(max_cost),
    })
}

#[test]
fn admits_exactly_the_call_limit() {
    let mut budget = tracker(2, 0);
    assert!(matches!(
        budget.try_admit(),
        BudgetAdmission::Allowed(permit) if permit.call_number == 1
    ));
    assert!(matches!(
        budget.try_admit(),
        BudgetAdmission::Allowed(permit) if permit.call_number == 2
    ));
    assert!(matches!(
        budget.try_admit(),
        BudgetAdmission::CallCapExceeded {
            calls_reserved: 2,
            calls_limit: 2
        }
    ));
}

#[test]
fn cost_cap_blocks_after_observed_cost_reaches_limit() {
    let mut budget = tracker(10, 100);
    assert!(matches!(budget.try_admit(), BudgetAdmission::Allowed(_)));
    budget.commit_cost(MicroUsd::from_micro_usd(100));
    assert!(matches!(
        budget.try_admit(),
        BudgetAdmission::CostCapExceeded {
            observed_cost_usd,
            cost_limit_usd
        } if observed_cost_usd == cost_limit_usd
    ));
    assert_eq!(budget.snapshot().calls_reserved, 1);
}

#[test]
fn zero_cost_limit_disables_cost_admission() {
    let mut budget = tracker(2, 0);
    budget.commit_cost(MicroUsd::from_micro_usd(10_000_000));
    assert!(matches!(budget.try_admit(), BudgetAdmission::Allowed(_)));
}

#[test]
fn price_calculation_is_deterministic_and_rounded() {
    let price = Price::new(
        MicroUsd::from_micro_usd(150_000),
        MicroUsd::from_micro_usd(600_000),
    );
    let usage = TokenUsage {
        prompt_tokens: 1_000,
        completion_tokens: 500,
        total_tokens: 1_500,
    };

    assert_eq!(
        price.calculate(&usage).unwrap(),
        MicroUsd::from_micro_usd(450)
    );
}

#[test]
fn committed_cost_saturates_instead_of_wrapping() {
    let mut budget = tracker(2, 0);
    budget.commit_cost(MicroUsd::from_micro_usd(u64::MAX));
    budget.commit_cost(MicroUsd::from_micro_usd(1));
    assert_eq!(
        budget.snapshot().observed_cost_usd,
        MicroUsd::from_micro_usd(u64::MAX)
    );
}

#[test]
fn price_calculation_reports_overflow() {
    let price = Price::new(
        MicroUsd::from_micro_usd(u64::MAX),
        MicroUsd::from_micro_usd(u64::MAX),
    );
    let usage = TokenUsage {
        prompt_tokens: u64::MAX,
        completion_tokens: u64::MAX,
        total_tokens: u64::MAX,
    };

    assert!(price.calculate(&usage).is_err());
}

#[test]
fn price_rounds_partial_micro_dollars_up() {
    let price = Price::new(MicroUsd::from_micro_usd(1), MicroUsd::from_micro_usd(1));
    let usage = TokenUsage {
        prompt_tokens: 1,
        completion_tokens: 0,
        total_tokens: 1,
    };
    assert_eq!(price.calculate(&usage).unwrap(), MicroUsd::from_micro_usd(1));
    let none = TokenUsage {
        prompt_tokens: 0,
        completion_tokens: 0,
        total_tokens: 0,
    };
    assert_eq!(price.calculate(&none).unwrap(), MicroUsd::zero());
}

#[test]
fn refused_admission_leaves_the_ledger_unchanged() {
    let mut budget = tracker(1, 0);
    assert!(matches!(budget.try_admit(), BudgetAdmission::Allowed(_)));
    let before = budget.snapshot();
    assert!(matches!(
        budget.try_admit(),
        BudgetAdmission::CallCapExceeded { .. }
    ));
    assert_eq!(budget.snapshot(), before);
}

#[test]
fn micro_usd_displays_dollars_and_six_digits() {
    assert_eq!(MicroUsd::from_micro_usd(0).to_display_string(), "$0.000000");
    assert_eq!(MicroUsd::from_micro_usd(12_345_678).to_display_string(), "$12.345678");
    assert_eq!(MicroUsd::from_micro_usd(7).to_display_string(), "$0.000007");
}

#[test]
fn cost_never_drops_when_token_counts_grow() {
    let price = Price::new(
        MicroUsd::from_micro_usd(150_000),
        MicroUsd::from_micro_usd(600_000),
    );
    let mut last = MicroUsd::zero();
    for step in 0..50u64 {
        let usage = TokenUsage {
            prompt_tokens: step * 37,
            completion_tokens: step * 11,
            total_tokens: step * 48,
        };
        let cost = price.calculate(&usage).unwrap();
        assert!(cost >= last);
        last = cost;
    }
}
