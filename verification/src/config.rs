//! Configuration validation: the raw values read from YAML checked, in a
//! fixed order, into the proxy's configuration.

use vstd::prelude::*;

use crate::budget::{decimal_outcome, DecimalAmount, MicroUsd, MicroUsdError, Price};
use crate::fault::{is_supported_scenario, is_supported_spec};
use crate::openai::{model_id_spec, ModelId, ModelIdError};
use crate::pricing::price_entries_view;
use crate::text::{str_eq, trim_spec, trim_str};

verus! {

/// `budget` as configured.
#[derive(Debug, Clone, Copy)]
pub struct RawBudget {
    pub max_llm_calls: u64,
    pub max_cost_usd: DecimalAmount,
}

/// One model's prices as configured, in USD per million tokens.
#[derive(Debug, Clone, Copy)]
pub struct RawPrice {
    pub input_usd_per_million: DecimalAmount,
    pub output_usd_per_million: DecimalAmount,
}

/// A configuration as read. The fault probability, a floating-point value,
/// is checked by the caller; model prices come in the order given.
#[derive(Debug)]
pub struct RawConfig {
    pub proxy_listen: String,
    pub upstream_base_url: String,
    pub scenarios: Vec<String>,
    pub seed: u64,
    pub budget: RawBudget,
    pub model_prices: Vec<(String, RawPrice)>,
}

/// The validated budget.
#[derive(Debug, Clone, Copy, PartialEq, Eq, Structural)]
pub struct Budget {
    pub max_llm_calls: u64,
    pub max_cost_usd: MicroUsd,
}

/// A validated configuration (its probability stays with the caller).
#[derive(Debug)]
pub struct Config {
    pub proxy_listen: String,
    pub upstream_base_url: String,
    pub scenarios: Vec<String>,
    pub seed: u64,
    pub budget: Budget,
    pub model_prices: Vec<(String, Price)>,
}

/// Why a configuration was refused.
#[derive(Debug, Clone)]
pub enum ConfigError {
    EmptyListenAddress,
    EmptyUpstreamUrl,
    InvalidProbability,
    InvalidCallLimit,
    UnknownScenario(String),
    DuplicateScenario(String),
    InvalidCost(MicroUsdError),
    InvalidModelId { model: String, source: ModelIdError },
}

/// The first refused scenario name: unknown, or named a second time.
pub open spec fn scenario_error(names: Seq<String>) -> Option<ConfigError>
    decreases names.len(),
{
    if names.len() == 0 {
        None
    } else {
        match scenario_error(names.drop_last()) {
            Some(e) => Some(e),
            None => {
                let s = names.last();
                if !is_supported_spec(s@) {
                    Some(ConfigError::UnknownScenario(s))
                } else if exists|j: int| 0 <= j < names.len() - 1 && (#[trigger] names[j])@ == s@ {
                    Some(ConfigError::DuplicateScenario(s))
                } else {
                    None
                }
            },
        }
    }
}

/// One configured model price checked: its identifier, then its input and
/// output amounts. `None` where an amount overflows rust_decimal.
pub open spec fn price_entry_outcome(e: (String, RawPrice)) -> Option<Result<(Seq<char>, Price), ConfigError>> {
    match model_id_spec(e.0@) {
        Err(err) => Some(Err(ConfigError::InvalidModelId { model: e.0, source: err })),
        Ok(id) => match decimal_outcome(e.1.input_usd_per_million) {
            None => None,
            Some(Err(err)) => Some(Err(ConfigError::InvalidCost(err))),
            Some(Ok(input)) => match decimal_outcome(e.1.output_usd_per_million) {
                None => None,
                Some(Err(err)) => Some(Err(ConfigError::InvalidCost(err))),
                Some(Ok(output)) => Some(
                    Ok((id, Price { input_per_million: input, output_per_million: output })),
                ),
            },
        },
    }
}

/// The configured prices checked in order; the first refusal wins.
pub open spec fn prices_outcome(es: Seq<(String, RawPrice)>) -> Option<Result<Seq<(Seq<char>, Price)>, ConfigError>>
    decreases es.len(),
{
    if es.len() == 0 {
        Some(Ok(Seq::empty()))
    } else {
        match prices_outcome(es.drop_last()) {
            None => None,
            Some(Err(e)) => Some(Err(e)),
            Some(Ok(prev)) => match price_entry_outcome(es.last()) {
                None => None,
                Some(Err(e)) => Some(Err(e)),
                Some(Ok(p)) => Some(Ok(prev.push(p))),
            },
        }
    }
}

/// What validating `raw` gives: its checks in order (addresses, probability,
/// call limit, scenarios, model prices, cost limit), the first failure
/// refusing it; `None` where an amount overflows rust_decimal.
pub open spec fn validate_outcome(raw: RawConfig, probability_ok: bool, r: Option<Result<Config, ConfigError>>) -> bool {
    if trim_spec(raw.proxy_listen@).len() == 0 {
        r == Some(Err::<Config, ConfigError>(ConfigError::EmptyListenAddress))
    } else if trim_spec(raw.upstream_base_url@).len() == 0 {
        r == Some(Err::<Config, ConfigError>(ConfigError::EmptyUpstreamUrl))
    } else if !probability_ok {
        r == Some(Err::<Config, ConfigError>(ConfigError::InvalidProbability))
    } else if raw.budget.max_llm_calls == 0 {
        r == Some(Err::<Config, ConfigError>(ConfigError::InvalidCallLimit))
    } else {
        match scenario_error(raw.scenarios@) {
            Some(e) => r == Some(Err::<Config, ConfigError>(e)),
            None => match prices_outcome(raw.model_prices@) {
                None => r is None,
                Some(Err(e)) => r == Some(Err::<Config, ConfigError>(e)),
                Some(Ok(prices)) => match decimal_outcome(raw.budget.max_cost_usd) {
                    None => r is None,
                    Some(Err(e)) => r == Some(Err::<Config, ConfigError>(ConfigError::InvalidCost(e))),
                    Some(Ok(cost)) => r matches Some(Ok(c)) && c.proxy_listen == raw.proxy_listen
                        && c.upstream_base_url == raw.upstream_base_url && c.scenarios == raw.scenarios
                        && c.seed == raw.seed && c.budget == (Budget {
                        max_llm_calls: raw.budget.max_llm_calls,
                        max_cost_usd: cost,
                    }) && price_entries_view(c.model_prices@) == prices,
                },
            },
        }
    }
}

/// All decimal amounts of the configuration are well formed.
pub open spec fn amounts_wf(raw: RawConfig) -> bool {
    &&& raw.budget.max_cost_usd.wf()
    &&& forall|i: int|
        0 <= i < raw.model_prices@.len() ==> (#[trigger] raw.model_prices@[i]).1.input_usd_per_million.wf()
            && raw.model_prices@[i].1.output_usd_per_million.wf()
}

fn seen_before(names: &Vec<String>, i: usize) -> (r: bool)
    requires
        i < names@.len(),
    ensures
        r == exists|j: int| 0 <= j < i && (#[trigger] names@[j])@ == names@[i as int]@,
{
    let mut j: usize = 0;
    while j < i
        invariant
            i < names@.len(),
            j <= i,
            forall|k: int| 0 <= k < j ==> (#[trigger] names@[k])@ != names@[i as int]@,
        decreases i - j,
    {
        if str_eq(names[j].as_str(), names[i].as_str()) {
            assert(names@[j as int]@ == names@[i as int]@);
            return true;
        }
        j = j + 1;
    }
    false
}

fn check_scenarios(names: &Vec<String>) -> (r: Option<ConfigError>)
    ensures
        r == scenario_error(names@),
{
    let mut i: usize = 0;
    assert(names@.take(0) =~= Seq::<String>::empty());
    while i < names.len()
        invariant
            i <= names@.len(),
            scenario_error(names@.take(i as int)) is None,
        decreases names@.len() - i,
    {
        let ghost pre = names@.take(i as int + 1);
        assert(pre.drop_last() =~= names@.take(i as int));
        assert(pre.last() == names@[i as int]);
        assert forall|j: int| 0 <= j < pre.len() - 1 implies #[trigger] pre[j] == names@[j] by {}
        if !is_supported_scenario(names[i].as_str()) {
            proof {
                assert(scenario_error(names@) == scenario_error(pre)) by {
                    lemma_scenario_error_prefix(names@, i as int + 1);
                }
            }
            return Some(ConfigError::UnknownScenario(names[i].clone()));
        }
        if seen_before(names, i) {
            proof {
                let j = choose|j: int| 0 <= j < i && (#[trigger] names@[j])@ == names@[i as int]@;
                assert(pre[j]@ == pre.last()@);
                lemma_scenario_error_prefix(names@, i as int + 1);
            }
            return Some(ConfigError::DuplicateScenario(names[i].clone()));
        }
        proof {
            assert forall|j: int| 0 <= j < pre.len() - 1 implies (#[trigger] pre[j])@ != pre.last()@ by {
                assert(pre[j] == names@[j]);
            }
        }
        i = i + 1;
    }
    assert(names@.take(names@.len() as int) =~= names@);
    None
}

/// The first error of a sequence is that of its first prefix with one.
proof fn lemma_scenario_error_prefix(names: Seq<String>, n: int)
    requires
        0 <= n <= names.len(),
        scenario_error(names.take(n)) is Some,
    ensures
        scenario_error(names) == scenario_error(names.take(n)),
    decreases names.len(),
{
    if n < names.len() {
        assert(names.drop_last().take(n) =~= names.take(n));
        lemma_scenario_error_prefix(names.drop_last(), n);
    } else {
        assert(names.take(n) =~= names);
    }
}

/// Scenario `i` is refused: unknown, or named already at an earlier place.
pub open spec fn scenario_bad_at(names: Seq<String>, i: int) -> bool {
    !is_supported_spec(names[i]@) || exists|j: int| 0 <= j < i && (#[trigger] names[j])@ == names[i]@
}

/// Where no scenario is refused, there is no scenario error.
proof fn lemma_scenario_error_none(names: Seq<String>)
    requires
        forall|i: int| 0 <= i < names.len() ==> !scenario_bad_at(names, i),
    ensures
        scenario_error(names) is None,
    decreases names.len(),
{
    if names.len() > 0 {
        let d = names.drop_last();
        assert forall|i: int| 0 <= i < d.len() implies !scenario_bad_at(d, i) by {
            assert(d[i] == names[i]);
            assert(!scenario_bad_at(names, i));
            if exists|j: int| 0 <= j < i && (#[trigger] d[j])@ == d[i]@ {
                let j = choose|j: int| 0 <= j < i && (#[trigger] d[j])@ == d[i]@;
                assert(names[j] == d[j]);
            }
        }
        lemma_scenario_error_none(d);
        assert(!scenario_bad_at(names, names.len() - 1));
        if exists|j: int| 0 <= j < names.len() - 1 && (#[trigger] names[j])@ == names.last()@ {
            let j = choose|j: int| 0 <= j < names.len() - 1 && (#[trigger] names[j])@ == names.last()@;
            assert(names[j]@ == names[names.len() - 1]@);
        }
    }
}

/// The first refused scenario decides the error: where the scenarios before
/// `i` are all accepted and scenario `i` is not, validation reports scenario
/// `i` as unknown, or as a duplicate when it is supported.
pub proof fn law_first_bad_scenario_decides(names: Seq<String>, i: int)
    requires
        0 <= i < names.len(),
        forall|k: int| 0 <= k < i ==> !scenario_bad_at(names, k),
        scenario_bad_at(names, i),
    ensures
        scenario_error(names) == Some(
            if !is_supported_spec(names[i]@) {
                ConfigError::UnknownScenario(names[i])
            } else {
                ConfigError::DuplicateScenario(names[i])
            },
        ),
{
    let pre = names.take(i);
    assert forall|k: int| 0 <= k < pre.len() implies !scenario_bad_at(pre, k) by {
        assert(pre[k] == names[k]);
        assert(!scenario_bad_at(names, k));
        if exists|j: int| 0 <= j < k && (#[trigger] pre[j])@ == pre[k]@ {
            let j = choose|j: int| 0 <= j < k && (#[trigger] pre[j])@ == pre[k]@;
            assert(names[j] == pre[j]);
        }
    }
    lemma_scenario_error_none(pre);
    let upto = names.take(i + 1);
    assert(upto.drop_last() =~= pre);
    assert(upto.last() == names[i]);
    if is_supported_spec(names[i]@) {
        let j = choose|j: int| 0 <= j < i && (#[trigger] names[j])@ == names[i]@;
        assert(upto[j] == names[j]);
    }
    lemma_scenario_error_prefix(names, i + 1);
}

/// A configuration that validates keeps what it was given: the listen
/// address, the upstream URL, the scenarios in their order, the seed, the
/// call limit and each configured model price, in order.
pub proof fn law_validate_copies_fields(raw: RawConfig, probability_ok: bool, r: Option<Result<Config, ConfigError>>)
    requires
        validate_outcome(raw, probability_ok, r),
        r matches Some(Ok(_)),
    ensures
        ({
            let c = r->0->Ok_0;
            &&& c.proxy_listen == raw.proxy_listen
            &&& c.upstream_base_url == raw.upstream_base_url
            &&& c.scenarios == raw.scenarios
            &&& c.seed == raw.seed
            &&& c.budget.max_llm_calls == raw.budget.max_llm_calls
            &&& decimal_outcome(raw.budget.max_cost_usd) == Some(Ok::<MicroUsd, MicroUsdError>(c.budget.max_cost_usd))
            &&& prices_outcome(raw.model_prices@) == Some(
                Ok::<Seq<(Seq<char>, Price)>, ConfigError>(price_entries_view(c.model_prices@)),
            )
        }),
{
}

impl RawConfig {
    /// Check the configuration; `probability_ok` is the caller's verdict on
    /// the probability (finite, between 0 and 1). `None` where a configured
    /// amount is too large for rust_decimal to scale.
    pub fn validate(self, probability_ok: bool) -> (r: Option<Result<Config, ConfigError>>)
        requires
            amounts_wf(self),
        ensures
            validate_outcome(self, probability_ok, r),
    {
        if trim_str(self.proxy_listen.as_str()).is_empty() {
            return Some(Err(ConfigError::EmptyListenAddress));
        }
        if trim_str(self.upstream_base_url.as_str()).is_empty() {
            return Some(Err(ConfigError::EmptyUpstreamUrl));
        }
        if !probability_ok {
            return Some(Err(ConfigError::InvalidProbability));
        }
        if self.budget.max_llm_calls == 0 {
            return Some(Err(ConfigError::InvalidCallLimit));
        }
        match check_scenarios(&self.scenarios) {
            Some(e) => {
                return Some(Err(e));
            },
            None => {},
        }
        let ghost es = self.model_prices@;
        let mut prices: Vec<(String, Price)> = Vec::new();
        let mut i: usize = 0;
        assert(es.take(0) =~= Seq::<(String, RawPrice)>::empty());
        assert(price_entries_view(prices@) =~= Seq::<(Seq<char>, Price)>::empty());
        while i < self.model_prices.len()
            invariant
                es == self.model_prices@,
                amounts_wf(self),
                trim_spec(self.proxy_listen@).len() != 0,
                trim_spec(self.upstream_base_url@).len() != 0,
                probability_ok,
                self.budget.max_llm_calls != 0,
                scenario_error(self.scenarios@) is None,
                i <= es.len(),
                prices_outcome(es.take(i as int)) == Some(
                    Ok::<Seq<(Seq<char>, Price)>, ConfigError>(price_entries_view(prices@)),
                ),
            decreases es.len() - i,
        {
            let ghost pre = es.take(i as int + 1);
            assert(pre.drop_last() =~= es.take(i as int));
            assert(pre.last() == es[i as int]);
            let model = &self.model_prices[i].0;
            let raw = self.model_prices[i].1;
            assert(es[i as int].1.input_usd_per_million.wf());
            let id = match ModelId::try_from_string(model.clone()) {
                Ok(id) => id,
                Err(source) => {
                    proof {
                        lemma_prices_prefix(es, i as int + 1);
                    }
                    return Some(Err(ConfigError::InvalidModelId { model: model.clone(), source }));
                },
            };
            let input = match MicroUsd::checked_from_decimal(raw.input_usd_per_million) {
                None => {
                    proof {
                        lemma_prices_prefix(es, i as int + 1);
                    }
                    return None;
                },
                Some(Err(e)) => {
                    proof {
                        lemma_prices_prefix(es, i as int + 1);
                    }
                    return Some(Err(ConfigError::InvalidCost(e)));
                },
                Some(Ok(v)) => v,
            };
            let output = match MicroUsd::checked_from_decimal(raw.output_usd_per_million) {
                None => {
                    proof {
                        lemma_prices_prefix(es, i as int + 1);
                    }
                    return None;
                },
                Some(Err(e)) => {
                    proof {
                        lemma_prices_prefix(es, i as int + 1);
                    }
                    return Some(Err(ConfigError::InvalidCost(e)));
                },
                Some(Ok(v)) => v,
            };
            let ghost before = prices@;
            prices.push((id.as_str().to_owned(), Price::new(input, output)));
            assert(price_entries_view(prices@) =~= price_entries_view(before).push(
                (id@, Price { input_per_million: input, output_per_million: output }),
            ));
            i = i + 1;
        }
        assert(es.take(es.len() as int) =~= es);
        let cost = match MicroUsd::checked_from_decimal(self.budget.max_cost_usd) {
            None => {
                return None;
            },
            Some(Err(e)) => {
                return Some(Err(ConfigError::InvalidCost(e)));
            },
            Some(Ok(c)) => c,
        };
        let RawConfig { proxy_listen, upstream_base_url, scenarios, seed, budget, model_prices: _ } =
            self;
        Some(
            Ok(
                Config {
                    proxy_listen,
                    upstream_base_url,
                    scenarios,
                    seed,
                    budget: Budget { max_llm_calls: budget.max_llm_calls, max_cost_usd: cost },
                    model_prices: prices,
                },
            ),
        )
    }
}

/// The outcome of a sequence is that of its first prefix that does not go on.
proof fn lemma_prices_prefix(es: Seq<(String, RawPrice)>, n: int)
    requires
        0 <= n <= es.len(),
        !(prices_outcome(es.take(n)) matches Some(Ok(_))),
    ensures
        prices_outcome(es) == prices_outcome(es.take(n)),
    decreases es.len(),
{
    if n < es.len() {
        assert(es.drop_last().take(n) =~= es.take(n));
        lemma_prices_prefix(es.drop_last(), n);
    } else {
        assert(es.take(n) =~= es);
    }
}

} // verus!
