//! Versioned model pricing registry: bundled prices, with explicit
//! per-model overrides taking precedence.

use vstd::prelude::*;

use crate::budget::{MicroUsd, Price};

verus! {

pub const REGISTRY_VERSION: &'static str = "openai-text-2025-05";

/// The bundled price of a model, if it has one.
pub open spec fn builtin_price_spec(model: Seq<char>) -> Option<Price> {
    if model == "gpt-4o-mini"@ {
        Some(Price { input_per_million: MicroUsd(150_000), output_per_million: MicroUsd(600_000) })
    } else if model == "gpt-4o"@ {
        Some(Price { input_per_million: MicroUsd(2_500_000), output_per_million: MicroUsd(10_000_000) })
    } else if model == "gpt-4.1"@ {
        Some(Price { input_per_million: MicroUsd(2_000_000), output_per_million: MicroUsd(8_000_000) })
    } else if model == "gpt-4.1-mini"@ {
        Some(Price { input_per_million: MicroUsd(400_000), output_per_million: MicroUsd(1_600_000) })
    } else if model == "gpt-4.1-nano"@ {
        Some(Price { input_per_million: MicroUsd(100_000), output_per_million: MicroUsd(400_000) })
    } else {
        None
    }
}

pub open spec fn price_entries_view(es: Seq<(String, Price)>) -> Seq<(Seq<char>, Price)> {
    es.map_values(|e: (String, Price)| (e.0@, e.1))
}

/// The price of the last entry for `model`, if any.
pub open spec fn last_price(es: Seq<(Seq<char>, Price)>, model: Seq<char>) -> Option<Price>
    decreases es.len(),
{
    if es.len() == 0 {
        None
    } else if es.last().0 == model {
        Some(es.last().1)
    } else {
        last_price(es.drop_last(), model)
    }
}

/// An override for the model when one is given, else the bundled price.
pub open spec fn registry_price_spec(overrides: Seq<(Seq<char>, Price)>, model: Seq<char>) -> Option<Price> {
    match last_price(overrides, model) {
        Some(p) => Some(p),
        None => builtin_price_spec(model),
    }
}

/// Model prices: bundled entries followed by overrides; the last entry for a
/// model wins.
#[derive(Debug, Clone)]
pub struct PricingRegistry {
    prices: Vec<(String, Price)>,
}

impl PricingRegistry {
    pub closed spec fn entries(&self) -> Seq<(Seq<char>, Price)> {
        price_entries_view(self.prices@)
    }

    /// The price the registry gives a model.
    pub open spec fn price_of(&self, model: Seq<char>) -> Option<Price> {
        last_price(self.entries(), model)
    }

    pub fn with_overrides(overrides: &Vec<(String, Price)>) -> (r: PricingRegistry)
        ensures
            forall|m: Seq<char>| #[trigger] r.price_of(m) == registry_price_spec(
                price_entries_view(overrides@),
                m,
            ),
    {
        let mut prices = builtin_prices();
        let ghost base = price_entries_view(prices@);
        let mut i: usize = 0;
        while i < overrides.len()
            invariant
                i <= overrides@.len(),
                forall|m: Seq<char>| #[trigger] last_price(base, m) == builtin_price_spec(m),
                price_entries_view(prices@) == base + price_entries_view(overrides@.subrange(0, i as int)),
            decreases overrides@.len() - i,
        {
            let entry = (overrides[i].0.clone(), overrides[i].1);
            assert(price_entries_view(overrides@.subrange(0, i as int + 1)) =~= price_entries_view(
                overrides@.subrange(0, i as int),
            ).push((overrides@[i as int].0@, overrides@[i as int].1)));
            let ghost before = price_entries_view(prices@);
            prices.push(entry);
            assert(price_entries_view(prices@) =~= before.push((entry.0@, entry.1)));
            assert(price_entries_view(prices@) =~= base + price_entries_view(overrides@.subrange(0, i as int + 1)));
            i = i + 1;
        }
        assert(overrides@.subrange(0, overrides@.len() as int) =~= overrides@);
        let r = PricingRegistry { prices };
        assert forall|m: Seq<char>| #[trigger] r.price_of(m) == registry_price_spec(
            price_entries_view(overrides@),
            m,
        ) by {
            lemma_last_price_concat(base, price_entries_view(overrides@), m);
        }
        r
    }

    pub fn lookup(&self, model: &str) -> (r: Option<Price>)
        ensures
            r == self.price_of(model@),
    {
        let ghost es = self.entries();
        let mut i = self.prices.len();
        assert(es.subrange(0, i as int) =~= es);
        while i > 0
            invariant
                es == price_entries_view(self.prices@),
                i <= self.prices@.len(),
                last_price(es, model@) == last_price(es.subrange(0, i as int), model@),
            decreases i,
        {
            proof {
                assert(es.subrange(0, i as int).drop_last() =~= es.subrange(0, i as int - 1));
            }
            if crate::text::str_eq(self.prices[i - 1].0.as_str(), model) {
                return Some(self.prices[i - 1].1);
            }
            i = i - 1;
        }
        None
    }

    pub fn version(&self) -> (r: &'static str)
        ensures
            r@ == REGISTRY_VERSION@,
    {
        REGISTRY_VERSION
    }
}

fn builtin_prices() -> (r: Vec<(String, Price)>)
    ensures
        forall|m: Seq<char>| #[trigger] last_price(price_entries_view(r@), m) == builtin_price_spec(m),
{
    let mut v: Vec<(String, Price)> = Vec::new();
    v.push(("gpt-4o-mini".to_owned(), Price::new(MicroUsd(150_000), MicroUsd(600_000))));
    v.push(("gpt-4o".to_owned(), Price::new(MicroUsd(2_500_000), MicroUsd(10_000_000))));
    v.push(("gpt-4.1".to_owned(), Price::new(MicroUsd(2_000_000), MicroUsd(8_000_000))));
    v.push(("gpt-4.1-mini".to_owned(), Price::new(MicroUsd(400_000), MicroUsd(1_600_000))));
    v.push(("gpt-4.1-nano".to_owned(), Price::new(MicroUsd(100_000), MicroUsd(400_000))));
    proof {
        reveal_strlit("gpt-4o-mini");
        reveal_strlit("gpt-4o");
        reveal_strlit("gpt-4.1");
        reveal_strlit("gpt-4.1-mini");
        reveal_strlit("gpt-4.1-nano");
        let es = price_entries_view(v@);
        let e0 = ("gpt-4o-mini"@, Price { input_per_million: MicroUsd(150_000), output_per_million: MicroUsd(600_000) });
        let e1 = ("gpt-4o"@, Price { input_per_million: MicroUsd(2_500_000), output_per_million: MicroUsd(10_000_000) });
        let e2 = ("gpt-4.1"@, Price { input_per_million: MicroUsd(2_000_000), output_per_million: MicroUsd(8_000_000) });
        let e3 = ("gpt-4.1-mini"@, Price { input_per_million: MicroUsd(400_000), output_per_million: MicroUsd(1_600_000) });
        let e4 = ("gpt-4.1-nano"@, Price { input_per_million: MicroUsd(100_000), output_per_million: MicroUsd(400_000) });
        assert(es =~= seq![e0, e1, e2, e3, e4]);
        assert(es.drop_last() =~= seq![e0, e1, e2, e3]);
        assert(es.drop_last().drop_last() =~= seq![e0, e1, e2]);
        assert(es.drop_last().drop_last().drop_last() =~= seq![e0, e1]);
        assert(es.drop_last().drop_last().drop_last().drop_last() =~= seq![e0]);
        assert(es.drop_last().drop_last().drop_last().drop_last().drop_last() =~= Seq::<(Seq<char>, Price)>::empty());
        assert("gpt-4.1-nano"@ != "gpt-4.1-mini"@) by {
            assert("gpt-4.1-nano"@[8] != "gpt-4.1-mini"@[8]);
        }
        assert("gpt-4o-mini"@.len() == 11 && "gpt-4o"@.len() == 6 && "gpt-4.1"@.len() == 7
            && "gpt-4.1-mini"@.len() == 12 && "gpt-4.1-nano"@.len() == 12);
        assert forall|m: Seq<char>| #[trigger] last_price(es, m) == builtin_price_spec(m) by {
            reveal_with_fuel(last_price, 6);
            if m == e4.0 {
            } else if m == e3.0 {
            } else if m == e2.0 {
            } else if m == e1.0 {
            } else if m == e0.0 {
            } else {
            }
        }
    }
    v
}

/// With no overrides, the registry prices each bundled model at its
/// published rate (USD per million tokens, in micro-USD): gpt-4o-mini
/// $0.15 in / $0.60 out, gpt-4o $2.50 / $10, gpt-4.1 $2 / $8,
/// gpt-4.1-mini $0.40 / $1.60, gpt-4.1-nano $0.10 / $0.40; any other model
/// has no price.
pub proof fn law_bundled_prices(m: Seq<char>)
    ensures
        registry_price_spec(Seq::empty(), "gpt-4o-mini"@) == Some(
            Price { input_per_million: MicroUsd(150_000), output_per_million: MicroUsd(600_000) },
        ),
        registry_price_spec(Seq::empty(), "gpt-4o"@) == Some(
            Price { input_per_million: MicroUsd(2_500_000), output_per_million: MicroUsd(10_000_000) },
        ),
        registry_price_spec(Seq::empty(), "gpt-4.1"@) == Some(
            Price { input_per_million: MicroUsd(2_000_000), output_per_million: MicroUsd(8_000_000) },
        ),
        registry_price_spec(Seq::empty(), "gpt-4.1-mini"@) == Some(
            Price { input_per_million: MicroUsd(400_000), output_per_million: MicroUsd(1_600_000) },
        ),
        registry_price_spec(Seq::empty(), "gpt-4.1-nano"@) == Some(
            Price { input_per_million: MicroUsd(100_000), output_per_million: MicroUsd(400_000) },
        ),
        m != "gpt-4o-mini"@ && m != "gpt-4o"@ && m != "gpt-4.1"@ && m != "gpt-4.1-mini"@ && m
            != "gpt-4.1-nano"@ ==> registry_price_spec(Seq::empty(), m) is None,
{
    reveal_strlit("gpt-4o-mini");
    reveal_strlit("gpt-4o");
    reveal_strlit("gpt-4.1");
    reveal_strlit("gpt-4.1-mini");
    reveal_strlit("gpt-4.1-nano");
    assert("gpt-4.1-nano"@ != "gpt-4.1-mini"@) by {
        assert("gpt-4.1-nano"@[8] != "gpt-4.1-mini"@[8]);
    }
    assert("gpt-4o-mini"@.len() == 11 && "gpt-4o"@.len() == 6 && "gpt-4.1"@.len() == 7
        && "gpt-4.1-mini"@.len() == 12 && "gpt-4.1-nano"@.len() == 12);
}

/// An override is the price of its model; a model without one keeps the
/// price it has with no overrides.
pub proof fn law_overrides_take_precedence(overrides: Seq<(Seq<char>, Price)>, m: Seq<char>, p: Price)
    ensures
        registry_price_spec(overrides.push((m, p)), m) == Some(p),
        last_price(overrides, m) is None ==> registry_price_spec(overrides, m) == registry_price_spec(
            Seq::empty(),
            m,
        ),
{
}

proof fn lemma_last_price_concat(a: Seq<(Seq<char>, Price)>, b: Seq<(Seq<char>, Price)>, m: Seq<char>)
    ensures
        last_price(a + b, m) == match last_price(b, m) {
            Some(p) => Some(p),
            None => last_price(a, m),
        },
    decreases b.len(),
{
    if b.len() == 0 {
        assert(a + b =~= a);
    } else {
        assert((a + b).drop_last() =~= a + b.drop_last());
        lemma_last_price_concat(a, b.drop_last(), m);
    }
}

} // verus!
