# maul

An adversarial HTTP proxy for testing LLM agents: it sits between an agent
and an OpenAI-compatible provider, injects faults (`force_500`, `force_429`,
`malformed_tool_call_json`), enforces call and observed-cost budgets, meters
token usage, and writes a reliability report when it shuts down.

The decision logic is a library verified with Verus; the binary around it is
plain Rust.

## Layout

- `src/` — the verified library.
  - `budget.rs` — exact micro-USD amounts and decimal conversion, per-model
    prices and costs, the call/cost ledger and its admission rule.
  - `config.rs` — configuration checks, in their fixed order.
  - `fault/` — scenarios, the fault plan, fabricated responses, and the
    tool-call mutator for JSON and SSE bodies (`mutate.rs`).
  - `proxy/` — header filtering (`headers.rs`), upstream URLs
    (`upstream.rs`), the streamed-usage request rewrite
    (`request_transform.rs`) and the billable-request stages and metering
    decisions (`pipeline.rs`).
  - `session.rs`, `openai.rs` — session attribution, route classification
    and request metadata.
  - `json.rs`, `text.rs` — the JSON tree and text helpers the rest reads.
  - `usage/` — usage counters, extraction from JSON bodies (`json.rs`) and
    event streams, and the stream tap's settle-once state machine (`sse.rs`).
  - `pricing.rs` — the bundled price registry with overrides.
  - `report.rs` — records, session recovery aggregation, run summaries and
    the report collector.
  - `test_runner.rs` — `--fail-on` thresholds and the Markdown summary.
- `tests/` — tests of the library on concrete values.
- `app/` — the binary: CLI, YAML loading, the axum server, reqwest upstream
  calls, the stream wrapper, the collector task and serde forms of the report.

Verus checks `src/`; `cargo test` runs `tests/`.
