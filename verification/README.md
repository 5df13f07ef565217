# nexus_rate_limit

Fixed-window rate limiting for an HTTP API, written in Verus.

- `src/limiter.rs`: the per-key fixed-window limiter. Checking a request is
  all or nothing; time is a count of nanoseconds on the limiter's monotonic
  clock.
- `src/policy.rs`: runtime policies (which requests they select, which key a
  request is counted against) and the compilation of stored policies, with
  the messages of compile errors.
- `src/builtin.rs`: the built-in runtime policies and the stored built-in
  definitions.
- `src/model.rs`: the generation number of the policy table and the listing
  filter.
- `src/metrics.rs`: counters of refused requests per policy and operation.
- `src/api.rs`: the stored/public shapes of matchers, key parts and quotas.
- `app/`: shared state behind locks, the HTTP 429 error, the JSON columns of
  the stored policy rows, and the serde shapes of the API types.
- `tests/`: tests of the library through its public interface.
