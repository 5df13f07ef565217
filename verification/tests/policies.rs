use nexus_rate_limit::api;
use nexus_rate_limit::builtin::{builtin_policy_definitions, builtin_rate_limit_policies};
use nexus_rate_limit::limiter::RateLimitKey;
use nexus_rate_limit::policy::{
    compile_quota_limit, compile_quota_window, HttpMethod, MatchPredicate, PolicyCompileError,
    RateLimitKeyPart, RateLimitPolicy, RateLimitPolicyCompileError, RateLimitQuota,
    RateLimitRequestContext,
};
use std::time::Duration;

fn method(name: &str) -> HttpMethod {
    HttpMethod::parse(name).unwrap()
}

fn ctx(endpoint: &str, m: &str) -> RateLimitRequestContext {
    RateLimitRequestContext::new(endpoint.to_string(), method(m))
}

fn strings(v: &[&str]) -> Vec<String> {
    v.iter().map(|s| s.to_string()).collect()
}

fn expect_compile_failure(result: Result<RateLimitPolicy, PolicyCompileError>) -> PolicyCompileError {
    match result {
        Ok(_) => panic!("policy unexpectedly compiled"),
        Err(error) => error,
    }
}

fn assert_error_chain_contains(error: &PolicyCompileError, needle: &str) {
    let chain = error.chain();
    assert!(
        chain.iter().any(|cause| cause.contains(needle)),
        "error chain {chain:#?} did not contain {needle:?}",
    );
}

#[test]
fn policy_check_for_matching_endpoint_and_method_returns_check() {
    let policy = RateLimitPolicy::new(
        "test_policy".to_string(),
        vec![
            MatchPredicate::Endpoint { any_of: vec!["some_endpoint".to_string()] },
            MatchPredicate::HttpMethod { any_of: vec![method("GET")] },
        ],
        RateLimitQuota::new(123, Duration::from_secs(60).as_nanos()),
        vec![
            RateLimitKeyPart::Literal("endpoint".to_string()),
            RateLimitKeyPart::Endpoint,
            RateLimitKeyPart::HttpMethod,
        ],
    );

    let check = policy.check_for(&ctx("some_endpoint", "GET")).expect("policy should match");

    assert_eq!(check.key, RateLimitKey::new("endpoint:some_endpoint:GET".to_string()));
    assert_eq!(check.limit, 123);
    assert_eq!(check.window, Duration::from_secs(60).as_nanos());

    // mismatch on endpoint
    assert!(policy.check_for(&ctx("some_other_endpoint", "GET")).is_none());

    // mismatch on method
    assert!(policy.check_for(&ctx("some_endpoint", "POST")).is_none());
}

#[test]
fn policy_check_for_endpoint_any_of_matches_any_listed_endpoint() {
    let policy = RateLimitPolicy::new(
        "test_policy".to_string(),
        vec![MatchPredicate::Endpoint {
            any_of: strings(&["some_endpoint_1", "some_endpoint_2"]),
        }],
        RateLimitQuota::new(10, Duration::from_secs(60).as_nanos()),
        vec![RateLimitKeyPart::Endpoint],
    );

    assert!(policy.check_for(&ctx("some_endpoint_2", "GET")).is_some());
}

#[test]
fn policy_check_for_global_matches_any_request() {
    let policy = RateLimitPolicy::new(
        "global-policy".to_string(),
        vec![MatchPredicate::Global],
        RateLimitQuota::new(10, Duration::from_secs(60).as_nanos()),
        vec![RateLimitKeyPart::Literal("global".to_string())],
    );

    assert!(policy.check_for(&ctx("some_endpoint_1", "GET")).is_some());
    assert!(policy.check_for(&ctx("some_endpoint_2", "POST")).is_some());
}

#[test]
fn policy_check_for_builds_key_from_parts_in_order() {
    let policy = RateLimitPolicy::new(
        "p".to_string(),
        vec![],
        RateLimitQuota::new(1, 1),
        vec![
            RateLimitKeyPart::HttpMethod,
            RateLimitKeyPart::Literal("x".to_string()),
            RateLimitKeyPart::Endpoint,
        ],
    );
    let check = policy.check_for(&ctx("ep", "PATCH")).unwrap();
    assert_eq!(check.key.0, "PATCH:x:ep");

    let empty = RateLimitPolicy::new("p".to_string(), vec![], RateLimitQuota::new(1, 1), vec![]);
    assert_eq!(empty.check_for(&ctx("ep", "GET")).unwrap().key.0, "");
    assert_eq!(empty.id(), "p");
}

#[test]
fn http_method_parse_accepts_tokens_only() {
    assert_eq!(method("GET").as_str(), "GET");
    assert_eq!(method("custom-method").as_str(), "custom-method");
    assert!(HttpMethod::parse("not a method").is_none());
    assert!(HttpMethod::parse("").is_none());
    assert!(HttpMethod::parse("GÉT").is_none());
}

#[test]
fn db_rate_limit_policy_compiles_to_runtime_policy() {
    let policy = RateLimitPolicy::compile(
        "test-policy".to_string(),
        Ok(vec![
            api::RateLimitMatcher::Endpoint { any_of: strings(&["some_endpoint"]) },
            api::RateLimitMatcher::HttpMethod { any_of: strings(&["GET"]) },
        ]),
        Ok(vec![
            api::RateLimitKeyPart::Literal { value: "endpoint".to_string() },
            api::RateLimitKeyPart::Endpoint,
            api::RateLimitKeyPart::HttpMethod,
        ]),
        123,
        60,
    )
    .unwrap();

    assert_eq!(
        policy,
        RateLimitPolicy::new(
            "test-policy".to_string(),
            vec![
                MatchPredicate::Endpoint { any_of: strings(&["some_endpoint"]) },
                MatchPredicate::HttpMethod { any_of: vec![method("GET")] },
            ],
            RateLimitQuota::new(123, Duration::from_secs(60).as_nanos()),
            vec![
                RateLimitKeyPart::Literal("endpoint".to_string()),
                RateLimitKeyPart::Endpoint,
                RateLimitKeyPart::HttpMethod,
            ],
        )
    );
}

#[test]
fn db_rate_limit_policy_compile_rejects_invalid_matcher_json() {
    // the stored matchers could not be read: the endpoint matcher lacks its
    // `any_of` field
    let error = expect_compile_failure(RateLimitPolicy::compile(
        "test-policy".to_string(),
        Err("missing field `any_of`".to_string()),
        Ok(vec![api::RateLimitKeyPart::Endpoint]),
        1,
        60,
    ));
    assert_error_chain_contains(
        &error,
        "couldn't deserialize matchers for rate limit policy test-policy",
    );
}

#[test]
fn db_rate_limit_policy_compile_rejects_invalid_http_method() {
    let error = expect_compile_failure(RateLimitPolicy::compile(
        "test-policy".to_string(),
        Ok(vec![api::RateLimitMatcher::HttpMethod { any_of: strings(&["not a method"]) }]),
        Ok(vec![api::RateLimitKeyPart::HttpMethod]),
        1,
        60,
    ));
    assert_error_chain_contains(&error, "couldn't compile rate limit policy test-policy");
    assert_error_chain_contains(&error, "invalid HTTP method");
    assert_eq!(
        error.chain(),
        vec![
            "couldn't compile rate limit policy test-policy".to_string(),
            "invalid HTTP method \"not a method\": invalid HTTP method".to_string(),
            "invalid HTTP method".to_string(),
        ]
    );
}

#[test]
fn db_rate_limit_policy_compile_rejects_invalid_quotas() {
    let zero_limit = expect_compile_failure(RateLimitPolicy::compile(
        "zero-limit-policy".to_string(),
        Ok(vec![api::RateLimitMatcher::Global]),
        Ok(vec![api::RateLimitKeyPart::Literal { value: "global".to_string() }]),
        0,
        60,
    ));
    assert_error_chain_contains(
        &zero_limit,
        "couldn't compile rate limit policy zero-limit-policy",
    );
    assert_error_chain_contains(&zero_limit, "invalid quota_limit 0");

    let zero_window = expect_compile_failure(RateLimitPolicy::compile(
        "zero-window-policy".to_string(),
        Ok(vec![api::RateLimitMatcher::Global]),
        Ok(vec![api::RateLimitKeyPart::Literal { value: "global".to_string() }]),
        1,
        0,
    ));
    assert_error_chain_contains(
        &zero_window,
        "couldn't compile rate limit policy zero-window-policy",
    );
    assert_error_chain_contains(&zero_window, "invalid quota_window_seconds 0");
}

#[test]
fn compile_reports_the_first_failure_in_order() {
    // matchers are read before anything else is looked at
    let error = expect_compile_failure(RateLimitPolicy::compile(
        "p".to_string(),
        Err("bad matchers".to_string()),
        Err("bad key parts".to_string()),
        0,
        0,
    ));
    assert_eq!(
        error,
        PolicyCompileError::DeserializeMatchers {
            policy: "p".to_string(),
            cause: "bad matchers".to_string(),
        }
    );

    // the first invalid method of the first invalid matcher is reported
    let error = expect_compile_failure(RateLimitPolicy::compile(
        "p".to_string(),
        Ok(vec![
            api::RateLimitMatcher::HttpMethod { any_of: strings(&["GET", "bad one", "bad two"]) },
            api::RateLimitMatcher::HttpMethod { any_of: strings(&["worse one"]) },
        ]),
        Err("bad key parts".to_string()),
        0,
        0,
    ));
    assert_eq!(
        error,
        PolicyCompileError::Compile {
            policy: "p".to_string(),
            cause: RateLimitPolicyCompileError::InvalidHttpMethod {
                method: "bad one".to_string(),
                source: "invalid HTTP method".to_string(),
            },
        }
    );

    // then the key parts are read
    let error = expect_compile_failure(RateLimitPolicy::compile(
        "p".to_string(),
        Ok(vec![]),
        Err("bad key parts".to_string()),
        0,
        0,
    ));
    assert_eq!(
        error.chain(),
        vec![
            "couldn't deserialize key parts for rate limit policy p".to_string(),
            "bad key parts".to_string(),
        ]
    );

    // then the limit, then the window
    let error = expect_compile_failure(RateLimitPolicy::compile(
        "p".to_string(),
        Ok(vec![]),
        Ok(vec![]),
        -5,
        0,
    ));
    assert_eq!(
        error.chain(),
        vec![
            "couldn't compile rate limit policy p".to_string(),
            "invalid quota_limit -5 -- must be greater than 0 and fit in usize".to_string(),
        ]
    );
    let error = expect_compile_failure(RateLimitPolicy::compile(
        "p".to_string(),
        Ok(vec![]),
        Ok(vec![]),
        5,
        -7,
    ));
    assert_eq!(
        error.chain(),
        vec![
            "couldn't compile rate limit policy p".to_string(),
            "invalid quota_window_seconds -7 -- must be greater than 0".to_string(),
        ]
    );
}

#[test]
fn quota_compilation() {
    assert_eq!(compile_quota_limit(5), Ok(5));
    assert_eq!(
        compile_quota_limit(0),
        Err(RateLimitPolicyCompileError::InvalidQuotaLimit { value: 0 })
    );
    assert_eq!(compile_quota_window(3), Ok(3_000_000_000));
    assert_eq!(compile_quota_window(i64::MAX), Ok(i64::MAX as u128 * 1_000_000_000));
    assert_eq!(
        compile_quota_window(-1),
        Err(RateLimitPolicyCompileError::InvalidQuotaWindow { value: -1 })
    );
}

#[test]
fn fixed_data_rate_limit_policies_compile_to_runtime_policies() {
    let policies = builtin_policy_definitions()
        .into_iter()
        .map(|d| {
            RateLimitPolicy::compile(
                d.name,
                Ok(d.matchers),
                Ok(d.key_parts),
                d.quota_limit,
                d.quota_window_seconds,
            )
        })
        .collect::<Result<Vec<_>, _>>()
        .unwrap();

    assert_eq!(policies.len(), 3);

    let current_user_view =
        policies.iter().find(|policy| policy.id() == "current-user-view-policy").unwrap();
    assert_eq!(
        current_user_view,
        &RateLimitPolicy::new(
            "current-user-view-policy".to_string(),
            vec![MatchPredicate::Endpoint { any_of: strings(&["current_user_view"]) }],
            RateLimitQuota::new(2, Duration::from_secs(3600).as_nanos()),
            vec![RateLimitKeyPart::Literal("endpoint".to_string()), RateLimitKeyPart::Endpoint],
        )
    );

    let user_builtin_list =
        policies.iter().find(|policy| policy.id() == "user-builtin-list-policy").unwrap();
    assert_eq!(
        user_builtin_list,
        &RateLimitPolicy::new(
            "user-builtin-list-policy".to_string(),
            vec![MatchPredicate::Endpoint { any_of: strings(&["user_builtin_list"]) }],
            RateLimitQuota::new(2, Duration::from_secs(3600).as_nanos()),
            vec![RateLimitKeyPart::Literal("endpoint".to_string()), RateLimitKeyPart::Endpoint],
        )
    );

    let global = policies.iter().find(|policy| policy.id() == "global-policy").unwrap();
    assert_eq!(
        global,
        &RateLimitPolicy::new(
            "global-policy".to_string(),
            vec![MatchPredicate::Global],
            RateLimitQuota::new(2, Duration::from_secs(3600).as_nanos()),
            vec![RateLimitKeyPart::Literal("global".to_string())],
        )
    );
}

#[test]
fn builtin_definitions_carry_their_ids_and_descriptions() {
    let defs = builtin_policy_definitions();
    assert_eq!(defs[0].id, 0x001de000_726c_4000_8000_000000000000u128);
    assert_eq!(defs[2].id, 0x001de000_726c_4000_8000_000000000002u128);
    assert_eq!(defs[2].description, "Built-in global rate-limit policy");
    assert!(defs.iter().all(|d| d.enabled));
}

#[test]
fn builtin_runtime_policies_limit_per_endpoint_and_globally() {
    let policies = builtin_rate_limit_policies();
    assert_eq!(policies.len(), 3);
    let request = ctx("current_user_view", "GET");
    let checks: Vec<_> = policies.iter().filter_map(|p| p.check_for(&request)).collect();
    let keys: Vec<&str> = checks.iter().map(|c| c.key.0.as_str()).collect();
    assert_eq!(keys, vec!["endpoint:current_user_view", "global"]);
    assert!(checks.iter().all(|c| c.limit == 2 && c.window == 3_600_000_000_000));
    assert_eq!(policies[1].id(), "user_builtin_list-policy");
}
