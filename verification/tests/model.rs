use nexus_rate_limit::model::{
    generation_after_builtin_load, Generation, RateLimitPolicyFilter, RateLimitPolicyGeneration,
};

#[test]
fn builtin_load_bumps_generation_only_when_something_was_inserted() {
    let initial = Generation::new();
    assert_eq!(initial, Generation(1));
    let after_first = generation_after_builtin_load(3, initial);
    assert_eq!(after_first, Generation(2));
    let after_second = generation_after_builtin_load(0, after_first);
    assert_eq!(after_second, Generation(2));
    let row = RateLimitPolicyGeneration { singleton: true, generation: after_second };
    assert_eq!(row.generation.next(), Generation(3));
}

#[test]
fn policy_filter_selects_listed_policies() {
    // alpha: enabled; beta: disabled; gamma: enabled but deleted
    assert!(RateLimitPolicyFilter::All.includes(true, false));
    assert!(RateLimitPolicyFilter::All.includes(false, false));
    assert!(!RateLimitPolicyFilter::All.includes(true, true));
    assert!(RateLimitPolicyFilter::EnabledOnly.includes(true, false));
    assert!(!RateLimitPolicyFilter::EnabledOnly.includes(false, false));
    assert!(!RateLimitPolicyFilter::EnabledOnly.includes(true, true));
}
