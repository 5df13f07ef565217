//! The built-in rate limit policies: the runtime policies enforced by
//! default, and the stored definitions that seed the policy table.

use vstd::prelude::*;
use crate::api;
use crate::policy::{
    MatchPredicate, PolicyCompileError, RateLimitKeyPart, RateLimitPolicy, RateLimitQuota,
    RateLimitRequestContext, compile_outcome, compiled_key_part, compiled_matcher, join,
    key_texts, matcher_matches, policy_applies, policy_key, string_views,
};

verus! {

/// The limit of every built-in policy.
pub const DEFAULT_LIMIT: usize = 2;

/// The limit of every built-in policy, as stored.
pub const DEFAULT_QUOTA_LIMIT: i64 = 2;

/// The window of every built-in policy, in seconds.
pub const DEFAULT_WINDOW_SECONDS: i64 = 3600;

/// The window of every built-in policy, in nanoseconds (an hour).
pub const DEFAULT_WINDOW: u128 = 3_600_000_000_000;

/// `p` is the built-in policy with id `id` for the endpoint `operation`: it
/// selects requests to that endpoint and counts them against the key
/// `endpoint:<operation>`.
pub open spec fn is_endpoint_policy(p: RateLimitPolicy, id: Seq<char>, operation: Seq<char>) -> bool {
    &&& p.id@ == id
    &&& p.matchers@.len() == 1
    &&& p.matchers@[0] matches MatchPredicate::Endpoint { any_of } && string_views(any_of@)
        == seq![operation]
    &&& p.quota.limit == DEFAULT_LIMIT
    &&& p.quota.window == DEFAULT_WINDOW
    &&& p.key_parts@.len() == 2
    &&& p.key_parts@[0] matches RateLimitKeyPart::Literal(v) && v@ == "endpoint"@
    &&& p.key_parts@[1] is Endpoint
}

/// `p` is the built-in global policy with id `id`: it selects every request
/// and counts it against the key `global`.
pub open spec fn is_global_policy(p: RateLimitPolicy, id: Seq<char>) -> bool {
    &&& p.id@ == id
    &&& p.matchers@.len() == 1
    &&& p.matchers@[0] is Global
    &&& p.quota.limit == DEFAULT_LIMIT
    &&& p.quota.window == DEFAULT_WINDOW
    &&& p.key_parts@.len() == 1
    &&& p.key_parts@[0] matches RateLimitKeyPart::Literal(v) && v@ == "global"@
}

fn endpoint_policy(id: &str, operation: &str) -> (r: RateLimitPolicy)
    ensures
        is_endpoint_policy(r, id@, operation@),
{
    let mut any_of: Vec<String> = Vec::new();
    any_of.push(operation.to_owned());
    let mut key_parts: Vec<RateLimitKeyPart> = Vec::new();
    key_parts.push(RateLimitKeyPart::Literal("endpoint".to_owned()));
    key_parts.push(RateLimitKeyPart::Endpoint);
    let mut matchers: Vec<MatchPredicate> = Vec::new();
    matchers.push(MatchPredicate::Endpoint { any_of });
    let r = RateLimitPolicy::new(
        id.to_owned(),
        matchers,
        RateLimitQuota::new(DEFAULT_LIMIT, DEFAULT_WINDOW),
        key_parts,
    );
    proof {
        if let MatchPredicate::Endpoint { any_of } = r.matchers@[0] {
            assert(string_views(any_of@) =~= seq![operation@]);
        }
    }
    r
}

fn global_policy(id: &str) -> (r: RateLimitPolicy)
    ensures
        is_global_policy(r, id@),
{
    let mut key_parts: Vec<RateLimitKeyPart> = Vec::new();
    key_parts.push(RateLimitKeyPart::Literal("global".to_owned()));
    let mut matchers: Vec<MatchPredicate> = Vec::new();
    matchers.push(MatchPredicate::Global);
    RateLimitPolicy::new(
        id.to_owned(),
        matchers,
        RateLimitQuota::new(DEFAULT_LIMIT, DEFAULT_WINDOW),
        key_parts,
    )
}

/// The runtime policies enforced by default: one for the current user's
/// view, one for listing built-in users, and a global one.
pub fn builtin_rate_limit_policies() -> (r: Vec<RateLimitPolicy>)
    ensures
        r@.len() == 3,
        is_endpoint_policy(r@[0], "current_user_view-policy"@, "current_user_view"@),
        is_endpoint_policy(r@[1], "user_builtin_list-policy"@, "user_builtin_list"@),
        is_global_policy(r@[2], "global-policy"@),
{
    let mut r: Vec<RateLimitPolicy> = Vec::new();
    r.push(endpoint_policy("current_user_view-policy", "current_user_view"));
    r.push(endpoint_policy("user_builtin_list-policy", "user_builtin_list"));
    r.push(global_policy("global-policy"));
    r
}

/// A built-in policy as stored in the policy table: its id (a UUID, as an
/// integer), name and description, whether it is enabled, its quota, and
/// its matchers and key parts.
pub struct BuiltinPolicyDefinition {
    pub id: u128,
    pub name: String,
    pub description: String,
    pub enabled: bool,
    pub quota_limit: i64,
    pub quota_window_seconds: i64,
    pub matchers: Vec<api::RateLimitMatcher>,
    pub key_parts: Vec<api::RateLimitKeyPart>,
}

/// `d` is the stored endpoint policy named `name` for the endpoint
/// `operation`, enabled, with the default quota.
pub open spec fn is_stored_endpoint_policy(
    d: BuiltinPolicyDefinition,
    name: Seq<char>,
    operation: Seq<char>,
) -> bool {
    &&& d.name@ == name
    &&& d.enabled
    &&& d.quota_limit == DEFAULT_QUOTA_LIMIT
    &&& d.quota_window_seconds == DEFAULT_WINDOW_SECONDS
    &&& d.matchers@.len() == 1
    &&& d.matchers@[0] matches api::RateLimitMatcher::Endpoint { any_of } && string_views(any_of@)
        == seq![operation]
    &&& d.key_parts@.len() == 2
    &&& d.key_parts@[0] matches api::RateLimitKeyPart::Literal { value } && value@ == "endpoint"@
    &&& d.key_parts@[1] is Endpoint
}

/// `d` is the stored global policy named `name`, enabled, with the default
/// quota.
pub open spec fn is_stored_global_policy(d: BuiltinPolicyDefinition, name: Seq<char>) -> bool {
    &&& d.name@ == name
    &&& d.enabled
    &&& d.quota_limit == DEFAULT_QUOTA_LIMIT
    &&& d.quota_window_seconds == DEFAULT_WINDOW_SECONDS
    &&& d.matchers@.len() == 1
    &&& d.matchers@[0] is Global
    &&& d.key_parts@.len() == 1
    &&& d.key_parts@[0] matches api::RateLimitKeyPart::Literal { value } && value@ == "global"@
}

fn stored_endpoint_policy(id: u128, name: &str, description: &str, operation: &str) -> (r:
    BuiltinPolicyDefinition)
    ensures
        is_stored_endpoint_policy(r, name@, operation@),
        r.id == id,
        r.description@ == description@,
{
    let mut any_of: Vec<String> = Vec::new();
    any_of.push(operation.to_owned());
    let mut matchers: Vec<api::RateLimitMatcher> = Vec::new();
    matchers.push(api::RateLimitMatcher::Endpoint { any_of });
    let mut key_parts: Vec<api::RateLimitKeyPart> = Vec::new();
    key_parts.push(api::RateLimitKeyPart::Literal { value: "endpoint".to_owned() });
    key_parts.push(api::RateLimitKeyPart::Endpoint);
    let r = BuiltinPolicyDefinition {
        id,
        name: name.to_owned(),
        description: description.to_owned(),
        enabled: true,
        quota_limit: DEFAULT_QUOTA_LIMIT,
        quota_window_seconds: DEFAULT_WINDOW_SECONDS,
        matchers,
        key_parts,
    };
    proof {
        if let api::RateLimitMatcher::Endpoint { any_of } = r.matchers@[0] {
            assert(string_views(any_of@) =~= seq![operation@]);
        }
    }
    r
}

/// The built-in policies that seed the policy table, in the order in which
/// they are stored.
pub fn builtin_policy_definitions() -> (r: Vec<BuiltinPolicyDefinition>)
    ensures
        r@.len() == 3,
        is_stored_endpoint_policy(r@[0], "current-user-view-policy"@, "current_user_view"@),
        r@[0].id == 0x001de000_726c_4000_8000_000000000000u128,
        r@[0].description@ == "Built-in rate-limit policy for current-user view requests"@,
        is_stored_endpoint_policy(r@[1], "user-builtin-list-policy"@, "user_builtin_list"@),
        r@[1].id == 0x001de000_726c_4000_8000_000000000001u128,
        r@[1].description@ == "Built-in rate-limit policy for user-builtin list requests"@,
        is_stored_global_policy(r@[2], "global-policy"@),
        r@[2].id == 0x001de000_726c_4000_8000_000000000002u128,
        r@[2].description@ == "Built-in global rate-limit policy"@,
{
    let mut r: Vec<BuiltinPolicyDefinition> = Vec::new();
    r.push(
        stored_endpoint_policy(
            0x001de000_726c_4000_8000_000000000000u128,
            "current-user-view-policy",
            "Built-in rate-limit policy for current-user view requests",
            "current_user_view",
        ),
    );
    r.push(
        stored_endpoint_policy(
            0x001de000_726c_4000_8000_000000000001u128,
            "user-builtin-list-policy",
            "Built-in rate-limit policy for user-builtin list requests",
            "user_builtin_list",
        ),
    );
    let mut matchers: Vec<api::RateLimitMatcher> = Vec::new();
    matchers.push(api::RateLimitMatcher::Global);
    let mut key_parts: Vec<api::RateLimitKeyPart> = Vec::new();
    key_parts.push(api::RateLimitKeyPart::Literal { value: "global".to_owned() });
    r.push(
        BuiltinPolicyDefinition {
            id: 0x001de000_726c_4000_8000_000000000002u128,
            name: "global-policy".to_owned(),
            description: "Built-in global rate-limit policy".to_owned(),
            enabled: true,
            quota_limit: DEFAULT_QUOTA_LIMIT,
            quota_window_seconds: DEFAULT_WINDOW_SECONDS,
            matchers,
            key_parts,
        },
    );
    r
}

/// A stored built-in endpoint policy compiles, to the runtime endpoint
/// policy for the same endpoint with its name as the id.
pub proof fn law_stored_endpoint_policy_compiles(
    d: BuiltinPolicyDefinition,
    name: Seq<char>,
    operation: Seq<char>,
    r: Result<RateLimitPolicy, PolicyCompileError>,
)
    requires
        is_stored_endpoint_policy(d, name, operation),
        compile_outcome(
            name,
            Ok(d.matchers),
            Ok(d.key_parts),
            d.quota_limit,
            d.quota_window_seconds,
            r,
        ),
    ensures
        r matches Ok(p) && is_endpoint_policy(p, name, operation),
{
    assert(compiled_matcher(d.matchers@[0], r->Ok_0.matchers@[0]));
    assert(compiled_key_part(d.key_parts@[0], r->Ok_0.key_parts@[0]));
    assert(compiled_key_part(d.key_parts@[1], r->Ok_0.key_parts@[1]));
}

/// The stored built-in global policy compiles, to the runtime global policy
/// with its name as the id.
pub proof fn law_stored_global_policy_compiles(
    d: BuiltinPolicyDefinition,
    name: Seq<char>,
    r: Result<RateLimitPolicy, PolicyCompileError>,
)
    requires
        is_stored_global_policy(d, name),
        compile_outcome(
            name,
            Ok(d.matchers),
            Ok(d.key_parts),
            d.quota_limit,
            d.quota_window_seconds,
            r,
        ),
    ensures
        r matches Ok(p) && is_global_policy(p, name),
{
    assert(compiled_matcher(d.matchers@[0], r->Ok_0.matchers@[0]));
    assert(compiled_key_part(d.key_parts@[0], r->Ok_0.key_parts@[0]));
}

/// The built-in global policy applies to every request, and counts every
/// request against the single key `global`.
pub proof fn law_global_policy_counts_every_request(
    p: RateLimitPolicy,
    id: Seq<char>,
    ctx: RateLimitRequestContext,
)
    requires
        is_global_policy(p, id),
    ensures
        policy_applies(p, ctx),
        policy_key(p, ctx) == "global"@,
{
    assert(matcher_matches(p.matchers@[0], ctx));
    assert(key_texts(p.key_parts@, ctx) =~= seq!["global"@]);
}

/// A built-in endpoint policy applies exactly to the requests to its
/// endpoint, and counts them against the key `endpoint:<operation>`.
pub proof fn law_endpoint_policy_counts_its_endpoint(
    p: RateLimitPolicy,
    id: Seq<char>,
    operation: Seq<char>,
    ctx: RateLimitRequestContext,
)
    requires
        is_endpoint_policy(p, id, operation),
    ensures
        policy_applies(p, ctx) <==> ctx.endpoint@ == operation,
        policy_applies(p, ctx) ==> policy_key(p, ctx) == "endpoint"@ + ":"@ + operation,
{
    let any_of = p.matchers@[0]->Endpoint_any_of;
    assert(string_views(any_of@) == seq![operation]);
    assert(any_of@.len() == string_views(any_of@).len());
    assert(any_of@[0]@ == string_views(any_of@)[0]);
    if ctx.endpoint@ == operation {
        assert(matcher_matches(p.matchers@[0], ctx));
    }
    if policy_applies(p, ctx) {
        assert(matcher_matches(p.matchers@[0], ctx));
        let i = choose|i: int| 0 <= i < any_of@.len() && #[trigger] any_of@[i]@ == ctx.endpoint@;
        assert(i == 0);
    }
    let texts = key_texts(p.key_parts@, ctx);
    if ctx.endpoint@ == operation {
        assert(texts =~= seq!["endpoint"@, operation]);
        assert(texts.drop_last() =~= seq!["endpoint"@]);
        assert(join(texts, ":"@) == join(texts.drop_last(), ":"@) + ":"@ + texts.last());
    }
}

} // verus!
