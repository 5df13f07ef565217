//! Rate limit policies: which requests a policy applies to, and which
//! counter (key, limit and window) such a request is checked against.

use vstd::prelude::*;
use vstd::string::StringExecFns;
use crate::api;
use crate::limiter::{RateLimitCheck, RateLimitKey};

verus! {

/// A character that may stand in an HTTP method (a `tchar` of RFC 9110).
pub open spec fn is_method_char(c: char) -> bool {
    ||| ('0' <= c && c <= '9')
    ||| ('A' <= c && c <= 'Z')
    ||| ('a' <= c && c <= 'z')
    ||| c == '!' || c == '#' || c == '$' || c == '%' || c == '&' || c == '\''
    ||| c == '*' || c == '+' || c == '-' || c == '.' || c == '^' || c == '_'
    ||| c == '`' || c == '|' || c == '~'
}

/// A valid HTTP method: a non-empty string of method characters.
pub open spec fn is_method_token(s: Seq<char>) -> bool {
    &&& s.len() > 0
    &&& forall|i: int| 0 <= i < s.len() ==> is_method_char(#[trigger] s[i])
}

/// `<http::Method as FromStr>::from_str`, with the parsed method given back
/// as its text and a refusal as its message. The `http` crate accepts
/// exactly the non-empty strings of method characters, keeps the text as
/// given (`as_str` returns it), and describes a refusal as
/// "invalid HTTP method".
#[verifier::external_body]
fn parse_http_method(s: &str) -> (r: Result<String, String>)
    ensures
        r is Ok <==> is_method_token(s@),
        r matches Ok(m) ==> m@ == s@,
        r matches Err(e) ==> e@ == "invalid HTTP method"@,
{
    match s.parse::<http::Method>() {
        Ok(method) => Ok(method.as_str().to_string()),
        Err(error) => Err(error.to_string()),
    }
}

/// An HTTP method, held as its text. Two methods are the same method exactly
/// when their texts are equal.
#[derive(Debug, PartialEq, Eq)]
pub struct HttpMethod {
    name: String,
}

impl View for HttpMethod {
    type V = Seq<char>;

    closed spec fn view(&self) -> Seq<char> {
        self.name@
    }
}

impl HttpMethod {
    #[verifier::type_invariant]
    spec fn well_formed(self) -> bool {
        is_method_token(self.name@)
    }

    /// The method named by `s`, if `s` is a valid HTTP method.
    pub fn parse(s: &str) -> (r: Option<HttpMethod>)
        ensures
            r is Some <==> is_method_token(s@),
            r matches Some(m) ==> m@ == s@,
    {
        match parse_http_method(s) {
            Ok(name) => Some(HttpMethod { name }),
            Err(_) => None,
        }
    }

    pub fn as_str(&self) -> (r: &str)
        ensures
            r@ == self@,
            is_method_token(r@),
    {
        proof {
            use_type_invariant(self);
        }
        self.name.as_str()
    }
}

impl Clone for HttpMethod {
    fn clone(&self) -> (r: Self)
        ensures
            r@ == self@,
    {
        proof {
            use_type_invariant(self);
        }
        HttpMethod { name: self.name.clone() }
    }
}

/// Which requests a policy applies to.
#[allow(inconsistent_fields)]
#[derive(Debug, PartialEq, Eq)]
pub enum MatchPredicate {
    /// Requests to any of these endpoints (operation ids).
    Endpoint { any_of: Vec<String> },
    /// Requests with any of these methods.
    HttpMethod { any_of: Vec<HttpMethod> },
    /// Every request.
    Global,
}

/// A piece from which a rate limit key is built for a request.
#[derive(Debug, PartialEq, Eq)]
pub enum RateLimitKeyPart {
    /// Fixed text.
    Literal(String),
    /// The request's endpoint.
    Endpoint,
    /// The request's method.
    HttpMethod,
}

/// A quota: at most `limit` requests per window of `window` nanoseconds.
#[derive(Debug, PartialEq, Eq)]
pub struct RateLimitQuota {
    pub limit: usize,
    pub window: u128,
}

impl RateLimitQuota {
    pub fn new(limit: usize, window: u128) -> (r: Self)
        ensures
            r.limit == limit,
            r.window == window,
    {
        RateLimitQuota { limit, window }
    }
}

/// The parts of a request that policies look at.
pub struct RateLimitRequestContext {
    pub endpoint: String,
    pub method: HttpMethod,
}

impl RateLimitRequestContext {
    pub fn new(endpoint: String, method: HttpMethod) -> (r: Self)
        ensures
            r.endpoint@ == endpoint@,
            r.method@ == method@,
    {
        RateLimitRequestContext { endpoint, method }
    }
}

/// A rate limit policy: a unique id, the matchers that select the requests
/// it applies to, the quota, and the template of the key to count against.
#[derive(Debug, PartialEq, Eq)]
pub struct RateLimitPolicy {
    pub id: String,
    pub matchers: Vec<MatchPredicate>,
    pub quota: RateLimitQuota,
    pub key_parts: Vec<RateLimitKeyPart>,
}

/// `matcher` selects the request `ctx`.
pub open spec fn matcher_matches(matcher: MatchPredicate, ctx: RateLimitRequestContext) -> bool {
    match matcher {
        MatchPredicate::Endpoint { any_of } => exists|i: int|
            0 <= i < any_of@.len() && #[trigger] any_of@[i]@ == ctx.endpoint@,
        MatchPredicate::HttpMethod { any_of } => exists|i: int|
            0 <= i < any_of@.len() && #[trigger] any_of@[i]@ == ctx.method@,
        MatchPredicate::Global => true,
    }
}

/// Every matcher of `policy` selects the request `ctx`.
pub open spec fn policy_applies(policy: RateLimitPolicy, ctx: RateLimitRequestContext) -> bool {
    forall|j: int|
        0 <= j < policy.matchers@.len() ==> matcher_matches(#[trigger] policy.matchers@[j], ctx)
}

/// The text that `part` contributes to the key of the request `ctx`.
pub open spec fn key_part_text(part: RateLimitKeyPart, ctx: RateLimitRequestContext) -> Seq<char> {
    match part {
        RateLimitKeyPart::Literal(value) => value@,
        RateLimitKeyPart::Endpoint => ctx.endpoint@,
        RateLimitKeyPart::HttpMethod => ctx.method@,
    }
}

/// `parts` joined, with `sep` between each two.
pub open spec fn join(parts: Seq<Seq<char>>, sep: Seq<char>) -> Seq<char>
    decreases parts.len(),
{
    if parts.len() == 0 {
        seq![]
    } else if parts.len() == 1 {
        parts[0]
    } else {
        join(parts.drop_last(), sep) + sep + parts.last()
    }
}

/// The texts of `parts` for the request `ctx`.
pub open spec fn key_texts(parts: Seq<RateLimitKeyPart>, ctx: RateLimitRequestContext) -> Seq<
    Seq<char>,
> {
    parts.map_values(|part: RateLimitKeyPart| key_part_text(part, ctx))
}

/// The key that `policy` counts the request `ctx` against: the texts of its
/// key parts joined by colons.
pub open spec fn policy_key(policy: RateLimitPolicy, ctx: RateLimitRequestContext) -> Seq<char> {
    join(key_texts(policy.key_parts@, ctx), ":"@)
}

impl RateLimitPolicy {
    pub fn new(
        id: String,
        matchers: Vec<MatchPredicate>,
        quota: RateLimitQuota,
        key_parts: Vec<RateLimitKeyPart>,
    ) -> (r: Self)
        ensures
            r.id@ == id@,
            r.matchers@ == matchers@,
            r.quota == quota,
            r.key_parts@ == key_parts@,
    {
        RateLimitPolicy { id, matchers, quota, key_parts }
    }

    pub fn id(&self) -> (r: &str)
        ensures
            r@ == self.id@,
    {
        self.id.as_str()
    }

    /// The check of this policy for the request `ctx`: none if a matcher
    /// does not select the request, and otherwise the key built from the key
    /// parts with the policy's limit and window.
    pub fn check_for(&self, ctx: &RateLimitRequestContext) -> (r: Option<RateLimitCheck>)
        ensures
            r is Some <==> policy_applies(*self, *ctx),
            r matches Some(check) ==> {
                &&& check.key@ == policy_key(*self, *ctx)
                &&& check.limit == self.quota.limit
                &&& check.window == self.quota.window
            },
    {
        let mut j: usize = 0;
        while j < self.matchers.len()
            invariant
                j <= self.matchers@.len(),
                forall|k: int| 0 <= k < j ==> matcher_matches(#[trigger] self.matchers@[k], *ctx),
            decreases self.matchers@.len() - j,
        {
            let matched = match &self.matchers[j] {
                MatchPredicate::Endpoint { any_of } => {
                    let mut found = false;
                    let mut i: usize = 0;
                    while i < any_of.len()
                        invariant
                            i <= any_of@.len(),
                            found <==> exists|k: int| 0 <= k < i && #[trigger] any_of@[k]@ == ctx.endpoint@,
                        decreases any_of@.len() - i,
                    {
                        if any_of[i] == ctx.endpoint {
                            found = true;
                        }
                        i = i + 1;
                    }
                    found
                },
                MatchPredicate::HttpMethod { any_of } => {
                    let mut found = false;
                    let mut i: usize = 0;
                    while i < any_of.len()
                        invariant
                            i <= any_of@.len(),
                            found <==> exists|k: int| 0 <= k < i && #[trigger] any_of@[k]@ == ctx.method@,
                        decreases any_of@.len() - i,
                    {
                        let same = any_of[i].name == ctx.method.name;
                        proof {
                            assert(any_of@[i as int]@ == any_of@[i as int].name@);
                            assert(ctx.method@ == ctx.method.name@);
                        }
                        if same {
                            found = true;
                        }
                        i = i + 1;
                    }
                    found
                },
                MatchPredicate::Global => true,
            };
            if !matched {
                return None;
            }
            j = j + 1;
        }

        let ghost texts = key_texts(self.key_parts@, *ctx);
        let mut key = String::new();
        let mut i: usize = 0;
        while i < self.key_parts.len()
            invariant
                i <= self.key_parts@.len(),
                texts == key_texts(self.key_parts@, *ctx),
                key@ == join(texts.take(i as int), ":"@),
            decreases self.key_parts@.len() - i,
        {
            let text = match &self.key_parts[i] {
                RateLimitKeyPart::Literal(value) => value.as_str(),
                RateLimitKeyPart::Endpoint => ctx.endpoint.as_str(),
                RateLimitKeyPart::HttpMethod => ctx.method.name.as_str(),
            };
            proof {
                assert(texts.take(i + 1).drop_last() =~= texts.take(i as int));
            }
            if i > 0 {
                key.append(":");
            }
            key.append(text);
            i = i + 1;
        }
        proof {
            assert(texts.take(texts.len() as int) =~= texts);
        }
        Some(RateLimitCheck::new(RateLimitKey::new(key), self.quota.limit, self.quota.window))
    }
}

/// Why a stored policy part does not compile.
#[derive(Debug, PartialEq, Eq)]
pub enum RateLimitPolicyCompileError {
    /// A method matcher names something that is not an HTTP method;
    /// `source` is the parser's description of the refusal.
    InvalidHttpMethod { method: String, source: String },
    /// The quota limit is not positive or does not fit in `usize`.
    InvalidQuotaLimit { value: i64 },
    /// The quota window is not positive.
    InvalidQuotaWindow { value: i64 },
}

/// Why a stored policy could not be turned into a runtime policy. Each
/// variant names the policy.
#[allow(inconsistent_fields)]
#[derive(Debug, PartialEq, Eq)]
pub enum PolicyCompileError {
    /// The stored matchers could not be read; `cause` says why.
    DeserializeMatchers { policy: String, cause: String },
    /// The stored key parts could not be read; `cause` says why.
    DeserializeKeyParts { policy: String, cause: String },
    /// A part of the policy was read but is invalid.
    Compile { policy: String, cause: RateLimitPolicyCompileError },
}

pub open spec fn string_views(v: Seq<String>) -> Seq<Seq<char>> {
    v.map_values(|s: String| s@)
}

pub open spec fn method_views(v: Seq<HttpMethod>) -> Seq<Seq<char>> {
    v.map_values(|m: HttpMethod| m@)
}

/// Every entry of `methods` is a valid HTTP method.
pub open spec fn all_methods_valid(methods: Seq<String>) -> bool {
    forall|i: int| 0 <= i < methods.len() ==> is_method_token(#[trigger] methods[i]@)
}

/// `e` reports the first entry of `methods` that is not a valid HTTP method.
pub open spec fn reports_first_invalid_method(
    methods: Seq<String>,
    e: RateLimitPolicyCompileError,
) -> bool {
    exists|i: int|
        {
            &&& 0 <= i < methods.len()
            &&& !is_method_token(#[trigger] methods[i]@)
            &&& forall|j: int| 0 <= j < i ==> is_method_token(#[trigger] methods[j]@)
            &&& e matches RateLimitPolicyCompileError::InvalidHttpMethod { method, source }
            &&& method@ == methods[i]@
            &&& source@ == "invalid HTTP method"@
        }
}

/// The stored matcher `m` compiles.
pub open spec fn matcher_valid(m: api::RateLimitMatcher) -> bool {
    match m {
        api::RateLimitMatcher::HttpMethod { any_of } => all_methods_valid(any_of@),
        _ => true,
    }
}

/// `e` is what compiling the stored matcher `m` reports.
pub open spec fn matcher_error(m: api::RateLimitMatcher, e: RateLimitPolicyCompileError) -> bool {
    match m {
        api::RateLimitMatcher::HttpMethod { any_of } => reports_first_invalid_method(any_of@, e),
        _ => false,
    }
}

/// `p` is the stored matcher `m` compiled: the same kind, selecting the same
/// endpoints or methods in the same order.
pub open spec fn compiled_matcher(m: api::RateLimitMatcher, p: MatchPredicate) -> bool {
    match m {
        api::RateLimitMatcher::Endpoint { any_of } => match p {
            MatchPredicate::Endpoint { any_of: compiled } => string_views(compiled@)
                == string_views(any_of@),
            _ => false,
        },
        api::RateLimitMatcher::HttpMethod { any_of } => match p {
            MatchPredicate::HttpMethod { any_of: compiled } => method_views(compiled@)
                == string_views(any_of@),
            _ => false,
        },
        api::RateLimitMatcher::Global => p is Global,
    }
}

/// `p` is the stored key part `k` compiled.
pub open spec fn compiled_key_part(k: api::RateLimitKeyPart, p: RateLimitKeyPart) -> bool {
    match k {
        api::RateLimitKeyPart::Literal { value } => p matches RateLimitKeyPart::Literal(v) && v@
            == value@,
        api::RateLimitKeyPart::Endpoint => p is Endpoint,
        api::RateLimitKeyPart::HttpMethod => p is HttpMethod,
    }
}

pub open spec fn all_matchers_valid(ms: Seq<api::RateLimitMatcher>) -> bool {
    forall|i: int| 0 <= i < ms.len() ==> matcher_valid(#[trigger] ms[i])
}

/// `e` is what compiling the first invalid matcher of `ms` reports.
pub open spec fn first_matcher_error(
    ms: Seq<api::RateLimitMatcher>,
    e: RateLimitPolicyCompileError,
) -> bool {
    exists|i: int|
        {
            &&& 0 <= i < ms.len()
            &&& !matcher_valid(#[trigger] ms[i])
            &&& forall|j: int| 0 <= j < i ==> matcher_valid(#[trigger] ms[j])
            &&& matcher_error(ms[i], e)
        }
}

pub open spec fn compiled_matchers(ms: Seq<api::RateLimitMatcher>, ps: Seq<MatchPredicate>) -> bool {
    &&& ms.len() == ps.len()
    &&& forall|i: int| 0 <= i < ms.len() ==> compiled_matcher(#[trigger] ms[i], ps[i])
}

pub open spec fn compiled_key_parts(ks: Seq<api::RateLimitKeyPart>, ps: Seq<RateLimitKeyPart>) -> bool {
    &&& ks.len() == ps.len()
    &&& forall|i: int| 0 <= i < ks.len() ==> compiled_key_part(#[trigger] ks[i], ps[i])
}

/// A stored quota limit that compiles: positive and within `usize`.
pub open spec fn quota_limit_valid(value: i64) -> bool {
    0 < value && value <= usize::MAX
}

/// Nanoseconds in `seconds` seconds.
pub open spec fn seconds_to_nanos(seconds: int) -> int {
    seconds * 1_000_000_000
}

/// What compiling the stored policy named `name` gives, from its read (or
/// unreadable) matchers and key parts and its quota. The parts are taken in
/// this order, and the first that fails decides the error: the matchers are
/// read, then each is compiled, then the key parts are read, then the limit
/// and last the window are checked.
pub open spec fn compile_outcome(
    name: Seq<char>,
    matchers: Result<Vec<api::RateLimitMatcher>, String>,
    key_parts: Result<Vec<api::RateLimitKeyPart>, String>,
    quota_limit: i64,
    quota_window_seconds: i64,
    r: Result<RateLimitPolicy, PolicyCompileError>,
) -> bool {
    match matchers {
        Err(c) => r matches Err(PolicyCompileError::DeserializeMatchers { policy, cause })
            && policy@ == name && cause@ == c@,
        Ok(ms) => if !all_matchers_valid(ms@) {
            r matches Err(PolicyCompileError::Compile { policy, cause }) && policy@ == name
                && first_matcher_error(ms@, cause)
        } else {
            match key_parts {
                Err(c) => r matches Err(PolicyCompileError::DeserializeKeyParts { policy, cause })
                    && policy@ == name && cause@ == c@,
                Ok(ks) => if !quota_limit_valid(quota_limit) {
                    r matches Err(PolicyCompileError::Compile { policy, cause }) && policy@ == name
                        && cause == (RateLimitPolicyCompileError::InvalidQuotaLimit {
                        value: quota_limit,
                    })
                } else if quota_window_seconds <= 0 {
                    r matches Err(PolicyCompileError::Compile { policy, cause }) && policy@ == name
                        && cause == (RateLimitPolicyCompileError::InvalidQuotaWindow {
                        value: quota_window_seconds,
                    })
                } else {
                    &&& r matches Ok(p)
                    &&& p.id@ == name
                    &&& compiled_matchers(ms@, p.matchers@)
                    &&& compiled_key_parts(ks@, p.key_parts@)
                    &&& p.quota.limit == quota_limit
                    &&& p.quota.window == seconds_to_nanos(quota_window_seconds as int)
                },
            }
        },
    }
}

fn clone_strings(v: &Vec<String>) -> (r: Vec<String>)
    ensures
        r@ == v@,
{
    let mut r: Vec<String> = Vec::new();
    let mut i: usize = 0;
    while i < v.len()
        invariant
            i <= v@.len(),
            r@ == v@.take(i as int),
        decreases v@.len() - i,
    {
        r.push(v[i].clone());
        proof {
            assert(r@ =~= v@.take(i + 1));
        }
        i = i + 1;
    }
    proof {
        assert(v@.take(v@.len() as int) =~= v@);
    }
    r
}

fn compile_matcher(matcher: &api::RateLimitMatcher) -> (r: Result<
    MatchPredicate,
    RateLimitPolicyCompileError,
>)
    ensures
        match r {
            Ok(p) => matcher_valid(*matcher) && compiled_matcher(*matcher, p),
            Err(e) => !matcher_valid(*matcher) && matcher_error(*matcher, e),
        },
{
    match matcher {
        api::RateLimitMatcher::Endpoint { any_of } => {
            Ok(MatchPredicate::Endpoint { any_of: clone_strings(any_of) })
        },
        api::RateLimitMatcher::HttpMethod { any_of } => {
            let mut methods: Vec<HttpMethod> = Vec::new();
            let mut i: usize = 0;
            while i < any_of.len()
                invariant
                    *matcher == (api::RateLimitMatcher::HttpMethod { any_of: *any_of }),
                    i <= any_of@.len(),
                    method_views(methods@) == string_views(any_of@.take(i as int)),
                    forall|j: int| 0 <= j < i ==> is_method_token(#[trigger] any_of@[j]@),
                decreases any_of@.len() - i,
            {
                match parse_http_method(any_of[i].as_str()) {
                    Ok(name) => {
                        let ghost before = methods@;
                        let method = HttpMethod { name };
                        methods.push(method);
                        proof {
                            assert(method_views(methods@) =~= method_views(before).push(
                                any_of@[i as int]@,
                            ));
                            assert(string_views(any_of@.take(i + 1)) =~= string_views(
                                any_of@.take(i as int),
                            ).push(any_of@[i as int]@));
                        }
                    },
                    Err(source) => {
                        let e = RateLimitPolicyCompileError::InvalidHttpMethod {
                            method: any_of[i].clone(),
                            source,
                        };
                        proof {
                            assert(!is_method_token(any_of@[i as int]@));
                            assert(!all_methods_valid(any_of@));
                            assert(reports_first_invalid_method(any_of@, e));
                        }
                        return Err(e);
                    },
                }
                i = i + 1;
            }
            proof {
                assert(any_of@.take(any_of@.len() as int) =~= any_of@);
            }
            Ok(MatchPredicate::HttpMethod { any_of: methods })
        },
        api::RateLimitMatcher::Global => Ok(MatchPredicate::Global),
    }
}

fn compile_key_part(part: &api::RateLimitKeyPart) -> (r: RateLimitKeyPart)
    ensures
        compiled_key_part(*part, r),
{
    match part {
        api::RateLimitKeyPart::Literal { value } => RateLimitKeyPart::Literal(value.clone()),
        api::RateLimitKeyPart::Endpoint => RateLimitKeyPart::Endpoint,
        api::RateLimitKeyPart::HttpMethod => RateLimitKeyPart::HttpMethod,
    }
}

/// The stored quota limit as a count of requests.
pub fn compile_quota_limit(value: i64) -> (r: Result<usize, RateLimitPolicyCompileError>)
    ensures
        match r {
            Ok(limit) => quota_limit_valid(value) && limit == value,
            Err(e) => !quota_limit_valid(value) && e
                == RateLimitPolicyCompileError::InvalidQuotaLimit { value },
        },
{
    if value <= 0 {
        return Err(RateLimitPolicyCompileError::InvalidQuotaLimit { value });
    }
    if value as u64 > usize::MAX as u64 {
        return Err(RateLimitPolicyCompileError::InvalidQuotaLimit { value });
    }
    Ok(value as usize)
}

/// The stored quota window (in seconds) as a length in nanoseconds.
pub fn compile_quota_window(value: i64) -> (r: Result<u128, RateLimitPolicyCompileError>)
    ensures
        match r {
            Ok(window) => value > 0 && window == seconds_to_nanos(value as int),
            Err(e) => value <= 0 && e == RateLimitPolicyCompileError::InvalidQuotaWindow { value },
        },
{
    if value <= 0 {
        return Err(RateLimitPolicyCompileError::InvalidQuotaWindow { value });
    }
    let seconds = value as u128;
    assert(seconds * 1_000_000_000 <= 9_223_372_036_854_775_807u128 * 1_000_000_000) by (nonlinear_arith)
        requires
            seconds <= 9_223_372_036_854_775_807u128,
    ;
    Ok(seconds * 1_000_000_000)
}

impl RateLimitPolicy {
    /// Compiles a stored policy named `name` into a runtime policy, from its
    /// matchers and key parts as read from storage (or why they could not be
    /// read) and its quota. The policy's name becomes the runtime id.
    pub fn compile(
        name: String,
        matchers: Result<Vec<api::RateLimitMatcher>, String>,
        key_parts: Result<Vec<api::RateLimitKeyPart>, String>,
        quota_limit: i64,
        quota_window_seconds: i64,
    ) -> (r: Result<RateLimitPolicy, PolicyCompileError>)
        ensures
            compile_outcome(name@, matchers, key_parts, quota_limit, quota_window_seconds, r),
    {
        let stored_matchers = match matchers {
            Ok(ms) => ms,
            Err(cause) => {
                return Err(PolicyCompileError::DeserializeMatchers { policy: name, cause });
            },
        };
        let mut compiled: Vec<MatchPredicate> = Vec::new();
        let mut i: usize = 0;
        while i < stored_matchers.len()
            invariant
                matchers == Ok::<Vec<api::RateLimitMatcher>, String>(stored_matchers),
                i <= stored_matchers@.len(),
                compiled@.len() == i,
                forall|j: int|
                    0 <= j < i ==> compiled_matcher(
                        #[trigger] stored_matchers@[j],
                        compiled@[j],
                    ),
                forall|j: int| 0 <= j < i ==> matcher_valid(#[trigger] stored_matchers@[j]),
            decreases stored_matchers@.len() - i,
        {
            match compile_matcher(&stored_matchers[i]) {
                Ok(p) => {
                    compiled.push(p);
                },
                Err(cause) => {
                    proof {
                        assert(!matcher_valid(stored_matchers@[i as int]));
                        assert(!all_matchers_valid(stored_matchers@));
                        assert(first_matcher_error(stored_matchers@, cause));
                    }
                    return Err(PolicyCompileError::Compile { policy: name, cause });
                },
            }
            i = i + 1;
        }
        let stored_parts = match key_parts {
            Ok(ks) => ks,
            Err(cause) => {
                return Err(PolicyCompileError::DeserializeKeyParts { policy: name, cause });
            },
        };
        let mut parts: Vec<RateLimitKeyPart> = Vec::new();
        let mut i: usize = 0;
        while i < stored_parts.len()
            invariant
                i <= stored_parts@.len(),
                parts@.len() == i,
                forall|j: int|
                    0 <= j < i ==> compiled_key_part(#[trigger] stored_parts@[j], parts@[j]),
            decreases stored_parts@.len() - i,
        {
            parts.push(compile_key_part(&stored_parts[i]));
            i = i + 1;
        }
        let limit = match compile_quota_limit(quota_limit) {
            Ok(limit) => limit,
            Err(cause) => {
                return Err(PolicyCompileError::Compile { policy: name, cause });
            },
        };
        let window = match compile_quota_window(quota_window_seconds) {
            Ok(window) => window,
            Err(cause) => {
                return Err(PolicyCompileError::Compile { policy: name, cause });
            },
        };
        Ok(RateLimitPolicy::new(name, compiled, RateLimitQuota::new(limit, window), parts))
    }
}

/// The character of the decimal digit `d`.
pub open spec fn digit_char(d: int) -> char {
    (d + 48) as char
}

/// The decimal digits of `n`, most significant first, without leading
/// zeros (a single `0` for zero).
pub open spec fn decimal_digits(n: nat) -> Seq<char>
    decreases n,
{
    if n < 10 {
        seq![digit_char(n as int)]
    } else {
        decimal_digits(n / 10).push(digit_char((n % 10) as int))
    }
}

/// `v` written in decimal, with a leading `-` when negative.
pub open spec fn decimal(v: int) -> Seq<char> {
    if v < 0 {
        seq!['-'] + decimal_digits((-v) as nat)
    } else {
        decimal_digits(v as nat)
    }
}

/// `<i64 as Display>::fmt` (through `to_string`): `v` in decimal, with a
/// leading `-` when negative.
#[verifier::external_body]
fn i64_text(v: i64) -> (r: String)
    ensures
        r@ == decimal(v as int),
{
    v.to_string()
}

/// What `<str as Debug>::fmt` writes for a string: the text quoted, with
/// quotes, backslashes and unprintable characters escaped.
pub uninterp spec fn debug_quoted(s: Seq<char>) -> Seq<char>;

/// `<str as Debug>::fmt`, through `format!`.
#[verifier::external_body]
fn debug_text(s: &str) -> (r: String)
    ensures
        r@ == debug_quoted(s@),
{
    format!("{:?}", s)
}

/// The message of a compile error.
pub open spec fn compile_error_message(e: RateLimitPolicyCompileError) -> Seq<char> {
    match e {
        RateLimitPolicyCompileError::InvalidHttpMethod { method, source } => "invalid HTTP method "@
            + debug_quoted(method@) + ": "@ + source@,
        RateLimitPolicyCompileError::InvalidQuotaLimit { value } => "invalid quota_limit "@
            + decimal(value as int) + " -- must be greater than 0 and fit in usize"@,
        RateLimitPolicyCompileError::InvalidQuotaWindow { value } => "invalid quota_window_seconds "@
            + decimal(value as int) + " -- must be greater than 0"@,
    }
}

/// The messages of a compile error and of its causes, outermost first: an
/// invalid method is caused by the method parser's refusal.
pub open spec fn compile_error_chain(e: RateLimitPolicyCompileError) -> Seq<Seq<char>> {
    match e {
        RateLimitPolicyCompileError::InvalidHttpMethod { source, .. } => seq![
            compile_error_message(e),
            source@,
        ],
        _ => seq![compile_error_message(e)],
    }
}

/// The messages of a policy compile error and of its causes, outermost
/// first: what could not be done for which policy, then why.
pub open spec fn policy_error_chain(e: PolicyCompileError) -> Seq<Seq<char>> {
    match e {
        PolicyCompileError::DeserializeMatchers { policy, cause } => seq![
            "couldn't deserialize matchers for rate limit policy "@ + policy@,
            cause@,
        ],
        PolicyCompileError::DeserializeKeyParts { policy, cause } => seq![
            "couldn't deserialize key parts for rate limit policy "@ + policy@,
            cause@,
        ],
        PolicyCompileError::Compile { policy, cause } => seq![
            "couldn't compile rate limit policy "@ + policy@,
        ] + compile_error_chain(cause),
    }
}

impl RateLimitPolicyCompileError {
    pub fn message(&self) -> (r: String)
        ensures
            r@ == compile_error_message(*self),
    {
        match self {
            RateLimitPolicyCompileError::InvalidHttpMethod { method, source } => {
                let mut r = "invalid HTTP method ".to_owned();
                r.append(debug_text(method.as_str()).as_str());
                r.append(": ");
                r.append(source.as_str());
                r
            },
            RateLimitPolicyCompileError::InvalidQuotaLimit { value } => {
                let mut r = "invalid quota_limit ".to_owned();
                r.append(i64_text(*value).as_str());
                r.append(" -- must be greater than 0 and fit in usize");
                r
            },
            RateLimitPolicyCompileError::InvalidQuotaWindow { value } => {
                let mut r = "invalid quota_window_seconds ".to_owned();
                r.append(i64_text(*value).as_str());
                r.append(" -- must be greater than 0");
                r
            },
        }
    }
}

impl PolicyCompileError {
    /// The messages of this error and of its causes, outermost first.
    pub fn chain(&self) -> (r: Vec<String>)
        ensures
            string_views(r@) == policy_error_chain(*self),
    {
        let mut r: Vec<String> = Vec::new();
        match self {
            PolicyCompileError::DeserializeMatchers { policy, cause } => {
                let mut context = "couldn't deserialize matchers for rate limit policy ".to_owned();
                context.append(policy.as_str());
                r.push(context);
                r.push(cause.clone());
            },
            PolicyCompileError::DeserializeKeyParts { policy, cause } => {
                let mut context = "couldn't deserialize key parts for rate limit policy ".to_owned();
                context.append(policy.as_str());
                r.push(context);
                r.push(cause.clone());
            },
            PolicyCompileError::Compile { policy, cause } => {
                let mut context = "couldn't compile rate limit policy ".to_owned();
                context.append(policy.as_str());
                r.push(context);
                r.push(cause.message());
                if let RateLimitPolicyCompileError::InvalidHttpMethod { source, .. } = cause {
                    r.push(source.clone());
                }
            },
        }
        proof {
            assert(string_views(r@) =~= policy_error_chain(*self));
        }
        r
    }
}

/// A policy whose matchers are all `Global` (or that has none) applies to
/// every request.
pub proof fn law_global_policy_applies_to_every_request(
    policy: RateLimitPolicy,
    ctx: RateLimitRequestContext,
)
    requires
        forall|j: int| 0 <= j < policy.matchers@.len() ==> (#[trigger] policy.matchers@[j]) is Global,
    ensures
        policy_applies(policy, ctx),
{
}

/// A stored policy compiles exactly when its matchers and key parts can be
/// read, every method it names is a valid HTTP method, its limit is
/// positive and fits in `usize`, and its window is positive; and a compiled
/// policy always has a limit of at least one request and a window of at
/// least one second.
pub proof fn law_compiled_policies_are_valid(
    name: Seq<char>,
    matchers: Result<Vec<api::RateLimitMatcher>, String>,
    key_parts: Result<Vec<api::RateLimitKeyPart>, String>,
    quota_limit: i64,
    quota_window_seconds: i64,
    r: Result<RateLimitPolicy, PolicyCompileError>,
)
    requires
        compile_outcome(name, matchers, key_parts, quota_limit, quota_window_seconds, r),
    ensures
        r is Ok <==> {
            &&& matchers matches Ok(ms) && all_matchers_valid(ms@)
            &&& key_parts is Ok
            &&& quota_limit_valid(quota_limit)
            &&& quota_window_seconds > 0
        },
        r matches Ok(p) ==> p.quota.limit >= 1 && p.quota.window >= 1_000_000_000,
{
}

/// A stored matcher lists the request `ctx`: an endpoint matcher names its
/// endpoint and a method matcher its method, at any position of the list;
/// a global matcher lists every request.
pub open spec fn stored_matcher_lists(m: api::RateLimitMatcher, ctx: RateLimitRequestContext) -> bool {
    match m {
        api::RateLimitMatcher::Endpoint { any_of } => string_views(any_of@).contains(ctx.endpoint@),
        api::RateLimitMatcher::HttpMethod { any_of } => string_views(any_of@).contains(ctx.method@),
        api::RateLimitMatcher::Global => true,
    }
}

proof fn lemma_contains_view(v: Seq<String>, x: Seq<char>)
    ensures
        string_views(v).contains(x) <==> exists|i: int| 0 <= i < v.len() && #[trigger] v[i]@ == x,
{
    if string_views(v).contains(x) {
        let i = choose|i: int| 0 <= i < string_views(v).len() && string_views(v)[i] == x;
        assert(v[i]@ == x);
    }
    if exists|i: int| 0 <= i < v.len() && #[trigger] v[i]@ == x {
        let i = choose|i: int| 0 <= i < v.len() && #[trigger] v[i]@ == x;
        assert(string_views(v)[i] == x);
    }
}

proof fn lemma_contains_method_view(v: Seq<HttpMethod>, x: Seq<char>)
    ensures
        method_views(v).contains(x) <==> exists|i: int| 0 <= i < v.len() && #[trigger] v[i]@ == x,
{
    if method_views(v).contains(x) {
        let i = choose|i: int| 0 <= i < method_views(v).len() && method_views(v)[i] == x;
        assert(v[i]@ == x);
    }
    if exists|i: int| 0 <= i < v.len() && #[trigger] v[i]@ == x {
        let i = choose|i: int| 0 <= i < v.len() && #[trigger] v[i]@ == x;
        assert(method_views(v)[i] == x);
    }
}

/// A matcher selects a request exactly when its list holds the request's
/// endpoint (for an endpoint matcher) or method (for a method matcher), at
/// any position of the list; a global matcher selects every request. So
/// `check_for` gives a check exactly when every matcher of the policy lists
/// the request.
pub proof fn law_matchers_select_listed_requests(m: MatchPredicate, ctx: RateLimitRequestContext)
    ensures
        m matches MatchPredicate::Endpoint { any_of } ==> (matcher_matches(m, ctx)
            <==> string_views(any_of@).contains(ctx.endpoint@)),
        m matches MatchPredicate::HttpMethod { any_of } ==> (matcher_matches(m, ctx)
            <==> method_views(any_of@).contains(ctx.method@)),
        m is Global ==> matcher_matches(m, ctx),
{
    match m {
        MatchPredicate::Endpoint { any_of } => lemma_contains_view(any_of@, ctx.endpoint@),
        MatchPredicate::HttpMethod { any_of } => lemma_contains_method_view(any_of@, ctx.method@),
        MatchPredicate::Global => {},
    }
}

/// A compiled matcher selects exactly the requests that the stored matcher
/// lists: every endpoint and every method of the stored list is kept, at
/// whatever position it stands.
pub proof fn law_compiled_matcher_selects_as_stored(
    m: api::RateLimitMatcher,
    p: MatchPredicate,
    ctx: RateLimitRequestContext,
)
    requires
        compiled_matcher(m, p),
    ensures
        matcher_matches(p, ctx) <==> stored_matcher_lists(m, ctx),
{
    law_matchers_select_listed_requests(p, ctx);
}

/// A compiled policy applies to a request exactly when every matcher of the
/// stored policy lists the request.
pub proof fn law_compiled_policy_selects_as_stored(
    name: Seq<char>,
    matchers: Vec<api::RateLimitMatcher>,
    key_parts: Result<Vec<api::RateLimitKeyPart>, String>,
    quota_limit: i64,
    quota_window_seconds: i64,
    r: Result<RateLimitPolicy, PolicyCompileError>,
    ctx: RateLimitRequestContext,
)
    requires
        compile_outcome(name, Ok(matchers), key_parts, quota_limit, quota_window_seconds, r),
        r is Ok,
    ensures
        policy_applies(r->Ok_0, ctx) <==> forall|j: int|
            0 <= j < matchers@.len() ==> stored_matcher_lists(#[trigger] matchers@[j], ctx),
{
    let p = r->Ok_0;
    assert forall|j: int| 0 <= j < matchers@.len() implies (matcher_matches(
        #[trigger] p.matchers@[j],
        ctx,
    ) <==> stored_matcher_lists(matchers@[j], ctx)) by {
        law_compiled_matcher_selects_as_stored(matchers@[j], p.matchers@[j], ctx);
    }
    if policy_applies(p, ctx) {
        assert forall|j: int| 0 <= j < matchers@.len() implies stored_matcher_lists(
            #[trigger] matchers@[j],
            ctx,
        ) by {
            assert(matcher_matches(p.matchers@[j], ctx));
        }
    }
    if forall|j: int| 0 <= j < matchers@.len() ==> stored_matcher_lists(#[trigger] matchers@[j], ctx) {
        assert forall|j: int| 0 <= j < p.matchers@.len() implies matcher_matches(
            #[trigger] p.matchers@[j],
            ctx,
        ) by {
            assert(stored_matcher_lists(matchers@[j], ctx));
        }
    }
}

} // verus!
