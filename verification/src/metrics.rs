//! Counters of rate limited requests, per policy and per operation.

use vstd::prelude::*;

verus! {

/// The count of requests that one policy refused for one operation.
#[derive(Debug, PartialEq, Eq)]
pub struct RateLimitedRequest {
    pub policy_id: String,
    pub operation_id: String,
    pub datum: u64,
}

impl Clone for RateLimitedRequest {
    fn clone(&self) -> (r: Self)
        ensures
            r.policy_id@ == self.policy_id@,
            r.operation_id@ == self.operation_id@,
            r.datum == self.datum,
    {
        RateLimitedRequest {
            policy_id: self.policy_id.clone(),
            operation_id: self.operation_id.clone(),
            datum: self.datum,
        }
    }
}

/// A counter's key: the policy and the operation.
pub open spec fn counter_key(r: RateLimitedRequest) -> (Seq<char>, Seq<char>) {
    (r.policy_id@, r.operation_id@)
}

/// No two counters in `v` have the same key.
pub open spec fn keys_distinct(v: Seq<RateLimitedRequest>) -> bool {
    forall|i: int, j: int|
        0 <= i < v.len() && 0 <= j < v.len() && i != j ==> counter_key(#[trigger] v[i])
            != counter_key(#[trigger] v[j])
}

/// The counters `v` as a map from key to count.
pub open spec fn counts(v: Seq<RateLimitedRequest>) -> Map<(Seq<char>, Seq<char>), u64>
    decreases v.len(),
{
    if v.len() == 0 {
        Map::empty()
    } else {
        counts(v.drop_last()).insert(counter_key(v.last()), v.last().datum)
    }
}

/// The counters of the requests that the rate limiter refused, with the
/// service that refused them (its id and name).
pub struct RateLimitMetrics {
    nexus_id: u128,
    service_name: String,
    limited_requests: Vec<RateLimitedRequest>,
}

impl View for RateLimitMetrics {
    type V = Map<(Seq<char>, Seq<char>), u64>;

    closed spec fn view(&self) -> Map<(Seq<char>, Seq<char>), u64> {
        counts(self.limited_requests@)
    }
}

proof fn lemma_counts_absent(v: Seq<RateLimitedRequest>, k: (Seq<char>, Seq<char>))
    requires
        forall|i: int| 0 <= i < v.len() ==> counter_key(#[trigger] v[i]) != k,
    ensures
        !counts(v).contains_key(k),
    decreases v.len(),
{
    if v.len() > 0 {
        assert forall|i: int| 0 <= i < v.drop_last().len() implies counter_key(
            #[trigger] v.drop_last()[i],
        ) != k by {
            assert(v.drop_last()[i] == v[i]);
        }
        lemma_counts_absent(v.drop_last(), k);
        assert(v.last() == v[v.len() - 1]);
    }
}

proof fn lemma_counts_at(v: Seq<RateLimitedRequest>, i: int)
    requires
        keys_distinct(v),
        0 <= i < v.len(),
    ensures
        counts(v).contains_key(counter_key(v[i])),
        counts(v)[counter_key(v[i])] == v[i].datum,
    decreases v.len(),
{
    if i < v.len() - 1 {
        assert(v.drop_last()[i] == v[i]);
        assert(keys_distinct(v.drop_last())) by {
            assert forall|a: int, b: int|
                0 <= a < v.drop_last().len() && 0 <= b < v.drop_last().len() && a != b
                implies counter_key(#[trigger] v.drop_last()[a]) != counter_key(#[trigger] v.drop_last()[b]) by {
                assert(v.drop_last()[a] == v[a]);
                assert(v.drop_last()[b] == v[b]);
            }
        }
        lemma_counts_at(v.drop_last(), i);
        assert(counter_key(v[v.len() - 1]) != counter_key(v[i]));
    }
}

proof fn lemma_counts_update(v: Seq<RateLimitedRequest>, i: int, x: RateLimitedRequest)
    requires
        keys_distinct(v),
        0 <= i < v.len(),
        counter_key(x) == counter_key(v[i]),
    ensures
        counts(v.update(i, x)) == counts(v).insert(counter_key(x), x.datum),
    decreases v.len(),
{
    let w = v.update(i, x);
    if i == v.len() - 1 {
        assert(w.drop_last() =~= v.drop_last());
        assert(counts(w) =~= counts(v).insert(counter_key(x), x.datum));
    } else {
        assert(w.drop_last() =~= v.drop_last().update(i, x));
        assert(keys_distinct(v.drop_last())) by {
            assert forall|a: int, b: int|
                0 <= a < v.drop_last().len() && 0 <= b < v.drop_last().len() && a != b
                implies counter_key(#[trigger] v.drop_last()[a]) != counter_key(#[trigger] v.drop_last()[b]) by {
                assert(v.drop_last()[a] == v[a]);
                assert(v.drop_last()[b] == v[b]);
            }
        }
        assert(v.drop_last()[i] == v[i]);
        lemma_counts_update(v.drop_last(), i, x);
        assert(counter_key(v[v.len() - 1]) != counter_key(v[i]));
        assert(w.last() == v.last());
        assert(counts(w) =~= counts(v).insert(counter_key(x), x.datum));
    }
}

impl RateLimitMetrics {
    #[verifier::type_invariant]
    spec fn well_formed(self) -> bool {
        keys_distinct(self.limited_requests@)
    }

    /// Metrics for the service `service_name` of the instance `nexus_id`,
    /// with no counters.
    pub fn new(nexus_id: u128, service_name: &str) -> (r: Self)
        ensures
            r@ == Map::<(Seq<char>, Seq<char>), u64>::empty(),
            r.nexus_id() == nexus_id,
            r.service_name()@ == service_name@,
    {
        RateLimitMetrics {
            nexus_id,
            service_name: service_name.to_owned(),
            limited_requests: Vec::new(),
        }
    }

    pub closed spec fn nexus_id(&self) -> u128 {
        self.nexus_id
    }

    pub closed spec fn service_name(&self) -> String {
        self.service_name
    }

    /// The id of the instance whose service refused the requests.
    pub fn target_id(&self) -> (r: u128)
        ensures
            r == self.nexus_id(),
    {
        self.nexus_id
    }

    /// The name of the service that refused the requests.
    pub fn target_name(&self) -> (r: &str)
        ensures
            r@ == self.service_name()@,
    {
        self.service_name.as_str()
    }

    /// The count of requests that `policy_id` refused for `operation_id`,
    /// if any was recorded.
    pub fn limited_request_count(&self, policy_id: &str, operation_id: &str) -> (r: Option<u64>)
        ensures
            r == (if self@.contains_key((policy_id@, operation_id@)) {
                Some(self@[(policy_id@, operation_id@)])
            } else {
                None::<u64>
            }),
    {
        proof {
            use_type_invariant(self);
        }
        let policy = policy_id.to_owned();
        let operation = operation_id.to_owned();
        let mut i: usize = 0;
        while i < self.limited_requests.len()
            invariant
                policy@ == policy_id@,
                operation@ == operation_id@,
                i <= self.limited_requests@.len(),
                keys_distinct(self.limited_requests@),
                forall|j: int|
                    0 <= j < i ==> counter_key(#[trigger] self.limited_requests@[j]) != (
                        policy@,
                        operation@,
                    ),
            decreases self.limited_requests@.len() - i,
        {
            if self.limited_requests[i].policy_id == policy
                && self.limited_requests[i].operation_id == operation {
                proof {
                    lemma_counts_at(self.limited_requests@, i as int);
                }
                return Some(self.limited_requests[i].datum);
            }
            i = i + 1;
        }
        proof {
            lemma_counts_absent(self.limited_requests@, (policy@, operation@));
        }
        None
    }

    /// Counts one request refused by `policy_id` for `operation_id`. A
    /// request refused by several policies is counted once for each.
    pub fn record_limited_request(&mut self, policy_id: &str, operation_id: &str)
        requires
            old(self)@.contains_key((policy_id@, operation_id@)) ==> old(self)@[(
                policy_id@,
                operation_id@,
            )] < u64::MAX,
        ensures
            final(self)@ == old(self)@.insert(
                (policy_id@, operation_id@),
                (if old(self)@.contains_key((policy_id@, operation_id@)) {
                    (old(self)@[(policy_id@, operation_id@)] + 1) as u64
                } else {
                    1u64
                }),
            ),
            final(self).nexus_id() == old(self).nexus_id(),
            final(self).service_name() == old(self).service_name(),
    {
        proof {
            use_type_invariant(&*self);
        }
        let policy = policy_id.to_owned();
        let operation = operation_id.to_owned();
        let mut i: usize = 0;
        while i < self.limited_requests.len()
            invariant
                policy@ == policy_id@,
                operation@ == operation_id@,
                *self == *old(self),
                old(self)@.contains_key((policy_id@, operation_id@)) ==> old(self)@[(policy_id@, operation_id@)] < u64::MAX,
                i <= self.limited_requests@.len(),
                keys_distinct(self.limited_requests@),
                forall|j: int|
                    0 <= j < i ==> counter_key(#[trigger] self.limited_requests@[j]) != (
                        policy@,
                        operation@,
                    ),
            decreases self.limited_requests@.len() - i,
        {
            if self.limited_requests[i].policy_id == policy
                && self.limited_requests[i].operation_id == operation {
                let ghost v = self.limited_requests@;
                proof {
                    lemma_counts_at(v, i as int);
                }
                let updated = RateLimitedRequest {
                    policy_id: policy,
                    operation_id: operation,
                    datum: self.limited_requests[i].datum + 1,
                };
                proof {
                    lemma_counts_update(v, i as int, updated);
                    assert(keys_distinct(v.update(i as int, updated))) by {
                        assert forall|a: int, b: int|
                            0 <= a < v.len() && 0 <= b < v.len() && a != b implies counter_key(
                                #[trigger] v.update(i as int, updated)[a],
                            ) != counter_key(#[trigger] v.update(i as int, updated)[b]) by {
                            assert(counter_key(v.update(i as int, updated)[a]) == counter_key(v[a]));
                            assert(counter_key(v.update(i as int, updated)[b]) == counter_key(v[b]));
                        }
                    }
                }
                let mut requests: Vec<RateLimitedRequest> = Vec::new();
        std::mem::swap(&mut requests, &mut self.limited_requests);
                requests.set(i, updated);
                assert(requests@ == v.update(i as int, updated));
                self.limited_requests = requests;
                return;
            }
            i = i + 1;
        }
        let ghost v = self.limited_requests@;
        proof {
            lemma_counts_absent(v, (policy@, operation@));
        }
        let added = RateLimitedRequest { policy_id: policy, operation_id: operation, datum: 1 };
        proof {
            assert(keys_distinct(v.push(added))) by {
                assert forall|a: int, b: int|
                    0 <= a < v.len() + 1 && 0 <= b < v.len() + 1 && a != b implies counter_key(
                        #[trigger] v.push(added)[a],
                    ) != counter_key(#[trigger] v.push(added)[b]) by {
                    if a < v.len() {
                        assert(v.push(added)[a] == v[a]);
                    }
                    if b < v.len() {
                        assert(v.push(added)[b] == v[b]);
                    }
                }
            }
            assert(v.push(added).drop_last() =~= v);
        }
        let mut requests: Vec<RateLimitedRequest> = Vec::new();
        std::mem::swap(&mut requests, &mut self.limited_requests);
        requests.push(added);
        self.limited_requests = requests;
    }

    /// The counters: one entry per policy and operation for which a refused
    /// request was recorded, with its count.
    pub fn produce(&self) -> (r: Vec<RateLimitedRequest>)
        ensures
            keys_distinct(r@),
            counts(r@) == self@,
    {
        proof {
            use_type_invariant(self);
        }
        let mut r: Vec<RateLimitedRequest> = Vec::new();
        let mut i: usize = 0;
        while i < self.limited_requests.len()
            invariant
                i <= self.limited_requests@.len(),
                keys_distinct(self.limited_requests@),
                r@.len() == i,
                forall|j: int|
                    0 <= j < i ==> counter_key(#[trigger] r@[j]) == counter_key(
                        self.limited_requests@[j],
                    ) && r@[j].datum == self.limited_requests@[j].datum,
                counts(r@) == counts(self.limited_requests@.take(i as int)),
            decreases self.limited_requests@.len() - i,
        {
            let ghost before = r@;
            r.push(self.limited_requests[i].clone());
            proof {
                assert(r@.drop_last() =~= before);
                assert(self.limited_requests@.take(i + 1).drop_last() =~= self.limited_requests@.take(i as int));
            }
            i = i + 1;
        }
        proof {
            assert(self.limited_requests@.take(i as int) =~= self.limited_requests@);
            assert forall|a: int, b: int|
                0 <= a < r@.len() && 0 <= b < r@.len() && a != b implies counter_key(#[trigger] r@[a])
                    != counter_key(#[trigger] r@[b]) by {
                assert(counter_key(self.limited_requests@[a]) != counter_key(self.limited_requests@[b]));
            }
        }
        r
    }
}

} // verus!
