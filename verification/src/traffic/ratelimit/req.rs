//! A request for quota: the service and method it is for, its request labels, and the
//! amounts to reserve per resource.

use vstd::prelude::*;
use vstd::string::{StrSliceExecFns, StringExecFns};
use crate::model::{ErrorCode, PoleError, TrafficLabel};

verus! {

/// The name of a resource, as `Debug` writes it.
pub open spec fn resource_name(r: QuotaResource) -> Seq<char> {
    match r {
        QuotaResource::Qps => "Qps"@,
        QuotaResource::Token => "Token"@,
        QuotaResource::Concurrency => "Concurrency"@,
    }
}

pub fn resource_name_string(r: QuotaResource) -> (s: String)
    ensures
        s@ == resource_name(r),
{
    match r {
        QuotaResource::Qps => String::from_str("Qps"),
        QuotaResource::Token => String::from_str("Token"),
        QuotaResource::Concurrency => String::from_str("Concurrency"),
    }
}

/// A resource quota is reserved in.
#[derive(Clone, Copy, Debug, Eq, Hash, PartialEq, Structural)]
pub enum QuotaResource {
    Qps,
    Token,
    Concurrency,
}

/// An amount of one resource.
#[derive(Clone, Copy, Debug, Eq, PartialEq, Structural)]
pub struct QuotaAmount {
    pub resource: QuotaResource,
    pub amount: u32,
}

/// A request for quota.
#[derive(Clone, Debug)]
pub struct QuotaRequest {
    pub flow_id: String,
    /// How long the request may wait, in milliseconds.
    pub timeout_ms: u64,
    pub service: String,
    pub namespace: String,
    pub method: String,
    /// The labels of the call the quota is for.
    pub labels: Vec<TrafficLabel>,
    /// The most that is reserved, per resource.
    pub quotas: Vec<QuotaAmount>,
    /// How long the lease may live, whole seconds and nanoseconds (as a `Duration` gives
    /// them); the caller settles it before then.
    pub lease_ttl_secs: u64,
    pub lease_ttl_nanos: u32,
}

/// How long a lease may live, in nanoseconds.
pub open spec fn spec_ttl_nanos(req: QuotaRequest) -> int {
    req.lease_ttl_secs as int * 1_000_000_000 + req.lease_ttl_nanos as int
}

/// How long a lease may live, in milliseconds, rounded up.
pub open spec fn spec_ttl_ms(req: QuotaRequest) -> int {
    (spec_ttl_nanos(req) + 999_999) / 1_000_000
}

/// The longest lease the quota protocol carries: `u32::MAX` seconds, in nanoseconds.
pub open spec fn max_lease_ttl_nanos() -> int {
    (u32::MAX as int) * 1_000_000_000
}

/// The first position where an amount is zero or repeats an earlier resource.
pub open spec fn first_bad_quota(quotas: Seq<QuotaAmount>) -> Option<int> {
    if exists|k: int| 0 <= k < quotas.len() && bad_at(quotas, k) {
        Some(choose|k: int| 0 <= k < quotas.len() && bad_at(quotas, k) && forall|l: int| 0 <= l < k ==> !bad_at(quotas, l))
    } else {
        None
    }
}

/// Whether the amount at `k` is zero or repeats an earlier resource.
pub open spec fn bad_at(quotas: Seq<QuotaAmount>, k: int) -> bool {
    quotas[k].amount == 0 || exists|i: int| 0 <= i < k && (#[trigger] quotas[i]).resource == quotas[k].resource
}

/// Why a request is invalid, checked in order; `None` for a valid request.
pub open spec fn spec_invalid_reason(req: QuotaRequest) -> Option<Seq<char>> {
    if req.service@.len() == 0 {
        Some("service is empty"@)
    } else if req.namespace@.len() == 0 {
        Some("namespace is empty"@)
    } else if req.quotas@.len() == 0 {
        Some("quota request must contain at least one resource"@)
    } else if exists|k: int| 0 <= k < req.quotas@.len() && bad_at(req.quotas@, k) {
        let k = first_bad_quota(req.quotas@).unwrap();
        if req.quotas@[k].amount == 0 {
            Some("quota amount must be greater than zero"@)
        } else {
            Some("duplicate quota resource "@ + resource_name(req.quotas@[k].resource))
        }
    } else if spec_ttl_nanos(req) == 0 {
        Some("quota lease ttl must be greater than zero"@)
    } else if spec_ttl_nanos(req) > max_lease_ttl_nanos() {
        Some("quota lease ttl exceeds the protocol limit"@)
    } else {
        None
    }
}

/// The amount reserved for a resource: that of the first amount for it.
pub open spec fn spec_amount_for(quotas: Seq<QuotaAmount>, resource: QuotaResource) -> Option<u32>
    decreases quotas.len(),
{
    if quotas.len() == 0 {
        None
    } else if quotas[0].resource == resource {
        Some(quotas[0].amount)
    } else {
        spec_amount_for(quotas.drop_first(), resource)
    }
}

impl QuotaRequest {
    /// Accepts a request with a service, a namespace, at least one amount, every amount
    /// above zero and for a distinct resource, and a lease time within the protocol's range.
    pub fn check_valid(&self) -> (r: Result<(), PoleError>)
        ensures
            match spec_invalid_reason(*self) {
                None => r is Ok,
                Some(m) => r matches Err(e) && e.code == ErrorCode::ApiInvalidArgument && e.message@ == m,
            },
    {
        if self.service.as_str().unicode_len() == 0 {
            return Err(PoleError::new(ErrorCode::ApiInvalidArgument, String::from_str("service is empty")));
        }
        if self.namespace.as_str().unicode_len() == 0 {
            return Err(PoleError::new(ErrorCode::ApiInvalidArgument, String::from_str("namespace is empty")));
        }
        if self.quotas.len() == 0 {
            return Err(PoleError::new(
                ErrorCode::ApiInvalidArgument,
                String::from_str("quota request must contain at least one resource"),
            ));
        }
        let ghost q = self.quotas@;
        let mut k: usize = 0;
        while k < self.quotas.len()
            invariant
                k <= q.len(),
                q == self.quotas@,
                forall|l: int| 0 <= l < k ==> !bad_at(q, l),
                self.service@.len() > 0,
                self.namespace@.len() > 0,
                q.len() > 0,
            decreases q.len() - k,
        {
            let quota = self.quotas[k];
            let mut dup = false;
            let mut i: usize = 0;
            while i < k
                invariant
                    i <= k < q.len(),
                    q == self.quotas@,
                    quota == q[k as int],
                    dup <==> exists|j: int| 0 <= j < i && (#[trigger] q[j]).resource == q[k as int].resource,
                decreases k - i,
            {
                if self.quotas[i].resource == quota.resource {
                    dup = true;
                }
                i = i + 1;
            }
            if quota.amount == 0 || dup {
                assert(bad_at(q, k as int));
                proof {
                    let f = first_bad_quota(q);
                    assert(f.is_some());
                    let w = f.unwrap();
                    assert(0 <= w < q.len() && bad_at(q, w) && forall|l: int| 0 <= l < w ==> !bad_at(q, l));
                    if w < k {
                        assert(!bad_at(q, w));
                    }
                    if w > k {
                        assert(!bad_at(q, k as int));
                    }
                    assert(w == k);
                    assert(exists|kk: int| 0 <= kk < self.quotas@.len() && bad_at(self.quotas@, kk));
                    assert(first_bad_quota(self.quotas@) == Some(k as int));
                }
                if quota.amount == 0 {
                    return Err(PoleError::new(
                        ErrorCode::ApiInvalidArgument,
                        String::from_str("quota amount must be greater than zero"),
                    ));
                }
                let mut m = String::from_str("duplicate quota resource ");
                m.append(resource_name_string(quota.resource).as_str());
                return Err(PoleError::new(ErrorCode::ApiInvalidArgument, m));
            }
            k = k + 1;
        }
        let ttl_nanos: u128 = (self.lease_ttl_secs as u128) * 1_000_000_000 + self.lease_ttl_nanos as u128;
        if ttl_nanos == 0 {
            return Err(PoleError::new(
                ErrorCode::ApiInvalidArgument,
                String::from_str("quota lease ttl must be greater than zero"),
            ));
        }
        if ttl_nanos > 4294967295_000_000_000u128 {
            return Err(PoleError::new(
                ErrorCode::ApiInvalidArgument,
                String::from_str("quota lease ttl exceeds the protocol limit"),
            ));
        }
        Ok(())
    }

    /// How long the lease may live, in milliseconds, rounded up.
    pub fn lease_ttl_ms(&self) -> (r: u128)
        ensures
            r == spec_ttl_ms(*self),
    {
        ((self.lease_ttl_secs as u128) * 1_000_000_000 + self.lease_ttl_nanos as u128 + 999_999) / 1_000_000
    }

    /// The amount reserved for a resource.
    pub fn amount_for(&self, resource: QuotaResource) -> (r: Option<u32>)
        ensures
            r == spec_amount_for(self.quotas@, resource),
    {
        let mut i: usize = 0;
        assert(self.quotas@.subrange(0, self.quotas@.len() as int) =~= self.quotas@);
        while i < self.quotas.len()
            invariant
                i <= self.quotas@.len(),
                spec_amount_for(self.quotas@, resource)
                    == spec_amount_for(self.quotas@.subrange(i as int, self.quotas@.len() as int), resource),
            decreases self.quotas@.len() - i,
        {
            let ghost rest = self.quotas@.subrange(i as int, self.quotas@.len() as int);
            assert(rest.drop_first() =~= self.quotas@.subrange(i + 1, self.quotas@.len() as int));
            if self.quotas[i].resource == resource {
                return Some(self.quotas[i].amount);
            }
            i = i + 1;
        }
        None
    }
}

} // verus!
