//! A fixed-size sketch of how much each tenant consumed recently.
//!
//! Every tenant is hashed onto one of a fixed number of saturating
//! counters. Each record adds to the tenant's counter and to a running
//! total; after a full window of records every counter and the total are
//! halved, so old consumption fades. Tenants that share a counter are
//! accounted together.

use crate::tenant::TenantId;
use vstd::prelude::*;

verus! {

/// The number of counters.
pub const N_BUCKETS: usize = 262144;

/// The number of records after which the sketch decays.
pub const WINDOW: u16 = 65535;

/// A tenant's estimated share of recent consumption: `part` out of `whole`.
#[derive(Debug, Clone, Copy, PartialEq, Eq, Structural)]
pub struct Share {
    pub part: u32,
    pub whole: u64,
}

impl Share {
    /// The share as a fraction of `scale`, rounded down; zero when nothing
    /// was consumed at all.
    pub open spec fn scaled(self, scale: u32) -> int {
        if self.whole == 0 {
            0
        } else {
            (self.part * scale) / (self.whole as int)
        }
    }

    /// The share lies between zero and one.
    pub open spec fn wf(self) -> bool {
        self.part <= self.whole
    }

    /// `self` is at most `other`, as fractions with non-zero wholes.
    pub open spec fn le(self, other: Share) -> bool {
        self.part * other.whole <= other.part * self.whole
    }

    /// Computes the share in units of one `scale`-th.
    pub fn parts_of(&self, scale: u32) -> (r: u64)
        requires
            self.wf(),
        ensures
            r == self.scaled(scale),
            r <= scale,
    {
        if self.whole == 0 {
            0
        } else {
            let part: u64 = self.part as u64;
            let scale64: u64 = scale as u64;
            proof {
                assert(part * scale64 <= 0xffff_ffff * 0xffff_ffff) by (nonlinear_arith)
                    requires
                        part <= 0xffff_ffff,
                        scale64 <= 0xffff_ffff,
                ;
                assert((part * scale64) / (self.whole as int) <= scale64) by (nonlinear_arith)
                    requires
                        part <= self.whole,
                        self.whole > 0,
                        scale64 >= 0,
                        part >= 0,
                ;
            }
            part * scale64 / self.whole
        }
    }
}

/// The sum of all counters.
pub open spec fn sum(s: Seq<u32>) -> nat
    decreases s.len(),
{
    if s.len() == 0 {
        0
    } else {
        sum(s.drop_last()) + s.last() as nat
    }
}

/// The counter that a tenant is accounted on.
pub open spec fn bucket_of(tenant_id: TenantId) -> int {
    tenant_id.id as int % N_BUCKETS as int
}

/// Addition that stops at the largest counter value.
pub open spec fn saturating(bucket: u32, amount: u16) -> u32 {
    if bucket + amount > u32::MAX {
        u32::MAX
    } else {
        (bucket + amount) as u32
    }
}

/// The abstract state of a sketch.
pub struct Sketch {
    pub buckets: Seq<u32>,
    pub total: nat,
    pub increments: nat,
}

impl Sketch {
    /// A sketch in which nothing was recorded.
    pub open spec fn fresh() -> Sketch {
        Sketch { buckets: Seq::new(N_BUCKETS as nat, |i: int| 0u32), total: 0, increments: 0 }
    }

    /// The counters never add up to more than the total, and the total
    /// stays within what one window can add to a halved total.
    pub open spec fn wf(self) -> bool {
        &&& self.buckets.len() == N_BUCKETS
        &&& sum(self.buckets) <= self.total
        &&& self.increments < WINDOW
        &&& self.total <= WINDOW * WINDOW + self.increments * WINDOW
    }

    /// The state after `amount` was added for `tenant_id`, before any decay.
    pub open spec fn added(self, tenant_id: TenantId, amount: u16) -> Sketch {
        let b = bucket_of(tenant_id);
        Sketch {
            buckets: self.buckets.update(b, saturating(self.buckets[b], amount)),
            total: self.total + amount as nat,
            increments: self.increments + 1,
        }
    }

    /// The state after every counter and the total were halved.
    pub open spec fn decayed(self) -> Sketch {
        Sketch {
            buckets: Seq::new(self.buckets.len(), |i: int| self.buckets[i] / 2),
            total: self.total / 2,
            increments: 0,
        }
    }

    /// Whether the next record completes a window.
    pub open spec fn decays_next(self) -> bool {
        self.increments + 1 == WINDOW
    }

    /// The state after one record.
    pub open spec fn recorded(self, tenant_id: TenantId, amount: u16) -> Sketch {
        if self.decays_next() {
            self.added(tenant_id, amount).decayed()
        } else {
            self.added(tenant_id, amount)
        }
    }

    /// The share that the sketch attributes to a tenant.
    pub open spec fn share(self, tenant_id: TenantId) -> Share {
        Share { part: self.buckets[bucket_of(tenant_id)], whole: self.total as u64 }
    }
}

/// Replacing one counter changes the sum by the difference.
pub proof fn lemma_sum_update(s: Seq<u32>, i: int, v: u32)
    requires
        0 <= i < s.len(),
    ensures
        sum(s.update(i, v)) == sum(s) - s[i] + v,
        s[i] <= sum(s),
    decreases s.len(),
{
    if i == s.len() - 1 {
        assert(s.update(i, v).drop_last() =~= s.drop_last());
    } else {
        lemma_sum_update(s.drop_last(), i, v);
        assert(s.update(i, v).drop_last() =~= s.drop_last().update(i, v));
    }
}

/// Halving every counter at least halves the sum.
pub proof fn lemma_sum_halved(s: Seq<u32>, h: Seq<u32>)
    requires
        h.len() == s.len(),
        forall|i: int| 0 <= i < s.len() ==> h[i] == s[i] / 2,
    ensures
        2 * sum(h) <= sum(s),
    decreases s.len(),
{
    if s.len() > 0 {
        lemma_sum_halved(s.drop_last(), h.drop_last());
    }
}

/// Counters that are all zero add up to zero.
pub proof fn lemma_sum_zeros(s: Seq<u32>)
    requires
        forall|i: int| 0 <= i < s.len() ==> s[i] == 0,
    ensures
        sum(s) == 0,
    decreases s.len(),
{
    if s.len() > 0 {
        lemma_sum_zeros(s.drop_last());
    }
}

/// One record keeps the sketch well-formed, and the share it reports lies
/// between zero and one.
pub proof fn lemma_recorded_wf(s: Sketch, tenant_id: TenantId, amount: u16)
    requires
        s.wf(),
    ensures
        s.added(tenant_id, amount).total <= 2 * WINDOW * WINDOW,
        sum(s.added(tenant_id, amount).buckets) <= s.added(tenant_id, amount).total,
        s.recorded(tenant_id, amount).wf(),
        s.recorded(tenant_id, amount).share(tenant_id).wf(),
        s.recorded(tenant_id, amount).share(tenant_id).whole == s.recorded(tenant_id, amount).total,
{
    let b = bucket_of(tenant_id);
    let a = s.added(tenant_id, amount);
    lemma_sum_update(s.buckets, b, saturating(s.buckets[b], amount));
    assert(s.increments * WINDOW + amount <= (s.increments + 1) * WINDOW) by (nonlinear_arith)
        requires
            amount <= WINDOW,
    ;
    assert((s.increments + 1) * WINDOW <= WINDOW * WINDOW) by (nonlinear_arith)
        requires
            s.increments + 1 <= WINDOW,
    ;
    if s.decays_next() {
        lemma_sum_halved(a.buckets, a.decayed().buckets);
    }
    let r = s.recorded(tenant_id, amount);
    lemma_sum_update(r.buckets, b, r.buckets[b]);
}

/// While a tenant keeps recording and neither a decay nor a saturated
/// counter intervenes, its share does not decrease.
pub proof fn lemma_share_grows(s: Sketch, tenant_id: TenantId, amount: u16)
    requires
        s.wf(),
        !s.decays_next(),
        s.buckets[bucket_of(tenant_id)] + amount <= u32::MAX,
    ensures
        s.share(tenant_id).le(s.recorded(tenant_id, amount).share(tenant_id)),
{
    let b = bucket_of(tenant_id);
    lemma_sum_update(s.buckets, b, s.buckets[b]);
    lemma_recorded_wf(s, tenant_id, amount);
    let p = s.buckets[b] as int;
    let t = s.total as int;
    let a = amount as int;
    assert(p * (t + a) <= (p + a) * t) by (nonlinear_arith)
        requires
            p <= t,
            a >= 0,
            p >= 0,
    ;
}

/// The utilization sketch.
#[derive(Debug)]
pub struct UtilizationSketch {
    buckets: Vec<u32>,
    total: u64,
    increments: u16,
}

impl View for UtilizationSketch {
    type V = Sketch;

    closed spec fn view(&self) -> Sketch {
        Sketch {
            buckets: self.buckets@,
            total: self.total as nat,
            increments: self.increments as nat,
        }
    }
}

impl Default for UtilizationSketch {
    fn default() -> (sketch: Self)
        ensures
            sketch.wf(),
            sketch@ == Sketch::fresh(),
    {
        UtilizationSketch::new()
    }
}

impl UtilizationSketch {
    pub open spec fn wf(&self) -> bool {
        self@.wf()
    }

    /// A sketch in which nothing was recorded.
    pub fn new() -> (sketch: UtilizationSketch)
        ensures
            sketch.wf(),
            sketch@ == Sketch::fresh(),
    {
        let zero: u32 = 0;
        let buckets = vec![zero; N_BUCKETS];
        proof {
            lemma_sum_zeros(buckets@);
            assert(buckets@ =~= Sketch::fresh().buckets);
        }
        UtilizationSketch { buckets, total: 0, increments: 0 }
    }

    /// The running total of what was recorded and has not decayed.
    pub fn total(&self) -> (total: u64)
        ensures
            total == self@.total,
    {
        self.total
    }

    /// Adds `utilization` to the tenant's counter and to the total, lets
    /// the sketch decay when this record completes a window, and returns
    /// the tenant's share of the total afterwards.
    pub fn update_and_get_relative_proportion(&mut self, tenant_id: TenantId, utilization: u16) -> (share: Share)
        requires
            old(self).wf(),
        ensures
            final(self).wf(),
            final(self)@ == old(self)@.recorded(tenant_id, utilization),
            share == final(self)@.share(tenant_id),
            share.wf(),
    {
        proof {
            lemma_recorded_wf(self@, tenant_id, utilization);
        }
        self.total = self.total + utilization as u64;
        let bucket: usize = (tenant_id.id % (N_BUCKETS as u64)) as usize;
        let before: u32 = self.buckets[bucket];
        let after: u32 = if before > u32::MAX - utilization as u32 {
            u32::MAX
        } else {
            before + utilization as u32
        };
        self.buckets.set(bucket, after);
        self.increments = self.increments + 1;
        assert(self@ =~= old(self)@.added(tenant_id, utilization));
        if self.increments == WINDOW {
            self.decrement();
        }
        Share { part: self.buckets[bucket], whole: self.total }
    }

    /// Halves every counter and the total, and starts a new window.
    pub fn decrement(&mut self)
        requires
            old(self)@.buckets.len() == N_BUCKETS,
        ensures
            final(self)@ == old(self)@.decayed(),
    {
        let n: usize = self.buckets.len();
        let mut i: usize = 0;
        while i < n
            invariant
                n == self.buckets.len(),
                n == old(self).buckets.len(),
                0 <= i <= n,
                self.total == old(self).total,
                forall|k: int| 0 <= k < i ==> self.buckets@[k] == old(self).buckets@[k] / 2,
                forall|k: int| i <= k < n ==> self.buckets@[k] == old(self).buckets@[k],
            decreases n - i,
        {
            let halved: u32 = self.buckets[i] / 2;
            self.buckets.set(i, halved);
            i = i + 1;
        }
        self.total = self.total / 2;
        self.increments = 0;
        assert(self@.buckets =~= old(self)@.decayed().buckets);
    }
}

} // verus!
