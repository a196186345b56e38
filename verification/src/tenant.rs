//! Tenant identities and work classifications.

use std::collections::hash_map::DefaultHasher;
use std::hash::Hasher;
use vstd::prelude::*;
use vstd::std_specs::hash::DefaultHasherAdditionalSpecFns;

verus! {

/// An opaque 64-bit identity of a logical work submitter.
#[derive(Debug, Clone, Copy, PartialEq, Eq, Structural, Hash)]
pub struct TenantId {
    pub id: u64,
}

/// The identity that hashing `key` yields.
pub open spec fn tenant_hash(key: Seq<u8>) -> u64 {
    DefaultHasher::spec_finish(seq![key])
}

impl TenantId {
    /// Derives a tenant identity by hashing the caller's key.
    pub fn new(key: &[u8]) -> (tenant: TenantId)
        ensures
            tenant.id == tenant_hash(key@),
    {
        let mut hasher = DefaultHasher::new();
        hasher.write(key);
        proof {
            assert(hasher@ =~= seq![key@]);
        }
        TenantId { id: hasher.finish() }
    }
}

/// The kind of work a submission performs; an input to priority only.
#[derive(Debug, Clone, Copy, PartialEq, Eq, Structural, Hash)]
pub enum Classification {
    Accept,
    Read,
    Compute,
    Write,
}

} // verus!
