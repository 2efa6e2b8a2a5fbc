//! The access token: the data carrier that identifies the querying
//! principal.
//!
//! The token is produced and consumed by surrounding layers; the read path
//! only carries it. Collection sets and permission sets are held as plain
//! bit sets (one bit per collection or permission), keyed by account id.

use vstd::prelude::*;

verus! {

/// Identity and authorization data of the querying principal.
#[derive(Clone, Debug)]
pub struct AccessToken {
    /// The account the principal primarily acts as.
    pub primary_id: u32,
    /// The tenant the account belongs to, if any.
    pub tenant_id: Option<u32>,
    /// Accounts whose groups the principal is a member of.
    pub member_of: Vec<u32>,
    /// Shared accounts, each with the bit set of collections the principal
    /// may access.
    pub access_to: Vec<(u32, u64)>,
    /// Login name.
    pub name: String,
    /// Human-readable description.
    pub description: Option<String>,
    /// Storage quota in bytes; zero means unlimited.
    pub quota: u64,
    /// Granted permissions, as blocks of 64 bits.
    pub permissions: Vec<u64>,
}

impl Default for AccessToken {
    /// The empty token: no identity, no memberships, no grants.
    fn default() -> (r: Self)
        ensures
            r.primary_id == 0,
            r.tenant_id is None,
            r.member_of@ =~= Seq::<u32>::empty(),
            r.access_to@ =~= Seq::<(u32, u64)>::empty(),
            r.name@ =~= Seq::<char>::empty(),
            r.description is None,
            r.quota == 0,
            r.permissions@ =~= Seq::<u64>::empty(),
    {
        AccessToken {
            primary_id: 0,
            tenant_id: None,
            member_of: Vec::new(),
            access_to: Vec::new(),
            name: String::new(),
            description: None,
            quota: 0,
            permissions: Vec::new(),
        }
    }
}

} // verus!
