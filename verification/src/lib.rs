//! Fabric-scoped access-control engine for a smart-device communication stack.
//!
//! The engine decides, for every incoming request, whether an authenticated
//! peer (the accessor) may perform an operation on an addressable object
//! (endpoint/cluster pair), scoped per administrative domain (fabric).
//!
//! Components, leaf to root:
//! - [`cat`]: codec for versioned 32-bit group credentials (CAT) packed into
//!   64-bit subject identifiers with a reserved high-bit prefix;
//! - [`access`]: privilege levels and the privilege-comparison policy;
//! - [`accessor`]: the authenticated peer context and its subject set;
//! - [`entry`]: one authorization rule and its matching predicates;
//! - [`store`]: the fabric-scoped fixed-capacity entry table with CRUD and
//!   the authorization decision;
//! - [`codec`]: the persisted byte format for the entry table, with a proved
//!   round-trip law.

use vstd::prelude::*;

pub mod access;
pub mod accessor;
pub mod cat;
pub mod codec;
pub mod entry;
pub mod error;
pub mod laws;
pub mod request;
pub mod store;

pub use access::{Access, Privilege};
pub use accessor::{Accessor, AccessorSubjects, AuthMode};
pub use cat::gen_noc_cat;
pub use entry::{AclEntry, Target};
pub use error::Error;
pub use request::{AccessDesc, AccessReq, GenericPath};
pub use store::{AclMgr, AclMgrInner};

verus! {

/// Matter minimum requirement: subject slots in one ACL entry.
pub const SUBJECTS_PER_ENTRY: usize = 4;

/// Matter minimum requirement: target slots in one ACL entry.
pub const TARGETS_PER_ENTRY: usize = 3;

/// Matter minimum requirement: ACL entries each fabric may hold.
pub const ENTRIES_PER_FABRIC: usize = 3;

/// Fabrics the device supports at most.
pub const MAX_SUPPORTED_FABRICS: usize = 3;

/// Total capacity of the entry table.
pub const MAX_ACL_ENTRIES: usize = 9;

/// CAT credentials one accessor may carry besides its primary identity.
pub const MAX_CAT_IDS_PER_NOC: usize = 3;

/// Subject slots of one accessor: the primary identity plus its CATs.
pub const MAX_ACCESSOR_SUBJECTS: usize = 4;

} // verus!
