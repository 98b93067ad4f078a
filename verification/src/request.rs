//! The question being asked of the engine: who wants to do what, where.

use vstd::prelude::*;

use crate::access::Access;
use crate::accessor::Accessor;
use crate::store::{spec_allow, AclMgr};

verus! {

/// The addressable object a request aims at.  An absent field is a
/// wildcard and matches any value.
#[derive(Copy, Clone, Debug, PartialEq, Eq)]
pub struct GenericPath {
    pub endpoint: Option<u16>,
    pub cluster: Option<u32>,
    pub leaf: Option<u32>,
}

impl GenericPath {
    /// A path naming the given endpoint, cluster and leaf, each optional.
    pub fn new(endpoint: Option<u16>, cluster: Option<u32>, leaf: Option<u32>) -> (r: Self)
        ensures
            r == (GenericPath { endpoint, cluster, leaf }),
    {
        GenericPath { endpoint, cluster, leaf }
    }
}

/// The object to be acted upon, the operation, and the target's declared
/// access policy once it is known.
#[derive(Copy, Clone, Debug)]
pub struct AccessDesc {
    /// The object to be acted upon.
    pub path: GenericPath,
    /// The target's permissions, when known.
    pub target_perms: Option<Access>,
    /// The operation being done.
    pub operation: Access,
}

/// An access request: the accessor attempting to reach a path with an
/// operation.
pub struct AccessReq<'a> {
    pub accessor: &'a Accessor,
    pub object: AccessDesc,
}

impl<'a> AccessReq<'a> {
    /// Creates an access request object.
    ///
    /// An access request specifies the accessor attempting to access `path`
    /// with `operation`.
    pub fn new(accessor: &'a Accessor, path: &GenericPath, operation: Access) -> (r: Self)
        ensures
            r.accessor == accessor,
            r.object.path == *path,
            r.object.operation == operation,
            r.object.target_perms is None,
    {
        AccessReq {
            accessor,
            object: AccessDesc { path: *path, target_perms: None, operation },
        }
    }

    /// Add the target's permissions to the request.
    ///
    /// The permissions that are associated with the target (identified by
    /// the path in this request) are added to the request.
    pub fn set_target_perms(&mut self, perms: Access)
        ensures
            final(self).accessor == old(self).accessor,
            final(self).object.path == old(self).object.path,
            final(self).object.operation == old(self).object.operation,
            final(self).object.target_perms == Some(perms),
    {
        self.object.target_perms = Some(perms);
    }

    /// Checks if access is allowed.
    ///
    /// This consults the whole ACL table of `acl_mgr` to see whether any
    /// entry provides the accessor the necessary privileges to reach the
    /// target as per its permissions.
    pub fn allow(&self, acl_mgr: &AclMgr) -> (r: bool)
        ensures
            r == spec_allow(
                acl_mgr@,
                self.accessor.fab_idx,
                self.accessor.subjects@,
                self.accessor.auth_mode,
                self.object,
            ),
    {
        acl_mgr.allow(self)
    }
}

} // verus!
