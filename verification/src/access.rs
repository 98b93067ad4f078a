//! Privilege levels and the privilege-comparison policy.
//!
//! An [`Access`] value serves two roles, as in the wire protocol: it names
//! the operation a request performs (its `read`/`write` flags), and it
//! declares a target's access policy (which operations the object supports
//! and which privilege each of them requires).

use vstd::prelude::*;

verus! {

/// An ordered capability level granted by an ACL entry.
///
/// Each level implies all lower ones: `Admin` may do whatever `Manage` may,
/// and so on down to `View`.
#[derive(Copy, Clone, Debug, PartialEq, Eq, Structural)]
pub enum Privilege {
    View,
    Operate,
    Manage,
    Admin,
}

/// The rank of a privilege in the capability order.
pub open spec fn spec_privilege_level(p: Privilege) -> int {
    match p {
        Privilege::View => 1,
        Privilege::Operate => 2,
        Privilege::Manage => 3,
        Privilege::Admin => 4,
    }
}

/// Operation flags and required-privilege flags of a target.
///
/// `read`/`write` say which operations the value speaks of; the `need_*`
/// flags say which privilege levels satisfy the target's requirement.
#[derive(Copy, Clone, Debug, PartialEq, Eq, Structural)]
pub struct Access {
    pub read: bool,
    pub write: bool,
    pub need_view: bool,
    pub need_operate: bool,
    pub need_manage: bool,
    pub need_admin: bool,
}

/// Does `a` contain every flag that `op` sets?
pub open spec fn spec_access_contains(a: Access, op: Access) -> bool {
    &&& op.read ==> a.read
    &&& op.write ==> a.write
    &&& op.need_view ==> a.need_view
    &&& op.need_operate ==> a.need_operate
    &&& op.need_manage ==> a.need_manage
    &&& op.need_admin ==> a.need_admin
}

/// The privilege-comparison policy: does the target policy `a` allow the
/// operation `op` when the acting entry grants privilege `p`?
///
/// For a read operation the target's whole `need_*` set counts; for a write
/// the `need_view` flag is discounted, since viewing never grants writing.
/// The target must require at least one privilege for the operation, must
/// itself support the operation, and the granted privilege must reach one of
/// the required levels.
pub open spec fn spec_permits(a: Access, op: Access, p: Privilege) -> bool {
    if op.read {
        &&& (a.need_view || a.need_operate || a.need_manage || a.need_admin)
        &&& spec_access_contains(a, op)
        &&& {
            ||| (a.need_view && spec_privilege_level(p) >= 1)
            ||| (a.need_operate && spec_privilege_level(p) >= 2)
            ||| (a.need_manage && spec_privilege_level(p) >= 3)
            ||| (a.need_admin && spec_privilege_level(p) >= 4)
        }
    } else if op.write {
        &&& (a.need_operate || a.need_manage || a.need_admin)
        &&& spec_access_contains(a, op)
        &&& {
            ||| (a.need_operate && spec_privilege_level(p) >= 2)
            ||| (a.need_manage && spec_privilege_level(p) >= 3)
            ||| (a.need_admin && spec_privilege_level(p) >= 4)
        }
    } else {
        false
    }
}

impl Access {
    /// An access value with exactly the given flags.
    pub fn new(
        read: bool,
        write: bool,
        need_view: bool,
        need_operate: bool,
        need_manage: bool,
        need_admin: bool,
    ) -> (r: Access)
        ensures
            r == (Access { read, write, need_view, need_operate, need_manage, need_admin }),
    {
        Access { read, write, need_view, need_operate, need_manage, need_admin }
    }

    /// The plain read operation.
    pub fn read() -> (r: Access)
        ensures
            r == (Access {
                read: true,
                write: false,
                need_view: false,
                need_operate: false,
                need_manage: false,
                need_admin: false,
            }),
    {
        Access {
            read: true,
            write: false,
            need_view: false,
            need_operate: false,
            need_manage: false,
            need_admin: false,
        }
    }

    /// The plain write operation.
    pub fn write() -> (r: Access)
        ensures
            r == (Access {
                read: false,
                write: true,
                need_view: false,
                need_operate: false,
                need_manage: false,
                need_admin: false,
            }),
    {
        Access {
            read: false,
            write: true,
            need_view: false,
            need_operate: false,
            need_manage: false,
            need_admin: false,
        }
    }

    /// A target policy: readable with the view privilege.
    pub fn rv() -> (r: Access)
        ensures
            r == (Access {
                read: true,
                write: false,
                need_view: true,
                need_operate: false,
                need_manage: false,
                need_admin: false,
            }),
    {
        Access {
            read: true,
            write: false,
            need_view: true,
            need_operate: false,
            need_manage: false,
            need_admin: false,
        }
    }

    /// A target policy: readable with view, writable with admin.
    pub fn rwva() -> (r: Access)
        ensures
            r == (Access {
                read: true,
                write: true,
                need_view: true,
                need_operate: false,
                need_manage: false,
                need_admin: true,
            }),
    {
        Access {
            read: true,
            write: true,
            need_view: true,
            need_operate: false,
            need_manage: false,
            need_admin: true,
        }
    }

    /// Check that this target policy allows `operation` under `privilege`.
    pub fn is_ok(&self, operation: Access, privilege: Privilege) -> (r: bool)
        ensures
            r == spec_permits(*self, operation, privilege),
    {
        let level: u8 = match privilege {
            Privilege::View => 1,
            Privilege::Operate => 2,
            Privilege::Manage => 3,
            Privilege::Admin => 4,
        };
        let contains = (!operation.read || self.read) && (!operation.write || self.write)
            && (!operation.need_view || self.need_view)
            && (!operation.need_operate || self.need_operate)
            && (!operation.need_manage || self.need_manage)
            && (!operation.need_admin || self.need_admin);
        if operation.read {
            (self.need_view || self.need_operate || self.need_manage || self.need_admin)
                && contains
                && ((self.need_view && level >= 1) || (self.need_operate && level >= 2)
                    || (self.need_manage && level >= 3) || (self.need_admin && level >= 4))
        } else if operation.write {
            (self.need_operate || self.need_manage || self.need_admin) && contains
                && ((self.need_operate && level >= 2) || (self.need_manage && level >= 3)
                    || (self.need_admin && level >= 4))
        } else {
            false
        }
    }
}

} // verus!
