//! One authorization rule and its matching predicates.

use vstd::prelude::*;

use crate::access::{spec_permits, Access, Privilege};
use crate::accessor::{spec_subjects_match, Accessor, AuthMode};
use crate::cat::{spec_cat_subject, NOC_CAT_SUBJECT_PREFIX};
use crate::error::Error;
use crate::request::{AccessDesc, AccessReq, GenericPath};
use crate::{SUBJECTS_PER_ENTRY, TARGETS_PER_ENTRY};

verus! {

/// The endpoint/cluster (and optionally device-type) scope an entry's grant
/// applies to.  An absent field is a wildcard and matches any value.
///
/// The device type is carried for wire compatibility but takes no part in
/// matching.
#[derive(Copy, Clone, Debug, PartialEq, Eq)]
pub struct Target {
    pub cluster: Option<u32>,
    pub endpoint: Option<u16>,
    pub device_type: Option<u32>,
}

impl Target {
    /// A target scope with the given fields, each optional.
    pub fn new(endpoint: Option<u16>, cluster: Option<u32>, device_type: Option<u32>) -> (r: Self)
        ensures
            r == (Target { cluster, endpoint, device_type }),
    {
        Target { cluster, endpoint, device_type }
    }
}

/// The mathematical value of one ACL entry.
#[verifier::ext_equal]
pub struct AclEntryView {
    pub privilege: Privilege,
    pub auth_mode: AuthMode,
    pub subjects: Seq<Option<u64>>,
    pub targets: Seq<Option<Target>>,
    pub fab_idx: Option<u8>,
}

/// Is any slot of the optional array occupied?
pub open spec fn spec_has_occupied<T>(s: Seq<Option<T>>) -> bool {
    exists|i: int| 0 <= i < s.len() && s[i] is Some
}

/// Occupied slots form a prefix: no occupied slot follows an empty one.
pub open spec fn spec_packed<T>(s: Seq<Option<T>>) -> bool {
    forall|i: int, j: int| 0 <= i < j < s.len() && s[j] is Some ==> s[i] is Some
}

/// Extending a prefix by an empty slot does not create an occupied slot.
pub proof fn lemma_has_occupied_step_none<T>(s: Seq<Option<T>>, i: int)
    requires
        0 <= i < s.len(),
        s[i] is None,
    ensures
        spec_has_occupied(s.take(i + 1)) == spec_has_occupied(s.take(i)),
{
    if spec_has_occupied(s.take(i + 1)) {
        let k = choose|k: int| 0 <= k < s.take(i + 1).len() && #[trigger] s.take(i + 1)[k] is Some;
        assert(s[k] is Some);
        assert(k != i);
        assert(s.take(i)[k] is Some);
    }
    if spec_has_occupied(s.take(i)) {
        let k = choose|k: int| 0 <= k < s.take(i).len() && #[trigger] s.take(i)[k] is Some;
        assert(s.take(i + 1)[k] is Some);
    }
}

/// Filling the first empty slot of a packed optional array keeps it packed.
pub proof fn lemma_packed_fill_first<T>(s: Seq<Option<T>>, i: int, v: T)
    requires
        spec_packed(s),
        0 <= i < s.len(),
        s[i] is None,
        forall|k: int| 0 <= k < i ==> s[k] is Some,
    ensures
        spec_packed(s.update(i, Some(v))),
{
    let t = s.update(i, Some(v));
    assert forall|b: int| i < b < t.len() implies t[b] is None by {
        if t[b] is Some {
            assert(s[b] is Some);
            assert(s[i] is Some);
        }
    }
    assert forall|a: int, b: int| 0 <= a < b < t.len() && t[b] is Some implies t[a] is Some by {
        assert(b <= i);
    }
}

/// An entry respects the fixed capacities, and its occupied subject and
/// target slots form a prefix, as the builder methods leave them.
pub open spec fn spec_entry_wf(e: AclEntryView) -> bool {
    &&& e.subjects.len() == SUBJECTS_PER_ENTRY
    &&& e.targets.len() == TARGETS_PER_ENTRY
    &&& spec_packed(e.subjects)
    &&& spec_packed(e.targets)
}

/// The subject clause of an entry: an empty subject list matches every
/// accessor; otherwise some occupied slot must be satisfied by the
/// accessor's subject set.
pub open spec fn spec_entry_subjects_allow(
    entry_subjects: Seq<Option<u64>>,
    accessor_subjects: Seq<u64>,
) -> bool {
    spec_has_occupied(entry_subjects) ==> exists|i: int|
        0 <= i < entry_subjects.len() && (#[trigger] entry_subjects[i] matches Some(s)
            && spec_subjects_match(accessor_subjects, s))
}

/// Does one target slot cover the path?  An absent field is a wildcard; a
/// present field must equal the path's field exactly.
pub open spec fn spec_target_matches(t: Target, path: GenericPath) -> bool {
    &&& (t.endpoint is None || t.endpoint == path.endpoint)
    &&& (t.cluster is None || t.cluster == path.cluster)
}

/// The target clause of an entry: an empty target list matches every path;
/// otherwise some occupied slot must cover it.
pub open spec fn spec_entry_targets_allow(
    entry_targets: Seq<Option<Target>>,
    path: GenericPath,
) -> bool {
    spec_has_occupied(entry_targets) ==> exists|i: int|
        0 <= i < entry_targets.len() && (#[trigger] entry_targets[i] matches Some(t)
            && spec_target_matches(t, path))
}

/// Does the entry accept the accessor?  The entry's auth mode and owning
/// fabric must equal the accessor's, and the subject clause must hold.
pub open spec fn spec_match_accessor(
    e: AclEntryView,
    fab_idx: u8,
    accessor_subjects: Seq<u64>,
    auth_mode: AuthMode,
) -> bool {
    &&& e.auth_mode == auth_mode
    &&& spec_entry_subjects_allow(e.subjects, accessor_subjects)
    &&& e.fab_idx == Some(fab_idx)
}

/// Does the entry accept the described object and operation?  The target
/// clause must hold, the target's policy must be known, and that policy must
/// permit the operation under the entry's granted privilege.
pub open spec fn spec_match_access_desc(e: AclEntryView, d: AccessDesc) -> bool {
    &&& spec_entry_targets_allow(e.targets, d.path)
    &&& (d.target_perms matches Some(a) && spec_permits(a, d.operation, e.privilege))
}

/// The authorization predicate of one entry: it authorizes a request iff it
/// accepts both the accessor and the described access.
pub open spec fn spec_entry_allows(
    e: AclEntryView,
    fab_idx: u8,
    accessor_subjects: Seq<u64>,
    auth_mode: AuthMode,
    d: AccessDesc,
) -> bool {
    spec_match_accessor(e, fab_idx, accessor_subjects, auth_mode) && spec_match_access_desc(e, d)
}

/// One authorization rule: privilege granted, required auth mode, optional
/// subject whitelist, optional target whitelist, owning fabric.
#[derive(Debug)]
pub struct AclEntry {
    pub privilege: Privilege,
    pub auth_mode: AuthMode,
    pub subjects: Vec<Option<u64>>,
    pub targets: Vec<Option<Target>>,
    pub fab_idx: Option<u8>,
}

impl View for AclEntry {
    type V = AclEntryView;

    open spec fn view(&self) -> AclEntryView {
        AclEntryView {
            privilege: self.privilege,
            auth_mode: self.auth_mode,
            subjects: self.subjects@,
            targets: self.targets@,
            fab_idx: self.fab_idx,
        }
    }
}

impl Clone for AclEntry {
    /// A clone carries the same entry value.
    fn clone(&self) -> (r: Self)
        ensures
            r@ == self@,
    {
        let mut subjects: Vec<Option<u64>> = Vec::new();
        let ns = self.subjects.len();
        proof {
            assert(subjects@ =~= self.subjects@.take(0));
        }
        let mut i: usize = 0;
        while i < ns
            invariant
                ns == self.subjects@.len(),
                i <= ns,
                subjects@ == self.subjects@.take(i as int),
            decreases ns - i,
        {
            subjects.push(self.subjects[i]);
            proof {
                assert(subjects@ =~= self.subjects@.take(i as int + 1));
            }
            i = i + 1;
        }
        let mut targets: Vec<Option<Target>> = Vec::new();
        let nt = self.targets.len();
        proof {
            assert(targets@ =~= self.targets@.take(0));
        }
        let mut j: usize = 0;
        while j < nt
            invariant
                nt == self.targets@.len(),
                j <= nt,
                targets@ == self.targets@.take(j as int),
            decreases nt - j,
        {
            targets.push(self.targets[j]);
            proof {
                assert(targets@ =~= self.targets@.take(j as int + 1));
            }
            j = j + 1;
        }
        proof {
            assert(self.subjects@.take(ns as int) =~= self.subjects@);
            assert(self.targets@.take(nt as int) =~= self.targets@);
        }
        AclEntry {
            privilege: self.privilege,
            auth_mode: self.auth_mode,
            subjects,
            targets,
            fab_idx: self.fab_idx,
        }
    }
}

impl AclEntry {
    /// A fresh rule for fabric `fab_idx`, granting `privilege` to sessions
    /// authenticated with `auth_mode`; its subject and target lists start
    /// empty, which wildcards both.
    pub fn new(fab_idx: u8, privilege: Privilege, auth_mode: AuthMode) -> (r: Self)
        ensures
            spec_entry_wf(r@),
            r@.privilege == privilege,
            r@.auth_mode == auth_mode,
            r@.fab_idx == Some(fab_idx),
            forall|i: int| 0 <= i < r@.subjects.len() ==> r@.subjects[i] is None,
            forall|i: int| 0 <= i < r@.targets.len() ==> r@.targets[i] is None,
    {
        let mut subjects: Vec<Option<u64>> = Vec::new();
        subjects.push(None);
        subjects.push(None);
        subjects.push(None);
        subjects.push(None);
        let mut targets: Vec<Option<Target>> = Vec::new();
        targets.push(None);
        targets.push(None);
        targets.push(None);
        AclEntry { privilege, auth_mode, subjects, targets, fab_idx: Some(fab_idx) }
    }

    /// Add `subject` to the whitelist, in the first empty slot.  Fails with
    /// `NoSpace` when all slots are occupied.
    pub fn add_subject(&mut self, subject: u64) -> (r: Result<(), Error>)
        requires
            spec_entry_wf(old(self)@),
        ensures
            spec_entry_wf(final(self)@),
            r is Ok <==> exists|i: int|
                0 <= i < old(self)@.subjects.len() && old(self)@.subjects[i] is None,
            r is Ok ==> exists|i: int|
                {
                    &&& 0 <= i < old(self)@.subjects.len()
                    &&& old(self)@.subjects[i] is None
                    &&& forall|k: int| 0 <= k < i ==> old(self)@.subjects[k] is Some
                    &&& final(self)@ == (AclEntryView {
                        subjects: old(self)@.subjects.update(i, Some(subject)),
                        ..old(self)@
                    })
                },
            r is Err ==> r == Err::<(), Error>(Error::NoSpace) && final(self)@ == old(self)@,
    {
        let n = self.subjects.len();
        let mut i: usize = 0;
        while i < n
            invariant
                n == self.subjects.len(),
                self@ == old(self)@,
                spec_entry_wf(old(self)@),
                i <= n,
                forall|k: int| 0 <= k < i ==> self.subjects@[k] is Some,
            decreases n - i,
        {
            if self.subjects[i].is_none() {
                self.subjects[i] = Some(subject);
                proof {
                    lemma_packed_fill_first(old(self)@.subjects, i as int, subject);
                }
                return Ok(());
            }
            i += 1;
        }
        Err(Error::NoSpace)
    }

    /// Add a CAT credential to the whitelist, tagged with the CAT prefix.
    pub fn add_subject_catid(&mut self, cat_id: u32) -> (r: Result<(), Error>)
        requires
            spec_entry_wf(old(self)@),
        ensures
            spec_entry_wf(final(self)@),
            r is Ok <==> exists|i: int|
                0 <= i < old(self)@.subjects.len() && old(self)@.subjects[i] is None,
            r is Ok ==> exists|i: int|
                {
                    &&& 0 <= i < old(self)@.subjects.len()
                    &&& old(self)@.subjects[i] is None
                    &&& forall|k: int| 0 <= k < i ==> old(self)@.subjects[k] is Some
                    &&& final(self)@ == (AclEntryView {
                        subjects: old(self)@.subjects.update(
                            i,
                            Some(spec_cat_subject(cat_id)),
                        ),
                        ..old(self)@
                    })
                },
            r is Err ==> r == Err::<(), Error>(Error::NoSpace) && final(self)@ == old(self)@,
    {
        self.add_subject(NOC_CAT_SUBJECT_PREFIX | (cat_id as u64))
    }

    /// Add a target scope to the whitelist, in the first empty slot.  Fails
    /// with `NoSpace` when all slots are occupied.
    pub fn add_target(&mut self, target: Target) -> (r: Result<(), Error>)
        requires
            spec_entry_wf(old(self)@),
        ensures
            spec_entry_wf(final(self)@),
            r is Ok <==> exists|i: int|
                0 <= i < old(self)@.targets.len() && old(self)@.targets[i] is None,
            r is Ok ==> exists|i: int|
                {
                    &&& 0 <= i < old(self)@.targets.len()
                    &&& old(self)@.targets[i] is None
                    &&& forall|k: int| 0 <= k < i ==> old(self)@.targets[k] is Some
                    &&& final(self)@ == (AclEntryView {
                        targets: old(self)@.targets.update(i, Some(target)),
                        ..old(self)@
                    })
                },
            r is Err ==> r == Err::<(), Error>(Error::NoSpace) && final(self)@ == old(self)@,
    {
        let n = self.targets.len();
        let mut i: usize = 0;
        while i < n
            invariant
                n == self.targets.len(),
                self@ == old(self)@,
                spec_entry_wf(old(self)@),
                i <= n,
                forall|k: int| 0 <= k < i ==> self.targets@[k] is Some,
            decreases n - i,
        {
            if self.targets[i].is_none() {
                self.targets[i] = Some(target);
                proof {
                    lemma_packed_fill_first(old(self)@.targets, i as int, target);
                }
                return Ok(());
            }
            i += 1;
        }
        Err(Error::NoSpace)
    }

    /// Does this entry accept the accessor?  Auth mode and fabric must
    /// match, and the subject clause must hold.
    pub fn match_accessor(&self, accessor: &Accessor) -> (r: bool)
        ensures
            r == spec_match_accessor(
                self@,
                accessor.fab_idx,
                accessor.subjects@,
                accessor.auth_mode,
            ),
    {
        if self.auth_mode != accessor.auth_mode {
            return false;
        }
        let mut allow = false;
        let mut entries_exist = false;
        let n = self.subjects.len();
        for i in 0..n
            invariant
                n == self.subjects.len(),
                entries_exist == spec_has_occupied(self.subjects@.take(i as int)),
                allow == exists|k: int|
                    0 <= k < i && (#[trigger] self.subjects@[k] matches Some(s)
                        && spec_subjects_match(accessor.subjects@, s)),
        {
            match self.subjects[i] {
                Some(s) => {
                    entries_exist = true;
                    if accessor.subjects.matches(s) {
                        allow = true;
                    }
                    proof {
                        assert(self.subjects@.take(i as int + 1)[i as int] is Some);
                    }
                },
                None => {
                    proof {
                        lemma_has_occupied_step_none(self.subjects@, i as int);
                    }
                },
            }
        }
        proof {
            assert(self.subjects@.take(n as int) =~= self.subjects@);
        }
        if !entries_exist {
            // An empty subjects array means: allow for all subjects.
            allow = true;
        }
        let fab_ok = match self.fab_idx {
            Some(f) => f == accessor.fab_idx,
            None => false,
        };
        allow && fab_ok
    }

    /// Does this entry accept the described object and operation?
    pub fn match_access_desc(&self, object: &AccessDesc) -> (r: bool)
        ensures
            r == spec_match_access_desc(self@, *object),
    {
        let mut allow = false;
        let mut entries_exist = false;
        let n = self.targets.len();
        for i in 0..n
            invariant
                n == self.targets.len(),
                entries_exist == spec_has_occupied(self.targets@.take(i as int)),
                allow == exists|k: int|
                    0 <= k < i && (#[trigger] self.targets@[k] matches Some(t)
                        && spec_target_matches(t, object.path)),
        {
            match self.targets[i] {
                Some(t) => {
                    entries_exist = true;
                    let ep_ok = match t.endpoint {
                        None => true,
                        Some(te) => match object.path.endpoint {
                            Some(pe) => te == pe,
                            None => false,
                        },
                    };
                    let cl_ok = match t.cluster {
                        None => true,
                        Some(tc) => match object.path.cluster {
                            Some(pc) => tc == pc,
                            None => false,
                        },
                    };
                    if ep_ok && cl_ok {
                        allow = true;
                    }
                    proof {
                        assert(self.targets@.take(i as int + 1)[i as int] is Some);
                    }
                },
                None => {
                    proof {
                        lemma_has_occupied_step_none(self.targets@, i as int);
                    }
                },
            }
        }
        proof {
            assert(self.targets@.take(n as int) =~= self.targets@);
        }
        if !entries_exist {
            // An empty targets array means: allow for all targets.
            allow = true;
        }
        if allow {
            // The object's own access policy must allow this operation with
            // this entry's privilege.
            match object.target_perms {
                Some(access) => access.is_ok(object.operation, self.privilege),
                None => false,
            }
        } else {
            false
        }
    }

    /// Does this entry authorize the request?
    pub fn allow(&self, req: &AccessReq<'_>) -> (r: bool)
        ensures
            r == spec_entry_allows(
                self@,
                req.accessor.fab_idx,
                req.accessor.subjects@,
                req.accessor.auth_mode,
                req.object,
            ),
    {
        self.match_accessor(req.accessor) && self.match_access_desc(&req.object)
    }
}

} // verus!
