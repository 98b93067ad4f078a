//! The authenticated peer context: its subject set and session mode.

use vstd::prelude::*;

use crate::cat::{
    is_noc_cat, get_noc_cat_id, get_noc_cat_version, spec_cat_subject, spec_is_noc_cat,
    spec_noc_cat_id, spec_noc_cat_version, NOC_CAT_SUBJECT_PREFIX,
};
use crate::error::Error;
use crate::MAX_ACCESSOR_SUBJECTS;

verus! {

/// How the session that produced an accessor was authenticated.
///
/// `Pase` is the provisional, pre-commissioning mode; `Invalid` is a reserved
/// marker that decoding must reject and no live session carries.
#[derive(Copy, Clone, Debug, PartialEq, Eq, Structural)]
pub enum AuthMode {
    Pase,
    Case,
    Group,
    Invalid,
}

/// Does the stored subject slot `v` satisfy the candidate subject
/// `acl_subject` demanded by an ACL entry?
///
/// An empty slot (the reserved sentinel 0) matches nothing.  An occupied
/// slot matches on exact equality, or CAT-aware: both are CAT-tagged, the
/// category ids agree, and the accessor's stored version is at least the
/// candidate's required version.
pub open spec fn spec_slot_matches(v: u64, acl_subject: u64) -> bool {
    v != 0 && (v == acl_subject || (spec_is_noc_cat(v) && spec_is_noc_cat(acl_subject)
        && spec_noc_cat_id(v) == spec_noc_cat_id(acl_subject)
        && spec_noc_cat_version(v) >= spec_noc_cat_version(acl_subject)))
}

/// Does any slot of the accessor's subject set satisfy `acl_subject`?
pub open spec fn spec_subjects_match(subjects: Seq<u64>, acl_subject: u64) -> bool {
    exists|i: int| 0 <= i < subjects.len() && spec_slot_matches(subjects[i], acl_subject)
}

/// The subjects that identify an accessor: slot 0 holds the primary
/// identity, the remaining slots hold CAT credentials.  Empty slots hold the
/// reserved sentinel 0, which is never a valid subject.
pub struct AccessorSubjects {
    pub slots: Vec<u64>,
}

impl View for AccessorSubjects {
    type V = Seq<u64>;

    open spec fn view(&self) -> Seq<u64> {
        self.slots@
    }
}

impl AccessorSubjects {
    /// The fixed capacity is respected.
    pub open spec fn wf(&self) -> bool {
        self@.len() == MAX_ACCESSOR_SUBJECTS
    }

    /// A subject set holding only the primary identity `id`.
    pub fn new(id: u64) -> (r: Self)
        ensures
            r.wf(),
            r@[0] == id,
            forall|i: int| 1 <= i < r@.len() ==> r@[i] == 0,
    {
        let mut slots: Vec<u64> = Vec::new();
        slots.push(id);
        slots.push(0);
        slots.push(0);
        slots.push(0);
        AccessorSubjects { slots }
    }

    /// Insert a CAT credential, tagged with the CAT prefix, into the first
    /// empty slot.  Fails with `NoSpace` when no empty slot remains.
    pub fn add_catid(&mut self, subject: u32) -> (r: Result<(), Error>)
        requires
            old(self).wf(),
        ensures
            final(self)@.len() == old(self)@.len(),
            r is Ok <==> exists|i: int| 0 <= i < old(self)@.len() && old(self)@[i] == 0,
            r is Ok ==> exists|i: int|
                {
                    &&& 0 <= i < old(self)@.len()
                    &&& old(self)@[i] == 0
                    &&& forall|k: int| 0 <= k < i ==> old(self)@[k] != 0
                    &&& final(self)@ == old(self)@.update(i, spec_cat_subject(subject))
                },
            r is Err ==> r == Err::<(), Error>(Error::NoSpace) && final(self)@ == old(self)@,
    {
        let n = self.slots.len();
        let mut i: usize = 0;
        while i < n
            invariant
                n == self.slots.len(),
                self@ == old(self)@,
                i <= n,
                forall|k: int| 0 <= k < i ==> self@[k] != 0,
            decreases n - i,
        {
            if self.slots[i] == 0 {
                self.slots[i] = NOC_CAT_SUBJECT_PREFIX | (subject as u64);
                return Ok(());
            }
            i += 1;
        }
        Err(Error::NoSpace)
    }

    /// Match `acl_subject` against the current subjects, CAT-aware where
    /// both sides are CAT-tagged.
    pub fn matches(&self, acl_subject: u64) -> (r: bool)
        ensures
            r == spec_subjects_match(self@, acl_subject),
    {
        let n = self.slots.len();
        for i in 0..n
            invariant
                n == self.slots.len(),
                forall|k: int| 0 <= k < i ==> !spec_slot_matches(self@[k], acl_subject),
        {
            let v = self.slots[i];
            if v != 0 {
                if v == acl_subject {
                    return true;
                }
                if is_noc_cat(v) && is_noc_cat(acl_subject)
                    && get_noc_cat_id(v) == get_noc_cat_id(acl_subject)
                    && get_noc_cat_version(v) >= get_noc_cat_version(acl_subject) {
                    return true;
                }
            }
        }
        false
    }
}

/// The authenticated requester context for one access decision.
pub struct Accessor {
    /// The fabric index of the accessor.
    pub fab_idx: u8,
    /// The accessor's subjects: its node id and any CAT credentials.
    pub subjects: AccessorSubjects,
    /// The authentication mode of this session.
    pub auth_mode: AuthMode,
}

impl Accessor {
    /// An accessor on fabric `fab_idx` with the given subjects and mode.
    pub fn new(fab_idx: u8, subjects: AccessorSubjects, auth_mode: AuthMode) -> (r: Self)
        ensures
            r.fab_idx == fab_idx,
            r.subjects@ == subjects@,
            r.auth_mode == auth_mode,
    {
        Accessor { fab_idx, subjects, auth_mode }
    }
}

} // verus!
