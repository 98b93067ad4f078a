//! The laws of the engine, each proved once and for all inputs.

use vstd::prelude::*;

use crate::access::{spec_permits, Access};
use crate::accessor::{spec_slot_matches, AuthMode};
use crate::cat::{
    lemma_cat_subject_fields, lemma_cat_subject_tagged, spec_cat_subject, spec_gen_noc_cat,
};
use crate::entry::{
    spec_entry_allows, spec_entry_subjects_allow, spec_entry_targets_allow, AclEntryView, Target,
};
use crate::request::{AccessDesc, GenericPath};
use crate::store::spec_allow;

verus! {

/// Default deny: with an empty store, no request is authorized — for every
/// accessor whose session is not in the provisional (PASE) mode, which is
/// granted implicitly regardless of the store.
pub proof fn lemma_default_deny(
    s: Seq<Option<AclEntryView>>,
    fab_idx: u8,
    accessor_subjects: Seq<u64>,
    auth_mode: AuthMode,
    d: AccessDesc,
)
    requires
        forall|i: int| 0 <= i < s.len() ==> s[i] is None,
        auth_mode != AuthMode::Pase,
    ensures
        !spec_allow(s, fab_idx, accessor_subjects, auth_mode, d),
{
}

/// Auth-mode gate: an entry whose auth mode differs from the accessor's
/// never authorizes, regardless of its subject, target and privilege
/// fields.
pub proof fn lemma_auth_mode_gate(
    e: AclEntryView,
    fab_idx: u8,
    accessor_subjects: Seq<u64>,
    auth_mode: AuthMode,
    d: AccessDesc,
)
    requires
        e.auth_mode != auth_mode,
    ensures
        !spec_entry_allows(e, fab_idx, accessor_subjects, auth_mode, d),
{
}

/// Fabric gate: an entry whose fabric index differs from the accessor's
/// never authorizes.
pub proof fn lemma_fabric_gate(
    e: AclEntryView,
    fab_idx: u8,
    accessor_subjects: Seq<u64>,
    auth_mode: AuthMode,
    d: AccessDesc,
)
    requires
        e.fab_idx != Some(fab_idx),
    ensures
        !spec_entry_allows(e, fab_idx, accessor_subjects, auth_mode, d),
{
}

/// Empty-subject-list wildcard: an entry with no subject entries passes its
/// subject clause for every accessor.
pub proof fn lemma_empty_subjects_wildcard(
    entry_subjects: Seq<Option<u64>>,
    accessor_subjects: Seq<u64>,
)
    requires
        forall|i: int| 0 <= i < entry_subjects.len() ==> entry_subjects[i] is None,
    ensures
        spec_entry_subjects_allow(entry_subjects, accessor_subjects),
{
}

/// Empty-target-list wildcard: an entry with no target entries passes its
/// target clause for every path.
pub proof fn lemma_empty_targets_wildcard(entry_targets: Seq<Option<Target>>, path: GenericPath)
    requires
        forall|i: int| 0 <= i < entry_targets.len() ==> entry_targets[i] is None,
    ensures
        spec_entry_targets_allow(entry_targets, path),
{
}

/// CAT version monotonicity: an accessor CAT of group `g` and version `va`
/// satisfies an entry's CAT subject of the same group and version `ve`
/// exactly when `va >= ve`.
pub proof fn lemma_cat_version_monotonicity(g: u16, va: u16, ve: u16)
    ensures
        spec_slot_matches(
            spec_cat_subject(spec_gen_noc_cat(g, va)),
            spec_cat_subject(spec_gen_noc_cat(g, ve)),
        ) == (va >= ve),
{
    let a = spec_cat_subject(spec_gen_noc_cat(g, va));
    let c = spec_cat_subject(spec_gen_noc_cat(g, ve));
    lemma_cat_subject_fields(g, va);
    lemma_cat_subject_fields(g, ve);
    lemma_cat_subject_tagged(spec_gen_noc_cat(g, va));
}

/// CAT group gate: CAT subjects of different groups never satisfy one
/// another, whatever their versions.
pub proof fn lemma_cat_group_gate(ga: u16, ge: u16, va: u16, ve: u16)
    requires
        ga != ge,
    ensures
        !spec_slot_matches(
            spec_cat_subject(spec_gen_noc_cat(ga, va)),
            spec_cat_subject(spec_gen_noc_cat(ge, ve)),
        ),
{
    lemma_cat_subject_fields(ga, va);
    lemma_cat_subject_fields(ge, ve);
}

/// Privilege gate: an entry whose granted privilege, compared by the
/// privilege policy against the requested operation, does not permit the
/// operation never authorizes — even when subjects and targets match
/// exactly, and in particular when the request carries no target policy.
pub proof fn lemma_privilege_gate(
    e: AclEntryView,
    fab_idx: u8,
    accessor_subjects: Seq<u64>,
    auth_mode: AuthMode,
    d: AccessDesc,
)
    requires
        forall|a: Access| d.target_perms == Some(a) ==> !spec_permits(a, d.operation, e.privilege),
    ensures
        !spec_entry_allows(e, fab_idx, accessor_subjects, auth_mode, d),
{
    match d.target_perms {
        None => {},
        Some(a) => {
            assert(d.target_perms == Some(a));
        },
    }
}

} // verus!
