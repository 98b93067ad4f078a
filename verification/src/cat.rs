//! Codec for NOC CAT (Category) subject identifiers.
//!
//! A CAT is a versioned group credential: a 16-bit category id and a 16-bit
//! version packed into a 32-bit value.  Stored as a 64-bit subject it carries
//! a reserved high-bit prefix that distinguishes it from a plain identity.

use vstd::prelude::*;

verus! {

/// The CAT prefix used in subjects.
pub const NOC_CAT_SUBJECT_PREFIX: u64 = 0xFFFF_FFFD_0000_0000;

/// Mask of the category-id field within the low 32 bits.
pub const NOC_CAT_ID_MASK: u64 = 0xFFFF_0000;

/// Mask of the version field within the low 32 bits.
pub const NOC_CAT_VERSION_MASK: u64 = 0xFFFF;

/// Whether the subject identifier carries the reserved CAT prefix.
pub open spec fn spec_is_noc_cat(id: u64) -> bool {
    id & NOC_CAT_SUBJECT_PREFIX == NOC_CAT_SUBJECT_PREFIX
}

/// The 16-bit category id packed in the subject identifier.
pub open spec fn spec_noc_cat_id(id: u64) -> u64 {
    (id & NOC_CAT_ID_MASK) >> 16
}

/// The 16-bit version packed in the subject identifier.
pub open spec fn spec_noc_cat_version(id: u64) -> u64 {
    id & NOC_CAT_VERSION_MASK
}

/// The 32-bit CAT value for a category id and version.
pub open spec fn spec_gen_noc_cat(id: u16, version: u16) -> u32 {
    ((id as u32) << 16) | (version as u32)
}

/// The 64-bit subject identifier of a 32-bit CAT value.
pub open spec fn spec_cat_subject(cat: u32) -> u64 {
    NOC_CAT_SUBJECT_PREFIX | (cat as u64)
}

/// Is this identifier a NOC CAT?
pub fn is_noc_cat(id: u64) -> (r: bool)
    ensures
        r == spec_is_noc_cat(id),
{
    (id & NOC_CAT_SUBJECT_PREFIX) == NOC_CAT_SUBJECT_PREFIX
}

/// Get the 16-bit NOC CAT id from the identifier.
pub fn get_noc_cat_id(id: u64) -> (r: u64)
    ensures
        r == spec_noc_cat_id(id),
{
    (id & NOC_CAT_ID_MASK) >> 16
}

/// Get the 16-bit NOC CAT version from the identifier.
pub fn get_noc_cat_version(id: u64) -> (r: u64)
    ensures
        r == spec_noc_cat_version(id),
{
    id & NOC_CAT_VERSION_MASK
}

/// Generate the 32-bit CAT value that is embeddable in the NOC.
pub fn gen_noc_cat(id: u16, version: u16) -> (r: u32)
    ensures
        r == spec_gen_noc_cat(id, version),
{
    ((id as u32) << 16) | (version as u32)
}

/// A subject built from a 32-bit CAT value carries the CAT prefix, and its
/// packed fields decode to the category id and version it was built from.
pub proof fn lemma_cat_subject_fields(id: u16, version: u16)
    ensures
        spec_is_noc_cat(spec_cat_subject(spec_gen_noc_cat(id, version))),
        spec_noc_cat_id(spec_cat_subject(spec_gen_noc_cat(id, version))) == id as u64,
        spec_noc_cat_version(spec_cat_subject(spec_gen_noc_cat(id, version))) == version as u64,
{
    let c: u32 = spec_gen_noc_cat(id, version);
    let s: u64 = spec_cat_subject(c);
    assert(c == ((id as u32) << 16) | (version as u32));
    assert({
        let s2: u64 = 0xFFFF_FFFD_0000_0000u64 | ((((id as u32) << 16) | (version as u32)) as u64);
        &&& s2 & 0xFFFF_FFFD_0000_0000u64 == 0xFFFF_FFFD_0000_0000u64
        &&& (s2 & 0xFFFF_0000u64) >> 16 == id as u64
        &&& s2 & 0xFFFFu64 == version as u64
    }) by (bit_vector);
}

/// Distinct CAT subjects never collide with the empty-slot sentinel, and a
/// plain identity below the prefix is never taken for a CAT.
pub proof fn lemma_cat_subject_tagged(cat: u32)
    ensures
        spec_cat_subject(cat) != 0,
        spec_is_noc_cat(spec_cat_subject(cat)),
{
    assert({
        let s: u64 = 0xFFFF_FFFD_0000_0000u64 | (cat as u64);
        &&& s != 0
        &&& s & 0xFFFF_FFFD_0000_0000u64 == 0xFFFF_FFFD_0000_0000u64
    }) by (bit_vector);
}

} // verus!
