//! The persisted byte format of the entry table.
//!
//! The whole table is one length-prefixed record: a slot count followed by
//! one tagged record per slot.  Every optional field carries a one-byte
//! presence tag and its value bytes are omitted when it is absent.
//! Integers are little-endian.  Decoding malformed bytes is an input error,
//! never a panic, and decoding rejects the reserved invalid auth-mode
//! marker.  Encoding then decoding reproduces the table exactly
//! ([`lemma_store_round_trip`]).

use vstd::prelude::*;
use vstd::bytes::{
    lemma_auto_spec_u16_to_from_le_bytes, lemma_auto_spec_u32_to_from_le_bytes,
    lemma_auto_spec_u64_to_from_le_bytes, spec_u16_from_le_bytes, spec_u16_to_le_bytes,
    spec_u32_from_le_bytes, spec_u32_to_le_bytes, spec_u64_from_le_bytes, spec_u64_to_le_bytes,
};

use crate::access::Privilege;
use crate::accessor::AuthMode;
use crate::entry::{spec_entry_wf, spec_packed, AclEntry, AclEntryView, Target};
use crate::error::Error;
use crate::store::{spec_slots_view, spec_store_wf};
use crate::MAX_ACL_ENTRIES;

verus! {

/// Upper bound on the encoded size of the whole table.
pub const ACL_KV_MAX_SIZE: usize = 748;

/// The byte that stands for a privilege level.
pub open spec fn spec_priv_byte(p: Privilege) -> u8 {
    match p {
        Privilege::View => 1,
        Privilege::Operate => 2,
        Privilege::Manage => 3,
        Privilege::Admin => 4,
    }
}

/// The privilege a byte stands for; bytes outside the range are malformed.
pub open spec fn spec_priv_of_byte(b: u8) -> Option<Privilege> {
    if b == 1 {
        Some(Privilege::View)
    } else if b == 2 {
        Some(Privilege::Operate)
    } else if b == 3 {
        Some(Privilege::Manage)
    } else if b == 4 {
        Some(Privilege::Admin)
    } else {
        None
    }
}

/// The byte that stands for an auth mode.  The reserved invalid marker has
/// no encoding: its byte is one that decoding rejects.
pub open spec fn spec_auth_byte(a: AuthMode) -> u8 {
    match a {
        AuthMode::Pase => 1,
        AuthMode::Case => 2,
        AuthMode::Group => 3,
        AuthMode::Invalid => 0,
    }
}

/// The auth mode a byte stands for; the invalid marker and out-of-range
/// bytes are malformed.
pub open spec fn spec_auth_of_byte(b: u8) -> Option<AuthMode> {
    if b == 1 {
        Some(AuthMode::Pase)
    } else if b == 2 {
        Some(AuthMode::Case)
    } else if b == 3 {
        Some(AuthMode::Group)
    } else {
        None
    }
}

/// An optional byte: a presence tag, then the value when present.
pub open spec fn spec_enc_opt_u8(v: Option<u8>) -> Seq<u8> {
    match v {
        None => seq![0u8],
        Some(x) => seq![1u8, x],
    }
}

/// An optional 16-bit integer: a presence tag, then little-endian bytes.
pub open spec fn spec_enc_opt_u16(v: Option<u16>) -> Seq<u8> {
    match v {
        None => seq![0u8],
        Some(x) => seq![1u8] + spec_u16_to_le_bytes(x),
    }
}

/// An optional 32-bit integer: a presence tag, then little-endian bytes.
pub open spec fn spec_enc_opt_u32(v: Option<u32>) -> Seq<u8> {
    match v {
        None => seq![0u8],
        Some(x) => seq![1u8] + spec_u32_to_le_bytes(x),
    }
}

/// An optional 64-bit integer: a presence tag, then little-endian bytes.
pub open spec fn spec_enc_opt_u64(v: Option<u64>) -> Seq<u8> {
    match v {
        None => seq![0u8],
        Some(x) => seq![1u8] + spec_u64_to_le_bytes(x),
    }
}

/// One target scope: its three optional fields in order.
pub open spec fn spec_enc_target(t: Target) -> Seq<u8> {
    spec_enc_opt_u16(t.endpoint) + spec_enc_opt_u32(t.cluster) + spec_enc_opt_u32(t.device_type)
}

/// One target slot: a presence tag, then the target when occupied.
pub open spec fn spec_enc_opt_target(v: Option<Target>) -> Seq<u8> {
    match v {
        None => seq![0u8],
        Some(t) => seq![1u8] + spec_enc_target(t),
    }
}

/// One entry: privilege and auth bytes, the four subject slots, the three
/// target slots, and the owning fabric.
pub open spec fn spec_enc_entry(e: AclEntryView) -> Seq<u8> {
    seq![spec_priv_byte(e.privilege), spec_auth_byte(e.auth_mode)] + spec_enc_opt_u64(e.subjects[0])
        + spec_enc_opt_u64(e.subjects[1]) + spec_enc_opt_u64(e.subjects[2]) + spec_enc_opt_u64(
        e.subjects[3],
    ) + spec_enc_opt_target(e.targets[0]) + spec_enc_opt_target(e.targets[1])
        + spec_enc_opt_target(e.targets[2]) + spec_enc_opt_u8(e.fab_idx)
}

/// One table slot: a presence tag, then the entry when occupied.
pub open spec fn spec_enc_slot(v: Option<AclEntryView>) -> Seq<u8> {
    match v {
        None => seq![0u8],
        Some(e) => seq![1u8] + spec_enc_entry(e),
    }
}

/// All slots, in store order.
pub open spec fn spec_enc_slots(s: Seq<Option<AclEntryView>>) -> Seq<u8>
    decreases s.len(),
{
    if s.len() == 0 {
        Seq::empty()
    } else {
        spec_enc_slot(s[0]) + spec_enc_slots(s.drop_first())
    }
}

/// The whole table: a slot count, then the slots.
pub open spec fn spec_enc_store(s: Seq<Option<AclEntryView>>) -> Seq<u8> {
    seq![s.len() as u8] + spec_enc_slots(s)
}

/// Can the entry be persisted and read back?  The reserved invalid auth
/// marker has no decodable encoding.
pub open spec fn spec_entry_encodable(e: AclEntryView) -> bool {
    spec_entry_wf(e) && e.auth_mode != AuthMode::Invalid
}

/// Can the table be persisted and read back?
pub open spec fn spec_store_encodable(s: Seq<Option<AclEntryView>>) -> bool {
    &&& s.len() == MAX_ACL_ENTRIES
    &&& forall|i: int|
        0 <= i < s.len() ==> (#[trigger] s[i] matches Some(e) ==> spec_entry_encodable(e))
}

// ---------------------------------------------------------------------
// The decoder, as a mathematical function of the bytes.  Each piece takes
// the whole byte sequence and a position, and yields the decoded value and
// the position after it, or nothing when the bytes are malformed.
// ---------------------------------------------------------------------

/// Read one byte.
pub open spec fn spec_dec_u8(b: Seq<u8>, pos: int) -> Option<(u8, int)> {
    if 0 <= pos && pos + 1 <= b.len() {
        Some((b[pos], pos + 1))
    } else {
        None
    }
}

/// Read a little-endian 16-bit integer.
pub open spec fn spec_dec_u16(b: Seq<u8>, pos: int) -> Option<(u16, int)> {
    if 0 <= pos && pos + 2 <= b.len() {
        Some((spec_u16_from_le_bytes(b.subrange(pos, pos + 2)), pos + 2))
    } else {
        None
    }
}

/// Read a little-endian 32-bit integer.
pub open spec fn spec_dec_u32(b: Seq<u8>, pos: int) -> Option<(u32, int)> {
    if 0 <= pos && pos + 4 <= b.len() {
        Some((spec_u32_from_le_bytes(b.subrange(pos, pos + 4)), pos + 4))
    } else {
        None
    }
}

/// Read a little-endian 64-bit integer.
pub open spec fn spec_dec_u64(b: Seq<u8>, pos: int) -> Option<(u64, int)> {
    if 0 <= pos && pos + 8 <= b.len() {
        Some((spec_u64_from_le_bytes(b.subrange(pos, pos + 8)), pos + 8))
    } else {
        None
    }
}

/// Read an optional byte.
pub open spec fn spec_dec_opt_u8(b: Seq<u8>, pos: int) -> Option<(Option<u8>, int)> {
    match spec_dec_u8(b, pos) {
        None => None,
        Some((tag, p)) => if tag == 0 {
            Some((None, p))
        } else if tag == 1 {
            match spec_dec_u8(b, p) {
                None => None,
                Some((x, p2)) => Some((Some(x), p2)),
            }
        } else {
            None
        },
    }
}

/// Read an optional 16-bit integer.
pub open spec fn spec_dec_opt_u16(b: Seq<u8>, pos: int) -> Option<(Option<u16>, int)> {
    match spec_dec_u8(b, pos) {
        None => None,
        Some((tag, p)) => if tag == 0 {
            Some((None, p))
        } else if tag == 1 {
            match spec_dec_u16(b, p) {
                None => None,
                Some((x, p2)) => Some((Some(x), p2)),
            }
        } else {
            None
        },
    }
}

/// Read an optional 32-bit integer.
pub open spec fn spec_dec_opt_u32(b: Seq<u8>, pos: int) -> Option<(Option<u32>, int)> {
    match spec_dec_u8(b, pos) {
        None => None,
        Some((tag, p)) => if tag == 0 {
            Some((None, p))
        } else if tag == 1 {
            match spec_dec_u32(b, p) {
                None => None,
                Some((x, p2)) => Some((Some(x), p2)),
            }
        } else {
            None
        },
    }
}

/// Read an optional 64-bit integer.
pub open spec fn spec_dec_opt_u64(b: Seq<u8>, pos: int) -> Option<(Option<u64>, int)> {
    match spec_dec_u8(b, pos) {
        None => None,
        Some((tag, p)) => if tag == 0 {
            Some((None, p))
        } else if tag == 1 {
            match spec_dec_u64(b, p) {
                None => None,
                Some((x, p2)) => Some((Some(x), p2)),
            }
        } else {
            None
        },
    }
}

/// Read one target scope: three optional fields in order.
pub open spec fn spec_dec_target(b: Seq<u8>, pos: int) -> Option<(Target, int)> {
    match spec_dec_opt_u16(b, pos) {
        None => None,
        Some((endpoint, p1)) => match spec_dec_opt_u32(b, p1) {
            None => None,
            Some((cluster, p2)) => match spec_dec_opt_u32(b, p2) {
                None => None,
                Some((device_type, p3)) => Some((Target { cluster, endpoint, device_type }, p3)),
            },
        },
    }
}

/// Read one target slot.
pub open spec fn spec_dec_opt_target(b: Seq<u8>, pos: int) -> Option<(Option<Target>, int)> {
    match spec_dec_u8(b, pos) {
        None => None,
        Some((tag, p)) => if tag == 0 {
            Some((None, p))
        } else if tag == 1 {
            match spec_dec_target(b, p) {
                None => None,
                Some((t, p2)) => Some((Some(t), p2)),
            }
        } else {
            None
        },
    }
}

/// Read one entry.  The subject and target lists must be packed (occupied
/// slots first), as the builder methods leave them.
pub open spec fn spec_dec_entry(b: Seq<u8>, pos: int) -> Option<(AclEntryView, int)> {
    match spec_dec_u8(b, pos) {
        None => None,
        Some((pb, p1)) => match spec_priv_of_byte(pb) {
            None => None,
            Some(privilege) => match spec_dec_u8(b, p1) {
                None => None,
                Some((ab, p2)) => match spec_auth_of_byte(ab) {
                    None => None,
                    Some(auth_mode) => match spec_dec_opt_u64(b, p2) {
                        None => None,
                        Some((s0, q0)) => match spec_dec_opt_u64(b, q0) {
                            None => None,
                            Some((s1, q1)) => match spec_dec_opt_u64(b, q1) {
                                None => None,
                                Some((s2, q2)) => match spec_dec_opt_u64(b, q2) {
                                    None => None,
                                    Some((s3, q3)) => match spec_dec_opt_target(b, q3) {
                                        None => None,
                                        Some((t0, r0)) => match spec_dec_opt_target(b, r0) {
                                            None => None,
                                            Some((t1, r1)) => match spec_dec_opt_target(b, r1) {
                                                None => None,
                                                Some((t2, r2)) => match spec_dec_opt_u8(b, r2) {
                                                    None => None,
                                                    Some((fab_idx, r3)) => {
                                                        let e = AclEntryView {
                                                            privilege,
                                                            auth_mode,
                                                            subjects: seq![s0, s1, s2, s3],
                                                            targets: seq![t0, t1, t2],
                                                            fab_idx,
                                                        };
                                                        if spec_packed(e.subjects) && spec_packed(
                                                            e.targets,
                                                        ) {
                                                            Some((e, r3))
                                                        } else {
                                                            None
                                                        }
                                                    },
                                                },
                                            },
                                        },
                                    },
                                },
                            },
                        },
                    },
                },
            },
        },
    }
}

/// Read one table slot.
pub open spec fn spec_dec_slot(b: Seq<u8>, pos: int) -> Option<(Option<AclEntryView>, int)> {
    match spec_dec_u8(b, pos) {
        None => None,
        Some((tag, p)) => if tag == 0 {
            Some((None, p))
        } else if tag == 1 {
            match spec_dec_entry(b, p) {
                None => None,
                Some((e, p2)) => Some((Some(e), p2)),
            }
        } else {
            None
        },
    }
}

/// Read `k` table slots.
pub open spec fn spec_dec_slots(b: Seq<u8>, pos: int, k: nat) -> Option<
    (Seq<Option<AclEntryView>>, int),
>
    decreases k,
{
    if k == 0 {
        Some((Seq::empty(), pos))
    } else {
        match spec_dec_slot(b, pos) {
            None => None,
            Some((o, p)) => match spec_dec_slots(b, p, (k - 1) as nat) {
                None => None,
                Some((rest, p2)) => Some((seq![o] + rest, p2)),
            },
        }
    }
}

/// Read the whole table: the slot count must be the table capacity, the
/// slots must parse, and no bytes may remain.
pub open spec fn spec_dec_store(b: Seq<u8>) -> Option<Seq<Option<AclEntryView>>> {
    match spec_dec_u8(b, 0) {
        None => None,
        Some((n, p)) => if n as int != MAX_ACL_ENTRIES {
            None
        } else {
            match spec_dec_slots(b, p, n as nat) {
                None => None,
                Some((s, p2)) => if p2 == b.len() {
                    Some(s)
                } else {
                    None
                },
            }
        },
    }
}

// ---------------------------------------------------------------------
// Round trip: decoding an encoding yields the encoded value.
// ---------------------------------------------------------------------

/// Sequence concatenation is associative.
proof fn lemma_add_assoc(a: Seq<u8>, b: Seq<u8>, c: Seq<u8>)
    ensures
        (a + b) + c == a + (b + c),
{
    assert((a + b) + c =~= a + (b + c));
}

/// A byte range that holds a concatenation splits into a range per part.
proof fn lemma_split_head(b: Seq<u8>, pos: int, s1: Seq<u8>, s2: Seq<u8>)
    requires
        0 <= pos,
        pos + s1.len() + s2.len() <= b.len(),
        b.subrange(pos, pos + s1.len() + s2.len()) == s1 + s2,
    ensures
        b.subrange(pos, pos + s1.len()) == s1,
        b.subrange(pos + s1.len(), pos + s1.len() + s2.len()) == s2,
{
    let l1 = s1.len() as int;
    let l2 = s2.len() as int;
    assert forall|i: int| 0 <= i < l1 implies b.subrange(pos, pos + l1)[i] == s1[i] by {
        assert(b.subrange(pos, pos + l1 + l2)[i] == (s1 + s2)[i]);
    }
    assert(b.subrange(pos, pos + l1) =~= s1);
    assert forall|i: int| 0 <= i < l2 implies b.subrange(pos + l1, pos + l1 + l2)[i] == s2[i] by {
        assert(b.subrange(pos, pos + l1 + l2)[l1 + i] == (s1 + s2)[l1 + i]);
    }
    assert(b.subrange(pos + l1, pos + l1 + l2) =~= s2);
}

/// A byte range holding an optional-byte encoding decodes to that value.
proof fn lemma_dec_opt_u8_of_enc(b: Seq<u8>, pos: int, v: Option<u8>)
    requires
        0 <= pos,
        pos + spec_enc_opt_u8(v).len() <= b.len(),
        b.subrange(pos, pos + spec_enc_opt_u8(v).len()) == spec_enc_opt_u8(v),
    ensures
        spec_dec_opt_u8(b, pos) == Some((v, pos + spec_enc_opt_u8(v).len())),
{
    let enc = spec_enc_opt_u8(v);
    match v {
        None => {
            assert(b[pos] == 0) by {
                assert(b.subrange(pos, pos + 1)[0] == enc[0]);
            }
        },
        Some(x) => {
            assert(b[pos] == 1 && b[pos + 1] == x) by {
                assert(b.subrange(pos, pos + 2)[0] == enc[0]);
                assert(b.subrange(pos, pos + 2)[1] == enc[1]);
            }
        },
    }
}

/// A byte range holding an optional 16-bit encoding decodes to that value.
proof fn lemma_dec_opt_u16_of_enc(b: Seq<u8>, pos: int, v: Option<u16>)
    requires
        0 <= pos,
        pos + spec_enc_opt_u16(v).len() <= b.len(),
        b.subrange(pos, pos + spec_enc_opt_u16(v).len()) == spec_enc_opt_u16(v),
    ensures
        spec_dec_opt_u16(b, pos) == Some((v, pos + spec_enc_opt_u16(v).len())),
{
    lemma_auto_spec_u16_to_from_le_bytes();
    let enc = spec_enc_opt_u16(v);
    match v {
        None => {
            assert(b[pos] == 0) by {
                assert(b.subrange(pos, pos + 1)[0] == enc[0]);
            }
        },
        Some(x) => {
            let w = spec_u16_to_le_bytes(x);
            assert(enc.len() == 3);
            assert(b[pos] == 1) by {
                assert(b.subrange(pos, pos + 3)[0] == enc[0]);
            }
            assert(b.subrange(pos + 1, pos + 3) =~= w) by {
                assert forall|i: int| 0 <= i < 2 implies b.subrange(pos + 1, pos + 3)[i] == w[i]
                    by {
                    assert(b.subrange(pos, pos + 3)[1 + i] == enc[1 + i]);
                }
            }
            assert(spec_u16_from_le_bytes(b.subrange(pos + 1, pos + 3)) == x);
        },
    }
}

/// A byte range holding an optional 32-bit encoding decodes to that value.
proof fn lemma_dec_opt_u32_of_enc(b: Seq<u8>, pos: int, v: Option<u32>)
    requires
        0 <= pos,
        pos + spec_enc_opt_u32(v).len() <= b.len(),
        b.subrange(pos, pos + spec_enc_opt_u32(v).len()) == spec_enc_opt_u32(v),
    ensures
        spec_dec_opt_u32(b, pos) == Some((v, pos + spec_enc_opt_u32(v).len())),
{
    lemma_auto_spec_u32_to_from_le_bytes();
    let enc = spec_enc_opt_u32(v);
    match v {
        None => {
            assert(b[pos] == 0) by {
                assert(b.subrange(pos, pos + 1)[0] == enc[0]);
            }
        },
        Some(x) => {
            let w = spec_u32_to_le_bytes(x);
            assert(enc.len() == 5);
            assert(b[pos] == 1) by {
                assert(b.subrange(pos, pos + 5)[0] == enc[0]);
            }
            assert(b.subrange(pos + 1, pos + 5) =~= w) by {
                assert forall|i: int| 0 <= i < 4 implies b.subrange(pos + 1, pos + 5)[i] == w[i]
                    by {
                    assert(b.subrange(pos, pos + 5)[1 + i] == enc[1 + i]);
                }
            }
            assert(spec_u32_from_le_bytes(b.subrange(pos + 1, pos + 5)) == x);
        },
    }
}

/// A byte range holding an optional 64-bit encoding decodes to that value.
proof fn lemma_dec_opt_u64_of_enc(b: Seq<u8>, pos: int, v: Option<u64>)
    requires
        0 <= pos,
        pos + spec_enc_opt_u64(v).len() <= b.len(),
        b.subrange(pos, pos + spec_enc_opt_u64(v).len()) == spec_enc_opt_u64(v),
    ensures
        spec_dec_opt_u64(b, pos) == Some((v, pos + spec_enc_opt_u64(v).len())),
{
    lemma_auto_spec_u64_to_from_le_bytes();
    let enc = spec_enc_opt_u64(v);
    match v {
        None => {
            assert(b[pos] == 0) by {
                assert(b.subrange(pos, pos + 1)[0] == enc[0]);
            }
        },
        Some(x) => {
            let w = spec_u64_to_le_bytes(x);
            assert(enc.len() == 9);
            assert(b[pos] == 1) by {
                assert(b.subrange(pos, pos + 9)[0] == enc[0]);
            }
            assert(b.subrange(pos + 1, pos + 9) =~= w) by {
                assert forall|i: int| 0 <= i < 8 implies b.subrange(pos + 1, pos + 9)[i] == w[i]
                    by {
                    assert(b.subrange(pos, pos + 9)[1 + i] == enc[1 + i]);
                }
            }
            assert(spec_u64_from_le_bytes(b.subrange(pos + 1, pos + 9)) == x);
        },
    }
}

/// A byte range holding a target encoding decodes to that target.
proof fn lemma_dec_target_of_enc(b: Seq<u8>, pos: int, t: Target)
    requires
        0 <= pos,
        pos + spec_enc_target(t).len() <= b.len(),
        b.subrange(pos, pos + spec_enc_target(t).len()) == spec_enc_target(t),
    ensures
        spec_dec_target(b, pos) == Some((t, pos + spec_enc_target(t).len())),
{
    let c0 = spec_enc_opt_u16(t.endpoint);
    let c1 = spec_enc_opt_u32(t.cluster);
    let c2 = spec_enc_opt_u32(t.device_type);
    lemma_add_assoc(c0, c1, c2);
    lemma_split_head(b, pos, c0, c1 + c2);
    let p1 = pos + c0.len();
    lemma_split_head(b, p1, c1, c2);
    let p2 = p1 + c1.len();
    lemma_dec_opt_u16_of_enc(b, pos, t.endpoint);
    lemma_dec_opt_u32_of_enc(b, p1, t.cluster);
    lemma_dec_opt_u32_of_enc(b, p2, t.device_type);
}

/// A byte range holding a target-slot encoding decodes to that slot.
proof fn lemma_dec_opt_target_of_enc(b: Seq<u8>, pos: int, v: Option<Target>)
    requires
        0 <= pos,
        pos + spec_enc_opt_target(v).len() <= b.len(),
        b.subrange(pos, pos + spec_enc_opt_target(v).len()) == spec_enc_opt_target(v),
    ensures
        spec_dec_opt_target(b, pos) == Some((v, pos + spec_enc_opt_target(v).len())),
{
    let enc = spec_enc_opt_target(v);
    match v {
        None => {
            assert(b[pos] == 0) by {
                assert(b.subrange(pos, pos + 1)[0] == enc[0]);
            }
        },
        Some(t) => {
            let et = spec_enc_target(t);
            assert(b[pos] == 1) by {
                assert(b.subrange(pos, pos + enc.len())[0] == enc[0]);
            }
            assert(b.subrange(pos + 1, pos + 1 + et.len()) == et) by {
                lemma_split_head(b, pos, seq![1u8], et);
            }
            lemma_dec_target_of_enc(b, pos + 1, t);
        },
    }
}

/// A byte range holding an entry encoding decodes to that entry.
#[verifier::rlimit(60)]
proof fn lemma_dec_entry_of_enc(b: Seq<u8>, pos: int, e: AclEntryView)
    requires
        0 <= pos,
        spec_entry_encodable(e),
        pos + spec_enc_entry(e).len() <= b.len(),
        b.subrange(pos, pos + spec_enc_entry(e).len()) == spec_enc_entry(e),
    ensures
        spec_dec_entry(b, pos) == Some((e, pos + spec_enc_entry(e).len())),
{
    let c0: Seq<u8> = seq![spec_priv_byte(e.privilege), spec_auth_byte(e.auth_mode)];
    let c1 = spec_enc_opt_u64(e.subjects[0]);
    let c2 = spec_enc_opt_u64(e.subjects[1]);
    let c3 = spec_enc_opt_u64(e.subjects[2]);
    let c4 = spec_enc_opt_u64(e.subjects[3]);
    let c5 = spec_enc_opt_target(e.targets[0]);
    let c6 = spec_enc_opt_target(e.targets[1]);
    let c7 = spec_enc_opt_target(e.targets[2]);
    let c8 = spec_enc_opt_u8(e.fab_idx);
    let enc = spec_enc_entry(e);
    // Reassociate the concatenation so it can be split left to right.
    let r8 = c8;
    let r7 = c7 + r8;
    let r6 = c6 + r7;
    let r5 = c5 + r6;
    let r4 = c4 + r5;
    let r3 = c3 + r4;
    let r2 = c2 + r3;
    let r1 = c1 + r2;
    let l1 = c0 + c1;
    let l2 = l1 + c2;
    let l3 = l2 + c3;
    let l4 = l3 + c4;
    let l5 = l4 + c5;
    let l6 = l5 + c6;
    let l7 = l6 + c7;
    assert(enc == l7 + c8);
    lemma_add_assoc(l6, c7, c8);
    lemma_add_assoc(l5, c6, r7);
    lemma_add_assoc(l4, c5, r6);
    lemma_add_assoc(l3, c4, r5);
    lemma_add_assoc(l2, c3, r4);
    lemma_add_assoc(l1, c2, r3);
    lemma_add_assoc(c0, c1, r2);
    assert(enc == c0 + r1);
    lemma_split_head(b, pos, c0, r1);
    let p0 = pos + c0.len();
    lemma_split_head(b, p0, c1, r2);
    let p1 = p0 + c1.len();
    lemma_split_head(b, p1, c2, r3);
    let p2 = p1 + c2.len();
    lemma_split_head(b, p2, c3, r4);
    let p3 = p2 + c3.len();
    lemma_split_head(b, p3, c4, r5);
    let p4 = p3 + c4.len();
    lemma_split_head(b, p4, c5, r6);
    let p5 = p4 + c5.len();
    lemma_split_head(b, p5, c6, r7);
    let p6 = p5 + c6.len();
    lemma_split_head(b, p6, c7, r8);
    let p7 = p6 + c7.len();
    assert(b[pos] == spec_priv_byte(e.privilege) && b[pos + 1] == spec_auth_byte(e.auth_mode))
        by {
        assert(b.subrange(pos, pos + 2)[0] == c0[0]);
        assert(b.subrange(pos, pos + 2)[1] == c0[1]);
    }
    lemma_dec_opt_u64_of_enc(b, p0, e.subjects[0]);
    lemma_dec_opt_u64_of_enc(b, p1, e.subjects[1]);
    lemma_dec_opt_u64_of_enc(b, p2, e.subjects[2]);
    lemma_dec_opt_u64_of_enc(b, p3, e.subjects[3]);
    lemma_dec_opt_target_of_enc(b, p4, e.targets[0]);
    lemma_dec_opt_target_of_enc(b, p5, e.targets[1]);
    lemma_dec_opt_target_of_enc(b, p6, e.targets[2]);
    lemma_dec_opt_u8_of_enc(b, p7, e.fab_idx);
    let d = AclEntryView {
        privilege: e.privilege,
        auth_mode: e.auth_mode,
        subjects: seq![e.subjects[0], e.subjects[1], e.subjects[2], e.subjects[3]],
        targets: seq![e.targets[0], e.targets[1], e.targets[2]],
        fab_idx: e.fab_idx,
    };
    assert(d.subjects =~= e.subjects);
    assert(d.targets =~= e.targets);
    assert(d =~= e);
}

/// A byte range holding a slot encoding decodes to that slot.
proof fn lemma_dec_slot_of_enc(b: Seq<u8>, pos: int, v: Option<AclEntryView>)
    requires
        0 <= pos,
        v matches Some(e) ==> spec_entry_encodable(e),
        pos + spec_enc_slot(v).len() <= b.len(),
        b.subrange(pos, pos + spec_enc_slot(v).len()) == spec_enc_slot(v),
    ensures
        spec_dec_slot(b, pos) == Some((v, pos + spec_enc_slot(v).len())),
{
    let enc = spec_enc_slot(v);
    match v {
        None => {
            assert(b[pos] == 0) by {
                assert(b.subrange(pos, pos + 1)[0] == enc[0]);
            }
        },
        Some(e) => {
            let ee = spec_enc_entry(e);
            assert(b[pos] == 1) by {
                assert(b.subrange(pos, pos + enc.len())[0] == enc[0]);
            }
            assert(b.subrange(pos + 1, pos + 1 + ee.len()) == ee) by {
                lemma_split_head(b, pos, seq![1u8], ee);
            }
            lemma_dec_entry_of_enc(b, pos + 1, e);
        },
    }
}

/// A byte range holding the encoding of a slot sequence decodes to exactly
/// that sequence.
proof fn lemma_dec_slots_of_enc(b: Seq<u8>, pos: int, s: Seq<Option<AclEntryView>>)
    requires
        0 <= pos,
        forall|i: int|
            0 <= i < s.len() ==> (#[trigger] s[i] matches Some(e) ==> spec_entry_encodable(e)),
        pos + spec_enc_slots(s).len() <= b.len(),
        b.subrange(pos, pos + spec_enc_slots(s).len()) == spec_enc_slots(s),
    ensures
        spec_dec_slots(b, pos, s.len()) == Some((s, pos + spec_enc_slots(s).len())),
    decreases s.len(),
{
    if s.len() == 0 {
        assert(s =~= Seq::<Option<AclEntryView>>::empty());
    } else {
        let head = spec_enc_slot(s[0]);
        let tail = s.drop_first();
        lemma_split_head(b, pos, head, spec_enc_slots(tail));
        lemma_dec_slot_of_enc(b, pos, s[0]);
        let p1 = pos + head.len();
        assert(forall|i: int|
            0 <= i < tail.len() ==> (#[trigger] tail[i] matches Some(e)
                ==> spec_entry_encodable(e))) by {
            assert(forall|i: int| 0 <= i < tail.len() ==> tail[i] == s[i + 1]);
        }
        lemma_dec_slots_of_enc(b, p1, tail);
        assert(seq![s[0]] + tail =~= s);
    }
}

/// Four optional slots are packed exactly when each occupied slot's
/// predecessor is occupied.
proof fn lemma_packed4<T>(s0: Option<T>, s1: Option<T>, s2: Option<T>, s3: Option<T>)
    ensures
        spec_packed(seq![s0, s1, s2, s3]) == ((s1 is Some ==> s0 is Some) && (s2 is Some
            ==> s1 is Some) && (s3 is Some ==> s2 is Some)),
{
    let sq = seq![s0, s1, s2, s3];
    if (s1 is Some ==> s0 is Some) && (s2 is Some ==> s1 is Some) && (s3 is Some ==> s2 is Some) {
        assert forall|i: int, j: int| 0 <= i < j < sq.len() && sq[j] is Some implies sq[i] is Some
            by {
            assert(sq[3] is Some ==> sq[2] is Some);
            assert(sq[2] is Some ==> sq[1] is Some);
            assert(sq[1] is Some ==> sq[0] is Some);
        }
    } else {
        if s1 is Some && s0 is None {
            assert(sq[1] is Some && sq[0] is None);
        } else if s2 is Some && s1 is None {
            assert(sq[2] is Some && sq[1] is None);
        } else {
            assert(sq[3] is Some && sq[2] is None);
        }
    }
}

/// Three optional slots are packed exactly when each occupied slot's
/// predecessor is occupied.
proof fn lemma_packed3<T>(s0: Option<T>, s1: Option<T>, s2: Option<T>)
    ensures
        spec_packed(seq![s0, s1, s2]) == ((s1 is Some ==> s0 is Some) && (s2 is Some
            ==> s1 is Some)),
{
    let sq = seq![s0, s1, s2];
    if (s1 is Some ==> s0 is Some) && (s2 is Some ==> s1 is Some) {
        assert forall|i: int, j: int| 0 <= i < j < sq.len() && sq[j] is Some implies sq[i] is Some
            by {
            assert(sq[2] is Some ==> sq[1] is Some);
            assert(sq[1] is Some ==> sq[0] is Some);
        }
    } else {
        if s1 is Some && s0 is None {
            assert(sq[1] is Some && sq[0] is None);
        } else {
            assert(sq[2] is Some && sq[1] is None);
        }
    }
}

// ---------------------------------------------------------------------
// Encoded lengths are bounded, so the table fits a fixed persistence
// buffer.
// ---------------------------------------------------------------------

/// One entry encodes into at most 82 bytes.
proof fn lemma_enc_entry_len(e: AclEntryView)
    ensures
        spec_enc_entry(e).len() <= 82,
{
    lemma_auto_spec_u16_to_from_le_bytes();
    lemma_auto_spec_u32_to_from_le_bytes();
    lemma_auto_spec_u64_to_from_le_bytes();
    assert(spec_enc_opt_u64(e.subjects[0]).len() <= 9);
    assert(spec_enc_opt_u64(e.subjects[1]).len() <= 9);
    assert(spec_enc_opt_u64(e.subjects[2]).len() <= 9);
    assert(spec_enc_opt_u64(e.subjects[3]).len() <= 9);
    assert(spec_enc_opt_target(e.targets[0]).len() <= 14);
    assert(spec_enc_opt_target(e.targets[1]).len() <= 14);
    assert(spec_enc_opt_target(e.targets[2]).len() <= 14);
    assert(spec_enc_opt_u8(e.fab_idx).len() <= 2);
}

/// One slot encodes into at most 83 bytes.
proof fn lemma_enc_slot_len(v: Option<AclEntryView>)
    ensures
        spec_enc_slot(v).len() <= 83,
{
    match v {
        None => {},
        Some(e) => {
            lemma_enc_entry_len(e);
        },
    }
}

/// A slot sequence encodes into at most 83 bytes per slot.
proof fn lemma_enc_slots_len(s: Seq<Option<AclEntryView>>)
    ensures
        spec_enc_slots(s).len() <= 83 * s.len(),
    decreases s.len(),
{
    if s.len() > 0 {
        lemma_enc_slot_len(s[0]);
        lemma_enc_slots_len(s.drop_first());
    }
}

/// Appending one slot to a sequence appends its encoding to the bytes.
proof fn lemma_enc_slots_snoc(s: Seq<Option<AclEntryView>>, x: Option<AclEntryView>)
    ensures
        spec_enc_slots(s.push(x)) == spec_enc_slots(s) + spec_enc_slot(x),
    decreases s.len(),
{
    let p = s.push(x);
    if s.len() == 0 {
        assert(p[0] == x);
        assert(p.drop_first() =~= Seq::<Option<AclEntryView>>::empty());
        assert(spec_enc_slots(p) == spec_enc_slot(x) + spec_enc_slots(
            Seq::<Option<AclEntryView>>::empty(),
        ));
        assert(spec_enc_slots(p) =~= spec_enc_slots(s) + spec_enc_slot(x));
    } else {
        assert(p[0] == s[0]);
        assert(p.drop_first() =~= s.drop_first().push(x));
        lemma_enc_slots_snoc(s.drop_first(), x);
        lemma_add_assoc(
            spec_enc_slot(s[0]),
            spec_enc_slots(s.drop_first()),
            spec_enc_slot(x),
        );
    }
}


// ---------------------------------------------------------------------
// The executable encoder.
// ---------------------------------------------------------------------

/// Append every byte of `bytes` to `out`.
fn push_bytes(out: &mut Vec<u8>, bytes: &Vec<u8>)
    ensures
        final(out)@ == old(out)@ + bytes@,
{
    proof {
        assert(out@ =~= old(out)@ + bytes@.take(0));
    }
    let n = bytes.len();
    let mut i: usize = 0;
    while i < n
        invariant
            n == bytes@.len(),
            i <= n,
            out@ == old(out)@ + bytes@.take(i as int),
        decreases n - i,
    {
        out.push(bytes[i]);
        proof {
            assert(out@ =~= old(out)@ + bytes@.take(i as int + 1));
        }
        i = i + 1;
    }
    proof {
        assert(bytes@.take(n as int) =~= bytes@);
    }
}

/// Append an optional byte.
fn push_opt_u8(out: &mut Vec<u8>, v: Option<u8>)
    ensures
        final(out)@ == old(out)@ + spec_enc_opt_u8(v),
{
    match v {
        None => {
            out.push(0u8);
            proof {
                assert(out@ =~= old(out)@ + spec_enc_opt_u8(v));
            }
        },
        Some(x) => {
            out.push(1u8);
            out.push(x);
            proof {
                assert(out@ =~= old(out)@ + spec_enc_opt_u8(v));
            }
        },
    }
}

/// Append an optional 16-bit integer.
fn push_opt_u16(out: &mut Vec<u8>, v: Option<u16>)
    ensures
        final(out)@ == old(out)@ + spec_enc_opt_u16(v),
{
    match v {
        None => {
            out.push(0u8);
            proof {
                assert(out@ =~= old(out)@ + spec_enc_opt_u16(v));
            }
        },
        Some(x) => {
            out.push(1u8);
            let bytes = vstd::bytes::u16_to_le_bytes(x);
            push_bytes(out, &bytes);
            proof {
                assert(out@ =~= old(out)@ + spec_enc_opt_u16(v));
            }
        },
    }
}

/// Append an optional 32-bit integer.
fn push_opt_u32(out: &mut Vec<u8>, v: Option<u32>)
    ensures
        final(out)@ == old(out)@ + spec_enc_opt_u32(v),
{
    match v {
        None => {
            out.push(0u8);
            proof {
                assert(out@ =~= old(out)@ + spec_enc_opt_u32(v));
            }
        },
        Some(x) => {
            out.push(1u8);
            let bytes = vstd::bytes::u32_to_le_bytes(x);
            push_bytes(out, &bytes);
            proof {
                assert(out@ =~= old(out)@ + spec_enc_opt_u32(v));
            }
        },
    }
}

/// Append an optional 64-bit integer.
fn push_opt_u64(out: &mut Vec<u8>, v: Option<u64>)
    ensures
        final(out)@ == old(out)@ + spec_enc_opt_u64(v),
{
    match v {
        None => {
            out.push(0u8);
            proof {
                assert(out@ =~= old(out)@ + spec_enc_opt_u64(v));
            }
        },
        Some(x) => {
            out.push(1u8);
            let bytes = vstd::bytes::u64_to_le_bytes(x);
            push_bytes(out, &bytes);
            proof {
                assert(out@ =~= old(out)@ + spec_enc_opt_u64(v));
            }
        },
    }
}

/// Append an optional target slot.
fn push_opt_target(out: &mut Vec<u8>, v: Option<Target>)
    ensures
        final(out)@ == old(out)@ + spec_enc_opt_target(v),
{
    match v {
        None => {
            out.push(0u8);
            proof {
                assert(out@ =~= old(out)@ + spec_enc_opt_target(v));
            }
        },
        Some(t) => {
            out.push(1u8);
            push_opt_u16(out, t.endpoint);
            push_opt_u32(out, t.cluster);
            push_opt_u32(out, t.device_type);
            proof {
                assert(out@ =~= old(out)@ + spec_enc_opt_target(v));
            }
        },
    }
}

/// Append one entry.
#[verifier::rlimit(60)]
fn push_entry(out: &mut Vec<u8>, e: &AclEntry)
    requires
        spec_entry_wf(e@),
    ensures
        final(out)@ == old(out)@ + spec_enc_entry(e@),
{
    let pb: u8 = match e.privilege {
        Privilege::View => 1,
        Privilege::Operate => 2,
        Privilege::Manage => 3,
        Privilege::Admin => 4,
    };
    let ab: u8 = match e.auth_mode {
        AuthMode::Pase => 1,
        AuthMode::Case => 2,
        AuthMode::Group => 3,
        AuthMode::Invalid => 0,
    };
    out.push(pb);
    out.push(ab);
    push_opt_u64(out, e.subjects[0]);
    push_opt_u64(out, e.subjects[1]);
    push_opt_u64(out, e.subjects[2]);
    push_opt_u64(out, e.subjects[3]);
    push_opt_target(out, e.targets[0]);
    push_opt_target(out, e.targets[1]);
    push_opt_target(out, e.targets[2]);
    push_opt_u8(out, e.fab_idx);
    proof {
        let base = old(out)@;
        let c0: Seq<u8> = seq![spec_priv_byte(e@.privilege), spec_auth_byte(e@.auth_mode)];
        let c1 = spec_enc_opt_u64(e@.subjects[0]);
        let c2 = spec_enc_opt_u64(e@.subjects[1]);
        let c3 = spec_enc_opt_u64(e@.subjects[2]);
        let c4 = spec_enc_opt_u64(e@.subjects[3]);
        let c5 = spec_enc_opt_target(e@.targets[0]);
        let c6 = spec_enc_opt_target(e@.targets[1]);
        let c7 = spec_enc_opt_target(e@.targets[2]);
        let c8 = spec_enc_opt_u8(e@.fab_idx);
        assert(base.push(pb).push(ab) =~= base + c0);
        let e1 = c0 + c1;
        let e2 = e1 + c2;
        let e3 = e2 + c3;
        let e4 = e3 + c4;
        let e5 = e4 + c5;
        let e6 = e5 + c6;
        let e7 = e6 + c7;
        let e8 = e7 + c8;
        lemma_add_assoc(base, c0, c1);
        lemma_add_assoc(base, e1, c2);
        lemma_add_assoc(base, e2, c3);
        lemma_add_assoc(base, e3, c4);
        lemma_add_assoc(base, e4, c5);
        lemma_add_assoc(base, e5, c6);
        lemma_add_assoc(base, e6, c7);
        lemma_add_assoc(base, e7, c8);
        assert(spec_enc_entry(e@) == e8);
    }
}

/// Encode the whole table into one record.  The result always fits the
/// fixed persistence buffer.
pub fn encode_store(entries: &Vec<Option<AclEntry>>) -> (r: Vec<u8>)
    requires
        spec_store_wf(spec_slots_view(entries@)),
    ensures
        r@ == spec_enc_store(spec_slots_view(entries@)),
        r@.len() <= ACL_KV_MAX_SIZE,
{
    let ghost sv = spec_slots_view(entries@);
    let n = entries.len();
    let mut out: Vec<u8> = Vec::new();
    out.push(n as u8);
    proof {
        assert(out@ =~= seq![n as u8] + spec_enc_slots(sv.take(0)));
    }
    let mut i: usize = 0;
    while i < n
        invariant
            n == entries@.len(),
            n == sv.len(),
            sv == spec_slots_view(entries@),
            spec_store_wf(sv),
            i <= n,
            out@ == seq![n as u8] + spec_enc_slots(sv.take(i as int)),
        decreases n - i,
    {
        match &entries[i] {
            Some(e) => {
                proof {
                    assert(sv[i as int] == Some(e@));
                }
                out.push(1u8);
                push_entry(&mut out, e);
            },
            None => {
                out.push(0u8);
            },
        }
        proof {
            assert(sv.take(i as int + 1) =~= sv.take(i as int).push(sv[i as int]));
            lemma_enc_slots_snoc(sv.take(i as int), sv[i as int]);
            assert(out@ =~= seq![n as u8] + spec_enc_slots(sv.take(i as int + 1)));
        }
        i = i + 1;
    }
    proof {
        assert(sv.take(n as int) =~= sv);
        lemma_enc_slots_len(sv);
    }
    out
}

// ---------------------------------------------------------------------
// The executable decoder.  Each piece mirrors its mathematical
// counterpart exactly, malformed bytes included.
// ---------------------------------------------------------------------

/// Read one byte.
fn parse_u8(b: &[u8], pos: usize) -> (r: Option<(u8, usize)>)
    ensures
        r is Some <==> spec_dec_u8(b@, pos as int) is Some,
        r matches Some(x) ==> spec_dec_u8(b@, pos as int) == Some((x.0, x.1 as int)),
{
    if pos < b.len() {
        Some((b[pos], pos + 1))
    } else {
        None
    }
}

/// Read a little-endian 16-bit integer.
fn parse_u16(b: &[u8], pos: usize) -> (r: Option<(u16, usize)>)
    ensures
        r is Some <==> spec_dec_u16(b@, pos as int) is Some,
        r matches Some(x) ==> spec_dec_u16(b@, pos as int) == Some((x.0, x.1 as int)),
{
    if b.len() >= 2 && pos <= b.len() - 2 {
        let sub = vstd::slice::slice_subrange(b, pos, pos + 2);
        let x = vstd::bytes::u16_from_le_bytes(sub);
        Some((x, pos + 2))
    } else {
        None
    }
}

/// Read a little-endian 32-bit integer.
fn parse_u32(b: &[u8], pos: usize) -> (r: Option<(u32, usize)>)
    ensures
        r is Some <==> spec_dec_u32(b@, pos as int) is Some,
        r matches Some(x) ==> spec_dec_u32(b@, pos as int) == Some((x.0, x.1 as int)),
{
    if b.len() >= 4 && pos <= b.len() - 4 {
        let sub = vstd::slice::slice_subrange(b, pos, pos + 4);
        let x = vstd::bytes::u32_from_le_bytes(sub);
        Some((x, pos + 4))
    } else {
        None
    }
}

/// Read a little-endian 64-bit integer.
fn parse_u64(b: &[u8], pos: usize) -> (r: Option<(u64, usize)>)
    ensures
        r is Some <==> spec_dec_u64(b@, pos as int) is Some,
        r matches Some(x) ==> spec_dec_u64(b@, pos as int) == Some((x.0, x.1 as int)),
{
    if b.len() >= 8 && pos <= b.len() - 8 {
        let sub = vstd::slice::slice_subrange(b, pos, pos + 8);
        let x = vstd::bytes::u64_from_le_bytes(sub);
        Some((x, pos + 8))
    } else {
        None
    }
}

/// Read an optional byte.
fn parse_opt_u8(b: &[u8], pos: usize) -> (r: Option<(Option<u8>, usize)>)
    ensures
        r is Some <==> spec_dec_opt_u8(b@, pos as int) is Some,
        r matches Some(x) ==> spec_dec_opt_u8(b@, pos as int) == Some((x.0, x.1 as int)),
{
    let (tag, p) = match parse_u8(b, pos) {
        Some(x) => x,
        None => {
            return None;
        },
    };
    if tag == 0 {
        Some((None, p))
    } else if tag == 1 {
        match parse_u8(b, p) {
            Some((x, p2)) => Some((Some(x), p2)),
            None => None,
        }
    } else {
        None
    }
}

/// Read an optional 16-bit integer.
fn parse_opt_u16(b: &[u8], pos: usize) -> (r: Option<(Option<u16>, usize)>)
    ensures
        r is Some <==> spec_dec_opt_u16(b@, pos as int) is Some,
        r matches Some(x) ==> spec_dec_opt_u16(b@, pos as int) == Some((x.0, x.1 as int)),
{
    let (tag, p) = match parse_u8(b, pos) {
        Some(x) => x,
        None => {
            return None;
        },
    };
    if tag == 0 {
        Some((None, p))
    } else if tag == 1 {
        match parse_u16(b, p) {
            Some((x, p2)) => Some((Some(x), p2)),
            None => None,
        }
    } else {
        None
    }
}

/// Read an optional 32-bit integer.
fn parse_opt_u32(b: &[u8], pos: usize) -> (r: Option<(Option<u32>, usize)>)
    ensures
        r is Some <==> spec_dec_opt_u32(b@, pos as int) is Some,
        r matches Some(x) ==> spec_dec_opt_u32(b@, pos as int) == Some((x.0, x.1 as int)),
{
    let (tag, p) = match parse_u8(b, pos) {
        Some(x) => x,
        None => {
            return None;
        },
    };
    if tag == 0 {
        Some((None, p))
    } else if tag == 1 {
        match parse_u32(b, p) {
            Some((x, p2)) => Some((Some(x), p2)),
            None => None,
        }
    } else {
        None
    }
}

/// Read an optional 64-bit integer.
fn parse_opt_u64(b: &[u8], pos: usize) -> (r: Option<(Option<u64>, usize)>)
    ensures
        r is Some <==> spec_dec_opt_u64(b@, pos as int) is Some,
        r matches Some(x) ==> spec_dec_opt_u64(b@, pos as int) == Some((x.0, x.1 as int)),
{
    let (tag, p) = match parse_u8(b, pos) {
        Some(x) => x,
        None => {
            return None;
        },
    };
    if tag == 0 {
        Some((None, p))
    } else if tag == 1 {
        match parse_u64(b, p) {
            Some((x, p2)) => Some((Some(x), p2)),
            None => None,
        }
    } else {
        None
    }
}

/// Read an optional target slot.
fn parse_opt_target(b: &[u8], pos: usize) -> (r: Option<(Option<Target>, usize)>)
    ensures
        r is Some <==> spec_dec_opt_target(b@, pos as int) is Some,
        r matches Some(x) ==> spec_dec_opt_target(b@, pos as int) == Some((x.0, x.1 as int)),
{
    let (tag, p) = match parse_u8(b, pos) {
        Some(x) => x,
        None => {
            return None;
        },
    };
    if tag == 0 {
        Some((None, p))
    } else if tag == 1 {
        let (endpoint, p1) = match parse_opt_u16(b, p) {
            Some(x) => x,
            None => {
                return None;
            },
        };
        let (cluster, p2) = match parse_opt_u32(b, p1) {
            Some(x) => x,
            None => {
                return None;
            },
        };
        let (device_type, p3) = match parse_opt_u32(b, p2) {
            Some(x) => x,
            None => {
                return None;
            },
        };
        Some((Some(Target { cluster, endpoint, device_type }), p3))
    } else {
        None
    }
}

/// Read one entry.
fn parse_entry(b: &[u8], pos: usize) -> (r: Option<(AclEntry, usize)>)
    ensures
        r is Some <==> spec_dec_entry(b@, pos as int) is Some,
        r matches Some(x) ==> spec_dec_entry(b@, pos as int) == Some((x.0@, x.1 as int))
            && spec_entry_wf(x.0@),
{
    let (pb, p1) = match parse_u8(b, pos) {
        Some(x) => x,
        None => {
            return None;
        },
    };
    let privilege = if pb == 1 {
        Privilege::View
    } else if pb == 2 {
        Privilege::Operate
    } else if pb == 3 {
        Privilege::Manage
    } else if pb == 4 {
        Privilege::Admin
    } else {
        return None;
    };
    let (ab, p2) = match parse_u8(b, p1) {
        Some(x) => x,
        None => {
            return None;
        },
    };
    let auth_mode = if ab == 1 {
        AuthMode::Pase
    } else if ab == 2 {
        AuthMode::Case
    } else if ab == 3 {
        AuthMode::Group
    } else {
        return None;
    };
    let (s0, q0) = match parse_opt_u64(b, p2) {
        Some(x) => x,
        None => {
            return None;
        },
    };
    let (s1, q1) = match parse_opt_u64(b, q0) {
        Some(x) => x,
        None => {
            return None;
        },
    };
    let (s2, q2) = match parse_opt_u64(b, q1) {
        Some(x) => x,
        None => {
            return None;
        },
    };
    let (s3, q3) = match parse_opt_u64(b, q2) {
        Some(x) => x,
        None => {
            return None;
        },
    };
    let (t0, r0) = match parse_opt_target(b, q3) {
        Some(x) => x,
        None => {
            return None;
        },
    };
    let (t1, r1) = match parse_opt_target(b, r0) {
        Some(x) => x,
        None => {
            return None;
        },
    };
    let (t2, r2) = match parse_opt_target(b, r1) {
        Some(x) => x,
        None => {
            return None;
        },
    };
    let (fab_idx, r3) = match parse_opt_u8(b, r2) {
        Some(x) => x,
        None => {
            return None;
        },
    };
    let subjects_packed = (s1.is_none() || s0.is_some()) && (s2.is_none() || s1.is_some())
        && (s3.is_none() || s2.is_some());
    let targets_packed = (t1.is_none() || t0.is_some()) && (t2.is_none() || t1.is_some());
    proof {
        lemma_packed4(s0, s1, s2, s3);
        lemma_packed3(t0, t1, t2);
    }
    if !(subjects_packed && targets_packed) {
        return None;
    }
    let mut subjects: Vec<Option<u64>> = Vec::new();
    subjects.push(s0);
    subjects.push(s1);
    subjects.push(s2);
    subjects.push(s3);
    let mut targets: Vec<Option<Target>> = Vec::new();
    targets.push(t0);
    targets.push(t1);
    targets.push(t2);
    let e = AclEntry { privilege, auth_mode, subjects, targets, fab_idx };
    proof {
        assert(e@.subjects =~= seq![s0, s1, s2, s3]);
        assert(e@.targets =~= seq![t0, t1, t2]);
    }
    Some((e, r3))
}

/// Read one table slot.
fn parse_slot(b: &[u8], pos: usize) -> (r: Option<(Option<AclEntry>, usize)>)
    ensures
        r is Some <==> spec_dec_slot(b@, pos as int) is Some,
        r matches Some(x) ==> spec_dec_slot(b@, pos as int) == Some((
            match x.0 {
                Some(e) => Some(e@),
                None => None,
            },
            x.1 as int,
        )) && (x.0 matches Some(e) ==> spec_entry_wf(e@)),
{
    let (tag, p) = match parse_u8(b, pos) {
        Some(x) => x,
        None => {
            return None;
        },
    };
    if tag == 0 {
        Some((None, p))
    } else if tag == 1 {
        match parse_entry(b, p) {
            Some((e, p2)) => Some((Some(e), p2)),
            None => None,
        }
    } else {
        None
    }
}

/// Read `k` table slots.
#[verifier::rlimit(100)]
fn parse_slots(b: &[u8], pos: usize, k: usize) -> (r: Option<(Vec<Option<AclEntry>>, usize)>)
    ensures
        r is Some <==> spec_dec_slots(b@, pos as int, k as nat) is Some,
        r matches Some(x) ==> spec_dec_slots(b@, pos as int, k as nat) == Some((
            spec_slots_view(x.0@),
            x.1 as int,
        )) && x.0@.len() == k,
    decreases k,
{
    if k == 0 {
        let v: Vec<Option<AclEntry>> = Vec::new();
        proof {
            assert(spec_slots_view(v@) =~= Seq::<Option<AclEntryView>>::empty());
        }
        Some((v, pos))
    } else {
        let (slot, p) = match parse_slot(b, pos) {
            Some(x) => x,
            None => {
                return None;
            },
        };
        let (mut rest, p2) = match parse_slots(b, p, k - 1) {
            Some(x) => x,
            None => {
                return None;
            },
        };
        let ghost rest_view = spec_slots_view(rest@);
        let ghost slot_view = (match &slot {
            Some(e) => Some(e@),
            None => None,
        });
        rest.insert(0, slot);
        proof {
            assert(spec_slots_view(rest@) =~= seq![slot_view] + rest_view);
        }
        Some((rest, p2))
    }
}

/// Decode a persisted record into a slot array.  Malformed bytes are an
/// input error, never a panic.
pub fn decode_store(b: &[u8]) -> (r: Result<Vec<Option<AclEntry>>, Error>)
    ensures
        r is Ok <==> spec_dec_store(b@) is Some,
        r matches Ok(v) ==> spec_dec_store(b@) == Some(spec_slots_view(v@)) && spec_store_wf(
            spec_slots_view(v@),
        ),
        r is Err ==> r == Err::<Vec<Option<AclEntry>>, Error>(Error::Invalid),
{
    let (n, p) = match parse_u8(b, 0) {
        Some(x) => x,
        None => {
            return Err(Error::Invalid);
        },
    };
    if n as usize != MAX_ACL_ENTRIES {
        return Err(Error::Invalid);
    }
    let (v, p2) = match parse_slots(b, p, n as usize) {
        Some(x) => x,
        None => {
            return Err(Error::Invalid);
        },
    };
    if p2 != b.len() {
        return Err(Error::Invalid);
    }
    proof {
        assert(spec_store_wf(spec_slots_view(v@))) by {
            lemma_dec_slots_wf(b@, p as int, n as nat);
        }
    }
    Ok(v)
}

/// Every entry a slot-sequence decode yields is well formed.
proof fn lemma_dec_slots_wf(b: Seq<u8>, pos: int, k: nat)
    ensures
        spec_dec_slots(b, pos, k) matches Some(x) ==> forall|i: int|
            0 <= i < x.0.len() ==> (#[trigger] x.0[i] matches Some(e) ==> spec_entry_wf(e)),
    decreases k,
{
    if k > 0 {
        match spec_dec_slot(b, pos) {
            None => {},
            Some((o, p)) => {
                lemma_dec_slots_wf(b, p, (k - 1) as nat);
                match spec_dec_slots(b, p, (k - 1) as nat) {
                    None => {},
                    Some((rest, p2)) => {
                        assert forall|i: int| 0 <= i < (seq![o] + rest).len() implies (
                        #[trigger] (seq![o] + rest)[i] matches Some(e) ==> spec_entry_wf(e)) by {
                            if i == 0 {
                                lemma_dec_slot_entry_wf(b, pos);
                                assert((seq![o] + rest)[0] == o);
                            } else {
                                assert((seq![o] + rest)[i] == rest[i - 1]);
                            }
                        }
                    },
                }
            },
        }
    }
}

/// An entry a slot decode yields is well formed.
proof fn lemma_dec_slot_entry_wf(b: Seq<u8>, pos: int)
    ensures
        spec_dec_slot(b, pos) matches Some(x) ==> (x.0 matches Some(e) ==> spec_entry_wf(e)),
{
}

/// Round trip: decoding the encoding of a well-formed table yields the same
/// table, slot for slot and field for field.
pub proof fn lemma_store_round_trip(s: Seq<Option<AclEntryView>>)
    requires
        spec_store_encodable(s),
    ensures
        spec_dec_store(spec_enc_store(s)) == Some(s),
{
    let b = spec_enc_store(s);
    let slots = spec_enc_slots(s);
    assert(b[0] == s.len() as u8);
    assert(b.subrange(0, b.len() as int) =~= b);
    assert(b.len() == 1 + slots.len());
    lemma_split_head(b, 0, seq![s.len() as u8], slots);
    lemma_dec_slots_of_enc(b, 1, s);
}

} // verus!
