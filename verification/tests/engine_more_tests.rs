use std::cell::RefCell;

use matter_acl::cat::{get_noc_cat_id, get_noc_cat_version, is_noc_cat, NOC_CAT_SUBJECT_PREFIX};
use matter_acl::{
    gen_noc_cat, Access, AccessReq, Accessor, AccessorSubjects, AclEntry, AclMgr, AclMgrInner,
    AuthMode, Error, GenericPath, Privilege, Target,
};

#[test]
fn test_pase_implicit_allow() {
    // A provisional (PASE) session is granted even with an empty store.
    let am = AclMgr::new_with(false).unwrap();
    let accessor = Accessor::new(0, AccessorSubjects::new(1), AuthMode::Pase);
    let path = GenericPath::new(Some(1), Some(1234), None);
    let req = AccessReq::new(&accessor, &path, Access::read());
    assert_eq!(req.allow(&am), true);
}

#[test]
fn test_gen_noc_cat_exact() {
    assert_eq!(gen_noc_cat(0xABCD, 2), 0xABCD_0002);
    assert_eq!(gen_noc_cat(0, 0), 0);
    assert_eq!(gen_noc_cat(0xFFFF, 0xFFFF), 0xFFFF_FFFF);
}

#[test]
fn test_cat_codec_fields() {
    let subject = NOC_CAT_SUBJECT_PREFIX | (gen_noc_cat(0xABCD, 7) as u64);
    assert!(is_noc_cat(subject));
    assert_eq!(get_noc_cat_id(subject), 0xABCD);
    assert_eq!(get_noc_cat_version(subject), 7);
    assert!(!is_noc_cat(112233));
}

#[test]
fn test_subjects_matches() {
    let subjects = AccessorSubjects::new(5);
    assert!(subjects.matches(5));
    assert!(!subjects.matches(6));
    // The empty-slot sentinel never matches, even as a candidate.
    assert!(!subjects.matches(0));
}

#[test]
fn test_accessor_subjects_capacity() {
    let mut subjects = AccessorSubjects::new(112233);
    assert!(subjects.add_catid(gen_noc_cat(1, 1)).is_ok());
    assert!(subjects.add_catid(gen_noc_cat(2, 1)).is_ok());
    assert!(subjects.add_catid(gen_noc_cat(3, 1)).is_ok());
    assert_eq!(subjects.add_catid(gen_noc_cat(4, 1)), Err(Error::NoSpace));
}

#[test]
fn test_entry_slot_capacity() {
    let mut e = AclEntry::new(1, Privilege::View, AuthMode::Case);
    assert!(e.add_subject(1).is_ok());
    assert!(e.add_subject(2).is_ok());
    assert!(e.add_subject(3).is_ok());
    assert!(e.add_subject(4).is_ok());
    assert_eq!(e.add_subject(5), Err(Error::NoSpace));

    let t = Target { cluster: None, endpoint: Some(1), device_type: None };
    assert!(e.add_target(t).is_ok());
    assert!(e.add_target(t).is_ok());
    assert!(e.add_target(t).is_ok());
    assert_eq!(e.add_target(t), Err(Error::NoSpace));
}

#[test]
fn test_per_fabric_and_global_capacity() {
    let mut am = AclMgr::new_with(false).unwrap();
    // A fabric may hold at most three entries.
    for _ in 0..3 {
        am.add(AclEntry::new(1, Privilege::View, AuthMode::Case)).unwrap();
    }
    assert_eq!(
        am.add(AclEntry::new(1, Privilege::View, AuthMode::Case)),
        Err(Error::NoSpace)
    );
    // Fill the remaining fabrics; then no free slot remains for a fourth.
    for fab in 2..=3 {
        for _ in 0..3 {
            am.add(AclEntry::new(fab, Privilege::View, AuthMode::Case)).unwrap();
        }
    }
    assert_eq!(
        am.add(AclEntry::new(4, Privilege::View, AuthMode::Case)),
        Err(Error::NoSpace)
    );
}

fn wildcard_entry_with_subject(fab_idx: u8, subject: u64) -> AclEntry {
    let mut e = AclEntry::new(fab_idx, Privilege::View, AuthMode::Case);
    e.add_subject(subject).unwrap();
    e
}

fn read_req_allowed(am: &AclMgr, fab_idx: u8, subject: u64) -> bool {
    let accessor = Accessor::new(fab_idx, AccessorSubjects::new(subject), AuthMode::Case);
    let path = GenericPath::new(Some(1), Some(1234), None);
    let mut req = AccessReq::new(&accessor, &path, Access::read());
    req.set_target_perms(Access::rwva());
    req.allow(am)
}

#[test]
fn test_fabric_relative_edit() {
    let mut am = AclMgr::new_with(false).unwrap();
    // Store order: fabric 1 (subject 10), fabric 2 (subject 20), fabric 1 (subject 11).
    am.add(wildcard_entry_with_subject(1, 10)).unwrap();
    am.add(wildcard_entry_with_subject(2, 20)).unwrap();
    am.add(wildcard_entry_with_subject(1, 11)).unwrap();

    // Fabric-relative index 1 of fabric 1 is the third slot; editing it must
    // not touch the interleaved fabric-2 entry.
    am.edit(1, 1, wildcard_entry_with_subject(1, 12)).unwrap();
    assert!(read_req_allowed(&am, 1, 10));
    assert!(!read_req_allowed(&am, 1, 11));
    assert!(read_req_allowed(&am, 1, 12));
    assert!(read_req_allowed(&am, 2, 20));

    // No fabric-relative index 2 exists for fabric 1.
    assert_eq!(
        am.edit(2, 1, wildcard_entry_with_subject(1, 13)),
        Err(Error::NotFound)
    );
}

#[test]
fn test_fabric_relative_delete() {
    let mut am = AclMgr::new_with(false).unwrap();
    am.add(wildcard_entry_with_subject(1, 10)).unwrap();
    am.add(wildcard_entry_with_subject(2, 20)).unwrap();
    am.add(wildcard_entry_with_subject(1, 11)).unwrap();

    // Deleting fabric-relative index 0 of fabric 1 removes the first slot
    // only; the second fabric-1 entry then becomes index 0.
    am.delete(0, 1).unwrap();
    assert!(!read_req_allowed(&am, 1, 10));
    assert!(read_req_allowed(&am, 1, 11));
    assert!(read_req_allowed(&am, 2, 20));

    assert_eq!(am.delete(1, 1), Err(Error::NotFound));
    am.delete(0, 1).unwrap();
    assert!(!read_req_allowed(&am, 1, 11));
    assert!(read_req_allowed(&am, 2, 20));
}

#[test]
fn test_privilege_policy_exact() {
    let rwva = Access::rwva();
    assert!(rwva.is_ok(Access::read(), Privilege::View));
    assert!(rwva.is_ok(Access::read(), Privilege::Admin));
    assert!(!rwva.is_ok(Access::write(), Privilege::View));
    assert!(rwva.is_ok(Access::write(), Privilege::Admin));
    // A read-only target never permits writing.
    assert!(!Access::rv().is_ok(Access::write(), Privilege::Admin));
    // A target that requires no privilege permits nothing.
    assert!(!Access::read().is_ok(Access::read(), Privilege::Admin));
}

#[test]
fn test_store_load_round_trip() {
    let mut am = AclMgr::new_with(false).unwrap();
    let mut e = AclEntry::new(2, Privilege::View, AuthMode::Case);
    e.add_subject(112233).unwrap();
    e.add_subject_catid(gen_noc_cat(0xABCD, 2)).unwrap();
    e.add_target(Target { cluster: Some(1234), endpoint: Some(1), device_type: None }).unwrap();
    am.add(e).unwrap();
    let mut e2 = AclEntry::new(3, Privilege::Admin, AuthMode::Group);
    e2.add_target(Target { cluster: None, endpoint: Some(7), device_type: Some(99) }).unwrap();
    am.add(e2).unwrap();

    let bytes = am.inner.store();
    let reloaded = AclMgrInner::load(&bytes).unwrap();
    // The reloaded table re-encodes to the identical record: same entries,
    // same fields, same order.
    assert_eq!(reloaded.store(), bytes);

    // And it authorizes exactly as before.
    let am2 = AclMgr { inner: reloaded };
    assert!(read_req_allowed(&am2, 2, 112233));
    assert!(!read_req_allowed(&am2, 3, 112233));
}

#[test]
fn test_erase_all_empty_on_reload() {
    let mut am = AclMgr::new_with(false).unwrap();
    am.add(wildcard_entry_with_subject(2, 112233)).unwrap();
    assert!(read_req_allowed(&am, 2, 112233));
    am.erase_all();
    let bytes = am.inner.store();
    let reloaded = AclMgrInner::load(&bytes).unwrap();
    let am2 = AclMgr { inner: reloaded };
    assert!(!read_req_allowed(&am2, 2, 112233));
}

#[test]
fn test_load_malformed() {
    assert_eq!(AclMgrInner::load(&[]).err(), Some(Error::Invalid));
    assert_eq!(AclMgrInner::load(&[1, 2, 3]).err(), Some(Error::Invalid));
    // A wrong slot count is rejected.
    assert_eq!(AclMgrInner::load(&[5, 0, 0, 0, 0, 0]).err(), Some(Error::Invalid));

    let am = AclMgr::new_with(false).unwrap();
    let good = am.inner.store();
    // Trailing garbage is rejected.
    let mut trailing = good.clone();
    trailing.push(0);
    assert_eq!(AclMgrInner::load(&trailing).err(), Some(Error::Invalid));
    // A truncated record is rejected.
    assert_eq!(AclMgrInner::load(&good[..good.len() - 1]).err(), Some(Error::Invalid));
    // A corrupted slot tag is rejected.
    let mut corrupt = good.clone();
    corrupt[1] = 9;
    assert_eq!(AclMgrInner::load(&corrupt).err(), Some(Error::Invalid));
}

#[test]
fn test_for_each_acl() {
    let mut am = AclMgr::new_with(false).unwrap();
    am.add(wildcard_entry_with_subject(1, 10)).unwrap();
    am.add(wildcard_entry_with_subject(2, 20)).unwrap();
    let seen: RefCell<Vec<Option<u8>>> = RefCell::new(Vec::new());
    am.for_each_acl(|e: &AclEntry| {
        seen.borrow_mut().push(e.fab_idx);
    })
    .unwrap();
    assert_eq!(*seen.borrow(), vec![Some(1), Some(2)]);
}
