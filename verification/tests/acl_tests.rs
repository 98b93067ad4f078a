use matter_acl::{
    gen_noc_cat, Access, AccessReq, Accessor, AccessorSubjects, AclEntry, AclMgr, AuthMode,
    GenericPath, Privilege, Target,
};

#[test]
fn test_basic_empty_subject_target() {
    let mut am = AclMgr::new_with(false).unwrap();
    am.erase_all();
    let accessor = Accessor::new(2, AccessorSubjects::new(112233), AuthMode::Case);
    let path = GenericPath::new(Some(1), Some(1234), None);
    let mut req = AccessReq::new(&accessor, &path, Access::read());
    req.set_target_perms(Access::rwva());

    // Default deny
    assert_eq!(req.allow(&am), false);

    // Deny for session mode mismatch
    let new = AclEntry::new(1, Privilege::View, AuthMode::Pase);
    am.add(new).unwrap();
    assert_eq!(req.allow(&am), false);

    // Deny for fab idx mismatch
    let new = AclEntry::new(1, Privilege::View, AuthMode::Case);
    am.add(new).unwrap();
    assert_eq!(req.allow(&am), false);

    // Allow
    let new = AclEntry::new(2, Privilege::View, AuthMode::Case);
    am.add(new).unwrap();
    assert_eq!(req.allow(&am), true);
}

#[test]
fn test_subject() {
    let mut am = AclMgr::new_with(false).unwrap();
    am.erase_all();
    let accessor = Accessor::new(2, AccessorSubjects::new(112233), AuthMode::Case);
    let path = GenericPath::new(Some(1), Some(1234), None);
    let mut req = AccessReq::new(&accessor, &path, Access::read());
    req.set_target_perms(Access::rwva());

    // Deny for subject mismatch
    let mut new = AclEntry::new(2, Privilege::View, AuthMode::Case);
    new.add_subject(112232).unwrap();
    am.add(new).unwrap();
    assert_eq!(req.allow(&am), false);

    // Allow for subject match - target is wildcard
    let mut new = AclEntry::new(2, Privilege::View, AuthMode::Case);
    new.add_subject(112233).unwrap();
    am.add(new).unwrap();
    assert_eq!(req.allow(&am), true);
}

#[test]
fn test_cat() {
    let mut am = AclMgr::new_with(false).unwrap();
    am.erase_all();

    let allow_cat = 0xABCD;
    let disallow_cat = 0xCAFE;
    let v2 = 2;
    let v3 = 3;
    // Accessor has nodeid and CAT 0xABCD_0002
    let mut subjects = AccessorSubjects::new(112233);
    subjects.add_catid(gen_noc_cat(allow_cat, v2)).unwrap();

    let accessor = Accessor::new(2, subjects, AuthMode::Case);
    let path = GenericPath::new(Some(1), Some(1234), None);
    let mut req = AccessReq::new(&accessor, &path, Access::read());
    req.set_target_perms(Access::rwva());

    // Deny for CAT id mismatch
    let mut new = AclEntry::new(2, Privilege::View, AuthMode::Case);
    new.add_subject_catid(gen_noc_cat(disallow_cat, v2)).unwrap();
    am.add(new).unwrap();
    assert_eq!(req.allow(&am), false);

    // Deny of CAT version mismatch
    let mut new = AclEntry::new(2, Privilege::View, AuthMode::Case);
    new.add_subject_catid(gen_noc_cat(allow_cat, v3)).unwrap();
    am.add(new).unwrap();
    assert_eq!(req.allow(&am), false);

    // Allow for CAT match
    let mut new = AclEntry::new(2, Privilege::View, AuthMode::Case);
    new.add_subject_catid(gen_noc_cat(allow_cat, v2)).unwrap();
    am.add(new).unwrap();
    assert_eq!(req.allow(&am), true);
}

#[test]
fn test_cat_version() {
    let mut am = AclMgr::new_with(false).unwrap();
    am.erase_all();

    let allow_cat = 0xABCD;
    let disallow_cat = 0xCAFE;
    let v2 = 2;
    let v3 = 3;
    // Accessor has nodeid and CAT 0xABCD_0003
    let mut subjects = AccessorSubjects::new(112233);
    subjects.add_catid(gen_noc_cat(allow_cat, v3)).unwrap();

    let accessor = Accessor::new(2, subjects, AuthMode::Case);
    let path = GenericPath::new(Some(1), Some(1234), None);
    let mut req = AccessReq::new(&accessor, &path, Access::read());
    req.set_target_perms(Access::rwva());

    // Deny for CAT id mismatch
    let mut new = AclEntry::new(2, Privilege::View, AuthMode::Case);
    new.add_subject_catid(gen_noc_cat(disallow_cat, v2)).unwrap();
    am.add(new).unwrap();
    assert_eq!(req.allow(&am), false);

    // Allow for CAT match and version more than ACL version
    let mut new = AclEntry::new(2, Privilege::View, AuthMode::Case);
    new.add_subject_catid(gen_noc_cat(allow_cat, v2)).unwrap();
    am.add(new).unwrap();
    assert_eq!(req.allow(&am), true);
}

#[test]
fn test_target() {
    let mut am = AclMgr::new_with(false).unwrap();
    am.erase_all();
    let accessor = Accessor::new(2, AccessorSubjects::new(112233), AuthMode::Case);
    let path = GenericPath::new(Some(1), Some(1234), None);
    let mut req = AccessReq::new(&accessor, &path, Access::read());
    req.set_target_perms(Access::rwva());

    // Deny for target mismatch
    let mut new = AclEntry::new(2, Privilege::View, AuthMode::Case);
    new.add_target(Target {
        cluster: Some(2),
        endpoint: Some(4567),
        device_type: None,
    })
    .unwrap();
    am.add(new).unwrap();
    assert_eq!(req.allow(&am), false);

    // Allow for cluster match - subject wildcard
    let mut new = AclEntry::new(2, Privilege::View, AuthMode::Case);
    new.add_target(Target {
        cluster: Some(1234),
        endpoint: None,
        device_type: None,
    })
    .unwrap();
    am.add(new).unwrap();
    assert_eq!(req.allow(&am), true);

    // Clean Slate
    am.erase_all();

    // Allow for endpoint match - subject wildcard
    let mut new = AclEntry::new(2, Privilege::View, AuthMode::Case);
    new.add_target(Target {
        cluster: None,
        endpoint: Some(1),
        device_type: None,
    })
    .unwrap();
    am.add(new).unwrap();
    assert_eq!(req.allow(&am), true);

    // Clean Slate
    am.erase_all();

    // Allow for exact match
    let mut new = AclEntry::new(2, Privilege::View, AuthMode::Case);
    new.add_target(Target {
        cluster: Some(1234),
        endpoint: Some(1),
        device_type: None,
    })
    .unwrap();
    new.add_subject(112233).unwrap();
    am.add(new).unwrap();
    assert_eq!(req.allow(&am), true);
}

#[test]
fn test_privilege() {
    let mut am = AclMgr::new_with(false).unwrap();
    am.erase_all();

    let accessor = Accessor::new(2, AccessorSubjects::new(112233), AuthMode::Case);
    let path = GenericPath::new(Some(1), Some(1234), None);

    // Create an Exact Match ACL with View privilege
    let mut new = AclEntry::new(2, Privilege::View, AuthMode::Case);
    new.add_target(Target {
        cluster: Some(1234),
        endpoint: Some(1),
        device_type: None,
    })
    .unwrap();
    new.add_subject(112233).unwrap();
    am.add(new).unwrap();

    // Write on an RWVA without admin access - deny
    let mut req = AccessReq::new(&accessor, &path, Access::write());
    req.set_target_perms(Access::rwva());
    assert_eq!(req.allow(&am), false);

    // Create an Exact Match ACL with Admin privilege
    let mut new = AclEntry::new(2, Privilege::Admin, AuthMode::Case);
    new.add_target(Target {
        cluster: Some(1234),
        endpoint: Some(1),
        device_type: None,
    })
    .unwrap();
    new.add_subject(112233).unwrap();
    am.add(new).unwrap();

    // Write on an RWVA with admin access - allow
    let mut req = AccessReq::new(&accessor, &path, Access::write());
    req.set_target_perms(Access::rwva());
    assert_eq!(req.allow(&am), true);
}

#[test]
fn test_delete_for_fabric() {
    let mut am = AclMgr::new_with(false).unwrap();
    am.erase_all();
    let path = GenericPath::new(Some(1), Some(1234), None);
    let accessor2 = Accessor::new(2, AccessorSubjects::new(112233), AuthMode::Case);
    let mut req2 = AccessReq::new(&accessor2, &path, Access::read());
    req2.set_target_perms(Access::rwva());
    let accessor3 = Accessor::new(3, AccessorSubjects::new(112233), AuthMode::Case);
    let mut req3 = AccessReq::new(&accessor3, &path, Access::read());
    req3.set_target_perms(Access::rwva());

    // Allow for subject match - target is wildcard - Fabric idx 2
    let mut new = AclEntry::new(2, Privilege::View, AuthMode::Case);
    new.add_subject(112233).unwrap();
    am.add(new).unwrap();

    // Allow for subject match - target is wildcard - Fabric idx 3
    let mut new = AclEntry::new(3, Privilege::View, AuthMode::Case);
    new.add_subject(112233).unwrap();
    am.add(new).unwrap();

    // Req for Fabric idx 2 gets denied, and that for Fabric idx 3 is allowed
    assert_eq!(req2.allow(&am), true);
    assert_eq!(req3.allow(&am), true);
    am.delete_for_fabric(2).unwrap();
    assert_eq!(req2.allow(&am), false);
    assert_eq!(req3.allow(&am), true);
}
