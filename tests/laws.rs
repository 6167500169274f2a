use file_transfer::{FileTransfer, FileTransferError, Identity};

fn party(key: &str) -> Identity {
    Identity::new(key.as_bytes().to_vec())
}

#[test]
fn second_grant_changes_nothing_and_emits_nothing() {
    let mut registry = FileTransfer::new();
    let a = party("GA");
    let b = party("GB");
    let first = registry.grant_permission(a.clone(), b.clone()).unwrap();
    let event = first.expect("the first grant changes the registry");
    assert_eq!(event.grantor, a);
    assert_eq!(event.grantee, b);
    let second = registry.grant_permission(a.clone(), b.clone()).unwrap();
    assert!(second.is_none());
    assert_eq!(registry.get_all_grantees(&a), vec![b]);
}

#[test]
fn self_grant_is_refused() {
    let mut registry = FileTransfer::new();
    let a = party("GA");
    let r = registry.grant_permission(a.clone(), a.clone());
    assert_eq!(r.unwrap_err(), FileTransferError::InvalidAddress);
    assert!(!registry.has_permission(&a, &a));
    assert!(registry.get_all_grantees(&a).is_empty());
}

#[test]
fn self_revoke_is_refused() {
    let mut registry = FileTransfer::new();
    let a = party("GA");
    let r = registry.delete_permission(a.clone(), a.clone());
    assert_eq!(r.unwrap_err(), FileTransferError::InvalidAddress);
}

#[test]
fn permission_has_a_direction() {
    let mut registry = FileTransfer::new();
    let a = party("GA");
    let b = party("GB");
    registry.grant_permission(a.clone(), b.clone()).unwrap();
    assert!(registry.has_permission(&a, &b));
    assert!(!registry.has_permission(&b, &a));
}

#[test]
fn revoke_keeps_the_other_grantees() {
    let mut registry = FileTransfer::new();
    let a = party("GA");
    let b = party("GB");
    let c = party("GC");
    let d = party("GD");
    registry.grant_permission(a.clone(), b.clone()).unwrap();
    registry.grant_permission(a.clone(), c.clone()).unwrap();
    registry.grant_permission(d.clone(), b.clone()).unwrap();
    let event = registry.delete_permission(a.clone(), b.clone()).unwrap();
    assert_eq!(event.grantor, a);
    assert_eq!(event.grantee, b);
    assert_eq!(registry.get_all_grantees(&a), vec![c.clone()]);
    assert_eq!(registry.get_all_grantees(&d), vec![b.clone()]);
    assert!(registry.has_permission(&d, &b));
}

#[test]
fn revoke_keeps_order() {
    let mut registry = FileTransfer::new();
    let a = party("GA");
    let b = party("GB");
    let c = party("GC");
    let d = party("GD");
    registry.grant_permission(a.clone(), b.clone()).unwrap();
    registry.grant_permission(a.clone(), c.clone()).unwrap();
    registry.grant_permission(a.clone(), d.clone()).unwrap();
    registry.delete_permission(a.clone(), c.clone()).unwrap();
    assert_eq!(registry.get_all_grantees(&a), vec![b, d]);
}

#[test]
fn revoke_without_grant_fails() {
    let mut registry = FileTransfer::new();
    let a = party("GA");
    let b = party("GB");
    let c = party("GC");
    let r = registry.delete_permission(a.clone(), b.clone());
    assert_eq!(r.unwrap_err(), FileTransferError::PermissionNotFound);
    registry.grant_permission(a.clone(), c.clone()).unwrap();
    let r = registry.delete_permission(a.clone(), b.clone());
    assert_eq!(r.unwrap_err(), FileTransferError::PermissionNotFound);
    assert_eq!(registry.get_all_grantees(&a), vec![c]);
}

#[test]
fn revoke_twice_fails_the_second_time() {
    let mut registry = FileTransfer::new();
    let a = party("GA");
    let b = party("GB");
    registry.grant_permission(a.clone(), b.clone()).unwrap();
    registry.delete_permission(a.clone(), b.clone()).unwrap();
    let r = registry.delete_permission(a.clone(), b.clone());
    assert_eq!(r.unwrap_err(), FileTransferError::PermissionNotFound);
    assert!(registry.get_all_grantees(&a).is_empty());
}

#[test]
fn grantors_are_exactly_those_that_grant() {
    let mut registry = FileTransfer::new();
    let a = party("GA");
    let b = party("GB");
    let c = party("GC");
    let d = party("GD");
    registry.grant_permission(a.clone(), c.clone()).unwrap();
    registry.grant_permission(b.clone(), c.clone()).unwrap();
    registry.grant_permission(a.clone(), b.clone()).unwrap();
    let grantors = registry.get_all_grantors(&c);
    assert_eq!(grantors.len(), 2);
    assert!(grantors.contains(&a));
    assert!(grantors.contains(&b));
    assert!(registry.get_all_grantors(&d).is_empty());
    assert_eq!(registry.get_all_grantors(&b), vec![a]);
}

#[test]
fn grantors_after_revoke() {
    let mut registry = FileTransfer::new();
    let a = party("GA");
    let b = party("GB");
    let c = party("GC");
    registry.grant_permission(a.clone(), c.clone()).unwrap();
    registry.grant_permission(b.clone(), c.clone()).unwrap();
    registry.delete_permission(a.clone(), c.clone()).unwrap();
    assert_eq!(registry.get_all_grantors(&c), vec![b]);
}

#[test]
fn clear_removes_the_row_and_repeats_quietly() {
    let mut registry = FileTransfer::new();
    let a = party("GA");
    let b = party("GB");
    let c = party("GC");
    registry.grant_permission(a.clone(), b.clone()).unwrap();
    registry.grant_permission(a.clone(), c.clone()).unwrap();
    registry.grant_permission(b.clone(), c.clone()).unwrap();
    registry.clear_all_permissions(&a);
    assert!(registry.get_all_grantees(&a).is_empty());
    assert!(!registry.has_permission(&a, &b));
    assert!(!registry.has_permission(&a, &c));
    registry.clear_all_permissions(&a);
    assert!(registry.get_all_grantees(&a).is_empty());
    assert!(registry.has_permission(&b, &c));
    assert_eq!(registry.get_all_grantors(&c), vec![b]);
}

#[test]
fn clear_of_unknown_grantor_is_quiet() {
    let mut registry = FileTransfer::new();
    let a = party("GA");
    registry.clear_all_permissions(&a);
    assert!(registry.get_all_grantees(&a).is_empty());
}

#[test]
fn empty_registry_answers_nothing() {
    let registry = FileTransfer::new();
    let a = party("GA");
    let b = party("GB");
    assert!(!registry.has_permission(&a, &b));
    assert!(registry.get_all_grantees(&a).is_empty());
    assert!(registry.get_all_grantors(&b).is_empty());
}

#[test]
fn identities_compare_by_every_byte() {
    let a = party("GABC");
    assert!(a.same(&party("GABC")));
    assert!(!a.same(&party("GABD")));
    assert!(!a.same(&party("GAB")));
    assert_eq!(a.copy(), a);
    assert_eq!(a.as_bytes(), &b"GABC".to_vec());
}

#[test]
fn grant_after_clear_starts_a_new_row() {
    let mut registry = FileTransfer::new();
    let a = party("GA");
    let b = party("GB");
    let c = party("GC");
    registry.grant_permission(a.clone(), b.clone()).unwrap();
    registry.clear_all_permissions(&a);
    registry.grant_permission(a.clone(), c.clone()).unwrap();
    assert_eq!(registry.get_all_grantees(&a), vec![c]);
}

#[test]
fn error_codes() {
    assert_eq!(FileTransferError::Unauthorized.code(), 1);
    assert_eq!(FileTransferError::PermissionNotFound.code(), 2);
    assert_eq!(FileTransferError::InvalidAddress.code(), 3);
}
