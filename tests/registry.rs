use file_transfer::{FileTransfer, Identity};

fn party(key: &str) -> Identity {
    Identity::new(key.as_bytes().to_vec())
}

#[test]
fn test_grant_and_check_permission() {
    let mut registry = FileTransfer::new();
    let grantor = party("GGRANTOR");
    let grantee = party("GGRANTEE");

    registry.grant_permission(grantor.clone(), grantee.clone()).unwrap();

    let has_permission = registry.has_permission(&grantor, &grantee);
    assert!(has_permission);
}

#[test]
fn test_revoke_permission() {
    let mut registry = FileTransfer::new();
    let grantor = party("GGRANTOR");
    let grantee = party("GGRANTEE");

    registry.grant_permission(grantor.clone(), grantee.clone()).unwrap();

    let has_permission = registry.has_permission(&grantor, &grantee);
    assert!(has_permission);

    registry.delete_permission(grantor.clone(), grantee.clone()).unwrap();

    let has_permission = registry.has_permission(&grantor, &grantee);
    assert!(!has_permission);
}

#[test]
fn test_get_all_grantees() {
    let mut registry = FileTransfer::new();
    let grantor = party("GGRANTOR");
    let grantee1 = party("GGRANTEE1");
    let grantee2 = party("GGRANTEE2");

    registry.grant_permission(grantor.clone(), grantee1.clone()).unwrap();
    registry.grant_permission(grantor.clone(), grantee2.clone()).unwrap();

    let grantees = registry.get_all_grantees(&grantor);
    assert_eq!(grantees.len(), 2);
    assert!(grantees.contains(&grantee1));
    assert!(grantees.contains(&grantee2));
}

#[test]
fn test_duplicate_permission() {
    let mut registry = FileTransfer::new();
    let grantor = party("GGRANTOR");
    let grantee = party("GGRANTEE");

    registry.grant_permission(grantor.clone(), grantee.clone()).unwrap();
    registry.grant_permission(grantor.clone(), grantee.clone()).unwrap();

    let grantees = registry.get_all_grantees(&grantor);
    assert_eq!(grantees.len(), 1);
}
