use gatt_server::permissions::{
    AttributePermissions, PERM_READ, PERM_READ_ENCRYPTED, PERM_WRITE, PERM_WRITE_ENCRYPTED,
};

fn permissions(read_access: bool, write_access: bool, encryption_required: bool) -> AttributePermissions {
    AttributePermissions { read_access, write_access, encryption_required }
}

#[test]
fn default_grants_nothing() {
    let permissions = AttributePermissions::default();
    assert!(!permissions.read_access);
    assert!(!permissions.write_access);
    assert!(!permissions.encryption_required);
    assert_eq!(u16::from(permissions), 0);
}

#[test]
fn read_only_encrypted_is_read_encrypted() {
    assert_eq!(u16::from(permissions(true, false, true)), PERM_READ_ENCRYPTED);
    assert_eq!(u16::from(permissions(true, false, true)), 0x0002);
}

#[test]
fn encryption_alone_grants_nothing() {
    assert_eq!(u16::from(permissions(false, false, true)), 0);
    assert_eq!(u16::from(permissions(false, false, false)), 0);
}

#[test]
fn every_row_of_the_table() {
    assert_eq!(u16::from(permissions(true, false, false)), PERM_READ);
    assert_eq!(u16::from(permissions(false, true, false)), PERM_WRITE);
    assert_eq!(u16::from(permissions(true, true, false)), PERM_READ | PERM_WRITE);
    assert_eq!(u16::from(permissions(true, false, true)), PERM_READ_ENCRYPTED);
    assert_eq!(u16::from(permissions(false, true, true)), PERM_WRITE_ENCRYPTED);
    assert_eq!(
        u16::from(permissions(true, true, true)),
        PERM_READ_ENCRYPTED | PERM_WRITE_ENCRYPTED
    );
}

#[test]
fn masks_as_numbers() {
    assert_eq!(u16::from(permissions(true, false, false)), 0x0001);
    assert_eq!(u16::from(permissions(false, true, false)), 0x0010);
    assert_eq!(u16::from(permissions(true, true, false)), 0x0011);
    assert_eq!(u16::from(permissions(false, true, true)), 0x0020);
    assert_eq!(u16::from(permissions(true, true, true)), 0x0022);
}
