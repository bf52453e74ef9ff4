use vertic::cli::{CliError, InsertKeyCmd};

#[test]
fn four_byte_key_type_is_accepted() {
    let cmd = InsertKeyCmd { suri: None, key_type: "gran".to_string() };
    assert_eq!(cmd.key_type_id(), Ok(*b"gran"));
}

#[test]
fn other_key_types_are_invalid() {
    let cmd = InsertKeyCmd { suri: Some("//Alice".to_string()), key_type: "grandpa".to_string() };
    assert_eq!(cmd.key_type_id(), Err(CliError::KeyTypeInvalid));
    let cmd = InsertKeyCmd { suri: None, key_type: "".to_string() };
    assert_eq!(cmd.key_type_id(), Err(CliError::KeyTypeInvalid));
}
