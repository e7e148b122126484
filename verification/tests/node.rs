use hiveflow_core::error::StorageError;
use hiveflow_core::HiveFlow;

#[test]
fn test_create_hiveflow() {
    let hive = HiveFlow::new().unwrap();
    assert!(hive.start().is_ok());
}

#[test]
fn error_messages_name_the_failure() {
    assert_eq!(StorageError::NotFound.message(), "not present");
    assert_eq!(StorageError::Io.message(), "filesystem failure");
    assert_eq!(StorageError::Deserialize.message(), "corrupt metadata");
    assert_eq!(StorageError::InvalidHash.message(), "hash is not 32 bytes long");
}
