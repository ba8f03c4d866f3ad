use krb5_kdc::kdb::open_store;
use krb5_kdc::persist::PersistError;

#[test]
fn unknown_db_library_errors() {
    let r: Result<u32, PersistError> =
        open_store(Some("lmdb"), || Err(PersistError::Io("/nope".to_string())));
    match r.unwrap_err() {
        PersistError::UnknownDbLibrary(n) => assert_eq!(n, "lmdb"),
        other => panic!("expected UnknownDbLibrary, got {}", other.message()),
    }
}
