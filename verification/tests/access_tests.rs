use package_registry::access::{artifact_key, resolve, StoreReply};
use package_registry::catalog::listed;
use package_registry::error::RegistryError;

#[test]
fn the_key_is_distribution_separator_artifact() {
    assert_eq!(artifact_key("foo", "1.0.0.tar.gz"), Ok("foo/1.0.0.tar.gz".to_string()));
    assert_eq!(artifact_key("foo", "sub/file.whl"), Ok("foo/sub/file.whl".to_string()));
}

#[test]
fn a_pair_with_an_empty_part_is_not_found() {
    assert_eq!(artifact_key("", "1.0.0.tar.gz"), Err(RegistryError::NotFound));
    assert_eq!(artifact_key("foo", ""), Err(RegistryError::NotFound));
    assert_eq!(artifact_key("", ""), Err(RegistryError::NotFound));
}

#[test]
fn the_key_asked_for_is_the_key_that_listed_the_artifact() {
    let key = artifact_key("foo", "1.0.0.tar.gz").unwrap();
    assert_eq!(listed(None, &key), Some("foo".to_string()));
    assert_eq!(listed(Some("foo"), &key), Some("1.0.0.tar.gz".to_string()));
}

#[test]
fn an_object_gives_its_content_untouched() {
    let reply = StoreReply::Object { body: Some(vec![1u8, 2, 3]) };
    assert_eq!(resolve(reply), Ok(vec![1u8, 2, 3]));
}

#[test]
fn a_key_that_the_store_does_not_have_is_not_found() {
    let reply: StoreReply<Vec<u8>> = StoreReply::NoSuchKey;
    assert_eq!(resolve(reply), Err(RegistryError::NotFound));
}

#[test]
fn a_failure_of_the_store_is_not_a_missing_object() {
    let reply: StoreReply<Vec<u8>> = StoreReply::Failure("connection reset".to_string());
    assert_eq!(
        resolve(reply),
        Err(RegistryError::StoreUnavailable("connection reset".to_string()))
    );
}

#[test]
fn an_object_without_content_is_a_failure_of_the_store() {
    let reply: StoreReply<Vec<u8>> = StoreReply::Object { body: None };
    assert_eq!(
        resolve(reply),
        Err(RegistryError::StoreUnavailable(
            "the store sent an object without content".to_string()
        ))
    );
}

#[test]
fn a_status_of_not_found_is_a_missing_object() {
    let reply: StoreReply<Vec<u8>> =
        StoreReply::Unknown { status: 404, cause: "NoSuchKey".to_string() };
    assert_eq!(resolve(reply), Err(RegistryError::NotFound));
}

#[test]
fn any_other_status_is_a_failure_of_the_store() {
    for status in [0u16, 200, 301, 400, 403, 405, 500, 503, 65535] {
        let reply: StoreReply<Vec<u8>> =
            StoreReply::Unknown { status, cause: "what came".to_string() };
        assert_eq!(
            resolve(reply),
            Err(RegistryError::StoreUnavailable("what came".to_string()))
        );
    }
}
