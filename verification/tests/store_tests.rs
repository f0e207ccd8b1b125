use hyperg::error::Error;
use hyperg::store::{open_metadata, seal_metadata, META_VERSION};

#[test]
fn sealed_state_starts_with_the_version() {
    assert_eq!(META_VERSION, 1);
    assert_eq!(seal_metadata(&[9, 8, 7]), vec![1, 0, 0, 0, 9, 8, 7]);
    assert_eq!(seal_metadata(&[]), vec![1, 0, 0, 0]);
}

#[test]
fn sealed_state_opens_to_its_payload() {
    let stored = seal_metadata(b"payload");
    assert_eq!(open_metadata(&stored), Ok(&b"payload"[..]));
    assert_eq!(open_metadata(&[1, 0, 0, 0]), Ok(&[][..]));
}

#[test]
fn state_of_another_version_is_refused() {
    assert_eq!(
        open_metadata(&[2, 0, 0, 0, 5]),
        Err(Error::InvalidMetaVersion { detected_version: 2 })
    );
    assert_eq!(
        open_metadata(&[1, 1, 0, 0]),
        Err(Error::InvalidMetaVersion { detected_version: 257 })
    );
}

#[test]
fn state_without_a_version_is_missing() {
    assert_eq!(open_metadata(&[]), Err(Error::MetadataNotFound));
    assert_eq!(open_metadata(&[1, 0, 0]), Err(Error::MetadataNotFound));
}
