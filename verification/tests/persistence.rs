use rust_log_analyzer as rla;

use rla::index::codec::IndexFormatError;
use rla::index::storage::{IndexStorage, StorageParseError};
use rla::index::Sanitized;
use rla::Index;

#[test]
fn index_bytes_round_trip() {
    let mut index = Index::new();
    index.learn(&Sanitized("Compiling foo v0.1.0"), 3);
    index.learn(&Sanitized("error: something went wrong"), 1);

    let bytes = index.to_bytes();
    let restored = Index::from_bytes(&bytes).expect("round trip");
    assert_eq!(
        index.scores(&Sanitized("Compiling foo v0.1.0")),
        restored.scores(&Sanitized("Compiling foo v0.1.0"))
    );
    assert_eq!(
        index.scores(&Sanitized("error: something went wrong")),
        restored.scores(&Sanitized("error: something went wrong"))
    );
    assert_eq!(index.len(), restored.len());
}

#[test]
fn empty_index_round_trip() {
    let index = Index::new();
    let bytes = index.to_bytes();
    let restored = Index::from_bytes(&bytes).expect("round trip");
    assert_eq!(0, restored.len());
}

#[test]
fn decode_rejects_bad_header() {
    assert_eq!(Err(IndexFormatError::BadHeader), Index::from_bytes(b"").map(|_| ()));
    assert_eq!(
        Err(IndexFormatError::BadHeader),
        Index::from_bytes(b"XXXXX").map(|_| ())
    );
    // A truncated header is a header error, too.
    assert_eq!(
        Err(IndexFormatError::BadHeader),
        Index::from_bytes(b"RLA").map(|_| ())
    );
}

#[test]
fn decode_rejects_ragged_records() {
    let mut bytes = Index::new().to_bytes();
    bytes.push(0);
    assert_eq!(Err(IndexFormatError::BadLength), Index::from_bytes(&bytes).map(|_| ()));
}

#[test]
fn storage_resolves_filesystem_and_s3() {
    match IndexStorage::new("/var/lib/index.bin") {
        Ok(IndexStorage::FileSystem(f)) => assert_eq!(b"/var/lib/index.bin".to_vec(), f.path),
        other => panic!("unexpected: {:?}", other.is_ok()),
    }
    match IndexStorage::new("s3://bucket/some/key") {
        Ok(IndexStorage::S3(l)) => {
            assert_eq!(b"bucket".to_vec(), l.bucket);
            assert_eq!(b"some/key".to_vec(), l.key);
        }
        other => panic!("unexpected: {:?}", other.is_ok()),
    }
    assert!(matches!(
        IndexStorage::new("s3://bucket-without-key"),
        Err(StorageParseError::InvalidS3Url)
    ));
}

#[test]
fn load_decision_absent_versus_create() {
    // Absent storage: recoverable only when creation was asked for.
    let created = Index::from_read(None, true).expect("create");
    assert_eq!(0, created.len());
    assert_eq!(
        Err(rla::index::codec::IndexLoadError::Missing),
        Index::from_read(None, false).map(|_| ())
    );

    // Stored bytes must decode.
    let mut index = Index::new();
    index.learn(&Sanitized("error: boom happened here"), 2);
    let bytes = index.to_bytes();
    let loaded = Index::from_read(Some(&bytes), false).expect("load");
    assert_eq!(
        index.scores(&Sanitized("error: boom happened here")),
        loaded.scores(&Sanitized("error: boom happened here"))
    );

    // Corrupt bytes are an error, never silently replaced.
    assert_eq!(
        Err(rla::index::codec::IndexLoadError::Corrupt(IndexFormatError::BadHeader)),
        Index::from_read(Some(b"garbage"), true).map(|_| ())
    );
}
