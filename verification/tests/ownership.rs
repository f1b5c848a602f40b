use privafile::blobstore::BlobStore;
use privafile::catalog::DbManager;
use privafile::errors::StorageError;
use privafile::procedures::{
    delete_file, download_chunk, download_file, finalize_chunked_upload, init_chunked_upload,
    upload_chunk,
};

fn seeded() -> (DbManager, BlobStore) {
    let mut db = DbManager::new();
    let mut store = BlobStore::new();
    init_chunked_upload(&mut db, &mut store, "alice", "f1", "text/plain", 4).unwrap();
    upload_chunk(&mut db, &mut store, "alice", "f1", 0, vec![1, 2, 3, 4]).unwrap();
    (db, store)
}

#[test]
fn accept_chunk_by_other_user_is_forbidden() {
    let (mut db, mut store) = seeded();
    let err = upload_chunk(&mut db, &mut store, "bob", "f1", 1, vec![5]).unwrap_err();
    assert_eq!(err, StorageError::Forbidden);
}

#[test]
fn finalize_by_other_user_is_forbidden() {
    let (mut db, _store) = seeded();
    let err = finalize_chunked_upload(&mut db, "bob", "f1").unwrap_err();
    assert_eq!(err, StorageError::Forbidden);
}

#[test]
fn download_by_other_user_is_forbidden() {
    let (mut db, store) = seeded();
    finalize_chunked_upload(&mut db, "alice", "f1").unwrap();
    let err = download_file(&db, &store, "bob", "f1").unwrap_err();
    assert_eq!(err, StorageError::Forbidden);
    let err = download_chunk(&db, &store, "bob", "f1", 0).unwrap_err();
    assert_eq!(err, StorageError::Forbidden);
}

#[test]
fn delete_by_other_user_is_forbidden() {
    let (mut db, mut store) = seeded();
    let err = delete_file(&mut db, &mut store, "bob", "f1").unwrap_err();
    assert_eq!(err, StorageError::Forbidden);
    // the file survives an outsider's attempt
    assert!(db.buscar_file("f1").is_ok());
}

#[test]
fn unknown_file_is_not_found() {
    let (mut db, mut store) = seeded();
    assert_eq!(
        upload_chunk(&mut db, &mut store, "alice", "nope", 0, vec![1]).unwrap_err(),
        StorageError::NotFound
    );
    assert_eq!(
        finalize_chunked_upload(&mut db, "alice", "nope").unwrap_err(),
        StorageError::NotFound
    );
    assert_eq!(
        download_file(&db, &store, "alice", "nope").unwrap_err(),
        StorageError::NotFound
    );
    assert_eq!(
        delete_file(&mut db, &mut store, "alice", "nope").unwrap_err(),
        StorageError::NotFound
    );
}

#[test]
fn traversal_ids_are_rejected() {
    let (mut db, mut store) = seeded();
    for bad in ["../etc", "a/b", "a\\b", ".."] {
        assert_eq!(
            download_file(&db, &store, "alice", bad).unwrap_err(),
            StorageError::InvalidIdentifier
        );
        assert_eq!(
            delete_file(&mut db, &mut store, "alice", bad).unwrap_err(),
            StorageError::InvalidIdentifier
        );
    }
}

#[test]
fn chunk_after_finalize_is_invalid_state() {
    let (mut db, mut store) = seeded();
    finalize_chunked_upload(&mut db, "alice", "f1").unwrap();
    let err = upload_chunk(&mut db, &mut store, "alice", "f1", 1, vec![9]).unwrap_err();
    assert_eq!(err, StorageError::InvalidState);
}

#[test]
fn duplicate_chunk_index_is_store_error() {
    let (mut db, mut store) = seeded();
    let err = upload_chunk(&mut db, &mut store, "alice", "f1", 0, vec![7, 7]).unwrap_err();
    assert_eq!(err, StorageError::StoreError);
}

#[test]
fn duplicate_init_is_store_error() {
    let (mut db, mut store) = seeded();
    let err =
        init_chunked_upload(&mut db, &mut store, "alice", "f1", "text/plain", 9).unwrap_err();
    assert_eq!(err, StorageError::StoreError);
}

#[test]
fn init_validates_size_and_mime() {
    let mut db = DbManager::new();
    let mut store = BlobStore::new();
    assert_eq!(
        init_chunked_upload(&mut db, &mut store, "alice", "f2", "text/plain", 0).unwrap_err(),
        StorageError::InvalidIdentifier
    );
    assert_eq!(
        init_chunked_upload(&mut db, &mut store, "alice", "f2", "textplain", 5).unwrap_err(),
        StorageError::InvalidIdentifier
    );
    assert_eq!(
        init_chunked_upload(&mut db, &mut store, "alice", "f2", "", 5).unwrap_err(),
        StorageError::InvalidIdentifier
    );
}

#[test]
fn readonly_media_surfaces_io_error() {
    let mut db = DbManager::new();
    let dir = privafile::strutil::make_chunks_dir("f1");
    let mut store = BlobStore::with_readonly(vec![dir]);
    let err =
        init_chunked_upload(&mut db, &mut store, "alice", "f1", "text/plain", 4).unwrap_err();
    assert_eq!(err, StorageError::IoError);

    let mut db2 = DbManager::new();
    let chunk_path = privafile::strutil::make_chunk_path("f2", 0);
    let mut store2 = BlobStore::with_readonly(vec![chunk_path]);
    init_chunked_upload(&mut db2, &mut store2, "alice", "f2", "text/plain", 4).unwrap();
    let err = upload_chunk(&mut db2, &mut store2, "alice", "f2", 0, vec![1]).unwrap_err();
    assert_eq!(err, StorageError::IoError);
}

#[test]
fn download_with_missing_chunk_blob_is_io_error() {
    let (mut db, mut store) = seeded();
    finalize_chunked_upload(&mut db, "alice", "f1").unwrap();
    let path = privafile::strutil::make_chunk_path("f1", 0);
    store.delete_blob(path.as_str()).unwrap();
    let err = download_file(&db, &store, "alice", "f1").unwrap_err();
    assert_eq!(err, StorageError::IoError);
}

#[test]
fn delete_succeeds_even_when_a_blob_is_already_gone() {
    let (mut db, mut store) = seeded();
    finalize_chunked_upload(&mut db, "alice", "f1").unwrap();
    let path = privafile::strutil::make_chunk_path("f1", 0);
    store.delete_blob(path.as_str()).unwrap();
    delete_file(&mut db, &mut store, "alice", "f1").unwrap();
    assert!(matches!(db.buscar_file("f1"), Err(StorageError::NotFound)));
}
