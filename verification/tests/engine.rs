use privafile::blobstore::BlobStore;
use privafile::catalog::DbManager;
use privafile::errors::StorageError;
use privafile::procedures::{
    delete_file, download_file, finalize_chunked_upload, init_chunked_upload, list_user_files,
    upload_chunk,
};

fn setup() -> (DbManager, BlobStore) {
    (DbManager::new(), BlobStore::new())
}

#[test]
fn chunked_upload_roundtrip() {
    let (mut db, mut store) = setup();
    init_chunked_upload(&mut db, &mut store, "alice", "f1", "application/octet-stream", 25)
        .unwrap();
    let parts: [&[u8]; 3] = [&[1u8; 10], &[2u8; 10], &[3u8; 5]];
    // upload out of order: 2, 0, 1
    upload_chunk(&mut db, &mut store, "alice", "f1", 2, parts[2].to_vec()).unwrap();
    upload_chunk(&mut db, &mut store, "alice", "f1", 0, parts[0].to_vec()).unwrap();
    upload_chunk(&mut db, &mut store, "alice", "f1", 1, parts[1].to_vec()).unwrap();
    let (hash, count) = finalize_chunked_upload(&mut db, "alice", "f1").unwrap();
    assert_eq!(count, 3);
    assert_eq!(hash.len(), 128);
    let (mime, data) = download_file(&db, &store, "alice", "f1").unwrap();
    assert_eq!(mime, "application/octet-stream");
    let mut expected = Vec::new();
    expected.extend_from_slice(parts[0]);
    expected.extend_from_slice(parts[1]);
    expected.extend_from_slice(parts[2]);
    assert_eq!(data, expected);
    assert_eq!(data.len(), 25);
    let files = list_user_files(&db, "alice", None, None).unwrap();
    assert_eq!(files.len(), 1);
    assert_eq!(files[0].id, "f1");
    assert_eq!(files[0].status, "complete");
}

#[test]
fn finalize_without_chunks_is_empty_upload() {
    let (mut db, mut store) = setup();
    init_chunked_upload(&mut db, &mut store, "alice", "f1", "text/plain", 10).unwrap();
    let err = finalize_chunked_upload(&mut db, "alice", "f1").unwrap_err();
    assert_eq!(err, StorageError::EmptyUpload);
}

#[test]
fn finalize_with_gap_is_missing_or_disordered() {
    let (mut db, mut store) = setup();
    init_chunked_upload(&mut db, &mut store, "alice", "f1", "text/plain", 10).unwrap();
    upload_chunk(&mut db, &mut store, "alice", "f1", 0, vec![1, 2, 3]).unwrap();
    upload_chunk(&mut db, &mut store, "alice", "f1", 2, vec![4, 5]).unwrap();
    let err = finalize_chunked_upload(&mut db, "alice", "f1").unwrap_err();
    assert_eq!(err, StorageError::MissingOrDisordered);
}

#[test]
fn many_chunks_use_multi_digit_indices() {
    let (mut db, mut store) = setup();
    init_chunked_upload(&mut db, &mut store, "alice", "big", "application/x-bin", 24).unwrap();
    let mut expected = Vec::new();
    for i in 0..12i32 {
        let part = vec![i as u8, (i + 1) as u8];
        upload_chunk(&mut db, &mut store, "alice", "big", i, part.clone()).unwrap();
        expected.extend_from_slice(&part);
    }
    let (_hash, count) = finalize_chunked_upload(&mut db, "alice", "big").unwrap();
    assert_eq!(count, 12);
    let (_mime, data) = download_file(&db, &store, "alice", "big").unwrap();
    assert_eq!(data, expected);
}

#[test]
fn refinalizing_a_complete_file_recomputes_the_hash() {
    let (mut db, mut store) = setup();
    init_chunked_upload(&mut db, &mut store, "alice", "f1", "text/plain", 2).unwrap();
    upload_chunk(&mut db, &mut store, "alice", "f1", 0, vec![1, 2]).unwrap();
    let (h1, _) = finalize_chunked_upload(&mut db, "alice", "f1").unwrap();
    // no lifecycle state blocks a second finalize; it recomputes the
    // same digest from the same rows
    let (h2, _) = finalize_chunked_upload(&mut db, "alice", "f1").unwrap();
    assert_eq!(h1, h2);
}

#[test]
fn listing_limit_edges() {
    let (mut db, mut store) = setup();
    init_chunked_upload(&mut db, &mut store, "alice", "a1", "t/p", 1).unwrap();
    init_chunked_upload(&mut db, &mut store, "alice", "a2", "t/p", 1).unwrap();
    // a limit of zero keeps nothing; one beyond the count keeps all
    assert!(list_user_files(&db, "alice", None, Some(0)).unwrap().is_empty());
    assert_eq!(list_user_files(&db, "alice", None, Some(99)).unwrap().len(), 2);
    // an unknown mime filter keeps nothing
    assert!(list_user_files(&db, "alice", Some("x/y"), None).unwrap().is_empty());
}

#[test]
fn delete_removes_catalog_rows() {
    let (mut db, mut store) = setup();
    init_chunked_upload(&mut db, &mut store, "alice", "f1", "text/plain", 3).unwrap();
    upload_chunk(&mut db, &mut store, "alice", "f1", 0, vec![9, 9, 9]).unwrap();
    finalize_chunked_upload(&mut db, "alice", "f1").unwrap();
    delete_file(&mut db, &mut store, "alice", "f1").unwrap();
    assert!(matches!(db.buscar_file("f1"), Err(StorageError::NotFound)));
    let files = list_user_files(&db, "alice", None, None).unwrap();
    assert!(files.is_empty());
}
