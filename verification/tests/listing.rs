use privafile::blobstore::BlobStore;
use privafile::catalog::DbManager;
use privafile::config::{db_url, http_port, paseto_keys_path, Config};
use privafile::models::FileInfo;
use privafile::procedures::{download_file, init_chunked_upload, list_user_files, upload_whole};

#[test]
fn listing_filters_by_owner_mime_and_limit() {
    let mut db = DbManager::new();
    let mut store = BlobStore::new();
    init_chunked_upload(&mut db, &mut store, "alice", "a1", "text/plain", 1).unwrap();
    init_chunked_upload(&mut db, &mut store, "alice", "a2", "image/png", 1).unwrap();
    init_chunked_upload(&mut db, &mut store, "alice", "a3", "text/plain", 1).unwrap();
    init_chunked_upload(&mut db, &mut store, "bob", "b1", "text/plain", 1).unwrap();

    let all = list_user_files(&db, "alice", None, None).unwrap();
    assert_eq!(
        all.iter().map(|f| f.id.as_str()).collect::<Vec<_>>(),
        ["a1", "a2", "a3"]
    );

    let texts = list_user_files(&db, "alice", Some("text/plain"), None).unwrap();
    assert_eq!(
        texts.iter().map(|f| f.id.as_str()).collect::<Vec<_>>(),
        ["a1", "a3"]
    );

    let limited = list_user_files(&db, "alice", None, Some(2)).unwrap();
    assert_eq!(
        limited.iter().map(|f| f.id.as_str()).collect::<Vec<_>>(),
        ["a1", "a2"]
    );

    let bobs = list_user_files(&db, "bob", None, None).unwrap();
    assert_eq!(bobs.len(), 1);
    assert_eq!(bobs[0].owner_id, "bob");
}

#[test]
fn whole_blob_upload_then_download() {
    let mut db = DbManager::new();
    let mut store = BlobStore::new();
    let payload = b"plain old blob".to_vec();
    let (id, hash) = upload_whole(&mut db, &mut store, "alice", "text/plain", payload.clone())
        .unwrap();
    assert_eq!(id.len(), 36);
    assert_eq!(hash.len(), 128);
    let file = db.buscar_file(id.as_str()).unwrap();
    assert_eq!(file.status, "complete");
    assert_eq!(file.hash, hash);
    // zero chunk rows, so download reads the legacy whole blob
    let (mime, data) = download_file(&db, &store, "alice", id.as_str()).unwrap();
    assert_eq!(mime, "text/plain");
    assert_eq!(data, payload);
}

#[test]
fn two_whole_uploads_get_distinct_ids() {
    let mut db = DbManager::new();
    let mut store = BlobStore::new();
    let (id1, _) = upload_whole(&mut db, &mut store, "alice", "a/b", vec![1]).unwrap();
    let (id2, _) = upload_whole(&mut db, &mut store, "alice", "a/b", vec![2]).unwrap();
    assert_ne!(id1, id2);
}

#[test]
fn config_getters_fall_back_when_unloaded() {
    assert_eq!(http_port(None), 5830);
    assert_eq!(db_url(None), "./Privafile/Privafile.sql");
    assert_eq!(paseto_keys_path(None), "./Privafile/Paseto_privafile.key");
    let c = Config::default();
    assert_eq!(c.http_port, 5830);
    assert_eq!(c.database_url, "./Privafile/Privafile.db");
    assert_eq!(http_port(Some(&c)), 5830);
    assert_eq!(db_url(Some(&c)), "./Privafile/Privafile.db");
    assert_eq!(paseto_keys_path(Some(&c)), "./Privafile/paseto.key");
}

#[test]
fn file_info_carries_the_row_fields() {
    let mut db = DbManager::new();
    let mut store = BlobStore::new();
    init_chunked_upload(&mut db, &mut store, "alice", "a1", "text/plain", 7).unwrap();
    let file = db.buscar_file("a1").unwrap();
    let info = FileInfo::from(file);
    assert_eq!(info.id, "a1");
    assert_eq!(info.mime, "text/plain");
    assert_eq!(info.status, "uploading");
    assert_eq!(info.hash, "");
    assert_eq!(info.total_size, Some(7));
}
