use privafile::blobstore::BlobStore;
use privafile::catalog::DbManager;
use privafile::errors::StorageError;
use privafile::models::{NuevoChunk, NuevoUsuario};
use privafile::procedures::{download_chunk, init_chunked_upload, upload_chunk};
use privafile::strutil::{make_chunk_id, make_chunk_path, u32_dec};

#[test]
fn chunk_listing_comes_back_sorted() {
    let mut db = DbManager::new();
    let mut store = BlobStore::new();
    init_chunked_upload(&mut db, &mut store, "u", "f", "a/b", 9).unwrap();
    for idx in [3, 0, 2, 1] {
        upload_chunk(&mut db, &mut store, "u", "f", idx, vec![idx as u8]).unwrap();
    }
    let chunks = db.obtener_chunks_de_file("f").unwrap();
    let indices: Vec<i32> = chunks.iter().map(|c| c.chunk_index).collect();
    assert_eq!(indices, [0, 1, 2, 3]);
    assert!(chunks.iter().all(|c| c.file_id == "f"));
    assert_eq!(db.contar_chunks_de_file("f").unwrap(), 4);
    assert_eq!(db.contar_chunks_de_file("other").unwrap(), 0);
}

#[test]
fn chunk_ids_are_composite() {
    assert_eq!(make_chunk_id("f1", 0), "f1_0");
    assert_eq!(make_chunk_id("f1", 37), "f1_37");
    assert_eq!(u32_dec(0), "0");
    assert_eq!(u32_dec(12034), "12034");
    assert_eq!(make_chunk_path("f1", 2), "./Privafile/Chunks/f1/2.stchunk");
}

#[test]
fn chunk_lookup_and_status_update() {
    let mut db = DbManager::new();
    let mut store = BlobStore::new();
    init_chunked_upload(&mut db, &mut store, "u", "f", "a/b", 9).unwrap();
    upload_chunk(&mut db, &mut store, "u", "f", 0, vec![1, 2]).unwrap();
    let c = db.buscar_chunk("f_0").unwrap();
    assert_eq!(c.chunk_index, 0);
    assert_eq!(c.size, 2);
    assert_eq!(c.status, "uploaded");
    assert_eq!(db.actualizar_chunk_status("f_0", "archived").unwrap(), 1);
    assert_eq!(db.buscar_chunk("f_0").unwrap().status, "archived");
    assert!(matches!(db.buscar_chunk("f_9"), Err(StorageError::NotFound)));
}

#[test]
fn download_chunk_hands_bytes_and_recorded_hash() {
    let mut db = DbManager::new();
    let mut store = BlobStore::new();
    init_chunked_upload(&mut db, &mut store, "u", "f", "a/b", 9).unwrap();
    let hash = upload_chunk(&mut db, &mut store, "u", "f", 1, vec![9, 8, 7]).unwrap();
    let (bytes, stored_hash) = download_chunk(&db, &store, "u", "f", 1).unwrap();
    assert_eq!(bytes, vec![9, 8, 7]);
    assert_eq!(stored_hash, hash);
    assert!(matches!(
        download_chunk(&db, &store, "u", "f", 0),
        Err(StorageError::NotFound)
    ));
}

#[test]
fn user_rows_keep_their_id_unique() {
    let mut db = DbManager::new();
    let row = NuevoUsuario {
        id: "u1".to_string(),
        username: "alice".to_string(),
        password: "hash".to_string(),
        b64_pubkey: None,
    };
    assert_eq!(db.insertar_usuario(&row).unwrap(), 1);
    let dup = NuevoUsuario {
        id: "u1".to_string(),
        username: "other".to_string(),
        password: "hash2".to_string(),
        b64_pubkey: None,
    };
    assert!(matches!(db.insertar_usuario(&dup), Err(StorageError::StoreError)));
    assert_eq!(db.buscar_usuario("u1").unwrap().username, "alice");
    assert_eq!(db.buscar_usuario_por_username("alice").unwrap().id, "u1");
    assert_eq!(db.borrar_usuario("u1").unwrap(), 1);
    assert!(matches!(db.buscar_usuario("u1"), Err(StorageError::NotFound)));
    assert_eq!(db.borrar_usuario("u1").unwrap(), 0);
}

#[test]
fn chunk_insert_refuses_duplicate_composite_id() {
    let mut db = DbManager::new();
    let row = NuevoChunk {
        id: "f_0".to_string(),
        file_id: "f".to_string(),
        chunk_index: 0,
        hash: "ab12".to_string(),
        size: 2,
        status: "uploaded".to_string(),
    };
    assert_eq!(db.insertar_chunk(&row).unwrap(), 1);
    let dup = NuevoChunk {
        id: "f_0".to_string(),
        file_id: "f".to_string(),
        chunk_index: 0,
        hash: "cd34".to_string(),
        size: 9,
        status: "uploaded".to_string(),
    };
    assert!(matches!(db.insertar_chunk(&dup), Err(StorageError::StoreError)));
}
