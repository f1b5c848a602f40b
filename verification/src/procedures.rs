//! The storage engine: the chunked-upload state machine, assembly
//! and download, deletion, the legacy whole-blob path, and the
//! identity operations.
//!
//! Every operation takes the catalog and blob store it drives, checks
//! ownership before touching anything, and states exactly which
//! error each input earns.

use argon2::PasswordHasher;
use argon2::PasswordVerifier;
use vstd::prelude::*;
use vstd::string::StringExecFns;

use crate::blobstore::BlobStore;
use crate::catalog::{
    by_chunk_id, by_file_id, by_user_id, by_username, chunk_row_wf, files_listing, set_file_hash,
    set_file_status, DbManager,
};
use crate::errors::{IdentityError, StorageError};
use crate::hashing::{content_hash, content_hash_spec, final_digest, final_digest_of};
use crate::models::{ChunkV, File, FileV, NuevoChunk, NuevoFile, NuevoUsuario};
use crate::rows::{
    find_by, lemma_find_by_none, lemma_find_by_some, lemma_reject_by_nomatch, lemma_reject_by_snoc,
    reject_by,
};
use crate::strutil::{
    char_is_alphanumeric, chunk_id_spec, chunk_path_spec, chunks_dir_spec, contains_char,
    contains_traversal, has_traversal, is_lower_hex_digit, is_username_char, make_chunk_id,
    make_chunk_path, make_chunks_dir, make_whole_path, str_eq, whole_path_spec,
};

verus! {

// ───────────────────────────────────────────────────────────────────
// Trusted wrappers
// ───────────────────────────────────────────────────────────────────

/// Relies on uuid's `new_v4`/`to_string`: 36 characters in the
/// hyphenated form, lowercase hex digits and hyphens.
#[verifier::external_body]
fn new_uuid() -> (r: String)
    ensures
        r@.len() == 36,
        forall|i: int| 0 <= i < r@.len() ==> is_lower_hex_digit(#[trigger] r@[i]) || r@[i] == '-',
{
    uuid::Uuid::new_v4().to_string()
}

/// What verifying a password against a PHC hash string yields:
/// whether they match, or nothing when the hash string is unreadable.
pub uninterp spec fn argon2_check(password: Seq<u8>, hash: Seq<char>) -> Option<bool>;

/// Relies on argon2's `hash_password`: the PHC string it produces
/// verifies against the hashed password.
#[verifier::external_body]
fn argon2_hash(password: &[u8]) -> (r: Result<String, ()>)
    ensures
        match r {
            Ok(h) => argon2_check(password@, h@) == Some(true),
            Err(_) => true,
        },
{
    match argon2::Argon2::default().hash_password(password) {
        Ok(h) => Ok(h.to_string()),
        Err(_) => Err(()),
    }
}

/// Relies on argon2's `verify_password`: a pure function of password
/// and hash string; `None` stands for an unreadable hash.
#[verifier::external_body]
fn argon2_verify(password: &[u8], hash: &str) -> (r: Option<bool>)
    ensures
        r == argon2_check(password@, hash@),
{
    match argon2::Argon2::default().verify_password(password, hash) {
        Ok(()) => Some(true),
        Err(argon2::password_hash::Error::PasswordInvalid) => Some(false),
        Err(_) => None,
    }
}

// ───────────────────────────────────────────────────────────────────
// Row shapes the engine writes
// ───────────────────────────────────────────────────────────────────

/// The file row a chunked upload starts with.
pub open spec fn upload_row(fid: Seq<char>, mime: Seq<char>, owner: Seq<char>, size: i32) -> FileV {
    FileV {
        id: fid,
        mime: mime,
        hash: ""@,
        owner_id: owner,
        status: "uploading"@,
        total_size: Some(size),
        created_at: Seq::empty(),
    }
}

/// The chunk row an accepted chunk leaves behind.
pub open spec fn chunk_row(fid: Seq<char>, idx: i32, hash: Seq<char>, size: i32) -> ChunkV {
    ChunkV {
        id: chunk_id_spec(fid, idx as int),
        file_id: fid,
        chunk_index: idx,
        hash: hash,
        size: size,
        status: "uploaded"@,
        created_at: Seq::empty(),
    }
}

/// The file row a whole-blob upload inserts.
pub open spec fn whole_row(fid: Seq<char>, mime: Seq<char>, hash: Seq<char>, owner: Seq<char>, size: i32) -> FileV {
    FileV {
        id: fid,
        mime: mime,
        hash: hash,
        owner_id: owner,
        status: "complete"@,
        total_size: Some(size),
        created_at: Seq::empty(),
    }
}

/// A chunk run is contiguous when row `i` carries index `i`.
pub open spec fn contiguous(cs: Seq<ChunkV>) -> bool {
    forall|i: int| 0 <= i < cs.len() ==> (#[trigger] cs[i]).chunk_index == i
}

/// The hash column of a chunk run.
pub open spec fn hashes_of(cs: Seq<ChunkV>) -> Seq<Seq<char>> {
    cs.map_values(|c: ChunkV| c.hash)
}

// ───────────────────────────────────────────────────────────────────
// Chunked upload state machine
// ───────────────────────────────────────────────────────────────────

/// Starts a chunked upload: validates the declared size and mime
/// type, creates the file row in the `uploading` state, and provisions
/// the chunk directory.
pub fn init_chunked_upload(
    db: &mut DbManager,
    store: &mut BlobStore,
    user_id: &str,
    file_id: &str,
    mime: &str,
    total_size: i32,
) -> (r: Result<(), StorageError>)
    requires
        old(db).wf(),
        old(store).wf(),
    ensures
        final(db).wf(),
        final(store).wf(),
        final(db).usuarios_v() == old(db).usuarios_v(),
        final(db).chunks_v() == old(db).chunks_v(),
        final(store).blob_map() == old(store).blob_map(),
        final(store).readonly_set() == old(store).readonly_set(),
        match r {
            Ok(_) => {
                &&& total_size > 0
                &&& mime@.contains('/')
                &&& find_by(old(db).files_v(), by_file_id(), file_id@) is None
                &&& final(db).files_v() == old(db).files_v().push(
                    upload_row(file_id@, mime@, user_id@, total_size),
                )
                &&& final(store).dirs_set() == old(store).dirs_set().insert(
                    chunks_dir_spec(file_id@),
                )
            },
            Err(StorageError::InvalidIdentifier) => {
                &&& (total_size <= 0 || !mime@.contains('/'))
                &&& final(db).files_v() == old(db).files_v()
                &&& final(store).dirs_set() == old(store).dirs_set()
            },
            Err(StorageError::StoreError) => {
                &&& total_size > 0 && mime@.contains('/')
                &&& find_by(old(db).files_v(), by_file_id(), file_id@) is Some
                &&& final(db).files_v() == old(db).files_v()
                &&& final(store).dirs_set() == old(store).dirs_set()
            },
            Err(StorageError::IoError) => {
                &&& total_size > 0 && mime@.contains('/')
                &&& find_by(old(db).files_v(), by_file_id(), file_id@) is None
                &&& old(store).readonly_set().contains(chunks_dir_spec(file_id@))
                &&& final(db).files_v() == old(db).files_v().push(
                    upload_row(file_id@, mime@, user_id@, total_size),
                )
                &&& final(store).dirs_set() == old(store).dirs_set()
            },
            Err(_) => false,
        },
{
    if total_size <= 0 {
        return Err(StorageError::InvalidIdentifier);
    }
    if !contains_char(mime, '/') {
        return Err(StorageError::InvalidIdentifier);
    }
    let nuevo = NuevoFile {
        id: file_id.to_owned(),
        mime: mime.to_owned(),
        hash: String::new(),
        owner_id: user_id.to_owned(),
        status: String::from_str("uploading"),
        total_size: Some(total_size),
    };
    proof {
        reveal_strlit("");
        assert(nuevo@.hash =~= (""@));
        assert(nuevo@ == upload_row(file_id@, mime@, user_id@, total_size));
    }
    match db.insertar_file(&nuevo) {
        Ok(_) => {},
        Err(e) => {
            return Err(e);
        },
    }
    let dir = make_chunks_dir(file_id);
    match store.create_dir(dir.as_str()) {
        Ok(_) => {},
        Err(e) => {
            return Err(e);
        },
    }
    Ok(())
}

/// Accepts one chunk: checks that the file exists, belongs to the
/// caller and is still uploading, hashes the bytes, writes them to
/// the blob store, then records the chunk row. Returns the chunk's
/// hex hash for the caller to cross-check.
pub fn upload_chunk(
    db: &mut DbManager,
    store: &mut BlobStore,
    user_id: &str,
    file_id: &str,
    chunk_index: i32,
    chunk_data: Vec<u8>,
) -> (r: Result<String, StorageError>)
    requires
        old(db).wf(),
        old(store).wf(),
        0 <= chunk_index,
        chunk_data@.len() <= 0x7fff_ffff,
    ensures
        final(db).wf(),
        final(store).wf(),
        final(db).usuarios_v() == old(db).usuarios_v(),
        final(db).files_v() == old(db).files_v(),
        final(store).dirs_set() == old(store).dirs_set(),
        final(store).readonly_set() == old(store).readonly_set(),
        match r {
            Ok(h) => {
                &&& (match find_by(old(db).files_v(), by_file_id(), file_id@) {
                    Some(f) => f.owner_id == user_id@ && f.status == "uploading"@,
                    None => false,
                })
                &&& h@ == content_hash_spec(chunk_data@)
                &&& h@.len() == 128
                &&& (forall|i: int| 0 <= i < h@.len() ==> is_lower_hex_digit(#[trigger] h@[i]))
                &&& !old(store).readonly_set().contains(
                    chunk_path_spec(file_id@, chunk_index as int),
                )
                &&& final(store).blob_map() == old(store).blob_map().insert(
                    chunk_path_spec(file_id@, chunk_index as int),
                    chunk_data@,
                )
                &&& find_by(
                    old(db).chunks_v(),
                    by_chunk_id(),
                    chunk_id_spec(file_id@, chunk_index as int),
                ) is None
                &&& final(db).chunks_v() == old(db).chunks_v().push(
                    chunk_row(file_id@, chunk_index, h@, chunk_data@.len() as i32),
                )
            },
            Err(StorageError::NotFound) => {
                &&& find_by(old(db).files_v(), by_file_id(), file_id@) is None
                &&& final(db).chunks_v() == old(db).chunks_v()
                &&& final(store).blob_map() == old(store).blob_map()
            },
            Err(StorageError::Forbidden) => {
                &&& (match find_by(old(db).files_v(), by_file_id(), file_id@) {
                    Some(f) => f.owner_id != user_id@,
                    None => false,
                })
                &&& final(db).chunks_v() == old(db).chunks_v()
                &&& final(store).blob_map() == old(store).blob_map()
            },
            Err(StorageError::InvalidState) => {
                &&& (match find_by(old(db).files_v(), by_file_id(), file_id@) {
                    Some(f) => f.owner_id == user_id@ && f.status != "uploading"@,
                    None => false,
                })
                &&& final(db).chunks_v() == old(db).chunks_v()
                &&& final(store).blob_map() == old(store).blob_map()
            },
            Err(StorageError::IoError) => {
                // the ownership and lifecycle gates had already
                // passed; only then is the blob store touched
                &&& (match find_by(old(db).files_v(), by_file_id(), file_id@) {
                    Some(f) => f.owner_id == user_id@ && f.status == "uploading"@,
                    None => false,
                })
                &&& old(store).readonly_set().contains(
                    chunk_path_spec(file_id@, chunk_index as int),
                )
                &&& final(db).chunks_v() == old(db).chunks_v()
                &&& final(store).blob_map() == old(store).blob_map()
            },
            Err(StorageError::StoreError) => {
                &&& (match find_by(old(db).files_v(), by_file_id(), file_id@) {
                    Some(f) => f.owner_id == user_id@ && f.status == "uploading"@,
                    None => false,
                })
                &&& find_by(
                    old(db).chunks_v(),
                    by_chunk_id(),
                    chunk_id_spec(file_id@, chunk_index as int),
                ) is Some
                &&& final(db).chunks_v() == old(db).chunks_v()
                &&& final(store).blob_map() == old(store).blob_map().insert(
                    chunk_path_spec(file_id@, chunk_index as int),
                    chunk_data@,
                )
            },
            Err(_) => false,
        },
{
    let file = match db.buscar_file(file_id) {
        Ok(f) => f,
        Err(e) => {
            return Err(e);
        },
    };
    if !str_eq(file.owner_id.as_str(), user_id) {
        return Err(StorageError::Forbidden);
    }
    if !str_eq(file.status.as_str(), "uploading") {
        return Err(StorageError::InvalidState);
    }
    let chunk_hash = content_hash(chunk_data.as_slice());
    let chunk_id = make_chunk_id(file_id, chunk_index as u32);
    let chunk_path = make_chunk_path(file_id, chunk_index as u32);
    match store.write_blob(chunk_path.as_str(), chunk_data.as_slice()) {
        Ok(_) => {},
        Err(e) => {
            return Err(e);
        },
    }
    let nuevo = NuevoChunk {
        id: chunk_id,
        file_id: file_id.to_owned(),
        chunk_index: chunk_index,
        hash: chunk_hash.clone(),
        size: chunk_data.len() as i32,
        status: String::from_str("uploaded"),
    };
    match db.insertar_chunk(&nuevo) {
        Ok(_) => {},
        Err(e) => {
            return Err(e);
        },
    }
    Ok(chunk_hash)
}

/// Closes a chunked upload: checks ownership, requires at least one
/// chunk and a contiguous index run `0..n`, computes the summary
/// digest over the chunks' hex hash strings in index order, and marks
/// the file complete with that hash.
pub fn finalize_chunked_upload(db: &mut DbManager, user_id: &str, file_id: &str) -> (r: Result<
    (String, usize),
    StorageError,
>)
    requires
        old(db).wf(),
    ensures
        final(db).wf(),
        final(db).usuarios_v() == old(db).usuarios_v(),
        final(db).chunks_v() == old(db).chunks_v(),
        match r {
            Ok(p) => {
                &&& (match find_by(old(db).files_v(), by_file_id(), file_id@) {
                    Some(f) => f.owner_id == user_id@,
                    None => false,
                })
                &&& old(db).chunks_of(file_id@).len() > 0
                &&& contiguous(old(db).chunks_of(file_id@))
                &&& p.0@ == final_digest(hashes_of(old(db).chunks_of(file_id@)))
                &&& p.0@.len() == 128
                &&& (forall|i: int| 0 <= i < p.0@.len() ==> is_lower_hex_digit(#[trigger] p.0@[i]))
                &&& p.1 == old(db).chunks_of(file_id@).len()
                &&& final(db).files_v() == set_file_status(
                    set_file_hash(old(db).files_v(), file_id@, p.0@),
                    file_id@,
                    "complete"@,
                )
            },
            Err(StorageError::NotFound) => {
                &&& find_by(old(db).files_v(), by_file_id(), file_id@) is None
                &&& final(db).files_v() == old(db).files_v()
            },
            Err(StorageError::Forbidden) => {
                &&& (match find_by(old(db).files_v(), by_file_id(), file_id@) {
                    Some(f) => f.owner_id != user_id@,
                    None => false,
                })
                &&& final(db).files_v() == old(db).files_v()
            },
            Err(StorageError::EmptyUpload) => {
                &&& (match find_by(old(db).files_v(), by_file_id(), file_id@) {
                    Some(f) => f.owner_id == user_id@,
                    None => false,
                })
                &&& old(db).chunks_of(file_id@).len() == 0
                &&& final(db).files_v() == old(db).files_v()
            },
            Err(StorageError::MissingOrDisordered) => {
                &&& (match find_by(old(db).files_v(), by_file_id(), file_id@) {
                    Some(f) => f.owner_id == user_id@,
                    None => false,
                })
                &&& old(db).chunks_of(file_id@).len() > 0
                &&& !contiguous(old(db).chunks_of(file_id@))
                &&& final(db).files_v() == old(db).files_v()
            },
            Err(_) => false,
        },
{
    let ghost cs = old(db).chunks_of(file_id@);
    let file = match db.buscar_file(file_id) {
        Ok(f) => f,
        Err(e) => {
            return Err(e);
        },
    };
    if !str_eq(file.owner_id.as_str(), user_id) {
        return Err(StorageError::Forbidden);
    }
    let chunks = match db.obtener_chunks_de_file(file_id) {
        Ok(c) => c,
        Err(e) => {
            return Err(e);
        },
    };
    let n = chunks.len();
    if n == 0 {
        return Err(StorageError::EmptyUpload);
    }
    let mut i: usize = 0;
    while i < n
        invariant
            i <= n,
            n == cs.len(),
            n > 0,
            db == old(db),
            old(db).wf(),
            cs == old(db).chunks_of(file_id@),
            cs == chunks.deep_view(),
            n == chunks.len(),
            (match find_by(old(db).files_v(), by_file_id(), file_id@) {
                Some(f) => f.owner_id == user_id@,
                None => false,
            }),
            forall|j: int| 0 <= j < cs.len() ==> chunk_row_wf(#[trigger] cs[j]),
            forall|j: int| 0 <= j < i ==> (#[trigger] cs[j]).chunk_index == j,
        decreases n - i,
    {
        let idx = chunks[i].chunk_index;
        if idx < 0 || (idx as u64) != (i as u64) {
            proof {
                assert(chunk_row_wf(cs[i as int]));
                assert(cs[i as int].chunk_index != i as int);
                assert(!contiguous(cs));
            }
            return Err(StorageError::MissingOrDisordered);
        }
        i = i + 1;
    }
    let mut hashes: Vec<String> = Vec::new();
    let mut k: usize = 0;
    while k < n
        invariant
            k <= n,
            n == cs.len(),
            db == old(db),
            cs == chunks.deep_view(),
            n == chunks.len(),
            forall|j: int|
                0 <= j < cs.len() ==> chunk_row_wf(#[trigger] cs[j]),
            hashes.deep_view() == hashes_of(cs).take(k as int),
        decreases n - k,
    {
        let ghost pre = hashes.deep_view();
        hashes.push(chunks[k].hash.clone());
        proof {
            assert(hashes.deep_view() =~= pre.push(cs[k as int].hash));
            assert(hashes_of(cs).take(k + 1) =~= hashes_of(cs).take(k as int).push(
                cs[k as int].hash,
            ));
        }
        k = k + 1;
    }
    proof {
        assert(hashes_of(cs).take(n as int) =~= hashes_of(cs));
        assert forall|a: int, b: int|
            0 <= a < hashes.deep_view().len() && 0 <= b < hashes.deep_view()[a].len() implies
            is_lower_hex_digit(#[trigger] hashes.deep_view()[a][b]) by {
            assert(hashes.deep_view()[a] == cs[a].hash);
            assert(chunk_row_wf(cs[a]));
        }
    }
    let final_hash = final_digest_of(&hashes);
    match db.actualizar_file_hash(file_id, final_hash.as_str()) {
        Ok(_) => {},
        Err(e) => {
            return Err(e);
        },
    }
    match db.actualizar_file_status(file_id, "complete") {
        Ok(_) => {},
        Err(e) => {
            return Err(e);
        },
    }
    Ok((final_hash, n))
}

// ───────────────────────────────────────────────────────────────────
// Assembly and download
// ───────────────────────────────────────────────────────────────────

/// Whether every chunk of the run has its payload in the store.
pub open spec fn all_chunks_present(
    m: Map<Seq<char>, Seq<u8>>,
    fid: Seq<char>,
    cs: Seq<ChunkV>,
) -> bool {
    forall|i: int|
        0 <= i < cs.len() ==> m.contains_key(
            chunk_path_spec(fid, (#[trigger] cs[i]).chunk_index as int),
        )
}

/// The bytes a chunk run assembles to: each chunk's stored payload,
/// concatenated in run order.
pub open spec fn assembled_bytes(
    m: Map<Seq<char>, Seq<u8>>,
    fid: Seq<char>,
    cs: Seq<ChunkV>,
) -> Seq<u8>
    decreases cs.len(),
{
    if cs.len() == 0 {
        Seq::empty()
    } else {
        assembled_bytes(m, fid, cs.drop_last()) + m[chunk_path_spec(
            fid,
            cs.last().chunk_index as int,
        )]
    }
}

/// Reconstructs a file: after the path-traversal and ownership
/// checks, a file without chunk rows reads the legacy whole blob,
/// and one with chunk rows concatenates their payloads in ascending
/// index order.
pub fn download_file(db: &DbManager, store: &BlobStore, user_id: &str, file_id: &str) -> (r: Result<
    (String, Vec<u8>),
    StorageError,
>)
    requires
        db.wf(),
        store.wf(),
    ensures
        match r {
            Ok(p) => {
                &&& !has_traversal(file_id@)
                &&& (match find_by(db.files_v(), by_file_id(), file_id@) {
                    Some(f) => f.owner_id == user_id@ && p.0@ == f.mime,
                    None => false,
                })
                &&& if db.chunks_of(file_id@).len() == 0 {
                    store.blob_map().contains_key(whole_path_spec(file_id@)) && p.1@
                        == store.blob_map()[whole_path_spec(file_id@)]
                } else {
                    all_chunks_present(store.blob_map(), file_id@, db.chunks_of(file_id@)) && p.1@
                        == assembled_bytes(store.blob_map(), file_id@, db.chunks_of(file_id@))
                }
            },
            Err(StorageError::InvalidIdentifier) => has_traversal(file_id@),
            Err(StorageError::NotFound) => {
                &&& !has_traversal(file_id@)
                &&& find_by(db.files_v(), by_file_id(), file_id@) is None
            },
            Err(StorageError::Forbidden) => {
                &&& !has_traversal(file_id@)
                &&& (match find_by(db.files_v(), by_file_id(), file_id@) {
                    Some(f) => f.owner_id != user_id@,
                    None => false,
                })
            },
            Err(StorageError::IoError) => {
                &&& !has_traversal(file_id@)
                &&& (match find_by(db.files_v(), by_file_id(), file_id@) {
                    Some(f) => f.owner_id == user_id@,
                    None => false,
                })
                &&& if db.chunks_of(file_id@).len() == 0 {
                    !store.blob_map().contains_key(whole_path_spec(file_id@))
                } else {
                    !all_chunks_present(store.blob_map(), file_id@, db.chunks_of(file_id@))
                }
            },
            Err(_) => false,
        },
{
    if contains_traversal(file_id) {
        return Err(StorageError::InvalidIdentifier);
    }
    let file = match db.buscar_file(file_id) {
        Ok(f) => f,
        Err(e) => {
            return Err(e);
        },
    };
    if !str_eq(file.owner_id.as_str(), user_id) {
        return Err(StorageError::Forbidden);
    }
    let chunks = match db.obtener_chunks_de_file(file_id) {
        Ok(c) => c,
        Err(e) => {
            return Err(e);
        },
    };
    let ghost cs = db.chunks_of(file_id@);
    let n = chunks.len();
    if n == 0 {
        let whole = make_whole_path(file_id);
        let data = match store.read_blob(whole.as_str()) {
            Ok(d) => d,
            Err(e) => {
                return Err(e);
            },
        };
        return Ok((file.mime, data));
    }
    let mut out: Vec<u8> = Vec::new();
    let mut i: usize = 0;
    while i < n
        invariant
            i <= n,
            n == cs.len(),
            cs == chunks.deep_view(),
            n == chunks.len(),
            db.wf(),
            store.wf(),
            cs == db.chunks_of(file_id@),
            n > 0,
            !has_traversal(file_id@),
            (match find_by(db.files_v(), by_file_id(), file_id@) {
                Some(f) => f.owner_id == user_id@,
                None => false,
            }),
            forall|j: int| 0 <= j < cs.len() ==> chunk_row_wf(#[trigger] cs[j]),
            forall|j: int|
                0 <= j < i ==> store.blob_map().contains_key(
                    chunk_path_spec(file_id@, (#[trigger] cs[j]).chunk_index as int),
                ),
            out@ == assembled_bytes(store.blob_map(), file_id@, cs.take(i as int)),
        decreases n - i,
    {
        let idx = chunks[i].chunk_index;
        proof {
            assert(chunk_row_wf(cs[i as int]));
        }
        let path = make_chunk_path(file_id, idx as u32);
        let mut data = match store.read_blob(path.as_str()) {
            Ok(d) => d,
            Err(e) => {
                proof {
                    assert(!store.blob_map().contains_key(
                        chunk_path_spec(file_id@, cs[i as int].chunk_index as int),
                    ));
                    assert(!all_chunks_present(store.blob_map(), file_id@, cs));
                }
                return Err(e);
            },
        };
        let ghost pre = out@;
        out.append(&mut data);
        proof {
            assert(cs.take(i + 1).drop_last() =~= cs.take(i as int));
            assert(cs.take(i + 1).last() == cs[i as int]);
            assert(out@ =~= assembled_bytes(store.blob_map(), file_id@, cs.take(i + 1)));
        }
        i = i + 1;
    }
    proof {
        assert(cs.take(n as int) =~= cs);
    }
    Ok((file.mime, out))
}

/// Hands one chunk back: the same ownership check as a download,
/// then the chunk row's payload and recorded hash.
pub fn download_chunk(
    db: &DbManager,
    store: &BlobStore,
    user_id: &str,
    file_id: &str,
    chunk_index: i32,
) -> (r: Result<(Vec<u8>, String), StorageError>)
    requires
        db.wf(),
        store.wf(),
        0 <= chunk_index,
    ensures
        match r {
            Ok(p) => {
                &&& (match find_by(db.files_v(), by_file_id(), file_id@) {
                    Some(f) => f.owner_id == user_id@,
                    None => false,
                })
                &&& (match find_by(
                    db.chunks_v(),
                    by_chunk_id(),
                    chunk_id_spec(file_id@, chunk_index as int),
                ) {
                    Some(c) => p.1@ == c.hash,
                    None => false,
                })
                &&& store.blob_map().contains_key(chunk_path_spec(file_id@, chunk_index as int))
                &&& p.0@ == store.blob_map()[chunk_path_spec(file_id@, chunk_index as int)]
            },
            Err(StorageError::NotFound) => {
                ||| find_by(db.files_v(), by_file_id(), file_id@) is None
                ||| (match find_by(db.files_v(), by_file_id(), file_id@) {
                    Some(f) => f.owner_id == user_id@ && find_by(
                        db.chunks_v(),
                        by_chunk_id(),
                        chunk_id_spec(file_id@, chunk_index as int),
                    ) is None,
                    None => false,
                })
            },
            Err(StorageError::Forbidden) => {
                match find_by(db.files_v(), by_file_id(), file_id@) {
                    Some(f) => f.owner_id != user_id@,
                    None => false,
                }
            },
            Err(StorageError::IoError) => {
                &&& (match find_by(db.files_v(), by_file_id(), file_id@) {
                    Some(f) => f.owner_id == user_id@,
                    None => false,
                })
                &&& find_by(
                    db.chunks_v(),
                    by_chunk_id(),
                    chunk_id_spec(file_id@, chunk_index as int),
                ) is Some
                &&& !store.blob_map().contains_key(chunk_path_spec(file_id@, chunk_index as int))
            },
            Err(_) => false,
        },
{
    let file = match db.buscar_file(file_id) {
        Ok(f) => f,
        Err(e) => {
            return Err(e);
        },
    };
    if !str_eq(file.owner_id.as_str(), user_id) {
        return Err(StorageError::Forbidden);
    }
    let chunk_id = make_chunk_id(file_id, chunk_index as u32);
    let chunk = match db.buscar_chunk(chunk_id.as_str()) {
        Ok(c) => c,
        Err(e) => {
            return Err(e);
        },
    };
    let path = make_chunk_path(file_id, chunk_index as u32);
    let data = match store.read_blob(path.as_str()) {
        Ok(d) => d,
        Err(e) => {
            return Err(e);
        },
    };
    Ok((data, chunk.hash))
}

// ───────────────────────────────────────────────────────────────────
// Deletion
// ───────────────────────────────────────────────────────────────────

/// The blob map after a run's chunk payloads are dropped.
pub open spec fn remove_chunk_paths(
    m: Map<Seq<char>, Seq<u8>>,
    fid: Seq<char>,
    cs: Seq<ChunkV>,
) -> Map<Seq<char>, Seq<u8>>
    decreases cs.len(),
{
    if cs.len() == 0 {
        m
    } else {
        remove_chunk_paths(m, fid, cs.drop_last()).remove(
            chunk_path_spec(fid, cs.last().chunk_index as int),
        )
    }
}

/// Removes a file: after the path-traversal and ownership checks, a
/// best-effort sweep of its chunk payloads and directory, then the
/// chunk rows and the file row. The catalog rows go away whatever the
/// blob sweep achieved.
pub fn delete_file(db: &mut DbManager, store: &mut BlobStore, user_id: &str, file_id: &str) -> (r:
    Result<(), StorageError>)
    requires
        old(db).wf(),
        old(store).wf(),
    ensures
        final(db).wf(),
        final(store).wf(),
        final(db).usuarios_v() == old(db).usuarios_v(),
        final(store).readonly_set() == old(store).readonly_set(),
        match r {
            Ok(_) => {
                &&& !has_traversal(file_id@)
                &&& (match find_by(old(db).files_v(), by_file_id(), file_id@) {
                    Some(f) => f.owner_id == user_id@,
                    None => false,
                })
                &&& final(db).files_v() == reject_by(old(db).files_v(), by_file_id(), file_id@)
                &&& final(db).chunks_v() == reject_by(
                    old(db).chunks_v(),
                    crate::catalog::by_chunk_file(),
                    file_id@,
                )
                &&& final(store).blob_map() == remove_chunk_paths(
                    old(store).blob_map(),
                    file_id@,
                    old(db).chunks_of(file_id@),
                )
                &&& final(store).dirs_set() == old(store).dirs_set().remove(
                    chunks_dir_spec(file_id@),
                )
            },
            Err(StorageError::InvalidIdentifier) => {
                &&& has_traversal(file_id@)
                &&& final(db).files_v() == old(db).files_v()
                &&& final(db).chunks_v() == old(db).chunks_v()
                &&& final(store).blob_map() == old(store).blob_map()
                &&& final(store).dirs_set() == old(store).dirs_set()
            },
            Err(StorageError::NotFound) => {
                &&& !has_traversal(file_id@)
                &&& find_by(old(db).files_v(), by_file_id(), file_id@) is None
                &&& final(db).files_v() == old(db).files_v()
                &&& final(db).chunks_v() == old(db).chunks_v()
                &&& final(store).blob_map() == old(store).blob_map()
                &&& final(store).dirs_set() == old(store).dirs_set()
            },
            Err(StorageError::Forbidden) => {
                &&& !has_traversal(file_id@)
                &&& (match find_by(old(db).files_v(), by_file_id(), file_id@) {
                    Some(f) => f.owner_id != user_id@,
                    None => false,
                })
                &&& final(db).files_v() == old(db).files_v()
                &&& final(db).chunks_v() == old(db).chunks_v()
                &&& final(store).blob_map() == old(store).blob_map()
                &&& final(store).dirs_set() == old(store).dirs_set()
            },
            Err(_) => false,
        },
{
    if contains_traversal(file_id) {
        return Err(StorageError::InvalidIdentifier);
    }
    let file = match db.buscar_file(file_id) {
        Ok(f) => f,
        Err(e) => {
            return Err(e);
        },
    };
    if !str_eq(file.owner_id.as_str(), user_id) {
        return Err(StorageError::Forbidden);
    }
    let chunks = match db.obtener_chunks_de_file(file_id) {
        Ok(c) => c,
        Err(e) => {
            return Err(e);
        },
    };
    let ghost cs = old(db).chunks_of(file_id@);
    let n = chunks.len();
    let mut i: usize = 0;
    while i < n
        invariant
            i <= n,
            n == cs.len(),
            cs == chunks.deep_view(),
            n == chunks.len(),
            db == old(db),
            old(store).wf(),
            store.wf(),
            store.readonly_set() == old(store).readonly_set(),
            store.dirs_set() == old(store).dirs_set(),
            forall|j: int| 0 <= j < cs.len() ==> chunk_row_wf(#[trigger] cs[j]),
            store.blob_map() == remove_chunk_paths(
                old(store).blob_map(),
                file_id@,
                cs.take(i as int),
            ),
        decreases n - i,
    {
        let idx = chunks[i].chunk_index;
        proof {
            assert(chunk_row_wf(cs[i as int]));
        }
        let path = make_chunk_path(file_id, idx as u32);
        let ghost pre = store.blob_map();
        // a missing payload is not fatal to deletion
        let _ = store.delete_blob(path.as_str());
        proof {
            assert(cs.take(i + 1).drop_last() =~= cs.take(i as int));
            assert(cs.take(i + 1).last() == cs[i as int]);
            assert(store.blob_map() =~= remove_chunk_paths(
                old(store).blob_map(),
                file_id@,
                cs.take(i + 1),
            ));
        }
        i = i + 1;
    }
    proof {
        assert(cs.take(n as int) =~= cs);
    }
    let dir = make_chunks_dir(file_id);
    // a missing directory marker is not fatal either
    let _ = store.remove_dir(dir.as_str());
    match db.borrar_chunks_de_file(file_id) {
        Ok(_) => {},
        Err(e) => {
            return Err(e);
        },
    }
    match db.borrar_file(file_id) {
        Ok(_) => {},
        Err(e) => {
            return Err(e);
        },
    }
    Ok(())
}

// ───────────────────────────────────────────────────────────────────
// Whole-blob upload (legacy path)
// ───────────────────────────────────────────────────────────────────

/// Stores a payload in one piece: generates a server-side file id,
/// hashes the payload, inserts the file row as already complete, then
/// writes the blob. A failed blob write rolls the row back and
/// surfaces the write error.
pub fn upload_whole(
    db: &mut DbManager,
    store: &mut BlobStore,
    owner_id: &str,
    mime: &str,
    bytes: Vec<u8>,
) -> (r: Result<(String, String), StorageError>)
    requires
        old(db).wf(),
        old(store).wf(),
        bytes@.len() <= 0x7fff_ffff,
    ensures
        final(db).wf(),
        final(store).wf(),
        final(db).usuarios_v() == old(db).usuarios_v(),
        final(db).chunks_v() == old(db).chunks_v(),
        final(store).dirs_set() == old(store).dirs_set(),
        final(store).readonly_set() == old(store).readonly_set(),
        match r {
            Ok(p) => {
                &&& p.1@ == content_hash_spec(bytes@)
                &&& find_by(old(db).files_v(), by_file_id(), p.0@) is None
                &&& final(db).files_v() == old(db).files_v().push(
                    whole_row(p.0@, mime@, p.1@, owner_id@, bytes@.len() as i32),
                )
                &&& final(store).blob_map() == old(store).blob_map().insert(
                    whole_path_spec(p.0@),
                    bytes@,
                )
            },
            Err(StorageError::StoreError) => {
                // only a drawn id colliding with an existing row can
                // refuse the insert, so an empty catalog is owed success
                &&& old(db).files_v().len() > 0
                &&& final(db).files_v() == old(db).files_v()
                &&& final(store).blob_map() == old(store).blob_map()
            },
            Err(StorageError::IoError) => {
                // only unwritable media can refuse the blob write
                &&& old(store).readonly_set() != Set::<Seq<char>>::empty()
                &&& final(db).files_v() == old(db).files_v()
                &&& final(store).blob_map() == old(store).blob_map()
            },
            Err(_) => false,
        },
{
    let file_id = new_uuid();
    let hash = content_hash(bytes.as_slice());
    let nuevo = NuevoFile {
        id: file_id.clone(),
        mime: mime.to_owned(),
        hash: hash.clone(),
        owner_id: owner_id.to_owned(),
        status: String::from_str("complete"),
        total_size: Some(bytes.len() as i32),
    };
    proof {
        assert(nuevo@ == whole_row(file_id@, mime@, hash@, owner_id@, bytes@.len() as i32));
    }
    match db.insertar_file(&nuevo) {
        Ok(_) => {},
        Err(_) => {
            proof {
                lemma_find_by_some(old(db).files_v(), by_file_id(), file_id@);
                let f = find_by(old(db).files_v(), by_file_id(), file_id@)->Some_0;
                let m = choose|m: int|
                    0 <= m < old(db).files_v().len() && old(db).files_v()[m] == f;
            }
            return Err(StorageError::StoreError);
        },
    }
    let path = make_whole_path(file_id.as_str());
    match store.write_blob(path.as_str(), bytes.as_slice()) {
        Ok(_) => {},
        Err(e) => {
            // the one compensating action: take the row back out and
            // surface the write error
            let ghost mid = db.files_v();
            let _ = db.borrar_file(file_id.as_str());
            proof {
                lemma_reject_by_snoc(old(db).files_v(), nuevo@, by_file_id(), file_id@);
                lemma_find_by_none(old(db).files_v(), by_file_id(), file_id@);
                lemma_reject_by_nomatch(old(db).files_v(), by_file_id(), file_id@);
                assert(old(store).readonly_set().contains(whole_path_spec(file_id@)));
                assert(old(store).readonly_set() != Set::<Seq<char>>::empty()) by {
                    if old(store).readonly_set() == Set::<Seq<char>>::empty() {
                        assert(Set::<Seq<char>>::empty().contains(whole_path_spec(file_id@)));
                    }
                }
            }
            return Err(e);
        },
    }
    Ok((file_id, hash))
}

// ───────────────────────────────────────────────────────────────────
// Listing
// ───────────────────────────────────────────────────────────────────

/// Lists the caller's files, optionally narrowed to one mime type
/// and truncated to a row limit.
pub fn list_user_files(
    db: &DbManager,
    user_id: &str,
    mime_filter: Option<&str>,
    limit: Option<i64>,
) -> (r: Result<Vec<File>, StorageError>)
    ensures
        r is Ok,
        r->Ok_0.deep_view() == files_listing(
            db.files_v(),
            user_id@,
            match mime_filter {
                Some(m) => Some(m@),
                None => None,
            },
            match limit {
                Some(l) => Some(l as int),
                None => None,
            },
        ),
{
    db.obtener_files_de_usuario(user_id, mime_filter, limit)
}

// ───────────────────────────────────────────────────────────────────
// Identity operations
// ───────────────────────────────────────────────────────────────────

/// A username of acceptable length: 3 to 50 bytes of UTF-8.
pub open spec fn username_len_ok(u: Seq<char>) -> bool {
    3 <= vstd::utf8::encode_utf8(u).len() <= 50
}

/// A username of acceptable characters: Unicode letters and digits,
/// hyphens and underscores.
pub open spec fn username_chars_ok(u: Seq<char>) -> bool {
    forall|i: int| 0 <= i < u.len() ==> is_username_char(#[trigger] u[i])
}

/// A username the registry accepts.
pub open spec fn valid_username(u: Seq<char>) -> bool {
    username_len_ok(u) && username_chars_ok(u)
}

/// A password of acceptable length: at least 8 bytes of UTF-8.
pub open spec fn password_len_ok(p: Seq<char>) -> bool {
    vstd::utf8::encode_utf8(p).len() >= 8
}

/// Registers a user: validates the username's length, then the
/// password's length, then the username's characters, refuses a
/// taken username, hashes the password, and inserts the row under a
/// fresh id. On success the stored hash verifies against the given
/// password.
pub fn register_user(db: &mut DbManager, username: &str, password: &str) -> (r: Result<
    String,
    IdentityError,
>)
    requires
        old(db).wf(),
    ensures
        final(db).wf(),
        final(db).files_v() == old(db).files_v(),
        final(db).chunks_v() == old(db).chunks_v(),
        match r {
            Ok(uid) => {
                &&& valid_username(username@)
                &&& password_len_ok(password@)
                &&& find_by(old(db).usuarios_v(), by_username(), username@) is None
                &&& final(db).usuarios_v().len() == old(db).usuarios_v().len() + 1
                &&& final(db).usuarios_v() == old(db).usuarios_v().push(
                    final(db).usuarios_v().last(),
                )
                &&& final(db).usuarios_v().last().id == uid@
                &&& final(db).usuarios_v().last().username == username@
                &&& final(db).usuarios_v().last().b64_pubkey is None
                &&& argon2_check(
                    vstd::utf8::encode_utf8(password@),
                    final(db).usuarios_v().last().password,
                ) == Some(true)
            },
            Err(IdentityError::InvalidUsername) => {
                // the length gate fires first; the character scan
                // only runs once the password length has passed
                &&& (!username_len_ok(username@) || (password_len_ok(password@)
                    && !username_chars_ok(username@)))
                &&& final(db).usuarios_v() == old(db).usuarios_v()
            },
            Err(IdentityError::InvalidPassword) => {
                &&& username_len_ok(username@) && !password_len_ok(password@)
                &&& final(db).usuarios_v() == old(db).usuarios_v()
            },
            Err(IdentityError::UsernameTaken) => {
                &&& valid_username(username@) && password_len_ok(password@)
                &&& find_by(old(db).usuarios_v(), by_username(), username@) is Some
                &&& final(db).usuarios_v() == old(db).usuarios_v()
            },
            Err(IdentityError::HashingFailed) => {
                &&& valid_username(username@) && password_len_ok(password@)
                &&& final(db).usuarios_v() == old(db).usuarios_v()
            },
            Err(IdentityError::StoreError) => {
                &&& valid_username(username@) && password_len_ok(password@)
                &&& final(db).usuarios_v() == old(db).usuarios_v()
            },
            Err(_) => false,
        },
{
    let name_bytes = username.as_bytes().len();
    proof {
        assert(name_bytes == vstd::utf8::encode_utf8(username@).len());
    }
    if name_bytes < 3 || name_bytes > 50 {
        return Err(IdentityError::InvalidUsername);
    }
    let password_bytes = password.as_bytes().len();
    proof {
        assert(password_bytes == vstd::utf8::encode_utf8(password@).len());
    }
    if password_bytes < 8 {
        return Err(IdentityError::InvalidPassword);
    }
    let name_len = vstd::string::StrSliceExecFns::unicode_len(username);
    let mut i: usize = 0;
    while i < name_len
        invariant
            i <= name_len,
            name_len == username@.len(),
            username_len_ok(username@),
            password_len_ok(password@),
            db == old(db),
            old(db).wf(),
            forall|j: int| 0 <= j < i ==> is_username_char(#[trigger] username@[j]),
        decreases name_len - i,
    {
        let c = vstd::string::StrSliceExecFns::get_char(username, i);
        let ok = char_is_alphanumeric(c) || c == '_' || c == '-';
        if !ok {
            proof {
                assert(!is_username_char(username@[i as int]));
                assert(!username_chars_ok(username@));
            }
            return Err(IdentityError::InvalidUsername);
        }
        i = i + 1;
    }
    match db.buscar_usuario_por_username(username) {
        Ok(_) => {
            return Err(IdentityError::UsernameTaken);
        },
        Err(_) => {},
    }
    let password_hash = match argon2_hash(password.as_bytes()) {
        Ok(h) => h,
        Err(_) => {
            return Err(IdentityError::HashingFailed);
        },
    };
    let user_id = new_uuid();
    let nuevo = NuevoUsuario {
        id: user_id.clone(),
        username: username.to_owned(),
        password: password_hash,
        b64_pubkey: None,
    };
    match db.insertar_usuario(&nuevo) {
        Ok(_) => {},
        Err(_) => {
            return Err(IdentityError::StoreError);
        },
    }
    proof {
        assert(db.usuarios_v().last() == nuevo@);
    }
    Ok(user_id)
}

/// Logs a user in: finds the row by username and verifies the
/// password against the stored hash; exactly a stored hash that
/// verifies yields the user's id.
pub fn authenticate_user(db: &DbManager, username: &str, password: &str) -> (r: Result<
    String,
    IdentityError,
>)
    ensures
        match r {
            Ok(uid) => {
                match find_by(db.usuarios_v(), by_username(), username@) {
                    Some(u) => uid@ == u.id && argon2_check(
                        vstd::utf8::encode_utf8(password@),
                        u.password,
                    ) == Some(true),
                    None => false,
                }
            },
            Err(IdentityError::UnknownUser) => find_by(
                db.usuarios_v(),
                by_username(),
                username@,
            ) is None,
            Err(IdentityError::InvalidCredentials) => {
                match find_by(db.usuarios_v(), by_username(), username@) {
                    Some(u) => argon2_check(vstd::utf8::encode_utf8(password@), u.password)
                        != Some(true),
                    None => false,
                }
            },
            Err(_) => false,
        },
{
    let usuario = match db.buscar_usuario_por_username(username) {
        Ok(u) => u,
        Err(_) => {
            return Err(IdentityError::UnknownUser);
        },
    };
    match argon2_verify(password.as_bytes(), usuario.password.as_str()) {
        Some(true) => Ok(usuario.id),
        _ => Err(IdentityError::InvalidCredentials),
    }
}

/// Whether a user row with this id exists.
pub fn user_exists(db: &DbManager, user_id: &str) -> (r: Result<bool, StorageError>)
    ensures
        r == Ok::<bool, StorageError>(find_by(db.usuarios_v(), by_user_id(), user_id@) is Some),
{
    match db.buscar_usuario(user_id) {
        Ok(_) => Ok(true),
        Err(_) => Ok(false),
    }
}

} // verus!
