//! Catalog rows and the request/response records of the service.
//!
//! Each executable record has a ghost counterpart (`UsuarioV`, `FileV`,
//! `ChunkV`) whose fields are sequences, so that contracts can speak of
//! row contents directly.

use vstd::prelude::*;

verus! {

// ───────────────────────────────────────────────────────────────────
// Ghost images of the catalog rows
// ───────────────────────────────────────────────────────────────────

/// Ghost image of a user row.
pub struct UsuarioV {
    pub id: Seq<char>,
    pub username: Seq<char>,
    pub password: Seq<char>,
    pub b64_pubkey: Option<Seq<char>>,
}

/// Ghost image of a file row.
pub struct FileV {
    pub id: Seq<char>,
    pub mime: Seq<char>,
    pub hash: Seq<char>,
    pub owner_id: Seq<char>,
    pub status: Seq<char>,
    pub total_size: Option<i32>,
    pub created_at: Seq<char>,
}

/// Ghost image of a chunk row.
pub struct ChunkV {
    pub id: Seq<char>,
    pub file_id: Seq<char>,
    pub chunk_index: i32,
    pub hash: Seq<char>,
    pub size: i32,
    pub status: Seq<char>,
    pub created_at: Seq<char>,
}

// ───────────────────────────────────────────────────────────────────
// Catalog rows
// ───────────────────────────────────────────────────────────────────

/// A registered user. The engine reads `id` and `username` for
/// ownership checks; the identity subsystem owns the rest.
#[derive(Debug)]
pub struct Usuario {
    pub id: String,
    pub username: String,
    pub password: String,
    pub b64_pubkey: Option<String>,
}

/// A user row to be inserted.
pub struct NuevoUsuario {
    pub id: String,
    pub username: String,
    pub password: String,
    pub b64_pubkey: Option<String>,
}

/// A stored file. `hash` stays empty and `status` stays `uploading`
/// until the upload is finalized.
#[derive(Debug)]
pub struct File {
    pub id: String,
    pub mime: String,
    pub hash: String,
    pub owner_id: String,
    pub status: String,
    pub total_size: Option<i32>,
    pub created_at: String,
}

/// A file row to be inserted. `created_at` is assigned by the catalog.
pub struct NuevoFile {
    pub id: String,
    pub mime: String,
    pub hash: String,
    pub owner_id: String,
    pub status: String,
    pub total_size: Option<i32>,
}

/// An accepted chunk. Immutable once inserted; `id` is the composite
/// of `file_id` and `chunk_index`, and `hash` is the hex digest of the
/// chunk's bytes.
#[derive(Debug)]
pub struct Chunk {
    pub id: String,
    pub file_id: String,
    pub chunk_index: i32,
    pub hash: String,
    pub size: i32,
    pub status: String,
    pub created_at: String,
}

/// A chunk row to be inserted. `created_at` is assigned by the catalog.
pub struct NuevoChunk {
    pub id: String,
    pub file_id: String,
    pub chunk_index: i32,
    pub hash: String,
    pub size: i32,
    pub status: String,
}

impl View for Usuario {
    type V = UsuarioV;

    open spec fn view(&self) -> UsuarioV {
        UsuarioV {
            id: self.id@,
            username: self.username@,
            password: self.password@,
            b64_pubkey: match self.b64_pubkey {
                Some(ref k) => Some(k@),
                None => None,
            },
        }
    }
}

impl DeepView for Usuario {
    type V = UsuarioV;

    open spec fn deep_view(&self) -> UsuarioV {
        self.view()
    }
}

impl View for NuevoUsuario {
    type V = UsuarioV;

    /// The row the insert creates.
    open spec fn view(&self) -> UsuarioV {
        UsuarioV {
            id: self.id@,
            username: self.username@,
            password: self.password@,
            b64_pubkey: match self.b64_pubkey {
                Some(ref k) => Some(k@),
                None => None,
            },
        }
    }
}

impl View for File {
    type V = FileV;

    open spec fn view(&self) -> FileV {
        FileV {
            id: self.id@,
            mime: self.mime@,
            hash: self.hash@,
            owner_id: self.owner_id@,
            status: self.status@,
            total_size: self.total_size,
            created_at: self.created_at@,
        }
    }
}

impl DeepView for File {
    type V = FileV;

    open spec fn deep_view(&self) -> FileV {
        self.view()
    }
}

impl View for NuevoFile {
    type V = FileV;

    /// The row the insert creates; `created_at` starts empty.
    open spec fn view(&self) -> FileV {
        FileV {
            id: self.id@,
            mime: self.mime@,
            hash: self.hash@,
            owner_id: self.owner_id@,
            status: self.status@,
            total_size: self.total_size,
            created_at: Seq::<char>::empty(),
        }
    }
}

impl View for Chunk {
    type V = ChunkV;

    open spec fn view(&self) -> ChunkV {
        ChunkV {
            id: self.id@,
            file_id: self.file_id@,
            chunk_index: self.chunk_index,
            hash: self.hash@,
            size: self.size,
            status: self.status@,
            created_at: self.created_at@,
        }
    }
}

impl DeepView for Chunk {
    type V = ChunkV;

    open spec fn deep_view(&self) -> ChunkV {
        self.view()
    }
}

impl View for NuevoChunk {
    type V = ChunkV;

    /// The row the insert creates; `created_at` starts empty.
    open spec fn view(&self) -> ChunkV {
        ChunkV {
            id: self.id@,
            file_id: self.file_id@,
            chunk_index: self.chunk_index,
            hash: self.hash@,
            size: self.size,
            status: self.status@,
            created_at: Seq::<char>::empty(),
        }
    }
}

impl Clone for Usuario {
    fn clone(&self) -> (r: Self)
        ensures
            r@ == self@,
    {
        Usuario {
            id: self.id.clone(),
            username: self.username.clone(),
            password: self.password.clone(),
            b64_pubkey: match &self.b64_pubkey {
                Some(k) => Some(k.clone()),
                None => None,
            },
        }
    }
}

impl Clone for File {
    fn clone(&self) -> (r: Self)
        ensures
            r@ == self@,
    {
        File {
            id: self.id.clone(),
            mime: self.mime.clone(),
            hash: self.hash.clone(),
            owner_id: self.owner_id.clone(),
            status: self.status.clone(),
            total_size: self.total_size,
            created_at: self.created_at.clone(),
        }
    }
}

impl Clone for Chunk {
    fn clone(&self) -> (r: Self)
        ensures
            r@ == self@,
    {
        Chunk {
            id: self.id.clone(),
            file_id: self.file_id.clone(),
            chunk_index: self.chunk_index,
            hash: self.hash.clone(),
            size: self.size,
            status: self.status.clone(),
            created_at: self.created_at.clone(),
        }
    }
}

// ───────────────────────────────────────────────────────────────────
// Records exchanged with the transport layer
// ───────────────────────────────────────────────────────────────────

/// The verified identity a request acts under.
#[derive(Debug)]
pub struct AuthenticatedUser {
    pub user_id: String,
}

pub struct InitUploadRequest {
    pub file_id: String,
    pub total_chunks: i32,
    pub mime: String,
    pub total_size: i32,
}

pub struct InitUploadResponse {
    pub success: bool,
    pub message: String,
    pub file_id: String,
}

pub struct FinalizeUploadRequest {
    pub file_id: String,
}

pub struct FinalizeUploadResponse {
    pub success: bool,
    pub message: String,
    pub file_id: String,
    pub total_chunks: usize,
    pub hash: String,
}

pub struct ChunkUploadResponse {
    pub success: bool,
    pub message: String,
    pub chunk_index: i32,
    pub hash: String,
}

pub struct UploadResponse {
    pub success: bool,
    pub message: String,
    pub file_id: Option<String>,
}

pub struct FileListResponse {
    pub success: bool,
    pub message: String,
    pub files: Vec<FileInfo>,
}

pub struct DeleteResponse {
    pub success: bool,
    pub message: String,
}

/// The owner-facing listing of a file row.
#[derive(Debug)]
pub struct FileInfo {
    pub id: String,
    pub mime: String,
    pub hash: String,
    pub status: String,
    pub total_size: Option<i32>,
    pub created_at: String,
}

pub struct LoginCredentials {
    pub username: String,
    pub password: String,
}

pub struct AuthResponse {
    pub success: bool,
    pub message: String,
    pub token: String,
}

impl From<File> for FileInfo {
    fn from(file: File) -> (r: Self) {
        FileInfo {
            id: file.id,
            mime: file.mime,
            hash: file.hash,
            status: file.status,
            total_size: file.total_size,
            created_at: file.created_at,
        }
    }
}

impl vstd::std_specs::convert::FromSpecImpl<File> for FileInfo {
    open spec fn obeys_from_spec() -> bool {
        true
    }

    open spec fn from_spec(file: File) -> FileInfo {
        FileInfo {
            id: file.id,
            mime: file.mime,
            hash: file.hash,
            status: file.status,
            total_size: file.total_size,
            created_at: file.created_at,
        }
    }
}

} // verus!
