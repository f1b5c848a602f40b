//! The relational catalog of users, files and chunks.
//!
//! `DbManager` holds the three tables as row vectors and offers the
//! CRUD surface the engine drives. Every table keeps its primary key
//! unique, and every chunk row carries the composite id and hex hash
//! the engine constructs for it.

use vstd::prelude::*;

use crate::errors::StorageError;
use crate::models::{
    Chunk, ChunkV, File, FileV, NuevoChunk, NuevoFile, NuevoUsuario, Usuario, UsuarioV,
};
use crate::rows::{
    find_by, lemma_find_by_at, lemma_find_by_none, lemma_reject_by_props, lemma_reject_by_snoc,
    lemma_select_by_props, lemma_select_by_snoc, lemma_split_by_unique, lemma_unique_key_count,
    reject_by, select_by, unique_key,
};
use crate::strutil::{chunk_id_spec, is_lower_hex_digit, str_eq};

verus! {

// ───────────────────────────────────────────────────────────────────
// Key columns
// ───────────────────────────────────────────────────────────────────

pub open spec fn by_user_id() -> spec_fn(UsuarioV) -> Seq<char> {
    |u: UsuarioV| u.id
}

pub open spec fn by_username() -> spec_fn(UsuarioV) -> Seq<char> {
    |u: UsuarioV| u.username
}

pub open spec fn by_file_id() -> spec_fn(FileV) -> Seq<char> {
    |f: FileV| f.id
}

pub open spec fn by_chunk_id() -> spec_fn(ChunkV) -> Seq<char> {
    |c: ChunkV| c.id
}

pub open spec fn by_chunk_file() -> spec_fn(ChunkV) -> Seq<char> {
    |c: ChunkV| c.file_id
}

pub open spec fn by_owner() -> spec_fn(FileV) -> Seq<char> {
    |f: FileV| f.owner_id
}

pub open spec fn by_file_mime() -> spec_fn(FileV) -> Seq<char> {
    |f: FileV| f.mime
}

// ───────────────────────────────────────────────────────────────────
// Chunk ordering
// ───────────────────────────────────────────────────────────────────

/// Non-decreasing chunk indices.
pub open spec fn chunks_sorted(s: Seq<ChunkV>) -> bool {
    forall|i: int, j: int|
        0 <= i < j < s.len() ==> #[trigger] s[i].chunk_index <= #[trigger] s[j].chunk_index
}

/// No two rows share a chunk index.
pub open spec fn distinct_indices(s: Seq<ChunkV>) -> bool {
    forall|i: int, j: int|
        0 <= i < j < s.len() ==> #[trigger] s[i].chunk_index != #[trigger] s[j].chunk_index
}

/// Places a row into a run sorted by chunk index, keeping it sorted.
pub open spec fn insert_sorted(s: Seq<ChunkV>, c: ChunkV) -> Seq<ChunkV>
    decreases s.len(),
{
    if s.len() == 0 {
        seq![c]
    } else if s.last().chunk_index <= c.chunk_index {
        s.push(c)
    } else {
        insert_sorted(s.drop_last(), c).push(s.last())
    }
}

/// Sorts chunk rows by chunk index (stable insertion sort).
pub open spec fn sort_chunks(s: Seq<ChunkV>) -> Seq<ChunkV>
    decreases s.len(),
{
    if s.len() == 0 {
        s
    } else {
        insert_sorted(sort_chunks(s.drop_last()), s.last())
    }
}

pub proof fn lemma_insert_sorted(s: Seq<ChunkV>, c: ChunkV)
    requires
        chunks_sorted(s),
    ensures
        insert_sorted(s, c).len() == s.len() + 1,
        insert_sorted(s, c).to_multiset() == s.to_multiset().insert(c),
        chunks_sorted(insert_sorted(s, c)),
        forall|x: ChunkV| #[trigger] insert_sorted(s, c).contains(x) ==> x == c || s.contains(x),
    decreases s.len(),
{
    broadcast use vstd::seq_lib::group_to_multiset_ensures;
    broadcast use vstd::multiset::group_multiset_axioms;

    let out = insert_sorted(s, c);
    if s.len() == 0 {
        assert(out =~= Seq::<ChunkV>::empty().push(c));
        assert(out.to_multiset() =~= s.to_multiset().insert(c));
        assert forall|x: ChunkV| #[trigger] out.contains(x) implies x == c || s.contains(x) by {
            assert(out[0] == c);
        }
    } else if s.last().chunk_index <= c.chunk_index {
        assert(out == s.push(c));
        assert forall|x: ChunkV| #[trigger] out.contains(x) implies x == c || s.contains(x) by {
            let k = choose|k: int| 0 <= k < out.len() && out[k] == x;
            if k < s.len() {
                assert(s[k] == x);
            }
        }
        assert forall|i: int, j: int| 0 <= i < j < out.len() implies #[trigger] out[i].chunk_index
            <= #[trigger] out[j].chunk_index by {
            if j < s.len() {
                assert(s[i].chunk_index <= s[j].chunk_index);
            } else {
                assert(out[j] == c);
                if i < s.len() - 1 {
                    assert(s[i].chunk_index <= s[s.len() - 1].chunk_index);
                }
            }
        }
    } else {
        let dl = s.drop_last();
        assert(chunks_sorted(dl)) by {
            assert(forall|i: int| 0 <= i < dl.len() ==> #[trigger] dl[i] == s[i]);
        }
        lemma_insert_sorted(dl, c);
        let inner = insert_sorted(dl, c);
        assert(out == inner.push(s.last()));
        assert(out.to_multiset() =~= s.to_multiset().insert(c)) by {
            assert(inner.push(s.last()).to_multiset() =~= inner.to_multiset().insert(s.last()));
            assert(dl.push(s.last()) =~= s);
            assert(dl.push(s.last()).to_multiset() =~= dl.to_multiset().insert(s.last()));
            assert(dl.to_multiset().insert(c).insert(s.last()) =~= dl.to_multiset().insert(
                s.last(),
            ).insert(c));
        }
        assert forall|x: ChunkV| #[trigger] out.contains(x) implies x == c || s.contains(x) by {
            let k = choose|k: int| 0 <= k < out.len() && out[k] == x;
            if k < inner.len() {
                assert(inner.contains(x));
                if x != c {
                    let m = choose|m: int| 0 <= m < dl.len() && dl[m] == x;
                    assert(s[m] == x);
                }
            } else {
                assert(x == s.last());
                assert(s[s.len() - 1] == x);
            }
        }
        assert forall|i: int, j: int| 0 <= i < j < out.len() implies #[trigger] out[i].chunk_index
            <= #[trigger] out[j].chunk_index by {
            if j < inner.len() {
                assert(inner[i].chunk_index <= inner[j].chunk_index);
            } else {
                assert(out[j] == s.last());
                assert(out.contains(out[i])) by {
                    assert(out[i] == out[i]);
                }
                if out[i] == c {
                } else {
                    assert(inner.contains(out[i]));
                    if out[i] != c {
                        let m = choose|m: int| 0 <= m < dl.len() && dl[m] == out[i];
                        assert(s[m].chunk_index <= s[s.len() - 1].chunk_index);
                    }
                }
            }
        }
    }
}

pub proof fn lemma_sort_chunks(s: Seq<ChunkV>)
    ensures
        sort_chunks(s).len() == s.len(),
        sort_chunks(s).to_multiset() == s.to_multiset(),
        chunks_sorted(sort_chunks(s)),
        forall|x: ChunkV| #[trigger] sort_chunks(s).contains(x) ==> s.contains(x),
        forall|x: ChunkV| #[trigger] s.contains(x) ==> sort_chunks(s).contains(x),
    decreases s.len(),
{
    broadcast use vstd::seq_lib::group_to_multiset_ensures;
    broadcast use vstd::multiset::group_multiset_axioms;

    if s.len() > 0 {
        let dl = s.drop_last();
        lemma_sort_chunks(dl);
        lemma_insert_sorted(sort_chunks(dl), s.last());
        assert(sort_chunks(s).to_multiset() == s.to_multiset()) by {
            assert(dl.push(s.last()) =~= s);
            assert(dl.push(s.last()).to_multiset() =~= dl.to_multiset().insert(s.last()));
        }
        assert forall|x: ChunkV| #[trigger] sort_chunks(s).contains(x) implies s.contains(x) by {
            assert(sort_chunks(s).to_multiset().count(x) > 0);
            assert(s.to_multiset().count(x) > 0);
        }
        assert forall|x: ChunkV| #[trigger] s.contains(x) implies sort_chunks(s).contains(x) by {
            assert(s.to_multiset().count(x) > 0);
            assert(sort_chunks(s).to_multiset().count(x) > 0);
        }
    }
}

/// A sorted run whose indices are pairwise distinct, inserted at the
/// position its index calls for, equals a plain sequence insert.
pub proof fn lemma_insert_sorted_at(s: Seq<ChunkV>, c: ChunkV, p: int)
    requires
        chunks_sorted(s),
        0 <= p <= s.len(),
        forall|j: int| 0 <= j < p ==> #[trigger] s[j].chunk_index <= c.chunk_index,
        forall|j: int| p <= j < s.len() ==> #[trigger] s[j].chunk_index > c.chunk_index,
    ensures
        insert_sorted(s, c) == s.insert(p, c),
    decreases s.len(),
{
    if s.len() == 0 {
        assert(insert_sorted(s, c) =~= s.insert(0, c));
    } else if s.last().chunk_index <= c.chunk_index {
        assert(p == s.len());
        assert(insert_sorted(s, c) =~= s.insert(p, c));
    } else {
        let dl = s.drop_last();
        assert(chunks_sorted(dl)) by {
            assert(forall|i: int| 0 <= i < dl.len() ==> #[trigger] dl[i] == s[i]);
        }
        assert(p <= dl.len());
        lemma_insert_sorted_at(dl, c, p);
        assert(insert_sorted(s, c) =~= s.insert(p, c)) by {
            assert(insert_sorted(s, c) == dl.insert(p, c).push(s.last()));
        }
    }
}

// ───────────────────────────────────────────────────────────────────
// Row well-formedness and row transforms
// ───────────────────────────────────────────────────────────────────

/// A chunk row as the engine writes it: a non-negative index, the
/// composite id derived from file id and index, and a hash of
/// lowercase hex digits.
pub open spec fn chunk_row_wf(c: ChunkV) -> bool {
    &&& c.chunk_index >= 0
    &&& c.id == chunk_id_spec(c.file_id, c.chunk_index as int)
    &&& forall|k: int| 0 <= k < c.hash.len() ==> is_lower_hex_digit(#[trigger] c.hash[k])
}

/// The file table after the hash column of row `fid` is set to `h`.
pub open spec fn set_file_hash(s: Seq<FileV>, fid: Seq<char>, h: Seq<char>) -> Seq<FileV> {
    s.map_values(
        |f: FileV|
            if f.id == fid {
                FileV { hash: h, ..f }
            } else {
                f
            },
    )
}

/// The file table after the status column of row `fid` is set to `st`.
pub open spec fn set_file_status(s: Seq<FileV>, fid: Seq<char>, st: Seq<char>) -> Seq<FileV> {
    s.map_values(
        |f: FileV|
            if f.id == fid {
                FileV { status: st, ..f }
            } else {
                f
            },
    )
}

/// The chunk table after the status column of row `cid` is set to `st`.
pub open spec fn set_chunk_status(s: Seq<ChunkV>, cid: Seq<char>, st: Seq<char>) -> Seq<ChunkV> {
    s.map_values(
        |c: ChunkV|
            if c.id == cid {
                ChunkV { status: st, ..c }
            } else {
                c
            },
    )
}

// ───────────────────────────────────────────────────────────────────
// The catalog
// ───────────────────────────────────────────────────────────────────

/// The catalog. Rows live in memory; the engine owns one instance
/// and passes it to every operation.
pub struct DbManager {
    usuarios: Vec<Usuario>,
    files: Vec<File>,
    chunks: Vec<Chunk>,
}

impl DbManager {
    pub closed spec fn usuarios_v(self) -> Seq<UsuarioV> {
        self.usuarios.deep_view()
    }

    pub closed spec fn files_v(self) -> Seq<FileV> {
        self.files.deep_view()
    }

    pub closed spec fn chunks_v(self) -> Seq<ChunkV> {
        self.chunks.deep_view()
    }

    /// Primary keys are unique and every chunk row is well-formed.
    pub closed spec fn wf(self) -> bool {
        &&& unique_key(self.usuarios_v(), by_user_id())
        &&& unique_key(self.files_v(), by_file_id())
        &&& unique_key(self.chunks_v(), by_chunk_id())
        &&& forall|i: int|
            0 <= i < self.chunks_v().len() ==> chunk_row_wf(#[trigger] self.chunks_v()[i])
    }

    /// An empty catalog.
    pub fn new() -> (r: DbManager)
        ensures
            r.wf(),
            r.usuarios_v() == Seq::<UsuarioV>::empty(),
            r.files_v() == Seq::<FileV>::empty(),
            r.chunks_v() == Seq::<ChunkV>::empty(),
    {
        let r = DbManager { usuarios: Vec::new(), files: Vec::new(), chunks: Vec::new() };
        proof {
            assert(r.usuarios_v() =~= Seq::<UsuarioV>::empty());
            assert(r.files_v() =~= Seq::<FileV>::empty());
            assert(r.chunks_v() =~= Seq::<ChunkV>::empty());
        }
        r
    }

    // ───────────────────────────────────────────────────────────────
    // Users
    // ───────────────────────────────────────────────────────────────

    /// Inserts a user row; refuses a duplicate id.
    pub fn insertar_usuario(&mut self, nuevo: &NuevoUsuario) -> (r: Result<usize, StorageError>)
        requires
            old(self).wf(),
        ensures
            final(self).wf(),
            final(self).files_v() == old(self).files_v(),
            final(self).chunks_v() == old(self).chunks_v(),
            match r {
                Ok(n) => n == 1 && find_by(old(self).usuarios_v(), by_user_id(), nuevo.id@)
                    is None && final(self).usuarios_v() == old(self).usuarios_v().push(nuevo@),
                Err(e) => e == StorageError::StoreError && find_by(
                    old(self).usuarios_v(),
                    by_user_id(),
                    nuevo.id@,
                ) is Some && final(self).usuarios_v() == old(self).usuarios_v(),
            },
    {
        let n = self.usuarios.len();
        let ghost s = self.usuarios_v();
        let mut i: usize = 0;
        while i < n
            invariant
                i <= n,
                n == s.len(),
                self == old(self),
                s == self.usuarios_v(),
                old(self).wf(),
                forall|j: int| 0 <= j < i ==> by_user_id()(#[trigger] s[j]) != nuevo.id@,
            decreases n - i,
        {
            if str_eq(self.usuarios[i].id.as_str(), nuevo.id.as_str()) {
                proof {
                    lemma_find_by_at(s, by_user_id(), nuevo.id@, i as int);
                }
                return Err(StorageError::StoreError);
            }
            i = i + 1;
        }
        proof {
            lemma_find_by_none(s, by_user_id(), nuevo.id@);
        }
        let row = Usuario {
            id: nuevo.id.clone(),
            username: nuevo.username.clone(),
            password: nuevo.password.clone(),
            b64_pubkey: match &nuevo.b64_pubkey {
                Some(k) => Some(k.clone()),
                None => None,
            },
        };
        self.usuarios.push(row);
        proof {
            assert(self.usuarios_v() =~= s.push(nuevo@));
            let t = self.usuarios_v();
            assert forall|a: int, b: int| 0 <= a < b < t.len() implies by_user_id()(t[a])
                != by_user_id()(t[b]) by {
                if b < s.len() {
                    assert(t[a] == s[a] && t[b] == s[b]);
                } else {
                    assert(t[a] == s[a] && t[b] == nuevo@);
                }
            }
        }
        Ok(1)
    }

    /// Looks a user up by id.
    pub fn buscar_usuario(&self, user_id: &str) -> (r: Result<Usuario, StorageError>)
        ensures
            match r {
                Ok(u) => find_by(self.usuarios_v(), by_user_id(), user_id@) == Some(u@),
                Err(e) => e == StorageError::NotFound && find_by(
                    self.usuarios_v(),
                    by_user_id(),
                    user_id@,
                ) is None,
            },
    {
        let n = self.usuarios.len();
        let ghost s = self.usuarios_v();
        let mut i: usize = 0;
        while i < n
            invariant
                i <= n,
                n == s.len(),
                s == self.usuarios_v(),
                forall|j: int| 0 <= j < i ==> by_user_id()(#[trigger] s[j]) != user_id@,
            decreases n - i,
        {
            if str_eq(self.usuarios[i].id.as_str(), user_id) {
                proof {
                    lemma_find_by_at(s, by_user_id(), user_id@, i as int);
                }
                return Ok(self.usuarios[i].clone());
            }
            i = i + 1;
        }
        proof {
            lemma_find_by_none(s, by_user_id(), user_id@);
        }
        Err(StorageError::NotFound)
    }

    /// Looks a user up by username; returns the first match.
    pub fn buscar_usuario_por_username(&self, user_name: &str) -> (r: Result<Usuario, StorageError>)
        ensures
            match r {
                Ok(u) => find_by(self.usuarios_v(), by_username(), user_name@) == Some(u@),
                Err(e) => e == StorageError::NotFound && find_by(
                    self.usuarios_v(),
                    by_username(),
                    user_name@,
                ) is None,
            },
    {
        let n = self.usuarios.len();
        let ghost s = self.usuarios_v();
        let mut i: usize = 0;
        while i < n
            invariant
                i <= n,
                n == s.len(),
                s == self.usuarios_v(),
                forall|j: int| 0 <= j < i ==> by_username()(#[trigger] s[j]) != user_name@,
            decreases n - i,
        {
            if str_eq(self.usuarios[i].username.as_str(), user_name) {
                proof {
                    lemma_find_by_at(s, by_username(), user_name@, i as int);
                }
                return Ok(self.usuarios[i].clone());
            }
            i = i + 1;
        }
        proof {
            lemma_find_by_none(s, by_username(), user_name@);
        }
        Err(StorageError::NotFound)
    }

    /// Deletes the user row with the given id; reports how many rows
    /// went away.
    pub fn borrar_usuario(&mut self, user_id: &str) -> (r: Result<usize, StorageError>)
        requires
            old(self).wf(),
        ensures
            final(self).wf(),
            final(self).files_v() == old(self).files_v(),
            final(self).chunks_v() == old(self).chunks_v(),
            final(self).usuarios_v() == reject_by(old(self).usuarios_v(), by_user_id(), user_id@),
            r == Ok::<usize, StorageError>(
                (old(self).usuarios_v().len() - reject_by(
                    old(self).usuarios_v(),
                    by_user_id(),
                    user_id@,
                ).len()) as usize,
            ),
    {
        let ghost s = self.usuarios_v();
        let n = self.usuarios.len();
        let mut kept: Vec<Usuario> = Vec::new();
        let mut i: usize = 0;
        while i < n
            invariant
                i <= n,
                n == s.len(),
                s == self.usuarios_v(),
                self.usuarios.len() == n,
                kept.deep_view() == reject_by(s.take(i as int), by_user_id(), user_id@),
                kept.len() <= i,
            decreases n - i,
        {
            let ghost pre = kept.deep_view();
            proof {
                assert(s.take(i + 1) =~= s.take(i as int).push(s[i as int]));
                lemma_reject_by_snoc(s.take(i as int), s[i as int], by_user_id(), user_id@);
            }
            if !str_eq(self.usuarios[i].id.as_str(), user_id) {
                kept.push(self.usuarios[i].clone());
                proof {
                    assert(kept.deep_view() =~= pre.push(s[i as int]));
                }
            }
            i = i + 1;
        }
        proof {
            assert(s.take(n as int) =~= s);
            lemma_split_by_unique(s, by_user_id(), user_id@, by_user_id());
        }
        let removed = n - kept.len();
        self.usuarios = kept;
        Ok(removed)
    }

    // ───────────────────────────────────────────────────────────────
    // Files
    // ───────────────────────────────────────────────────────────────

    /// Inserts a file row; refuses a duplicate id.
    pub fn insertar_file(&mut self, nuevo: &NuevoFile) -> (r: Result<usize, StorageError>)
        requires
            old(self).wf(),
        ensures
            final(self).wf(),
            final(self).usuarios_v() == old(self).usuarios_v(),
            final(self).chunks_v() == old(self).chunks_v(),
            match r {
                Ok(n) => n == 1 && find_by(old(self).files_v(), by_file_id(), nuevo.id@)
                    is None && final(self).files_v() == old(self).files_v().push(nuevo@),
                Err(e) => e == StorageError::StoreError && find_by(
                    old(self).files_v(),
                    by_file_id(),
                    nuevo.id@,
                ) is Some && final(self).files_v() == old(self).files_v(),
            },
    {
        let n = self.files.len();
        let ghost s = self.files_v();
        let mut i: usize = 0;
        while i < n
            invariant
                i <= n,
                n == s.len(),
                self == old(self),
                s == self.files_v(),
                old(self).wf(),
                forall|j: int| 0 <= j < i ==> by_file_id()(#[trigger] s[j]) != nuevo.id@,
            decreases n - i,
        {
            if str_eq(self.files[i].id.as_str(), nuevo.id.as_str()) {
                proof {
                    lemma_find_by_at(s, by_file_id(), nuevo.id@, i as int);
                }
                return Err(StorageError::StoreError);
            }
            i = i + 1;
        }
        proof {
            lemma_find_by_none(s, by_file_id(), nuevo.id@);
        }
        let row = File {
            id: nuevo.id.clone(),
            mime: nuevo.mime.clone(),
            hash: nuevo.hash.clone(),
            owner_id: nuevo.owner_id.clone(),
            status: nuevo.status.clone(),
            total_size: nuevo.total_size,
            created_at: String::new(),
        };
        self.files.push(row);
        proof {
            assert(self.files_v() =~= s.push(nuevo@));
            let t = self.files_v();
            assert forall|a: int, b: int| 0 <= a < b < t.len() implies by_file_id()(t[a])
                != by_file_id()(t[b]) by {
                if b < s.len() {
                    assert(t[a] == s[a] && t[b] == s[b]);
                } else {
                    assert(t[a] == s[a] && t[b] == nuevo@);
                }
            }
        }
        Ok(1)
    }

    /// Looks a file up by id.
    pub fn buscar_file(&self, file_id: &str) -> (r: Result<File, StorageError>)
        ensures
            match r {
                Ok(f) => find_by(self.files_v(), by_file_id(), file_id@) == Some(f@),
                Err(e) => e == StorageError::NotFound && find_by(
                    self.files_v(),
                    by_file_id(),
                    file_id@,
                ) is None,
            },
    {
        let n = self.files.len();
        let ghost s = self.files_v();
        let mut i: usize = 0;
        while i < n
            invariant
                i <= n,
                n == s.len(),
                s == self.files_v(),
                forall|j: int| 0 <= j < i ==> by_file_id()(#[trigger] s[j]) != file_id@,
            decreases n - i,
        {
            if str_eq(self.files[i].id.as_str(), file_id) {
                proof {
                    lemma_find_by_at(s, by_file_id(), file_id@, i as int);
                }
                return Ok(self.files[i].clone());
            }
            i = i + 1;
        }
        proof {
            lemma_find_by_none(s, by_file_id(), file_id@);
        }
        Err(StorageError::NotFound)
    }

    /// Deletes the file row with the given id.
    pub fn borrar_file(&mut self, file_id: &str) -> (r: Result<usize, StorageError>)
        requires
            old(self).wf(),
        ensures
            final(self).wf(),
            final(self).usuarios_v() == old(self).usuarios_v(),
            final(self).chunks_v() == old(self).chunks_v(),
            final(self).files_v() == reject_by(old(self).files_v(), by_file_id(), file_id@),
            r == Ok::<usize, StorageError>(
                (old(self).files_v().len() - reject_by(
                    old(self).files_v(),
                    by_file_id(),
                    file_id@,
                ).len()) as usize,
            ),
    {
        let ghost s = self.files_v();
        let n = self.files.len();
        let mut kept: Vec<File> = Vec::new();
        let mut i: usize = 0;
        while i < n
            invariant
                i <= n,
                n == s.len(),
                self == old(self),
                s == self.files_v(),
                kept.deep_view() == reject_by(s.take(i as int), by_file_id(), file_id@),
                kept.len() <= i,
            decreases n - i,
        {
            let ghost pre = kept.deep_view();
            proof {
                assert(s.take(i + 1) =~= s.take(i as int).push(s[i as int]));
                lemma_reject_by_snoc(s.take(i as int), s[i as int], by_file_id(), file_id@);
            }
            if !str_eq(self.files[i].id.as_str(), file_id) {
                kept.push(self.files[i].clone());
                proof {
                    assert(kept.deep_view() =~= pre.push(s[i as int]));
                }
            }
            i = i + 1;
        }
        proof {
            assert(s.take(n as int) =~= s);
            lemma_split_by_unique(s, by_file_id(), file_id@, by_file_id());
        }
        let removed = n - kept.len();
        self.files = kept;
        Ok(removed)
    }

    /// Sets the hash column of the file row with the given id.
    pub fn actualizar_file_hash(&mut self, file_id: &str, hash: &str) -> (r: Result<
        usize,
        StorageError,
    >)
        requires
            old(self).wf(),
        ensures
            final(self).wf(),
            final(self).usuarios_v() == old(self).usuarios_v(),
            final(self).chunks_v() == old(self).chunks_v(),
            final(self).files_v() == set_file_hash(old(self).files_v(), file_id@, hash@),
            r == Ok::<usize, StorageError>(
                if find_by(old(self).files_v(), by_file_id(), file_id@) is Some {
                    1usize
                } else {
                    0usize
                },
            ),
    {
        let ghost s = self.files_v();
        let n = self.files.len();
        let mut i: usize = 0;
        while i < n
            invariant
                i <= n,
                n == s.len(),
                self == old(self),
                s == self.files_v(),
                old(self).wf(),
                forall|j: int| 0 <= j < i ==> by_file_id()(#[trigger] s[j]) != file_id@,
            decreases n - i,
        {
            if str_eq(self.files[i].id.as_str(), file_id) {
                proof {
                    lemma_find_by_at(s, by_file_id(), file_id@, i as int);
                }
                let mut row = self.files[i].clone();
                row.hash = hash.to_owned();
                self.files.set(i, row);
                proof {
                    assert(self.files_v() =~= set_file_hash(s, file_id@, hash@));
                    let t = self.files_v();
                    assert forall|a: int, b: int| 0 <= a < b < t.len() implies by_file_id()(t[a])
                        != by_file_id()(t[b]) by {
                        assert(by_file_id()(t[a]) == by_file_id()(s[a]));
                        assert(by_file_id()(t[b]) == by_file_id()(s[b]));
                    }
                }
                return Ok(1);
            }
            i = i + 1;
        }
        proof {
            lemma_find_by_none(s, by_file_id(), file_id@);
            assert(self.files_v() =~= set_file_hash(s, file_id@, hash@));
        }
        Ok(0)
    }

    /// Sets the status column of the file row with the given id.
    pub fn actualizar_file_status(&mut self, file_id: &str, status: &str) -> (r: Result<
        usize,
        StorageError,
    >)
        requires
            old(self).wf(),
        ensures
            final(self).wf(),
            final(self).usuarios_v() == old(self).usuarios_v(),
            final(self).chunks_v() == old(self).chunks_v(),
            final(self).files_v() == set_file_status(old(self).files_v(), file_id@, status@),
            r == Ok::<usize, StorageError>(
                if find_by(old(self).files_v(), by_file_id(), file_id@) is Some {
                    1usize
                } else {
                    0usize
                },
            ),
    {
        let ghost s = self.files_v();
        let n = self.files.len();
        let mut i: usize = 0;
        while i < n
            invariant
                i <= n,
                n == s.len(),
                self == old(self),
                s == self.files_v(),
                old(self).wf(),
                forall|j: int| 0 <= j < i ==> by_file_id()(#[trigger] s[j]) != file_id@,
            decreases n - i,
        {
            if str_eq(self.files[i].id.as_str(), file_id) {
                proof {
                    lemma_find_by_at(s, by_file_id(), file_id@, i as int);
                }
                let mut row = self.files[i].clone();
                row.status = status.to_owned();
                self.files.set(i, row);
                proof {
                    assert(self.files_v() =~= set_file_status(s, file_id@, status@));
                    let t = self.files_v();
                    assert forall|a: int, b: int| 0 <= a < b < t.len() implies by_file_id()(t[a])
                        != by_file_id()(t[b]) by {
                        assert(by_file_id()(t[a]) == by_file_id()(s[a]));
                        assert(by_file_id()(t[b]) == by_file_id()(s[b]));
                    }
                }
                return Ok(1);
            }
            i = i + 1;
        }
        proof {
            lemma_find_by_none(s, by_file_id(), file_id@);
            assert(self.files_v() =~= set_file_status(s, file_id@, status@));
        }
        Ok(0)
    }

    /// Lists a user's files, optionally narrowed to one mime type and
    /// truncated to a row limit.
    pub fn obtener_files_de_usuario(
        &self,
        user_id: &str,
        mime_filtro: Option<&str>,
        limite: Option<i64>,
    ) -> (r: Result<Vec<File>, StorageError>)
        ensures
            r is Ok,
            r->Ok_0.deep_view() == files_listing(
                self.files_v(),
                user_id@,
                match mime_filtro {
                    Some(m) => Some(m@),
                    None => None,
                },
                match limite {
                    Some(l) => Some(l as int),
                    None => None,
                },
            ),
    {
        let ghost s = self.files_v();
        let n = self.files.len();
        let mut own: Vec<File> = Vec::new();
        let mut i: usize = 0;
        while i < n
            invariant
                i <= n,
                n == s.len(),
                s == self.files_v(),
                own.deep_view() == select_by(s.take(i as int), by_owner(), user_id@),
                own.len() <= i,
            decreases n - i,
        {
            let ghost pre = own.deep_view();
            proof {
                assert(s.take(i + 1) =~= s.take(i as int).push(s[i as int]));
                lemma_select_by_snoc(s.take(i as int), s[i as int], by_owner(), user_id@);
            }
            if str_eq(self.files[i].owner_id.as_str(), user_id) {
                own.push(self.files[i].clone());
                proof {
                    assert(own.deep_view() =~= pre.push(s[i as int]));
                }
            }
            i = i + 1;
        }
        proof {
            assert(s.take(n as int) =~= s);
        }
        let mut out: Vec<File> = match mime_filtro {
            Some(m) => {
                let ghost o = own.deep_view();
                let mut fil: Vec<File> = Vec::new();
                let mut k: usize = 0;
                let nk = own.len();
                while k < nk
                    invariant
                        k <= nk,
                        nk == o.len(),
                        o == own.deep_view(),
                        nk == own.len(),
                        fil.deep_view() == select_by(o.take(k as int), by_file_mime(), m@),
                        fil.len() <= k,
                    decreases nk - k,
                {
                    let ghost pre = fil.deep_view();
                    proof {
                        assert(o.take(k + 1) =~= o.take(k as int).push(o[k as int]));
                        lemma_select_by_snoc(o.take(k as int), o[k as int], by_file_mime(), m@);
                    }
                    if str_eq(own[k].mime.as_str(), m) {
                        fil.push(own[k].clone());
                        proof {
                            assert(fil.deep_view() =~= pre.push(o[k as int]));
                        }
                    }
                    k = k + 1;
                }
                proof {
                    assert(o.take(nk as int) =~= o);
                }
                fil
            },
            None => own,
        };
        if let Some(l) = limite {
            if 0 <= l && (l as u64) < (out.len() as u64) {
                let ghost before = out.deep_view();
                out.truncate(l as usize);
                proof {
                    assert(out.deep_view() =~= before.take(l as int));
                }
            }
        }
        Ok(out)
    }

    // ───────────────────────────────────────────────────────────────
    // Chunks
    // ───────────────────────────────────────────────────────────────

    /// Inserts a chunk row; refuses a duplicate id. The row must be
    /// shaped as the engine writes chunk rows.
    pub fn insertar_chunk(&mut self, nuevo: &NuevoChunk) -> (r: Result<usize, StorageError>)
        requires
            old(self).wf(),
            chunk_row_wf(nuevo@),
        ensures
            final(self).wf(),
            final(self).usuarios_v() == old(self).usuarios_v(),
            final(self).files_v() == old(self).files_v(),
            match r {
                Ok(n) => n == 1 && find_by(old(self).chunks_v(), by_chunk_id(), nuevo.id@)
                    is None && final(self).chunks_v() == old(self).chunks_v().push(nuevo@),
                Err(e) => e == StorageError::StoreError && find_by(
                    old(self).chunks_v(),
                    by_chunk_id(),
                    nuevo.id@,
                ) is Some && final(self).chunks_v() == old(self).chunks_v(),
            },
    {
        let n = self.chunks.len();
        let ghost s = self.chunks_v();
        let mut i: usize = 0;
        while i < n
            invariant
                i <= n,
                n == s.len(),
                self == old(self),
                s == self.chunks_v(),
                old(self).wf(),
                forall|j: int| 0 <= j < i ==> by_chunk_id()(#[trigger] s[j]) != nuevo.id@,
            decreases n - i,
        {
            if str_eq(self.chunks[i].id.as_str(), nuevo.id.as_str()) {
                proof {
                    lemma_find_by_at(s, by_chunk_id(), nuevo.id@, i as int);
                }
                return Err(StorageError::StoreError);
            }
            i = i + 1;
        }
        proof {
            lemma_find_by_none(s, by_chunk_id(), nuevo.id@);
        }
        let row = Chunk {
            id: nuevo.id.clone(),
            file_id: nuevo.file_id.clone(),
            chunk_index: nuevo.chunk_index,
            hash: nuevo.hash.clone(),
            size: nuevo.size,
            status: nuevo.status.clone(),
            created_at: String::new(),
        };
        self.chunks.push(row);
        proof {
            assert(self.chunks_v() =~= s.push(nuevo@));
            let t = self.chunks_v();
            assert forall|a: int, b: int| 0 <= a < b < t.len() implies by_chunk_id()(t[a])
                != by_chunk_id()(t[b]) by {
                if b < s.len() {
                    assert(t[a] == s[a] && t[b] == s[b]);
                } else {
                    assert(t[a] == s[a] && t[b] == nuevo@);
                }
            }
            assert forall|a: int| 0 <= a < t.len() implies chunk_row_wf(#[trigger] t[a]) by {
                if a < s.len() {
                    assert(t[a] == s[a]);
                } else {
                    assert(t[a] == nuevo@);
                }
            }
        }
        Ok(1)
    }

    /// Looks a chunk up by its composite id.
    pub fn buscar_chunk(&self, chunk_id: &str) -> (r: Result<Chunk, StorageError>)
        ensures
            match r {
                Ok(c) => find_by(self.chunks_v(), by_chunk_id(), chunk_id@) == Some(c@),
                Err(e) => e == StorageError::NotFound && find_by(
                    self.chunks_v(),
                    by_chunk_id(),
                    chunk_id@,
                ) is None,
            },
    {
        let n = self.chunks.len();
        let ghost s = self.chunks_v();
        let mut i: usize = 0;
        while i < n
            invariant
                i <= n,
                n == s.len(),
                s == self.chunks_v(),
                forall|j: int| 0 <= j < i ==> by_chunk_id()(#[trigger] s[j]) != chunk_id@,
            decreases n - i,
        {
            if str_eq(self.chunks[i].id.as_str(), chunk_id) {
                proof {
                    lemma_find_by_at(s, by_chunk_id(), chunk_id@, i as int);
                }
                return Ok(self.chunks[i].clone());
            }
            i = i + 1;
        }
        proof {
            lemma_find_by_none(s, by_chunk_id(), chunk_id@);
        }
        Err(StorageError::NotFound)
    }

    /// Lists a file's chunk rows in ascending chunk-index order.
    pub fn obtener_chunks_de_file(&self, file_id: &str) -> (r: Result<Vec<Chunk>, StorageError>)
        requires
            self.wf(),
        ensures
            r is Ok,
            r->Ok_0.deep_view() == self.chunks_of(file_id@),
            chunks_sorted(r->Ok_0.deep_view()),
            distinct_indices(r->Ok_0.deep_view()),
            forall|i: int|
                0 <= i < r->Ok_0.deep_view().len() ==> (#[trigger] r->Ok_0.deep_view()[i]).file_id
                    == file_id@ && chunk_row_wf(r->Ok_0.deep_view()[i]),
            r->Ok_0.deep_view().to_multiset() == select_by(
                self.chunks_v(),
                by_chunk_file(),
                file_id@,
            ).to_multiset(),
            r->Ok_0.deep_view().len() == select_by(
                self.chunks_v(),
                by_chunk_file(),
                file_id@,
            ).len(),
    {
        broadcast use vstd::seq_lib::group_to_multiset_ensures;
        broadcast use vstd::multiset::group_multiset_axioms;

        let ghost s = self.chunks_v();
        let n = self.chunks.len();
        let mut sel: Vec<Chunk> = Vec::new();
        let mut i: usize = 0;
        while i < n
            invariant
                i <= n,
                n == s.len(),
                s == self.chunks_v(),
                self.wf(),
                sel.deep_view() == select_by(s.take(i as int), by_chunk_file(), file_id@),
                sel.len() <= i,
            decreases n - i,
        {
            let ghost pre = sel.deep_view();
            proof {
                assert(s.take(i + 1) =~= s.take(i as int).push(s[i as int]));
                lemma_select_by_snoc(s.take(i as int), s[i as int], by_chunk_file(), file_id@);
            }
            if str_eq(self.chunks[i].file_id.as_str(), file_id) {
                sel.push(self.chunks[i].clone());
                proof {
                    assert(sel.deep_view() =~= pre.push(s[i as int]));
                }
            }
            i = i + 1;
        }
        let ghost selv = sel.deep_view();
        proof {
            assert(s.take(n as int) =~= s);
            lemma_select_by_props(s, by_chunk_file(), file_id@);
            lemma_split_by_unique(s, by_chunk_file(), file_id@, by_chunk_id());
            // rows of the selection are rows of the table, so they are
            // well-formed and carry this file id
            assert forall|a: int| 0 <= a < selv.len() implies chunk_row_wf(#[trigger] selv[a])
                && selv[a].file_id == file_id@ by {
                assert(s.contains(selv[a]));
                let m = choose|m: int| 0 <= m < s.len() && s[m] == selv[a];
                assert(chunk_row_wf(s[m]));
            }
            // two selected rows with one chunk index would share the
            // composite id, which the table forbids
            assert forall|a: int, b: int| 0 <= a < b < selv.len() implies #[trigger] selv[a].chunk_index
                != #[trigger] selv[b].chunk_index by {
                assert(by_chunk_id()(selv[a]) != by_chunk_id()(selv[b]));
                assert(selv[a].id == chunk_id_spec(selv[a].file_id, selv[a].chunk_index as int));
                assert(selv[b].id == chunk_id_spec(selv[b].file_id, selv[b].chunk_index as int));
            }
        }
        // insertion sort by chunk index
        let mut out: Vec<Chunk> = Vec::new();
        let nk = sel.len();
        let mut k: usize = 0;
        while k < nk
            invariant
                k <= nk,
                nk == sel.len(),
                selv == sel.deep_view(),
                out.deep_view() == sort_chunks(selv.take(k as int)),
                out.len() == k,
            decreases nk - k,
        {
            let ghost outv = out.deep_view();
            proof {
                lemma_sort_chunks(selv.take(k as int));
            }
            let c = sel[k].clone();
            let mut p: usize = out.len();
            while p > 0 && out[p - 1].chunk_index > c.chunk_index
                invariant
                    p <= out.len(),
                    outv == out.deep_view(),
                    out.len() == outv.len(),
                    c@ == selv[k as int],
                    k < selv.len(),
                    forall|j: int|
                        p <= j < outv.len() ==> (#[trigger] outv[j]).chunk_index > c.chunk_index,
                decreases p,
            {
                p = p - 1;
            }
            proof {
                assert(chunks_sorted(outv));
                assert forall|j: int| 0 <= j < p implies (#[trigger] outv[j]).chunk_index
                    <= selv[k as int].chunk_index by {
                    assert(outv[p - 1].chunk_index <= selv[k as int].chunk_index);
                    if j < p - 1 {
                        assert(outv[j].chunk_index <= outv[p - 1].chunk_index);
                    }
                }
                lemma_insert_sorted_at(outv, selv[k as int], p as int);
                assert(selv.take(k + 1) =~= selv.take(k as int).push(selv[k as int]));
            }
            let ghost prev_vec = out@;
            let ghost cval = c@;
            out.insert(p, c);
            proof {
                outv.insert_ensures(p as int, selv[k as int]);
                prev_vec.insert_ensures(p as int, out@[p as int]);
                assert forall|a: int| 0 <= a < out@.len() implies out.deep_view()[a] == outv.insert(
                    p as int,
                    selv[k as int],
                )[a] by {
                    if a < p {
                        assert(out@[a] == prev_vec[a]);
                    } else if a == p {
                        assert(out@[a].deep_view() == cval);
                    } else {
                        assert(out@[a] == prev_vec[a - 1]);
                    }
                }
                assert(out.deep_view() =~= outv.insert(p as int, selv[k as int]));
                assert(selv.take(k + 1).drop_last() =~= selv.take(k as int));
                assert(selv.take(k + 1).last() == selv[k as int]);
                assert(sort_chunks(selv.take(k + 1)) == insert_sorted(
                    sort_chunks(selv.take(k as int)),
                    selv[k as int],
                ));
                assert(out.deep_view() =~= sort_chunks(selv.take(k + 1)));
            }
            k = k + 1;
        }
        proof {
            assert(selv.take(nk as int) =~= selv);
            lemma_sort_chunks(selv);
            let listing = out.deep_view();
            assert forall|a: int| 0 <= a < listing.len() implies chunk_row_wf(#[trigger] listing[a])
                && listing[a].file_id == file_id@ by {
                assert(listing.contains(listing[a]));
                assert(selv.contains(listing[a]));
                let m = choose|m: int| 0 <= m < selv.len() && selv[m] == listing[a];
                assert(chunk_row_wf(selv[m]));
            }
            // distinct indices carry over from the selection
            assert forall|a: int, b: int| 0 <= a < b < listing.len() implies #[trigger] listing[a].chunk_index
                != #[trigger] listing[b].chunk_index by {
                if listing[a] == listing[b] {
                    let x = listing[a];
                    assert(listing.remove(a).to_multiset() =~= listing.to_multiset().remove(x));
                    assert(listing.remove(a)[b - 1] == listing[b]);
                    assert(listing.remove(a).contains(x));
                    assert(listing.remove(a).to_multiset().count(x) > 0);
                    assert(listing.to_multiset().count(x) >= 2);
                    lemma_unique_key_count(selv, by_chunk_id(), x);
                    assert(false);
                } else {
                    assert(listing.contains(listing[a]) && listing.contains(listing[b]));
                    assert(selv.contains(listing[a]) && selv.contains(listing[b]));
                    let ma = choose|m: int| 0 <= m < selv.len() && selv[m] == listing[a];
                    let mb = choose|m: int| 0 <= m < selv.len() && selv[m] == listing[b];
                    assert(ma != mb);
                    assert(selv[ma].chunk_index != selv[mb].chunk_index);
                }
            }
        }
        Ok(out)
    }

    /// Counts a file's chunk rows.
    pub fn contar_chunks_de_file(&self, file_id: &str) -> (r: Result<i64, StorageError>)
        ensures
            match r {
                Ok(n) => n as int == select_by(self.chunks_v(), by_chunk_file(), file_id@).len(),
                Err(e) => e == StorageError::StoreError && select_by(
                    self.chunks_v(),
                    by_chunk_file(),
                    file_id@,
                ).len() > i64::MAX,
            },
    {
        let ghost s = self.chunks_v();
        let n = self.chunks.len();
        let mut count: usize = 0;
        let mut i: usize = 0;
        while i < n
            invariant
                i <= n,
                n == s.len(),
                s == self.chunks_v(),
                count == select_by(s.take(i as int), by_chunk_file(), file_id@).len(),
                count <= i,
            decreases n - i,
        {
            proof {
                assert(s.take(i + 1) =~= s.take(i as int).push(s[i as int]));
                lemma_select_by_snoc(s.take(i as int), s[i as int], by_chunk_file(), file_id@);
            }
            if str_eq(self.chunks[i].file_id.as_str(), file_id) {
                count = count + 1;
            }
            i = i + 1;
        }
        proof {
            assert(s.take(n as int) =~= s);
        }
        if (count as u64) > (i64::MAX as u64) {
            Err(StorageError::StoreError)
        } else {
            Ok(count as i64)
        }
    }

    /// Sets the status column of the chunk row with the given id.
    pub fn actualizar_chunk_status(&mut self, chunk_id: &str, status: &str) -> (r: Result<
        usize,
        StorageError,
    >)
        requires
            old(self).wf(),
        ensures
            final(self).wf(),
            final(self).usuarios_v() == old(self).usuarios_v(),
            final(self).files_v() == old(self).files_v(),
            final(self).chunks_v() == set_chunk_status(old(self).chunks_v(), chunk_id@, status@),
            r == Ok::<usize, StorageError>(
                if find_by(old(self).chunks_v(), by_chunk_id(), chunk_id@) is Some {
                    1usize
                } else {
                    0usize
                },
            ),
    {
        let ghost s = self.chunks_v();
        let n = self.chunks.len();
        let mut i: usize = 0;
        while i < n
            invariant
                i <= n,
                n == s.len(),
                self == old(self),
                s == self.chunks_v(),
                old(self).wf(),
                forall|j: int| 0 <= j < i ==> by_chunk_id()(#[trigger] s[j]) != chunk_id@,
            decreases n - i,
        {
            if str_eq(self.chunks[i].id.as_str(), chunk_id) {
                proof {
                    lemma_find_by_at(s, by_chunk_id(), chunk_id@, i as int);
                }
                let mut row = self.chunks[i].clone();
                row.status = status.to_owned();
                self.chunks.set(i, row);
                proof {
                    assert(self.chunks_v() =~= set_chunk_status(s, chunk_id@, status@));
                    let t = self.chunks_v();
                    assert forall|a: int, b: int| 0 <= a < b < t.len() implies by_chunk_id()(t[a])
                        != by_chunk_id()(t[b]) by {
                        assert(by_chunk_id()(t[a]) == by_chunk_id()(s[a]));
                        assert(by_chunk_id()(t[b]) == by_chunk_id()(s[b]));
                    }
                    assert forall|a: int| 0 <= a < t.len() implies chunk_row_wf(
                        #[trigger] t[a],
                    ) by {
                        assert(chunk_row_wf(s[a]));
                    }
                }
                return Ok(1);
            }
            i = i + 1;
        }
        proof {
            lemma_find_by_none(s, by_chunk_id(), chunk_id@);
            assert(self.chunks_v() =~= set_chunk_status(s, chunk_id@, status@));
        }
        Ok(0)
    }

    /// Deletes every chunk row of the file.
    pub fn borrar_chunks_de_file(&mut self, file_id: &str) -> (r: Result<usize, StorageError>)
        requires
            old(self).wf(),
        ensures
            final(self).wf(),
            final(self).usuarios_v() == old(self).usuarios_v(),
            final(self).files_v() == old(self).files_v(),
            final(self).chunks_v() == reject_by(old(self).chunks_v(), by_chunk_file(), file_id@),
            r == Ok::<usize, StorageError>(
                (old(self).chunks_v().len() - reject_by(
                    old(self).chunks_v(),
                    by_chunk_file(),
                    file_id@,
                ).len()) as usize,
            ),
    {
        let ghost s = self.chunks_v();
        let n = self.chunks.len();
        let mut kept: Vec<Chunk> = Vec::new();
        let mut i: usize = 0;
        while i < n
            invariant
                i <= n,
                n == s.len(),
                self == old(self),
                s == self.chunks_v(),
                kept.deep_view() == reject_by(s.take(i as int), by_chunk_file(), file_id@),
                kept.len() <= i,
            decreases n - i,
        {
            let ghost pre = kept.deep_view();
            proof {
                assert(s.take(i + 1) =~= s.take(i as int).push(s[i as int]));
                lemma_reject_by_snoc(s.take(i as int), s[i as int], by_chunk_file(), file_id@);
            }
            if !str_eq(self.chunks[i].file_id.as_str(), file_id) {
                kept.push(self.chunks[i].clone());
                proof {
                    assert(kept.deep_view() =~= pre.push(s[i as int]));
                }
            }
            i = i + 1;
        }
        proof {
            assert(s.take(n as int) =~= s);
            lemma_split_by_unique(s, by_chunk_file(), file_id@, by_chunk_id());
            lemma_reject_by_props(s, by_chunk_file(), file_id@);
            let t = reject_by(s, by_chunk_file(), file_id@);
            assert forall|a: int| 0 <= a < t.len() implies chunk_row_wf(#[trigger] t[a]) by {
                assert(s.contains(t[a]));
                let m = choose|m: int| 0 <= m < s.len() && s[m] == t[a];
                assert(chunk_row_wf(s[m]));
            }
        }
        let removed = n - kept.len();
        self.chunks = kept;
        Ok(removed)
    }
}

/// The canonical chunk listing of a file: its rows in ascending
/// chunk-index order.
impl DbManager {
    pub open spec fn chunks_of(self, fid: Seq<char>) -> Seq<ChunkV> {
        sort_chunks(select_by(self.chunks_v(), by_chunk_file(), fid))
    }
}

/// The rows `obtener_files_de_usuario` hands back: the owner's files,
/// narrowed to one mime type when asked, cut to `limit` rows when a
/// non-negative limit is given.
pub open spec fn files_listing(
    s: Seq<FileV>,
    owner: Seq<char>,
    mime: Option<Seq<char>>,
    limit: Option<int>,
) -> Seq<FileV> {
    let own = select_by(s, by_owner(), owner);
    let fil = match mime {
        Some(m) => select_by(own, by_file_mime(), m),
        None => own,
    };
    match limit {
        Some(l) => if 0 <= l < fil.len() {
            fil.take(l)
        } else {
            fil
        },
        None => fil,
    }
}

} // verus!
