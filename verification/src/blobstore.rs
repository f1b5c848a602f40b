//! The blob store: byte payloads under engine-constructed paths.
//!
//! Payloads and directory markers live in memory. A path listed as
//! read-only models media the store cannot write: writes and directory
//! creation there fail with an I/O error, as a full disk or a
//! permission fault would, which keeps the engine's failure branches
//! honest.

use vstd::prelude::*;

use crate::errors::StorageError;
use crate::strutil::str_eq;

verus! {

/// One stored payload.
pub struct BlobEntry {
    pub path: String,
    pub data: Vec<u8>,
}

/// Ghost image of a stored payload.
pub struct BlobEntryV {
    pub path: Seq<char>,
    pub data: Seq<u8>,
}

impl View for BlobEntry {
    type V = BlobEntryV;

    open spec fn view(&self) -> BlobEntryV {
        BlobEntryV { path: self.path@, data: self.data@ }
    }
}

impl DeepView for BlobEntry {
    type V = BlobEntryV;

    open spec fn deep_view(&self) -> BlobEntryV {
        self.view()
    }
}

/// The map the entry list denotes; a later entry would win, though
/// the store never keeps two entries on one path.
pub open spec fn entries_map(s: Seq<BlobEntryV>) -> Map<Seq<char>, Seq<u8>>
    decreases s.len(),
{
    if s.len() == 0 {
        Map::empty()
    } else {
        entries_map(s.drop_last()).insert(s.last().path, s.last().data)
    }
}

/// The set a path list denotes.
pub open spec fn path_set(s: Seq<Seq<char>>) -> Set<Seq<char>>
    decreases s.len(),
{
    if s.len() == 0 {
        Set::empty()
    } else {
        path_set(s.drop_last()).insert(s.last())
    }
}

pub open spec fn unique_paths(s: Seq<BlobEntryV>) -> bool {
    forall|i: int, j: int| 0 <= i < j < s.len() ==> #[trigger] s[i].path != #[trigger] s[j].path
}

pub open spec fn unique_seqs(s: Seq<Seq<char>>) -> bool {
    forall|i: int, j: int| 0 <= i < j < s.len() ==> #[trigger] s[i] != #[trigger] s[j]
}

pub proof fn lemma_entries_map_props(s: Seq<BlobEntryV>)
    ensures
        forall|p: Seq<char>| #[trigger]
            entries_map(s).contains_key(p) <==> exists|i: int|
                0 <= i < s.len() && (#[trigger] s[i]).path == p,
        unique_paths(s) ==> forall|i: int|
            0 <= i < s.len() ==> entries_map(s)[(#[trigger] s[i]).path] == s[i].data,
    decreases s.len(),
{
    if s.len() > 0 {
        let dl = s.drop_last();
        lemma_entries_map_props(dl);
        assert forall|p: Seq<char>| #[trigger] entries_map(s).contains_key(p) implies exists|i: int|
            0 <= i < s.len() && (#[trigger] s[i]).path == p by {
            if p == s.last().path {
                assert(s[s.len() - 1].path == p);
            } else {
                assert(entries_map(dl).contains_key(p));
                let i = choose|i: int| 0 <= i < dl.len() && (#[trigger] dl[i]).path == p;
                assert(s[i].path == p);
            }
        }
        assert forall|i: int| 0 <= i < s.len() && (#[trigger] s[i]).path == s[i].path implies
            entries_map(s).contains_key(s[i].path) by {
            if i < s.len() - 1 {
                assert(dl[i].path == s[i].path);
                assert(entries_map(dl).contains_key(s[i].path));
            }
        }
        if unique_paths(s) {
            assert(unique_paths(dl)) by {
                assert(forall|i: int| 0 <= i < dl.len() ==> #[trigger] dl[i] == s[i]);
            }
            assert forall|i: int| 0 <= i < s.len() implies entries_map(s)[(#[trigger] s[i]).path]
                == s[i].data by {
                if i < s.len() - 1 {
                    assert(dl[i] == s[i]);
                    assert(entries_map(dl)[s[i].path] == s[i].data);
                    assert(s[i].path != s.last().path);
                }
            }
        }
    }
}

pub proof fn lemma_entries_map_update(s: Seq<BlobEntryV>, i: int, e: BlobEntryV)
    requires
        unique_paths(s),
        0 <= i < s.len(),
        s[i].path == e.path,
    ensures
        entries_map(s.update(i, e)) == entries_map(s).insert(e.path, e.data),
        unique_paths(s.update(i, e)),
    decreases s.len(),
{
    let t = s.update(i, e);
    assert(unique_paths(t)) by {
        assert(forall|j: int|
            0 <= j < t.len() ==> (#[trigger] t[j]).path == if j == i {
                e.path
            } else {
                s[j].path
            });
    }
    if i == s.len() - 1 {
        assert(t.drop_last() =~= s.drop_last());
        assert(t.last() == e);
        assert(entries_map(t) =~= entries_map(s).insert(e.path, e.data)) by {
            assert(entries_map(s) == entries_map(s.drop_last()).insert(s.last().path, s.last().data));
        }
    } else {
        let dl = s.drop_last();
        assert(unique_paths(dl)) by {
            assert(forall|j: int| 0 <= j < dl.len() ==> #[trigger] dl[j] == s[j]);
        }
        lemma_entries_map_update(dl, i, e);
        assert(t.drop_last() =~= dl.update(i, e));
        assert(t.last() == s.last());
        assert(entries_map(t) == entries_map(dl.update(i, e)).insert(s.last().path, s.last().data));
        assert(entries_map(t) =~= entries_map(s).insert(e.path, e.data)) by {
            assert(e.path == s[i].path);
            assert(s[i].path != s.last().path);
        }
    }
}

pub proof fn lemma_entries_map_remove(s: Seq<BlobEntryV>, i: int)
    requires
        unique_paths(s),
        0 <= i < s.len(),
    ensures
        entries_map(s.remove(i)) == entries_map(s).remove(s[i].path),
        unique_paths(s.remove(i)),
    decreases s.len(),
{
    lemma_entries_map_props(s);
    let t = s.remove(i);
    assert(unique_paths(t)) by {
        assert(forall|j: int|
            0 <= j < t.len() ==> #[trigger] t[j] == if j < i {
                s[j]
            } else {
                s[j + 1]
            });
    }
    if i == s.len() - 1 {
        assert(t =~= s.drop_last());
        assert(entries_map(t) =~= entries_map(s).remove(s[i].path)) by {
            lemma_entries_map_props(s.drop_last());
            assert(forall|j: int| 0 <= j < s.len() - 1 ==> #[trigger] s.drop_last()[j] == s[j]);
        }
    } else {
        let dl = s.drop_last();
        assert(unique_paths(dl)) by {
            assert(forall|j: int| 0 <= j < dl.len() ==> #[trigger] dl[j] == s[j]);
        }
        lemma_entries_map_remove(dl, i);
        assert(t.drop_last() =~= dl.remove(i));
        assert(t.last() == s.last());
        assert(entries_map(t) == entries_map(dl.remove(i)).insert(s.last().path, s.last().data));
        assert(entries_map(t) =~= entries_map(s).remove(s[i].path)) by {
            assert(s[i].path != s.last().path);
        }
    }
}

pub proof fn lemma_path_set_props(s: Seq<Seq<char>>)
    ensures
        forall|p: Seq<char>| #[trigger]
            path_set(s).contains(p) <==> exists|i: int| 0 <= i < s.len() && #[trigger] s[i] == p,
    decreases s.len(),
{
    if s.len() > 0 {
        let dl = s.drop_last();
        lemma_path_set_props(dl);
        assert forall|p: Seq<char>| #[trigger] path_set(s).contains(p) implies exists|i: int|
            0 <= i < s.len() && #[trigger] s[i] == p by {
            if p == s.last() {
                assert(s[s.len() - 1] == p);
            } else {
                assert(path_set(s) == path_set(dl).insert(s.last()));
                assert(path_set(dl).contains(p));
                let i = choose|i: int| 0 <= i < dl.len() && #[trigger] dl[i] == p;
                assert(dl[i] == s[i]);
                assert(s[i] == p);
            }
        }
        assert forall|i: int| 0 <= i < s.len() implies path_set(s).contains(#[trigger] s[i]) by {
            if i < s.len() - 1 {
                assert(dl[i] == s[i]);
                assert(path_set(dl).contains(s[i]));
            }
        }
    }
}

pub proof fn lemma_path_set_remove(s: Seq<Seq<char>>, i: int)
    requires
        unique_seqs(s),
        0 <= i < s.len(),
    ensures
        path_set(s.remove(i)) == path_set(s).remove(s[i]),
        unique_seqs(s.remove(i)),
    decreases s.len(),
{
    lemma_path_set_props(s);
    lemma_path_set_props(s.remove(i));
    let t = s.remove(i);
    assert(unique_seqs(t)) by {
        assert(forall|j: int|
            0 <= j < t.len() ==> #[trigger] t[j] == if j < i {
                s[j]
            } else {
                s[j + 1]
            });
    }
    assert(path_set(t) =~= path_set(s).remove(s[i])) by {
        assert forall|p: Seq<char>| #[trigger] path_set(t).contains(p) implies path_set(s).remove(
            s[i],
        ).contains(p) by {
            let j = choose|j: int| 0 <= j < t.len() && #[trigger] t[j] == p;
            if j < i {
                assert(s[j] == p);
            } else {
                assert(s[j + 1] == p);
            }
        }
        assert forall|p: Seq<char>| path_set(s).remove(s[i]).contains(p) implies #[trigger] path_set(
            t,
        ).contains(p) by {
            let j = choose|j: int| 0 <= j < s.len() && #[trigger] s[j] == p;
            if j < i {
                assert(t[j] == p);
            } else {
                assert(t[j - 1] == p);
            }
        }
    }
}

/// The blob store.
pub struct BlobStore {
    blobs: Vec<BlobEntry>,
    dirs: Vec<String>,
    readonly: Vec<String>,
}

impl BlobStore {
    /// The stored payload under each path.
    pub closed spec fn blob_map(self) -> Map<Seq<char>, Seq<u8>> {
        entries_map(self.blobs.deep_view())
    }

    /// The directory markers present.
    pub closed spec fn dirs_set(self) -> Set<Seq<char>> {
        path_set(self.dirs.deep_view())
    }

    /// The paths the medium refuses to write.
    pub closed spec fn readonly_set(self) -> Set<Seq<char>> {
        path_set(self.readonly.deep_view())
    }

    pub closed spec fn wf(self) -> bool {
        &&& unique_paths(self.blobs.deep_view())
        &&& unique_seqs(self.dirs.deep_view())
    }

    /// An empty store on writable media.
    pub fn new() -> (r: BlobStore)
        ensures
            r.wf(),
            r.blob_map() == Map::<Seq<char>, Seq<u8>>::empty(),
            r.dirs_set() == Set::<Seq<char>>::empty(),
            r.readonly_set() == Set::<Seq<char>>::empty(),
    {
        let r = BlobStore { blobs: Vec::new(), dirs: Vec::new(), readonly: Vec::new() };
        proof {
            assert(r.blobs.deep_view() =~= Seq::<BlobEntryV>::empty());
            assert(r.dirs.deep_view() =~= Seq::<Seq<char>>::empty());
            assert(r.readonly.deep_view() =~= Seq::<Seq<char>>::empty());
        }
        r
    }

    /// An empty store whose listed paths refuse writes.
    pub fn with_readonly(paths: Vec<String>) -> (r: BlobStore)
        ensures
            r.wf(),
            r.blob_map() == Map::<Seq<char>, Seq<u8>>::empty(),
            r.dirs_set() == Set::<Seq<char>>::empty(),
            r.readonly_set() == path_set(paths.deep_view()),
    {
        let r = BlobStore { blobs: Vec::new(), dirs: Vec::new(), readonly: paths };
        proof {
            assert(r.blobs.deep_view() =~= Seq::<BlobEntryV>::empty());
            assert(r.dirs.deep_view() =~= Seq::<Seq<char>>::empty());
        }
        r
    }

    /// Whether the medium refuses to write this path.
    fn is_readonly(&self, path: &str) -> (r: bool)
        ensures
            r == self.readonly_set().contains(path@),
    {
        let ghost s = self.readonly.deep_view();
        proof {
            lemma_path_set_props(s);
        }
        let n = self.readonly.len();
        let mut i: usize = 0;
        while i < n
            invariant
                i <= n,
                n == s.len(),
                s == self.readonly.deep_view(),
                forall|j: int| 0 <= j < i ==> #[trigger] s[j] != path@,
            decreases n - i,
        {
            if str_eq(self.readonly[i].as_str(), path) {
                proof {
                    lemma_path_set_props(s);
                    assert(s[i as int] == path@);
                }
                return true;
            }
            i = i + 1;
        }
        proof {
            lemma_path_set_props(s);
            if self.readonly_set().contains(path@) {
                let j = choose|j: int| 0 <= j < s.len() && #[trigger] s[j] == path@;
                assert(false);
            }
        }
        false
    }

    /// Writes a payload, replacing what the path held.
    pub fn write_blob(&mut self, path: &str, data: &[u8]) -> (r: Result<(), StorageError>)
        requires
            old(self).wf(),
        ensures
            final(self).wf(),
            final(self).dirs_set() == old(self).dirs_set(),
            final(self).readonly_set() == old(self).readonly_set(),
            match r {
                Ok(_) => !old(self).readonly_set().contains(path@) && final(self).blob_map() == old(
                    self,
                ).blob_map().insert(path@, data@),
                Err(e) => e == StorageError::IoError && old(self).readonly_set().contains(path@)
                    && final(self).blob_map() == old(self).blob_map(),
            },
    {
        if self.is_readonly(path) {
            return Err(StorageError::IoError);
        }
        let ghost s = self.blobs.deep_view();
        let n = self.blobs.len();
        let mut i: usize = 0;
        while i < n
            invariant
                i <= n,
                n == s.len(),
                self == old(self),
                s == self.blobs.deep_view(),
                old(self).wf(),
                !old(self).readonly_set().contains(path@),
                forall|j: int| 0 <= j < i ==> (#[trigger] s[j]).path != path@,
            decreases n - i,
        {
            if str_eq(self.blobs[i].path.as_str(), path) {
                let mut data_copy: Vec<u8> = Vec::new();
                data_copy.extend_from_slice(data);
                proof {
                    assert(data_copy@ =~= data@);
                }
                let entry = BlobEntry { path: path.to_owned(), data: data_copy };
                let ghost ev = entry@;
                self.blobs.set(i, entry);
                proof {
                    lemma_entries_map_update(s, i as int, ev);
                    assert(self.blobs.deep_view() =~= s.update(i as int, ev));
                }
                return Ok(());
            }
            i = i + 1;
        }
        let mut data_copy: Vec<u8> = Vec::new();
        data_copy.extend_from_slice(data);
        proof {
            assert(data_copy@ =~= data@);
        }
        let entry = BlobEntry { path: path.to_owned(), data: data_copy };
        let ghost ev = entry@;
        self.blobs.push(entry);
        proof {
            assert(self.blobs.deep_view() =~= s.push(ev));
            assert(s.push(ev).drop_last() =~= s);
            assert(entries_map(s.push(ev)) == entries_map(s).insert(path@, data@));
            assert(unique_paths(s.push(ev))) by {
                let t = s.push(ev);
                assert forall|a: int, b: int| 0 <= a < b < t.len() implies (#[trigger] t[a]).path
                    != (#[trigger] t[b]).path by {
                    if b < s.len() {
                        assert(t[a] == s[a] && t[b] == s[b]);
                    } else {
                        assert(t[a] == s[a] && t[b] == ev);
                    }
                }
            }
        }
        Ok(())
    }

    /// Reads the payload a path holds.
    pub fn read_blob(&self, path: &str) -> (r: Result<Vec<u8>, StorageError>)
        requires
            self.wf(),
        ensures
            match r {
                Ok(d) => self.blob_map().contains_key(path@) && d@ == self.blob_map()[path@],
                Err(e) => e == StorageError::IoError && !self.blob_map().contains_key(path@),
            },
    {
        let ghost s = self.blobs.deep_view();
        proof {
            lemma_entries_map_props(s);
        }
        let n = self.blobs.len();
        let mut i: usize = 0;
        while i < n
            invariant
                i <= n,
                n == s.len(),
                s == self.blobs.deep_view(),
                self.wf(),
                forall|j: int| 0 <= j < i ==> (#[trigger] s[j]).path != path@,
            decreases n - i,
        {
            if str_eq(self.blobs[i].path.as_str(), path) {
                let mut data_copy: Vec<u8> = Vec::new();
                data_copy.extend_from_slice(self.blobs[i].data.as_slice());
                proof {
                    assert(data_copy@ =~= s[i as int].data);
                    lemma_entries_map_props(s);
                    assert(s[i as int].path == path@);
                    assert(entries_map(s)[s[i as int].path] == s[i as int].data);
                }
                return Ok(data_copy);
            }
            i = i + 1;
        }
        proof {
            lemma_entries_map_props(s);
            if self.blob_map().contains_key(path@) {
                let j = choose|j: int| 0 <= j < s.len() && (#[trigger] s[j]).path == path@;
                assert(false);
            }
        }
        Err(StorageError::IoError)
    }

    /// Removes the payload a path holds; reports a missing payload as
    /// an I/O error, which deletion treats as ignorable.
    pub fn delete_blob(&mut self, path: &str) -> (r: Result<(), StorageError>)
        requires
            old(self).wf(),
        ensures
            final(self).wf(),
            final(self).dirs_set() == old(self).dirs_set(),
            final(self).readonly_set() == old(self).readonly_set(),
            final(self).blob_map() == old(self).blob_map().remove(path@),
            match r {
                Ok(_) => old(self).blob_map().contains_key(path@),
                Err(e) => e == StorageError::IoError && !old(self).blob_map().contains_key(path@),
            },
    {
        let ghost s = self.blobs.deep_view();
        proof {
            lemma_entries_map_props(s);
        }
        let n = self.blobs.len();
        let mut i: usize = 0;
        while i < n
            invariant
                i <= n,
                n == s.len(),
                self == old(self),
                s == self.blobs.deep_view(),
                old(self).wf(),
                forall|j: int| 0 <= j < i ==> (#[trigger] s[j]).path != path@,
            decreases n - i,
        {
            if str_eq(self.blobs[i].path.as_str(), path) {
                self.blobs.remove(i);
                proof {
                    lemma_entries_map_props(s);
                    lemma_entries_map_remove(s, i as int);
                    assert(self.blobs.deep_view() =~= s.remove(i as int));
                }
                return Ok(());
            }
            i = i + 1;
        }
        proof {
            lemma_entries_map_props(s);
            if self.blob_map().contains_key(path@) {
                let j = choose|j: int| 0 <= j < s.len() && (#[trigger] s[j]).path == path@;
                assert(false);
            }
            assert(self.blob_map() =~= self.blob_map().remove(path@));
        }
        Err(StorageError::IoError)
    }

    /// Marks a directory as present; creating it again is harmless.
    pub fn create_dir(&mut self, path: &str) -> (r: Result<(), StorageError>)
        requires
            old(self).wf(),
        ensures
            final(self).wf(),
            final(self).blob_map() == old(self).blob_map(),
            final(self).readonly_set() == old(self).readonly_set(),
            match r {
                Ok(_) => !old(self).readonly_set().contains(path@) && final(self).dirs_set() == old(
                    self,
                ).dirs_set().insert(path@),
                Err(e) => e == StorageError::IoError && old(self).readonly_set().contains(path@)
                    && final(self).dirs_set() == old(self).dirs_set(),
            },
    {
        if self.is_readonly(path) {
            return Err(StorageError::IoError);
        }
        if self.has_dir(path) {
            proof {
                assert(self.dirs_set() =~= self.dirs_set().insert(path@));
            }
            return Ok(());
        }
        let ghost s = self.dirs.deep_view();
        self.dirs.push(path.to_owned());
        proof {
            assert(self.dirs.deep_view() =~= s.push(path@));
            assert(s.push(path@).drop_last() =~= s);
            assert(path_set(s.push(path@)) == path_set(s).insert(path@));
            assert(unique_seqs(s.push(path@))) by {
                lemma_path_set_props(s);
                let t = s.push(path@);
                assert forall|a: int, b: int| 0 <= a < b < t.len() implies #[trigger] t[a]
                    != #[trigger] t[b] by {
                    if b < s.len() {
                        assert(t[a] == s[a] && t[b] == s[b]);
                    } else {
                        assert(t[a] == s[a] && t[b] == path@);
                    }
                }
            }
        }
        Ok(())
    }

    /// Whether a directory marker is present.
    pub fn has_dir(&self, path: &str) -> (r: bool)
        ensures
            r == self.dirs_set().contains(path@),
    {
        let ghost s = self.dirs.deep_view();
        proof {
            lemma_path_set_props(s);
        }
        let n = self.dirs.len();
        let mut i: usize = 0;
        while i < n
            invariant
                i <= n,
                n == s.len(),
                s == self.dirs.deep_view(),
                forall|j: int| 0 <= j < i ==> #[trigger] s[j] != path@,
            decreases n - i,
        {
            if str_eq(self.dirs[i].as_str(), path) {
                proof {
                    lemma_path_set_props(s);
                    assert(s[i as int] == path@);
                }
                return true;
            }
            i = i + 1;
        }
        proof {
            lemma_path_set_props(s);
            if self.dirs_set().contains(path@) {
                let j = choose|j: int| 0 <= j < s.len() && #[trigger] s[j] == path@;
                assert(false);
            }
        }
        false
    }

    /// Drops a directory marker; reports a missing one as an I/O
    /// error, which deletion treats as ignorable.
    pub fn remove_dir(&mut self, path: &str) -> (r: Result<(), StorageError>)
        requires
            old(self).wf(),
        ensures
            final(self).wf(),
            final(self).blob_map() == old(self).blob_map(),
            final(self).readonly_set() == old(self).readonly_set(),
            final(self).dirs_set() == old(self).dirs_set().remove(path@),
            match r {
                Ok(_) => old(self).dirs_set().contains(path@),
                Err(e) => e == StorageError::IoError && !old(self).dirs_set().contains(path@),
            },
    {
        let ghost s = self.dirs.deep_view();
        proof {
            lemma_path_set_props(s);
        }
        let n = self.dirs.len();
        let mut i: usize = 0;
        while i < n
            invariant
                i <= n,
                n == s.len(),
                self == old(self),
                s == self.dirs.deep_view(),
                old(self).wf(),
                forall|j: int| 0 <= j < i ==> #[trigger] s[j] != path@,
            decreases n - i,
        {
            if str_eq(self.dirs[i].as_str(), path) {
                self.dirs.remove(i);
                proof {
                    lemma_path_set_props(s);
                    lemma_path_set_remove(s, i as int);
                    assert(self.dirs.deep_view() =~= s.remove(i as int));
                }
                return Ok(());
            }
            i = i + 1;
        }
        proof {
            lemma_path_set_props(s);
            if self.dirs_set().contains(path@) {
                let j = choose|j: int| 0 <= j < s.len() && #[trigger] s[j] == path@;
                assert(false);
            }
            assert(self.dirs_set() =~= self.dirs_set().remove(path@));
        }
        Err(StorageError::IoError)
    }
}

} // verus!
