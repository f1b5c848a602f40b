//! Laws of the engine that span several operations, proved once over
//! the specifications its contracts use.

use vstd::prelude::*;

use crate::catalog::{
    by_chunk_file, by_file_id, chunk_row_wf, chunks_sorted, distinct_indices, set_file_hash,
    set_file_status, sort_chunks,
};
use crate::models::{ChunkV, FileV};
use crate::procedures::{assembled_bytes, contiguous};
use crate::rows::{
    find_by, lemma_find_by_none, lemma_find_by_some, lemma_find_by_unique, lemma_reject_by_keeps,
    lemma_reject_by_props, lemma_select_after_reject, lemma_select_by_props, lemma_select_by_snoc,
    reject_by, select_by, unique_key,
};
use crate::strutil::{chunk_path_spec, lemma_chunk_id_injective};

verus! {

/// Whether some row of the run carries chunk index `k`.
pub open spec fn has_index(cs: Seq<ChunkV>, k: int) -> bool {
    exists|i: int| 0 <= i < cs.len() && (#[trigger] cs[i]).chunk_index == k
}

/// In a strictly ordered run every row's index is at least its
/// position.
proof fn lemma_index_lower_bound(cs: Seq<ChunkV>, i: int)
    requires
        chunks_sorted(cs),
        distinct_indices(cs),
        forall|j: int| 0 <= j < cs.len() ==> (#[trigger] cs[j]).chunk_index >= 0,
        0 <= i < cs.len(),
    ensures
        cs[i].chunk_index >= i,
    decreases i,
{
    if i > 0 {
        lemma_index_lower_bound(cs, i - 1);
        assert(cs[i - 1].chunk_index <= cs[i].chunk_index);
        assert(cs[i - 1].chunk_index != cs[i].chunk_index);
    }
}

/// When every index below the run's length is present, position `k`
/// holds exactly index `k`.
proof fn lemma_complete_run_position(cs: Seq<ChunkV>, k: int)
    requires
        chunks_sorted(cs),
        distinct_indices(cs),
        forall|j: int| 0 <= j < cs.len() ==> (#[trigger] cs[j]).chunk_index >= 0,
        forall|j: int| 0 <= j < cs.len() ==> #[trigger] has_index(cs, j),
        0 <= k < cs.len(),
    ensures
        cs[k].chunk_index == k,
    decreases k,
{
    assert(has_index(cs, k));
    let p = choose|p: int| 0 <= p < cs.len() && (#[trigger] cs[p]).chunk_index == k;
    lemma_index_lower_bound(cs, p);
    if p < k {
        lemma_complete_run_position(cs, p);
        assert(false);
    }
}

/// Finalize's contiguity check accepts a chunk run exactly when
/// every index in `0..n` is present — and, the indices being
/// pairwise distinct, present exactly once. Any gap fails it.
pub proof fn lemma_contiguous_iff_all_indices(cs: Seq<ChunkV>)
    requires
        chunks_sorted(cs),
        distinct_indices(cs),
        forall|j: int| 0 <= j < cs.len() ==> (#[trigger] cs[j]).chunk_index >= 0,
    ensures
        contiguous(cs) <==> (forall|k: int| 0 <= k < cs.len() ==> #[trigger] has_index(cs, k)),
{
    if contiguous(cs) {
        assert forall|k: int| 0 <= k < cs.len() implies #[trigger] has_index(cs, k) by {
            assert(cs[k].chunk_index == k);
        }
    }
    if forall|k: int| 0 <= k < cs.len() ==> #[trigger] has_index(cs, k) {
        assert forall|k: int| 0 <= k < cs.len() implies (#[trigger] cs[k]).chunk_index == k by {
            lemma_complete_run_position(cs, k);
        }
    }
}

/// The round-trip law of chunked storage: a store holding byte runs
/// `bs` under the chunk paths of a contiguous run assembles them back
/// to their concatenation — downloading reproduces what was uploaded,
/// byte for byte.
pub proof fn lemma_chunked_roundtrip(
    m: Map<Seq<char>, Seq<u8>>,
    fid: Seq<char>,
    cs: Seq<ChunkV>,
    bs: Seq<Seq<u8>>,
)
    requires
        cs.len() == bs.len(),
        contiguous(cs),
        forall|i: int|
            0 <= i < cs.len() ==> m.contains_key(#[trigger] chunk_path_spec(fid, i)) && m[
                chunk_path_spec(fid, i)] == bs[i],
    ensures
        assembled_bytes(m, fid, cs) == bs.flatten(),
    decreases cs.len(),
{
    if cs.len() == 0 {
        assert(bs.flatten() =~= Seq::<u8>::empty());
    } else {
        let n = cs.len() as int;
        let cdl = cs.drop_last();
        let bdl = bs.drop_last();
        assert(forall|i: int| 0 <= i < cdl.len() ==> #[trigger] cdl[i] == cs[i]);
        assert(forall|i: int| 0 <= i < bdl.len() ==> #[trigger] bdl[i] == bs[i]);
        lemma_chunked_roundtrip(m, fid, cdl, bdl);
        assert(cs.last().chunk_index == n - 1);
        assert(assembled_bytes(m, fid, cs) == bdl.flatten() + bs[n - 1]);
        assert(bs.flatten() == bdl.flatten() + bs.last()) by {
            bs.lemma_flatten_and_flatten_alt_are_equivalent();
            bdl.lemma_flatten_and_flatten_alt_are_equivalent();
            assert(bs.flatten_alt() == bdl.flatten_alt() + bs.last());
        }
    }
}

/// A chunk's composite id pins its file and index down: two
/// well-formed rows that share an id describe one chunk. This is why
/// the catalog's id uniqueness makes each index present at most once
/// per file.
pub proof fn lemma_chunk_id_determines_position(c1: ChunkV, c2: ChunkV)
    requires
        chunk_row_wf(c1),
        chunk_row_wf(c2),
        c1.id == c2.id,
    ensures
        c1.file_id == c2.file_id,
        c1.chunk_index == c2.chunk_index,
{
    lemma_chunk_id_injective(
        c1.file_id,
        c1.chunk_index as int,
        c2.file_id,
        c2.chunk_index as int,
    );
}

/// After a deletion the file id resolves to no row: looking it up in
/// the rows a delete leaves behind misses.
pub proof fn lemma_deleted_file_not_found(files: Seq<FileV>, fid: Seq<char>)
    ensures
        find_by(reject_by(files, by_file_id(), fid), by_file_id(), fid) is None,
{
    lemma_reject_by_props(files, by_file_id(), fid);
    lemma_find_by_none(reject_by(files, by_file_id(), fid), by_file_id(), fid);
}

// ───────────────────────────────────────────────────────────────────
// The catalog's standing invariant
// ───────────────────────────────────────────────────────────────────

/// Whether some file row owns this chunk row.
pub open spec fn references_file(files: Seq<FileV>, c: ChunkV) -> bool {
    exists|i: int| 0 <= i < files.len() && (#[trigger] files[i]).id == c.file_id
}

/// The data-model invariant the engine maintains across the two
/// tables: a complete file carries a non-empty hash and a contiguous
/// chunk run, and every chunk row belongs to some file row.
pub open spec fn catalog_consistent(files: Seq<FileV>, chunks: Seq<ChunkV>) -> bool {
    &&& forall|i: int|
        0 <= i < files.len() && (#[trigger] files[i]).status == "complete"@ ==> files[i].hash.len()
            > 0 && contiguous(sort_chunks(select_by(chunks, by_chunk_file(), files[i].id)))
    &&& forall|j: int| 0 <= j < chunks.len() ==> #[trigger] references_file(files, chunks[j])
}

/// Starting an upload preserves consistency: the new row is still
/// `uploading` and no chunk row moved.
pub proof fn lemma_init_preserves_consistency(
    files: Seq<FileV>,
    chunks: Seq<ChunkV>,
    row: FileV,
)
    requires
        catalog_consistent(files, chunks),
        row.status == "uploading"@,
    ensures
        catalog_consistent(files.push(row), chunks),
{
    reveal_strlit("uploading");
    reveal_strlit("complete");
    assert(("uploading"@).len() == 9);
    assert(("complete"@).len() == 8);
    let fs = files.push(row);
    assert forall|i: int|
        0 <= i < fs.len() && (#[trigger] fs[i]).status == "complete"@ implies fs[i].hash.len() > 0
        && contiguous(sort_chunks(select_by(chunks, by_chunk_file(), fs[i].id))) by {
        if i < files.len() {
            assert(fs[i] == files[i]);
        } else {
            assert(fs[i] == row);
            assert(false);
        }
    }
    assert forall|j: int| 0 <= j < chunks.len() implies #[trigger] references_file(
        fs,
        chunks[j],
    ) by {
        assert(references_file(files, chunks[j]));
        let m = choose|m: int|
            0 <= m < files.len() && (#[trigger] files[m]).id == chunks[j].file_id;
        assert(fs[m].id == chunks[j].file_id);
    }
}

/// Accepting a chunk preserves consistency: the chunk lands on a
/// file that is still uploading, so no complete file's run moves.
pub proof fn lemma_accept_chunk_preserves_consistency(
    files: Seq<FileV>,
    chunks: Seq<ChunkV>,
    c: ChunkV,
)
    requires
        catalog_consistent(files, chunks),
        unique_key(files, by_file_id()),
        match find_by(files, by_file_id(), c.file_id) {
            Some(f) => f.status == "uploading"@,
            None => false,
        },
    ensures
        catalog_consistent(files, chunks.push(c)),
{
    reveal_strlit("uploading");
    reveal_strlit("complete");
    assert(("uploading"@).len() == 9);
    assert(("complete"@).len() == 8);
    let cs = chunks.push(c);
    assert forall|i: int|
        0 <= i < files.len() && (#[trigger] files[i]).status == "complete"@ implies files[i].hash.len()
        > 0 && contiguous(sort_chunks(select_by(cs, by_chunk_file(), files[i].id))) by {
        assert(files[i].id != c.file_id) by {
            if files[i].id == c.file_id {
                assert(by_file_id()(files[i]) == c.file_id);
                lemma_find_by_unique(files, by_file_id(), c.file_id, i);
                assert(files[i].status == "uploading"@);
            }
        }
        lemma_select_by_snoc(chunks, c, by_chunk_file(), files[i].id);
    }
    assert forall|j: int| 0 <= j < cs.len() implies #[trigger] references_file(files, cs[j]) by {
        if j < chunks.len() {
            assert(cs[j] == chunks[j]);
            assert(references_file(files, chunks[j]));
        } else {
            assert(cs[j] == c);
            lemma_find_by_some(files, by_file_id(), c.file_id);
            let f = find_by(files, by_file_id(), c.file_id)->Some_0;
            let m = choose|m: int| 0 <= m < files.len() && files[m] == f;
            assert(files[m].id == cs[j].file_id);
        }
    }
}

/// Finalizing preserves consistency: the file it completes gets a
/// non-empty hash and has just had its run checked contiguous.
pub proof fn lemma_finalize_preserves_consistency(
    files: Seq<FileV>,
    chunks: Seq<ChunkV>,
    fid: Seq<char>,
    h: Seq<char>,
)
    requires
        catalog_consistent(files, chunks),
        h.len() > 0,
        contiguous(sort_chunks(select_by(chunks, by_chunk_file(), fid))),
    ensures
        catalog_consistent(set_file_status(set_file_hash(files, fid, h), fid, "complete"@), chunks),
{
    let fs = set_file_status(set_file_hash(files, fid, h), fid, "complete"@);
    assert(fs.len() == files.len());
    assert forall|i: int| 0 <= i < fs.len() implies (#[trigger] fs[i]).id == files[i].id && (
    files[i].id == fid ==> fs[i].hash == h && fs[i].status == "complete"@) && (files[i].id != fid
        ==> fs[i] == files[i]) by {
        assert(set_file_hash(files, fid, h)[i] == (if files[i].id == fid {
            FileV { hash: h, ..files[i] }
        } else {
            files[i]
        }));
    }
    assert forall|i: int|
        0 <= i < fs.len() && (#[trigger] fs[i]).status == "complete"@ implies fs[i].hash.len() > 0
        && contiguous(sort_chunks(select_by(chunks, by_chunk_file(), fs[i].id))) by {
        if files[i].id != fid {
            assert(fs[i] == files[i]);
        }
    }
    assert forall|j: int| 0 <= j < chunks.len() implies #[trigger] references_file(
        fs,
        chunks[j],
    ) by {
        assert(references_file(files, chunks[j]));
        let m = choose|m: int|
            0 <= m < files.len() && (#[trigger] files[m]).id == chunks[j].file_id;
        assert(fs[m].id == chunks[j].file_id);
    }
}

/// Deleting a file preserves consistency: its rows leave both
/// tables, and no other file's run is disturbed.
pub proof fn lemma_delete_preserves_consistency(
    files: Seq<FileV>,
    chunks: Seq<ChunkV>,
    fid: Seq<char>,
)
    requires
        catalog_consistent(files, chunks),
    ensures
        catalog_consistent(
            reject_by(files, by_file_id(), fid),
            reject_by(chunks, by_chunk_file(), fid),
        ),
{
    let fs = reject_by(files, by_file_id(), fid);
    let cs = reject_by(chunks, by_chunk_file(), fid);
    lemma_reject_by_props(files, by_file_id(), fid);
    lemma_reject_by_props(chunks, by_chunk_file(), fid);
    assert forall|i: int|
        0 <= i < fs.len() && (#[trigger] fs[i]).status == "complete"@ implies fs[i].hash.len() > 0
        && contiguous(sort_chunks(select_by(cs, by_chunk_file(), fs[i].id))) by {
        assert(files.contains(fs[i]));
        let m = choose|m: int| 0 <= m < files.len() && files[m] == fs[i];
        assert(by_file_id()(fs[i]) != fid);
        lemma_select_after_reject(chunks, by_chunk_file(), fid, fs[i].id);
    }
    assert forall|j: int| 0 <= j < cs.len() implies #[trigger] references_file(fs, cs[j]) by {
        assert(chunks.contains(cs[j]));
        let m = choose|m: int| 0 <= m < chunks.len() && chunks[m] == cs[j];
        assert(references_file(files, chunks[m]));
        let p = choose|p: int|
            0 <= p < files.len() && (#[trigger] files[p]).id == chunks[m].file_id;
        assert(by_chunk_file()(cs[j]) != fid);
        assert(by_file_id()(files[p]) != fid);
        lemma_reject_by_keeps(files, by_file_id(), fid, p);
        let q = choose|q: int| 0 <= q < fs.len() && fs[q] == files[p];
        assert(fs[q].id == cs[j].file_id);
    }
}

/// A whole-blob upload preserves consistency: the fresh id has no
/// chunk rows, so the already-complete row it adds has an empty,
/// trivially contiguous run.
pub proof fn lemma_upload_whole_preserves_consistency(
    files: Seq<FileV>,
    chunks: Seq<ChunkV>,
    row: FileV,
)
    requires
        catalog_consistent(files, chunks),
        row.hash.len() > 0,
        find_by(files, by_file_id(), row.id) is None,
    ensures
        catalog_consistent(files.push(row), chunks),
{
    let fs = files.push(row);
    lemma_find_by_none(files, by_file_id(), row.id);
    assert forall|j: int| 0 <= j < chunks.len() implies by_chunk_file()(#[trigger] chunks[j])
        != row.id by {
        if chunks[j].file_id == row.id {
            assert(references_file(files, chunks[j]));
            let m = choose|m: int|
                0 <= m < files.len() && (#[trigger] files[m]).id == chunks[j].file_id;
            assert(by_file_id()(files[m]) == row.id);
        }
    }
    lemma_select_by_props(chunks, by_chunk_file(), row.id);
    assert(select_by(chunks, by_chunk_file(), row.id).len() == 0);
    assert forall|i: int|
        0 <= i < fs.len() && (#[trigger] fs[i]).status == "complete"@ implies fs[i].hash.len() > 0
        && contiguous(sort_chunks(select_by(chunks, by_chunk_file(), fs[i].id))) by {
        if i < files.len() {
            assert(fs[i] == files[i]);
        } else {
            assert(fs[i] == row);
        }
    }
    assert forall|j: int| 0 <= j < chunks.len() implies #[trigger] references_file(
        fs,
        chunks[j],
    ) by {
        assert(references_file(files, chunks[j]));
        let m = choose|m: int|
            0 <= m < files.len() && (#[trigger] files[m]).id == chunks[j].file_id;
        assert(fs[m].id == chunks[j].file_id);
    }
}

} // verus!
