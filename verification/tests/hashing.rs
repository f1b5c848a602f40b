use blake2::Digest;
use privafile::blobstore::BlobStore;
use privafile::catalog::DbManager;
use privafile::hashing::content_hash;
use privafile::procedures::{finalize_chunked_upload, init_chunked_upload, upload_chunk};

/// Independent lowercase-hex rendering, so the library's own encoder
/// is held against something it does not share code with.
fn hex_of(bytes: &[u8]) -> String {
    let digits = b"0123456789abcdef";
    let mut out = String::new();
    for b in bytes {
        out.push(digits[(b >> 4) as usize] as char);
        out.push(digits[(b & 0x0f) as usize] as char);
    }
    out
}

fn blake2b512_hex(data: &[u8]) -> String {
    let mut h = blake2::Blake2b512::new();
    h.update(data);
    hex_of(h.finalize().as_slice())
}

#[test]
fn content_hash_matches_blake2b512() {
    for data in [&b""[..], &b"abc"[..], &[0u8; 1000][..]] {
        assert_eq!(content_hash(data), blake2b512_hex(data));
    }
}

#[test]
fn content_hash_is_128_lowercase_hex_chars() {
    let h = content_hash(b"payload");
    assert_eq!(h.len(), 128);
    assert!(h.chars().all(|c| c.is_ascii_hexdigit() && !c.is_ascii_uppercase()));
    // and it is not the input echoed back
    assert_ne!(h.as_bytes(), b"payload");
}

fn final_hash_of(parts: &[&[u8]]) -> String {
    let mut db = DbManager::new();
    let mut store = BlobStore::new();
    init_chunked_upload(&mut db, &mut store, "u", "f", "a/b", 1).unwrap();
    for (i, p) in parts.iter().enumerate() {
        upload_chunk(&mut db, &mut store, "u", "f", i as i32, p.to_vec()).unwrap();
    }
    finalize_chunked_upload(&mut db, "u", "f").unwrap().0
}

#[test]
fn final_hash_is_deterministic() {
    let a = final_hash_of(&[b"h0", b"h1", b"h2"]);
    let b = final_hash_of(&[b"h0", b"h1", b"h2"]);
    assert_eq!(a, b);
}

#[test]
fn final_hash_tracks_chunk_bytes() {
    let a = final_hash_of(&[b"h0", b"h1", b"h2"]);
    let b = final_hash_of(&[b"h0", b"hX", b"h2"]);
    assert_ne!(a, b);
}

#[test]
fn final_hash_is_hash_of_hex_hashes() {
    // the summary digest hashes the concatenated hex hash strings,
    // not the chunk bytes themselves
    let got = final_hash_of(&[b"aa", b"bb"]);
    let mut concatenated = String::new();
    concatenated.push_str(blake2b512_hex(b"aa").as_str());
    concatenated.push_str(blake2b512_hex(b"bb").as_str());
    assert_eq!(got, blake2b512_hex(concatenated.as_bytes()));
}
