use std::io::Read;

use rgit::blob::Blob;
use rgit::database::{Database, Store};
use rgit::entry::Entry;
use rgit::tree::Tree;

fn decompress(bytes: &[u8]) -> Vec<u8> {
    let mut decoder = flate2::read::ZlibDecoder::new(bytes);
    let mut out = Vec::new();
    decoder.read_to_end(&mut out).expect("stored bytes must be a zlib stream");
    out
}

fn oid_a() -> Vec<u8> {
    b"aaaaaaaaaaaaaaaaaaaaaaaaaaaaaaaaaaaaaaaa".to_vec()
}

fn oid_b() -> Vec<u8> {
    b"bbbbbbbbbbbbbbbbbbbbbbbbbbbbbbbbbbbbbbbb".to_vec()
}

#[test]
fn tree_serialize_sorts_by_path() {
    let entries = vec![
        Entry::new(b"b.txt".to_vec(), oid_b()),
        Entry::new(b"a.txt".to_vec(), oid_a()),
    ];
    let mut tree = Tree::new(entries);
    let out = tree.serialize().unwrap();
    let mut expected = Vec::new();
    expected.extend_from_slice(b"100644 a.txt\0");
    expected.extend_from_slice(&oid_a());
    expected.extend_from_slice(b"100644 b.txt\0");
    expected.extend_from_slice(&oid_b());
    assert_eq!(out, expected);
}

#[test]
fn tree_serialize_order_independent() {
    let mut forward = Tree::new(vec![
        Entry::new(b"a.txt".to_vec(), oid_a()),
        Entry::new(b"b.txt".to_vec(), oid_b()),
    ]);
    let mut backward = Tree::new(vec![
        Entry::new(b"b.txt".to_vec(), oid_b()),
        Entry::new(b"a.txt".to_vec(), oid_a()),
    ]);
    assert_eq!(forward.serialize().unwrap(), backward.serialize().unwrap());
}

#[test]
fn tree_store_order_independent() {
    let db = Database::new(b"objects".to_vec());
    let mut forward = Tree::new(vec![
        Entry::new(b"a.txt".to_vec(), oid_a()),
        Entry::new(b"b.txt".to_vec(), oid_b()),
    ]);
    let mut backward = Tree::new(vec![
        Entry::new(b"b.txt".to_vec(), oid_b()),
        Entry::new(b"a.txt".to_vec(), oid_a()),
    ]);
    let job1 = db.store(&mut forward).unwrap();
    let job2 = db.store(&mut backward).unwrap();
    assert_eq!(job1.oid, job2.oid);
    assert_eq!(job1.object_path, job2.object_path);
}

#[test]
fn tree_record_framing() {
    let db = Database::new(b"objects".to_vec());
    let mut tree = Tree::new(vec![Entry::new(b"f".to_vec(), oid_a())]);
    let job = db.store(&mut tree).unwrap();
    let record = decompress(&job.compressed);
    let nul = record.iter().position(|&c| c == 0).unwrap();
    let header_text = std::str::from_utf8(&record[..nul]).unwrap();
    let (kind, len_text) = header_text.split_once(' ').unwrap();
    assert_eq!(kind, "tree");
    let payload = &record[nul + 1..];
    assert_eq!(len_text.parse::<usize>().unwrap(), payload.len());
    let mut expected = Vec::new();
    expected.extend_from_slice(b"100644 f\0");
    expected.extend_from_slice(&oid_a());
    assert_eq!(payload, &expected[..]);
}

#[test]
fn blob_serialize_verbatim() {
    let mut blob = Blob::new(b"raw bytes \xff\x00".to_vec());
    let out = blob.serialize().unwrap();
    assert_eq!(out, b"raw bytes \xff\x00".to_vec());
    assert_eq!(blob.data, b"raw bytes \xff\x00".to_vec());
}

#[test]
fn new_objects_have_no_oid() {
    let blob = Blob::new(b"d".to_vec());
    assert!(blob.oid.is_empty());
    let tree = Tree::new(vec![]);
    assert!(tree.oid.is_empty());
    let entry = Entry::new(b"p".to_vec(), b"o".to_vec());
    assert_eq!(entry.name, b"p".to_vec());
    assert_eq!(entry.oid, b"o".to_vec());
}
