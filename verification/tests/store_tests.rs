use std::io::Read;

use rgit::blob::Blob;
use rgit::database::{Database, ObjectKind};

fn decompress(bytes: &[u8]) -> Vec<u8> {
    let mut decoder = flate2::read::ZlibDecoder::new(bytes);
    let mut out = Vec::new();
    decoder.read_to_end(&mut out).expect("stored bytes must be a zlib stream");
    out
}

#[test]
fn blob_store_is_deterministic() {
    let db = Database::new(b"objects".to_vec());
    let mut first = Blob::new(b"some file contents\n".to_vec());
    let mut second = Blob::new(b"some file contents\n".to_vec());
    let job1 = db.store(&mut first).unwrap();
    let job2 = db.store(&mut second).unwrap();
    assert_eq!(job1.oid, job2.oid);
    assert_eq!(job1.compressed, job2.compressed);
    assert_eq!(job1.object_path, job2.object_path);
}

#[test]
fn known_vector_hello() {
    let db = Database::new(b"objects".to_vec());
    let mut blob = Blob::new(b"hello\n".to_vec());
    let job = db.store(&mut blob).unwrap();
    assert_eq!(job.record, b"blob 6\0hello\n".to_vec());
    assert_eq!(job.oid, b"ce013625030ba8dba906f756967f9e9ca394464a".to_vec());
    assert_eq!(job.dirname, b"objects/ce".to_vec());
    assert_eq!(
        job.object_path,
        b"objects/ce/013625030ba8dba906f756967f9e9ca394464a".to_vec()
    );
    assert_eq!(decompress(&job.compressed), b"blob 6\0hello\n".to_vec());
}

#[test]
fn idempotent_re_store() {
    let db = Database::new(b"objects".to_vec());
    let mut first = Blob::new(b"twice\n".to_vec());
    let job1 = db.store(&mut first).unwrap();
    let mut second = Blob::new(b"twice\n".to_vec());
    let job2 = db.store(&mut second).unwrap();
    // The second store targets exactly the same final path with exactly the
    // same bytes; only the temporary name may differ.
    assert_eq!(job1.oid, job2.oid);
    assert_eq!(job1.object_path, job2.object_path);
    assert_eq!(job1.compressed, job2.compressed);
    assert_eq!(decompress(&job1.compressed), decompress(&job2.compressed));
}

#[test]
fn temp_name_shape() {
    let db = Database::new(b"o".to_vec());
    let mut blob = Blob::new(b"x".to_vec());
    let job = db.store(&mut blob).unwrap();
    // temp path = "o/" + shard (2) + "/" + name (20)
    let prefix_len = 2 + 2 + 1;
    assert_eq!(job.temp_path.len(), prefix_len + 20);
    let name = &job.temp_path[prefix_len..];
    assert_eq!(&name[..8], b"tmp_obj_");
    for &c in &name[8..] {
        assert!(c.is_ascii_hexdigit() && !c.is_ascii_uppercase());
    }
}

#[test]
fn round_trip_framing_blob() {
    let db = Database::new(b"objects".to_vec());
    let payload = b"any payload \x00 with a NUL in it".to_vec();
    let mut blob = Blob::new(payload.clone());
    let job = db.store(&mut blob).unwrap();
    let record = decompress(&job.compressed);
    let nul = record.iter().position(|&c| c == 0).unwrap();
    let header = &record[..nul];
    let rest = &record[nul + 1..];
    assert_eq!(rest, &payload[..]);
    let header_text = std::str::from_utf8(header).unwrap();
    let (kind, len_text) = header_text.split_once(' ').unwrap();
    assert_eq!(kind, "blob");
    assert_eq!(len_text.parse::<usize>().unwrap(), payload.len());
}

#[test]
fn kind_labels() {
    assert_eq!(ObjectKind::Blob.label(), b"blob".to_vec());
    assert_eq!(ObjectKind::Tree.label(), b"tree".to_vec());
}
