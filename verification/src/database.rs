//! The object database write path: canonical record framing, content
//! hashing and identifier derivation, compression, and the sharded paths
//! under which an object is persisted.
//!
//! The database itself never touches the file system. [`Database::store`]
//! computes everything that is a pure function of the object and the store
//! root — the canonical record, the identifier, the compressed bytes and the
//! target paths — and hands them back as a [`WriteJob`]. An unverified shell
//! carries the job out by driving the write protocol of [`crate::protocol`].
use vstd::prelude::*;

use crate::codec::{dec_rep, dec_val, lemma_dec_rep_digits, lemma_dec_val_of_rep, push_all, push_decimal};

verus! {

/// The closed set of storable object kinds.
#[derive(Clone, Copy, PartialEq, Eq, Structural, Debug)]
pub enum ObjectKind {
    Blob,
    Tree,
}

/// The lowercase tag under which a kind appears in the on-disk header:
/// `"blob"` or `"tree"`.
pub open spec fn kind_label(k: ObjectKind) -> Seq<u8> {
    match k {
        ObjectKind::Blob => seq![98u8, 108u8, 111u8, 98u8],
        ObjectKind::Tree => seq![116u8, 114u8, 101u8, 101u8],
    }
}

impl ObjectKind {
    /// The kind's lowercase header tag as bytes.
    pub fn label(&self) -> (r: Vec<u8>)
        ensures
            r@ == kind_label(*self),
    {
        match self {
            ObjectKind::Blob => {
                let mut v: Vec<u8> = Vec::new();
                v.push(98);
                v.push(108);
                v.push(111);
                v.push(98);
                assert(v@ =~= kind_label(ObjectKind::Blob));
                v
            },
            ObjectKind::Tree => {
                let mut v: Vec<u8> = Vec::new();
                v.push(116);
                v.push(114);
                v.push(101);
                v.push(101);
                assert(v@ =~= kind_label(ObjectKind::Tree));
                v
            },
        }
    }
}

/// An error of the database boundary: either the object could not produce
/// its canonical byte encoding, or a step of the persistence protocol
/// failed.
#[derive(Clone, Copy, PartialEq, Eq, Structural, Debug)]
pub enum DbError {
    SerializeError,
    IoError,
}

/// The storable-object capability: report a kind, and produce the canonical
/// byte encoding, or fail. The error type is the implementer's own; for the
/// kinds of this crate encoding cannot fail, and the channel exists for
/// future kinds that might.
pub trait Store<E>: Sized {
    /// The kind this object reports.
    spec fn obj_kind(&self) -> ObjectKind;

    /// The canonical byte encoding, as a pure function of the object's
    /// state.
    spec fn encoding(&self) -> Seq<u8>;

    /// Whether this object can produce its encoding. For the kinds of this
    /// crate it always can.
    spec fn can_serialize(&self) -> bool;

    fn otype(&self) -> (k: ObjectKind)
        ensures
            k == self.obj_kind(),
    ;

    fn serialize(&mut self) -> (r: Result<Vec<u8>, E>)
        ensures
            final(self).obj_kind() == old(self).obj_kind(),
            final(self).encoding() == old(self).encoding(),
            final(self).can_serialize() == old(self).can_serialize(),
            r is Ok == old(self).can_serialize(),
            r matches Ok(v) ==> v@ == old(self).encoding(),
    ;
}

/// The canonical on-disk record of an object: the ASCII header
/// `"<kind> <payload length>\0"` followed by the payload bytes. The content
/// identifier is the digest of this whole record.
pub open spec fn record_of(k: ObjectKind, payload: Seq<u8>) -> Seq<u8> {
    kind_label(k) + seq![32u8] + dec_rep(payload.len()) + seq![0u8] + payload
}

/// Builds the canonical record for a payload of the given kind.
pub fn encode_record(kind: ObjectKind, payload: &Vec<u8>) -> (r: Vec<u8>)
    ensures
        r@ == record_of(kind, payload@),
{
    let mut r = kind.label();
    r.push(32);
    push_decimal(payload.len() as u64, &mut r);
    r.push(0);
    let mut i: usize = 0;
    while i < payload.len()
        invariant
            i <= payload.len(),
            r@ == kind_label(kind) + seq![32u8] + dec_rep(payload@.len()) + seq![0u8]
                + payload@.take(i as int),
        decreases payload.len() - i,
    {
        r.push(payload[i]);
        assert(payload@.take(i + 1) =~= payload@.take(i as int).push(payload@[i as int]));
        i = i + 1;
    }
    assert(payload@.take(payload@.len() as int) =~= payload@);
    r
}

/// The digest, as 40 lowercase hexadecimal characters, that names a record.
/// What the digest of given bytes is can only be computed, not stated here;
/// it is a function of the record alone.
pub uninterp spec fn sha1_hex_of(bytes: Seq<u8>) -> Seq<u8>;

/// Whether `c` is a lowercase hexadecimal character.
pub open spec fn is_hex_char(c: u8) -> bool {
    (48 <= c <= 57) || (97 <= c <= 102)
}

/// Relies on rust-crypto's `Sha1` through `Digest::input` and
/// `Digest::result_str`: the digest depends on the input bytes alone, and
/// `result_str` renders the 160-bit result as 40 lowercase hexadecimal
/// characters.
#[verifier::external_body]
fn sha1_hex(content: &Vec<u8>) -> (r: Vec<u8>)
    ensures
        r@ == sha1_hex_of(content@),
        r@.len() == 40,
        forall|i: int| 0 <= i < r@.len() ==> is_hex_char(#[trigger] r@[i]),
{
    let mut hasher = crypto::sha1::Sha1::new();
    crypto::digest::Digest::input(&mut hasher, content.as_slice());
    crypto::digest::Digest::result_str(&mut hasher).into_bytes()
}

/// The zlib stream that flate2 produces for these bytes at the fast
/// compression level; a function of the input alone, since the level is
/// fixed.
pub uninterp spec fn zlib_deflate_of(bytes: Seq<u8>) -> Seq<u8>;

/// Relies on flate2's `write::ZlibEncoder` at `Compression::fast`, through
/// `Write::write_all` and `ZlibEncoder::finish`: the sink holds the
/// compressed form of exactly the bytes written. With a `Vec` sink the
/// underlying writes cannot fail and deflation with fixed valid parameters
/// reports no corrupt stream, so the call always succeeds.
#[verifier::external_body]
fn zlib_compress_fast(content: &Vec<u8>) -> (r: Option<Vec<u8>>)
    ensures
        r is Some,
        r matches Some(v) ==> v@ == zlib_deflate_of(content@),
{
    let mut enc = flate2::write::ZlibEncoder::new(Vec::new(), flate2::Compression::fast());
    match std::io::Write::write_all(&mut enc, content.as_slice()) {
        Ok(()) => {},
        Err(_) => {
            return None;
        },
    }
    match enc.finish() {
        Ok(v) => Some(v),
        Err(_) => None,
    }
}

/// Relies on rand's `thread_rng` and `Rng::gen`: six bytes drawn from the
/// thread-local generator. Nothing is assumed of their values.
#[verifier::external_body]
fn random_bytes() -> (r: Vec<u8>)
    ensures
        r@.len() == 6,
{
    let a: [u8; 6] = rand::Rng::gen(&mut rand::thread_rng());
    a.to_vec()
}

/// The fixed prefix of every temporary object name: `"tmp_obj_"`.
pub open spec fn temp_prefix() -> Seq<u8> {
    seq![116u8, 109u8, 112u8, 95u8, 111u8, 98u8, 106u8, 95u8]
}

/// A well-formed temporary file name: the fixed prefix followed by twelve
/// hexadecimal characters. Such a name can never collide with a final
/// object file name, which is 38 characters long.
pub open spec fn is_temp_name(s: Seq<u8>) -> bool {
    &&& s.len() == 20
    &&& s.take(8) == temp_prefix()
    &&& forall|i: int| 8 <= i < 20 ==> is_hex_char(#[trigger] s[i])
}

/// Appends the two lowercase hexadecimal characters of `b` to `out`.
fn push_hex_byte(b: u8, out: &mut Vec<u8>)
    ensures
        final(out)@.len() == old(out)@.len() + 2,
        final(out)@.take(old(out)@.len() as int) == old(out)@,
        is_hex_char(final(out)@[old(out)@.len() as int]),
        is_hex_char(final(out)@[old(out)@.len() as int + 1]),
{
    let hi = b / 16;
    let lo = b % 16;
    let c1 = if hi < 10 { 48 + hi } else { 87 + hi };
    let c2 = if lo < 10 { 48 + lo } else { 87 + lo };
    out.push(c1);
    out.push(c2);
    assert(out@.take(old(out)@.len() as int) =~= old(out)@);
}

/// Draws a fresh temporary object name: the fixed prefix followed by the
/// hexadecimal rendering of six random bytes.
pub fn generate_temp_name() -> (r: Vec<u8>)
    ensures
        is_temp_name(r@),
{
    let rnd = random_bytes();
    let mut name: Vec<u8> = Vec::new();
    name.push(116);
    name.push(109);
    name.push(112);
    name.push(95);
    name.push(111);
    name.push(98);
    name.push(106);
    name.push(95);
    assert(name@ =~= temp_prefix());
    let mut i: usize = 0;
    while i < 6
        invariant
            i <= 6,
            rnd@.len() == 6,
            name@.len() == 8 + 2 * i,
            name@.take(8) == temp_prefix(),
            forall|j: int| 8 <= j < name@.len() ==> is_hex_char(#[trigger] name@[j]),
        decreases 6 - i,
    {
        let ghost prev = name@;
        push_hex_byte(rnd[i], &mut name);
        proof {
            assert forall|j: int| 0 <= j < prev.len() implies name@[j] == prev[j] by {
                assert(name@.take(prev.len() as int)[j] == name@[j]);
            }
            assert forall|j: int| 8 <= j < name@.len() implies is_hex_char(name@[j]) by {
                if j < prev.len() {
                    assert(is_hex_char(prev[j]));
                } else if j == prev.len() {
                    assert(is_hex_char(name@[prev.len() as int]));
                } else {
                    assert(j == prev.len() + 1);
                    assert(is_hex_char(name@[prev.len() as int + 1]));
                }
            }
            assert(name@.take(8) =~= prev.take(8));
        }
        i = i + 1;
    }
    assert(name@.take(8) == temp_prefix());
    name
}

/// The shard directory of an identifier under a store root: the root, a
/// separator, and the identifier's first two characters.
pub open spec fn shard_dir_of(root: Seq<u8>, oid: Seq<u8>) -> Seq<u8> {
    root + seq![47u8] + oid.take(2)
}

/// The final path of an object: its shard directory, a separator, and the
/// identifier's remaining characters.
pub open spec fn object_path_of(root: Seq<u8>, oid: Seq<u8>) -> Seq<u8> {
    shard_dir_of(root, oid) + seq![47u8] + oid.skip(2)
}

/// The path of a temporary file inside an object's shard directory.
pub open spec fn temp_path_of(root: Seq<u8>, oid: Seq<u8>, name: Seq<u8>) -> Seq<u8> {
    shard_dir_of(root, oid) + seq![47u8] + name
}

/// Everything the unverified shell needs to persist one object: the
/// identifier, the canonical record, its compressed form, and the three
/// paths of the write-temp-then-rename protocol.
pub struct WriteJob {
    pub oid: Vec<u8>,
    pub record: Vec<u8>,
    pub compressed: Vec<u8>,
    pub dirname: Vec<u8>,
    pub object_path: Vec<u8>,
    pub temp_path: Vec<u8>,
}

/// The write job that a store of a `kind` object with canonical encoding
/// `payload` under `root` must produce, up to the temporary name drawn.
pub open spec fn job_for(
    job: WriteJob,
    root: Seq<u8>,
    kind: ObjectKind,
    payload: Seq<u8>,
    temp_name: Seq<u8>,
) -> bool {
    &&& job.oid@ == sha1_hex_of(record_of(kind, payload))
    &&& job.oid@.len() == 40
    &&& forall|i: int| 0 <= i < 40 ==> is_hex_char(#[trigger] job.oid@[i])
    &&& job.record@ == record_of(kind, payload)
    &&& job.compressed@ == zlib_deflate_of(record_of(kind, payload))
    &&& job.dirname@ == shard_dir_of(root, job.oid@)
    &&& job.object_path@ == object_path_of(root, job.oid@)
    &&& job.temp_path@ == temp_path_of(root, job.oid@, temp_name)
    &&& is_temp_name(temp_name)
}

/// The object database: knows the store root and turns storable objects
/// into write jobs keyed by their content identifier.
pub struct Database {
    pub path: Vec<u8>,
}

impl Database {
    pub fn new(path: Vec<u8>) -> (db: Database)
        ensures
            db.path@ == path@,
    {
        Database { path }
    }

    /// Splits an identifier into the object's final path, its shard
    /// directory, and a temporary path inside that directory.
    pub fn destructure(&self, oid: &Vec<u8>, temp_name: &Vec<u8>) -> (r: (Vec<u8>, Vec<u8>, Vec<u8>))
        requires
            oid@.len() > 2,
        ensures
            r.0@ == object_path_of(self.path@, oid@),
            r.1@ == shard_dir_of(self.path@, oid@),
            r.2@ == temp_path_of(self.path@, oid@, temp_name@),
    {
        let mut dirname: Vec<u8> = Vec::new();
        push_all(&self.path, &mut dirname);
        dirname.push(47);
        dirname.push(oid[0]);
        dirname.push(oid[1]);
        assert(dirname@ =~= shard_dir_of(self.path@, oid@));

        let mut object_path: Vec<u8> = Vec::new();
        push_all(&dirname, &mut object_path);
        object_path.push(47);
        let mut i: usize = 2;
        while i < oid.len()
            invariant
                2 <= i <= oid@.len(),
                object_path@ == shard_dir_of(self.path@, oid@) + seq![47u8] + oid@.subrange(
                    2,
                    i as int,
                ),
            decreases oid.len() - i,
        {
            object_path.push(oid[i]);
            assert(object_path@ =~= shard_dir_of(self.path@, oid@) + seq![47u8] + oid@.subrange(
                2,
                i + 1,
            ));
            i = i + 1;
        }
        assert(oid@.subrange(2, oid@.len() as int) =~= oid@.skip(2));

        let mut temp_path: Vec<u8> = Vec::new();
        push_all(&dirname, &mut temp_path);
        temp_path.push(47);
        push_all(temp_name, &mut temp_path);
        assert(temp_path@ =~= temp_path_of(self.path@, oid@, temp_name@));

        (object_path, dirname, temp_path)
    }

    /// Computes the write job for one object under a caller-chosen
    /// temporary name: the canonical record, its digest (the identifier),
    /// its compressed form, and the sharded target paths.
    ///
    /// Succeeds exactly when the object can produce its encoding — for the
    /// object kinds of this crate, always — and then the job is the unique
    /// one determined by the store root, the object's kind and its
    /// encoding. The only error is `SerializeError`.
    pub fn store_named<T, E>(&self, object: &mut T, temp_name: &Vec<u8>) -> (r: Result<
        WriteJob,
        DbError,
    >) where T: Store<E>
        requires
            is_temp_name(temp_name@),
        ensures
            final(object).obj_kind() == old(object).obj_kind(),
            final(object).encoding() == old(object).encoding(),
            final(object).can_serialize() == old(object).can_serialize(),
            r matches Ok(job) ==> job_for(
                job,
                self.path@,
                old(object).obj_kind(),
                old(object).encoding(),
                temp_name@,
            ),
            r is Ok <==> old(object).can_serialize(),
            r matches Err(e) ==> e == DbError::SerializeError,
    {
        let otype = object.otype();
        let data = match object.serialize() {
            Ok(d) => d,
            Err(_) => {
                return Err(DbError::SerializeError);
            },
        };
        let record = encode_record(otype, &data);
        let oid = sha1_hex(&record);
        let compressed = match zlib_compress_fast(&record) {
            Some(c) => c,
            // The compressor's contract rules this arm out; it only
            // completes the match.
            None => {
                return Err(DbError::SerializeError);
            },
        };
        let (object_path, dirname, temp_path) = self.destructure(&oid, temp_name);
        Ok(WriteJob { oid, record, compressed, dirname, object_path, temp_path })
    }

    /// Computes the write job for one object, drawing a fresh random
    /// temporary name. Succeeds exactly when the object can produce its
    /// encoding — for the object kinds of this crate, always. Apart from
    /// the temporary name the job is a pure function of the store root,
    /// the object's kind and its encoding.
    pub fn store<T, E>(&self, object: &mut T) -> (r: Result<WriteJob, DbError>) where T: Store<E>
        ensures
            final(object).obj_kind() == old(object).obj_kind(),
            final(object).encoding() == old(object).encoding(),
            final(object).can_serialize() == old(object).can_serialize(),
            r matches Ok(job) ==> exists|name: Seq<u8>|
                job_for(job, self.path@, old(object).obj_kind(), old(object).encoding(), name),
            r is Ok <==> old(object).can_serialize(),
            r matches Err(e) ==> e == DbError::SerializeError,
    {
        let temp_name = generate_temp_name();
        self.store_named(object, &temp_name)
    }
}


/// Round-trip framing: in a canonical record, the first NUL byte closes
/// the header; everything after it is exactly the payload, and the decimal
/// length field between the space and the NUL denotes exactly the
/// payload's byte length. Stripping the header therefore recovers the
/// payload.
pub proof fn lemma_record_framing(k: ObjectKind, payload: Seq<u8>)
    ensures
        ({
            let r = record_of(k, payload);
            let h = kind_label(k).len() + 1 + dec_rep(payload.len()).len() + 1;
            &&& r.len() == h + payload.len()
            &&& r[h - 1] == 0
            &&& forall|i: int| 0 <= i < h - 1 ==> r[i] != 0
            &&& r.skip(h as int) == payload
            &&& dec_val(r.subrange(kind_label(k).len() as int + 1, h - 1)) == payload.len()
        }),
{
    let r = record_of(k, payload);
    let label = kind_label(k);
    let digits = dec_rep(payload.len());
    let h = label.len() + 1 + digits.len() + 1;
    lemma_dec_rep_digits(payload.len());
    lemma_dec_val_of_rep(payload.len());
    assert(r.len() == h + payload.len());
    assert(r[h - 1] == 0);
    assert forall|i: int| 0 <= i < h - 1 implies r[i] != 0 by {
        if i < label.len() {
            assert(r[i] == label[i]);
        } else if i == label.len() {
            assert(r[i] == 32);
        } else {
            assert(r[i] == digits[i - label.len() - 1]);
            assert(48 <= digits[i - label.len() - 1] <= 57);
        }
    }
    assert(r.skip(h as int) =~= payload);
    assert(r.subrange(label.len() as int + 1, h - 1) =~= digits);
}

/// Determinism of content addressing: objects of the same kind and the same
/// canonical encoding are always assigned the same identifier, whoever
/// stores them and however often.
pub proof fn lemma_store_deterministic(
    job1: WriteJob,
    job2: WriteJob,
    root: Seq<u8>,
    kind: ObjectKind,
    payload: Seq<u8>,
    name1: Seq<u8>,
    name2: Seq<u8>,
)
    requires
        job_for(job1, root, kind, payload, name1),
        job_for(job2, root, kind, payload, name2),
    ensures
        job1.oid@ == job2.oid@,
        job1.compressed@ == job2.compressed@,
        job1.object_path@ == job2.object_path@,
{
}

} // verus!
