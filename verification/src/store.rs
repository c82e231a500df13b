//! What the vector store keeps of a file, and how a vector is laid out in
//! the bytes of a stored row.
//!
//! A vector is held as the bit patterns of its components. In a row it is
//! the number of components as eight bytes, then each component as four
//! bytes, all with the least significant byte first.

use vstd::prelude::*;

verus! {

/// Why a record could not be written or read.
#[derive(Clone, Copy, Debug, PartialEq, Eq, Structural)]
pub enum StorageError {
    /// A vector could not be turned into bytes.
    Serialization,
    /// The bytes of a stored row are not those of a vector.
    Deserialization,
    /// The store itself could not be read or written.
    Io,
}

/// What is known of one indexed file: where it is, the vector of its
/// description, and when it was last modified, in seconds since the epoch.
pub struct EmbeddingRecord {
    pub path: String,
    pub vector: Vec<u32>,
    pub modified: i64,
}

/// A record as the store holds it: the vector as bytes.
pub struct StoredRow {
    pub path: String,
    pub blob: Vec<u8>,
    pub modified: i64,
}

/// A path with its vector, as a full scan of the store returns them.
pub struct StoredVector {
    pub path: String,
    pub vector: Vec<u32>,
}

/// `bincode::ErrorKind`, the error of the serializer. It is carried through
/// and never read.
#[verifier::external_type_specification]
#[verifier::external_body]
pub struct ExBincodeErrorKind(bincode::ErrorKind);

/// The four bytes of a component, least significant first.
pub open spec fn word_bytes(x: u32) -> Seq<u8> {
    seq![
        (x % 256) as u8,
        (x / 0x100 % 256) as u8,
        (x / 0x1_0000 % 256) as u8,
        (x / 0x100_0000) as u8,
    ]
}

/// The component that four bytes stand for.
pub open spec fn word_of(b: Seq<u8>) -> u32 {
    (b[0] + 0x100 * b[1] + 0x1_0000 * b[2] + 0x100_0000 * b[3]) as u32
}

/// The eight bytes of a length, least significant first.
pub open spec fn length_bytes(n: nat) -> Seq<u8> {
    seq![
        (n % 256) as u8,
        (n / 0x100 % 256) as u8,
        (n / 0x1_0000 % 256) as u8,
        (n / 0x100_0000 % 256) as u8,
        (n / 0x1_0000_0000 % 256) as u8,
        (n / 0x100_0000_0000 % 256) as u8,
        (n / 0x1_0000_0000_0000 % 256) as u8,
        (n / 0x100_0000_0000_0000 % 256) as u8,
    ]
}

/// The length that the first eight bytes stand for.
pub open spec fn length_of(b: Seq<u8>) -> nat {
    (b[0] + 0x100 * b[1] + 0x1_0000 * b[2] + 0x100_0000 * b[3] + 0x1_0000_0000 * b[4]
        + 0x100_0000_0000 * b[5] + 0x1_0000_0000_0000 * b[6] + 0x100_0000_0000_0000 * b[7]) as nat
}

/// The bytes of a vector: its length, then its components.
pub open spec fn encoding(v: Seq<u32>) -> Seq<u8> {
    Seq::new(
        8 + 4 * v.len(),
        |i: int|
            if i < 8 {
                length_bytes(v.len())[i]
            } else {
                word_bytes(v[(i - 8) / 4])[(i - 8) % 4]
            },
    )
}

/// Whether the bytes begin with a length and hold at least as many
/// components as it says. Bytes behind the last component are allowed.
pub open spec fn is_framed(bytes: Seq<u8>) -> bool {
    bytes.len() >= 8 && 8 + 4 * length_of(bytes) <= bytes.len()
}

/// The vector that the bytes hold, where they hold one.
pub open spec fn decoded(bytes: Seq<u8>) -> Option<Seq<u32>> {
    if is_framed(bytes) {
        Some(Seq::new(length_of(bytes), |i: int| word_of(bytes.subrange(8 + 4 * i, 12 + 4 * i))))
    } else {
        None
    }
}

/// `bincode::serialize` on a vector of 32-bit words: with the fixed-width,
/// little-endian layout that this function uses, the bytes it returns are the
/// length as eight bytes followed by four bytes for each word. It sets no
/// size limit and writes into a vector, so it does not fail.
#[verifier::external_body]
fn serialize_words(words: &Vec<u32>) -> (r: Result<Vec<u8>, bincode::Error>)
    ensures
        r is Ok,
        r matches Ok(bytes) ==> bytes@ == encoding(words@),
{
    bincode::serialize(words)
}

/// `bincode::deserialize` to a vector of 32-bit words: it reads a length of
/// eight bytes and then that many words of four bytes, fails where the bytes
/// end before that, and leaves bytes behind the last word unread.
#[verifier::external_body]
fn deserialize_words(bytes: &Vec<u8>) -> (r: Result<Vec<u32>, bincode::Error>)
    ensures
        match r {
            Ok(words) => decoded(bytes@) == Some(words@),
            Err(_) => decoded(bytes@) is None,
        },
{
    bincode::deserialize(bytes.as_slice())
}

/// What becomes of the serializer's outcome: its bytes, or the error of the
/// store for any failure.
pub fn blob_from(outcome: Result<Vec<u8>, bincode::Error>) -> (r: Result<Vec<u8>, StorageError>)
    ensures
        match outcome {
            Ok(bytes) => r == Ok::<Vec<u8>, StorageError>(bytes),
            Err(_) => r == Err::<Vec<u8>, StorageError>(StorageError::Serialization),
        },
{
    match outcome {
        Ok(bytes) => Ok(bytes),
        Err(_) => Err(StorageError::Serialization),
    }
}

/// The bytes under which a vector is stored. There are such bytes for every
/// vector.
pub fn encode_vector(vector: &Vec<u32>) -> (r: Result<Vec<u8>, StorageError>)
    ensures
        r is Ok,
        r matches Ok(bytes) ==> bytes@ == encoding(vector@),
{
    blob_from(serialize_words(vector))
}

/// The vector that stored bytes hold; an error where they hold none.
pub fn decode_vector(blob: &Vec<u8>) -> (r: Result<Vec<u32>, StorageError>)
    ensures
        match r {
            Ok(vector) => decoded(blob@) == Some(vector@),
            Err(e) => decoded(blob@) is None && e == StorageError::Deserialization,
        },
{
    match deserialize_words(blob) {
        Ok(vector) => Ok(vector),
        Err(_) => Err(StorageError::Deserialization),
    }
}

/// The row under which a record is stored: its path and time as they are,
/// its vector as bytes. There is such a row for every record.
pub fn to_row(record: &EmbeddingRecord) -> (r: Result<StoredRow, StorageError>)
    ensures
        r is Ok,
        r matches Ok(row) ==> row.path == record.path && row.modified == record.modified
            && row.blob@ == encoding(record.vector@),
{
    match encode_vector(&record.vector) {
        Ok(blob) => Ok(StoredRow { path: record.path.clone(), blob, modified: record.modified }),
        Err(e) => Err(e),
    }
}

/// Whether every row holds a vector.
pub open spec fn all_decodable(rows: Seq<(String, Vec<u8>)>) -> bool {
    forall|i: int| 0 <= i < rows.len() ==> decoded(#[trigger] rows[i].1@) is Some
}

/// The result of a full scan, from the rows as the store returned them: each
/// row's path with its vector, in the order of the rows. One row that holds
/// no vector fails the whole scan.
pub fn decode_rows(rows: &Vec<(String, Vec<u8>)>) -> (r: Result<Vec<StoredVector>, StorageError>)
    ensures
        match r {
            Ok(vectors) => {
                &&& all_decodable(rows@)
                &&& vectors@.len() == rows@.len()
                &&& forall|i: int|
                    0 <= i < rows@.len() ==> (#[trigger] vectors@[i]).path == rows@[i].0 && Some(
                        vectors@[i].vector@,
                    ) == decoded(rows@[i].1@)
            },
            Err(e) => !all_decodable(rows@) && e == StorageError::Deserialization,
        },
{
    let mut out: Vec<StoredVector> = Vec::new();
    let mut i: usize = 0;
    while i < rows.len()
        invariant
            i <= rows.len(),
            out@.len() == i,
            forall|k: int| 0 <= k < i ==> decoded(#[trigger] rows@[k].1@) is Some,
            forall|k: int|
                0 <= k < i ==> (#[trigger] out@[k]).path == rows@[k].0 && Some(out@[k].vector@)
                    == decoded(rows@[k].1@),
        decreases rows.len() - i,
    {
        match decode_vector(&rows[i].1) {
            Ok(vector) => {
                out.push(StoredVector { path: rows[i].0.clone(), vector });
            },
            Err(e) => {
                assert(decoded(rows@[i as int].1@) is None);
                return Err(e);
            },
        }
        i += 1;
    }
    Ok(out)
}

/// Four bytes made of a component stand for that component.
pub proof fn lemma_word_round_trip(x: u32)
    ensures
        word_of(word_bytes(x)) == x,
{
    let b = word_bytes(x);
    let q1 = x as int / 0x100;
    let q2 = q1 / 0x100;
    let q3 = q2 / 0x100;
    assert(x as int / 0x1_0000 == q2);
    assert(x as int / 0x100_0000 == q3);
    assert(b[0] == x as int % 256);
    assert(b[1] == q1 % 256);
    assert(b[2] == q2 % 256);
    assert(b[3] == q3);
}

/// Eight bytes made of a length stand for that length.
pub proof fn lemma_length_round_trip(n: nat)
    requires
        n <= u64::MAX,
    ensures
        length_of(length_bytes(n)) == n,
{
    let b = length_bytes(n);
    let q1 = n as int / 0x100;
    let q2 = q1 / 0x100;
    let q3 = q2 / 0x100;
    let q4 = q3 / 0x100;
    let q5 = q4 / 0x100;
    let q6 = q5 / 0x100;
    let q7 = q6 / 0x100;
    assert(n as int / 0x1_0000 == q2);
    assert(n as int / 0x100_0000 == q3);
    assert(n as int / 0x1_0000_0000 == q4);
    assert(n as int / 0x100_0000_0000 == q5);
    assert(n as int / 0x1_0000_0000_0000 == q6);
    assert(n as int / 0x100_0000_0000_0000 == q7);
    assert(q7 < 256);
    assert(b[0] == n as int % 256);
    assert(b[1] == q1 % 256);
    assert(b[2] == q2 % 256);
    assert(b[3] == q3 % 256);
    assert(b[4] == q4 % 256);
    assert(b[5] == q5 % 256);
    assert(b[6] == q6 % 256);
    assert(b[7] == q7);
}

/// A vector that was turned into bytes is read back from them as it was:
/// every component, in order, bit for bit.
pub proof fn lemma_round_trip(v: Seq<u32>)
    requires
        v.len() <= usize::MAX,
    ensures
        decoded(encoding(v)) == Some(v),
{
    let bytes = encoding(v);
    let n = v.len();
    assert(bytes.subrange(0, 8) =~= length_bytes(n));
    lemma_length_round_trip(n);
    assert(length_of(bytes) == length_of(bytes.subrange(0, 8)));
    assert(is_framed(bytes));
    let back = decoded(bytes).unwrap();
    assert forall|i: int| 0 <= i < n implies back[i] == v[i] by {
        let w = bytes.subrange(8 + 4 * i, 12 + 4 * i);
        assert forall|k: int| 0 <= k < 4 implies w[k] == word_bytes(v[i])[k] by {
            assert((4 * i + k) / 4 == i && (4 * i + k) % 4 == k);
            assert(w[k] == bytes[8 + 4 * i + k]);
        }
        assert(w =~= word_bytes(v[i]));
        lemma_word_round_trip(v[i]);
    }
    assert(back =~= v);
}

/// Bytes that follow a stored vector do not change what is read from it.
pub proof fn lemma_trailing_bytes_ignored(v: Seq<u32>, tail: Seq<u8>)
    requires
        v.len() <= usize::MAX,
    ensures
        decoded(encoding(v) + tail) == Some(v),
{
    lemma_round_trip(v);
    let bytes = encoding(v);
    let more = bytes + tail;
    assert(more.subrange(0, 8) =~= bytes.subrange(0, 8));
    assert(length_of(more) == length_of(bytes)) by {
        assert(more[0] == bytes[0]);
        assert(more[1] == bytes[1]);
        assert(more[2] == bytes[2]);
        assert(more[3] == bytes[3]);
        assert(more[4] == bytes[4]);
        assert(more[5] == bytes[5]);
        assert(more[6] == bytes[6]);
        assert(more[7] == bytes[7]);
    }
    let a = decoded(more).unwrap();
    let b = decoded(bytes).unwrap();
    assert forall|i: int| 0 <= i < v.len() implies a[i] == b[i] by {
        assert(more.subrange(8 + 4 * i, 12 + 4 * i) =~= bytes.subrange(8 + 4 * i, 12 + 4 * i));
    }
    assert(a =~= b);
}

} // verus!
