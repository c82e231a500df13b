//! What is made of the embedding backend's answer.
//!
//! The backend answers in one of two shapes: the vector directly under one
//! key, or a list of objects of which the first holds the vector. Both are
//! read into the same vector of bit patterns.

use vstd::prelude::*;

verus! {

/// Why no embedding was had.
#[derive(Clone, Copy, Debug, PartialEq, Eq, Structural)]
pub enum EmbeddingError {
    /// The call to the backend failed.
    Network,
    /// The answer holds a vector in neither shape.
    Parse,
    /// The answer holds a vector without components.
    Empty,
}

/// The vectors found in an answer. A component that is no number is absent.
pub struct EmbeddingReply {
    /// The vector directly under its key, where the answer has that shape.
    pub flat: Option<Vec<Option<u32>>>,
    /// The vector of the first object of the list, where the answer has
    /// that shape.
    pub nested: Option<Vec<Option<u32>>>,
}

/// How a call to the backend ended.
pub enum EmbeddingOutcome {
    /// No answer came.
    Unreachable,
    /// An answer came that could not be read.
    Unreadable,
    /// An answer came and was read.
    Reply(EmbeddingReply),
}

/// The component read from one element: its bits, or plus zero for an
/// element that is no number.
pub open spec fn component(x: Option<u32>) -> u32 {
    match x {
        Some(bits) => bits,
        None => 0,
    }
}

/// The components read from the elements, in order.
pub open spec fn components(v: Seq<Option<u32>>) -> Seq<u32> {
    v.map_values(|x: Option<u32>| component(x))
}

/// The vector that an answer is read from: the flat one where there is one,
/// else the nested one.
pub open spec fn chosen(reply: EmbeddingReply) -> Option<Seq<Option<u32>>> {
    match reply.flat {
        Some(v) => Some(v@),
        None => match reply.nested {
            Some(v) => Some(v@),
            None => None,
        },
    }
}

/// The embedding that an answer gives, or why it gives none.
pub open spec fn embedding_of(reply: EmbeddingReply) -> Result<Seq<u32>, EmbeddingError> {
    match chosen(reply) {
        Some(v) => if v.len() == 0 {
            Err(EmbeddingError::Empty)
        } else {
            Ok(components(v))
        },
        None => Err(EmbeddingError::Parse),
    }
}

/// The embedding that a call gives, or why it gives none.
pub open spec fn embedding_from(outcome: EmbeddingOutcome) -> Result<Seq<u32>, EmbeddingError> {
    match outcome {
        EmbeddingOutcome::Unreachable => Err(EmbeddingError::Network),
        EmbeddingOutcome::Unreadable => Err(EmbeddingError::Parse),
        EmbeddingOutcome::Reply(reply) => embedding_of(reply),
    }
}

/// Whether an exec result holds what a spec result says.
pub open spec fn same_embedding(
    r: Result<Vec<u32>, EmbeddingError>,
    expected: Result<Seq<u32>, EmbeddingError>,
) -> bool {
    match (r, expected) {
        (Ok(v), Ok(s)) => v@ == s,
        (Err(e), Err(f)) => e == f,
        _ => false,
    }
}

fn read_components(v: &Vec<Option<u32>>) -> (r: Vec<u32>)
    ensures
        r@ == components(v@),
{
    let mut r: Vec<u32> = Vec::new();
    let mut i: usize = 0;
    while i < v.len()
        invariant
            i <= v.len(),
            r@ == components(v@).take(i as int),
        decreases v.len() - i,
    {
        let bits: u32 = match v[i] {
            Some(bits) => bits,
            None => 0,
        };
        r.push(bits);
        assert(components(v@).take(i as int).push(bits) =~= components(v@).take(i + 1));
        i += 1;
    }
    assert(components(v@).take(v.len() as int) =~= components(v@));
    r
}

fn read_vector(v: &Vec<Option<u32>>) -> (r: Result<Vec<u32>, EmbeddingError>)
    ensures
        same_embedding(
            r,
            if v@.len() == 0 {
                Err(EmbeddingError::Empty)
            } else {
                Ok(components(v@))
            },
        ),
{
    if v.len() == 0 {
        Err(EmbeddingError::Empty)
    } else {
        Ok(read_components(v))
    }
}

/// Reads the embedding from an answer: the vector in the shape that the
/// answer has, an element that is no number read as zero. An answer in
/// neither shape, or with an empty vector, gives none.
pub fn read_reply(reply: &EmbeddingReply) -> (r: Result<Vec<u32>, EmbeddingError>)
    ensures
        same_embedding(r, embedding_of(*reply)),
{
    match &reply.flat {
        Some(v) => read_vector(v),
        None => match &reply.nested {
            Some(v) => read_vector(v),
            None => Err(EmbeddingError::Parse),
        },
    }
}

/// The embedding that a call to the backend gave, or the error for the way
/// in which it failed.
pub fn read_embedding(outcome: &EmbeddingOutcome) -> (r: Result<Vec<u32>, EmbeddingError>)
    ensures
        same_embedding(r, embedding_from(*outcome)),
{
    match outcome {
        EmbeddingOutcome::Unreachable => Err(EmbeddingError::Network),
        EmbeddingOutcome::Unreadable => Err(EmbeddingError::Parse),
        EmbeddingOutcome::Reply(reply) => read_reply(reply),
    }
}

/// An embedding that was had is never empty.
pub proof fn lemma_embedding_not_empty(outcome: EmbeddingOutcome)
    ensures
        embedding_from(outcome) matches Ok(v) ==> v.len() > 0,
{
}

} // verus!
