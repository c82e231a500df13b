use meow::embedding::{read_embedding, read_reply, EmbeddingError, EmbeddingOutcome, EmbeddingReply};

fn some_bits(v: &[f32]) -> Vec<Option<u32>> {
    v.iter().map(|x| Some(x.to_bits())).collect()
}

#[test]
fn flat_shape_is_read() {
    let reply = EmbeddingReply { flat: Some(some_bits(&[0.5, -1.0])), nested: None };
    assert_eq!(read_reply(&reply), Ok(vec![0.5f32.to_bits(), (-1.0f32).to_bits()]));
}

#[test]
fn nested_shape_is_read() {
    let reply = EmbeddingReply { flat: None, nested: Some(some_bits(&[0.25])) };
    assert_eq!(read_reply(&reply), Ok(vec![0.25f32.to_bits()]));
}

#[test]
fn flat_shape_comes_first() {
    let reply = EmbeddingReply { flat: Some(some_bits(&[1.0])), nested: Some(some_bits(&[2.0])) };
    assert_eq!(read_reply(&reply), Ok(vec![1.0f32.to_bits()]));
    let reply = EmbeddingReply { flat: Some(Vec::new()), nested: Some(some_bits(&[2.0])) };
    assert_eq!(read_reply(&reply), Err(EmbeddingError::Empty));
}

#[test]
fn what_is_no_number_reads_as_zero() {
    let reply = EmbeddingReply {
        flat: Some(vec![Some(1.0f32.to_bits()), None, Some(3.0f32.to_bits())]),
        nested: None,
    };
    assert_eq!(
        read_reply(&reply),
        Ok(vec![1.0f32.to_bits(), 0.0f32.to_bits(), 3.0f32.to_bits()])
    );
}

#[test]
fn empty_vector_is_an_error() {
    let reply = EmbeddingReply { flat: Some(Vec::new()), nested: None };
    assert_eq!(read_reply(&reply), Err(EmbeddingError::Empty));
    let reply = EmbeddingReply { flat: None, nested: Some(Vec::new()) };
    assert_eq!(read_reply(&reply), Err(EmbeddingError::Empty));
}

#[test]
fn neither_shape_is_an_error() {
    let reply = EmbeddingReply { flat: None, nested: None };
    assert_eq!(read_reply(&reply), Err(EmbeddingError::Parse));
}

#[test]
fn failed_calls_have_their_errors() {
    assert_eq!(read_embedding(&EmbeddingOutcome::Unreachable), Err(EmbeddingError::Network));
    assert_eq!(read_embedding(&EmbeddingOutcome::Unreadable), Err(EmbeddingError::Parse));
    let reply = EmbeddingReply { flat: Some(some_bits(&[0.5])), nested: None };
    assert_eq!(read_embedding(&EmbeddingOutcome::Reply(reply)), Ok(vec![0.5f32.to_bits()]));
    let reply = EmbeddingReply { flat: None, nested: None };
    assert_eq!(read_embedding(&EmbeddingOutcome::Reply(reply)), Err(EmbeddingError::Parse));
}
