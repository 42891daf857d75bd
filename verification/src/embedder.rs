use vstd::prelude::*;
use crate::models::{Embedding, EmbeddingModel};

verus! {

/// Inputs are sent to the embedding backend in batches of this size.
pub const BATCH_SIZE: usize = 32;

/// Within a batch, at most this many requests are in flight at once.
pub const MAX_IN_FLIGHT: usize = 8;

/// A text to embed, with the identity under which its vector is stored.
#[derive(Clone)]
pub struct EmbeddingInput {
    pub id: String,
    pub path: String,
    pub text: String,
}

/// What an input is, mathematically.
pub struct InputModel {
    pub id: Seq<char>,
    pub path: Seq<char>,
    pub text: Seq<char>,
}

impl View for EmbeddingInput {
    type V = InputModel;

    open spec fn view(&self) -> InputModel {
        InputModel { id: self.id@, path: self.path@, text: self.text@ }
    }
}

/// Turns inputs and the vectors that the backend returned into embeddings.
pub struct Embedder;

/// The embedding of an input with the given vector.
pub open spec fn embedding_of(input: InputModel, vector: Seq<u32>) -> EmbeddingModel {
    EmbeddingModel { id: input.id, vector, text: input.text, path: input.path }
}

/// The `index`-th batch of `count` inputs, as a range of positions.
pub open spec fn batch_range(count: int, index: int) -> (int, int) {
    (
        index * BATCH_SIZE,
        if (index + 1) * BATCH_SIZE <= count {
            (index + 1) * BATCH_SIZE
        } else {
            count
        },
    )
}

/// Into how many batches `count` inputs are cut.
pub open spec fn batch_count(count: int) -> int {
    (count + BATCH_SIZE - 1) / (BATCH_SIZE as int)
}

impl Embedder {
    pub fn new() -> (embedder: Self) {
        Embedder
    }

    /// The batches into which `count` inputs are cut, in the order in which
    /// they are sent: consecutive ranges of `BATCH_SIZE` positions, the last
    /// one shorter where `count` is no multiple of it. A batch is sent only
    /// when the one before it has been answered.
    pub fn batches(&self, count: usize) -> (ranges: Vec<(usize, usize)>)
        ensures
            ranges.len() == batch_count(count as int),
            forall|b: int|
                0 <= b < ranges.len() ==> (#[trigger] ranges[b].0 as int, ranges[b].1 as int)
                    == batch_range(count as int, b),
            forall|b: int|
                0 <= b < ranges.len() ==> (#[trigger] ranges[b]).0 < ranges[b].1 <= count && ranges[b].1
                    - ranges[b].0 <= BATCH_SIZE,
    {
        let mut ranges: Vec<(usize, usize)> = Vec::new();
        let mut start: usize = 0;
        while start < count
            invariant
                start <= count,
                start == ranges.len() * BATCH_SIZE || start == count,
                start == count ==> ranges.len() == batch_count(count as int),
                start < count ==> start == ranges.len() * BATCH_SIZE,
                forall|b: int|
                    0 <= b < ranges.len() ==> (#[trigger] ranges[b].0 as int, ranges[b].1 as int)
                        == batch_range(count as int, b),
                forall|b: int|
                    0 <= b < ranges.len() ==> (#[trigger] ranges[b]).0 < ranges[b].1 <= count
                        && ranges[b].1 - ranges[b].0 <= BATCH_SIZE,
            decreases count - start,
        {
            let end: usize = if count - start > BATCH_SIZE {
                start + BATCH_SIZE
            } else {
                count
            };
            ranges.push((start, end));
            start = end;
        }
        ranges
    }

    /// The embedding of one input: the input's identity, path and text with
    /// the vector that the backend returned for its text.
    pub fn embedding(input: &EmbeddingInput, vector: Vec<u32>) -> (embedding: Embedding)
        ensures
            embedding@ == embedding_of(input@, vector@),
    {
        Embedding { id: input.id.clone(), vector, text: input.text.clone(), path: input.path.clone() }
    }

    /// The embeddings of a batch of inputs, where `vectors[i]` is the vector
    /// that the backend returned for `inputs[i]`. Nothing is returned unless
    /// there is a vector for every input.
    pub fn generate_batch_embeddings(&self, inputs: &Vec<EmbeddingInput>, vectors: &Vec<Vec<u32>>) -> (result:
        Option<Vec<Embedding>>)
        ensures
            result is Some <==> inputs.len() == vectors.len(),
            result matches Some(embeddings) ==> {
                &&& embeddings.len() == inputs.len()
                &&& forall|i: int|
                    0 <= i < embeddings.len() ==> (#[trigger] embeddings[i])@ == embedding_of(
                        inputs[i]@,
                        vectors[i]@,
                    )
            },
    {
        if inputs.len() != vectors.len() {
            return None;
        }
        let mut embeddings: Vec<Embedding> = Vec::new();
        let mut i: usize = 0;
        while i < inputs.len()
            invariant
                i <= inputs.len(),
                inputs.len() == vectors.len(),
                embeddings.len() == i,
                forall|j: int|
                    0 <= j < i ==> (#[trigger] embeddings[j])@ == embedding_of(inputs[j]@, vectors[j]@),
            decreases inputs.len() - i,
        {
            let vector = vectors[i].clone();
            assert(vector@ =~= vectors[i as int]@);
            embeddings.push(Self::embedding(&inputs[i], vector));
            i += 1;
        }
        Some(embeddings)
    }

    /// The embeddings of all inputs, in the inputs' order, where `vectors[i]`
    /// is the vector that the backend returned for `inputs[i]`.
    pub fn generate_embeddings(&self, inputs: &Vec<EmbeddingInput>, vectors: &Vec<Vec<u32>>) -> (result: Option<
        Vec<Embedding>,
    >)
        ensures
            result is Some <==> inputs.len() == vectors.len(),
            result matches Some(embeddings) ==> {
                &&& embeddings.len() == inputs.len()
                &&& forall|i: int|
                    0 <= i < embeddings.len() ==> (#[trigger] embeddings[i])@ == embedding_of(
                        inputs[i]@,
                        vectors[i]@,
                    )
            },
    {
        self.generate_batch_embeddings(inputs, vectors)
    }
}

} // verus!
