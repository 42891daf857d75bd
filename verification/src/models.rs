use vstd::prelude::*;

verus! {

/// A question with the context gathered for it.
#[derive(Debug, Clone)]
pub struct RagQuery {
    pub question: String,
    pub context: Vec<String>,
}

/// One stored chunk with its vector. The vector's components are held as the
/// bit patterns of 32-bit floating-point numbers.
#[derive(Debug, Clone)]
pub struct Embedding {
    pub id: String,
    pub vector: Vec<u32>,
    pub text: String,
    pub path: String,
}

/// What an embedding is, mathematically.
pub struct EmbeddingModel {
    pub id: Seq<char>,
    pub vector: Seq<u32>,
    pub text: Seq<char>,
    pub path: Seq<char>,
}

impl View for Embedding {
    type V = EmbeddingModel;

    open spec fn view(&self) -> EmbeddingModel {
        EmbeddingModel { id: self.id@, vector: self.vector@, text: self.text@, path: self.path@ }
    }
}

} // verus!
