use vstd::prelude::*;
use vstd::string::StringExecFns;
use vstd::utf8::*;
use crate::chunker::{ChunkModel, FileChunk};
use crate::embedder::{EmbeddingInput, InputModel};
use crate::hashing::{content_hash, md5_hex};
use crate::rag::RagService;
use crate::scanner::{FileScanResult, ScanModel};
use crate::text::{decimal, decimal_string, str_eq};

verus! {

/// The path under which the overview of the directory tree is stored.
pub const DIR_OVERVIEW_PATH: &'static str = "__dir_overview__";

/// What is put before the overview of the directory tree where it is shown.
pub const DIR_OVERVIEW_HEADING: &'static str = "DIRECTORY TREE:\n";

/// What has to be done for a path whose content is new: its stored embeddings
/// are deleted, `inputs` are embedded and stored in their place, and `hash`
/// is recorded for the path.
pub struct FileUpdate {
    pub path: String,
    pub hash: String,
    pub inputs: Vec<EmbeddingInput>,
}

/// What an update is, mathematically.
pub struct UpdateModel {
    pub path: Seq<char>,
    pub hash: Seq<char>,
    pub inputs: Seq<InputModel>,
}

/// The models of a vector of inputs.
pub open spec fn input_models(inputs: Seq<EmbeddingInput>) -> Seq<InputModel> {
    Seq::new(inputs.len(), |i: int| inputs[i]@)
}

impl View for FileUpdate {
    type V = UpdateModel;

    open spec fn view(&self) -> UpdateModel {
        UpdateModel { path: self.path@, hash: self.hash@, inputs: input_models(self.inputs@) }
    }
}

/// The identity of a chunk: its path and the position at which it starts.
pub open spec fn chunk_id(chunk: ChunkModel) -> Seq<char> {
    chunk.path + ":"@ + decimal(chunk.start_offset)
}

/// The text that is embedded for a chunk: the chunk's text under a header
/// that says where it is from.
pub open spec fn chunk_entry(chunk: ChunkModel) -> Seq<char> {
    "FILE: "@ + chunk.path + "\nOFFSET: "@ + decimal(chunk.start_offset) + "\n"@ + chunk.text
}

/// The input that is embedded for a chunk.
pub open spec fn input_of(chunk: ChunkModel) -> InputModel {
    InputModel { id: chunk_id(chunk), path: chunk.path, text: chunk_entry(chunk) }
}

/// The inputs that are embedded for a file's chunks.
pub open spec fn inputs_of(chunks: Seq<ChunkModel>) -> Seq<InputModel> {
    Seq::new(chunks.len(), |i: int| input_of(chunks[i]))
}

/// Whether a scanned file has to be indexed anew: it was not passed over,
/// and the hash stored for its path is not that of its content.
pub open spec fn needs_update(scan: ScanModel, stored_hash: Option<Seq<char>>) -> bool {
    scan.hash.len() > 0 && stored_hash != Some(scan.hash)
}

/// The update for a scanned file: one input for each of its chunks, and
/// none for a file that has no chunk.
pub open spec fn update_of(scan: ScanModel) -> UpdateModel {
    UpdateModel { path: scan.path, hash: scan.hash, inputs: inputs_of(scan.chunks) }
}

/// The input that is embedded for an overview of the directory tree.
pub open spec fn overview_input(overview: Seq<char>) -> InputModel {
    InputModel {
        id: DIR_OVERVIEW_PATH@ + ":"@ + md5_hex(encode_utf8(overview)),
        path: DIR_OVERVIEW_PATH@,
        text: DIR_OVERVIEW_HEADING@ + overview,
    }
}

/// Whether the overview has to be indexed anew: it is not empty, and the hash
/// stored for it is not that of its text.
pub open spec fn overview_needs_update(overview: Seq<char>, stored_hash: Option<Seq<char>>) -> bool {
    overview.len() > 0 && stored_hash != Some(md5_hex(encode_utf8(overview)))
}

/// The update for an overview of the directory tree.
pub open spec fn overview_update(overview: Seq<char>) -> UpdateModel {
    UpdateModel {
        path: DIR_OVERVIEW_PATH@,
        hash: md5_hex(encode_utf8(overview)),
        inputs: seq![overview_input(overview)],
    }
}

/// The text of the stored hash, if there is one.
pub open spec fn hash_text(stored_hash: Option<&str>) -> Option<Seq<char>> {
    match stored_hash {
        Some(hash) => Some(hash@),
        None => None,
    }
}

fn same_hash(stored_hash: Option<&str>, hash: &str) -> (same: bool)
    ensures
        same == (hash_text(stored_hash) == Some(hash@)),
{
    match stored_hash {
        Some(stored) => str_eq(stored, hash),
        None => false,
    }
}

impl RagService {
    /// The input that is embedded for a chunk.
    pub fn chunk_input(chunk: &FileChunk) -> (input: EmbeddingInput)
        ensures
            input@ == input_of(chunk@),
    {
        let offset = decimal_string(chunk.start_offset);
        let mut id = chunk.path.clone();
        id.append(":");
        id.append(offset.as_str());
        let mut text = String::from_str("FILE: ");
        text.append(chunk.path.as_str());
        text.append("\nOFFSET: ");
        text.append(offset.as_str());
        text.append("\n");
        text.append(chunk.text.as_str());
        EmbeddingInput { id, path: chunk.path.clone(), text }
    }

    /// Whether the stored hash of a scanned file has to be looked up at all:
    /// a file that was passed over is left alone whatever is stored for it.
    pub fn is_indexable(scan: &FileScanResult) -> (indexable: bool)
        ensures
            indexable == (scan@.hash.len() > 0),
            !indexable ==> forall|stored: Option<Seq<char>>| !needs_update(scan@, stored),
    {
        !scan.hash.as_str().is_empty()
    }

    /// Decides what has to be done for a scanned file, given the hash that is
    /// stored for its path. A file whose hash is the stored one is left
    /// alone: nothing is deleted, embedded or written for it. For any other
    /// file what is stored for its path is replaced: every chunk is embedded
    /// anew, and where the file has no chunk, nothing is left for its path.
    pub fn plan_file(scan: &FileScanResult, stored_hash: Option<&str>) -> (update: Option<FileUpdate>)
        ensures
            update is Some <==> needs_update(scan@, hash_text(stored_hash)),
            update matches Some(u) ==> u@ == update_of(scan@),
    {
        if !Self::is_indexable(scan) || same_hash(stored_hash, scan.hash.as_str()) {
            return None;
        }
        let mut inputs: Vec<EmbeddingInput> = Vec::new();
        let mut i: usize = 0;
        while i < scan.chunks.len()
            invariant
                i <= scan.chunks.len(),
                inputs.len() == i,
                forall|j: int| 0 <= j < i ==> (#[trigger] inputs[j])@ == input_of(scan.chunks[j]@),
            decreases scan.chunks.len() - i,
        {
            inputs.push(Self::chunk_input(&scan.chunks[i]));
            i += 1;
        }
        let update = FileUpdate { path: scan.path.clone(), hash: scan.hash.clone(), inputs };
        assert(update@.inputs =~= inputs_of(scan@.chunks));
        Some(update)
    }

    /// Decides what has to be done for the overview of the directory tree,
    /// given the hash that is stored for it. An empty overview, and one whose
    /// hash is the stored one, is left alone.
    pub fn plan_overview(overview: &str, stored_hash: Option<&str>) -> (update: Option<FileUpdate>)
        ensures
            update is Some <==> overview_needs_update(overview@, hash_text(stored_hash)),
            update matches Some(u) ==> u@ == overview_update(overview@),
    {
        if overview.is_empty() {
            return None;
        }
        let hash = content_hash(overview.as_bytes());
        if same_hash(stored_hash, hash.as_str()) {
            return None;
        }
        let mut id = String::from_str(DIR_OVERVIEW_PATH);
        id.append(":");
        id.append(hash.as_str());
        let mut text = String::from_str(DIR_OVERVIEW_HEADING);
        text.append(overview);
        let mut inputs: Vec<EmbeddingInput> = Vec::new();
        inputs.push(EmbeddingInput { id, path: String::from_str(DIR_OVERVIEW_PATH), text });
        let update = FileUpdate { path: String::from_str(DIR_OVERVIEW_PATH), hash, inputs };
        assert(update@.inputs =~= seq![overview_input(overview@)]);
        Some(update)
    }
}

} // verus!
