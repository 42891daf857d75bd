use vstd::prelude::*;
use vstd::bytes::{
    spec_u32_from_le_bytes, spec_u32_to_le_bytes, spec_u64_from_le_bytes, spec_u64_to_le_bytes,
};
use crate::models::{Embedding, EmbeddingModel};
use crate::text::str_eq;

verus! {

#[verifier::external_type_specification]
#[verifier::external_body]
pub struct ExBincodeErrorKind(bincode::ErrorKind);

/// Why the store could not take or give embeddings.
#[derive(Debug)]
pub enum StoreError {
    /// A vector could not be turned into its stored bytes.
    Encode(String),
    /// The stored bytes of a vector do not hold a vector.
    Decode(String),
}

/// One row of the table of embeddings, as it is written and read.
#[derive(Debug, Clone)]
pub struct StoredRow {
    pub id: String,
    pub vector: Vec<u8>,
    pub text: String,
    pub path: String,
}

/// The components of a vector, four bytes each, least significant byte first.
pub open spec fn encoded_components(vector: Seq<u32>) -> Seq<u8>
    decreases vector.len(),
{
    if vector.len() == 0 {
        seq![]
    } else {
        encoded_components(vector.drop_last()) + spec_u32_to_le_bytes(vector.last())
    }
}

/// The stored bytes of a vector: the number of its components in eight bytes,
/// least significant byte first, then the components.
pub open spec fn encoded_vector(vector: Seq<u32>) -> Seq<u8> {
    spec_u64_to_le_bytes(vector.len() as u64) + encoded_components(vector)
}

/// The number of components that stored bytes announce.
pub open spec fn announced_len(bytes: Seq<u8>) -> int {
    spec_u64_from_le_bytes(bytes.subrange(0, 8)) as int
}

/// The vector that stored bytes hold, if they hold one: the bytes must be
/// long enough for the count and for as many components as the count says.
/// Bytes after the last component are ignored.
pub open spec fn decoded_vector(bytes: Seq<u8>) -> Option<Seq<u32>> {
    if bytes.len() >= 8 && 8 + 4 * announced_len(bytes) <= bytes.len() {
        Some(
            Seq::new(
                announced_len(bytes) as nat,
                |i: int| spec_u32_from_le_bytes(bytes.subrange(8 + 4 * i, 12 + 4 * i)),
            ),
        )
    } else {
        None
    }
}

/// Calls `bincode::serialize` on a vector of 32-bit values. In bincode's
/// default configuration (fixed-width integers, little endian) a sequence is
/// written as its length in eight bytes, followed by its items; a 32-bit item
/// takes four bytes. It does not fail on such a vector: there is no limit on
/// the size, a vector always gives its length, and the bytes are written
/// into memory.
#[verifier::external_body]
fn bincode_serialize(vector: &Vec<u32>) -> (result: Result<Vec<u8>, Box<bincode::ErrorKind>>)
    ensures
        match result {
            Ok(bytes) => bytes@ == encoded_vector(vector@),
            Err(_) => false,
        },
{
    bincode::serialize(vector)
}

/// Calls `bincode::deserialize` for a vector of 32-bit values. It reads the
/// length from the first eight bytes and then that many items of four bytes,
/// fails where the bytes end before that, and ignores what follows the last
/// item.
#[verifier::external_body]
fn bincode_deserialize(bytes: &[u8]) -> (result: Result<Vec<u32>, Box<bincode::ErrorKind>>)
    ensures
        match result {
            Ok(vector) => decoded_vector(bytes@) == Some(vector@),
            Err(_) => decoded_vector(bytes@) is None,
        },
{
    bincode::deserialize(bytes)
}

/// The text of a bincode error, as its `Display` impl gives it.
#[verifier::external_body]
fn bincode_error_text(error: &bincode::ErrorKind) -> (text: String) {
    error.to_string()
}

/// The store of embeddings: a table of rows keyed by chunk identity, and a
/// table of content hashes keyed by path, both in the file at `db_path`.
pub struct EmbeddingStorage {
    pub db_path: String,
}

/// The statement that adds the `path` column to a table of embeddings made
/// before there was one.
pub const ADD_PATH_COLUMN: &'static str = "ALTER TABLE embeddings ADD COLUMN path TEXT NOT NULL DEFAULT ''";

/// The statement that makes the index over the `path` column unless it exists.
pub const CREATE_PATH_INDEX: &'static str = "CREATE INDEX IF NOT EXISTS idx_embeddings_path ON embeddings(path)";

/// The name of the column that holds a row's source path.
pub const PATH_COLUMN: &'static str = "path";

/// Whether a table with these columns has the `path` column.
pub open spec fn has_path_column(columns: Seq<String>) -> bool {
    exists|i: int| 0 <= i < columns.len() && (#[trigger] columns[i])@ == PATH_COLUMN@
}

/// The row that holds an embedding.
pub open spec fn row_holds(row: StoredRow, embedding: EmbeddingModel) -> bool {
    &&& row.id@ == embedding.id
    &&& row.text@ == embedding.text
    &&& row.path@ == embedding.path
    &&& row.vector@ == encoded_vector(embedding.vector)
}

/// The embedding that a row holds, if its bytes hold a vector.
pub open spec fn embedding_in(row: StoredRow) -> Option<EmbeddingModel> {
    match decoded_vector(row.vector@) {
        Some(vector) => Some(EmbeddingModel { id: row.id@, vector, text: row.text@, path: row.path@ }),
        None => None,
    }
}

proof fn lemma_encoded_components(vector: Seq<u32>)
    ensures
        encoded_components(vector).len() == 4 * vector.len(),
        forall|i: int|
            0 <= i < vector.len() ==> #[trigger] encoded_components(vector).subrange(4 * i, 4 * i + 4)
                == spec_u32_to_le_bytes(vector[i]),
    decreases vector.len(),
{
    vstd::bytes::lemma_auto_spec_u32_to_from_le_bytes();
    if vector.len() > 0 {
        let before = vector.drop_last();
        lemma_encoded_components(before);
        let whole = encoded_components(vector);
        assert forall|i: int| 0 <= i < vector.len() implies #[trigger] whole.subrange(4 * i, 4 * i + 4)
            == spec_u32_to_le_bytes(vector[i]) by {
            if i < before.len() {
                assert(whole.subrange(4 * i, 4 * i + 4) =~= encoded_components(before).subrange(
                    4 * i,
                    4 * i + 4,
                ));
                assert(before[i] == vector[i]);
            } else {
                assert(whole.subrange(4 * i, 4 * i + 4) =~= spec_u32_to_le_bytes(vector.last()));
            }
        }
    }
}

/// What was stored is what is read back: the stored bytes of a vector hold
/// that vector.
pub proof fn lemma_decode_encoded(vector: Seq<u32>)
    requires
        vector.len() <= u64::MAX,
    ensures
        decoded_vector(encoded_vector(vector)) == Some(vector),
{
    vstd::bytes::lemma_auto_spec_u64_to_from_le_bytes();
    vstd::bytes::lemma_auto_spec_u32_to_from_le_bytes();
    lemma_encoded_components(vector);
    let head = spec_u64_to_le_bytes(vector.len() as u64);
    let body = encoded_components(vector);
    let bytes = encoded_vector(vector);
    assert(bytes.subrange(0, 8) =~= head);
    assert(announced_len(bytes) == vector.len());
    let decoded = decoded_vector(bytes)->0;
    assert forall|i: int| 0 <= i < vector.len() implies decoded[i] == vector[i] by {
        assert(bytes.subrange(8 + 4 * i, 12 + 4 * i) =~= body.subrange(4 * i, 4 * i + 4));
    }
    assert(decoded =~= vector);
}

impl EmbeddingStorage {
    pub fn new(db_path: &str) -> (storage: Self)
        ensures
            storage.db_path@ == db_path@,
    {
        EmbeddingStorage { db_path: db_path.to_owned() }
    }

    /// The statements that bring a store's tables up to date, given the
    /// columns that its table of embeddings has after the tables were made if
    /// absent: the `path` column is added where it is missing, and the index
    /// over it is made in either case. On a store that is up to date this
    /// changes nothing.
    pub fn setup_db(columns: &Vec<String>) -> (statements: Vec<&'static str>)
        ensures
            statements@ == if has_path_column(columns@) {
                seq![CREATE_PATH_INDEX]
            } else {
                seq![ADD_PATH_COLUMN, CREATE_PATH_INDEX]
            },
    {
        let mut has_path = false;
        let mut i: usize = 0;
        while i < columns.len() && !has_path
            invariant
                i <= columns.len(),
                has_path ==> has_path_column(columns@),
                !has_path ==> forall|j: int| 0 <= j < i ==> (#[trigger] columns[j])@ != PATH_COLUMN@,
            decreases columns.len() - i,
        {
            if str_eq(columns[i].as_str(), PATH_COLUMN) {
                has_path = true;
            }
            i += 1;
        }
        let mut statements: Vec<&'static str> = Vec::new();
        if !has_path {
            statements.push(ADD_PATH_COLUMN);
        }
        statements.push(CREATE_PATH_INDEX);
        assert(statements@ =~= if has_path_column(columns@) {
            seq![CREATE_PATH_INDEX]
        } else {
            seq![ADD_PATH_COLUMN, CREATE_PATH_INDEX]
        });
        statements
    }

    /// The rows that are written for a batch of embeddings, one for each.
    /// Every vector can be encoded, so there are always rows to write.
    pub fn insert_embeddings(&self, embeddings: &Vec<Embedding>) -> (result: Result<Vec<StoredRow>, StoreError>)
        ensures
            result is Ok,
            result matches Ok(rows) ==> {
                &&& rows.len() == embeddings.len()
                &&& forall|i: int| 0 <= i < rows.len() ==> row_holds(#[trigger] rows[i], embeddings[i]@)
            },
    {
        let mut rows: Vec<StoredRow> = Vec::new();
        let mut i: usize = 0;
        while i < embeddings.len()
            invariant
                i <= embeddings.len(),
                rows.len() == i,
                forall|j: int| 0 <= j < i ==> row_holds(#[trigger] rows[j], embeddings[j]@),
            decreases embeddings.len() - i,
        {
            let embedding = &embeddings[i];
            match bincode_serialize(&embedding.vector) {
                Ok(bytes) => {
                    rows.push(
                        StoredRow {
                            id: embedding.id.clone(),
                            vector: bytes,
                            text: embedding.text.clone(),
                            path: embedding.path.clone(),
                        },
                    );
                },
                Err(error) => {
                    return Err(StoreError::Encode(bincode_error_text(&error)));
                },
            }
            i += 1;
        }
        Ok(rows)
    }

    /// The embeddings that the rows of a full scan hold, in the rows' order.
    /// If the bytes of one row hold no vector, that is an error: no row is
    /// passed over in silence.
    pub fn get_all_embeddings(&self, rows: &Vec<StoredRow>) -> (result: Result<Vec<Embedding>, StoreError>)
        ensures
            match result {
                Ok(embeddings) => {
                    &&& embeddings.len() == rows.len()
                    &&& forall|i: int|
                        0 <= i < rows.len() ==> embedding_in(rows[i]) == Some((#[trigger] embeddings[i])@)
                },
                Err(error) => error is Decode && exists|i: int|
                    0 <= i < rows.len() && embedding_in(#[trigger] rows[i]) is None,
            },
    {
        let mut embeddings: Vec<Embedding> = Vec::new();
        let mut i: usize = 0;
        while i < rows.len()
            invariant
                i <= rows.len(),
                embeddings.len() == i,
                forall|j: int| 0 <= j < i ==> embedding_in(rows[j]) == Some((#[trigger] embeddings[j])@),
            decreases rows.len() - i,
        {
            let row = &rows[i];
            match bincode_deserialize(row.vector.as_slice()) {
                Ok(vector) => {
                    embeddings.push(
                        Embedding {
                            id: row.id.clone(),
                            vector,
                            text: row.text.clone(),
                            path: row.path.clone(),
                        },
                    );
                },
                Err(error) => {
                    assert(embedding_in(rows[i as int]) is None);
                    return Err(StoreError::Decode(bincode_error_text(&error)));
                },
            }
            i += 1;
        }
        Ok(embeddings)
    }
}

} // verus!
