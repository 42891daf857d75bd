use vstd::prelude::*;
use vstd::utf8::encode_utf8;
use crate::chunker::{
    ChunkModel, chunks_of, is_break, lemma_chunk_offsets_ascend,
    lemma_text_without_blank_line_is_one_chunk,
};
use crate::embedder::{embedding_of, InputModel};
use crate::indexing::{chunk_id, input_of, inputs_of, needs_update, update_of, UpdateModel};
use crate::models::EmbeddingModel;
use crate::scanner::ScanModel;
use crate::text::{decimal, lemma_decimal_injective};

verus! {

/// What the store holds: the embeddings by their identity, and the content
/// hash that was recorded for each indexed path.
pub struct StoreModel {
    pub rows: Map<Seq<char>, EmbeddingModel>,
    pub hashes: Map<Seq<char>, Seq<char>>,
}

impl StoreModel {
    /// A store in which every row is kept under its own identity.
    pub open spec fn wf(self) -> bool {
        forall|id: Seq<char>| self.rows.contains_key(id) ==> (#[trigger] self.rows[id]).id == id
    }

    pub open spec fn empty() -> StoreModel {
        StoreModel { rows: Map::empty(), hashes: Map::empty() }
    }

    /// The hash recorded for a path.
    pub open spec fn get_file_hash(self, path: Seq<char>) -> Option<Seq<char>> {
        if self.hashes.contains_key(path) {
            Some(self.hashes[path])
        } else {
            None
        }
    }

    /// Records a hash for a path, in place of the one recorded before.
    pub open spec fn upsert_file_hash(self, path: Seq<char>, hash: Seq<char>) -> StoreModel {
        StoreModel { rows: self.rows, hashes: self.hashes.insert(path, hash) }
    }

    /// Removes every embedding of a path.
    pub open spec fn delete_embeddings_for_path(self, path: Seq<char>) -> StoreModel {
        StoreModel {
            rows: Map::new(
                |id: Seq<char>| self.rows.contains_key(id) && self.rows[id].path != path,
                |id: Seq<char>| self.rows[id],
            ),
            hashes: self.hashes,
        }
    }

    /// Stores one embedding, in place of the one with the same identity.
    pub open spec fn insert_embedding(self, embedding: EmbeddingModel) -> StoreModel {
        StoreModel { rows: self.rows.insert(embedding.id, embedding), hashes: self.hashes }
    }

    /// Stores a batch of embeddings, one after the other.
    pub open spec fn insert_embeddings(self, batch: Seq<EmbeddingModel>) -> StoreModel
        decreases batch.len(),
    {
        if batch.len() == 0 {
            self
        } else {
            self.insert_embeddings(batch.drop_last()).insert_embedding(batch.last())
        }
    }

    /// The embeddings that are stored for a path.
    pub open spec fn embeddings_for_path(self, path: Seq<char>) -> Set<EmbeddingModel> {
        Set::new(
            |e: EmbeddingModel| self.rows.contains_key(e.id) && self.rows[e.id] == e && e.path == path,
        )
    }

    /// The store after an update was carried out, but for the embeddings
    /// that are still to be made: the path's embeddings are gone and its new
    /// hash is recorded.
    pub open spec fn begin_update(self, update: UpdateModel) -> StoreModel {
        self.delete_embeddings_for_path(update.path).upsert_file_hash(update.path, update.hash)
    }
}

/// The embeddings of the inputs, with `vectors[i]` the vector of `inputs[i]`.
pub open spec fn embeddings_of(inputs: Seq<InputModel>, vectors: Seq<Seq<u32>>) -> Seq<EmbeddingModel> {
    Seq::new(inputs.len(), |i: int| embedding_of(inputs[i], vectors[i]))
}

/// What a batch leaves in the store: each of its embeddings that no later
/// one in the batch replaces, and what was there under other identities.
pub proof fn lemma_insert_embeddings(store: StoreModel, batch: Seq<EmbeddingModel>)
    ensures
        store.insert_embeddings(batch).hashes == store.hashes,
        forall|id: Seq<char>| #[trigger]
            store.insert_embeddings(batch).rows.contains_key(id) <==> store.rows.contains_key(id) || exists|
                i: int,
            |
                0 <= i < batch.len() && (#[trigger] batch[i]).id == id,
        forall|id: Seq<char>|
            store.rows.contains_key(id) && (forall|i: int| 0 <= i < batch.len() ==> (#[trigger] batch[i]).id != id)
                ==> #[trigger] store.insert_embeddings(batch).rows[id] == store.rows[id],
        forall|i: int|
            0 <= i < batch.len() && (forall|j: int| i < j < batch.len() ==> (#[trigger] batch[j]).id != batch[i].id)
                ==> store.insert_embeddings(batch).rows[(#[trigger] batch[i]).id] == batch[i],
        store.wf() ==> store.insert_embeddings(batch).wf(),
    decreases batch.len(),
{
    if batch.len() > 0 {
        let earlier = batch.drop_last();
        let last = batch.last();
        lemma_insert_embeddings(store, earlier);
        let mid = store.insert_embeddings(earlier);
        let after = store.insert_embeddings(batch);
        assert(after.rows == mid.rows.insert(last.id, last));
        assert forall|id: Seq<char>| #[trigger]
            after.rows.contains_key(id) <==> store.rows.contains_key(id) || exists|i: int|
                0 <= i < batch.len() && (#[trigger] batch[i]).id == id by {
            if after.rows.contains_key(id) {
                if id == last.id {
                    assert(batch[batch.len() - 1].id == id);
                } else if !store.rows.contains_key(id) {
                    let i = choose|i: int| 0 <= i < earlier.len() && (#[trigger] earlier[i]).id == id;
                    assert(batch[i].id == id);
                }
            }
            if exists|i: int| 0 <= i < batch.len() && (#[trigger] batch[i]).id == id {
                let i = choose|i: int| 0 <= i < batch.len() && (#[trigger] batch[i]).id == id;
                if i < earlier.len() {
                    assert(earlier[i].id == id);
                }
            }
        }
        assert forall|id: Seq<char>|
            store.rows.contains_key(id) && (forall|i: int|
                0 <= i < batch.len() ==> (#[trigger] batch[i]).id != id) implies #[trigger] after.rows[id]
            == store.rows[id] by {
            assert(batch[batch.len() - 1].id != id);
            assert forall|i: int| 0 <= i < earlier.len() implies (#[trigger] earlier[i]).id != id by {
                assert(batch[i].id != id);
            }
        }
        assert forall|i: int|
            0 <= i < batch.len() && (forall|j: int|
                i < j < batch.len() ==> (#[trigger] batch[j]).id != batch[i].id) implies after.rows[(
            #[trigger] batch[i]).id] == batch[i] by {
            if i < earlier.len() {
                assert(batch[batch.len() - 1].id != batch[i].id);
                assert(earlier[i] == batch[i]);
                assert forall|j: int| i < j < earlier.len() implies (#[trigger] earlier[j]).id != earlier[i].id by {
                    assert(batch[j].id != batch[i].id);
                }
            }
        }
    }
}

/// A file whose content hash is the one recorded for its path needs no
/// work: nothing is deleted, embedded or written for it. This holds in
/// particular on the pass after the one that indexed the file.
pub proof fn lemma_unchanged_file_needs_no_work(store: StoreModel, scan: ScanModel, batch: Seq<EmbeddingModel>)
    ensures
        store.get_file_hash(scan.path) == Some(scan.hash) ==> !needs_update(
            scan,
            store.get_file_hash(scan.path),
        ),
        !needs_update(
            scan,
            store.begin_update(update_of(scan)).insert_embeddings(batch).get_file_hash(scan.path),
        ),
{
    lemma_insert_embeddings(store.begin_update(update_of(scan)), batch);
}

/// After a file was indexed anew, the embeddings stored for its path are
/// exactly those of its new chunks: none of the old ones is left, and each
/// new one is there with its own text and vector. The identities of the new
/// inputs are assumed to differ, as those of a file's chunks do.
pub proof fn lemma_reindexed_path_holds_new_inputs(store: StoreModel, update: UpdateModel, vectors: Seq<Seq<u32>>)
    requires
        store.wf(),
        vectors.len() == update.inputs.len(),
        forall|i: int| 0 <= i < update.inputs.len() ==> (#[trigger] update.inputs[i]).path == update.path,
        forall|i: int, j: int|
            0 <= i < j < update.inputs.len() ==> (#[trigger] update.inputs[i]).id != (#[trigger] update.inputs[j]).id,
    ensures
        store.begin_update(update).insert_embeddings(
            embeddings_of(update.inputs, vectors),
        ).embeddings_for_path(update.path) == embeddings_of(update.inputs, vectors).to_set(),
        store.begin_update(update).insert_embeddings(embeddings_of(update.inputs, vectors)).get_file_hash(
            update.path,
        ) == Some(update.hash),
        store.begin_update(update).insert_embeddings(embeddings_of(update.inputs, vectors)).wf(),
{
    let begun = store.begin_update(update);
    let batch = embeddings_of(update.inputs, vectors);
    let after = begun.insert_embeddings(batch);
    lemma_insert_embeddings(begun, batch);
    assert(begun.wf());
    let stored = after.embeddings_for_path(update.path);
    assert forall|e: EmbeddingModel| stored.contains(e) implies batch.to_set().contains(e) by {
        if exists|i: int| 0 <= i < batch.len() && (#[trigger] batch[i]).id == e.id {
            let i = choose|i: int| 0 <= i < batch.len() && (#[trigger] batch[i]).id == e.id;
            assert forall|j: int| i < j < batch.len() implies (#[trigger] batch[j]).id != batch[i].id by {
                assert(update.inputs[i].id != update.inputs[j].id);
            }
            assert(after.rows[batch[i].id] == batch[i]);
            assert(batch.contains(e));
        } else {
            assert(begun.rows.contains_key(e.id));
            assert(after.rows[e.id] == begun.rows[e.id]);
        }
    }
    assert forall|e: EmbeddingModel| batch.to_set().contains(e) implies stored.contains(e) by {
        let i = choose|i: int| 0 <= i < batch.len() && batch[i] == e;
        assert forall|j: int| i < j < batch.len() implies (#[trigger] batch[j]).id != batch[i].id by {
            assert(update.inputs[i].id != update.inputs[j].id);
        }
        assert(batch[i].id == e.id);
        assert(after.rows[batch[i].id] == batch[i]);
        assert(update.inputs[i].path == update.path);
    }
    assert(stored =~= batch.to_set());
}

/// What is done for one path leaves the embeddings of every other path as
/// they were, provided that no new embedding takes the identity of one of
/// theirs.
pub proof fn lemma_other_paths_untouched(
    store: StoreModel,
    update: UpdateModel,
    vectors: Seq<Seq<u32>>,
    other: Seq<char>,
)
    requires
        store.wf(),
        other != update.path,
        vectors.len() == update.inputs.len(),
        forall|i: int| 0 <= i < update.inputs.len() ==> (#[trigger] update.inputs[i]).path == update.path,
        forall|i: int|
            0 <= i < update.inputs.len() ==> !(store.rows.contains_key((#[trigger] update.inputs[i]).id)
                && store.rows[update.inputs[i].id].path == other),
    ensures
        store.begin_update(update).insert_embeddings(
            embeddings_of(update.inputs, vectors),
        ).embeddings_for_path(other) == store.embeddings_for_path(other),
        store.begin_update(update).insert_embeddings(embeddings_of(update.inputs, vectors)).get_file_hash(
            other,
        ) == store.get_file_hash(other),
{
    let begun = store.begin_update(update);
    let batch = embeddings_of(update.inputs, vectors);
    let after = begun.insert_embeddings(batch);
    lemma_insert_embeddings(begun, batch);
    let before_set = store.embeddings_for_path(other);
    let after_set = after.embeddings_for_path(other);
    assert forall|e: EmbeddingModel| before_set.contains(e) implies after_set.contains(e) by {
        assert(begun.rows.contains_key(e.id));
        assert forall|i: int| 0 <= i < batch.len() implies (#[trigger] batch[i]).id != e.id by {
            assert(update.inputs[i].id == batch[i].id);
        }
        assert(after.rows[e.id] == begun.rows[e.id]);
    }
    assert forall|e: EmbeddingModel| after_set.contains(e) implies before_set.contains(e) by {
        if exists|i: int| 0 <= i < batch.len() && (#[trigger] batch[i]).id == e.id {
            let i = choose|i: int| 0 <= i < batch.len() && (#[trigger] batch[i]).id == e.id;
            let k = choose|k: int| 0 <= k < batch.len() && (#[trigger] batch[k]).id == e.id && forall|j: int|
                k < j < batch.len() ==> (#[trigger] batch[j]).id != e.id;
            assert(false) by {
                lemma_last_with_id(batch, e.id, i);
                assert(after.rows[batch[k].id] == batch[k]);
                assert(update.inputs[k].path == update.path);
            }
        } else {
            assert(after.rows[e.id] == begun.rows[e.id]);
        }
    }
    assert(after_set =~= before_set);
}

/// Among the embeddings of a batch that have a given identity there is a last one.
proof fn lemma_last_with_id(batch: Seq<EmbeddingModel>, id: Seq<char>, i: int)
    requires
        0 <= i < batch.len(),
        batch[i].id == id,
    ensures
        exists|k: int|
            0 <= k < batch.len() && (#[trigger] batch[k]).id == id && forall|j: int|
                k < j < batch.len() ==> (#[trigger] batch[j]).id != id,
    decreases batch.len() - i,
{
    if exists|j: int| i < j < batch.len() && (#[trigger] batch[j]).id == id {
        let j = choose|j: int| i < j < batch.len() && (#[trigger] batch[j]).id == id;
        lemma_last_with_id(batch, id, j);
    } else {
        assert(batch[i].id == id);
    }
}

/// Chunks of one path that start at different positions have different
/// identities.
pub proof fn lemma_chunk_ids_differ(a: ChunkModel, b: ChunkModel)
    requires
        a.path == b.path,
        a.start_offset != b.start_offset,
    ensures
        chunk_id(a) != chunk_id(b),
{
    let prefix = a.path + ":"@;
    let da = decimal(a.start_offset);
    let db = decimal(b.start_offset);
    if chunk_id(a) == chunk_id(b) {
        assert(da =~= (prefix + da).subrange(prefix.len() as int, (prefix + da).len() as int));
        assert(db =~= (prefix + db).subrange(prefix.len() as int, (prefix + db).len() as int));
        lemma_decimal_injective(a.start_offset, b.start_offset);
    }
}

/// After a file with new content was indexed anew, the embeddings stored
/// for its path are exactly those of the chunks of the new content, one for
/// each chunk: no embedding of the old content is left, whatever the new
/// content yields. `text` is the text that the file's bytes are read as,
/// `hash` the hash of its bytes.
pub proof fn lemma_reindexed_file_holds_new_chunks(
    store: StoreModel,
    path: Seq<char>,
    hash: Seq<char>,
    text: Seq<char>,
    vectors: Seq<Seq<u32>>,
)
    requires
        store.wf(),
        vectors.len() == chunks_of(text, path).len(),
    ensures
        ({
            let scan = ScanModel { path, hash, chunks: chunks_of(text, path) };
            let new_embeddings = embeddings_of(inputs_of(scan.chunks), vectors);
            let after = store.begin_update(update_of(scan)).insert_embeddings(new_embeddings);
            &&& after.embeddings_for_path(path) == new_embeddings.to_set()
            &&& new_embeddings.no_duplicates()
            &&& after.get_file_hash(path) == Some(hash)
            &&& after.wf()
        }),
{
    let chunks = chunks_of(text, path);
    let scan = ScanModel { path, hash, chunks };
    let update = update_of(scan);
    let new_embeddings = embeddings_of(update.inputs, vectors);
    lemma_chunk_offsets_ascend(text, path);
    assert forall|i: int, j: int| 0 <= i < j < update.inputs.len() implies (#[trigger] update.inputs[i]).id != (
    #[trigger] update.inputs[j]).id by {
        lemma_chunk_ids_differ(chunks[i], chunks[j]);
    }
    assert forall|i: int| 0 <= i < update.inputs.len() implies (#[trigger] update.inputs[i]).path
        == update.path by {
        assert(update.inputs[i] == input_of(chunks[i]));
    }
    lemma_reindexed_path_holds_new_inputs(store, update, vectors);
    assert forall|i: int, j: int|
        0 <= i < new_embeddings.len() && 0 <= j < new_embeddings.len() && i != j implies new_embeddings[i]
        != new_embeddings[j] by {
        if i < j {
            assert(update.inputs[i].id != update.inputs[j].id);
        } else {
            assert(update.inputs[j].id != update.inputs[i].id);
        }
    }
}

/// After a file whose new content yields no chunk was indexed anew, nothing
/// is stored for its path any more, and its new hash is recorded.
pub proof fn lemma_file_without_chunks_leaves_no_rows(store: StoreModel, scan: ScanModel)
    requires
        store.wf(),
        scan.chunks.len() == 0,
    ensures
        update_of(scan).inputs.len() == 0,
        store.begin_update(update_of(scan)).insert_embeddings(seq![]).embeddings_for_path(scan.path)
            == Set::<EmbeddingModel>::empty(),
        store.begin_update(update_of(scan)).insert_embeddings(seq![]).get_file_hash(scan.path) == Some(
            scan.hash,
        ),
{
    let after = store.begin_update(update_of(scan)).insert_embeddings(seq![]);
    assert(after.embeddings_for_path(scan.path) =~= Set::<EmbeddingModel>::empty());
}

/// What is stored for a file that was rewritten to a text of one paragraph:
/// it is indexed anew exactly if the hash recorded for its path is not that
/// of the new content, and then there is one embedding for its path, with
/// the identity `path:0` and the whole text under its header, and the hash
/// of the new content is recorded. The new text is not empty and has no
/// blank line in it.
pub proof fn lemma_rewritten_file_holds_its_one_chunk(
    store: StoreModel,
    path: Seq<char>,
    hash: Seq<char>,
    text: Seq<char>,
    vector: Seq<u32>,
)
    requires
        store.wf(),
        text.len() > 0,
        forall|k: int| !is_break(encode_utf8(text), k),
    ensures
        needs_update(ScanModel { path, hash, chunks: chunks_of(text, path) }, store.get_file_hash(path)) <==> hash.len()
            > 0 && store.get_file_hash(path) != Some(hash),
        ({
            let scan = ScanModel { path, hash, chunks: chunks_of(text, path) };
            let row = EmbeddingModel {
                id: path + ":"@ + "0"@,
                vector,
                text: "FILE: "@ + path + "\nOFFSET: "@ + "0"@ + "\n"@ + text,
                path,
            };
            let after = store.begin_update(update_of(scan)).insert_embeddings(seq![row]);
            &&& update_of(scan).inputs.len() == 1
            &&& embeddings_of(update_of(scan).inputs, seq![vector]) == seq![row]
            &&& after.embeddings_for_path(path) == set![row]
            &&& after.get_file_hash(path) == Some(hash)
        }),
{
    lemma_text_without_blank_line_is_one_chunk(text, path);
    lemma_reindexed_file_holds_new_chunks(store, path, hash, text, seq![vector]);
    let scan = ScanModel { path, hash, chunks: chunks_of(text, path) };
    let row = EmbeddingModel {
        id: path + ":"@ + "0"@,
        vector,
        text: "FILE: "@ + path + "\nOFFSET: "@ + "0"@ + "\n"@ + text,
        path,
    };
    let made = embeddings_of(update_of(scan).inputs, seq![vector]);
    assert(made.len() == 1);
    assert(made[0] == row);
    assert(made =~= seq![row]);
    assert(made.to_set() =~= set![row]) by {
        assert forall|e: EmbeddingModel| made.to_set().contains(e) <==> set![row].contains(e) by {
            if made.to_set().contains(e) {
                let i = choose|i: int| 0 <= i < made.len() && made[i] == e;
            }
            if e == row {
                assert(made[0] == e);
            }
        }
    }
}

} // verus!
