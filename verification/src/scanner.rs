use vstd::prelude::*;
use vstd::hash_set::StringHashSet;
use vstd::string::StringExecFns;
use vstd::string::StringSliceAdditionalSpecFns;
use vstd::utf8::*;
use crate::byte_search::{ends_with, ends_with_exec};
use crate::chunker::{chunk_models, ChunkModel, chunks_of, FileChunk};
use crate::hashing::{content_hash, md5_hex};
use crate::text::{join, join_exec, str_eq, texts};

verus! {

/// Files longer than this many bytes are not scanned.
pub const MAX_FILE_BYTES: u64 = 2097152;

/// Scans a source tree: which directories to enter, which files to read, and
/// how a file's text is cut into chunks.
pub struct FileScanner {
    pub root_path: String,
    pub ignored_dirs: StringHashSet,
    pub max_file_bytes: u64,
}

/// What scanning one file gave: its content hash and its chunks. An empty
/// hash with no chunks says that the file was passed over for its size.
#[derive(Debug, Clone)]
pub struct FileScanResult {
    pub path: String,
    pub hash: String,
    pub chunks: Vec<FileChunk>,
}

/// What a scan result is, mathematically.
pub struct ScanModel {
    pub path: Seq<char>,
    pub hash: Seq<char>,
    pub chunks: Seq<ChunkModel>,
}

impl View for FileScanResult {
    type V = ScanModel;

    open spec fn view(&self) -> ScanModel {
        ScanModel { path: self.path@, hash: self.hash@, chunks: chunk_models(self.chunks@) }
    }
}

/// A file as it was read: its path, its length where the file system gave
/// one, and its bytes. The bytes of a file that is too long are not read.
#[derive(Debug, Clone)]
pub struct LoadedFile {
    pub path: String,
    pub byte_len: Option<u64>,
    pub content: Vec<u8>,
}

/// A directory entry with what lies below it. `readable` says of a directory
/// whether its entries could be listed; `children` holds them in listing order.
#[derive(Debug)]
pub struct DirNode {
    pub name: String,
    pub is_dir: bool,
    pub readable: bool,
    pub children: Vec<DirNode>,
}

/// Why a tree could not be scanned.
#[derive(Debug, Clone, Copy, PartialEq, Eq, Structural)]
pub enum ScanError {
    /// The root is no directory whose entries can be listed.
    UnreadableRoot,
}

/// The names of the directories that are never entered: version control,
/// build output, dependency caches and editor metadata.
pub open spec fn ignored_dir_names() -> Set<Seq<char>> {
    set![
        ".git"@,
        "target"@,
        "node_modules"@,
        ".next"@,
        "dist"@,
        "build"@,
        ".idea"@,
        ".vscode"@,
        ".cache"@,
        "venv"@,
        "__pycache__"@,
    ]
}

/// The extension of a path's file name, as `std::path::Path` defines it.
pub uninterp spec fn path_extension(path: Seq<char>) -> Option<Seq<char>>;

/// Calls `Path::extension` on the path. The extension is a function of the
/// path's text alone; it is UTF-8 because the path is.
#[verifier::external_body]
fn extension_of(path: &str) -> (extension: Option<String>)
    ensures
        match extension {
            Some(text) => path_extension(path@) == Some(text@),
            None => path_extension(path@) is None,
        },
{
    std::path::Path::new(path).extension().and_then(|e| e.to_str()).map(|e| e.to_string())
}

/// Whether files with this extension are indexed.
pub open spec fn is_supported_extension(extension: Option<Seq<char>>) -> bool {
    match extension {
        Some(e) => e == "rs"@ || e == "md"@ || e == "toml"@ || e == "json"@ || e == "graphql"@,
        None => false,
    }
}

/// The text of an extension, if there is one.
pub open spec fn extension_text(extension: Option<&str>) -> Option<Seq<char>> {
    match extension {
        Some(e) => Some(e@),
        None => None,
    }
}

/// Whether files with this extension are indexed.
pub fn is_supported_extension_exec(extension: Option<&str>) -> (supported: bool)
    ensures
        supported == is_supported_extension(extension_text(extension)),
{
    match extension {
        Some(e) => str_eq(e, "rs") || str_eq(e, "md") || str_eq(e, "toml") || str_eq(e, "json") || str_eq(
            e,
            "graphql",
        ),
        None => false,
    }
}

/// Whether a file is indexed, going by the extension of its name.
pub fn is_supported_file(path: &str) -> (supported: bool)
    ensures
        supported == is_supported_extension(path_extension(path@)),
{
    match extension_of(path) {
        Some(extension) => is_supported_extension_exec(Some(extension.as_str())),
        None => is_supported_extension_exec(None),
    }
}

/// The path of the entry `name` of the directory `dir`.
pub open spec fn entry_path(dir: Seq<char>, name: Seq<char>) -> Seq<char> {
    if dir.len() == 0 {
        name
    } else if ends_with(encode_utf8(dir), "/".spec_bytes()) {
        dir + name
    } else {
        dir + "/"@ + name
    }
}

/// The path of the entry `name` of the directory `dir`.
pub fn join_path(dir: &str, name: &str) -> (path: String)
    ensures
        path@ == entry_path(dir@, name@),
{
    if dir.is_empty() {
        return String::from_str(name);
    }
    let mut path = String::from_str(dir);
    if !ends_with_exec(dir.as_bytes(), "/".as_bytes()) {
        path.append("/");
    }
    path.append(name);
    path
}

/// The files below the given entries of the directory `dir` that are
/// indexed, in listing order: every file with a supported extension, in
/// every directory that can be listed and whose name is not ignored.
pub open spec fn files_under(ignored: Set<Seq<char>>, entries: Seq<DirNode>, dir: Seq<char>) -> Seq<Seq<char>>
    decreases entries,
{
    if entries.len() == 0 {
        seq![]
    } else {
        files_under(ignored, entries.drop_last(), dir) + files_of(
            ignored,
            entries.last(),
            entry_path(dir, entries.last().name@),
        )
    }
}

/// The indexed files that one entry contributes.
pub open spec fn files_of(ignored: Set<Seq<char>>, entry: DirNode, path: Seq<char>) -> Seq<Seq<char>>
    decreases entry,
{
    if entry.is_dir {
        if ignored.contains(entry.name@) || !entry.readable {
            seq![]
        } else {
            files_under(ignored, entry.children@, path)
        }
    } else if is_supported_extension(path_extension(path)) {
        seq![path]
    } else {
        seq![]
    }
}

/// `depth` times two spaces.
pub open spec fn indent(depth: nat) -> Seq<char>
    decreases depth,
{
    if depth == 0 {
        seq![]
    } else {
        indent((depth - 1) as nat) + "  "@
    }
}

/// The line of the overview for the directory at `rel`, relative to the root.
pub open spec fn overview_line(rel: Seq<char>, depth: nat) -> Seq<char> {
    indent(depth) + if rel.len() == 0 {
        "."@
    } else {
        rel
    }
}

/// One line for the directory `node` and for each directory below it, no
/// deeper than `max_depth`, each directory before what it holds.
pub open spec fn tree_lines(
    ignored: Set<Seq<char>>,
    node: DirNode,
    rel: Seq<char>,
    depth: nat,
    max_depth: nat,
) -> Seq<Seq<char>>
    decreases node,
{
    if depth > max_depth {
        seq![]
    } else if node.readable {
        seq![overview_line(rel, depth)] + subtree_lines(ignored, node.children@, rel, depth + 1, max_depth)
    } else {
        seq![overview_line(rel, depth)]
    }
}

/// The lines for those of the given entries of the directory at `rel` that
/// are directories with a name that is not ignored.
pub open spec fn subtree_lines(
    ignored: Set<Seq<char>>,
    entries: Seq<DirNode>,
    rel: Seq<char>,
    depth: nat,
    max_depth: nat,
) -> Seq<Seq<char>>
    decreases entries,
{
    if entries.len() == 0 {
        seq![]
    } else {
        let entry = entries.last();
        subtree_lines(ignored, entries.drop_last(), rel, depth, max_depth) + if entry.is_dir
            && !ignored.contains(entry.name@) {
            tree_lines(ignored, entry, entry_path(rel, entry.name@), depth, max_depth)
        } else {
            seq![]
        }
    }
}

/// A sequence cut to at most `limit` items.
pub open spec fn capped<A>(items: Seq<A>, limit: int) -> Seq<A> {
    if items.len() <= limit {
        items
    } else {
        items.take(limit)
    }
}

/// Cutting before and after appending is cutting after appending.
pub proof fn lemma_capped_append<A>(a: Seq<A>, b: Seq<A>, limit: int)
    requires
        0 <= limit,
    ensures
        capped(capped(a, limit) + b, limit) == capped(a + b, limit),
{
    if a.len() > limit {
        assert(capped(a.take(limit) + b, limit) =~= a.take(limit));
        assert(capped(a + b, limit) =~= a.take(limit));
    }
}

/// Once the limit is reached, appending changes nothing.
pub proof fn lemma_capped_full<A>(a: Seq<A>, b: Seq<A>, limit: int)
    requires
        0 <= limit,
        capped(a, limit).len() >= limit,
    ensures
        capped(a + b, limit) == capped(a, limit),
{
    assert(capped(a + b, limit) =~= capped(a, limit));
}

/// The overview of a tree: the first `max_entries` lines for its directories
/// down to `max_depth`, one below the other.
pub open spec fn overview_of(ignored: Set<Seq<char>>, root: DirNode, max_depth: nat, max_entries: nat) -> Seq<char> {
    join(capped(tree_lines(ignored, root, seq![], 0, max_depth), max_entries as int), "\n"@)
}

proof fn lemma_too_deep(ignored: Set<Seq<char>>, entries: Seq<DirNode>, rel: Seq<char>, depth: nat, max_depth: nat)
    requires
        depth > max_depth,
    ensures
        subtree_lines(ignored, entries, rel, depth, max_depth) == Seq::<Seq<char>>::empty(),
    decreases entries.len(),
{
    if entries.len() > 0 {
        lemma_too_deep(ignored, entries.drop_last(), rel, depth, max_depth);
        let entry = entries.last();
        assert(tree_lines(ignored, entry, entry_path(rel, entry.name@), depth, max_depth)
            == Seq::<Seq<char>>::empty());
        assert(subtree_lines(ignored, entries, rel, depth, max_depth) =~= Seq::<Seq<char>>::empty());
    }
}

proof fn lemma_subtree_prefix(
    ignored: Set<Seq<char>>,
    entries: Seq<DirNode>,
    rel: Seq<char>,
    depth: nat,
    max_depth: nat,
    i: int,
) -> (rest: Seq<Seq<char>>)
    requires
        0 <= i <= entries.len(),
    ensures
        subtree_lines(ignored, entries, rel, depth, max_depth) == subtree_lines(
            ignored,
            entries.take(i),
            rel,
            depth,
            max_depth,
        ) + rest,
    decreases entries.len(),
{
    if i == entries.len() {
        assert(entries.take(i) =~= entries);
        let rest = Seq::<Seq<char>>::empty();
        assert(subtree_lines(ignored, entries, rel, depth, max_depth) + rest =~= subtree_lines(
            ignored,
            entries,
            rel,
            depth,
            max_depth,
        ));
        rest
    } else {
        let shorter = entries.drop_last();
        let inner = lemma_subtree_prefix(ignored, shorter, rel, depth, max_depth, i);
        assert(shorter.take(i) =~= entries.take(i));
        let entry = entries.last();
        let tail = if entry.is_dir && !ignored.contains(entry.name@) {
            tree_lines(ignored, entry, entry_path(rel, entry.name@), depth, max_depth)
        } else {
            seq![]
        };
        let rest = inner + tail;
        assert(subtree_lines(ignored, entries, rel, depth, max_depth) =~= subtree_lines(
            ignored,
            entries.take(i),
            rel,
            depth,
            max_depth,
        ) + rest);
        rest
    }
}

fn indent_exec(depth: usize) -> (spaces: String)
    ensures
        spaces@ == indent(depth as nat),
{
    let mut spaces = String::new();
    let mut i: usize = 0;
    while i < depth
        invariant
            i <= depth,
            spaces@ == indent(i as nat),
        decreases depth - i,
    {
        spaces.append("  ");
        i += 1;
    }
    spaces
}

impl FileScanner {
    /// A scanner for the tree at `root_path`, with the usual ignored
    /// directories and the usual cap on a file's length.
    pub fn new(root_path: &str) -> (scanner: Self)
        ensures
            scanner.root_path@ == root_path@,
            scanner.ignored_dirs@ == ignored_dir_names(),
            scanner.max_file_bytes == MAX_FILE_BYTES,
    {
        let mut ignored = StringHashSet::new();
        ignored.insert(String::from_str(".git"));
        ignored.insert(String::from_str("target"));
        ignored.insert(String::from_str("node_modules"));
        ignored.insert(String::from_str(".next"));
        ignored.insert(String::from_str("dist"));
        ignored.insert(String::from_str("build"));
        ignored.insert(String::from_str(".idea"));
        ignored.insert(String::from_str(".vscode"));
        ignored.insert(String::from_str(".cache"));
        ignored.insert(String::from_str("venv"));
        ignored.insert(String::from_str("__pycache__"));
        assert(ignored@ =~= ignored_dir_names());
        FileScanner { root_path: String::from_str(root_path), ignored_dirs: ignored, max_file_bytes: MAX_FILE_BYTES }
    }

    /// Whether a directory of this name is passed over.
    pub fn is_ignored_dir(&self, name: &str) -> (ignored: bool)
        ensures
            ignored == self.ignored_dirs@.contains(name@),
    {
        self.ignored_dirs.contains(name)
    }

    /// Whether a file of this length is passed over for its size.
    pub fn is_oversized(&self, byte_len: u64) -> (oversized: bool)
        ensures
            oversized == (byte_len > self.max_file_bytes),
    {
        byte_len > self.max_file_bytes
    }

    fn collect_files_recursive(&self, entries: &Vec<DirNode>, dir: &str, files: &mut Vec<String>)
        ensures
            texts(final(files)@) == texts(old(files)@) + files_under(self.ignored_dirs@, entries@, dir@),
        decreases entries,
    {
        let ghost before = texts(files@);
        let mut i: usize = 0;
        assert(entries@.take(0) =~= Seq::<DirNode>::empty());
        assert(before + files_under(self.ignored_dirs@, entries@.take(0), dir@) =~= before);
        while i < entries.len()
            invariant
                i <= entries.len(),
                texts(files@) == before + files_under(self.ignored_dirs@, entries@.take(i as int), dir@),
            decreases entries.len() - i,
        {
            let entry = &entries[i];
            let path = join_path(dir, entry.name.as_str());
            let ghost so_far = texts(files@);
            proof {
                let longer = entries@.take(i + 1);
                assert(longer.drop_last() =~= entries@.take(i as int));
                assert(longer.last() == entries[i as int]);
            }
            let ghost added = files_of(self.ignored_dirs@, entries[i as int], path@);
            if entry.is_dir {
                if !self.ignored_dirs.contains(entry.name.as_str()) && entry.readable {
                    self.collect_files_recursive(&entry.children, path.as_str(), files);
                }
            } else if is_supported_file(path.as_str()) {
                files.push(path);
                assert(texts(files@) =~= so_far + seq![path@]);
            }
            proof {
                assert(texts(files@) =~= so_far + added);
                assert(files_under(self.ignored_dirs@, entries@.take(i + 1), dir@) == files_under(
                    self.ignored_dirs@,
                    entries@.take(i as int),
                    dir@,
                ) + added);
                assert(so_far + added =~= before + (files_under(
                    self.ignored_dirs@,
                    entries@.take(i as int),
                    dir@,
                ) + added));
            }
            i += 1;
        }
        assert(entries@.take(entries.len() as int) =~= entries@);
    }

    /// The files of the tree below `root` that are indexed, with their paths
    /// from `root_path` on. Directories below the root that cannot be listed
    /// are passed over; a root that cannot be listed is an error.
    pub fn collect_files(&self, root: &DirNode) -> (result: Result<Vec<String>, ScanError>)
        ensures
            match result {
                Ok(files) => root.is_dir && root.readable && texts(files@) == files_under(
                    self.ignored_dirs@,
                    root.children@,
                    self.root_path@,
                ),
                Err(error) => !(root.is_dir && root.readable) && error == ScanError::UnreadableRoot,
            },
    {
        if !(root.is_dir && root.readable) {
            return Err(ScanError::UnreadableRoot);
        }
        let mut files: Vec<String> = Vec::new();
        self.collect_files_recursive(&root.children, self.root_path.as_str(), &mut files);
        assert(texts(files@) =~= files_under(self.ignored_dirs@, root.children@, self.root_path@));
        Ok(files)
    }

    fn walk_directory(
        &self,
        node: &DirNode,
        rel: &str,
        depth: usize,
        max_depth: usize,
        max_entries: usize,
        lines: &mut Vec<String>,
    )
        requires
            old(lines).len() <= max_entries,
        ensures
            final(lines).len() <= max_entries,
            texts(final(lines)@) == capped(
                texts(old(lines)@) + tree_lines(
                    self.ignored_dirs@,
                    *node,
                    rel@,
                    depth as nat,
                    max_depth as nat,
                ),
                max_entries as int,
            ),
        decreases node,
    {
        let ghost before = texts(lines@);
        let ghost ignored = self.ignored_dirs@;
        let ghost whole = tree_lines(ignored, *node, rel@, depth as nat, max_depth as nat);
        if depth > max_depth {
            assert(before + whole =~= before);
            return;
        }
        if lines.len() >= max_entries {
            proof {
                lemma_capped_full(before, whole, max_entries as int);
            }
            return;
        }
        let mut line = indent_exec(depth);
        if rel.is_empty() {
            line.append(".");
        } else {
            line.append(rel);
        }
        lines.push(line);
        let ghost own = seq![overview_line(rel@, depth as nat)];
        assert(texts(lines@) =~= before + own);
        if !node.readable {
            return;
        }
        let ghost below = subtree_lines(ignored, node.children@, rel@, (depth + 1) as nat, max_depth as nat);
        assert(before + whole =~= (before + own) + below);
        if depth >= max_depth {
            proof {
                lemma_too_deep(ignored, node.children@, rel@, (depth + 1) as nat, max_depth as nat);
                assert((before + own) + below =~= before + own);
            }
            return;
        }
        let mut i: usize = 0;
        proof {
            assert(node.children@.take(0) =~= Seq::<DirNode>::empty());
            assert((before + own) + subtree_lines(
                ignored,
                node.children@.take(0),
                rel@,
                (depth + 1) as nat,
                max_depth as nat,
            ) =~= before + own);
        }
        while i < node.children.len()
            invariant
                i <= node.children.len(),
                depth < max_depth,
                ignored == self.ignored_dirs@,
                before == texts(old(lines)@),
                whole == tree_lines(ignored, *node, rel@, depth as nat, max_depth as nat),
                below == subtree_lines(ignored, node.children@, rel@, (depth + 1) as nat, max_depth as nat),
                before + whole == (before + own) + below,
                lines.len() <= max_entries,
                texts(lines@) == capped(
                    (before + own) + subtree_lines(
                        ignored,
                        node.children@.take(i as int),
                        rel@,
                        (depth + 1) as nat,
                        max_depth as nat,
                    ),
                    max_entries as int,
                ),
            decreases node.children.len() - i,
        {
            if lines.len() >= max_entries {
                proof {
                    let done = subtree_lines(
                        ignored,
                        node.children@.take(i as int),
                        rel@,
                        (depth + 1) as nat,
                        max_depth as nat,
                    );
                    let rest = lemma_subtree_prefix(
                        ignored,
                        node.children@,
                        rel@,
                        (depth + 1) as nat,
                        max_depth as nat,
                        i as int,
                    );
                    lemma_capped_full((before + own) + done, rest, max_entries as int);
                    assert(below == done + rest);
                    assert(((before + own) + done) + rest =~= (before + own) + below);
                }
                return;
            }
            let child = &node.children[i];
            let ghost done = subtree_lines(
                ignored,
                node.children@.take(i as int),
                rel@,
                (depth + 1) as nat,
                max_depth as nat,
            );
            proof {
                let longer = node.children@.take(i + 1);
                assert(longer.drop_last() =~= node.children@.take(i as int));
                assert(longer.last() == node.children[i as int]);
            }
            if child.is_dir && !self.ignored_dirs.contains(child.name.as_str()) {
                let child_rel = join_path(rel, child.name.as_str());
                self.walk_directory(child, child_rel.as_str(), depth + 1, max_depth, max_entries, lines);
                proof {
                    let added = tree_lines(
                        ignored,
                        *child,
                        entry_path(rel@, child.name@),
                        (depth + 1) as nat,
                        max_depth as nat,
                    );
                    lemma_capped_append((before + own) + done, added, max_entries as int);
                    assert(((before + own) + done) + added =~= (before + own) + (done + added));
                }
            } else {
                assert(done + Seq::<Seq<char>>::empty() =~= done);
            }
            i += 1;
        }
        assert(node.children@.take(node.children.len() as int) =~= node.children@);
    }

    /// A compact overview of the tree below `root`: one indented line for
    /// each directory, relative to the root, no deeper than `max_depth` and
    /// no more than `max_entries` lines.
    pub fn directory_overview(&self, root: &DirNode, max_depth: usize, max_entries: usize) -> (overview: String)
        ensures
            overview@ == overview_of(self.ignored_dirs@, *root, max_depth as nat, max_entries as nat),
    {
        let mut lines: Vec<String> = Vec::new();
        self.walk_directory(root, "", 0, max_depth, max_entries, &mut lines);
        proof {
            reveal_strlit("");
            let whole = tree_lines(self.ignored_dirs@, *root, seq![], 0, max_depth as nat);
            assert(texts(Seq::<String>::empty()) + whole =~= whole);
            assert(""@ =~= Seq::<char>::empty());
        }
        join_exec(&lines, "\n")
    }
}

/// The scan result that says that a file was passed over for its size.
pub open spec fn skipped(path: Seq<char>) -> ScanModel {
    ScanModel { path, hash: seq![], chunks: seq![] }
}

/// The text that bytes are read as: the text that they encode, with a
/// replacement character in place of every stretch of bytes that is no
/// UTF-8.
pub uninterp spec fn lossy_text(bytes: Seq<u8>) -> Seq<char>;

/// Calls `String::from_utf8_lossy`, which never fails: bytes that are
/// well-formed UTF-8 give the text that they encode, any other stretch of
/// bytes gives a replacement character.
#[verifier::external_body]
fn from_utf8_lossy(bytes: &[u8]) -> (text: String)
    ensures
        text@ == lossy_text(bytes@),
        valid_utf8(bytes@) ==> text@ == decode_utf8(bytes@),
{
    String::from_utf8_lossy(bytes).into_owned()
}

/// What scanning a text gives: the hash of its bytes, and its chunks.
pub open spec fn scan_of_text(path: Seq<char>, text: Seq<char>) -> ScanModel {
    ScanModel { path, hash: md5_hex(encode_utf8(text)), chunks: chunks_of(text, path) }
}

/// Whether a file of the given length, if the length is known, is passed
/// over for its size.
pub open spec fn is_passed_over(max_file_bytes: u64, byte_len: Option<u64>) -> bool {
    byte_len is Some && byte_len->0 > max_file_bytes
}

/// What scanning a file gives: the sentinel if the file is longer than
/// `max_file_bytes`, else the hash of its bytes as they are, and the chunks
/// of the text that its bytes are read as.
pub open spec fn scan_of(max_file_bytes: u64, path: Seq<char>, byte_len: Option<u64>, content: Seq<u8>) -> ScanModel {
    if is_passed_over(max_file_bytes, byte_len) {
        skipped(path)
    } else {
        ScanModel { path, hash: md5_hex(content), chunks: chunks_of(lossy_text(content), path) }
    }
}

impl FileScanner {
    /// The chunks of a text, each with the given path.
    fn chunks_with_path(&self, path: &str, text: &str) -> (chunks: Vec<FileChunk>)
        ensures
            chunk_models(chunks@) == chunks_of(text@, path@),
            forall|i: int| 0 <= i < chunks.len() ==> (#[trigger] chunks[i]).path@ == path@,
            forall|i: int, j: int|
                0 <= i < j < chunks.len() ==> (#[trigger] chunks[i]).text@ != (#[trigger] chunks[j]).text@,
            forall|i: int, j: int|
                0 <= i < j < chunks.len() ==> (#[trigger] chunks[i]).start_offset < (#[trigger] chunks[j]).start_offset,
    {
        let chunks = self.chunk_text(text, path);
        proof {
            assert forall|i: int| 0 <= i < chunks.len() implies (#[trigger] chunks[i]).path@ == path@ by {
                let bytes = encode_utf8(text@);
                assert(chunk_models(chunks@).len() == chunks.len());
                assert(chunk_models(chunks@)[i] == chunks[i]@);
                assert(chunks_of(text@, path@)[i] == crate::chunker::chunk_of(
                    bytes,
                    path@,
                    crate::chunker::chunk_spans(bytes)[i],
                ));
            }
        }
        chunks
    }

    /// Scans a text: gives the hash of its bytes, which is never empty, and
    /// its chunks.
    pub fn scan_text(&self, path: &str, text: &str) -> (scan: FileScanResult)
        ensures
            scan@ == scan_of_text(path@, text@),
            scan.hash@.len() > 0,
            forall|i: int| 0 <= i < scan.chunks.len() ==> (#[trigger] scan.chunks[i]).path@ == path@,
            forall|i: int, j: int|
                0 <= i < j < scan.chunks.len() ==> (#[trigger] scan.chunks[i]).text@
                    != (#[trigger] scan.chunks[j]).text@,
            forall|i: int, j: int|
                0 <= i < j < scan.chunks.len() ==> (#[trigger] scan.chunks[i]).start_offset
                    < (#[trigger] scan.chunks[j]).start_offset,
    {
        let hash = content_hash(text.as_bytes());
        let chunks = self.chunks_with_path(path, text);
        FileScanResult { path: String::from_str(path), hash, chunks }
    }

    /// Scans one file, given its length, where the file system told one, and
    /// its bytes. A file that is too long is not looked into: it gets an empty
    /// hash and no chunks. Any other file gets the hash of its bytes as they
    /// are, which is never empty, and the chunks of the text that its bytes
    /// are read as: the text that they encode where they are well-formed
    /// UTF-8, and a text with a replacement character wherever they are not.
    pub fn load_and_chunk_file(&self, path: &str, byte_len: Option<u64>, content: &[u8]) -> (scan: FileScanResult)
        ensures
            scan@ == scan_of(self.max_file_bytes, path@, byte_len, content@),
            scan.hash@.len() == 0 <==> is_passed_over(self.max_file_bytes, byte_len),
            !is_passed_over(self.max_file_bytes, byte_len) && valid_utf8(content@) ==> scan@ == scan_of_text(
                path@,
                decode_utf8(content@),
            ),
            forall|i: int| 0 <= i < scan.chunks.len() ==> (#[trigger] scan.chunks[i]).path@ == path@,
            forall|i: int, j: int|
                0 <= i < j < scan.chunks.len() ==> (#[trigger] scan.chunks[i]).text@
                    != (#[trigger] scan.chunks[j]).text@,
            forall|i: int, j: int|
                0 <= i < j < scan.chunks.len() ==> (#[trigger] scan.chunks[i]).start_offset
                    < (#[trigger] scan.chunks[j]).start_offset,
    {
        match byte_len {
            Some(len) => {
                if self.is_oversized(len) {
                    let scan = FileScanResult { path: String::from_str(path), hash: String::new(), chunks: Vec::new() };
                    assert(chunk_models(scan.chunks@) =~= Seq::<ChunkModel>::empty());
                    return scan;
                }
            },
            None => {},
        }
        let hash = content_hash(content);
        let text = from_utf8_lossy(content);
        let chunks = self.chunks_with_path(path, text.as_str());
        proof {
            if valid_utf8(content@) {
                decode_utf8_encode_utf8(content@);
            }
        }
        FileScanResult { path: String::from_str(path), hash, chunks }
    }

    /// Scans every file, one result for each, paired with its path.
    pub fn scan_paths(&self, files: &Vec<LoadedFile>) -> (scans: Vec<FileScanResult>)
        ensures
            scans.len() == files.len(),
            forall|i: int|
                0 <= i < scans.len() ==> (#[trigger] scans[i])@ == scan_of(
                    self.max_file_bytes,
                    files[i].path@,
                    files[i].byte_len,
                    files[i].content@,
                ),
    {
        let mut scans: Vec<FileScanResult> = Vec::new();
        let mut i: usize = 0;
        while i < files.len()
            invariant
                i <= files.len(),
                scans.len() == i,
                forall|j: int|
                    0 <= j < i ==> (#[trigger] scans[j])@ == scan_of(
                        self.max_file_bytes,
                        files[j].path@,
                        files[j].byte_len,
                        files[j].content@,
                    ),
            decreases files.len() - i,
        {
            let file = &files[i];
            scans.push(self.load_and_chunk_file(file.path.as_str(), file.byte_len, file.content.as_slice()));
            i += 1;
        }
        scans
    }
}

} // verus!
