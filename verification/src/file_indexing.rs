//! Bringing one file of the index up to date, as a machine. It asks
//! whether the file is there, has its old chunks removed, has it read,
//! cuts it into chunks, and has the chunks embedded and stored.

use crate::chunker::Chunker;
use crate::indexer::{
    chunks_for_doc, dimension_change, file_chunks_of, file_not_found, verify_dimensions,
};
use crate::model::{Doc, DocView};
use crate::search_error::SearchError;
use crate::types::{chunk_views, Chunk, ChunkView};
use vstd::prelude::*;

verus! {

/// Where the work on a file stands.
#[derive(Debug, Clone, Copy, PartialEq, Eq, Structural)]
pub enum FilePhase {
    /// Nothing has happened yet.
    Start,
    /// It is being looked up whether the file is there.
    Checking,
    /// The old chunks of the file are being removed.
    Clearing,
    /// The file is being read.
    Reading,
    /// The chunks are being embedded.
    Embedding,
    /// The vector store is being made anew.
    Reinitializing,
    /// The chunks are being stored.
    Storing,
    /// The work has ended.
    Done,
}

/// What has happened outside.
#[derive(Debug)]
pub enum FileEvent {
    /// The work is to begin.
    Begin,
    /// It is known whether the file is there.
    Checked { exists: bool },
    /// The old chunks are removed.
    Cleared,
    /// The file is read.
    Read { content: String },
    /// The chunks are embedded; the service has given vectors of the
    /// length `actual_dimensions` so far, or none yet if that is 0.
    Embedded { actual_dimensions: usize },
    /// The vector store is made anew.
    Reinitialized,
    /// The chunks are stored, `count` of them.
    Stored { count: usize },
}

/// What has to happen next.
#[derive(Debug)]
pub enum FileAction {
    /// Look up whether the file is there.
    CheckExists { rel_path: String },
    /// Remove the chunks that the index holds of the file.
    RemoveOld { rel_path: String },
    /// Read the file.
    ReadFile { rel_path: String },
    /// Embed these texts.
    Embed { texts: Vec<String> },
    /// Make the vector store anew for vectors of this length.
    Reinitialize { dimensions: usize },
    /// Store these chunks with their vectors.
    Store { chunks: Vec<Chunk> },
    /// The work has ended; this many chunks were stored.
    Finish { count: usize },
    /// The work has ended with an error, or the event does not fit.
    Fail(SearchError),
}

/// A [`FileEvent`] as a mathematical value.
pub ghost enum FileEventView {
    Begin,
    Checked { exists: bool },
    Cleared,
    Read { content: Seq<char> },
    Embedded { actual_dimensions: usize },
    Reinitialized,
    Stored { count: usize },
}

/// A [`FileAction`] as a mathematical value.
pub ghost enum FileActionView {
    CheckExists { rel_path: Seq<char> },
    RemoveOld { rel_path: Seq<char> },
    ReadFile { rel_path: Seq<char> },
    Embed { texts: Seq<Seq<char>> },
    Reinitialize { dimensions: usize },
    Store { chunks: Seq<ChunkView> },
    Finish { count: usize },
    Fail { message: Seq<char> },
}

/// The views of a sequence of texts.
pub open spec fn texts_of(texts: Seq<String>) -> Seq<Seq<char>> {
    Seq::new(texts.len(), |i: int| texts[i]@)
}

impl View for FileEvent {
    type V = FileEventView;

    open spec fn view(&self) -> FileEventView {
        match self {
            FileEvent::Begin => FileEventView::Begin,
            FileEvent::Checked { exists } => FileEventView::Checked { exists: *exists },
            FileEvent::Cleared => FileEventView::Cleared,
            FileEvent::Read { content } => FileEventView::Read { content: content@ },
            FileEvent::Embedded { actual_dimensions } => FileEventView::Embedded {
                actual_dimensions: *actual_dimensions,
            },
            FileEvent::Reinitialized => FileEventView::Reinitialized,
            FileEvent::Stored { count } => FileEventView::Stored { count: *count },
        }
    }
}

impl View for FileAction {
    type V = FileActionView;

    open spec fn view(&self) -> FileActionView {
        match self {
            FileAction::CheckExists { rel_path } => FileActionView::CheckExists {
                rel_path: rel_path@,
            },
            FileAction::RemoveOld { rel_path } => FileActionView::RemoveOld { rel_path: rel_path@ },
            FileAction::ReadFile { rel_path } => FileActionView::ReadFile { rel_path: rel_path@ },
            FileAction::Embed { texts } => FileActionView::Embed { texts: texts_of(texts@) },
            FileAction::Reinitialize { dimensions } => FileActionView::Reinitialize {
                dimensions: *dimensions,
            },
            FileAction::Store { chunks } => FileActionView::Store { chunks: chunk_views(chunks@) },
            FileAction::Finish { count } => FileActionView::Finish { count: *count },
            FileAction::Fail(e) => FileActionView::Fail { message: e.display() },
        }
    }
}

/// The state of the work on a file as a mathematical value.
pub ghost struct FileView {
    pub rel_path: Seq<char>,
    /// Whether a missing file is an error; else it is passed over.
    pub must_exist: bool,
    /// The chunk limit and overlap, in characters.
    pub max: usize,
    pub overlap: usize,
    /// The configured vector length.
    pub configured: usize,
    /// Whether the vector length has been looked at.
    pub verified: bool,
    pub phase: FilePhase,
    /// The chunks of the file, until they are handed out.
    pub waiting: Seq<ChunkView>,
}

/// What a refusal says.
pub open spec fn refusal_text() -> Seq<char> {
    "Index error: unexpected event for this phase of the work"@
}

/// What the error for a missing file says.
pub open spec fn missing_text(rel_path: Seq<char>) -> Seq<char> {
    "Index error: "@ + ("File not found: "@ + rel_path)
}

/// The step that hands out the waiting chunks to be stored.
pub open spec fn to_store(s: FileView) -> (FileView, FileActionView) {
    (
        FileView { phase: FilePhase::Storing, waiting: Seq::empty(), ..s },
        FileActionView::Store { chunks: s.waiting },
    )
}

/// The state and the action after `e` has happened in the state `s`.
///
/// - `Begin` at the start: it is to be looked up whether the file is there.
/// - `Checked`: a file that is there has its old chunks removed next; a
///   missing file ends the work, with an error where the file had to be
///   there and with no chunks where it had not.
/// - `Cleared`: the file is to be read.
/// - `Read`: the chunks of the content are to be embedded; a file without
///   chunks ends the work.
/// - `Embedded`: the first time, the vector length is looked at, and the
///   vector store is to be made anew if it differs from the configured
///   one; else, and ever after, the chunks are to be stored.
/// - `Reinitialized`: the chunks are to be stored.
/// - `Stored`: the work ends with the number of chunks that were stored.
/// - Anything else is refused and changes nothing.
pub open spec fn file_step(s: FileView, e: FileEventView) -> (FileView, FileActionView) {
    match (s.phase, e) {
        (FilePhase::Start, FileEventView::Begin) => (
            FileView { phase: FilePhase::Checking, ..s },
            FileActionView::CheckExists { rel_path: s.rel_path },
        ),
        (FilePhase::Checking, FileEventView::Checked { exists }) => if exists {
            (
                FileView { phase: FilePhase::Clearing, ..s },
                FileActionView::RemoveOld { rel_path: s.rel_path },
            )
        } else if s.must_exist {
            (
                FileView { phase: FilePhase::Done, ..s },
                FileActionView::Fail { message: missing_text(s.rel_path) },
            )
        } else {
            (FileView { phase: FilePhase::Done, ..s }, FileActionView::Finish { count: 0 })
        },
        (FilePhase::Clearing, FileEventView::Cleared) => (
            FileView { phase: FilePhase::Reading, ..s },
            FileActionView::ReadFile { rel_path: s.rel_path },
        ),
        (FilePhase::Reading, FileEventView::Read { content }) => {
            let chunks = file_chunks_of(s.rel_path, content, Seq::empty(), s.max, s.overlap);
            if chunks.len() == 0 {
                (FileView { phase: FilePhase::Done, ..s }, FileActionView::Finish { count: 0 })
            } else {
                (
                    FileView { phase: FilePhase::Embedding, waiting: chunks, ..s },
                    FileActionView::Embed { texts: chunks.map_values(|c: ChunkView| c.content) },
                )
            }
        },
        (FilePhase::Embedding, FileEventView::Embedded { actual_dimensions }) => {
            let looked = FileView { verified: true, ..s };
            match dimension_change(s.verified, actual_dimensions, s.configured) {
                Some(dimensions) => (
                    FileView { phase: FilePhase::Reinitializing, ..looked },
                    FileActionView::Reinitialize { dimensions },
                ),
                None => to_store(looked),
            }
        },
        (FilePhase::Reinitializing, FileEventView::Reinitialized) => to_store(s),
        (FilePhase::Storing, FileEventView::Stored { count }) => (
            FileView { phase: FilePhase::Done, ..s },
            FileActionView::Finish { count },
        ),
        _ => (s, FileActionView::Fail { message: refusal_text() }),
    }
}

/// The work of bringing one file of the index up to date.
pub struct FileIndexing {
    rel_path: String,
    must_exist: bool,
    chunker: Chunker,
    configured: usize,
    verified: bool,
    phase: FilePhase,
    waiting: Vec<Chunk>,
}

impl FileIndexing {
    /// The state of the work.
    pub closed spec fn view(&self) -> FileView {
        FileView {
            rel_path: self.rel_path@,
            must_exist: self.must_exist,
            max: self.chunker.max_chars(),
            overlap: self.chunker.overlap(),
            configured: self.configured,
            verified: self.verified,
            phase: self.phase,
            waiting: chunk_views(self.waiting@),
        }
    }

    /// The work on the file `rel_path`, not yet begun. `must_exist` says
    /// whether a missing file is an error. Chunks have at most
    /// `chunk_size` characters and overlap by `chunk_overlap`;
    /// `dimensions` is the configured vector length, and
    /// `dimensions_verified` says whether the vector length has been
    /// looked at before.
    pub fn new(
        rel_path: String,
        must_exist: bool,
        chunk_size: usize,
        chunk_overlap: usize,
        dimensions: usize,
        dimensions_verified: bool,
    ) -> (f: FileIndexing)
        ensures
            f@ == (FileView {
                rel_path: rel_path@,
                must_exist,
                max: chunk_size,
                overlap: chunk_overlap,
                configured: dimensions,
                verified: dimensions_verified,
                phase: FilePhase::Start,
                waiting: Seq::empty(),
            }),
    {
        let f = FileIndexing {
            rel_path,
            must_exist,
            chunker: Chunker::new(chunk_size, chunk_overlap),
            configured: dimensions,
            verified: dimensions_verified,
            phase: FilePhase::Start,
            waiting: Vec::new(),
        };
        assert(chunk_views(f.waiting@) =~= Seq::<ChunkView>::empty());
        f
    }

    /// Where the work stands.
    pub fn phase(&self) -> (p: FilePhase)
        ensures
            p == self@.phase,
    {
        self.phase
    }

    /// Whether the vector length has been looked at.
    pub fn dimensions_verified(&self) -> (v: bool)
        ensures
            v == self@.verified,
    {
        self.verified
    }

    /// Hands out the waiting chunks to be stored.
    fn store(&mut self) -> (a: FileAction)
        ensures
            (final(self)@, a@) == to_store(old(self)@),
    {
        let mut chunks: Vec<Chunk> = Vec::new();
        std::mem::swap(&mut chunks, &mut self.waiting);
        self.phase = FilePhase::Storing;
        assert(chunk_views(self.waiting@) =~= Seq::<ChunkView>::empty());
        FileAction::Store { chunks }
    }

    /// Takes note of `event` and says what has to happen next, as
    /// [`file_step`] says.
    pub fn step(&mut self, event: FileEvent) -> (a: FileAction)
        ensures
            (final(self)@, a@) == file_step(old(self)@, event@),
    {
        match (self.phase, event) {
            (FilePhase::Start, FileEvent::Begin) => {
                self.phase = FilePhase::Checking;
                FileAction::CheckExists { rel_path: self.rel_path.clone() }
            },
            (FilePhase::Checking, FileEvent::Checked { exists }) => {
                if exists {
                    self.phase = FilePhase::Clearing;
                    FileAction::RemoveOld { rel_path: self.rel_path.clone() }
                } else if self.must_exist {
                    self.phase = FilePhase::Done;
                    FileAction::Fail(file_not_found(self.rel_path.as_str()))
                } else {
                    self.phase = FilePhase::Done;
                    FileAction::Finish { count: 0 }
                }
            },
            (FilePhase::Clearing, FileEvent::Cleared) => {
                self.phase = FilePhase::Reading;
                FileAction::ReadFile { rel_path: self.rel_path.clone() }
            },
            (FilePhase::Reading, FileEvent::Read { content }) => {
                let none: Vec<Doc> = Vec::new();
                assert(crate::model::doc_views(none@) =~= Seq::<DocView>::empty());
                let chunks = chunks_for_doc(
                    &self.chunker,
                    self.rel_path.as_str(),
                    content.as_str(),
                    &none,
                );
                if chunks.len() == 0 {
                    self.phase = FilePhase::Done;
                    return FileAction::Finish { count: 0 };
                }
                let mut texts: Vec<String> = Vec::new();
                let mut k: usize = 0;
                while k < chunks.len()
                    invariant
                        k <= chunks.len(),
                        texts.len() == k,
                        forall|a: int|
                            0 <= a < k ==> (#[trigger] texts@[a])@ == chunks@[a]@.content,
                    decreases chunks.len() - k,
                {
                    texts.push(chunks[k].content.clone());
                    k = k + 1;
                }
                assert(texts_of(texts@) =~= chunk_views(chunks@).map_values(
                    |c: ChunkView| c.content,
                ));
                self.waiting = chunks;
                self.phase = FilePhase::Embedding;
                FileAction::Embed { texts }
            },
            (FilePhase::Embedding, FileEvent::Embedded { actual_dimensions }) => {
                let change = verify_dimensions(self.verified, actual_dimensions, self.configured);
                self.verified = true;
                match change {
                    Some(dimensions) => {
                        self.phase = FilePhase::Reinitializing;
                        FileAction::Reinitialize { dimensions }
                    },
                    None => self.store(),
                }
            },
            (FilePhase::Reinitializing, FileEvent::Reinitialized) => self.store(),
            (FilePhase::Storing, FileEvent::Stored { count }) => {
                self.phase = FilePhase::Done;
                FileAction::Finish { count }
            },
            _ => {
                let e = SearchError::Index(
                    "unexpected event for this phase of the work".to_owned(),
                );
                proof {
                    reveal_strlit("Index error: ");
                    reveal_strlit("unexpected event for this phase of the work");
                    reveal_strlit("Index error: unexpected event for this phase of the work");
                    assert(e.display() =~= refusal_text());
                }
                FileAction::Fail(e)
            },
        }
    }
}

} // verus!
