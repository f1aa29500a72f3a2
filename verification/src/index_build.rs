//! A full build of the index as a machine. It starts by having the old
//! index dropped. Batch by batch it asks for the files to be read, cuts
//! them into chunks, asks for the chunks to be embedded and stored, and
//! reports how far it has come. After the first answer of the embedding
//! service it has the vector store made anew if the vectors are not of
//! the configured length.

use crate::chunker::Chunker;
use crate::embedding::{batch_bounds, batch_count, batch_ranges};
use crate::indexer::{
    chunking_progress, chunks_for_doc, dimension_change, done_progress, embedding_progress,
    file_chunks_of, storing_progress, verify_dimensions, IndexProgress, ProgressView,
    DOC_BATCH_SIZE,
};
use crate::model::{doc_views, Doc, DocView};
use crate::search_error::SearchError;
use crate::types::{chunk_views, Chunk, ChunkView};
use vstd::prelude::*;

verus! {

/// Where a build stands.
#[derive(Debug, Clone, Copy, PartialEq, Eq, Structural)]
pub enum BuildPhase {
    /// Nothing has happened yet.
    Start,
    /// The old index is being dropped.
    Resetting,
    /// The files of the current batch are being read.
    Reading,
    /// The chunks of the current batch are being embedded.
    Embedding,
    /// The vector store is being made anew.
    Reinitializing,
    /// The chunks of the current batch are being stored.
    Storing,
    /// The build has ended.
    Done,
}

/// What has happened outside.
#[derive(Debug)]
pub enum BuildEvent {
    /// The build is to begin.
    Begin,
    /// The old index is dropped.
    ResetDone,
    /// The files of the batch are read: the content of each, in order.
    BatchRead { contents: Vec<String> },
    /// The chunks are embedded; the service has given vectors of the
    /// length `actual_dimensions` so far, or none yet if that is 0.
    Embedded { actual_dimensions: usize },
    /// The vector store is made anew.
    Reinitialized,
    /// The chunks are stored, `count` of them.
    Stored { count: usize },
}

/// What has to happen next.
#[derive(Debug)]
pub enum BuildAction {
    /// Drop the old index.
    Reset,
    /// Report `progress` and read these files.
    ReadBatch { progress: IndexProgress, paths: Vec<String> },
    /// Report `progress` and embed these texts.
    Embed { progress: IndexProgress, texts: Vec<String> },
    /// Make the vector store anew for vectors of this length.
    Reinitialize { dimensions: usize },
    /// Report `progress` and store these chunks with their vectors.
    Store { progress: IndexProgress, chunks: Vec<Chunk> },
    /// Report `progress`; the build has ended with these counts.
    Finish { progress: IndexProgress, total_docs: usize, total_chunks: usize },
    /// The event does not fit where the build stands; nothing has changed.
    Refuse(SearchError),
}

/// A [`BuildEvent`] as a mathematical value.
pub ghost enum BuildEventView {
    Begin,
    ResetDone,
    BatchRead { contents: Seq<Seq<char>> },
    Embedded { actual_dimensions: usize },
    Reinitialized,
    Stored { count: usize },
}

/// A [`BuildAction`] as a mathematical value.
pub ghost enum BuildActionView {
    Reset,
    ReadBatch { progress: ProgressView, paths: Seq<Seq<char>> },
    Embed { progress: ProgressView, texts: Seq<Seq<char>> },
    Reinitialize { dimensions: usize },
    Store { progress: ProgressView, chunks: Seq<ChunkView> },
    Finish { progress: ProgressView, total_docs: usize, total_chunks: usize },
    Refuse { message: Seq<char> },
}

/// What a refusal says.
pub open spec fn refusal_text() -> Seq<char> {
    "Index error: unexpected event for this phase of the build"@
}

/// The views of a sequence of texts.
pub open spec fn texts_of(texts: Seq<String>) -> Seq<Seq<char>> {
    Seq::new(texts.len(), |i: int| texts[i]@)
}

impl View for BuildEvent {
    type V = BuildEventView;

    open spec fn view(&self) -> BuildEventView {
        match self {
            BuildEvent::Begin => BuildEventView::Begin,
            BuildEvent::ResetDone => BuildEventView::ResetDone,
            BuildEvent::BatchRead { contents } => BuildEventView::BatchRead {
                contents: texts_of(contents@),
            },
            BuildEvent::Embedded { actual_dimensions } => BuildEventView::Embedded {
                actual_dimensions: *actual_dimensions,
            },
            BuildEvent::Reinitialized => BuildEventView::Reinitialized,
            BuildEvent::Stored { count } => BuildEventView::Stored { count: *count },
        }
    }
}

impl View for BuildAction {
    type V = BuildActionView;

    open spec fn view(&self) -> BuildActionView {
        match self {
            BuildAction::Reset => BuildActionView::Reset,
            BuildAction::ReadBatch { progress, paths } => BuildActionView::ReadBatch {
                progress: progress@,
                paths: texts_of(paths@),
            },
            BuildAction::Embed { progress, texts } => BuildActionView::Embed {
                progress: progress@,
                texts: texts_of(texts@),
            },
            BuildAction::Reinitialize { dimensions } => BuildActionView::Reinitialize {
                dimensions: *dimensions,
            },
            BuildAction::Store { progress, chunks } => BuildActionView::Store {
                progress: progress@,
                chunks: chunk_views(chunks@),
            },
            BuildAction::Finish { progress, total_docs, total_chunks } => BuildActionView::Finish {
                progress: progress@,
                total_docs: *total_docs,
                total_chunks: *total_chunks,
            },
            BuildAction::Refuse(e) => BuildActionView::Refuse { message: e.display() },
        }
    }
}

/// The state of a build as a mathematical value.
pub ghost struct BuildView {
    /// All documents of the build.
    pub docs: Seq<DocView>,
    /// The chunk limit and overlap, in characters.
    pub max: usize,
    pub overlap: usize,
    /// The configured vector length.
    pub configured: usize,
    /// Whether the vector length has been looked at.
    pub verified: bool,
    pub phase: BuildPhase,
    /// The batch at work, counting from 0.
    pub batch: usize,
    /// The number of documents that have been chunked.
    pub processed_docs: usize,
    /// The number of chunks that have been stored.
    pub total_chunks: usize,
    /// The chunks of the batch at work, until they are handed out.
    pub waiting: Seq<ChunkView>,
}

/// `a + b`, or the largest `usize` where the sum exceeds it.
pub open spec fn capped_sum(a: usize, b: usize) -> usize {
    if a + b > usize::MAX {
        usize::MAX
    } else {
        (a + b) as usize
    }
}

impl BuildView {
    /// The number of batches.
    pub open spec fn batches(self) -> int {
        batch_count(self.docs.len() as int, DOC_BATCH_SIZE as int)
    }

    /// The documents of batch `b`.
    pub open spec fn batch_docs(self, b: int) -> Seq<DocView> {
        let bounds = batch_bounds(self.docs.len() as int, DOC_BATCH_SIZE as int, b);
        self.docs.subrange(bounds.0, bounds.1)
    }

    /// The step into batch `b`: its files are asked for.
    pub open spec fn begin_batch(self, b: usize) -> (BuildView, BuildActionView) {
        (
            BuildView { phase: BuildPhase::Reading, batch: b, ..self },
            BuildActionView::ReadBatch {
                progress: chunking_progress(
                    b,
                    self.batches() as usize,
                    self.processed_docs,
                    self.docs.len() as usize,
                ),
                paths: self.batch_docs(b as int).map_values(|d: DocView| d.abs_path),
            },
        )
    }

    /// The step out of the batch at work: into the next batch, or to the end.
    pub open spec fn leave_batch(self) -> (BuildView, BuildActionView) {
        if self.batch + 1 < self.batches() {
            self.begin_batch((self.batch + 1) as usize)
        } else {
            self.finish()
        }
    }

    /// The step to the end.
    pub open spec fn finish(self) -> (BuildView, BuildActionView) {
        (
            BuildView { phase: BuildPhase::Done, ..self },
            BuildActionView::Finish {
                progress: done_progress(
                    self.batches() as usize,
                    self.docs.len() as usize,
                    self.total_chunks,
                ),
                total_docs: self.docs.len() as usize,
                total_chunks: self.total_chunks,
            },
        )
    }

    /// The step that hands out the waiting chunks to be stored.
    pub open spec fn store(self) -> (BuildView, BuildActionView) {
        (
            BuildView { phase: BuildPhase::Storing, waiting: Seq::empty(), ..self },
            BuildActionView::Store {
                progress: storing_progress(self.batch, self.batches() as usize),
                chunks: self.waiting,
            },
        )
    }
}

/// The chunks of the documents `batch` with the contents `contents`, in
/// order; a blank document has none.
pub open spec fn batch_chunks(
    batch: Seq<DocView>,
    contents: Seq<Seq<char>>,
    docs: Seq<DocView>,
    max: usize,
    overlap: usize,
) -> Seq<ChunkView>
    decreases batch.len(),
{
    if batch.len() == 0 || contents.len() != batch.len() {
        Seq::empty()
    } else {
        batch_chunks(batch.drop_last(), contents.drop_last(), docs, max, overlap) + file_chunks_of(
            batch.last().rel_path,
            contents.last(),
            docs,
            max,
            overlap,
        )
    }
}

/// The state and the action after `e` has happened in the state `s`.
///
/// - `Begin` at the start: the old index is to be dropped.
/// - `ResetDone`: the first batch begins, or the build ends if there is
///   no document.
/// - `BatchRead` with one content for each document of the batch: the
///   documents count as processed; their chunks are to be embedded, or the
///   batch is left if there are none.
/// - `Embedded`: the first time, the vector length is looked at, and the
///   vector store is to be made anew if it differs from the configured
///   one; else, and ever after, the chunks are to be stored.
/// - `Reinitialized`: the chunks are to be stored.
/// - `Stored`: the chunks count as stored, and the batch is left.
/// - Anything else is refused and changes nothing.
pub open spec fn build_step(s: BuildView, e: BuildEventView) -> (BuildView, BuildActionView) {
    match (s.phase, e) {
        (BuildPhase::Start, BuildEventView::Begin) => (
            BuildView { phase: BuildPhase::Resetting, ..s },
            BuildActionView::Reset,
        ),
        (BuildPhase::Resetting, BuildEventView::ResetDone) => if s.batches() > 0 {
            s.begin_batch(0)
        } else {
            s.finish()
        },
        (BuildPhase::Reading, BuildEventView::BatchRead { contents }) => if contents.len()
            == s.batch_docs(s.batch as int).len() {
            let chunks = batch_chunks(s.batch_docs(s.batch as int), contents, s.docs, s.max, s.overlap);
            let read = BuildView {
                processed_docs: capped_sum(s.processed_docs, contents.len() as usize),
                ..s
            };
            if chunks.len() == 0 {
                read.leave_batch()
            } else {
                (
                    BuildView { phase: BuildPhase::Embedding, waiting: chunks, ..read },
                    BuildActionView::Embed {
                        progress: embedding_progress(
                            s.batch,
                            s.batches() as usize,
                            chunks.len() as usize,
                        ),
                        texts: chunks.map_values(|c: ChunkView| c.content),
                    },
                )
            }
        } else {
            (s, BuildActionView::Refuse { message: refusal_text() })
        },
        (BuildPhase::Embedding, BuildEventView::Embedded { actual_dimensions }) => {
            let looked = BuildView { verified: true, ..s };
            match dimension_change(s.verified, actual_dimensions, s.configured) {
                Some(dimensions) => (
                    BuildView { phase: BuildPhase::Reinitializing, ..looked },
                    BuildActionView::Reinitialize { dimensions },
                ),
                None => looked.store(),
            }
        },
        (BuildPhase::Reinitializing, BuildEventView::Reinitialized) => s.store(),
        (BuildPhase::Storing, BuildEventView::Stored { count }) => (BuildView {
            total_chunks: capped_sum(s.total_chunks, count),
            ..s
        }).leave_batch(),
        _ => (s, BuildActionView::Refuse { message: refusal_text() }),
    }
}

/// A full build of the index.
pub struct IndexBuild {
    docs: Vec<Doc>,
    chunker: Chunker,
    configured: usize,
    verified: bool,
    phase: BuildPhase,
    batch: usize,
    ranges: Vec<(usize, usize)>,
    processed_docs: usize,
    total_chunks: usize,
    waiting: Vec<Chunk>,
}

/// `a + b`, or the largest `usize` where the sum exceeds it.
fn add_capped(a: usize, b: usize) -> (r: usize)
    ensures
        r == capped_sum(a, b),
{
    if b > usize::MAX - a {
        usize::MAX
    } else {
        a + b
    }
}

/// Whether a batch is at work in `phase`.
pub open spec fn at_work(phase: BuildPhase) -> bool {
    phase == BuildPhase::Reading || phase == BuildPhase::Embedding || phase
        == BuildPhase::Reinitializing || phase == BuildPhase::Storing
}

impl IndexBuild {
    /// The batches are those of the documents, and while a batch is at
    /// work it is one of them.
    #[verifier::type_invariant]
    spec fn well_formed(self) -> bool {
        &&& self.ranges.len() == batch_count(self.docs.len() as int, DOC_BATCH_SIZE as int)
        &&& forall|k: int|
            0 <= k < self.ranges.len() ==> (#[trigger] self.ranges@[k]).0 as int == batch_bounds(
                self.docs.len() as int,
                DOC_BATCH_SIZE as int,
                k,
            ).0 && self.ranges@[k].1 as int == batch_bounds(
                self.docs.len() as int,
                DOC_BATCH_SIZE as int,
                k,
            ).1 && self.ranges@[k].0 < self.ranges@[k].1 <= self.docs.len()
        &&& at_work(self.phase) ==> self.batch < self.ranges.len()
    }

    /// The state of the build.
    pub closed spec fn view(&self) -> BuildView {
        BuildView {
            docs: doc_views(self.docs@),
            max: self.chunker.max_chars(),
            overlap: self.chunker.overlap(),
            configured: self.configured,
            verified: self.verified,
            phase: self.phase,
            batch: self.batch,
            processed_docs: self.processed_docs,
            total_chunks: self.total_chunks,
            waiting: chunk_views(self.waiting@),
        }
    }

    /// A build of the index of `docs` that has not begun. Chunks have at
    /// most `chunk_size` characters and overlap by `chunk_overlap`;
    /// `dimensions` is the configured vector length, and
    /// `dimensions_verified` says whether the vector length has been
    /// looked at before.
    pub fn new(
        docs: Vec<Doc>,
        chunk_size: usize,
        chunk_overlap: usize,
        dimensions: usize,
        dimensions_verified: bool,
    ) -> (b: IndexBuild)
        ensures
            b@ == (BuildView {
                docs: doc_views(docs@),
                max: chunk_size,
                overlap: chunk_overlap,
                configured: dimensions,
                verified: dimensions_verified,
                phase: BuildPhase::Start,
                batch: 0,
                processed_docs: 0,
                total_chunks: 0,
                waiting: Seq::empty(),
            }),
    {
        let ranges = batch_ranges(docs.len(), DOC_BATCH_SIZE);
        let b = IndexBuild {
            docs,
            chunker: Chunker::new(chunk_size, chunk_overlap),
            configured: dimensions,
            verified: dimensions_verified,
            phase: BuildPhase::Start,
            batch: 0,
            ranges,
            processed_docs: 0,
            total_chunks: 0,
            waiting: Vec::new(),
        };
        assert(chunk_views(b.waiting@) =~= Seq::<ChunkView>::empty());
        b
    }

    /// Where the build stands.
    pub fn phase(&self) -> (p: BuildPhase)
        ensures
            p == self@.phase,
    {
        self.phase
    }

    /// Whether the vector length has been looked at.
    pub fn dimensions_verified(&self) -> (v: bool)
        ensures
            v == self@.verified,
    {
        self.verified
    }

    /// The build after `event`, and what has to happen next, as
    /// [`build_step`] says.
    pub fn step(self, event: BuildEvent) -> (r: (IndexBuild, BuildAction))
        ensures
            (r.0@, r.1@) == build_step(self@, event@),
    {
        proof {
            use_type_invariant(&self);
        }
        let ghost before = self@;
        match (self.phase, event) {
            (BuildPhase::Start, BuildEvent::Begin) => {
                let IndexBuild {
                    docs,
                    chunker,
                    configured,
                    verified,
                    phase,
                    batch,
                    ranges,
                    processed_docs,
                    total_chunks,
                    waiting,
                } = self;
                let next = IndexBuild {
                    docs,
                    chunker,
                    configured,
                    verified,
                    phase: BuildPhase::Resetting,
                    batch,
                    ranges,
                    processed_docs,
                    total_chunks,
                    waiting,
                };
                (next, BuildAction::Reset)
            },
            (BuildPhase::Resetting, BuildEvent::ResetDone) => {
                if self.ranges.len() > 0 {
                    self.begin_batch(0)
                } else {
                    self.finish()
                }
            },
            (BuildPhase::Reading, BuildEvent::BatchRead { contents }) => {
                let (from, to) = self.ranges[self.batch];
                if contents.len() != to - from {
                    return (self, refuse());
                }
                self.read(contents)
            },
            (BuildPhase::Embedding, BuildEvent::Embedded { actual_dimensions }) => {
                let change = verify_dimensions(self.verified, actual_dimensions, self.configured);
                let IndexBuild {
                    docs,
                    chunker,
                    configured,
                    verified,
                    phase,
                    batch,
                    ranges,
                    processed_docs,
                    total_chunks,
                    waiting,
                } = self;
                match change {
                    Some(dimensions) => {
                        let next = IndexBuild {
                            docs,
                            chunker,
                            configured,
                            verified: true,
                            phase: BuildPhase::Reinitializing,
                            batch,
                            ranges,
                            processed_docs,
                            total_chunks,
                            waiting,
                        };
                        (next, BuildAction::Reinitialize { dimensions })
                    },
                    None => {
                        let next = IndexBuild {
                            docs,
                            chunker,
                            configured,
                            verified: true,
                            phase,
                            batch,
                            ranges,
                            processed_docs,
                            total_chunks,
                            waiting,
                        };
                        next.store()
                    },
                }
            },
            (BuildPhase::Reinitializing, BuildEvent::Reinitialized) => self.store(),
            (BuildPhase::Storing, BuildEvent::Stored { count }) => {
                let IndexBuild {
                    docs,
                    chunker,
                    configured,
                    verified,
                    phase,
                    batch,
                    ranges,
                    processed_docs,
                    total_chunks,
                    waiting,
                } = self;
                let next = IndexBuild {
                    docs,
                    chunker,
                    configured,
                    verified,
                    phase,
                    batch,
                    ranges,
                    processed_docs,
                    total_chunks: add_capped(total_chunks, count),
                    waiting,
                };
                next.leave_batch()
            },
            _ => (self, refuse()),
        }
    }

    /// The step into batch `b`.
    fn begin_batch(self, b: usize) -> (r: (IndexBuild, BuildAction))
        requires
            b < self@.batches(),
        ensures
            (r.0@, r.1@) == self@.begin_batch(b),
    {
        proof {
            use_type_invariant(&self);
        }
        let ghost before = self@;
        let (from, to) = self.ranges[b];
        let mut paths: Vec<String> = Vec::new();
        let mut i: usize = from;
        while i < to
            invariant
                from <= i <= to <= self.docs.len(),
                paths.len() == i - from,
                forall|k: int|
                    0 <= k < paths.len() ==> (#[trigger] paths@[k])@ == self.docs@[from + k]@.abs_path,
            decreases to - i,
        {
            paths.push(self.docs[i].abs_path.clone());
            i = i + 1;
        }
        assert(texts_of(paths@) =~= before.batch_docs(b as int).map_values(
            |d: DocView| d.abs_path,
        ));
        let progress = IndexProgress::chunking(
            b,
            self.ranges.len(),
            self.processed_docs,
            self.docs.len(),
        );
        let IndexBuild {
            docs,
            chunker,
            configured,
            verified,
            phase,
            batch,
            ranges,
            processed_docs,
            total_chunks,
            waiting,
        } = self;
        let next = IndexBuild {
            docs,
            chunker,
            configured,
            verified,
            phase: BuildPhase::Reading,
            batch: b,
            ranges,
            processed_docs,
            total_chunks,
            waiting,
        };
        (next, BuildAction::ReadBatch { progress, paths })
    }

    /// The step to the end.
    fn finish(self) -> (r: (IndexBuild, BuildAction))
        ensures
            (r.0@, r.1@) == self@.finish(),
    {
        proof {
            use_type_invariant(&self);
        }
        let progress = IndexProgress::done(self.ranges.len(), self.docs.len(), self.total_chunks);
        let total_docs = self.docs.len();
        let stored = self.total_chunks;
        let IndexBuild {
            docs,
            chunker,
            configured,
            verified,
            phase,
            batch,
            ranges,
            processed_docs,
            total_chunks,
            waiting,
        } = self;
        let next = IndexBuild {
            docs,
            chunker,
            configured,
            verified,
            phase: BuildPhase::Done,
            batch,
            ranges,
            processed_docs,
            total_chunks,
            waiting,
        };
        (next, BuildAction::Finish { progress, total_docs, total_chunks: stored })
    }

    /// The step out of the batch at work.
    fn leave_batch(self) -> (r: (IndexBuild, BuildAction))
        requires
            at_work(self@.phase),
        ensures
            (r.0@, r.1@) == self@.leave_batch(),
    {
        proof {
            use_type_invariant(&self);
        }
        if self.batch + 1 < self.ranges.len() {
            let b = self.batch + 1;
            self.begin_batch(b)
        } else {
            self.finish()
        }
    }

    /// The step that hands out the waiting chunks to be stored.
    fn store(self) -> (r: (IndexBuild, BuildAction))
        requires
            at_work(self@.phase),
        ensures
            (r.0@, r.1@) == self@.store(),
    {
        proof {
            use_type_invariant(&self);
        }
        let progress = IndexProgress::storing(self.batch, self.ranges.len());
        let IndexBuild {
            docs,
            chunker,
            configured,
            verified,
            phase,
            batch,
            ranges,
            processed_docs,
            total_chunks,
            waiting,
        } = self;
        let next = IndexBuild {
            docs,
            chunker,
            configured,
            verified,
            phase: BuildPhase::Storing,
            batch,
            ranges,
            processed_docs,
            total_chunks,
            waiting: Vec::new(),
        };
        assert(chunk_views(next.waiting@) =~= Seq::<ChunkView>::empty());
        (next, BuildAction::Store { progress, chunks: waiting })
    }

    /// The step after the files of the batch at work have been read.
    fn read(self, contents: Vec<String>) -> (r: (IndexBuild, BuildAction))
        requires
            self@.phase == BuildPhase::Reading,
            contents.len() == self@.batch_docs(self@.batch as int).len(),
        ensures
            (r.0@, r.1@) == build_step(
                self@,
                BuildEventView::BatchRead { contents: texts_of(contents@) },
            ),
    {
        proof {
            use_type_invariant(&self);
        }
        let ghost before = self@;
        let ghost all = texts_of(contents@);
        let (from, to) = self.ranges[self.batch];
        let ghost in_batch = before.batch_docs(before.batch as int);
        let mut chunks: Vec<Chunk> = Vec::new();
        let mut i: usize = 0;
        assert(in_batch.subrange(0, 0) =~= Seq::<DocView>::empty());
        assert(chunk_views(chunks@) =~= Seq::<ChunkView>::empty());
        while i < contents.len()
            invariant
                i <= contents.len(),
                contents.len() == to - from,
                from < to <= self.docs.len(),
                before == self@,
                all == texts_of(contents@),
                in_batch == doc_views(self.docs@).subrange(from as int, to as int),
                chunk_views(chunks@) == batch_chunks(
                    in_batch.subrange(0, i as int),
                    all.subrange(0, i as int),
                    before.docs,
                    before.max,
                    before.overlap,
                ),
            decreases contents.len() - i,
        {
            let ghost prev = chunk_views(chunks@);
            let doc = &self.docs[from + i];
            let mut more = chunks_for_doc(
                &self.chunker,
                doc.rel_path.as_str(),
                contents[i].as_str(),
                &self.docs,
            );
            let ghost added = chunk_views(more@);
            assert(in_batch.subrange(0, i + 1).drop_last() =~= in_batch.subrange(0, i as int));
            assert(all.subrange(0, i + 1).drop_last() =~= all.subrange(0, i as int));
            assert(in_batch.subrange(0, i + 1).last() == doc@);
            assert(all.subrange(0, i + 1).last() == contents@[i as int]@);
            chunks.append(&mut more);
            assert(chunk_views(chunks@) =~= prev + added);
            i = i + 1;
        }
        assert(in_batch.subrange(0, contents.len() as int) =~= in_batch);
        assert(all.subrange(0, contents.len() as int) =~= all);
        let read_docs = add_capped(self.processed_docs, contents.len());
        let IndexBuild {
            docs,
            chunker,
            configured,
            verified,
            phase,
            batch,
            ranges,
            processed_docs,
            total_chunks,
            waiting,
        } = self;
        if chunks.len() == 0 {
            let next = IndexBuild {
                docs,
                chunker,
                configured,
                verified,
                phase,
                batch,
                ranges,
                processed_docs: read_docs,
                total_chunks,
                waiting,
            };
            return next.leave_batch();
        }
        let mut texts: Vec<String> = Vec::new();
        let mut k: usize = 0;
        while k < chunks.len()
            invariant
                k <= chunks.len(),
                texts.len() == k,
                forall|a: int| 0 <= a < k ==> (#[trigger] texts@[a])@ == chunks@[a]@.content,
            decreases chunks.len() - k,
        {
            texts.push(chunks[k].content.clone());
            k = k + 1;
        }
        assert(texts_of(texts@) =~= chunk_views(chunks@).map_values(|c: ChunkView| c.content));
        let progress = IndexProgress::embedding(batch, ranges.len(), chunks.len());
        let next = IndexBuild {
            docs,
            chunker,
            configured,
            verified,
            phase: BuildPhase::Embedding,
            batch,
            ranges,
            processed_docs: read_docs,
            total_chunks,
            waiting: chunks,
        };
        (next, BuildAction::Embed { progress, texts })
    }
}

/// The answer to an event that does not fit.
fn refuse() -> (a: BuildAction)
    ensures
        a@ == (BuildActionView::Refuse { message: refusal_text() }),
{
    let e = SearchError::Index("unexpected event for this phase of the build".to_owned());
    proof {
        reveal_strlit("Index error: ");
        reveal_strlit("unexpected event for this phase of the build");
        reveal_strlit("Index error: unexpected event for this phase of the build");
        assert(e.display() =~= refusal_text());
    }
    BuildAction::Refuse(e)
}

} // verus!
