//! What the index is made of: the chunks of a file, the reports of
//! progress, the steps that an index action takes, and the look at the
//! vector length after the first answer of the embedding service.

use crate::chunker::{chunks_of, markdown_events, Chunker};
use crate::ideas::{entries_of, entry_views, parse_idea_entries, IdeaEntry, IdeaEntryView};
use crate::index_sync::{IndexAction, IndexActionView};
use crate::model::{doc_views, Doc, DocView};
use crate::references::{append_reference_summary, refs_of, some_text, with_references};
use crate::search_error::SearchError;
use crate::text::{
    chars_of, concat2, decimal, decimal_chars, first_index_of, find_char, is_blank, is_blank_chars,
    push_all, slice_of, starts_with, string_of, trim_chars, trimmed,
};
use crate::types::{
    chunk_views, opt_text, text_chunk_views, Chunk, ChunkView, TextChunk, TextChunkView,
};
use vstd::prelude::*;

verus! {

/// The number of documents that are chunked, embedded and stored together.
pub const DOC_BATCH_SIZE: usize = 10;

/// What is known of the index, or of a build that has ended.
#[derive(Debug)]
pub struct IndexStats {
    pub total_docs: usize,
    pub total_chunks: usize,
    pub total_tokens: Option<usize>,
    pub elapsed_ms: u64,
    /// When the index was last updated, in milliseconds since 1970.
    pub last_updated: Option<u64>,
}

/// How far a build has come.
#[derive(Debug)]
pub struct IndexProgress {
    /// `chunking`, `embedding`, `storing` or `done`.
    pub phase: String,
    /// The batch at work, counting from 1.
    pub current: usize,
    /// The number of batches.
    pub total: usize,
    pub percent: u8,
    pub message: Option<String>,
}

/// An [`IndexProgress`] as a mathematical value.
pub ghost struct ProgressView {
    pub phase: Seq<char>,
    pub current: usize,
    pub total: usize,
    pub percent: u8,
    pub message: Option<Seq<char>>,
}

impl View for IndexProgress {
    type V = ProgressView;

    open spec fn view(&self) -> ProgressView {
        ProgressView {
            phase: self.phase@,
            current: self.current,
            total: self.total,
            percent: self.percent,
            message: opt_text(self.message),
        }
    }
}

impl IndexStats {
    /// The result of a build that has ended at `now_ms` after `elapsed_ms`.
    pub fn built(total_docs: usize, total_chunks: usize, elapsed_ms: u64, now_ms: u64) -> (s:
        IndexStats)
        ensures
            s.total_docs == total_docs,
            s.total_chunks == total_chunks,
            s.total_tokens is None,
            s.elapsed_ms == elapsed_ms,
            s.last_updated == Some(now_ms),
    {
        IndexStats {
            total_docs,
            total_chunks,
            total_tokens: None,
            elapsed_ms,
            last_updated: Some(now_ms),
        }
    }

    /// What is known of an index with `chunk_count` chunks. The number
    /// of documents is not kept.
    pub fn stored(chunk_count: usize, last_updated: Option<u64>) -> (s: IndexStats)
        ensures
            s.total_docs == 0,
            s.total_chunks == chunk_count,
            s.total_tokens is None,
            s.elapsed_ms == 0,
            s.last_updated == last_updated,
    {
        IndexStats {
            total_docs: 0,
            total_chunks: chunk_count,
            total_tokens: None,
            elapsed_ms: 0,
            last_updated,
        }
    }
}

/// The share of the work that is done when batch `batch`, counting from
/// 0, of `total` has come `offset` hundredths of a batch far, as a whole
/// percentage kept in eight bits.
pub open spec fn percent_of(batch: usize, total: usize, offset: usize) -> u8 {
    (((batch * 100 + offset) / (if total == 0 {
        1
    } else {
        total as int
    })) % 256) as u8
}

/// The share of the work that is done, as [`percent_of`] says.
pub fn percent(batch: usize, total: usize, offset: u8) -> (p: u8)
    ensures
        p == percent_of(batch, total, offset as usize),
        batch < total && offset < 100 ==> p < 100,
{
    let done: u128 = (batch as u128) * 100 + (offset as u128);
    let of: u128 = if total == 0 {
        1
    } else {
        total as u128
    };
    let share: u128 = done / of;
    proof {
        if batch < total && offset < 100 {
            assert(done < 100 * of);
            assert(share < 100) by (nonlinear_arith)
                requires
                    share == done / of,
                    done < 100 * of,
                    of > 0,
            ;
        }
    }
    (share % 256) as u8
}

/// The message while documents are chunked.
pub open spec fn chunking_message(processed: usize, total: usize) -> Seq<char> {
    "\u{6b63}\u{5728}\u{5206}\u{5757}\u{5904}\u{7406}\u{6587}\u{6863} ("@ + decimal(
        processed as nat,
    ) + "/"@ + decimal(total as nat) + ")"@
}

/// The message while vectors are made.
pub open spec fn embedding_message(chunks: usize) -> Seq<char> {
    "\u{6b63}\u{5728}\u{751f}\u{6210}\u{5411}\u{91cf} ("@ + decimal(chunks as nat)
        + " \u{4e2a}\u{6587}\u{672c}\u{5757})"@
}

/// The message while chunks are stored.
pub open spec fn storing_message() -> Seq<char> {
    "\u{6b63}\u{5728}\u{5199}\u{5165}\u{7d22}\u{5f15}..."@
}

/// The message when the build has ended.
pub open spec fn done_message(docs: usize, chunks: usize) -> Seq<char> {
    "\u{7d22}\u{5f15}\u{6784}\u{5efa}\u{5b8c}\u{6210}\u{ff01}\u{5171} "@ + decimal(docs as nat)
        + " \u{4e2a}\u{6587}\u{6863}\u{ff0c}"@ + decimal(chunks as nat)
        + " \u{4e2a}\u{6587}\u{672c}\u{5757}"@
}

/// The report while the documents of batch `batch` are chunked.
pub open spec fn chunking_progress(batch: usize, total: usize, processed: usize, docs: usize) -> ProgressView {
    ProgressView {
        phase: "chunking"@,
        current: (batch + 1) as usize,
        total,
        percent: percent_of(batch, total, 0),
        message: Some(chunking_message(processed, docs)),
    }
}

/// The report while the chunks of batch `batch` are embedded.
pub open spec fn embedding_progress(batch: usize, total: usize, chunks: usize) -> ProgressView {
    ProgressView {
        phase: "embedding"@,
        current: (batch + 1) as usize,
        total,
        percent: percent_of(batch, total, 33),
        message: Some(embedding_message(chunks)),
    }
}

/// The report while the chunks of batch `batch` are stored.
pub open spec fn storing_progress(batch: usize, total: usize) -> ProgressView {
    ProgressView {
        phase: "storing"@,
        current: (batch + 1) as usize,
        total,
        percent: percent_of(batch, total, 66),
        message: Some(storing_message()),
    }
}

/// The report when the build has ended.
pub open spec fn done_progress(total: usize, docs: usize, chunks: usize) -> ProgressView {
    ProgressView {
        phase: "done"@,
        current: total,
        total,
        percent: 100,
        message: Some(done_message(docs, chunks)),
    }
}

impl IndexProgress {
    /// The report while the documents of batch `batch`, counting from 0
    /// and below `total`, are chunked.
    pub fn chunking(batch: usize, total: usize, processed: usize, docs: usize) -> (p: IndexProgress)
        requires
            batch < total,
        ensures
            p@ == chunking_progress(batch, total, processed, docs),
    {
        let mut message = chars_of(
            "\u{6b63}\u{5728}\u{5206}\u{5757}\u{5904}\u{7406}\u{6587}\u{6863} (",
        );
        push_all(&mut message, &decimal_chars(processed));
        message.push('/');
        push_all(&mut message, &decimal_chars(docs));
        message.push(')');
        proof {
            reveal_strlit("/");
            reveal_strlit(")");
            assert(message@ =~= chunking_message(processed, docs));
        }
        IndexProgress {
            phase: "chunking".to_owned(),
            current: batch + 1,
            total,
            percent: percent(batch, total, 0),
            message: Some(string_of(&message)),
        }
    }

    /// The report while the `chunks` chunks of batch `batch` are embedded.
    pub fn embedding(batch: usize, total: usize, chunks: usize) -> (p: IndexProgress)
        requires
            batch < total,
        ensures
            p@ == embedding_progress(batch, total, chunks),
    {
        let mut message = chars_of("\u{6b63}\u{5728}\u{751f}\u{6210}\u{5411}\u{91cf} (");
        push_all(&mut message, &decimal_chars(chunks));
        push_all(&mut message, &chars_of(" \u{4e2a}\u{6587}\u{672c}\u{5757})"));
        IndexProgress {
            phase: "embedding".to_owned(),
            current: batch + 1,
            total,
            percent: percent(batch, total, 33),
            message: Some(string_of(&message)),
        }
    }

    /// The report while the chunks of batch `batch` are stored.
    pub fn storing(batch: usize, total: usize) -> (p: IndexProgress)
        requires
            batch < total,
        ensures
            p@ == storing_progress(batch, total),
    {
        IndexProgress {
            phase: "storing".to_owned(),
            current: batch + 1,
            total,
            percent: percent(batch, total, 66),
            message: Some("\u{6b63}\u{5728}\u{5199}\u{5165}\u{7d22}\u{5f15}...".to_owned()),
        }
    }

    /// The report when the build has ended.
    pub fn done(total: usize, docs: usize, chunks: usize) -> (p: IndexProgress)
        ensures
            p@ == done_progress(total, docs, chunks),
    {
        let mut message = chars_of(
            "\u{7d22}\u{5f15}\u{6784}\u{5efa}\u{5b8c}\u{6210}\u{ff01}\u{5171} ",
        );
        push_all(&mut message, &decimal_chars(docs));
        push_all(&mut message, &chars_of(" \u{4e2a}\u{6587}\u{6863}\u{ff0c}"));
        push_all(&mut message, &decimal_chars(chunks));
        push_all(&mut message, &chars_of(" \u{4e2a}\u{6587}\u{672c}\u{5757}"));
        IndexProgress {
            phase: "done".to_owned(),
            current: total,
            total,
            percent: 100,
            message: Some(string_of(&message)),
        }
    }
}

/// The chunk for the `i`-th piece of the document `rel`.
pub open spec fn doc_chunk_of(rel: Seq<char>, i: usize, piece: TextChunkView) -> ChunkView {
    ChunkView {
        id: rel + seq!['#'] + decimal(i as nat),
        file_path: rel,
        content: piece.content,
        heading_path: piece.heading_path,
        section_title: None,
        doc_type: Some("doc"@),
        entry_id: None,
        entry_date: None,
        entry_created_at: None,
        chunk_index: i,
    }
}

/// The chunks for the pieces of the document `rel`.
pub open spec fn doc_chunks_of(rel: Seq<char>, pieces: Seq<TextChunkView>) -> Seq<ChunkView> {
    Seq::new(pieces.len(), |i: int| doc_chunk_of(rel, i as usize, pieces[i]))
}

/// The first line of `text`.
pub open spec fn first_line(text: Seq<char>) -> Seq<char> {
    text.subrange(0, first_index_of(text, '\n'))
}

/// The day of a creation time: its first ten characters, if it has ten.
pub open spec fn day_of(created_at: Seq<char>) -> Option<Seq<char>> {
    if created_at.len() >= 10 {
        Some(created_at.subrange(0, 10))
    } else {
        None
    }
}

/// The chunk for the `i`-th entry of the idea file `rel`, with `content`
/// as the text that is embedded.
pub open spec fn idea_chunk_of(rel: Seq<char>, i: usize, entry: IdeaEntryView, content: Seq<char>) -> ChunkView {
    ChunkView {
        id: rel + seq!['#'] + entry.id,
        file_path: rel,
        content,
        heading_path: Seq::empty(),
        section_title: some_text(trimmed(first_line(entry.content))),
        doc_type: Some("idea"@),
        entry_id: Some(entry.id),
        entry_date: day_of(entry.created_at),
        entry_created_at: Some(entry.created_at),
        chunk_index: i,
    }
}

/// The chunks for the entries of the idea file `rel`: each entry with a
/// trailer for its links to the documents `docs`.
pub open spec fn idea_chunks_of(rel: Seq<char>, entries: Seq<IdeaEntryView>, docs: Seq<DocView>) -> Seq<
    ChunkView,
> {
    Seq::new(
        entries.len(),
        |i: int|
            idea_chunk_of(
                rel,
                i as usize,
                entries[i],
                with_references(entries[i].content, refs_of(entries[i].content), docs),
            ),
    )
}

/// The chunks of the file `rel` with the content `content`: none for a
/// blank file, one for each entry of an idea file, else one for each piece
/// that the chunker cuts.
pub open spec fn file_chunks_of(
    rel: Seq<char>,
    content: Seq<char>,
    docs: Seq<DocView>,
    max: usize,
    overlap: usize,
) -> Seq<ChunkView> {
    if is_blank(content) {
        Seq::empty()
    } else if ".ideas/"@.is_prefix_of(rel) {
        idea_chunks_of(rel, entries_of(content), docs)
    } else {
        doc_chunks_of(rel, chunks_of(markdown_events(content), max, overlap))
    }
}

/// The chunk for the `index`-th piece of the document `rel_path`.
pub fn doc_chunk(rel_path: &str, index: usize, piece: &TextChunk) -> (c: Chunk)
    ensures
        c@ == doc_chunk_of(rel_path@, index, piece@),
{
    let mut id = chars_of(rel_path);
    id.push('#');
    push_all(&mut id, &decimal_chars(index));
    assert(id@ =~= rel_path@ + seq!['#'] + decimal(index as nat));
    Chunk {
        id: string_of(&id),
        file_path: rel_path.to_owned(),
        content: piece.content.clone(),
        heading_path: piece.heading_path.clone(),
        section_title: None,
        doc_type: Some("doc".to_owned()),
        entry_id: None,
        entry_date: None,
        entry_created_at: None,
        chunk_index: index,
    }
}

/// The chunk for the `index`-th entry of the idea file `rel_path`, with
/// `content` as the text that is embedded.
pub fn idea_chunk(rel_path: &str, index: usize, entry: &IdeaEntry, content: String) -> (c: Chunk)
    ensures
        c@ == idea_chunk_of(rel_path@, index, entry@, content@),
{
    let mut id = chars_of(rel_path);
    id.push('#');
    push_all(&mut id, &chars_of(entry.id.as_str()));
    assert(id@ =~= rel_path@ + seq!['#'] + entry.id@);
    let body = chars_of(entry.content.as_str());
    let line_end = match find_char(&body, '\n') {
        Some(i) => i,
        None => body.len(),
    };
    let title = trim_chars(&slice_of(&body, 0, line_end));
    let created = chars_of(entry.created_at.as_str());
    Chunk {
        id: string_of(&id),
        file_path: rel_path.to_owned(),
        content,
        heading_path: String::new(),
        section_title: if title.len() == 0 {
            None
        } else {
            Some(string_of(&title))
        },
        doc_type: Some("idea".to_owned()),
        entry_id: Some(entry.id.clone()),
        entry_date: if created.len() >= 10 {
            Some(string_of(&slice_of(&created, 0, 10)))
        } else {
            None
        },
        entry_created_at: Some(entry.created_at.clone()),
        chunk_index: index,
    }
}

/// The chunks of the file `rel_path` with the content `content`, as
/// [`file_chunks_of`] says. `docs` are the documents that a link in an
/// idea entry may name.
pub fn chunks_for_doc(chunker: &Chunker, rel_path: &str, content: &str, docs: &Vec<Doc>) -> (chunks:
    Vec<Chunk>)
    ensures
        chunk_views(chunks@) == file_chunks_of(
            rel_path@,
            content@,
            doc_views(docs@),
            chunker.max_chars(),
            chunker.overlap(),
        ),
{
    let mut chunks: Vec<Chunk> = Vec::new();
    if is_blank_chars(&chars_of(content)) {
        assert(chunk_views(chunks@) =~= Seq::<ChunkView>::empty());
        return chunks;
    }
    if starts_with(&chars_of(rel_path), &chars_of(".ideas/")) {
        let entries = parse_idea_entries(content);
        let mut i: usize = 0;
        while i < entries.len()
            invariant
                i <= entries.len(),
                chunks.len() == i,
                forall|k: int|
                    0 <= k < i ==> (#[trigger] chunks@[k])@ == idea_chunk_of(
                        rel_path@,
                        k as usize,
                        entries@[k]@,
                        with_references(
                            entries@[k]@.content,
                            refs_of(entries@[k]@.content),
                            doc_views(docs@),
                        ),
                    ),
            decreases entries.len() - i,
        {
            let text = append_reference_summary(entries[i].content.as_str(), docs);
            chunks.push(idea_chunk(rel_path, i, &entries[i], text));
            i = i + 1;
        }
        assert(chunk_views(chunks@) =~= idea_chunks_of(
            rel_path@,
            entry_views(entries@),
            doc_views(docs@),
        ));
    } else {
        let pieces = chunker.chunk(content, rel_path);
        let mut i: usize = 0;
        while i < pieces.len()
            invariant
                i <= pieces.len(),
                chunks.len() == i,
                forall|k: int|
                    0 <= k < i ==> (#[trigger] chunks@[k])@ == doc_chunk_of(
                        rel_path@,
                        k as usize,
                        pieces@[k]@,
                    ),
            decreases pieces.len() - i,
        {
            chunks.push(doc_chunk(rel_path, i, &pieces[i]));
            i = i + 1;
        }
        assert(chunk_views(chunks@) =~= doc_chunks_of(rel_path@, text_chunk_views(pieces@)));
    }
    chunks
}

/// The error for a file that is to be indexed and is not there.
pub fn file_not_found(rel_path: &str) -> (e: SearchError)
    ensures
        e matches SearchError::Index(m) && m@ == "File not found: "@ + rel_path@,
{
    SearchError::Index(concat2("File not found: ", rel_path))
}

/// One step on the index.
#[derive(Debug)]
pub enum IndexStep {
    /// Remove the chunks of the file.
    RemoveFile { rel_path: String },
    /// Chunk, embed and store the file, which has to be there.
    IndexFile { rel_path: String },
    /// Chunk, embed and store the file if it is there.
    IndexFileIfPresent { rel_path: String },
}

/// An [`IndexStep`] as a mathematical value.
pub ghost enum IndexStepView {
    RemoveFile { rel_path: Seq<char> },
    IndexFile { rel_path: Seq<char> },
    IndexFileIfPresent { rel_path: Seq<char> },
}

impl View for IndexStep {
    type V = IndexStepView;

    open spec fn view(&self) -> IndexStepView {
        match self {
            IndexStep::RemoveFile { rel_path } => IndexStepView::RemoveFile { rel_path: rel_path@ },
            IndexStep::IndexFile { rel_path } => IndexStepView::IndexFile { rel_path: rel_path@ },
            IndexStep::IndexFileIfPresent { rel_path } => IndexStepView::IndexFileIfPresent {
                rel_path: rel_path@,
            },
        }
    }
}

/// The views of a sequence of steps.
pub open spec fn step_views(steps: Seq<IndexStep>) -> Seq<IndexStepView> {
    Seq::new(steps.len(), |i: int| steps[i]@)
}

/// The steps that an action takes: an update indexes the file, whose
/// old chunks go first; a removal removes them; a rename removes the
/// chunks under the old path and indexes the file under the new one, if
/// it is there.
pub open spec fn steps_of(action: IndexActionView) -> Seq<IndexStepView> {
    match action {
        IndexActionView::Update { rel_path } => seq![IndexStepView::IndexFile { rel_path }],
        IndexActionView::Remove { rel_path } => seq![IndexStepView::RemoveFile { rel_path }],
        IndexActionView::Rename { old_path, new_path } => seq![
            IndexStepView::RemoveFile { rel_path: old_path },
            IndexStepView::IndexFileIfPresent { rel_path: new_path },
        ],
    }
}

/// The steps that `action` takes, as [`steps_of`] says.
pub fn action_steps(action: &IndexAction) -> (steps: Vec<IndexStep>)
    ensures
        step_views(steps@) == steps_of(action@),
{
    let mut steps: Vec<IndexStep> = Vec::new();
    match action {
        IndexAction::Update { rel_path } => {
            steps.push(IndexStep::IndexFile { rel_path: rel_path.clone() });
        },
        IndexAction::Remove { rel_path } => {
            steps.push(IndexStep::RemoveFile { rel_path: rel_path.clone() });
        },
        IndexAction::Rename { old_path, new_path } => {
            steps.push(IndexStep::RemoveFile { rel_path: old_path.clone() });
            steps.push(IndexStep::IndexFileIfPresent { rel_path: new_path.clone() });
        },
    }
    assert(step_views(steps@) =~= steps_of(action@));
    steps
}

/// Whether the vector store has to be made anew for vectors of another
/// length: it has where the first answer of the embedding service is
/// looked at and its vectors are not of the configured length. The result
/// names the new length.
pub open spec fn dimension_change(verified: bool, actual: usize, configured: usize) -> Option<
    usize,
> {
    if !verified && actual > 0 && actual != configured {
        Some(actual)
    } else {
        None
    }
}

/// Looks at the vector length after an answer of the embedding
/// service, as [`dimension_change`] says.
pub fn verify_dimensions(verified: bool, actual: usize, configured: usize) -> (r: Option<usize>)
    ensures
        r == dimension_change(verified, actual, configured),
{
    if !verified && actual > 0 && actual != configured {
        Some(actual)
    } else {
        None
    }
}

} // verus!
